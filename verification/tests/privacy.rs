use autoresearch::binary64::Binary64;
use autoresearch::privacy::{
    bucket_n, improvement_band, redact, EgressPolicy, FeedbackLevel, PrivacyError, PrivacyTier,
    ResearcherCapabilities, ResearcherFeedback, SubmissionBudget,
};
use autoresearch::types::{Gate, Lift, Measurement};

fn b(x: f64) -> Binary64 {
    Binary64 { bits: x.to_bits() }
}

const ALL_TIERS: [PrivacyTier; 4] = [
    PrivacyTier::BlackBox,
    PrivacyTier::RedactedFeedback,
    PrivacyTier::WhiteBoxNoEgress,
    PrivacyTier::AttestedHarness,
];

fn good_lift() -> Lift {
    Lift {
        delta: b(0.35),
        ci_lower: b(0.30),
        ci_upper: b(0.40),
        n: 80,
    }
}

fn good_measurement() -> Measurement {
    Measurement {
        value: b(0.85),
        ci_lower: b(0.80),
        ci_upper: b(0.90),
        n: 80,
        cost: b(80.0),
        cost_per_task: b(1.0),
    }
}

#[test]
fn all_three_capabilities_is_rejected() {
    let all_three = ResearcherCapabilities {
        arbitrary_code: true,
        raw_data_access: true,
        free_egress: true,
    };
    assert!(!all_three.exfiltration_safe());
    assert_eq!(
        all_three.validate(),
        Err(PrivacyError::AllThreeCapabilities)
    );
}

#[test]
fn every_pair_of_two_is_safe() {
    let pairs = [
        (false, true, true),
        (true, false, true),
        (true, true, false),
        (true, false, false),
        (false, false, false),
    ];
    for (ac, rd, fe) in pairs {
        let caps = ResearcherCapabilities {
            arbitrary_code: ac,
            raw_data_access: rd,
            free_egress: fe,
        };
        assert!(caps.exfiltration_safe(), "{caps:?} should be safe");
        assert!(caps.validate().is_ok());
    }
}

#[test]
fn every_tier_capability_config_passes_validate() {
    for tier in ALL_TIERS {
        let caps = tier.capabilities();
        assert!(
            caps.validate().is_ok(),
            "{tier:?} capabilities must satisfy the hard rule: {caps:?}"
        );
        let dropped = tier.dropped_capability();
        let is_false = match dropped {
            "arbitrary_code" => !caps.arbitrary_code,
            "raw_data_access" => !caps.raw_data_access,
            "free_egress" => !caps.free_egress,
            other => panic!("unexpected dropped capability {other}"),
        };
        assert!(is_false, "{tier:?} claims to drop {dropped} but it is set");
    }
}

#[test]
fn blackbox_feedback_withholds_the_lift() {
    let lift = good_lift();
    let fb = redact(
        PrivacyTier::BlackBox,
        &lift,
        &good_measurement(),
        &Gate::default(),
    );
    match &fb {
        ResearcherFeedback::Verdict { cleared_gate } => assert!(*cleared_gate),
        other => panic!("black-box must yield a bare verdict, got {other:?}"),
    }
    let serialized = format!("{fb:?}");
    assert!(
        !serialized.contains("0.35") && !serialized.contains(&0.35f64.to_bits().to_string()),
        "black-box feedback must not leak the lift delta: {serialized}"
    );
    assert!(
        !serialized.contains("delta"),
        "black-box feedback must not even carry a lift field: {serialized}"
    );
}

#[test]
fn redacted_feedback_gives_a_band_not_the_number() {
    let lift = good_lift();
    let fb = redact(
        PrivacyTier::RedactedFeedback,
        &lift,
        &good_measurement(),
        &Gate::default(),
    );
    match &fb {
        ResearcherFeedback::Redacted {
            summary,
            cleared_gate,
        } => {
            assert!(*cleared_gate);
            assert!(summary.contains("improvement_band=large"));
            assert!(
                !summary.contains("0.35"),
                "redacted summary must not carry the exact lift: {summary}"
            );
        }
        other => panic!("redacted tier must yield Redacted, got {other:?}"),
    }
}

#[test]
fn whitebox_and_attested_feedback_reveal_the_full_lift() {
    for tier in [PrivacyTier::WhiteBoxNoEgress, PrivacyTier::AttestedHarness] {
        let lift = good_lift();
        let fb = redact(tier, &lift, &good_measurement(), &Gate::default());
        match fb {
            ResearcherFeedback::Full {
                lift: got,
                measurement: _,
                cleared_gate,
            } => {
                assert!(cleared_gate);
                assert_eq!(got.delta.bits, lift.delta.bits, "{tier:?} must reveal the full lift");
            }
            other => panic!("{tier:?} must yield Full feedback, got {other:?}"),
        }
    }
}

#[test]
fn cleared_gate_is_consistent_across_levels() {
    let weak = Lift {
        delta: b(0.001),
        ci_lower: b(-0.01),
        ci_upper: b(0.02),
        n: 80,
    };
    for tier in ALL_TIERS {
        let fb = redact(tier, &weak, &good_measurement(), &Gate::default());
        assert!(!fb.cleared_gate(), "{tier:?} weak lift must not clear");
    }
}

#[test]
fn submission_budget_bounds_queries() {
    let mut budget = SubmissionBudget::new(2);
    assert_eq!(budget.remaining(), 2);
    assert!(budget.try_consume());
    assert!(budget.try_consume());
    assert_eq!(budget.remaining(), 0);
    assert!(!budget.try_consume());
    assert!(!budget.has_remaining());
    assert_eq!(budget.used, 2);
}

#[test]
fn egress_allowlist_permits_only_listed_hosts() {
    let policy = EgressPolicy::allowlisted(vec!["model.endpoint".into()]);
    assert!(policy.allows("model.endpoint"));
    assert!(!policy.allows("evil.example"));
    assert_eq!(
        policy.check("evil.example"),
        Err(PrivacyError::EgressDenied {
            host: "evil.example".into()
        })
    );
    assert!(policy.check("model.endpoint").is_ok());
}

#[test]
fn no_egress_reaches_nothing() {
    let policy = EgressPolicy::no_egress();
    assert!(!policy.allows("model.endpoint"));
    assert!(!policy.allows("anything"));
}

#[test]
fn requires_attestation_only_for_whitebox_tiers() {
    assert!(!PrivacyTier::BlackBox.requires_attestation());
    assert!(!PrivacyTier::RedactedFeedback.requires_attestation());
    assert!(PrivacyTier::WhiteBoxNoEgress.requires_attestation());
    assert!(PrivacyTier::AttestedHarness.requires_attestation());
}

#[test]
fn feedback_levels_follow_the_tiers() {
    assert_eq!(
        ALL_TIERS.map(|t| t.feedback_level()),
        [
            FeedbackLevel::GateVerdictOnly,
            FeedbackLevel::RedactedDiagnostics,
            FeedbackLevel::FullPlaintext,
            FeedbackLevel::FullPlaintext,
        ]
    );
}

#[test]
fn bands_and_buckets_are_coarse() {
    for (delta, band) in [
        (f64::NAN, "none"),
        (-1.0, "none"),
        (0.0, "none"),
        (0.001, "small"),
        (0.0499, "small"),
        (0.05, "moderate"),
        (0.1999, "moderate"),
        (0.2, "large"),
        (3.0, "large"),
    ] {
        assert_eq!(improvement_band(b(delta)), band, "band of {delta}");
    }
    for (n, floor) in [(0, 0), (11, 0), (12, 12), (49, 12), (50, 50), (199, 50), (200, 200)] {
        assert_eq!(bucket_n(n), floor, "bucket of {n}");
    }
}

#[test]
fn two_lifts_in_one_band_give_the_same_redacted_feedback() {
    let mut near = good_lift();
    near.delta = b(0.36);
    let gate = Gate::default();
    let shown = |l: &Lift| redact(PrivacyTier::RedactedFeedback, l, &good_measurement(), &gate);
    assert_eq!(shown(&good_lift()), shown(&near));
    match shown(&good_lift()) {
        ResearcherFeedback::Redacted { summary, .. } => {
            assert_eq!(summary, "cleared=true; improvement_band=large; episodes>=50")
        }
        other => panic!("unexpected {other:?}"),
    }
}

#[test]
fn an_open_policy_reaches_everything() {
    let policy = EgressPolicy {
        allowlist: vec![],
        default_deny: false,
    };
    assert!(policy.allows("anything"));
    assert!(policy.check("anything").is_ok());
}

#[test]
fn an_exhausted_budget_stays_exhausted() {
    let mut budget = SubmissionBudget {
        max_submissions: 1,
        used: 5,
    };
    assert_eq!(budget.remaining(), 0);
    assert!(!budget.try_consume());
    assert_eq!(budget.used, 5);
}

#[test]
fn every_level_tells_the_verdict_of_the_gate_that_was_applied() {
    let strict = Gate {
        min_lift_ci_lower: b(0.5),
        cost_per_task_ceiling: None,
        min_n: 12,
    };
    for tier in ALL_TIERS {
        assert!(!redact(tier, &good_lift(), &good_measurement(), &strict).cleared_gate());
        assert!(redact(tier, &good_lift(), &good_measurement(), &Gate::default()).cleared_gate());
    }
}

#[test]
fn every_privacy_error_has_its_message() {
    assert_eq!(
        PrivacyError::AllThreeCapabilities.message(),
        "researcher capabilities {arbitrary_code, raw_data_access, free_egress} are all true: \
         this is exfiltration-by-design (PRIVACY §4); a privacy tier must drop one"
    );
    assert_eq!(
        PrivacyError::EgressDenied {
            host: "evil.example".into()
        }
        .message(),
        "egress to evil.example denied: not on the brokered allowlist (PRIVACY §6)"
    );
    assert_eq!(
        PrivacyError::AttestationRequired.message(),
        "this tier requires a TEE attestation but none was supplied (PRIVACY §7)"
    );
    assert_eq!(
        PrivacyError::AttestationInvalid.message(),
        "attestation failed structural validation (PRIVACY §12); it cannot back a private run"
    );
}
