use autoresearch::attestation::{AttestationVerdict, LocalReferee, TeeType};
use autoresearch::binary64::Binary64;
use autoresearch::orchestrator::{
    CompetitionConfig, ProtocolError, ResearcherRun, RunFailure, ScoredRun,
};
use autoresearch::privacy::{
    EgressPolicy, PrivacyError, PrivacyTier, ResearcherCapabilities, ResearcherFeedback,
};
use autoresearch::private::{run_private_competitive, PrivateCompetitionConfig, PrivateOutcome};
use autoresearch::reward::RewardSchedule;
use autoresearch::traits::{EngineError, Scorer};
use autoresearch::types::{
    ArtifactRef, Cadence, Gate, Knobs, Lift, Measurement, ScorerKind, Structure, Visibility,
};

fn b(x: f64) -> Binary64 {
    Binary64 { bits: x.to_bits() }
}

/// A measurement in doubles.
#[derive(Clone, Copy)]
struct Doubles {
    value: f64,
    ci_lower: f64,
    ci_upper: f64,
    n: u32,
    cost: f64,
}

impl Doubles {
    fn measurement(self) -> Measurement {
        Measurement {
            value: b(self.value),
            ci_lower: b(self.ci_lower),
            ci_upper: b(self.ci_upper),
            n: self.n,
            cost: b(self.cost),
            cost_per_task: b(self.cost / f64::from(self.n)),
        }
    }

    fn standard_error(self) -> f64 {
        (self.ci_upper - self.ci_lower) / (2.0 * 1.96)
    }

    fn lift_over(self, base: Doubles) -> Lift {
        let delta = self.value - base.value;
        let se = (self.standard_error().powi(2) + base.standard_error().powi(2)).sqrt();
        Lift {
            delta: b(delta),
            ci_lower: b(delta - 1.96 * se),
            ci_upper: b(delta + 1.96 * se),
            n: self.n.min(base.n),
        }
    }
}

fn score(artifact: f64) -> Doubles {
    Doubles {
        value: artifact,
        ci_lower: (artifact - 0.02).max(0.0),
        ci_upper: (artifact + 0.02).min(1.0),
        n: 80,
        cost: 80.0,
    }
}

fn run(researcher: &str, artifact: f64) -> ScoredRun {
    ScoredRun {
        researcher: researcher.into(),
        result: Ok((
            score(artifact).lift_over(score(0.5)),
            score(artifact).measurement(),
        )),
    }
}

struct ScalarScorer;

impl Scorer for ScalarScorer {
    type Artifact = f64;

    fn id(&self) -> &str {
        "scalar-scorer"
    }
}

fn private_knobs() -> Knobs {
    Knobs {
        structure: Structure::Competitive,
        cadence: Cadence::OneShot,
        visibility: Visibility::Private,
        scorer_kind: ScorerKind::HeldOutEval,
    }
}

fn black_box_cfg() -> PrivateCompetitionConfig {
    PrivateCompetitionConfig {
        base: CompetitionConfig {
            id: 1,
            gate: Gate::default(),
            reward: RewardSchedule::TerminalPrize,
            reward_pool_wei: 1_000_000,
            knobs: private_knobs(),
        },
        tier: PrivacyTier::BlackBox,
        required_tee: TeeType::NoTee,
        egress: None,
        sealed_baseline: ArtifactRef("sealed:baseline".into()),
    }
}

fn decide(
    cfg: &PrivateCompetitionConfig,
    runs: Vec<ScoredRun>,
) -> Result<PrivateOutcome, ProtocolError> {
    let researchers: Vec<ResearcherRun> = runs
        .iter()
        .map(|run| ResearcherRun {
            researcher: run.researcher.clone(),
            seed: 0,
        })
        .collect();
    run_private_competitive(cfg, &LocalReferee::new(ScalarScorer), &researchers, &runs)
}

#[test]
fn blackbox_researchers_get_only_a_verdict_and_winner_is_paid() {
    let outcome = decide(
        &black_box_cfg(),
        vec![run("0xstrong", 0.9), run("0xweak", 0.51)],
    )
    .unwrap();

    assert_eq!(outcome.winners, 1);
    assert_eq!(outcome.ranked[0].0, "0xstrong");
    assert_eq!(outcome.payouts.len(), 1);
    assert_eq!(outcome.payouts[0].researcher, "0xstrong");

    for view in &outcome.feedback {
        match &view.feedback {
            ResearcherFeedback::Verdict { .. } => {}
            other => panic!("black-box feedback must be a verdict, got {other:?}"),
        }
    }
    let strong_fb = outcome
        .feedback
        .iter()
        .find(|v| v.researcher == "0xstrong")
        .unwrap();
    assert!(strong_fb.feedback.cleared_gate());
    let weak_fb = outcome
        .feedback
        .iter()
        .find(|v| v.researcher == "0xweak")
        .unwrap();
    assert!(!weak_fb.feedback.cleared_gate());

    assert_eq!(outcome.attestation_hashes.len(), 2);
    for (_, h) in &outcome.attestation_hashes {
        assert_eq!(h.len(), 64, "keccak256 hex");
    }
    assert_eq!(outcome.attestation_verdict, AttestationVerdict::Unverified);
}

#[test]
fn all_three_capability_tier_would_be_rejected() {
    let all_three = ResearcherCapabilities {
        arbitrary_code: true,
        raw_data_access: true,
        free_egress: true,
    };
    assert_eq!(
        all_three.validate(),
        Err(PrivacyError::AllThreeCapabilities)
    );
}

#[test]
fn requiring_a_real_tee_with_a_local_referee_fails_closed() {
    let mut cfg = black_box_cfg();
    cfg.required_tee = TeeType::PhalaTdx;
    cfg.tier = PrivacyTier::WhiteBoxNoEgress;
    cfg.egress = PrivateCompetitionConfig::default_egress_for_tier(cfg.tier, vec![]);
    let err = decide(&cfg, vec![run("0xr", 0.9)]).unwrap_err();
    assert!(
        matches!(
            err,
            ProtocolError::Privacy(PrivacyError::AttestationInvalid)
        ),
        "expected AttestationInvalid, got {err:?}"
    );
}

#[test]
fn whitebox_tier_reveals_full_feedback() {
    let mut cfg = black_box_cfg();
    cfg.tier = PrivacyTier::AttestedHarness;
    cfg.required_tee = TeeType::PhalaTdx;
    cfg.egress = PrivateCompetitionConfig::default_egress_for_tier(
        cfg.tier,
        vec!["model.endpoint".into()],
    );
    let err = decide(&cfg, vec![run("0xr", 0.9)]).unwrap_err();
    assert!(
        matches!(
            err,
            ProtocolError::Privacy(PrivacyError::AttestationInvalid)
        ),
        "attested tier with an unsatisfiable local TEE must fail closed, got {err:?}"
    );
}

#[test]
fn attestation_reliant_tier_without_tee_is_rejected() {
    for tier in [PrivacyTier::WhiteBoxNoEgress, PrivacyTier::AttestedHarness] {
        let mut cfg = black_box_cfg();
        cfg.tier = tier;
        cfg.required_tee = TeeType::NoTee;
        cfg.egress = PrivateCompetitionConfig::default_egress_for_tier(tier, vec![]);
        let err = decide(&cfg, vec![run("0xr", 0.9)]).unwrap_err();
        assert!(
            matches!(
                err,
                ProtocolError::Privacy(PrivacyError::AttestationRequired)
            ),
            "{tier:?} with no TEE must be rejected, got {err:?}"
        );
    }
}

#[test]
fn no_egress_tier_with_missing_or_open_policy_is_rejected() {
    let mut missing = black_box_cfg();
    missing.tier = PrivacyTier::WhiteBoxNoEgress;
    missing.required_tee = TeeType::PhalaTdx;
    missing.egress = None;
    let err = decide(&missing, vec![run("0xr", 0.9)]).unwrap_err();
    assert!(
        matches!(
            err,
            ProtocolError::Privacy(PrivacyError::EgressDenied { .. })
        ),
        "no-egress tier with a missing policy must be rejected, got {err:?}"
    );

    let mut open = black_box_cfg();
    open.tier = PrivacyTier::WhiteBoxNoEgress;
    open.required_tee = TeeType::PhalaTdx;
    open.egress = Some(EgressPolicy {
        allowlist: vec![],
        default_deny: false,
    });
    let err = decide(&open, vec![run("0xr", 0.9)]).unwrap_err();
    assert!(
        matches!(
            err,
            ProtocolError::Privacy(PrivacyError::EgressDenied { .. })
        ),
        "no-egress tier with an open policy must be rejected, got {err:?}"
    );
}

#[test]
fn default_egress_for_tier_is_fail_closed_for_no_egress_tiers() {
    assert_eq!(
        PrivateCompetitionConfig::default_egress_for_tier(
            PrivacyTier::WhiteBoxNoEgress,
            vec!["x".into()]
        ),
        Some(EgressPolicy::no_egress())
    );
    let attested = PrivateCompetitionConfig::default_egress_for_tier(
        PrivacyTier::AttestedHarness,
        vec!["model.endpoint".into()],
    )
    .unwrap();
    assert!(attested.default_deny);
    assert!(attested.allows("model.endpoint"));
    assert!(!attested.allows("evil.example"));
    assert_eq!(
        PrivateCompetitionConfig::default_egress_for_tier(PrivacyTier::BlackBox, vec![]),
        None
    );
    assert_eq!(
        PrivateCompetitionConfig::default_egress_for_tier(PrivacyTier::RedactedFeedback, vec![]),
        None
    );
}

#[test]
fn an_attested_harness_without_a_fail_closed_policy_is_rejected() {
    let mut cfg = black_box_cfg();
    cfg.tier = PrivacyTier::AttestedHarness;
    cfg.required_tee = TeeType::PhalaTdx;
    cfg.egress = None;
    assert!(matches!(
        decide(&cfg, vec![run("0xr", 0.9)]),
        Err(ProtocolError::Privacy(PrivacyError::EgressDenied { host })) if host == "*"
    ));
}

#[test]
fn redacted_researchers_get_a_summary() {
    let mut cfg = black_box_cfg();
    cfg.tier = PrivacyTier::RedactedFeedback;
    let outcome = decide(&cfg, vec![run("0xr", 0.9)]).unwrap();
    assert_eq!(
        outcome.feedback[0].feedback,
        ResearcherFeedback::Redacted {
            summary: "cleared=true; improvement_band=large; episodes>=50".into(),
            cleared_gate: true,
        }
    );
}

#[test]
fn private_engines_see_only_sealed_handles() {
    let cfg = black_box_cfg();
    let ctx = cfg.private_context();
    assert_eq!(ctx.baseline_ref, ArtifactRef("sealed:baseline".into()));
    assert_eq!(ctx.dev_split_ref, None);
    assert_eq!(ctx.budget_wei, 1_000_000);
    let mut white = black_box_cfg();
    white.tier = PrivacyTier::WhiteBoxNoEgress;
    assert_eq!(
        white.private_context().dev_split_ref,
        Some(ArtifactRef("sealed-dev:1".into()))
    );
}

#[test]
fn a_failed_engine_aborts_a_private_run() {
    let failed = ScoredRun {
        researcher: "0xbad".into(),
        result: Err(RunFailure::Engine(EngineError::Io("gone".into()))),
    };
    match decide(&black_box_cfg(), vec![run("0xr", 0.9), failed]) {
        Err(ProtocolError::Engine { researcher, source }) => {
            assert_eq!(researcher, "0xbad");
            assert_eq!(source.message(), "engine i/o error: gone");
        }
        other => panic!("unexpected {other:?}"),
    }
}
