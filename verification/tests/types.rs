use autoresearch::binary64::Binary64;
use autoresearch::types::{
    ArtifactRef, Cadence, Candidate, CompetitionSpec, Evidence, EvidenceKind, Gate, Knobs, Lift,
    Measurement, ScorerKind, Structure, Visibility,
};

fn b(x: f64) -> Binary64 {
    Binary64 { bits: x.to_bits() }
}

fn lift(delta: f64, ci_lower: f64, ci_upper: f64, n: u32) -> Lift {
    Lift {
        delta: b(delta),
        ci_lower: b(ci_lower),
        ci_upper: b(ci_upper),
        n,
    }
}

fn measurement(cost: f64, n: u32) -> Measurement {
    Measurement {
        value: b(0.85),
        ci_lower: b(0.80),
        ci_upper: b(0.90),
        n,
        cost: b(cost),
        cost_per_task: b(cost / f64::from(n)),
    }
}

fn clean_measurement() -> Measurement {
    measurement(80.0, 80)
}

#[test]
fn gate_clears_a_clean_well_powered_win() {
    let gate = Gate::default();
    assert!(gate.clears(&lift(0.35, 0.30, 0.40, 80), &clean_measurement()));
}

#[test]
fn gate_is_fail_closed_against_nan_ci_lower() {
    let gate = Gate::default();
    assert!(!gate.clears(&lift(0.35, f64::NAN, 0.40, 80), &clean_measurement()));
}

#[test]
fn gate_is_fail_closed_against_nan_delta() {
    let gate = Gate::default();
    assert!(!gate.clears(&lift(f64::NAN, 0.30, 0.40, 80), &clean_measurement()));
}

#[test]
fn gate_is_fail_closed_against_infinite_ci_lower() {
    let gate = Gate::default();
    assert!(!gate.clears(
        &lift(0.35, f64::INFINITY, f64::INFINITY, 80),
        &clean_measurement()
    ));
}

#[test]
fn gate_is_fail_closed_against_nan_cost_when_ceiling_set() {
    let gate = Gate {
        min_lift_ci_lower: b(0.02),
        cost_per_task_ceiling: Some(b(10.0)),
        min_n: 12,
    };
    assert!(!gate.clears(&lift(0.35, 0.30, 0.40, 80), &measurement(f64::NAN, 80)));
}

#[test]
fn gate_rejects_insufficient_power() {
    let gate = Gate::default();
    assert!(!gate.clears(&lift(0.35, 0.30, 0.40, 1), &clean_measurement()));
}

#[test]
fn gate_rejects_insufficient_lower_bound() {
    let gate = Gate::default();
    assert!(!gate.clears(&lift(0.35, 0.01, 0.40, 80), &clean_measurement()));
}

#[test]
fn gate_admits_the_bounds_themselves() {
    let gate = Gate {
        min_lift_ci_lower: b(0.02),
        cost_per_task_ceiling: Some(b(10.0)),
        min_n: 12,
    };
    assert!(gate.clears(&lift(0.35, 0.02, 0.40, 12), &measurement(800.0, 80)));
    assert!(!gate.clears(&lift(0.35, 0.02, 0.40, 12), &measurement(800.1, 80)));
}

#[test]
fn a_ceiling_refuses_a_measurement_without_episodes() {
    let gate = Gate {
        cost_per_task_ceiling: Some(b(f64::MAX)),
        ..Gate::default()
    };
    assert!(!gate.clears(&lift(0.35, 0.30, 0.40, 80), &measurement(0.0, 0)));
}

#[test]
fn a_stricter_gate_clears_less() {
    let lower = Gate::default();
    let higher = Gate {
        min_lift_ci_lower: b(0.31),
        ..lower
    };
    let l = lift(0.35, 0.30, 0.40, 80);
    assert!(lower.clears(&l, &clean_measurement()));
    assert!(!higher.clears(&l, &clean_measurement()));
}

fn evidence(kind: EvidenceKind, confounded: bool) -> Evidence {
    Evidence {
        kind,
        lift: lift(0.3, 0.2, 0.4, 80),
        measurement: clean_measurement(),
        confounded,
        suite_ref: ArtifactRef("suite".into()),
        attestation_hash: String::new(),
    }
}

fn candidate(evidence: Option<Evidence>) -> Candidate {
    Candidate {
        id: "c".into(),
        competition: 1,
        researcher: "0xr".into(),
        commitment: "0xc".into(),
        artifact_ref: Some(ArtifactRef("a".into())),
        evidence,
    }
}

#[test]
fn only_clean_promoting_evidence_pays() {
    let gate = Gate::default();
    assert!(candidate(Some(evidence(EvidenceKind::Oracle, false))).is_payable(&gate));
    assert!(!candidate(Some(evidence(EvidenceKind::ReplayFull, true))).is_payable(&gate));
    assert!(!candidate(Some(evidence(EvidenceKind::Observational, false))).is_payable(&gate));
    assert!(!candidate(None).is_payable(&gate));
    let strict = Gate {
        min_n: 81,
        ..gate
    };
    assert!(!candidate(Some(evidence(EvidenceKind::Human, false))).is_payable(&strict));
}

#[test]
fn every_kind_but_the_observational_can_promote() {
    for kind in [
        EvidenceKind::ReplayFull,
        EvidenceKind::ReplayMocked,
        EvidenceKind::Oracle,
        EvidenceKind::Hardware,
        EvidenceKind::Human,
    ] {
        assert!(kind.can_promote());
    }
    assert!(!EvidenceKind::Observational.can_promote());
}

fn knobs(structure: Structure, cadence: Cadence) -> Knobs {
    Knobs {
        structure,
        cadence,
        visibility: Visibility::Public,
        scorer_kind: ScorerKind::HeldOutEval,
    }
}

#[test]
fn one_combination_of_knobs_is_incoherent() {
    assert!(knobs(Structure::Competitive, Cadence::OneShot).validate().is_ok());
    assert!(knobs(Structure::Competitive, Cadence::Continuous).validate().is_ok());
    assert!(knobs(Structure::Collaborative, Cadence::OneShot).validate().is_ok());
    assert_eq!(
        knobs(Structure::Collaborative, Cadence::Continuous).validate(),
        Err("Collaborative competitions are OneShot in M6; per-epoch Continuous contribution accounting is deferred")
    );
}

fn spec() -> CompetitionSpec {
    CompetitionSpec {
        knobs: knobs(Structure::Competitive, Cadence::OneShot),
        gate: Gate::default(),
        scorer_ref: ArtifactRef("sc".into()),
        surface_ref: ArtifactRef("s".into()),
        baseline_ref: ArtifactRef("b".into()),
        reward_pool_wei: 1,
        reward_asset: "0x0".into(),
        deadline: 1,
    }
}

#[test]
fn a_competition_needs_coherent_knobs_and_a_powered_gate() {
    assert!(spec().validate().is_ok());
    let mut bad = spec();
    bad.gate.min_n = 0;
    assert!(bad.validate().is_err());
    let mut bad = spec();
    bad.knobs = knobs(Structure::Collaborative, Cadence::Continuous);
    assert!(bad.validate().is_err());
    let mut bad = spec();
    bad.reward_pool_wei = 0;
    assert!(bad.validate().is_err());
}

#[test]
fn doubles_order_like_doubles() {
    let values = [
        f64::NEG_INFINITY,
        f64::MIN,
        -1.5,
        -f64::MIN_POSITIVE,
        -0.0,
        0.0,
        5e-324,
        0.02,
        1.5,
        f64::MAX,
        f64::INFINITY,
        f64::NAN,
        -f64::NAN,
    ];
    for x in values {
        assert_eq!(b(x).is_finite(), x.is_finite());
        assert_eq!(b(x).is_nan(), x.is_nan());
        assert_eq!(b(x).is_positive(), x > 0.0);
        for y in values {
            assert_eq!(b(x).at_most(b(y)), x <= y, "{x} <= {y}");
            assert_eq!(b(x).less_than(b(y)), x < y, "{x} < {y}");
            assert_eq!(b(x) == b(y), x == y, "{x} == {y}");
        }
    }
}

#[test]
fn every_number_has_to_be_finite() {
    let gate = Gate::default();
    let good = lift(0.35, 0.30, 0.40, 80);
    assert!(gate.clears(&good, &clean_measurement()));
    assert!(!gate.clears(&lift(0.35, 0.30, f64::NAN, 80), &clean_measurement()));
    assert!(!gate.clears(&lift(0.35, 0.30, f64::INFINITY, 80), &clean_measurement()));
    for bad in [f64::NAN, f64::INFINITY] {
        let mut m = clean_measurement();
        m.value = b(bad);
        assert!(!gate.clears(&good, &m));
        let mut m = clean_measurement();
        m.ci_lower = b(bad);
        assert!(!gate.clears(&good, &m));
        let mut m = clean_measurement();
        m.ci_upper = b(bad);
        assert!(!gate.clears(&good, &m));
        let mut m = clean_measurement();
        m.cost = b(bad);
        assert!(!gate.clears(&good, &m));
        let mut odd = Gate::default();
        odd.cost_per_task_ceiling = Some(b(bad));
        assert!(!odd.clears(&good, &clean_measurement()));
    }
    let mut open = Gate::default();
    open.min_lift_ci_lower = b(f64::NEG_INFINITY);
    assert!(!open.clears(&good, &clean_measurement()));
}
