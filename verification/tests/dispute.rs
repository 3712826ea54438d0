use autoresearch::binary64::Binary64;
use autoresearch::dispute::{
    collect_verdicts, committee_verdict, DisputeOutcome, Rescore, ValidatorVerdict,
};
use autoresearch::orchestrator::{Opening, ProtocolError};
use autoresearch::traits::{ScorerError, SurfaceError};
use autoresearch::types::{Gate, Lift, Measurement};

fn b(x: f64) -> Binary64 {
    Binary64 { bits: x.to_bits() }
}

fn lift(delta: f64) -> Lift {
    Lift {
        delta: b(delta),
        ci_lower: b(delta - 0.05),
        ci_upper: b(delta + 0.05),
        n: 80,
    }
}

fn verdict(name: &str, clears: bool) -> ValidatorVerdict {
    ValidatorVerdict {
        validator: name.into(),
        clears,
        lift: lift(if clears { 0.30 } else { 0.0 }),
    }
}

#[test]
fn upheld_on_honest_unanimous_agreement() {
    let original_clears = true;
    let verdicts = vec![
        verdict("v1", true),
        verdict("v2", true),
        verdict("v3", true),
    ];
    assert_eq!(
        committee_verdict(original_clears, &verdicts, 2),
        DisputeOutcome::Upheld
    );
}

#[test]
fn byzantine_minority_cannot_overturn_correct_certification() {
    let original_clears = true;
    let verdicts = vec![
        verdict("honest-1", true),
        verdict("honest-2", true),
        verdict("byzantine", false),
    ];
    assert_eq!(
        committee_verdict(original_clears, &verdicts, 2),
        DisputeOutcome::Upheld,
        "one faulty validator must not flip a correct certification"
    );
}

#[test]
fn overturns_fraudulent_certification_despite_byzantine_support() {
    let original_clears = true;
    let verdicts = vec![
        verdict("honest-1", false),
        verdict("honest-2", false),
        verdict("byzantine", true),
    ];
    assert_eq!(
        committee_verdict(original_clears, &verdicts, 2),
        DisputeOutcome::Overturned,
        "honest majority must overturn a fraudulent score"
    );
}

#[test]
fn inconclusive_when_no_side_reaches_quorum() {
    let original_clears = true;
    let verdicts = vec![
        verdict("v1", true),
        verdict("v2", true),
        verdict("v3", false),
    ];
    assert_eq!(
        committee_verdict(original_clears, &verdicts, 3),
        DisputeOutcome::Inconclusive
    );
}

#[test]
fn empty_committee_is_inconclusive() {
    assert_eq!(
        committee_verdict(true, &[], 2),
        DisputeOutcome::Inconclusive
    );
}

#[test]
fn zero_quorum_is_clamped_to_one() {
    assert_eq!(
        committee_verdict(true, &[verdict("v1", true)], 0),
        DisputeOutcome::Upheld
    );
    assert_eq!(
        committee_verdict(true, &[], 0),
        DisputeOutcome::Inconclusive
    );
}

#[test]
fn submajority_quorum_n4_m2_cannot_be_overturned_by_minority() {
    let original_clears = true;
    let verdicts = vec![
        verdict("honest-1", true),
        verdict("honest-2", true),
        verdict("byzantine-1", false),
        verdict("byzantine-2", false),
    ];
    assert_eq!(
        committee_verdict(original_clears, &verdicts, 2),
        DisputeOutcome::Inconclusive,
        "m=2,n=4 is a sub-majority quorum: a Byzantine minority must not overturn"
    );
}

#[test]
fn submajority_quorum_n5_m2_cannot_be_overturned_by_minority() {
    let original_clears = true;
    let verdicts = vec![
        verdict("honest-1", true),
        verdict("honest-2", true),
        verdict("honest-3", true),
        verdict("byzantine-1", false),
        verdict("byzantine-2", false),
    ];
    assert_eq!(
        committee_verdict(original_clears, &verdicts, 2),
        DisputeOutcome::Inconclusive,
        "m=2,n=5 is a sub-majority quorum: a 2-validator minority must not overturn"
    );
}

#[test]
fn strict_majority_n5_m3_upholds_correct_certification_over_minority() {
    let original_clears = true;
    let verdicts = vec![
        verdict("honest-1", true),
        verdict("honest-2", true),
        verdict("honest-3", true),
        verdict("byzantine-1", false),
        verdict("byzantine-2", false),
    ];
    assert_eq!(
        committee_verdict(original_clears, &verdicts, 3),
        DisputeOutcome::Upheld,
        "m=3,n=5 is a strict majority: honest 3 uphold, Byzantine 2 fall short"
    );
}

fn measured(n: u32) -> Measurement {
    Measurement {
        value: b(0.8),
        ci_lower: b(0.7),
        ci_upper: b(0.9),
        n,
        cost: b(1.0),
        cost_per_task: b(1.0 / f64::from(n)),
    }
}

fn rescore(name: &str, delta: f64) -> Rescore {
    Rescore {
        validator: name.into(),
        result: Ok((lift(delta), measured(80))),
    }
}

fn named(names: &[&str]) -> Vec<String> {
    names.iter().map(|n| n.to_string()).collect()
}

fn good_opening() -> Opening {
    Opening {
        surface: Ok(()),
        baseline: Ok(()),
    }
}

#[test]
fn verdicts_follow_the_gate() {
    let rescores = vec![rescore("v1", 0.30), rescore("v2", 0.01)];
    let verdicts = collect_verdicts(
        &good_opening(),
        &named(&["v1", "v2"]),
        &rescores,
        &Gate::default(),
    )
    .unwrap();
    assert_eq!(verdicts.len(), 2);
    assert_eq!(verdicts[0].validator, "v1");
    assert!(verdicts[0].clears);
    assert_eq!(verdicts[1].validator, "v2");
    assert!(!verdicts[1].clears);
    assert_eq!(verdicts[1].lift, lift(0.01));
}

#[test]
fn the_first_failed_rescoring_aborts() {
    let rescores = vec![
        rescore("v1", 0.30),
        Rescore {
            validator: "v2".into(),
            result: Err(ScorerError::Unavailable("down".into())),
        },
        Rescore {
            validator: "v3".into(),
            result: Err(ScorerError::Rejected("later".into())),
        },
    ];
    let validators = named(&["v1", "v2", "v3"]);
    match collect_verdicts(&good_opening(), &validators, &rescores, &Gate::default()) {
        Err(ProtocolError::Scorer(e)) => assert_eq!(e, ScorerError::Unavailable("down".into())),
        other => panic!("unexpected {other:?}"),
    }
    let opening = Opening {
        surface: Err(SurfaceError::Invalid("shape".into())),
        baseline: Ok(()),
    };
    assert!(matches!(
        collect_verdicts(&opening, &validators, &rescores, &Gate::default()),
        Err(ProtocolError::Surface(_))
    ));
}

#[test]
fn a_decision_does_not_depend_on_which_side_is_called_clear() {
    let split = vec![verdict("a", true), verdict("b", false), verdict("c", false)];
    assert_eq!(
        committee_verdict(true, &split, 2),
        DisputeOutcome::Overturned
    );
    assert_eq!(committee_verdict(false, &split, 2), DisputeOutcome::Upheld);
    assert_eq!(
        committee_verdict(true, &split, usize::MAX),
        DisputeOutcome::Inconclusive
    );
}
