use autoresearch::binary64::Binary64;
use autoresearch::collaborative::{
    attribute_shares, canonical_fold_key, fold_order, run_collaborative, settle_shares,
    CollaborativeOutcome, CollaborativeTrace, Contribution, FoldRun, FoldStep,
};
use autoresearch::fnv::fnv1a_64;
use autoresearch::orchestrator::{CompetitionConfig, Opening, ProtocolError, RunFailure};
use autoresearch::reward::{total_wei, RewardSchedule, BPS_DENOM};
use autoresearch::traits::{EngineError, ScorerError};
use autoresearch::types::{
    ArtifactRef, Cadence, Gate, Knobs, Lift, Measurement, ScorerKind, Structure, Visibility,
};

fn b(x: f64) -> Binary64 {
    Binary64 { bits: x.to_bits() }
}

/// A measurement in doubles.
#[derive(Clone, Copy)]
struct Doubles {
    value: f64,
    ci_lower: f64,
    ci_upper: f64,
    n: u32,
    cost: f64,
}

impl Doubles {
    fn measurement(self) -> Measurement {
        Measurement {
            value: b(self.value),
            ci_lower: b(self.ci_lower),
            ci_upper: b(self.ci_upper),
            n: self.n,
            cost: b(self.cost),
            cost_per_task: b(self.cost / f64::from(self.n)),
        }
    }

    fn standard_error(self) -> f64 {
        (self.ci_upper - self.ci_lower) / (2.0 * 1.96)
    }

    fn lift_over(self, base: Doubles) -> Lift {
        let delta = self.value - base.value;
        let se = (self.standard_error().powi(2) + base.standard_error().powi(2)).sqrt();
        Lift {
            delta: b(delta),
            ci_lower: b(delta - 1.96 * se),
            ci_upper: b(delta + 1.96 * se),
            n: self.n.min(base.n),
        }
    }
}

fn collab_knobs() -> Knobs {
    Knobs {
        structure: Structure::Collaborative,
        cadence: Cadence::OneShot,
        visibility: Visibility::Public,
        scorer_kind: ScorerKind::HeldOutEval,
    }
}

/// Each effect's part of the sum of the positive ones, in whole basis points.
fn proportional(marginals: &[f64]) -> Vec<u32> {
    let counted: Vec<f64> = marginals
        .iter()
        .map(|m| if m.is_finite() && *m > 0.0 { *m } else { 0.0 })
        .collect();
    let total: f64 = counted.iter().sum();
    counted
        .iter()
        .map(|m| {
            if total > 0.0 {
                (m / total * f64::from(BPS_DENOM)).floor() as u32
            } else {
                0
            }
        })
        .collect()
}

fn shares_of(marginals: &[(&str, f64)]) -> Vec<(String, u32)> {
    let effects: Vec<f64> = marginals.iter().map(|(_, m)| *m).collect();
    let named: Vec<(String, Binary64)> = marginals
        .iter()
        .map(|(c, m)| (c.to_string(), b(*m)))
        .collect();
    attribute_shares(&named, &proportional(&effects))
}

fn share(shares: &[(String, u32)], id: &str) -> u32 {
    shares.iter().find(|(c, _)| c == id).unwrap().1
}

#[test]
fn free_rider_with_zero_marginal_gets_zero_share() {
    let shares = shares_of(&[("0xa", 0.040), ("0xb", 0.038), ("0xfreerider", 0.0)]);
    assert_eq!(
        share(&shares, "0xfreerider"),
        0,
        "a zero-marginal free-rider must earn 0 bps"
    );
    assert!(
        share(&shares, "0xa") > share(&shares, "0xb"),
        "more marginal lift => more share"
    );
}

#[test]
fn negative_marginal_is_clamped_to_zero() {
    let shares = shares_of(&[("0xa", 0.10), ("0xregress", -0.05)]);
    assert_eq!(
        share(&shares, "0xregress"),
        0,
        "a negative (regressing) marginal earns 0"
    );
    assert!(share(&shares, "0xa") >= 9_999);
}

#[test]
fn shares_sum_to_at_most_bps_denom() {
    let marginals: Vec<(String, f64)> = (0..7)
        .map(|i| (format!("0x{i}"), 0.01 * f64::from(i + 1)))
        .collect();
    let named: Vec<(&str, f64)> = marginals.iter().map(|(c, m)| (c.as_str(), *m)).collect();
    let shares = shares_of(&named);
    let sum: u32 = shares.iter().map(|(_, w)| *w).sum();
    assert!(
        sum <= BPS_DENOM,
        "shares sum {sum} exceeded {BPS_DENOM} bps"
    );
}

#[test]
fn shares_are_proportional_to_marginals() {
    let shares = shares_of(&[("A", 0.040), ("B", 0.038), ("C", 0.002)]);
    let a = share(&shares, "A");
    let b = share(&shares, "B");
    let c = share(&shares, "C");
    assert!((4990..=5000).contains(&a), "A ~= 5000 bps, got {a}");
    assert!((4740..=4750).contains(&b), "B ~= 4750 bps, got {b}");
    assert!((240..=250).contains(&c), "C ~= 250 bps, got {c}");
    assert!(
        c < a / 10,
        "dead-gradient C earns far less than productive A"
    );
}

#[test]
fn all_free_riders_get_zero() {
    let shares = shares_of(&[("0xa", 0.0), ("0xb", -1.0)]);
    assert!(shares.iter().all(|(_, w)| *w == 0));
}

#[test]
fn a_share_is_never_more_than_the_whole() {
    let named = vec![("a".to_string(), b(1.0)), ("b".to_string(), b(f64::NAN))];
    let shares = attribute_shares(&named, &[u32::MAX, 5_000]);
    assert_eq!(shares, vec![("a".to_string(), 10_000), ("b".to_string(), 0)]);
}

#[test]
fn settle_shares_conserves_the_pool() {
    let pool = 1_000_000u128;
    let shares = vec![
        ("A".to_string(), 5_000u32),
        ("B".to_string(), 3_000),
        ("C".to_string(), 2_000),
    ];
    let payouts = settle_shares(pool, &shares);
    assert!(
        total_wei(&payouts) <= pool,
        "settlement must conserve the pool"
    );
    assert_eq!(total_wei(&payouts), pool, "full shares distribute the pool");
    let with_zero = vec![("A".to_string(), 10_000u32), ("Z".to_string(), 0u32)];
    let payouts = settle_shares(pool, &with_zero);
    assert_eq!(payouts.len(), 1, "a zero-share free-rider gets no payout");
    assert_eq!(payouts[0].researcher, "A");
}

#[test]
fn collaborative_continuous_is_incoherent() {
    let knobs = Knobs {
        structure: Structure::Collaborative,
        cadence: Cadence::Continuous,
        visibility: Visibility::Public,
        scorer_kind: ScorerKind::HeldOutEval,
    };
    assert!(
        knobs.validate().is_err(),
        "Collaborative+Continuous is rejected"
    );
    assert!(collab_knobs().validate().is_ok());
}

fn score(artifact: f64) -> Doubles {
    Doubles {
        value: artifact,
        ci_lower: (artifact - 0.02).max(0.0),
        ci_upper: (artifact + 0.02).min(1.0),
        n: 80,
        cost: 80.0,
    }
}

fn cfg(pool: u128) -> CompetitionConfig {
    CompetitionConfig {
        id: 1,
        gate: Gate::default(),
        reward: RewardSchedule::TerminalPrize,
        reward_pool_wei: pool,
        knobs: collab_knobs(),
    }
}

fn contribution(contributor: &str, seed: u64, delta_ref: &str) -> Contribution {
    Contribution {
        contributor: contributor.into(),
        seed,
        delta_ref: ArtifactRef(delta_ref.into()),
    }
}

fn contribs() -> Vec<Contribution> {
    vec![
        contribution("0xbig", 1, "delta:big"),
        contribution("0xsmall", 2, "delta:small"),
        contribution("0xfreerider", 3, "delta:free"),
    ]
}

fn good_opening() -> Opening {
    Opening {
        surface: Ok(()),
        baseline: Ok(()),
    }
}

/// Folds additive deltas into an artifact that starts at one half.
fn fold(
    cfg: &CompetitionConfig,
    contributors: &[Contribution],
    delta_of: &dyn Fn(&Contribution) -> f64,
) -> Result<CollaborativeOutcome, ProtocolError> {
    let base = score(0.5);
    let mut shared: f64 = 0.5;
    let mut before = 0.0;
    let mut effects = Vec::new();
    let mut run = FoldRun::start(contributors);
    while let Some(i) = run.next_contributor() {
        let candidate = (shared + delta_of(&contributors[i])).clamp(0.0, 1.0);
        let lift = score(candidate).lift_over(base);
        let delta = f64::from_bits(lift.delta.bits);
        let marginal = delta - before;
        let keep = run.record(FoldStep {
            result: Ok((lift, b(marginal))),
        });
        effects.push(if keep { marginal } else { 0.0 });
        if keep {
            shared = candidate;
            before = delta;
        }
    }
    run_collaborative(
        cfg,
        contributors,
        &CollaborativeTrace {
            opening: good_opening(),
            baseline_lift: base.lift_over(base),
            steps: run.steps,
            final_score: Ok(score(shared).measurement()),
            proportional_bps: proportional(&effects),
        },
    )
}

fn productive(c: &Contribution) -> f64 {
    match c.contributor.as_str() {
        "0xbig" => 0.30,
        "0xsmall" => 0.10,
        _ => 0.0,
    }
}

#[test]
fn productive_contributors_paid_by_marginal_freerider_zero() {
    let pool = 1_000_000u128;
    let outcome = fold(&cfg(pool), &contribs(), &productive).unwrap();
    assert!(
        f64::from_bits(outcome.final_artifact_lift.delta.bits) > 0.30,
        "shared artifact reached a real held-out lift"
    );
    assert_eq!(outcome.accepted, 2);
    assert_eq!(
        share(&outcome.shares, "0xfreerider"),
        0,
        "free-rider gets zero share"
    );
    assert!(
        !outcome
            .payouts
            .iter()
            .any(|p| p.researcher == "0xfreerider"),
        "free-rider gets no payout"
    );
    let big = share(&outcome.shares, "0xbig");
    let small = share(&outcome.shares, "0xsmall");
    assert!(big > small, "bigger marginal => bigger share");
    assert!((7_499..=7_500).contains(&big), "big ~= 7500 bps, got {big}");
    assert!(
        (2_499..=2_500).contains(&small),
        "small ~= 2500 bps, got {small}"
    );
    let paid = total_wei(&outcome.payouts);
    assert!(paid <= pool, "payouts must never exceed the pool");
    assert!(
        pool - paid <= 1_000,
        "only flooring dust may stay in escrow, got {paid}/{pool}"
    );
}

#[test]
fn credit_is_invariant_to_caller_order() {
    let pool = 1_000_000u128;
    let forward = contribs();
    let mut reversed = contribs();
    reversed.reverse();
    let out_fwd = fold(&cfg(pool), &forward, &productive).unwrap();
    let out_rev = fold(&cfg(pool), &reversed, &productive).unwrap();
    for id in ["0xbig", "0xsmall", "0xfreerider"] {
        assert_eq!(
            share(&out_fwd.shares, id),
            share(&out_rev.shares, id),
            "share for {id} must not depend on caller order"
        );
    }
    assert_eq!(out_fwd.shares[0].0, "0xbig");
    assert_eq!(out_rev.shares[0].0, "0xfreerider");
}

#[test]
fn canonical_fold_key_is_independent_of_caller_position() {
    let a = contribution("0xa", 1, "delta:a");
    let b = contribution("0xb", 2, "delta:b");
    let a2 = a.clone();
    assert_eq!(canonical_fold_key(&a), canonical_fold_key(&a2));
    assert_ne!(canonical_fold_key(&a), canonical_fold_key(&b));
}

#[test]
fn fnv1a_64_is_stable_and_distinguishing() {
    assert_eq!(fnv1a_64(b""), 0xcbf2_9ce4_8422_2325);
    assert_eq!(fnv1a_64(b"a"), 0xaf63_dc4c_8601_ec8c);
    assert_ne!(fnv1a_64(b"delta:a"), fnv1a_64(b"delta:b"));
}

#[test]
fn no_payout_when_final_artifact_misses_the_gate() {
    let pool = 1_000_000u128;
    let outcome = fold(&cfg(pool), &contribs(), &|_| 0.0).unwrap();
    assert_eq!(outcome.accepted, 0, "no delta improved held-out");
    assert!(
        outcome.payouts.is_empty(),
        "gate not cleared => no payouts at all"
    );
    assert_eq!(total_wei(&outcome.payouts), 0);
}

#[test]
fn competitive_config_is_rejected_by_the_collaborative_runner() {
    let mut c = cfg(1_000_000);
    c.knobs.structure = Structure::Competitive;
    let err = fold(&c, &contribs(), &|_| 0.30).unwrap_err();
    assert!(
        matches!(err, ProtocolError::IncoherentKnobs(_)),
        "a Competitive config must be rejected, got {err:?}"
    );
}

#[test]
fn contributions_are_folded_by_content_hash() {
    let mut keys: Vec<(u64, usize)> = contribs()
        .iter()
        .enumerate()
        .map(|(i, c)| (fnv1a_64(c.delta_ref.0.as_bytes()), i))
        .collect();
    keys.sort();
    let expected: Vec<usize> = keys.into_iter().map(|(_, i)| i).collect();
    assert_eq!(fold_order(&contribs()), expected);
    let twins = vec![
        contribution("0xb", 1, "same"),
        contribution("0xa", 2, "same"),
    ];
    assert_eq!(fold_order(&twins), vec![1, 0]);
}

#[test]
fn a_failed_contribution_ends_the_fold_and_is_blamed() {
    let contributors = contribs();
    let mut run = FoldRun::start(&contributors);
    let first = run.next_contributor().unwrap();
    assert!(!run.record(FoldStep {
        result: Err(RunFailure::Engine(EngineError::BudgetExhausted)),
    }));
    assert_eq!(run.next_contributor(), None);
    let base = score(0.5);
    let err = run_collaborative(
        &cfg(10),
        &contributors,
        &CollaborativeTrace {
            opening: good_opening(),
            baseline_lift: base.lift_over(base),
            steps: run.steps,
            final_score: Ok(base.measurement()),
            proportional_bps: vec![0; 3],
        },
    )
    .unwrap_err();
    match err {
        ProtocolError::Engine { researcher, source } => {
            assert_eq!(researcher, contributors[first].contributor);
            assert_eq!(source, EngineError::BudgetExhausted);
        }
        other => panic!("unexpected {other:?}"),
    }
}

#[test]
fn an_opening_that_failed_is_told_before_anything_else() {
    let base = score(0.5);
    let trace = CollaborativeTrace {
        opening: Opening {
            surface: Ok(()),
            baseline: Err(ScorerError::Unavailable("down".into())),
        },
        baseline_lift: base.lift_over(base),
        steps: vec![],
        final_score: Ok(base.measurement()),
        proportional_bps: vec![0; 3],
    };
    assert!(matches!(
        run_collaborative(&cfg(10), &contribs(), &trace),
        Err(ProtocolError::Scorer(_))
    ));
}

fn parted(effects: &[f64], parts: &[u32]) -> Vec<u32> {
    let named: Vec<(String, Binary64)> = effects.iter().map(|m| ("c".into(), b(*m))).collect();
    attribute_shares(&named, parts)
        .into_iter()
        .map(|(_, share)| share)
        .collect()
}

#[test]
fn parts_beyond_the_whole_are_cut_down() {
    assert_eq!(parted(&[1.0, 2.0], &[10_000, 10_000]), vec![5_000, 5_000]);
    assert_eq!(parted(&[1.0, 3.0], &[4_000, 8_000]), vec![3_333, 6_666]);
    assert_eq!(parted(&[1.0, 3.0], &[2_000, 8_000]), vec![2_000, 8_000]);
    assert_eq!(parted(&[1.0, f64::INFINITY], &[6_000, 9_000]), vec![6_000, 0]);
}

#[test]
fn nobody_has_more_than_whoever_moved_more() {
    assert_eq!(parted(&[2.0, 1.0], &[1_000, 3_000]), vec![1_000, 1_000]);
    assert_eq!(parted(&[1.0, 1.0], &[4_000, 3_000]), vec![3_000, 3_000]);
}

#[test]
fn without_a_cleared_gate_nobody_has_a_share() {
    let mut strict = cfg(1_000_000);
    strict.gate.min_lift_ci_lower = b(0.9);
    let outcome = fold(&strict, &contribs(), &productive).unwrap();
    assert_eq!(outcome.accepted, 2);
    assert!(outcome.payouts.is_empty());
    let names: Vec<&str> = outcome.shares.iter().map(|(c, _)| c.as_str()).collect();
    assert_eq!(names, vec!["0xbig", "0xsmall", "0xfreerider"]);
    assert!(outcome.shares.iter().all(|(_, w)| *w == 0));
}

#[test]
fn a_delta_is_kept_only_where_it_takes_the_lift_higher() {
    let contributors = contribs();
    let base = score(0.5);
    let mut run = FoldRun::start(&contributors);
    assert_eq!(run.lift_reached().bits, 0);
    let high = score(0.8).lift_over(base);
    assert!(run.record(FoldStep {
        result: Ok((high, b(0.3))),
    }));
    assert_eq!(run.lift_reached().bits, high.delta.bits);
    // A lower lift is not kept, whatever effect is claimed for it.
    let low = score(0.7).lift_over(base);
    assert!(!run.record(FoldStep {
        result: Ok((low, b(0.2))),
    }));
    // Nor is the same lift again.
    assert!(!run.record(FoldStep {
        result: Ok((high, b(0.1))),
    }));
    assert_eq!(run.lift_reached().bits, high.delta.bits);
    let outcome = run_collaborative(
        &cfg(1_000),
        &contributors,
        &CollaborativeTrace {
            opening: good_opening(),
            baseline_lift: base.lift_over(base),
            steps: run.steps,
            final_score: Ok(score(0.8).measurement()),
            proportional_bps: vec![10_000, 10_000, 10_000],
        },
    )
    .unwrap();
    assert_eq!(outcome.final_artifact_lift, high);
    assert_eq!(outcome.accepted, 1);
    let first = fold_order(&contributors)[0];
    for (i, (_, weight)) in outcome.shares.iter().enumerate() {
        assert_eq!(*weight, if i == first { 10_000 } else { 0 });
    }
    assert_eq!(total_wei(&outcome.payouts), 1_000);
}

#[test]
fn a_lift_that_is_no_number_is_never_kept() {
    let contributors = contribs();
    let mut run = FoldRun::start(&contributors);
    let base = score(0.5);
    let poisoned = Lift {
        delta: b(f64::NAN),
        ..base.lift_over(base)
    };
    assert!(!run.record(FoldStep {
        result: Ok((poisoned, b(1.0))),
    }));
    assert_eq!(run.lift_reached().bits, 0);
}
