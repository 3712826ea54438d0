use autoresearch::binary64::Binary64;
use autoresearch::continuous::{
    ContinuousArena, ContinuousSchedule, EntryKind, LeaderboardEntry, ScoreFailure,
    ScoredSubmission, SubmitOutcome,
};
use autoresearch::orchestrator::ProtocolError;
use autoresearch::reward::{settle_record_bounty, total_wei, RecordBeat};
use autoresearch::traits::{ScorerError, SurfaceError};
use autoresearch::types::{Gate, Lift, Measurement};

fn b(x: f64) -> Binary64 {
    Binary64 { bits: x.to_bits() }
}

/// A measurement in doubles.
#[derive(Clone, Copy)]
struct Doubles {
    value: f64,
    ci_lower: f64,
    ci_upper: f64,
    n: u32,
    cost: f64,
}

impl Doubles {
    fn measurement(self) -> Measurement {
        Measurement {
            value: b(self.value),
            ci_lower: b(self.ci_lower),
            ci_upper: b(self.ci_upper),
            n: self.n,
            cost: b(self.cost),
            cost_per_task: b(self.cost / f64::from(self.n)),
        }
    }

    fn standard_error(self) -> f64 {
        (self.ci_upper - self.ci_lower) / (2.0 * 1.96)
    }

    fn lift_over(self, base: Doubles) -> Lift {
        let delta = self.value - base.value;
        let se = (self.standard_error().powi(2) + base.standard_error().powi(2)).sqrt();
        Lift {
            delta: b(delta),
            ci_lower: b(delta - 1.96 * se),
            ci_upper: b(delta + 1.96 * se),
            n: self.n.min(base.n),
        }
    }
}

fn to_micros(points: f64) -> i64 {
    (points * 1_000_000.0).round() as i64
}

fn baseline_measurement() -> Doubles {
    Doubles {
        value: 0.50,
        ci_lower: 0.49,
        ci_upper: 0.51,
        n: 10_000,
        cost: 0.0,
    }
}

fn scored_with(delta: f64, half_width: f64) -> ScoredSubmission {
    let value = 0.50 + delta;
    let m = Doubles {
        value,
        ci_lower: value - half_width,
        ci_upper: value + half_width,
        n: 10_000,
        cost: 0.0,
    };
    let lift = m.lift_over(baseline_measurement());
    ScoredSubmission {
        lift,
        measurement: m.measurement(),
        delta_micros: to_micros(f64::from_bits(lift.delta.bits)),
    }
}

fn submit(arena: &mut ContinuousArena, who: &str, delta: f64) -> SubmitOutcome {
    arena.submit(who, Ok(scored_with(delta, 0.005))).unwrap()
}

fn record_bounty_arena(epsilon_micros: i64, wei_per_micro: u128, pool: u128) -> ContinuousArena {
    ContinuousArena::new(
        42,
        Gate::default(),
        ContinuousSchedule::RecordBounty {
            epsilon_micros,
            wei_per_micro,
        },
        pool,
        0,
    )
}

fn streaming_arena(wei_per_epoch: u128, pool: u128) -> ContinuousArena {
    ContinuousArena::new(
        7,
        Gate::default(),
        ContinuousSchedule::TimeAtTopStreaming { wei_per_epoch },
        pool,
        0,
    )
}

fn records(arena: &ContinuousArena) -> Vec<&LeaderboardEntry> {
    arena
        .leaderboard()
        .iter()
        .filter(|e| e.kind == EntryKind::Record)
        .collect()
}

fn credited(arena: &ContinuousArena, who: &str) -> u128 {
    arena
        .leaderboard()
        .iter()
        .filter(|e| e.kind == EntryKind::EpochCredit && e.researcher == who)
        .map(|e| e.paid_wei)
        .sum()
}

#[test]
fn extreme_baseline_marginal_does_not_overflow() {
    let mut arena = ContinuousArena::new(
        99,
        Gate::default(),
        ContinuousSchedule::RecordBounty {
            epsilon_micros: 1,
            wei_per_micro: 1,
        },
        u128::MAX,
        i64::MIN,
    );
    let out = submit(&mut arena, "alice", 0.10);
    assert!(out.became_record);
    assert_eq!(out.paid_wei, i64::MAX as u128);
    assert_eq!(arena.best_micros, Some(100_000));
    assert!(arena.spent_wei <= arena.pool_wei);
}

#[test]
fn record_path_pays_marginal_and_moves_the_best() {
    let mut arena = record_bounty_arena(1_000, 1_000_000, u128::MAX);
    let out = submit(&mut arena, "alice", 0.10);
    assert!(out.became_record);
    assert_eq!(out.new_best_micros, Some(100_000));
    assert_eq!(out.paid_wei, 100_000 * 1_000_000);
    assert_eq!(arena.best_micros, Some(100_000));
    assert_eq!(arena.top_holder.as_deref(), Some("alice"));

    let out2 = submit(&mut arena, "bob", 0.16);
    assert!(out2.became_record);
    assert_eq!(out2.new_best_micros, Some(160_000));
    assert_eq!(out2.paid_wei, 60_000 * 1_000_000);
    assert_eq!(arena.best_micros, Some(160_000));
}

#[test]
fn sub_epsilon_beat_pays_nothing_and_does_not_move_best() {
    let mut arena = record_bounty_arena(10_000, 1, u128::MAX);
    submit(&mut arena, "alice", 0.10);
    let out = submit(&mut arena, "bob", 0.105);
    assert!(!out.became_record);
    assert_eq!(out.paid_wei, 0);
    assert_eq!(arena.best_micros, Some(100_000));
    assert_eq!(arena.top_holder.as_deref(), Some("alice"));
    assert_eq!(
        records(&arena).len(),
        1,
        "sub-epsilon beat must not be recorded"
    );

    let out2 = submit(&mut arena, "carol", 0.13);
    assert!(out2.became_record);
    assert_eq!(out2.paid_wei, 30_000);
}

#[test]
fn regression_pays_nothing_and_does_not_move_best() {
    let mut arena = record_bounty_arena(0, 1_000, u128::MAX);
    submit(&mut arena, "alice", 0.20);
    let out = submit(&mut arena, "bob", 0.12);
    assert!(!out.became_record);
    assert_eq!(out.paid_wei, 0);
    assert_eq!(arena.best_micros, Some(200_000));
    assert_eq!(arena.top_holder.as_deref(), Some("alice"));
}

#[test]
fn gate_excludes_a_positive_but_underpowered_lift() {
    let mut arena = record_bounty_arena(0, 1_000, u128::MAX);
    let out = arena.submit("alice", Ok(scored_with(0.05, 0.20))).unwrap();
    assert!(
        !out.became_record,
        "underpowered lift must not clear the promotion gate"
    );
    assert_eq!(out.paid_wei, 0);
    assert_eq!(arena.best_micros, None);
    assert!(arena.history.is_empty());
}

#[test]
fn over_pool_record_is_rejected_not_clamped() {
    let mut arena = record_bounty_arena(0, 1_000_000, 60_000_000_000);
    let out = submit(&mut arena, "alice", 0.10);
    assert!(!out.became_record, "an over-pool record must be rejected");
    assert_eq!(out.paid_wei, 0);
    assert_eq!(
        arena.best_micros, None,
        "rejected record must not move the bar"
    );
    assert_eq!(arena.spent_wei, 0);
    assert!(
        arena.history.is_empty(),
        "rejected record must not be booked"
    );

    let out2 = submit(&mut arena, "bob", 0.05);
    assert!(out2.became_record);
    assert_eq!(out2.paid_wei, 50_000 * 1_000_000, "booked at full marginal");
    assert_eq!(arena.best_micros, Some(50_000));
    assert!(
        arena.spent_wei <= arena.pool_wei,
        "pool must never be over-spent"
    );

    let out3 = submit(&mut arena, "carol", 0.20);
    assert!(!out3.became_record);
    assert_eq!(out3.paid_wei, 0);
    assert_eq!(arena.best_micros, Some(50_000));
    assert!(arena.spent_wei <= arena.pool_wei);
}

#[test]
fn recomputable_under_binding_pool() {
    let epsilon = 1_000;
    let wei_per_micro = 1_000_000u128;
    let pool = 160_000u128 * wei_per_micro;
    let mut arena = record_bounty_arena(epsilon, wei_per_micro, pool);
    for (who, delta) in [
        ("alice", 0.10),
        ("bob", 0.16),
        ("carol", 0.30),
        ("dave", 0.161),
    ] {
        submit(&mut arena, who, delta);
    }

    let booked = records(&arena);
    assert_eq!(
        booked.len(),
        2,
        "binding pool rejected the over-pool records"
    );
    assert_eq!(arena.best_micros, Some(160_000));
    assert_eq!(arena.spent_wei, 160_000 * wei_per_micro);
    assert!(arena.spent_wei <= arena.pool_wei);

    let streaming_payouts: Vec<u128> = booked.iter().map(|e| e.paid_wei).collect();
    let beats: Vec<RecordBeat> = booked
        .iter()
        .map(|e| RecordBeat {
            researcher: e.researcher.clone(),
            new_best_micros: e.lift_micros,
        })
        .collect();
    let batch = settle_record_bounty(arena.baseline_micros, &beats, epsilon, wei_per_micro);
    let batch_payouts: Vec<u128> = batch.iter().map(|p| p.wei).collect();
    assert_eq!(
        streaming_payouts, batch_payouts,
        "replay of recorded beats under a binding pool must reproduce payouts"
    );
    assert_eq!(arena.spent_wei, total_wei(&batch));
}

#[test]
fn time_at_top_credits_holder_per_epoch_and_conserves() {
    let mut arena = streaming_arena(1_000, 2_500);
    assert_eq!(arena.tick_epoch(), 0);

    let out = submit(&mut arena, "alice", 0.10);
    assert!(out.became_record);
    assert_eq!(
        out.paid_wei, 0,
        "streaming records pay per-epoch, not on submit"
    );

    assert_eq!(arena.tick_epoch(), 1_000);
    assert_eq!(arena.tick_epoch(), 1_000);
    assert_eq!(arena.tick_epoch(), 500);
    assert_eq!(arena.tick_epoch(), 0);

    assert_eq!(arena.spent_wei, 2_500);
    assert!(arena.spent_wei <= arena.pool_wei);
    let all: u128 = arena
        .leaderboard()
        .iter()
        .filter(|e| e.kind == EntryKind::EpochCredit)
        .map(|e| e.paid_wei)
        .sum();
    assert_eq!(all, 2_500);
    assert!(arena
        .leaderboard()
        .iter()
        .filter(|e| e.kind == EntryKind::EpochCredit)
        .all(|e| e.researcher == "alice"));
}

#[test]
fn time_at_top_handoff_credits_the_new_holder() {
    let mut arena = streaming_arena(100, u128::MAX);
    submit(&mut arena, "alice", 0.10);
    arena.tick_epoch();
    submit(&mut arena, "bob", 0.20);
    arena.tick_epoch();
    assert_eq!(credited(&arena, "alice"), 100);
    assert_eq!(credited(&arena, "bob"), 100);
}

#[test]
fn standings_recomputed_from_history_match_live_state() {
    let mut arena = record_bounty_arena(0, 1, u128::MAX);
    submit(&mut arena, "alice", 0.10);
    submit(&mut arena, "bob", 0.16);
    submit(&mut arena, "carol", 0.25);

    let standings = arena.standings();
    assert_eq!(standings[0], ("carol".to_string(), 250_000));
    assert_eq!(standings[1], ("bob".to_string(), 160_000));
    assert_eq!(standings[2], ("alice".to_string(), 100_000));
    assert_eq!(arena.best_micros, Some(standings[0].1));
    assert_eq!(arena.top_holder.as_deref(), Some(standings[0].0.as_str()));
}

#[test]
fn streaming_matches_batch_record_bounty_settlement() {
    let epsilon = 1_000;
    let wei_per_micro = 1_000_000_000u128;
    let mut arena = record_bounty_arena(epsilon, wei_per_micro, u128::MAX);
    let submissions = [
        ("alice", 0.10),
        ("bob", 0.1005),
        ("carol", 0.16),
        ("dave", 0.12),
        ("alice", 0.399),
    ];
    for (who, delta) in submissions {
        submit(&mut arena, who, delta);
    }

    let streaming_total: u128 = records(&arena).iter().map(|e| e.paid_wei).sum();
    let beats: Vec<RecordBeat> = submissions
        .iter()
        .map(|(who, delta)| RecordBeat {
            researcher: (*who).to_string(),
            new_best_micros: to_micros(*delta),
        })
        .collect();
    let batch = settle_record_bounty(arena.baseline_micros, &beats, epsilon, wei_per_micro);
    let batch_total = total_wei(&batch);
    assert_eq!(
        streaming_total, batch_total,
        "streaming arena must settle identically to the batch record-bounty"
    );

    let final_best = arena.best_micros.unwrap();
    assert_eq!(
        streaming_total,
        (final_best - arena.baseline_micros) as u128 * wei_per_micro,
        "total record pay must equal wei_per_micro * (final_best - baseline)"
    );
    assert_eq!(final_best, 399_000);

    let record_payouts: Vec<u128> = records(&arena).iter().map(|e| e.paid_wei).collect();
    let batch_payouts: Vec<u128> = batch.iter().map(|p| p.wei).collect();
    assert_eq!(record_payouts, batch_payouts);
}

#[test]
fn a_researcher_stands_once_with_their_best() {
    let mut arena = record_bounty_arena(0, 1, u128::MAX);
    submit(&mut arena, "alice", 0.10);
    submit(&mut arena, "bob", 0.16);
    submit(&mut arena, "alice", 0.25);
    assert_eq!(
        arena.standings(),
        vec![("alice".to_string(), 250_000), ("bob".to_string(), 160_000)]
    );
}

#[test]
fn an_unscored_submission_changes_nothing() {
    let mut arena = record_bounty_arena(0, 1, u128::MAX);
    assert!(matches!(
        arena.submit(
            "a",
            Err(ScoreFailure::Surface(SurfaceError::Invalid("x".into())))
        ),
        Err(ProtocolError::Surface(_))
    ));
    assert!(matches!(
        arena.submit("a", Err(ScoreFailure::Scorer(ScorerError::Io("x".into())))),
        Err(ProtocolError::Scorer(_))
    ));
    assert!(arena.history.is_empty());
    assert_eq!(arena.best_micros, None);
    assert_eq!(arena.tick_epoch(), 0);
    assert_eq!(arena.epoch, 1);
}

#[test]
fn streaming_needs_a_strict_improvement() {
    let mut arena = streaming_arena(10, 100);
    assert!(submit(&mut arena, "alice", 0.10).became_record);
    assert!(!submit(&mut arena, "bob", 0.10).became_record);
    assert_eq!(arena.top_holder.as_deref(), Some("alice"));
}
