use autoresearch::reward::{
    settle_record_bounty, settle_snapshot_topk, settle_terminal_prize, settle_time_at_top, total_wei,
    Payout, RecordBeat, RewardError, RewardSchedule,
};

fn beat(r: &str, micros: i64) -> RecordBeat {
    RecordBeat {
        researcher: r.to_string(),
        new_best_micros: micros,
    }
}

#[test]
fn record_bounty_buys_the_frontier_exactly_once() {
    let baseline = 100_000;
    let wei_per_micro = 1_000_000_000u128;
    let beats = vec![
        beat("alice", 150_000),
        beat("bob", 210_000),
        beat("alice", 399_000),
    ];
    let payouts = settle_record_bounty(baseline, &beats, 1_000, wei_per_micro);
    let final_best = 399_000;
    assert_eq!(
        total_wei(&payouts),
        (final_best - baseline) as u128 * wei_per_micro,
        "total paid must equal wei_per_micro * total lift over baseline"
    );
    assert_eq!(payouts.len(), 3);
    assert_eq!(payouts[0].wei, 50_000u128 * wei_per_micro);
    assert_eq!(payouts[1].wei, 60_000u128 * wei_per_micro);
    assert_eq!(payouts[2].wei, 189_000u128 * wei_per_micro);
}

#[test]
fn record_bounty_ignores_sub_epsilon_beats() {
    let baseline = 0;
    let wei_per_micro = 1;
    let beats = vec![
        beat("alice", 100_000),
        beat("bob", 105_000),
        beat("carol", 130_000),
    ];
    let payouts = settle_record_bounty(baseline, &beats, 10_000, wei_per_micro);
    assert_eq!(payouts.len(), 2);
    assert_eq!(payouts[0].researcher, "alice");
    assert_eq!(payouts[1].researcher, "carol");
    assert_eq!(payouts[1].wei, 30_000u128);
    assert_eq!(total_wei(&payouts), 130_000u128);
}

#[test]
fn record_bounty_never_pays_regressions() {
    let payouts = settle_record_bounty(500_000, &[beat("alice", 400_000)], 0, 1_000_000);
    assert!(payouts.is_empty());
}

#[test]
fn record_bounty_saturates_extreme_marginal_without_overflow() {
    let payouts = settle_record_bounty(i64::MIN, &[beat("alice", i64::MAX)], 1, u128::MAX);
    assert_eq!(payouts.len(), 1);
    assert_eq!(payouts[0].wei, u128::MAX);
}

#[test]
fn snapshot_topk_splits_pool_and_floors_dust() {
    let pool = 1_000_000u128;
    let ranked = vec!["a".into(), "b".into(), "c".into()];
    let payouts = settle_snapshot_topk(pool, &ranked, &[5_000, 3_000, 2_000]);
    assert_eq!(total_wei(&payouts), 1_000_000u128);
    assert_eq!(payouts[0].wei, 500_000);
    assert_eq!(payouts[1].wei, 300_000);
    assert_eq!(payouts[2].wei, 200_000);
    assert!(total_wei(&payouts) <= pool);
}

#[test]
fn snapshot_topk_pays_only_as_many_as_ranked() {
    let payouts = settle_snapshot_topk(1_000u128, &["solo".into()], &[6_000, 4_000]);
    assert_eq!(payouts.len(), 1);
    assert_eq!(payouts[0].wei, 600);
}

#[test]
fn snapshot_topk_never_exceeds_pool_for_overweighted_inputs() {
    let pool = 1_000_000u128;
    let ranked = vec!["a".into(), "b".into(), "c".into()];

    let over_two = settle_snapshot_topk(pool, &ranked, &[6_000, 5_000]);
    assert!(
        total_wei(&over_two) <= pool,
        "110% weights must not exceed pool"
    );

    let over_three = settle_snapshot_topk(pool, &ranked, &[10_000, 10_000, 10_000]);
    assert!(
        total_wei(&over_three) <= pool,
        "300% weights must not exceed pool"
    );
    assert_eq!(over_three[0].wei, pool);
    assert_eq!(total_wei(&over_three), pool);
}

#[test]
fn reward_schedule_validate_accepts_conserving_weights() {
    assert!(
        RewardSchedule::SnapshotTopK {
            weights_bps: vec![5_000, 3_000, 2_000],
        }
        .validate()
        .is_ok()
    );
    assert!(
        RewardSchedule::SnapshotTopK {
            weights_bps: vec![5_000, 3_000],
        }
        .validate()
        .is_ok()
    );
    assert!(RewardSchedule::TerminalPrize.validate().is_ok());
}

#[test]
fn reward_schedule_validate_rejects_overweighted_and_empty() {
    assert_eq!(
        RewardSchedule::SnapshotTopK {
            weights_bps: vec![6_000, 5_000],
        }
        .validate(),
        Err(RewardError::WeightsExceedPool { sum: 11_000 })
    );
    assert_eq!(
        RewardSchedule::SnapshotTopK {
            weights_bps: vec![10_000, 10_000, 10_000],
        }
        .validate(),
        Err(RewardError::WeightsExceedPool { sum: 30_000 })
    );
    assert_eq!(
        RewardSchedule::SnapshotTopK {
            weights_bps: vec![]
        }
        .validate(),
        Err(RewardError::EmptyWeights)
    );
}

#[test]
fn terminal_prize_all_or_nothing() {
    assert_eq!(
        settle_terminal_prize(42, Some("winner")),
        vec![Payout {
            researcher: "winner".into(),
            wei: 42
        }]
    );
    assert!(settle_terminal_prize(42, None).is_empty());
    assert!(settle_terminal_prize(0, Some("winner")).is_empty());
}

#[test]
fn time_at_top_pays_per_epoch_held() {
    let holders = vec![("alice".to_string(), 3u64), ("bob".to_string(), 0u64)];
    let payouts = settle_time_at_top(&holders, 100);
    assert_eq!(payouts.len(), 1);
    assert_eq!(payouts[0].researcher, "alice");
    assert_eq!(payouts[0].wei, 300);
}

#[test]
fn payouts_go_only_to_ranks_with_a_weight() {
    let ranked = vec!["a".to_string(), "b".to_string(), "c".to_string()];
    let payouts = settle_snapshot_topk(1_000, &ranked, &[0, 5_000, 1]);
    assert_eq!(payouts.len(), 1);
    assert_eq!(payouts[0].researcher, "b");
    assert_eq!(payouts[0].wei, 500);
}

#[test]
fn valid_weights_are_paid_in_full_rounded_down() {
    let ranked = vec!["a".to_string(), "b".to_string(), "c".to_string()];
    let payouts = settle_snapshot_topk(1_001, &ranked, &[3_333, 3_333, 3_334]);
    assert_eq!(
        payouts.iter().map(|p| p.wei).collect::<Vec<_>>(),
        vec![333, 333, 333]
    );
}

#[test]
fn totals_add_up_to_the_largest_amount() {
    let payouts = settle_time_at_top(&[("a".to_string(), u64::MAX)], 1 << 64);
    assert_eq!(payouts[0].wei, u128::MAX - u128::from(u64::MAX));
    let both = vec![
        payouts[0].clone(),
        Payout {
            researcher: "b".into(),
            wei: u128::from(u64::MAX),
        },
    ];
    assert_eq!(total_wei(&both), u128::MAX);
    assert_eq!(total_wei(&[]), 0);
}

#[test]
fn every_other_schedule_validates() {
    assert!(RewardSchedule::RecordBounty {
        epsilon_micros: 1,
        wei_per_micro: 1
    }
    .validate()
    .is_ok());
    assert!(RewardSchedule::TimeAtTopStreaming { wei_per_epoch: 1 }
        .validate()
        .is_ok());
}

#[test]
fn a_span_beyond_one_margin_is_bought_record_by_record() {
    let beats = vec![beat("a", 0), beat("b", i64::MAX)];
    let payouts = settle_record_bounty(i64::MIN + 1, &beats, 1, 2);
    assert_eq!(
        total_wei(&payouts),
        2 * (i64::MAX as i128 - (i64::MIN + 1) as i128) as u128
    );
}

#[test]
fn every_reward_error_has_its_message() {
    assert_eq!(
        RewardError::EmptyWeights.message(),
        "SnapshotTopK weights_bps must be non-empty"
    );
    assert_eq!(
        RewardError::WeightsExceedPool { sum: 10_001 }.message(),
        "SnapshotTopK weights_bps sum to 10001 bps, exceeding the 10000 bps pool"
    );
}

#[test]
fn a_schedule_is_written_out_with_its_parameters() {
    for schedule in [
        RewardSchedule::TerminalPrize,
        RewardSchedule::SnapshotTopK {
            weights_bps: vec![],
        },
        RewardSchedule::SnapshotTopK {
            weights_bps: vec![5_000],
        },
        RewardSchedule::SnapshotTopK {
            weights_bps: vec![5_000, 3_000, 2_000],
        },
        RewardSchedule::RecordBounty {
            epsilon_micros: i64::MIN,
            wei_per_micro: u128::MAX,
        },
        RewardSchedule::RecordBounty {
            epsilon_micros: 10,
            wei_per_micro: 0,
        },
        RewardSchedule::TimeAtTopStreaming { wei_per_epoch: 7 },
    ] {
        assert_eq!(schedule.write_out(), format!("{schedule:?}"));
    }
}
