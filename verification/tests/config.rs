use autoresearch::binary64::Binary64;
use autoresearch::config::{
    default_job_price_weights, env_u128, env_u32, env_u8_opt, validate_gate, DefaultRewardShape,
    EconomicConfig, Environment, FeeSplit, FeeSplitNotice, GateNumbers, FEE_SPLIT_TOTAL,
};
use autoresearch::jobs::{
    JOB_CHALLENGE, JOB_COMMIT_CANDIDATE, JOB_CREATE_COMPETITION, JOB_JOIN, JOB_REPORT_SCORE,
    JOB_REVEAL_CANDIDATE, JOB_SETTLE, JOB_TICK,
};
use autoresearch::types::Gate;

fn b(x: f64) -> Binary64 {
    Binary64 { bits: x.to_bits() }
}

fn env(vars: &[(&str, &str)]) -> Environment {
    Environment {
        vars: vars
            .iter()
            .map(|(k, v)| (k.to_string(), v.to_string()))
            .collect(),
    }
}

fn unset() -> GateNumbers {
    GateNumbers {
        min_lift_ci_lower: None,
        cost_per_task_ceiling: None,
    }
}

fn loaded(vars: &[(&str, &str)]) -> EconomicConfig {
    EconomicConfig::from_env(&env(vars), &unset())
}

#[test]
fn default_fee_split_sums_to_100() {
    assert!(FeeSplit::default().validate());
    let s = FeeSplit::default();
    assert_eq!(
        u16::from(s.operator_pct) + u16::from(s.referee_pct) + u16::from(s.validator_pct),
        100
    );
}

#[test]
fn fee_split_rejecting_non_100_sum() {
    let bad = FeeSplit {
        operator_pct: 50,
        referee_pct: 30,
        validator_pct: 15,
    };
    assert!(!bad.validate());
}

#[test]
fn fee_split_does_not_wrap() {
    let bad = FeeSplit {
        operator_pct: 255,
        referee_pct: 100,
        validator_pct: 1,
    };
    assert!(!bad.validate());
    assert_eq!(FEE_SPLIT_TOTAL, 100);
}

#[test]
fn default_config_fee_split_is_valid() {
    assert!(EconomicConfig::default().fee_split.validate());
}

#[test]
fn pricing_weights_exist_for_all_eight_jobs() {
    let cfg = EconomicConfig::default();
    let jobs = [
        JOB_CREATE_COMPETITION,
        JOB_JOIN,
        JOB_COMMIT_CANDIDATE,
        JOB_REVEAL_CANDIDATE,
        JOB_REPORT_SCORE,
        JOB_SETTLE,
        JOB_CHALLENGE,
        JOB_TICK,
    ];
    for job in jobs {
        assert!(
            cfg.job_price_weights.contains_key(&job),
            "missing price weight for job {job}"
        );
    }
    assert_eq!(cfg.job_price_weights.len(), 8, "exactly 8 jobs priced");
}

#[test]
fn pricing_weights_are_the_published_ones() {
    let weights = default_job_price_weights();
    let all: Vec<(u8, u32)> = weights.into_iter().collect();
    assert_eq!(
        all,
        vec![(0, 100), (1, 5), (2, 5), (3, 5), (4, 50), (5, 50), (6, 20), (7, 0)]
    );
}

#[test]
fn pricing_ordering_create_heaviest_tick_free() {
    let cfg = EconomicConfig::default();
    let create = cfg.job_price_wei(JOB_CREATE_COMPETITION);
    let report = cfg.job_price_wei(JOB_REPORT_SCORE);
    let join = cfg.job_price_wei(JOB_JOIN);
    let tick = cfg.job_price_wei(JOB_TICK);
    assert!(create > report, "CREATE heavier than REPORT_SCORE");
    assert!(report > join, "REPORT_SCORE heavier than JOIN");
    assert_eq!(tick, 0, "TICK is free (operator cron upkeep)");
}

#[test]
fn job_prices_are_weight_times_base_and_saturate() {
    let mut cfg = EconomicConfig::default();
    assert_eq!(cfg.job_price_wei(JOB_CREATE_COMPETITION), 100_000_000_000_000);
    assert_eq!(cfg.job_price_wei(99), 0);
    cfg.base_price_wei = u128::MAX;
    assert_eq!(cfg.job_price_wei(JOB_JOIN), u128::MAX);
    assert_eq!(cfg.job_price_wei(JOB_TICK), 0);
}

#[test]
fn default_gate_matches_runtime_defaults() {
    let cfg = EconomicConfig::default();
    assert_eq!(cfg.gate.min_lift_ci_lower.bits, 0.02f64.to_bits());
    assert_eq!(cfg.gate.min_n, 12);
}

#[test]
fn default_config_validates() {
    assert!(EconomicConfig::default().validate().is_ok());
}

#[test]
fn validate_rejects_zero_min_n() {
    let mut cfg = EconomicConfig::default();
    cfg.gate.min_n = 0;
    let err = cfg.validate().unwrap_err();
    assert!(err.contains("min_n"), "got: {err}");
}

#[test]
fn validate_rejects_non_finite_or_negative_min_lift() {
    for bad in [f64::NAN, f64::INFINITY, -0.01] {
        let mut cfg = EconomicConfig::default();
        cfg.gate.min_lift_ci_lower = b(bad);
        assert!(
            cfg.validate().is_err(),
            "min_lift_ci_lower={bad} must be rejected"
        );
    }
}

#[test]
fn validate_accepts_a_zero_min_lift_of_either_sign() {
    for zero in [0.0, -0.0] {
        let mut gate = Gate::default();
        gate.min_lift_ci_lower = b(zero);
        assert!(validate_gate(&gate).is_ok());
    }
}

#[test]
fn validate_rejects_non_finite_cost_ceiling() {
    let mut cfg = EconomicConfig::default();
    cfg.gate.cost_per_task_ceiling = Some(b(f64::NAN));
    assert!(cfg.validate().is_err());
    cfg.gate.cost_per_task_ceiling = Some(b(f64::INFINITY));
    assert!(cfg.validate().is_err());
    cfg.gate.cost_per_task_ceiling = Some(b(2.5));
    assert!(cfg.validate().is_ok());
}

#[test]
fn validate_rejects_zero_stake_floor() {
    let cfg = EconomicConfig {
        min_stake_wei: 0,
        ..Default::default()
    };
    assert!(cfg.validate().is_err());
}

#[test]
fn validate_rejects_zero_base_price() {
    let cfg = EconomicConfig {
        base_price_wei: 0,
        ..Default::default()
    };
    assert!(cfg.validate().is_err());
}

#[test]
fn validate_rejects_a_split_that_is_no_whole() {
    let cfg = EconomicConfig {
        fee_split: FeeSplit {
            operator_pct: 50,
            referee_pct: 30,
            validator_pct: 15,
        },
        ..Default::default()
    };
    assert_eq!(
        cfg.validate().unwrap_err(),
        "fee split shares must sum to exactly 100"
    );
}

#[test]
fn gate_min_n_zero_does_not_yield_a_runnable_gate() {
    let cfg = loaded(&[("GATE_MIN_N", "0")]);
    assert_ne!(
        cfg.gate.min_n, 0,
        "GATE_MIN_N=0 must not load a powerless gate"
    );
    assert_eq!(cfg.gate.min_n, Gate::default().min_n);
    assert!(cfg.validate().is_ok());
}

#[test]
fn stake_floor_zero_falls_back_to_default() {
    let cfg = loaded(&[("STAKE_FLOOR_WEI", "0")]);
    assert_ne!(
        cfg.min_stake_wei, 0,
        "STAKE_FLOOR_WEI=0 must not disable the bond"
    );
    assert!(cfg.validate().is_ok());
}

#[test]
fn x402_base_price_zero_falls_back_to_default() {
    let cfg = loaded(&[("X402_BASE_PRICE_WEI", "0")]);
    assert_ne!(
        cfg.base_price_wei, 0,
        "X402_BASE_PRICE_WEI=0 must not make jobs free"
    );
    assert!(cfg.job_price_wei(JOB_CREATE_COMPETITION) > 0);
    assert!(cfg.validate().is_ok());
}

#[test]
fn fee_split_partial_override_with_unparsable_var_falls_back_to_default() {
    let vars = env(&[
        ("FEE_SPLIT_OPERATOR", "70"),
        ("FEE_SPLIT_REFEREE", "256"),
        ("FEE_SPLIT_VALIDATOR", ""),
    ]);
    let split = FeeSplit::from_env(&vars);
    assert_eq!(split, FeeSplit::default());
    assert!(split.validate());
    assert_eq!(
        FeeSplit::env_notice(&vars),
        FeeSplitNotice::Rejected {
            had_unparsable: true
        }
    );
}

#[test]
fn fee_split_override_that_does_not_sum_to_100_falls_back() {
    let vars = env(&[
        ("FEE_SPLIT_OPERATOR", "70"),
        ("FEE_SPLIT_REFEREE", "20"),
        ("FEE_SPLIT_VALIDATOR", "5"),
    ]);
    let split = FeeSplit::from_env(&vars);
    assert_eq!(split, FeeSplit::default());
    assert_eq!(
        FeeSplit::env_notice(&vars),
        FeeSplitNotice::Rejected {
            had_unparsable: false
        }
    );
}

#[test]
fn fee_split_valid_override_is_applied() {
    let vars = env(&[
        ("FEE_SPLIT_OPERATOR", "60"),
        ("FEE_SPLIT_REFEREE", "25"),
        ("FEE_SPLIT_VALIDATOR", "15"),
    ]);
    let split = FeeSplit::from_env(&vars);
    assert_eq!(split.operator_pct, 60);
    assert_eq!(split.referee_pct, 25);
    assert_eq!(split.validator_pct, 15);
    assert!(split.validate());
    assert_eq!(FeeSplit::env_notice(&vars), FeeSplitNotice::Applied);
}

#[test]
fn an_untouched_split_gives_no_notice() {
    assert_eq!(FeeSplit::env_notice(&env(&[])), FeeSplitNotice::Unset);
}

#[test]
fn an_environment_loads_every_setting() {
    let vars = env(&[
        ("GATE_MIN_N", " 30 "),
        ("STAKE_FLOOR_WEI", "77"),
        ("X402_BASE_PRICE_WEI", "+5"),
        ("DEFAULT_REWARD_SHAPE", "record_bounty"),
    ]);
    let cfg = EconomicConfig::from_env(
        &vars,
        &GateNumbers {
            min_lift_ci_lower: Some(b(0.5)),
            cost_per_task_ceiling: Some(b(2.0)),
        },
    );
    assert_eq!(cfg.gate.min_n, 30);
    assert_eq!(cfg.gate.min_lift_ci_lower.bits, 0.5f64.to_bits());
    assert_eq!(
        cfg.gate.cost_per_task_ceiling.unwrap().bits,
        2.0f64.to_bits()
    );
    assert_eq!(cfg.min_stake_wei, 77);
    assert_eq!(cfg.base_price_wei, 5);
    assert_eq!(cfg.default_reward_shape, DefaultRewardShape::RecordBounty);
    assert!(cfg.validate().is_ok());
}

#[test]
fn a_gate_that_makes_no_sense_is_discarded_as_a_whole() {
    let cfg = EconomicConfig::from_env(
        &env(&[("GATE_MIN_N", "30")]),
        &GateNumbers {
            min_lift_ci_lower: Some(b(f64::NAN)),
            cost_per_task_ceiling: Some(b(2.0)),
        },
    );
    assert_eq!(cfg.gate, Gate::default());
    assert!(cfg.validate().is_ok());
}

#[test]
fn numbers_are_read_like_rust_reads_them() {
    let vars = env(&[
        ("A", "255"),
        ("B", "256"),
        ("C", "-1"),
        ("D", " 12 "),
        ("E", "+"),
        ("F", "340282366920938463463374607431768211455"),
        ("G", "340282366920938463463374607431768211456"),
    ]);
    assert_eq!(env_u8_opt(&vars, "A").value, Some(255));
    assert!(env_u8_opt(&vars, "B").unparsable());
    assert_eq!(env_u8_opt(&vars, "B").raw.as_deref(), Some("256"));
    assert!(!env_u8_opt(&vars, "Z").present);
    assert!(!env_u8_opt(&vars, "Z").unparsable());
    assert_eq!(env_u32(&vars, "C", 7), 7);
    assert_eq!(env_u32(&vars, "D", 7), 12);
    assert_eq!(env_u128(&vars, "E", 9), 9);
    assert_eq!(env_u128(&vars, "F", 9), u128::MAX);
    assert_eq!(env_u128(&vars, "G", 9), 9);
}

#[test]
fn reward_shapes_are_named_exactly() {
    for (name, shape) in [
        ("terminal_prize", DefaultRewardShape::TerminalPrize),
        ("snapshot_topk", DefaultRewardShape::SnapshotTopK),
        ("record_bounty", DefaultRewardShape::RecordBounty),
        ("Terminal_Prize", DefaultRewardShape::SnapshotTopK),
    ] {
        assert_eq!(
            DefaultRewardShape::from_env(
                &env(&[("DEFAULT_REWARD_SHAPE", name)]),
                DefaultRewardShape::SnapshotTopK
            ),
            shape
        );
    }
}

#[test]
fn dropped_settings_are_told() {
    let vars = env(&[
        ("GATE_MIN_N", "0"),
        ("STAKE_FLOOR_WEI", "0"),
        ("X402_BASE_PRICE_WEI", "0"),
        ("FEE_SPLIT_OPERATOR", "60"),
    ]);
    let notice = EconomicConfig::env_notice(&vars, &unset());
    assert_eq!(notice.rejected_gate.map(|g| g.min_n), Some(0));
    assert!(notice.zero_stake_floor);
    assert!(notice.zero_base_price);
    assert_eq!(
        notice.fee_split,
        FeeSplitNotice::Rejected {
            had_unparsable: false
        }
    );
    let quiet = EconomicConfig::env_notice(&env(&[("GATE_MIN_N", "30")]), &unset());
    assert_eq!(quiet.rejected_gate, None);
    assert!(!quiet.zero_stake_floor);
    assert!(!quiet.zero_base_price);
    assert_eq!(quiet.fee_split, FeeSplitNotice::Unset);
}

#[test]
fn one_unreadable_share_discards_the_override() {
    let vars = env(&[
        ("FEE_SPLIT_OPERATOR", "60"),
        ("FEE_SPLIT_REFEREE", "abc"),
        ("FEE_SPLIT_VALIDATOR", "10"),
    ]);
    assert_eq!(
        FeeSplit::from_env(&vars),
        FeeSplit {
            operator_pct: 55,
            referee_pct: 30,
            validator_pct: 15
        }
    );
    assert_eq!(
        FeeSplit::env_notice(&vars),
        FeeSplitNotice::Rejected {
            had_unparsable: true
        }
    );
}
