use autoresearch::stake::{StakeError, StakeLedger, StakePolicy};

fn policy(min: u128) -> StakePolicy {
    StakePolicy { min_stake_wei: min }
}

#[test]
fn sized_policy_takes_the_max_of_spam_floor_and_leakage() {
    let public = StakePolicy::sized(5, 100, 50);
    assert_eq!(public.min_stake_wei, 500);
    let private = StakePolicy::sized(3, 100, 10_000);
    assert_eq!(private.min_stake_wei, 10_000);
}

#[test]
fn post_stake_accumulates_and_clears_floor() {
    let mut ledger = StakeLedger::new();
    let p = policy(1_000);
    let bal = ledger.post_stake(1, "0xalice", 1_000, &p).unwrap();
    assert_eq!(bal, 1_000);
    assert_eq!(ledger.balance(1, "0xalice"), 1_000);
    let bal = ledger.post_stake(1, "0xalice", 500, &p).unwrap();
    assert_eq!(bal, 1_500);
}

#[test]
fn post_stake_below_floor_is_rejected_and_does_not_mutate() {
    let mut ledger = StakeLedger::new();
    let p = policy(1_000);
    let err = ledger.post_stake(1, "0xbob", 999, &p).unwrap_err();
    assert_eq!(
        err,
        StakeError::BelowPolicy {
            competition: 1,
            researcher: "0xbob".into(),
            posted: 999,
            floor: 1_000,
        }
    );
    assert_eq!(ledger.balance(1, "0xbob"), 0);
}

#[test]
fn withdraw_reduces_balance_and_rejects_overdraw() {
    let mut ledger = StakeLedger::new();
    let p = policy(1_000);
    ledger.post_stake(1, "0xalice", 1_500, &p).unwrap();

    let remaining = ledger.withdraw(1, "0xalice", 500).unwrap();
    assert_eq!(remaining, 1_000);
    assert_eq!(ledger.balance(1, "0xalice"), 1_000);

    let err = ledger.withdraw(1, "0xalice", 2_000).unwrap_err();
    assert_eq!(
        err,
        StakeError::Insufficient {
            competition: 1,
            researcher: "0xalice".into(),
            requested: 2_000,
            balance: 1_000,
        }
    );

    assert_eq!(
        ledger.withdraw(1, "0xnobody", 1).unwrap_err(),
        StakeError::NoStake {
            competition: 1,
            researcher: "0xnobody".into(),
        }
    );
}

#[test]
fn slash_clamps_to_balance_and_never_goes_negative() {
    let mut ledger = StakeLedger::new();
    let p = policy(1_000);
    ledger.post_stake(1, "0xcheat", 1_000, &p).unwrap();

    let removed = ledger.slash(1, "0xcheat", 5_000).unwrap();
    assert_eq!(removed, 1_000);
    assert_eq!(ledger.balance(1, "0xcheat"), 0);

    ledger.post_stake(1, "0xcheat", 1_000, &p).unwrap();
    let removed = ledger.slash(1, "0xcheat", 400).unwrap();
    assert_eq!(removed, 400);
    assert_eq!(ledger.balance(1, "0xcheat"), 600);
}

#[test]
fn slash_unknown_researcher_errors() {
    let mut ledger = StakeLedger::new();
    assert_eq!(
        ledger.slash(1, "0xghost", 1).unwrap_err(),
        StakeError::NoStake {
            competition: 1,
            researcher: "0xghost".into(),
        }
    );
}

#[test]
fn ledger_keys_separate_competitions_and_researchers() {
    let mut ledger = StakeLedger::new();
    let p = policy(100);
    ledger.post_stake(1, "0xalice", 100, &p).unwrap();
    ledger.post_stake(2, "0xalice", 300, &p).unwrap();
    ledger.post_stake(1, "0xbob", 200, &p).unwrap();
    assert_eq!(ledger.balance(1, "0xalice"), 100);
    assert_eq!(ledger.balance(2, "0xalice"), 300);
    assert_eq!(ledger.balance(1, "0xbob"), 200);
    assert_eq!(ledger.total_staked(), 600);
}

#[test]
fn a_rejected_post_leaves_no_record_behind() {
    let mut ledger = StakeLedger::default();
    assert!(ledger.post_stake(1, "0xbob", 999, &policy(1_000)).is_err());
    assert_eq!(
        ledger.slash(1, "0xbob", 1).unwrap_err(),
        StakeError::NoStake {
            competition: 1,
            researcher: "0xbob".into(),
        }
    );
    assert_eq!(ledger.total_staked(), 0);
}

#[test]
fn stakes_saturate_and_policies_size_up() {
    let mut ledger = StakeLedger::new();
    ledger.post_stake(1, "0xa", u128::MAX, &policy(0)).unwrap();
    assert_eq!(ledger.post_stake(1, "0xa", 5, &policy(0)).unwrap(), u128::MAX);
    assert_eq!(ledger.total_staked(), u128::MAX);
    assert_eq!(StakePolicy::sized(2, u128::MAX, 0).min_stake_wei, u128::MAX);
    assert!(policy(10).admits(10));
    assert!(!policy(10).admits(9));
}

#[test]
fn the_total_moves_with_the_balance() {
    let mut ledger = StakeLedger::new();
    let p = policy(10);
    ledger.post_stake(1, "0xa", 30, &p).unwrap();
    ledger.post_stake(1, "0xb", 20, &p).unwrap();
    ledger.withdraw(1, "0xa", 5).unwrap();
    ledger.slash(1, "0xb", 7).unwrap();
    assert_eq!(ledger.total_staked(), 38);
    assert_eq!(
        ledger.total_staked(),
        ledger.balance(1, "0xa") + ledger.balance(1, "0xb")
    );
}

#[test]
fn every_stake_error_has_its_message() {
    assert_eq!(
        StakeError::BelowPolicy {
            competition: 3,
            researcher: "0xr".into(),
            posted: 5,
            floor: u128::MAX,
        }
        .message(),
        "stake 5 for researcher 0xr in competition 3 is below the policy floor \
         340282366920938463463374607431768211455"
    );
    assert_eq!(
        StakeError::NoStake {
            competition: 3,
            researcher: "0xr".into(),
        }
        .message(),
        "no stake recorded for researcher 0xr in competition 3"
    );
    assert_eq!(
        StakeError::Insufficient {
            competition: 3,
            researcher: "0xr".into(),
            requested: 11,
            balance: 10,
        }
        .message(),
        "cannot withdraw 11 for researcher 0xr in competition 3: balance is 10"
    );
}
