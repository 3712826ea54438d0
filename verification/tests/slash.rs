use autoresearch::dispute::DisputeOutcome;
use autoresearch::slash::{mul_bps, resolve_dispute, SlashPolicy, SlashResolution};

const RESEARCHER_STAKE: u128 = 5_000;
const CHALLENGER_STAKE: u128 = 500;

fn policy(reward_bps: u32, burn: bool) -> SlashPolicy {
    SlashPolicy {
        challenger_reward_bps: reward_bps,
        burn_remainder: burn,
    }
}

#[test]
fn overturned_slashes_researcher_and_rewards_challenger() {
    let p = policy(3_000, true);
    let r = resolve_dispute(
        DisputeOutcome::Overturned,
        RESEARCHER_STAKE,
        CHALLENGER_STAKE,
        &p,
    );
    assert_eq!(r.researcher_slashed, 5_000);
    assert_eq!(r.challenger_slashed, 0);
    assert_eq!(r.challenger_reward, 1_500);
    assert_eq!(r.challenger_refund, 500);
    assert_eq!(r.researcher_refund, 0);
    assert_eq!(r.burned, 3_500);
    assert!(
        r.challenger_reward > 0,
        "challenging a real fault must be +EV"
    );
    assert!(
        r.conserves(RESEARCHER_STAKE, CHALLENGER_STAKE),
        "Overturned must conserve funds: {r:?}"
    );
}

#[test]
fn overturned_reward_is_capped_at_researcher_stake() {
    let p = policy(20_000, true);
    let r = resolve_dispute(
        DisputeOutcome::Overturned,
        RESEARCHER_STAKE,
        CHALLENGER_STAKE,
        &p,
    );
    assert_eq!(
        r.challenger_reward, RESEARCHER_STAKE,
        "reward clamps to 100%"
    );
    assert_eq!(r.burned, 0);
    assert!(r.conserves(RESEARCHER_STAKE, CHALLENGER_STAKE));
}

#[test]
fn upheld_slashes_challenger_burn_policy() {
    let p = policy(3_000, true);
    let r = resolve_dispute(
        DisputeOutcome::Upheld,
        RESEARCHER_STAKE,
        CHALLENGER_STAKE,
        &p,
    );
    assert_eq!(r.challenger_slashed, 500);
    assert_eq!(r.researcher_slashed, 0);
    assert_eq!(r.researcher_refund, 5_000);
    assert_eq!(r.challenger_refund, 0);
    assert_eq!(r.burned, 500);
    assert!(
        r.conserves(RESEARCHER_STAKE, CHALLENGER_STAKE),
        "Upheld (burn) must conserve funds: {r:?}"
    );
}

#[test]
fn upheld_awards_challenger_stake_to_researcher_when_not_burning() {
    let p = policy(3_000, false);
    let r = resolve_dispute(
        DisputeOutcome::Upheld,
        RESEARCHER_STAKE,
        CHALLENGER_STAKE,
        &p,
    );
    assert_eq!(r.challenger_slashed, 500);
    assert_eq!(r.researcher_refund, 5_500);
    assert_eq!(r.burned, 0);
    assert!(r.conserves(RESEARCHER_STAKE, CHALLENGER_STAKE));
}

#[test]
fn inconclusive_refunds_both_and_slashes_nothing() {
    let p = policy(3_000, true);
    let r = resolve_dispute(
        DisputeOutcome::Inconclusive,
        RESEARCHER_STAKE,
        CHALLENGER_STAKE,
        &p,
    );
    assert_eq!(r.total_slashed(), 0);
    assert_eq!(r.researcher_refund, 5_000);
    assert_eq!(r.challenger_refund, 500);
    assert_eq!(r.burned, 0);
    assert!(
        r.conserves(RESEARCHER_STAKE, CHALLENGER_STAKE),
        "Inconclusive must conserve funds: {r:?}"
    );
}

#[test]
fn conservation_holds_for_all_outcomes_and_policies() {
    let outcomes = [
        DisputeOutcome::Overturned,
        DisputeOutcome::Upheld,
        DisputeOutcome::Inconclusive,
    ];
    let stakes = [
        (0u128, 0u128),
        (1, 1),
        (5_000, 500),
        (7, 1_000_000),
        (u128::MAX / 2, 3),
        (u128::MAX - 1, 1),
    ];
    for outcome in outcomes {
        for &(rs, cs) in &stakes {
            for &bps in &[0u32, 2_500, 10_000, 30_000] {
                for &burn in &[true, false] {
                    let p = policy(bps, burn);
                    let r = resolve_dispute(outcome, rs, cs, &p);
                    assert!(
                        r.conserves(rs, cs),
                        "conservation broke: outcome={outcome:?} rs={rs} cs={cs} bps={bps} burn={burn} => {r:?}"
                    );
                }
            }
        }
    }
}

#[test]
fn over_max_stake_sum_fails_closed_without_panic() {
    let outcomes = [
        DisputeOutcome::Overturned,
        DisputeOutcome::Upheld,
        DisputeOutcome::Inconclusive,
    ];
    let over_max = [(u128::MAX, 1u128), (u128::MAX, u128::MAX)];
    for outcome in outcomes {
        for &(rs, cs) in &over_max {
            for &burn in &[true, false] {
                let p = policy(3_000, burn);
                let r = resolve_dispute(outcome, rs, cs, &p);
                assert!(
                    !r.conserves(rs, cs),
                    "an over-u128::MAX stake sum must fail conservation, not wrap: \
                     outcome={outcome:?} rs={rs} cs={cs} burn={burn} => {r:?}"
                );
            }
        }
    }
}

#[test]
fn only_the_loser_is_slashed() {
    let p = policy(2_500, false);
    let lost = resolve_dispute(DisputeOutcome::Overturned, 1_000, 100, &p);
    assert_eq!(lost.challenger_slashed, 0);
    assert_eq!(lost.total_slashed(), 1_000);
    assert_eq!(lost.challenger_reward, 250);
    assert_eq!(lost.total_redistributed(), 1_000);
    let held = resolve_dispute(DisputeOutcome::Upheld, 1_000, 100, &p);
    assert_eq!(held.researcher_slashed, 0);
    assert_eq!(held.total_slashed(), 100);
}

#[test]
fn a_slashed_stake_may_not_flow_back_to_its_owner() {
    let r = SlashResolution {
        researcher_slashed: 5_000,
        challenger_slashed: 0,
        researcher_refund: 5_000,
        challenger_refund: 500,
        challenger_reward: 0,
        burned: 0,
    };
    assert!(!r.conserves(5_000, 500));
}

#[test]
fn basis_points_round_down_and_saturate() {
    assert_eq!(mul_bps(999, 3_333), 332);
    assert_eq!(mul_bps(0, 10_000), 0);
    assert_eq!(mul_bps(u128::MAX, 10_000), u128::MAX / 10_000);
}

#[test]
fn what_is_redistributed_is_the_reward_and_the_burn() {
    let r = SlashResolution {
        researcher_slashed: 10,
        challenger_slashed: 0,
        challenger_reward: 3,
        researcher_refund: 0,
        challenger_refund: 0,
        burned: 2,
    };
    assert!(!r.conserves(10, 0));
    assert_eq!(r.total_slashed(), 10);
    assert_eq!(r.total_redistributed(), 5);
    let short = SlashResolution {
        researcher_slashed: 100,
        challenger_slashed: 0,
        challenger_reward: 20,
        researcher_refund: 0,
        challenger_refund: 10,
        burned: 30,
    };
    assert_eq!(short.total_redistributed(), 50);
    let returned_to_its_owner = SlashResolution {
        researcher_refund: 50,
        challenger_refund: 0,
        ..short
    };
    assert_eq!(returned_to_its_owner.total_redistributed(), 50);
    let booked_as_a_refund = SlashResolution {
        challenger_refund: 50,
        ..short
    };
    assert!(booked_as_a_refund.conserves(100, 0));
    assert_eq!(booked_as_a_refund.total_redistributed(), 100);
    for outcome in [
        DisputeOutcome::Overturned,
        DisputeOutcome::Upheld,
        DisputeOutcome::Inconclusive,
    ] {
        for burn in [true, false] {
            let r = resolve_dispute(outcome, 5_000, 500, &policy(3_000, burn));
            assert_eq!(r.total_redistributed(), r.total_slashed());
        }
    }
}
