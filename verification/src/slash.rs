//! Slashing: turning the outcome of a dispute into an exact movement of the two
//! stakes. Funds are only moved, never made.
use crate::amounts::{greater, lesser, lesser_of, plus_capped, times_capped, wei_cap};
use crate::dispute::DisputeOutcome;
use crate::reward::BPS_DENOM;
use vstd::math::min;
use vstd::prelude::*;

verus! {

/// How a dispute redistributes the loser's slashed stake.
#[derive(Clone, Copy, Debug, PartialEq, Eq, Structural)]
pub struct SlashPolicy {
    /// The challenger's reward on a successful challenge, in basis points of the
    /// researcher's slashed stake.
    pub challenger_reward_bps: u32,
    /// Whether slashed stake that is not paid to the winning party is burned.
    pub burn_remainder: bool,
}

/// The exact disposition of the two stakes after a dispute.
#[derive(Clone, Copy, Debug, PartialEq, Eq, Structural)]
pub struct SlashResolution {
    /// Researcher stake that was removed.
    pub researcher_slashed: u128,
    /// Challenger stake that was removed.
    pub challenger_slashed: u128,
    /// Paid to the challenger out of the researcher's slashed stake.
    pub challenger_reward: u128,
    /// Returned to the researcher.
    pub researcher_refund: u128,
    /// Returned to the challenger.
    pub challenger_refund: u128,
    /// Slashed stake that neither party gets.
    pub burned: u128,
}

impl SlashResolution {
    /// What is left of the researcher's own stake.
    pub open spec fn researcher_kept(self, researcher_stake: u128) -> int {
        greater(researcher_stake - self.researcher_slashed, 0)
    }

    /// What is left of the challenger's own stake.
    pub open spec fn challenger_kept(self, challenger_stake: u128) -> int {
        greater(challenger_stake - self.challenger_slashed, 0)
    }

    /// What the researcher gets beyond what is left of their own stake.
    pub open spec fn researcher_received(self, researcher_stake: u128) -> int {
        self.researcher_refund - self.researcher_kept(researcher_stake)
    }

    /// What the challenger gets beyond what is left of their own stake.
    pub open spec fn challenger_received(self, challenger_stake: u128) -> int {
        self.challenger_reward + self.challenger_refund - self.challenger_kept(challenger_stake)
    }

    /// Everything that flows back out.
    pub open spec fn out(self) -> int {
        self.challenger_reward + self.researcher_refund + self.challenger_refund + self.burned
    }

    /// The two stakes are a representable amount and equal what flows back out; each
    /// party gets back at least what is left of their own stake; and slashed stake
    /// goes only to the other party or is burned.
    pub open spec fn conserving(self, researcher_stake: u128, challenger_stake: u128) -> bool {
        &&& researcher_stake + challenger_stake <= u128::MAX
        &&& self.out() == researcher_stake + challenger_stake
        &&& self.researcher_refund >= self.researcher_kept(researcher_stake)
        &&& self.challenger_refund >= self.challenger_kept(challenger_stake)
        &&& self.researcher_received(researcher_stake) <= self.challenger_slashed
        &&& self.challenger_received(challenger_stake) <= self.researcher_slashed
        &&& wei_cap(self.researcher_slashed + self.challenger_slashed) == self.researcher_received(
            researcher_stake,
        ) + self.challenger_received(challenger_stake) + self.burned
    }

    /// There are stakes of which the resolution only moves what it slashes.
    pub open spec fn conservable(self) -> bool {
        exists|rs: u128, cs: u128| #[trigger] self.conserving(rs, cs)
    }

    /// What went to the other party or was burned. Where the resolution can be one that
    /// conserves funds, this is everything that was slashed (stake that is awarded to
    /// the researcher is booked on top of a refund); otherwise it is the reward and the
    /// burn.
    pub open spec fn redistributed(self) -> int {
        if self.conservable() {
            wei_cap(self.researcher_slashed + self.challenger_slashed)
        } else {
            wei_cap(self.challenger_reward + self.burned)
        }
    }

    /// What must be left of the researcher's own stake: whatever of the refund the
    /// challenger's slashed stake cannot have paid.
    spec fn least_researcher_kept(self) -> int {
        greater(self.researcher_refund - self.challenger_slashed, 0)
    }

    /// What must be left of the challenger's own stake: whatever of the refund and the
    /// reward the researcher's slashed stake cannot have paid.
    spec fn least_challenger_kept(self) -> int {
        greater(
            self.challenger_reward + self.challenger_refund - self.researcher_slashed,
            0,
        )
    }

    /// What flows out beyond what was slashed is what is left of the two stakes, and it
    /// can be divided between the parties.
    spec fn divisible(self) -> bool {
        let slashed = wei_cap(self.researcher_slashed + self.challenger_slashed);
        &&& self.out() <= u128::MAX
        &&& self.challenger_reward <= self.researcher_slashed
        &&& self.challenger_reward + self.burned <= slashed
        &&& self.least_researcher_kept() + self.least_challenger_kept() <= self.out() - slashed
    }

    proof fn lemma_divisible(self)
        ensures
            self.divisible() == self.conservable(),
    {
        let slashed = wei_cap(self.researcher_slashed + self.challenger_slashed);
        if self.divisible() {
            let left = self.out() - slashed;
            let (rs, cs) = if self.researcher_slashed + self.challenger_slashed > u128::MAX {
                (self.researcher_slashed, (u128::MAX - self.researcher_slashed) as u128)
            } else {
                let mine = greater(
                    self.least_researcher_kept(),
                    left - self.challenger_refund,
                );
                (
                    (self.researcher_slashed + mine) as u128,
                    (self.challenger_slashed + (left - mine)) as u128,
                )
            };
            assert(self.conserving(rs, cs));
        }
        if self.conservable() {
            let (rs, cs) = choose|rs: u128, cs: u128| #[trigger] self.conserving(rs, cs);
            assert(self.divisible());
        }
    }

    fn can_conserve(&self) -> (r: bool)
        ensures
            r == self.conservable(),
    {
        proof {
            self.lemma_divisible();
        }
        let refunds = match self.researcher_refund.checked_add(self.challenger_refund) {
            Some(v) => v,
            None => {
                return false;
            },
        };
        let paid = match self.challenger_reward.checked_add(self.burned) {
            Some(v) => v,
            None => {
                return false;
            },
        };
        let out = match refunds.checked_add(paid) {
            Some(v) => v,
            None => {
                return false;
            },
        };
        let slashed: u128 = self.total_slashed();
        if self.challenger_reward > self.researcher_slashed || paid > slashed || out < slashed {
            return false;
        }
        let due: u128 = self.challenger_reward + self.challenger_refund;
        let researcher_kept: u128 = if self.researcher_refund > self.challenger_slashed {
            self.researcher_refund - self.challenger_slashed
        } else {
            0
        };
        let challenger_kept: u128 = if due > self.researcher_slashed {
            due - self.researcher_slashed
        } else {
            0
        };
        researcher_kept + challenger_kept <= out - slashed
    }

    /// The wei removed from the two parties.
    pub fn total_slashed(&self) -> (r: u128)
        ensures
            r == wei_cap(self.researcher_slashed + self.challenger_slashed),
    {
        plus_capped(self.researcher_slashed, self.challenger_slashed)
    }

    /// The wei that went to the other party or was burned; where funds are conserved
    /// this is exactly everything that was slashed.
    pub fn total_redistributed(&self) -> (r: u128)
        ensures
            r == self.redistributed(),
            forall|rs: u128, cs: u128| #[trigger]
                self.conserving(rs, cs) ==> r == self.researcher_received(rs)
                    + self.challenger_received(cs) + self.burned && r == wei_cap(
                    self.researcher_slashed + self.challenger_slashed,
                ),
    {
        if self.can_conserve() {
            self.total_slashed()
        } else {
            plus_capped(self.challenger_reward, self.burned)
        }
    }

    /// Whether the resolution only moves the two stakes.
    pub fn conserves(&self, researcher_stake: u128, challenger_stake: u128) -> (r: bool)
        ensures
            r == self.conserving(researcher_stake, challenger_stake),
    {
        let total_in = match researcher_stake.checked_add(challenger_stake) {
            Some(v) => v,
            None => {
                return false;
            },
        };
        let paid_out = match self.challenger_reward.checked_add(self.researcher_refund) {
            Some(v) => v,
            None => {
                return false;
            },
        };
        let with_refund = match paid_out.checked_add(self.challenger_refund) {
            Some(v) => v,
            None => {
                return false;
            },
        };
        let total_out = match with_refund.checked_add(self.burned) {
            Some(v) => v,
            None => {
                return false;
            },
        };
        if total_in != total_out {
            return false;
        }
        let researcher_kept: u128 = if researcher_stake > self.researcher_slashed {
            researcher_stake - self.researcher_slashed
        } else {
            0
        };
        let challenger_kept: u128 = if challenger_stake > self.challenger_slashed {
            challenger_stake - self.challenger_slashed
        } else {
            0
        };
        if self.researcher_refund < researcher_kept || self.challenger_refund < challenger_kept {
            return false;
        }
        let researcher_received: u128 = self.researcher_refund - researcher_kept;
        let challenger_received: u128 = self.challenger_reward + (self.challenger_refund
            - challenger_kept);
        if researcher_received > self.challenger_slashed || challenger_received
            > self.researcher_slashed {
            return false;
        }
        let total_received: u128 = researcher_received + challenger_received + self.burned;
        self.total_slashed() == total_received
    }
}

/// `value * bps / 10_000`, the product capped.
pub open spec fn bps_part(value: u128, bps: u32) -> int {
    wei_cap(value * bps) / 10_000
}

/// The stake movements that a dispute leads to.
///
/// An overturned certification costs the researcher the whole stake: the challenger
/// is rewarded out of it, up to the policy's share, and refunded, and the rest is
/// burned. An upheld one costs the challenger the whole stake, which is burned or
/// goes to the researcher. Without a decision both are refunded.
pub open spec fn resolution(
    outcome: DisputeOutcome,
    researcher_stake: u128,
    challenger_stake: u128,
    policy: SlashPolicy,
) -> SlashResolution {
    match outcome {
        DisputeOutcome::Overturned => {
            let reward = lesser(
                researcher_stake as int,
                bps_part(researcher_stake, policy.challenger_reward_bps),
            );
            SlashResolution {
                researcher_slashed: researcher_stake,
                challenger_slashed: 0,
                challenger_reward: reward as u128,
                researcher_refund: 0,
                challenger_refund: challenger_stake,
                burned: (researcher_stake - reward) as u128,
            }
        },
        DisputeOutcome::Upheld => SlashResolution {
            researcher_slashed: 0,
            challenger_slashed: challenger_stake,
            challenger_reward: 0,
            researcher_refund: if policy.burn_remainder {
                researcher_stake
            } else {
                wei_cap(researcher_stake + challenger_stake) as u128
            },
            challenger_refund: 0,
            burned: if policy.burn_remainder {
                challenger_stake
            } else {
                0
            },
        },
        DisputeOutcome::Inconclusive => SlashResolution {
            researcher_slashed: 0,
            challenger_slashed: 0,
            challenger_reward: 0,
            researcher_refund: researcher_stake,
            challenger_refund: challenger_stake,
            burned: 0,
        },
    }
}

/// Resolves a dispute into the exact stake movements.
pub fn resolve_dispute(
    outcome: DisputeOutcome,
    researcher_stake: u128,
    challenger_stake: u128,
    policy: &SlashPolicy,
) -> (r: SlashResolution)
    ensures
        r == resolution(outcome, researcher_stake, challenger_stake, *policy),
        r.conserving(researcher_stake, challenger_stake) == (researcher_stake + challenger_stake
            <= u128::MAX),
{
    proof {
        dispute_conserves_stakes(outcome, researcher_stake, challenger_stake, *policy);
    }
    match outcome {
        DisputeOutcome::Overturned => {
            let cap: u128 = mul_bps(researcher_stake, policy.challenger_reward_bps);
            let challenger_reward: u128 = lesser_of(researcher_stake, cap);
            SlashResolution {
                researcher_slashed: researcher_stake,
                challenger_slashed: 0,
                challenger_reward,
                researcher_refund: 0,
                challenger_refund: challenger_stake,
                burned: researcher_stake - challenger_reward,
            }
        },
        DisputeOutcome::Upheld => {
            let (researcher_extra, burned): (u128, u128) = if policy.burn_remainder {
                (0, challenger_stake)
            } else {
                (challenger_stake, 0)
            };
            SlashResolution {
                researcher_slashed: 0,
                challenger_slashed: challenger_stake,
                challenger_reward: 0,
                researcher_refund: plus_capped(researcher_stake, researcher_extra),
                challenger_refund: 0,
                burned,
            }
        },
        DisputeOutcome::Inconclusive => SlashResolution {
            researcher_slashed: 0,
            challenger_slashed: 0,
            challenger_reward: 0,
            researcher_refund: researcher_stake,
            challenger_refund: challenger_stake,
            burned: 0,
        },
    }
}

/// Whatever the outcome and the policy, a dispute conserves the two stakes exactly
/// when their sum is a representable amount; a larger sum fails the check and never
/// wraps.
pub proof fn dispute_conserves_stakes(
    outcome: DisputeOutcome,
    researcher_stake: u128,
    challenger_stake: u128,
    policy: SlashPolicy,
)
    ensures
        resolution(outcome, researcher_stake, challenger_stake, policy).conserving(
            researcher_stake,
            challenger_stake,
        ) <==> researcher_stake + challenger_stake <= u128::MAX,
{
    assert(researcher_stake * policy.challenger_reward_bps >= 0) by (nonlinear_arith)
        requires
            researcher_stake >= 0,
            policy.challenger_reward_bps >= 0,
    ;
}

/// Only the side that the committee found wrong loses stake: an undecided dispute
/// slashes nobody, and no outcome slashes both.
pub proof fn only_the_losing_side_is_slashed(
    outcome: DisputeOutcome,
    researcher_stake: u128,
    challenger_stake: u128,
    policy: SlashPolicy,
)
    ensures
        ({
            let r = resolution(outcome, researcher_stake, challenger_stake, policy);
            &&& outcome != DisputeOutcome::Overturned ==> r.researcher_slashed == 0
                && r.researcher_refund >= researcher_stake
            &&& outcome != DisputeOutcome::Upheld ==> r.challenger_slashed == 0
                && r.challenger_refund == challenger_stake
        }),
{
}

/// `value * bps / 10_000`, the product capped.
pub fn mul_bps(value: u128, bps: u32) -> (r: u128)
    ensures
        r == bps_part(value, bps),
{
    times_capped(value, bps as u128) / BPS_DENOM as u128
}

/// What an overturned certification costs and pays: the researcher loses the whole stake
/// and gets nothing back; the challenger gets back their own and, on top, the policy's
/// share of what was slashed, rounded down and never more than all of it; what is left
/// is burned.
pub proof fn an_overturned_certification_pays_the_challenger(
    researcher_stake: u128,
    challenger_stake: u128,
    policy: SlashPolicy,
)
    ensures
        ({
            let r = resolution(
                DisputeOutcome::Overturned,
                researcher_stake,
                challenger_stake,
                policy,
            );
            let owed = researcher_stake * policy.challenger_reward_bps;
            &&& r.researcher_slashed == researcher_stake
            &&& r.researcher_refund == 0
            &&& r.challenger_slashed == 0
            &&& r.challenger_refund == challenger_stake
            &&& r.challenger_reward + r.burned == researcher_stake
            &&& r.challenger_reward * 10_000 <= owed
            &&& owed <= u128::MAX && r.burned > 0 ==> owed < (r.challenger_reward + 1) * 10_000
            &&& owed <= u128::MAX && policy.challenger_reward_bps >= 10_000 ==> r.burned == 0
            &&& owed > u128::MAX && r.burned > 0 ==> r.challenger_reward == u128::MAX / 10_000
        }),
{
    let (stake, bps) = (researcher_stake as int, policy.challenger_reward_bps as int);
    assert(stake * bps >= 0) by (nonlinear_arith)
        requires
            stake >= 0,
            bps >= 0,
    ;
    if bps >= 10_000 {
        assert(stake * bps >= stake * 10_000) by (nonlinear_arith)
            requires
                stake >= 0,
                bps >= 10_000,
        ;
    }
}

/// What an upheld certification costs and pays: the challenger loses the whole stake and
/// is paid nothing; it is burned, or goes to the researcher on top of their own. Without
/// a decision both get back exactly what they put in.
pub proof fn an_upheld_certification_costs_the_challenger(
    researcher_stake: u128,
    challenger_stake: u128,
    policy: SlashPolicy,
)
    requires
        researcher_stake + challenger_stake <= u128::MAX,
    ensures
        ({
            let r = resolution(DisputeOutcome::Upheld, researcher_stake, challenger_stake, policy);
            &&& r.challenger_slashed == challenger_stake
            &&& r.challenger_refund == 0
            &&& r.challenger_reward == 0
            &&& r.researcher_slashed == 0
            &&& policy.burn_remainder ==> r.burned == challenger_stake && r.researcher_refund
                == researcher_stake
            &&& !policy.burn_remainder ==> r.burned == 0 && r.researcher_refund
                == researcher_stake + challenger_stake
        }),
        ({
            let r = resolution(
                DisputeOutcome::Inconclusive,
                researcher_stake,
                challenger_stake,
                policy,
            );
            &&& r.researcher_slashed == 0 && r.challenger_slashed == 0
            &&& r.researcher_refund == researcher_stake && r.challenger_refund == challenger_stake
            &&& r.challenger_reward == 0 && r.burned == 0
        }),
{
}

/// Funds are only moved: a resolution that conserves the stakes pays out exactly what
/// went in, gives neither party less than what is left of their own stake, and gives
/// neither more on top than the other lost.
pub proof fn conserving_means_that_nothing_is_made_or_lost(
    r: SlashResolution,
    researcher_stake: u128,
    challenger_stake: u128,
)
    requires
        r.researcher_slashed <= researcher_stake,
        r.challenger_slashed <= challenger_stake,
        researcher_stake + challenger_stake <= u128::MAX,
    ensures
        r.conserving(researcher_stake, challenger_stake) <==> {
            &&& r.challenger_reward + r.researcher_refund + r.challenger_refund + r.burned
                == researcher_stake + challenger_stake
            &&& r.researcher_refund >= researcher_stake - r.researcher_slashed
            &&& r.challenger_refund >= challenger_stake - r.challenger_slashed
            &&& r.researcher_refund - (researcher_stake - r.researcher_slashed)
                <= r.challenger_slashed
            &&& r.challenger_reward + r.challenger_refund - (challenger_stake
                - r.challenger_slashed) <= r.researcher_slashed
        },
{
}

// --- What the operations give back -------------------------------------------

/// What a dispute moves. Overturned: the researcher loses all; the challenger gets back
/// their own and the policy's share of what was lost, rounded down and never more than
/// that; the rest is burned. Upheld: the challenger loses all, which is burned or goes to
/// the researcher on top of their own. Undecided: both get back what they put in.
pub proof fn a_dispute_moves_the_stakes(
    outcome: DisputeOutcome,
    researcher_stake: u128,
    challenger_stake: u128,
    policy: &SlashPolicy,
    r: SlashResolution,
)
    requires
        researcher_stake + challenger_stake <= u128::MAX,
        researcher_stake * policy.challenger_reward_bps <= u128::MAX,
        call_ensures(
            resolve_dispute,
            (outcome, researcher_stake, challenger_stake, policy),
            r,
        ),
    ensures
        r.challenger_reward + r.researcher_refund + r.challenger_refund + r.burned
            == researcher_stake + challenger_stake,
        outcome is Overturned ==> {
            &&& r.researcher_slashed == researcher_stake && r.researcher_refund == 0
            &&& r.challenger_slashed == 0 && r.challenger_refund == challenger_stake
            &&& policy.challenger_reward_bps >= 10_000 ==> r.challenger_reward == researcher_stake
            &&& policy.challenger_reward_bps < 10_000 ==> {
                &&& r.challenger_reward * 10_000 <= researcher_stake * policy.challenger_reward_bps
                &&& researcher_stake * policy.challenger_reward_bps < (r.challenger_reward + 1)
                    * 10_000
            }
            &&& r.burned == researcher_stake - r.challenger_reward
        },
        outcome is Upheld ==> {
            &&& r.challenger_slashed == challenger_stake && r.challenger_refund == 0
            &&& r.researcher_slashed == 0 && r.challenger_reward == 0
            &&& policy.burn_remainder ==> r.burned == challenger_stake
            &&& !policy.burn_remainder ==> r.burned == 0
            &&& r.researcher_refund == researcher_stake + challenger_stake - r.burned
        },
        outcome is Inconclusive ==> {
            &&& r.researcher_slashed == 0 && r.challenger_slashed == 0
            &&& r.researcher_refund == researcher_stake && r.challenger_refund == challenger_stake
            &&& r.challenger_reward == 0 && r.burned == 0
        },
{
    an_overturned_certification_pays_the_challenger(researcher_stake, challenger_stake, *policy);
    an_upheld_certification_costs_the_challenger(researcher_stake, challenger_stake, *policy);
    let (stake, bps) = (researcher_stake as int, policy.challenger_reward_bps as int);
    if bps < 10_000 {
        assert(stake * bps < (stake + 1) * 10_000) by (nonlinear_arith)
            requires
                0 <= stake,
                0 <= bps < 10_000,
        ;
    }
}

/// Whether funds are conserved is whether exactly what went in comes out, neither party
/// gets less than what is left of their own, and neither gets more on top than the other
/// lost.
pub proof fn conserving_is_answered_by_what_went_in_and_out(
    r: &SlashResolution,
    researcher_stake: u128,
    challenger_stake: u128,
    answer: bool,
)
    requires
        r.researcher_slashed <= researcher_stake,
        r.challenger_slashed <= challenger_stake,
        call_ensures(SlashResolution::conserves, (r, researcher_stake, challenger_stake), answer),
    ensures
        answer <==> {
            &&& researcher_stake + challenger_stake <= u128::MAX
            &&& r.challenger_reward + r.researcher_refund + r.challenger_refund + r.burned
                == researcher_stake + challenger_stake
            &&& r.researcher_refund >= researcher_stake - r.researcher_slashed
            &&& r.challenger_refund >= challenger_stake - r.challenger_slashed
            &&& r.researcher_refund - (researcher_stake - r.researcher_slashed)
                <= r.challenger_slashed
            &&& r.challenger_reward + r.challenger_refund - (challenger_stake
                - r.challenger_slashed) <= r.researcher_slashed
        },
{
    if researcher_stake + challenger_stake <= u128::MAX {
        conserving_means_that_nothing_is_made_or_lost(*r, researcher_stake, challenger_stake);
    }
}

/// What a dispute redistributes is exactly what it slashed, whatever was decided.
pub proof fn a_dispute_redistributes_what_it_slashes(
    outcome: DisputeOutcome,
    researcher_stake: u128,
    challenger_stake: u128,
    policy: &SlashPolicy,
    r: SlashResolution,
    slashed: u128,
    redistributed: u128,
)
    requires
        researcher_stake + challenger_stake <= u128::MAX,
        call_ensures(
            resolve_dispute,
            (outcome, researcher_stake, challenger_stake, policy),
            r,
        ),
        call_ensures(SlashResolution::total_slashed, (&r,), slashed),
        call_ensures(SlashResolution::total_redistributed, (&r,), redistributed),
    ensures
        redistributed == slashed,
        slashed == r.researcher_slashed + r.challenger_slashed,
{
    assert(r.conserving(researcher_stake, challenger_stake));
}

/// A share in basis points is the value times them over ten thousand, rounded down.
pub proof fn a_basis_point_is_a_ten_thousandth(value: u128, bps: u32, r: u128)
    requires
        value * bps <= u128::MAX,
        call_ensures(mul_bps, (value, bps), r),
    ensures
        r * 10_000 <= value * bps,
        value * bps < (r + 1) * 10_000,
{
    assert(value * bps >= 0) by (nonlinear_arith)
        requires
            value >= 0,
            bps >= 0,
    ;
}

/// What a dispute moves where an amount cannot be held: the reward of an overturned
/// certification is the lesser of the stake and the policy's share of it, the product cut
/// to what can be held; and an upheld one refunds the sum of both stakes, cut likewise.
pub proof fn a_dispute_never_wraps(
    researcher_stake: u128,
    challenger_stake: u128,
    policy: &SlashPolicy,
    overturned: SlashResolution,
    upheld: SlashResolution,
)
    requires
        call_ensures(
            resolve_dispute,
            (DisputeOutcome::Overturned, researcher_stake, challenger_stake, policy),
            overturned,
        ),
        call_ensures(
            resolve_dispute,
            (DisputeOutcome::Upheld, researcher_stake, challenger_stake, policy),
            upheld,
        ),
    ensures
        overturned.challenger_reward == min(
            researcher_stake as int,
            min(researcher_stake * policy.challenger_reward_bps, u128::MAX as int) / 10_000,
        ),
        overturned.burned == researcher_stake - overturned.challenger_reward,
        overturned.challenger_refund == challenger_stake,
        overturned.researcher_slashed == researcher_stake && overturned.researcher_refund == 0
            && overturned.challenger_slashed == 0,
        upheld.challenger_slashed == challenger_stake && upheld.challenger_refund == 0
            && upheld.challenger_reward == 0 && upheld.researcher_slashed == 0,
        policy.burn_remainder ==> upheld.burned == challenger_stake && upheld.researcher_refund
            == researcher_stake,
        !policy.burn_remainder ==> upheld.burned == 0 && upheld.researcher_refund == min(
            researcher_stake + challenger_stake,
            u128::MAX as int,
        ),
{
    assert(researcher_stake * policy.challenger_reward_bps >= 0) by (nonlinear_arith)
        requires
            researcher_stake >= 0,
            policy.challenger_reward_bps >= 0,
    ;
}

/// A share in basis points of a product that cannot be held is that of the largest amount
/// that can, and what was slashed in all is cut likewise.
pub proof fn shares_and_sums_are_cut_to_what_can_be_held(
    value: u128,
    bps: u32,
    part: u128,
    r: &SlashResolution,
    slashed: u128,
)
    requires
        call_ensures(mul_bps, (value, bps), part),
        call_ensures(SlashResolution::total_slashed, (r,), slashed),
    ensures
        part == min(value * bps, u128::MAX as int) / 10_000,
        slashed == min(r.researcher_slashed + r.challenger_slashed, u128::MAX as int),
{
    assert(value * bps >= 0) by (nonlinear_arith)
        requires
            value >= 0,
            bps >= 0,
    ;
}

} // verus!
