//! Reward schedules and their settlement.
//!
//! A [`RewardSchedule`] maps certified results to payouts. All money is integer
//! wei and all lift is integer micro-units (a millionth of a score point), so a
//! settlement is exact and anyone can reproduce it.
use crate::amounts::{lesser, lesser_of, micros_cap, minus_capped, times_capped, wei_cap};
use crate::text::{
    decimal, signed_decimal, texts, to_decimal, to_signed_decimal, to_wide_decimal,
};
use vstd::math::min;
use vstd::prelude::*;

verus! {

/// A computed payout to a single researcher.
#[derive(Debug, PartialEq, Eq)]
pub struct Payout {
    pub researcher: String,
    pub wei: u128,
}

/// What a payout says: who is paid and how much.
pub struct PayoutView {
    pub researcher: Seq<char>,
    pub wei: u128,
}

impl View for Payout {
    type V = PayoutView;

    open spec fn view(&self) -> PayoutView {
        PayoutView { researcher: self.researcher@, wei: self.wei }
    }
}

impl Clone for Payout {
    fn clone(&self) -> (r: Self)
        ensures
            r == *self,
    {
        Payout { researcher: self.researcher.clone(), wei: self.wei }
    }
}

/// What a list of payouts says.
pub open spec fn payout_views(p: Seq<Payout>) -> Seq<PayoutView> {
    p.map_values(|x: Payout| x@)
}

/// The wei that a list of payouts hands out.
pub open spec fn paid_total(p: Seq<PayoutView>) -> nat
    decreases p.len(),
{
    if p.len() == 0 {
        0
    } else {
        paid_total(p.drop_last()) + p.last().wei as nat
    }
}

/// How certified results convert into payouts.
#[derive(Debug, PartialEq, Eq)]
pub enum RewardSchedule {
    /// Winner-take-all at the deadline.
    TerminalPrize,
    /// The pool is split across the ranked top-k by basis-point weights, which must
    /// be non-empty and sum to at most [`BPS_DENOM`]; rounding dust is not paid.
    SnapshotTopK { weights_bps: Vec<u32> },
    /// Continuous king-of-the-hill: each record is paid its marginal lift over the
    /// best before it, once that margin reaches `epsilon_micros`.
    RecordBounty { epsilon_micros: i64, wei_per_micro: u128 },
    /// Continuous: the holder of the top spot is paid for each epoch held.
    TimeAtTopStreaming { wei_per_epoch: u128 },
}

/// Basis points of a whole.
pub const BPS_DENOM: u32 = 10_000;

/// A reward schedule that cannot conserve the pool.
#[derive(Clone, Copy, Debug, PartialEq, Eq, Structural)]
pub enum RewardError {
    /// There are no weights.
    EmptyWeights,
    /// The weights sum to more than the pool.
    WeightsExceedPool { sum: u64 },
}

impl RewardError {
    /// What the error says.
    pub open spec fn said(self) -> Seq<char> {
        match self {
            RewardError::EmptyWeights => "SnapshotTopK weights_bps must be non-empty"@,
            RewardError::WeightsExceedPool { sum } => {
                "SnapshotTopK weights_bps sum to "@ + decimal(sum as nat) + " bps, exceeding the "@
                    + decimal(BPS_DENOM as nat) + " bps pool"@
            },
        }
    }

    /// The error as a message.
    pub fn message(&self) -> (r: String)
        ensures
            r@ == self.said(),
    {
        match self {
            RewardError::EmptyWeights => "SnapshotTopK weights_bps must be non-empty".to_owned(),
            RewardError::WeightsExceedPool { sum } => {
                let mut out = "SnapshotTopK weights_bps sum to ".to_owned();
                out.append(to_decimal(*sum).as_str());
                out.append(" bps, exceeding the ");
                out.append(to_decimal(BPS_DENOM as u64).as_str());
                out.append(" bps pool");
                out
            },
        }
    }
}

/// Numbers in decimal with commas between them.
pub open spec fn joined(w: Seq<u32>) -> Seq<char>
    decreases w.len(),
{
    if w.len() == 0 {
        Seq::empty()
    } else if w.len() == 1 {
        decimal(w[0] as nat)
    } else {
        joined(w.drop_last()) + ", "@ + decimal(w.last() as nat)
    }
}

fn join(w: &Vec<u32>) -> (r: String)
    ensures
        r@ == joined(w@),
{
    let mut out = String::new();
    proof {
        assert(out@ =~= Seq::empty());
        assert(w@.take(0) =~= Seq::empty());
    }
    for i in 0..w.len()
        invariant
            out@ == joined(w@.take(i as int)),
    {
        let ghost before = out@;
        if i > 0 {
            out.append(", ");
        }
        out.append(to_decimal(w[i] as u64).as_str());
        proof {
            assert(w@.take(i + 1).drop_last() =~= w@.take(i as int));
            assert(w@.take(i + 1).last() == w@[i as int]);
            if i == 0 {
                assert(out@ =~= decimal(w@[0] as nat));
            }
        }
    }
    proof {
        assert(w@.take(w@.len() as int) =~= w@);
    }
    out
}

/// The sum of basis-point weights.
pub open spec fn weights_total(w: Seq<u32>) -> nat
    decreases w.len(),
{
    if w.len() == 0 {
        0
    } else {
        weights_total(w.drop_last()) + w.last() as nat
    }
}

proof fn lemma_weights_total_grows(w: Seq<u32>, i: int)
    requires
        0 <= i <= w.len(),
    ensures
        weights_total(w.take(i)) <= weights_total(w),
    decreases w.len() - i,
{
    if i < w.len() {
        lemma_weights_total_grows(w, i + 1);
        assert(w.take(i + 1).drop_last() =~= w.take(i));
    } else {
        assert(w.take(i) =~= w);
    }
}

impl RewardSchedule {
    /// The schedule written out: its name and its parameters.
    pub open spec fn written(self) -> Seq<char> {
        match self {
            RewardSchedule::TerminalPrize => "TerminalPrize"@,
            RewardSchedule::SnapshotTopK { weights_bps } => {
                "SnapshotTopK { weights_bps: ["@ + joined(weights_bps@) + "] }"@
            },
            RewardSchedule::RecordBounty { epsilon_micros, wei_per_micro } => {
                "RecordBounty { epsilon_micros: "@ + signed_decimal(epsilon_micros as int)
                    + ", wei_per_micro: "@ + decimal(wei_per_micro as nat) + " }"@
            },
            RewardSchedule::TimeAtTopStreaming { wei_per_epoch } => {
                "TimeAtTopStreaming { wei_per_epoch: "@ + decimal(wei_per_epoch as nat) + " }"@
            },
        }
    }

    /// Writes the schedule out.
    pub fn write_out(&self) -> (r: String)
        ensures
            r@ == self.written(),
    {
        match self {
            RewardSchedule::TerminalPrize => "TerminalPrize".to_owned(),
            RewardSchedule::SnapshotTopK { weights_bps } => {
                let mut out = "SnapshotTopK { weights_bps: [".to_owned();
                out.append(join(weights_bps).as_str());
                out.append("] }");
                out
            },
            RewardSchedule::RecordBounty { epsilon_micros, wei_per_micro } => {
                let mut out = "RecordBounty { epsilon_micros: ".to_owned();
                out.append(to_signed_decimal(*epsilon_micros).as_str());
                out.append(", wei_per_micro: ");
                out.append(to_wide_decimal(*wei_per_micro).as_str());
                out.append(" }");
                out
            },
            RewardSchedule::TimeAtTopStreaming { wei_per_epoch } => {
                let mut out = "TimeAtTopStreaming { wei_per_epoch: ".to_owned();
                out.append(to_wide_decimal(*wei_per_epoch).as_str());
                out.append(" }");
                out
            },
        }
    }

    /// Whether the weights, if any, have a sum that fits the error that reports it.
    pub open spec fn countable(self) -> bool {
        self matches RewardSchedule::SnapshotTopK { weights_bps } ==> weights_total(
            weights_bps@,
        ) <= u64::MAX
    }

    /// Why the schedule cannot conserve a pool, if it cannot.
    pub open spec fn fault(self) -> Option<RewardError> {
        match self {
            RewardSchedule::SnapshotTopK { weights_bps } => if weights_bps@.len() == 0 {
                Some(RewardError::EmptyWeights)
            } else if weights_total(weights_bps@) > BPS_DENOM {
                Some(RewardError::WeightsExceedPool { sum: weights_total(weights_bps@) as u64 })
            } else {
                None
            },
            _ => None,
        }
    }

    /// The same schedule, weights compared by what they hold.
    pub open spec fn same_as(self, other: RewardSchedule) -> bool {
        match (self, other) {
            (
                RewardSchedule::SnapshotTopK { weights_bps: a },
                RewardSchedule::SnapshotTopK { weights_bps: b },
            ) => a@ == b@,
            _ => self == other,
        }
    }

    /// Rejects schedules that cannot conserve the reward pool: top-k weights must be
    /// non-empty and sum to at most [`BPS_DENOM`]. Every other shape passes.
    pub fn validate(&self) -> (r: Result<(), RewardError>)
        requires
            self.countable(),
        ensures
            match r {
                Ok(()) => self.fault() is None,
                Err(e) => self.fault() == Some(e),
            },
    {
        match self {
            RewardSchedule::SnapshotTopK { weights_bps } => {
                if weights_bps.len() == 0 {
                    return Err(RewardError::EmptyWeights);
                }
                let mut sum: u64 = 0;
                for i in 0..weights_bps.len()
                    invariant
                        sum == weights_total(weights_bps@.take(i as int)),
                        weights_total(weights_bps@) <= u64::MAX,
                {
                    proof {
                        lemma_weights_total_grows(weights_bps@, i + 1);
                        assert(weights_bps@.take(i + 1).drop_last() =~= weights_bps@.take(
                            i as int,
                        ));
                    }
                    sum = sum + weights_bps[i] as u64;
                }
                proof {
                    assert(weights_bps@.take(weights_bps@.len() as int) =~= weights_bps@);
                }
                if sum > BPS_DENOM as u64 {
                    return Err(RewardError::WeightsExceedPool { sum });
                }
                Ok(())
            },
            _ => Ok(()),
        }
    }
}

impl Clone for RewardSchedule {
    fn clone(&self) -> (r: Self)
        ensures
            r.same_as(*self),
    {
        match self {
            RewardSchedule::TerminalPrize => RewardSchedule::TerminalPrize,
            RewardSchedule::SnapshotTopK { weights_bps } => {
                let mut copied: Vec<u32> = Vec::new();
                for i in 0..weights_bps.len()
                    invariant
                        copied@ == weights_bps@.take(i as int),
                {
                    proof {
                        assert(weights_bps@.take(i as int).push(weights_bps@[i as int])
                            =~= weights_bps@.take(i + 1));
                    }
                    copied.push(weights_bps[i]);
                }
                proof {
                    assert(weights_bps@.take(weights_bps@.len() as int) =~= weights_bps@);
                }
                RewardSchedule::SnapshotTopK { weights_bps: copied }
            },
            RewardSchedule::RecordBounty { epsilon_micros, wei_per_micro } => {
                RewardSchedule::RecordBounty {
                    epsilon_micros: *epsilon_micros,
                    wei_per_micro: *wei_per_micro,
                }
            },
            RewardSchedule::TimeAtTopStreaming { wei_per_epoch } => {
                RewardSchedule::TimeAtTopStreaming { wei_per_epoch: *wei_per_epoch }
            },
        }
    }
}

/// An event in which a researcher set a new best score.
#[derive(Clone, Debug, PartialEq, Eq)]
pub struct RecordBeat {
    pub researcher: String,
    /// The score that this submission achieved, in micro-units.
    pub new_best_micros: i64,
}

/// What a beat says: who scored and what.
pub struct BeatView {
    pub researcher: Seq<char>,
    pub new_best_micros: i64,
}

impl View for RecordBeat {
    type V = BeatView;

    open spec fn view(&self) -> BeatView {
        BeatView { researcher: self.researcher@, new_best_micros: self.new_best_micros }
    }
}

/// What a list of beats says.
pub open spec fn beat_views(b: Seq<RecordBeat>) -> Seq<BeatView> {
    b.map_values(|x: RecordBeat| x@)
}

/// How far `micros` stands above `bar`.
pub open spec fn marginal(micros: i64, bar: int) -> int {
    micros_cap(micros - bar)
}

/// Whether a margin counts as a record.
pub open spec fn beats_bar(margin: int, epsilon_micros: i64) -> bool {
    margin >= epsilon_micros && margin > 0
}

/// The best score after `beats`: each beat that counts as a record moves it.
pub open spec fn best_after(baseline: i64, beats: Seq<BeatView>, epsilon_micros: i64) -> i64
    decreases beats.len(),
{
    if beats.len() == 0 {
        baseline
    } else {
        let bar = best_after(baseline, beats.drop_last(), epsilon_micros);
        if beats_bar(marginal(beats.last().new_best_micros, bar as int), epsilon_micros) {
            beats.last().new_best_micros
        } else {
            bar
        }
    }
}

/// What a record bounty pays for `beats`: each beat that counts as a record is
/// paid `wei_per_micro` for its margin over the best before it.
pub open spec fn bounty_payouts(
    baseline: i64,
    beats: Seq<BeatView>,
    epsilon_micros: i64,
    wei_per_micro: u128,
) -> Seq<PayoutView>
    decreases beats.len(),
{
    if beats.len() == 0 {
        Seq::empty()
    } else {
        let before = bounty_payouts(baseline, beats.drop_last(), epsilon_micros, wei_per_micro);
        let bar = best_after(baseline, beats.drop_last(), epsilon_micros);
        let margin = marginal(beats.last().new_best_micros, bar as int);
        if beats_bar(margin, epsilon_micros) {
            before.push(
                PayoutView {
                    researcher: beats.last().researcher,
                    wei: wei_cap(margin * wei_per_micro) as u128,
                },
            )
        } else {
            before
        }
    }
}

/// Settles a record bounty over an ordered sequence of beats.
pub fn settle_record_bounty(
    baseline_micros: i64,
    beats: &[RecordBeat],
    epsilon_micros: i64,
    wei_per_micro: u128,
) -> (payouts: Vec<Payout>)
    ensures
        payout_views(payouts@) == bounty_payouts(
            baseline_micros,
            beat_views(beats@),
            epsilon_micros,
            wei_per_micro,
        ),
{
    let ghost all = beat_views(beats@);
    let mut current_best: i64 = baseline_micros;
    let mut payouts: Vec<Payout> = Vec::new();
    proof {
        assert(all.take(0) =~= Seq::empty());
        assert(payout_views(payouts@) =~= Seq::empty());
    }
    for i in 0..beats.len()
        invariant
            all == beat_views(beats@),
            current_best == best_after(baseline_micros, all.take(i as int), epsilon_micros),
            payout_views(payouts@) == bounty_payouts(
                baseline_micros,
                all.take(i as int),
                epsilon_micros,
                wei_per_micro,
            ),
    {
        proof {
            assert(all.take(i + 1).drop_last() =~= all.take(i as int));
            assert(all.take(i + 1).last() == beats@[i as int]@);
        }
        let beat = &beats[i];
        let margin: i64 = minus_capped(beat.new_best_micros, current_best);
        if margin >= epsilon_micros && margin > 0 {
            let wei: u128 = times_capped(margin as u128, wei_per_micro);
            let ghost before = payouts@;
            payouts.push(Payout { researcher: beat.researcher.clone(), wei });
            proof {
                assert(payout_views(payouts@) =~= payout_views(before).push(payouts@.last()@));
            }
            current_best = beat.new_best_micros;
        }
    }
    proof {
        assert(all.take(all.len() as int) =~= all);
    }
    payouts
}

/// Every record's margin, and what it costs, is a representable amount.
pub open spec fn representable(
    baseline: i64,
    beats: Seq<BeatView>,
    epsilon_micros: i64,
    wei_per_micro: u128,
) -> bool
    decreases beats.len(),
{
    beats.len() == 0 || {
        let bar = best_after(baseline, beats.drop_last(), epsilon_micros);
        let rise = beats.last().new_best_micros - bar;
        &&& representable(baseline, beats.drop_last(), epsilon_micros, wei_per_micro)
        &&& beats_bar(marginal(beats.last().new_best_micros, bar as int), epsilon_micros) ==> rise
            <= i64::MAX && rise * wei_per_micro <= u128::MAX
    }
}

/// The frontier is bought exactly once: over any sequence of beats a record bounty
/// pays `wei_per_micro` for each micro-unit between the baseline and the final
/// best, and for nothing else, wherever each record's margin and its price are
/// representable. The whole span need not be.
pub proof fn bounty_buys_the_frontier_once(
    baseline: i64,
    beats: Seq<BeatView>,
    epsilon_micros: i64,
    wei_per_micro: u128,
)
    requires
        representable(baseline, beats, epsilon_micros, wei_per_micro),
    ensures
        paid_total(bounty_payouts(baseline, beats, epsilon_micros, wei_per_micro)) == (best_after(
            baseline,
            beats,
            epsilon_micros,
        ) - baseline) * wei_per_micro,
    decreases beats.len(),
{
    if beats.len() > 0 {
        let prior = beats.drop_last();
        let bar = best_after(baseline, prior, epsilon_micros);
        let best = best_after(baseline, beats, epsilon_micros);
        let rate = wei_per_micro as int;
        let margin = marginal(beats.last().new_best_micros, bar as int);
        bounty_buys_the_frontier_once(baseline, prior, epsilon_micros, wei_per_micro);
        if beats_bar(margin, epsilon_micros) {
            assert(margin == best - bar);
            assert((bar - baseline) * rate + margin * rate == (best - baseline) * rate)
                by (nonlinear_arith)
                requires
                    margin == best - bar,
            ;
            assert(0 <= margin * rate) by (nonlinear_arith)
                requires
                    margin >= 0,
                    rate >= 0,
            ;
            let before = bounty_payouts(baseline, prior, epsilon_micros, wei_per_micro);
            let after = bounty_payouts(baseline, beats, epsilon_micros, wei_per_micro);
            assert(after.drop_last() =~= before);
        }
    } else {
        assert((baseline - baseline) * wei_per_micro == 0) by (nonlinear_arith);
    }
}

/// The best score never falls below the baseline nor below an earlier best.
pub proof fn best_never_falls(baseline: i64, beats: Seq<BeatView>, epsilon_micros: i64)
    ensures
        best_after(baseline, beats, epsilon_micros) >= baseline,
        beats.len() > 0 ==> best_after(baseline, beats, epsilon_micros) >= best_after(
            baseline,
            beats.drop_last(),
            epsilon_micros,
        ),
    decreases beats.len(),
{
    if beats.len() > 0 {
        best_never_falls(baseline, beats.drop_last(), epsilon_micros);
    }
}

/// The part of the pool that a weight stands for, rounded down.
pub open spec fn weighted_part(pool_wei: u128, weight_bps: u32) -> int {
    wei_cap(pool_wei * weight_bps) / 10_000
}

/// What the first `i` weights stand for together.
pub open spec fn weighted_sum(pool_wei: u128, weights: Seq<u32>, i: int) -> int
    decreases i,
{
    if i <= 0 {
        0
    } else {
        weighted_sum(pool_wei, weights, i - 1) + weighted_part(pool_wei, weights[i - 1])
    }
}

/// What the first `i` ranks are paid together: what their weights stand for, and
/// never more than the pool.
pub open spec fn topk_paid(pool_wei: u128, weights: Seq<u32>, i: int) -> int {
    lesser(weighted_sum(pool_wei, weights, i), pool_wei as int)
}

/// What rank `i` is paid.
pub open spec fn topk_share(pool_wei: u128, weights: Seq<u32>, i: int) -> int {
    topk_paid(pool_wei, weights, i + 1) - topk_paid(pool_wei, weights, i)
}

/// The payouts of the first `k` ranks, best first; ranks that get nothing are left
/// out.
pub open spec fn topk_payouts(
    pool_wei: u128,
    ranked: Seq<Seq<char>>,
    weights: Seq<u32>,
    k: int,
) -> Seq<PayoutView>
    decreases k,
{
    if k <= 0 {
        Seq::empty()
    } else {
        let before = topk_payouts(pool_wei, ranked, weights, k - 1);
        let share = topk_share(pool_wei, weights, k - 1);
        if share > 0 {
            before.push(PayoutView { researcher: ranked[k - 1], wei: share as u128 })
        } else {
            before
        }
    }
}

/// The payouts of a top-k snapshot: a rank needs both a researcher and a weight.
pub open spec fn snapshot_payouts(
    pool_wei: u128,
    ranked: Seq<Seq<char>>,
    weights: Seq<u32>,
) -> Seq<PayoutView> {
    topk_payouts(
        pool_wei,
        ranked,
        weights,
        lesser(ranked.len() as int, weights.len() as int),
    )
}

proof fn lemma_weighted_sum_grows(pool_wei: u128, weights: Seq<u32>, i: int)
    requires
        0 <= i,
    ensures
        0 <= weighted_sum(pool_wei, weights, i) <= weighted_sum(pool_wei, weights, i + 1),
    decreases i,
{
    if i > 0 {
        lemma_weighted_sum_grows(pool_wei, weights, i - 1);
    }
    assert(pool_wei * weights[i] >= 0) by (nonlinear_arith)
        requires
            pool_wei >= 0,
            weights[i] >= 0,
    ;
}

/// Settles a top-k snapshot. `ranked` is best first and `weights_bps` gives the
/// basis-point share of `pool_wei` for each rank. Each share is rounded down, and
/// capped by what the better ranks have left.
pub fn settle_snapshot_topk(pool_wei: u128, ranked: &[String], weights_bps: &[u32]) -> (payouts:
    Vec<Payout>)
    ensures
        payout_views(payouts@) == snapshot_payouts(pool_wei, texts(ranked@), weights_bps@),
        paid_total(payout_views(payouts@)) <= pool_wei,
{
    let k: usize = if ranked.len() <= weights_bps.len() {
        ranked.len()
    } else {
        weights_bps.len()
    };
    let mut payouts: Vec<Payout> = Vec::new();
    let mut remaining: u128 = pool_wei;
    proof {
        assert(payout_views(payouts@) =~= Seq::empty());
    }
    for i in 0..k
        invariant
            k <= ranked@.len(),
            k <= weights_bps@.len(),
            remaining == pool_wei - topk_paid(pool_wei, weights_bps@, i as int),
            payout_views(payouts@) == topk_payouts(
                pool_wei,
                texts(ranked@),
                weights_bps@,
                i as int,
            ),
    {
        proof {
            lemma_weighted_sum_grows(pool_wei, weights_bps@, i as int);
        }
        let part: u128 = times_capped(pool_wei, weights_bps[i] as u128) / 10_000u128;
        let share: u128 = lesser_of(part, remaining);
        if share > 0 {
            remaining = remaining - share;
            let ghost before = payouts@;
            payouts.push(Payout { researcher: ranked[i].clone(), wei: share });
            proof {
                assert(payout_views(payouts@) =~= payout_views(before).push(payouts@.last()@));
            }
        }
    }
    proof {
        snapshot_never_exceeds_the_pool(pool_wei, texts(ranked@), weights_bps@);
    }
    payouts
}

proof fn lemma_topk_total(pool_wei: u128, ranked: Seq<Seq<char>>, weights: Seq<u32>, k: int)
    requires
        0 <= k,
    ensures
        paid_total(topk_payouts(pool_wei, ranked, weights, k)) == topk_paid(pool_wei, weights, k),
    decreases k,
{
    if k > 0 {
        lemma_topk_total(pool_wei, ranked, weights, k - 1);
        lemma_weighted_sum_grows(pool_wei, weights, k - 1);
        let before = topk_payouts(pool_wei, ranked, weights, k - 1);
        let after = topk_payouts(pool_wei, ranked, weights, k);
        if topk_share(pool_wei, weights, k - 1) > 0 {
            assert(after.drop_last() =~= before);
        }
    }
}

/// Whatever the weights, a top-k snapshot never pays out more than the pool.
pub proof fn snapshot_never_exceeds_the_pool(
    pool_wei: u128,
    ranked: Seq<Seq<char>>,
    weights: Seq<u32>,
)
    ensures
        paid_total(snapshot_payouts(pool_wei, ranked, weights)) <= pool_wei,
{
    lemma_topk_total(
        pool_wei,
        ranked,
        weights,
        lesser(ranked.len() as int, weights.len() as int),
    );
}

/// A top-k snapshot pays only who is ranked at a place with a weight: every payout is
/// more than nothing and goes to such a researcher.
pub proof fn snapshot_pays_only_the_weighted(
    pool_wei: u128,
    ranked: Seq<Seq<char>>,
    weights: Seq<u32>,
    p: int,
)
    requires
        0 <= p < snapshot_payouts(pool_wei, ranked, weights).len(),
    ensures
        snapshot_payouts(pool_wei, ranked, weights)[p].wei > 0,
        exists|i: int|
            0 <= i < ranked.len() && i < weights.len() && #[trigger] ranked[i]
                == snapshot_payouts(pool_wei, ranked, weights)[p].researcher && weights[i] > 0,
{
    lemma_topk_weighted(
        pool_wei,
        ranked,
        weights,
        lesser(ranked.len() as int, weights.len() as int),
        p,
    );
}

proof fn lemma_topk_weighted(
    pool_wei: u128,
    ranked: Seq<Seq<char>>,
    weights: Seq<u32>,
    k: int,
    p: int,
)
    requires
        0 <= k <= ranked.len(),
        k <= weights.len(),
        0 <= p < topk_payouts(pool_wei, ranked, weights, k).len(),
    ensures
        topk_payouts(pool_wei, ranked, weights, k)[p].wei > 0,
        exists|i: int|
            0 <= i < ranked.len() && i < weights.len() && #[trigger] ranked[i] == topk_payouts(
                pool_wei,
                ranked,
                weights,
                k,
            )[p].researcher && weights[i] > 0,
    decreases k,
{
    let before = topk_payouts(pool_wei, ranked, weights, k - 1);
    if p < before.len() {
        lemma_topk_weighted(pool_wei, ranked, weights, k - 1, p);
    } else {
        lemma_weighted_sum_grows(pool_wei, weights, k - 1);
        assert(weighted_part(pool_wei, 0) == 0) by {
            assert(pool_wei * 0 == 0) by (nonlinear_arith);
        }
        assert(weights[k - 1] > 0);
        assert(ranked[k - 1] == topk_payouts(pool_wei, ranked, weights, k)[p].researcher);
    }
}

proof fn lemma_weighted_sum_within(pool_wei: u128, weights: Seq<u32>, i: int)
    requires
        0 <= i <= weights.len(),
    ensures
        weighted_sum(pool_wei, weights, i) * 10_000 <= pool_wei * weights_total(weights.take(i)),
    decreases i,
{
    let pool = pool_wei as int;
    if i > 0 {
        lemma_weighted_sum_within(pool_wei, weights, i - 1);
        assert(weights.take(i).drop_last() =~= weights.take(i - 1));
        let w = weights[i - 1] as int;
        let rest = weights_total(weights.take(i - 1)) as int;
        let part = weighted_part(pool_wei, weights[i - 1]);
        assert(0 <= pool * w) by (nonlinear_arith)
            requires
                pool >= 0,
                w >= 0,
        ;
        assert(part * 10_000 <= pool * w);
        assert(pool * (rest + w) == pool * rest + pool * w) by (nonlinear_arith);
    } else {
        assert(weights.take(0) =~= Seq::empty());
        assert(pool * 0 == 0) by (nonlinear_arith);
    }
}

/// Under a schedule that validates, no rank is cut short by the pool: each share
/// is exactly its weight of the pool, rounded down.
pub proof fn valid_weights_pay_in_full(pool_wei: u128, weights: Seq<u32>, i: int)
    requires
        weights_total(weights) <= BPS_DENOM,
        0 <= i < weights.len(),
    ensures
        topk_share(pool_wei, weights, i) == weighted_part(pool_wei, weights[i]),
{
    let pool = pool_wei as int;
    assert forall|j: int| 0 <= j <= weights.len() implies #[trigger] weighted_sum(
        pool_wei,
        weights,
        j,
    ) <= pool by {
        lemma_weighted_sum_within(pool_wei, weights, j);
        lemma_weights_total_grows(weights, j);
        let t = weights_total(weights.take(j)) as int;
        assert(pool * t <= pool * 10_000) by (nonlinear_arith)
            requires
                pool >= 0,
                t <= 10_000,
        ;
    }
    assert(weighted_sum(pool_wei, weights, i) <= pool);
    assert(weighted_sum(pool_wei, weights, i + 1) <= pool);
}

/// What a terminal prize pays.
pub open spec fn terminal_payouts(pool_wei: u128, winner: Option<Seq<char>>) -> Seq<PayoutView> {
    match winner {
        Some(w) if pool_wei > 0 => seq![PayoutView { researcher: w, wei: pool_wei }],
        _ => Seq::empty(),
    }
}

/// Settles a terminal prize: the whole pool to the single winner, if there is one.
pub fn settle_terminal_prize(pool_wei: u128, winner: Option<&str>) -> (payouts: Vec<Payout>)
    ensures
        payout_views(payouts@) == terminal_payouts(
            pool_wei,
            match winner {
                Some(w) => Some(w@),
                None => None,
            },
        ),
{
    let mut payouts: Vec<Payout> = Vec::new();
    if let Some(w) = winner {
        if pool_wei > 0 {
            payouts.push(Payout { researcher: w.to_owned(), wei: pool_wei });
        }
    }
    proof {
        assert(payout_views(payouts@) =~= terminal_payouts(
            pool_wei,
            match winner {
                Some(w) => Some(w@),
                None => None,
            },
        ));
    }
    payouts
}

/// What time at the top pays the first `k` holders: `wei_per_epoch` for each epoch;
/// holders who are owed nothing are left out.
pub open spec fn holding_payouts(
    holders: Seq<(Seq<char>, u64)>,
    wei_per_epoch: u128,
) -> Seq<PayoutView>
    decreases holders.len(),
{
    if holders.len() == 0 {
        Seq::empty()
    } else {
        let before = holding_payouts(holders.drop_last(), wei_per_epoch);
        let wei = holders.last().1 * wei_per_epoch;
        if wei > 0 {
            before.push(PayoutView { researcher: holders.last().0, wei: wei as u128 })
        } else {
            before
        }
    }
}

/// The texts and epoch counts of a list of holders.
pub open spec fn holder_views(h: Seq<(String, u64)>) -> Seq<(Seq<char>, u64)> {
    h.map_values(|x: (String, u64)| (x.0@, x.1))
}

/// Settles time at the top: `holders` pairs each researcher with the number of
/// epochs for which they held the first place.
pub fn settle_time_at_top(holders: &[(String, u64)], wei_per_epoch: u128) -> (payouts: Vec<Payout>)
    requires
        forall|i: int|
            0 <= i < holders@.len() ==> (#[trigger] holders@[i]).1 * wei_per_epoch <= u128::MAX,
    ensures
        payout_views(payouts@) == holding_payouts(holder_views(holders@), wei_per_epoch),
{
    let ghost all = holder_views(holders@);
    let mut payouts: Vec<Payout> = Vec::new();
    proof {
        assert(all.take(0) =~= Seq::empty());
        assert(payout_views(payouts@) =~= Seq::empty());
    }
    for i in 0..holders.len()
        invariant
            all == holder_views(holders@),
            forall|j: int|
                0 <= j < holders@.len() ==> (#[trigger] holders@[j]).1 * wei_per_epoch <= u128::MAX,
            payout_views(payouts@) == holding_payouts(all.take(i as int), wei_per_epoch),
    {
        proof {
            assert(all.take(i + 1).drop_last() =~= all.take(i as int));
            assert(all.take(i + 1).last() == (holders@[i as int].0@, holders@[i as int].1));
            assert(holders@[i as int].1 * wei_per_epoch >= 0) by (nonlinear_arith)
                requires
                    holders@[i as int].1 >= 0,
                    wei_per_epoch >= 0,
            ;
        }
        let wei: u128 = holders[i].1 as u128 * wei_per_epoch;
        if wei > 0 {
            let ghost before = payouts@;
            payouts.push(Payout { researcher: holders[i].0.clone(), wei });
            proof {
                assert(payout_views(payouts@) =~= payout_views(before).push(payouts@.last()@));
            }
        }
    }
    proof {
        assert(all.take(all.len() as int) =~= all);
    }
    payouts
}

proof fn lemma_paid_total_grows(p: Seq<PayoutView>, i: int)
    requires
        0 <= i <= p.len(),
    ensures
        paid_total(p.take(i)) <= paid_total(p),
    decreases p.len() - i,
{
    if i < p.len() {
        lemma_paid_total_grows(p, i + 1);
        assert(p.take(i + 1).drop_last() =~= p.take(i));
    } else {
        assert(p.take(i) =~= p);
    }
}

/// The wei that a payout set hands out.
pub fn total_wei(payouts: &[Payout]) -> (total: u128)
    requires
        paid_total(payout_views(payouts@)) <= u128::MAX,
    ensures
        total == paid_total(payout_views(payouts@)),
{
    let ghost all = payout_views(payouts@);
    let mut total: u128 = 0;
    proof {
        assert(all.take(0) =~= Seq::empty());
    }
    for i in 0..payouts.len()
        invariant
            all == payout_views(payouts@),
            paid_total(all) <= u128::MAX,
            total == paid_total(all.take(i as int)),
    {
        proof {
            lemma_paid_total_grows(all, i + 1);
            assert(all.take(i + 1).drop_last() =~= all.take(i as int));
            assert(all.take(i + 1).last() == payouts@[i as int]@);
        }
        total = total + payouts[i].wei;
    }
    proof {
        assert(all.take(all.len() as int) =~= all);
    }
    total
}

// --- What is owed, in numbers ------------------------------------------------

/// A weight adds itself to the sum, and nothing else is in it.
pub proof fn weights_add_up(weights: Seq<u32>, weight: u32)
    ensures
        weights_total(Seq::empty()) == 0,
        weights_total(weights.push(weight)) == weights_total(weights) + weight,
{
    assert(weights.push(weight).drop_last() =~= weights);
}

/// A payout adds its wei to the sum, and nothing else is in it.
pub proof fn payouts_add_up(payouts: Seq<PayoutView>, payout: PayoutView)
    ensures
        paid_total(Seq::empty()) == 0,
        paid_total(payouts.push(payout)) == paid_total(payouts) + payout.wei,
{
    assert(payouts.push(payout).drop_last() =~= payouts);
}

/// A schedule is refused exactly where it splits by weights and there are none, or
/// they sum to more than ten thousand.
pub proof fn only_weights_beyond_the_whole_are_refused(schedule: RewardSchedule)
    requires
        schedule.countable(),
    ensures
        match schedule {
            RewardSchedule::SnapshotTopK { weights_bps } => {
                &&& schedule.fault() is None <==> weights_bps@.len() > 0 && weights_total(
                    weights_bps@,
                ) <= 10_000
                &&& weights_bps@.len() == 0 ==> schedule.fault() == Some(RewardError::EmptyWeights)
                &&& weights_total(weights_bps@) > 10_000 ==> (schedule.fault() matches Some(
                    RewardError::WeightsExceedPool { sum },
                ) && sum == weights_total(weights_bps@))
            },
            _ => schedule.fault() is None,
        },
{
    if let RewardSchedule::SnapshotTopK { weights_bps } = schedule {
        if weights_bps@.len() == 0 {
            assert(weights_total(weights_bps@) == 0);
        }
    }
}

/// A beat counts as a record exactly where it stands at least `epsilon_micros`, and
/// more than nothing, above the best before it. A record becomes the best and is paid
/// the rate for each micro-unit by which it rose; any other beat pays nothing and
/// leaves the best as it was.
pub proof fn records_stand_epsilon_above_the_best(
    baseline: i64,
    beats: Seq<BeatView>,
    epsilon_micros: i64,
    wei_per_micro: u128,
    i: int,
)
    requires
        0 <= i < beats.len(),
    ensures
        best_after(baseline, beats.take(0), epsilon_micros) == baseline,
        bounty_payouts(baseline, beats.take(0), epsilon_micros, wei_per_micro).len() == 0,
        ({
            let bar = best_after(baseline, beats.take(i), epsilon_micros);
            let best = best_after(baseline, beats.take(i + 1), epsilon_micros);
            let before = bounty_payouts(baseline, beats.take(i), epsilon_micros, wei_per_micro);
            let after = bounty_payouts(baseline, beats.take(i + 1), epsilon_micros, wei_per_micro);
            let rise = beats[i].new_best_micros - bar;
            if rise >= epsilon_micros && rise > 0 {
                &&& best == beats[i].new_best_micros
                &&& after.len() == before.len() + 1
                &&& after.drop_last() == before
                &&& after.last().researcher == beats[i].researcher
                &&& rise <= i64::MAX && rise * wei_per_micro <= u128::MAX ==> after.last().wei
                    == rise * wei_per_micro
                &&& rise <= i64::MAX && rise * wei_per_micro > u128::MAX ==> after.last().wei
                    == u128::MAX
                &&& rise > i64::MAX && i64::MAX * wei_per_micro <= u128::MAX ==> after.last().wei
                    == i64::MAX * wei_per_micro
                &&& rise > i64::MAX && i64::MAX * wei_per_micro > u128::MAX ==> after.last().wei
                    == u128::MAX
            } else {
                &&& best == bar
                &&& after == before
            }
        }),
{
    assert(beats.take(i + 1).drop_last() =~= beats.take(i));
    let bar = best_after(baseline, beats.take(i), epsilon_micros);
    let rise = beats[i].new_best_micros - bar;
    if rise > 0 {
        assert(rise * wei_per_micro >= 0) by (nonlinear_arith)
            requires
                rise > 0,
                wei_per_micro >= 0,
        ;
        let before = bounty_payouts(baseline, beats.take(i), epsilon_micros, wei_per_micro);
        let after = bounty_payouts(baseline, beats.take(i + 1), epsilon_micros, wei_per_micro);
        if after.len() > before.len() {
            assert(after.drop_last() =~= before);
        }
    }
}

/// Rank `i` is paid its weight of the pool rounded down, or whatever the ranks before it
/// have left, if that is less.
pub proof fn ranks_are_paid_from_what_is_left(pool_wei: u128, weights: Seq<u32>, i: int)
    requires
        0 <= i < weights.len(),
    ensures
        topk_paid(pool_wei, weights, 0) == 0,
        topk_paid(pool_wei, weights, i + 1) == topk_paid(pool_wei, weights, i) + topk_share(
            pool_wei,
            weights,
            i,
        ),
        ({
            let owed = pool_wei * weights[i];
            let left = pool_wei - topk_paid(pool_wei, weights, i);
            let share = topk_share(pool_wei, weights, i);
            &&& 0 <= share <= left
            &&& share * 10_000 <= owed
            &&& owed <= u128::MAX && share < left ==> owed < (share + 1) * 10_000
            &&& owed > u128::MAX && share < left ==> share == u128::MAX / 10_000
        }),
{
    lemma_weighted_sum_grows(pool_wei, weights, i);
    let owed = pool_wei * weights[i];
    assert(owed >= 0) by (nonlinear_arith)
        requires
            owed == pool_wei * weights[i],
            pool_wei >= 0,
            weights[i] >= 0,
    ;
}

/// Under weights that sum to no more than the whole, rank `i` is paid exactly its
/// weight of the pool, rounded down to whole wei.
pub proof fn a_share_is_its_weight_of_the_pool(pool_wei: u128, weights: Seq<u32>, i: int)
    requires
        weights_total(weights) <= 10_000,
        0 <= i < weights.len(),
        pool_wei * weights[i] <= u128::MAX,
    ensures
        topk_share(pool_wei, weights, i) * 10_000 <= pool_wei * weights[i],
        pool_wei * weights[i] < (topk_share(pool_wei, weights, i) + 1) * 10_000,
{
    valid_weights_pay_in_full(pool_wei, weights, i);
    let owed = pool_wei * weights[i];
    assert(owed >= 0) by (nonlinear_arith)
        requires
            owed == pool_wei * weights[i],
            pool_wei >= 0,
            weights[i] >= 0,
    ;
}

/// The payouts are the ranks' shares, best first, without those that are nothing; a
/// rank needs both a researcher and a weight.
pub proof fn the_paid_ranks_are_listed_best_first(
    pool_wei: u128,
    ranked: Seq<Seq<char>>,
    weights: Seq<u32>,
)
    ensures
        snapshot_payouts(pool_wei, ranked, weights) == Seq::new(
            min(ranked.len() as int, weights.len() as int) as nat,
            |i: int|
                PayoutView {
                    researcher: ranked[i],
                    wei: topk_share(pool_wei, weights, i) as u128,
                },
        ).filter(|p: PayoutView| p.wei > 0),
{
    lemma_topk_is_filtered(
        pool_wei,
        ranked,
        weights,
        min(ranked.len() as int, weights.len() as int),
    );
}

proof fn lemma_topk_is_filtered(
    pool_wei: u128,
    ranked: Seq<Seq<char>>,
    weights: Seq<u32>,
    k: int,
)
    requires
        0 <= k,
    ensures
        topk_payouts(pool_wei, ranked, weights, k) == Seq::new(
            k as nat,
            |i: int|
                PayoutView {
                    researcher: ranked[i],
                    wei: topk_share(pool_wei, weights, i) as u128,
                },
        ).filter(|p: PayoutView| p.wei > 0),
    decreases k,
{
    reveal(Seq::filter);
    let shares = |i: int|
        PayoutView { researcher: ranked[i], wei: topk_share(pool_wei, weights, i) as u128 };
    if k > 0 {
        lemma_topk_is_filtered(pool_wei, ranked, weights, k - 1);
        lemma_weighted_sum_grows(pool_wei, weights, k - 1);
        assert(Seq::new(k as nat, shares).drop_last() =~= Seq::new((k - 1) as nat, shares));
    } else {
        assert(Seq::new(0, shares) =~= Seq::empty());
    }
}

/// Weights that make up the whole pay out the whole pool but for rounding: fewer wei
/// are left than there are ranks.
pub proof fn whole_weights_leave_only_dust(
    pool_wei: u128,
    ranked: Seq<Seq<char>>,
    weights: Seq<u32>,
)
    requires
        weights_total(weights) == 10_000,
        weights.len() <= ranked.len(),
        pool_wei * 10_000 <= u128::MAX,
    ensures
        paid_total(snapshot_payouts(pool_wei, ranked, weights)) <= pool_wei,
        pool_wei - paid_total(snapshot_payouts(pool_wei, ranked, weights)) < weights.len(),
{
    let n = weights.len() as int;
    let pool = pool_wei as int;
    snapshot_never_exceeds_the_pool(pool_wei, ranked, weights);
    lemma_topk_total(pool_wei, ranked, weights, n);
    lemma_weighted_sum_short(pool_wei, weights, n);
    assert(weights.take(n) =~= weights);
    if n == 0 {
        assert(weights_total(weights) == 0);
    }
    assert(pool * 10_000 < (weighted_sum(pool_wei, weights, n) + n) * 10_000);
}

proof fn lemma_weighted_sum_short(pool_wei: u128, weights: Seq<u32>, i: int)
    requires
        weights_total(weights) <= 10_000,
        0 <= i <= weights.len(),
        pool_wei * 10_000 <= u128::MAX,
    ensures
        pool_wei * weights_total(weights.take(i)) <= (weighted_sum(pool_wei, weights, i) + i)
            * 10_000,
        i > 0 ==> pool_wei * weights_total(weights.take(i)) < (weighted_sum(pool_wei, weights, i)
            + i) * 10_000,
    decreases i,
{
    let pool = pool_wei as int;
    if i > 0 {
        lemma_weighted_sum_short(pool_wei, weights, i - 1);
        lemma_weights_total_grows(weights, i);
        assert(weights.take(i).drop_last() =~= weights.take(i - 1));
        let w = weights[i - 1] as int;
        let rest = weights_total(weights.take(i - 1)) as int;
        assert(0 <= pool * w <= pool * 10_000) by (nonlinear_arith)
            requires
                pool >= 0,
                0 <= w <= 10_000,
        ;
        assert(pool * (rest + w) == pool * rest + pool * w) by (nonlinear_arith);
    } else {
        assert(weights.take(0) =~= Seq::empty());
        assert(pool * 0 == 0) by (nonlinear_arith);
    }
}

/// A better rank with no smaller weight is never paid less.
pub proof fn a_better_rank_with_as_much_weight_is_paid_as_much(
    pool_wei: u128,
    weights: Seq<u32>,
    i: int,
    j: int,
)
    requires
        0 <= i <= j < weights.len(),
        weights[i] >= weights[j],
    ensures
        topk_share(pool_wei, weights, i) >= topk_share(pool_wei, weights, j),
{
    lemma_weighted_sum_grows(pool_wei, weights, i);
    lemma_weighted_sum_grows(pool_wei, weights, j);
    lemma_weighted_sum_ordered(pool_wei, weights, i, j);
    let (a, b) = (pool_wei * weights[i], pool_wei * weights[j]);
    assert(a >= b) by (nonlinear_arith)
        requires
            a == pool_wei * weights[i],
            b == pool_wei * weights[j],
            weights[i] >= weights[j],
            pool_wei >= 0,
    ;
    if i < j {
        lemma_weighted_sum_ordered(pool_wei, weights, i + 1, j);
    }
}

proof fn lemma_weighted_sum_ordered(pool_wei: u128, weights: Seq<u32>, i: int, j: int)
    requires
        0 <= i <= j,
    ensures
        weighted_sum(pool_wei, weights, i) <= weighted_sum(pool_wei, weights, j),
    decreases j - i,
{
    if i < j {
        lemma_weighted_sum_ordered(pool_wei, weights, i, j - 1);
        lemma_weighted_sum_grows(pool_wei, weights, j - 1);
    }
}

/// The whole pool goes to the winner, and to nobody where there is none.
pub proof fn the_winner_takes_all(pool_wei: u128, winner: Option<Seq<char>>)
    ensures
        winner is None || pool_wei == 0 ==> terminal_payouts(pool_wei, winner).len() == 0,
        winner is Some && pool_wei > 0 ==> {
            &&& terminal_payouts(pool_wei, winner).len() == 1
            &&& terminal_payouts(pool_wei, winner)[0].researcher == winner->0
            &&& terminal_payouts(pool_wei, winner)[0].wei == pool_wei
        },
{
}

/// Each holder is paid the rate for each epoch held, in the order of the list, and
/// those who are owed nothing are left out.
pub proof fn holders_are_paid_by_the_epoch(holders: Seq<(Seq<char>, u64)>, wei_per_epoch: u128)
    requires
        forall|i: int|
            0 <= i < holders.len() ==> (#[trigger] holders[i]).1 * wei_per_epoch <= u128::MAX,
    ensures
        holding_payouts(holders, wei_per_epoch) == holders.map_values(
            |h: (Seq<char>, u64)|
                PayoutView { researcher: h.0, wei: (h.1 * wei_per_epoch) as u128 },
        ).filter(|p: PayoutView| p.wei > 0),
    decreases holders.len(),
{
    reveal(Seq::filter);
    let pay = |h: (Seq<char>, u64)|
        PayoutView { researcher: h.0, wei: (h.1 * wei_per_epoch) as u128 };
    if holders.len() > 0 {
        let front = holders.drop_last();
        assert forall|i: int| 0 <= i < front.len() implies (#[trigger] front[i]).1 * wei_per_epoch
            <= u128::MAX by {
            assert(front[i] == holders[i]);
        }
        holders_are_paid_by_the_epoch(front, wei_per_epoch);
        assert(holders.map_values(pay).drop_last() =~= front.map_values(pay));
        assert(holders.last().1 * wei_per_epoch >= 0) by (nonlinear_arith)
            requires
                holders.last().1 >= 0,
                wei_per_epoch >= 0,
        ;
        assert(holders[holders.len() - 1] == holders.last());
    } else {
        assert(holders.map_values(pay) =~= Seq::empty());
    }
}

// --- What the operations give back -------------------------------------------

/// One more beat in a settled bounty: where it rises above the best before it by at least
/// `epsilon_micros`, and by more than nothing, one payout is added, to its researcher, of
/// the rate for each micro-unit of the rise; otherwise nothing is added. The payouts
/// before it stay as they were.
pub proof fn one_more_beat_pays_for_its_rise(
    baseline: i64,
    beats: &[RecordBeat],
    more: &[RecordBeat],
    beat: RecordBeat,
    epsilon_micros: i64,
    wei_per_micro: u128,
    before: Vec<Payout>,
    after: Vec<Payout>,
)
    requires
        more@ == beats@.push(beat),
        call_ensures(
            settle_record_bounty,
            (baseline, beats, epsilon_micros, wei_per_micro),
            before,
        ),
        call_ensures(settle_record_bounty, (baseline, more, epsilon_micros, wei_per_micro), after),
    ensures
        beats@.len() == 0 ==> before@.len() == 0,
        forall|i: int|
            #![trigger before@[i]]
            0 <= i < before@.len() ==> after@[i].researcher@ == before@[i].researcher@
                && after@[i].wei == before@[i].wei,
        ({
            let best = beats@.fold_left(
                baseline,
                |best: i64, b: RecordBeat|
                    if b.new_best_micros - best >= epsilon_micros && b.new_best_micros > best {
                        b.new_best_micros
                    } else {
                        best
                    },
            );
            let rise = min(beat.new_best_micros - best, i64::MAX as int);
            if rise > 0 && beat.new_best_micros - best >= epsilon_micros {
                &&& after@.len() == before@.len() + 1
                &&& after@.last().researcher@ == beat.researcher@
                &&& after@.last().wei == min(rise * wei_per_micro, u128::MAX as int)
            } else {
                after@.len() == before@.len()
            }
        }),
{
    let (b, m) = (beat_views(beats@), beat_views(more@));
    assert(m.drop_last() =~= b);
    assert(m.last() == beat@);
    lemma_best_is_folded(baseline, beats@, epsilon_micros);
    let bar = best_after(baseline, b, epsilon_micros);
    let rise = beat.new_best_micros - bar;
    if rise > 0 {
        assert(rise * wei_per_micro >= 0) by (nonlinear_arith)
            requires
                rise > 0,
                wei_per_micro >= 0,
        ;
    }
    let (p, q) = (payout_views(before@), payout_views(after@));
    assert(p.len() == before@.len() && q.len() == after@.len());
    assert forall|i: int|
        #![trigger before@[i]]
        0 <= i < before@.len() implies after@[i].researcher@ == before@[i].researcher@
        && after@[i].wei == before@[i].wei by {
        assert(p[i] == before@[i]@);
        assert(q[i] == after@[i]@);
    }
    if q.len() > p.len() {
        assert(q.last() == after@.last()@);
    }
}

proof fn lemma_best_is_folded(baseline: i64, beats: Seq<RecordBeat>, epsilon_micros: i64)
    ensures
        best_after(baseline, beat_views(beats), epsilon_micros) == beats.fold_left(
            baseline,
            |best: i64, b: RecordBeat|
                if b.new_best_micros - best >= epsilon_micros && b.new_best_micros > best {
                    b.new_best_micros
                } else {
                    best
                },
        ),
    decreases beats.len(),
{
    reveal(Seq::fold_left);
    if beats.len() > 0 {
        lemma_best_is_folded(baseline, beats.drop_last(), epsilon_micros);
        assert(beat_views(beats).drop_last() =~= beat_views(beats.drop_last()));
        assert(beat_views(beats).last() == beats.last()@);
    }
}

/// One more rank in a settled snapshot: where there is a researcher for it, it is paid its
/// weight of the pool, rounded down, or what is left of the pool, if that is less; a rank
/// that would be paid nothing is not listed. The payouts before it stay as they were.
pub proof fn one_more_rank_is_paid_its_weight(
    pool_wei: u128,
    ranked: &[String],
    weights: &[u32],
    more: &[u32],
    weight: u32,
    before: Vec<Payout>,
    after: Vec<Payout>,
)
    requires
        more@ == weights@.push(weight),
        call_ensures(settle_snapshot_topk, (pool_wei, ranked, weights), before),
        call_ensures(settle_snapshot_topk, (pool_wei, ranked, more), after),
    ensures
        weights@.len() == 0 ==> before@.len() == 0,
        forall|i: int|
            #![trigger before@[i]]
            0 <= i < before@.len() ==> after@[i].researcher@ == before@[i].researcher@
                && after@[i].wei == before@[i].wei,
        ({
            let left = pool_wei - before@.fold_left(0int, |sum: int, p: Payout| sum + p.wei);
            let share = min(min(pool_wei * weight, u128::MAX as int) / 10_000, left);
            if weights@.len() < ranked@.len() && share > 0 {
                &&& after@.len() == before@.len() + 1
                &&& after@.last().researcher@ == ranked@[weights@.len() as int]@
                &&& after@.last().wei == share
            } else {
                after@.len() == before@.len()
            }
        }),
{
    let n = weights@.len() as int;
    let names = texts(ranked@);
    let k = lesser(names.len() as int, n);
    lemma_topk_ignores_the_rest(pool_wei, names, weights@, more@, k);
    lemma_topk_total(pool_wei, names, weights@, k);
    lemma_paid_is_folded(before@);
    let (p, q) = (payout_views(before@), payout_views(after@));
    assert(p.len() == before@.len() && q.len() == after@.len());
    if n < names.len() {
        lemma_weighted_sum_grows(pool_wei, more@, n);
        assert(more@[n] == weight);
        assert(names[n] == ranked@[n]@);
        lemma_weighted_sum_ignores_the_rest(pool_wei, weights@, more@, n);
        assert(pool_wei * weight >= 0) by (nonlinear_arith)
            requires
                pool_wei >= 0,
                weight >= 0,
        ;
    }
    assert forall|i: int|
        #![trigger before@[i]]
        0 <= i < before@.len() implies after@[i].researcher@ == before@[i].researcher@
        && after@[i].wei == before@[i].wei by {
        assert(p[i] == before@[i]@);
        assert(q[i] == after@[i]@);
    }
    if q.len() > p.len() {
        assert(q.last() == after@.last()@);
    }
}

proof fn lemma_weighted_sum_ignores_the_rest(
    pool_wei: u128,
    weights: Seq<u32>,
    more: Seq<u32>,
    k: int,
)
    requires
        0 <= k <= weights.len() <= more.len(),
        forall|i: int| 0 <= i < weights.len() ==> #[trigger] weights[i] == more[i],
    ensures
        weighted_sum(pool_wei, weights, k) == weighted_sum(pool_wei, more, k),
    decreases k,
{
    if k > 0 {
        lemma_weighted_sum_ignores_the_rest(pool_wei, weights, more, k - 1);
        assert(weights[k - 1] == more[k - 1]);
    }
}

proof fn lemma_topk_ignores_the_rest(
    pool_wei: u128,
    ranked: Seq<Seq<char>>,
    weights: Seq<u32>,
    more: Seq<u32>,
    k: int,
)
    requires
        0 <= k <= weights.len() <= more.len(),
        forall|i: int| 0 <= i < weights.len() ==> #[trigger] weights[i] == more[i],
    ensures
        topk_payouts(pool_wei, ranked, weights, k) == topk_payouts(pool_wei, ranked, more, k),
    decreases k,
{
    if k > 0 {
        lemma_topk_ignores_the_rest(pool_wei, ranked, weights, more, k - 1);
        lemma_weighted_sum_ignores_the_rest(pool_wei, weights, more, k - 1);
        lemma_weighted_sum_ignores_the_rest(pool_wei, weights, more, k);
    }
}

proof fn lemma_paid_is_folded(payouts: Seq<Payout>)
    ensures
        paid_total(payout_views(payouts)) == payouts.fold_left(
            0int,
            |sum: int, p: Payout| sum + p.wei,
        ),
    decreases payouts.len(),
{
    reveal(Seq::fold_left);
    if payouts.len() > 0 {
        lemma_paid_is_folded(payouts.drop_last());
        assert(payout_views(payouts).drop_last() =~= payout_views(payouts.drop_last()));
        assert(payout_views(payouts).last() == payouts.last()@);
    }
}

/// A settled prize is the whole pool, to the winner; nobody else is paid, and nobody at
/// all without a winner or a pool.
pub proof fn a_prize_is_paid_whole(pool_wei: u128, winner: Option<&str>, payouts: Vec<Payout>)
    requires
        call_ensures(settle_terminal_prize, (pool_wei, winner), payouts),
    ensures
        winner is None || pool_wei == 0 ==> payouts@.len() == 0,
        winner matches Some(w) ==> pool_wei > 0 ==> {
            &&& payouts@.len() == 1
            &&& payouts@[0].researcher@ == w@
            &&& payouts@[0].wei == pool_wei
        },
{
    let p = payout_views(payouts@);
    assert(p.len() == payouts@.len());
    if p.len() > 0 {
        assert(p[0] == payouts@[0]@);
    }
}

/// One more holder in settled time at the top is paid the rate for each epoch held, and
/// is not listed where that is nothing. The payouts before it stay as they were.
pub proof fn one_more_holder_is_paid_by_the_epoch(
    holders: &[(String, u64)],
    more: &[(String, u64)],
    holder: (String, u64),
    wei_per_epoch: u128,
    before: Vec<Payout>,
    after: Vec<Payout>,
)
    requires
        more@ == holders@.push(holder),
        holder.1 * wei_per_epoch <= u128::MAX,
        call_ensures(settle_time_at_top, (holders, wei_per_epoch), before),
        call_ensures(settle_time_at_top, (more, wei_per_epoch), after),
    ensures
        holders@.len() == 0 ==> before@.len() == 0,
        forall|i: int|
            #![trigger before@[i]]
            0 <= i < before@.len() ==> after@[i].researcher@ == before@[i].researcher@
                && after@[i].wei == before@[i].wei,
        if holder.1 > 0 && wei_per_epoch > 0 {
            &&& after@.len() == before@.len() + 1
            &&& after@.last().researcher@ == holder.0@
            &&& after@.last().wei == holder.1 * wei_per_epoch
        } else {
            after@.len() == before@.len()
        },
{
    let (h, m) = (holder_views(holders@), holder_views(more@));
    assert(m.drop_last() =~= h);
    assert(m.last() == (holder.0@, holder.1));
    let (a, b) = (holder.1 as int, wei_per_epoch as int);
    assert(a * b > 0 <==> a > 0 && b > 0) by (nonlinear_arith)
        requires
            a >= 0,
            b >= 0,
    ;
    let (p, q) = (payout_views(before@), payout_views(after@));
    assert(p.len() == before@.len() && q.len() == after@.len());
    assert forall|i: int|
        #![trigger before@[i]]
        0 <= i < before@.len() implies after@[i].researcher@ == before@[i].researcher@
        && after@[i].wei == before@[i].wei by {
        assert(p[i] == before@[i]@);
        assert(q[i] == after@[i]@);
    }
    if q.len() > p.len() {
        assert(q.last() == after@.last()@);
    }
}

/// The total of a payout set is the sum of its payouts.
pub proof fn a_total_is_the_sum_of_its_payouts(payouts: &[Payout], total: u128)
    requires
        call_ensures(total_wei, (payouts,), total),
    ensures
        total == payouts@.fold_left(0int, |sum: int, p: Payout| sum + p.wei),
{
    lemma_paid_is_folded(payouts@);
}

/// A schedule passes exactly where it does not split by weights, or has weights that sum
/// to ten thousand at most.
pub proof fn a_valid_schedule_splits_no_more_than_the_whole(
    schedule: &RewardSchedule,
    r: Result<(), RewardError>,
)
    requires
        call_ensures(RewardSchedule::validate, (schedule,), r),
    ensures
        *schedule matches RewardSchedule::SnapshotTopK { weights_bps } ==> {
            let sum = weights_bps@.fold_left(0int, |sum: int, w: u32| sum + w);
            &&& r is Ok <==> weights_bps@.len() > 0 && sum <= 10_000
            &&& weights_bps@.len() == 0 ==> r == Err::<(), RewardError>(RewardError::EmptyWeights)
            &&& sum > 10_000 && sum <= u64::MAX ==> (r matches Err(
                RewardError::WeightsExceedPool { sum: told },
            ) && told == sum)
        },
        !(*schedule is SnapshotTopK) ==> r is Ok,
{
    if let RewardSchedule::SnapshotTopK { weights_bps } = *schedule {
        lemma_weights_are_folded(weights_bps@);
        if weights_bps@.len() == 0 {
            assert(weights_total(weights_bps@) == 0);
        }
    }
}

proof fn lemma_weights_are_folded(weights: Seq<u32>)
    ensures
        weights_total(weights) == weights.fold_left(0int, |sum: int, w: u32| sum + w),
    decreases weights.len(),
{
    reveal(Seq::fold_left);
    if weights.len() > 0 {
        lemma_weights_are_folded(weights.drop_last());
    }
}

} // verus!
