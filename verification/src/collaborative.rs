//! The collaborative runner: contributors improve one shared artifact and are paid
//! by what their contributions moved.
//!
//! Deltas are folded in an order that their own content determines, so nobody can
//! choose an order that favours somebody. A delta that does not improve the shared
//! artifact is dropped and earns nothing, and unless the final artifact clears the
//! promotion gate nobody is paid.
use crate::amounts::lesser;
use crate::binary64::Binary64;
use crate::fnv::{fnv1a, fnv1a_64};
use crate::orchestrator::{
    blame, blamed, CompetitionConfig, FaultView, Opening, ProtocolError, RunFailure,
};
use crate::order::{
    lemma_bytes_le_total, lemma_bytes_le_transitive, lemma_text_le_antisymmetric, placed,
    rank_items, ranking, ranking_ignores_arrival_order, ranking_orders_and_keeps,
    text_at_or_before, text_le, Ranked,
};
use crate::reward::{
    paid_total, payout_views, settle_snapshot_topk, snapshot_payouts,
    snapshot_pays_only_the_weighted, weights_total, Payout, BPS_DENOM,
};
use crate::text::{same_text, texts};
use crate::traits::ScorerError;
use crate::types::{ArtifactRef, Lift, Measurement, Structure, COLLABORATIVE_IS_ONE_SHOT};
use vstd::prelude::*;
use vstd::set_lib::{lemma_int_range, lemma_len_subset, set_int_range};
use vstd::utf8::encode_utf8;

verus! {

/// One contributor to the shared artifact.
#[derive(Clone, Debug)]
pub struct Contribution {
    /// The contributor.
    pub contributor: String,
    /// Seed of the contributor's engine.
    pub seed: u64,
    /// Reference to the contributor's delta.
    pub delta_ref: ArtifactRef,
}

/// The result of a collaborative run.
#[derive(Clone, Debug)]
pub struct CollaborativeOutcome {
    /// The lift of the final shared artifact over the baseline.
    pub final_artifact_lift: Lift,
    /// Each contributor's basis-point share of the pool.
    pub shares: Vec<(String, u32)>,
    /// Settled payouts; none unless the final artifact clears the promotion gate.
    pub payouts: Vec<Payout>,
    /// How many deltas were folded in.
    pub accepted: usize,
}

// --- The canonical order -----------------------------------------------------

impl Contribution {
    /// The hash that the order goes by first.
    pub open spec fn content_hash(self) -> u64 {
        fnv1a(encode_utf8(self.delta_ref@))
    }

    /// Whether two contributions have the same place in the order.
    pub open spec fn same_key(self, other: Contribution) -> bool {
        self.delta_ref@ == other.delta_ref@ && self.contributor@ == other.contributor@
    }
}

/// Contributions fold by the hash of their delta reference, then by the reference,
/// then by the contributor.
impl Ranked for Contribution {
    open spec fn ahead(self, other: Self) -> bool {
        ||| self.content_hash() < other.content_hash()
        ||| self.content_hash() == other.content_hash() && !text_le(
            other.delta_ref@,
            self.delta_ref@,
        )
        ||| self.delta_ref@ == other.delta_ref@ && text_le(self.contributor@, other.contributor@)
    }

    proof fn ahead_total(a: Self, b: Self) {
        lemma_bytes_le_total(encode_utf8(a.contributor@), encode_utf8(b.contributor@));
        if text_le(a.delta_ref@, b.delta_ref@) && text_le(b.delta_ref@, a.delta_ref@) {
            lemma_text_le_antisymmetric(a.delta_ref@, b.delta_ref@);
        }
    }

    proof fn ahead_transitive(a: Self, b: Self, c: Self) {
        let (da, db, dc) = (
            encode_utf8(a.delta_ref@),
            encode_utf8(b.delta_ref@),
            encode_utf8(c.delta_ref@),
        );
        lemma_bytes_le_total(da, db);
        lemma_bytes_le_total(db, dc);
        lemma_bytes_le_total(da, dc);
        if text_le(c.delta_ref@, a.delta_ref@) && text_le(a.delta_ref@, b.delta_ref@) {
            lemma_bytes_le_transitive(dc, da, db);
        }
        if text_le(b.delta_ref@, c.delta_ref@) && text_le(c.delta_ref@, a.delta_ref@) {
            lemma_bytes_le_transitive(db, dc, da);
        }
        if text_le(a.contributor@, b.contributor@) && text_le(b.contributor@, c.contributor@) {
            lemma_bytes_le_transitive(
                encode_utf8(a.contributor@),
                encode_utf8(b.contributor@),
                encode_utf8(c.contributor@),
            );
        }
    }

    fn stands_ahead(&self, other: &Self) -> (r: bool) {
        let (mine, mine_ref, mine_name) = canonical_fold_key(self);
        let (theirs, theirs_ref, theirs_name) = canonical_fold_key(other);
        if mine != theirs {
            return mine < theirs;
        }
        if same_text(mine_ref, theirs_ref) {
            proof {
                lemma_bytes_le_total(
                    encode_utf8(self.delta_ref@),
                    encode_utf8(self.delta_ref@),
                );
            }
            text_at_or_before(mine_name, theirs_name)
        } else {
            !text_at_or_before(theirs_ref, mine_ref)
        }
    }
}

/// The sort key of a contribution: the hash of its delta reference, the reference,
/// and the contributor.
pub fn canonical_fold_key(c: &Contribution) -> (r: (u64, &str, &str))
    ensures
        r.0 == c.content_hash(),
        r.1@ == c.delta_ref@,
        r.2@ == c.contributor@,
{
    (
        fnv1a_64(c.delta_ref.0.as_str().as_bytes()),
        c.delta_ref.0.as_str(),
        c.contributor.as_str(),
    )
}

struct FoldSlot<'a> {
    index: usize,
    contribution: &'a Contribution,
}

impl<'a> Ranked for FoldSlot<'a> {
    closed spec fn ahead(self, other: Self) -> bool {
        self.contribution.ahead(*other.contribution)
    }

    proof fn ahead_total(a: Self, b: Self) {
        Contribution::ahead_total(*a.contribution, *b.contribution);
    }

    proof fn ahead_transitive(a: Self, b: Self, c: Self) {
        Contribution::ahead_transitive(*a.contribution, *b.contribution, *c.contribution);
    }

    fn stands_ahead(&self, other: &Self) -> (r: bool) {
        self.contribution.stands_ahead(other.contribution)
    }
}

spec fn slot_contributions<'a>(s: Seq<FoldSlot<'a>>) -> Seq<Contribution> {
    s.map_values(|x: FoldSlot<'a>| *x.contribution)
}

proof fn lemma_placed_slots<'a>(s: Seq<FoldSlot<'a>>, x: FoldSlot<'a>)
    ensures
        slot_contributions(placed(s, x)) == placed(slot_contributions(s), *x.contribution),
    decreases s.len(),
{
    if s.len() == 0 {
        assert(slot_contributions(placed(s, x)) =~= seq![*x.contribution]);
    } else if s.last().ahead(x) {
        assert(slot_contributions(s.push(x)) =~= slot_contributions(s).push(*x.contribution));
    } else {
        lemma_placed_slots(s.drop_last(), x);
        assert(slot_contributions(s).drop_last() =~= slot_contributions(s.drop_last()));
        assert(slot_contributions(placed(s, x)) =~= slot_contributions(
            placed(s.drop_last(), x),
        ).push(*s.last().contribution));
    }
}

proof fn lemma_ranked_slots<'a>(s: Seq<FoldSlot<'a>>)
    ensures
        slot_contributions(ranking(s)) == ranking(slot_contributions(s)),
    decreases s.len(),
{
    if s.len() > 0 {
        lemma_ranked_slots(s.drop_last());
        lemma_placed_slots(ranking(s.drop_last()), s.last());
        assert(slot_contributions(s).drop_last() =~= slot_contributions(s.drop_last()));
    } else {
        assert(slot_contributions(s) =~= Seq::empty());
        assert(slot_contributions(ranking(s)) =~= Seq::empty());
    }
}

/// The indices of a list of `n`, each once.
pub open spec fn permutes(order: Seq<usize>, n: nat) -> bool {
    &&& order.len() == n
    &&& forall|i: int| 0 <= i < n ==> (#[trigger] order[i]) < n
    &&& forall|i: int, j: int| 0 <= i < n && 0 <= j < n && i != j ==> order[i] != order[j]
}

/// The contributions that an order of indices picks.
pub open spec fn picked(contributors: Seq<Contribution>, order: Seq<usize>) -> Seq<Contribution> {
    order.map_values(|i: usize| contributors[i as int])
}

/// The order in which deltas are folded: the positions of the contributions in the
/// caller's list, in canonical order.
pub fn fold_order(contributors: &[Contribution]) -> (order: Vec<usize>)
    ensures
        permutes(order@, contributors@.len()),
        picked(contributors@, order@) == ranking(contributors@),
{
    broadcast use vstd::seq_lib::group_to_multiset_ensures;

    let mut slots: Vec<FoldSlot> = Vec::new();
    for i in 0..contributors.len()
        invariant
            slots@.len() == i,
            forall|j: int|
                0 <= j < i ==> (#[trigger] slots@[j]).index == j && *slots@[j].contribution
                    == contributors@[j],
    {
        slots.push(FoldSlot { index: i, contribution: &contributors[i] });
    }
    let ghost all = slots@;
    let ranked = rank_items(slots);
    proof {
        ranking_orders_and_keeps(all);
        lemma_ranked_slots(all);
        assert(slot_contributions(all) =~= contributors@);
        assert(all.no_duplicates()) by {
            assert forall|i: int, j: int| 0 <= i < all.len() && 0 <= j < all.len() && i != j implies all[i]
                != all[j] by {
                assert(all[i].index != all[j].index);
            }
        }
        all.lemma_multiset_has_no_duplicates();
        ranked@.lemma_multiset_has_no_duplicates_conv();
        assert forall|i: int| 0 <= i < ranked@.len() implies (#[trigger] ranked@[i]).index
            < all.len() && all[ranked@[i].index as int] == ranked@[i] by {
            assert(ranked@.contains(ranked@[i]));
            assert(ranked@.to_multiset().count(ranked@[i]) > 0);
            assert(all.contains(ranked@[i]));
            let k = choose|k: int| 0 <= k < all.len() && all[k] == ranked@[i];
            assert(all[k].index == k);
        }
    }
    let mut order: Vec<usize> = Vec::new();
    for i in 0..ranked.len()
        invariant
            order@.len() == i,
            forall|j: int| 0 <= j < i ==> (#[trigger] order@[j]) == ranked@[j].index,
    {
        order.push(ranked[i].index);
    }
    proof {
        assert forall|i: int, j: int|
            0 <= i < order@.len() && 0 <= j < order@.len() && i != j implies order@[i]
            != order@[j] by {
            assert(ranked@[i] != ranked@[j]);
        }
        assert forall|i: int| 0 <= i < order@.len() implies contributors@[order@[i] as int]
            == *(#[trigger] ranked@[i]).contribution by {
            assert(all[ranked@[i].index as int] == ranked@[i]);
        }
        assert(picked(contributors@, order@) =~= slot_contributions(ranked@));
    }
    order
}

/// The order in which deltas are folded depends on the contributions alone, not on
/// the order in which the caller lists them.
pub proof fn fold_order_ignores_caller_order(a: Seq<Contribution>, b: Seq<Contribution>)
    requires
        a.to_multiset() == b.to_multiset(),
        forall|i: int, j: int|
            0 <= i < a.len() && 0 <= j < a.len() && i != j ==> !(#[trigger] a[i]).same_key(
                #[trigger] a[j],
            ),
    ensures
        ranking(a) == ranking(b),
{
    assert forall|x: Contribution, y: Contribution|
        a.contains(x) && a.contains(y) && #[trigger] x.ahead(y) && #[trigger] y.ahead(
            x,
        ) implies x == y by {
        let i = choose|i: int| 0 <= i < a.len() && a[i] == x;
        let j = choose|j: int| 0 <= j < a.len() && a[j] == y;
        lemma_bytes_le_total(encode_utf8(x.delta_ref@), encode_utf8(y.delta_ref@));
        if x.delta_ref@ == y.delta_ref@ && text_le(x.contributor@, y.contributor@) && text_le(
            y.contributor@,
            x.contributor@,
        ) {
            lemma_text_le_antisymmetric(x.contributor@, y.contributor@);
        }
        assert(x.same_key(y));
        if i != j {
            assert(!a[i].same_key(a[j]));
        }
    }
    ranking_ignores_arrival_order(a, b);
}

// --- Folding -----------------------------------------------------------------

/// What came of folding in one delta.
#[derive(Debug)]
pub struct FoldStep {
    /// The lift over the baseline that the shared artifact would have with the delta,
    /// and the effect that the contributor is credited with should the delta be kept:
    /// by how much that lift exceeds the lift before it; or what failed.
    pub result: Result<(Lift, Binary64), RunFailure>,
}

impl FoldStep {
    /// Whether the delta takes the shared artifact beyond the lift `before`.
    pub open spec fn improves_on(self, before: Binary64) -> bool {
        self.result is Ok && before.lt_spec(self.result->Ok_0.0.delta)
    }

    /// Whether the delta takes the shared artifact beyond the lift `before`.
    pub fn improves(&self, before: Binary64) -> (r: bool)
        ensures
            r == self.improves_on(before),
    {
        match &self.result {
            Ok((lift, _)) => before.less_than(lift.delta),
            Err(_) => false,
        }
    }
}

/// The lift that the shared artifact has reached after `steps`: that of the last delta
/// that was kept, and zero before any was.
pub open spec fn reached(steps: Seq<FoldStep>) -> Binary64
    decreases steps.len(),
{
    if steps.len() == 0 {
        Binary64 { bits: 0 }
    } else if steps.last().improves_on(reached(steps.drop_last())) {
        steps.last().result->Ok_0.0.delta
    } else {
        reached(steps.drop_last())
    }
}

/// Whether the delta of step `k` is kept: it takes the shared artifact beyond the lift
/// that the steps before it had reached.
pub open spec fn kept(steps: Seq<FoldStep>, k: int) -> bool {
    steps[k].improves_on(reached(steps.take(k)))
}

/// What the contributor of step `k` is credited with: the effect of a delta that is
/// kept, and otherwise nothing.
pub open spec fn credit(steps: Seq<FoldStep>, k: int) -> Binary64 {
    if kept(steps, k) {
        steps[k].result->Ok_0.1
    } else {
        Binary64 { bits: 0 }
    }
}

proof fn lemma_earlier_credit(steps: Seq<FoldStep>, n: int, k: int)
    requires
        0 <= k < n <= steps.len(),
    ensures
        credit(steps.take(n), k) == credit(steps, k),
{
    assert(steps.take(n).take(k) =~= steps.take(k));
}

proof fn lemma_reached_is_a_number(steps: Seq<FoldStep>)
    ensures
        !reached(steps).nan(),
        reached(steps).key() >= 0,
    decreases steps.len(),
{
    if steps.len() > 0 {
        lemma_reached_is_a_number(steps.drop_last());
    }
}

/// The shared artifact only ever gets better: a delta that is kept takes its lift
/// strictly higher, and one that is not leaves it as it was.
pub proof fn kept_deltas_raise_the_shared_lift(
    baseline_lift: Lift,
    steps: Seq<FoldStep>,
    k: int,
)
    requires
        0 <= k < steps.len(),
    ensures
        kept(steps, k) ==> {
            &&& reached(steps.take(k)).lt_spec(reached(steps.take(k + 1)))
            &&& shared_lift(baseline_lift, steps.take(k + 1)).delta == reached(steps.take(k + 1))
            &&& !baseline_lift.delta.nan() && baseline_lift.delta.key() == 0 ==> shared_lift(
                baseline_lift,
                steps.take(k),
            ).delta.lt_spec(shared_lift(baseline_lift, steps.take(k + 1)).delta)
        },
        !kept(steps, k) ==> {
            &&& reached(steps.take(k + 1)) == reached(steps.take(k))
            &&& shared_lift(baseline_lift, steps.take(k + 1)) == shared_lift(
                baseline_lift,
                steps.take(k),
            )
        },
{
    assert(steps.take(k + 1).drop_last() =~= steps.take(k));
    assert(steps.take(k + 1).last() == steps[k]);
    lemma_shared_is_reached(baseline_lift, steps.take(k));
}

/// The lift that was reached never falls.
pub proof fn reached_lift_never_falls(steps: Seq<FoldStep>, i: int, j: int)
    requires
        0 <= i <= j <= steps.len(),
    ensures
        reached(steps.take(i)).le_spec(reached(steps.take(j))),
    decreases j - i,
{
    lemma_reached_is_a_number(steps.take(i));
    if i < j {
        reached_lift_never_falls(steps, i, j - 1);
        assert(steps.take(j).drop_last() =~= steps.take(j - 1));
    }
}

proof fn lemma_shared_is_reached(baseline_lift: Lift, steps: Seq<FoldStep>)
    ensures
        shared_lift(baseline_lift, steps) == baseline_lift && reached(steps) == (Binary64 {
            bits: 0,
        }) || shared_lift(baseline_lift, steps).delta == reached(steps),
    decreases steps.len(),
{
    if steps.len() > 0 {
        lemma_shared_is_reached(baseline_lift, steps.drop_last());
    }
}

/// The first failure while folding, if one failed; `ordered` are the contributions in
/// the order in which they were folded.
pub open spec fn fold_fault(ordered: Seq<Contribution>, steps: Seq<FoldStep>) -> Option<FaultView>
    decreases steps.len(),
{
    if steps.len() == 0 {
        None
    } else {
        match fold_fault(ordered, steps.drop_last()) {
            Some(f) => Some(f),
            None => match steps.last().result {
                Err(failure) => Some(
                    blamed(failure, ordered[steps.len() - 1].contributor@),
                ),
                Ok(_) => None,
            },
        }
    }
}

/// The lift of the shared artifact after `steps`: that of the last delta that was
/// folded in, or of the baseline.
pub open spec fn shared_lift(baseline_lift: Lift, steps: Seq<FoldStep>) -> Lift
    decreases steps.len(),
{
    if steps.len() == 0 {
        baseline_lift
    } else if steps.last().improves_on(reached(steps.drop_last())) {
        steps.last().result->Ok_0.0
    } else {
        shared_lift(baseline_lift, steps.drop_last())
    }
}

/// How many of `steps` improved the shared artifact.
pub open spec fn accepted_count(steps: Seq<FoldStep>) -> nat
    decreases steps.len(),
{
    if steps.len() == 0 {
        0
    } else {
        accepted_count(steps.drop_last()) + (if steps.last().improves_on(
            reached(steps.drop_last()),
        ) {
            1nat
        } else {
            0
        })
    }
}

/// The state of the shared artifact once every delta was tried.
#[derive(Debug)]
pub struct SharedFold {
    /// The lift of the shared artifact over the baseline.
    pub lift: Lift,
    /// What each contributor is credited with, in the caller's order.
    pub marginals: Vec<(String, Binary64)>,
    /// How many deltas were folded in.
    pub accepted: usize,
}

/// Each contributor is credited with what came of their own delta.
pub open spec fn credits_match(
    marginals: Seq<(String, Binary64)>,
    contributors: Seq<Contribution>,
    order: Seq<usize>,
    steps: Seq<FoldStep>,
) -> bool {
    &&& marginals.len() == contributors.len()
    &&& forall|i: int|
        0 <= i < marginals.len() ==> (#[trigger] marginals[i]).0@ == contributors[i].contributor@
    &&& forall|k: int|
        0 <= k < steps.len() ==> marginals[#[trigger] order[k] as int].1 == credit(
            steps,
            k,
        )
    &&& forall|k: int|
        steps.len() <= k < order.len() ==> marginals[#[trigger] order[k] as int].1.bits == 0
}

/// Tallies what came of folding the deltas in the order `order`, which must be that of
/// [`fold_order`].
pub fn tally_folds(
    baseline_lift: Lift,
    contributors: &[Contribution],
    order: &Vec<usize>,
    steps: &Vec<FoldStep>,
) -> (r: Result<SharedFold, ProtocolError>)
    requires
        permutes(order@, contributors@.len()),
        picked(contributors@, order@) == ranking(contributors@),
        steps@.len() <= contributors@.len(),
    ensures
        match r {
            Ok(fold) => {
                &&& fold_fault(ranking(contributors@), steps@) is None
                &&& fold.lift == shared_lift(baseline_lift, steps@)
                &&& fold.accepted == accepted_count(steps@)
                &&& credits_match(fold.marginals@, contributors@, order@, steps@)
            },
            Err(e) => fold_fault(ranking(contributors@), steps@) == Some(e@),
        },
{
    let mut marginals: Vec<(String, Binary64)> = Vec::new();
    for i in 0..contributors.len()
        invariant
            marginals@.len() == i,
            forall|j: int|
                0 <= j < i ==> (#[trigger] marginals@[j]).0@ == contributors@[j].contributor@
                    && marginals@[j].1.bits == 0,
    {
        marginals.push((contributors[i].contributor.clone(), Binary64 { bits: 0 }));
    }
    let ghost ordered = ranking(contributors@);
    let mut lift = baseline_lift;
    let mut before = Binary64 { bits: 0 };
    let mut accepted: usize = 0;
    proof {
        assert(steps@.take(0) =~= Seq::empty());
    }
    for k in 0..steps.len()
        invariant
            permutes(order@, contributors@.len()),
            picked(contributors@, order@) == ordered,
            ordered == ranking(contributors@),
            steps@.len() <= contributors@.len(),
            fold_fault(ordered, steps@.take(k as int)) is None,
            lift == shared_lift(baseline_lift, steps@.take(k as int)),
            before == reached(steps@.take(k as int)),
            accepted == accepted_count(steps@.take(k as int)),
            accepted <= k,
            credits_match(marginals@, contributors@, order@, steps@.take(k as int)),
    {
        let ghost seen = steps@.take(k as int);
        let ghost marked = marginals@;
        proof {
            assert(steps@.take(k + 1).drop_last() =~= seen);
            assert(steps@.take(k + 1).last() == steps@[k as int]);
        }
        let index: usize = order[k];
        match &steps[k].result {
            Ok((candidate_lift, marginal)) => {
                if before.less_than(candidate_lift.delta) {
                    before = candidate_lift.delta;
                    lift = *candidate_lift;
                    accepted = accepted + 1;
                    marginals.set(index, (contributors[index].contributor.clone(), *marginal));
                }
                proof {
                    let now = steps@.take(k + 1);
                    assert forall|j: int| 0 <= j < now.len() implies marginals@[#[trigger] order@[j] as int].1
                        == credit(now, j) by {
                        lemma_earlier_credit(steps@, k + 1, j);
                        if j < k {
                            assert(order@[j] != order@[k as int]);
                            assert(marked[order@[j] as int].1 == credit(seen, j));
                            lemma_earlier_credit(steps@, k as int, j);
                        } else {
                            assert(marked[order@[k as int] as int].1.bits == 0);
                        }
                    }
                    assert forall|j: int| now.len() <= j < order@.len() implies marginals@[
                    #[trigger] order@[j] as int].1.bits == 0 by {
                        assert(order@[j] != order@[k as int]);
                        assert(marked[order@[j] as int].1.bits == 0);
                    }
                }
            },
            Err(failure) => {
                proof {
                    lemma_fold_fault_stays(ordered, steps@, k + 1);
                    assert(ordered[k as int] == contributors@[index as int]);
                }
                return Err(blame(failure, contributors[index].contributor.as_str()));
            },
        }
    }
    proof {
        assert(steps@.take(steps@.len() as int) =~= steps@);
    }
    Ok(SharedFold { lift, marginals, accepted })
}

proof fn lemma_fold_fault_stays(ordered: Seq<Contribution>, steps: Seq<FoldStep>, i: int)
    requires
        0 <= i <= steps.len(),
        fold_fault(ordered, steps.take(i)) is Some,
    ensures
        fold_fault(ordered, steps) == fold_fault(ordered, steps.take(i)),
    decreases steps.len() - i,
{
    if i < steps.len() {
        assert(steps.take(i + 1).drop_last() =~= steps.take(i));
        lemma_fold_fault_stays(ordered, steps, i + 1);
    } else {
        assert(steps.take(i) =~= steps);
    }
}

/// A fold under way: which contribution is to be folded in next, and what has come of
/// the earlier ones.
#[derive(Debug)]
pub struct FoldRun {
    /// The positions of the contributions, in canonical order.
    pub order: Vec<usize>,
    /// What came of the contributions so far, in that order.
    pub steps: Vec<FoldStep>,
}

impl FoldRun {
    /// The fold goes through the contributions in canonical order, and only its last
    /// step can have failed.
    pub open spec fn follows(self, contributors: Seq<Contribution>) -> bool {
        &&& permutes(self.order@, contributors.len())
        &&& picked(contributors, self.order@) == ranking(contributors)
        &&& self.steps@.len() <= contributors.len()
        &&& forall|k: int|
            0 <= k < self.steps@.len() - 1 ==> (#[trigger] self.steps@[k]).result is Ok
    }

    /// The fold has come to its end: every contribution was tried, or one failed.
    pub open spec fn over(self) -> bool {
        self.steps@.len() >= self.order@.len() || (self.steps@.len() > 0
            && self.steps@.last().result is Err)
    }

    /// A fold that has not begun.
    pub fn start(contributors: &[Contribution]) -> (r: Self)
        ensures
            r.follows(contributors@),
            r.steps@.len() == 0,
    {
        FoldRun { order: fold_order(contributors), steps: Vec::new() }
    }

    /// The position of the contribution to be folded in next; `None` once the fold is
    /// over.
    pub fn next_contributor(&self) -> (r: Option<usize>)
        ensures
            match r {
                Some(i) => !self.over() && i == self.order@[self.steps@.len() as int],
                None => self.over(),
            },
    {
        if self.steps.len() >= self.order.len() {
            return None;
        }
        if self.steps.len() > 0 && self.steps[self.steps.len() - 1].result.is_err() {
            return None;
        }
        Some(self.order[self.steps.len()])
    }

    /// The lift that the shared artifact has reached so far.
    pub fn lift_reached(&self) -> (r: Binary64)
        ensures
            r == reached(self.steps@),
    {
        let mut lift = Binary64 { bits: 0 };
        proof {
            assert(self.steps@.take(0) =~= Seq::empty());
        }
        for k in 0..self.steps.len()
            invariant
                lift == reached(self.steps@.take(k as int)),
        {
            proof {
                assert(self.steps@.take(k + 1).drop_last() =~= self.steps@.take(k as int));
            }
            if let Ok((candidate, _)) = &self.steps[k].result {
                if lift.less_than(candidate.delta) {
                    lift = candidate.delta;
                }
            }
        }
        proof {
            assert(self.steps@.take(self.steps@.len() as int) =~= self.steps@);
        }
        lift
    }

    /// Takes down what came of the contribution that was to be folded in, and tells
    /// whether the shared artifact keeps it: whether it takes the lift beyond what was
    /// reached.
    pub fn record(&mut self, step: FoldStep) -> (keep: bool)
        requires
            !old(self).over(),
        ensures
            keep == step.improves_on(reached(old(self).steps@)),
            keep == kept(final(self).steps@, old(self).steps@.len() as int),
            final(self).order@ == old(self).order@,
            final(self).steps@ == old(self).steps@.push(step),
            forall|contributors: Seq<Contribution>|
                old(self).follows(contributors) ==> #[trigger] final(self).follows(contributors),
    {
        let keep = step.improves(self.lift_reached());
        self.steps.push(step);
        proof {
            let earlier = old(self).steps@.len() as int;
            assert(self.steps@.take(earlier) =~= old(self).steps@);
            assert forall|contributors: Seq<Contribution>|
                old(self).follows(contributors) implies #[trigger] self.follows(contributors) by {
                assert forall|k: int| 0 <= k < self.steps@.len() - 1 implies (#[trigger] self.steps@[k]).result is Ok by {
                    assert(self.steps@[k] == old(self).steps@[k]);
                }
            }
        }
        keep
    }
}

proof fn lemma_place(order: Seq<usize>, n: nat, i: int) -> (k: int)
    requires
        permutes(order, n),
        0 <= i < n,
    ensures
        0 <= k < n,
        order[k] == i,
{
    let places = order.map_values(|u: usize| u as int);
    if !places.contains(i) {
        let all = set_int_range(0, n as int);
        lemma_int_range(0, n as int);
        assert(places.no_duplicates()) by {
            assert forall|p: int, q: int|
                0 <= p < places.len() && 0 <= q < places.len() && p != q implies places[p]
                != places[q] by {
                assert(order[p] != order[q]);
            }
        }
        places.unique_seq_to_set();
        assert forall|x: int| places.to_set().contains(x) implies all.remove(i).contains(x) by {
            let k = choose|k: int| 0 <= k < places.len() && places[k] == x;
            assert(order[k] < n);
        }
        lemma_len_subset(places.to_set(), all.remove(i));
    }
    choose|k: int| 0 <= k < places.len() && places[k] == i
}

/// What a contributor is credited with does not depend on the order in which the caller
/// lists the contributions: the same contribution is credited with the same effect.
pub proof fn credit_ignores_caller_order(
    a: Seq<Contribution>,
    b: Seq<Contribution>,
    order_a: Seq<usize>,
    order_b: Seq<usize>,
    steps: Seq<FoldStep>,
    marginals_a: Seq<(String, Binary64)>,
    marginals_b: Seq<(String, Binary64)>,
    i: int,
    j: int,
)
    requires
        a.to_multiset() == b.to_multiset(),
        forall|p: int, q: int|
            0 <= p < a.len() && 0 <= q < a.len() && p != q ==> !(#[trigger] a[p]).same_key(
                #[trigger] a[q],
            ),
        permutes(order_a, a.len()),
        permutes(order_b, b.len()),
        picked(a, order_a) == ranking(a),
        picked(b, order_b) == ranking(b),
        credits_match(marginals_a, a, order_a, steps),
        credits_match(marginals_b, b, order_b, steps),
        0 <= i < a.len(),
        0 <= j < b.len(),
        a[i] == b[j],
    ensures
        marginals_a[i].1 == marginals_b[j].1,
{
    let k = lemma_same_place(a, b, order_a, order_b, i, j);
    assert(marginals_a[order_a[k] as int].1 == marginals_b[order_b[k] as int].1);
}

proof fn lemma_same_place(
    a: Seq<Contribution>,
    b: Seq<Contribution>,
    order_a: Seq<usize>,
    order_b: Seq<usize>,
    i: int,
    j: int,
) -> (k: int)
    requires
        a.to_multiset() == b.to_multiset(),
        forall|p: int, q: int|
            0 <= p < a.len() && 0 <= q < a.len() && p != q ==> !(#[trigger] a[p]).same_key(
                #[trigger] a[q],
            ),
        permutes(order_a, a.len()),
        permutes(order_b, b.len()),
        picked(a, order_a) == ranking(a),
        picked(b, order_b) == ranking(b),
        0 <= i < a.len(),
        0 <= j < b.len(),
        a[i] == b[j],
    ensures
        0 <= k < a.len(),
        order_a[k] == i,
        order_b[k] == j,
        a.len() == b.len(),
{
    fold_order_ignores_caller_order(a, b);
    let k = lemma_place(order_a, a.len(), i);
    let l = lemma_place(order_b, b.len(), j);
    let (ra, rb) = (picked(a, order_a), picked(b, order_b));
    assert(ra.len() == a.len() && rb.len() == b.len() && ra == rb);
    assert(ra[k] == a[i]);
    assert(rb[l] == b[j]);
    assert(ra[l] == a[order_a[l] as int]);
    if k != l {
        assert(order_a[k] != order_a[l]);
        assert(!a[i].same_key(a[order_a[l] as int]));
        assert(false);
    }
    k
}

// --- Shares ------------------------------------------------------------------

/// Whether a marginal effect earns a share: it is a positive number.
pub open spec fn counts(marginal: Binary64) -> bool {
    marginal.finite() && marginal.positive()
}

/// The effects of a list of marginals.
pub open spec fn effects(marginals: Seq<(String, Binary64)>) -> Seq<Binary64> {
    marginals.map_values(|m: (String, Binary64)| m.1)
}

/// The least part among those of the first `n` who moved at least as much as
/// `marginal`; never more than the whole.
pub open spec fn least_part(
    marginals: Seq<Binary64>,
    parts: Seq<u32>,
    marginal: Binary64,
    n: int,
) -> int
    decreases n,
{
    if n <= 0 {
        BPS_DENOM as int
    } else {
        let rest = least_part(marginals, parts, marginal, n - 1);
        if counts(marginals[n - 1]) && marginals[n - 1].key() >= marginal.key() {
            lesser(rest, parts[n - 1] as int)
        } else {
            rest
        }
    }
}

/// What contributor `i` may claim: their part, but no more than the part of anybody who
/// moved at least as much; nothing where their effect does not count.
pub open spec fn fair_part(marginals: Seq<Binary64>, parts: Seq<u32>, i: int) -> int {
    if counts(marginals[i]) {
        least_part(marginals, parts, marginals[i], marginals.len() as int)
    } else {
        0
    }
}

/// What the first `n` contributors may claim together.
pub open spec fn fair_total(marginals: Seq<Binary64>, parts: Seq<u32>, n: int) -> int
    decreases n,
{
    if n <= 0 {
        0
    } else {
        fair_total(marginals, parts, n - 1) + fair_part(marginals, parts, n - 1)
    }
}

/// The share of contributor `i`: what they may claim, cut down in proportion where the
/// claims together exceed the whole.
pub open spec fn share_of(marginals: Seq<Binary64>, parts: Seq<u32>, i: int) -> int {
    let total = fair_total(marginals, parts, marginals.len() as int);
    if total <= BPS_DENOM {
        fair_part(marginals, parts, i)
    } else {
        fair_part(marginals, parts, i) * BPS_DENOM / total
    }
}

/// The sum of the parts of those of the first `n` whose effects count.
pub open spec fn counted_total(marginals: Seq<Binary64>, parts: Seq<u32>, n: int) -> int
    decreases n,
{
    if n <= 0 {
        0
    } else {
        counted_total(marginals, parts, n - 1) + (if counts(marginals[n - 1]) {
            parts[n - 1] as int
        } else {
            0
        })
    }
}

/// The parts are fit to be shares: they grow with the effects that count, and together
/// they do not exceed the whole.
pub open spec fn proportioned(marginals: Seq<Binary64>, parts: Seq<u32>) -> bool {
    &&& forall|i: int, j: int|
        0 <= i < marginals.len() && 0 <= j < marginals.len() && counts(#[trigger] marginals[i])
            && counts(#[trigger] marginals[j]) && marginals[i].key() <= marginals[j].key()
            ==> parts[i] <= parts[j]
    &&& counted_total(marginals, parts, marginals.len() as int) <= BPS_DENOM
}

proof fn lemma_least_part_bounds(
    marginals: Seq<Binary64>,
    parts: Seq<u32>,
    marginal: Binary64,
    n: int,
)
    ensures
        0 <= least_part(marginals, parts, marginal, n) <= BPS_DENOM,
    decreases n,
{
    if n > 0 {
        lemma_least_part_bounds(marginals, parts, marginal, n - 1);
    }
}

proof fn lemma_least_part_grows(
    marginals: Seq<Binary64>,
    parts: Seq<u32>,
    low: Binary64,
    high: Binary64,
    n: int,
)
    requires
        low.key() <= high.key(),
    ensures
        least_part(marginals, parts, low, n) <= least_part(marginals, parts, high, n),
    decreases n,
{
    if n > 0 {
        lemma_least_part_grows(marginals, parts, low, high, n - 1);
    }
}

proof fn lemma_fair_part_bounds(marginals: Seq<Binary64>, parts: Seq<u32>, i: int)
    ensures
        0 <= fair_part(marginals, parts, i) <= BPS_DENOM,
{
    lemma_least_part_bounds(marginals, parts, marginals[i], marginals.len() as int);
}

proof fn lemma_fair_total_bounds(marginals: Seq<Binary64>, parts: Seq<u32>, n: int)
    requires
        0 <= n,
    ensures
        0 <= fair_total(marginals, parts, n) <= n * BPS_DENOM,
    decreases n,
{
    if n > 0 {
        lemma_fair_total_bounds(marginals, parts, n - 1);
        lemma_fair_part_bounds(marginals, parts, n - 1);
    }
}

proof fn lemma_share_bounds(marginals: Seq<Binary64>, parts: Seq<u32>, i: int)
    ensures
        0 <= share_of(marginals, parts, i) <= fair_part(marginals, parts, i),
{
    let total = fair_total(marginals, parts, marginals.len() as int);
    let part = fair_part(marginals, parts, i);
    lemma_fair_part_bounds(marginals, parts, i);
    if total > BPS_DENOM {
        assert(0 <= part * BPS_DENOM / total <= part) by (nonlinear_arith)
            requires
                0 <= part,
                total > BPS_DENOM,
        ;
    }
}

/// More effect, no less share: of two finite effects the greater never earns less.
pub proof fn shares_grow_with_the_effect(
    marginals: Seq<Binary64>,
    parts: Seq<u32>,
    i: int,
    j: int,
)
    requires
        marginals[j].finite(),
        marginals[i].le_spec(marginals[j]),
    ensures
        share_of(marginals, parts, i) <= share_of(marginals, parts, j),
{
    lemma_fair_part_bounds(marginals, parts, i);
    lemma_fair_part_bounds(marginals, parts, j);
    lemma_share_bounds(marginals, parts, j);
    let (low, high) = (fair_part(marginals, parts, i), fair_part(marginals, parts, j));
    if counts(marginals[i]) {
        lemma_least_part_grows(
            marginals,
            parts,
            marginals[i],
            marginals[j],
            marginals.len() as int,
        );
    }
    let total = fair_total(marginals, parts, marginals.len() as int);
    if total > BPS_DENOM {
        assert(low * BPS_DENOM / total <= high * BPS_DENOM / total) by (nonlinear_arith)
            requires
                low <= high,
                total > 0,
        ;
    }
}

proof fn lemma_least_part_is_the_part(
    marginals: Seq<Binary64>,
    parts: Seq<u32>,
    i: int,
    n: int,
)
    requires
        proportioned(marginals, parts),
        0 <= i < marginals.len(),
        counts(marginals[i]),
        parts[i] <= BPS_DENOM,
        n <= marginals.len(),
    ensures
        least_part(marginals, parts, marginals[i], n) >= parts[i],
        n > i ==> least_part(marginals, parts, marginals[i], n) == parts[i],
    decreases n,
{
    if n > 0 {
        lemma_least_part_is_the_part(marginals, parts, i, n - 1);
    }
}

proof fn lemma_counted_covers(marginals: Seq<Binary64>, parts: Seq<u32>, i: int, n: int)
    requires
        0 <= i < n,
        counts(marginals[i]),
    ensures
        counted_total(marginals, parts, n) >= parts[i],
    decreases n,
{
    if i < n - 1 {
        lemma_counted_covers(marginals, parts, i, n - 1);
    } else {
        lemma_counted_is_nothing_less(marginals, parts, n - 1);
    }
}

proof fn lemma_counted_is_nothing_less(marginals: Seq<Binary64>, parts: Seq<u32>, n: int)
    ensures
        counted_total(marginals, parts, n) >= 0,
    decreases n,
{
    if n > 0 {
        lemma_counted_is_nothing_less(marginals, parts, n - 1);
    }
}

proof fn lemma_fair_is_counted(marginals: Seq<Binary64>, parts: Seq<u32>, n: int)
    requires
        proportioned(marginals, parts),
        n <= marginals.len(),
    ensures
        fair_total(marginals, parts, n) == counted_total(marginals, parts, n),
    decreases n,
{
    if n > 0 {
        lemma_fair_is_counted(marginals, parts, n - 1);
        if counts(marginals[n - 1]) {
            lemma_counted_covers(marginals, parts, n - 1, marginals.len() as int);
            lemma_least_part_is_the_part(marginals, parts, n - 1, marginals.len() as int);
        }
    }
}

/// Parts that are fit to be shares are the shares.
pub proof fn fitting_parts_are_the_shares(marginals: Seq<Binary64>, parts: Seq<u32>, i: int)
    requires
        proportioned(marginals, parts),
        0 <= i < marginals.len(),
    ensures
        share_of(marginals, parts, i) == (if counts(marginals[i]) {
            parts[i] as int
        } else {
            0
        }),
{
    lemma_fair_is_counted(marginals, parts, marginals.len() as int);
    if counts(marginals[i]) {
        lemma_counted_covers(marginals, parts, i, marginals.len() as int);
        lemma_least_part_is_the_part(marginals, parts, i, marginals.len() as int);
    }
}

/// The shares of the first `n` contributors together.
pub open spec fn share_total(marginals: Seq<Binary64>, parts: Seq<u32>, n: int) -> int
    decreases n,
{
    if n <= 0 {
        0
    } else {
        share_total(marginals, parts, n - 1) + share_of(marginals, parts, n - 1)
    }
}

proof fn lemma_share_total_scaled(marginals: Seq<Binary64>, parts: Seq<u32>, n: int)
    requires
        0 <= n,
    ensures
        ({
            let total = fair_total(marginals, parts, marginals.len() as int);
            &&& total <= BPS_DENOM ==> share_total(marginals, parts, n) == fair_total(
                marginals,
                parts,
                n,
            )
            &&& total > BPS_DENOM ==> share_total(marginals, parts, n) * total <= fair_total(
                marginals,
                parts,
                n,
            ) * BPS_DENOM
        }),
    decreases n,
{
    let total = fair_total(marginals, parts, marginals.len() as int);
    if n > 0 {
        lemma_share_total_scaled(marginals, parts, n - 1);
        if total > BPS_DENOM {
            let part = fair_part(marginals, parts, n - 1);
            let share = share_of(marginals, parts, n - 1);
            let (before, fair) = (
                share_total(marginals, parts, n - 1),
                fair_total(marginals, parts, n - 1),
            );
            assert(share * total <= part * BPS_DENOM) by (nonlinear_arith)
                requires
                    share == part * BPS_DENOM / total,
                    total > 0,
            ;
            assert((before + share) * total == before * total + share * total)
                by (nonlinear_arith);
        }
    } else {
        assert(0 * total == 0);
    }
}

/// The shares never exceed the whole, whatever parts were handed in.
pub proof fn shares_never_exceed_the_whole(marginals: Seq<Binary64>, parts: Seq<u32>)
    ensures
        share_total(marginals, parts, marginals.len() as int) <= BPS_DENOM,
{
    let n = marginals.len() as int;
    let (total, sum) = (fair_total(marginals, parts, n), share_total(marginals, parts, n));
    lemma_share_total_scaled(marginals, parts, n);
    if total > BPS_DENOM && sum > BPS_DENOM {
        assert(sum * total > total * BPS_DENOM) by (nonlinear_arith)
            requires
                sum > BPS_DENOM,
                total > 0,
        ;
    }
}

fn claim(marginals: &[(String, Binary64)], parts: &[u32], i: usize) -> (r: u32)
    requires
        parts@.len() == marginals@.len(),
        i < marginals@.len(),
    ensures
        r == fair_part(effects(marginals@), parts@, i as int),
{
    let marginal = marginals[i].1;
    if !marginal.is_finite() || !marginal.is_positive() {
        return 0;
    }
    let ghost all = effects(marginals@);
    let mut least: u32 = BPS_DENOM;
    for j in 0..marginals.len()
        invariant
            all == effects(marginals@),
            parts@.len() == marginals@.len(),
            least == least_part(all, parts@, marginal, j as int),
    {
        let other = marginals[j].1;
        proof {
            assert(all[j as int] == other);
        }
        if other.is_finite() && other.is_positive() && other.key_at_least(marginal) {
            if parts[j] < least {
                least = parts[j];
            }
        }
    }
    least
}

/// Turns marginal effects into basis-point shares. `proportional_bps` holds, for each
/// contributor, their part of the sum of the positive effects, in whole basis points.
/// Whoever moved nothing gets exactly nothing, whoever moved more gets no less, and
/// together the shares do not exceed the whole, whatever parts are handed in; parts that
/// keep to this are the shares.
pub fn attribute_shares(marginals: &[(String, Binary64)], proportional_bps: &[u32]) -> (shares: Vec<
    (String, u32),
>)
    requires
        proportional_bps@.len() == marginals@.len(),
    ensures
        shares@.len() == marginals@.len(),
        forall|i: int|
            0 <= i < shares@.len() ==> {
                &&& (#[trigger] shares@[i]).0@ == marginals@[i].0@
                &&& shares@[i].1 == share_of(effects(marginals@), proportional_bps@, i)
                &&& !counts(marginals@[i].1) ==> shares@[i].1 == 0
                &&& proportioned(effects(marginals@), proportional_bps@) && counts(
                    marginals@[i].1,
                ) ==> shares@[i].1 == proportional_bps@[i]
            },
        forall|i: int, j: int|
            0 <= i < shares@.len() && 0 <= j < shares@.len() && marginals@[j].1.finite()
                && marginals@[i].1.le_spec(marginals@[j].1) ==> (#[trigger] shares@[i]).1 <= (
            #[trigger] shares@[j]).1,
        weights_total(share_weights(shares@)) <= BPS_DENOM,
{
    let ghost all = effects(marginals@);
    let ghost parts = proportional_bps@;
    let mut claims: Vec<u32> = Vec::new();
    let mut total: u128 = 0;
    for i in 0..marginals.len()
        invariant
            all == effects(marginals@),
            parts == proportional_bps@,
            parts.len() == marginals@.len(),
            claims@.len() == i,
            forall|j: int| 0 <= j < i ==> (#[trigger] claims@[j]) == fair_part(all, parts, j),
            total == fair_total(all, parts, i as int),
    {
        let part: u32 = claim(marginals, proportional_bps, i);
        proof {
            lemma_fair_total_bounds(all, parts, i as int);
            lemma_fair_part_bounds(all, parts, i as int);
        }
        total = total + part as u128;
        claims.push(part);
    }
    let mut shares: Vec<(String, u32)> = Vec::new();
    proof {
        assert(share_weights(shares@) =~= Seq::empty());
    }
    for i in 0..marginals.len()
        invariant
            all == effects(marginals@),
            parts == proportional_bps@,
            parts.len() == marginals@.len(),
            claims@.len() == marginals@.len(),
            forall|j: int|
                0 <= j < claims@.len() ==> (#[trigger] claims@[j]) == fair_part(all, parts, j),
            total == fair_total(all, parts, marginals@.len() as int),
            shares@.len() == i,
            forall|j: int|
                0 <= j < i ==> {
                    &&& (#[trigger] shares@[j]).0@ == marginals@[j].0@
                    &&& shares@[j].1 == share_of(all, parts, j)
                },
            weights_total(share_weights(shares@)) == share_total(all, parts, i as int),
    {
        proof {
            lemma_fair_part_bounds(all, parts, i as int);
            lemma_share_bounds(all, parts, i as int);
        }
        let part: u32 = claims[i];
        let share: u32 = if total <= BPS_DENOM as u128 {
            part
        } else {
            (part as u128 * BPS_DENOM as u128 / total) as u32
        };
        let ghost before = shares@;
        shares.push((marginals[i].0.clone(), share));
        proof {
            assert(share_weights(shares@).drop_last() =~= share_weights(before));
            assert(share_weights(shares@).last() == share);
        }
    }
    proof {
        shares_never_exceed_the_whole(all, parts);
        assert forall|i: int| #![trigger shares@[i]] 0 <= i < shares@.len() implies {
            &&& !counts(marginals@[i].1) ==> shares@[i].1 == 0
            &&& proportioned(all, parts) && counts(marginals@[i].1) ==> shares@[i].1 == parts[i]
        } by {
            lemma_share_bounds(all, parts, i);
            assert(all[i] == marginals@[i].1);
            if proportioned(all, parts) {
                fitting_parts_are_the_shares(all, parts, i);
            }
        }
        assert forall|i: int, j: int|
            0 <= i < shares@.len() && 0 <= j < shares@.len() && marginals@[j].1.finite()
                && marginals@[i].1.le_spec(marginals@[j].1) implies (#[trigger] shares@[i]).1 <= (
        #[trigger] shares@[j]).1 by {
            assert(all[i] == marginals@[i].1 && all[j] == marginals@[j].1);
            shares_grow_with_the_effect(all, parts, i, j);
        }
    }
    shares
}

/// The names of a list of shares.
pub open spec fn share_names(shares: Seq<(String, u32)>) -> Seq<Seq<char>> {
    shares.map_values(|s: (String, u32)| s.0@)
}

/// The weights of a list of shares.
pub open spec fn share_weights(shares: Seq<(String, u32)>) -> Seq<u32> {
    shares.map_values(|s: (String, u32)| s.1)
}

/// Settles basis-point shares: each is rounded down, none is paid that the pool does
/// not hold, and a share of nothing is left out.
pub fn settle_shares(pool_wei: u128, shares: &[(String, u32)]) -> (payouts: Vec<Payout>)
    ensures
        payout_views(payouts@) == snapshot_payouts(
            pool_wei,
            share_names(shares@),
            share_weights(shares@),
        ),
        paid_total(payout_views(payouts@)) <= pool_wei,
{
    let mut ids: Vec<String> = Vec::new();
    let mut weights: Vec<u32> = Vec::new();
    for i in 0..shares.len()
        invariant
            ids@.len() == i,
            weights@.len() == i,
            forall|j: int| 0 <= j < i ==> (#[trigger] ids@[j])@ == shares@[j].0@,
            forall|j: int| 0 <= j < i ==> (#[trigger] weights@[j]) == shares@[j].1,
    {
        ids.push(shares[i].0.clone());
        weights.push(shares[i].1);
    }
    proof {
        assert(texts(ids@) =~= share_names(shares@));
        assert(weights@ =~= share_weights(shares@));
    }
    settle_snapshot_topk(pool_wei, ids.as_slice(), weights.as_slice())
}

// --- The run -----------------------------------------------------------------

/// Why a competitive configuration is rejected.
pub const NOT_COLLABORATIVE: &'static str = "run_collaborative requires Structure::Collaborative";

/// Why a collaborative competition may not run, if it may not.
pub open spec fn collaborative_setup_fault(cfg: CompetitionConfig) -> Option<FaultView> {
    if !cfg.knobs.coherent() {
        Some(FaultView::IncoherentKnobs(COLLABORATIVE_IS_ONE_SHOT@))
    } else if cfg.knobs.structure != Structure::Collaborative {
        Some(FaultView::IncoherentKnobs(NOT_COLLABORATIVE@))
    } else {
        match cfg.reward.fault() {
            Some(e) => Some(FaultView::InvalidReward(e)),
            None => None,
        }
    }
}

/// Checks, before any work, that a collaborative competition may run.
pub fn check_collaborative_setup(cfg: &CompetitionConfig) -> (r: Result<(), ProtocolError>)
    requires
        cfg.reward.countable(),
    ensures
        match r {
            Ok(()) => collaborative_setup_fault(*cfg) is None,
            Err(e) => collaborative_setup_fault(*cfg) == Some(e@),
        },
{
    match cfg.knobs.validate() {
        Ok(()) => {},
        Err(why) => {
            return Err(ProtocolError::IncoherentKnobs(why));
        },
    }
    if cfg.knobs.structure != Structure::Collaborative {
        return Err(ProtocolError::IncoherentKnobs(NOT_COLLABORATIVE));
    }
    match cfg.reward.validate() {
        Ok(()) => Ok(()),
        Err(e) => Err(ProtocolError::InvalidReward(e)),
    }
}

/// What came of the outside work of a collaborative run.
#[derive(Debug)]
pub struct CollaborativeTrace {
    /// Referring to the baseline and scoring it.
    pub opening: Opening,
    /// The lift of the baseline over itself.
    pub baseline_lift: Lift,
    /// The folds in canonical order, up to the first that failed.
    pub steps: Vec<FoldStep>,
    /// The scoring of the final shared artifact.
    pub final_score: Result<Measurement, ScorerError>,
    /// Each contributor's part of the sum of the positive marginal effects, in whole
    /// basis points, in canonical order.
    pub proportional_bps: Vec<u32>,
}

impl CollaborativeTrace {
    /// The outside work was carried as far as it had to be: unless something failed
    /// before, every contribution was tried.
    pub open spec fn covers(self, cfg: CompetitionConfig, contributors: Seq<Contribution>) -> bool {
        &&& self.steps@.len() <= contributors.len()
        &&& self.proportional_bps@.len() == contributors.len()
        &&& {
            ||| collaborative_setup_fault(cfg) is Some
            ||| self.opening.fault() is Some
            ||| fold_fault(ranking(contributors), self.steps@) is Some
            ||| self.steps@.len() == contributors.len()
        }
    }
}

/// Why a collaborative run fails, if it does.
pub open spec fn collaborative_fault(
    cfg: CompetitionConfig,
    contributors: Seq<Contribution>,
    trace: CollaborativeTrace,
) -> Option<FaultView> {
    if collaborative_setup_fault(cfg) is Some {
        collaborative_setup_fault(cfg)
    } else if trace.opening.fault() is Some {
        trace.opening.fault()
    } else if fold_fault(ranking(contributors), trace.steps@) is Some {
        fold_fault(ranking(contributors), trace.steps@)
    } else {
        match trace.final_score {
            Err(e) => Some(FaultView::Scorer(e)),
            Ok(_) => None,
        }
    }
}

/// What came of the deltas that were folded in, in canonical order.
pub open spec fn credits(steps: Seq<FoldStep>) -> Seq<Binary64> {
    Seq::new(steps.len(), |k: int| credit(steps, k))
}

/// The shares are listed as the caller lists the contributions, and each contribution
/// has the share of its place in the canonical order, or, unless the promotion gate was
/// cleared, nothing.
pub open spec fn shares_match(
    shares: Seq<(String, u32)>,
    contributors: Seq<Contribution>,
    order: Seq<usize>,
    steps: Seq<FoldStep>,
    parts: Seq<u32>,
    cleared: bool,
) -> bool {
    &&& shares.len() == contributors.len()
    &&& forall|i: int|
        0 <= i < shares.len() ==> (#[trigger] shares[i]).0@ == contributors[i].contributor@
    &&& forall|k: int|
        0 <= k < order.len() ==> shares[#[trigger] order[k] as int].1 == (if cleared {
            share_of(credits(steps), parts, k)
        } else {
            0
        })
}

/// The outcome of a collaborative run that did not fail.
pub open spec fn collaborates(
    cfg: CompetitionConfig,
    contributors: Seq<Contribution>,
    trace: CollaborativeTrace,
    outcome: CollaborativeOutcome,
) -> bool {
    let lift = shared_lift(trace.baseline_lift, trace.steps@);
    let cleared = cfg.gate.cleared_by(lift, trace.final_score->Ok_0);
    &&& outcome.final_artifact_lift == lift
    &&& outcome.accepted == accepted_count(trace.steps@)
    &&& exists|order: Seq<usize>|
        {
            &&& #[trigger] permutes(order, contributors.len())
            &&& picked(contributors, order) == ranking(contributors)
            &&& shares_match(
                outcome.shares@,
                contributors,
                order,
                trace.steps@,
                trace.proportional_bps@,
                cleared,
            )
        }
    &&& payout_views(outcome.payouts@) == (if cleared {
        snapshot_payouts(
            cfg.reward_pool_wei,
            share_names(outcome.shares@),
            share_weights(outcome.shares@),
        )
    } else {
        Seq::empty()
    })
}

proof fn lemma_weights_update(w: Seq<u32>, i: int, v: u32)
    requires
        0 <= i < w.len(),
    ensures
        weights_total(w.update(i, v)) == weights_total(w) - w[i] + v,
    decreases w.len(),
{
    let front = w.drop_last();
    if i < w.len() - 1 {
        lemma_weights_update(front, i, v);
        assert(w.update(i, v).drop_last() =~= front.update(i, v));
    } else {
        assert(w.update(i, v).drop_last() =~= front);
    }
}

fn nothing_for(contributors: &[Contribution]) -> (shares: Vec<(String, u32)>)
    ensures
        shares@.len() == contributors@.len(),
        forall|i: int|
            0 <= i < shares@.len() ==> (#[trigger] shares@[i]).0@ == contributors@[i].contributor@
                && shares@[i].1 == 0,
        weights_total(share_weights(shares@)) == 0,
{
    let mut shares: Vec<(String, u32)> = Vec::new();
    proof {
        assert(share_weights(shares@) =~= Seq::empty());
    }
    for i in 0..contributors.len()
        invariant
            shares@.len() == i,
            forall|j: int|
                0 <= j < i ==> (#[trigger] shares@[j]).0@ == contributors@[j].contributor@
                    && shares@[j].1 == 0,
            weights_total(share_weights(shares@)) == 0,
    {
        let ghost before = shares@;
        shares.push((contributors[i].contributor.clone(), 0));
        proof {
            assert(share_weights(shares@).drop_last() =~= share_weights(before));
        }
    }
    shares
}

fn in_caller_order(
    contributors: &[Contribution],
    order: &Vec<usize>,
    folded: &Vec<(String, u32)>,
) -> (shares: Vec<(String, u32)>)
    requires
        permutes(order@, contributors@.len()),
        folded@.len() == contributors@.len(),
    ensures
        shares@.len() == contributors@.len(),
        forall|i: int|
            0 <= i < shares@.len() ==> (#[trigger] shares@[i]).0@ == contributors@[i].contributor@,
        forall|k: int|
            0 <= k < order@.len() ==> shares@[#[trigger] order@[k] as int].1 == folded@[k].1,
        weights_total(share_weights(shares@)) == weights_total(share_weights(folded@)),
{
    let mut shares = nothing_for(contributors);
    let ghost weights = share_weights(folded@);
    proof {
        assert(weights.take(0) =~= Seq::empty());
    }
    for k in 0..order.len()
        invariant
            permutes(order@, contributors@.len()),
            folded@.len() == contributors@.len(),
            weights == share_weights(folded@),
            shares@.len() == contributors@.len(),
            forall|i: int|
                0 <= i < shares@.len() ==> (#[trigger] shares@[i]).0@
                    == contributors@[i].contributor@,
            forall|j: int|
                0 <= j < k ==> shares@[#[trigger] order@[j] as int].1 == folded@[j].1,
            forall|j: int|
                k <= j < order@.len() ==> shares@[#[trigger] order@[j] as int].1 == 0,
            weights_total(share_weights(shares@)) == weights_total(weights.take(k as int)),
    {
        let index: usize = order[k];
        let share: u32 = folded[k].1;
        let ghost before = shares@;
        proof {
            assert(before[order@[k as int] as int].1 == 0);
            lemma_weights_update(share_weights(before), index as int, share);
            assert(weights.take(k + 1).drop_last() =~= weights.take(k as int));
            assert(weights.take(k + 1).last() == share);
        }
        shares.set(index, (contributors[index].contributor.clone(), share));
        proof {
            assert(share_weights(shares@) =~= share_weights(before).update(index as int, share));
            assert forall|j: int| 0 <= j < k + 1 implies shares@[#[trigger] order@[j] as int].1
                == folded@[j].1 by {
                if j < k {
                    assert(order@[j] != order@[k as int]);
                    assert(before[order@[j] as int].1 == folded@[j].1);
                }
            }
            assert forall|j: int| k + 1 <= j < order@.len() implies shares@[
            #[trigger] order@[j] as int].1 == 0 by {
                assert(order@[j] != order@[k as int]);
                assert(before[order@[j] as int].1 == 0);
            }
        }
    }
    proof {
        assert(weights.take(weights.len() as int) =~= weights);
    }
    shares
}

/// Decides a collaborative competition from what came of the outside work. Unless the
/// final shared artifact clears the promotion gate, nobody has a share and nobody is
/// paid.
pub fn run_collaborative(
    cfg: &CompetitionConfig,
    contributors: &[Contribution],
    trace: &CollaborativeTrace,
) -> (r: Result<CollaborativeOutcome, ProtocolError>)
    requires
        cfg.reward.countable(),
        trace.covers(*cfg, contributors@),
    ensures
        match r {
            Ok(outcome) => {
                &&& collaborative_fault(*cfg, contributors@, *trace) is None
                &&& collaborates(*cfg, contributors@, *trace, outcome)
                &&& outcome.shares@.len() == contributors@.len()
                &&& !cfg.gate.cleared_by(outcome.final_artifact_lift, trace.final_score->Ok_0) ==> {
                    &&& outcome.payouts@.len() == 0
                    &&& forall|i: int|
                        0 <= i < outcome.shares@.len() ==> (#[trigger] outcome.shares@[i]).1 == 0
                }
                &&& weights_total(share_weights(outcome.shares@)) <= BPS_DENOM
                &&& paid_total(payout_views(outcome.payouts@)) <= cfg.reward_pool_wei
            },
            Err(e) => collaborative_fault(*cfg, contributors@, *trace) == Some(e@),
        },
{
    match check_collaborative_setup(cfg) {
        Ok(()) => {},
        Err(e) => {
            return Err(e);
        },
    }
    match trace.opening.check() {
        Ok(()) => {},
        Err(e) => {
            return Err(e);
        },
    }
    let order = fold_order(contributors);
    let fold = match tally_folds(trace.baseline_lift, contributors, &order, &trace.steps) {
        Ok(f) => f,
        Err(e) => {
            return Err(e);
        },
    };
    let measurement = match &trace.final_score {
        Ok(m) => *m,
        Err(e) => {
            return Err(ProtocolError::Scorer(e.clone()));
        },
    };
    let cleared = cfg.gate.clears(&fold.lift, &measurement);
    let (shares, payouts) = if cleared {
        let mut credited: Vec<(String, Binary64)> = Vec::new();
        for k in 0..order.len()
            invariant
                permutes(order@, contributors@.len()),
                trace.steps@.len() == contributors@.len(),
                credits_match(fold.marginals@, contributors@, order@, trace.steps@),
                credited@.len() == k,
                forall|j: int|
                    0 <= j < k ==> (#[trigger] credited@[j]).1 == credit(trace.steps@, j),
        {
            let index: usize = order[k];
            proof {
                assert(fold.marginals@[order@[k as int] as int].1
                    == credit(trace.steps@, k as int));
            }
            credited.push((contributors[index].contributor.clone(), fold.marginals[index].1));
        }
        proof {
            assert(effects(credited@) =~= credits(trace.steps@));
        }
        let folded = attribute_shares(credited.as_slice(), trace.proportional_bps.as_slice());
        let shares = in_caller_order(contributors, &order, &folded);
        let payouts = settle_shares(cfg.reward_pool_wei, shares.as_slice());
        (shares, payouts)
    } else {
        (nothing_for(contributors), Vec::new())
    };
    proof {
        assert(shares_match(
            shares@,
            contributors@,
            order@,
            trace.steps@,
            trace.proportional_bps@,
            cleared,
        ));
        if !cleared {
            assert(payout_views(payouts@) =~= Seq::empty());
        }
    }
    Ok(
        CollaborativeOutcome {
            final_artifact_lift: fold.lift,
            shares,
            payouts,
            accepted: fold.accepted,
        },
    )
}

/// Credit ignores the caller's order: whoever lists the same contributions in another
/// order gets the same outcome. The deltas fold in the same order, so the outside work is
/// the same; the same failure is told, or the same lift and the same number of accepted
/// deltas, and each contribution has the same share at its place in the caller's list.
pub proof fn shares_ignore_caller_order(
    cfg: CompetitionConfig,
    a: Seq<Contribution>,
    b: Seq<Contribution>,
    trace: CollaborativeTrace,
    outcome_a: CollaborativeOutcome,
    outcome_b: CollaborativeOutcome,
)
    requires
        a.to_multiset() == b.to_multiset(),
        forall|p: int, q: int|
            0 <= p < a.len() && 0 <= q < a.len() && p != q ==> !(#[trigger] a[p]).same_key(
                #[trigger] a[q],
            ),
        collaborates(cfg, a, trace, outcome_a),
        collaborates(cfg, b, trace, outcome_b),
    ensures
        collaborative_fault(cfg, a, trace) == collaborative_fault(cfg, b, trace),
        trace.covers(cfg, a) == trace.covers(cfg, b),
        outcome_a.final_artifact_lift == outcome_b.final_artifact_lift,
        outcome_a.accepted == outcome_b.accepted,
        forall|i: int|
            0 <= i < a.len() ==> (#[trigger] outcome_a.shares@[i]).0@ == a[i].contributor@,
        forall|j: int|
            0 <= j < b.len() ==> (#[trigger] outcome_b.shares@[j]).0@ == b[j].contributor@,
        forall|i: int, j: int|
            0 <= i < a.len() && 0 <= j < b.len() && a[i] == b[j] ==> (
            #[trigger] outcome_a.shares@[i]).1 == (#[trigger] outcome_b.shares@[j]).1,
{
    broadcast use vstd::seq_lib::group_to_multiset_ensures;

    fold_order_ignores_caller_order(a, b);
    assert(a.len() == a.to_multiset().len() && b.len() == b.to_multiset().len());
    let lift = shared_lift(trace.baseline_lift, trace.steps@);
    let cleared = cfg.gate.cleared_by(lift, trace.final_score->Ok_0);
    let parts = trace.proportional_bps@;
    let order_a = choose|order: Seq<usize>|
        {
            &&& #[trigger] permutes(order, a.len())
            &&& picked(a, order) == ranking(a)
            &&& shares_match(
                outcome_a.shares@,
                a,
                order,
                trace.steps@,
                parts,
                cleared,
            )
        };
    let order_b = choose|order: Seq<usize>|
        {
            &&& #[trigger] permutes(order, b.len())
            &&& picked(b, order) == ranking(b)
            &&& shares_match(
                outcome_b.shares@,
                b,
                order,
                trace.steps@,
                parts,
                cleared,
            )
        };
    assert forall|i: int, j: int| 0 <= i < a.len() && 0 <= j < b.len() && a[i] == b[j] implies (
    #[trigger] outcome_a.shares@[i]).1 == (#[trigger] outcome_b.shares@[j]).1 by {
        let k = lemma_same_place(a, b, order_a, order_b, i, j);
        assert(outcome_a.shares@[order_a[k] as int].1 == outcome_b.shares@[order_b[k] as int].1);
    }
}

/// Free riders earn nothing: whoever is paid has a contribution that was kept and whose
/// effect was a positive number, and nobody is paid unless the promotion gate was cleared.
pub proof fn free_riders_earn_nothing(
    cfg: CompetitionConfig,
    contributors: Seq<Contribution>,
    trace: CollaborativeTrace,
    outcome: CollaborativeOutcome,
    p: int,
)
    requires
        trace.covers(cfg, contributors),
        collaborative_fault(cfg, contributors, trace) is None,
        collaborates(cfg, contributors, trace, outcome),
        0 <= p < payout_views(outcome.payouts@).len(),
    ensures
        cfg.gate.cleared_by(outcome.final_artifact_lift, trace.final_score->Ok_0),
        exists|k: int|
            0 <= k < trace.steps@.len() && (#[trigger] ranking(contributors)[k]).contributor@
                == payout_views(outcome.payouts@)[p].researcher && kept(trace.steps@, k) && counts(
                credit(trace.steps@, k),
            ),
{
    let parts = trace.proportional_bps@;
    let shares = outcome.shares@;
    let (names, weights) = (share_names(shares), share_weights(shares));
    snapshot_pays_only_the_weighted(cfg.reward_pool_wei, names, weights, p);
    let i = choose|i: int|
        0 <= i < names.len() && i < weights.len() && #[trigger] names[i] == snapshot_payouts(
            cfg.reward_pool_wei,
            names,
            weights,
        )[p].researcher && weights[i] > 0;
    let order = choose|order: Seq<usize>|
        {
            &&& #[trigger] permutes(order, contributors.len())
            &&& picked(contributors, order) == ranking(contributors)
            &&& shares_match(shares, contributors, order, trace.steps@, parts, true)
        };
    let k = lemma_place(order, contributors.len(), i);
    assert(shares[order[k] as int].1 > 0);
    lemma_share_bounds(credits(trace.steps@), parts, k);
    assert(credits(trace.steps@)[k] == credit(trace.steps@, k));
    assert(picked(contributors, order)[k] == contributors[i]);
    assert(ranking(contributors)[k].contributor@ == names[i]);
}

// --- What decides, in plain terms --------------------------------------------

/// A delta is kept exactly where its step succeeded and its lift is strictly above the
/// lift reached before it, whatever the bounds of that lift. A kept delta becomes the
/// shared lift, counts as accepted and is credited with its effect; any other leaves
/// everything as it was and is credited with nothing.
pub proof fn a_delta_is_kept_exactly_where_it_raises_the_lift(
    baseline_lift: Lift,
    steps: Seq<FoldStep>,
    k: int,
)
    requires
        0 <= k < steps.len(),
    ensures
        reached(steps.take(0)).bits == 0,
        accepted_count(steps.take(0)) == 0,
        shared_lift(baseline_lift, steps.take(0)) == baseline_lift,
        match steps[k].result {
            Ok((lift, effect)) => {
                let raises = !lift.delta.nan() && lift.delta.key() > reached(steps.take(k)).key();
                &&& kept(steps, k) <==> reached(steps.take(k)).lt_spec(lift.delta)
                &&& kept(steps, k) <==> raises
                &&& reached(steps.take(k + 1)) == (if raises {
                    lift.delta
                } else {
                    reached(steps.take(k))
                })
                &&& shared_lift(baseline_lift, steps.take(k + 1)) == (if raises {
                    lift
                } else {
                    shared_lift(baseline_lift, steps.take(k))
                })
                &&& accepted_count(steps.take(k + 1)) == accepted_count(steps.take(k)) + (
                if raises {
                    1int
                } else {
                    0
                })
                &&& credit(steps, k) == (if raises {
                    effect
                } else {
                    Binary64 { bits: 0 }
                })
            },
            Err(_) => {
                &&& !kept(steps, k)
                &&& reached(steps.take(k + 1)) == reached(steps.take(k))
                &&& shared_lift(baseline_lift, steps.take(k + 1)) == shared_lift(
                    baseline_lift,
                    steps.take(k),
                )
                &&& accepted_count(steps.take(k + 1)) == accepted_count(steps.take(k))
                &&& credit(steps, k).bits == 0
            },
        },
{
    assert(steps.take(k + 1).drop_last() =~= steps.take(k));
    assert(steps.take(k + 1).last() == steps[k]);
    lemma_reached_is_a_number(steps.take(k));
}

/// The lift reached is the highest that any delta came to, and never below that of the
/// baseline: no step that succeeded has a greater one, and it is zero or that of a step.
pub proof fn the_reached_lift_is_the_highest(steps: Seq<FoldStep>, k: int)
    ensures
        0 <= k < steps.len() && steps[k].result is Ok && !steps[k].result->Ok_0.0.delta.nan()
            ==> steps[k].result->Ok_0.0.delta.le_spec(reached(steps)),
        reached(steps).bits == 0 || exists|j: int|
            0 <= j < steps.len() && (#[trigger] steps[j]).result is Ok && reached(steps)
                == steps[j].result->Ok_0.0.delta,
    decreases steps.len(),
{
    lemma_reached_is_a_number(steps);
    if steps.len() > 0 {
        let front = steps.drop_last();
        the_reached_lift_is_the_highest(front, k);
        lemma_reached_is_a_number(front);
        let last = steps.len() - 1;
        assert(steps[last] == steps.last());
        if reached(steps) == reached(front) && reached(front).bits != 0 {
            let j = choose|j: int|
                0 <= j < front.len() && (#[trigger] front[j]).result is Ok && reached(front)
                    == front[j].result->Ok_0.0.delta;
            assert(steps[j].result is Ok);
        }
    }
}

/// A fold fails exactly where one of its steps did, and the first that did is told, the
/// engine's failure with the name of its contributor.
pub proof fn the_first_failed_fold_is_told(ordered: Seq<Contribution>, steps: Seq<FoldStep>)
    requires
        steps.len() <= ordered.len(),
    ensures
        fold_fault(ordered, steps) is None <==> forall|k: int|
            0 <= k < steps.len() ==> (#[trigger] steps[k]).result is Ok,
        fold_fault(ordered, steps) matches Some(f) ==> exists|k: int|
            {
                &&& 0 <= k < steps.len()
                &&& (#[trigger] steps[k]).result is Err
                &&& forall|j: int| 0 <= j < k ==> (#[trigger] steps[j]).result is Ok
                &&& f == (match steps[k].result->Err_0 {
                    RunFailure::Engine(source) => FaultView::Engine {
                        researcher: ordered[k].contributor@,
                        source,
                    },
                    RunFailure::Surface(e) => FaultView::Surface(e),
                    RunFailure::Scorer(e) => FaultView::Scorer(e),
                })
            },
    decreases steps.len(),
{
    if steps.len() > 0 {
        let front = steps.drop_last();
        let last = steps.len() - 1;
        the_first_failed_fold_is_told(ordered, front);
        assert(steps[last] == steps.last());
        assert forall|i: int| 0 <= i < front.len() implies #[trigger] front[i] == steps[i] by {}
        if fold_fault(ordered, front) is Some {
            let k = choose|k: int|
                {
                    &&& 0 <= k < front.len()
                    &&& (#[trigger] front[k]).result is Err
                    &&& forall|j: int| 0 <= j < k ==> (#[trigger] front[j]).result is Ok
                    &&& fold_fault(ordered, front)->0 == (match front[k].result->Err_0 {
                        RunFailure::Engine(source) => FaultView::Engine {
                            researcher: ordered[k].contributor@,
                            source,
                        },
                        RunFailure::Surface(e) => FaultView::Surface(e),
                        RunFailure::Scorer(e) => FaultView::Scorer(e),
                    })
                };
            assert(steps[k].result is Err);
            assert forall|j: int| 0 <= j < k implies (#[trigger] steps[j]).result is Ok by {
                assert(front[j].result is Ok);
            }
        } else {
            assert forall|j: int| 0 <= j < last implies (#[trigger] steps[j]).result is Ok by {
                assert(front[j].result is Ok);
            }
        }
    }
}

/// Deltas fold by the hash of their reference, from low to high; equal hashes by the
/// reference, and equal references by the contributor.
pub proof fn folds_go_by_hash_then_reference_then_name(
    contributors: Seq<Contribution>,
    i: int,
    j: int,
)
    requires
        0 <= i < j < contributors.len(),
    ensures
        ({
            let (a, b) = (ranking(contributors)[i], ranking(contributors)[j]);
            let (x, y) = (
                fnv1a(encode_utf8(a.delta_ref@)),
                fnv1a(encode_utf8(b.delta_ref@)),
            );
            &&& x <= y
            &&& x == y ==> text_le(a.delta_ref@, b.delta_ref@)
            &&& a.delta_ref@ == b.delta_ref@ ==> text_le(a.contributor@, b.contributor@)
        }),
        ranking(contributors).to_multiset() == contributors.to_multiset(),
{
    ranking_orders_and_keeps(contributors);
    let (a, b) = (ranking(contributors)[i], ranking(contributors)[j]);
    assert(a.ahead(b));
    lemma_bytes_le_total(encode_utf8(a.delta_ref@), encode_utf8(b.delta_ref@));
    lemma_bytes_le_total(encode_utf8(a.delta_ref@), encode_utf8(a.delta_ref@));
}

proof fn lemma_counted_within(marginals: Seq<Binary64>, parts: Seq<u32>, n: int)
    requires
        0 <= n <= parts.len(),
    ensures
        counted_total(marginals, parts, n) <= weights_total(parts.take(n)),
    decreases n,
{
    if n > 0 {
        lemma_counted_within(marginals, parts, n - 1);
        assert(parts.take(n).drop_last() =~= parts.take(n - 1));
    }
}

/// Shares that were worked out in proportion are paid as they are: where the parts
/// together are no more than the whole and greater effects have no smaller parts,
/// whoever moved the lift by a positive number has exactly their part, and whoever did
/// not has nothing.
pub proof fn parts_in_proportion_are_the_shares(
    marginals: Seq<Binary64>,
    parts: Seq<u32>,
    i: int,
)
    requires
        parts.len() == marginals.len(),
        0 <= i < marginals.len(),
        weights_total(parts) <= 10_000,
        forall|a: int, b: int|
            0 <= a < marginals.len() && 0 <= b < marginals.len() && (
            #[trigger] marginals[a]).finite() && marginals[a].positive() && (
            #[trigger] marginals[b]).finite() && marginals[b].positive() && marginals[a].le_spec(
                marginals[b],
            ) ==> parts[a] <= parts[b],
    ensures
        marginals[i].finite() && marginals[i].positive() ==> share_of(marginals, parts, i)
            == parts[i],
        !(marginals[i].finite() && marginals[i].positive()) ==> share_of(marginals, parts, i) == 0,
{
    let n = marginals.len() as int;
    lemma_counted_within(marginals, parts, n);
    assert(parts.take(n) =~= parts);
    assert(proportioned(marginals, parts)) by {
        assert forall|a: int, b: int|
            0 <= a < marginals.len() && 0 <= b < marginals.len() && counts(
                #[trigger] marginals[a],
            ) && counts(#[trigger] marginals[b]) && marginals[a].key()
                <= marginals[b].key() implies parts[a] <= parts[b] by {
            assert(marginals[a].le_spec(marginals[b]));
        }
    }
    fitting_parts_are_the_shares(marginals, parts, i);
}

/// A collaborative competition may run exactly where it is collaborative, settles once
/// and has a reward schedule that conserves the pool.
pub proof fn only_one_shot_collaborations_run(cfg: CompetitionConfig)
    ensures
        collaborative_setup_fault(cfg) is None <==> cfg.knobs.structure is Collaborative
            && cfg.knobs.cadence is OneShot && cfg.reward.fault() is None,
        cfg.knobs.structure is Collaborative && cfg.knobs.cadence is OneShot
            && cfg.reward.fault() is Some ==> collaborative_setup_fault(cfg) == Some(
            FaultView::InvalidReward(cfg.reward.fault()->0),
        ),
        !(cfg.knobs.structure is Collaborative && cfg.knobs.cadence is OneShot)
            ==> collaborative_setup_fault(cfg) is Some && collaborative_setup_fault(
            cfg,
        )->0 is IncoherentKnobs,
{
}

/// What a run that did not fail comes to: the shared artifact has the highest lift that
/// any delta came to; without a cleared promotion gate nobody has a share and nothing is
/// paid; and with one, each contribution has the share of its own effect.
pub proof fn an_outcome_pays_for_what_was_moved(
    cfg: CompetitionConfig,
    contributors: Seq<Contribution>,
    trace: CollaborativeTrace,
    outcome: CollaborativeOutcome,
    i: int,
)
    requires
        trace.covers(cfg, contributors),
        collaborative_fault(cfg, contributors, trace) is None,
        collaborates(cfg, contributors, trace, outcome),
        0 <= i < contributors.len(),
    ensures
        outcome.final_artifact_lift == shared_lift(trace.baseline_lift, trace.steps@),
        outcome.accepted == accepted_count(trace.steps@),
        outcome.shares@.len() == contributors.len(),
        outcome.shares@[i].0@ == contributors[i].contributor@,
        ({
            let cleared = cfg.gate.cleared_by(
                outcome.final_artifact_lift,
                trace.final_score->Ok_0,
            );
            &&& !cleared ==> outcome.shares@[i].1 == 0 && outcome.payouts@.len() == 0
            &&& cleared ==> exists|k: int|
                {
                    &&& 0 <= k < trace.steps@.len()
                    &&& #[trigger] ranking(contributors)[k] == contributors[i]
                    &&& outcome.shares@[i].1 == share_of(
                        Seq::new(trace.steps@.len(), |s: int| credit(trace.steps@, s)),
                        trace.proportional_bps@,
                        k,
                    )
                }
            &&& cleared ==> payout_views(outcome.payouts@) == snapshot_payouts(
                cfg.reward_pool_wei,
                outcome.shares@.map_values(|s: (String, u32)| s.0@),
                outcome.shares@.map_values(|s: (String, u32)| s.1),
            )
        }),
{
    let lift = shared_lift(trace.baseline_lift, trace.steps@);
    let cleared = cfg.gate.cleared_by(lift, trace.final_score->Ok_0);
    let order = choose|order: Seq<usize>|
        {
            &&& #[trigger] permutes(order, contributors.len())
            &&& picked(contributors, order) == ranking(contributors)
            &&& shares_match(
                outcome.shares@,
                contributors,
                order,
                trace.steps@,
                trace.proportional_bps@,
                cleared,
            )
        };
    let k = lemma_place(order, contributors.len(), i);
    assert(outcome.shares@[order[k] as int].1 == (if cleared {
        share_of(credits(trace.steps@), trace.proportional_bps@, k)
    } else {
        0
    }));
    assert(picked(contributors, order)[k] == contributors[i]);
    assert(ranking(contributors)[k] == contributors[i]);
    assert(payout_views(outcome.payouts@).len() == outcome.payouts@.len());
}

/// What a contributor may claim is the least part among those who moved at least as much,
/// themselves included, and never more than the whole; whoever moved nothing claims
/// nothing. Claims that together exceed the whole are cut down in proportion, rounded
/// down.
pub proof fn a_claim_is_the_least_of_those_who_moved_as_much(
    marginals: Seq<Binary64>,
    parts: Seq<u32>,
    i: int,
    j: int,
)
    requires
        parts.len() == marginals.len(),
        0 <= i < marginals.len(),
        0 <= j < marginals.len(),
    ensures
        ({
            let claim = fair_part(marginals, parts, i);
            let total = fair_total(marginals, parts, marginals.len() as int);
            let share = share_of(marginals, parts, i);
            &&& !(marginals[i].finite() && marginals[i].positive()) ==> claim == 0
            &&& marginals[i].finite() && marginals[i].positive() ==> {
                &&& claim <= 10_000 && claim <= parts[i]
                &&& marginals[j].finite() && marginals[i].le_spec(marginals[j]) ==> claim
                    <= parts[j]
                &&& claim == 10_000 || exists|k: int|
                    0 <= k < marginals.len() && marginals[i].le_spec(#[trigger] marginals[k])
                        && claim == parts[k]
            }
            &&& total <= 10_000 ==> share == claim
            &&& total > 10_000 ==> share * total <= claim * 10_000 && claim * 10_000 < (share + 1)
                * total
        }),
        fair_total(marginals, parts, 0) == 0,
        fair_total(marginals, parts, i + 1) == fair_total(marginals, parts, i) + fair_part(
            marginals,
            parts,
            i,
        ),
{
    let n = marginals.len() as int;
    let claim = fair_part(marginals, parts, i);
    let total = fair_total(marginals, parts, n);
    if counts(marginals[i]) {
        lemma_least_part_is_attained(marginals, parts, marginals[i], n, i);
        lemma_least_part_is_attained(marginals, parts, marginals[i], n, j);
    }
    if total > 10_000 {
        let claimed = claim * 10_000;
        vstd::arithmetic::div_mod::lemma_fundamental_div_mod(claimed, total);
        vstd::arithmetic::div_mod::lemma_mod_bound(claimed, total);
        let share = claimed / total;
        assert(share * total <= claimed && claimed < (share + 1) * total) by (nonlinear_arith)
            requires
                claimed == total * share + claimed % total,
                0 <= claimed % total < total,
        ;
    }
}

proof fn lemma_least_part_is_attained(
    marginals: Seq<Binary64>,
    parts: Seq<u32>,
    marginal: Binary64,
    n: int,
    j: int,
)
    requires
        0 <= n <= marginals.len(),
        !marginal.nan(),
    ensures
        ({
            let least = least_part(marginals, parts, marginal, n);
            &&& least <= 10_000
            &&& 0 <= j < n && counts(marginals[j]) && marginals[j].key() >= marginal.key() ==> least
                <= parts[j]
            &&& least == 10_000 || exists|k: int|
                0 <= k < n && marginal.le_spec(#[trigger] marginals[k]) && least == parts[k]
        }),
    decreases n,
{
    if n > 0 {
        lemma_least_part_is_attained(marginals, parts, marginal, n - 1, j);
        let rest = least_part(marginals, parts, marginal, n - 1);
        let least = least_part(marginals, parts, marginal, n);
        if least == rest && rest != 10_000 {
            let k = choose|k: int|
                0 <= k < n - 1 && marginal.le_spec(#[trigger] marginals[k]) && rest == parts[k];
            assert(marginal.le_spec(marginals[k]));
        } else if least != 10_000 {
            assert(marginal.le_spec(marginals[n - 1]));
        }
    }
}

// --- What the operations give back -------------------------------------------

/// What folding so far has come to, step by step: the lift that was reached, the lift of
/// the shared artifact, and how many deltas were folded in. A step that came to a higher
/// lift than was reached takes its place; any other is passed over.
pub open spec fn folded(baseline_lift: Lift, steps: Seq<FoldStep>) -> (Binary64, Lift, int) {
    steps.fold_left(
        (Binary64 { bits: 0 }, baseline_lift, 0int),
        |so_far: (Binary64, Lift, int), step: FoldStep|
            match step.result {
                Ok((lift, _)) => if !lift.delta.nan() && lift.delta.key() > so_far.0.key() {
                    (lift.delta, lift, so_far.2 + 1)
                } else {
                    so_far
                },
                Err(_) => so_far,
            },
    )
}

proof fn lemma_folded(baseline_lift: Lift, steps: Seq<FoldStep>)
    ensures
        folded(baseline_lift, steps) == (
            reached(steps),
            shared_lift(baseline_lift, steps),
            accepted_count(steps) as int,
        ),
    decreases steps.len(),
{
    reveal(Seq::fold_left);
    lemma_reached_is_a_number(steps);
    if steps.len() > 0 {
        lemma_reached_is_a_number(steps.drop_last());
        lemma_folded(baseline_lift, steps.drop_last());
    }
}

/// What is tallied of the folds: it fails exactly where a step did; the lift is that of
/// the last delta that came to a higher lift than any before it, whatever its bounds, or
/// that of the baseline; what is counted as accepted is every such delta; and each
/// contributor is credited with the effect of their own delta where it was such a one,
/// and with nothing where it was not.
pub proof fn folds_are_tallied_by_what_raised_the_lift(
    baseline_lift: Lift,
    contributors: &[Contribution],
    order: &Vec<usize>,
    steps: &Vec<FoldStep>,
    r: Result<SharedFold, ProtocolError>,
    k: int,
)
    requires
        permutes(order@, contributors@.len()),
        steps@.len() <= contributors@.len(),
        call_ensures(tally_folds, (baseline_lift, contributors, order, steps), r),
        0 <= k < steps@.len(),
    ensures
        r is Ok <==> forall|j: int|
            0 <= j < steps@.len() ==> (#[trigger] steps@[j]).result is Ok,
        r matches Ok(fold) ==> {
            let (lift, effect) = steps@[k].result->Ok_0;
            let bar = folded(baseline_lift, steps@.take(k)).0;
            &&& fold.lift == folded(baseline_lift, steps@).1
            &&& fold.accepted == folded(baseline_lift, steps@).2
            &&& fold.marginals@.len() == contributors@.len()
            &&& fold.marginals@[order@[k] as int].0@ == contributors@[order@[k] as int].contributor@
            &&& !lift.delta.nan() && lift.delta.key() > bar.key()
                ==> fold.marginals@[order@[k] as int].1 == effect
            &&& lift.delta.nan() || lift.delta.key() <= bar.key()
                ==> fold.marginals@[order@[k] as int].1.bits == 0
        },
{
    broadcast use vstd::seq_lib::group_to_multiset_ensures;

    lemma_folded(baseline_lift, steps@);
    lemma_folded(baseline_lift, steps@.take(k));
    ranking_orders_and_keeps(contributors@);
    assert(ranking(contributors@).len() == contributors@.len()) by {
        assert(ranking(contributors@).to_multiset().len() == contributors@.to_multiset().len());
    }
    the_first_failed_fold_is_told(ranking(contributors@), steps@);
    if r is Ok {
        assert(steps@[k].result is Ok);
        a_delta_is_kept_exactly_where_it_raises_the_lift(baseline_lift, steps@, k);
        assert(order@[k] < contributors@.len());
    }
}

/// What a fold under way answers: a delta is kept exactly where it came to a higher lift
/// than was reached; the next contribution is that of the next place in the order, until
/// all were tried or one failed; and what was taken down stays.
pub proof fn a_fold_keeps_what_raises_the_lift(
    run: &mut FoldRun,
    step: FoldStep,
    next: Option<usize>,
    bar: Binary64,
    keep: bool,
    baseline_lift: Lift,
)
    requires
        !old(run).over(),
        call_ensures(FoldRun::next_contributor, (&*old(run),), next),
        call_ensures(FoldRun::lift_reached, (&*old(run),), bar),
        call_ensures(FoldRun::record, (run, step), keep),
    ensures
        next == Some(old(run).order@[old(run).steps@.len() as int]),
        bar == folded(baseline_lift, old(run).steps@).0,
        step.result matches Ok((lift, _)) ==> (keep <==> !lift.delta.nan() && lift.delta.key()
            > bar.key()),
        step.result is Err ==> !keep,
        final(run).order@ == old(run).order@,
        final(run).steps@ == old(run).steps@.push(step),
{
    lemma_folded(baseline_lift, old(run).steps@);
    lemma_reached_is_a_number(old(run).steps@);
}

/// The order of the folds lists every contribution once, by the hash of its reference from
/// low to high, equal hashes by the reference, equal references by the contributor.
pub proof fn folds_are_ordered_by_content(
    contributors: &[Contribution],
    order: Vec<usize>,
    i: int,
    j: int,
)
    requires
        call_ensures(fold_order, (contributors,), order),
        0 <= i < j < order@.len(),
    ensures
        order@.len() == contributors@.len(),
        order@[i] < contributors@.len(),
        order@[i] != order@[j],
        ({
            let (a, b) = (contributors@[order@[i] as int], contributors@[order@[j] as int]);
            let (x, y) = (fnv1a(encode_utf8(a.delta_ref@)), fnv1a(encode_utf8(b.delta_ref@)));
            &&& x <= y
            &&& x == y ==> text_le(a.delta_ref@, b.delta_ref@)
            &&& a.delta_ref@ == b.delta_ref@ ==> text_le(a.contributor@, b.contributor@)
        }),
{
    folds_go_by_hash_then_reference_then_name(contributors@, i, j);
    let p = picked(contributors@, order@);
    assert(p[i] == contributors@[order@[i] as int]);
    assert(p[j] == contributors@[order@[j] as int]);
}

/// Shares are attributed by name and in order; whoever moved nothing has nothing, whoever
/// moved more has no less, together they do not exceed the whole, and parts that keep to
/// this are the shares.
pub proof fn shares_are_attributed_by_effect(
    marginals: &[(String, Binary64)],
    parts: &[u32],
    shares: Vec<(String, u32)>,
    i: int,
    j: int,
)
    requires
        parts@.len() == marginals@.len(),
        call_ensures(attribute_shares, (marginals, parts), shares),
        0 <= i < marginals@.len(),
        0 <= j < marginals@.len(),
    ensures
        shares@.len() == marginals@.len(),
        shares@[i].0@ == marginals@[i].0@,
        !(marginals@[i].1.finite() && marginals@[i].1.positive()) ==> shares@[i].1 == 0,
        marginals@[j].1.finite() && marginals@[i].1.le_spec(marginals@[j].1) ==> shares@[i].1
            <= shares@[j].1,
        weights_total(shares@.map_values(|s: (String, u32)| s.1)) <= 10_000,
        weights_total(parts@) <= 10_000 && (forall|a: int, b: int|
            0 <= a < marginals@.len() && 0 <= b < marginals@.len() && marginals@[a].1.finite()
                && marginals@[a].1.positive() && marginals@[b].1.finite()
                && marginals@[b].1.positive() && (#[trigger] marginals@[a]).1.le_spec(
                (#[trigger] marginals@[b]).1,
            ) ==> parts@[a] <= parts@[b]) && marginals@[i].1.finite()
            && marginals@[i].1.positive() ==> shares@[i].1 == parts@[i],
{
    let all = effects(marginals@);
    assert(shares@[i].0@ == marginals@[i].0@);
    assert(shares@[j].0@ == marginals@[j].0@);
    if weights_total(parts@) <= 10_000 && (forall|a: int, b: int|
        0 <= a < marginals@.len() && 0 <= b < marginals@.len() && marginals@[a].1.finite()
            && marginals@[a].1.positive() && marginals@[b].1.finite()
            && marginals@[b].1.positive() && (#[trigger] marginals@[a]).1.le_spec(
            (#[trigger] marginals@[b]).1,
        ) ==> parts@[a] <= parts@[b]) {
        assert forall|a: int, b: int|
            0 <= a < all.len() && 0 <= b < all.len() && (#[trigger] all[a]).finite()
                && all[a].positive() && (#[trigger] all[b]).finite() && all[b].positive()
                && all[a].le_spec(all[b]) implies parts@[a] <= parts@[b] by {
            assert(all[a] == marginals@[a].1 && all[b] == marginals@[b].1);
        }
        parts_in_proportion_are_the_shares(all, parts@, i);
        assert(all[i] == marginals@[i].1);
    }
}

/// Shares are settled as ranks with those weights are.
pub proof fn shares_are_settled_as_weights(
    pool_wei: u128,
    shares: &[(String, u32)],
    names: &[String],
    weights: &[u32],
    by_share: Vec<Payout>,
    by_rank: Vec<Payout>,
    i: int,
)
    requires
        names@.len() == shares@.len(),
        weights@.len() == shares@.len(),
        forall|k: int| 0 <= k < shares@.len() ==> (#[trigger] names@[k])@ == shares@[k].0@,
        forall|k: int| 0 <= k < shares@.len() ==> #[trigger] weights@[k] == shares@[k].1,
        call_ensures(settle_shares, (pool_wei, shares), by_share),
        call_ensures(settle_snapshot_topk, (pool_wei, names, weights), by_rank),
    ensures
        by_share@.len() == by_rank@.len(),
        0 <= i < by_share@.len() ==> by_share@[i].researcher@ == by_rank@[i].researcher@
            && by_share@[i].wei == by_rank@[i].wei,
{
    assert(texts(names@) =~= share_names(shares@));
    assert(weights@ =~= share_weights(shares@));
    let (p, q) = (payout_views(by_share@), payout_views(by_rank@));
    assert(p.len() == by_share@.len() && q.len() == by_rank@.len());
    if 0 <= i < by_share@.len() {
        assert(p[i] == by_share@[i]@);
        assert(q[i] == by_rank@[i]@);
    }
}

/// What a collaborative run answers. It fails exactly where the competition may not run,
/// its opening failed, a fold failed, or the final artifact could not be scored. Otherwise
/// the artifact has the lift that the folds came to; and nobody has a share or is paid
/// unless that lift, with the final score, clears the promotion gate.
pub proof fn a_collaboration_pays_only_for_a_cleared_gate(
    cfg: &CompetitionConfig,
    contributors: &[Contribution],
    trace: &CollaborativeTrace,
    r: Result<CollaborativeOutcome, ProtocolError>,
    i: int,
)
    requires
        trace.covers(*cfg, contributors@),
        call_ensures(run_collaborative, (cfg, contributors, trace), r),
        0 <= i < contributors@.len(),
    ensures
        r is Ok <==> {
            &&& cfg.knobs.structure is Collaborative
            &&& cfg.knobs.cadence is OneShot
            &&& cfg.reward.fault() is None
            &&& trace.opening.fault() is None
            &&& fold_fault(ranking(contributors@), trace.steps@) is None
            &&& trace.final_score is Ok
        },
        r matches Ok(outcome) ==> {
            let lift = folded(trace.baseline_lift, trace.steps@).1;
            let cleared = cfg.gate.cleared_by(lift, trace.final_score->Ok_0);
            &&& outcome.final_artifact_lift == lift
            &&& outcome.accepted == folded(trace.baseline_lift, trace.steps@).2
            &&& outcome.shares@.len() == contributors@.len()
            &&& outcome.shares@[i].0@ == contributors@[i].contributor@
            &&& !cleared ==> outcome.shares@[i].1 == 0 && outcome.payouts@.len() == 0
            &&& cleared ==> exists|k: int|
                {
                    &&& 0 <= k < trace.steps@.len()
                    &&& #[trigger] ranking(contributors@)[k] == contributors@[i]
                    &&& outcome.shares@[i].1 == share_of(
                        Seq::new(trace.steps@.len(), |s: int| credit(trace.steps@, s)),
                        trace.proportional_bps@,
                        k,
                    )
                }
            &&& paid_total(payout_views(outcome.payouts@)) <= cfg.reward_pool_wei
        },
{
    only_one_shot_collaborations_run(*cfg);
    lemma_folded(trace.baseline_lift, trace.steps@);
    if let Ok(outcome) = r {
        an_outcome_pays_for_what_was_moved(*cfg, contributors@, *trace, outcome, i);
    }
}

} // verus!
