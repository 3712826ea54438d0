//! Disputes: the committee that re-scores a challenged candidate and decides
//! whether the certification stands.
use crate::orchestrator::{FaultView, Opening, ProtocolError};
use crate::traits::ScorerError;
use crate::types::{Gate, Lift, Measurement};
use vstd::math::max;
use vstd::prelude::*;

verus! {

/// One validator's verdict on a challenged candidate.
#[derive(Clone, Debug, PartialEq)]
pub struct ValidatorVerdict {
    /// Who the validator is.
    pub validator: String,
    /// Whether this validator found that the candidate clears the promotion gate.
    pub clears: bool,
    /// The lift that this validator measured.
    pub lift: Lift,
}

/// The committee's decision relative to the certification.
#[derive(Clone, Copy, Debug, PartialEq, Eq, Structural)]
pub enum DisputeOutcome {
    /// A quorum agrees with the certification.
    Upheld,
    /// A quorum agrees on the opposite.
    Overturned,
    /// Neither side reached a quorum.
    Inconclusive,
}

/// How many verdicts agree with `clears`.
pub open spec fn agreeing(verdicts: Seq<ValidatorVerdict>, clears: bool) -> nat
    decreases verdicts.len(),
{
    if verdicts.len() == 0 {
        0
    } else {
        agreeing(verdicts.drop_last(), clears) + (if verdicts.last().clears == clears {
            1nat
        } else {
            0
        })
    }
}

/// The votes that a decision takes: at least one.
pub open spec fn quorum_of(m: nat) -> nat {
    if m == 0 {
        1
    } else {
        m
    }
}

/// The decision of a committee: a quorum decides, and only if it is a strict
/// majority of the committee.
pub open spec fn decision(original_clears: bool, verdicts: Seq<ValidatorVerdict>, m: nat) -> DisputeOutcome {
    let quorum = quorum_of(m);
    if 2 * quorum <= verdicts.len() {
        DisputeOutcome::Inconclusive
    } else if agreeing(verdicts, original_clears) >= quorum {
        DisputeOutcome::Upheld
    } else if agreeing(verdicts, !original_clears) >= quorum {
        DisputeOutcome::Overturned
    } else {
        DisputeOutcome::Inconclusive
    }
}

proof fn lemma_agreeing_splits(verdicts: Seq<ValidatorVerdict>, clears: bool)
    ensures
        agreeing(verdicts, clears) + agreeing(verdicts, !clears) == verdicts.len(),
    decreases verdicts.len(),
{
    if verdicts.len() > 0 {
        lemma_agreeing_splits(verdicts.drop_last(), clears);
    }
}

/// A minority never decides: whoever the committee sides with, more than half of it
/// voted that way.
pub proof fn only_a_majority_decides(
    original_clears: bool,
    verdicts: Seq<ValidatorVerdict>,
    m: nat,
)
    ensures
        decision(original_clears, verdicts, m) == DisputeOutcome::Upheld ==> 2 * agreeing(
            verdicts,
            original_clears,
        ) > verdicts.len(),
        decision(original_clears, verdicts, m) == DisputeOutcome::Overturned ==> 2 * agreeing(
            verdicts,
            !original_clears,
        ) > verdicts.len(),
{
}

/// Where more than half of the committee is honest and agrees, and they suffice for
/// a quorum that is a strict majority, they decide, whatever the others vote.
pub proof fn an_agreeing_quorum_decides(
    original_clears: bool,
    verdicts: Seq<ValidatorVerdict>,
    m: nat,
    honest: bool,
)
    requires
        2 * quorum_of(m) > verdicts.len(),
        agreeing(verdicts, honest) >= quorum_of(m),
    ensures
        decision(original_clears, verdicts, m) == (if honest == original_clears {
            DisputeOutcome::Upheld
        } else {
            DisputeOutcome::Overturned
        }),
{
    lemma_agreeing_splits(verdicts, honest);
}

/// The same votes seen from the other side: a certification that says the opposite
/// is overturned where this one is upheld, and the other way round.
pub proof fn decision_is_symmetric(
    original_clears: bool,
    verdicts: Seq<ValidatorVerdict>,
    m: nat,
)
    ensures
        decision(original_clears, verdicts, m) == DisputeOutcome::Upheld <==> decision(
            !original_clears,
            verdicts,
            m,
        ) == DisputeOutcome::Overturned,
        decision(original_clears, verdicts, m) == DisputeOutcome::Inconclusive <==> decision(
            !original_clears,
            verdicts,
            m,
        ) == DisputeOutcome::Inconclusive,
{
    lemma_agreeing_splits(verdicts, original_clears);
}

/// Aggregates validator verdicts under an m-of-n quorum.
pub fn committee_verdict(original_clears: bool, verdicts: &[ValidatorVerdict], m: usize) -> (r:
    DisputeOutcome)
    ensures
        r == decision(original_clears, verdicts@, m as nat),
{
    let quorum: usize = if m == 0 {
        1
    } else {
        m
    };
    let n: usize = verdicts.len();
    if quorum <= n / 2 {
        return DisputeOutcome::Inconclusive;
    }
    let mut agree: usize = 0;
    proof {
        assert(verdicts@.take(0) =~= Seq::empty());
    }
    for i in 0..n
        invariant
            n == verdicts@.len(),
            agree <= i,
            agree == agreeing(verdicts@.take(i as int), original_clears),
    {
        proof {
            assert(verdicts@.take(i + 1).drop_last() =~= verdicts@.take(i as int));
        }
        if verdicts[i].clears == original_clears {
            agree = agree + 1;
        }
    }
    proof {
        assert(verdicts@.take(n as int) =~= verdicts@);
        lemma_agreeing_splits(verdicts@, original_clears);
    }
    let disagree: usize = n - agree;
    if agree >= quorum {
        DisputeOutcome::Upheld
    } else if disagree >= quorum {
        DisputeOutcome::Overturned
    } else {
        DisputeOutcome::Inconclusive
    }
}

/// What came of one validator's re-scoring.
#[derive(Debug)]
pub struct Rescore {
    pub validator: String,
    /// The lift over the baseline and the measurement, or why the scoring failed.
    pub result: Result<(Lift, Measurement), ScorerError>,
}

/// The first of the failed re-scorings, if one failed.
pub open spec fn first_failure(rescores: Seq<Rescore>) -> Option<ScorerError>
    decreases rescores.len(),
{
    if rescores.len() == 0 {
        None
    } else {
        match first_failure(rescores.drop_last()) {
            Some(e) => Some(e),
            None => match rescores.last().result {
                Err(e) => Some(e),
                Ok(_) => None,
            },
        }
    }
}

/// The re-scorings are the validators', in order: all of them, or up to one that
/// failed.
pub open spec fn rescores_cover(validators: Seq<String>, rescores: Seq<Rescore>) -> bool {
    &&& rescores.len() <= validators.len()
    &&& forall|i: int|
        0 <= i < rescores.len() ==> (#[trigger] rescores[i]).validator@ == validators[i]@
    &&& rescores.len() == validators.len() || first_failure(rescores) is Some
}

/// Forms each validator's verdict from the lift that they measured. The first
/// failure aborts; without one no validator is left out.
pub fn collect_verdicts(
    opening: &Opening,
    validators: &[String],
    rescores: &Vec<Rescore>,
    gate: &Gate,
) -> (r: Result<Vec<ValidatorVerdict>, ProtocolError>)
    requires
        opening.fault() is Some || rescores_cover(validators@, rescores@),
    ensures
        match r {
            Ok(verdicts) => {
                &&& opening.surface is Ok
                &&& opening.baseline is Ok
                &&& first_failure(rescores@) is None
                &&& verdicts@.len() == validators@.len()
                &&& forall|i: int|
                    0 <= i < verdicts@.len() ==> {
                        let v = #[trigger] verdicts@[i];
                        let (lift, measurement) = rescores@[i].result->Ok_0;
                        &&& v.validator@ == validators@[i]@
                        &&& v.lift == lift
                        &&& v.clears == gate.cleared_by(lift, measurement)
                    }
            },
            Err(e) => match (opening.surface, opening.baseline) {
                (Err(why), _) => e@ == FaultView::Surface(why),
                (Ok(()), Err(why)) => e@ == FaultView::Scorer(why),
                (Ok(()), Ok(())) => first_failure(rescores@) is Some && e@ == FaultView::Scorer(
                    first_failure(rescores@)->0,
                ),
            },
        },
{
    match &opening.surface {
        Ok(()) => {},
        Err(why) => {
            return Err(ProtocolError::Surface(why.clone()));
        },
    }
    match &opening.baseline {
        Ok(()) => {},
        Err(why) => {
            return Err(ProtocolError::Scorer(why.clone()));
        },
    }
    let mut verdicts: Vec<ValidatorVerdict> = Vec::new();
    proof {
        assert(rescores@.take(0) =~= Seq::empty());
    }
    for i in 0..rescores.len()
        invariant
            opening.surface is Ok,
            opening.baseline is Ok,
            first_failure(rescores@.take(i as int)) is None,
            verdicts@.len() == i,
            forall|j: int|
                0 <= j < i ==> {
                    let v = #[trigger] verdicts@[j];
                    let (lift, measurement) = rescores@[j].result->Ok_0;
                    &&& v.validator@ == rescores@[j].validator@
                    &&& v.lift == lift
                    &&& v.clears == gate.cleared_by(lift, measurement)
                },
    {
        proof {
            assert(rescores@.take(i + 1).drop_last() =~= rescores@.take(i as int));
        }
        match &rescores[i].result {
            Ok((lift, measurement)) => {
                verdicts.push(
                    ValidatorVerdict {
                        validator: rescores[i].validator.clone(),
                        clears: gate.clears(lift, measurement),
                        lift: *lift,
                    },
                );
            },
            Err(why) => {
                proof {
                    lemma_first_failure_stays(rescores@, i + 1);
                }
                return Err(ProtocolError::Scorer(why.clone()));
            },
        }
    }
    proof {
        assert(rescores@.take(rescores@.len() as int) =~= rescores@);
    }
    Ok(verdicts)
}

proof fn lemma_first_failure_stays(rescores: Seq<Rescore>, i: int)
    requires
        0 <= i <= rescores.len(),
        first_failure(rescores.take(i)) is Some,
    ensures
        first_failure(rescores) == first_failure(rescores.take(i)),
    decreases rescores.len() - i,
{
    if i < rescores.len() {
        assert(rescores.take(i + 1).drop_last() =~= rescores.take(i));
        lemma_first_failure_stays(rescores, i + 1);
    } else {
        assert(rescores.take(i) =~= rescores);
    }
}

// --- What a decision takes ---------------------------------------------------

proof fn lemma_agreeing_counts(verdicts: Seq<ValidatorVerdict>, clears: bool)
    ensures
        agreeing(verdicts, clears) == verdicts.filter(
            |v: ValidatorVerdict| v.clears == clears,
        ).len(),
    decreases verdicts.len(),
{
    reveal(Seq::filter);
    if verdicts.len() > 0 {
        lemma_agreeing_counts(verdicts.drop_last(), clears);
    }
}

/// No side decides without a quorum: a decision has at least `m` votes, and at least
/// one, and these are more than half of the committee. Wherever one side has them,
/// that side decides.
pub proof fn a_decision_takes_a_quorum(
    original_clears: bool,
    verdicts: Seq<ValidatorVerdict>,
    m: nat,
)
    ensures
        ({
            let outcome = decision(original_clears, verdicts, m);
            let agree = verdicts.filter(
                |v: ValidatorVerdict| v.clears == original_clears,
            ).len();
            let disagree = verdicts.filter(
                |v: ValidatorVerdict| v.clears != original_clears,
            ).len();
            &&& agree + disagree == verdicts.len()
            &&& outcome == DisputeOutcome::Upheld ==> agree >= m && agree >= 1 && 2 * agree
                > verdicts.len()
            &&& outcome == DisputeOutcome::Overturned ==> disagree >= m && disagree >= 1 && 2
                * disagree > verdicts.len()
            &&& agree >= max(m as int, 1) && 2 * max(m as int, 1) > verdicts.len() <==> outcome
                == DisputeOutcome::Upheld
            &&& disagree >= max(m as int, 1) && 2 * max(m as int, 1) > verdicts.len() <==> outcome
                == DisputeOutcome::Overturned
        }),
{
    lemma_agreeing_splits(verdicts, original_clears);
    lemma_agreeing_counts(verdicts, original_clears);
    lemma_agreeing_counts(verdicts, !original_clears);
    assert(verdicts.filter(|v: ValidatorVerdict| v.clears != original_clears)
        == verdicts.filter(|v: ValidatorVerdict| v.clears == !original_clears)) by {
        assert((|v: ValidatorVerdict| v.clears != original_clears) =~= (|v: ValidatorVerdict|
            v.clears == !original_clears));
    }
}

/// One more vote for a side never takes the decision away from it.
pub proof fn a_further_vote_for_a_side_never_hurts_it(
    original_clears: bool,
    verdicts: Seq<ValidatorVerdict>,
    m: nat,
    i: int,
    vote: ValidatorVerdict,
)
    requires
        0 <= i < verdicts.len(),
    ensures
        decision(original_clears, verdicts, m) == DisputeOutcome::Upheld && vote.clears
            == original_clears ==> decision(original_clears, verdicts.update(i, vote), m)
            == DisputeOutcome::Upheld,
        decision(original_clears, verdicts, m) == DisputeOutcome::Overturned && vote.clears
            != original_clears ==> decision(original_clears, verdicts.update(i, vote), m)
            == DisputeOutcome::Overturned,
{
    lemma_agreeing_update(verdicts, i, vote, vote.clears);
    lemma_agreeing_splits(verdicts, original_clears);
    lemma_agreeing_splits(verdicts.update(i, vote), original_clears);
}

proof fn lemma_agreeing_update(
    verdicts: Seq<ValidatorVerdict>,
    i: int,
    vote: ValidatorVerdict,
    clears: bool,
)
    requires
        0 <= i < verdicts.len(),
        vote.clears == clears,
    ensures
        agreeing(verdicts.update(i, vote), clears) >= agreeing(verdicts, clears),
    decreases verdicts.len(),
{
    let front = verdicts.drop_last();
    if i < verdicts.len() - 1 {
        lemma_agreeing_update(front, i, vote, clears);
        assert(verdicts.update(i, vote).drop_last() =~= front.update(i, vote));
    } else {
        assert(verdicts.update(i, vote).drop_last() =~= front);
    }
}

/// Without a failure among them the re-scorings all succeeded, and a failure that is
/// told is that of the earliest one that failed.
pub proof fn the_earliest_failure_is_told(rescores: Seq<Rescore>)
    ensures
        first_failure(rescores) is None <==> forall|i: int|
            0 <= i < rescores.len() ==> (#[trigger] rescores[i]).result is Ok,
        first_failure(rescores) matches Some(e) ==> exists|i: int|
            {
                &&& 0 <= i < rescores.len()
                &&& (#[trigger] rescores[i]).result == Err::<(Lift, Measurement), ScorerError>(e)
                &&& forall|j: int| 0 <= j < i ==> (#[trigger] rescores[j]).result is Ok
            },
    decreases rescores.len(),
{
    if rescores.len() > 0 {
        let front = rescores.drop_last();
        the_earliest_failure_is_told(front);
        assert forall|i: int| 0 <= i < front.len() implies #[trigger] front[i] == rescores[i] by {
        }
        if first_failure(front) is Some {
            let i = choose|i: int|
                {
                    &&& 0 <= i < front.len()
                    &&& (#[trigger] front[i]).result == Err::<(Lift, Measurement), ScorerError>(
                        first_failure(front)->0,
                    )
                    &&& forall|j: int| 0 <= j < i ==> (#[trigger] front[j]).result is Ok
                };
            assert(rescores[i].result is Err);
            assert forall|j: int| 0 <= j < i implies (#[trigger] rescores[j]).result is Ok by {
                assert(front[j].result is Ok);
            }
        } else {
            let last = rescores.len() - 1;
            assert forall|j: int| 0 <= j < last implies (#[trigger] rescores[j]).result is Ok by {
                assert(front[j].result is Ok);
            }
            assert(rescores[last] == rescores.last());
        }
    }
}

/// What a committee answers: it upholds exactly where the votes for the certification
/// reach the quorum and the quorum is more than half of the votes, overturns exactly where
/// those against it do, and is undecided in every other case. A quorum is one vote at
/// least.
pub proof fn a_committee_answers_by_its_quorum(
    original_clears: bool,
    verdicts: &[ValidatorVerdict],
    m: usize,
    r: DisputeOutcome,
)
    requires
        call_ensures(committee_verdict, (original_clears, verdicts, m), r),
    ensures
        ({
            let quorum = max(m as int, 1);
            let agree = verdicts@.filter(
                |v: ValidatorVerdict| v.clears == original_clears,
            ).len();
            let disagree = verdicts@.filter(
                |v: ValidatorVerdict| v.clears != original_clears,
            ).len();
            &&& r is Upheld <==> agree >= quorum && 2 * quorum > verdicts@.len()
            &&& r is Overturned <==> disagree >= quorum && 2 * quorum > verdicts@.len()
        }),
{
    a_decision_takes_a_quorum(original_clears, verdicts@, m as nat);
}

/// What is collected from validators: one verdict for each, in their order, with the lift
/// that they measured and whether that clears the promotion gate. It fails exactly where
/// the surface, the baseline or one of the re-scorings failed, and of several failures the
/// earliest is told.
pub proof fn every_validator_gives_a_verdict_of_their_own(
    opening: &Opening,
    validators: &[String],
    rescores: &Vec<Rescore>,
    gate: &Gate,
    r: Result<Vec<ValidatorVerdict>, ProtocolError>,
)
    requires
        call_ensures(collect_verdicts, (opening, validators, rescores, gate), r),
    ensures
        r is Ok <==> {
            &&& opening.surface is Ok
            &&& opening.baseline is Ok
            &&& forall|i: int| 0 <= i < rescores@.len() ==> (#[trigger] rescores@[i]).result is Ok
        },
        r matches Ok(verdicts) ==> {
            &&& verdicts@.len() == validators@.len()
            &&& forall|i: int|
                0 <= i < verdicts@.len() ==> {
                    let v = #[trigger] verdicts@[i];
                    &&& v.validator@ == validators@[i]@
                    &&& v.lift == rescores@[i].result->Ok_0.0
                    &&& v.clears == gate.cleared_by(
                        rescores@[i].result->Ok_0.0,
                        rescores@[i].result->Ok_0.1,
                    )
                }
        },
        opening.surface matches Err(why) ==> (r matches Err(e) && e@ == FaultView::Surface(why)),
        opening.surface is Ok ==> (opening.baseline matches Err(why) ==> (r matches Err(e) && e@
            == FaultView::Scorer(why))),
{
    the_earliest_failure_is_told(rescores@);
}

} // verus!
