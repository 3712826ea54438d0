//! The one-shot competitive runner.
//!
//! Producing and scoring candidates waits on the outside world. The program around
//! this library does that, one researcher after another, and hands over what came
//! back; everything that is decided is decided here: whether the competition may
//! run, which failure aborts it, who clears the promotion gate, how survivors rank and what
//! they are paid.
use crate::binary64::key_order_is_value_order;
use crate::order::{
    lemma_bytes_le_total, lemma_bytes_le_transitive, rank_items, ranking, ranking_orders_and_keeps,
    text_at_or_before, text_le, Ranked,
};
use crate::privacy::{PrivacyError, PrivacyFault};
use crate::reward::{
    paid_total, payout_views, settle_snapshot_topk, settle_terminal_prize,
    snapshot_never_exceeds_the_pool, snapshot_payouts, snapshot_pays_only_the_weighted,
    terminal_payouts, Payout, PayoutView, RewardError, RewardSchedule,
};
use crate::text::{decimal, texts, to_decimal};
use crate::traits::{EngineContext, EngineError, ScorerError, SurfaceError};
use crate::types::{
    ArtifactRef, CompetitionId, Gate, Knobs, Lift, Measurement, COLLABORATIVE_IS_ONE_SHOT,
};
use vstd::prelude::*;
use vstd::utf8::encode_utf8;

verus! {

/// Static configuration of a competition run.
#[derive(Clone, Debug)]
pub struct CompetitionConfig {
    pub id: CompetitionId,
    pub gate: Gate,
    pub reward: RewardSchedule,
    /// Total reward pool in wei.
    pub reward_pool_wei: u128,
    pub knobs: Knobs,
}

/// One researcher's run parameters.
#[derive(Debug, PartialEq, Eq)]
pub struct ResearcherRun {
    pub researcher: String,
    pub seed: u64,
}

impl Clone for ResearcherRun {
    fn clone(&self) -> (r: Self)
        ensures
            r == *self,
    {
        ResearcherRun { researcher: self.researcher.clone(), seed: self.seed }
    }
}

/// The result of a one-shot competitive run.
#[derive(Clone, Debug)]
pub struct CompetitionOutcome {
    /// Researchers who cleared the promotion gate with their certified lift, best first.
    pub ranked: Vec<(String, Lift)>,
    /// Settled payouts.
    pub payouts: Vec<Payout>,
    /// How many cleared the promotion gate.
    pub winners: usize,
}

/// Errors of running a competition.
#[derive(Debug)]
pub enum ProtocolError {
    /// The knobs make no sense together.
    IncoherentKnobs(&'static str),
    /// The surface rejected an artifact.
    Surface(SurfaceError),
    /// A scorer failed.
    Scorer(ScorerError),
    /// An engine failed.
    Engine { researcher: String, source: EngineError },
    /// The runner does not support the reward schedule.
    UnsupportedReward(RewardSchedule),
    /// The reward schedule cannot conserve the pool.
    InvalidReward(RewardError),
    /// A privacy control rejected the run.
    Privacy(PrivacyError),
}

impl ProtocolError {
    /// What the error says.
    pub open spec fn said(self) -> Seq<char> {
        match self {
            ProtocolError::IncoherentKnobs(why) => {
                "knob combination is incoherent: "@ + why@
            },
            ProtocolError::Surface(e) => {
                "surface rejected an artifact: "@ + e.said()
            },
            ProtocolError::Scorer(e) => {
                "scorer failed: "@ + e.said()
            },
            ProtocolError::Engine { researcher, source } => {
                "engine failed for researcher "@ + researcher@ + ": "@ + source.said()
            },
            ProtocolError::UnsupportedReward(reward) => {
                "the "@ + reward.written()
                    + " reward schedule is not supported by the one-shot competitive runner"@
            },
            ProtocolError::InvalidReward(e) => {
                "reward schedule cannot conserve the pool: "@ + e.said()
            },
            ProtocolError::Privacy(e) => {
                "privacy control rejected the run: "@ + e.said()
            },
        }
    }

    /// The error as a message.
    pub fn message(&self) -> (r: String)
        ensures
            r@ == self.said(),
    {
        match self {
            ProtocolError::IncoherentKnobs(why) => {
                let mut out = "knob combination is incoherent: ".to_owned();
                out.append(why);
                out
            },
            ProtocolError::Surface(e) => {
                let mut out = "surface rejected an artifact: ".to_owned();
                out.append(e.message().as_str());
                out
            },
            ProtocolError::Scorer(e) => {
                let mut out = "scorer failed: ".to_owned();
                out.append(e.message().as_str());
                out
            },
            ProtocolError::Engine { researcher, source } => {
                let mut out = "engine failed for researcher ".to_owned();
                out.append(researcher.as_str());
                out.append(": ");
                out.append(source.message().as_str());
                out
            },
            ProtocolError::UnsupportedReward(reward) => {
                let mut out = "the ".to_owned();
                out.append(reward.write_out().as_str());
                out.append(" reward schedule is not supported by the one-shot competitive runner");
                out
            },
            ProtocolError::InvalidReward(e) => {
                let mut out = "reward schedule cannot conserve the pool: ".to_owned();
                out.append(e.message().as_str());
                out
            },
            ProtocolError::Privacy(e) => {
                let mut out = "privacy control rejected the run: ".to_owned();
                out.append(e.message().as_str());
                out
            },
        }
    }
}

/// What a protocol error says.
pub enum FaultView {
    IncoherentKnobs(Seq<char>),
    Surface(SurfaceError),
    Scorer(ScorerError),
    Engine { researcher: Seq<char>, source: EngineError },
    UnsupportedReward(RewardSchedule),
    InvalidReward(RewardError),
    Privacy(PrivacyFault),
}

impl View for ProtocolError {
    type V = FaultView;

    open spec fn view(&self) -> FaultView {
        match *self {
            ProtocolError::IncoherentKnobs(why) => FaultView::IncoherentKnobs(why@),
            ProtocolError::Surface(e) => FaultView::Surface(e),
            ProtocolError::Scorer(e) => FaultView::Scorer(e),
            ProtocolError::Engine { researcher, source } => FaultView::Engine {
                researcher: researcher@,
                source,
            },
            ProtocolError::UnsupportedReward(r) => FaultView::UnsupportedReward(r),
            ProtocolError::InvalidReward(e) => FaultView::InvalidReward(e),
            ProtocolError::Privacy(e) => FaultView::Privacy(e@),
        }
    }
}

/// Why the outside work for one researcher failed.
#[derive(Debug)]
pub enum RunFailure {
    /// The engine produced nothing.
    Engine(EngineError),
    /// The surface rejected what it produced.
    Surface(SurfaceError),
    /// What it produced could not be scored.
    Scorer(ScorerError),
}

/// What came of the work before any candidate: the surface's part (referring to the
/// baseline, or checking a disputed artifact), then the scoring of the baseline.
#[derive(Debug)]
pub struct Opening {
    pub surface: Result<(), SurfaceError>,
    pub baseline: Result<(), ScorerError>,
}

impl Opening {
    /// Why the opening failed, if it did.
    pub open spec fn fault(self) -> Option<FaultView> {
        match (self.surface, self.baseline) {
            (Err(e), _) => Some(FaultView::Surface(e)),
            (Ok(()), Err(e)) => Some(FaultView::Scorer(e)),
            (Ok(()), Ok(())) => None,
        }
    }

    /// Fails as the opening did.
    pub fn check(&self) -> (r: Result<(), ProtocolError>)
        ensures
            match r {
                Ok(()) => self.fault() is None,
                Err(e) => self.fault() == Some(e@),
            },
    {
        match &self.surface {
            Ok(()) => {},
            Err(e) => {
                return Err(ProtocolError::Surface(e.clone()));
            },
        }
        match &self.baseline {
            Ok(()) => Ok(()),
            Err(e) => Err(ProtocolError::Scorer(e.clone())),
        }
    }
}

/// What came of one researcher's candidate.
#[derive(Debug)]
pub struct ScoredRun {
    pub researcher: String,
    /// The candidate's lift over the baseline and its measurement on the held-out
    /// split, or what failed.
    pub result: Result<(Lift, Measurement), RunFailure>,
}

/// A failure, with the researcher whose engine failed.
pub open spec fn blamed(failure: RunFailure, researcher: Seq<char>) -> FaultView {
    match failure {
        RunFailure::Engine(source) => FaultView::Engine { researcher, source },
        RunFailure::Surface(e) => FaultView::Surface(e),
        RunFailure::Scorer(e) => FaultView::Scorer(e),
    }
}

/// A failure as a protocol error.
pub fn blame(failure: &RunFailure, researcher: &str) -> (r: ProtocolError)
    ensures
        r@ == blamed(*failure, researcher@),
{
    match failure {
        RunFailure::Engine(source) => ProtocolError::Engine {
            researcher: researcher.to_owned(),
            source: source.clone(),
        },
        RunFailure::Surface(e) => ProtocolError::Surface(e.clone()),
        RunFailure::Scorer(e) => ProtocolError::Scorer(e.clone()),
    }
}

/// The first failure among the runs, if one failed.
pub open spec fn run_fault(runs: Seq<ScoredRun>) -> Option<FaultView>
    decreases runs.len(),
{
    if runs.len() == 0 {
        None
    } else {
        match run_fault(runs.drop_last()) {
            Some(f) => Some(f),
            None => match runs.last().result {
                Err(failure) => Some(blamed(failure, runs.last().researcher@)),
                Ok(_) => None,
            },
        }
    }
}

pub proof fn lemma_run_fault_stays(runs: Seq<ScoredRun>, i: int)
    requires
        0 <= i <= runs.len(),
        run_fault(runs.take(i)) is Some,
    ensures
        run_fault(runs) == run_fault(runs.take(i)),
    decreases runs.len() - i,
{
    if i < runs.len() {
        assert(runs.take(i + 1).drop_last() =~= runs.take(i));
        lemma_run_fault_stays(runs, i + 1);
    } else {
        assert(runs.take(i) =~= runs);
    }
}

/// The runs are the researchers', in order: all of them, or up to one that failed.
pub open spec fn runs_cover(researchers: Seq<ResearcherRun>, runs: Seq<ScoredRun>) -> bool {
    &&& runs.len() <= researchers.len()
    &&& forall|i: int|
        0 <= i < runs.len() ==> (#[trigger] runs[i]).researcher@ == researchers[i].researcher@
    &&& runs.len() == researchers.len() || run_fault(runs) is Some
}

/// A round of candidates under way: whose turn it is, and what came of the turns before.
#[derive(Debug)]
pub struct Round {
    /// What came of the turns so far, in the order of the researchers.
    pub runs: Vec<ScoredRun>,
}

impl Round {
    /// The turns so far are those of the first researchers, in order, and only the last
    /// of them can have failed.
    pub open spec fn follows(self, researchers: Seq<ResearcherRun>) -> bool {
        &&& self.runs@.len() <= researchers.len()
        &&& forall|i: int|
            0 <= i < self.runs@.len() ==> (#[trigger] self.runs@[i]).researcher@
                == researchers[i].researcher@
        &&& forall|i: int|
            0 <= i < self.runs@.len() - 1 ==> (#[trigger] self.runs@[i]).result is Ok
    }

    /// The round has come to its end: every researcher had a turn, or a turn failed.
    pub open spec fn over(self, researchers: Seq<ResearcherRun>) -> bool {
        self.runs@.len() >= researchers.len() || (self.runs@.len() > 0
            && self.runs@.last().result is Err)
    }

    /// A round that has not begun.
    pub fn start() -> (r: Self)
        ensures
            r.runs@.len() == 0,
            forall|researchers: Seq<ResearcherRun>| #[trigger] r.follows(researchers),
    {
        Round { runs: Vec::new() }
    }

    /// The position of the researcher whose turn it is; `None` once the round is over,
    /// and then its runs are all that a decision needs.
    pub fn next_turn(&self, researchers: &[ResearcherRun]) -> (r: Option<usize>)
        ensures
            match r {
                Some(i) => !self.over(researchers@) && i == self.runs@.len(),
                None => self.over(researchers@) && (self.follows(researchers@) ==> runs_cover(
                    researchers@,
                    self.runs@,
                )),
            },
    {
        let taken: usize = self.runs.len();
        if taken > 0 && self.runs[taken - 1].result.is_err() {
            proof {
                assert(run_fault(self.runs@) is Some);
            }
            return None;
        }
        if taken >= researchers.len() {
            return None;
        }
        Some(taken)
    }

    /// Takes down what came of the turn.
    pub fn record(
        &mut self,
        researchers: &[ResearcherRun],
        result: Result<(Lift, Measurement), RunFailure>,
    )
        requires
            old(self).follows(researchers@),
            !old(self).over(researchers@),
        ensures
            final(self).follows(researchers@),
            final(self).runs@.len() == old(self).runs@.len() + 1,
            final(self).runs@.drop_last() == old(self).runs@,
            final(self).runs@.last().result == result,
    {
        let run = ScoredRun { researcher: researchers[self.runs.len()].researcher.clone(), result };
        self.runs.push(run);
        proof {
            let before = old(self).runs@;
            assert(self.runs@.drop_last() =~= before);
            assert forall|i: int| 0 <= i < self.runs@.len() implies (
            #[trigger] self.runs@[i]).researcher@ == researchers@[i].researcher@ by {
                if i < before.len() {
                    assert(self.runs@[i] == before[i]);
                }
            }
            assert forall|i: int| 0 <= i < self.runs@.len() - 1 implies (
            #[trigger] self.runs@[i]).result is Ok by {
                assert(self.runs@[i] == before[i]);
            }
        }
    }
}

/// The researchers who clear the promotion gate, with their lift, in the order of their runs.
pub open spec fn survivors(gate: Gate, runs: Seq<ScoredRun>) -> Seq<(String, Lift)>
    decreases runs.len(),
{
    if runs.len() == 0 {
        Seq::empty()
    } else {
        let before = survivors(gate, runs.drop_last());
        match runs.last().result {
            Ok((lift, measurement)) if gate.cleared_by(lift, measurement) => before.push(
                (runs.last().researcher, lift),
            ),
            _ => before,
        }
    }
}

/// Survivors rank by delta, then by lower bound, both from high to low, then by
/// name.
impl Ranked for (String, Lift) {
    open spec fn ahead(self, other: Self) -> bool {
        let (a, b) = (self.1, other.1);
        ||| a.delta.key() > b.delta.key()
        ||| a.delta.key() == b.delta.key() && a.ci_lower.key() > b.ci_lower.key()
        ||| a.delta.key() == b.delta.key() && a.ci_lower.key() == b.ci_lower.key() && text_le(
            self.0@,
            other.0@,
        )
    }

    proof fn ahead_total(a: Self, b: Self) {
        lemma_bytes_le_total(encode_utf8(a.0@), encode_utf8(b.0@));
    }

    proof fn ahead_transitive(a: Self, b: Self, c: Self) {
        if text_le(a.0@, b.0@) && text_le(b.0@, c.0@) {
            lemma_bytes_le_transitive(encode_utf8(a.0@), encode_utf8(b.0@), encode_utf8(c.0@));
        }
    }

    fn stands_ahead(&self, other: &Self) -> (r: bool) {
        if !self.1.delta.key_equals(other.1.delta) {
            return self.1.delta.key_at_least(other.1.delta);
        }
        if !self.1.ci_lower.key_equals(other.1.ci_lower) {
            return self.1.ci_lower.key_at_least(other.1.ci_lower);
        }
        text_at_or_before(self.0.as_str(), other.0.as_str())
    }
}

/// The names of ranked survivors.
pub open spec fn names(ranked: Seq<(String, Lift)>) -> Seq<Seq<char>> {
    ranked.map_values(|s: (String, Lift)| s.0@)
}

/// Ranks survivors, best first.
pub fn rank(survivors: Vec<(String, Lift)>) -> (ranked: Vec<(String, Lift)>)
    ensures
        ranked@ == ranking(survivors@),
{
    rank_items(survivors)
}

/// The names of ranked survivors.
pub fn ranked_names(ranked: &Vec<(String, Lift)>) -> (ids: Vec<String>)
    ensures
        texts(ids@) == names(ranked@),
{
    let mut ids: Vec<String> = Vec::new();
    for i in 0..ranked.len()
        invariant
            ids@.len() == i,
            forall|j: int| 0 <= j < i ==> (#[trigger] ids@[j])@ == ranked@[j].0@,
    {
        ids.push(ranked[i].0.clone());
    }
    proof {
        assert(texts(ids@) =~= names(ranked@));
    }
    ids
}

/// What a terminal schedule pays over a best-first ranking, or why it cannot.
pub open spec fn settlement(
    reward: RewardSchedule,
    pool_wei: u128,
    ranked: Seq<Seq<char>>,
) -> Result<Seq<PayoutView>, FaultView> {
    match reward.fault() {
        Some(e) => Err(FaultView::InvalidReward(e)),
        None => match reward {
            RewardSchedule::SnapshotTopK { weights_bps } => Ok(
                snapshot_payouts(pool_wei, ranked, weights_bps@),
            ),
            RewardSchedule::TerminalPrize => Ok(
                terminal_payouts(
                    pool_wei,
                    if ranked.len() > 0 {
                        Some(ranked[0])
                    } else {
                        None
                    },
                ),
            ),
            _ => Err(FaultView::UnsupportedReward(reward)),
        },
    }
}

/// Settles a terminal schedule over a best-first ranking. Continuous schedules
/// belong to the continuous arena and are rejected.
pub fn settle_terminal_or_topk(reward: &RewardSchedule, pool_wei: u128, ranked_ids: &[String]) -> (r:
    Result<Vec<Payout>, ProtocolError>)
    requires
        reward.countable(),
    ensures
        match r {
            Ok(payouts) => settlement(*reward, pool_wei, texts(ranked_ids@)) == Ok::<
                Seq<PayoutView>,
                FaultView,
            >(payout_views(payouts@)) && paid_total(payout_views(payouts@)) <= pool_wei,
            Err(e) => settlement(*reward, pool_wei, texts(ranked_ids@)) == Err::<
                Seq<PayoutView>,
                FaultView,
            >(e@),
        },
{
    match reward.validate() {
        Ok(()) => {},
        Err(e) => {
            return Err(ProtocolError::InvalidReward(e));
        },
    }
    match reward {
        RewardSchedule::SnapshotTopK { weights_bps } => Ok(
            settle_snapshot_topk(pool_wei, ranked_ids, weights_bps.as_slice()),
        ),
        RewardSchedule::TerminalPrize => {
            let winner: Option<&str> = if ranked_ids.len() > 0 {
                Some(ranked_ids[0].as_str())
            } else {
                None
            };
            proof {
                if ranked_ids@.len() > 0 {
                    assert(texts(ranked_ids@)[0] == ranked_ids@[0]@);
                }
            }
            let payouts = settle_terminal_prize(pool_wei, winner);
            proof {
                settlement_conserves_the_pool(*reward, pool_wei, texts(ranked_ids@));
            }
            Ok(payouts)
        },
        other => Err(ProtocolError::UnsupportedReward(other.clone())),
    }
}

/// A terminal settlement never pays out more than the pool.
pub proof fn settlement_conserves_the_pool(
    reward: RewardSchedule,
    pool_wei: u128,
    ranked: Seq<Seq<char>>,
)
    ensures
        settlement(reward, pool_wei, ranked) matches Ok(payouts) ==> paid_total(payouts)
            <= pool_wei,
{
    match reward {
        RewardSchedule::SnapshotTopK { weights_bps } => {
            snapshot_never_exceeds_the_pool(pool_wei, ranked, weights_bps@);
        },
        RewardSchedule::TerminalPrize => {
            let payouts = terminal_payouts(
                pool_wei,
                if ranked.len() > 0 {
                    Some(ranked[0])
                } else {
                    None
                },
            );
            reveal_with_fuel(paid_total, 2);
            if payouts.len() > 0 {
                assert(payouts.drop_last() =~= Seq::empty());
            }
        },
        _ => {},
    }
}

impl CompetitionConfig {
    /// Why the competition may not run at all, if it may not.
    pub open spec fn setup_fault(self) -> Option<FaultView> {
        if !self.knobs.coherent() {
            Some(FaultView::IncoherentKnobs(COLLABORATIVE_IS_ONE_SHOT@))
        } else {
            match self.reward.fault() {
                Some(e) => Some(FaultView::InvalidReward(e)),
                None => None,
            }
        }
    }

    /// Checks, before any work, that the knobs make sense together and that the
    /// reward schedule conserves the pool.
    pub fn check_setup(&self) -> (r: Result<(), ProtocolError>)
        requires
            self.reward.countable(),
        ensures
            match r {
                Ok(()) => self.setup_fault() is None,
                Err(e) => self.setup_fault() == Some(e@),
            },
    {
        match self.knobs.validate() {
            Ok(()) => {},
            Err(why) => {
                return Err(ProtocolError::IncoherentKnobs(why));
            },
        }
        match self.reward.validate() {
            Ok(()) => Ok(()),
            Err(e) => Err(ProtocolError::InvalidReward(e)),
        }
    }

    /// What the engines of a public competition are told: they may climb on the dev
    /// split and their egress is unrestricted.
    pub fn public_context(&self, baseline_ref: &ArtifactRef) -> (ctx: EngineContext)
        ensures
            ctx.competition == self.id,
            ctx.baseline_ref@ == baseline_ref@,
            ctx.dev_split_ref is Some,
            ctx.dev_split_ref->0@ == "dev-split:"@ + decimal(self.id as nat),
            ctx.budget_wei == self.reward_pool_wei,
            ctx.egress_policy is None,
    {
        let split = "dev-split:".to_owned().concat(to_decimal(self.id).as_str());
        EngineContext {
            competition: self.id,
            baseline_ref: baseline_ref.clone(),
            dev_split_ref: Some(ArtifactRef(split)),
            budget_wei: self.reward_pool_wei,
            egress_policy: None,
        }
    }
}

/// Collects those who clear the promotion gate, or the first failure.
pub fn collect_survivors(gate: &Gate, runs: &Vec<ScoredRun>) -> (r: Result<
    Vec<(String, Lift)>,
    ProtocolError,
>)
    ensures
        match r {
            Ok(s) => run_fault(runs@) is None && s@ == survivors(*gate, runs@),
            Err(e) => run_fault(runs@) == Some(e@),
        },
{
    let mut found: Vec<(String, Lift)> = Vec::new();
    proof {
        assert(runs@.take(0) =~= Seq::empty());
    }
    for i in 0..runs.len()
        invariant
            run_fault(runs@.take(i as int)) is None,
            found@ == survivors(*gate, runs@.take(i as int)),
    {
        proof {
            assert(runs@.take(i + 1).drop_last() =~= runs@.take(i as int));
        }
        match &runs[i].result {
            Ok((lift, measurement)) => {
                if gate.clears(lift, measurement) {
                    found.push((runs[i].researcher.clone(), *lift));
                }
            },
            Err(failure) => {
                proof {
                    lemma_run_fault_stays(runs@, i + 1);
                }
                return Err(blame(failure, runs[i].researcher.as_str()));
            },
        }
    }
    proof {
        assert(runs@.take(runs@.len() as int) =~= runs@);
    }
    Ok(found)
}

/// Why a one-shot run fails, if it does, in the order in which it would be noticed:
/// the setup, the opening, the first failed run, and a schedule that is not terminal.
pub open spec fn oneshot_fault(
    cfg: CompetitionConfig,
    opening: Opening,
    runs: Seq<ScoredRun>,
) -> Option<FaultView> {
    if cfg.setup_fault() is Some {
        cfg.setup_fault()
    } else if opening.fault() is Some {
        opening.fault()
    } else if run_fault(runs) is Some {
        run_fault(runs)
    } else {
        match settlement(
            cfg.reward,
            cfg.reward_pool_wei,
            names(ranking(survivors(cfg.gate, runs))),
        ) {
            Ok(_) => None,
            Err(f) => Some(f),
        }
    }
}

/// Decides a one-shot competition from what came of the outside work: `opening` is
/// the scoring of the baseline and `runs` are the researchers' candidates, up to the
/// first that failed. The outside work goes no further than the first failure, but
/// without one no researcher is left out.
pub fn run_oneshot_competitive(
    cfg: &CompetitionConfig,
    opening: &Opening,
    researchers: &[ResearcherRun],
    runs: &Vec<ScoredRun>,
) -> (r: Result<CompetitionOutcome, ProtocolError>)
    requires
        cfg.reward.countable(),
        cfg.setup_fault() is Some || opening.fault() is Some || runs_cover(researchers@, runs@),
    ensures
        match r {
            Ok(outcome) => {
                &&& oneshot_fault(*cfg, *opening, runs@) is None
                &&& runs@.len() == researchers@.len()
                &&& outcome.ranked@ == ranking(survivors(cfg.gate, runs@))
                &&& outcome.winners == outcome.ranked@.len()
                &&& settlement(cfg.reward, cfg.reward_pool_wei, names(outcome.ranked@)) == Ok::<
                    Seq<PayoutView>,
                    FaultView,
                >(payout_views(outcome.payouts@))
                &&& paid_total(payout_views(outcome.payouts@)) <= cfg.reward_pool_wei
            },
            Err(e) => oneshot_fault(*cfg, *opening, runs@) == Some(e@),
        },
{
    match cfg.check_setup() {
        Ok(()) => {},
        Err(e) => {
            return Err(e);
        },
    }
    match opening.check() {
        Ok(()) => {},
        Err(e) => {
            return Err(e);
        },
    }
    let found = match collect_survivors(&cfg.gate, runs) {
        Ok(s) => s,
        Err(e) => {
            return Err(e);
        },
    };
    let ranked = rank(found);
    let ids = ranked_names(&ranked);
    let payouts = match settle_terminal_or_topk(&cfg.reward, cfg.reward_pool_wei, ids.as_slice()) {
        Ok(p) => p,
        Err(e) => {
            return Err(e);
        },
    };
    Ok(CompetitionOutcome { winners: ranked.len(), ranked, payouts })
}

/// Every survivor cleared the promotion gate, and every run that cleared it survives.
pub proof fn survivors_are_the_gate_clearers(gate: Gate, runs: Seq<ScoredRun>)
    ensures
        forall|s: (String, Lift)|
            survivors(gate, runs).contains(s) <==> exists|i: int|
                0 <= i < runs.len() && (#[trigger] runs[i]).result is Ok && gate.cleared_by(
                    runs[i].result->Ok_0.0,
                    runs[i].result->Ok_0.1,
                ) && s == (runs[i].researcher, runs[i].result->Ok_0.0),
    decreases runs.len(),
{
    if runs.len() > 0 {
        let front = runs.drop_last();
        survivors_are_the_gate_clearers(gate, front);
        let (before, after) = (survivors(gate, front), survivors(gate, runs));
        let last = runs.len() - 1;
        let clears = runs[last].result is Ok && gate.cleared_by(
            runs[last].result->Ok_0.0,
            runs[last].result->Ok_0.1,
        );
        let mine = (runs[last].researcher, runs[last].result->Ok_0.0);
        assert forall|s: (String, Lift)|
            after.contains(s) <==> exists|i: int|
                0 <= i < runs.len() && (#[trigger] runs[i]).result is Ok && gate.cleared_by(
                    runs[i].result->Ok_0.0,
                    runs[i].result->Ok_0.1,
                ) && s == (runs[i].researcher, runs[i].result->Ok_0.0) by {
            if after.contains(s) {
                let k = choose|k: int| 0 <= k < after.len() && after[k] == s;
                if k < before.len() {
                    assert(before[k] == s);
                    assert(before.contains(s));
                    let i = choose|i: int|
                        0 <= i < front.len() && (#[trigger] front[i]).result is Ok
                            && gate.cleared_by(front[i].result->Ok_0.0, front[i].result->Ok_0.1)
                            && s == (front[i].researcher, front[i].result->Ok_0.0);
                    assert(runs[i] == front[i]);
                } else {
                    assert(s == mine);
                    assert(runs[last].result is Ok);
                }
            }
            if exists|i: int|
                0 <= i < runs.len() && (#[trigger] runs[i]).result is Ok && gate.cleared_by(
                    runs[i].result->Ok_0.0,
                    runs[i].result->Ok_0.1,
                ) && s == (runs[i].researcher, runs[i].result->Ok_0.0) {
                let i = choose|i: int|
                    0 <= i < runs.len() && (#[trigger] runs[i]).result is Ok && gate.cleared_by(
                        runs[i].result->Ok_0.0,
                        runs[i].result->Ok_0.1,
                    ) && s == (runs[i].researcher, runs[i].result->Ok_0.0);
                if i < last {
                    assert(front[i] == runs[i]);
                    assert(before.contains(s));
                    let k = choose|k: int| 0 <= k < before.len() && before[k] == s;
                    assert(after[k] == s);
                } else {
                    assert(clears && s == mine);
                    assert(after[before.len() as int] == s);
                }
            }
        }
    }
}

/// The published ranking holds exactly the survivors, and nobody on it has a larger
/// delta than somebody who stands before them.
pub proof fn ranking_is_best_first(gate: Gate, runs: Seq<ScoredRun>)
    ensures
        ranking(survivors(gate, runs)).to_multiset() == survivors(gate, runs).to_multiset(),
        forall|i: int, j: int|
            0 <= i < j < ranking(survivors(gate, runs)).len() ==> (#[trigger] ranking(
                survivors(gate, runs),
            )[i]).1.delta.key() >= (#[trigger] ranking(survivors(gate, runs))[j]).1.delta.key(),
{
    ranking_orders_and_keeps(survivors(gate, runs));
    let r = ranking(survivors(gate, runs));
    assert forall|i: int, j: int| 0 <= i < j < r.len() implies (#[trigger] r[i]).1.delta.key() >= (
    #[trigger] r[j]).1.delta.key() by {
        assert(r[i].ahead(r[j]));
    }
}

proof fn lemma_ranked_cleared(gate: Gate, runs: Seq<ScoredRun>, k: int)
    requires
        0 <= k < ranking(survivors(gate, runs)).len(),
    ensures
        exists|i: int|
            0 <= i < runs.len() && (#[trigger] runs[i]).result is Ok && gate.cleared_by(
                runs[i].result->Ok_0.0,
                runs[i].result->Ok_0.1,
            ) && ranking(survivors(gate, runs))[k] == (runs[i].researcher, runs[i].result->Ok_0.0),
{
    broadcast use vstd::seq_lib::group_to_multiset_ensures;

    let s = survivors(gate, runs);
    ranking_orders_and_keeps(s);
    let entry = ranking(s)[k];
    assert(ranking(s).contains(entry));
    assert(ranking(s).to_multiset().count(entry) > 0);
    assert(s.to_multiset().count(entry) > 0);
    assert(s.contains(entry));
    survivors_are_the_gate_clearers(gate, runs);
}

/// Only a certified improvement is paid: every payout of a terminal settlement is more
/// than nothing and goes to a researcher with a run that cleared the promotion gate.
pub proof fn only_gate_clearers_are_paid(
    cfg: CompetitionConfig,
    runs: Seq<ScoredRun>,
    payouts: Seq<PayoutView>,
    p: int,
)
    requires
        settlement(
            cfg.reward,
            cfg.reward_pool_wei,
            names(ranking(survivors(cfg.gate, runs))),
        ) == Ok::<Seq<PayoutView>, FaultView>(payouts),
        0 <= p < payouts.len(),
    ensures
        payouts[p].wei > 0,
        exists|i: int|
            0 <= i < runs.len() && (#[trigger] runs[i]).result is Ok && cfg.gate.cleared_by(
                runs[i].result->Ok_0.0,
                runs[i].result->Ok_0.1,
            ) && runs[i].researcher@ == payouts[p].researcher,
{
    let ranked = ranking(survivors(cfg.gate, runs));
    let ids = names(ranked);
    match cfg.reward {
        RewardSchedule::SnapshotTopK { weights_bps } => {
            snapshot_pays_only_the_weighted(cfg.reward_pool_wei, ids, weights_bps@, p);
            let k = choose|k: int|
                0 <= k < ids.len() && k < weights_bps@.len() && #[trigger] ids[k]
                    == payouts[p].researcher && weights_bps@[k] > 0;
            lemma_ranked_cleared(cfg.gate, runs, k);
            assert(ids[k] == ranked[k].0@);
        },
        _ => {
            lemma_ranked_cleared(cfg.gate, runs, 0);
            assert(ids[0] == ranked[0].0@);
        },
    }
}

// --- What decides, in plain terms --------------------------------------------

/// The survivors are the runs that cleared the promotion gate, all of them and in their
/// order.
pub proof fn survivors_keep_the_order_of_the_runs(gate: Gate, runs: Seq<ScoredRun>)
    ensures
        survivors(gate, runs) == runs.filter(
            |r: ScoredRun|
                r.result is Ok && gate.cleared_by(r.result->Ok_0.0, r.result->Ok_0.1),
        ).map_values(|r: ScoredRun| (r.researcher, r.result->Ok_0.0)),
    decreases runs.len(),
{
    reveal(Seq::filter);
    let clears = |r: ScoredRun|
        r.result is Ok && gate.cleared_by(r.result->Ok_0.0, r.result->Ok_0.1);
    let row = |r: ScoredRun| (r.researcher, r.result->Ok_0.0);
    if runs.len() > 0 {
        let front = runs.drop_last();
        survivors_keep_the_order_of_the_runs(gate, front);
        assert(front.filter(clears).push(runs.last()).map_values(row) =~= front.filter(
            clears,
        ).map_values(row).push(row(runs.last())));
    } else {
        assert(runs.filter(clears).map_values(row) =~= Seq::empty());
    }
}

/// Of two ranked survivors the one before has no smaller delta; where the deltas are
/// equal no smaller lower bound; and where these are equal too, a name that comes no
/// later.
pub proof fn ranks_go_by_delta_then_bound_then_name(gate: Gate, runs: Seq<ScoredRun>, i: int, j: int)
    requires
        0 <= i < j < ranking(survivors(gate, runs)).len(),
    ensures
        ({
            let (a, b) = (
                ranking(survivors(gate, runs))[i],
                ranking(survivors(gate, runs))[j],
            );
            &&& b.1.delta.scaled() <= a.1.delta.scaled()
            &&& b.1.delta.scaled() == a.1.delta.scaled() ==> b.1.ci_lower.scaled()
                <= a.1.ci_lower.scaled()
            &&& b.1.delta.scaled() == a.1.delta.scaled() && b.1.ci_lower.scaled()
                == a.1.ci_lower.scaled() ==> text_le(a.0@, b.0@)
        }),
{
    let ranked = ranking(survivors(gate, runs));
    ranking_orders_and_keeps(survivors(gate, runs));
    let (a, b) = (ranked[i], ranked[j]);
    assert(a.ahead(b));
    lemma_ranked_cleared(gate, runs, i);
    lemma_ranked_cleared(gate, runs, j);
    key_order_is_value_order(a.1.delta, b.1.delta);
    key_order_is_value_order(b.1.delta, a.1.delta);
    key_order_is_value_order(a.1.ci_lower, b.1.ci_lower);
    key_order_is_value_order(b.1.ci_lower, a.1.ci_lower);
}

/// A round fails exactly where one of its runs did, and the first that did is told, an
/// engine's failure with the name of its researcher.
pub proof fn the_first_failed_run_is_told(runs: Seq<ScoredRun>)
    ensures
        run_fault(runs) is None <==> forall|k: int|
            0 <= k < runs.len() ==> (#[trigger] runs[k]).result is Ok,
        run_fault(runs) matches Some(f) ==> exists|k: int|
            {
                &&& 0 <= k < runs.len()
                &&& (#[trigger] runs[k]).result is Err
                &&& forall|j: int| 0 <= j < k ==> (#[trigger] runs[j]).result is Ok
                &&& f == (match runs[k].result->Err_0 {
                    RunFailure::Engine(source) => FaultView::Engine {
                        researcher: runs[k].researcher@,
                        source,
                    },
                    RunFailure::Surface(e) => FaultView::Surface(e),
                    RunFailure::Scorer(e) => FaultView::Scorer(e),
                })
            },
    decreases runs.len(),
{
    if runs.len() > 0 {
        let front = runs.drop_last();
        let last = runs.len() - 1;
        the_first_failed_run_is_told(front);
        assert(runs[last] == runs.last());
        assert forall|i: int| 0 <= i < front.len() implies #[trigger] front[i] == runs[i] by {}
        if run_fault(front) is Some {
            let k = choose|k: int|
                {
                    &&& 0 <= k < front.len()
                    &&& (#[trigger] front[k]).result is Err
                    &&& forall|j: int| 0 <= j < k ==> (#[trigger] front[j]).result is Ok
                    &&& run_fault(front)->0 == (match front[k].result->Err_0 {
                        RunFailure::Engine(source) => FaultView::Engine {
                            researcher: front[k].researcher@,
                            source,
                        },
                        RunFailure::Surface(e) => FaultView::Surface(e),
                        RunFailure::Scorer(e) => FaultView::Scorer(e),
                    })
                };
            assert(runs[k].result is Err);
            assert forall|j: int| 0 <= j < k implies (#[trigger] runs[j]).result is Ok by {
                assert(front[j].result is Ok);
            }
        } else {
            assert forall|j: int| 0 <= j < last implies (#[trigger] runs[j]).result is Ok by {
                assert(front[j].result is Ok);
            }
        }
    }
}

/// A terminal settlement pays the weights of the pool down the ranks, or the whole pool
/// to the first; a schedule that cannot conserve the pool is refused with its reason, and
/// a continuous one is not settled here.
pub proof fn a_settlement_pays_by_weights_or_the_whole_prize(
    reward: RewardSchedule,
    pool_wei: u128,
    ranked: Seq<Seq<char>>,
)
    ensures
        reward.fault() is Some ==> settlement(reward, pool_wei, ranked) == Err::<
            Seq<PayoutView>,
            FaultView,
        >(FaultView::InvalidReward(reward.fault()->0)),
        reward.fault() is None ==> match reward {
            RewardSchedule::SnapshotTopK { weights_bps } => settlement(reward, pool_wei, ranked)
                == Ok::<Seq<PayoutView>, FaultView>(
                snapshot_payouts(pool_wei, ranked, weights_bps@),
            ),
            RewardSchedule::TerminalPrize => {
                &&& settlement(reward, pool_wei, ranked) is Ok
                &&& ranked.len() > 0 && pool_wei > 0 ==> settlement(reward, pool_wei, ranked)->Ok_0
                    == seq![PayoutView { researcher: ranked[0], wei: pool_wei }]
                &&& ranked.len() == 0 || pool_wei == 0 ==> settlement(
                    reward,
                    pool_wei,
                    ranked,
                )->Ok_0.len() == 0
            },
            _ => settlement(reward, pool_wei, ranked) == Err::<Seq<PayoutView>, FaultView>(
                FaultView::UnsupportedReward(reward),
            ),
        },
{
    if reward is TerminalPrize && ranked.len() > 0 && pool_wei > 0 {
        assert(settlement(reward, pool_wei, ranked)->Ok_0 =~= seq![
            PayoutView { researcher: ranked[0], wei: pool_wei },
        ]);
    }
}

/// A run comes to an outcome exactly where the knobs make sense together, the schedule
/// conserves the pool and is terminal, the baseline was referred to and scored, and no
/// run failed; otherwise the earliest of these that is missing is told.
pub proof fn a_run_fails_for_its_earliest_reason(
    cfg: CompetitionConfig,
    opening: Opening,
    runs: Seq<ScoredRun>,
)
    ensures
        ({
            let fault = oneshot_fault(cfg, opening, runs);
            let coherent = cfg.knobs.structure is Competitive || cfg.knobs.cadence is OneShot;
            let conserving = cfg.reward.fault() is None;
            let opened = opening.surface is Ok && opening.baseline is Ok;
            let terminal = cfg.reward is SnapshotTopK || cfg.reward is TerminalPrize;
            &&& fault is None <==> coherent && conserving && opened && run_fault(runs) is None
                && terminal
            &&& !coherent ==> fault is Some && fault->0 is IncoherentKnobs
            &&& coherent && !conserving ==> fault == Some(
                FaultView::InvalidReward(cfg.reward.fault()->0),
            )
            &&& coherent && conserving && opening.surface is Err ==> fault == Some(
                FaultView::Surface(opening.surface->Err_0),
            )
            &&& coherent && conserving && opening.surface is Ok && opening.baseline is Err ==> fault
                == Some(FaultView::Scorer(opening.baseline->Err_0))
            &&& coherent && conserving && opened && run_fault(runs) is Some ==> fault == run_fault(
                runs,
            )
            &&& coherent && conserving && opened && run_fault(runs) is None && !terminal ==> fault
                == Some(FaultView::UnsupportedReward(cfg.reward))
        }),
{
}

/// The prize goes to a best run: whoever is paid a terminal prize has a run that cleared
/// the promotion gate, and no run that cleared it has a greater delta.
pub proof fn the_prize_goes_to_the_greatest_delta(
    gate: Gate,
    pool_wei: u128,
    runs: Seq<ScoredRun>,
    other: int,
)
    requires
        pool_wei > 0,
        0 <= other < runs.len(),
        runs[other].result is Ok,
        gate.cleared_by(runs[other].result->Ok_0.0, runs[other].result->Ok_0.1),
    ensures
        ({
            let paid = settlement(
                RewardSchedule::TerminalPrize,
                pool_wei,
                names(ranking(survivors(gate, runs))),
            )->Ok_0;
            &&& paid.len() == 1
            &&& paid[0].wei == pool_wei
            &&& exists|i: int|
                {
                    &&& 0 <= i < runs.len()
                    &&& (#[trigger] runs[i]).result is Ok
                    &&& gate.cleared_by(runs[i].result->Ok_0.0, runs[i].result->Ok_0.1)
                    &&& runs[i].researcher@ == paid[0].researcher
                    &&& runs[i].result->Ok_0.0.delta.scaled()
                        >= runs[other].result->Ok_0.0.delta.scaled()
                }
        }),
{
    broadcast use vstd::seq_lib::group_to_multiset_ensures;

    let s = survivors(gate, runs);
    let ranked = ranking(s);
    let entry = (runs[other].researcher, runs[other].result->Ok_0.0);
    survivors_are_the_gate_clearers(gate, runs);
    assert(s.contains(entry));
    ranking_orders_and_keeps(s);
    assert(s.to_multiset().count(entry) > 0);
    assert(ranked.to_multiset().count(entry) > 0);
    assert(ranked.contains(entry));
    let j = choose|j: int| 0 <= j < ranked.len() && ranked[j] == entry;
    lemma_ranked_cleared(gate, runs, 0);
    let i = choose|i: int|
        0 <= i < runs.len() && (#[trigger] runs[i]).result is Ok && gate.cleared_by(
            runs[i].result->Ok_0.0,
            runs[i].result->Ok_0.1,
        ) && ranked[0] == (runs[i].researcher, runs[i].result->Ok_0.0);
    if j > 0 {
        ranks_go_by_delta_then_bound_then_name(gate, runs, 0, j);
    }
    assert(names(ranked)[0] == ranked[0].0@);
    assert(runs[i].researcher@ == ranked[0].0@);
    assert(RewardSchedule::TerminalPrize.fault() is None);
}

// --- What the operations give back -------------------------------------------

/// What a competition comes to. It comes to an outcome exactly where its knobs make sense
/// together, its schedule is terminal and conserves the pool, the opening succeeded and no
/// run failed. Then those who cleared the promotion gate, all of them and nobody else, are
/// ranked and counted as winners, and no more than the pool is paid.
pub proof fn a_competition_ranks_all_who_cleared_the_gate(
    cfg: &CompetitionConfig,
    opening: &Opening,
    researchers: &[ResearcherRun],
    runs: &Vec<ScoredRun>,
    r: Result<CompetitionOutcome, ProtocolError>,
    i: int,
    j: int,
)
    requires
        call_ensures(run_oneshot_competitive, (cfg, opening, researchers, runs), r),
    ensures
        r is Ok <==> {
            &&& cfg.knobs.structure is Competitive || cfg.knobs.cadence is OneShot
            &&& cfg.reward is SnapshotTopK || cfg.reward is TerminalPrize
            &&& cfg.reward.fault() is None
            &&& opening.surface is Ok && opening.baseline is Ok
            &&& forall|k: int| 0 <= k < runs@.len() ==> (#[trigger] runs@[k]).result is Ok
        },
        r matches Ok(outcome) ==> {
            &&& outcome.ranked@.to_multiset() == runs@.filter(
                |run: ScoredRun|
                    run.result is Ok && cfg.gate.cleared_by(
                        run.result->Ok_0.0,
                        run.result->Ok_0.1,
                    ),
            ).map_values(|run: ScoredRun| (run.researcher, run.result->Ok_0.0)).to_multiset()
            &&& outcome.winners == outcome.ranked@.len()
            &&& 0 <= i < j < outcome.ranked@.len() ==> {
                let (a, b) = (outcome.ranked@[i], outcome.ranked@[j]);
                &&& a.1.delta.scaled() >= b.1.delta.scaled()
                &&& a.1.delta.scaled() == b.1.delta.scaled() ==> a.1.ci_lower.scaled()
                    >= b.1.ci_lower.scaled()
                &&& a.1.delta.scaled() == b.1.delta.scaled() && a.1.ci_lower.scaled()
                    == b.1.ci_lower.scaled() ==> text_le(a.0@, b.0@)
            }
            &&& paid_total(payout_views(outcome.payouts@)) <= cfg.reward_pool_wei
        },
{
    a_run_fails_for_its_earliest_reason(*cfg, *opening, runs@);
    the_first_failed_run_is_told(runs@);
    survivors_keep_the_order_of_the_runs(cfg.gate, runs@);
    ranking_orders_and_keeps(survivors(cfg.gate, runs@));
    if let Ok(outcome) = r {
        if 0 <= i < j < outcome.ranked@.len() {
            ranks_go_by_delta_then_bound_then_name(cfg.gate, runs@, i, j);
        }
    }
}

/// What a competition pays is what settling its ranking pays: the whole prize to the
/// first, or the weights down the ranks.
pub proof fn a_competition_pays_down_its_ranking(
    cfg: &CompetitionConfig,
    opening: &Opening,
    researchers: &[ResearcherRun],
    runs: &Vec<ScoredRun>,
    outcome: CompetitionOutcome,
    ids: &[String],
    weights: &[u32],
    by_weight: Vec<Payout>,
    i: int,
)
    requires
        call_ensures(
            run_oneshot_competitive,
            (cfg, opening, researchers, runs),
            Ok::<CompetitionOutcome, ProtocolError>(outcome),
        ),
        ids@.len() == outcome.ranked@.len(),
        forall|k: int| 0 <= k < ids@.len() ==> (#[trigger] ids@[k])@ == outcome.ranked@[k].0@,
        call_ensures(settle_snapshot_topk, (cfg.reward_pool_wei, ids, weights), by_weight),
    ensures
        cfg.reward is TerminalPrize && cfg.reward_pool_wei > 0 && outcome.ranked@.len() > 0 ==> {
            &&& outcome.payouts@.len() == 1
            &&& outcome.payouts@[0].researcher@ == outcome.ranked@[0].0@
            &&& outcome.payouts@[0].wei == cfg.reward_pool_wei
        },
        outcome.ranked@.len() == 0 || cfg.reward_pool_wei == 0 ==> outcome.payouts@.len() == 0,
        cfg.reward matches RewardSchedule::SnapshotTopK { weights_bps } ==> weights_bps@ == weights@
            ==> {
            &&& outcome.payouts@.len() == by_weight@.len()
            &&& 0 <= i < by_weight@.len() ==> outcome.payouts@[i].researcher@
                == by_weight@[i].researcher@ && outcome.payouts@[i].wei == by_weight@[i].wei
        },
{
    let ranked = names(outcome.ranked@);
    assert(texts(ids@) =~= ranked);
    a_settlement_pays_by_weights_or_the_whole_prize(cfg.reward, cfg.reward_pool_wei, ranked);
    let (p, q) = (payout_views(outcome.payouts@), payout_views(by_weight@));
    assert(p.len() == outcome.payouts@.len() && q.len() == by_weight@.len());
    if p.len() > 0 {
        assert(p[0] == outcome.payouts@[0]@);
        assert(ranked.len() > 0 ==> ranked[0] == outcome.ranked@[0].0@);
    }
    if 0 <= i < by_weight@.len() && i < p.len() {
        assert(p[i] == outcome.payouts@[i]@);
        assert(q[i] == by_weight@[i]@);
    }
    if cfg.reward is SnapshotTopK {
        if ranked.len() == 0 {
            assert(p =~= Seq::empty());
        }
        if cfg.reward_pool_wei == 0 && p.len() > 0 {
            only_gate_clearers_are_paid(*cfg, runs@, p, 0);
            lemma_one_is_in_the_total(p);
        }
    }
}

proof fn lemma_one_is_in_the_total(p: Seq<PayoutView>)
    requires
        p.len() > 0,
    ensures
        paid_total(p) >= p[0].wei,
    decreases p.len(),
{
    reveal_with_fuel(paid_total, 2);
    if p.len() > 1 {
        lemma_one_is_in_the_total(p.drop_last());
    }
}

/// Those who are collected are those whose run cleared the promotion gate, in the order of
/// the runs; a failed run fails the collection.
pub proof fn those_who_cleared_are_collected(
    gate: &Gate,
    runs: &Vec<ScoredRun>,
    r: Result<Vec<(String, Lift)>, ProtocolError>,
)
    requires
        call_ensures(collect_survivors, (gate, runs), r),
    ensures
        r is Ok <==> forall|k: int|
            0 <= k < runs@.len() ==> (#[trigger] runs@[k]).result is Ok,
        r matches Ok(found) ==> found@ == runs@.filter(
            |run: ScoredRun|
                run.result is Ok && gate.cleared_by(run.result->Ok_0.0, run.result->Ok_0.1),
        ).map_values(|run: ScoredRun| (run.researcher, run.result->Ok_0.0)),
{
    survivors_keep_the_order_of_the_runs(*gate, runs@);
    the_first_failed_run_is_told(runs@);
}

/// An opening passes exactly where both its parts did; the surface's failure is told
/// first.
pub proof fn an_opening_passes_where_both_parts_did(
    opening: &Opening,
    r: Result<(), ProtocolError>,
)
    requires
        call_ensures(Opening::check, (opening,), r),
    ensures
        r is Ok <==> opening.surface is Ok && opening.baseline is Ok,
        opening.surface matches Err(e) ==> (r matches Err(f) && f@ == FaultView::Surface(e)),
        opening.surface is Ok ==> (opening.baseline matches Err(e) ==> (r matches Err(f) && f@
            == FaultView::Scorer(e))),
{
}

/// A setup passes exactly where the knobs make sense together and the schedule conserves
/// the pool; the knobs are told first.
pub proof fn a_setup_passes_where_knobs_and_schedule_do(
    cfg: &CompetitionConfig,
    r: Result<(), ProtocolError>,
)
    requires
        call_ensures(CompetitionConfig::check_setup, (cfg,), r),
    ensures
        ({
            let coherent = cfg.knobs.structure is Competitive || cfg.knobs.cadence is OneShot;
            &&& r is Ok <==> coherent && cfg.reward.fault() is None
            &&& !coherent ==> (r matches Err(e) && e@ is IncoherentKnobs)
            &&& coherent ==> (cfg.reward.fault() matches Some(why) ==> (r matches Err(e) && e@
                == FaultView::InvalidReward(why)))
        }),
{
}

/// It is the turn of the first researcher who has not had one, until all have or a turn
/// failed; what comes of a turn is taken down last.
pub proof fn turns_are_taken_in_order(
    round: &mut Round,
    researchers: &[ResearcherRun],
    result: Result<(Lift, Measurement), RunFailure>,
    turn: Option<usize>,
    done: (),
)
    requires
        old(round).follows(researchers@),
        old(round).runs@.len() < researchers@.len(),
        old(round).runs@.len() > 0 ==> old(round).runs@.last().result is Ok,
        call_ensures(Round::next_turn, (&*old(round), researchers), turn),
        call_ensures(Round::record, (round, researchers, result), done),
    ensures
        turn == Some(old(round).runs@.len() as usize),
        final(round).runs@.len() == old(round).runs@.len() + 1,
        final(round).runs@.drop_last() == old(round).runs@,
        final(round).runs@.last().result == result,
        final(round).runs@.last().researcher@ == researchers@[turn->0 as int].researcher@,
{
    assert(final(round).runs@[final(round).runs@.len() - 1] == final(round).runs@.last());
}

/// What a public engine is told: the baseline as it is, the dev split of the competition,
/// the pool as its budget, and no policy.
pub proof fn a_public_engine_climbs_on_the_dev_split(
    cfg: &CompetitionConfig,
    baseline_ref: &ArtifactRef,
    ctx: EngineContext,
)
    requires
        call_ensures(CompetitionConfig::public_context, (cfg, baseline_ref), ctx),
    ensures
        ctx.competition == cfg.id,
        ctx.baseline_ref@ == baseline_ref@,
        ctx.dev_split_ref matches Some(split) && split@ == "dev-split:"@ + decimal(cfg.id as nat),
        ctx.budget_wei == cfg.reward_pool_wei,
        ctx.egress_policy is None,
{
}

} // verus!
