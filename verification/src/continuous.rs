//! The continuous arena: a leaderboard that keeps moving.
//!
//! Researchers submit improving artifacts over time. Under a record bounty each new
//! best is paid its marginal improvement on the spot; under time-at-top streaming
//! the holder of the first place is paid for each epoch held. The log of both is
//! append-only, and ranks and payouts can be recomputed from it.
use crate::amounts::{lesser, lesser_of, minus_capped, times_capped, wei_cap};
use crate::order::{
    lemma_bytes_le_total, lemma_bytes_le_transitive, lemma_text_le_antisymmetric, rank_items,
    ranking, ranking_orders_and_keeps, text_at_or_before, text_le, Ranked,
};
use crate::orchestrator::{FaultView, ProtocolError};
use crate::reward::{
    beats_bar, best_after, bounty_buys_the_frontier_once, bounty_payouts, marginal, paid_total,
    representable, BeatView, PayoutView,
};
use crate::text::{opt_text, same_text};
use crate::traits::{ScorerError, SurfaceError};
use crate::types::{Gate, Lift, Measurement};
use vstd::math::{max, min};
use vstd::prelude::*;
use vstd::utf8::encode_utf8;

verus! {

/// Reward shape of a continuous arena.
#[derive(Clone, Copy, Debug, PartialEq, Eq, Structural)]
pub enum ContinuousSchedule {
    /// Each record is paid its marginal lift over the best before it, once that
    /// margin reaches `epsilon_micros`.
    RecordBounty { epsilon_micros: i64, wei_per_micro: u128 },
    /// The top holder is paid `wei_per_epoch` for each epoch held.
    TimeAtTopStreaming { wei_per_epoch: u128 },
}

/// Why a log entry was written.
#[derive(Clone, Copy, Debug, PartialEq, Eq, Structural)]
pub enum EntryKind {
    /// A new best.
    Record,
    /// A credit to the top holder for an epoch.
    EpochCredit,
}

/// One row of the leaderboard log.
#[derive(Clone, Debug, PartialEq, Eq)]
pub struct LeaderboardEntry {
    /// The epoch in which the entry was booked.
    pub epoch: u64,
    /// Whom the entry credits.
    pub researcher: String,
    /// The best score in micro-units: the new one of a record, the standing one of a
    /// credit.
    pub lift_micros: i64,
    /// Wei paid by this entry.
    pub paid_wei: u128,
    /// Whether this is a record or a credit.
    pub kind: EntryKind,
}

/// What a log entry says.
pub struct EntryView {
    pub epoch: u64,
    pub researcher: Seq<char>,
    pub lift_micros: i64,
    pub paid_wei: u128,
    pub kind: EntryKind,
}

impl View for LeaderboardEntry {
    type V = EntryView;

    open spec fn view(&self) -> EntryView {
        EntryView {
            epoch: self.epoch,
            researcher: self.researcher@,
            lift_micros: self.lift_micros,
            paid_wei: self.paid_wei,
            kind: self.kind,
        }
    }
}

/// What a log says.
pub open spec fn entry_views(h: Seq<LeaderboardEntry>) -> Seq<EntryView> {
    h.map_values(|e: LeaderboardEntry| e@)
}

/// The outcome of one submission.
#[derive(Clone, Copy, Debug, PartialEq, Eq, Structural)]
pub struct SubmitOutcome {
    /// Whether the submission set a new best.
    pub became_record: bool,
    /// Wei paid by this submission.
    pub paid_wei: u128,
    /// The new best, if it set one.
    pub new_best_micros: Option<i64>,
}

/// The outcome of a submission that changes nothing.
pub open spec fn no_record() -> SubmitOutcome {
    SubmitOutcome { became_record: false, paid_wei: 0, new_best_micros: None }
}

/// A continuous arena over one competition.
#[derive(Clone, Debug)]
pub struct ContinuousArena {
    pub id: u64,
    /// The promotion gate that every submission must clear.
    pub gate: Gate,
    /// The reward shape.
    pub schedule: ContinuousSchedule,
    /// Total pool in wei.
    pub pool_wei: u128,
    /// The score that the first record is measured from.
    pub baseline_micros: i64,
    /// The best score, once there is one.
    pub best_micros: Option<i64>,
    /// Who holds the first place, once somebody does.
    pub top_holder: Option<String>,
    /// Wei paid so far.
    pub spent_wei: u128,
    /// The current epoch.
    pub epoch: u64,
    /// The log.
    pub history: Vec<LeaderboardEntry>,
}

/// What an arena holds.
pub struct ArenaView {
    pub id: u64,
    pub gate: Gate,
    pub schedule: ContinuousSchedule,
    pub pool_wei: u128,
    pub baseline_micros: i64,
    pub best_micros: Option<i64>,
    pub top_holder: Option<Seq<char>>,
    pub spent_wei: u128,
    pub epoch: u64,
    pub history: Seq<EntryView>,
}

impl View for ContinuousArena {
    type V = ArenaView;

    open spec fn view(&self) -> ArenaView {
        ArenaView {
            id: self.id,
            gate: self.gate,
            schedule: self.schedule,
            pool_wei: self.pool_wei,
            baseline_micros: self.baseline_micros,
            best_micros: self.best_micros,
            top_holder: opt_text(self.top_holder),
            spent_wei: self.spent_wei,
            epoch: self.epoch,
            history: entry_views(self.history@),
        }
    }
}

impl ArenaView {
    /// The score that the next submission must beat.
    pub open spec fn bar(self) -> i64 {
        match self.best_micros {
            Some(b) => b,
            None => self.baseline_micros,
        }
    }

    /// The wei that is left.
    pub open spec fn remaining(self) -> int {
        if self.pool_wei > self.spent_wei {
            self.pool_wei - self.spent_wei
        } else {
            0
        }
    }

    /// What a submission of `micros` is owed, if it counts as a record that can be
    /// paid. A record that the pool cannot pay in full is no record.
    pub open spec fn record_pay(self, micros: i64) -> Option<u128> {
        let margin = marginal(micros, self.bar() as int);
        match self.schedule {
            ContinuousSchedule::RecordBounty { epsilon_micros, wei_per_micro } => {
                let owed = wei_cap(margin * wei_per_micro);
                if beats_bar(margin, epsilon_micros) && owed <= self.remaining() {
                    Some(owed as u128)
                } else {
                    None
                }
            },
            ContinuousSchedule::TimeAtTopStreaming { wei_per_epoch } => if margin > 0 {
                Some(0)
            } else {
                None
            },
        }
    }

    /// The arena after `researcher` has set the record `micros` and was paid `paid`.
    pub open spec fn recorded(self, researcher: Seq<char>, micros: i64, paid: u128) -> ArenaView {
        ArenaView {
            best_micros: Some(micros),
            top_holder: Some(researcher),
            spent_wei: (self.spent_wei + paid) as u128,
            history: self.history.push(
                EntryView {
                    epoch: self.epoch,
                    researcher,
                    lift_micros: micros,
                    paid_wei: paid,
                    kind: EntryKind::Record,
                },
            ),
            ..self
        }
    }

    /// The arena after a submission, and the submission's outcome.
    pub open spec fn submitted(
        self,
        researcher: Seq<char>,
        lift: Lift,
        measurement: Measurement,
        micros: i64,
    ) -> (ArenaView, SubmitOutcome) {
        if !self.gate.cleared_by(lift, measurement) {
            (self, no_record())
        } else {
            match self.record_pay(micros) {
                Some(paid) => (
                    self.recorded(researcher, micros, paid),
                    SubmitOutcome {
                        became_record: true,
                        paid_wei: paid,
                        new_best_micros: Some(micros),
                    },
                ),
                None => (self, no_record()),
            }
        }
    }

    /// What the next tick credits: under streaming, the rate, as far as the pool goes,
    /// to the top holder if there is one.
    pub open spec fn tick_credit(self) -> int {
        match (self.schedule, self.top_holder) {
            (ContinuousSchedule::TimeAtTopStreaming { wei_per_epoch }, Some(_)) => lesser(
                wei_per_epoch as int,
                self.remaining(),
            ),
            _ => 0,
        }
    }

    /// The arena after the clock has advanced by one epoch.
    pub open spec fn ticked(self) -> ArenaView {
        let later = ArenaView { epoch: (self.epoch + 1) as u64, ..self };
        let credit = self.tick_credit();
        if credit > 0 {
            ArenaView {
                spent_wei: (self.spent_wei + credit) as u128,
                history: self.history.push(
                    EntryView {
                        epoch: later.epoch,
                        researcher: self.top_holder->0,
                        lift_micros: self.bar(),
                        paid_wei: credit as u128,
                        kind: EntryKind::EpochCredit,
                    },
                ),
                ..later
            }
        } else {
            later
        }
    }
}

/// Why a submission could not be scored.
#[derive(Debug)]
pub enum ScoreFailure {
    /// The surface rejected the artifact.
    Surface(SurfaceError),
    /// The scorer failed.
    Scorer(ScorerError),
}

/// A scored submission.
#[derive(Clone, Copy, Debug)]
pub struct ScoredSubmission {
    /// Lift over the baseline on the held-out split.
    pub lift: Lift,
    /// The measurement behind it.
    pub measurement: Measurement,
    /// The lift's delta in micro-units, rounded to the nearest.
    pub delta_micros: i64,
}

impl ContinuousArena {
    /// An arena without submissions.
    pub fn new(
        id: u64,
        gate: Gate,
        schedule: ContinuousSchedule,
        pool_wei: u128,
        baseline_micros: i64,
    ) -> (r: Self)
        ensures
            r@ == (ArenaView {
                id,
                gate,
                schedule,
                pool_wei,
                baseline_micros,
                best_micros: None,
                top_holder: None,
                spent_wei: 0,
                epoch: 0,
                history: Seq::empty(),
            }),
            r@.wf(),
    {
        let r = ContinuousArena {
            id,
            gate,
            schedule,
            pool_wei,
            baseline_micros,
            best_micros: None,
            top_holder: None,
            spent_wei: 0,
            epoch: 0,
            history: Vec::new(),
        };
        proof {
            assert(r@.history =~= Seq::empty());
        }
        r
    }

    fn current_bar(&self) -> (r: i64)
        ensures
            r == self@.bar(),
    {
        match self.best_micros {
            Some(b) => b,
            None => self.baseline_micros,
        }
    }

    fn remaining_pool(&self) -> (r: u128)
        ensures
            r == self@.remaining(),
    {
        if self.pool_wei > self.spent_wei {
            self.pool_wei - self.spent_wei
        } else {
            0
        }
    }

    /// Takes a submission of `researcher`: `scored` is what came of checking and
    /// scoring it. It must clear the promotion gate and beat the bar to move the best; otherwise
    /// it changes nothing.
    pub fn submit(&mut self, researcher: &str, scored: Result<ScoredSubmission, ScoreFailure>) -> (r:
        Result<SubmitOutcome, ProtocolError>)
        ensures
            match scored {
                Ok(s) => {
                    let (after, outcome) = old(self)@.submitted(
                        researcher@,
                        s.lift,
                        s.measurement,
                        s.delta_micros,
                    );
                    &&& r == Ok::<SubmitOutcome, ProtocolError>(outcome)
                    &&& final(self)@ == after
                },
                Err(failure) => {
                    &&& r is Err
                    &&& r->Err_0@ == (match failure {
                        ScoreFailure::Surface(e) => FaultView::Surface(e),
                        ScoreFailure::Scorer(e) => FaultView::Scorer(e),
                    })
                    &&& final(self)@ == old(self)@
                },
            },
            old(self)@.wf() ==> final(self)@.wf(),
    {
        let s = match scored {
            Ok(s) => s,
            Err(ScoreFailure::Surface(e)) => {
                return Err(ProtocolError::Surface(e));
            },
            Err(ScoreFailure::Scorer(e)) => {
                return Err(ProtocolError::Scorer(e));
            },
        };
        proof {
            if old(self)@.wf() {
                submissions_keep_the_arena_sound(
                    old(self)@,
                    researcher@,
                    s.lift,
                    s.measurement,
                    s.delta_micros,
                );
            }
        }
        if !self.gate.clears(&s.lift, &s.measurement) {
            return Ok(SubmitOutcome { became_record: false, paid_wei: 0, new_best_micros: None });
        }
        let margin: i64 = minus_capped(s.delta_micros, self.current_bar());
        match self.schedule {
            ContinuousSchedule::RecordBounty { epsilon_micros, wei_per_micro } => Ok(
                self.try_record_bounty(
                    researcher,
                    s.delta_micros,
                    margin,
                    epsilon_micros,
                    wei_per_micro,
                ),
            ),
            ContinuousSchedule::TimeAtTopStreaming { .. } => Ok(
                self.try_streaming_record(researcher, s.delta_micros, margin),
            ),
        }
    }

    fn book_record(&mut self, researcher: &str, micros: i64, paid_wei: u128)
        requires
            old(self).spent_wei + paid_wei <= u128::MAX,
        ensures
            final(self)@ == old(self)@.recorded(researcher@, micros, paid_wei),
    {
        let entry = LeaderboardEntry {
            epoch: self.epoch,
            researcher: researcher.to_owned(),
            lift_micros: micros,
            paid_wei,
            kind: EntryKind::Record,
        };
        let ghost view = entry@;
        self.spent_wei = self.spent_wei + paid_wei;
        self.best_micros = Some(micros);
        self.top_holder = Some(researcher.to_owned());
        self.history.push(entry);
        proof {
            assert(entry_views(self.history@) =~= entry_views(old(self).history@).push(view));
        }
    }

    fn try_record_bounty(
        &mut self,
        researcher: &str,
        new_micros: i64,
        margin: i64,
        epsilon_micros: i64,
        wei_per_micro: u128,
    ) -> (r: SubmitOutcome)
        requires
            old(self).schedule == (ContinuousSchedule::RecordBounty {
                epsilon_micros,
                wei_per_micro,
            }),
            margin == marginal(new_micros, old(self)@.bar() as int),
        ensures
            match old(self)@.record_pay(new_micros) {
                Some(paid) => {
                    &&& final(self)@ == old(self)@.recorded(researcher@, new_micros, paid)
                    &&& r == (SubmitOutcome {
                        became_record: true,
                        paid_wei: paid,
                        new_best_micros: Some(new_micros),
                    })
                },
                None => final(self)@ == old(self)@ && r == no_record(),
            },
    {
        if margin < epsilon_micros || margin <= 0 {
            return SubmitOutcome { became_record: false, paid_wei: 0, new_best_micros: None };
        }
        let owed: u128 = times_capped(margin as u128, wei_per_micro);
        if owed > self.remaining_pool() {
            return SubmitOutcome { became_record: false, paid_wei: 0, new_best_micros: None };
        }
        self.book_record(researcher, new_micros, owed);
        SubmitOutcome { became_record: true, paid_wei: owed, new_best_micros: Some(new_micros) }
    }

    fn try_streaming_record(&mut self, researcher: &str, new_micros: i64, margin: i64) -> (r:
        SubmitOutcome)
        requires
            old(self).schedule is TimeAtTopStreaming,
            margin == marginal(new_micros, old(self)@.bar() as int),
        ensures
            match old(self)@.record_pay(new_micros) {
                Some(paid) => {
                    &&& final(self)@ == old(self)@.recorded(researcher@, new_micros, paid)
                    &&& r == (SubmitOutcome {
                        became_record: true,
                        paid_wei: paid,
                        new_best_micros: Some(new_micros),
                    })
                },
                None => final(self)@ == old(self)@ && r == no_record(),
            },
    {
        if margin <= 0 {
            return SubmitOutcome { became_record: false, paid_wei: 0, new_best_micros: None };
        }
        self.book_record(researcher, new_micros, 0);
        SubmitOutcome { became_record: true, paid_wei: 0, new_best_micros: Some(new_micros) }
    }

    /// Advances the clock by one epoch and returns what was credited for it.
    pub fn tick_epoch(&mut self) -> (credited: u128)
        requires
            old(self).epoch < u64::MAX,
        ensures
            credited == old(self)@.tick_credit(),
            final(self)@ == old(self)@.ticked(),
            old(self)@.wf() ==> final(self)@.wf(),
    {
        proof {
            if old(self)@.wf() {
                ticks_keep_the_arena_sound(old(self)@);
            }
        }
        self.epoch = self.epoch + 1;
        let wei_per_epoch: u128 = match self.schedule {
            ContinuousSchedule::TimeAtTopStreaming { wei_per_epoch } => wei_per_epoch,
            ContinuousSchedule::RecordBounty { .. } => {
                return 0;
            },
        };
        let holder = match &self.top_holder {
            Some(h) => h.clone(),
            None => {
                return 0;
            },
        };
        let credited: u128 = lesser_of(wei_per_epoch, self.remaining_pool());
        if credited == 0 {
            return 0;
        }
        let entry = LeaderboardEntry {
            epoch: self.epoch,
            researcher: holder,
            lift_micros: self.current_bar(),
            paid_wei: credited,
            kind: EntryKind::EpochCredit,
        };
        let ghost view = entry@;
        self.spent_wei = self.spent_wei + credited;
        self.history.push(entry);
        proof {
            assert(entry_views(self.history@) =~= entry_views(old(self).history@).push(view));
        }
        credited
    }

    /// The log.
    pub fn leaderboard(&self) -> (r: &[LeaderboardEntry])
        ensures
            r@ == self.history@,
    {
        self.history.as_slice()
    }

    /// The best score of each researcher, recomputed from the log alone; best first,
    /// ties by name.
    pub fn standings(&self) -> (r: Vec<(String, i64)>)
        ensures
            standings_of(standing_views(r@), self@.history),
    {
        let mut best: Vec<(String, i64)> = Vec::new();
        let ghost all = entry_views(self.history@);
        for i in 0..self.history.len()
            invariant
                all == entry_views(self.history@),
                bests_of(standing_views(best@), all.take(i as int)),
        {
            let ghost before = best@;
            let entry = &self.history[i];
            proof {
                assert(all.take(i + 1) =~= all.take(i as int).push(entry@));
            }
            if entry.kind == EntryKind::Record {
                match find_standing(&best, entry.researcher.as_str()) {
                    Some(k) => {
                        let score: i64 = if best[k].1 >= entry.lift_micros {
                            best[k].1
                        } else {
                            entry.lift_micros
                        };
                        best.set(k, (entry.researcher.clone(), score));
                        proof {
                            assert(standing_views(best@) =~= standing_views(before).update(
                                k as int,
                                (entry.researcher@, score),
                            ));
                            lemma_bests_raise(
                                standing_views(before),
                                all.take(i as int),
                                entry@,
                                k as int,
                                score,
                            );
                        }
                    },
                    None => {
                        best.push((entry.researcher.clone(), entry.lift_micros));
                        proof {
                            assert(standing_views(best@) =~= standing_views(before).push(
                                (entry.researcher@, entry.lift_micros),
                            ));
                            lemma_bests_add(standing_views(before), all.take(i as int), entry@);
                        }
                    },
                }
            } else {
                proof {
                    lemma_bests_skip(standing_views(before), all.take(i as int), entry@);
                }
            }
        }
        proof {
            assert(all.take(all.len() as int) =~= all);
            lemma_standings_from_bests(best@, all);
        }
        rank_items(best)
    }
}

fn find_standing(best: &Vec<(String, i64)>, researcher: &str) -> (r: Option<usize>)
    ensures
        match r {
            Some(k) => k < best@.len() && best@[k as int].0@ == researcher@,
            None => forall|j: int| 0 <= j < best@.len() ==> (#[trigger] best@[j]).0@ != researcher@,
        },
{
    for k in 0..best.len()
        invariant
            forall|j: int| 0 <= j < k ==> (#[trigger] best@[j]).0@ != researcher@,
    {
        if same_text(best[k].0.as_str(), researcher) {
            return Some(k);
        }
    }
    None
}

// --- Standings --------------------------------------------------------------

/// The names and scores of a list of standings.
pub open spec fn standing_views(s: Seq<(String, i64)>) -> Seq<(Seq<char>, i64)> {
    s.map_values(|x: (String, i64)| (x.0@, x.1))
}

/// The entry is a record of `researcher`.
pub open spec fn record_of(e: EntryView, researcher: Seq<char>) -> bool {
    e.kind == EntryKind::Record && e.researcher == researcher
}

/// `score` is the best record of `researcher` in the log.
#[verifier::opaque]
pub open spec fn best_record(h: Seq<EntryView>, researcher: Seq<char>, score: i64) -> bool {
    &&& exists|i: int|
        0 <= i < h.len() && record_of(#[trigger] h[i], researcher) && h[i].lift_micros == score
    &&& forall|i: int|
        0 <= i < h.len() && record_of(#[trigger] h[i], researcher) ==> h[i].lift_micros <= score
}

/// The list has a row for `researcher`.
#[verifier::opaque]
pub open spec fn listed(s: Seq<(Seq<char>, i64)>, researcher: Seq<char>) -> bool {
    exists|k: int| 0 <= k < s.len() && (#[trigger] s[k]).0 == researcher
}

/// The list holds every researcher with a record once, with their best.
pub open spec fn bests_of(s: Seq<(Seq<char>, i64)>, h: Seq<EntryView>) -> bool {
    &&& forall|i: int, j: int|
        0 <= i < s.len() && 0 <= j < s.len() && i != j ==> (#[trigger] s[i]).0 != (#[trigger] s[j]).0
    &&& forall|i: int| 0 <= i < s.len() ==> best_record(h, (#[trigger] s[i]).0, s[i].1)
    &&& forall|i: int|
        0 <= i < h.len() && (#[trigger] h[i]).kind == EntryKind::Record ==> listed(
            s,
            h[i].researcher,
        )
}

/// The standings of a log: every researcher with a record once, with their best,
/// from high to low, equal scores by name.
pub open spec fn standings_of(s: Seq<(Seq<char>, i64)>, h: Seq<EntryView>) -> bool {
    &&& bests_of(s, h)
    &&& forall|i: int, j: int|
        0 <= i < j < s.len() ==> (#[trigger] s[i]).1 > (#[trigger] s[j]).1 || (s[i].1 == s[j].1
            && text_le(s[i].0, s[j].0))
}

/// Standings rank by score from high to low, then by name.
impl Ranked for (String, i64) {
    open spec fn ahead(self, other: Self) -> bool {
        self.1 > other.1 || (self.1 == other.1 && text_le(self.0@, other.0@))
    }

    proof fn ahead_total(a: Self, b: Self) {
        lemma_bytes_le_total(encode_utf8(a.0@), encode_utf8(b.0@));
    }

    proof fn ahead_transitive(a: Self, b: Self, c: Self) {
        if text_le(a.0@, b.0@) && text_le(b.0@, c.0@) {
            lemma_bytes_le_transitive(encode_utf8(a.0@), encode_utf8(b.0@), encode_utf8(c.0@));
        }
    }

    fn stands_ahead(&self, other: &Self) -> (r: bool) {
        self.1 > other.1 || (self.1 == other.1 && text_at_or_before(
            self.0.as_str(),
            other.0.as_str(),
        ))
    }
}

proof fn lemma_row(s: Seq<(Seq<char>, i64)>, researcher: Seq<char>) -> (k: int)
    requires
        listed(s, researcher),
    ensures
        0 <= k < s.len(),
        s[k].0 == researcher,
{
    reveal(listed);
    choose|k: int| 0 <= k < s.len() && (#[trigger] s[k]).0 == researcher
}

proof fn lemma_is_listed(s: Seq<(Seq<char>, i64)>, k: int)
    requires
        0 <= k < s.len(),
    ensures
        listed(s, s[k].0),
{
    reveal(listed);
}

proof fn lemma_record(h: Seq<EntryView>, researcher: Seq<char>, score: i64) -> (i: int)
    requires
        best_record(h, researcher, score),
    ensures
        0 <= i < h.len(),
        record_of(h[i], researcher),
        h[i].lift_micros == score,
{
    reveal(best_record);
    choose|i: int|
        0 <= i < h.len() && record_of(#[trigger] h[i], researcher) && h[i].lift_micros == score
}

proof fn lemma_record_within(h: Seq<EntryView>, researcher: Seq<char>, score: i64, i: int)
    requires
        best_record(h, researcher, score),
        0 <= i < h.len(),
        record_of(h[i], researcher),
    ensures
        h[i].lift_micros <= score,
{
    reveal(best_record);
}

proof fn lemma_is_best_record(h: Seq<EntryView>, researcher: Seq<char>, score: i64, i: int)
    requires
        0 <= i < h.len(),
        record_of(h[i], researcher),
        h[i].lift_micros == score,
        forall|j: int|
            0 <= j < h.len() && record_of(#[trigger] h[j], researcher) ==> h[j].lift_micros <= score,
    ensures
        best_record(h, researcher, score),
{
    reveal(best_record);
}

proof fn lemma_best_record_grows(
    h: Seq<EntryView>,
    e: EntryView,
    researcher: Seq<char>,
    score: i64,
)
    requires
        best_record(h, researcher, score),
        record_of(e, researcher) ==> e.lift_micros <= score,
    ensures
        best_record(h.push(e), researcher, score),
{
    let g = h.push(e);
    let i = lemma_record(h, researcher, score);
    assert(g[i] == h[i]);
    assert forall|j: int| 0 <= j < g.len() && record_of(#[trigger] g[j], researcher) implies g[j].lift_micros
        <= score by {
        if j < h.len() {
            lemma_record_within(h, researcher, score, j);
        }
    }
    lemma_is_best_record(g, researcher, score, i);
}

proof fn lemma_bests_skip(s: Seq<(Seq<char>, i64)>, h: Seq<EntryView>, e: EntryView)
    requires
        bests_of(s, h),
        e.kind != EntryKind::Record,
    ensures
        bests_of(s, h.push(e)),
{
    let g = h.push(e);
    assert forall|i: int| 0 <= i < s.len() implies best_record(g, (#[trigger] s[i]).0, s[i].1) by {
        lemma_best_record_grows(h, e, s[i].0, s[i].1);
    }
    assert forall|i: int| 0 <= i < g.len() && (#[trigger] g[i]).kind == EntryKind::Record implies listed(
        s,
        g[i].researcher,
    ) by {
        assert(h[i].kind == EntryKind::Record);
    }
}

proof fn lemma_bests_add(s: Seq<(Seq<char>, i64)>, h: Seq<EntryView>, e: EntryView)
    requires
        bests_of(s, h),
        e.kind == EntryKind::Record,
        forall|i: int| 0 <= i < s.len() ==> (#[trigger] s[i]).0 != e.researcher,
    ensures
        bests_of(s.push((e.researcher, e.lift_micros)), h.push(e)),
{
    let (t, g) = (s.push((e.researcher, e.lift_micros)), h.push(e));
    assert forall|i: int| 0 <= i < t.len() implies best_record(g, (#[trigger] t[i]).0, t[i].1) by {
        if i < s.len() {
            assert(s[i].0 != e.researcher);
            lemma_best_record_grows(h, e, s[i].0, s[i].1);
        } else {
            assert forall|j: int|
                0 <= j < g.len() && record_of(#[trigger] g[j], e.researcher) implies g[j].lift_micros
                <= e.lift_micros by {
                if j < h.len() {
                    assert(h[j].kind == EntryKind::Record);
                    let k = lemma_row(s, h[j].researcher);
                    assert(s[k].0 != e.researcher);
                }
            }
            lemma_is_best_record(g, e.researcher, e.lift_micros, h.len() as int);
        }
    }
    assert forall|i: int| 0 <= i < g.len() && (#[trigger] g[i]).kind == EntryKind::Record implies listed(
        t,
        g[i].researcher,
    ) by {
        if i < h.len() {
            assert(h[i].kind == EntryKind::Record);
            let k = lemma_row(s, h[i].researcher);
            assert(t[k] == s[k]);
            lemma_is_listed(t, k);
        } else {
            lemma_is_listed(t, s.len() as int);
        }
    }
}

proof fn lemma_bests_raise(
    s: Seq<(Seq<char>, i64)>,
    h: Seq<EntryView>,
    e: EntryView,
    k: int,
    score: i64,
)
    requires
        bests_of(s, h),
        e.kind == EntryKind::Record,
        0 <= k < s.len(),
        s[k].0 == e.researcher,
        score == (if s[k].1 >= e.lift_micros {
            s[k].1
        } else {
            e.lift_micros
        }),
    ensures
        bests_of(s.update(k, (e.researcher, score)), h.push(e)),
{
    let (t, g) = (s.update(k, (e.researcher, score)), h.push(e));
    assert forall|i: int| 0 <= i < t.len() implies (#[trigger] t[i]).0 == s[i].0 by {}
    assert forall|i: int| 0 <= i < t.len() implies best_record(g, (#[trigger] t[i]).0, t[i].1) by {
        assert(best_record(h, s[i].0, s[i].1));
        if i != k {
            assert(s[i].0 != s[k].0);
            lemma_best_record_grows(h, e, s[i].0, s[i].1);
        } else if s[k].1 >= e.lift_micros {
            lemma_best_record_grows(h, e, s[k].0, s[k].1);
        } else {
            assert forall|j: int|
                0 <= j < g.len() && record_of(#[trigger] g[j], e.researcher) implies g[j].lift_micros
                <= score by {
                if j < h.len() {
                    lemma_record_within(h, s[k].0, s[k].1, j);
                }
            }
            lemma_is_best_record(g, e.researcher, score, h.len() as int);
        }
    }
    assert forall|i: int| 0 <= i < g.len() && (#[trigger] g[i]).kind == EntryKind::Record implies listed(
        t,
        g[i].researcher,
    ) by {
        if i < h.len() {
            assert(h[i].kind == EntryKind::Record);
            let p = lemma_row(s, h[i].researcher);
            lemma_is_listed(t, p);
        } else {
            lemma_is_listed(t, k);
        }
    }
}

proof fn lemma_same_rows<T>(a: Seq<T>, b: Seq<T>, i: int) -> (k: int)
    requires
        a.to_multiset() == b.to_multiset(),
        0 <= i < a.len(),
    ensures
        0 <= k < b.len(),
        b[k] == a[i],
{
    broadcast use vstd::seq_lib::group_to_multiset_ensures;

    assert(a.contains(a[i]));
    assert(a.to_multiset().count(a[i]) > 0);
    assert(b.contains(a[i]));
    choose|k: int| 0 <= k < b.len() && b[k] == a[i]
}

proof fn lemma_standings_from_bests(best: Seq<(String, i64)>, h: Seq<EntryView>)
    requires
        bests_of(standing_views(best), h),
    ensures
        standings_of(standing_views(ranking(best)), h),
{
    ranking_orders_and_keeps(best);
    let r = ranking(best);
    let (s, t) = (standing_views(best), standing_views(r));
    assert forall|i: int| 0 <= i < t.len() implies best_record(h, (#[trigger] t[i]).0, t[i].1) by {
        let k = lemma_same_rows(r, best, i);
        assert(s[k] == t[i]);
        assert(best_record(h, s[k].0, s[k].1));
    }
    assert forall|i: int| 0 <= i < h.len() && (#[trigger] h[i]).kind == EntryKind::Record implies listed(
        t,
        h[i].researcher,
    ) by {
        let k = lemma_row(s, h[i].researcher);
        let p = lemma_same_rows(best, r, k);
        assert(t[p] == s[k]);
        lemma_is_listed(t, p);
    }
    assert forall|i: int, j: int| 0 <= i < j < t.len() implies (#[trigger] t[i]).1 > (
    #[trigger] t[j]).1 || (t[i].1 == t[j].1 && text_le(t[i].0, t[j].0)) by {
        assert(r[i].ahead(r[j]));
    }
    lemma_names_stay_distinct(best, r);
}

proof fn lemma_names_stay_distinct(best: Seq<(String, i64)>, r: Seq<(String, i64)>)
    requires
        best.to_multiset() == r.to_multiset(),
        forall|i: int, j: int|
            0 <= i < standing_views(best).len() && 0 <= j < standing_views(best).len() && i != j
                ==> (#[trigger] standing_views(best)[i]).0 != (#[trigger] standing_views(best)[j]).0,
    ensures
        forall|i: int, j: int|
            0 <= i < standing_views(r).len() && 0 <= j < standing_views(r).len() && i != j ==> (
            #[trigger] standing_views(r)[i]).0 != (#[trigger] standing_views(r)[j]).0,
{
    let (s, t) = (standing_views(best), standing_views(r));
    assert(best.no_duplicates()) by {
        assert forall|i: int, j: int| 0 <= i < best.len() && 0 <= j < best.len() && i != j implies best[i]
            != best[j] by {
            assert(s[i].0 != s[j].0);
        }
    }
    best.lemma_multiset_has_no_duplicates();
    r.lemma_multiset_has_no_duplicates_conv();
    assert forall|i: int, j: int| 0 <= i < t.len() && 0 <= j < t.len() && i != j implies (
    #[trigger] t[i]).0 != (#[trigger] t[j]).0 by {
        let p = lemma_same_rows(r, best, i);
        let q = lemma_same_rows(r, best, j);
        assert(r[i] != r[j]);
        assert(s[p].0 != s[q].0);
    }
}

// --- What every arena keeps --------------------------------------------------

/// The wei that a log has paid.
pub open spec fn log_paid(h: Seq<EntryView>) -> nat
    decreases h.len(),
{
    if h.len() == 0 {
        0
    } else {
        log_paid(h.drop_last()) + h.last().paid_wei as nat
    }
}

/// Who holds the first place, and with what score.
pub struct TopView {
    pub holder: Seq<char>,
    pub micros: i64,
}

/// Who set the last record of a log, and what it was.
pub open spec fn last_record(h: Seq<EntryView>) -> Option<TopView>
    decreases h.len(),
{
    if h.len() == 0 {
        None
    } else if h.last().kind == EntryKind::Record {
        Some(TopView { holder: h.last().researcher, micros: h.last().lift_micros })
    } else {
        last_record(h.drop_last())
    }
}

/// The bar that a log leaves behind.
pub open spec fn log_bar(baseline: i64, h: Seq<EntryView>) -> i64 {
    match last_record(h) {
        Some(top) => top.micros,
        None => baseline,
    }
}

/// Each record stands above the bar that it met.
pub open spec fn climbs(baseline: i64, h: Seq<EntryView>) -> bool
    decreases h.len(),
{
    h.len() > 0 ==> {
        &&& climbs(baseline, h.drop_last())
        &&& h.last().kind == EntryKind::Record ==> h.last().lift_micros > log_bar(
            baseline,
            h.drop_last(),
        )
    }
}

/// Each entry was written by the schedule's own rule: under a bounty every entry is a
/// record that was owed what it was paid; under streaming records are unpaid and
/// credits go to the holder at the time.
pub open spec fn by_the_rule(schedule: ContinuousSchedule, baseline: i64, h: Seq<EntryView>) -> bool
    decreases h.len(),
{
    h.len() > 0 ==> {
        let (front, e) = (h.drop_last(), h.last());
        &&& by_the_rule(schedule, baseline, front)
        &&& match schedule {
            ContinuousSchedule::RecordBounty { epsilon_micros, wei_per_micro } => {
                let margin = marginal(e.lift_micros, log_bar(baseline, front) as int);
                &&& e.kind == EntryKind::Record
                &&& beats_bar(margin, epsilon_micros)
                &&& e.paid_wei == wei_cap(margin * wei_per_micro)
            },
            ContinuousSchedule::TimeAtTopStreaming { wei_per_epoch } => match e.kind {
                EntryKind::Record => e.paid_wei == 0,
                EntryKind::EpochCredit => {
                    &&& 0 < e.paid_wei <= wei_per_epoch
                    &&& last_record(front) == Some(
                        TopView { holder: e.researcher, micros: e.lift_micros },
                    )
                },
            },
        }
    }
}

impl ArenaView {
    /// The pool is never overspent, and the live state is what the log says.
    pub open spec fn wf(self) -> bool {
        &&& self.spent_wei <= self.pool_wei
        &&& self.spent_wei == log_paid(self.history)
        &&& last_record(self.history) == (match (self.top_holder, self.best_micros) {
            (Some(holder), Some(micros)) => Some(TopView { holder, micros }),
            _ => None,
        })
        &&& self.top_holder is Some <==> self.best_micros is Some
        &&& climbs(self.baseline_micros, self.history)
        &&& by_the_rule(self.schedule, self.baseline_micros, self.history)
    }
}

/// Whatever is submitted, the pool is not overspent and the live state stays what
/// the log says.
pub proof fn submissions_keep_the_arena_sound(
    arena: ArenaView,
    researcher: Seq<char>,
    lift: Lift,
    measurement: Measurement,
    micros: i64,
)
    requires
        arena.wf(),
    ensures
        arena.submitted(researcher, lift, measurement, micros).0.wf(),
{
    let after = arena.submitted(researcher, lift, measurement, micros).0;
    if arena.gate.cleared_by(lift, measurement) && arena.record_pay(micros) is Some {
        assert(after.history.drop_last() =~= arena.history);
        assert(log_bar(arena.baseline_micros, arena.history) == arena.bar());
    }
}

/// However long the clock runs, the pool is not overspent and the live state stays
/// what the log says.
pub proof fn ticks_keep_the_arena_sound(arena: ArenaView)
    requires
        arena.wf(),
    ensures
        arena.ticked().wf(),
{
    let after = arena.ticked();
    if arena.tick_credit() > 0 {
        assert(after.history.drop_last() =~= arena.history);
    }
}

/// A log as the beats of a record bounty.
pub open spec fn beats_of(h: Seq<EntryView>) -> Seq<BeatView> {
    h.map_values(
        |e: EntryView| BeatView { researcher: e.researcher, new_best_micros: e.lift_micros },
    )
}

/// What a log has paid, and to whom.
pub open spec fn payouts_of(h: Seq<EntryView>) -> Seq<PayoutView> {
    h.map_values(|e: EntryView| PayoutView { researcher: e.researcher, wei: e.paid_wei })
}

proof fn lemma_replay(
    schedule: ContinuousSchedule,
    baseline: i64,
    h: Seq<EntryView>,
    epsilon_micros: i64,
    wei_per_micro: u128,
)
    requires
        schedule == (ContinuousSchedule::RecordBounty { epsilon_micros, wei_per_micro }),
        by_the_rule(schedule, baseline, h),
    ensures
        best_after(baseline, beats_of(h), epsilon_micros) == log_bar(baseline, h),
        bounty_payouts(baseline, beats_of(h), epsilon_micros, wei_per_micro) == payouts_of(h),
        paid_total(payouts_of(h)) == log_paid(h),
    decreases h.len(),
{
    if h.len() > 0 {
        let front = h.drop_last();
        lemma_replay(schedule, baseline, front, epsilon_micros, wei_per_micro);
        assert(beats_of(h).drop_last() =~= beats_of(front));
        assert(payouts_of(h).drop_last() =~= payouts_of(front));
        assert(payouts_of(h) =~= payouts_of(front).push(
            PayoutView { researcher: h.last().researcher, wei: h.last().paid_wei },
        ));
    } else {
        assert(beats_of(h) =~= Seq::empty());
        assert(payouts_of(h) =~= Seq::empty());
    }
}

/// Replaying the log through the batch settlement reproduces every payout and the
/// best score, also where the pool was too small for some record: settling live and
/// settling afterwards are the same.
pub proof fn replay_reproduces_the_arena(
    arena: ArenaView,
    epsilon_micros: i64,
    wei_per_micro: u128,
)
    requires
        arena.wf(),
        arena.schedule == (ContinuousSchedule::RecordBounty { epsilon_micros, wei_per_micro }),
    ensures
        bounty_payouts(
            arena.baseline_micros,
            beats_of(arena.history),
            epsilon_micros,
            wei_per_micro,
        ) == payouts_of(arena.history),
        best_after(arena.baseline_micros, beats_of(arena.history), epsilon_micros) == arena.bar(),
        paid_total(payouts_of(arena.history)) == arena.spent_wei,
{
    lemma_replay(
        arena.schedule,
        arena.baseline_micros,
        arena.history,
        epsilon_micros,
        wei_per_micro,
    );
}

/// The frontier is bought exactly once: at any time an arena with a bounty has paid
/// `wei_per_micro` for each micro-unit between the baseline and the live best, and for
/// nothing else, wherever each record's margin and its price are representable.
pub proof fn arena_buys_the_frontier_once(
    arena: ArenaView,
    epsilon_micros: i64,
    wei_per_micro: u128,
)
    requires
        arena.wf(),
        arena.schedule == (ContinuousSchedule::RecordBounty { epsilon_micros, wei_per_micro }),
        representable(
            arena.baseline_micros,
            beats_of(arena.history),
            epsilon_micros,
            wei_per_micro,
        ),
    ensures
        arena.spent_wei == (arena.bar() - arena.baseline_micros) * wei_per_micro,
{
    replay_reproduces_the_arena(arena, epsilon_micros, wei_per_micro);
    bounty_buys_the_frontier_once(
        arena.baseline_micros,
        beats_of(arena.history),
        epsilon_micros,
        wei_per_micro,
    );
}

proof fn lemma_records_below_bar(baseline: i64, h: Seq<EntryView>, i: int)
    requires
        climbs(baseline, h),
        0 <= i < h.len(),
        h[i].kind == EntryKind::Record,
    ensures
        last_record(h) is Some,
        h[i].lift_micros <= last_record(h)->0.micros,
        h[i].lift_micros == last_record(h)->0.micros ==> h[i].researcher == last_record(h)->0.holder,
    decreases h.len(),
{
    if i < h.len() - 1 {
        lemma_records_below_bar(baseline, h.drop_last(), i);
    }
}

proof fn lemma_last_record_is_logged(h: Seq<EntryView>) -> (i: int)
    requires
        last_record(h) is Some,
    ensures
        0 <= i < h.len(),
        record_of(h[i], last_record(h)->0.holder),
        h[i].lift_micros == last_record(h)->0.micros,
    decreases h.len(),
{
    if h.last().kind == EntryKind::Record {
        h.len() - 1
    } else {
        lemma_last_record_is_logged(h.drop_last())
    }
}

/// The standings that anyone recomputes from the log are led by the live best and
/// its holder.
pub proof fn standings_agree_with_the_live_best(arena: ArenaView, s: Seq<(Seq<char>, i64)>)
    requires
        arena.wf(),
        standings_of(s, arena.history),
    ensures
        arena.best_micros is Some <==> s.len() > 0,
        s.len() > 0 ==> Some(s[0].0) == arena.top_holder && Some(s[0].1) == arena.best_micros,
{
    let h = arena.history;
    if s.len() > 0 {
        let i = lemma_record(h, s[0].0, s[0].1);
        lemma_records_below_bar(arena.baseline_micros, h, i);
        let top = last_record(h)->0;
        let j = lemma_last_record_is_logged(h);
        let k = lemma_row(s, h[j].researcher);
        lemma_record_within(h, s[k].0, s[k].1, j);
        assert(s[0].1 >= s[k].1);
        assert(s[0].1 == top.micros);
    }
    if arena.best_micros is Some {
        let j = lemma_last_record_is_logged(h);
        let k = lemma_row(s, h[j].researcher);
    }
}

/// The log determines the standings: there is only one list that a log admits.
pub proof fn standings_are_determined_by_the_log(
    h: Seq<EntryView>,
    s: Seq<(Seq<char>, i64)>,
    t: Seq<(Seq<char>, i64)>,
)
    requires
        standings_of(s, h),
        standings_of(t, h),
    ensures
        s == t,
{
    if s.len() <= t.len() {
        lemma_same_prefix(h, s, t, s.len() as int);
        if s.len() < t.len() {
            let m = lemma_row_is_in_both(h, t, s, s.len() as int);
            assert(t[m] == t[s.len() as int]);
        }
    } else {
        lemma_same_prefix(h, t, s, t.len() as int);
        let m = lemma_row_is_in_both(h, s, t, t.len() as int);
        assert(s[m] == s[t.len() as int]);
    }
    assert(s =~= t);
}

proof fn lemma_same_prefix(
    h: Seq<EntryView>,
    s: Seq<(Seq<char>, i64)>,
    t: Seq<(Seq<char>, i64)>,
    n: int,
)
    requires
        standings_of(s, h),
        standings_of(t, h),
        0 <= n <= s.len() <= t.len(),
    ensures
        forall|i: int| 0 <= i < n ==> s[i] == #[trigger] t[i],
    decreases n,
{
    if n > 0 {
        lemma_same_prefix(h, s, t, n - 1);
        let i = n - 1;
        let k = lemma_row_is_in_both(h, s, t, i);
        let m = lemma_row_is_in_both(h, t, s, i);
        if k < i {
            assert(s[k] == t[k]);
            assert(s[k].0 != s[i].0);
        }
        if m < i {
            assert(s[m] == t[m]);
            assert(t[m].0 != t[i].0);
        }
        if s[i] != t[i] {
            assert(i < k && i < m);
            assert(s[i].1 == t[i].1 && text_le(s[i].0, t[i].0) && text_le(t[i].0, s[i].0));
            lemma_text_le_antisymmetric(s[i].0, t[i].0);
        }
    }
}

proof fn lemma_row_is_in_both(
    h: Seq<EntryView>,
    s: Seq<(Seq<char>, i64)>,
    t: Seq<(Seq<char>, i64)>,
    i: int,
) -> (k: int)
    requires
        bests_of(s, h),
        bests_of(t, h),
        0 <= i < s.len(),
    ensures
        0 <= k < t.len(),
        t[k] == s[i],
{
    let p = lemma_record(h, s[i].0, s[i].1);
    let k = lemma_row(t, h[p].researcher);
    let q = lemma_record(h, t[k].0, t[k].1);
    lemma_record_within(h, t[k].0, t[k].1, p);
    lemma_record_within(h, s[i].0, s[i].1, q);
    k
}

// --- What a submission and a tick do, in numbers -----------------------------

/// A submission is booked exactly where it clears the promotion gate, stands at least
/// epsilon and more than nothing above the best so far, and can be paid in full from
/// what is left of the pool; streaming asks for no margin and pays nothing on the spot.
/// What is booked becomes the best, is paid the rate for each micro-unit by which it
/// rose, and is logged; anything else changes nothing.
pub proof fn submissions_are_booked_by_margin_and_pool(
    arena: ArenaView,
    researcher: Seq<char>,
    lift: Lift,
    measurement: Measurement,
    micros: i64,
)
    ensures
        ({
            let (after, outcome) = arena.submitted(researcher, lift, measurement, micros);
            let bar = if arena.best_micros is Some {
                arena.best_micros->0
            } else {
                arena.baseline_micros
            };
            let rise = micros - bar;
            let booked = outcome.became_record;
            &&& match arena.schedule {
                ContinuousSchedule::RecordBounty { epsilon_micros, wei_per_micro } => {
                    let price = min(min(rise, i64::MAX as int) * wei_per_micro, u128::MAX as int);
                    &&& booked <==> arena.gate.cleared_by(lift, measurement) && rise
                        >= epsilon_micros && rise > 0 && price <= max(
                        arena.pool_wei - arena.spent_wei,
                        0,
                    )
                    &&& booked ==> outcome.paid_wei == price
                },
                ContinuousSchedule::TimeAtTopStreaming { wei_per_epoch } => {
                    &&& booked <==> arena.gate.cleared_by(lift, measurement) && rise > 0
                    &&& outcome.paid_wei == 0
                },
            }
            &&& booked ==> {
                &&& outcome.new_best_micros == Some(micros)
                &&& after.best_micros == Some(micros)
                &&& after.top_holder == Some(researcher)
                &&& after.spent_wei == arena.spent_wei + outcome.paid_wei
                &&& after.history == arena.history.push(
                    EntryView {
                        epoch: arena.epoch,
                        researcher,
                        lift_micros: micros,
                        paid_wei: outcome.paid_wei,
                        kind: EntryKind::Record,
                    },
                )
                &&& after.id == arena.id && after.gate == arena.gate && after.schedule
                    == arena.schedule && after.pool_wei == arena.pool_wei && after.baseline_micros
                    == arena.baseline_micros && after.epoch == arena.epoch
            }
            &&& !booked ==> {
                &&& after == arena
                &&& outcome.paid_wei == 0
                &&& outcome.new_best_micros is None
            }
        }),
{
    let bar = arena.bar();
    let rise = micros - bar;
    if let ContinuousSchedule::RecordBounty { epsilon_micros, wei_per_micro } = arena.schedule {
        let rose = min(rise, i64::MAX as int);
        if rise > 0 {
            assert(rose * wei_per_micro >= 0) by (nonlinear_arith)
                requires
                    rose > 0,
                    wei_per_micro >= 0,
            ;
        }
    }
}

/// A tick moves the clock by one epoch. Under streaming it credits the holder of the
/// first place the rate, or what is left of the pool if that is less, and logs the
/// credit; otherwise nothing but the clock changes.
pub proof fn ticks_credit_the_holder_from_the_pool(arena: ArenaView)
    requires
        arena.epoch < u64::MAX,
    ensures
        ({
            let after = arena.ticked();
            let credit = arena.tick_credit();
            &&& after.epoch == arena.epoch + 1
            &&& after.spent_wei == arena.spent_wei + credit
            &&& match (arena.schedule, arena.top_holder) {
                (ContinuousSchedule::TimeAtTopStreaming { wei_per_epoch }, Some(_)) => credit
                    == min(wei_per_epoch as int, max(arena.pool_wei - arena.spent_wei, 0)),
                _ => credit == 0,
            }
            &&& credit == 0 ==> after.history == arena.history
            &&& credit > 0 ==> after.history.len() == arena.history.len() + 1
                && after.history.drop_last() == arena.history && after.history.last()
                == (EntryView {
                epoch: (arena.epoch + 1) as u64,
                researcher: arena.top_holder->0,
                lift_micros: if arena.best_micros is Some {
                    arena.best_micros->0
                } else {
                    arena.baseline_micros
                },
                paid_wei: credit as u128,
                kind: EntryKind::EpochCredit,
            })
            &&& after.id == arena.id && after.gate == arena.gate && after.schedule
                == arena.schedule && after.pool_wei == arena.pool_wei && after.baseline_micros
                == arena.baseline_micros && after.best_micros == arena.best_micros
                && after.top_holder == arena.top_holder
        }),
{
    let after = arena.ticked();
    if arena.tick_credit() > 0 {
        assert(after.history.drop_last() =~= arena.history);
    }
}

proof fn lemma_bar_covers_the_records(
    schedule: ContinuousSchedule,
    baseline: i64,
    h: Seq<EntryView>,
    i: int,
)
    requires
        by_the_rule(schedule, baseline, h),
        climbs(baseline, h),
    ensures
        log_bar(baseline, h) >= baseline,
        0 <= i < h.len() && h[i].kind == EntryKind::Record ==> log_bar(baseline, h)
            >= h[i].lift_micros,
    decreases h.len(),
{
    if h.len() > 0 {
        lemma_bar_covers_the_records(schedule, baseline, h.drop_last(), i);
    }
}

proof fn lemma_records_apart(
    schedule: ContinuousSchedule,
    baseline: i64,
    h: Seq<EntryView>,
    i: int,
    j: int,
)
    requires
        by_the_rule(schedule, baseline, h),
        climbs(baseline, h),
        schedule is RecordBounty,
        0 <= j < h.len(),
    ensures
        h[j].kind == EntryKind::Record,
        h[j].lift_micros - baseline >= schedule->epsilon_micros,
        h[j].lift_micros > baseline,
        0 <= i < j ==> h[j].lift_micros - h[i].lift_micros >= schedule->epsilon_micros
            && h[j].lift_micros > h[i].lift_micros,
    decreases h.len(),
{
    let front = h.drop_last();
    if j < h.len() - 1 {
        lemma_records_apart(schedule, baseline, front, i, j);
    } else {
        lemma_bar_covers_the_records(schedule, baseline, front, i);
        if 0 <= i < j {
            lemma_records_apart(schedule, baseline, front, -1, i);
        }
    }
}

/// Under a bounty every entry of the log is a record, and each stands at least epsilon,
/// and more than nothing, above the baseline and above every record before it.
pub proof fn booked_records_stand_epsilon_apart(
    arena: ArenaView,
    epsilon_micros: i64,
    wei_per_micro: u128,
    i: int,
    j: int,
)
    requires
        arena.wf(),
        arena.schedule == (ContinuousSchedule::RecordBounty { epsilon_micros, wei_per_micro }),
        0 <= i < j < arena.history.len(),
    ensures
        arena.history[i].kind == EntryKind::Record,
        arena.history[j].kind == EntryKind::Record,
        arena.history[i].lift_micros - arena.baseline_micros >= epsilon_micros,
        arena.history[i].lift_micros > arena.baseline_micros,
        arena.history[j].lift_micros - arena.history[i].lift_micros >= epsilon_micros,
        arena.history[j].lift_micros > arena.history[i].lift_micros,
{
    lemma_records_apart(arena.schedule, arena.baseline_micros, arena.history, -1, i);
    lemma_records_apart(arena.schedule, arena.baseline_micros, arena.history, i, j);
}

/// Under streaming a record pays nothing, and a credit pays more than nothing and no
/// more than the rate.
pub proof fn streaming_pays_only_for_time(arena: ArenaView, wei_per_epoch: u128, i: int)
    requires
        arena.wf(),
        arena.schedule == (ContinuousSchedule::TimeAtTopStreaming { wei_per_epoch }),
        0 <= i < arena.history.len(),
    ensures
        arena.history[i].kind == EntryKind::Record ==> arena.history[i].paid_wei == 0,
        arena.history[i].kind == EntryKind::EpochCredit ==> 0 < arena.history[i].paid_wei
            <= wei_per_epoch,
{
    lemma_streaming_rule(arena.schedule, arena.baseline_micros, arena.history, i);
}

proof fn lemma_streaming_rule(
    schedule: ContinuousSchedule,
    baseline: i64,
    h: Seq<EntryView>,
    i: int,
)
    requires
        by_the_rule(schedule, baseline, h),
        schedule is TimeAtTopStreaming,
        0 <= i < h.len(),
    ensures
        h[i].kind == EntryKind::Record ==> h[i].paid_wei == 0,
        h[i].kind == EntryKind::EpochCredit ==> 0 < h[i].paid_wei <= schedule->wei_per_epoch,
    decreases h.len(),
{
    if i < h.len() - 1 {
        lemma_streaming_rule(schedule, baseline, h.drop_last(), i);
    }
}

/// An arena never pays more than its pool, and what it has spent is what its log says
/// that it paid, entry by entry.
pub proof fn the_log_accounts_for_what_was_spent(arena: ArenaView)
    requires
        arena.wf(),
    ensures
        arena.spent_wei <= arena.pool_wei,
        arena.spent_wei == arena.history.fold_left(
            0int,
            |sum: int, e: EntryView| sum + e.paid_wei,
        ),
{
    lemma_log_paid_is_the_sum(arena.history);
}

proof fn lemma_log_paid_is_the_sum(h: Seq<EntryView>)
    ensures
        log_paid(h) == h.fold_left(0int, |sum: int, e: EntryView| sum + e.paid_wei),
    decreases h.len(),
{
    reveal(Seq::fold_left);
    if h.len() > 0 {
        lemma_log_paid_is_the_sum(h.drop_last());
    }
}

/// The standings say what the log says: each row is a researcher's highest record,
/// every researcher with a record has a row, no researcher has two, and the rows go from
/// high to low, equal scores in the order of the names.
pub proof fn standings_tell_the_highest_records(
    s: Seq<(Seq<char>, i64)>,
    h: Seq<EntryView>,
    row: int,
    entry: int,
)
    requires
        standings_of(s, h),
        0 <= row < s.len(),
        0 <= entry < h.len(),
        h[entry].kind == EntryKind::Record,
    ensures
        exists|i: int|
            0 <= i < h.len() && (#[trigger] h[i]).kind == EntryKind::Record && h[i].researcher
                == s[row].0 && h[i].lift_micros == s[row].1,
        h[entry].researcher == s[row].0 ==> h[entry].lift_micros <= s[row].1,
        exists|r: int| 0 <= r < s.len() && (#[trigger] s[r]).0 == h[entry].researcher,
        forall|r: int|
            row < r < s.len() ==> s[row].0 != (#[trigger] s[r]).0 && s[row].1 >= s[r].1 && (
            s[row].1 == s[r].1 ==> text_le(s[row].0, s[r].0)),
{
    let i = lemma_record(h, s[row].0, s[row].1);
    assert(h[i].kind == EntryKind::Record);
    if h[entry].researcher == s[row].0 {
        lemma_record_within(h, s[row].0, s[row].1, entry);
    }
    let r = lemma_row(s, h[entry].researcher);
    assert(s[r].0 == h[entry].researcher);
}

// --- What the operations do --------------------------------------------------

/// What submitting does to an arena. It sets a record exactly where the submission was
/// scored, clears the promotion gate, stands above the best so far by epsilon and by more
/// than nothing, and can be paid in full from what is left of the pool; streaming asks for
/// no margin and pays nothing on the spot. A record is the new best, is paid the rate for
/// each micro-unit of its rise and is logged last; without one nothing changes.
pub proof fn a_submission_sets_a_record_it_can_be_paid_for(
    arena: &mut ContinuousArena,
    researcher: &str,
    scored: Result<ScoredSubmission, ScoreFailure>,
    r: Result<SubmitOutcome, ProtocolError>,
)
    requires
        call_ensures(ContinuousArena::submit, (arena, researcher, scored), r),
    ensures
        r is Ok <==> scored is Ok,
        scored is Err ==> final(arena)@ == old(arena)@,
        scored matches Ok(s) ==> {
            let (before, after, outcome) = (old(arena)@, final(arena)@, r->Ok_0);
            let bar = if before.best_micros is Some {
                before.best_micros->0
            } else {
                before.baseline_micros
            };
            let rise = s.delta_micros - bar;
            let clears = before.gate.cleared_by(s.lift, s.measurement);
            &&& match before.schedule {
                ContinuousSchedule::RecordBounty { epsilon_micros, wei_per_micro } => {
                    let price = min(min(rise, i64::MAX as int) * wei_per_micro, u128::MAX as int);
                    &&& outcome.became_record <==> clears && rise >= epsilon_micros && rise > 0
                        && price <= max(before.pool_wei - before.spent_wei, 0)
                    &&& outcome.became_record ==> outcome.paid_wei == price
                },
                ContinuousSchedule::TimeAtTopStreaming { wei_per_epoch } => {
                    &&& outcome.became_record <==> clears && rise > 0
                    &&& outcome.paid_wei == 0
                },
            }
            &&& outcome.became_record ==> {
                &&& outcome.new_best_micros == Some(s.delta_micros)
                &&& after.best_micros == Some(s.delta_micros)
                &&& after.top_holder == Some(researcher@)
                &&& after.spent_wei == before.spent_wei + outcome.paid_wei
                &&& after.history == before.history.push(
                    EntryView {
                        epoch: before.epoch,
                        researcher: researcher@,
                        lift_micros: s.delta_micros,
                        paid_wei: outcome.paid_wei,
                        kind: EntryKind::Record,
                    },
                )
                &&& after.pool_wei == before.pool_wei && after.epoch == before.epoch
            }
            &&& !outcome.became_record ==> after == before && outcome.paid_wei == 0
                && outcome.new_best_micros is None
        },
{
    if let Ok(s) = scored {
        submissions_are_booked_by_margin_and_pool(
            old(arena)@,
            researcher@,
            s.lift,
            s.measurement,
            s.delta_micros,
        );
    }
}

/// What a tick does to an arena: the clock moves by one; under streaming the holder of
/// the first place is credited the rate, or what is left of the pool if that is less, and
/// the credit is logged last; nothing else changes.
pub proof fn a_tick_pays_the_holder_of_the_first_place(
    arena: &mut ContinuousArena,
    credited: u128,
)
    requires
        old(arena).epoch < u64::MAX,
        call_ensures(ContinuousArena::tick_epoch, (arena,), credited),
    ensures
        ({
            let (before, after) = (old(arena)@, final(arena)@);
            &&& after.epoch == before.epoch + 1
            &&& match (before.schedule, before.top_holder) {
                (ContinuousSchedule::TimeAtTopStreaming { wei_per_epoch }, Some(_)) => credited
                    == min(wei_per_epoch as int, max(before.pool_wei - before.spent_wei, 0)),
                _ => credited == 0,
            }
            &&& after.spent_wei == before.spent_wei + credited
            &&& after.best_micros == before.best_micros && after.top_holder == before.top_holder
                && after.pool_wei == before.pool_wei
            &&& credited == 0 ==> after.history == before.history
            &&& credited > 0 ==> {
                &&& after.history.len() == before.history.len() + 1
                &&& after.history.drop_last() == before.history
                &&& after.history.last().researcher == before.top_holder->0
                &&& after.history.last().paid_wei == credited
                &&& after.history.last().epoch == before.epoch + 1
                &&& after.history.last().kind is EpochCredit
            }
        }),
{
    ticks_credit_the_holder_from_the_pool(old(arena)@);
}

/// What the standings of an arena say: each row is a researcher's highest record in the
/// log, every researcher with a record has a row, and the rows go from high to low, equal
/// scores in the order of the names.
pub proof fn standings_are_read_off_the_log(
    arena: &ContinuousArena,
    standings: Vec<(String, i64)>,
    row: int,
    entry: int,
)
    requires
        call_ensures(ContinuousArena::standings, (arena,), standings),
        0 <= row < standings@.len(),
        0 <= entry < arena.history@.len(),
        arena.history@[entry].kind is Record,
    ensures
        exists|i: int|
            0 <= i < arena.history@.len() && (#[trigger] arena.history@[i]).kind is Record
                && arena.history@[i].researcher@ == standings@[row].0@
                && arena.history@[i].lift_micros == standings@[row].1,
        arena.history@[entry].researcher@ == standings@[row].0@
            ==> arena.history@[entry].lift_micros <= standings@[row].1,
        exists|r: int|
            0 <= r < standings@.len() && (#[trigger] standings@[r]).0@
                == arena.history@[entry].researcher@,
        row + 1 < standings@.len() ==> {
            &&& standings@[row].1 >= standings@[row + 1].1
            &&& standings@[row].0@ != standings@[row + 1].0@
            &&& standings@[row].1 == standings@[row + 1].1 ==> text_le(
                standings@[row].0@,
                standings@[row + 1].0@,
            )
        },
{
    let (s, h) = (standing_views(standings@), entry_views(arena.history@));
    assert(h[entry] == arena.history@[entry]@);
    standings_tell_the_highest_records(s, h, row, entry);
    assert(s[row] == (standings@[row].0@, standings@[row].1));
    let i = choose|i: int|
        0 <= i < h.len() && (#[trigger] h[i]).kind == EntryKind::Record && h[i].researcher
            == s[row].0 && h[i].lift_micros == s[row].1;
    assert(h[i] == arena.history@[i]@);
    let r = choose|r: int| 0 <= r < s.len() && (#[trigger] s[r]).0 == h[entry].researcher;
    assert(s[r] == (standings@[r].0@, standings@[r].1));
    if row + 1 < standings@.len() {
        assert(s[row + 1] == (standings@[row + 1].0@, standings@[row + 1].1));
    }
}

} // verus!
