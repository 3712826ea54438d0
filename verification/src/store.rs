//! Competition state: who joined, what they committed and revealed, and where each
//! competition stands in its lifecycle.
use crate::amounts::{plus_capped, wei_cap};
use crate::keyed::{
    distinct_keys, lemma_table_absent, lemma_table_len, lemma_table_push, lemma_table_row,
    lemma_table_update, table,
};
use crate::stake::StakePolicy;
use crate::text::{decimal, same_text, to_decimal, to_wide_decimal};
use crate::types::{copy_ref, opt_ref, ArtifactRef, CompetitionId, Evidence};
use vstd::math::min;
use vstd::prelude::*;

verus! {

/// Lifecycle state of a competition.
#[derive(Clone, Copy, Debug, PartialEq, Eq, Structural)]
pub enum Status {
    /// Created, not yet open.
    Draft,
    /// Open for researchers to join.
    Open,
    /// Accepting commitments and reveals.
    Submitting,
    /// Submissions are closed and being scored.
    Scoring,
    /// Ranking and payout are being computed.
    Settling,
    /// Payouts are out.
    Closed,
}

impl Status {
    /// The name of the state.
    pub open spec fn written(self) -> Seq<char> {
        match self {
            Status::Draft => "Draft"@,
            Status::Open => "Open"@,
            Status::Submitting => "Submitting"@,
            Status::Scoring => "Scoring"@,
            Status::Settling => "Settling"@,
            Status::Closed => "Closed"@,
        }
    }

    /// The name of the state.
    pub fn name(&self) -> (r: &'static str)
        ensures
            r@ == self.written(),
    {
        match self {
            Status::Draft => "Draft",
            Status::Open => "Open",
            Status::Submitting => "Submitting",
            Status::Scoring => "Scoring",
            Status::Settling => "Settling",
            Status::Closed => "Closed",
        }
    }

    /// How far along the lifecycle the state is.
    pub open spec fn stage(self) -> int {
        match self {
            Status::Draft => 0,
            Status::Open => 1,
            Status::Submitting => 2,
            Status::Scoring => 3,
            Status::Settling => 4,
            Status::Closed => 5,
        }
    }

    /// Whether a competition may go from this state to `next`: one stage forward.
    pub fn can_transition_to(self, next: Status) -> (r: bool)
        ensures
            r == (next.stage() == self.stage() + 1),
    {
        matches!(
            (self, next),
            (Status::Draft, Status::Open)
                | (Status::Open, Status::Submitting)
                | (Status::Submitting, Status::Scoring)
                | (Status::Scoring, Status::Settling)
                | (Status::Settling, Status::Closed)
        )
    }
}

/// A researcher's enrollment in a competition.
#[derive(Clone, Debug, PartialEq, Eq)]
pub struct Researcher {
    pub address: String,
    pub stake_wei: u128,
}

/// A candidate across commit, reveal and scoring.
#[derive(Clone, Debug, PartialEq)]
pub struct CandidateRecord {
    /// Stable id: the commitment.
    pub id: String,
    pub researcher: String,
    /// What was posted at commit time.
    pub commitment: String,
    /// Set at reveal.
    pub artifact_ref: Option<ArtifactRef>,
    /// Set once scored.
    pub evidence: Option<Evidence>,
}

/// What a candidate record holds.
pub struct CandidateView {
    pub researcher: Seq<char>,
    pub commitment: Seq<char>,
    pub artifact_ref: Option<Seq<char>>,
    pub evidence: Option<Evidence>,
}

impl View for CandidateRecord {
    type V = CandidateView;

    open spec fn view(&self) -> CandidateView {
        CandidateView {
            researcher: self.researcher@,
            commitment: self.commitment@,
            artifact_ref: opt_ref(self.artifact_ref),
            evidence: self.evidence,
        }
    }
}

/// Errors of the store.
#[derive(Debug, PartialEq, Eq)]
pub enum StoreError {
    UnknownCompetition(CompetitionId),
    DuplicateCompetition(CompetitionId),
    IllegalTransition { id: CompetitionId, from: Status, to: Status },
    WrongStatus { id: CompetitionId, expected: Status, actual: Status },
    DuplicateCandidate(String),
    UnknownCandidate(String),
    RevealMismatch(String),
    InsufficientStake { id: CompetitionId, researcher: String, posted: u128, floor: u128 },
    NotStaked { id: CompetitionId, researcher: String },
}

impl StoreError {
    /// What the error says.
    pub open spec fn said(self) -> Seq<char> {
        match self {
            StoreError::UnknownCompetition(id) => {
                "competition "@ + decimal(id as nat) + " does not exist"@
            },
            StoreError::DuplicateCompetition(id) => {
                "competition "@ + decimal(id as nat) + " already exists"@
            },
            StoreError::IllegalTransition { id, from, to } => {
                "illegal status transition for competition "@ + decimal(id as nat) + ": "@
                    + from.written() + " -> "@ + to.written()
            },
            StoreError::WrongStatus { id, expected, actual } => {
                "operation requires competition "@ + decimal(id as nat) + " to be in "@
                    + expected.written() + ", but it is "@ + actual.written()
            },
            StoreError::DuplicateCandidate(c) => {
                "candidate "@ + c@ + " already committed in this competition"@
            },
            StoreError::UnknownCandidate(c) => {
                "candidate "@ + c@ + " not found"@
            },
            StoreError::RevealMismatch(c) => {
                "reveal commitment mismatch for candidate "@ + c@
            },
            StoreError::InsufficientStake { id, researcher, posted, floor } => {
                "join stake "@ + decimal(posted as nat) + " for "@ + researcher@
                    + " in competition "@ + decimal(id as nat) + " is below the policy floor "@
                    + decimal(floor as nat)
            },
            StoreError::NotStaked { id, researcher } => {
                "researcher "@ + researcher@ + " has not joined competition "@
                    + decimal(id as nat) + " with stake; cannot submit"@
            },
        }
    }

    /// The error as a message.
    pub fn message(&self) -> (r: String)
        ensures
            r@ == self.said(),
    {
        match self {
            StoreError::UnknownCompetition(id) => {
                let mut out = "competition ".to_owned();
                out.append(to_decimal(*id).as_str());
                out.append(" does not exist");
                out
            },
            StoreError::DuplicateCompetition(id) => {
                let mut out = "competition ".to_owned();
                out.append(to_decimal(*id).as_str());
                out.append(" already exists");
                out
            },
            StoreError::IllegalTransition { id, from, to } => {
                let mut out = "illegal status transition for competition ".to_owned();
                out.append(to_decimal(*id).as_str());
                out.append(": ");
                out.append(from.name());
                out.append(" -> ");
                out.append(to.name());
                out
            },
            StoreError::WrongStatus { id, expected, actual } => {
                let mut out = "operation requires competition ".to_owned();
                out.append(to_decimal(*id).as_str());
                out.append(" to be in ");
                out.append(expected.name());
                out.append(", but it is ");
                out.append(actual.name());
                out
            },
            StoreError::DuplicateCandidate(c) => {
                let mut out = "candidate ".to_owned();
                out.append(c.as_str());
                out.append(" already committed in this competition");
                out
            },
            StoreError::UnknownCandidate(c) => {
                let mut out = "candidate ".to_owned();
                out.append(c.as_str());
                out.append(" not found");
                out
            },
            StoreError::RevealMismatch(c) => {
                let mut out = "reveal commitment mismatch for candidate ".to_owned();
                out.append(c.as_str());
                out
            },
            StoreError::InsufficientStake { id, researcher, posted, floor } => {
                let mut out = "join stake ".to_owned();
                out.append(to_wide_decimal(*posted).as_str());
                out.append(" for ");
                out.append(researcher.as_str());
                out.append(" in competition ");
                out.append(to_decimal(*id).as_str());
                out.append(" is below the policy floor ");
                out.append(to_wide_decimal(*floor).as_str());
                out
            },
            StoreError::NotStaked { id, researcher } => {
                let mut out = "researcher ".to_owned();
                out.append(researcher.as_str());
                out.append(" has not joined competition ");
                out.append(to_decimal(*id).as_str());
                out.append(" with stake; cannot submit");
                out
            },
        }
    }
}

/// What a store error says.
pub enum StoreFault {
    UnknownCompetition(CompetitionId),
    DuplicateCompetition(CompetitionId),
    IllegalTransition { id: CompetitionId, from: Status, to: Status },
    WrongStatus { id: CompetitionId, expected: Status, actual: Status },
    DuplicateCandidate(Seq<char>),
    UnknownCandidate(Seq<char>),
    RevealMismatch(Seq<char>),
    InsufficientStake { id: CompetitionId, researcher: Seq<char>, posted: u128, floor: u128 },
    NotStaked { id: CompetitionId, researcher: Seq<char> },
}

impl View for StoreError {
    type V = StoreFault;

    open spec fn view(&self) -> StoreFault {
        match *self {
            StoreError::UnknownCompetition(id) => StoreFault::UnknownCompetition(id),
            StoreError::DuplicateCompetition(id) => StoreFault::DuplicateCompetition(id),
            StoreError::IllegalTransition { id, from, to } => StoreFault::IllegalTransition {
                id,
                from,
                to,
            },
            StoreError::WrongStatus { id, expected, actual } => StoreFault::WrongStatus {
                id,
                expected,
                actual,
            },
            StoreError::DuplicateCandidate(c) => StoreFault::DuplicateCandidate(c@),
            StoreError::UnknownCandidate(c) => StoreFault::UnknownCandidate(c@),
            StoreError::RevealMismatch(c) => StoreFault::RevealMismatch(c@),
            StoreError::InsufficientStake { id, researcher, posted, floor } => {
                StoreFault::InsufficientStake { id, researcher: researcher@, posted, floor }
            },
            StoreError::NotStaked { id, researcher } => StoreFault::NotStaked {
                id,
                researcher: researcher@,
            },
        }
    }
}

#[derive(Clone, Debug)]
struct CompetitionState {
    status: Status,
    stake_policy: StakePolicy,
    researchers: Vec<Researcher>,
    candidates: Vec<CandidateRecord>,
}

/// What a competition's state holds: its stage, its stake floor, the stake of each
/// researcher who joined, and the candidates by id.
pub struct CompetitionView {
    pub status: Status,
    pub floor: u128,
    pub researchers: Map<Seq<char>, u128>,
    pub candidates: Map<Seq<char>, CandidateView>,
}

spec fn researcher_rows(s: Seq<Researcher>) -> Seq<(Seq<char>, u128)> {
    s.map_values(|r: Researcher| (r.address@, r.stake_wei))
}

spec fn candidate_rows(s: Seq<CandidateRecord>) -> Seq<(Seq<char>, CandidateView)> {
    s.map_values(|c: CandidateRecord| (c.id@, c@))
}

impl CompetitionView {
    /// A competition that was just created.
    pub open spec fn fresh(policy: StakePolicy) -> CompetitionView {
        CompetitionView {
            status: Status::Draft,
            floor: policy.min_stake_wei,
            researchers: Map::empty(),
            candidates: Map::empty(),
        }
    }

    /// The stake of a researcher; nothing if they have not joined.
    pub open spec fn stake_of(self, researcher: Seq<char>) -> u128 {
        if self.researchers.dom().contains(researcher) {
            self.researchers[researcher]
        } else {
            0
        }
    }

    /// Whether a researcher has joined with enough stake to submit.
    pub open spec fn eligible(self, researcher: Seq<char>) -> bool {
        self.researchers.dom().contains(researcher) && self.researchers[researcher] >= self.floor
    }

    /// What every operation keeps: whoever is enrolled reached the floor, and every
    /// candidate goes by its commitment and belongs to somebody who is enrolled.
    pub open spec fn sound(self) -> bool {
        &&& forall|r: Seq<char>| #[trigger]
            self.researchers.dom().contains(r) ==> self.researchers[r] >= self.floor
        &&& forall|c: Seq<char>| #[trigger]
            self.candidates.dom().contains(c) ==> {
                &&& self.candidates[c].commitment == c
                &&& self.eligible(self.candidates[c].researcher)
            }
    }
}

impl View for CompetitionState {
    type V = CompetitionView;

    closed spec fn view(&self) -> CompetitionView {
        CompetitionView {
            status: self.status,
            floor: self.stake_policy.min_stake_wei,
            researchers: table(researcher_rows(self.researchers@)),
            candidates: table(candidate_rows(self.candidates@)),
        }
    }
}

fn find_researcher(s: &Vec<Researcher>, address: &str) -> (r: Option<usize>)
    requires
        distinct_keys(researcher_rows(s@)),
    ensures
        match r {
            Some(i) => {
                &&& i < s@.len()
                &&& s@[i as int].address@ == address@
                &&& table(researcher_rows(s@)).dom().contains(address@)
                &&& table(researcher_rows(s@))[address@] == s@[i as int].stake_wei
            },
            None => !table(researcher_rows(s@)).dom().contains(address@),
        },
{
    let ghost all = researcher_rows(s@);
    for i in 0..s.len()
        invariant
            all == researcher_rows(s@),
            distinct_keys(all),
            forall|j: int| 0 <= j < i ==> (#[trigger] all[j]).0 != address@,
    {
        if same_text(s[i].address.as_str(), address) {
            proof {
                assert(all[i as int].0 == address@);
                lemma_table_row(all, i as int);
            }
            return Some(i);
        }
    }
    proof {
        lemma_table_absent(all, address@);
    }
    None
}

fn find_candidate(s: &Vec<CandidateRecord>, id: &str) -> (r: Option<usize>)
    requires
        distinct_keys(candidate_rows(s@)),
    ensures
        match r {
            Some(i) => {
                &&& i < s@.len()
                &&& s@[i as int].id@ == id@
                &&& table(candidate_rows(s@)).dom().contains(id@)
                &&& table(candidate_rows(s@))[id@] == s@[i as int]@
            },
            None => !table(candidate_rows(s@)).dom().contains(id@),
        },
{
    let ghost all = candidate_rows(s@);
    for i in 0..s.len()
        invariant
            all == candidate_rows(s@),
            distinct_keys(all),
            forall|j: int| 0 <= j < i ==> (#[trigger] all[j]).0 != id@,
    {
        if same_text(s[i].id.as_str(), id) {
            proof {
                assert(all[i as int].0 == id@);
                lemma_table_row(all, i as int);
            }
            return Some(i);
        }
    }
    proof {
        lemma_table_absent(all, id@);
    }
    None
}

impl CompetitionState {
    closed spec fn wf(self) -> bool {
        &&& distinct_keys(researcher_rows(self.researchers@))
        &&& distinct_keys(candidate_rows(self.candidates@))
        &&& self@.sound()
    }

    fn new(stake_policy: StakePolicy) -> (r: Self)
        ensures
            r.wf(),
            r@ == CompetitionView::fresh(stake_policy),
    {
        let r = CompetitionState {
            status: Status::Draft,
            stake_policy,
            researchers: Vec::new(),
            candidates: Vec::new(),
        };
        proof {
            assert(r@.researchers =~= Map::empty());
            assert(r@.candidates =~= Map::empty());
        }
        r
    }

    fn enroll(&mut self, address: &str, stake_wei: u128)
        requires
            old(self).wf(),
            stake_wei >= old(self)@.floor,
        ensures
            final(self).wf(),
            final(self)@ == (CompetitionView {
                researchers: old(self)@.researchers.insert(address@, stake_wei),
                ..old(self)@
            }),
    {
        let ghost before = researcher_rows(self.researchers@);
        match find_researcher(&self.researchers, address) {
            Some(i) => {
                self.researchers.set(i, Researcher { address: address.to_owned(), stake_wei });
                proof {
                    lemma_table_update(before, i as int, stake_wei);
                    assert(researcher_rows(self.researchers@) =~= before.update(
                        i as int,
                        (before[i as int].0, stake_wei),
                    ));
                }
            },
            None => {
                self.researchers.push(Researcher { address: address.to_owned(), stake_wei });
                proof {
                    lemma_table_push(before, address@, stake_wei);
                    assert(researcher_rows(self.researchers@) =~= before.push(
                        (address@, stake_wei),
                    ));
                }
            },
        }
    }

    fn add_candidate(&mut self, researcher: &str, commitment: &str)
        requires
            old(self).wf(),
            old(self)@.eligible(researcher@),
            !old(self)@.candidates.dom().contains(commitment@),
        ensures
            final(self).wf(),
            final(self)@ == (CompetitionView {
                candidates: old(self)@.candidates.insert(
                    commitment@,
                    CandidateView {
                        researcher: researcher@,
                        commitment: commitment@,
                        artifact_ref: None,
                        evidence: None,
                    },
                ),
                ..old(self)@
            }),
    {
        let ghost before = candidate_rows(self.candidates@);
        let record = CandidateRecord {
            id: commitment.to_owned(),
            researcher: researcher.to_owned(),
            commitment: commitment.to_owned(),
            artifact_ref: None,
            evidence: None,
        };
        let ghost view = record@;
        self.candidates.push(record);
        proof {
            lemma_table_push(before, commitment@, view);
            assert(candidate_rows(self.candidates@) =~= before.push((commitment@, view)));
        }
    }

    fn replace(&mut self, i: usize, record: CandidateRecord)
        requires
            old(self).wf(),
            i < old(self).candidates@.len(),
            record.id@ == old(self).candidates@[i as int].id@,
            record@.commitment == old(self).candidates@[i as int]@.commitment,
            record@.researcher == old(self).candidates@[i as int]@.researcher,
        ensures
            final(self).wf(),
            final(self)@ == (CompetitionView {
                candidates: old(self)@.candidates.insert(record.id@, record@),
                ..old(self)@
            }),
    {
        let ghost before = candidate_rows(self.candidates@);
        proof {
            assert(before[i as int].0 == record.id@);
            lemma_table_row(before, i as int);
            lemma_table_update(before, i as int, record@);
        }
        self.candidates.set(i, record);
        proof {
            assert(candidate_rows(self.candidates@) =~= before.update(
                i as int,
                (before[i as int].0, record@),
            ));
        }
    }
}

#[derive(Clone, Debug)]
struct StoreRow {
    id: CompetitionId,
    state: CompetitionState,
}

/// The working view of all live competitions.
#[derive(Clone, Debug)]
pub struct CompetitionStore {
    competitions: Vec<StoreRow>,
}

spec fn store_rows(s: Seq<StoreRow>) -> Seq<(CompetitionId, CompetitionView)> {
    s.map_values(|r: StoreRow| (r.id, r.state@))
}

impl View for CompetitionStore {
    type V = Map<CompetitionId, CompetitionView>;

    closed spec fn view(&self) -> Map<CompetitionId, CompetitionView> {
        table(store_rows(self.competitions@))
    }
}

/// Why an operation that needs competition `id` in state `expected` is refused, if it
/// is.
pub open spec fn status_fault(
    store: Map<CompetitionId, CompetitionView>,
    id: CompetitionId,
    expected: Status,
) -> Option<StoreFault> {
    if !store.dom().contains(id) {
        Some(StoreFault::UnknownCompetition(id))
    } else if store[id].status != expected {
        Some(StoreFault::WrongStatus { id, expected, actual: store[id].status })
    } else {
        None
    }
}

/// Why a transition is refused, if it is.
pub open spec fn transition_fault(
    store: Map<CompetitionId, CompetitionView>,
    id: CompetitionId,
    to: Status,
) -> Option<StoreFault> {
    if !store.dom().contains(id) {
        Some(StoreFault::UnknownCompetition(id))
    } else if to.stage() != store[id].status.stage() + 1 {
        Some(StoreFault::IllegalTransition { id, from: store[id].status, to })
    } else {
        None
    }
}

/// What a researcher's stake comes to after posting `stake_wei` more.
pub open spec fn joined_stake(c: CompetitionView, address: Seq<char>, stake_wei: u128) -> int {
    wei_cap(c.stake_of(address) + stake_wei)
}

/// Why a join is refused, if it is.
pub open spec fn join_fault(
    store: Map<CompetitionId, CompetitionView>,
    id: CompetitionId,
    address: Seq<char>,
    stake_wei: u128,
) -> Option<StoreFault> {
    if status_fault(store, id, Status::Open) is Some {
        status_fault(store, id, Status::Open)
    } else if joined_stake(store[id], address, stake_wei) < store[id].floor {
        Some(
            StoreFault::InsufficientStake {
                id,
                researcher: address,
                posted: joined_stake(store[id], address, stake_wei) as u128,
                floor: store[id].floor,
            },
        )
    } else {
        None
    }
}

/// Why a commitment is refused, if it is.
pub open spec fn commit_fault(
    store: Map<CompetitionId, CompetitionView>,
    id: CompetitionId,
    researcher: Seq<char>,
    commitment: Seq<char>,
) -> Option<StoreFault> {
    if status_fault(store, id, Status::Submitting) is Some {
        status_fault(store, id, Status::Submitting)
    } else if !store[id].eligible(researcher) {
        Some(StoreFault::NotStaked { id, researcher })
    } else if store[id].candidates.dom().contains(commitment) {
        Some(StoreFault::DuplicateCandidate(commitment))
    } else {
        None
    }
}

/// Why a reveal is refused, if it is.
pub open spec fn reveal_fault(
    store: Map<CompetitionId, CompetitionView>,
    id: CompetitionId,
    candidate_id: Seq<char>,
    expected_commitment: Seq<char>,
) -> Option<StoreFault> {
    if status_fault(store, id, Status::Submitting) is Some {
        status_fault(store, id, Status::Submitting)
    } else if !store[id].candidates.dom().contains(candidate_id) {
        Some(StoreFault::UnknownCandidate(candidate_id))
    } else if store[id].candidates[candidate_id].commitment != expected_commitment {
        Some(StoreFault::RevealMismatch(candidate_id))
    } else {
        None
    }
}

/// Why evidence is refused, if it is.
pub open spec fn evidence_fault(
    store: Map<CompetitionId, CompetitionView>,
    id: CompetitionId,
    candidate_id: Seq<char>,
) -> Option<StoreFault> {
    if status_fault(store, id, Status::Scoring) is Some {
        status_fault(store, id, Status::Scoring)
    } else if !store[id].candidates.dom().contains(candidate_id) {
        Some(StoreFault::UnknownCandidate(candidate_id))
    } else {
        None
    }
}

// --- What the operations do --------------------------------------------------

/// The store after a competition has moved to a state.
pub open spec fn moved(
    store: Map<CompetitionId, CompetitionView>,
    id: CompetitionId,
    to: Status,
) -> Map<CompetitionId, CompetitionView> {
    store.insert(id, CompetitionView { status: to, ..store[id] })
}

/// The store after a researcher has joined or topped up.
pub open spec fn joined(
    store: Map<CompetitionId, CompetitionView>,
    id: CompetitionId,
    address: Seq<char>,
    stake_wei: u128,
) -> Map<CompetitionId, CompetitionView> {
    let c = store[id];
    let total = joined_stake(c, address, stake_wei) as u128;
    store.insert(id, CompetitionView { researchers: c.researchers.insert(address, total), ..c })
}

/// The store after a candidate was put into a competition under an id.
pub open spec fn with_candidate(
    store: Map<CompetitionId, CompetitionView>,
    id: CompetitionId,
    candidate_id: Seq<char>,
    candidate: CandidateView,
) -> Map<CompetitionId, CompetitionView> {
    let c = store[id];
    store.insert(
        id,
        CompetitionView { candidates: c.candidates.insert(candidate_id, candidate), ..c },
    )
}

/// The store after a commitment.
pub open spec fn committed(
    store: Map<CompetitionId, CompetitionView>,
    id: CompetitionId,
    researcher: Seq<char>,
    commitment: Seq<char>,
) -> Map<CompetitionId, CompetitionView> {
    with_candidate(
        store,
        id,
        commitment,
        CandidateView { researcher, commitment, artifact_ref: None, evidence: None },
    )
}

/// The store after a reveal.
pub open spec fn revealed(
    store: Map<CompetitionId, CompetitionView>,
    id: CompetitionId,
    candidate_id: Seq<char>,
    artifact_ref: Seq<char>,
) -> Map<CompetitionId, CompetitionView> {
    with_candidate(
        store,
        id,
        candidate_id,
        CandidateView {
            artifact_ref: Some(artifact_ref),
            ..store[id].candidates[candidate_id]
        },
    )
}

/// The store after evidence was attached.
pub open spec fn evidenced(
    store: Map<CompetitionId, CompetitionView>,
    id: CompetitionId,
    candidate_id: Seq<char>,
    evidence: Evidence,
) -> Map<CompetitionId, CompetitionView> {
    with_candidate(
        store,
        id,
        candidate_id,
        CandidateView { evidence: Some(evidence), ..store[id].candidates[candidate_id] },
    )
}

/// A lifecycle only moves forward: whatever moves are accepted, each leads exactly one
/// stage on, and a closed competition never moves again.
pub proof fn lifecycle_moves_forward(
    store: Map<CompetitionId, CompetitionView>,
    id: CompetitionId,
    to: Status,
)
    requires
        transition_fault(store, id, to) is None,
    ensures
        moved(store, id, to)[id].status.stage() == store[id].status.stage() + 1,
        store[id].status != Status::Closed,
{
}

/// A commitment is sealed: while submissions are open it can be opened with itself and
/// with nothing else, and it cannot be made twice.
pub proof fn a_commitment_is_binding(
    store: Map<CompetitionId, CompetitionView>,
    id: CompetitionId,
    researcher: Seq<char>,
    commitment: Seq<char>,
    offered: Seq<char>,
    other: Seq<char>,
)
    requires
        commit_fault(store, id, researcher, commitment) is None,
    ensures
        reveal_fault(committed(store, id, researcher, commitment), id, commitment, offered)
            is None <==> offered == commitment,
        commit_fault(committed(store, id, researcher, commitment), id, other, commitment) is Some,
{
}

/// A candidate reads back as it was written: who committed it, the artifact that was
/// revealed and the evidence that was attached, through every stage.
pub proof fn a_candidate_reads_back(
    store: Map<CompetitionId, CompetitionView>,
    id: CompetitionId,
    researcher: Seq<char>,
    commitment: Seq<char>,
    artifact_ref: Seq<char>,
    evidence: Evidence,
)
    requires
        commit_fault(store, id, researcher, commitment) is None,
    ensures
        ({
            let submitted = revealed(
                committed(store, id, researcher, commitment),
                id,
                commitment,
                artifact_ref,
            );
            let scoring = moved(submitted, id, Status::Scoring);
            &&& transition_fault(submitted, id, Status::Scoring) is None
            &&& evidence_fault(scoring, id, commitment) is None
            &&& evidenced(scoring, id, commitment, evidence)[id].candidates[commitment] == (
            CandidateView {
                researcher,
                commitment,
                artifact_ref: Some(artifact_ref),
                evidence: Some(evidence),
            })
        }),
{
}

/// Competitions do not touch one another: an operation on one leaves every other as it
/// was.
pub proof fn competitions_are_separate(
    store: Map<CompetitionId, CompetitionView>,
    id: CompetitionId,
    other: CompetitionId,
    to: Status,
    name: Seq<char>,
    stake_wei: u128,
    candidate_id: Seq<char>,
    candidate: CandidateView,
)
    requires
        id != other,
        store.dom().contains(other),
    ensures
        moved(store, id, to)[other] == store[other],
        joined(store, id, name, stake_wei)[other] == store[other],
        with_candidate(store, id, candidate_id, candidate)[other] == store[other],
{
}

impl CompetitionStore {
    /// No id stands for two competitions, and each competition is sound.
    pub closed spec fn wf(self) -> bool {
        &&& distinct_keys(store_rows(self.competitions@))
        &&& forall|i: int|
            0 <= i < self.competitions@.len() ==> (#[trigger] self.competitions@[i]).state.wf()
    }

    /// What holds of every store that the operations produce: whoever is enrolled
    /// reached the stake floor, and every candidate goes by its commitment and belongs
    /// to an enrolled researcher.
    pub proof fn wf_is_sound(self)
        requires
            self.wf(),
        ensures
            forall|id: CompetitionId| #[trigger]
                self@.dom().contains(id) ==> self@[id].sound(),
    {
        let all = store_rows(self.competitions@);
        assert forall|id: CompetitionId| #[trigger] self@.dom().contains(id) implies self@[id].sound()
            by {
            let i = choose|i: int| 0 <= i < all.len() && (#[trigger] all[i]).0 == id;
            lemma_table_row(all, i);
            assert(self.competitions@[i].state.wf());
        }
    }

    fn find(&self, id: CompetitionId) -> (r: Option<usize>)
        requires
            self.wf(),
        ensures
            match r {
                Some(i) => {
                    &&& i < self.competitions@.len()
                    &&& self.competitions@[i as int].id == id
                    &&& self.competitions@[i as int].state.wf()
                    &&& self@.dom().contains(id)
                    &&& self@[id] == self.competitions@[i as int].state@
                },
                None => !self@.dom().contains(id),
            },
    {
        let ghost all = store_rows(self.competitions@);
        for i in 0..self.competitions.len()
            invariant
                self.wf(),
                all == store_rows(self.competitions@),
                forall|j: int| 0 <= j < i ==> (#[trigger] all[j]).0 != id,
        {
            if self.competitions[i].id == id {
                proof {
                    assert(all[i as int].0 == id);
                    lemma_table_row(all, i as int);
                }
                return Some(i);
            }
        }
        proof {
            lemma_table_absent(all, id);
        }
        None
    }

    fn find_in(&self, id: CompetitionId, expected: Status) -> (r: Result<usize, StoreError>)
        requires
            self.wf(),
        ensures
            match r {
                Ok(i) => {
                    &&& status_fault(self@, id, expected) is None
                    &&& i < self.competitions@.len()
                    &&& self.competitions@[i as int].id == id
                    &&& self.competitions@[i as int].state.wf()
                    &&& self@[id] == self.competitions@[i as int].state@
                },
                Err(e) => status_fault(self@, id, expected) == Some(e@),
            },
    {
        match self.find(id) {
            Some(i) => {
                let actual = self.competitions[i].state.status;
                if actual == expected {
                    Ok(i)
                } else {
                    Err(StoreError::WrongStatus { id, expected, actual })
                }
            },
            None => Err(StoreError::UnknownCompetition(id)),
        }
    }

    proof fn lemma_state_changed(before: Self, after: Self, i: int)
        requires
            before.wf(),
            0 <= i < before.competitions@.len(),
            after.competitions@.len() == before.competitions@.len(),
            after.competitions@[i].id == before.competitions@[i].id,
            after.competitions@[i].state.wf(),
            forall|j: int|
                0 <= j < before.competitions@.len() && j != i ==> (
                #[trigger] after.competitions@[j]) == before.competitions@[j],
        ensures
            after.wf(),
            after@ == before@.insert(
                before.competitions@[i].id,
                after.competitions@[i].state@,
            ),
    {
        let rows = store_rows(before.competitions@);
        lemma_table_update(rows, i, after.competitions@[i].state@);
        assert(store_rows(after.competitions@) =~= rows.update(
            i,
            (rows[i].0, after.competitions@[i].state@),
        ));
        assert forall|j: int| 0 <= j < after.competitions@.len() implies (
        #[trigger] after.competitions@[j]).state.wf() by {
            if j != i {
                assert(before.competitions@[j].state.wf());
            }
        }
    }

    /// A store without competitions.
    pub fn new() -> (r: Self)
        ensures
            r.wf(),
            r@ == Map::<CompetitionId, CompetitionView>::empty(),
    {
        let r = CompetitionStore { competitions: Vec::new() };
        proof {
            assert(r@ =~= Map::empty());
        }
        r
    }

    /// Registers a competition that any stake may join.
    pub fn create(&mut self, id: CompetitionId) -> (r: Result<(), StoreError>)
        requires
            old(self).wf(),
        ensures
            final(self).wf(),
            match r {
                Ok(()) => !old(self)@.dom().contains(id) && final(self)@ == old(self)@.insert(
                    id,
                    CompetitionView::fresh(StakePolicy { min_stake_wei: 0 }),
                ),
                Err(e) => {
                    &&& old(self)@.dom().contains(id)
                    &&& final(self)@ == old(self)@
                    &&& e@ == StoreFault::DuplicateCompetition(id)
                },
            },
    {
        self.create_with_policy(id, StakePolicy { min_stake_wei: 0 })
    }

    /// Registers a competition with a stake floor.
    pub fn create_with_policy(&mut self, id: CompetitionId, stake_policy: StakePolicy) -> (r: Result<
        (),
        StoreError,
    >)
        requires
            old(self).wf(),
        ensures
            final(self).wf(),
            match r {
                Ok(()) => !old(self)@.dom().contains(id) && final(self)@ == old(self)@.insert(
                    id,
                    CompetitionView::fresh(stake_policy),
                ),
                Err(e) => {
                    &&& old(self)@.dom().contains(id)
                    &&& final(self)@ == old(self)@
                    &&& e@ == StoreFault::DuplicateCompetition(id)
                },
            },
    {
        if self.find(id).is_some() {
            return Err(StoreError::DuplicateCompetition(id));
        }
        let state = CompetitionState::new(stake_policy);
        let ghost view = state@;
        self.competitions.push(StoreRow { id, state });
        proof {
            let before = store_rows(old(self).competitions@);
            lemma_table_push(before, id, view);
            assert(store_rows(self.competitions@) =~= before.push((id, view)));
        }
        Ok(())
    }

    /// Where a competition stands.
    pub fn status(&self, id: CompetitionId) -> (r: Result<Status, StoreError>)
        requires
            self.wf(),
        ensures
            match r {
                Ok(s) => self@.dom().contains(id) && s == self@[id].status,
                Err(e) => !self@.dom().contains(id) && e@ == StoreFault::UnknownCompetition(id),
            },
    {
        match self.find(id) {
            Some(i) => Ok(self.competitions[i].state.status),
            None => Err(StoreError::UnknownCompetition(id)),
        }
    }

    /// Advances a competition by one stage; any other move is refused.
    pub fn transition(&mut self, id: CompetitionId, to: Status) -> (r: Result<(), StoreError>)
        requires
            old(self).wf(),
        ensures
            final(self).wf(),
            match r {
                Ok(()) => {
                    &&& transition_fault(old(self)@, id, to) is None
                    &&& final(self)@ == moved(old(self)@, id, to)
                },
                Err(e) => {
                    &&& transition_fault(old(self)@, id, to) == Some(e@)
                    &&& final(self)@ == old(self)@
                },
            },
    {
        match self.find(id) {
            Some(i) => {
                let from = self.competitions[i].state.status;
                if !from.can_transition_to(to) {
                    return Err(StoreError::IllegalTransition { id, from, to });
                }
                self.competitions[i].state.status = to;
                proof {
                    assert(self.competitions@[i as int].state@ == (CompetitionView {
                        status: to,
                        ..old(self)@[id]
                    }));
                    Self::lemma_state_changed(*old(self), *self, i as int);
                }
                Ok(())
            },
            None => Err(StoreError::UnknownCompetition(id)),
        }
    }

    /// Enrolls a researcher, or tops up their stake. What must reach the floor is the
    /// resulting total.
    pub fn join(&mut self, id: CompetitionId, address: &str, stake_wei: u128) -> (r: Result<
        (),
        StoreError,
    >)
        requires
            old(self).wf(),
        ensures
            final(self).wf(),
            match r {
                Ok(()) => {
                    &&& join_fault(old(self)@, id, address@, stake_wei) is None
                    &&& final(self)@ == joined(old(self)@, id, address@, stake_wei)
                },
                Err(e) => {
                    &&& join_fault(old(self)@, id, address@, stake_wei) == Some(e@)
                    &&& final(self)@ == old(self)@
                },
            },
    {
        let i: usize = match self.find_in(id, Status::Open) {
            Ok(i) => i,
            Err(e) => {
                return Err(e);
            },
        };
        let prior: u128 = match find_researcher(&self.competitions[i].state.researchers, address) {
            Some(k) => self.competitions[i].state.researchers[k].stake_wei,
            None => 0,
        };
        let total: u128 = plus_capped(prior, stake_wei);
        if !self.competitions[i].state.stake_policy.admits(total) {
            return Err(
                StoreError::InsufficientStake {
                    id,
                    researcher: address.to_owned(),
                    posted: total,
                    floor: self.competitions[i].state.stake_policy.min_stake_wei,
                },
            );
        }
        self.competitions[i].state.enroll(address, total);
        proof {
            Self::lemma_state_changed(*old(self), *self, i as int);
        }
        Ok(())
    }

    /// Records a candidate commitment of an enrolled researcher. The candidate goes
    /// by the commitment.
    pub fn commit(&mut self, id: CompetitionId, researcher: &str, commitment: &str) -> (r: Result<
        String,
        StoreError,
    >)
        requires
            old(self).wf(),
        ensures
            final(self).wf(),
            match r {
                Ok(candidate_id) => {
                    &&& commit_fault(old(self)@, id, researcher@, commitment@) is None
                    &&& candidate_id@ == commitment@
                    &&& final(self)@ == committed(old(self)@, id, researcher@, commitment@)
                },
                Err(e) => {
                    &&& commit_fault(old(self)@, id, researcher@, commitment@) == Some(e@)
                    &&& final(self)@ == old(self)@
                },
            },
    {
        let i: usize = match self.find_in(id, Status::Submitting) {
            Ok(i) => i,
            Err(e) => {
                return Err(e);
            },
        };
        let staked = match find_researcher(&self.competitions[i].state.researchers, researcher) {
            Some(k) => self.competitions[i].state.stake_policy.admits(
                self.competitions[i].state.researchers[k].stake_wei,
            ),
            None => false,
        };
        if !staked {
            return Err(StoreError::NotStaked { id, researcher: researcher.to_owned() });
        }
        if find_candidate(&self.competitions[i].state.candidates, commitment).is_some() {
            return Err(StoreError::DuplicateCandidate(commitment.to_owned()));
        }
        self.competitions[i].state.add_candidate(researcher, commitment);
        proof {
            Self::lemma_state_changed(*old(self), *self, i as int);
        }
        Ok(commitment.to_owned())
    }

    /// Attaches the revealed artifact to a committed candidate.
    pub fn reveal_candidate(
        &mut self,
        id: CompetitionId,
        candidate_id: &str,
        expected_commitment: &str,
        artifact_ref: ArtifactRef,
    ) -> (r: Result<(), StoreError>)
        requires
            old(self).wf(),
        ensures
            final(self).wf(),
            match r {
                Ok(()) => {
                    &&& reveal_fault(old(self)@, id, candidate_id@, expected_commitment@) is None
                    &&& final(self)@ == revealed(old(self)@, id, candidate_id@, artifact_ref@)
                },
                Err(e) => {
                    &&& reveal_fault(old(self)@, id, candidate_id@, expected_commitment@) == Some(
                        e@,
                    )
                    &&& final(self)@ == old(self)@
                },
            },
    {
        let i: usize = match self.find_in(id, Status::Submitting) {
            Ok(i) => i,
            Err(e) => {
                return Err(e);
            },
        };
        let k: usize = match find_candidate(&self.competitions[i].state.candidates, candidate_id) {
            Some(k) => k,
            None => {
                return Err(StoreError::UnknownCandidate(candidate_id.to_owned()));
            },
        };
        if !same_text(
            self.competitions[i].state.candidates[k].commitment.as_str(),
            expected_commitment,
        ) {
            return Err(StoreError::RevealMismatch(candidate_id.to_owned()));
        }
        let record = CandidateRecord {
            id: self.competitions[i].state.candidates[k].id.clone(),
            researcher: self.competitions[i].state.candidates[k].researcher.clone(),
            commitment: self.competitions[i].state.candidates[k].commitment.clone(),
            artifact_ref: Some(artifact_ref),
            evidence: copy_evidence(&self.competitions[i].state.candidates[k].evidence),
        };
        self.competitions[i].state.replace(k, record);
        proof {
            Self::lemma_state_changed(*old(self), *self, i as int);
        }
        Ok(())
    }

    /// Attaches certified evidence to a candidate.
    pub fn record_evidence(&mut self, id: CompetitionId, candidate_id: &str, evidence: Evidence) -> (r:
        Result<(), StoreError>)
        requires
            old(self).wf(),
        ensures
            final(self).wf(),
            match r {
                Ok(()) => {
                    &&& evidence_fault(old(self)@, id, candidate_id@) is None
                    &&& final(self)@ == evidenced(old(self)@, id, candidate_id@, evidence)
                },
                Err(e) => {
                    &&& evidence_fault(old(self)@, id, candidate_id@) == Some(e@)
                    &&& final(self)@ == old(self)@
                },
            },
    {
        let i: usize = match self.find_in(id, Status::Scoring) {
            Ok(i) => i,
            Err(e) => {
                return Err(e);
            },
        };
        let k: usize = match find_candidate(&self.competitions[i].state.candidates, candidate_id) {
            Some(k) => k,
            None => {
                return Err(StoreError::UnknownCandidate(candidate_id.to_owned()));
            },
        };
        let record = CandidateRecord {
            id: self.competitions[i].state.candidates[k].id.clone(),
            researcher: self.competitions[i].state.candidates[k].researcher.clone(),
            commitment: self.competitions[i].state.candidates[k].commitment.clone(),
            artifact_ref: copy_ref(&self.competitions[i].state.candidates[k].artifact_ref),
            evidence: Some(evidence),
        };
        self.competitions[i].state.replace(k, record);
        proof {
            Self::lemma_state_changed(*old(self), *self, i as int);
        }
        Ok(())
    }

    /// The researchers who joined a competition, each once.
    pub fn researchers(&self, id: CompetitionId) -> (r: Result<Vec<&Researcher>, StoreError>)
        requires
            self.wf(),
        ensures
            match r {
                Ok(list) => {
                    &&& self@.dom().contains(id)
                    &&& list@.len() == self@[id].researchers.dom().len()
                    &&& forall|i: int|
                        0 <= i < list@.len() ==> {
                            &&& self@[id].researchers.dom().contains((#[trigger] list@[i]).address@)
                            &&& self@[id].researchers[list@[i].address@] == list@[i].stake_wei
                        }
                    &&& forall|i: int, j: int|
                        0 <= i < list@.len() && 0 <= j < list@.len() && i != j ==> (
                        #[trigger] list@[i]).address@ != (#[trigger] list@[j]).address@
                },
                Err(e) => !self@.dom().contains(id) && e@ == StoreFault::UnknownCompetition(id),
            },
    {
        let i: usize = match self.find(id) {
            Some(i) => i,
            None => {
                return Err(StoreError::UnknownCompetition(id));
            },
        };
        let all = &self.competitions[i].state.researchers;
        let ghost rows = researcher_rows(all@);
        let mut list: Vec<&Researcher> = Vec::new();
        for k in 0..all.len()
            invariant
                list@.len() == k,
                forall|j: int| 0 <= j < k ==> *(#[trigger] list@[j]) == all@[j],
        {
            list.push(&all[k]);
        }
        proof {
            lemma_table_len(rows);
            assert forall|j: int| 0 <= j < list@.len() implies self@[id].researchers.dom().contains(
                (#[trigger] list@[j]).address@,
            ) && self@[id].researchers[list@[j].address@] == list@[j].stake_wei by {
                lemma_table_row(rows, j);
            }
            assert forall|p: int, q: int|
                0 <= p < list@.len() && 0 <= q < list@.len() && p != q implies (
            #[trigger] list@[p]).address@ != (#[trigger] list@[q]).address@ by {
                assert(rows[p].0 != rows[q].0);
            }
        }
        Ok(list)
    }

    /// The candidates of a competition, each once.
    pub fn candidates(&self, id: CompetitionId) -> (r: Result<Vec<&CandidateRecord>, StoreError>)
        requires
            self.wf(),
        ensures
            match r {
                Ok(list) => {
                    &&& self@.dom().contains(id)
                    &&& list@.len() == self@[id].candidates.dom().len()
                    &&& forall|i: int|
                        0 <= i < list@.len() ==> {
                            &&& self@[id].candidates.dom().contains((#[trigger] list@[i]).id@)
                            &&& self@[id].candidates[list@[i].id@] == list@[i]@
                        }
                    &&& forall|i: int, j: int|
                        0 <= i < list@.len() && 0 <= j < list@.len() && i != j ==> (
                        #[trigger] list@[i]).id@ != (#[trigger] list@[j]).id@
                },
                Err(e) => !self@.dom().contains(id) && e@ == StoreFault::UnknownCompetition(id),
            },
    {
        let i: usize = match self.find(id) {
            Some(i) => i,
            None => {
                return Err(StoreError::UnknownCompetition(id));
            },
        };
        let all = &self.competitions[i].state.candidates;
        let ghost rows = candidate_rows(all@);
        let mut list: Vec<&CandidateRecord> = Vec::new();
        for k in 0..all.len()
            invariant
                list@.len() == k,
                forall|j: int| 0 <= j < k ==> *(#[trigger] list@[j]) == all@[j],
        {
            list.push(&all[k]);
        }
        proof {
            lemma_table_len(rows);
            assert forall|j: int| 0 <= j < list@.len() implies self@[id].candidates.dom().contains(
                (#[trigger] list@[j]).id@,
            ) && self@[id].candidates[list@[j].id@] == list@[j]@ by {
                lemma_table_row(rows, j);
            }
            assert forall|p: int, q: int|
                0 <= p < list@.len() && 0 <= q < list@.len() && p != q implies (
            #[trigger] list@[p]).id@ != (#[trigger] list@[q]).id@ by {
                assert(rows[p].0 != rows[q].0);
            }
        }
        Ok(list)
    }

    /// A candidate by id.
    pub fn candidate(&self, id: CompetitionId, candidate_id: &str) -> (r: Result<
        &CandidateRecord,
        StoreError,
    >)
        requires
            self.wf(),
        ensures
            match r {
                Ok(c) => {
                    &&& self@.dom().contains(id)
                    &&& self@[id].candidates.dom().contains(candidate_id@)
                    &&& c.id@ == candidate_id@
                    &&& c@ == self@[id].candidates[candidate_id@]
                },
                Err(e) => if self@.dom().contains(id) {
                    &&& !self@[id].candidates.dom().contains(candidate_id@)
                    &&& e@ == StoreFault::UnknownCandidate(candidate_id@)
                } else {
                    e@ == StoreFault::UnknownCompetition(id)
                },
            },
    {
        match self.find(id) {
            Some(i) => match find_candidate(&self.competitions[i].state.candidates, candidate_id) {
                Some(k) => Ok(&self.competitions[i].state.candidates[k]),
                None => Err(StoreError::UnknownCandidate(candidate_id.to_owned())),
            },
            None => Err(StoreError::UnknownCompetition(id)),
        }
    }
}

fn copy_evidence(e: &Option<Evidence>) -> (r: Option<Evidence>)
    ensures
        r == *e,
{
    match e {
        Some(row) => Some(row.clone()),
        None => None,
    }
}

impl Default for CompetitionStore {
    fn default() -> (r: Self)
        ensures
            r.wf(),
            r@ == Map::<CompetitionId, CompetitionView>::empty(),
    {
        CompetitionStore::new()
    }
}

// --- What is accepted, in plain terms ----------------------------------------

/// A competition moves only to the state that follows its own: from draft to open, to
/// submitting, to scoring, to settling, to closed; any other move is refused.
pub proof fn states_follow_one_another(
    store: Map<CompetitionId, CompetitionView>,
    id: CompetitionId,
    to: Status,
)
    ensures
        transition_fault(store, id, to) is None <==> store.dom().contains(id) && match to {
            Status::Draft => false,
            Status::Open => store[id].status is Draft,
            Status::Submitting => store[id].status is Open,
            Status::Scoring => store[id].status is Submitting,
            Status::Settling => store[id].status is Scoring,
            Status::Closed => store[id].status is Settling,
        },
        !store.dom().contains(id) ==> transition_fault(store, id, to) == Some(
            StoreFault::UnknownCompetition(id),
        ),
        store.dom().contains(id) && transition_fault(store, id, to) is Some ==> transition_fault(
            store,
            id,
            to,
        ) == Some(StoreFault::IllegalTransition { id, from: store[id].status, to }),
        store.dom().contains(id) ==> moved(store, id, to)[id] == (CompetitionView {
            status: to,
            floor: store[id].floor,
            researchers: store[id].researchers,
            candidates: store[id].candidates,
        }),
{
}

/// A researcher joins an open competition exactly where what they have posted before and
/// post now reaches its floor; that sum is then their stake, and nothing else changes.
pub proof fn joining_takes_the_floor_in_all(
    store: Map<CompetitionId, CompetitionView>,
    id: CompetitionId,
    address: Seq<char>,
    stake_wei: u128,
)
    requires
        store.dom().contains(id),
    ensures
        ({
            let c = store[id];
            let before = if c.researchers.dom().contains(address) {
                c.researchers[address]
            } else {
                0
            };
            let sum = before + stake_wei;
            let fault = join_fault(store, id, address, stake_wei);
            let after = joined(store, id, address, stake_wei)[id];
            &&& fault is None <==> c.status is Open && (sum >= c.floor)
            &&& !(c.status is Open) ==> fault == Some(
                StoreFault::WrongStatus { id, expected: Status::Open, actual: c.status },
            )
            &&& c.status is Open && sum < c.floor ==> (fault matches Some(
                StoreFault::InsufficientStake { id: i, researcher, posted, floor },
            ) && i == id && researcher == address && posted == sum && floor == c.floor)
            &&& after.researchers.dom() == c.researchers.dom().insert(address)
            &&& sum <= u128::MAX ==> after.researchers[address] == sum
            &&& sum > u128::MAX ==> after.researchers[address] == u128::MAX
            &&& forall|other: Seq<char>|
                other != address && c.researchers.dom().contains(other)
                    ==> #[trigger] after.researchers[other] == c.researchers[other]
            &&& after.status == c.status && after.floor == c.floor && after.candidates
                == c.candidates
        }),
{
    let c = store[id];
    let after = joined(store, id, address, stake_wei)[id];
    assert(after.researchers.dom() =~= c.researchers.dom().insert(address));
}

/// A commitment is taken down exactly where submissions are open, whoever makes it has
/// joined with a stake that reaches the floor, and nobody has made it before.
pub proof fn committing_takes_a_stake_and_something_new(
    store: Map<CompetitionId, CompetitionView>,
    id: CompetitionId,
    researcher: Seq<char>,
    commitment: Seq<char>,
)
    requires
        store.dom().contains(id),
    ensures
        ({
            let c = store[id];
            let staked = c.researchers.dom().contains(researcher) && c.researchers[researcher]
                >= c.floor;
            let new = !c.candidates.dom().contains(commitment);
            let fault = commit_fault(store, id, researcher, commitment);
            let after = committed(store, id, researcher, commitment)[id];
            &&& fault is None <==> c.status is Submitting && staked && new
            &&& !(c.status is Submitting) ==> fault == Some(
                StoreFault::WrongStatus { id, expected: Status::Submitting, actual: c.status },
            )
            &&& c.status is Submitting && !staked ==> fault == Some(
                StoreFault::NotStaked { id, researcher },
            )
            &&& c.status is Submitting && staked && !new ==> fault == Some(
                StoreFault::DuplicateCandidate(commitment),
            )
            &&& after.candidates == c.candidates.insert(
                commitment,
                CandidateView { researcher, commitment, artifact_ref: None, evidence: None },
            )
            &&& after.status == c.status && after.floor == c.floor && after.researchers
                == c.researchers
        }),
{
}

/// A reveal or a piece of evidence is taken down exactly where its stage is open and the
/// candidate is there, a reveal only with the commitment that was made; it changes that
/// one candidate in that one respect.
pub proof fn reveals_and_evidence_touch_one_candidate(
    store: Map<CompetitionId, CompetitionView>,
    id: CompetitionId,
    candidate_id: Seq<char>,
    offered: Seq<char>,
    artifact_ref: Seq<char>,
    evidence: Evidence,
)
    requires
        store.dom().contains(id),
    ensures
        ({
            let c = store[id];
            let known = c.candidates.dom().contains(candidate_id);
            let before = c.candidates[candidate_id];
            let fault = reveal_fault(store, id, candidate_id, offered);
            let after = revealed(store, id, candidate_id, artifact_ref)[id];
            &&& fault is None <==> c.status is Submitting && known && before.commitment == offered
            &&& c.status is Submitting && !known ==> fault == Some(
                StoreFault::UnknownCandidate(candidate_id),
            )
            &&& c.status is Submitting && known && before.commitment != offered ==> fault == Some(
                StoreFault::RevealMismatch(candidate_id),
            )
            &&& !(c.status is Submitting) ==> fault == Some(
                StoreFault::WrongStatus { id, expected: Status::Submitting, actual: c.status },
            )
            &&& after.candidates == c.candidates.insert(
                candidate_id,
                CandidateView {
                    researcher: before.researcher,
                    commitment: before.commitment,
                    artifact_ref: Some(artifact_ref),
                    evidence: before.evidence,
                },
            )
            &&& after.status == c.status && after.floor == c.floor && after.researchers
                == c.researchers
        }),
        ({
            let c = store[id];
            let known = c.candidates.dom().contains(candidate_id);
            let before = c.candidates[candidate_id];
            let fault = evidence_fault(store, id, candidate_id);
            let after = evidenced(store, id, candidate_id, evidence)[id];
            &&& fault is None <==> c.status is Scoring && known
            &&& c.status is Scoring && !known ==> fault == Some(
                StoreFault::UnknownCandidate(candidate_id),
            )
            &&& !(c.status is Scoring) ==> fault == Some(
                StoreFault::WrongStatus { id, expected: Status::Scoring, actual: c.status },
            )
            &&& after.candidates == c.candidates.insert(
                candidate_id,
                CandidateView {
                    researcher: before.researcher,
                    commitment: before.commitment,
                    artifact_ref: before.artifact_ref,
                    evidence: Some(evidence),
                },
            )
            &&& after.status == c.status && after.floor == c.floor && after.researchers
                == c.researchers
        }),
{
}

/// Nothing can be done to a competition that is not there.
pub proof fn an_unknown_competition_is_refused(
    store: Map<CompetitionId, CompetitionView>,
    id: CompetitionId,
    who: Seq<char>,
    stake_wei: u128,
    text: Seq<char>,
)
    requires
        !store.dom().contains(id),
    ensures
        join_fault(store, id, who, stake_wei) == Some(StoreFault::UnknownCompetition(id)),
        commit_fault(store, id, who, text) == Some(StoreFault::UnknownCompetition(id)),
        reveal_fault(store, id, who, text) == Some(StoreFault::UnknownCompetition(id)),
        evidence_fault(store, id, text) == Some(StoreFault::UnknownCompetition(id)),
{
}

/// A new competition is a draft with its policy's floor, without researchers and without
/// candidates; and in a sound one whoever is enrolled has reached the floor and every
/// candidate goes by its own commitment and belongs to somebody enrolled.
pub proof fn a_sound_competition_holds_what_was_let_in(
    policy: StakePolicy,
    c: CompetitionView,
    who: Seq<char>,
    candidate_id: Seq<char>,
)
    requires
        c.sound(),
    ensures
        CompetitionView::fresh(policy).status is Draft,
        CompetitionView::fresh(policy).floor == policy.min_stake_wei,
        CompetitionView::fresh(policy).researchers.dom().len() == 0,
        CompetitionView::fresh(policy).candidates.dom().len() == 0,
        c.researchers.dom().contains(who) ==> c.researchers[who] >= c.floor,
        c.candidates.dom().contains(candidate_id) ==> {
            &&& c.candidates[candidate_id].commitment == candidate_id
            &&& c.researchers.dom().contains(c.candidates[candidate_id].researcher)
            &&& c.researchers[c.candidates[candidate_id].researcher] >= c.floor
        },
{
    if c.candidates.dom().contains(candidate_id) {
        assert(c.eligible(c.candidates[candidate_id].researcher));
    }
}

// --- What the operations do, in plain terms ----------------------------------

/// Two stores say the same of a competition.
pub open spec fn same_at(
    a: Map<CompetitionId, CompetitionView>,
    b: Map<CompetitionId, CompetitionView>,
    id: CompetitionId,
) -> bool {
    &&& a.dom().contains(id) <==> b.dom().contains(id)
    &&& a.dom().contains(id) ==> a[id] == b[id]
}

/// A competition is created exactly where its id is free: as a draft with the policy's
/// floor, without researchers and candidates. No other competition changes.
pub proof fn a_competition_is_created_once(
    store: &mut CompetitionStore,
    id: CompetitionId,
    policy: StakePolicy,
    r: Result<(), StoreError>,
    other: CompetitionId,
)
    requires
        old(store).wf(),
        call_ensures(CompetitionStore::create_with_policy, (store, id, policy), r),
    ensures
        r is Ok <==> !old(store)@.dom().contains(id),
        r matches Err(e) ==> e@ == StoreFault::DuplicateCompetition(id) && final(store)@
            == old(store)@,
        r is Ok ==> {
            let c = final(store)@[id];
            &&& final(store)@.dom().contains(id)
            &&& c.status is Draft && c.floor == policy.min_stake_wei
            &&& c.researchers.dom().len() == 0 && c.candidates.dom().len() == 0
        },
        other != id ==> same_at(old(store)@, final(store)@, other),
{
}

/// A competition without a policy of its own lets any stake in.
pub proof fn without_a_policy_any_stake_will_do(
    store: &mut CompetitionStore,
    id: CompetitionId,
    r: Result<(), StoreError>,
)
    requires
        old(store).wf(),
        call_ensures(CompetitionStore::create, (store, id), r),
    ensures
        r is Ok <==> !old(store)@.dom().contains(id),
        r is Ok ==> final(store)@.dom().contains(id) && final(store)@[id].floor == 0
            && final(store)@[id].status is Draft,
{
}

/// A transition goes through exactly where the competition is there and the state asked
/// for is the one that follows its own; then it is in that state, and nothing else has
/// changed.
pub proof fn a_transition_moves_one_state_on(
    store: &mut CompetitionStore,
    id: CompetitionId,
    to: Status,
    r: Result<(), StoreError>,
    other: CompetitionId,
)
    requires
        old(store).wf(),
        call_ensures(CompetitionStore::transition, (store, id, to), r),
    ensures
        r is Ok <==> old(store)@.dom().contains(id) && match to {
            Status::Draft => false,
            Status::Open => old(store)@[id].status is Draft,
            Status::Submitting => old(store)@[id].status is Open,
            Status::Scoring => old(store)@[id].status is Submitting,
            Status::Settling => old(store)@[id].status is Scoring,
            Status::Closed => old(store)@[id].status is Settling,
        },
        r is Ok ==> {
            let (before, after) = (old(store)@[id], final(store)@[id]);
            &&& after.status == to
            &&& after.floor == before.floor && after.researchers == before.researchers
                && after.candidates == before.candidates
        },
        r is Err ==> final(store)@ == old(store)@,
        other != id ==> same_at(old(store)@, final(store)@, other),
{
    states_follow_one_another(old(store)@, id, to);
}

/// A join goes through exactly where the competition is open and what the researcher has
/// posted in all reaches its floor; then that is their stake, and nothing else has
/// changed.
pub proof fn a_join_reaches_the_floor(
    store: &mut CompetitionStore,
    id: CompetitionId,
    address: &str,
    stake_wei: u128,
    r: Result<(), StoreError>,
    other: CompetitionId,
    who: Seq<char>,
)
    requires
        old(store).wf(),
        call_ensures(CompetitionStore::join, (store, id, address, stake_wei), r),
    ensures
        ({
            let (before, after) = (old(store)@[id], final(store)@[id]);
            let sum = stake_wei + (if before.researchers.dom().contains(address@) {
                before.researchers[address@]
            } else {
                0
            });
            &&& r is Ok <==> old(store)@.dom().contains(id) && before.status is Open && sum
                >= before.floor
            &&& r is Ok ==> {
                &&& after.researchers.dom().contains(address@)
                &&& after.researchers[address@] == min(sum, u128::MAX as int)
                &&& who != address@ ==> (after.researchers.dom().contains(who)
                    <==> before.researchers.dom().contains(who)) && (
                before.researchers.dom().contains(who) ==> after.researchers[who]
                    == before.researchers[who])
                &&& after.status == before.status && after.floor == before.floor
                    && after.candidates == before.candidates
            }
        }),
        r is Err ==> final(store)@ == old(store)@,
        other != id ==> same_at(old(store)@, final(store)@, other),
{
    if old(store)@.dom().contains(id) {
        joining_takes_the_floor_in_all(old(store)@, id, address@, stake_wei);
    }
}

/// A commitment goes through exactly where the competition takes submissions, the
/// researcher has joined with a stake that reaches the floor, and nobody has made it
/// before; then there is one more candidate, which goes by it, and nothing else has
/// changed.
pub proof fn a_commitment_adds_one_candidate(
    store: &mut CompetitionStore,
    id: CompetitionId,
    researcher: &str,
    commitment: &str,
    r: Result<String, StoreError>,
    other: CompetitionId,
)
    requires
        old(store).wf(),
        call_ensures(CompetitionStore::commit, (store, id, researcher, commitment), r),
    ensures
        ({
            let (before, after) = (old(store)@[id], final(store)@[id]);
            &&& r is Ok <==> {
                &&& old(store)@.dom().contains(id)
                &&& before.status is Submitting
                &&& before.researchers.dom().contains(researcher@)
                &&& before.researchers[researcher@] >= before.floor
                &&& !before.candidates.dom().contains(commitment@)
            }
            &&& r matches Ok(candidate_id) ==> {
                &&& candidate_id@ == commitment@
                &&& after.candidates == before.candidates.insert(
                    commitment@,
                    CandidateView {
                        researcher: researcher@,
                        commitment: commitment@,
                        artifact_ref: None,
                        evidence: None,
                    },
                )
                &&& after.status == before.status && after.floor == before.floor
                    && after.researchers == before.researchers
            }
        }),
        r is Err ==> final(store)@ == old(store)@,
        other != id ==> same_at(old(store)@, final(store)@, other),
{
    if old(store)@.dom().contains(id) {
        committing_takes_a_stake_and_something_new(old(store)@, id, researcher@, commitment@);
    }
}

/// A reveal goes through exactly where the competition takes submissions and the candidate
/// was committed to as is now said; then that candidate has the artifact, and nothing else
/// has changed.
pub proof fn a_reveal_keeps_to_its_commitment(
    store: &mut CompetitionStore,
    id: CompetitionId,
    candidate_id: &str,
    offered: &str,
    artifact_ref: ArtifactRef,
    r: Result<(), StoreError>,
    other: CompetitionId,
)
    requires
        old(store).wf(),
        call_ensures(
            CompetitionStore::reveal_candidate,
            (store, id, candidate_id, offered, artifact_ref),
            r,
        ),
    ensures
        ({
            let (before, after) = (old(store)@[id], final(store)@[id]);
            let candidate = before.candidates[candidate_id@];
            &&& r is Ok <==> {
                &&& old(store)@.dom().contains(id)
                &&& before.status is Submitting
                &&& before.candidates.dom().contains(candidate_id@)
                &&& candidate.commitment == offered@
            }
            &&& r is Ok ==> {
                &&& after.candidates == before.candidates.insert(
                    candidate_id@,
                    CandidateView { artifact_ref: Some(artifact_ref@), ..candidate },
                )
                &&& after.status == before.status && after.floor == before.floor
                    && after.researchers == before.researchers
            }
        }),
        r is Err ==> final(store)@ == old(store)@,
        other != id ==> same_at(old(store)@, final(store)@, other),
{
}

/// Evidence is taken down exactly where the competition is being scored and the candidate
/// is there; then that candidate has it, and nothing else has changed.
pub proof fn evidence_is_taken_down_while_scoring(
    store: &mut CompetitionStore,
    id: CompetitionId,
    candidate_id: &str,
    evidence: Evidence,
    r: Result<(), StoreError>,
    other: CompetitionId,
)
    requires
        old(store).wf(),
        call_ensures(CompetitionStore::record_evidence, (store, id, candidate_id, evidence), r),
    ensures
        ({
            let (before, after) = (old(store)@[id], final(store)@[id]);
            let candidate = before.candidates[candidate_id@];
            &&& r is Ok <==> {
                &&& old(store)@.dom().contains(id)
                &&& before.status is Scoring
                &&& before.candidates.dom().contains(candidate_id@)
            }
            &&& r is Ok ==> {
                &&& after.candidates == before.candidates.insert(
                    candidate_id@,
                    CandidateView { evidence: Some(evidence), ..candidate },
                )
                &&& after.status == before.status && after.floor == before.floor
                    && after.researchers == before.researchers
            }
        }),
        r is Err ==> final(store)@ == old(store)@,
        other != id ==> same_at(old(store)@, final(store)@, other),
{
}

/// A status, a candidate and the lists are read as they were taken down; what is not there
/// is said not to be.
pub proof fn a_store_is_read_as_taken_down(
    store: &CompetitionStore,
    id: CompetitionId,
    candidate_id: &str,
    status: Result<Status, StoreError>,
    candidate: Result<&CandidateRecord, StoreError>,
)
    requires
        store.wf(),
        call_ensures(CompetitionStore::status, (store, id), status),
        call_ensures(CompetitionStore::candidate, (store, id, candidate_id), candidate),
    ensures
        status is Ok <==> store@.dom().contains(id),
        status matches Ok(s) ==> s == store@[id].status,
        status matches Err(e) ==> e@ == StoreFault::UnknownCompetition(id),
        candidate is Ok <==> store@.dom().contains(id) && store@[id].candidates.dom().contains(
            candidate_id@,
        ),
        candidate matches Ok(c) ==> {
            let held = store@[id].candidates[candidate_id@];
            &&& c.id@ == candidate_id@
            &&& c.researcher@ == held.researcher
            &&& c.commitment@ == held.commitment
            &&& c.evidence == held.evidence
        },
{
}

/// A store error says which competition, who, and what was held against what.
pub proof fn a_store_error_says_what_was_held_against_what(
    id: CompetitionId,
    researcher: String,
    posted: u128,
    floor: u128,
    from: Status,
    to: Status,
    below: StoreError,
    illegal: StoreError,
    wrong: StoreError,
    below_text: String,
    illegal_text: String,
    wrong_text: String,
)
    requires
        below == (StoreError::InsufficientStake { id, researcher, posted, floor }),
        illegal == (StoreError::IllegalTransition { id, from, to }),
        wrong == (StoreError::WrongStatus { id, expected: to, actual: from }),
        call_ensures(StoreError::message, (&below,), below_text),
        call_ensures(StoreError::message, (&illegal,), illegal_text),
        call_ensures(StoreError::message, (&wrong,), wrong_text),
    ensures
        below_text@ == "join stake "@ + decimal(posted as nat) + " for "@ + researcher@
            + " in competition "@ + decimal(id as nat) + " is below the policy floor "@ + decimal(
            floor as nat,
        ),
        illegal_text@ == "illegal status transition for competition "@ + decimal(id as nat)
            + ": "@ + from.written() + " -> "@ + to.written(),
        wrong_text@ == "operation requires competition "@ + decimal(id as nat) + " to be in "@
            + to.written() + ", but it is "@ + from.written(),
{
}

} // verus!
