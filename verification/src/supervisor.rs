//! The improvement engine that every domain shares: a seeded local search that keeps
//! what the dev scorer rewards.
//!
//! The search speaks of an artifact only through its numbers, so a new domain is a new
//! scorer and never a new engine. Perturbing the numbers and scoring a proposal are the
//! work of the program around this library; which proposals are kept is decided here.
use crate::binary64::{bits_tell_what_is_a_number, key_order_is_value_order, Binary64};
use crate::encoding::{le_bytes, push_u64_le};
use crate::fnv::{absorb, fnv1a, fnv_from, lemma_absorb_concat, FNV_OFFSET};
use crate::text::{padded_hex, to_padded_hex};
use crate::traits::{Engine, EngineError, ScorerError, Surface, SurfaceError};
use crate::types::ArtifactRef;
use vstd::prelude::*;
use vstd::utf8::encode_utf8;

verus! {

// --- The artifact -----------------------------------------------------------

/// What kind of thing is being improved.
#[derive(Clone, Copy, Debug, PartialEq, Eq, Structural)]
pub enum ArtifactKind {
    /// A program or algorithm.
    Program,
    /// A solver or heuristic.
    Solver,
    /// A formal proof.
    Proof,
    /// An agent profile.
    AgentProfile,
    /// A model or pipeline configuration.
    Config,
    /// A forecasting model.
    Forecast,
    /// A prompt or retrieval pipeline.
    Prompt,
    /// Anything else.
    Text,
}

impl ArtifactKind {
    /// The byte that stands for the kind.
    pub open spec fn byte(self) -> u8 {
        match self {
            ArtifactKind::Program => 0,
            ArtifactKind::Solver => 1,
            ArtifactKind::Proof => 2,
            ArtifactKind::AgentProfile => 3,
            ArtifactKind::Config => 4,
            ArtifactKind::Forecast => 5,
            ArtifactKind::Prompt => 6,
            ArtifactKind::Text => 7,
        }
    }

    /// The byte that stands for the kind.
    pub fn code(self) -> (r: u8)
        ensures
            r == self.byte(),
    {
        match self {
            ArtifactKind::Program => 0,
            ArtifactKind::Solver => 1,
            ArtifactKind::Proof => 2,
            ArtifactKind::AgentProfile => 3,
            ArtifactKind::Config => 4,
            ArtifactKind::Forecast => 5,
            ArtifactKind::Prompt => 6,
            ArtifactKind::Text => 7,
        }
    }
}

/// An artifact of any domain: the numbers that the search moves and a scorer decodes,
/// and the text that an external backend works on.
#[derive(Debug, PartialEq)]
pub struct GenericArtifact {
    pub kind: ArtifactKind,
    pub params: Vec<Binary64>,
    pub content: String,
}

/// What an artifact holds.
pub struct GenericView {
    pub kind: ArtifactKind,
    pub params: Seq<Binary64>,
    pub content: Seq<char>,
}

impl View for GenericArtifact {
    type V = GenericView;

    open spec fn view(&self) -> GenericView {
        GenericView { kind: self.kind, params: self.params@, content: self.content@ }
    }
}

fn copy_params(params: &Vec<Binary64>) -> (r: Vec<Binary64>)
    ensures
        r@ == params@,
{
    let mut r: Vec<Binary64> = Vec::new();
    for i in 0..params.len()
        invariant
            r@ == params@.take(i as int),
    {
        proof {
            assert(params@.take(i as int).push(params@[i as int]) =~= params@.take(i + 1));
        }
        r.push(params[i]);
    }
    proof {
        assert(params@.take(params@.len() as int) =~= params@);
    }
    r
}

impl Clone for GenericArtifact {
    fn clone(&self) -> (r: Self)
        ensures
            r@ == self@,
    {
        GenericArtifact {
            kind: self.kind,
            params: copy_params(&self.params),
            content: self.content.clone(),
        }
    }
}

impl GenericView {
    /// There are numbers, and all of them are finite.
    pub open spec fn searchable(self) -> bool {
        self.params.len() > 0 && forall|i: int|
            0 <= i < self.params.len() ==> (#[trigger] self.params[i]).finite()
    }

    /// The bytes that the reference of an artifact commits to.
    pub open spec fn encoding(self) -> Seq<u8> {
        seq![self.kind.byte()] + params_encoding(self.params) + encode_utf8(self.content)
    }
}

/// The numbers as eight bytes each.
pub open spec fn params_encoding(params: Seq<Binary64>) -> Seq<u8>
    decreases params.len(),
{
    if params.len() == 0 {
        Seq::empty()
    } else {
        params_encoding(params.drop_last()) + le_bytes(params.last().bits as nat, 8)
    }
}

impl GenericArtifact {
    /// An artifact.
    pub fn new(kind: ArtifactKind, params: Vec<Binary64>, content: String) -> (r: Self)
        ensures
            r@ == (GenericView { kind, params: params@, content: content@ }),
    {
        GenericArtifact { kind, params, content }
    }

    /// An artifact with `dim` numbers, all zero.
    pub fn baseline(kind: ArtifactKind, dim: usize, content: String) -> (r: Self)
        ensures
            r@ == (GenericView {
                kind,
                params: Seq::new(dim as nat, |i: int| Binary64 { bits: 0 }),
                content: content@,
            }),
    {
        let mut params: Vec<Binary64> = Vec::new();
        for i in 0..dim
            invariant
                params@ == Seq::new(i as nat, |j: int| Binary64 { bits: 0 }),
        {
            params.push(Binary64 { bits: 0 });
            proof {
                assert(params@ =~= Seq::new((i + 1) as nat, |j: int| Binary64 { bits: 0 }));
            }
        }
        GenericArtifact::new(kind, params, content)
    }
}

// --- The surface ------------------------------------------------------------

/// The surface of [`GenericArtifact`]: a candidate with finite numbers supersedes the
/// base as a whole.
#[derive(Clone, Copy, Debug)]
pub struct GenericSurface;

impl Default for GenericSurface {
    fn default() -> (r: Self) {
        GenericSurface
    }
}

/// Why an artifact cannot be searched, if it cannot.
pub open spec fn surface_fault(a: GenericView) -> Option<Seq<char>> {
    if a.params.len() == 0 {
        Some("artifact has no params"@)
    } else if !a.searchable() {
        Some("params must be finite"@)
    } else {
        None
    }
}

/// The result is the surface's rejection for the given reason.
pub open spec fn rejected<A>(r: Result<A, SurfaceError>, why: Seq<char>) -> bool {
    r matches Err(SurfaceError::Invalid(m)) && m@ == why
}

impl Surface for GenericSurface {
    type Artifact = GenericArtifact;

    fn id(&self) -> (r: &str)
        ensures
            r@ == "generic-artifact"@,
    {
        "generic-artifact"
    }

    fn validate(&self, artifact: &GenericArtifact) -> (r: Result<(), SurfaceError>)
        ensures
            match surface_fault(artifact@) {
                None => r is Ok,
                Some(why) => rejected(r, why),
            },
    {
        if artifact.params.len() == 0 {
            return Err(SurfaceError::Invalid("artifact has no params".to_owned()));
        }
        for i in 0..artifact.params.len()
            invariant
                artifact.params@.len() > 0,
                forall|j: int| 0 <= j < i ==> (#[trigger] artifact.params@[j]).finite(),
        {
            if !artifact.params[i].is_finite() {
                return Err(SurfaceError::Invalid("params must be finite".to_owned()));
            }
        }
        Ok(())
    }

    fn apply_delta(&self, base: &GenericArtifact, delta: &GenericArtifact) -> (r: Result<
        GenericArtifact,
        SurfaceError,
    >)
        ensures
            match surface_fault(delta@) {
                None => r matches Ok(a) && a@ == delta@,
                Some(why) => rejected(r, why),
            },
    {
        match self.validate(delta) {
            Ok(()) => Ok(delta.clone()),
            Err(e) => Err(e),
        }
    }

    fn to_ref(&self, artifact: &GenericArtifact) -> (r: Result<ArtifactRef, SurfaceError>)
        ensures
            match surface_fault(artifact@) {
                None => r matches Ok(reference) && reference@ == "generic:"@ + padded_hex(
                    fnv1a(artifact@.encoding()) as nat,
                    16,
                ),
                Some(why) => rejected(r, why),
            },
    {
        match self.validate(artifact) {
            Ok(()) => {},
            Err(e) => {
                return Err(e);
            },
        }
        let kind: [u8; 1] = [artifact.kind.code()];
        let ghost head = seq![artifact.kind.byte()];
        let mut hash: u64 = absorb(FNV_OFFSET, kind.as_slice());
        proof {
            assert(kind@ =~= head);
            assert(head + params_encoding(artifact.params@.take(0)) =~= head);
        }
        for i in 0..artifact.params.len()
            invariant
                hash == fnv_from(
                    FNV_OFFSET,
                    head + params_encoding(artifact.params@.take(i as int)),
                ),
        {
            let mut word: Vec<u8> = Vec::new();
            push_u64_le(&mut word, artifact.params[i].bits);
            proof {
                let done = artifact.params@.take(i as int);
                let more = artifact.params@.take(i + 1);
                assert(more.drop_last() =~= done);
                assert(word@ =~= le_bytes(more.last().bits as nat, 8));
                lemma_absorb_concat(FNV_OFFSET, head + params_encoding(done), word@);
                assert(head + params_encoding(done) + word@ =~= head + params_encoding(more));
            }
            hash = absorb(hash, word.as_slice());
        }
        proof {
            assert(artifact.params@.take(artifact.params@.len() as int) =~= artifact.params@);
            lemma_absorb_concat(
                FNV_OFFSET,
                head + params_encoding(artifact.params@),
                encode_utf8(artifact.content@),
            );
        }
        hash = absorb(hash, artifact.content.as_str().as_bytes());
        Ok(ArtifactRef("generic:".to_owned().concat(to_padded_hex(hash, 16).as_str())))
    }
}

// --- The generator ----------------------------------------------------------

/// A 64-bit linear congruential generator with Knuth's MMIX constants: seeded and
/// reproducible.
#[derive(Clone, Copy, Debug, PartialEq, Eq, Structural)]
pub struct Lcg {
    pub state: u64,
}

/// What a seed is mixed with.
pub const LCG_MIX: u64 = 0x9e37_79b9_7f4a_7c15;

/// What the state is multiplied by.
pub const LCG_MULTIPLIER: u64 = 6364136223846793005;

/// What is added to the state.
pub const LCG_INCREMENT: u64 = 1442695040888963407;

/// The state that follows a state, modulo two to the sixty-fourth.
pub open spec fn next_state(state: u64) -> u64 {
    state.wrapping_mul(LCG_MULTIPLIER).wrapping_add(LCG_INCREMENT)
}

/// The state that follows a state after some steps.
pub open spec fn state_after(state: u64, steps: nat) -> u64
    decreases steps,
{
    if steps == 0 {
        state
    } else {
        next_state(state_after(state, (steps - 1) as nat))
    }
}

/// The fractions that a generator gives next.
pub open spec fn fractions_from(state: u64, n: nat) -> Seq<u64> {
    Seq::new(n, |i: int| state_after(state, (i + 1) as nat) >> 11u64)
}

impl Lcg {
    /// A generator that starts from a seed.
    pub fn new(seed: u64) -> (r: Self)
        ensures
            r.state == seed ^ LCG_MIX,
    {
        Lcg { state: seed ^ LCG_MIX }
    }

    /// The next number.
    pub fn next_u64(&mut self) -> (r: u64)
        ensures
            r == next_state(old(self).state),
            final(self).state == r,
    {
        self.state = self.state.wrapping_mul(LCG_MULTIPLIER).wrapping_add(LCG_INCREMENT);
        self.state
    }

    /// The fifty-three high bits of the next number, from which a double in the unit
    /// interval is made.
    pub fn next_fraction(&mut self) -> (r: u64)
        ensures
            r == next_state(old(self).state) >> 11u64,
            r < 0x20_0000_0000_0000,
            final(self).state == next_state(old(self).state),
    {
        let word: u64 = self.next_u64();
        proof {
            assert(word >> 11u64 < 0x20_0000_0000_0000u64) by (bit_vector);
        }
        word >> 11u64
    }

    /// The next `n` fractions.
    pub fn next_fractions(&mut self, n: usize) -> (fractions: Vec<u64>)
        ensures
            fractions@ == fractions_from(old(self).state, n as nat),
            forall|i: int| 0 <= i < n ==> (#[trigger] fractions@[i]) < 0x20_0000_0000_0000,
            final(self).state == state_after(old(self).state, n as nat),
    {
        let ghost start = self.state;
        let mut fractions: Vec<u64> = Vec::new();
        for i in 0..n
            invariant
                self.state == state_after(start, i as nat),
                fractions@.len() == i,
                forall|j: int|
                    0 <= j < i ==> (#[trigger] fractions@[j]) == fractions_from(
                        start,
                        n as nat,
                    )[j] && fractions@[j] < 0x20_0000_0000_0000,
        {
            fractions.push(self.next_fraction());
        }
        proof {
            assert(fractions@ =~= fractions_from(start, n as nat));
        }
        fractions
    }
}

// --- The search -------------------------------------------------------------

/// How many proposals a search evaluates unless told otherwise.
pub const DEFAULT_BUDGET: usize = 256;

/// A search under way: the best artifact so far and its dev score, where proposals are
/// drawn from, and how many are still to be made.
#[derive(Debug)]
pub struct Search {
    pub best: GenericArtifact,
    pub best_value: Binary64,
    pub rng: Lcg,
    pub left: usize,
}

/// What a search under way holds.
pub struct SearchView {
    pub best: GenericView,
    pub best_value: Binary64,
    pub state: u64,
    pub left: nat,
}

impl View for Search {
    type V = SearchView;

    open spec fn view(&self) -> SearchView {
        SearchView {
            best: self.best@,
            best_value: self.best_value,
            state: self.rng.state,
            left: self.left as nat,
        }
    }
}

/// A proposal: the numbers that are put in place of the best ones, and their score.
pub struct Offer {
    pub params: Seq<Binary64>,
    pub value: Binary64,
}

impl SearchView {
    /// The search after a proposal: it is kept exactly when it scores strictly higher.
    pub open spec fn offered(self, offer: Offer) -> SearchView {
        if self.best_value.lt_spec(offer.value) {
            SearchView {
                best: GenericView { params: offer.params, ..self.best },
                best_value: offer.value,
                ..self
            }
        } else {
            self
        }
    }

    /// The search after a sequence of proposals.
    pub open spec fn offered_all(self, offers: Seq<Offer>) -> SearchView
        decreases offers.len(),
    {
        if offers.len() == 0 {
            self
        } else {
            self.offered_all(offers.drop_last()).offered(offers.last())
        }
    }
}

/// A scorer's failure as the failure of an engine.
fn scorer_failed(e: &ScorerError) -> (r: EngineError)
    ensures
        r matches EngineError::Backend(m) && m@ == e.said(),
{
    EngineError::Backend(e.message())
}

impl Search {
    /// Begins a search of `budget` proposals from `start`, whose dev score is `scored`.
    pub fn begin(
        start: &GenericArtifact,
        seed: u64,
        budget: usize,
        scored: Result<Binary64, ScorerError>,
    ) -> (r: Result<Search, EngineError>)
        ensures
            match scored {
                Ok(value) => r matches Ok(search) && search@ == (SearchView {
                    best: start@,
                    best_value: value,
                    state: seed ^ LCG_MIX,
                    left: budget as nat,
                }),
                Err(e) => r matches Err(EngineError::Backend(m)) && m@ == e.said(),
            },
    {
        match scored {
            Ok(value) => Ok(
                Search {
                    best: start.clone(),
                    best_value: value,
                    rng: Lcg::new(seed),
                    left: budget,
                },
            ),
            Err(e) => Err(scorer_failed(&e)),
        }
    }

    /// Draws the next proposal: one fraction for each number of the best artifact, by
    /// which that number is to be moved; `None` once the budget is used up.
    pub fn draw(&mut self) -> (r: Option<Vec<u64>>)
        ensures
            match r {
                Some(fractions) => {
                    let n = old(self)@.best.params.len();
                    &&& old(self)@.left > 0
                    &&& fractions@ == fractions_from(old(self)@.state, n)
                    &&& forall|i: int|
                        0 <= i < n ==> (#[trigger] fractions@[i]) < 0x20_0000_0000_0000
                    &&& final(self)@ == (SearchView {
                        state: state_after(old(self)@.state, n),
                        left: (old(self)@.left - 1) as nat,
                        ..old(self)@
                    })
                },
                None => old(self)@.left == 0 && final(self)@ == old(self)@,
            },
    {
        if self.left == 0 {
            return None;
        }
        self.left = self.left - 1;
        let n: usize = self.best.params.len();
        Some(self.rng.next_fractions(n))
    }

    /// The artifact to be scored for a proposal: the best one with other numbers.
    pub fn propose(&self, params: Vec<Binary64>) -> (r: GenericArtifact)
        ensures
            r@ == (GenericView { params: params@, ..self@.best }),
    {
        GenericArtifact::new(self.best.kind, params, self.best.content.clone())
    }

    /// Takes the score of a proposal into account: the proposal is kept exactly when it
    /// scores strictly higher than the best so far. A scorer that fails ends the search.
    pub fn consider(
        &mut self,
        params: Vec<Binary64>,
        scored: Result<Binary64, ScorerError>,
    ) -> (r: Result<(), EngineError>)
        ensures
            match scored {
                Ok(value) => r is Ok && final(self)@ == old(self)@.offered(
                    Offer { params: params@, value },
                ),
                Err(e) => final(self)@ == old(self)@ && (r matches Err(EngineError::Backend(m))
                    && m@ == e.said()),
            },
    {
        match scored {
            Ok(value) => {
                if self.best_value.less_than(value) {
                    self.best = self.propose(params);
                    self.best_value = value;
                }
                Ok(())
            },
            Err(e) => Err(scorer_failed(&e)),
        }
    }

    /// The best artifact that was found.
    pub fn finish(self) -> (r: GenericArtifact)
        ensures
            r@ == self@.best,
    {
        self.best
    }
}

/// A search never ends worse than it started: its score is the starting score or
/// strictly higher, and it keeps the kind and the content.
pub proof fn search_never_regresses(start: SearchView, offers: Seq<Offer>)
    ensures
        start.offered_all(offers).best_value == start.best_value || start.best_value.lt_spec(
            start.offered_all(offers).best_value,
        ),
        start.offered_all(offers).best.kind == start.best.kind,
        start.offered_all(offers).best.content == start.best.content,
    decreases offers.len(),
{
    if offers.len() > 0 {
        search_never_regresses(start, offers.drop_last());
    }
}

/// No proposal that a search has seen scores strictly higher than what it ends with.
pub proof fn search_keeps_the_best(start: SearchView, offers: Seq<Offer>, i: int)
    requires
        0 <= i < offers.len(),
    ensures
        !start.offered_all(offers).best_value.lt_spec(offers[i].value),
    decreases offers.len(),
{
    let before = start.offered_all(offers.drop_last());
    if i < offers.len() - 1 {
        search_keeps_the_best(start, offers.drop_last(), i);
        assert(offers.drop_last()[i] == offers[i]);
    }
}

/// The deterministic engine: a seeded local search driven by a dev scorer.
#[derive(Clone, Debug)]
pub struct SupervisorEngine<Sc> {
    pub researcher: String,
    pub start: GenericArtifact,
    pub dev_scorer: Sc,
    pub budget: usize,
    /// How far a proposal moves each number.
    pub step: Binary64,
    pub seed: u64,
    pub sealed: bool,
}

/// The bits of the double one.
pub const ONE_BITS: u64 = 0x3ff0_0000_0000_0000;

impl<Sc> SupervisorEngine<Sc> {
    /// An engine that improves `start` with the default budget and a step of one.
    pub fn new(researcher: String, start: GenericArtifact, dev_scorer: Sc, seed: u64) -> (r: Self)
        ensures
            r == (SupervisorEngine {
                researcher,
                start,
                dev_scorer,
                budget: DEFAULT_BUDGET,
                step: Binary64 { bits: ONE_BITS },
                seed,
                sealed: false,
            }),
    {
        SupervisorEngine {
            researcher,
            start,
            dev_scorer,
            budget: DEFAULT_BUDGET,
            step: Binary64 { bits: ONE_BITS },
            seed,
            sealed: false,
        }
    }

    /// The engine with another number of proposals.
    pub fn with_budget(self, budget: usize) -> (r: Self)
        ensures
            r == (SupervisorEngine { budget, ..self }),
    {
        let mut this = self;
        this.budget = budget;
        this
    }

    /// The engine with another step.
    pub fn with_step(self, step: Binary64) -> (r: Self)
        ensures
            r == (SupervisorEngine { step, ..self }),
    {
        let mut this = self;
        this.step = step;
        this
    }

    /// The engine, marked as running in a sealed environment or not.
    pub fn sealed(self, sealed: bool) -> (r: Self)
        ensures
            r == (SupervisorEngine { sealed, ..self }),
    {
        let mut this = self;
        this.sealed = sealed;
        this
    }

    /// Begins the engine's search; `scored` is the dev score of what it starts from.
    pub fn begin(&self, scored: Result<Binary64, ScorerError>) -> (r: Result<Search, EngineError>)
        ensures
            match scored {
                Ok(value) => r matches Ok(search) && search@ == (SearchView {
                    best: self.start@,
                    best_value: value,
                    state: self.seed ^ LCG_MIX,
                    left: self.budget as nat,
                }),
                Err(e) => r matches Err(EngineError::Backend(m)) && m@ == e.said(),
            },
    {
        Search::begin(&self.start, self.seed, self.budget, scored)
    }

    /// The researcher that the engine submits for.
    pub fn researcher(&self) -> (r: &str)
        ensures
            r@ == self.researcher@,
    {
        self.researcher.as_str()
    }
}

impl<Sc> Engine for SupervisorEngine<Sc> {
    type Artifact = GenericArtifact;

    fn id(&self) -> (r: &str)
        ensures
            r@ == "local-search"@,
    {
        "local-search"
    }

    fn provides_sealed_isolation(&self) -> (r: bool)
        ensures
            r == self.sealed,
    {
        self.sealed
    }
}

// --- The external driver ----------------------------------------------------

/// The task handed to an external driver.
#[derive(Clone, Debug)]
pub struct SubprocessManifest {
    pub kind: ArtifactKind,
    /// The content to improve from.
    pub baseline_content: String,
    pub budget_steps: usize,
    /// The command that gives the dev signal; the driver uses its own where there is
    /// none.
    pub dev_eval_cmd: Option<String>,
}

/// An engine that hands its task to a driver binary.
#[derive(Clone, Debug)]
pub struct SubprocessEngine {
    pub researcher: String,
    /// The driver, which is given the manifest.
    pub driver: String,
    pub manifest: SubprocessManifest,
    pub sealed: bool,
}

/// How the attempt to have a driver do the work went.
#[derive(Debug)]
pub enum DriverRun {
    /// Drivers are not enabled.
    Disabled,
    /// The manifest could not be written.
    NoManifest(String),
    /// The driver could not be started.
    NotSpawned(String),
    /// The driver ended with a failure.
    Failed { status: String, stderr: String },
    /// What the driver wrote could not be read.
    Unreadable(String),
    /// The driver improved the content.
    Improved(String),
}

impl DriverRun {
    /// Why the run gave nothing, if it gave nothing.
    pub open spec fn fault(self) -> Option<Seq<char>> {
        match self {
            DriverRun::Disabled => Some(
                "subprocess-backend feature not enabled: supply a driver binary to run the external process"@,
            ),
            DriverRun::NoManifest(e) => Some("manifest serialization: "@ + e@),
            DriverRun::NotSpawned(e) => Some("subprocess driver spawn: "@ + e@),
            DriverRun::Failed { status, stderr } => Some(
                "subprocess driver exited "@ + status@ + ": "@ + stderr@,
            ),
            DriverRun::Unreadable(e) => Some("subprocess driver output parse: "@ + e@),
            DriverRun::Improved(_) => None,
        }
    }
}

impl SubprocessEngine {
    /// An engine that launches `driver`.
    pub fn new(researcher: String, driver: String, manifest: SubprocessManifest) -> (r: Self)
        ensures
            r == (SubprocessEngine { researcher, driver, manifest, sealed: false }),
    {
        SubprocessEngine { researcher, driver, manifest, sealed: false }
    }

    /// The engine with its driver pinned to an enclave.
    pub fn with_tee(self) -> (r: Self)
        ensures
            r == (SubprocessEngine { sealed: true, ..self }),
    {
        let mut this = self;
        this.sealed = true;
        this
    }

    /// The researcher that the engine submits for.
    pub fn researcher(&self) -> (r: &str)
        ensures
            r@ == self.researcher@,
    {
        self.researcher.as_str()
    }

    /// What a driver's run comes to: the improved content as an artifact without
    /// numbers, or the failure.
    pub fn produce(&self, run: DriverRun) -> (r: Result<GenericArtifact, EngineError>)
        ensures
            match run.fault() {
                Some(why) => r matches Err(EngineError::Backend(m)) && m@ == why,
                None => r matches Ok(a) && a@ == (GenericView {
                    kind: self.manifest.kind,
                    params: Seq::empty(),
                    content: run->Improved_0@,
                }),
            },
    {
        let text = match run {
            DriverRun::Disabled => {
                "subprocess-backend feature not enabled: supply a driver binary to run the external process".to_owned()
            },
            DriverRun::NoManifest(e) => "manifest serialization: ".to_owned().concat(e.as_str()),
            DriverRun::NotSpawned(e) => "subprocess driver spawn: ".to_owned().concat(e.as_str()),
            DriverRun::Failed { status, stderr } => {
                let mut text = "subprocess driver exited ".to_owned();
                text.append(status.as_str());
                text.append(": ");
                text.append(stderr.as_str());
                text
            },
            DriverRun::Unreadable(e) => {
                "subprocess driver output parse: ".to_owned().concat(e.as_str())
            },
            DriverRun::Improved(content) => {
                return Ok(GenericArtifact::new(self.manifest.kind, Vec::new(), content));
            },
        };
        Err(EngineError::Backend(text))
    }
}

impl Engine for SubprocessEngine {
    type Artifact = GenericArtifact;

    fn id(&self) -> (r: &str)
        ensures
            r@ == "subprocess-engine"@,
    {
        "subprocess-engine"
    }

    fn provides_sealed_isolation(&self) -> (r: bool)
        ensures
            r == self.sealed,
    {
        self.sealed
    }
}

// --- What a search comes to, in plain terms ----------------------------------

/// A search ends with the highest score that it has seen, and with the first proposal
/// that reached it; what it started from stands where no proposal beat it. Kind and
/// content are those it started with.
pub proof fn a_search_ends_with_the_first_of_the_highest(start: SearchView, offers: Seq<Offer>)
    requires
        start.best_value.finite(),
        forall|i: int| 0 <= i < offers.len() ==> (#[trigger] offers[i]).value.finite(),
    ensures
        ({
            let end = start.offered_all(offers);
            &&& end.best.kind == start.best.kind && end.best.content == start.best.content
            &&& end.state == start.state && end.left == start.left
            &&& end.best_value.finite()
            &&& end.best_value.scaled() >= start.best_value.scaled()
            &&& forall|i: int|
                0 <= i < offers.len() ==> (#[trigger] offers[i]).value.scaled()
                    <= end.best_value.scaled()
            &&& end.best_value.scaled() == start.best_value.scaled() ==> end == start
            &&& end.best_value.scaled() > start.best_value.scaled() ==> exists|i: int|
                {
                    &&& 0 <= i < offers.len()
                    &&& (#[trigger] offers[i]).value == end.best_value
                    &&& offers[i].params == end.best.params
                    &&& forall|j: int|
                        0 <= j < i ==> (#[trigger] offers[j]).value.scaled()
                            < end.best_value.scaled()
                }
        }),
    decreases offers.len(),
{
    if offers.len() > 0 {
        let (front, last) = (offers.drop_last(), offers.last());
        assert forall|i: int| 0 <= i < front.len() implies (#[trigger] front[i]).value.finite() by {
            assert(front[i] == offers[i]);
        }
        a_search_ends_with_the_first_of_the_highest(start, front);
        let before = start.offered_all(front);
        let end = start.offered_all(offers);
        assert(last == offers[offers.len() - 1]);
        key_order_is_value_order(before.best_value, last.value);
        assert forall|i: int| 0 <= i < offers.len() implies (#[trigger] offers[i]).value.scaled()
            <= end.best_value.scaled() by {
            if i < front.len() {
                assert(front[i] == offers[i]);
            }
        }
        if end.best_value.scaled() > start.best_value.scaled() {
            if last.value.scaled() > before.best_value.scaled() {
                let i = offers.len() - 1;
                assert forall|j: int| 0 <= j < i implies (#[trigger] offers[j]).value.scaled()
                    < end.best_value.scaled() by {
                    assert(front[j] == offers[j]);
                }
                assert(offers[i].value == end.best_value);
            } else {
                let i = choose|i: int|
                    {
                        &&& 0 <= i < front.len()
                        &&& (#[trigger] front[i]).value == before.best_value
                        &&& front[i].params == before.best.params
                        &&& forall|j: int|
                            0 <= j < i ==> (#[trigger] front[j]).value.scaled()
                                < before.best_value.scaled()
                    };
                assert(front[i] == offers[i]);
                assert forall|j: int| 0 <= j < i implies (#[trigger] offers[j]).value.scaled()
                    < end.best_value.scaled() by {
                    assert(front[j] == offers[j]);
                }
                assert(offers[i].value == end.best_value);
            }
        }
    }
}

/// A proposal that scores no higher changes nothing, whatever it is.
pub proof fn only_a_higher_score_changes_a_search(search: SearchView, offer: Offer)
    requires
        search.best_value.finite(),
        offer.value.finite(),
    ensures
        offer.value.scaled() <= search.best_value.scaled() ==> search.offered(offer) == search,
        offer.value.scaled() > search.best_value.scaled() ==> search.offered(offer).best_value
            == offer.value && search.offered(offer).best.params == offer.params,
{
    key_order_is_value_order(search.best_value, offer.value);
}

/// The generator's next state is the state times the multiplier and the increment, and
/// what is beyond sixty-four bits is lost; a fraction is the highest fifty-three bits of
/// the state.
pub proof fn the_generator_is_linear(state: u64, n: nat, i: int)
    requires
        0 <= i < n,
    ensures
        next_state(state) == (state * 6364136223846793005 + 1442695040888963407)
            % 0x1_0000_0000_0000_0000,
        fractions_from(state, n).len() == n,
        fractions_from(state, n)[0] == next_state(state) / 2048,
        i > 0 ==> fractions_from(state, n)[i] == fractions_from(next_state(state), n)[i - 1],
        fractions_from(state, n)[i] < 0x20_0000_0000_0000,
{
    let m = 0x1_0000_0000_0000_0000int;
    let (a, b) = (state * 6364136223846793005, 1442695040888963407int);
    vstd::arithmetic::div_mod::lemma_add_mod_noop(a, b, m);
    assert(b % m == b);
    assert(state.wrapping_mul(LCG_MULTIPLIER) == a % m);
    assert((a % m + b) % m == (a + b) % m);
    reveal_with_fuel(state_after, 2);
    let one = state_after(state, 1);
    assert(one == next_state(state));
    assert(one >> 11u64 == one / 2048) by (bit_vector);
    let s = state_after(state, (i + 1) as nat);
    assert(s >> 11u64 < 0x20_0000_0000_0000u64) by (bit_vector);
    if i > 0 {
        lemma_state_after_shifts(state, i as nat);
    }
}

proof fn lemma_state_after_shifts(state: u64, n: nat)
    ensures
        state_after(state, n + 1) == state_after(next_state(state), n),
    decreases n,
{
    reveal_with_fuel(state_after, 2);
    if n > 0 {
        lemma_state_after_shifts(state, (n - 1) as nat);
    }
}

proof fn lemma_params_encoding(params: Seq<Binary64>, i: int)
    ensures
        params_encoding(params).len() == 8 * params.len(),
        0 <= i < params.len() ==> params_encoding(params).subrange(8 * i, 8 * i + 8) == le_bytes(
            params[i].bits as nat,
            8,
        ),
    decreases params.len(),
{
    if params.len() > 0 {
        let (front, last) = (params.drop_last(), le_bytes(params.last().bits as nat, 8));
        lemma_params_encoding(front, i);
        crate::encoding::lemma_le_bytes_len(params.last().bits as nat, 8);
        let all = params_encoding(params);
        if 0 <= i < front.len() {
            assert(all.subrange(8 * i, 8 * i + 8) =~= params_encoding(front).subrange(
                8 * i,
                8 * i + 8,
            ));
        } else if i == front.len() {
            assert(all.subrange(8 * i, 8 * i + 8) =~= last);
        }
    }
}

/// What a reference commits to: the kind in one byte, then each number in eight bytes,
/// least significant first, then the content.
pub proof fn an_encoding_is_kind_numbers_and_content(a: GenericView, i: int)
    requires
        0 <= i < a.params.len(),
    ensures
        a.encoding()[0] == a.kind.byte(),
        a.encoding().subrange(1 + 8 * i, 9 + 8 * i) == le_bytes(a.params[i].bits as nat, 8),
        a.encoding().skip(1int + 8 * a.params.len()) == encode_utf8(a.content),
{
    lemma_params_encoding(a.params, i);
    let numbers = params_encoding(a.params);
    assert(a.encoding().subrange(1 + 8 * i, 9 + 8 * i) =~= numbers.subrange(8 * i, 8 * i + 8));
    assert(a.encoding().skip(1int + 8 * a.params.len()) =~= encode_utf8(a.content));
}

/// Kinds are told apart by their bytes, which count from zero.
pub proof fn kinds_have_bytes_of_their_own(a: ArtifactKind, b: ArtifactKind)
    ensures
        a.byte() < 8,
        a.byte() == b.byte() ==> a == b,
        a is Program <==> a.byte() == 0,
        a is Text <==> a.byte() == 7,
{
}

/// An artifact may be searched exactly where it has a number and all of them are finite;
/// that there is none is told first.
pub proof fn only_finite_numbers_can_be_searched(a: GenericView)
    ensures
        surface_fault(a) is None <==> a.params.len() > 0 && forall|i: int|
            0 <= i < a.params.len() ==> (#[trigger] a.params[i]).bits % 0x8000_0000_0000_0000
                < 0x7ff0_0000_0000_0000,
        a.params.len() == 0 ==> surface_fault(a) == Some("artifact has no params"@),
        a.params.len() > 0 && surface_fault(a) is Some ==> surface_fault(a) == Some(
            "params must be finite"@,
        ),
{
    assert forall|i: int| 0 <= i < a.params.len() implies ((#[trigger] a.params[i]).finite()
        <==> a.params[i].bits % 0x8000_0000_0000_0000 < 0x7ff0_0000_0000_0000) by {
        bits_tell_what_is_a_number(a.params[i]);
    }
}

/// Only a driver that improved the content gives something.
pub proof fn only_an_improvement_is_no_failure(run: DriverRun)
    ensures
        run.fault() is None <==> run is Improved,
{
}

/// What a search does with a score: a strictly higher one replaces the best and its
/// numbers, any other changes nothing, and a scorer that failed ends the search. A
/// proposal is drawn exactly while one is left, and uses it up.
pub proof fn a_search_keeps_what_scores_higher(
    search: &mut Search,
    params: Vec<Binary64>,
    scored: Result<Binary64, ScorerError>,
    r: Result<(), EngineError>,
)
    requires
        call_ensures(Search::consider, (search, params, scored), r),
        old(search).best_value.finite(),
    ensures
        r is Ok <==> scored is Ok,
        scored is Err ==> final(search)@ == old(search)@,
        scored matches Ok(value) ==> value.finite() ==> {
            let (before, after) = (old(search)@, final(search)@);
            &&& value.scaled() > before.best_value.scaled() ==> {
                &&& after.best_value == value
                &&& after.best.params == params@
                &&& after.best.kind == before.best.kind
                &&& after.best.content == before.best.content
            }
            &&& value.scaled() <= before.best_value.scaled() ==> after == before
            &&& after.left == before.left && after.state == before.state
        },
{
    if let Ok(value) = scored {
        if value.finite() {
            key_order_is_value_order(old(search).best_value, value);
        }
    }
}

/// A proposal is drawn exactly while one is left: one fraction for each number, and one
/// proposal less is left; the best stays as it is.
pub proof fn a_draw_uses_up_a_proposal(search: &mut Search, r: Option<Vec<u64>>)
    requires
        call_ensures(Search::draw, (search,), r),
    ensures
        r is Some <==> old(search)@.left > 0,
        r matches Some(fractions) ==> {
            &&& fractions@.len() == old(search)@.best.params.len()
            &&& fractions@.len() > 0 ==> fractions@[0] == next_state(old(search)@.state) / 2048
            &&& final(search)@.left == old(search)@.left - 1
        },
        r is None ==> final(search)@ == old(search)@,
        final(search)@.best == old(search)@.best,
        final(search)@.best_value == old(search)@.best_value,
{
    if let Some(fractions) = r {
        if fractions@.len() > 0 {
            the_generator_is_linear(old(search)@.state, fractions@.len(), 0);
        }
    }
}

/// A driver's run gives the improved content as an artifact of the task's kind without
/// numbers, and a failure where it did not improve.
pub proof fn a_driver_gives_the_improved_content(
    engine: &SubprocessEngine,
    run: DriverRun,
    r: Result<GenericArtifact, EngineError>,
)
    requires
        call_ensures(SubprocessEngine::produce, (engine, run), r),
    ensures
        r is Ok <==> run is Improved,
        r matches Ok(a) ==> {
            &&& a.kind == engine.manifest.kind
            &&& a@.params.len() == 0
            &&& a@.content == run->Improved_0@
        },
        r matches Err(e) ==> e is Backend,
{
}

/// A surface lets through exactly what has a number and only finite ones; what is applied
/// supersedes the base as a whole; and a reference is the hash of the encoding, in sixteen
/// hexadecimal digits.
pub proof fn a_surface_lets_through_finite_numbers(
    surface: &GenericSurface,
    base: &GenericArtifact,
    artifact: &GenericArtifact,
    valid: Result<(), SurfaceError>,
    applied: Result<GenericArtifact, SurfaceError>,
    reference: Result<ArtifactRef, SurfaceError>,
)
    requires
        call_ensures(GenericSurface::validate, (surface, artifact), valid),
        call_ensures(GenericSurface::apply_delta, (surface, base, artifact), applied),
        call_ensures(GenericSurface::to_ref, (surface, artifact), reference),
    ensures
        valid is Ok <==> artifact.params@.len() > 0 && forall|i: int|
            0 <= i < artifact.params@.len() ==> (#[trigger] artifact.params@[i]).finite(),
        applied is Ok <==> valid is Ok,
        reference is Ok <==> valid is Ok,
        applied matches Ok(a) ==> a@ == artifact@,
        reference matches Ok(r) ==> r@ == "generic:"@ + padded_hex(
            fnv1a(artifact@.encoding()) as nat,
            16,
        ),
{
}

/// A search starts from what it is given, with its score and its budget and a generator
/// that is the seed mixed with a constant; one that could not be scored does not start. An
/// engine evaluates two hundred fifty-six proposals with a step of one, unsealed, unless
/// told otherwise.
pub proof fn a_search_starts_from_what_it_is_given<Sc>(
    start: &GenericArtifact,
    seed: u64,
    budget: usize,
    scored: Result<Binary64, ScorerError>,
    r: Result<Search, EngineError>,
    researcher: String,
    artifact: GenericArtifact,
    scorer: Sc,
    engine: SupervisorEngine<Sc>,
)
    requires
        call_ensures(Search::begin, (start, seed, budget, scored), r),
        call_ensures(
            SupervisorEngine::<Sc>::new,
            (researcher, artifact, scorer, seed),
            engine,
        ),
    ensures
        r is Ok <==> scored is Ok,
        r matches Ok(search) ==> {
            &&& search@.best == start@
            &&& search@.best_value == scored->Ok_0
            &&& search@.state == seed ^ 0x9e37_79b9_7f4a_7c15
            &&& search@.left == budget
        },
        engine.start == artifact && engine.dev_scorer == scorer && engine.seed == seed,
        engine.budget == 256 && engine.step.bits == 0x3ff0_0000_0000_0000 && !engine.sealed,
{
}

} // verus!
