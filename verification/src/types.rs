//! The core types of the market: knobs, measurements, lift, the promotion gate,
//! evidence, candidates and competition definitions.
use crate::binary64::{
    bits_tell_what_is_a_number, infinities_stand_beyond_every_finite_number,
    key_order_is_value_order, Binary64, INFINITY_BITS,
};
use vstd::prelude::*;

verus! {

/// Identifier of a competition.
pub type CompetitionId = u64;

/// A 20-byte account address as a `0x`-prefixed lower-case hex string.
pub type Address = String;

/// Reference to an artifact, a scorer, a surface or a data split: a content id, a
/// URL or a sealed handle. The text is opaque; the bytes behind it live elsewhere.
#[derive(Debug, PartialEq, Eq, Hash)]
pub struct ArtifactRef(pub String);

impl View for ArtifactRef {
    type V = Seq<char>;

    open spec fn view(&self) -> Seq<char> {
        self.0@
    }
}

impl Clone for ArtifactRef {
    fn clone(&self) -> (r: Self)
        ensures
            r == *self,
    {
        ArtifactRef(self.0.clone())
    }
}

/// The text of an optional reference.
pub open spec fn opt_ref(r: Option<ArtifactRef>) -> Option<Seq<char>> {
    match r {
        Some(a) => Some(a@),
        None => None,
    }
}

/// A copy of an optional reference.
pub fn copy_ref(r: &Option<ArtifactRef>) -> (c: Option<ArtifactRef>)
    ensures
        c == *r,
{
    match r {
        Some(a) => Some(a.clone()),
        None => None,
    }
}

/// How researchers relate to one another.
#[derive(Clone, Copy, Debug, PartialEq, Eq, Structural)]
pub enum Structure {
    /// Researchers submit separate candidates that are ranked.
    Competitive,
    /// Researchers pool their work on one shared artifact.
    Collaborative,
}

/// When the competition settles.
#[derive(Clone, Copy, Debug, PartialEq, Eq, Structural)]
pub enum Cadence {
    /// Single deadline, terminal payout.
    OneShot,
    /// King-of-the-hill: the leaderboard keeps moving.
    Continuous,
}

/// Who may see the proposer's inputs.
#[derive(Clone, Copy, Debug, PartialEq, Eq, Structural)]
pub enum Visibility {
    /// Open arena.
    Public,
    /// Sealed: the proposer's data and scorer are not disclosed.
    Private,
}

/// What kind of referee computes the score.
#[derive(Clone, Copy, Debug, PartialEq, Eq, Structural)]
pub enum ScorerKind {
    /// A held-out evaluation suite.
    HeldOutEval,
    /// A hidden reference oracle that the researcher never sees.
    PrivateOracle,
    /// Privileged or expensive hardware.
    PrivilegedHardware,
    /// A panel of human judges.
    HumanPanel,
}

/// The full knob setting of a competition.
#[derive(Clone, Copy, Debug, PartialEq, Eq, Structural)]
pub struct Knobs {
    pub structure: Structure,
    pub cadence: Cadence,
    pub visibility: Visibility,
    pub scorer_kind: ScorerKind,
}

/// Why a collaborative competition cannot be continuous.
pub const COLLABORATIVE_IS_ONE_SHOT: &'static str =
    "Collaborative competitions are OneShot in M6; per-epoch Continuous contribution accounting is deferred";

impl Knobs {
    /// Whether the knobs make sense together: a shared artifact has no best to beat
    /// by a margin, so a collaborative competition settles once.
    pub open spec fn coherent(self) -> bool {
        !(self.structure == Structure::Collaborative && self.cadence == Cadence::Continuous)
    }

    /// Rejects knob combinations that make no sense.
    pub fn validate(&self) -> (r: Result<(), &'static str>)
        ensures
            r is Ok <==> self.coherent(),
            r matches Err(why) ==> why@ == COLLABORATIVE_IS_ONE_SHOT@,
    {
        if self.structure == Structure::Collaborative && self.cadence == Cadence::Continuous {
            return Err(COLLABORATIVE_IS_ONE_SHOT);
        }
        Ok(())
    }
}

/// The data partition that a scorer runs against.
#[derive(Clone, Copy, Debug, PartialEq, Eq, Structural)]
pub enum Split {
    /// Public split that researchers may climb against.
    Dev,
    /// Private split that decides payment; for the referee alone.
    HeldOut,
}

/// A certified measurement of an artifact on a split.
#[derive(Clone, Copy, Debug, PartialEq)]
pub struct Measurement {
    /// Point estimate of the score.
    pub value: Binary64,
    /// Lower bound of the confidence interval on `value`.
    pub ci_lower: Binary64,
    /// Upper bound of the confidence interval on `value`.
    pub ci_upper: Binary64,
    /// Number of episodes behind the estimate.
    pub n: u32,
    /// Total cost of producing the measurement.
    pub cost: Binary64,
    /// `cost` divided by `n`, as a double; read only where `n` is not zero.
    pub cost_per_task: Binary64,
}

impl Measurement {
    /// The cost of one episode; without episodes it is infinite.
    pub open spec fn per_task(self) -> Binary64 {
        if self.n == 0 {
            Binary64 { bits: INFINITY_BITS }
        } else {
            self.cost_per_task
        }
    }

    /// The score, its bounds and the cost are all finite.
    pub open spec fn finite(self) -> bool {
        &&& self.value.finite()
        &&& self.ci_lower.finite()
        &&& self.ci_upper.finite()
        &&& self.cost.finite()
    }

    /// Whether the score, its bounds and the cost are all finite.
    pub fn is_finite(&self) -> (r: bool)
        ensures
            r == self.finite(),
    {
        self.value.is_finite() && self.ci_lower.is_finite() && self.ci_upper.is_finite()
            && self.cost.is_finite()
    }
}

/// Certified improvement of a candidate over a baseline.
#[derive(Clone, Copy, Debug, PartialEq)]
pub struct Lift {
    /// The candidate's value less the baseline's.
    pub delta: Binary64,
    /// Lower bound of the confidence interval on `delta`.
    pub ci_lower: Binary64,
    /// Upper bound of the confidence interval on `delta`.
    pub ci_upper: Binary64,
    /// Episodes behind the delta.
    pub n: u32,
}

impl Lift {
    /// The delta and its bounds are all finite.
    pub open spec fn finite(self) -> bool {
        &&& self.delta.finite()
        &&& self.ci_lower.finite()
        &&& self.ci_upper.finite()
    }

    /// Whether the delta and its bounds are all finite.
    pub fn is_finite(&self) -> (r: bool)
        ensures
            r == self.finite(),
    {
        self.delta.is_finite() && self.ci_lower.is_finite() && self.ci_upper.is_finite()
    }
}

/// The promotion gate that a candidate must clear to be eligible for payout.
#[derive(Clone, Copy, Debug, PartialEq)]
pub struct Gate {
    /// The lower bound of the lift must be at least this.
    pub min_lift_ci_lower: Binary64,
    /// Per-task cost ceiling; `None` means uncapped.
    pub cost_per_task_ceiling: Option<Binary64>,
    /// Minimum episode count for a result to be admissible.
    pub min_n: u32,
}

/// The bits of two hundredths: the default floor under a lift's lower bound.
pub const DEFAULT_MIN_LIFT_BITS: u64 = 0x3f94_7ae1_47ae_147b;

/// The default minimum episode count.
pub const DEFAULT_MIN_N: u32 = 12;

/// The promotion gate of a competition that does not set its own.
pub open spec fn default_gate() -> Gate {
    Gate {
        min_lift_ci_lower: Binary64 { bits: DEFAULT_MIN_LIFT_BITS },
        cost_per_task_ceiling: None,
        min_n: DEFAULT_MIN_N,
    }
}

impl Default for Gate {
    fn default() -> (r: Self)
        ensures
            r == default_gate(),
    {
        Gate {
            min_lift_ci_lower: Binary64 { bits: DEFAULT_MIN_LIFT_BITS },
            cost_per_task_ceiling: None,
            min_n: DEFAULT_MIN_N,
        }
    }
}

impl Gate {
    /// The demands are finite numbers.
    pub open spec fn finite(self) -> bool {
        &&& self.min_lift_ci_lower.finite()
        &&& self.cost_per_task_ceiling matches Some(ceiling) ==> ceiling.finite()
    }

    /// Whether a lift and the measurement behind it clear the promotion gate: every number
    /// is finite, the lift rests on enough episodes, its lower bound is high enough, and,
    /// under a ceiling, the cost is low enough for each task.
    pub open spec fn cleared_by(self, lift: Lift, measurement: Measurement) -> bool {
        &&& self.finite()
        &&& lift.finite()
        &&& measurement.finite()
        &&& lift.n >= self.min_n
        &&& self.min_lift_ci_lower.le_spec(lift.ci_lower)
        &&& self.cost_per_task_ceiling matches Some(ceiling) ==> measurement.per_task().le_spec(
            ceiling,
        )
    }

    /// Whether the lift and its measurement clear the promotion gate. Anything missing or not
    /// finite fails.
    pub fn clears(&self, lift: &Lift, measurement: &Measurement) -> (r: bool)
        ensures
            r == self.cleared_by(*lift, *measurement),
    {
        if !self.min_lift_ci_lower.is_finite() || !lift.is_finite() || !measurement.is_finite() {
            return false;
        }
        if lift.n < self.min_n {
            return false;
        }
        if !self.min_lift_ci_lower.at_most(lift.ci_lower) {
            return false;
        }
        if let Some(ceiling) = self.cost_per_task_ceiling {
            if !ceiling.is_finite() {
                return false;
            }
            let per_task = if measurement.n == 0 {
                Binary64 { bits: INFINITY_BITS }
            } else {
                measurement.cost_per_task
            };
            if !per_task.at_most(ceiling) {
                return false;
            }
        }
        true
    }
}

/// Nothing with a NaN or an infinity in it ever clears: neither in the lift, nor in the
/// measurement, nor in what the promotion gate asks.
pub proof fn gate_fails_closed(gate: Gate, lift: Lift, measurement: Measurement)
    requires
        !lift.delta.finite() || !lift.ci_lower.finite() || !lift.ci_upper.finite()
            || !measurement.value.finite() || !measurement.ci_lower.finite()
            || !measurement.ci_upper.finite() || !measurement.cost.finite()
            || !gate.min_lift_ci_lower.finite() || (gate.cost_per_task_ceiling is Some
            && !gate.cost_per_task_ceiling->0.finite()),
    ensures
        !gate.cleared_by(lift, measurement),
{
}

/// A gate with higher demands clears no lift that the lower one refuses; the demands of
/// both are numbers that a gate can hold a lift to.
pub proof fn stricter_gate_clears_less(
    lower: Gate,
    higher: Gate,
    lift: Lift,
    measurement: Measurement,
)
    requires
        lower.finite(),
        lower.min_lift_ci_lower.le_spec(higher.min_lift_ci_lower),
        lower.min_n <= higher.min_n,
        lower.cost_per_task_ceiling == higher.cost_per_task_ceiling,
        higher.cleared_by(lift, measurement),
    ensures
        lower.cleared_by(lift, measurement),
{
}

/// Provenance class of a piece of evidence.
#[derive(Clone, Copy, Debug, PartialEq, Eq, Structural)]
pub enum EvidenceKind {
    /// Full re-execution of the task with the candidate artifact.
    ReplayFull,
    /// Deterministic replay against logged tool calls.
    ReplayMocked,
    /// Observational only: confounded, never promotes.
    Observational,
    /// Scored by a private reference oracle.
    Oracle,
    /// Scored by privileged hardware.
    Hardware,
    /// Scored by a human panel.
    Human,
}

impl EvidenceKind {
    /// Whether evidence of this kind is ever eligible to pay out.
    pub fn can_promote(&self) -> (r: bool)
        ensures
            r == (*self != EvidenceKind::Observational),
    {
        !matches!(self, EvidenceKind::Observational)
    }
}

/// One certified row in a candidate's evidence ledger.
#[derive(Debug, PartialEq)]
pub struct Evidence {
    pub kind: EvidenceKind,
    pub lift: Lift,
    pub measurement: Measurement,
    /// True if the evidence is confounded; such rows never pay.
    pub confounded: bool,
    /// Reference to the suite or split that the evidence was produced against.
    pub suite_ref: ArtifactRef,
    /// Hash of the attestation under which scoring ran, hex-encoded; empty for
    /// referees without one.
    pub attestation_hash: String,
}

impl Clone for Evidence {
    fn clone(&self) -> (r: Self)
        ensures
            r == *self,
    {
        Evidence {
            kind: self.kind,
            lift: self.lift,
            measurement: self.measurement,
            confounded: self.confounded,
            suite_ref: self.suite_ref.clone(),
            attestation_hash: self.attestation_hash.clone(),
        }
    }
}

impl Evidence {
    /// Whether the row may pay under `gate`.
    pub open spec fn promotes(self, gate: Gate) -> bool {
        &&& self.kind != EvidenceKind::Observational
        &&& !self.confounded
        &&& gate.cleared_by(self.lift, self.measurement)
    }
}

/// A researcher's submission: first only a commitment, then an artifact, then the
/// referee's evidence.
#[derive(Clone, Debug, PartialEq)]
pub struct Candidate {
    /// Stable id, also the key that tells candidates apart.
    pub id: String,
    pub competition: CompetitionId,
    pub researcher: Address,
    /// The commitment made before the deadline.
    pub commitment: String,
    /// Set at reveal.
    pub artifact_ref: Option<ArtifactRef>,
    /// Set once the referee has scored it.
    pub evidence: Option<Evidence>,
}

impl Candidate {
    /// Whether the candidate has been revealed and certified with evidence that may
    /// pay under `gate`.
    pub fn is_payable(&self, gate: &Gate) -> (r: bool)
        ensures
            r == (self.artifact_ref is Some && self.evidence is Some
                && self.evidence->0.promotes(*gate)),
    {
        match (&self.artifact_ref, &self.evidence) {
            (Some(_), Some(ev)) => ev.kind.can_promote() && !ev.confounded && gate.clears(
                &ev.lift,
                &ev.measurement,
            ),
            _ => false,
        }
    }
}

/// The full definition of a competition that a proposer authors.
#[derive(Clone, Debug, PartialEq)]
pub struct CompetitionSpec {
    pub knobs: Knobs,
    pub gate: Gate,
    /// Sealed reference to the held-out scorer.
    pub scorer_ref: ArtifactRef,
    /// Reference to the surface: what may change.
    pub surface_ref: ArtifactRef,
    /// Reference to the artifact that lift is measured against.
    pub baseline_ref: ArtifactRef,
    /// Total reward pool in wei.
    pub reward_pool_wei: u128,
    /// The token that rewards are paid in, or the zero address for native.
    pub reward_asset: Address,
    /// Deadline, or epoch boundary for a continuous competition.
    pub deadline: u64,
}

impl CompetitionSpec {
    /// Why the definition is not valid, if it is not.
    pub open spec fn fault(self) -> Option<Seq<char>> {
        if !self.knobs.coherent() {
            Some(COLLABORATIVE_IS_ONE_SHOT@)
        } else if self.reward_pool_wei == 0 {
            Some("reward pool must be non-zero"@)
        } else if self.gate.min_n == 0 {
            Some("gate min_n must be positive"@)
        } else {
            None
        }
    }

    /// Checks the definition on its own, independent of any other state.
    pub fn validate(&self) -> (r: Result<(), String>)
        ensures
            match r {
                Ok(()) => self.fault() is None,
                Err(why) => self.fault() == Some(why@),
            },
    {
        match self.knobs.validate() {
            Ok(()) => {},
            Err(why) => {
                return Err(why.to_owned());
            },
        }
        if self.reward_pool_wei == 0 {
            return Err("reward pool must be non-zero".to_owned());
        }
        if self.gate.min_n == 0 {
            return Err("gate min_n must be positive".to_owned());
        }
        Ok(())
    }
}

/// What it takes to clear a promotion gate: finite numbers throughout, enough episodes, a
/// lower bound of the lift that is at least the floor, and, under a ceiling, episodes
/// that cost no more than it for each task. Nothing else is asked.
pub proof fn a_gate_asks_for_evidence_lift_and_cost(gate: Gate, lift: Lift, measurement: Measurement)
    requires
        gate.min_lift_ci_lower.finite(),
        gate.cost_per_task_ceiling matches Some(ceiling) ==> ceiling.finite(),
        lift.delta.finite() && lift.ci_lower.finite() && lift.ci_upper.finite(),
        measurement.value.finite() && measurement.ci_lower.finite()
            && measurement.ci_upper.finite() && measurement.cost.finite(),
    ensures
        gate.cleared_by(lift, measurement) <==> {
            &&& lift.n >= gate.min_n
            &&& lift.ci_lower.scaled() >= gate.min_lift_ci_lower.scaled()
            &&& match gate.cost_per_task_ceiling {
                None => true,
                Some(ceiling) => measurement.n > 0 && measurement.cost_per_task.le_spec(ceiling),
            }
        },
{
    key_order_is_value_order(gate.min_lift_ci_lower, lift.ci_lower);
}

/// A row pays only where it is neither observational nor confounded and clears the
/// promotion gate, and every such row does.
pub proof fn only_sound_evidence_promotes(evidence: Evidence, gate: Gate)
    ensures
        evidence.promotes(gate) <==> {
            &&& !(evidence.kind is Observational)
            &&& !evidence.confounded
            &&& gate.cleared_by(evidence.lift, evidence.measurement)
        },
{
}

/// Only a collaborative competition that is continuous makes no sense.
pub proof fn only_continuous_collaboration_is_incoherent(knobs: Knobs)
    ensures
        knobs.coherent() <==> knobs.structure is Competitive || knobs.cadence is OneShot,
{
}

// --- What the checks answer --------------------------------------------------

/// Whether the bits are those of a finite number.
pub open spec fn finite_bits(bits: u64) -> bool {
    bits % 0x8000_0000_0000_0000 < 0x7ff0_0000_0000_0000
}

/// A promotion gate lets through exactly what is finite throughout, rests on enough
/// episodes, has a lower bound at or above the floor and, under a ceiling, has episodes
/// that cost no more than it.
pub proof fn a_gate_lets_through_what_reaches_it(
    gate: &Gate,
    lift: &Lift,
    measurement: &Measurement,
    r: bool,
)
    requires
        call_ensures(Gate::clears, (gate, lift, measurement), r),
        finite_bits(measurement.cost_per_task.bits),
    ensures
        r <==> {
            &&& finite_bits(gate.min_lift_ci_lower.bits)
            &&& finite_bits(lift.delta.bits)
            &&& finite_bits(lift.ci_lower.bits)
            &&& finite_bits(lift.ci_upper.bits)
            &&& finite_bits(measurement.value.bits)
            &&& finite_bits(measurement.ci_lower.bits)
            &&& finite_bits(measurement.ci_upper.bits)
            &&& finite_bits(measurement.cost.bits)
            &&& lift.n >= gate.min_n
            &&& lift.ci_lower.scaled() >= gate.min_lift_ci_lower.scaled()
            &&& gate.cost_per_task_ceiling matches Some(ceiling) ==> {
                &&& finite_bits(ceiling.bits)
                &&& measurement.n > 0
                &&& measurement.cost_per_task.scaled() <= ceiling.scaled()
            }
        },
{
    bits_tell_what_is_a_number(gate.min_lift_ci_lower);
    bits_tell_what_is_a_number(lift.delta);
    bits_tell_what_is_a_number(lift.ci_lower);
    bits_tell_what_is_a_number(lift.ci_upper);
    bits_tell_what_is_a_number(measurement.value);
    bits_tell_what_is_a_number(measurement.ci_lower);
    bits_tell_what_is_a_number(measurement.ci_upper);
    bits_tell_what_is_a_number(measurement.cost);
    bits_tell_what_is_a_number(measurement.cost_per_task);
    if gate.min_lift_ci_lower.finite() && lift.ci_lower.finite() {
        key_order_is_value_order(gate.min_lift_ci_lower, lift.ci_lower);
    }
    if let Some(ceiling) = gate.cost_per_task_ceiling {
        bits_tell_what_is_a_number(ceiling);
        if ceiling.finite() {
            key_order_is_value_order(measurement.cost_per_task, ceiling);
            infinities_stand_beyond_every_finite_number(ceiling);
        }
    }
}

/// A candidate may be paid exactly where it is revealed and certified with a row that is
/// neither observational nor confounded and that the promotion gate lets through.
pub proof fn a_payable_candidate_is_revealed_and_certified(
    candidate: &Candidate,
    gate: &Gate,
    r: bool,
)
    requires
        call_ensures(Candidate::is_payable, (candidate, gate), r),
    ensures
        candidate.artifact_ref is None || candidate.evidence is None ==> !r,
        candidate.artifact_ref is Some ==> (candidate.evidence matches Some(row) ==> (r <==> {
            &&& !(row.kind is Observational)
            &&& !row.confounded
            &&& gate.cleared_by(row.lift, row.measurement)
        })),
{
}

/// Everything but observation may ever pay.
pub proof fn only_observation_never_promotes(kind: &EvidenceKind, r: bool)
    requires
        call_ensures(EvidenceKind::can_promote, (kind,), r),
    ensures
        r <==> !(*kind is Observational),
{
}

/// A definition passes exactly where its knobs go together, there is something to win and
/// an episode is asked for; of several faults the first of these is told.
pub proof fn a_valid_definition_is_coherent_funded_and_gated(
    spec: &CompetitionSpec,
    r: Result<(), String>,
)
    requires
        call_ensures(CompetitionSpec::validate, (spec,), r),
    ensures
        ({
            let together = spec.knobs.structure is Competitive || spec.knobs.cadence is OneShot;
            &&& r is Ok <==> together && spec.reward_pool_wei > 0 && spec.gate.min_n > 0
            &&& together && spec.reward_pool_wei == 0 ==> (r matches Err(why) && why@
                == "reward pool must be non-zero"@)
            &&& together && spec.reward_pool_wei > 0 && spec.gate.min_n == 0 ==> (r matches Err(
                why,
            ) && why@ == "gate min_n must be positive"@)
        }),
{
}

/// Knobs pass exactly where the competition is not both collaborative and continuous.
pub proof fn collaboration_settles_once(knobs: &Knobs, r: Result<(), &'static str>)
    requires
        call_ensures(Knobs::validate, (knobs,), r),
    ensures
        r is Ok <==> knobs.structure is Competitive || knobs.cadence is OneShot,
{
}

} // verus!
