//! The pluggable interfaces that make the market general.
//!
//! - [`Surface`]: what may change, and how a candidate artifact is applied.
//! - [`Scorer`]: how "better" is measured on a split.
//! - [`Engine`]: how a researcher produces candidate artifacts.
//!
//! Scoring and producing wait on the outside world, so the calls themselves are
//! made by the program around this library; what comes back is handed to the
//! functions that decide.
use crate::privacy::EgressPolicy;
use crate::text::{decimal, to_decimal};
use crate::types::{ArtifactRef, CompetitionId};
use vstd::prelude::*;

verus! {

/// Error producing or applying an artifact on a surface.
#[derive(Debug, PartialEq, Eq)]
pub enum SurfaceError {
    Invalid(String),
    Apply(String),
    Io(String),
}

/// Error scoring an artifact.
#[derive(Debug, PartialEq, Eq)]
pub enum ScorerError {
    Unavailable(String),
    InsufficientPower { have: u32, need: u32 },
    Rejected(String),
    Io(String),
}

/// Error running a research engine.
#[derive(Debug, PartialEq, Eq)]
pub enum EngineError {
    BudgetExhausted,
    Backend(String),
    Io(String),
}

impl Clone for SurfaceError {
    fn clone(&self) -> (r: Self)
        ensures
            r == *self,
    {
        match self {
            SurfaceError::Invalid(m) => SurfaceError::Invalid(m.clone()),
            SurfaceError::Apply(m) => SurfaceError::Apply(m.clone()),
            SurfaceError::Io(m) => SurfaceError::Io(m.clone()),
        }
    }
}

impl Clone for ScorerError {
    fn clone(&self) -> (r: Self)
        ensures
            r == *self,
    {
        match self {
            ScorerError::Unavailable(m) => ScorerError::Unavailable(m.clone()),
            ScorerError::InsufficientPower { have, need } => ScorerError::InsufficientPower {
                have: *have,
                need: *need,
            },
            ScorerError::Rejected(m) => ScorerError::Rejected(m.clone()),
            ScorerError::Io(m) => ScorerError::Io(m.clone()),
        }
    }
}

impl Clone for EngineError {
    fn clone(&self) -> (r: Self)
        ensures
            r == *self,
    {
        match self {
            EngineError::BudgetExhausted => EngineError::BudgetExhausted,
            EngineError::Backend(m) => EngineError::Backend(m.clone()),
            EngineError::Io(m) => EngineError::Io(m.clone()),
        }
    }
}

impl SurfaceError {
    /// What the error says.
    pub open spec fn said(self) -> Seq<char> {
        match self {
            SurfaceError::Invalid(m) => "artifact failed surface validation: "@ + m@,
            SurfaceError::Apply(m) => "delta could not be applied to base: "@ + m@,
            SurfaceError::Io(m) => "surface i/o error: "@ + m@,
        }
    }

    /// The error as a message.
    pub fn message(&self) -> (r: String)
        ensures
            r@ == self.said(),
    {
        match self {
            SurfaceError::Invalid(m) => "artifact failed surface validation: ".to_owned().concat(
                m.as_str(),
            ),
            SurfaceError::Apply(m) => "delta could not be applied to base: ".to_owned().concat(
                m.as_str(),
            ),
            SurfaceError::Io(m) => "surface i/o error: ".to_owned().concat(m.as_str()),
        }
    }
}

impl ScorerError {
    /// What the error says.
    pub open spec fn said(self) -> Seq<char> {
        match self {
            ScorerError::Unavailable(m) => "scorer backend unavailable: "@ + m@,
            ScorerError::InsufficientPower { have, need } => {
                "insufficient statistical power: have n="@ + decimal(have as nat) + ", need n="@
                    + decimal(need as nat)
            },
            ScorerError::Rejected(m) => "artifact rejected by scorer: "@ + m@,
            ScorerError::Io(m) => "scoring i/o error: "@ + m@,
        }
    }

    /// The error as a message.
    pub fn message(&self) -> (r: String)
        ensures
            r@ == self.said(),
    {
        match self {
            ScorerError::Unavailable(m) => "scorer backend unavailable: ".to_owned().concat(
                m.as_str(),
            ),
            ScorerError::InsufficientPower { have, need } => {
                let mut out = "insufficient statistical power: have n=".to_owned();
                out.append(to_decimal(*have as u64).as_str());
                out.append(", need n=");
                out.append(to_decimal(*need as u64).as_str());
                out
            },
            ScorerError::Rejected(m) => "artifact rejected by scorer: ".to_owned().concat(
                m.as_str(),
            ),
            ScorerError::Io(m) => "scoring i/o error: ".to_owned().concat(m.as_str()),
        }
    }
}

impl EngineError {
    /// What the error says.
    pub open spec fn said(self) -> Seq<char> {
        match self {
            EngineError::BudgetExhausted => {
                "engine exhausted its budget before producing a candidate"@
            },
            EngineError::Backend(m) => "engine backend error: "@ + m@,
            EngineError::Io(m) => "engine i/o error: "@ + m@,
        }
    }

    /// The error as a message.
    pub fn message(&self) -> (r: String)
        ensures
            r@ == self.said(),
    {
        match self {
            EngineError::BudgetExhausted => {
                "engine exhausted its budget before producing a candidate".to_owned()
            },
            EngineError::Backend(m) => "engine backend error: ".to_owned().concat(m.as_str()),
            EngineError::Io(m) => "engine i/o error: ".to_owned().concat(m.as_str()),
        }
    }
}

/// What part of a target may change, and how a candidate is validated and applied
/// onto a base.
pub trait Surface {
    /// The artifact representation that this surface operates on.
    type Artifact;

    /// Stable identifier of the surface kind.
    fn id(&self) -> &str;

    /// Rejects artifacts that break the surface's shape before any scoring.
    fn validate(&self, artifact: &Self::Artifact) -> Result<(), SurfaceError>;

    /// Applies a candidate delta onto a base artifact.
    fn apply_delta(&self, base: &Self::Artifact, delta: &Self::Artifact) -> Result<
        Self::Artifact,
        SurfaceError,
    >;

    /// A reference for an artifact; the reference flows through the ledger, the
    /// bytes do not.
    fn to_ref(&self, artifact: &Self::Artifact) -> Result<ArtifactRef, SurfaceError>;
}

/// The referee's measuring instrument.
pub trait Scorer {
    /// The artifact representation that this scorer evaluates.
    type Artifact;

    /// Stable identifier of the scorer kind.
    fn id(&self) -> &str;
}

/// A shared reference to a scorer is itself a scorer.
impl<T: Scorer> Scorer for &T {
    type Artifact = T::Artifact;

    fn id(&self) -> (r: &str)
        ensures
            call_ensures(T::id, (*self,), r),
    {
        (**self).id()
    }
}

/// What an engine is told when it is asked to produce a candidate.
#[derive(Clone, Debug)]
pub struct EngineContext {
    pub competition: CompetitionId,
    /// The baseline artifact to improve upon.
    pub baseline_ref: ArtifactRef,
    /// The split that the engine may evaluate against, if its tier permits one.
    pub dev_split_ref: Option<ArtifactRef>,
    /// Spend ceiling of this run.
    pub budget_wei: u128,
    /// The policy that the engine's network access goes through; `None` leaves it
    /// unrestricted.
    pub egress_policy: Option<EgressPolicy>,
}

/// The researcher's product: the automated process that searches a surface for a
/// better artifact.
pub trait Engine {
    /// The artifact representation that this engine emits.
    type Artifact;

    /// Stable identifier of the engine kind.
    fn id(&self) -> &str;

    /// Whether the engine runs the researcher's method inside a sealed enclave.
    fn provides_sealed_isolation(&self) -> (r: bool)
        default_ensures
            !r,
    {
        false
    }
}

} // verus!
