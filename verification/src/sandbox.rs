//! The operator's compute: where a researcher's method runs next to the proposer's
//! sealed target.
//!
//! [`SandboxBackend`] selects how the operator runs a method; every host of
//! sandboxes implements [`SandboxHost`].
use crate::attestation::{opt_report, AttestationReport, ReportView, TeeType};
use crate::privacy::{copy_egress, opt_egress, EgressPolicy, EgressView, PrivacyTier};
use crate::traits::EngineContext;
use crate::types::{copy_ref, opt_ref, ArtifactRef};
use vstd::prelude::*;

verus! {

/// How the operator runs a method. Switching between a plain container and a sealed
/// enclave changes this one value.
#[derive(Clone, Copy, Debug, PartialEq, Eq, Structural)]
pub enum SandboxBackend {
    /// In process, for development. The host sees everything.
    Local,
    /// A plain container, not confidential against the operator.
    Docker,
    /// A sealed enclave of the given technology.
    Tee(TeeType),
}

impl SandboxBackend {
    /// Whether the method runs inside an enclave.
    pub fn is_tee(&self) -> (r: bool)
        ensures
            r == self is Tee,
    {
        matches!(self, SandboxBackend::Tee(_))
    }

    /// The technology that the backend attests to.
    pub fn tee_type(&self) -> (r: TeeType)
        ensures
            r == (match *self {
                SandboxBackend::Tee(t) => t,
                _ => TeeType::NoTee,
            }),
    {
        match self {
            SandboxBackend::Tee(t) => *t,
            SandboxBackend::Local | SandboxBackend::Docker => TeeType::NoTee,
        }
    }

    /// Whether the proposer's inputs have to be sealed before they enter.
    pub fn requires_sealed_inputs(&self) -> (r: bool)
        ensures
            r == self is Tee,
    {
        self.is_tee()
    }

    /// The name by which a sandbox runtime knows the backend.
    pub fn runtime_backend(&self) -> (r: &'static str)
        ensures
            r@ == (match *self {
                SandboxBackend::Local => "local"@,
                SandboxBackend::Docker => "docker"@,
                SandboxBackend::Tee(_) => "tee"@,
            }),
    {
        match self {
            SandboxBackend::Local => "local",
            SandboxBackend::Docker => "docker",
            SandboxBackend::Tee(_) => "tee",
        }
    }

    /// The backend that a competition runs on: an enclave where the tier relies on
    /// attestation and a technology is demanded, else a plain container.
    pub fn for_competition(tier: PrivacyTier, required_tee: TeeType) -> (r: SandboxBackend)
        ensures
            r == (if tier.attested() && required_tee != TeeType::NoTee {
                SandboxBackend::Tee(required_tee)
            } else {
                SandboxBackend::Docker
            }),
    {
        if tier.requires_attestation() && required_tee != TeeType::NoTee {
            SandboxBackend::Tee(required_tee)
        } else {
            SandboxBackend::Docker
        }
    }
}

/// A dev-split handle that is reachable under the request's egress policy.
pub type EgressGatedRef = ArtifactRef;

/// A request for a sandbox in which to run one method against one sealed target.
#[derive(Debug)]
pub struct SandboxProvisionReq {
    pub backend: SandboxBackend,
    /// The proposer's target, as a sealed handle.
    pub sealed_target: ArtifactRef,
    /// The dev split, if the tier lets the method see it.
    pub dev_split: Option<EgressGatedRef>,
    /// The policy that the sandbox's network access goes through.
    pub egress: Option<EgressPolicy>,
    /// Spend ceiling of the run.
    pub budget_wei: u128,
    pub cpu_cores: u64,
    pub memory_mb: u64,
    pub disk_gb: u64,
}

/// What a request asks for.
pub struct ProvisionView {
    pub backend: SandboxBackend,
    pub sealed_target: Seq<char>,
    pub dev_split: Option<Seq<char>>,
    pub egress: Option<EgressView>,
    pub budget_wei: u128,
    pub cpu_cores: u64,
    pub memory_mb: u64,
    pub disk_gb: u64,
}

impl View for SandboxProvisionReq {
    type V = ProvisionView;

    open spec fn view(&self) -> ProvisionView {
        ProvisionView {
            backend: self.backend,
            sealed_target: self.sealed_target@,
            dev_split: opt_ref(self.dev_split),
            egress: opt_egress(self.egress),
            budget_wei: self.budget_wei,
            cpu_cores: self.cpu_cores,
            memory_mb: self.memory_mb,
            disk_gb: self.disk_gb,
        }
    }
}

impl Clone for SandboxProvisionReq {
    fn clone(&self) -> (r: Self)
        ensures
            r@ == self@,
    {
        SandboxProvisionReq {
            backend: self.backend,
            sealed_target: self.sealed_target.clone(),
            dev_split: copy_ref(&self.dev_split),
            egress: copy_egress(&self.egress),
            budget_wei: self.budget_wei,
            cpu_cores: self.cpu_cores,
            memory_mb: self.memory_mb,
            disk_gb: self.disk_gb,
        }
    }
}

impl ProvisionView {
    /// An enclave is asked for only with a policy that denies what it does not list.
    pub open spec fn fail_closed(self) -> bool {
        self.backend is Tee ==> (self.egress matches Some(p) && p.default_deny)
    }
}

impl SandboxProvisionReq {
    /// A request for a small sandbox, without a dev split and without a policy.
    pub fn new(backend: SandboxBackend, sealed_target: ArtifactRef, budget_wei: u128) -> (r: Self)
        ensures
            r@ == (ProvisionView {
                backend,
                sealed_target: sealed_target@,
                dev_split: None,
                egress: None,
                budget_wei,
                cpu_cores: 2,
                memory_mb: 2048,
                disk_gb: 10,
            }),
    {
        SandboxProvisionReq {
            backend,
            sealed_target,
            dev_split: None,
            egress: None,
            budget_wei,
            cpu_cores: 2,
            memory_mb: 2048,
            disk_gb: 10,
        }
    }

    /// The request with the given dev split.
    pub fn with_dev_split(self, dev_split: Option<ArtifactRef>) -> (r: Self)
        ensures
            r@ == (ProvisionView { dev_split: opt_ref(dev_split), ..self@ }),
    {
        let mut this = self;
        this.dev_split = dev_split;
        this
    }

    /// The request with the given policy.
    pub fn with_egress(self, egress: Option<EgressPolicy>) -> (r: Self)
        ensures
            r@ == (ProvisionView { egress: opt_egress(egress), ..self@ }),
    {
        let mut this = self;
        this.egress = egress;
        this
    }

    /// Rejects an enclave whose policy is missing or open: a way out of the enclave
    /// would defeat what it is chosen for. Other backends are not gated here.
    pub fn validate(&self) -> (r: Result<(), SandboxError>)
        ensures
            match r {
                Ok(()) => self@.fail_closed(),
                Err(e) => e == SandboxError::EgressNotFailClosed && !self@.fail_closed(),
            },
    {
        if self.backend.is_tee() {
            match &self.egress {
                None => {
                    return Err(SandboxError::EgressNotFailClosed);
                },
                Some(p) => {
                    if !p.default_deny {
                        return Err(SandboxError::EgressNotFailClosed);
                    }
                },
            }
        }
        Ok(())
    }
}

/// A provisioned sandbox.
#[derive(Debug)]
pub struct SandboxHandle {
    /// The operator's id of the sandbox.
    pub id: String,
    /// Where the operator reaches the sandbox.
    pub sidecar_url: String,
    pub backend: SandboxBackend,
    /// The report captured when an enclave was provisioned. Its shape is all that it
    /// proves.
    pub tee_attestation: Option<AttestationReport>,
}

/// What a handle says.
pub struct HandleView {
    pub id: Seq<char>,
    pub sidecar_url: Seq<char>,
    pub backend: SandboxBackend,
    pub tee_attestation: Option<ReportView>,
}

impl View for SandboxHandle {
    type V = HandleView;

    open spec fn view(&self) -> HandleView {
        HandleView {
            id: self.id@,
            sidecar_url: self.sidecar_url@,
            backend: self.backend,
            tee_attestation: opt_report(self.tee_attestation),
        }
    }
}

impl Clone for SandboxHandle {
    fn clone(&self) -> (r: Self)
        ensures
            r@ == self@,
    {
        SandboxHandle {
            id: self.id.clone(),
            sidecar_url: self.sidecar_url.clone(),
            backend: self.backend,
            tee_attestation: match &self.tee_attestation {
                Some(report) => Some(report.clone()),
                None => None,
            },
        }
    }
}

impl SandboxHandle {
    /// Whether the sandbox is an enclave.
    pub fn is_tee(&self) -> (r: bool)
        ensures
            r == self.backend is Tee,
    {
        self.backend.is_tee()
    }
}

/// What can go wrong with operator compute. A setting that would weaken the
/// guarantee is rejected, never downgraded.
#[derive(Debug, PartialEq, Eq)]
pub enum SandboxError {
    /// An enclave was asked for without a policy that denies by default.
    EgressNotFailClosed,
    /// The sandbox could not be provisioned.
    Provision(String),
    /// The method failed inside the sandbox.
    Execution(String),
    /// The candidate could not be read out of the sandbox.
    Output(String),
    /// The sandbox could not be torn down.
    Teardown(String),
    /// The backend is not available.
    Unavailable(String),
}

impl SandboxError {
    /// What the error says.
    pub open spec fn said(self) -> Seq<char> {
        match self {
            SandboxError::EgressNotFailClosed => {
                "TEE sandbox requires a fail-closed (no-egress / default-deny) egress policy; an open or missing policy is rejected (PRIVACY §5.3, M4)"@
            },
            SandboxError::Provision(m) => "sandbox provisioning failed: "@ + m@,
            SandboxError::Execution(m) => "method execution inside the sandbox failed: "@ + m@,
            SandboxError::Output(m) => {
                "could not read the produced candidate from the sandbox: "@ + m@
            },
            SandboxError::Teardown(m) => "sandbox teardown failed: "@ + m@,
            SandboxError::Unavailable(m) => "sandbox backend unavailable: "@ + m@,
        }
    }

    /// The error as a message.
    pub fn message(&self) -> (r: String)
        ensures
            r@ == self.said(),
    {
        match self {
            SandboxError::EgressNotFailClosed => {
                "TEE sandbox requires a fail-closed (no-egress / default-deny) egress policy; an open or missing policy is rejected (PRIVACY §5.3, M4)".to_owned()
            },
            SandboxError::Provision(m) => "sandbox provisioning failed: ".to_owned().concat(
                m.as_str(),
            ),
            SandboxError::Execution(m) => {
                "method execution inside the sandbox failed: ".to_owned().concat(m.as_str())
            },
            SandboxError::Output(m) => {
                "could not read the produced candidate from the sandbox: ".to_owned().concat(
                    m.as_str(),
                )
            },
            SandboxError::Teardown(m) => "sandbox teardown failed: ".to_owned().concat(m.as_str()),
            SandboxError::Unavailable(m) => "sandbox backend unavailable: ".to_owned().concat(
                m.as_str(),
            ),
        }
    }
}

/// A host of sandboxes: it provisions one, runs a submitted method inside it, and
/// tears it down.
///
/// What a host does is up to it. The relations [`SandboxHost::provisions`],
/// [`SandboxHost::runs`] and [`SandboxHost::tears_down`] say what it may do; one thing
/// is asked of every host: a request that is not fail-closed is rejected before
/// anything changes.
pub trait SandboxHost: Sized {
    /// What a host keeps true of itself.
    spec fn sound(&self) -> bool;

    /// How many more sandboxes and runs the host can take.
    spec fn room(&self) -> nat;

    /// What provisioning may do to a host, and what it may answer.
    spec fn provisions(
        before: Self,
        req: ProvisionView,
        after: Self,
        out: Result<SandboxHandle, SandboxError>,
    ) -> bool;

    /// What running a method may do to a host, and what it may answer.
    spec fn runs(
        before: Self,
        handle: HandleView,
        method: ArtifactRef,
        ctx: EngineContext,
        after: Self,
        out: Result<ArtifactRef, SandboxError>,
    ) -> bool;

    /// What tearing down may do to a host, and what it may answer.
    spec fn tears_down(
        before: Self,
        handle: HandleView,
        after: Self,
        out: Result<(), SandboxError>,
    ) -> bool;

    /// Provisions a sandbox for one run.
    fn provision(&mut self, req: &SandboxProvisionReq) -> (r: Result<SandboxHandle, SandboxError>)
        requires
            old(self).sound(),
            old(self).room() >= 1,
        ensures
            final(self).sound(),
            final(self).room() + 1 >= old(self).room(),
            Self::provisions(*old(self), req@, *final(self), r),
            !req@.fail_closed() ==> *final(self) == *old(self) && r
                == Err::<SandboxHandle, SandboxError>(SandboxError::EgressNotFailClosed),
    ;

    /// Runs a submitted method inside a sandbox and answers with a reference to the
    /// candidate that it produced.
    fn run_method(&mut self, handle: &SandboxHandle, method: &ArtifactRef, ctx: &EngineContext) -> (r:
        Result<ArtifactRef, SandboxError>)
        requires
            old(self).sound(),
            old(self).room() >= 1,
        ensures
            final(self).sound(),
            final(self).room() + 1 >= old(self).room(),
            Self::runs(*old(self), handle@, *method, *ctx, *final(self), r),
    ;

    /// Tears a sandbox down.
    fn teardown(&mut self, handle: SandboxHandle) -> (r: Result<(), SandboxError>)
        requires
            old(self).sound(),
        ensures
            final(self).sound(),
            Self::tears_down(*old(self), handle@, *final(self), r),
    ;
}

/// Only an enclave needs a policy, and it needs one that denies by default.
pub proof fn only_an_enclave_needs_a_closed_policy(req: ProvisionView)
    ensures
        req.fail_closed() <==> !(req.backend is Tee) || (req.egress is Some
            && req.egress->0.default_deny),
{
}

/// A competition runs in the demanded enclave exactly where its tier touches raw data and
/// one is demanded, and in a container otherwise; a request for an enclave passes exactly
/// with a policy that denies by default, and any other request always.
pub proof fn raw_data_goes_into_an_enclave(
    tier: PrivacyTier,
    required_tee: TeeType,
    backend: SandboxBackend,
    req: &SandboxProvisionReq,
    valid: Result<(), SandboxError>,
)
    requires
        call_ensures(SandboxBackend::for_competition, (tier, required_tee), backend),
        call_ensures(SandboxProvisionReq::validate, (req,), valid),
    ensures
        ({
            let sealed = (tier is WhiteBoxNoEgress || tier is AttestedHarness) && !(
            required_tee is NoTee);
            &&& sealed ==> backend == SandboxBackend::Tee(required_tee)
            &&& !sealed ==> backend is Docker
        }),
        valid is Ok <==> !(req.backend is Tee) || (req.egress matches Some(p) && p.default_deny),
        valid matches Err(e) ==> e is EgressNotFailClosed,
{
}

/// A sandbox is small unless told otherwise: two cores, two thousand forty-eight megabytes
/// and ten gigabytes, without a dev split and without a policy.
pub proof fn a_sandbox_is_small_unless_told_otherwise(
    backend: SandboxBackend,
    sealed_target: ArtifactRef,
    budget_wei: u128,
    req: SandboxProvisionReq,
)
    requires
        call_ensures(SandboxProvisionReq::new, (backend, sealed_target, budget_wei), req),
    ensures
        req@.cpu_cores == 2 && req@.memory_mb == 2048 && req@.disk_gb == 10,
        req@.dev_split is None && req@.egress is None,
        req@.backend == backend && req@.sealed_target == sealed_target@ && req@.budget_wei
            == budget_wei,
{
}

} // verus!
