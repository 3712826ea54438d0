//! The engine that has the operator run a researcher's method in a sandbox.
//!
//! The researcher submits a method; the operator provisions a sandbox, runs the method
//! inside it, takes the candidate out and tears the sandbox down.
use crate::privacy::copy_egress;
use crate::sandbox::{
    HandleView, ProvisionView, SandboxBackend, SandboxError, SandboxHandle, SandboxHost,
    SandboxProvisionReq,
};
use crate::sandbox_local::{candidate_prefix, local_id, LocalMethod, LocalSandboxHost};
use crate::traits::{Engine, EngineContext, EngineError};
use crate::types::{copy_ref, opt_ref, ArtifactRef};
use vstd::prelude::*;

verus! {

/// Turns the reference of a produced candidate into the candidate.
pub trait ResolveCandidate: SandboxHost {
    /// The candidate that a reference is resolved into.
    type Artifact;

    /// What a reference may resolve to.
    spec fn resolves(&self, candidate: ArtifactRef, out: Option<Self::Artifact>) -> bool;

    /// The candidate behind a reference; `None` if the reference is not known.
    fn resolve_candidate(&self, candidate: &ArtifactRef) -> (r: Option<Self::Artifact>)
        requires
            self.sound(),
        ensures
            self.resolves(*candidate, r),
    ;
}

impl<M: LocalMethod> ResolveCandidate for LocalSandboxHost<M> {
    type Artifact = M::Artifact;

    open spec fn resolves(&self, candidate: ArtifactRef, out: Option<M::Artifact>) -> bool {
        match out {
            Some(a) => self@.candidates.dom().contains(candidate@) && cloned(
                self@.candidates[candidate@],
                a,
            ),
            None => !self@.candidates.dom().contains(candidate@),
        }
    }

    fn resolve_candidate(&self, candidate: &ArtifactRef) -> (r: Option<M::Artifact>) {
        self.resolve(candidate)
    }
}

/// The candidate that a run produces.
pub type SandboxCandidate<A> = A;

/// A researcher's method, run by the operator on sandboxed compute.
pub struct SandboxMethodEngine<H: SandboxHost + ResolveCandidate> {
    /// The submitted method.
    pub method_ref: ArtifactRef,
    pub backend: SandboxBackend,
    /// The operator's host of sandboxes.
    pub host: H,
    pub cpu_cores: u64,
    pub memory_mb: u64,
    pub disk_gb: u64,
}

/// A text between quotation marks, with the escapes of Rust's debug format.
pub uninterp spec fn quoted(s: Seq<char>) -> Seq<char>;

/// Formats a `str` with its `Debug` implementation. Trusted: the result is a function
/// of the text alone.
#[verifier::external_body]
fn quote(s: &str) -> (r: String)
    ensures
        r@ == quoted(s@),
{
    format!("{:?}", s)
}

/// What is said of a candidate that its own host does not know.
pub open spec fn unresolved_text(candidate: Seq<char>) -> Seq<char> {
    "produced candidate ArtifactRef("@ + quoted(candidate)
        + ") could not be resolved to a typed artifact (sandbox host wiring error)"@
}

/// The failure of the operator's compute as the failure of an engine.
pub fn to_engine_error(err: &SandboxError) -> (r: EngineError)
    ensures
        r matches EngineError::Backend(m) && m@ == err.said(),
{
    EngineError::Backend(err.message())
}

/// The result is a backend failure with the given text.
pub open spec fn fails_with<A>(r: Result<A, EngineError>, text: Seq<char>) -> bool {
    r matches Err(EngineError::Backend(m)) && m@ == text
}

/// What a run comes to once its sandbox has been torn down: the failure of the run or
/// of its resolution comes first, a failed teardown is told where the run was good.
pub open spec fn concluded<A>(
    run: Result<ArtifactRef, SandboxError>,
    resolved: Option<A>,
    teardown: Result<(), SandboxError>,
    out: Result<A, EngineError>,
) -> bool {
    match run {
        Err(e) => fails_with(out, e.said()),
        Ok(candidate) => match resolved {
            None => fails_with(out, unresolved_text(candidate@)),
            Some(artifact) => match teardown {
                Err(e) => fails_with(out, e.said()),
                Ok(()) => out == Ok::<A, EngineError>(artifact),
            },
        },
    }
}

/// Decides what a run comes to. `resolved` is the candidate that the reference of a
/// good run was resolved into.
pub fn conclude<A>(
    run: Result<ArtifactRef, SandboxError>,
    resolved: Option<A>,
    teardown: Result<(), SandboxError>,
) -> (r: Result<A, EngineError>)
    ensures
        concluded(run, resolved, teardown, r),
{
    match run {
        Err(e) => Err(to_engine_error(&e)),
        Ok(candidate) => match resolved {
            None => {
                let mut text = "produced candidate ArtifactRef(".to_owned();
                text.append(quote(candidate.0.as_str()).as_str());
                text.append(
                    ") could not be resolved to a typed artifact (sandbox host wiring error)",
                );
                Err(EngineError::Backend(text))
            },
            Some(artifact) => match teardown {
                Err(e) => Err(to_engine_error(&e)),
                Ok(()) => Ok(artifact),
            },
        },
    }
}

/// A host, once provisioned, is run, asked for the candidate and always torn down.
pub open spec fn ran_and_torn_down<H: SandboxHost + ResolveCandidate>(
    provisioned: H,
    handle: HandleView,
    method: ArtifactRef,
    ctx: EngineContext,
    after: H,
    out: Result<<H as ResolveCandidate>::Artifact, EngineError>,
) -> bool {
    exists|
        run: Result<ArtifactRef, SandboxError>,
        used: H,
        resolved: Option<<H as ResolveCandidate>::Artifact>,
        teardown: Result<(), SandboxError>,
    |
        {
            &&& #[trigger] H::runs(provisioned, handle, method, ctx, used, run)
            &&& (run matches Ok(candidate) ==> used.resolves(candidate, resolved))
            &&& #[trigger] H::tears_down(used, handle, after, teardown)
            &&& #[trigger] concluded(run, resolved, teardown, out)
        }
}

impl<H: SandboxHost + ResolveCandidate> SandboxMethodEngine<H> {
    /// An engine with a small sandbox.
    pub fn new(method_ref: ArtifactRef, backend: SandboxBackend, host: H) -> (r: Self)
        ensures
            r == (SandboxMethodEngine {
                method_ref,
                backend,
                host,
                cpu_cores: 2,
                memory_mb: 2048,
                disk_gb: 10,
            }),
    {
        SandboxMethodEngine {
            method_ref,
            backend,
            host,
            cpu_cores: 2,
            memory_mb: 2048,
            disk_gb: 10,
        }
    }

    /// The engine with other limits for its sandbox.
    pub fn with_limits(self, cpu_cores: u64, memory_mb: u64, disk_gb: u64) -> (r: Self)
        ensures
            r == (SandboxMethodEngine { cpu_cores, memory_mb, disk_gb, ..self }),
    {
        SandboxMethodEngine {
            method_ref: self.method_ref,
            backend: self.backend,
            host: self.host,
            cpu_cores,
            memory_mb,
            disk_gb,
        }
    }

    /// The request that a run with this context makes.
    pub open spec fn request(self, ctx: EngineContext) -> ProvisionView {
        ProvisionView {
            backend: self.backend,
            sealed_target: ctx.baseline_ref@,
            dev_split: opt_ref(ctx.dev_split_ref),
            egress: crate::privacy::opt_egress(ctx.egress_policy),
            budget_wei: ctx.budget_wei,
            cpu_cores: self.cpu_cores,
            memory_mb: self.memory_mb,
            disk_gb: self.disk_gb,
        }
    }

    /// The request that a run with this context makes: the context's target, dev split,
    /// budget and egress decision go straight through.
    pub fn provision_req(&self, ctx: &EngineContext) -> (r: SandboxProvisionReq)
        ensures
            r@ == self.request(*ctx),
    {
        SandboxProvisionReq {
            backend: self.backend,
            sealed_target: ctx.baseline_ref.clone(),
            dev_split: copy_ref(&ctx.dev_split_ref),
            egress: copy_egress(&ctx.egress_policy),
            budget_wei: ctx.budget_wei,
            cpu_cores: self.cpu_cores,
            memory_mb: self.memory_mb,
            disk_gb: self.disk_gb,
        }
    }

    /// What producing a candidate does to the host and comes to.
    pub open spec fn produces(
        self,
        ctx: EngineContext,
        after: H,
        out: Result<<H as ResolveCandidate>::Artifact, EngineError>,
    ) -> bool {
        exists|got: Result<SandboxHandle, SandboxError>, provisioned: H|
            {
                &&& #[trigger] H::provisions(self.host, self.request(ctx), provisioned, got)
                &&& match got {
                    Err(e) => after == provisioned && fails_with(out, e.said()),
                    Ok(handle) => ran_and_torn_down(
                        provisioned,
                        handle@,
                        self.method_ref,
                        ctx,
                        after,
                        out,
                    ),
                }
            }
    }

    /// Produces a candidate with a host that answers at once: provision, run, resolve,
    /// and tear down whatever the run came to.
    pub fn produce(&mut self, ctx: &EngineContext) -> (r: Result<
        <H as ResolveCandidate>::Artifact,
        EngineError,
    >)
        requires
            old(self).host.sound(),
            old(self).host.room() >= 2,
        ensures
            *final(self) == (SandboxMethodEngine { host: final(self).host, ..*old(self) }),
            final(self).host.sound(),
            old(self).produces(*ctx, final(self).host, r),
            !old(self).request(*ctx).fail_closed() ==> final(self).host == old(self).host
                && fails_with(r, SandboxError::EgressNotFailClosed.said()),
    {
        let req = self.provision_req(ctx);
        let got = self.host.provision(&req);
        let ghost provisioned = self.host;
        let ghost answer = got;
        match got {
            Err(e) => {
                let r = Err(to_engine_error(&e));
                proof {
                    assert(H::provisions(old(self).host, old(self).request(*ctx), provisioned, answer));
                }
                r
            },
            Ok(handle) => {
                let run = self.host.run_method(&handle, &self.method_ref, ctx);
                let ghost used = self.host;
                let resolved = match &run {
                    Ok(candidate) => self.host.resolve_candidate(candidate),
                    Err(_) => None,
                };
                let ghost held = handle@;
                let teardown = self.host.teardown(handle);
                let ghost (run_was, resolved_was, teardown_was) = (run, resolved, teardown);
                let r = conclude(run, resolved, teardown);
                proof {
                    assert(H::runs(provisioned, held, self.method_ref, *ctx, used, run_was));
                    assert(H::tears_down(used, held, self.host, teardown_was));
                    assert(concluded(run_was, resolved_was, teardown_was, r));
                    assert(H::provisions(old(self).host, old(self).request(*ctx), provisioned, answer));
                }
                r
            },
        }
    }
}

impl<H: SandboxHost + ResolveCandidate> Engine for SandboxMethodEngine<H> {
    type Artifact = <H as ResolveCandidate>::Artifact;

    fn id(&self) -> (r: &str)
        ensures
            r@ == "sandbox-method"@,
    {
        "sandbox-method"
    }

    /// Sealed exactly when the backend is an enclave.
    fn provides_sealed_isolation(&self) -> (r: bool)
        ensures
            r == self.backend is Tee,
    {
        self.backend.is_tee()
    }
}

/// A run leaves nothing behind: whatever it came to, the in-process host holds no
/// candidate of the sandbox that the run was given.
pub proof fn produce_leaves_nothing_behind<M: LocalMethod>(
    engine: SandboxMethodEngine<LocalSandboxHost<M>>,
    ctx: EngineContext,
    after: LocalSandboxHost<M>,
    out: Result<M::Artifact, EngineError>,
)
    requires
        engine.produces(ctx, after, out),
        engine.request(ctx).fail_closed(),
    ensures
        forall|key: Seq<char>| #[trigger]
            after@.candidates.dom().contains(key) ==> !candidate_prefix(
                local_id(engine.host@.issued + 1),
            ).is_prefix_of(key),
{
}

/// A run gives its candidate exactly where it was good, its reference could be resolved
/// and its sandbox was torn down; otherwise it fails, and of several failures the
/// earliest is told.
pub proof fn a_candidate_needs_run_resolution_and_teardown<A>(
    run: Result<ArtifactRef, SandboxError>,
    resolved: Option<A>,
    teardown: Result<(), SandboxError>,
    out: Result<A, EngineError>,
)
    requires
        concluded(run, resolved, teardown, out),
    ensures
        out is Ok <==> run is Ok && resolved is Some && teardown is Ok,
        out matches Ok(artifact) ==> resolved == Some(artifact),
        run matches Err(e) ==> (out matches Err(EngineError::Backend(m)) && m@ == e.said()),
        run is Ok && resolved is Some && teardown is Err ==> (out matches Err(
            EngineError::Backend(m),
        ) && m@ == teardown->Err_0.said()),
        out matches Err(e) ==> e is Backend,
{
}

/// A run's sandbox is asked for with what its context says: its target, its dev split,
/// its budget and its policy, and with the engine's backend and limits.
pub proof fn a_context_is_handed_through<H: SandboxHost + ResolveCandidate>(
    engine: SandboxMethodEngine<H>,
    ctx: EngineContext,
)
    ensures
        ({
            let req = engine.request(ctx);
            &&& req.backend == engine.backend
            &&& req.sealed_target == ctx.baseline_ref@
            &&& req.dev_split == opt_ref(ctx.dev_split_ref)
            &&& req.egress == crate::privacy::opt_egress(ctx.egress_policy)
            &&& req.budget_wei == ctx.budget_wei
            &&& req.cpu_cores == engine.cpu_cores
            &&& req.memory_mb == engine.memory_mb
            &&& req.disk_gb == engine.disk_gb
        }),
{
}

} // verus!
