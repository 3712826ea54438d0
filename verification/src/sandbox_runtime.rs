//! What the operator asks of a sandbox runtime, and what it makes of the answers.
//!
//! The runtime itself is reached by the program around this library.
use crate::attestation::{AttestationReport, ReportView, TeeType};
use crate::encoding::copy_bytes;
use crate::json::{
    field_views, object_text, render_object, JsonField, JsonFieldView, JsonValue, JsonView,
};
use crate::privacy::EgressView;
use crate::sandbox::{
    HandleView, ProvisionView, SandboxBackend, SandboxError, SandboxHandle, SandboxProvisionReq,
};
use crate::text::{copy_texts, decimal, to_decimal};
use crate::types::ArtifactRef;
use vstd::prelude::*;

verus! {

/// The enclave technologies that a sandbox runtime tells apart.
#[derive(Clone, Copy, Debug, PartialEq, Eq, Structural)]
pub enum RuntimeTee {
    NoTee,
    Tdx,
    Nitro,
    Sev,
}

/// The technology of a runtime that covers a market technology.
pub open spec fn runtime_tee(tee: TeeType) -> RuntimeTee {
    match tee {
        TeeType::NoTee => RuntimeTee::NoTee,
        TeeType::PhalaTdx | TeeType::GcpConfidential => RuntimeTee::Tdx,
        TeeType::AwsNitro => RuntimeTee::Nitro,
        TeeType::AzureSnp => RuntimeTee::Sev,
    }
}

/// The market technology that a runtime's technology is reported as.
pub open spec fn domain_tee(tee: RuntimeTee) -> TeeType {
    match tee {
        RuntimeTee::NoTee => TeeType::NoTee,
        RuntimeTee::Tdx => TeeType::PhalaTdx,
        RuntimeTee::Nitro => TeeType::AwsNitro,
        RuntimeTee::Sev => TeeType::AzureSnp,
    }
}

/// The technology of a runtime that covers `tee`. A runtime tells fewer apart: its TDX
/// covers both Phala and GCP.
pub fn domain_tee_to_runtime(tee: TeeType) -> (r: RuntimeTee)
    ensures
        r == runtime_tee(tee),
{
    match tee {
        TeeType::NoTee => RuntimeTee::NoTee,
        TeeType::PhalaTdx | TeeType::GcpConfidential => RuntimeTee::Tdx,
        TeeType::AwsNitro => RuntimeTee::Nitro,
        TeeType::AzureSnp => RuntimeTee::Sev,
    }
}

/// The market technology that `tee` is reported as.
pub fn runtime_tee_to_domain(tee: RuntimeTee) -> (r: TeeType)
    ensures
        r == domain_tee(tee),
{
    match tee {
        RuntimeTee::NoTee => TeeType::NoTee,
        RuntimeTee::Tdx => TeeType::PhalaTdx,
        RuntimeTee::Nitro => TeeType::AwsNitro,
        RuntimeTee::Sev => TeeType::AzureSnp,
    }
}

/// A technology survives the way to the runtime and back, except GCP's, which comes
/// back as Phala's.
pub proof fn tee_round_trip(tee: TeeType)
    ensures
        domain_tee(runtime_tee(tee)) == (if tee == TeeType::GcpConfidential {
            TeeType::PhalaTdx
        } else {
            tee
        }),
{
}

/// The enclave that a sandbox has to run in.
#[derive(Clone, Copy, Debug, PartialEq, Eq, Structural)]
pub struct TeeConfig {
    /// Whether the sandbox may not run outside an enclave.
    pub required: bool,
    pub tee_type: RuntimeTee,
}

/// What a sandbox runtime is asked to create.
#[derive(Debug)]
pub struct CreateParams {
    pub name: String,
    pub image: String,
    pub agent_identifier: String,
    /// The sealed inputs, decrypted only inside the sandbox.
    pub env_json: String,
    /// The backend and the egress policy, for the sandbox's broker.
    pub metadata_json: String,
    pub capabilities_json: String,
    pub owner: String,
    pub tee_config: Option<TeeConfig>,
    pub cpu_cores: u64,
    pub memory_mb: u64,
    pub disk_gb: u64,
    pub max_lifetime_seconds: u64,
    pub idle_timeout_seconds: u64,
}

/// A command to be executed inside a sandbox.
#[derive(Debug)]
pub struct ExecParams {
    pub sidecar_url: String,
    pub command: String,
    pub cwd: String,
    pub env_json: String,
    pub timeout_ms: u64,
}

/// The operator's compute on a sandbox runtime.
#[derive(Debug)]
pub struct SandboxRuntimeHost {
    /// The image that the method runs in.
    pub image: String,
    /// The owner recorded on the sandbox.
    pub owner: String,
}

/// The backend's name for a runtime.
pub open spec fn backend_name(backend: SandboxBackend) -> Seq<char> {
    match backend {
        SandboxBackend::Tee(_) => "tee"@,
        _ => "docker"@,
    }
}

/// The enclave that a backend demands.
pub open spec fn backend_tee(backend: SandboxBackend) -> Option<TeeConfig> {
    match backend {
        SandboxBackend::Tee(tee) => Some(
            TeeConfig { required: true, tee_type: runtime_tee(tee) },
        ),
        _ => None,
    }
}

/// The fields of the metadata: the backend, and the egress policy if there is one.
pub open spec fn metadata_fields(backend: SandboxBackend, egress: Option<EgressView>) -> Seq<
    JsonFieldView,
> {
    let head = seq![
        JsonFieldView {
            key: "runtime_backend"@,
            value: JsonView::Text(backend_name(backend)),
        },
    ];
    match egress {
        Some(p) => head + seq![
            JsonFieldView { key: "egress_default_deny"@, value: JsonView::Flag(p.default_deny) },
            JsonFieldView { key: "egress_allowlist"@, value: JsonView::Texts(p.allowlist) },
        ],
        None => head,
    }
}

/// The fields of the environment: the sealed target, and the dev split if there is one.
pub open spec fn env_fields(sealed_target: Seq<char>, dev_split: Option<Seq<char>>) -> Seq<
    JsonFieldView,
> {
    let head = seq![
        JsonFieldView {
            key: "AUTORESEARCH_SEALED_TARGET"@,
            value: JsonView::Text(sealed_target),
        },
    ];
    match dev_split {
        Some(d) => head.push(
            JsonFieldView { key: "AUTORESEARCH_DEV_SPLIT"@, value: JsonView::Text(d) },
        ),
        None => head,
    }
}

impl CreateParams {
    /// The parameters are those of the host with this image and owner for this request.
    pub open spec fn asks_for(self, image: Seq<char>, owner: Seq<char>, req: ProvisionView) -> bool {
        &&& self.name@ == "autoresearch-method"@
        &&& self.image@ == image
        &&& self.agent_identifier@ == "autoresearch-method"@
        &&& self.env_json@ == object_text(env_fields(req.sealed_target, req.dev_split))
        &&& self.metadata_json@ == object_text(metadata_fields(req.backend, req.egress))
        &&& self.capabilities_json@ == "[\"all_harness\"]"@
        &&& self.owner@ == owner
        &&& self.tee_config == backend_tee(req.backend)
        &&& self.cpu_cores == req.cpu_cores
        &&& self.memory_mb == req.memory_mb
        &&& self.disk_gb == req.disk_gb
        &&& self.max_lifetime_seconds == 3600
        &&& self.idle_timeout_seconds == 0
    }
}

fn field(key: &str, value: JsonValue) -> (f: JsonField)
    ensures
        f@ == (JsonFieldView { key: key@, value: value@ }),
{
    JsonField { key: key.to_owned(), value }
}

/// The report that a runtime attested with, in the market's terms. Its bytes are
/// carried, not verified.
pub fn capture_attestation(tee: RuntimeTee, evidence: &Vec<u8>, measurement: &Vec<u8>) -> (r:
    AttestationReport)
    ensures
        r@ == (ReportView {
            tee_type: domain_tee(tee),
            evidence: evidence@,
            measurement: measurement@,
            nonce: None,
        }),
{
    AttestationReport {
        tee_type: runtime_tee_to_domain(tee),
        evidence: copy_bytes(evidence.as_slice()),
        measurement: copy_bytes(measurement.as_slice()),
        nonce: None,
    }
}

/// What a runtime created: where the sandbox is, and what it attested with.
#[derive(Debug)]
pub struct CreatedSandbox {
    pub id: String,
    pub sidecar_url: String,
    pub attestation: Option<AttestationReport>,
}

/// How a command that was executed inside a sandbox ended.
#[derive(Debug)]
pub struct ExecReply {
    pub exit_code: u32,
    pub stderr: String,
}

impl SandboxRuntimeHost {
    /// A host with the given image and owner.
    pub fn new(image: String, owner: String) -> (r: Self)
        ensures
            r.image@ == image@,
            r.owner@ == owner@,
    {
        SandboxRuntimeHost { image, owner }
    }

    /// The backend's name for a runtime and the enclave that it demands.
    pub fn runtime_config(backend: SandboxBackend) -> (r: (&'static str, Option<TeeConfig>))
        ensures
            r.0@ == backend_name(backend),
            r.1 == backend_tee(backend),
    {
        match backend {
            SandboxBackend::Docker | SandboxBackend::Local => ("docker", None),
            SandboxBackend::Tee(tee) => (
                "tee",
                Some(TeeConfig { required: true, tee_type: domain_tee_to_runtime(tee) }),
            ),
        }
    }

    /// What the runtime is asked to create for a request; a request that is not
    /// fail-closed is rejected.
    pub fn create_params(&self, req: &SandboxProvisionReq) -> (r: Result<CreateParams, SandboxError>)
        ensures
            match r {
                Ok(params) => req@.fail_closed() && params.asks_for(
                    self.image@,
                    self.owner@,
                    req@,
                ),
                Err(e) => !req@.fail_closed() && e == SandboxError::EgressNotFailClosed,
            },
    {
        match req.validate() {
            Ok(()) => {},
            Err(e) => {
                return Err(e);
            },
        }
        let (backend, tee_config) = Self::runtime_config(req.backend);
        let mut metadata: Vec<JsonField> = Vec::new();
        metadata.push(field("runtime_backend", JsonValue::Text(backend.to_owned())));
        if let Some(egress) = &req.egress {
            metadata.push(field("egress_default_deny", JsonValue::Flag(egress.default_deny)));
            metadata.push(
                field("egress_allowlist", JsonValue::Texts(copy_texts(&egress.allowlist))),
            );
        }
        let mut env: Vec<JsonField> = Vec::new();
        env.push(
            field("AUTORESEARCH_SEALED_TARGET", JsonValue::Text(req.sealed_target.0.clone())),
        );
        if let Some(dev) = &req.dev_split {
            env.push(field("AUTORESEARCH_DEV_SPLIT", JsonValue::Text(dev.0.clone())));
        }
        proof {
            assert(field_views(metadata@) =~= metadata_fields(req@.backend, req@.egress));
            assert(field_views(env@) =~= env_fields(req@.sealed_target, req@.dev_split));
        }
        Ok(
            CreateParams {
                name: "autoresearch-method".to_owned(),
                image: self.image.clone(),
                agent_identifier: "autoresearch-method".to_owned(),
                env_json: render_object(&env),
                metadata_json: render_object(&metadata),
                capabilities_json: "[\"all_harness\"]".to_owned(),
                owner: self.owner.clone(),
                tee_config,
                cpu_cores: req.cpu_cores,
                memory_mb: req.memory_mb,
                disk_gb: req.disk_gb,
                max_lifetime_seconds: 3600,
                idle_timeout_seconds: 0,
            },
        )
    }

    /// The handle of what the runtime created, or why it created nothing.
    pub fn provisioned(
        &self,
        backend: SandboxBackend,
        created: Result<CreatedSandbox, String>,
    ) -> (r: Result<SandboxHandle, SandboxError>)
        ensures
            match created {
                Ok(c) => r matches Ok(handle) && handle@ == (HandleView {
                    id: c.id@,
                    sidecar_url: c.sidecar_url@,
                    backend,
                    tee_attestation: crate::attestation::opt_report(c.attestation),
                }),
                Err(why) => r == Err::<SandboxHandle, SandboxError>(SandboxError::Provision(why)),
            },
    {
        match created {
            Ok(c) => Ok(
                SandboxHandle {
                    id: c.id,
                    sidecar_url: c.sidecar_url,
                    backend,
                    tee_attestation: c.attestation,
                },
            ),
            Err(why) => Err(SandboxError::Provision(why)),
        }
    }

    /// The command that runs a submitted method inside a sandbox.
    pub fn exec_params(&self, handle: &SandboxHandle, method: &ArtifactRef) -> (r: ExecParams)
        ensures
            r.sidecar_url@ == handle.sidecar_url@,
            r.command@ == "autoresearch-run-method --method "@ + method@
                + " --out /candidate.json"@,
            r.cwd@ == "/workspace"@,
            r.env_json@ == Seq::<char>::empty(),
            r.timeout_ms == 600_000,
    {
        let mut command = "autoresearch-run-method --method ".to_owned();
        command.append(method.0.as_str());
        command.append(" --out /candidate.json");
        ExecParams {
            sidecar_url: handle.sidecar_url.clone(),
            command,
            cwd: "/workspace".to_owned(),
            env_json: String::new(),
            timeout_ms: 600_000,
        }
    }

    /// What an executed command comes to: the reference of the candidate, bound to the
    /// sandbox, or the method's failure.
    pub fn method_ran(&self, handle: &SandboxHandle, reply: Result<ExecReply, String>) -> (r: Result<
        ArtifactRef,
        SandboxError,
    >)
        ensures
            match reply {
                Err(why) => r == Err::<ArtifactRef, SandboxError>(SandboxError::Execution(why)),
                Ok(done) => if done.exit_code == 0 {
                    r matches Ok(candidate) && candidate@ == "sandbox-candidate:"@ + handle.id@
                        + ":/candidate.json"@
                } else {
                    r matches Err(SandboxError::Execution(m)) && m@ == "method exited "@ + decimal(
                        done.exit_code as nat,
                    ) + ": "@ + done.stderr@
                },
            },
    {
        match reply {
            Err(why) => Err(SandboxError::Execution(why)),
            Ok(done) => {
                if done.exit_code != 0 {
                    let mut text = "method exited ".to_owned();
                    text.append(to_decimal(done.exit_code as u64).as_str());
                    text.append(": ");
                    text.append(done.stderr.as_str());
                    return Err(SandboxError::Execution(text));
                }
                let mut candidate = "sandbox-candidate:".to_owned();
                candidate.append(handle.id.as_str());
                candidate.append(":/candidate.json");
                Ok(ArtifactRef(candidate))
            },
        }
    }

    /// What tearing a sandbox down comes to.
    pub fn torn_down(&self, deleted: Result<(), String>) -> (r: Result<(), SandboxError>)
        ensures
            match deleted {
                Ok(()) => r is Ok,
                Err(why) => r == Err::<(), SandboxError>(SandboxError::Teardown(why)),
            },
    {
        match deleted {
            Ok(()) => Ok(()),
            Err(why) => Err(SandboxError::Teardown(why)),
        }
    }
}

/// Only an enclave is demanded of a runtime, and then it is required and of the demanded
/// technology; any other backend is a container.
pub proof fn only_an_enclave_is_demanded(backend: SandboxBackend)
    ensures
        backend matches SandboxBackend::Tee(tee) ==> {
            &&& backend_name(backend) == "tee"@
            &&& backend_tee(backend) matches Some(config)
            &&& config.required
            &&& domain_tee(config.tee_type) == tee || tee is GcpConfidential
                && config.tee_type is Tdx
        },
        !(backend is Tee) ==> backend_name(backend) == "docker"@ && backend_tee(backend) is None,
{
}

/// The metadata tells the backend and, where there is a policy, whether it denies by
/// default and what it lists; the environment tells the sealed target and, where there is
/// one, the dev split.
pub proof fn a_sandbox_is_told_its_policy_and_its_target(
    backend: SandboxBackend,
    egress: Option<EgressView>,
    target: Seq<char>,
    dev: Option<Seq<char>>,
)
    ensures
        ({
            let (meta, env) = (metadata_fields(backend, egress), env_fields(target, dev));
            &&& meta.len() == (if egress is Some {
                3int
            } else {
                1
            })
            &&& meta[0].key == "runtime_backend"@
            &&& meta[0].value == JsonView::Text(
                if backend is Tee {
                    "tee"@
                } else {
                    "docker"@
                },
            )
            &&& egress matches Some(p) ==> {
                &&& meta[1].key == "egress_default_deny"@
                &&& meta[1].value == JsonView::Flag(p.default_deny)
                &&& meta[2].key == "egress_allowlist"@
                &&& meta[2].value == JsonView::Texts(p.allowlist)
            }
            &&& env.len() == (if dev is Some {
                2int
            } else {
                1
            })
            &&& env[0].key == "AUTORESEARCH_SEALED_TARGET"@
            &&& env[0].value == JsonView::Text(target)
            &&& dev matches Some(d) ==> {
                &&& env[1].key == "AUTORESEARCH_DEV_SPLIT"@
                &&& env[1].value == JsonView::Text(d)
            }
        }),
{
}

/// A sandbox is asked for with the limits of its request, for an hour at most.
pub proof fn a_sandbox_has_the_limits_of_its_request(
    params: CreateParams,
    image: Seq<char>,
    owner: Seq<char>,
    req: ProvisionView,
)
    requires
        params.asks_for(image, owner, req),
    ensures
        params.image@ == image,
        params.owner@ == owner,
        params.cpu_cores == req.cpu_cores,
        params.memory_mb == req.memory_mb,
        params.disk_gb == req.disk_gb,
        params.max_lifetime_seconds == 3600,
        params.idle_timeout_seconds == 0,
        params.tee_config is Some <==> req.backend is Tee,
        params.env_json@ == object_text(env_fields(req.sealed_target, req.dev_split)),
        params.metadata_json@ == object_text(metadata_fields(req.backend, req.egress)),
{
}

/// What a runtime's answers come to: a method that exits with zero gives the candidate of
/// its sandbox, and any other exit, or none, is a failure; a report is carried as it was
/// captured.
pub proof fn a_method_succeeds_by_exiting_with_zero(
    host: &SandboxRuntimeHost,
    handle: &SandboxHandle,
    reply: Result<ExecReply, String>,
    r: Result<ArtifactRef, SandboxError>,
    tee: RuntimeTee,
    evidence: &Vec<u8>,
    measurement: &Vec<u8>,
    report: AttestationReport,
)
    requires
        call_ensures(SandboxRuntimeHost::method_ran, (host, handle, reply), r),
        call_ensures(capture_attestation, (tee, evidence, measurement), report),
    ensures
        r is Ok <==> reply is Ok && reply->Ok_0.exit_code == 0,
        r matches Ok(candidate) ==> candidate@ == "sandbox-candidate:"@ + handle.id@
            + ":/candidate.json"@,
        r matches Err(e) ==> e is Execution,
        report@.evidence == evidence@ && report@.measurement == measurement@ && report@.nonce
            is None,
        report.tee_type is NoTee <==> tee is NoTee,
        tee is Tdx ==> report.tee_type is PhalaTdx,
        tee is Nitro ==> report.tee_type is AwsNitro,
        tee is Sev ==> report.tee_type is AzureSnp,
{
}

} // verus!
