use autoresearch::attestation::TeeType;
use autoresearch::privacy::EgressPolicy;
use autoresearch::sandbox::{SandboxBackend, SandboxError, SandboxHandle, SandboxProvisionReq};
use autoresearch::sandbox_runtime::{
    capture_attestation, domain_tee_to_runtime, runtime_tee_to_domain, CreatedSandbox, ExecReply,
    RuntimeTee, SandboxRuntimeHost, TeeConfig,
};
use autoresearch::types::ArtifactRef;

fn host() -> SandboxRuntimeHost {
    SandboxRuntimeHost::new("image:1".into(), "0xowner".into())
}

fn handle() -> SandboxHandle {
    SandboxHandle {
        id: "sb-1".into(),
        sidecar_url: "http://sidecar".into(),
        backend: SandboxBackend::Docker,
        tee_attestation: None,
    }
}

#[test]
fn a_plain_request_becomes_plain_parameters() {
    let req = SandboxProvisionReq::new(SandboxBackend::Docker, ArtifactRef("t\"1".into()), 5);
    let params = host().create_params(&req).unwrap();
    assert_eq!(params.name, "autoresearch-method");
    assert_eq!(params.agent_identifier, "autoresearch-method");
    assert_eq!(params.image, "image:1");
    assert_eq!(params.owner, "0xowner");
    assert_eq!(
        params.env_json,
        "{\"AUTORESEARCH_SEALED_TARGET\":\"t\\\"1\"}"
    );
    assert_eq!(params.metadata_json, "{\"runtime_backend\":\"docker\"}");
    assert_eq!(params.capabilities_json, "[\"all_harness\"]");
    assert_eq!(params.tee_config, None);
    assert_eq!(
        (params.cpu_cores, params.memory_mb, params.disk_gb),
        (2, 2_048, 10)
    );
    assert_eq!(
        (params.max_lifetime_seconds, params.idle_timeout_seconds),
        (3_600, 0)
    );
}

#[test]
fn an_enclave_request_carries_its_policy() {
    let req = SandboxProvisionReq::new(
        SandboxBackend::Tee(TeeType::GcpConfidential),
        ArtifactRef("t".into()),
        5,
    )
    .with_dev_split(Some(ArtifactRef("d".into())))
    .with_egress(Some(EgressPolicy::allowlisted(vec![
        "a".into(),
        "b".into(),
    ])));
    let params = host().create_params(&req).unwrap();
    let env: serde_json::Value = serde_json::from_str(&params.env_json).unwrap();
    assert_eq!(env["AUTORESEARCH_SEALED_TARGET"], "t");
    assert_eq!(env["AUTORESEARCH_DEV_SPLIT"], "d");
    let metadata: serde_json::Value = serde_json::from_str(&params.metadata_json).unwrap();
    assert_eq!(metadata["runtime_backend"], "tee");
    assert_eq!(metadata["egress_default_deny"], true);
    assert_eq!(metadata["egress_allowlist"][0], "a");
    assert_eq!(metadata["egress_allowlist"][1], "b");
    assert_eq!(
        params.tee_config,
        Some(TeeConfig {
            required: true,
            tee_type: RuntimeTee::Tdx
        })
    );
}

#[test]
fn an_open_enclave_is_not_created() {
    let req = SandboxProvisionReq::new(
        SandboxBackend::Tee(TeeType::PhalaTdx),
        ArtifactRef("t".into()),
        5,
    );
    assert_eq!(
        host().create_params(&req).unwrap_err(),
        SandboxError::EgressNotFailClosed
    );
}

#[test]
fn technologies_map_there_and_back() {
    for (tee, runtime, back) in [
        (TeeType::NoTee, RuntimeTee::NoTee, TeeType::NoTee),
        (TeeType::PhalaTdx, RuntimeTee::Tdx, TeeType::PhalaTdx),
        (TeeType::GcpConfidential, RuntimeTee::Tdx, TeeType::PhalaTdx),
        (TeeType::AwsNitro, RuntimeTee::Nitro, TeeType::AwsNitro),
        (TeeType::AzureSnp, RuntimeTee::Sev, TeeType::AzureSnp),
    ] {
        assert_eq!(domain_tee_to_runtime(tee), runtime);
        assert_eq!(runtime_tee_to_domain(runtime), back);
    }
}

#[test]
fn what_the_runtime_created_becomes_a_handle() {
    let report = capture_attestation(RuntimeTee::Sev, &vec![1, 2], &vec![3]);
    assert_eq!(report.tee_type, TeeType::AzureSnp);
    assert_eq!(report.evidence, vec![1, 2]);
    assert_eq!(report.measurement, vec![3]);
    assert_eq!(report.nonce, None);
    let got = host()
        .provisioned(
            SandboxBackend::Tee(TeeType::AzureSnp),
            Ok(CreatedSandbox {
                id: "sb-9".into(),
                sidecar_url: "http://s".into(),
                attestation: Some(report.clone()),
            }),
        )
        .unwrap();
    assert_eq!(got.id, "sb-9");
    assert_eq!(got.sidecar_url, "http://s");
    assert!(got.is_tee());
    assert_eq!(got.tee_attestation, Some(report));
    assert_eq!(
        host()
            .provisioned(SandboxBackend::Docker, Err("no image".into()))
            .unwrap_err(),
        SandboxError::Provision("no image".into())
    );
}

#[test]
fn a_method_is_run_by_one_command() {
    let exec = host().exec_params(&handle(), &ArtifactRef("m:7".into()));
    assert_eq!(exec.sidecar_url, "http://sidecar");
    assert_eq!(
        exec.command,
        "autoresearch-run-method --method m:7 --out /candidate.json"
    );
    assert_eq!(exec.cwd, "/workspace");
    assert_eq!(exec.env_json, "");
    assert_eq!(exec.timeout_ms, 600_000);
}

#[test]
fn an_exit_code_decides_the_run() {
    let done = |exit_code: u32| {
        host().method_ran(
            &handle(),
            Ok(ExecReply {
                exit_code,
                stderr: "oops".into(),
            }),
        )
    };
    assert_eq!(
        done(0).unwrap(),
        ArtifactRef("sandbox-candidate:sb-1:/candidate.json".into())
    );
    assert_eq!(
        done(137).unwrap_err(),
        SandboxError::Execution("method exited 137: oops".into())
    );
    assert_eq!(
        host().method_ran(&handle(), Err("gone".into())).unwrap_err(),
        SandboxError::Execution("gone".into())
    );
    assert_eq!(host().torn_down(Ok(())), Ok(()));
    assert_eq!(
        host().torn_down(Err("stuck".into())),
        Err(SandboxError::Teardown("stuck".into()))
    );
}
