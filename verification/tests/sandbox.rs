use autoresearch::attestation::{verify_structural, AttestationVerdict, TeeType};
use autoresearch::binary64::Binary64;
use autoresearch::fnv::fnv1a_64;
use autoresearch::orchestrator::{
    run_oneshot_competitive, CompetitionConfig, CompetitionOutcome, Opening, ResearcherRun, Round,
    RunFailure,
};
use autoresearch::privacy::{EgressPolicy, PrivacyTier};
use autoresearch::reward::{total_wei, RewardSchedule};
use autoresearch::sandbox::{
    SandboxBackend, SandboxError, SandboxHandle, SandboxHost, SandboxProvisionReq,
};
use autoresearch::sandbox_engine::{conclude, to_engine_error, ResolveCandidate, SandboxMethodEngine};
use autoresearch::sandbox_local::{LocalMethod, LocalSandboxHost};
use autoresearch::traits::{Engine, EngineContext, EngineError};
use autoresearch::types::{
    ArtifactRef, Cadence, CompetitionId, Gate, Knobs, Lift, Measurement, ScorerKind, Structure,
    Visibility,
};

const POOL_WEI: u128 = 1_000_000;

/// The stand-in for a submitted method: its product is determined by its reference.
struct HashingMethod;

impl LocalMethod for HashingMethod {
    type Artifact = u64;

    fn run(&self, method: &ArtifactRef, _ctx: &EngineContext) -> Result<u64, SandboxError> {
        if method.0.is_empty() {
            return Err(SandboxError::Execution("no method".into()));
        }
        Ok(fnv1a_64(method.0.as_bytes()))
    }
}

fn bits(x: f64) -> Binary64 {
    Binary64 { bits: x.to_bits() }
}

/// The score that a product has on the held-out split: between 0.85 and 0.95, by its
/// last digits. The baseline scores one half.
fn held_out(product: u64) -> f64 {
    0.85 + (product % 1_000) as f64 / 10_000.0
}

fn measured(value: f64) -> Measurement {
    Measurement {
        value: bits(value),
        ci_lower: bits(value - 0.02),
        ci_upper: bits(value + 0.02),
        n: 80,
        cost: bits(80.0),
        cost_per_task: bits(1.0),
    }
}

fn lift_over_baseline(value: f64) -> Lift {
    let delta = value - 0.5;
    let half = 0.02 * 2.0_f64.sqrt();
    Lift {
        delta: bits(delta),
        ci_lower: bits(delta - half),
        ci_upper: bits(delta + half),
        n: 80,
    }
}

/// Runs a public competition in which the operator runs each researcher's method on
/// `backend`.
fn compete(
    id: CompetitionId,
    reward: RewardSchedule,
    researchers: &[ResearcherRun],
    backend: SandboxBackend,
) -> CompetitionOutcome {
    let cfg = CompetitionConfig {
        id,
        gate: Gate::default(),
        reward,
        reward_pool_wei: POOL_WEI,
        knobs: Knobs {
            structure: Structure::Competitive,
            cadence: Cadence::OneShot,
            visibility: Visibility::Public,
            scorer_kind: ScorerKind::HeldOutEval,
        },
    };
    cfg.check_setup().unwrap();
    let mut round = Round::start();
    while let Some(i) = round.next_turn(researchers) {
        let mut engine = SandboxMethodEngine::new(
            method_ref(researchers[i].seed),
            backend,
            LocalSandboxHost::new(HashingMethod),
        );
        let mut ctx = cfg.public_context(&ArtifactRef("sealed:baseline".into()));
        if backend.is_tee() {
            ctx.egress_policy = Some(EgressPolicy::no_egress());
        }
        let result = engine
            .produce(&ctx)
            .map(|product| {
                let value = held_out(product);
                (lift_over_baseline(value), measured(value))
            })
            .map_err(RunFailure::Engine);
        round.record(researchers, result);
    }
    let opening = Opening {
        surface: Ok(()),
        baseline: Ok(()),
    };
    run_oneshot_competitive(&cfg, &opening, researchers, &round.runs)
        .expect("operator-hosted competition should run")
}

fn method_ref(seed: u64) -> ArtifactRef {
    ArtifactRef(format!("method:config-search:{seed}"))
}

fn run_ctx(id: CompetitionId) -> EngineContext {
    EngineContext {
        competition: id,
        baseline_ref: ArtifactRef("sealed:baseline".into()),
        dev_split_ref: Some(ArtifactRef("sealed:dev".into())),
        budget_wei: POOL_WEI,
        egress_policy: None,
    }
}

fn open_egress() -> Option<EgressPolicy> {
    Some(EgressPolicy {
        allowlist: vec![],
        default_deny: false,
    })
}

#[test]
fn the_toggle_is_one_field() {
    assert!(!SandboxBackend::Docker.is_tee());
    assert!(SandboxBackend::Tee(TeeType::PhalaTdx).is_tee());
    assert!(!SandboxBackend::Local.is_tee());
    assert!(SandboxBackend::Tee(TeeType::AwsNitro).requires_sealed_inputs());
    assert!(!SandboxBackend::Docker.requires_sealed_inputs());
    assert!(!SandboxBackend::Local.requires_sealed_inputs());
    assert_eq!(SandboxBackend::Docker.runtime_backend(), "docker");
    assert_eq!(
        SandboxBackend::Tee(TeeType::PhalaTdx).runtime_backend(),
        "tee"
    );
    assert_eq!(SandboxBackend::Local.runtime_backend(), "local");
}

#[test]
fn for_competition_selects_tee_only_for_attestation_tiers_with_a_real_tee() {
    for tier in [PrivacyTier::WhiteBoxNoEgress, PrivacyTier::AttestedHarness] {
        assert_eq!(
            SandboxBackend::for_competition(tier, TeeType::PhalaTdx),
            SandboxBackend::Tee(TeeType::PhalaTdx),
            "{tier:?} with a real TEE must select the sealed enclave"
        );
        assert_eq!(
            SandboxBackend::for_competition(tier, TeeType::NoTee),
            SandboxBackend::Docker
        );
    }
    for tier in [PrivacyTier::BlackBox, PrivacyTier::RedactedFeedback] {
        assert_eq!(
            SandboxBackend::for_competition(tier, TeeType::PhalaTdx),
            SandboxBackend::Docker,
            "{tier:?} keeps no proprietary data on the researcher side"
        );
    }
}

#[test]
fn validate_is_fail_closed_for_tee_egress() {
    let target = ArtifactRef("sealed".into());
    assert!(
        SandboxProvisionReq::new(SandboxBackend::Tee(TeeType::PhalaTdx), target.clone(), 1)
            .with_egress(Some(EgressPolicy::no_egress()))
            .validate()
            .is_ok()
    );
    assert!(matches!(
        SandboxProvisionReq::new(SandboxBackend::Tee(TeeType::PhalaTdx), target.clone(), 1)
            .with_egress(open_egress())
            .validate(),
        Err(SandboxError::EgressNotFailClosed)
    ));
    assert!(matches!(
        SandboxProvisionReq::new(SandboxBackend::Tee(TeeType::PhalaTdx), target.clone(), 1)
            .validate(),
        Err(SandboxError::EgressNotFailClosed)
    ));
    assert!(
        SandboxProvisionReq::new(SandboxBackend::Docker, target.clone(), 1)
            .validate()
            .is_ok()
    );
    assert!(
        SandboxProvisionReq::new(SandboxBackend::Tee(TeeType::AzureSnp), target, 1)
            .with_egress(Some(EgressPolicy::allowlisted(vec!["model.endpoint".into()])))
            .validate()
            .is_ok()
    );
}

#[test]
fn a_backend_attests_to_its_technology() {
    assert_eq!(SandboxBackend::Local.tee_type(), TeeType::NoTee);
    assert_eq!(SandboxBackend::Docker.tee_type(), TeeType::NoTee);
    assert_eq!(
        SandboxBackend::Tee(TeeType::AzureSnp).tee_type(),
        TeeType::AzureSnp
    );
}

#[test]
fn a_request_starts_small() {
    let req = SandboxProvisionReq::new(SandboxBackend::Docker, ArtifactRef("t".into()), 9)
        .with_dev_split(Some(ArtifactRef("d".into())));
    assert_eq!((req.cpu_cores, req.memory_mb, req.disk_gb), (2, 2_048, 10));
    assert_eq!(req.budget_wei, 9);
    assert_eq!(req.dev_split, Some(ArtifactRef("d".into())));
    assert!(req.egress.is_none());
}

#[test]
fn operator_runs_submitted_method_and_produces_real_lift() {
    let researchers: Vec<ResearcherRun> = (1u64..=5)
        .map(|seed| ResearcherRun {
            researcher: format!("0xresearcher{seed}"),
            seed,
        })
        .collect();
    let outcome = compete(
        1,
        RewardSchedule::SnapshotTopK {
            weights_bps: vec![5_000, 3_000, 2_000],
        },
        &researchers,
        SandboxBackend::Local,
    );
    assert!(outcome.winners >= 1, "expected gate-clearing winners");
    let top_delta = f64::from_bits(outcome.ranked[0].1.delta.bits);
    assert!(
        top_delta > 0.30,
        "operator-run method must yield real held-out lift, got {top_delta}"
    );
    assert!(total_wei(&outcome.payouts) <= POOL_WEI);

    let mut expected: Vec<(f64, String)> = (1u64..=5)
        .map(|seed| {
            (
                held_out(fnv1a_64(method_ref(seed).0.as_bytes())) - 0.5,
                format!("0xresearcher{seed}"),
            )
        })
        .collect();
    expected.sort_by(|a, b| b.0.partial_cmp(&a.0).unwrap());
    let ranked: Vec<(f64, String)> = outcome
        .ranked
        .iter()
        .map(|(who, lift)| (f64::from_bits(lift.delta.bits), who.clone()))
        .collect();
    assert_eq!(ranked, expected, "each method is ranked by what it produced");
    let paid: Vec<(&str, u128)> = outcome
        .payouts
        .iter()
        .map(|p| (p.researcher.as_str(), p.wei))
        .collect();
    assert_eq!(
        paid,
        vec![
            (expected[0].1.as_str(), 500_000),
            (expected[1].1.as_str(), 300_000),
            (expected[2].1.as_str(), 200_000),
        ]
    );
}

#[test]
fn tee_toggle_provisions_with_sealed_inputs_and_captured_attestation() {
    let mut host = LocalSandboxHost::new(HashingMethod);
    let tee = SandboxBackend::Tee(TeeType::PhalaTdx);
    assert!(tee.is_tee());
    assert!(tee.requires_sealed_inputs());

    let req = SandboxProvisionReq::new(tee, ArtifactRef("sealed:target".into()), POOL_WEI)
        .with_egress(Some(EgressPolicy::no_egress()));
    let handle = host.provision(&req).expect("TEE provision");
    assert!(handle.is_tee(), "TEE handle must report is_tee");
    let report = handle
        .tee_attestation
        .as_ref()
        .expect("TEE provision must capture an attestation");
    let v = verify_structural(report, TeeType::PhalaTdx);
    assert!(v.is_structurally_valid());
    assert_ne!(
        v.verdict,
        AttestationVerdict::Verified,
        "the local stand-in attestation is structural-only, never Verified"
    );
    assert_eq!(
        report.evidence,
        b"local-sandbox-stand-in:PhalaTdx".to_vec()
    );
    assert_eq!(report.measurement, b"local-sandbox:no-enclave".to_vec());
    host.teardown(handle).unwrap();
}

#[test]
fn non_tee_backends_have_no_sealing_and_no_attestation() {
    let mut host = LocalSandboxHost::new(HashingMethod);
    for backend in [SandboxBackend::Docker, SandboxBackend::Local] {
        assert!(!backend.is_tee(), "{backend:?} must not be a TEE backend");
        assert!(!backend.requires_sealed_inputs());
        let req = SandboxProvisionReq::new(backend, ArtifactRef("target".into()), POOL_WEI);
        let handle = host.provision(&req).expect("non-TEE provision");
        assert!(!handle.is_tee());
        assert!(
            handle.tee_attestation.is_none(),
            "{backend:?} must not capture an attestation"
        );
        host.teardown(handle).unwrap();
    }
}

#[test]
fn the_same_method_works_under_both_backends_with_one_field_changed() {
    let top_delta_under = |backend: SandboxBackend| {
        let researchers = vec![ResearcherRun {
            researcher: "0xr".into(),
            seed: 7,
        }];
        let outcome = compete(9, RewardSchedule::TerminalPrize, &researchers, backend);
        outcome
            .ranked
            .first()
            .map(|(_, lift)| f64::from_bits(lift.delta.bits))
            .unwrap_or(0.0)
    };
    let docker_delta = top_delta_under(SandboxBackend::Docker);
    let tee_delta = top_delta_under(SandboxBackend::Tee(TeeType::PhalaTdx));
    assert!(docker_delta > 0.30, "Docker arm must produce real lift");
    assert_eq!(
        docker_delta, tee_delta,
        "the same method must yield the same lift under Docker and TEE"
    );
}

#[test]
fn tee_provision_with_open_egress_is_rejected_fail_closed() {
    let mut host = LocalSandboxHost::new(HashingMethod);
    let tee = SandboxBackend::Tee(TeeType::PhalaTdx);

    let open = SandboxProvisionReq::new(tee, ArtifactRef("sealed:target".into()), POOL_WEI)
        .with_egress(open_egress());
    let err = host.provision(&open).unwrap_err();
    assert!(
        matches!(err, SandboxError::EgressNotFailClosed),
        "open-egress TEE provision must be rejected, got {err:?}"
    );

    let missing = SandboxProvisionReq::new(tee, ArtifactRef("sealed:target".into()), POOL_WEI);
    let err = host.provision(&missing).unwrap_err();
    assert!(
        matches!(err, SandboxError::EgressNotFailClosed),
        "missing-egress TEE provision must be rejected, got {err:?}"
    );

    let ok = SandboxProvisionReq::new(tee, ArtifactRef("sealed:target".into()), POOL_WEI)
        .with_egress(Some(EgressPolicy::no_egress()));
    let handle = host.provision(&ok).expect("no-egress TEE provision");
    assert!(handle.is_tee());
    assert_eq!(
        handle.id, "local-sandbox-00000001",
        "a rejected request takes no id"
    );
    host.teardown(handle).unwrap();

    let docker = SandboxProvisionReq::new(
        SandboxBackend::Docker,
        ArtifactRef("target".into()),
        POOL_WEI,
    );
    assert!(host.provision(&docker).is_ok());
}

#[test]
fn local_host_is_an_honest_in_process_stand_in() {
    let mut host = LocalSandboxHost::new(HashingMethod);
    let req = SandboxProvisionReq::new(SandboxBackend::Local, ArtifactRef("t".into()), POOL_WEI);
    let handle: SandboxHandle = host.provision(&req).unwrap();
    assert!(
        handle.sidecar_url.starts_with("inproc://"),
        "local host must use an in-process marker url, got {}",
        handle.sidecar_url
    );
    let candidate = host
        .run_method(&handle, &method_ref(7), &run_ctx(1))
        .unwrap();
    assert!(host.resolve(&candidate).is_some());
    host.teardown(handle).unwrap();
}

fn provisioned(host: &mut LocalSandboxHost<HashingMethod>) -> SandboxHandle {
    let req = SandboxProvisionReq::new(SandboxBackend::Local, ArtifactRef("t".into()), 1);
    host.provision(&req).unwrap()
}

#[test]
fn references_are_numbered_and_never_collide() {
    let mut host = LocalSandboxHost::new(HashingMethod);
    let first = provisioned(&mut host);
    let second = provisioned(&mut host);
    assert_eq!(first.id, "local-sandbox-00000001");
    assert_eq!(second.id, "local-sandbox-00000002");
    assert_eq!(second.sidecar_url, "inproc://local-sandbox-00000002");
    let a = host.run_method(&first, &method_ref(1), &run_ctx(1)).unwrap();
    let b = host.run_method(&first, &method_ref(1), &run_ctx(1)).unwrap();
    assert_eq!(a.0, "sandbox-candidate:local-sandbox-00000001:00000003");
    assert_eq!(b.0, "sandbox-candidate:local-sandbox-00000001:00000004");
}

#[test]
fn teardown_drops_one_sandbox_and_spares_the_others() {
    let mut host = LocalSandboxHost::new(HashingMethod);
    let first = provisioned(&mut host);
    let second = provisioned(&mut host);
    let a = host.run_method(&first, &method_ref(1), &run_ctx(1)).unwrap();
    let b = host.run_method(&second, &method_ref(2), &run_ctx(1)).unwrap();
    host.teardown(first).unwrap();
    assert_eq!(host.resolve(&a), None);
    assert_eq!(host.resolve(&b), Some(fnv1a_64(method_ref(2).0.as_bytes())));
    assert_eq!(host.resolve_candidate(&b), host.resolve(&b));
    assert_eq!(host.resolve(&ArtifactRef("unknown".into())), None);
}

#[test]
fn a_failing_method_leaves_nothing_behind() {
    let mut engine = SandboxMethodEngine::new(
        ArtifactRef(String::new()),
        SandboxBackend::Local,
        LocalSandboxHost::new(HashingMethod),
    );
    let err = engine.produce(&run_ctx(1)).unwrap_err();
    assert_eq!(
        err,
        EngineError::Backend("method execution inside the sandbox failed: no method".into())
    );
    engine.method_ref = method_ref(3);
    assert!(engine.produce(&run_ctx(1)).is_ok());
    assert_eq!(
        engine
            .host
            .resolve(&ArtifactRef("sandbox-candidate:local-sandbox-00000002:00000003".into())),
        None,
        "the sandbox was torn down"
    );
}

#[test]
fn an_open_enclave_run_fails_before_anything_is_provisioned() {
    let mut engine = SandboxMethodEngine::new(
        method_ref(1),
        SandboxBackend::Tee(TeeType::AwsNitro),
        LocalSandboxHost::new(HashingMethod),
    );
    assert!(engine.provides_sealed_isolation());
    assert_eq!(engine.id(), "sandbox-method");
    assert_eq!(
        engine.produce(&run_ctx(1)).unwrap_err().message(),
        "engine backend error: TEE sandbox requires a fail-closed (no-egress / default-deny) egress policy; an open or missing policy is rejected (PRIVACY §5.3, M4)"
    );
}

#[test]
fn limits_and_context_go_into_the_request() {
    let engine = SandboxMethodEngine::new(
        method_ref(1),
        SandboxBackend::Docker,
        LocalSandboxHost::new(HashingMethod),
    )
    .with_limits(8, 16_384, 100);
    assert!(!engine.provides_sealed_isolation());
    let req = engine.provision_req(&run_ctx(1));
    assert_eq!((req.cpu_cores, req.memory_mb, req.disk_gb), (8, 16_384, 100));
    assert_eq!(req.sealed_target, ArtifactRef("sealed:baseline".into()));
    assert_eq!(req.dev_split, Some(ArtifactRef("sealed:dev".into())));
    assert_eq!(req.budget_wei, POOL_WEI);
    assert_eq!(req.backend, SandboxBackend::Docker);
}

#[test]
fn a_run_is_concluded_by_its_first_failure() {
    let good = || Ok(ArtifactRef("ref:\"x\"".into()));
    assert_eq!(conclude(good(), Some(5), Ok(())), Ok(5));
    assert_eq!(
        conclude::<u8>(good(), None, Err(SandboxError::Teardown("late".into()))),
        Err(EngineError::Backend(
            "produced candidate ArtifactRef(\"ref:\\\"x\\\"\") could not be resolved to a typed artifact (sandbox host wiring error)".into()
        ))
    );
    assert_eq!(
        conclude(good(), Some(5), Err(SandboxError::Teardown("stuck".into()))),
        Err(EngineError::Backend("sandbox teardown failed: stuck".into()))
    );
    assert_eq!(
        conclude::<u8>(
            Err(SandboxError::Execution("boom".into())),
            None,
            Err(SandboxError::Teardown("stuck".into()))
        ),
        Err(EngineError::Backend(
            "method execution inside the sandbox failed: boom".into()
        ))
    );
}

#[test]
fn every_sandbox_error_has_its_message() {
    for (error, text) in [
        (
            SandboxError::Provision("x".into()),
            "sandbox provisioning failed: x",
        ),
        (
            SandboxError::Execution("x".into()),
            "method execution inside the sandbox failed: x",
        ),
        (
            SandboxError::Output("x".into()),
            "could not read the produced candidate from the sandbox: x",
        ),
        (
            SandboxError::Teardown("x".into()),
            "sandbox teardown failed: x",
        ),
        (
            SandboxError::Unavailable("x".into()),
            "sandbox backend unavailable: x",
        ),
    ] {
        assert_eq!(error.message(), text);
        assert_eq!(to_engine_error(&error), EngineError::Backend(text.into()));
    }
}
