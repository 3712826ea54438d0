use autoresearch::binary64::Binary64;
use autoresearch::operator::{
    default_poll_interval_ms, default_timeout_secs, derive_job_id, BlueprintOperatorCluster,
    BlueprintOperatorConfig, BlueprintTaskConfig, CreateReply, PollAction, PollEvent,
};
use autoresearch::traits::EngineError;
use autoresearch::training::{TrainedArtifact, TrainingCluster, TrainingRecipe};
use std::collections::hash_map::DefaultHasher;
use std::hash::{Hash, Hasher};

fn b(x: f64) -> Binary64 {
    Binary64 { bits: x.to_bits() }
}

fn recipe() -> TrainingRecipe {
    TrainingRecipe {
        islands: 4,
        inner_steps: 32,
        inner_lr: b(3e-3),
        outer_lr: b(0.7),
        keep_fraction: b(0.1),
    }
}

fn config_for(endpoint: &str) -> BlueprintOperatorConfig {
    BlueprintOperatorConfig {
        endpoint: endpoint.to_string(),
        auth_token: Some("test-token".to_string()),
        task: BlueprintTaskConfig {
            base_model: "meta-llama/Llama-3.2-1B".to_string(),
            dataset_url: "HuggingFaceFW/fineweb-edu".to_string(),
            method: "lora".to_string(),
            total_epochs: 1,
        },
        poll_interval_ms: 10,
        timeout_secs: 5,
    }
}

fn finished(action: PollAction) -> Result<TrainedArtifact, EngineError> {
    match action {
        PollAction::Finish(r) => r,
        other => panic!("unexpected {other:?}"),
    }
}

#[test]
fn derive_job_id_is_deterministic() {
    let r = recipe();
    assert_eq!(derive_job_id(&r, 7), derive_job_id(&r, 7));
    assert_ne!(derive_job_id(&r, 7), derive_job_id(&r, 8));
}

#[test]
fn a_job_id_hashes_every_knob_in_order() {
    let r = recipe();
    let mut hasher = DefaultHasher::new();
    4u32.hash(&mut hasher);
    32u32.hash(&mut hasher);
    3e-3f64.to_bits().hash(&mut hasher);
    0.7f64.to_bits().hash(&mut hasher);
    0.1f64.to_bits().hash(&mut hasher);
    7u64.hash(&mut hasher);
    assert_eq!(derive_job_id(&r, 7), hasher.finish());
}

#[test]
fn sealed_isolation_tracks_tee_flag() {
    let not_sealed = BlueprintOperatorCluster::new(BlueprintOperatorConfig::local());
    let sealed = not_sealed.clone().with_tee();
    assert!(!not_sealed.provides_sealed_isolation());
    assert!(sealed.provides_sealed_isolation());
}

#[test]
fn train_without_feature_reports_missing_backend() {
    let cluster = BlueprintOperatorCluster::new(BlueprintOperatorConfig::local());
    let err = cluster
        .created(CreateReply::Disabled)
        .expect_err("must error without operator-backend");
    match err {
        EngineError::Backend(msg) => assert!(
            msg.contains("operator-backend feature not enabled"),
            "error must name the missing feature: {msg}"
        ),
        other => panic!("expected Backend error, got {other:?}"),
    }
}

#[test]
fn submits_job_and_polls_to_completion() {
    let cluster = BlueprintOperatorCluster::new(config_for("http://operator"));
    let body: serde_json::Value =
        serde_json::from_str(&cluster.create_body(&recipe(), 7)).unwrap();
    assert!(body.get("job_id").is_some());
    assert!(body.get("base_model").is_some());
    assert!(body.get("dataset_url").is_some());
    assert!(body.get("method").is_some());
    assert!(body.get("total_epochs").is_some());
    assert_eq!(body["sync_interval_steps"], 32);
    cluster.created(CreateReply::Accepted).unwrap();

    let waiting = cluster.poll(
        &recipe(),
        7,
        PollEvent::Status {
            completed: false,
            current_loss: b(f64::NAN),
        },
    );
    assert!(matches!(waiting, PollAction::Wait { millis: 10 }));
    let artifact = finished(cluster.poll(
        &recipe(),
        7,
        PollEvent::Status {
            completed: true,
            current_loss: b(f64::from(2.123f32)),
        },
    ))
    .expect("train should succeed");
    assert_eq!(artifact.train_seed, 7);
    assert!((f64::from_bits(artifact.train_loss.bits) - 2.123).abs() < 1e-6);
    assert_eq!(artifact.recipe, recipe());
}

#[test]
fn propagates_operator_error() {
    let cluster = BlueprintOperatorCluster::new(config_for("http://operator"));
    let err = cluster
        .created(CreateReply::Refused(Some("operator overloaded".into())))
        .expect_err("should fail when operator returns 500");
    let msg = err.message();
    assert!(msg.contains("operator create-job returned error"), "{msg}");
    assert!(msg.contains("operator overloaded"), "{msg}");
}

#[test]
fn the_local_operator_has_the_defaults() {
    let c = BlueprintOperatorConfig::local();
    assert_eq!(c.endpoint, "http://localhost:5000");
    assert_eq!(c.auth_token, None);
    assert_eq!(c.task, BlueprintTaskConfig::default_public());
    assert_eq!(c.task.base_model, "meta-llama/Llama-3.2-1B");
    assert_eq!(c.task.dataset_url, "HuggingFaceFW/fineweb-edu");
    assert_eq!(c.task.method, "lora");
    assert_eq!(c.task.total_epochs, 1);
    assert_eq!(c.poll_interval_ms, default_poll_interval_ms());
    assert_eq!(c.timeout_secs, default_timeout_secs());
    assert_eq!((c.poll_interval_ms, c.timeout_secs), (5_000, 3_600));
    assert_eq!(
        BlueprintOperatorCluster::new(c).id(),
        "training-blueprint-operator"
    );
}

#[test]
fn requests_go_to_the_jobs_of_the_endpoint() {
    let cluster = BlueprintOperatorCluster::new(config_for("http://operator///"));
    assert_eq!(cluster.create_url(), "http://operator/v1/training/jobs");
    assert_eq!(
        cluster.status_url(&recipe(), 7),
        format!(
            "http://operator/v1/training/jobs/{}",
            derive_job_id(&recipe(), 7)
        )
    );
    assert_eq!(cluster.authorization().as_deref(), Some("Bearer test-token"));
    assert_eq!(cluster.request_timeout_secs(), 10);
    let local = BlueprintOperatorCluster::new(BlueprintOperatorConfig::local());
    assert_eq!(local.authorization(), None);
    assert_eq!(local.request_timeout_secs(), 3_600);
}

#[test]
fn a_job_body_is_exact() {
    let cluster = BlueprintOperatorCluster::new(config_for("http://operator"));
    let body: serde_json::Value =
        serde_json::from_str(&cluster.create_body(&recipe(), 7)).unwrap();
    assert_eq!(body["job_id"], derive_job_id(&recipe(), 7));
    assert_eq!(body["base_model"], "meta-llama/Llama-3.2-1B");
    assert_eq!(body["dataset_url"], "HuggingFaceFW/fineweb-edu");
    assert_eq!(body["method"], "lora");
    assert_eq!(body["total_epochs"], 1);
    assert_eq!(body.as_object().unwrap().len(), 6);
}

#[test]
fn every_refused_creation_is_told() {
    let cluster = BlueprintOperatorCluster::new(config_for("http://operator"));
    for (reply, text) in [
        (
            CreateReply::NoClient("e".into()),
            "failed to build HTTP client: e",
        ),
        (CreateReply::BadToken("e".into()), "invalid auth token: e"),
        (
            CreateReply::RequestFailed("e".into()),
            "operator create-job request failed: e",
        ),
        (
            CreateReply::Refused(None),
            "operator create-job returned error: <unreadable response>",
        ),
    ] {
        assert_eq!(
            cluster.created(reply).unwrap_err(),
            EngineError::Backend(text.into())
        );
    }
}

#[test]
fn every_failed_wait_is_told() {
    let cluster = BlueprintOperatorCluster::new(config_for("http://operator"));
    let late = format!(
        "operator job {} did not complete within 5 seconds",
        derive_job_id(&recipe(), 7)
    );
    for (event, text) in [
        (PollEvent::DeadlinePassed, late.as_str()),
        (
            PollEvent::RequestFailed("e".into()),
            "operator status request failed: e",
        ),
        (
            PollEvent::Refused(Some("busy".into())),
            "operator status returned error: busy",
        ),
        (
            PollEvent::Malformed("e".into()),
            "operator status was not valid JSON: e",
        ),
        (
            PollEvent::Status {
                completed: true,
                current_loss: b(f64::NAN),
            },
            "operator reported a non-finite current_loss",
        ),
    ] {
        assert_eq!(
            finished(cluster.poll(&recipe(), 7, event)).unwrap_err(),
            EngineError::Backend(text.into())
        );
    }
}
