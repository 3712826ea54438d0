use autoresearch::binary64::Binary64;
use autoresearch::traits::EngineError;
use autoresearch::training::{
    checkpoint_loss, parse_checkpoint_loss, recipe_to_prime_config, recipe_to_psyche_config,
    ClusterRun, PrimeCluster, PsycheCluster, TrainingCluster, TrainingRecipe,
};

fn b(x: f64) -> Binary64 {
    Binary64 { bits: x.to_bits() }
}

fn recipe() -> TrainingRecipe {
    TrainingRecipe {
        islands: 8,
        inner_steps: 32,
        inner_lr: b(3e-3),
        outer_lr: b(0.7),
        keep_fraction: b(0.1),
    }
}

#[test]
fn prime_config_maps_every_recipe_knob() {
    let r = recipe();
    let c = recipe_to_prime_config(&r);
    assert_eq!(c.num_replicas, r.islands, "islands -> num_replicas");
    assert_eq!(
        c.diloco.inner_steps, r.inner_steps,
        "inner_steps -> diloco.inner_steps"
    );
    assert_eq!(c.optimizer.lr, r.inner_lr, "inner_lr -> optimizer.lr");
    assert_eq!(c.diloco.outer_lr, r.outer_lr, "outer_lr -> diloco.outer_lr");
    assert_eq!(
        c.compression.keep_fraction, r.keep_fraction,
        "keep_fraction -> compression.keep_fraction"
    );
    assert_eq!(c.model.name, "meta-llama/Llama-3.2-1B");
    assert_eq!(c.model.seq_len, 2_048);
    assert_eq!(c.data.dataset, "HuggingFaceFW/fineweb-edu");
    assert_eq!(c.data.micro_batch_size, 16);
}

#[test]
fn psyche_config_maps_every_recipe_knob() {
    let r = recipe();
    let c = recipe_to_psyche_config(&r);
    assert_eq!(c.num_clients, r.islands, "islands -> num_clients");
    assert_eq!(
        c.distro.inner_steps, r.inner_steps,
        "inner_steps -> distro.inner_steps"
    );
    assert_eq!(c.lr, r.inner_lr, "inner_lr -> lr");
    assert_eq!(c.distro.outer_lr, r.outer_lr, "outer_lr -> distro.outer_lr");
    assert_eq!(
        c.distro.keep_fraction, r.keep_fraction,
        "keep_fraction -> distro.keep_fraction"
    );
    assert_eq!(c.model, "meta-llama/Llama-3.2-1B");
    assert_eq!(c.dataset, "HuggingFaceFW/fineweb-edu");
}

#[test]
fn baseline_recipe_maps_cleanly() {
    let base = TrainingRecipe {
        islands: 1,
        inner_steps: 1,
        keep_fraction: b(1.0),
        ..recipe()
    };
    let c = recipe_to_prime_config(&base);
    assert_eq!(c.num_replicas, 1);
    assert_eq!(c.diloco.inner_steps, 1);
    assert!((f64::from_bits(c.compression.keep_fraction.bits) - 1.0).abs() < f64::EPSILON);
}

#[test]
fn prime_train_without_feature_reports_missing_backend() {
    let cluster = PrimeCluster::new();
    let err = cluster
        .train(&recipe(), 7, ClusterRun::Disabled)
        .expect_err("must error without prime-backend");
    match err {
        EngineError::Backend(msg) => assert!(
            msg.contains("prime-backend feature not enabled"),
            "error must name the missing feature: {msg}"
        ),
        other => panic!("expected Backend error, got {other:?}"),
    }
}

#[test]
fn psyche_train_without_feature_reports_missing_backend() {
    let cluster = PsycheCluster::new(42);
    let err = cluster
        .train(&recipe(), 7, ClusterRun::Disabled)
        .expect_err("must error without psyche-backend");
    match err {
        EngineError::Backend(msg) => assert!(
            msg.contains("psyche-backend feature not enabled"),
            "error must name the missing feature: {msg}"
        ),
        other => panic!("expected Backend error, got {other:?}"),
    }
}

#[test]
fn sealed_isolation_tracks_the_tee_flag() {
    assert!(
        !PrimeCluster::new().provides_sealed_isolation(),
        "no TEE => not sealed"
    );
    assert!(
        PrimeCluster::new().with_tee().provides_sealed_isolation(),
        "TEE flag => sealed"
    );
    assert!(!PsycheCluster::new(1).provides_sealed_isolation());
    assert!(PsycheCluster::new(1).with_tee().provides_sealed_isolation());
}

#[test]
fn a_checkpoint_summary_gives_its_loss() {
    for (text, loss) in [
        ("  {\"train_loss\": 2.125, \"step\": 9}\n", 2.125),
        ("{\"train_loss\": 3}", 3.0),
        ("{\"train_loss\": -0.5}", -0.5),
    ] {
        assert_eq!(
            parse_checkpoint_loss(text).unwrap().bits,
            f64::to_bits(loss)
        );
    }
}

#[test]
fn a_summary_without_a_loss_is_refused() {
    let missing = EngineError::Backend("checkpoint summary missing a finite `train_loss`".into());
    for text in [
        "{}",
        "[1]",
        "3",
        "{\"train_loss\": \"2\"}",
        "{\"train_loss\": null}",
    ] {
        assert_eq!(parse_checkpoint_loss(text).unwrap_err(), missing, "{text}");
    }
    match parse_checkpoint_loss("not json").unwrap_err() {
        EngineError::Backend(m) => {
            assert!(m.starts_with("checkpoint summary was not JSON: "), "{m}");
            assert!(m.contains("line 1"), "{m}");
        }
        other => panic!("unexpected {other:?}"),
    }
    assert_eq!(
        checkpoint_loss(Ok(Some(b(f64::INFINITY)))).unwrap_err(),
        missing
    );
    assert_eq!(checkpoint_loss(Ok(Some(b(1.0)))).unwrap(), b(1.0));
}

#[test]
fn a_finished_run_is_an_artifact() {
    let run = || ClusterRun::Finished {
        stdout: "{\"train_loss\": 1.5}".into(),
    };
    for artifact in [
        PrimeCluster::default().train(&recipe(), 7, run()).unwrap(),
        PsycheCluster::new(3).train(&recipe(), 7, run()).unwrap(),
    ] {
        assert_eq!(artifact.recipe, recipe());
        assert_eq!(artifact.train_seed, 7);
        assert_eq!(artifact.train_loss, b(1.5));
    }
}

#[test]
fn every_failed_run_is_told_in_its_own_words() {
    let text = |r: Result<_, EngineError>| match r {
        Err(EngineError::Backend(m)) => m,
        Err(other) => panic!("unexpected {other:?}"),
        Ok(()) => panic!("unexpected success"),
    };
    let prime = |run| text(PrimeCluster::new().train(&recipe(), 7, run).map(|_| ()));
    let psyche = |run| text(PsycheCluster::new(3).train(&recipe(), 7, run).map(|_| ()));
    assert_eq!(
        prime(ClusterRun::NoConfig("e".into())),
        "prime config serialization: e"
    );
    assert_eq!(
        prime(ClusterRun::NotLaunched("e".into())),
        "prime launch failed (is `prime` installed + GPUs present?): e"
    );
    assert_eq!(
        prime(ClusterRun::Failed {
            status: "exit status: 2".into(),
            stderr: "oom".into()
        }),
        "prime run exited exit status: 2: oom"
    );
    assert_eq!(
        psyche(ClusterRun::NoConfig("e".into())),
        "psyche config serialization: e"
    );
    assert_eq!(
        psyche(ClusterRun::NotLaunched("e".into())),
        "psyche job submission failed (is `psyche` installed + operators reachable?): e"
    );
    assert_eq!(
        psyche(ClusterRun::Failed {
            status: "exit status: 2".into(),
            stderr: "oom".into()
        }),
        "psyche job exited exit status: 2: oom"
    );
}

#[test]
fn frameworks_are_invoked_with_config_and_seed() {
    assert_eq!(
        PrimeCluster::new().arguments("{}".into(), 7),
        vec!["train", "--config", "{}", "--seed", "7"]
    );
    assert_eq!(
        PsycheCluster::new(42).arguments("{}".into(), 7),
        vec![
            "submit-job",
            "--service-instance",
            "42",
            "--config",
            "{}",
            "--seed",
            "7"
        ]
    );
    assert_eq!(PrimeCluster::new().id(), "prime-cluster");
    assert_eq!(PsycheCluster::new(1).id(), "psyche-cluster");
}
