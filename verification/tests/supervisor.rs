use autoresearch::binary64::Binary64;
use autoresearch::fnv::fnv1a_64;
use autoresearch::supervisor::{
    ArtifactKind, DriverRun, GenericArtifact, GenericSurface, Lcg, Search, SubprocessEngine,
    SubprocessManifest, SupervisorEngine, DEFAULT_BUDGET,
};
use autoresearch::traits::{Engine, EngineError, ScorerError, Surface, SurfaceError};

fn b(x: f64) -> Binary64 {
    Binary64 { bits: x.to_bits() }
}

fn doubles(a: &GenericArtifact) -> Vec<f64> {
    a.params.iter().map(|p| f64::from_bits(p.bits)).collect()
}

/// Rewards numbers that approach a hidden target.
fn quadratic(a: &GenericArtifact, target: &[f64]) -> f64 {
    let sse: f64 = doubles(a)
        .iter()
        .zip(target)
        .map(|(p, t)| (p - t).powi(2))
        .sum();
    -sse
}

fn produce(engine: &SupervisorEngine<Vec<f64>>) -> GenericArtifact {
    let target = &engine.dev_scorer;
    let step = f64::from_bits(engine.step.bits);
    let mut search = engine
        .begin(Ok(b(quadratic(&engine.start, target))))
        .unwrap();
    while let Some(fractions) = search.draw() {
        let params: Vec<Binary64> = doubles(&search.best)
            .iter()
            .zip(&fractions)
            .map(|(p, fraction)| {
                let unit = *fraction as f64 / (1u64 << 53) as f64;
                b(p + step * (2.0 * unit - 1.0))
            })
            .collect();
        let value = quadratic(&search.propose(params.clone()), target);
        search.consider(params, Ok(b(value))).unwrap();
    }
    search.finish()
}

#[test]
fn supervisor_improves_any_scorer() {
    let target = vec![1.0, -2.0, 0.5, 1.5];
    let start = GenericArtifact::baseline(ArtifactKind::Config, target.len(), "baseline".into());
    let engine =
        SupervisorEngine::new("r".into(), start.clone(), target.clone(), 7).with_budget(2000);
    let start_v = quadratic(&start, &target);
    let produced_v = quadratic(&produce(&engine), &target);
    assert!(
        produced_v > start_v + 1.0,
        "the universal engine must improve the artifact: {start_v} -> {produced_v}"
    );
    assert!(produced_v >= start_v);
}

#[test]
fn search_is_deterministic_per_seed() {
    let start = GenericArtifact::baseline(ArtifactKind::Program, 3, "s".into());
    let mk = || {
        SupervisorEngine::new("r".into(), start.clone(), vec![1.0, 2.0, 3.0], 42).with_budget(500)
    };
    let a = produce(&mk());
    let z = produce(&mk());
    assert_eq!(a, z, "same seed must reproduce the same artifact");
}

#[test]
fn surface_rejects_empty_and_nonfinite() {
    let s = GenericSurface;
    assert!(s
        .validate(&GenericArtifact::new(ArtifactKind::Text, vec![], "x".into()))
        .is_err());
    assert!(s
        .validate(&GenericArtifact::new(
            ArtifactKind::Text,
            vec![b(f64::NAN)],
            "x".into()
        ))
        .is_err());
    assert!(s
        .validate(&GenericArtifact::baseline(ArtifactKind::Text, 3, "x".into()))
        .is_ok());
}

#[test]
fn surface_tells_why_it_rejects() {
    let s = GenericSurface::default();
    assert_eq!(s.id(), "generic-artifact");
    let empty = GenericArtifact::new(ArtifactKind::Text, vec![], "x".into());
    let odd = GenericArtifact::new(ArtifactKind::Text, vec![b(1.0), b(f64::INFINITY)], "x".into());
    assert_eq!(
        s.validate(&empty),
        Err(SurfaceError::Invalid("artifact has no params".into()))
    );
    assert_eq!(
        s.apply_delta(&empty, &odd),
        Err(SurfaceError::Invalid("params must be finite".into()))
    );
    assert_eq!(
        s.to_ref(&odd),
        Err(SurfaceError::Invalid("params must be finite".into()))
    );
}

#[test]
fn a_delta_replaces_the_base() {
    let s = GenericSurface;
    let base = GenericArtifact::baseline(ArtifactKind::Solver, 2, "base".into());
    let delta = GenericArtifact::new(ArtifactKind::Solver, vec![b(1.5)], "delta".into());
    assert_eq!(s.apply_delta(&base, &delta), Ok(delta.clone()));
}

#[test]
fn a_reference_hashes_kind_numbers_and_content() {
    let a = GenericArtifact::new(ArtifactKind::Forecast, vec![b(1.5), b(-2.0)], "text".into());
    let mut bytes = vec![5u8];
    bytes.extend(1.5f64.to_bits().to_le_bytes());
    bytes.extend((-2.0f64).to_bits().to_le_bytes());
    bytes.extend(b"text");
    assert_eq!(
        GenericSurface.to_ref(&a).unwrap().0,
        format!("generic:{:016x}", fnv1a_64(&bytes))
    );
}

#[test]
fn kinds_have_fixed_codes() {
    let kinds = [
        ArtifactKind::Program,
        ArtifactKind::Solver,
        ArtifactKind::Proof,
        ArtifactKind::AgentProfile,
        ArtifactKind::Config,
        ArtifactKind::Forecast,
        ArtifactKind::Prompt,
        ArtifactKind::Text,
    ];
    for (i, kind) in kinds.iter().enumerate() {
        assert_eq!(kind.code() as usize, i);
    }
}

#[test]
fn the_generator_is_the_mmix_one() {
    let mut rng = Lcg::new(7);
    let mut state: u64 = 7 ^ 0x9E37_79B9_7F4A_7C15;
    for _ in 0..5 {
        state = state
            .wrapping_mul(6364136223846793005)
            .wrapping_add(1442695040888963407);
        assert_eq!(rng.next_u64(), state);
    }
    assert!(rng.next_fraction() < 1 << 53);
}

#[test]
fn a_search_keeps_only_strict_improvements() {
    let start = GenericArtifact::baseline(ArtifactKind::Config, 1, "c".into());
    let mut search = Search::begin(&start, 7, 5, Ok(b(1.0))).unwrap();
    for (value, kept) in [(1.0, 0.0), (0.5, 0.0), (f64::NAN, 0.0), (2.0, 9.0), (1.5, 9.0)] {
        search.consider(vec![b(9.0)], Ok(b(value))).unwrap();
        assert_eq!(doubles(&search.best), vec![kept]);
    }
    assert_eq!(search.best_value.bits, 2.0f64.to_bits());
    assert_eq!(search.best.content, "c");
    assert_eq!(search.best.kind, ArtifactKind::Config);
}

#[test]
fn a_failing_scorer_ends_the_search() {
    let start = GenericArtifact::baseline(ArtifactKind::Config, 1, "c".into());
    let err = Search::begin(&start, 7, 5, Err(ScorerError::Io("disk".into()))).unwrap_err();
    assert_eq!(err, EngineError::Backend("scoring i/o error: disk".into()));
    let mut search = Search::begin(&start, 7, 5, Ok(b(1.0))).unwrap();
    let err = search
        .consider(vec![b(2.0)], Err(ScorerError::Rejected("no".into())))
        .unwrap_err();
    assert_eq!(
        err,
        EngineError::Backend("artifact rejected by scorer: no".into())
    );
    assert_eq!(search.finish(), start);
}

#[test]
fn engine_forwards_sealed_isolation() {
    let start = GenericArtifact::baseline(ArtifactKind::Config, 1, "s".into());
    assert!(
        !SupervisorEngine::new("r".into(), start.clone(), vec![0.0], 1)
            .provides_sealed_isolation()
    );
    assert!(SupervisorEngine::new("r".into(), start, vec![0.0], 1)
        .sealed(true)
        .provides_sealed_isolation());
}

#[test]
fn an_engine_starts_with_the_defaults() {
    let start = GenericArtifact::baseline(ArtifactKind::Config, 1, "s".into());
    let engine = SupervisorEngine::new("0xr".into(), start, (), 9);
    assert_eq!(engine.researcher(), "0xr");
    assert_eq!(engine.id(), "local-search");
    assert_eq!(engine.budget, DEFAULT_BUDGET);
    assert_eq!(engine.budget, 256);
    assert_eq!(engine.step.bits, 1.0f64.to_bits());
    assert_eq!(engine.seed, 9);
    assert_eq!(engine.with_step(b(0.5)).step.bits, 0.5f64.to_bits());
}

fn subprocess() -> SubprocessEngine {
    SubprocessEngine::new(
        "r".into(),
        "node".into(),
        SubprocessManifest {
            kind: ArtifactKind::Program,
            baseline_content: "fn main() {}".into(),
            budget_steps: 10,
            dev_eval_cmd: None,
        },
    )
}

#[test]
fn subprocess_backend_without_feature_reports_missing() {
    let err = subprocess().produce(DriverRun::Disabled).unwrap_err();
    match err {
        EngineError::Backend(m) => assert!(m.contains("subprocess-backend feature not enabled")),
        other => panic!("expected Backend error, got {other:?}"),
    }
}

#[test]
fn a_driver_run_comes_to_an_artifact_or_its_failure() {
    let engine = subprocess().with_tee();
    assert!(engine.provides_sealed_isolation());
    assert!(!subprocess().provides_sealed_isolation());
    assert_eq!(engine.id(), "subprocess-engine");
    assert_eq!(engine.researcher(), "r");
    assert_eq!(
        engine.produce(DriverRun::Improved("better".into())),
        Ok(GenericArtifact::new(
            ArtifactKind::Program,
            vec![],
            "better".into()
        ))
    );
    for (run, text) in [
        (
            DriverRun::NoManifest("e".into()),
            "manifest serialization: e",
        ),
        (
            DriverRun::NotSpawned("e".into()),
            "subprocess driver spawn: e",
        ),
        (
            DriverRun::Failed {
                status: "exit status: 1".into(),
                stderr: "bad".into(),
            },
            "subprocess driver exited exit status: 1: bad",
        ),
        (
            DriverRun::Unreadable("e".into()),
            "subprocess driver output parse: e",
        ),
    ] {
        assert_eq!(engine.produce(run), Err(EngineError::Backend(text.into())));
    }
}

#[test]
fn a_search_draws_its_budget_and_no_more() {
    let start = GenericArtifact::baseline(ArtifactKind::Config, 2, "c".into());
    let engine = SupervisorEngine::new("r".into(), start, vec![0.0, 0.0], 11).with_budget(2);
    let mut search = engine.begin(Ok(b(0.0))).unwrap();
    let mut rng = Lcg::new(11);
    for _ in 0..2 {
        let expected = vec![rng.next_fraction(), rng.next_fraction()];
        assert_eq!(search.draw(), Some(expected));
    }
    assert_eq!(search.draw(), None);
    assert_eq!(search.draw(), None);
}
