use autoresearch::binary64::Binary64;
use autoresearch::orchestrator::{
    run_oneshot_competitive, settle_terminal_or_topk, CompetitionConfig, CompetitionOutcome,
    Opening, ProtocolError, ResearcherRun, Round, RunFailure, ScoredRun,
};
use autoresearch::privacy::PrivacyError;
use autoresearch::reward::{total_wei, RewardError, RewardSchedule};
use autoresearch::traits::{EngineError, ScorerError, SurfaceError};
use autoresearch::types::{
    ArtifactRef, Cadence, Gate, Knobs, Lift, Measurement, ScorerKind, Structure, Visibility,
};

fn b(x: f64) -> Binary64 {
    Binary64 { bits: x.to_bits() }
}

/// A measurement in doubles.
#[derive(Clone, Copy)]
struct Doubles {
    value: f64,
    ci_lower: f64,
    ci_upper: f64,
    n: u32,
    cost: f64,
}

impl Doubles {
    fn measurement(self) -> Measurement {
        Measurement {
            value: b(self.value),
            ci_lower: b(self.ci_lower),
            ci_upper: b(self.ci_upper),
            n: self.n,
            cost: b(self.cost),
            cost_per_task: b(self.cost / f64::from(self.n)),
        }
    }

    fn standard_error(self) -> f64 {
        (self.ci_upper - self.ci_lower) / (2.0 * 1.96)
    }

    fn lift_over(self, base: Doubles) -> Lift {
        let delta = self.value - base.value;
        let se = (self.standard_error().powi(2) + base.standard_error().powi(2)).sqrt();
        Lift {
            delta: b(delta),
            ci_lower: b(delta - 1.96 * se),
            ci_upper: b(delta + 1.96 * se),
            n: self.n.min(base.n),
        }
    }
}

fn score(artifact: f64) -> Doubles {
    Doubles {
        value: artifact,
        ci_lower: (artifact - 0.02).max(0.0),
        ci_upper: (artifact + 0.02).min(1.0),
        n: 80,
        cost: 80.0,
    }
}

fn run(researcher: &str, artifact: f64) -> ScoredRun {
    ScoredRun {
        researcher: researcher.into(),
        result: Ok((
            score(artifact).lift_over(score(0.5)),
            score(artifact).measurement(),
        )),
    }
}

fn cfg(reward: RewardSchedule) -> CompetitionConfig {
    CompetitionConfig {
        id: 1,
        gate: Gate::default(),
        reward,
        reward_pool_wei: 1_000_000,
        knobs: Knobs {
            structure: Structure::Competitive,
            cadence: Cadence::OneShot,
            visibility: Visibility::Public,
            scorer_kind: ScorerKind::HeldOutEval,
        },
    }
}

fn opening() -> Opening {
    Opening {
        surface: Ok(()),
        baseline: Ok(()),
    }
}

fn decide(
    cfg: &CompetitionConfig,
    runs: Vec<ScoredRun>,
) -> Result<CompetitionOutcome, ProtocolError> {
    run_oneshot_competitive(cfg, &opening(), &researchers_of(&runs), &runs)
}

fn researchers_of(runs: &[ScoredRun]) -> Vec<ResearcherRun> {
    runs.iter()
        .map(|run| ResearcherRun {
            researcher: run.researcher.clone(),
            seed: 0,
        })
        .collect()
}

fn topk() -> RewardSchedule {
    RewardSchedule::SnapshotTopK {
        weights_bps: vec![5_000, 3_000, 2_000],
    }
}

#[test]
fn survivors_are_ranked_best_first_and_paid() {
    let outcome = decide(
        &cfg(topk()),
        vec![
            run("0xmid", 0.7),
            run("0xweak", 0.51),
            run("0xbest", 0.9),
            run("0xlow", 0.6),
        ],
    )
    .unwrap();
    assert_eq!(outcome.winners, 3);
    let names: Vec<&str> = outcome.ranked.iter().map(|(r, _)| r.as_str()).collect();
    assert_eq!(names, vec!["0xbest", "0xmid", "0xlow"]);
    let paid: Vec<(&str, u128)> = outcome
        .payouts
        .iter()
        .map(|p| (p.researcher.as_str(), p.wei))
        .collect();
    assert_eq!(
        paid,
        vec![("0xbest", 500_000), ("0xmid", 300_000), ("0xlow", 200_000)]
    );
    assert_eq!(total_wei(&outcome.payouts), 1_000_000);
}

#[test]
fn ties_are_broken_by_the_lower_bound_and_then_by_name() {
    let tied = |name: &str, ci_lower: f64| ScoredRun {
        researcher: name.into(),
        result: Ok((
            Lift {
                delta: b(0.3),
                ci_lower: b(ci_lower),
                ci_upper: b(0.4),
                n: 80,
            },
            score(0.8).measurement(),
        )),
    };
    let outcome = decide(
        &cfg(RewardSchedule::TerminalPrize),
        vec![tied("0xb", 0.1), tied("0xa", 0.1), tied("0xc", 0.2)],
    )
    .unwrap();
    let names: Vec<&str> = outcome.ranked.iter().map(|(r, _)| r.as_str()).collect();
    assert_eq!(names, vec!["0xc", "0xa", "0xb"]);
    assert_eq!(outcome.payouts.len(), 1);
    assert_eq!(outcome.payouts[0].researcher, "0xc");
    assert_eq!(outcome.payouts[0].wei, 1_000_000);
}

#[test]
fn only_gate_clearers_are_paid() {
    let outcome = decide(
        &cfg(RewardSchedule::TerminalPrize),
        vec![run("0xweak", 0.51)],
    )
    .unwrap();
    assert_eq!(outcome.winners, 0);
    assert!(outcome.ranked.is_empty());
    assert!(outcome.payouts.is_empty());
}

#[test]
fn the_first_failure_aborts_the_run() {
    let failing = |name: &str, failure: RunFailure| ScoredRun {
        researcher: name.into(),
        result: Err(failure),
    };
    match decide(
        &cfg(topk()),
        vec![
            run("0xa", 0.9),
            failing("0xb", RunFailure::Engine(EngineError::BudgetExhausted)),
            failing("0xc", RunFailure::Scorer(ScorerError::Io("later".into()))),
        ],
    ) {
        Err(ProtocolError::Engine { researcher, source }) => {
            assert_eq!(researcher, "0xb");
            assert_eq!(source, EngineError::BudgetExhausted);
        }
        other => panic!("unexpected {other:?}"),
    }
    assert!(matches!(
        decide(
            &cfg(topk()),
            vec![failing(
                "0xb",
                RunFailure::Surface(SurfaceError::Invalid("shape".into()))
            )]
        ),
        Err(ProtocolError::Surface(SurfaceError::Invalid(_)))
    ));
    let broken = Opening {
        surface: Err(SurfaceError::Io("disk".into())),
        baseline: Err(ScorerError::Io("net".into())),
    };
    assert!(matches!(
        run_oneshot_competitive(&cfg(topk()), &broken, &[], &vec![]),
        Err(ProtocolError::Surface(_))
    ));
}

#[test]
fn a_configuration_that_cannot_conserve_is_rejected_before_any_work() {
    let over = RewardSchedule::SnapshotTopK {
        weights_bps: vec![6_000, 5_000],
    };
    assert!(matches!(
        decide(&cfg(over), vec![]),
        Err(ProtocolError::InvalidReward(
            RewardError::WeightsExceedPool { sum: 11_000 }
        ))
    ));
    let mut incoherent = cfg(topk());
    incoherent.knobs.structure = Structure::Collaborative;
    incoherent.knobs.cadence = Cadence::Continuous;
    assert!(matches!(
        decide(&incoherent, vec![]),
        Err(ProtocolError::IncoherentKnobs(_))
    ));
}

#[test]
fn continuous_schedules_do_not_settle_here() {
    let streaming = RewardSchedule::TimeAtTopStreaming { wei_per_epoch: 5 };
    match settle_terminal_or_topk(&streaming, 10, &["a".to_string()]) {
        Err(ProtocolError::UnsupportedReward(r)) => assert_eq!(r, streaming),
        other => panic!("unexpected {other:?}"),
    }
    assert!(matches!(
        decide(&cfg(streaming), vec![run("0xa", 0.9)]),
        Err(ProtocolError::UnsupportedReward(_))
    ));
}

#[test]
fn public_engines_may_climb_on_the_dev_split() {
    let ctx = cfg(topk()).public_context(&ArtifactRef("base".into()));
    assert_eq!(ctx.competition, 1);
    assert_eq!(ctx.baseline_ref, ArtifactRef("base".into()));
    assert_eq!(ctx.dev_split_ref, Some(ArtifactRef("dev-split:1".into())));
    assert_eq!(ctx.budget_wei, 1_000_000);
    assert!(ctx.egress_policy.is_none());
}

#[test]
fn a_round_gives_everybody_a_turn_until_one_fails() {
    let researchers: Vec<ResearcherRun> = ["0xa", "0xb", "0xc"]
        .iter()
        .map(|name| ResearcherRun {
            researcher: name.to_string(),
            seed: 1,
        })
        .collect();
    let mut round = Round::start();
    for (i, artifact) in [0.9, 0.7, 0.8].iter().enumerate() {
        assert_eq!(round.next_turn(&researchers), Some(i));
        round.record(&researchers, run("ignored", *artifact).result);
    }
    assert_eq!(round.next_turn(&researchers), None);
    let outcome =
        run_oneshot_competitive(&cfg(topk()), &opening(), &researchers, &round.runs).unwrap();
    let names: Vec<&str> = outcome.ranked.iter().map(|(r, _)| r.as_str()).collect();
    assert_eq!(names, vec!["0xa", "0xc", "0xb"]);

    let mut broken = Round::start();
    broken.record(&researchers, run("ignored", 0.9).result);
    broken.record(
        &researchers,
        Err(RunFailure::Scorer(ScorerError::Io("net".into()))),
    );
    assert_eq!(broken.next_turn(&researchers), None);
    assert!(matches!(
        run_oneshot_competitive(&cfg(topk()), &opening(), &researchers, &broken.runs),
        Err(ProtocolError::Scorer(ScorerError::Io(_)))
    ));
}

#[test]
fn every_protocol_error_has_its_message() {
    let said = [
        (
            ProtocolError::IncoherentKnobs("why"),
            "knob combination is incoherent: why",
        ),
        (
            ProtocolError::Surface(SurfaceError::Invalid("shape".into())),
            "surface rejected an artifact: artifact failed surface validation: shape",
        ),
        (
            ProtocolError::Scorer(ScorerError::InsufficientPower { have: 3, need: 12 }),
            "scorer failed: insufficient statistical power: have n=3, need n=12",
        ),
        (
            ProtocolError::Engine {
                researcher: "0xr".into(),
                source: EngineError::Backend("down".into()),
            },
            "engine failed for researcher 0xr: engine backend error: down",
        ),
        (
            ProtocolError::UnsupportedReward(RewardSchedule::TimeAtTopStreaming {
                wei_per_epoch: 10,
            }),
            "the TimeAtTopStreaming { wei_per_epoch: 10 } reward schedule is not supported by \
             the one-shot competitive runner",
        ),
        (
            ProtocolError::InvalidReward(RewardError::EmptyWeights),
            "reward schedule cannot conserve the pool: SnapshotTopK weights_bps must be non-empty",
        ),
        (
            ProtocolError::Privacy(PrivacyError::AttestationRequired),
            "privacy control rejected the run: this tier requires a TEE attestation but none was \
             supplied (PRIVACY §7)",
        ),
    ];
    for (error, text) in said {
        assert_eq!(error.message(), text);
    }
}
