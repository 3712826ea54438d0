use autoresearch::binary64::Binary64;
use autoresearch::jobs::{
    challenge, commit_candidate, create_competition, join, knobs_coherent, report_score,
    reveal_candidate, settle, tick, CreateCompetitionRequest, ReportScoreRequest,
};
use autoresearch::types::Gate;

fn b(x: f64) -> Binary64 {
    Binary64 { bits: x.to_bits() }
}

fn report(candidate: &str, n: u32) -> ReportScoreRequest {
    ReportScoreRequest {
        candidate_id: candidate.to_string(),
        lift_delta: b(0.10),
        lift_ci_lower: b(0.05),
        lift_ci_upper: b(0.15),
        n,
        cost: b(1.0),
        cost_per_task: b(1.0 / f64::from(n)),
    }
}

#[test]
fn create_rejects_incoherent_knobs() {
    let res = create_competition(&CreateCompetitionRequest {
        structure: 1,
        cadence: 1,
    });
    assert!(res.status.starts_with("rejected"));
    assert_eq!(res.status, "rejected:incoherent-knobs");
    assert_eq!(res.competition_id, 0);
}

#[test]
fn create_accepts_every_other_combination() {
    for (structure, cadence) in [(0, 0), (0, 1), (1, 0), (2, 1)] {
        assert!(knobs_coherent(structure, cadence));
        let res = create_competition(&CreateCompetitionRequest { structure, cadence });
        assert_eq!(res.status, "accepted");
    }
}

#[test]
fn report_score_clears_gate_with_sufficient_lift_and_power() {
    let res = report_score(&report("cand-1", 16), &Gate::default());
    assert!(res.detail.contains("gate_clears=true"));
    assert_eq!(res.status, "scored");
    assert_eq!(res.detail, "candidate=cand-1 gate_clears=true");
}

#[test]
fn report_score_fails_gate_with_low_power() {
    let res = report_score(&report("cand-2", 5), &Gate::default());
    assert!(res.detail.contains("gate_clears=false"));
}

#[test]
fn report_score_applies_the_configured_gate() {
    let gate = Gate {
        min_n: 20,
        ..Gate::default()
    };
    let res = report_score(&report("c", 16), &gate);
    assert_eq!(res.detail, "candidate=c gate_clears=false");
}

#[test]
fn acknowledgements_name_their_subject() {
    let ack = join(7);
    assert_eq!((ack.status.as_str(), ack.detail.as_str()), ("joined", "competition=7"));
    let ack = commit_candidate(u64::MAX);
    assert_eq!(ack.status, "committed");
    assert_eq!(ack.detail, "competition=18446744073709551615");
    let ack = reveal_candidate("ipfs://x");
    assert_eq!(ack.status, "revealed");
    assert_eq!(ack.detail, "artifact=ipfs://x");
    let ack = challenge("cand-9");
    assert_eq!(ack.status, "challenge-opened");
    assert_eq!(ack.detail, "candidate=cand-9");
    let ack = tick();
    assert_eq!(ack.status, "tick");
    assert_eq!(ack.detail, "swept live competitions for deadlines/epochs");
    let done = settle(3);
    assert_eq!(done.competition_id, 3);
    assert_eq!(done.payouts_json, "[]");
    assert_eq!(done.status, "stub:settlement-pending");
}
