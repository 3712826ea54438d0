//! The jobs of the competitions service: their ids and what they answer.
//!
//! Jobs are the thin spine of commitments, certified scores and payouts; heavy work
//! happens elsewhere.
use crate::binary64::Binary64;
use crate::privacy::{truth, truth_text};
use crate::text::{decimal, to_decimal};
use crate::types::{Gate, Lift, Measurement};
use vstd::prelude::*;

verus! {

pub const JOB_CREATE_COMPETITION: u8 = 0;

pub const JOB_JOIN: u8 = 1;

pub const JOB_COMMIT_CANDIDATE: u8 = 2;

pub const JOB_REVEAL_CANDIDATE: u8 = 3;

pub const JOB_REPORT_SCORE: u8 = 4;

pub const JOB_SETTLE: u8 = 5;

pub const JOB_CHALLENGE: u8 = 6;

pub const JOB_TICK: u8 = 7;

/// What the creation of a competition is decided by.
#[derive(Clone, Copy, Debug, PartialEq, Eq, Structural)]
pub struct CreateCompetitionRequest {
    /// 0 competitive, 1 collaborative.
    pub structure: u8,
    /// 0 one-shot, 1 continuous.
    pub cadence: u8,
}

/// The answer to a creation.
#[derive(Debug, PartialEq, Eq)]
pub struct CreateCompetitionResponse {
    pub competition_id: u64,
    pub status: String,
}

/// A reported score: the referee's figures, already read as numbers.
#[derive(Debug)]
pub struct ReportScoreRequest {
    pub candidate_id: String,
    pub lift_delta: Binary64,
    pub lift_ci_lower: Binary64,
    pub lift_ci_upper: Binary64,
    /// Paired episodes.
    pub n: u32,
    /// Total scoring cost.
    pub cost: Binary64,
    /// `cost` divided by `n`; read only where `n` is not zero.
    pub cost_per_task: Binary64,
}

/// The answer to a settlement.
#[derive(Debug, PartialEq, Eq)]
pub struct SettleResponse {
    pub competition_id: u64,
    pub payouts_json: String,
    pub status: String,
}

/// Acknowledgement of a job.
#[derive(Debug, PartialEq, Eq)]
pub struct JobAck {
    pub status: String,
    pub detail: String,
}

impl JobAck {
    /// The acknowledgement says `status` and `detail`.
    pub open spec fn says(self, status: Seq<char>, detail: Seq<char>) -> bool {
        self.status@ == status && self.detail@ == detail
    }
}

fn ack(status: &str, detail: String) -> (r: JobAck)
    ensures
        r.says(status@, detail@),
{
    JobAck { status: status.to_owned(), detail }
}

/// Whether structure and cadence go together: a collaborative competition (1) is not
/// continuous (1).
pub fn knobs_coherent(structure: u8, cadence: u8) -> (r: bool)
    ensures
        r == !(structure == 1 && cadence == 1),
{
    !(structure == 1 && cadence == 1)
}

/// Answers the creation of a competition: knobs that make no sense are rejected.
pub fn create_competition(req: &CreateCompetitionRequest) -> (r: CreateCompetitionResponse)
    ensures
        r.competition_id == 0,
        r.status@ == (if req.structure == 1 && req.cadence == 1 {
            "rejected:incoherent-knobs"@
        } else {
            "accepted"@
        }),
{
    let status = if knobs_coherent(req.structure, req.cadence) {
        "accepted"
    } else {
        "rejected:incoherent-knobs"
    };
    CreateCompetitionResponse { competition_id: 0, status: status.to_owned() }
}

/// Answers a join.
pub fn join(competition_id: u64) -> (r: JobAck)
    ensures
        r.says("joined"@, "competition="@ + decimal(competition_id as nat)),
{
    ack("joined", "competition=".to_owned().concat(to_decimal(competition_id).as_str()))
}

/// Answers a commitment.
pub fn commit_candidate(competition_id: u64) -> (r: JobAck)
    ensures
        r.says("committed"@, "competition="@ + decimal(competition_id as nat)),
{
    ack("committed", "competition=".to_owned().concat(to_decimal(competition_id).as_str()))
}

/// Answers a reveal.
pub fn reveal_candidate(artifact_ref: &str) -> (r: JobAck)
    ensures
        r.says("revealed"@, "artifact="@ + artifact_ref@),
{
    ack("revealed", "artifact=".to_owned().concat(artifact_ref))
}

/// The lift that a report claims.
pub open spec fn reported_lift(req: ReportScoreRequest) -> Lift {
    Lift {
        delta: req.lift_delta,
        ci_lower: req.lift_ci_lower,
        ci_upper: req.lift_ci_upper,
        n: req.n,
    }
}

/// The measurement that a report claims.
pub open spec fn reported_measurement(req: ReportScoreRequest) -> Measurement {
    Measurement {
        value: req.lift_delta,
        ci_lower: req.lift_ci_lower,
        ci_upper: req.lift_ci_upper,
        n: req.n,
        cost: req.cost,
        cost_per_task: req.cost_per_task,
    }
}

/// Answers a reported score with whether it clears the operator's gate.
pub fn report_score(req: &ReportScoreRequest, gate: &Gate) -> (r: JobAck)
    ensures
        r.says(
            "scored"@,
            "candidate="@ + req.candidate_id@ + " gate_clears="@ + truth(
                gate.cleared_by(reported_lift(*req), reported_measurement(*req)),
            ),
        ),
{
    let lift = Lift {
        delta: req.lift_delta,
        ci_lower: req.lift_ci_lower,
        ci_upper: req.lift_ci_upper,
        n: req.n,
    };
    let measurement = Measurement {
        value: req.lift_delta,
        ci_lower: req.lift_ci_lower,
        ci_upper: req.lift_ci_upper,
        n: req.n,
        cost: req.cost,
        cost_per_task: req.cost_per_task,
    };
    let clears = gate.clears(&lift, &measurement);
    let mut detail = "candidate=".to_owned();
    detail.append(req.candidate_id.as_str());
    detail.append(" gate_clears=");
    detail.append(truth_text(clears));
    ack("scored", detail)
}

/// Answers a settlement: nothing is paid here.
pub fn settle(competition_id: u64) -> (r: SettleResponse)
    ensures
        r.competition_id == competition_id,
        r.payouts_json@ == "[]"@,
        r.status@ == "stub:settlement-pending"@,
{
    SettleResponse {
        competition_id,
        payouts_json: "[]".to_owned(),
        status: "stub:settlement-pending".to_owned(),
    }
}

/// Answers a challenge.
pub fn challenge(candidate_id: &str) -> (r: JobAck)
    ensures
        r.says("challenge-opened"@, "candidate="@ + candidate_id@),
{
    ack("challenge-opened", "candidate=".to_owned().concat(candidate_id))
}

/// Answers a tick of the clock.
pub fn tick() -> (r: JobAck)
    ensures
        r.says("tick"@, "swept live competitions for deadlines/epochs"@),
{
    ack("tick", "swept live competitions for deadlines/epochs".to_owned())
}

/// A reported score is judged by the numbers of the report alone.
pub proof fn a_report_is_judged_by_its_own_numbers(req: ReportScoreRequest, gate: Gate)
    requires
        gate.min_lift_ci_lower.finite(),
        req.lift_ci_lower.finite(),
        req.cost_per_task.finite(),
        gate.cost_per_task_ceiling matches Some(c) ==> c.finite(),
        gate.cleared_by(reported_lift(req), reported_measurement(req)),
    ensures
        req.n >= gate.min_n,
        req.lift_ci_lower.scaled() >= gate.min_lift_ci_lower.scaled(),
        gate.cost_per_task_ceiling matches Some(c) ==> req.cost_per_task.scaled() <= c.scaled(),
{
    crate::binary64::key_order_is_value_order(gate.min_lift_ci_lower, req.lift_ci_lower);
    if let Some(c) = gate.cost_per_task_ceiling {
        crate::binary64::key_order_is_value_order(req.cost_per_task, c);
    }
}

/// What is taken from a report is what it says.
pub proof fn a_report_is_taken_at_its_word(req: ReportScoreRequest)
    ensures
        reported_lift(req).delta == req.lift_delta,
        reported_lift(req).ci_lower == req.lift_ci_lower,
        reported_lift(req).ci_upper == req.lift_ci_upper,
        reported_lift(req).n == req.n,
        reported_measurement(req).value == req.lift_delta,
        reported_measurement(req).ci_lower == req.lift_ci_lower,
        reported_measurement(req).ci_upper == req.lift_ci_upper,
        reported_measurement(req).n == req.n,
        reported_measurement(req).cost == req.cost,
        reported_measurement(req).cost_per_task == req.cost_per_task,
{
}

/// What the jobs answer: a creation is rejected exactly where it is collaborative and
/// continuous; a report is answered with its candidate and whether its own numbers clear
/// the promotion gate; the others name what they were asked about.
pub proof fn jobs_answer_what_they_were_asked(
    req: &CreateCompetitionRequest,
    created: CreateCompetitionResponse,
    structure: u8,
    cadence: u8,
    coherent: bool,
    id: u64,
    joined: JobAck,
    committed: JobAck,
    settled: SettleResponse,
    text: &str,
    revealed: JobAck,
    challenged: JobAck,
)
    requires
        call_ensures(create_competition, (req,), created),
        call_ensures(knobs_coherent, (structure, cadence), coherent),
        call_ensures(join, (id,), joined),
        call_ensures(commit_candidate, (id,), committed),
        call_ensures(settle, (id,), settled),
        call_ensures(reveal_candidate, (text,), revealed),
        call_ensures(challenge, (text,), challenged),
    ensures
        req.structure == 1 && req.cadence == 1 ==> created.status@ == "rejected:incoherent-knobs"@,
        req.structure != 1 || req.cadence != 1 ==> created.status@ == "accepted"@,
        coherent <==> structure != 1 || cadence != 1,
        joined.status@ == "joined"@ && joined.detail@ == "competition="@ + decimal(id as nat),
        committed.status@ == "committed"@ && committed.detail@ == "competition="@ + decimal(
            id as nat,
        ),
        settled.competition_id == id && settled.payouts_json@ == "[]"@,
        revealed.status@ == "revealed"@ && revealed.detail@ == "artifact="@ + text@,
        challenged.status@ == "challenge-opened"@ && challenged.detail@ == "candidate="@ + text@,
{
}

/// A report is answered with whether its own numbers clear the promotion gate.
pub proof fn a_report_is_answered_by_the_gate(
    req: &ReportScoreRequest,
    gate: &Gate,
    lift: Lift,
    measurement: Measurement,
    r: JobAck,
)
    requires
        call_ensures(report_score, (req, gate), r),
        lift == (Lift {
            delta: req.lift_delta,
            ci_lower: req.lift_ci_lower,
            ci_upper: req.lift_ci_upper,
            n: req.n,
        }),
        measurement == (Measurement {
            value: req.lift_delta,
            ci_lower: req.lift_ci_lower,
            ci_upper: req.lift_ci_upper,
            n: req.n,
            cost: req.cost,
            cost_per_task: req.cost_per_task,
        }),
    ensures
        r.status@ == "scored"@,
        gate.cleared_by(lift, measurement) ==> r.detail@ == "candidate="@ + req.candidate_id@
            + " gate_clears="@ + "true"@,
        !gate.cleared_by(lift, measurement) ==> r.detail@ == "candidate="@ + req.candidate_id@
            + " gate_clears="@ + "false"@,
{
}

} // verus!
