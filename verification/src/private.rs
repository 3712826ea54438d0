//! The private competitive runner: the one-shot runner with the privacy controls.
//!
//! The tier's capabilities are checked, a tier that touches raw data must demand an
//! enclave and run behind a policy that denies by default, the referee's report must
//! have the shape that was demanded, and researchers are told only what their tier
//! may know.
use crate::attestation::{
    hex_text, keccak256, local_report, verify_structural, AttestationVerdict, LocalReferee, TeeType,
};
use crate::orchestrator::{
    blame, lemma_run_fault_stays, names, rank, ranked_names, run_fault, runs_cover,
    settle_terminal_or_topk, settlement, survivors, CompetitionConfig, FaultView, ProtocolError,
    ResearcherRun, ScoredRun,
};
use crate::order::ranking;
use crate::privacy::{
    copy_egress, feedback_for, opt_egress, redact, EgressPolicy, EgressView, PrivacyError,
    PrivacyFault, PrivacyTier, ResearcherFeedback,
};
use crate::reward::{paid_total, payout_views, Payout, PayoutView};
use crate::text::{decimal, texts, to_decimal};
use crate::traits::{EngineContext, Scorer};
use crate::types::{opt_ref, ArtifactRef, Gate, Lift};
use vstd::prelude::*;

verus! {

/// Configuration of a private competition.
#[derive(Clone, Debug)]
pub struct PrivateCompetitionConfig {
    /// The underlying competition.
    pub base: CompetitionConfig,
    /// The privacy tier.
    pub tier: PrivacyTier,
    /// The enclave that the referee must attest to; [`TeeType::NoTee`] demands none.
    pub required_tee: TeeType,
    /// The policy that researcher code runs under. A tier that touches raw data needs
    /// one that denies by default.
    pub egress: Option<EgressPolicy>,
    /// The proposer's baseline as a sealed handle.
    pub sealed_baseline: ArtifactRef,
}

/// The policy that a tier runs under by default.
pub open spec fn default_policy(tier: PrivacyTier, allowlist: Seq<Seq<char>>) -> Option<EgressView> {
    match tier {
        PrivacyTier::WhiteBoxNoEgress => Some(
            EgressView { allowlist: Seq::empty(), default_deny: true },
        ),
        PrivacyTier::AttestedHarness => Some(EgressView { allowlist, default_deny: true }),
        PrivacyTier::BlackBox | PrivacyTier::RedactedFeedback => None,
    }
}

/// Whether an egress setting is acceptable for a tier: tiers that touch raw data need
/// a policy that denies by default.
pub open spec fn egress_fits(tier: PrivacyTier, egress: Option<EgressView>) -> bool {
    tier.attested() ==> egress is Some && egress->0.default_deny
}

impl PrivateCompetitionConfig {
    /// The policy that a tier runs under by default; it always fits the tier.
    pub fn default_egress_for_tier(tier: PrivacyTier, allowlist: Vec<String>) -> (r: Option<
        EgressPolicy,
    >)
        ensures
            opt_egress(r) == default_policy(tier, texts(allowlist@)),
            egress_fits(tier, opt_egress(r)),
    {
        match tier {
            PrivacyTier::WhiteBoxNoEgress => Some(EgressPolicy::no_egress()),
            PrivacyTier::AttestedHarness => Some(EgressPolicy::allowlisted(allowlist)),
            PrivacyTier::BlackBox | PrivacyTier::RedactedFeedback => None,
        }
    }

    /// Why the competition may not run with a referee around the scorer `name`, if it
    /// may not.
    pub open spec fn private_fault(self, name: Seq<char>) -> Option<FaultView> {
        if self.base.setup_fault() is Some {
            self.base.setup_fault()
        } else if self.tier.attested() && self.required_tee == TeeType::NoTee {
            Some(FaultView::Privacy(PrivacyFault::AttestationRequired))
        } else if !egress_fits(self.tier, opt_egress(self.egress)) {
            Some(FaultView::Privacy(PrivacyFault::EgressDenied { host: "*"@ }))
        } else if self.required_tee != TeeType::NoTee && !local_report(name).well_shaped(
            self.required_tee,
        ) {
            Some(FaultView::Privacy(PrivacyFault::AttestationInvalid))
        } else {
            None
        }
    }

    /// The verdict on the referee's report: none is reached where none is demanded.
    pub open spec fn verdict(self) -> AttestationVerdict {
        if self.required_tee == TeeType::NoTee {
            AttestationVerdict::Unverified
        } else {
            AttestationVerdict::StructurallyValid
        }
    }

    /// Checks, before any work, that the competition may run, and tells the verdict on
    /// the referee's report.
    pub fn check_private_setup<Sc: Scorer>(&self, referee: &LocalReferee<Sc>) -> (r: Result<
        AttestationVerdict,
        ProtocolError,
    >)
        requires
            self.base.reward.countable(),
        ensures
            match r {
                Ok(v) => self.private_fault(referee.scorer_name()) is None && v == self.verdict(),
                Err(e) => self.private_fault(referee.scorer_name()) == Some(e@),
            },
    {
        match self.base.check_setup() {
            Ok(()) => {},
            Err(e) => {
                return Err(e);
            },
        }
        match self.tier.capabilities().validate() {
            Ok(()) => {},
            Err(e) => {
                return Err(ProtocolError::Privacy(e));
            },
        }
        if self.tier.requires_attestation() && self.required_tee == TeeType::NoTee {
            return Err(ProtocolError::Privacy(PrivacyError::AttestationRequired));
        }
        if self.tier.requires_attestation() {
            let fits = match &self.egress {
                Some(policy) => policy.default_deny,
                None => false,
            };
            if !fits {
                return Err(
                    ProtocolError::Privacy(PrivacyError::EgressDenied { host: "*".to_owned() }),
                );
            }
        }
        if self.required_tee == TeeType::NoTee {
            return Ok(AttestationVerdict::Unverified);
        }
        let report = referee.attestation_report();
        let verified = verify_structural(&report, self.required_tee);
        if !verified.structural_ok {
            return Err(ProtocolError::Privacy(PrivacyError::AttestationInvalid));
        }
        Ok(verified.verdict)
    }

    /// What the engines of a private competition are told: the baseline only as a
    /// sealed handle, a dev split only where the tier grants raw data, and the policy
    /// that their egress goes through.
    pub fn private_context(&self) -> (ctx: EngineContext)
        ensures
            ctx.competition == self.base.id,
            ctx.baseline_ref@ == self.sealed_baseline@,
            opt_ref(ctx.dev_split_ref) == (if self.tier.grants().raw_data_access {
                Some("sealed-dev:"@ + decimal(self.base.id as nat))
            } else {
                None
            }),
            ctx.budget_wei == self.base.reward_pool_wei,
            opt_egress(ctx.egress_policy) == opt_egress(self.egress),
    {
        let dev_split_ref = if self.tier.capabilities().raw_data_access {
            Some(
                ArtifactRef(
                    "sealed-dev:".to_owned().concat(to_decimal(self.base.id).as_str()),
                ),
            )
        } else {
            None
        };
        EngineContext {
            competition: self.base.id,
            baseline_ref: self.sealed_baseline.clone(),
            dev_split_ref,
            budget_wei: self.base.reward_pool_wei,
            egress_policy: copy_egress(&self.egress),
        }
    }
}

/// What one researcher is shown of their candidate.
#[derive(Clone, Debug, PartialEq)]
pub struct ResearcherView {
    pub researcher: String,
    pub feedback: ResearcherFeedback,
}

/// The result of a private competitive run.
#[derive(Clone, Debug)]
pub struct PrivateOutcome {
    /// Researchers who cleared the promotion gate with their certified lift, best first. This is
    /// the referee's ranking; researchers see only their feedback.
    pub ranked: Vec<(String, Lift)>,
    /// Settled payouts.
    pub payouts: Vec<Payout>,
    /// How many cleared the promotion gate.
    pub winners: usize,
    /// What each researcher is shown, in submission order.
    pub feedback: Vec<ResearcherView>,
    /// The hash of the report that each candidate was scored under, in submission
    /// order.
    pub attestation_hashes: Vec<(String, String)>,
    /// The verdict on the referee's report.
    pub attestation_verdict: AttestationVerdict,
}

/// Why a private run fails, if it does.
pub open spec fn private_run_fault(
    cfg: PrivateCompetitionConfig,
    name: Seq<char>,
    runs: Seq<ScoredRun>,
) -> Option<FaultView> {
    if cfg.private_fault(name) is Some {
        cfg.private_fault(name)
    } else if run_fault(runs) is Some {
        run_fault(runs)
    } else {
        match settlement(
            cfg.base.reward,
            cfg.base.reward_pool_wei,
            names(ranking(survivors(cfg.base.gate, runs))),
        ) {
            Ok(_) => None,
            Err(f) => Some(f),
        }
    }
}

/// The researcher is shown what the tier lets them know of their run.
pub open spec fn shown(view: ResearcherView, run: ScoredRun, tier: PrivacyTier, gate: Gate) -> bool {
    &&& run.result is Ok
    &&& view.researcher@ == run.researcher@
    &&& view.feedback@ == feedback_for(tier, run.result->Ok_0.0, run.result->Ok_0.1, gate)
}

/// Decides a private competition from what came of the outside work. `runs` are the
/// researchers' candidates, scored by the referee, up to the first that failed; without
/// a failure no researcher is left out.
pub fn run_private_competitive<Sc: Scorer>(
    cfg: &PrivateCompetitionConfig,
    referee: &LocalReferee<Sc>,
    researchers: &[ResearcherRun],
    runs: &Vec<ScoredRun>,
) -> (r: Result<PrivateOutcome, ProtocolError>)
    requires
        cfg.base.reward.countable(),
        cfg.private_fault(referee.scorer_name()) is Some || runs_cover(researchers@, runs@),
    ensures
        match r {
            Ok(outcome) => {
                &&& private_run_fault(*cfg, referee.scorer_name(), runs@) is None
                &&& runs@.len() == researchers@.len()
                &&& outcome.ranked@ == ranking(survivors(cfg.base.gate, runs@))
                &&& outcome.winners == outcome.ranked@.len()
                &&& settlement(cfg.base.reward, cfg.base.reward_pool_wei, names(outcome.ranked@))
                    == Ok::<Seq<PayoutView>, FaultView>(payout_views(outcome.payouts@))
                &&& paid_total(payout_views(outcome.payouts@)) <= cfg.base.reward_pool_wei
                &&& outcome.feedback@.len() == runs@.len()
                &&& forall|i: int|
                    0 <= i < runs@.len() ==> shown(
                        #[trigger] outcome.feedback@[i],
                        runs@[i],
                        cfg.tier,
                        cfg.base.gate,
                    )
                &&& outcome.attestation_hashes@.len() == runs@.len()
                &&& forall|i: int|
                    0 <= i < runs@.len() ==> {
                        let (who, hash) = #[trigger] outcome.attestation_hashes@[i];
                        &&& who@ == runs@[i].researcher@
                        &&& hash@ == hex_text(
                            keccak256(local_report(referee.scorer_name()).encoding()),
                        )
                    }
                &&& outcome.attestation_verdict == cfg.verdict()
                &&& !cfg.tier.attested()
            },
            Err(e) => private_run_fault(*cfg, referee.scorer_name(), runs@) == Some(e@),
        },
{
    let attestation_verdict = match cfg.check_private_setup(referee) {
        Ok(v) => v,
        Err(e) => {
            return Err(e);
        },
    };
    let mut found: Vec<(String, Lift)> = Vec::new();
    let mut feedback: Vec<ResearcherView> = Vec::new();
    let mut attestation_hashes: Vec<(String, String)> = Vec::new();
    proof {
        assert(runs@.take(0) =~= Seq::empty());
    }
    for i in 0..runs.len()
        invariant
            cfg.private_fault(referee.scorer_name()) is None,
            run_fault(runs@.take(i as int)) is None,
            found@ == survivors(cfg.base.gate, runs@.take(i as int)),
            feedback@.len() == i,
            forall|j: int|
                0 <= j < i ==> shown(
                    #[trigger] feedback@[j],
                    runs@[j],
                    cfg.tier,
                    cfg.base.gate,
                ),
            attestation_hashes@.len() == i,
            forall|j: int|
                0 <= j < i ==> {
                    let (who, hash) = #[trigger] attestation_hashes@[j];
                    &&& who@ == runs@[j].researcher@
                    &&& hash@ == hex_text(
                        keccak256(local_report(referee.scorer_name()).encoding()),
                    )
                },
    {
        proof {
            assert(runs@.take(i + 1).drop_last() =~= runs@.take(i as int));
        }
        let run = &runs[i];
        let (lift, measurement) = match &run.result {
            Ok(scored) => *scored,
            Err(failure) => {
                proof {
                    lemma_run_fault_stays(runs@, i + 1);
                }
                return Err(blame(failure, run.researcher.as_str()));
            },
        };
        let suite = ArtifactRef(
            "sealed-heldout:".to_owned().concat(to_decimal(cfg.base.id).as_str()),
        );
        if let Ok((evidence, report)) = referee.certify(Ok((lift, measurement)), suite) {
            attestation_hashes.push((run.researcher.clone(), report.hash()));
            let view = redact(cfg.tier, &evidence.lift, &evidence.measurement, &cfg.base.gate);
            feedback.push(ResearcherView { researcher: run.researcher.clone(), feedback: view });
            if cfg.base.gate.clears(&evidence.lift, &evidence.measurement) {
                found.push((run.researcher.clone(), evidence.lift));
            }
        }
    }
    proof {
        assert(runs@.take(runs@.len() as int) =~= runs@);
    }
    let ranked = rank(found);
    let ids = ranked_names(&ranked);
    let payouts = match settle_terminal_or_topk(
        &cfg.base.reward,
        cfg.base.reward_pool_wei,
        ids.as_slice(),
    ) {
        Ok(p) => p,
        Err(e) => {
            return Err(e);
        },
    };
    Ok(
        PrivateOutcome {
            winners: ranked.len(),
            ranked,
            payouts,
            feedback,
            attestation_hashes,
            attestation_verdict,
        },
    )
}

/// A local referee runs in no enclave, so a competition that demands one does not
/// run: whatever else is configured, it fails before any researcher is involved.
pub proof fn local_referee_cannot_stand_in_for_an_enclave(
    cfg: PrivateCompetitionConfig,
    name: Seq<char>,
)
    requires
        cfg.required_tee != TeeType::NoTee || cfg.tier.attested(),
    ensures
        cfg.private_fault(name) is Some,
{
}

// --- What a private competition takes, in plain terms ------------------------

/// The policy of a tier by default: nothing may be reached from the white box, only what
/// is listed from the attested harness, and the others have none. A tier that touches raw
/// data needs one that denies by default; the others need none.
pub proof fn tiers_with_raw_data_need_a_closed_policy(
    tier: PrivacyTier,
    allowlist: Seq<Seq<char>>,
    egress: Option<EgressView>,
    host: Seq<char>,
)
    ensures
        egress_fits(tier, egress) <==> tier is BlackBox || tier is RedactedFeedback || (egress
            is Some && egress->0.default_deny),
        tier is BlackBox || tier is RedactedFeedback ==> default_policy(tier, allowlist) is None,
        tier is WhiteBoxNoEgress ==> default_policy(tier, allowlist) is Some && !default_policy(
            tier,
            allowlist,
        )->0.reaches(host),
        tier is AttestedHarness ==> default_policy(tier, allowlist) is Some && (default_policy(
            tier,
            allowlist,
        )->0.reaches(host) <==> allowlist.contains(host)),
{
}

/// A private competition behind a local referee may run exactly where it could run in
/// public, its tier does not touch raw data and no enclave is demanded; otherwise the
/// earliest reason is told: the setup, a missing demand for an enclave, an open or missing
/// policy, and then a report that is not of the enclave that was demanded.
pub proof fn a_private_run_is_refused_for_its_earliest_reason(
    cfg: PrivateCompetitionConfig,
    name: Seq<char>,
)
    ensures
        ({
            let fault = cfg.private_fault(name);
            let raw = cfg.tier is WhiteBoxNoEgress || cfg.tier is AttestedHarness;
            let closed = cfg.egress is Some && cfg.egress->0.default_deny;
            let sound = cfg.base.setup_fault() is None;
            let demanded = !(cfg.required_tee is NoTee);
            &&& fault is None <==> sound && !raw && !demanded
            &&& !sound ==> fault == cfg.base.setup_fault()
            &&& sound && raw && !demanded ==> fault == Some(
                FaultView::Privacy(PrivacyFault::AttestationRequired),
            )
            &&& sound && raw && demanded && !closed ==> fault == Some(
                FaultView::Privacy(PrivacyFault::EgressDenied { host: "*"@ }),
            )
            &&& sound && demanded && (raw ==> closed) ==> fault == Some(
                FaultView::Privacy(PrivacyFault::AttestationInvalid),
            )
        }),
{
}

/// A private run comes to an outcome exactly where it may run, no candidate failed and
/// its schedule is terminal; the earliest of these that is missing is told.
pub proof fn a_private_run_fails_for_its_earliest_reason(
    cfg: PrivateCompetitionConfig,
    name: Seq<char>,
    runs: Seq<ScoredRun>,
)
    ensures
        ({
            let fault = private_run_fault(cfg, name, runs);
            let allowed = cfg.private_fault(name) is None;
            let terminal = cfg.base.reward is SnapshotTopK || cfg.base.reward is TerminalPrize;
            &&& fault is None <==> allowed && run_fault(runs) is None && terminal
            &&& !allowed ==> fault == cfg.private_fault(name)
            &&& allowed && run_fault(runs) is Some ==> fault == run_fault(runs)
            &&& allowed && run_fault(runs) is None && !terminal ==> fault == Some(
                FaultView::UnsupportedReward(cfg.base.reward),
            )
        }),
        cfg.required_tee is NoTee ==> cfg.verdict() is Unverified,
        !(cfg.required_tee is NoTee) ==> cfg.verdict() is StructurallyValid,
{
}

/// What a researcher is shown is their own result, as far as their tier tells it.
pub proof fn a_researcher_is_shown_their_own_result(
    view: ResearcherView,
    run: ScoredRun,
    tier: PrivacyTier,
    gate: Gate,
)
    requires
        shown(view, run, tier, gate),
    ensures
        run.result is Ok,
        view.researcher@ == run.researcher@,
        view.feedback@ == feedback_for(tier, run.result->Ok_0.0, run.result->Ok_0.1, gate),
        view.feedback@.verdict() == gate.cleared_by(run.result->Ok_0.0, run.result->Ok_0.1),
{
}

// --- What the operations answer ----------------------------------------------

/// A private competition behind a local referee may run exactly where it could run in
/// public, its tier grants no raw data and no enclave is demanded; then no verdict on an
/// enclave is claimed.
pub proof fn a_local_referee_runs_only_without_raw_data<Sc: Scorer>(
    cfg: &PrivateCompetitionConfig,
    referee: &LocalReferee<Sc>,
    r: Result<AttestationVerdict, ProtocolError>,
)
    requires
        call_ensures(PrivateCompetitionConfig::check_private_setup::<Sc>, (cfg, referee), r),
    ensures
        r is Ok <==> {
            &&& cfg.base.knobs.structure is Competitive || cfg.base.knobs.cadence is OneShot
            &&& cfg.base.reward.fault() is None
            &&& cfg.tier is BlackBox || cfg.tier is RedactedFeedback
            &&& cfg.required_tee is NoTee
        },
        r matches Ok(v) ==> v is Unverified,
{
    a_private_run_is_refused_for_its_earliest_reason(*cfg, referee.scorer_name());
}

/// What a private competition comes to. Those who cleared the promotion gate are ranked as
/// in public; each researcher is shown their own result, cut to the tier, in the order of
/// the runs; and no more than the pool is paid.
pub proof fn a_private_competition_shows_each_their_own<Sc: Scorer>(
    cfg: &PrivateCompetitionConfig,
    referee: &LocalReferee<Sc>,
    researchers: &[ResearcherRun],
    runs: &Vec<ScoredRun>,
    r: Result<PrivateOutcome, ProtocolError>,
    i: int,
)
    requires
        call_ensures(run_private_competitive::<Sc>, (cfg, referee, researchers, runs), r),
        0 <= i < runs@.len(),
    ensures
        r is Ok <==> {
            &&& cfg.base.knobs.structure is Competitive || cfg.base.knobs.cadence is OneShot
            &&& cfg.base.reward.fault() is None
            &&& cfg.base.reward is SnapshotTopK || cfg.base.reward is TerminalPrize
            &&& cfg.tier is BlackBox || cfg.tier is RedactedFeedback
            &&& cfg.required_tee is NoTee
            &&& forall|k: int| 0 <= k < runs@.len() ==> (#[trigger] runs@[k]).result is Ok
        },
        r matches Ok(outcome) ==> {
            let told = outcome.feedback@[i].feedback@;
            let (lift, measurement) = runs@[i].result->Ok_0;
            &&& outcome.ranked@ == ranking(survivors(cfg.base.gate, runs@))
            &&& outcome.winners == outcome.ranked@.len()
            &&& outcome.feedback@.len() == runs@.len()
            &&& outcome.feedback@[i].researcher@ == runs@[i].researcher@
            &&& told.verdict() == cfg.base.gate.cleared_by(lift, measurement)
            &&& !(told is Full)
            &&& cfg.tier is BlackBox ==> told is Verdict
            &&& outcome.attestation_hashes@[i].0@ == runs@[i].researcher@
            &&& outcome.attestation_hashes@[i].1@ == hex_text(
                keccak256(local_report(referee.scorer_name()).encoding()),
            )
            &&& outcome.attestation_verdict is Unverified
            &&& paid_total(payout_views(outcome.payouts@)) <= cfg.base.reward_pool_wei
        },
{
    a_private_run_is_refused_for_its_earliest_reason(*cfg, referee.scorer_name());
    a_private_run_fails_for_its_earliest_reason(*cfg, referee.scorer_name(), runs@);
    crate::orchestrator::the_first_failed_run_is_told(runs@);
    if let Ok(outcome) = r {
        assert(shown(outcome.feedback@[i], runs@[i], cfg.tier, cfg.base.gate));
        let (who, hash) = outcome.attestation_hashes@[i];
        assert(who@ == runs@[i].researcher@);
    }
}

/// A private engine is told a sealed baseline, the dev split only where the tier grants
/// raw data, the pool and the policy that it runs under; the policy of a tier by default
/// reaches nothing from the white box and only what is listed from the harness.
pub proof fn a_private_engine_sees_what_its_tier_grants(
    cfg: &PrivateCompetitionConfig,
    ctx: EngineContext,
    tier: PrivacyTier,
    allowlist: Vec<String>,
    policy: Option<EgressPolicy>,
    host: Seq<char>,
)
    requires
        call_ensures(PrivateCompetitionConfig::private_context, (cfg,), ctx),
        call_ensures(PrivateCompetitionConfig::default_egress_for_tier, (tier, allowlist), policy),
    ensures
        ctx.competition == cfg.base.id,
        ctx.baseline_ref@ == cfg.sealed_baseline@,
        ctx.dev_split_ref is Some <==> cfg.tier is WhiteBoxNoEgress || cfg.tier is AttestedHarness,
        ctx.budget_wei == cfg.base.reward_pool_wei,
        opt_egress(ctx.egress_policy) == opt_egress(cfg.egress),
        policy is Some <==> tier is WhiteBoxNoEgress || tier is AttestedHarness,
        policy matches Some(p) ==> p.default_deny && (p@.reaches(host) <==> tier is AttestedHarness
            && texts(allowlist@).contains(host)),
{
    tiers_with_raw_data_need_a_closed_policy(tier, texts(allowlist@), None, host);
}

} // verus!
