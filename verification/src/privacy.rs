//! Privacy tiers, researcher capabilities, gated feedback and brokered egress.
use crate::binary64::{key_order_is_value_order, Binary64};
use crate::text::{decimal, lists_text, texts, to_decimal};
use crate::types::{Gate, Lift, Measurement};
use vstd::prelude::*;

verus! {

/// Errors of the privacy layer. A setting that would weaken a guarantee is
/// rejected, never quietly downgraded.
#[derive(Debug, PartialEq, Eq)]
pub enum PrivacyError {
    /// Arbitrary code, raw data access and free egress were all granted.
    AllThreeCapabilities,
    /// A destination was not on the brokered allowlist.
    EgressDenied { host: String },
    /// A tier that relies on attestation was run without demanding one.
    AttestationRequired,
    /// An attestation did not pass the structural check.
    AttestationInvalid,
}

impl Clone for PrivacyError {
    fn clone(&self) -> (r: Self)
        ensures
            r == *self,
    {
        match self {
            PrivacyError::AllThreeCapabilities => PrivacyError::AllThreeCapabilities,
            PrivacyError::EgressDenied { host } => PrivacyError::EgressDenied {
                host: host.clone(),
            },
            PrivacyError::AttestationRequired => PrivacyError::AttestationRequired,
            PrivacyError::AttestationInvalid => PrivacyError::AttestationInvalid,
        }
    }
}

impl PrivacyError {
    /// What the error says.
    pub open spec fn said(self) -> Seq<char> {
        match self {
            PrivacyError::AllThreeCapabilities => {
                "researcher capabilities {arbitrary_code, raw_data_access, free_egress} are all true: this is exfiltration-by-design (PRIVACY §4); a privacy tier must drop one"@
            },
            PrivacyError::EgressDenied { host } => {
                "egress to "@ + host@ + " denied: not on the brokered allowlist (PRIVACY §6)"@
            },
            PrivacyError::AttestationRequired => {
                "this tier requires a TEE attestation but none was supplied (PRIVACY §7)"@
            },
            PrivacyError::AttestationInvalid => {
                "attestation failed structural validation (PRIVACY §12); it cannot back a private run"@
            },
        }
    }

    /// The error as a message.
    pub fn message(&self) -> (r: String)
        ensures
            r@ == self.said(),
    {
        match self {
            PrivacyError::AllThreeCapabilities => "researcher capabilities {arbitrary_code, raw_data_access, free_egress} are all true: this is exfiltration-by-design (PRIVACY §4); a privacy tier must drop one".to_owned(),
            PrivacyError::EgressDenied { host } => {
                let mut out = "egress to ".to_owned();
                out.append(host.as_str());
                out.append(" denied: not on the brokered allowlist (PRIVACY §6)");
                out
            },
            PrivacyError::AttestationRequired => "this tier requires a TEE attestation but none was supplied (PRIVACY §7)".to_owned(),
            PrivacyError::AttestationInvalid => "attestation failed structural validation (PRIVACY §12); it cannot back a private run".to_owned(),
        }
    }
}

/// What a privacy error says.
pub enum PrivacyFault {
    AllThreeCapabilities,
    EgressDenied { host: Seq<char> },
    AttestationRequired,
    AttestationInvalid,
}

impl View for PrivacyError {
    type V = PrivacyFault;

    open spec fn view(&self) -> PrivacyFault {
        match *self {
            PrivacyError::AllThreeCapabilities => PrivacyFault::AllThreeCapabilities,
            PrivacyError::EgressDenied { host } => PrivacyFault::EgressDenied { host: host@ },
            PrivacyError::AttestationRequired => PrivacyFault::AttestationRequired,
            PrivacyError::AttestationInvalid => PrivacyFault::AttestationInvalid,
        }
    }
}

/// What a researcher's code may do inside a competition.
#[derive(Clone, Copy, Debug, PartialEq, Eq, Structural)]
pub struct ResearcherCapabilities {
    /// The researcher ships a program rather than settings for a fixed harness.
    pub arbitrary_code: bool,
    /// The researcher's code can read the proposer's raw data.
    pub raw_data_access: bool,
    /// The researcher's code can open arbitrary network sockets.
    pub free_egress: bool,
}

impl ResearcherCapabilities {
    /// At most two of the three capabilities are granted.
    pub open spec fn safe(self) -> bool {
        !(self.arbitrary_code && self.raw_data_access && self.free_egress)
    }

    /// How many capabilities are granted.
    pub open spec fn granted(self) -> int {
        (if self.arbitrary_code { 1int } else { 0 }) + (if self.raw_data_access { 1int } else { 0 })
            + (if self.free_egress { 1int } else { 0 })
    }

    /// Whether the capabilities cannot export data: not all three are granted.
    pub fn exfiltration_safe(&self) -> (r: bool)
        ensures
            r == self.safe(),
    {
        !(self.arbitrary_code && self.raw_data_access && self.free_egress)
    }

    /// Rejects the one combination that the rule forbids.
    pub fn validate(&self) -> (r: Result<(), PrivacyError>)
        ensures
            r is Ok <==> self.safe(),
            r matches Err(e) ==> e == PrivacyError::AllThreeCapabilities,
    {
        if self.exfiltration_safe() {
            Ok(())
        } else {
            Err(PrivacyError::AllThreeCapabilities)
        }
    }
}

/// The privacy tier of a private competition: each names the one capability that
/// it drops.
#[derive(Clone, Copy, Debug, PartialEq, Eq, Structural)]
pub enum PrivacyTier {
    /// No raw data access; the researcher sees only a score.
    BlackBox,
    /// No raw data access; the feedback is widened to aggregate diagnostics.
    RedactedFeedback,
    /// No free egress; arbitrary code runs on the raw data without a network.
    WhiteBoxNoEgress,
    /// No arbitrary code; settings go into a measured harness that has raw data and
    /// brokered egress.
    AttestedHarness,
}

impl PrivacyTier {
    /// The capabilities that the tier grants.
    pub open spec fn grants(self) -> ResearcherCapabilities {
        ResearcherCapabilities {
            arbitrary_code: self != PrivacyTier::AttestedHarness,
            raw_data_access: self == PrivacyTier::WhiteBoxNoEgress || self
                == PrivacyTier::AttestedHarness,
            free_egress: self != PrivacyTier::WhiteBoxNoEgress,
        }
    }

    /// Whether the tier's safety rests on an attested enclave: those that let the
    /// researcher's side touch raw data.
    pub open spec fn attested(self) -> bool {
        self == PrivacyTier::WhiteBoxNoEgress || self == PrivacyTier::AttestedHarness
    }

    /// The name of the capability that the tier drops.
    pub open spec fn dropped(self) -> Seq<char> {
        match self {
            PrivacyTier::BlackBox | PrivacyTier::RedactedFeedback => "raw_data_access"@,
            PrivacyTier::WhiteBoxNoEgress => "free_egress"@,
            PrivacyTier::AttestedHarness => "arbitrary_code"@,
        }
    }

    /// How much a researcher in the tier is told.
    pub open spec fn level(self) -> FeedbackLevel {
        match self {
            PrivacyTier::BlackBox => FeedbackLevel::GateVerdictOnly,
            PrivacyTier::RedactedFeedback => FeedbackLevel::RedactedDiagnostics,
            PrivacyTier::WhiteBoxNoEgress | PrivacyTier::AttestedHarness => {
                FeedbackLevel::FullPlaintext
            },
        }
    }

    /// The single capability that this tier drops.
    pub fn dropped_capability(&self) -> (r: &'static str)
        ensures
            r@ == self.dropped(),
    {
        match self {
            PrivacyTier::BlackBox | PrivacyTier::RedactedFeedback => "raw_data_access",
            PrivacyTier::WhiteBoxNoEgress => "free_egress",
            PrivacyTier::AttestedHarness => "arbitrary_code",
        }
    }

    /// The capabilities that this tier grants.
    pub fn capabilities(&self) -> (r: ResearcherCapabilities)
        ensures
            r == self.grants(),
            r.safe(),
    {
        match self {
            PrivacyTier::BlackBox | PrivacyTier::RedactedFeedback => ResearcherCapabilities {
                arbitrary_code: true,
                raw_data_access: false,
                free_egress: true,
            },
            PrivacyTier::WhiteBoxNoEgress => ResearcherCapabilities {
                arbitrary_code: true,
                raw_data_access: true,
                free_egress: false,
            },
            PrivacyTier::AttestedHarness => ResearcherCapabilities {
                arbitrary_code: false,
                raw_data_access: true,
                free_egress: true,
            },
        }
    }

    /// Whether this tier's safety relies on an attested referee or harness.
    pub fn requires_attestation(&self) -> (r: bool)
        ensures
            r == self.attested(),
    {
        matches!(self, PrivacyTier::WhiteBoxNoEgress | PrivacyTier::AttestedHarness)
    }

    /// What kind of feedback a researcher in this tier may receive.
    pub fn feedback_level(&self) -> (r: FeedbackLevel)
        ensures
            r == self.level(),
    {
        match self {
            PrivacyTier::BlackBox => FeedbackLevel::GateVerdictOnly,
            PrivacyTier::RedactedFeedback => FeedbackLevel::RedactedDiagnostics,
            PrivacyTier::WhiteBoxNoEgress | PrivacyTier::AttestedHarness => {
                FeedbackLevel::FullPlaintext
            },
        }
    }
}

/// Every tier drops exactly one of the three capabilities, the one that it names,
/// and so satisfies the rule against holding all three.
pub proof fn every_tier_drops_one_capability(tier: PrivacyTier)
    ensures
        tier.grants().granted() == 2,
        tier.grants().safe(),
        tier.dropped() == "raw_data_access"@ <==> !tier.grants().raw_data_access,
        tier.dropped() == "free_egress"@ <==> !tier.grants().free_egress,
        tier.dropped() == "arbitrary_code"@ <==> !tier.grants().arbitrary_code,
{
    reveal_strlit("raw_data_access");
    reveal_strlit("free_egress");
    reveal_strlit("arbitrary_code");
    assert("raw_data_access"@.len() == 15);
    assert("free_egress"@.len() == 11);
    assert("arbitrary_code"@.len() == 14);
}

/// How much the feedback to a researcher may carry, from least to most.
#[derive(Clone, Copy, Debug, PartialEq, Eq, Structural)]
pub enum FeedbackLevel {
    /// A single bit: whether the promotion gate was cleared.
    GateVerdictOnly,
    /// A coarse summary without the exact lift.
    RedactedDiagnostics,
    /// The full lift and measurement.
    FullPlaintext,
}

/// The feedback to a researcher for one scored candidate.
#[derive(Clone, Debug, PartialEq)]
pub enum ResearcherFeedback {
    /// Only whether the promotion gate was cleared.
    Verdict { cleared_gate: bool },
    /// A coarse summary and the promotion gate verdict.
    Redacted { summary: String, cleared_gate: bool },
    /// The full lift and measurement, and the promotion gate verdict.
    Full { lift: Lift, measurement: Measurement, cleared_gate: bool },
}

/// What feedback says.
pub enum FeedbackView {
    Verdict { cleared_gate: bool },
    Redacted { summary: Seq<char>, cleared_gate: bool },
    Full { lift: Lift, measurement: Measurement, cleared_gate: bool },
}

impl View for ResearcherFeedback {
    type V = FeedbackView;

    open spec fn view(&self) -> FeedbackView {
        match *self {
            ResearcherFeedback::Verdict { cleared_gate } => FeedbackView::Verdict { cleared_gate },
            ResearcherFeedback::Redacted { summary, cleared_gate } => FeedbackView::Redacted {
                summary: summary@,
                cleared_gate,
            },
            ResearcherFeedback::Full { lift, measurement, cleared_gate } => FeedbackView::Full {
                lift,
                measurement,
                cleared_gate,
            },
        }
    }
}

impl FeedbackView {
    /// The verdict that the feedback carries.
    pub open spec fn verdict(self) -> bool {
        match self {
            FeedbackView::Verdict { cleared_gate } => cleared_gate,
            FeedbackView::Redacted { summary, cleared_gate } => cleared_gate,
            FeedbackView::Full { lift, measurement, cleared_gate } => cleared_gate,
        }
    }
}

impl ResearcherFeedback {
    /// Whether the promotion gate was cleared, which every level of feedback tells.
    pub fn cleared_gate(&self) -> (r: bool)
        ensures
            r == self@.verdict(),
    {
        match self {
            ResearcherFeedback::Verdict { cleared_gate } => *cleared_gate,
            ResearcherFeedback::Redacted { summary: _, cleared_gate } => *cleared_gate,
            ResearcherFeedback::Full { lift: _, measurement: _, cleared_gate } => *cleared_gate,
        }
    }
}

/// The bits of five hundredths: where a small improvement ends.
pub const SMALL_BAND_END_BITS: u64 = 0x3fa9_9999_9999_999a;

/// The bits of two tenths: where a moderate improvement ends.
pub const MODERATE_BAND_END_BITS: u64 = 0x3fc9_9999_9999_999a;

/// The band that a lift falls in.
pub open spec fn band(delta: Binary64) -> Seq<char> {
    if !delta.finite() || !delta.positive() {
        "none"@
    } else if delta.lt_spec(Binary64 { bits: SMALL_BAND_END_BITS }) {
        "small"@
    } else if delta.lt_spec(Binary64 { bits: MODERATE_BAND_END_BITS }) {
        "moderate"@
    } else {
        "large"@
    }
}

/// The floor that an episode count is reported as.
pub open spec fn episode_floor(n: u32) -> u32 {
    if n < 12 {
        0
    } else if n < 50 {
        12
    } else if n < 200 {
        50
    } else {
        200
    }
}

/// A truth value as text.
pub open spec fn truth(b: bool) -> Seq<char> {
    if b {
        "true"@
    } else {
        "false"@
    }
}

/// The coarse summary of a result.
pub open spec fn summary_text(cleared: bool, delta: Binary64, n: u32) -> Seq<char> {
    "cleared="@ + truth(cleared) + "; improvement_band="@ + band(delta) + "; episodes>="@ + decimal(
        episode_floor(n) as nat,
    )
}

/// What a researcher in `tier` is told of a result.
pub open spec fn feedback_for(
    tier: PrivacyTier,
    lift: Lift,
    measurement: Measurement,
    gate: Gate,
) -> FeedbackView {
    let cleared = gate.cleared_by(lift, measurement);
    match tier.level() {
        FeedbackLevel::GateVerdictOnly => FeedbackView::Verdict { cleared_gate: cleared },
        FeedbackLevel::RedactedDiagnostics => FeedbackView::Redacted {
            summary: summary_text(cleared, lift.delta, measurement.n),
            cleared_gate: cleared,
        },
        FeedbackLevel::FullPlaintext => FeedbackView::Full {
            lift,
            measurement,
            cleared_gate: cleared,
        },
    }
}

/// Gates a measured result down to what a researcher in `tier` may see.
pub fn redact(tier: PrivacyTier, lift: &Lift, measurement: &Measurement, gate: &Gate) -> (r:
    ResearcherFeedback)
    ensures
        r@ == feedback_for(tier, *lift, *measurement, *gate),
{
    let cleared = gate.clears(lift, measurement);
    match tier.feedback_level() {
        FeedbackLevel::GateVerdictOnly => ResearcherFeedback::Verdict { cleared_gate: cleared },
        FeedbackLevel::RedactedDiagnostics => {
            let mut summary = "cleared=".to_owned();
            summary.append(truth_text(cleared));
            summary.append("; improvement_band=");
            summary.append(improvement_band(lift.delta));
            summary.append("; episodes>=");
            summary.append(to_decimal(bucket_n(measurement.n) as u64).as_str());
            ResearcherFeedback::Redacted { summary, cleared_gate: cleared }
        },
        FeedbackLevel::FullPlaintext => ResearcherFeedback::Full {
            lift: *lift,
            measurement: *measurement,
            cleared_gate: cleared,
        },
    }
}

/// A truth value as text.
pub fn truth_text(b: bool) -> (r: &'static str)
    ensures
        r@ == truth(b),
{
    if b {
        "true"
    } else {
        "false"
    }
}

/// The coarse band of a lift: the band is reported, never the number.
pub fn improvement_band(delta: Binary64) -> (r: &'static str)
    ensures
        r@ == band(delta),
{
    if !delta.is_finite() || !delta.is_positive() {
        "none"
    } else if delta.less_than(Binary64 { bits: SMALL_BAND_END_BITS }) {
        "small"
    } else if delta.less_than(Binary64 { bits: MODERATE_BAND_END_BITS }) {
        "moderate"
    } else {
        "large"
    }
}

/// A floor on the episode count, in place of the count.
pub fn bucket_n(n: u32) -> (r: u32)
    ensures
        r == episode_floor(n),
        r <= n,
{
    if n < 12 {
        0
    } else if n < 50 {
        12
    } else if n < 200 {
        50
    } else {
        200
    }
}

/// A black-box researcher learns the promotion gate verdict and nothing else: results with
/// the same verdict are answered alike, whatever lift was measured.
pub proof fn black_box_withholds_the_lift(
    a: Lift,
    ma: Measurement,
    b: Lift,
    mb: Measurement,
    gate: Gate,
)
    requires
        gate.cleared_by(a, ma) == gate.cleared_by(b, mb),
    ensures
        feedback_for(PrivacyTier::BlackBox, a, ma, gate) == feedback_for(
            PrivacyTier::BlackBox,
            b,
            mb,
            gate,
        ),
{
}

/// Redacted feedback tells the verdict, the band and the episode floor: results
/// that agree on these are answered alike.
pub proof fn redacted_feedback_tells_only_bands(
    a: Lift,
    ma: Measurement,
    b: Lift,
    mb: Measurement,
    gate: Gate,
)
    requires
        gate.cleared_by(a, ma) == gate.cleared_by(b, mb),
        band(a.delta) == band(b.delta),
        episode_floor(ma.n) == episode_floor(mb.n),
    ensures
        feedback_for(PrivacyTier::RedactedFeedback, a, ma, gate) == feedback_for(
            PrivacyTier::RedactedFeedback,
            b,
            mb,
            gate,
        ),
{
}

/// At every tier, and under any gate, the feedback carries the verdict of the promotion
/// gate that was applied.
pub proof fn feedback_carries_the_verdict(
    tier: PrivacyTier,
    lift: Lift,
    measurement: Measurement,
    gate: Gate,
)
    ensures
        feedback_for(tier, lift, measurement, gate).verdict() == gate.cleared_by(lift, measurement),
{
}

/// A cap on the scoring submissions of one researcher.
#[derive(Clone, Copy, Debug, PartialEq, Eq, Structural)]
pub struct SubmissionBudget {
    pub max_submissions: u32,
    pub used: u32,
}

impl SubmissionBudget {
    /// Submissions that are left.
    pub open spec fn left(self) -> int {
        if self.used < self.max_submissions {
            self.max_submissions - self.used
        } else {
            0
        }
    }

    /// A budget of which nothing is used.
    pub fn new(max_submissions: u32) -> (r: Self)
        ensures
            r.max_submissions == max_submissions,
            r.used == 0,
            r.left() == max_submissions,
    {
        SubmissionBudget { max_submissions, used: 0 }
    }

    /// Whether another submission is within budget.
    pub fn has_remaining(&self) -> (r: bool)
        ensures
            r == (self.left() > 0),
    {
        self.used < self.max_submissions
    }

    /// Uses one submission if one is left; tells whether it did.
    pub fn try_consume(&mut self) -> (r: bool)
        ensures
            r == (old(self).left() > 0),
            final(self).max_submissions == old(self).max_submissions,
            final(self).used == old(self).used + (if r { 1int } else { 0 }),
            final(self).left() == old(self).left() - (if r { 1int } else { 0 }),
    {
        if self.has_remaining() {
            self.used = self.used + 1;
            true
        } else {
            false
        }
    }

    /// Submissions that are left.
    pub fn remaining(&self) -> (r: u32)
        ensures
            r == self.left(),
    {
        if self.used < self.max_submissions {
            self.max_submissions - self.used
        } else {
            0
        }
    }
}

/// A brokered-egress policy: which destinations may be reached.
#[derive(Debug, PartialEq, Eq)]
pub struct EgressPolicy {
    /// Host names that may be reached, matched exactly.
    pub allowlist: Vec<String>,
    /// Whether a host that is not listed is denied.
    pub default_deny: bool,
}

/// What an egress policy says.
pub struct EgressView {
    pub allowlist: Seq<Seq<char>>,
    pub default_deny: bool,
}

impl View for EgressPolicy {
    type V = EgressView;

    open spec fn view(&self) -> EgressView {
        EgressView { allowlist: texts(self.allowlist@), default_deny: self.default_deny }
    }
}

/// What an optional egress policy says.
pub open spec fn opt_egress(p: Option<EgressPolicy>) -> Option<EgressView> {
    match p {
        Some(e) => Some(e@),
        None => None,
    }
}

impl EgressView {
    /// Whether `host` may be reached.
    pub open spec fn reaches(self, host: Seq<char>) -> bool {
        self.allowlist.contains(host) || !self.default_deny
    }
}

impl Clone for EgressPolicy {
    fn clone(&self) -> (r: Self)
        ensures
            r@ == self@,
    {
        EgressPolicy {
            allowlist: crate::text::copy_texts(&self.allowlist),
            default_deny: self.default_deny,
        }
    }
}

/// A copy of an optional policy.
pub fn copy_egress(p: &Option<EgressPolicy>) -> (r: Option<EgressPolicy>)
    ensures
        opt_egress(r) == opt_egress(*p),
{
    match p {
        Some(e) => Some(e.clone()),
        None => None,
    }
}

impl EgressPolicy {
    /// A policy that denies everything except `allowlist`.
    pub fn allowlisted(allowlist: Vec<String>) -> (r: Self)
        ensures
            r@ == (EgressView { allowlist: texts(allowlist@), default_deny: true }),
    {
        EgressPolicy { allowlist, default_deny: true }
    }

    /// A policy under which nothing can be reached.
    pub fn no_egress() -> (r: Self)
        ensures
            r@ == (EgressView { allowlist: Seq::empty(), default_deny: true }),
            forall|host: Seq<char>| !#[trigger] r@.reaches(host),
    {
        let r = EgressPolicy { allowlist: Vec::new(), default_deny: true };
        proof {
            assert(r@.allowlist =~= Seq::empty());
        }
        r
    }

    /// Whether `host` can be reached under this policy.
    pub fn allows(&self, host: &str) -> (r: bool)
        ensures
            r == self@.reaches(host@),
    {
        if lists_text(&self.allowlist, host) {
            return true;
        }
        !self.default_deny
    }

    /// `Ok` if `host` can be reached, else an error that names it.
    pub fn check(&self, host: &str) -> (r: Result<(), PrivacyError>)
        ensures
            r is Ok <==> self@.reaches(host@),
            r matches Err(e) ==> e matches PrivacyError::EgressDenied { host: h } && h@ == host@,
    {
        if self.allows(host) {
            Ok(())
        } else {
            Err(PrivacyError::EgressDenied { host: host.to_owned() })
        }
    }
}

// --- What a tier means, in plain terms ---------------------------------------

/// What each tier lets a researcher do: code of their own except in the attested harness,
/// raw data only in the two tiers whose safety rests on attestation, and free egress
/// except in the white box. What may not export data is whatever lacks one of the three.
pub proof fn tiers_grant_all_but_what_they_drop(tier: PrivacyTier, c: ResearcherCapabilities)
    ensures
        tier.grants().arbitrary_code <==> !(tier is AttestedHarness),
        tier.grants().raw_data_access <==> tier is WhiteBoxNoEgress || tier is AttestedHarness,
        tier.grants().free_egress <==> !(tier is WhiteBoxNoEgress),
        tier.attested() <==> tier.grants().raw_data_access,
        c.safe() <==> !c.arbitrary_code || !c.raw_data_access || !c.free_egress,
        c.safe() <==> c.granted() < 3,
{
}

/// What each tier tells: the black box the verdict alone, redacted feedback the verdict
/// and a summary of it, the band and the floor, and the tiers that see the data the whole
/// result as it was measured.
pub proof fn tiers_tell_as_much_as_they_may(
    tier: PrivacyTier,
    lift: Lift,
    measurement: Measurement,
    gate: Gate,
)
    ensures
        ({
            let told = feedback_for(tier, lift, measurement, gate);
            let cleared = gate.cleared_by(lift, measurement);
            &&& tier is BlackBox ==> told == (FeedbackView::Verdict { cleared_gate: cleared })
            &&& tier is RedactedFeedback ==> told == (FeedbackView::Redacted {
                summary: "cleared="@ + (if cleared {
                    "true"@
                } else {
                    "false"@
                }) + "; improvement_band="@ + band(lift.delta) + "; episodes>="@ + decimal(
                    episode_floor(measurement.n) as nat,
                ),
                cleared_gate: cleared,
            })
            &&& tier.grants().raw_data_access ==> told == (FeedbackView::Full {
                lift,
                measurement,
                cleared_gate: cleared,
            })
        }),
{
}

/// The band of a lift: none where it is not a positive number, small below five
/// hundredths, moderate from there and below two tenths, and large from there.
pub proof fn bands_end_at_five_hundredths_and_two_tenths(delta: Binary64)
    ensures
        ({
            let five_hundredths = Binary64 { bits: 0x3fa9_9999_9999_999a };
            let two_tenths = Binary64 { bits: 0x3fc9_9999_9999_999a };
            let counted = delta.finite() && delta.scaled() > 0;
            &&& !counted ==> band(delta) == "none"@
            &&& counted && delta.scaled() < five_hundredths.scaled() ==> band(delta) == "small"@
            &&& counted && five_hundredths.scaled() <= delta.scaled() < two_tenths.scaled()
                ==> band(delta) == "moderate"@
            &&& counted && two_tenths.scaled() <= delta.scaled() ==> band(delta) == "large"@
        }),
{
    let five_hundredths = Binary64 { bits: 0x3fa9_9999_9999_999a };
    let two_tenths = Binary64 { bits: 0x3fc9_9999_9999_999a };
    if delta.finite() {
        key_order_is_value_order(delta, five_hundredths);
        key_order_is_value_order(delta, two_tenths);
        key_order_is_value_order(five_hundredths, two_tenths);
    }
}

/// The floor that is told of an episode count is the greatest of nothing, twelve, fifty
/// and two hundred that the count reaches.
pub proof fn the_told_floor_is_the_greatest_reached(n: u32, floor: u32)
    requires
        floor == 0 || floor == 12 || floor == 50 || floor == 200,
    ensures
        episode_floor(n) <= n,
        floor <= n ==> floor <= episode_floor(n),
        episode_floor(n) == 0 || episode_floor(n) == 12 || episode_floor(n) == 50
            || episode_floor(n) == 200,
{
}

/// Under a policy that denies by default exactly the listed hosts can be reached; under
/// one that does not, every host.
pub proof fn only_listed_hosts_are_reached(policy: EgressView, host: Seq<char>)
    ensures
        policy.default_deny ==> (policy.reaches(host) <==> exists|i: int|
            0 <= i < policy.allowlist.len() && #[trigger] policy.allowlist[i] == host),
        !policy.default_deny ==> policy.reaches(host),
{
}

/// A budget has left what was not used of it, and never less than nothing.
pub proof fn a_budget_has_left_what_was_not_used(budget: SubmissionBudget)
    ensures
        budget.used <= budget.max_submissions ==> budget.left() == budget.max_submissions
            - budget.used,
        budget.used > budget.max_submissions ==> budget.left() == 0,
{
}

// --- What the operations answer ----------------------------------------------

/// What a researcher is told: the verdict alone in the black box; the verdict, a band and
/// a floor where feedback is redacted; everything where the tier grants raw data. The
/// verdict is that of the promotion gate.
pub proof fn feedback_is_cut_to_the_tier(
    tier: PrivacyTier,
    lift: &Lift,
    measurement: &Measurement,
    gate: &Gate,
    told: ResearcherFeedback,
    cleared: bool,
)
    requires
        call_ensures(redact, (tier, lift, measurement, gate), told),
        call_ensures(ResearcherFeedback::cleared_gate, (&told,), cleared),
    ensures
        cleared == gate.cleared_by(*lift, *measurement),
        told is Verdict <==> tier is BlackBox,
        told is Redacted <==> tier is RedactedFeedback,
        told is Full <==> tier is WhiteBoxNoEgress || tier is AttestedHarness,
        told matches ResearcherFeedback::Full { lift: l, measurement: m, cleared_gate } ==> l
            == *lift && m == *measurement,
        told matches ResearcherFeedback::Redacted { summary, cleared_gate } ==> summary@
            == "cleared="@ + (if cleared {
            "true"@
        } else {
            "false"@
        }) + "; improvement_band="@ + band(lift.delta) + "; episodes>="@ + decimal(
            episode_floor(measurement.n) as nat,
        ),
{
    tiers_tell_as_much_as_they_may(tier, *lift, *measurement, *gate);
}

/// The band and the floor that are told of a lift and an episode count.
pub proof fn bands_and_floors_are_coarse(delta: Binary64, n: u32, told: &'static str, floor: u32)
    requires
        call_ensures(improvement_band, (delta,), told),
        call_ensures(bucket_n, (n,), floor),
    ensures
        ({
            let five_hundredths = Binary64 { bits: 0x3fa9_9999_9999_999a };
            let two_tenths = Binary64 { bits: 0x3fc9_9999_9999_999a };
            let counted = delta.finite() && delta.scaled() > 0;
            &&& !counted ==> told@ == "none"@
            &&& counted && delta.scaled() < five_hundredths.scaled() ==> told@ == "small"@
            &&& counted && five_hundredths.scaled() <= delta.scaled() < two_tenths.scaled()
                ==> told@ == "moderate"@
            &&& counted && two_tenths.scaled() <= delta.scaled() ==> told@ == "large"@
        }),
        n < 12 ==> floor == 0,
        12 <= n < 50 ==> floor == 12,
        50 <= n < 200 ==> floor == 50,
        200 <= n ==> floor == 200,
{
    bands_end_at_five_hundredths_and_two_tenths(delta);
}

/// A tier grants all but the one capability that it drops, needs attestation exactly where
/// it grants raw data, and passes the rule that no three be held together.
pub proof fn a_tier_grants_two_of_three(
    tier: &PrivacyTier,
    c: ResearcherCapabilities,
    attested: bool,
    held: &ResearcherCapabilities,
    safe: bool,
    valid: Result<(), PrivacyError>,
)
    requires
        call_ensures(PrivacyTier::capabilities, (tier,), c),
        call_ensures(PrivacyTier::requires_attestation, (tier,), attested),
        call_ensures(ResearcherCapabilities::exfiltration_safe, (held,), safe),
        call_ensures(ResearcherCapabilities::validate, (held,), valid),
    ensures
        c.arbitrary_code <==> !(*tier is AttestedHarness),
        c.raw_data_access <==> *tier is WhiteBoxNoEgress || *tier is AttestedHarness,
        c.free_egress <==> !(*tier is WhiteBoxNoEgress),
        attested == c.raw_data_access,
        safe <==> !(held.arbitrary_code && held.raw_data_access && held.free_egress),
        valid is Ok <==> safe,
{
}

/// A host may be reached exactly where it is listed or the policy does not deny by
/// default; a policy made from a list denies by default, and one without egress reaches
/// nothing.
pub proof fn a_policy_lets_out_to_what_it_lists(
    policy: &EgressPolicy,
    host: &str,
    allowed: bool,
    checked: Result<(), PrivacyError>,
    allowlist: Vec<String>,
    listed: EgressPolicy,
    closed: EgressPolicy,
)
    requires
        call_ensures(EgressPolicy::allows, (policy, host), allowed),
        call_ensures(EgressPolicy::check, (policy, host), checked),
        call_ensures(EgressPolicy::allowlisted, (allowlist,), listed),
        call_ensures(EgressPolicy::no_egress, (), closed),
    ensures
        allowed <==> !policy.default_deny || exists|i: int|
            0 <= i < policy.allowlist@.len() && (#[trigger] policy.allowlist@[i])@ == host@,
        checked is Ok <==> allowed,
        listed.default_deny && listed@.allowlist == texts(allowlist@),
        closed.default_deny && closed@.allowlist.len() == 0,
{
    let all = policy@.allowlist;
    if all.contains(host@) {
        let i = choose|i: int| 0 <= i < all.len() && all[i] == host@;
        assert(policy.allowlist@[i]@ == host@);
    }
    if exists|i: int|
        0 <= i < policy.allowlist@.len() && (#[trigger] policy.allowlist@[i])@ == host@ {
        let i = choose|i: int|
            0 <= i < policy.allowlist@.len() && (#[trigger] policy.allowlist@[i])@ == host@;
        assert(all[i] == host@);
    }
}

/// A budget gives out exactly as many submissions as it holds: each takes one while one is
/// left, and none after that.
pub proof fn a_budget_is_used_up_one_by_one(
    budget: &mut SubmissionBudget,
    used: bool,
    some_left: bool,
    left: u32,
)
    requires
        call_ensures(SubmissionBudget::has_remaining, (&*old(budget),), some_left),
        call_ensures(SubmissionBudget::remaining, (&*old(budget),), left),
        call_ensures(SubmissionBudget::try_consume, (budget,), used),
    ensures
        used <==> old(budget).used < old(budget).max_submissions,
        some_left == used,
        used ==> final(budget).used == old(budget).used + 1 && left == old(budget).max_submissions
            - old(budget).used,
        !used ==> final(budget).used == old(budget).used && left == 0,
        final(budget).max_submissions == old(budget).max_submissions,
{
}

} // verus!
