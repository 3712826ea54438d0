//! Attestation reports, their commitment hash, and the structural check.
use crate::encoding::{
    byte_range, copy_bytes, le_bytes, lemma_le_bytes_injective, lemma_le_bytes_len, push_all,
    push_u64_le,
};
use crate::text::digit_char;
use crate::traits::{Scorer, ScorerError};
use crate::types::{ArtifactRef, Evidence, EvidenceKind, Lift, Measurement};
use sha3::{Digest, Keccak256};
use vstd::prelude::*;
use vstd::utf8::encode_utf8;

verus! {

/// The enclave technology that a report claims to come from.
#[derive(Clone, Copy, Debug, PartialEq, Eq, Structural)]
pub enum TeeType {
    /// No enclave: a local referee.
    NoTee,
    /// Phala / Intel TDX.
    PhalaTdx,
    /// AWS Nitro Enclaves.
    AwsNitro,
    /// GCP Confidential Computing.
    GcpConfidential,
    /// Azure SEV-SNP.
    AzureSnp,
}

impl TeeType {
    /// The byte that stands for the technology in encodings.
    pub open spec fn byte(self) -> u8 {
        match self {
            TeeType::NoTee => 0,
            TeeType::PhalaTdx => 1,
            TeeType::AwsNitro => 2,
            TeeType::GcpConfidential => 3,
            TeeType::AzureSnp => 4,
        }
    }

    /// The name of the technology.
    pub open spec fn name(self) -> Seq<char> {
        match self {
            TeeType::NoTee => "None"@,
            TeeType::PhalaTdx => "PhalaTdx"@,
            TeeType::AwsNitro => "AwsNitro"@,
            TeeType::GcpConfidential => "GcpConfidential"@,
            TeeType::AzureSnp => "AzureSnp"@,
        }
    }

    /// The byte that stands for the technology in encodings.
    pub fn code(self) -> (r: u8)
        ensures
            r == self.byte(),
    {
        match self {
            TeeType::NoTee => 0,
            TeeType::PhalaTdx => 1,
            TeeType::AwsNitro => 2,
            TeeType::GcpConfidential => 3,
            TeeType::AzureSnp => 4,
        }
    }

    /// The name of the technology.
    pub fn label(self) -> (r: &'static str)
        ensures
            r@ == self.name(),
    {
        match self {
            TeeType::NoTee => "None",
            TeeType::PhalaTdx => "PhalaTdx",
            TeeType::AwsNitro => "AwsNitro",
            TeeType::GcpConfidential => "GcpConfidential",
            TeeType::AzureSnp => "AzureSnp",
        }
    }
}

/// A raw attestation report. The bytes are opaque; only the shape is checked.
#[derive(Debug, PartialEq, Eq)]
pub struct AttestationReport {
    pub tee_type: TeeType,
    /// The vendor quote.
    pub evidence: Vec<u8>,
    /// The enclave measurement.
    pub measurement: Vec<u8>,
    /// A challenge against replay.
    pub nonce: Option<Vec<u8>>,
}

/// What a report holds.
pub struct ReportView {
    pub tee_type: TeeType,
    pub evidence: Seq<u8>,
    pub measurement: Seq<u8>,
    pub nonce: Option<Seq<u8>>,
}

impl View for AttestationReport {
    type V = ReportView;

    open spec fn view(&self) -> ReportView {
        ReportView {
            tee_type: self.tee_type,
            evidence: self.evidence@,
            measurement: self.measurement@,
            nonce: match self.nonce {
                Some(n) => Some(n@),
                None => None,
            },
        }
    }
}

/// What an optional report holds.
pub open spec fn opt_report(r: Option<AttestationReport>) -> Option<ReportView> {
    match r {
        Some(a) => Some(a@),
        None => None,
    }
}

impl Clone for AttestationReport {
    fn clone(&self) -> (r: Self)
        ensures
            r@ == self@,
    {
        AttestationReport {
            tee_type: self.tee_type,
            evidence: copy_bytes(self.evidence.as_slice()),
            measurement: copy_bytes(self.measurement.as_slice()),
            nonce: match &self.nonce {
                Some(n) => Some(copy_bytes(n.as_slice())),
                None => None,
            },
        }
    }
}

/// The tag that keeps this hash apart from other commitments.
pub const ATTESTATION_TAG: &'static str = "autoresearch.attestation.v1";

/// Bytes behind their length, so that no field runs into the next.
pub open spec fn length_prefixed(b: Seq<u8>) -> Seq<u8> {
    le_bytes(b.len(), 8) + b
}

/// A nonce, or its absence, as bytes.
pub open spec fn nonce_encoding(n: Option<Seq<u8>>) -> Seq<u8> {
    match n {
        Some(b) => seq![1u8] + length_prefixed(b),
        None => seq![0u8],
    }
}

impl ReportView {
    /// The bytes that the hash of a report commits to.
    pub open spec fn encoding(self) -> Seq<u8> {
        encode_utf8(ATTESTATION_TAG@) + (seq![self.tee_type.byte()] + (length_prefixed(
            self.evidence,
        ) + (length_prefixed(self.measurement) + nonce_encoding(self.nonce))))
    }

    /// The fields have lengths that fit their prefixes.
    pub open spec fn encodable(self) -> bool {
        &&& self.evidence.len() <= u64::MAX
        &&& self.measurement.len() <= u64::MAX
        &&& self.nonce matches Some(n) ==> n.len() <= u64::MAX
    }
}

/// The Keccak-256 digest of a byte string.
pub uninterp spec fn keccak256(bytes: Seq<u8>) -> Seq<u8>;

/// Calls `sha3::Keccak256::digest`. Trusted: the digest is a function of the bytes
/// alone and is 32 bytes long.
#[verifier::external_body]
fn keccak_digest(bytes: &[u8]) -> (d: Vec<u8>)
    ensures
        d@ == keccak256(bytes@),
        d@.len() == 32,
{
    Keccak256::digest(bytes).to_vec()
}

/// Bytes in lower-case hexadecimal, two digits each, the high one first.
pub open spec fn hex_text(b: Seq<u8>) -> Seq<char> {
    Seq::new(
        2 * b.len(),
        |i: int|
            if i % 2 == 0 {
                digit_char(b[i / 2] as int / 16)
            } else {
                digit_char(b[i / 2] as int % 16)
            },
    )
}

/// Calls `hex::encode`. Trusted: each byte becomes two lower-case hexadecimal
/// digits, the high one first.
#[verifier::external_body]
fn hex_encode(bytes: &[u8]) -> (s: String)
    ensures
        s@ == hex_text(bytes@),
{
    hex::encode(bytes)
}

fn push_prefixed(out: &mut Vec<u8>, bytes: &[u8])
    ensures
        final(out)@ == old(out)@ + length_prefixed(bytes@),
{
    let ghost before = out@;
    push_u64_le(out, bytes.len() as u64);
    push_all(out, bytes);
    proof {
        assert(out@ =~= before + length_prefixed(bytes@));
    }
}

impl AttestationReport {
    /// The bytes that [`AttestationReport::hash`] commits to.
    pub fn encode(&self) -> (out: Vec<u8>)
        ensures
            out@ == self@.encoding(),
    {
        let mut out: Vec<u8> = Vec::new();
        push_all(&mut out, ATTESTATION_TAG.as_bytes());
        out.push(self.tee_type.code());
        push_prefixed(&mut out, self.evidence.as_slice());
        push_prefixed(&mut out, self.measurement.as_slice());
        match &self.nonce {
            Some(n) => {
                out.push(1);
                push_prefixed(&mut out, n.as_slice());
            },
            None => {
                out.push(0);
            },
        }
        proof {
            assert(out@ =~= self@.encoding());
        }
        out
    }

    /// The Keccak-256 digest of the report's encoding, hex-encoded. It commits to
    /// the report; it does not verify it.
    pub fn hash(&self) -> (r: String)
        ensures
            r@ == hex_text(keccak256(self@.encoding())),
            r@.len() == 64,
    {
        let bytes = self.encode();
        let digest = keccak_digest(bytes.as_slice());
        hex_encode(digest.as_slice())
    }
}

proof fn lemma_prefixed_splits(a: Seq<u8>, ra: Seq<u8>, b: Seq<u8>, rb: Seq<u8>)
    requires
        a.len() <= u64::MAX,
        b.len() <= u64::MAX,
        length_prefixed(a) + ra == length_prefixed(b) + rb,
    ensures
        a == b,
        ra == rb,
{
    let (s, t) = (length_prefixed(a) + ra, length_prefixed(b) + rb);
    lemma_le_bytes_len(a.len(), 8);
    lemma_le_bytes_len(b.len(), 8);
    assert(le_bytes(a.len(), 8) =~= s.take(8));
    assert(le_bytes(b.len(), 8) =~= t.take(8));
    reveal_with_fuel(byte_range, 9);
    assert(byte_range(8) == 0x1_0000_0000_0000_0000);
    lemma_le_bytes_injective(a.len(), b.len(), 8);
    let end = 8 + a.len() as int;
    assert(a =~= s.subrange(8, end));
    assert(b =~= t.subrange(8, end));
    assert(ra =~= s.skip(end));
    assert(rb =~= t.skip(end));
}

/// Distinct reports have distinct encodings: no field can run into the next, so
/// two reports collide only if the digest itself does.
pub proof fn report_encoding_is_injective(a: ReportView, b: ReportView)
    requires
        a.encodable(),
        b.encodable(),
        a.encoding() == b.encoding(),
    ensures
        a == b,
{
    let tag = encode_utf8(ATTESTATION_TAG@);
    let (ma, mb) = (
        length_prefixed(a.measurement) + nonce_encoding(a.nonce),
        length_prefixed(b.measurement) + nonce_encoding(b.nonce),
    );
    let (ea, eb) = (length_prefixed(a.evidence) + ma, length_prefixed(b.evidence) + mb);
    let (ta, tb) = (seq![a.tee_type.byte()] + ea, seq![b.tee_type.byte()] + eb);
    assert(a.encoding().skip(tag.len() as int) =~= ta);
    assert(b.encoding().skip(tag.len() as int) =~= tb);
    assert(ta[0] == tb[0]);
    assert(ta.skip(1) =~= ea);
    assert(tb.skip(1) =~= eb);
    lemma_prefixed_splits(a.evidence, ma, b.evidence, mb);
    lemma_prefixed_splits(
        a.measurement,
        nonce_encoding(a.nonce),
        b.measurement,
        nonce_encoding(b.nonce),
    );
    let (na, nb) = (nonce_encoding(a.nonce), nonce_encoding(b.nonce));
    assert(na[0] == nb[0]);
    if a.nonce is Some {
        assert(na.skip(1) =~= length_prefixed(a.nonce->0) + Seq::<u8>::empty());
        assert(nb.skip(1) =~= length_prefixed(b.nonce->0) + Seq::<u8>::empty());
        lemma_prefixed_splits(a.nonce->0, Seq::empty(), b.nonce->0, Seq::empty());
    }
}

/// The outcome of attempting to verify an attestation.
#[derive(Clone, Copy, Debug, PartialEq, Eq, Structural)]
pub enum AttestationVerdict {
    /// No verification was attempted.
    Unverified,
    /// The report has the right shape. It does not prove genuine hardware.
    StructurallyValid,
    /// The hardware quote was verified. Nothing returns this.
    Verified,
    /// The report failed validation.
    Failed,
}

/// A verdict with what was and was not checked.
#[derive(Clone, Copy, Debug, PartialEq, Eq, Structural)]
pub struct VerifiedAttestation {
    pub verdict: AttestationVerdict,
    /// Whether the quote's signature was verified.
    pub signature_verified: bool,
    /// Whether the measurement matched a pinned value.
    pub measurement_matched: bool,
    /// Whether the report passed the structural check.
    pub structural_ok: bool,
}

impl VerifiedAttestation {
    /// Whether the attestation is at least structurally valid.
    pub fn is_structurally_valid(&self) -> (r: bool)
        ensures
            r == (self.verdict == AttestationVerdict::StructurallyValid || self.verdict
                == AttestationVerdict::Verified),
    {
        matches!(
            self.verdict,
            AttestationVerdict::StructurallyValid | AttestationVerdict::Verified
        )
    }
}

impl ReportView {
    /// The report claims `required_tee` and neither of its blobs is empty.
    pub open spec fn well_shaped(self, required_tee: TeeType) -> bool {
        self.tee_type == required_tee && self.evidence.len() > 0 && self.measurement.len() > 0
    }
}

/// Checks the shape of a report against a required technology. The shape is all that it
/// looks at, so it never says that a quote was verified.
pub fn verify_structural(report: &AttestationReport, required_tee: TeeType) -> (r:
    VerifiedAttestation)
    ensures
        r == (VerifiedAttestation {
            verdict: if report@.well_shaped(required_tee) {
                AttestationVerdict::StructurallyValid
            } else {
                AttestationVerdict::Failed
            },
            signature_verified: false,
            measurement_matched: false,
            structural_ok: report@.well_shaped(required_tee),
        }),
        r.verdict != AttestationVerdict::Verified,
{
    let type_matches = report.tee_type == required_tee;
    let non_empty = report.evidence.len() > 0 && report.measurement.len() > 0;
    let structural_ok = type_matches && non_empty;
    VerifiedAttestation {
        verdict: if structural_ok {
            AttestationVerdict::StructurallyValid
        } else {
            AttestationVerdict::Failed
        },
        signature_verified: false,
        measurement_matched: false,
        structural_ok,
    }
}

/// A local referee around a scorer: a stand-in that runs in no enclave and says so
/// in the reports that it emits.
#[derive(Clone, Debug)]
pub struct LocalReferee<Sc> {
    scorer: Sc,
    name: String,
}

/// The report of a local referee around a scorer named `name`.
pub open spec fn local_report(name: Seq<char>) -> ReportView {
    ReportView {
        tee_type: TeeType::NoTee,
        evidence: encode_utf8("local-referee:"@ + name),
        measurement: encode_utf8("local-stand-in:no-enclave"@),
        nonce: None,
    }
}

/// The evidence that a local referee certifies.
pub open spec fn certified(
    row: Evidence,
    name: Seq<char>,
    lift: Lift,
    measurement: Measurement,
    suite_ref: Seq<char>,
) -> bool {
    &&& row.kind == EvidenceKind::ReplayFull
    &&& row.lift == lift
    &&& row.measurement == measurement
    &&& !row.confounded
    &&& row.suite_ref@ == suite_ref
    &&& row.attestation_hash@ == hex_text(keccak256(local_report(name).encoding()))
}

impl<Sc: Scorer> LocalReferee<Sc> {
    /// The identifier of the scorer that the referee runs.
    pub closed spec fn scorer_name(self) -> Seq<char> {
        self.name@
    }

    /// The scorer that the referee runs.
    pub closed spec fn instrument(self) -> Sc {
        self.scorer
    }

    /// The scorer that the referee runs.
    pub fn scorer(&self) -> (r: &Sc)
        ensures
            *r == self.instrument(),
    {
        &self.scorer
    }

    /// Wraps a scorer as a local referee.
    pub fn new(scorer: Sc) -> (r: Self)
        ensures
            r.instrument() == scorer,
            exists|id: &str|
                #[trigger] call_ensures(Sc::id, (&scorer,), id) && id@ == r.scorer_name(),
    {
        let name = scorer.id().to_owned();
        LocalReferee { scorer, name }
    }

    /// The report that this referee emits: it names no enclave, and its blobs are
    /// markers of local provenance.
    pub fn attestation_report(&self) -> (r: AttestationReport)
        ensures
            r@ == local_report(self.scorer_name()),
    {
        let evidence = "local-referee:".to_owned().concat(self.name.as_str());
        AttestationReport {
            tee_type: TeeType::NoTee,
            evidence: copy_bytes(evidence.as_str().as_bytes()),
            measurement: copy_bytes("local-stand-in:no-enclave".as_bytes()),
            nonce: None,
        }
    }

    /// Certifies a scored candidate: `scored` is its lift over the baseline and its
    /// measurement, both on the held-out split, or why the scoring failed.
    pub fn certify(
        &self,
        scored: Result<(Lift, Measurement), ScorerError>,
        suite_ref: ArtifactRef,
    ) -> (r: Result<(Evidence, AttestationReport), ScorerError>)
        ensures
            match scored {
                Ok((lift, measurement)) => r matches Ok((row, report)) && certified(
                    row,
                    self.scorer_name(),
                    lift,
                    measurement,
                    suite_ref@,
                ) && report@ == local_report(self.scorer_name()),
                Err(e) => r == Err::<(Evidence, AttestationReport), ScorerError>(e),
            },
    {
        match scored {
            Ok((lift, measurement)) => {
                let report = self.attestation_report();
                let evidence = Evidence {
                    kind: EvidenceKind::ReplayFull,
                    lift,
                    measurement,
                    confounded: false,
                    suite_ref,
                    attestation_hash: report.hash(),
                };
                Ok((evidence, report))
            },
            Err(e) => Err(e),
        }
    }
}

/// A report has the shape that is asked for exactly where it claims that technology and
/// has both evidence and a measurement.
pub proof fn a_report_needs_the_type_evidence_and_a_measurement(
    report: ReportView,
    required_tee: TeeType,
)
    ensures
        report.well_shaped(required_tee) <==> report.tee_type == required_tee
            && report.evidence.len() >= 1 && report.measurement.len() >= 1,
{
}

/// A local referee claims no enclave: its report has the shape that is asked for only
/// where none is asked for, whatever it scores with.
pub proof fn a_local_report_claims_no_enclave(name: Seq<char>, required_tee: TeeType)
    ensures
        local_report(name).tee_type == TeeType::NoTee,
        local_report(name).nonce is None,
        local_report(name).well_shaped(required_tee) ==> required_tee == TeeType::NoTee,
{
}

/// What is certified is what was measured: the row carries the lift and the measurement
/// as they are, is a full replay that is not confounded, and commits to the report.
pub proof fn what_is_certified_is_what_was_measured(
    row: Evidence,
    name: Seq<char>,
    lift: Lift,
    measurement: Measurement,
    suite_ref: Seq<char>,
)
    requires
        certified(row, name, lift, measurement, suite_ref),
    ensures
        row.lift == lift,
        row.measurement == measurement,
        row.suite_ref@ == suite_ref,
        row.kind == EvidenceKind::ReplayFull,
        !row.confounded,
        row.attestation_hash@ == hex_text(keccak256(local_report(name).encoding())),
{
}

// --- What the operations give back -------------------------------------------

/// A report is encoded as the tag, the byte of its technology, its evidence and its
/// measurement, each behind its length in eight bytes, least significant first, and a one
/// and the nonce behind its length, or a zero where there is none.
pub proof fn a_report_is_encoded_field_by_field(report: &AttestationReport, out: Vec<u8>)
    requires
        call_ensures(AttestationReport::encode, (report,), out),
    ensures
        ({
            let tag = encode_utf8("autoresearch.attestation.v1"@);
            let (e, m) = (report.evidence@, report.measurement@);
            out@ == tag + seq![report.tee_type.byte()] + le_bytes(e.len(), 8) + e + le_bytes(
                m.len(),
                8,
            ) + m + match report.nonce {
                Some(n) => seq![1u8] + le_bytes(n@.len(), 8) + n@,
                None => seq![0u8],
            }
        }),
{
    let tag = encode_utf8("autoresearch.attestation.v1"@);
    let (e, m) = (report.evidence@, report.measurement@);
    let nonce = match report.nonce {
        Some(n) => seq![1u8] + le_bytes(n@.len(), 8) + n@,
        None => seq![0u8],
    };
    assert(nonce_encoding(report@.nonce) =~= nonce);
    assert(out@ =~= tag + seq![report.tee_type.byte()] + le_bytes(e.len(), 8) + e + le_bytes(
        m.len(),
        8,
    ) + m + nonce);
}

/// Technologies are told apart by their bytes, which count from zero, and by their names.
pub proof fn technologies_have_bytes_of_their_own(a: TeeType, b: TeeType)
    ensures
        a.byte() < 5,
        a.byte() == b.byte() ==> a == b,
        a is NoTee <==> a.byte() == 0,
        a is PhalaTdx <==> a.byte() == 1,
        a is AwsNitro <==> a.byte() == 2,
        a is GcpConfidential <==> a.byte() == 3,
{
}

/// Hexadecimal text has two characters for each byte, the high digit first.
pub proof fn hexadecimal_has_two_digits_a_byte(b: Seq<u8>, i: int)
    requires
        0 <= i < b.len(),
    ensures
        hex_text(b).len() == 2 * b.len(),
        hex_text(b)[2 * i] == (if b[i] / 16 < 10 {
            (b[i] / 16 + 48) as char
        } else {
            (b[i] / 16 + 87) as char
        }),
        hex_text(b)[2 * i + 1] == (if b[i] % 16 < 10 {
            (b[i] % 16 + 48) as char
        } else {
            (b[i] % 16 + 87) as char
        }),
{
    assert((2 * i) / 2 == i && (2 * i) % 2 == 0);
    assert((2 * i + 1) / 2 == i && (2 * i + 1) % 2 == 1);
}

/// A structural check passes exactly where the report claims the required technology and
/// neither blob is empty, and it never claims to have verified more than that.
pub proof fn a_structural_check_looks_at_the_shape_alone(
    report: &AttestationReport,
    required: TeeType,
    r: VerifiedAttestation,
    valid: bool,
)
    requires
        call_ensures(verify_structural, (report, required), r),
        call_ensures(VerifiedAttestation::is_structurally_valid, (&r,), valid),
    ensures
        valid <==> report.tee_type == required && report.evidence@.len() > 0
            && report.measurement@.len() > 0,
        r.structural_ok == valid,
        !r.signature_verified && !r.measurement_matched,
        r.verdict is StructurallyValid || r.verdict is Failed,
{
}

/// A local referee certifies what was scored as it was scored, and commits to its own
/// report, which names no enclave; what could not be scored is not certified.
pub proof fn a_referee_certifies_what_was_scored<Sc: Scorer>(
    referee: &LocalReferee<Sc>,
    scored: Result<(Lift, Measurement), ScorerError>,
    suite_ref: ArtifactRef,
    r: Result<(Evidence, AttestationReport), ScorerError>,
)
    requires
        call_ensures(LocalReferee::<Sc>::certify, (referee, scored, suite_ref), r),
    ensures
        r is Ok <==> scored is Ok,
        scored matches Err(e) ==> r == Err::<(Evidence, AttestationReport), ScorerError>(e),
        r matches Ok((row, report)) ==> {
            &&& row.lift == scored->Ok_0.0
            &&& row.measurement == scored->Ok_0.1
            &&& row.kind is ReplayFull
            &&& !row.confounded
            &&& row.suite_ref@ == suite_ref@
            &&& row.attestation_hash@ == hex_text(keccak256(report@.encoding()))
            &&& report.tee_type is NoTee
            &&& report@.nonce is None
        },
{
}

} // verus!
