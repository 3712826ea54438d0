use autoresearch::attestation::{
    verify_structural, AttestationReport, AttestationVerdict, LocalReferee, TeeType,
};
use autoresearch::binary64::Binary64;
use autoresearch::traits::{Scorer, ScorerError};
use autoresearch::types::{ArtifactRef, EvidenceKind, Lift, Measurement};

fn good_report() -> AttestationReport {
    AttestationReport {
        tee_type: TeeType::PhalaTdx,
        evidence: vec![1, 2, 3, 4],
        measurement: vec![9, 8, 7],
        nonce: Some(vec![0xAB]),
    }
}

#[test]
fn hash_is_deterministic() {
    let r = good_report();
    assert_eq!(r.hash(), r.hash());
    assert_eq!(r.hash().len(), 64, "keccak256 is 32 bytes = 64 hex chars");
}

#[test]
fn hash_changes_with_any_field() {
    let base = good_report();
    let h = base.hash();

    let mut diff_tee = base.clone();
    diff_tee.tee_type = TeeType::AwsNitro;
    assert_ne!(diff_tee.hash(), h);

    let mut diff_ev = base.clone();
    diff_ev.evidence = vec![1, 2, 3, 5];
    assert_ne!(diff_ev.hash(), h);

    let mut diff_meas = base.clone();
    diff_meas.measurement = vec![9, 8, 6];
    assert_ne!(diff_meas.hash(), h);

    let mut diff_nonce = base.clone();
    diff_nonce.nonce = None;
    assert_ne!(diff_nonce.hash(), h);
}

#[test]
fn hash_does_not_collide_across_field_boundary() {
    let a = AttestationReport {
        tee_type: TeeType::NoTee,
        evidence: vec![1, 2],
        measurement: vec![3],
        nonce: None,
    };
    let b = AttestationReport {
        tee_type: TeeType::NoTee,
        evidence: vec![1],
        measurement: vec![2, 3],
        nonce: None,
    };
    assert_ne!(a.hash(), b.hash());
}

#[test]
fn structural_validation_never_returns_verified() {
    let v = verify_structural(&good_report(), TeeType::PhalaTdx);
    assert_eq!(v.verdict, AttestationVerdict::StructurallyValid);
    assert!(v.structural_ok);
    assert!(!v.signature_verified);
    assert!(!v.measurement_matched);
    assert_ne!(
        v.verdict,
        AttestationVerdict::Verified,
        "Verified must be unreachable until the §12 seam is closed"
    );
    assert!(v.is_structurally_valid());
}

#[test]
fn structural_validation_fails_closed_on_empty_fields() {
    let empty_ev = AttestationReport {
        tee_type: TeeType::PhalaTdx,
        evidence: vec![],
        measurement: vec![1],
        nonce: None,
    };
    let v = verify_structural(&empty_ev, TeeType::PhalaTdx);
    assert_eq!(v.verdict, AttestationVerdict::Failed);
    assert!(!v.structural_ok);
    assert!(!v.is_structurally_valid());

    let empty_meas = AttestationReport {
        tee_type: TeeType::PhalaTdx,
        evidence: vec![1],
        measurement: vec![],
        nonce: None,
    };
    assert_eq!(
        verify_structural(&empty_meas, TeeType::PhalaTdx).verdict,
        AttestationVerdict::Failed
    );
}

#[test]
fn structural_validation_fails_closed_on_tee_mismatch() {
    let v = verify_structural(&good_report(), TeeType::AwsNitro);
    assert_eq!(v.verdict, AttestationVerdict::Failed);
    assert!(!v.is_structurally_valid());
}

#[test]
fn verdict_never_verified_across_all_tee_types() {
    for tee in [
        TeeType::NoTee,
        TeeType::PhalaTdx,
        TeeType::AwsNitro,
        TeeType::GcpConfidential,
        TeeType::AzureSnp,
    ] {
        let report = AttestationReport {
            tee_type: tee,
            evidence: vec![1],
            measurement: vec![1],
            nonce: None,
        };
        let v = verify_structural(&report, tee);
        assert_ne!(v.verdict, AttestationVerdict::Verified);
        assert_eq!(v.verdict, AttestationVerdict::StructurallyValid);
    }
}

struct NamedScorer;

impl Scorer for NamedScorer {
    type Artifact = ();

    fn id(&self) -> &str {
        "named"
    }
}

fn b(x: f64) -> Binary64 {
    Binary64 { bits: x.to_bits() }
}

fn scored() -> (Lift, Measurement) {
    (
        Lift {
            delta: b(0.3),
            ci_lower: b(0.2),
            ci_upper: b(0.4),
            n: 80,
        },
        Measurement {
            value: b(0.8),
            ci_lower: b(0.7),
            ci_upper: b(0.9),
            n: 80,
            cost: b(80.0),
            cost_per_task: b(1.0),
        },
    )
}

#[test]
fn hash_is_the_keccak_digest_of_the_encoding() {
    let report = AttestationReport {
        tee_type: TeeType::NoTee,
        evidence: vec![1],
        measurement: vec![2, 3],
        nonce: Some(vec![4]),
    };
    let mut expected = b"autoresearch.attestation.v1".to_vec();
    expected.push(0);
    expected.extend([1, 0, 0, 0, 0, 0, 0, 0, 1]);
    expected.extend([2, 0, 0, 0, 0, 0, 0, 0, 2, 3]);
    expected.push(1);
    expected.extend([1, 0, 0, 0, 0, 0, 0, 0, 4]);
    assert_eq!(report.encode(), expected);
    let digest = <sha3::Keccak256 as sha3::Digest>::digest(&expected);
    let hex: String = digest.iter().map(|byte| format!("{byte:02x}")).collect();
    assert_eq!(report.hash(), hex);
}

#[test]
fn technologies_have_fixed_codes_and_names() {
    let all = [
        (TeeType::NoTee, 0, "None"),
        (TeeType::PhalaTdx, 1, "PhalaTdx"),
        (TeeType::AwsNitro, 2, "AwsNitro"),
        (TeeType::GcpConfidential, 3, "GcpConfidential"),
        (TeeType::AzureSnp, 4, "AzureSnp"),
    ];
    for (tee, code, name) in all {
        assert_eq!(tee.code(), code);
        assert_eq!(tee.label(), name);
    }
}

#[test]
fn a_local_referee_certifies_without_an_enclave() {
    let referee = LocalReferee::new(NamedScorer);
    let report = referee.attestation_report();
    assert_eq!(report.tee_type, TeeType::NoTee);
    assert_eq!(report.evidence, b"local-referee:named".to_vec());
    assert_eq!(report.measurement, b"local-stand-in:no-enclave".to_vec());
    assert_eq!(report.nonce, None);

    let (lift, measurement) = scored();
    let (row, attached) = referee
        .certify(Ok((lift, measurement)), ArtifactRef("suite".into()))
        .unwrap();
    assert_eq!(row.kind, EvidenceKind::ReplayFull);
    assert_eq!(row.lift, lift);
    assert_eq!(row.measurement, measurement);
    assert!(!row.confounded);
    assert_eq!(row.suite_ref, ArtifactRef("suite".into()));
    assert_eq!(row.attestation_hash, attached.hash());
    assert_eq!(attached, report);
}

#[test]
fn a_failed_scoring_is_not_certified() {
    let referee = LocalReferee::new(&NamedScorer);
    let err = referee
        .certify(
            Err(ScorerError::InsufficientPower { have: 3, need: 12 }),
            ArtifactRef("suite".into()),
        )
        .unwrap_err();
    assert_eq!(err, ScorerError::InsufficientPower { have: 3, need: 12 });
    assert_eq!(
        err.message(),
        "insufficient statistical power: have n=3, need n=12"
    );
}
