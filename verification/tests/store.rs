use autoresearch::binary64::Binary64;
use autoresearch::stake::StakePolicy;
use autoresearch::store::{CompetitionStore, Status, StoreError};
use autoresearch::types::{ArtifactRef, Evidence, EvidenceKind, Gate, Lift, Measurement};

fn b(x: f64) -> Binary64 {
    Binary64 { bits: x.to_bits() }
}

fn dummy_evidence() -> Evidence {
    Evidence {
        kind: EvidenceKind::ReplayFull,
        lift: Lift {
            delta: b(0.3),
            ci_lower: b(0.2),
            ci_upper: b(0.4),
            n: 80,
        },
        measurement: Measurement {
            value: b(0.8),
            ci_lower: b(0.7),
            ci_upper: b(0.9),
            n: 80,
            cost: b(80.0),
            cost_per_task: b(1.0),
        },
        confounded: false,
        suite_ref: ArtifactRef("suite".into()),
        attestation_hash: String::new(),
    }
}

#[test]
fn happy_path_lifecycle() {
    let mut store = CompetitionStore::new();
    store.create(1).unwrap();
    assert_eq!(store.status(1).unwrap(), Status::Draft);

    store.transition(1, Status::Open).unwrap();
    store.join(1, "0xalice", 100).unwrap();
    assert_eq!(store.researchers(1).unwrap().len(), 1);

    store.transition(1, Status::Submitting).unwrap();
    let cid = store.commit(1, "0xalice", "0xcommit").unwrap();
    store
        .reveal_candidate(1, &cid, "0xcommit", ArtifactRef("ipfs://cand".into()))
        .unwrap();
    assert!(store.candidate(1, &cid).unwrap().artifact_ref.is_some());

    store.transition(1, Status::Scoring).unwrap();
    store.record_evidence(1, &cid, dummy_evidence()).unwrap();
    assert!(store.candidate(1, &cid).unwrap().evidence.is_some());

    store.transition(1, Status::Settling).unwrap();
    store.transition(1, Status::Closed).unwrap();
    assert_eq!(store.status(1).unwrap(), Status::Closed);
}

#[test]
fn rejects_skipping_transition() {
    let mut store = CompetitionStore::new();
    store.create(1).unwrap();
    let err = store.transition(1, Status::Scoring).unwrap_err();
    assert_eq!(
        err,
        StoreError::IllegalTransition {
            id: 1,
            from: Status::Draft,
            to: Status::Scoring,
        }
    );
}

#[test]
fn rejects_backward_transition() {
    let mut store = CompetitionStore::new();
    store.create(1).unwrap();
    store.transition(1, Status::Open).unwrap();
    store.transition(1, Status::Submitting).unwrap();
    assert!(matches!(
        store.transition(1, Status::Open),
        Err(StoreError::IllegalTransition { .. })
    ));
}

#[test]
fn commit_requires_submitting() {
    let mut store = CompetitionStore::new();
    store.create(1).unwrap();
    store.transition(1, Status::Open).unwrap();
    let err = store.commit(1, "0xalice", "0xcommit").unwrap_err();
    assert_eq!(
        err,
        StoreError::WrongStatus {
            id: 1,
            expected: Status::Submitting,
            actual: Status::Open,
        }
    );
}

#[test]
fn reveal_mismatch_is_rejected() {
    let mut store = CompetitionStore::new();
    store.create(1).unwrap();
    store.transition(1, Status::Open).unwrap();
    store.join(1, "0xalice", 100).unwrap();
    store.transition(1, Status::Submitting).unwrap();
    let cid = store.commit(1, "0xalice", "0xcommit").unwrap();
    let err = store
        .reveal_candidate(1, &cid, "0xWRONG", ArtifactRef("x".into()))
        .unwrap_err();
    assert_eq!(err, StoreError::RevealMismatch(cid));
}

#[test]
fn duplicate_candidate_rejected() {
    let mut store = CompetitionStore::new();
    store.create(1).unwrap();
    store.transition(1, Status::Open).unwrap();
    store.join(1, "0xalice", 100).unwrap();
    store.join(1, "0xbob", 100).unwrap();
    store.transition(1, Status::Submitting).unwrap();
    store.commit(1, "0xalice", "0xcommit").unwrap();
    let err = store.commit(1, "0xbob", "0xcommit").unwrap_err();
    assert_eq!(err, StoreError::DuplicateCandidate("0xcommit".into()));
}

#[test]
fn unknown_competition_errors() {
    let store = CompetitionStore::new();
    assert_eq!(
        store.status(99).unwrap_err(),
        StoreError::UnknownCompetition(99)
    );
}

#[test]
fn evidence_payability_round_trips_through_runtime_candidate() {
    let ev = dummy_evidence();
    assert!(Gate::default().clears(&ev.lift, &ev.measurement));
}

#[test]
fn join_below_stake_policy_floor_is_rejected() {
    let mut store = CompetitionStore::new();
    store
        .create_with_policy(
            1,
            StakePolicy {
                min_stake_wei: 1_000,
            },
        )
        .unwrap();
    store.transition(1, Status::Open).unwrap();
    let err = store.join(1, "0xpoor", 999).unwrap_err();
    assert_eq!(
        err,
        StoreError::InsufficientStake {
            id: 1,
            researcher: "0xpoor".into(),
            posted: 999,
            floor: 1_000,
        }
    );
    assert!(store.researchers(1).unwrap().is_empty());
}

#[test]
fn join_top_up_can_reach_the_stake_floor() {
    let mut store = CompetitionStore::new();
    store
        .create_with_policy(
            1,
            StakePolicy {
                min_stake_wei: 1_000,
            },
        )
        .unwrap();
    store.transition(1, Status::Open).unwrap();
    assert!(store.join(1, "0xalice", 600).is_err());
    store.join(1, "0xalice", 1_000).unwrap();
    assert_eq!(store.researchers(1).unwrap().len(), 1);
    store.join(1, "0xalice", 500).unwrap();
    let r = store.researchers(1).unwrap();
    assert_eq!(r[0].stake_wei, 1_500);
}

#[test]
fn commit_without_stake_is_rejected() {
    let mut store = CompetitionStore::new();
    store.create(1).unwrap();
    store.transition(1, Status::Open).unwrap();
    store.transition(1, Status::Submitting).unwrap();
    let err = store.commit(1, "0xstranger", "0xcommit").unwrap_err();
    assert_eq!(
        err,
        StoreError::NotStaked {
            id: 1,
            researcher: "0xstranger".into(),
        }
    );
}

#[test]
fn staked_researcher_may_submit_under_policy() {
    let mut store = CompetitionStore::new();
    store
        .create_with_policy(
            1,
            StakePolicy {
                min_stake_wei: 1_000,
            },
        )
        .unwrap();
    store.transition(1, Status::Open).unwrap();
    store.join(1, "0xalice", 1_000).unwrap();
    store.transition(1, Status::Submitting).unwrap();
    store.commit(1, "0xalice", "0xcommit-a").unwrap();
    assert_eq!(
        store.commit(1, "0xeve", "0xcommit-b").unwrap_err(),
        StoreError::NotStaked {
            id: 1,
            researcher: "0xeve".into(),
        }
    );
}

fn open_store() -> CompetitionStore {
    let mut store = CompetitionStore::default();
    store.create(1).unwrap();
    store.transition(1, Status::Open).unwrap();
    store.join(1, "0xalice", 100).unwrap();
    store
}

#[test]
fn a_candidate_reads_back_through_every_stage() {
    let mut store = open_store();
    store.transition(1, Status::Submitting).unwrap();
    store.commit(1, "0xalice", "0xcommit").unwrap();
    store
        .reveal_candidate(1, "0xcommit", "0xcommit", ArtifactRef("ipfs://a".into()))
        .unwrap();
    store.transition(1, Status::Scoring).unwrap();
    store.record_evidence(1, "0xcommit", dummy_evidence()).unwrap();
    let record = store.candidate(1, "0xcommit").unwrap();
    assert_eq!(record.id, "0xcommit");
    assert_eq!(record.commitment, "0xcommit");
    assert_eq!(record.researcher, "0xalice");
    assert_eq!(record.artifact_ref, Some(ArtifactRef("ipfs://a".into())));
    assert_eq!(record.evidence, Some(dummy_evidence()));
    assert_eq!(store.candidates(1).unwrap().len(), 1);
}

#[test]
fn a_closed_competition_never_moves_again() {
    let mut store = open_store();
    for next in [
        Status::Submitting,
        Status::Scoring,
        Status::Settling,
        Status::Closed,
    ] {
        store.transition(1, next).unwrap();
    }
    for next in [
        Status::Draft,
        Status::Open,
        Status::Submitting,
        Status::Scoring,
        Status::Settling,
        Status::Closed,
    ] {
        assert!(store.transition(1, next).is_err());
    }
}

#[test]
fn competitions_do_not_touch_one_another() {
    let mut store = open_store();
    store.create(2).unwrap();
    assert_eq!(
        store.create(2).unwrap_err(),
        StoreError::DuplicateCompetition(2)
    );
    store.transition(2, Status::Open).unwrap();
    store.join(2, "0xbob", 7).unwrap();
    store.transition(2, Status::Submitting).unwrap();
    assert_eq!(store.status(1).unwrap(), Status::Open);
    assert_eq!(store.researchers(1).unwrap()[0].address, "0xalice");
    assert_eq!(store.researchers(2).unwrap()[0].address, "0xbob");
}

#[test]
fn what_is_not_there_is_told_apart() {
    let mut store = open_store();
    store.transition(1, Status::Submitting).unwrap();
    assert_eq!(
        store
            .reveal_candidate(1, "0xnone", "0xnone", ArtifactRef("x".into()))
            .unwrap_err(),
        StoreError::UnknownCandidate("0xnone".into())
    );
    store.transition(1, Status::Scoring).unwrap();
    assert_eq!(
        store.record_evidence(1, "0xnone", dummy_evidence()).unwrap_err(),
        StoreError::UnknownCandidate("0xnone".into())
    );
    assert_eq!(
        store.candidate(1, "0xnone").unwrap_err(),
        StoreError::UnknownCandidate("0xnone".into())
    );
    assert_eq!(
        store.join(9, "0xalice", 1).unwrap_err(),
        StoreError::UnknownCompetition(9)
    );
}

#[test]
fn a_join_after_the_opening_is_refused() {
    let mut store = open_store();
    store.transition(1, Status::Submitting).unwrap();
    assert_eq!(
        store.join(1, "0xbob", 100).unwrap_err(),
        StoreError::WrongStatus {
            id: 1,
            expected: Status::Open,
            actual: Status::Submitting,
        }
    );
}

#[test]
fn every_store_error_has_its_message() {
    let said = [
        (
            StoreError::UnknownCompetition(9),
            "competition 9 does not exist",
        ),
        (
            StoreError::DuplicateCompetition(9),
            "competition 9 already exists",
        ),
        (
            StoreError::IllegalTransition {
                id: 9,
                from: Status::Draft,
                to: Status::Scoring,
            },
            "illegal status transition for competition 9: Draft -> Scoring",
        ),
        (
            StoreError::WrongStatus {
                id: 9,
                expected: Status::Submitting,
                actual: Status::Open,
            },
            "operation requires competition 9 to be in Submitting, but it is Open",
        ),
        (
            StoreError::DuplicateCandidate("0xc".into()),
            "candidate 0xc already committed in this competition",
        ),
        (
            StoreError::UnknownCandidate("0xc".into()),
            "candidate 0xc not found",
        ),
        (
            StoreError::RevealMismatch("0xc".into()),
            "reveal commitment mismatch for candidate 0xc",
        ),
        (
            StoreError::InsufficientStake {
                id: 9,
                researcher: "0xr".into(),
                posted: 1,
                floor: 100,
            },
            "join stake 1 for 0xr in competition 9 is below the policy floor 100",
        ),
        (
            StoreError::NotStaked {
                id: 9,
                researcher: "0xr".into(),
            },
            "researcher 0xr has not joined competition 9 with stake; cannot submit",
        ),
    ];
    for (error, text) in said {
        assert_eq!(error.message(), text);
    }
    for status in [
        Status::Draft,
        Status::Open,
        Status::Submitting,
        Status::Scoring,
        Status::Settling,
        Status::Closed,
    ] {
        assert_eq!(status.name(), format!("{status:?}"));
    }
}
