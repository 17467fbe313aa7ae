use std::collections::{BTreeSet, HashMap};

use closed_prefix::admission::{Admission, AdmissionAction, AdmissionEvent};
use closed_prefix::closing::{
    is_closable, is_scope_text, Closing, ClosingAction, ClosingEvent,
};
use closed_prefix::deletion::{
    are_deletable, is_digest_below, Deletion, DeletionAction, DeletionEvent,
};
use closed_prefix::ident::Uuid;
use closed_prefix::marker::{marker_key, prefix_lock};
use closed_prefix::options::{GuardId, ObjectOptions, PrefixMutationGuard};
use closed_prefix::reading::{MarkerRead, MarkerReadAction, MarkerReadEvent};
use closed_prefix::records::{ClosedPrefixProofV1, ClosedPrefixV1, Error};
use closed_prefix::store::ECStore;

const BUCKET: &str = "bucket";

const SCOPE: &str =
    "root/v1/databases/1234/5678/12345678-1234-1234-1234-123456789abc/epochs/1-12345678-1234-1234-1234-123456789abc/objects/";

const STORE: ECStore = ECStore { id: Uuid { bytes: [3; 16] } };

type Outcome<T> = Result<T, Error<&'static str>>;

/// A store in memory. `failing` names the steps that fail, `lost` the locks that are lost.
struct World {
    incarnation: Uuid,
    encoded: Vec<ClosedPrefixProofV1>,
    markers: HashMap<String, Vec<u8>>,
    objects: BTreeSet<String>,
    failing: Vec<&'static str>,
    lost: Vec<GuardId>,
    guards: u64,
    code_length: usize,
    steps: Vec<String>,
}

impl World {
    fn new() -> World {
        World {
            incarnation: Uuid { bytes: [4; 16] },
            encoded: vec![],
            markers: HashMap::new(),
            objects: BTreeSet::new(),
            failing: vec![],
            lost: vec![],
            guards: 0,
            code_length: 8,
            steps: vec![],
        }
    }

    fn try_step(&mut self, step: &'static str) -> Outcome<()> {
        self.steps.push(step.to_string());
        if self.failing.contains(&step) {
            Err(Error::Other(step))
        } else {
            Ok(())
        }
    }

    fn guard(&mut self, step: &'static str) -> Outcome<GuardId> {
        self.try_step(step)?;
        self.guards += 1;
        Ok(GuardId(self.guards))
    }

    fn read_incarnation(&mut self) -> Outcome<Uuid> {
        self.try_step("incarnation")?;
        Ok(self.incarnation)
    }

    fn read_marker(&mut self, bucket: &str, prefix: &str) -> Outcome<Option<ClosedPrefixProofV1>> {
        self.try_step("marker")?;
        let mut read: MarkerRead<&'static str> = STORE.read_prefix_marker(bucket, prefix);
        let mut found = vec![];
        loop {
            let event = match read.action() {
                MarkerReadAction::Open { key, .. } => match self.markers.get(&key) {
                    Some(bytes) => {
                        found = bytes.clone();
                        MarkerReadEvent::Opened(Ok(bytes.len() as i64))
                    }
                    None => MarkerReadEvent::Opened(Err(Error::FileNotFound)),
                },
                MarkerReadAction::Read { limit } => {
                    found.truncate(limit as usize);
                    MarkerReadEvent::Bytes(Ok(found.clone()))
                }
                MarkerReadAction::Decode { bytes } => {
                    MarkerReadEvent::Decoded(self.encoded.get(bytes[0] as usize).cloned())
                }
                MarkerReadAction::Finish => break,
            };
            read = read.step(event);
        }
        match read {
            MarkerRead::Finished(outcome) => outcome,
            _ => unreachable!(),
        }
    }

    fn encode(&mut self, proof: &ClosedPrefixProofV1) -> Option<Vec<u8>> {
        self.try_step("encode").ok()?;
        self.encoded.push(proof.clone());
        let mut bytes = vec![0; self.code_length];
        bytes[0] = (self.encoded.len() - 1) as u8;
        Some(bytes)
    }

    fn close(&mut self, requested: ClosedPrefixV1) -> Outcome<ClosedPrefixProofV1> {
        let mut closing: Closing<&'static str> = STORE.close_prefix(requested);
        loop {
            let event = match closing.action() {
                ClosingAction::LockExclusive(name) => {
                    self.steps.push(format!("lock {} {}", name.bucket, name.resource));
                    ClosingEvent::PrefixLocked(self.guard("prefix lock"))
                }
                ClosingAction::LockBucketLifecycle { bucket } => {
                    assert_eq!(bucket, BUCKET);
                    ClosingEvent::BucketLocked(self.guard("bucket lock"))
                }
                ClosingAction::ReadIncarnation { bucket } => {
                    assert_eq!(bucket, BUCKET);
                    ClosingEvent::Incarnation(self.read_incarnation())
                }
                ClosingAction::ReadMarker { bucket, prefix } => {
                    ClosingEvent::Marker(self.read_marker(bucket, prefix))
                }
                ClosingAction::Encode { proof } => ClosingEvent::Encoded(self.encode(proof)),
                ClosingAction::Save { key, bytes, options } => {
                    assert_eq!(options, ObjectOptions::for_marker());
                    let saved = self.try_step("save");
                    if saved.is_ok() {
                        self.markers.insert(key, bytes.clone());
                    }
                    ClosingEvent::Saved(saved)
                }
                ClosingAction::CheckLocks { locks } => ClosingEvent::LocksChecked {
                    prefix_lost: self.lost.contains(&locks.prefix),
                    bucket_lost: self.lost.contains(&locks.bucket),
                },
                ClosingAction::Finish => break,
            };
            closing = closing.step(event);
        }
        match closing {
            Closing::Finished(outcome) => outcome,
            _ => unreachable!(),
        }
    }

    fn delete(&mut self, proof: &ClosedPrefixProofV1, keys: &[String]) -> Outcome<()> {
        let mut deletion: Deletion<&'static str> = STORE.delete_closed_prefix_objects(proof, keys);
        loop {
            let event = match deletion.action() {
                DeletionAction::LockShared(name) => {
                    assert_eq!(name, prefix_lock(BUCKET, SCOPE));
                    DeletionEvent::PrefixLocked(self.guard("prefix lock"))
                }
                DeletionAction::LockBucketLifecycle { bucket } => {
                    assert_eq!(bucket, BUCKET);
                    DeletionEvent::BucketLocked(self.guard("bucket lock"))
                }
                DeletionAction::ReadMarker { bucket, prefix } => {
                    DeletionEvent::Marker(self.read_marker(bucket, prefix))
                }
                DeletionAction::ReadIncarnation { bucket } => {
                    assert_eq!(bucket, BUCKET);
                    DeletionEvent::Incarnation(self.read_incarnation())
                }
                DeletionAction::CheckLocks { locks } => DeletionEvent::LocksChecked {
                    prefix_lost: self.lost.contains(&locks.prefix),
                    bucket_lost: self.lost.contains(&locks.bucket),
                },
                DeletionAction::Delete { bucket, key, options } => {
                    assert_eq!(bucket, BUCKET);
                    assert_eq!(
                        options,
                        ObjectOptions::for_deletion(GuardId(self.guards - 1), GuardId(self.guards))
                    );
                    DeletionEvent::Deleted(match self.try_step("delete") {
                        Ok(()) if self.objects.remove(key) => Ok(()),
                        Ok(()) => Err(Error::ObjectNotFound(bucket.clone(), key.clone())),
                        Err(error) => Err(error),
                    })
                }
                DeletionAction::Observe { bucket } => {
                    self.steps.push(format!("observe {bucket}"));
                    DeletionEvent::Observed
                }
                DeletionAction::Finish => break,
            };
            deletion = deletion.step(event);
        }
        match deletion {
            Deletion::Finished(outcome) => outcome,
            _ => unreachable!(),
        }
    }

    fn change(&mut self, objects: &[&str]) -> Outcome<PrefixMutationGuard> {
        let mut admission: Admission<&'static str> = STORE.admit_prefix_mutations(BUCKET, objects);
        loop {
            let event = match admission.action() {
                AdmissionAction::LockShared(name) => {
                    self.steps.push(format!("lock {} {}", name.bucket, name.resource));
                    AdmissionEvent::Locked(self.guard("prefix lock"))
                }
                AdmissionAction::ReadMarker { bucket, prefix } => {
                    AdmissionEvent::Marker(self.read_marker(&bucket, &prefix))
                }
                AdmissionAction::CheckLock { guard } => {
                    AdmissionEvent::LockChecked { lost: self.lost.contains(&guard) }
                }
                AdmissionAction::Finish => break,
            };
            admission = admission.step(event);
        }
        match admission {
            Admission::Finished(outcome) => outcome,
            _ => unreachable!(),
        }
    }
}

fn request() -> ClosedPrefixV1 {
    ClosedPrefixV1 {
        bucket: BUCKET.to_string(),
        prefix: SCOPE.to_string(),
        operation: Uuid { bytes: [1; 16] },
        context_sha256: [7_u8; 32],
    }
}

fn kept_proof() -> ClosedPrefixProofV1 {
    ClosedPrefixProofV1 {
        closed: request(),
        provider_deployment: STORE.id,
        bucket_incarnation: Uuid { bytes: [4; 16] },
    }
}

fn key(digit: &str) -> String {
    format!("{SCOPE}{}", digit.repeat(64))
}

#[test]
fn closed_prefix_fences_changes_and_gives_up_its_objects() {
    let mut world = World::new();
    let object = key("a");
    assert_eq!(world.change(&[&object]), Ok(PrefixMutationGuard { guards: vec![GuardId(1)] }));
    world.objects.insert(object.clone());
    let granted = world.close(request()).unwrap();
    assert_eq!(granted.closed, request());
    assert_eq!(granted, kept_proof());
    assert_eq!(world.change(&[&object]), Err(Error::PreconditionFailed));
    assert_eq!(world.close(request()), Ok(granted.clone()));
    assert_eq!(world.change(&[&object]), Err(Error::PreconditionFailed));
    assert_eq!(world.delete(&granted, &[object.clone()]), Ok(()));
    assert!(world.objects.is_empty());
}

#[test]
fn closing_takes_its_steps_in_turn() {
    let mut world = World::new();
    let lock = format!("lock bucket {}", marker_key(BUCKET, SCOPE));
    world.close(request()).unwrap();
    assert_eq!(
        world.steps,
        vec![lock.as_str(), "prefix lock", "bucket lock", "incarnation", "marker", "encode", "save", "marker"]
    );
    world.steps.clear();
    world.close(request()).unwrap();
    assert_eq!(
        world.steps,
        vec![lock.as_str(), "prefix lock", "bucket lock", "incarnation", "marker", "marker"]
    );
}

#[test]
fn conflicting_closing_is_refused() {
    let mut world = World::new();
    world.close(request()).unwrap();
    let mut other = request();
    other.operation = Uuid { bytes: [2; 16] };
    assert_eq!(world.close(other), Err(Error::PreconditionFailed));
    let mut other = request();
    other.context_sha256[0] = 0;
    assert_eq!(world.close(other), Err(Error::PreconditionFailed));
    world.incarnation = Uuid { bytes: [5; 16] };
    assert_eq!(world.close(request()), Err(Error::PreconditionFailed));
}

#[test]
fn request_that_cannot_be_granted_is_refused_at_once() {
    let mut refused = vec![request(), request(), request(), request(), request(), request()];
    refused[0].prefix.push('x');
    refused[1].prefix.pop();
    refused[2].prefix = String::new();
    refused[3].operation = Uuid { bytes: [0; 16] };
    refused[4].context_sha256 = [0; 32];
    refused[5].prefix = SCOPE.replace("/5678/", "/5679/");
    for requested in refused {
        let mut world = World::new();
        assert!(!is_closable(&requested));
        assert_eq!(world.close(requested), Err(Error::PreconditionFailed));
        assert!(world.steps.is_empty());
    }
    assert!(is_closable(&request()));
    let mut sparse = request();
    sparse.operation = Uuid { bytes: [0, 0, 0, 0, 0, 0, 0, 0, 0, 0, 0, 0, 0, 0, 0, 1] };
    sparse.context_sha256 = [0; 32];
    sparse.context_sha256[31] = 1;
    assert!(is_closable(&sparse));
}

#[test]
fn scope_texts_end_where_a_scope_ends() {
    assert!(is_scope_text(SCOPE));
    assert!(is_scope_text(&format!("{SCOPE}{SCOPE}")));
    assert!(!is_scope_text(&format!("{SCOPE}x")));
    assert!(!is_scope_text(""));
}

#[test]
fn failures_end_a_closing() {
    for step in ["prefix lock", "bucket lock", "incarnation", "marker", "save"] {
        let mut world = World::new();
        world.failing.push(step);
        assert_eq!(world.close(request()), Err(Error::Other(step)));
    }
    let mut world = World::new();
    world.failing.push("encode");
    assert_eq!(world.close(request()), Err(Error::CorruptedFormat));
    assert!(world.markers.is_empty());
}

#[test]
fn marker_that_is_too_long_is_not_written() {
    let mut world = World::new();
    world.code_length = 2_049;
    assert_eq!(world.close(request()), Err(Error::PreconditionFailed));
    assert!(world.markers.is_empty());
    let mut world = World::new();
    world.code_length = 2_048;
    assert_eq!(world.close(request()), Ok(kept_proof()));
}

#[test]
fn lost_lock_fails_a_closing() {
    for lost in [1, 2] {
        let mut world = World::new();
        world.lost.push(GuardId(lost));
        assert_eq!(world.close(request()), Err(Error::PreconditionFailed));
        assert_eq!(world.markers.len(), 1);
    }
}

#[test]
fn marker_without_an_incarnation_is_written_but_not_read() {
    let mut world = World::new();
    world.incarnation = Uuid { bytes: [0; 16] };
    assert_eq!(world.close(request()), Err(Error::CorruptedFormat));
    assert_eq!(world.markers.len(), 1);
}

#[test]
fn vanished_marker_fails_a_closing() {
    let closing: Closing<u8> = STORE.close_prefix(request());
    let closing = closing
        .step(ClosingEvent::PrefixLocked(Ok(GuardId(1))))
        .step(ClosingEvent::BucketLocked(Ok(GuardId(2))))
        .step(ClosingEvent::Incarnation(Ok(Uuid { bytes: [4; 16] })))
        .step(ClosingEvent::Marker(Ok(None)))
        .step(ClosingEvent::Encoded(Some(vec![1])))
        .step(ClosingEvent::Saved(Ok(())))
        .step(ClosingEvent::LocksChecked { prefix_lost: false, bucket_lost: false })
        .step(ClosingEvent::Marker(Ok(None)));
    assert!(matches!(closing, Closing::Finished(Err(Error::PreconditionFailed))));
}

#[test]
fn closing_ignores_what_it_does_not_wait_for() {
    let closing: Closing<u8> = STORE.close_prefix(request());
    let closing = closing.step(ClosingEvent::Saved(Ok(())));
    assert!(matches!(closing.action(), ClosingAction::LockExclusive(_)));
}

#[test]
fn changes_outside_scopes_are_admitted_at_once() {
    let mut world = World::new();
    assert_eq!(world.change(&[]), Ok(PrefixMutationGuard { guards: vec![] }));
    assert_eq!(world.change(&["plain", "other/key"]), Ok(PrefixMutationGuard { guards: vec![] }));
    assert!(world.steps.is_empty());
}

#[test]
fn scopes_are_locked_in_ascending_order() {
    let mut world = World::new();
    let other = SCOPE.replace("root/", "another/");
    let objects = [key("b"), format!("{other}x"), key("a")];
    assert_eq!(
        world.change(&[&objects[0], &objects[1], &objects[2]]),
        Ok(PrefixMutationGuard { guards: vec![GuardId(1), GuardId(2)] })
    );
    assert_eq!(
        world.steps,
        vec![
            format!("lock bucket {}", marker_key(BUCKET, &other)),
            "prefix lock".to_string(),
            "marker".to_string(),
            format!("lock bucket {}", marker_key(BUCKET, SCOPE)),
            "prefix lock".to_string(),
            "marker".to_string(),
        ]
    );
}

#[test]
fn one_closed_scope_refuses_all_changes() {
    let mut world = World::new();
    world.close(request()).unwrap();
    let below = format!("{SCOPE}nested/{SCOPE}digest");
    assert_eq!(world.change(&[&below]), Err(Error::PreconditionFailed));
    assert_eq!(world.change(&["plain", &key("c")]), Err(Error::PreconditionFailed));
    let other = SCOPE.replace("root/", "another/");
    assert!(world.change(&[&other]).is_ok());
}

#[test]
fn failures_end_an_admission() {
    for step in ["prefix lock", "marker"] {
        let mut world = World::new();
        world.failing.push(step);
        assert_eq!(world.change(&[SCOPE]), Err(Error::Other(step)));
    }
    let mut world = World::new();
    world.lost.push(GuardId(1));
    assert_eq!(world.change(&[SCOPE]), Err(Error::PreconditionFailed));
    let mut world = World::new();
    world.markers.insert(marker_key(BUCKET, SCOPE), vec![]);
    assert_eq!(world.change(&[SCOPE]), Err(Error::CorruptedFormat));
}

#[test]
fn single_change_is_admitted_like_a_list_of_one() {
    let admission: Admission<u8> = STORE.admit_prefix_mutation(BUCKET, &key("a"));
    assert_eq!(admission.action(), AdmissionAction::LockShared(prefix_lock(BUCKET, SCOPE)));
    let admission = admission.step(AdmissionEvent::LockChecked { lost: true });
    assert_eq!(admission.action(), AdmissionAction::LockShared(prefix_lock(BUCKET, SCOPE)));
    let admission = admission.step(AdmissionEvent::Locked(Ok(GuardId(9))));
    assert_eq!(
        admission.action(),
        AdmissionAction::ReadMarker { bucket: BUCKET.to_string(), prefix: SCOPE.to_string() }
    );
    let admission = admission.step(AdmissionEvent::Marker(Ok(None)));
    assert_eq!(admission.action(), AdmissionAction::CheckLock { guard: GuardId(9) });
    match admission.step(AdmissionEvent::LockChecked { lost: false }) {
        Admission::Finished(outcome) => {
            assert_eq!(outcome, Ok(PrefixMutationGuard { guards: vec![GuardId(9)] }))
        }
        _ => panic!("the admission is not over"),
    }
}

#[test]
fn deletion_takes_its_steps_in_turn() {
    let mut world = World::new();
    world.close(request()).unwrap();
    world.objects.insert(key("a"));
    world.objects.insert(key("c"));
    world.objects.insert(key("d"));
    world.steps.clear();
    assert_eq!(world.delete(&kept_proof(), &[key("a"), key("b"), key("c")]), Ok(()));
    assert_eq!(
        world.steps,
        vec![
            "prefix lock", "bucket lock", "marker", "incarnation", "delete", "observe bucket",
            "delete", "observe bucket", "delete", "observe bucket",
        ]
    );
    assert_eq!(world.objects.iter().cloned().collect::<Vec<String>>(), vec![key("d")]);
}

#[test]
fn keys_that_cannot_be_deleted_together_are_refused_at_once() {
    let refused = vec![
        vec![],
        vec![key("b"), key("a")],
        vec![key("a"), key("a")],
        vec![key("A")],
        vec![key("g")],
        vec![format!("{SCOPE}{}", "a".repeat(63))],
        vec![format!("{SCOPE}{}", "a".repeat(65))],
        vec![format!("{SCOPE}{}\u{e9}", "a".repeat(62))],
        vec!["a".repeat(64)],
        vec![SCOPE.to_string()],
    ];
    for keys in refused {
        let mut world = World::new();
        assert!(!are_deletable(SCOPE, &keys));
        assert_eq!(world.delete(&kept_proof(), &keys), Err(Error::PreconditionFailed));
        assert!(world.steps.is_empty());
    }
    assert!(are_deletable(SCOPE, &[key("0"), key("9"), key("a"), key("f")]));
}

#[test]
fn no_more_than_a_thousand_objects_are_deleted_together() {
    let keys: Vec<String> = (0..1_001).map(|i| format!("{SCOPE}{i:064x}")).collect();
    assert!(are_deletable(SCOPE, &keys[..1_000]));
    assert!(!are_deletable(SCOPE, &keys));
    let mut world = World::new();
    world.close(request()).unwrap();
    world.objects.extend(keys.iter().cloned());
    assert_eq!(world.delete(&kept_proof(), &keys), Err(Error::PreconditionFailed));
    assert_eq!(world.objects.len(), 1_001);
    assert_eq!(world.delete(&kept_proof(), &keys[..1_000]), Ok(()));
    assert_eq!(world.objects.len(), 1);
}

#[test]
fn digests_are_lower_case_hexadecimal() {
    assert!(is_digest_below("p/", &format!("p/{}", "0123456789abcdef".repeat(4))));
    assert!(is_digest_below("", &"0".repeat(64)));
    assert!(!is_digest_below("p/", &format!("q/{}", "0".repeat(64))));
    assert!(!is_digest_below("p/", "p/"));
    assert!(!is_digest_below("p/", ""));
    assert!(!is_digest_below("p/", &format!("p/{}F", "0".repeat(63))));
}

#[test]
fn deletion_needs_the_proof_that_is_kept() {
    let keys = [key("a")];
    let mut world = World::new();
    world.objects.insert(key("a"));
    assert_eq!(world.delete(&kept_proof(), &keys), Err(Error::PreconditionFailed));
    world.close(request()).unwrap();
    let mut forged = kept_proof();
    forged.closed.operation = Uuid { bytes: [9; 16] };
    assert_eq!(world.delete(&forged, &keys), Err(Error::PreconditionFailed));
    world.incarnation = Uuid { bytes: [9; 16] };
    assert_eq!(world.delete(&kept_proof(), &keys), Err(Error::PreconditionFailed));
    world.incarnation = Uuid { bytes: [4; 16] };
    assert_eq!(world.objects.len(), 1);
    assert_eq!(world.delete(&kept_proof(), &keys), Ok(()));
}

#[test]
fn deletion_needs_the_proof_of_its_own_deployment() {
    let elsewhere = ECStore { id: Uuid { bytes: [8; 16] } };
    let deletion: Deletion<u8> = elsewhere.delete_closed_prefix_objects(&kept_proof(), &[key("a")]);
    let deletion = deletion
        .step(DeletionEvent::PrefixLocked(Ok(GuardId(1))))
        .step(DeletionEvent::BucketLocked(Ok(GuardId(2))))
        .step(DeletionEvent::Marker(Ok(Some(kept_proof()))));
    assert!(matches!(deletion, Deletion::Finished(Err(Error::PreconditionFailed))));
}

#[test]
fn failures_end_a_deletion() {
    for step in ["prefix lock", "bucket lock", "marker", "incarnation", "delete"] {
        let mut world = World::new();
        world.close(request()).unwrap();
        world.objects.insert(key("a"));
        world.failing.push(step);
        assert_eq!(world.delete(&kept_proof(), &[key("a")]), Err(Error::Other(step)));
        assert_eq!(world.objects.len(), 1);
    }
}

#[test]
fn lost_lock_fails_a_deletion() {
    for lost in [3, 4] {
        let mut world = World::new();
        world.close(request()).unwrap();
        world.objects.insert(key("a"));
        world.lost.push(GuardId(lost));
        assert_eq!(world.delete(&kept_proof(), &[key("a")]), Err(Error::PreconditionFailed));
        assert_eq!(world.objects.len(), 1);
    }
}

fn deleted_first(outcome: Outcome<()>) -> Deletion<&'static str> {
    STORE
        .delete_closed_prefix_objects(&kept_proof(), &[key("a")])
        .step(DeletionEvent::PrefixLocked(Ok(GuardId(1))))
        .step(DeletionEvent::BucketLocked(Ok(GuardId(2))))
        .step(DeletionEvent::Marker(Ok(Some(kept_proof()))))
        .step(DeletionEvent::Incarnation(Ok(Uuid { bytes: [4; 16] })))
        .step(DeletionEvent::LocksChecked { prefix_lost: false, bucket_lost: false })
        .step(DeletionEvent::LocksChecked { prefix_lost: false, bucket_lost: false })
        .step(DeletionEvent::Deleted(outcome))
}

#[test]
fn missing_object_counts_as_deleted() {
    let deletion = deleted_first(Err(Error::FileNotFound));
    assert!(matches!(deletion.action(), DeletionAction::Observe { .. }));
    let deletion = deletion
        .step(DeletionEvent::Observed)
        .step(DeletionEvent::LocksChecked { prefix_lost: false, bucket_lost: false });
    assert!(matches!(deletion, Deletion::Finished(Ok(()))));
    let deletion = deleted_first(Err(Error::CorruptedFormat));
    assert!(matches!(deletion, Deletion::Finished(Err(Error::CorruptedFormat))));
}

#[test]
fn lock_lost_after_the_last_object_fails_a_deletion() {
    for (prefix_lost, bucket_lost) in [(true, false), (false, true)] {
        let deletion = deleted_first(Ok(()))
            .step(DeletionEvent::Observed)
            .step(DeletionEvent::LocksChecked { prefix_lost, bucket_lost });
        assert!(matches!(deletion, Deletion::Finished(Err(Error::PreconditionFailed))));
    }
}

#[test]
fn deletion_ignores_what_it_does_not_wait_for() {
    let deletion = deleted_first(Ok(())).step(DeletionEvent::Deleted(Err(Error::CorruptedFormat)));
    assert!(matches!(deletion.action(), DeletionAction::Observe { .. }));
}

#[test]
fn closing_without_its_lock_closes_nothing() {
    let mut world = World::new();
    let object = key("a");
    let admitted = world.change(&[&object]).unwrap();
    assert_eq!(admitted.guards.len(), 1);
    let lock = format!("lock bucket {}", marker_key(BUCKET, SCOPE));
    assert_eq!(world.steps[0], lock);
    world.failing.push("prefix lock");
    world.steps.clear();
    assert_eq!(world.close(request()), Err(Error::Other("prefix lock")));
    assert_eq!(world.steps, vec![lock.as_str(), "prefix lock"]);
    assert!(world.markers.is_empty());
    world.failing.clear();
    assert_eq!(world.close(request()), Ok(kept_proof()));
}

#[test]
fn repeated_deletion_succeeds() {
    let mut world = World::new();
    world.close(request()).unwrap();
    world.objects.insert(key("a"));
    let keys = [key("a"), key("b")];
    assert_eq!(world.delete(&kept_proof(), &keys), Ok(()));
    assert!(world.objects.is_empty());
    assert_eq!(world.delete(&kept_proof(), &keys), Ok(()));
}

#[test]
fn fewer_objects_stay_admitted() {
    let other = SCOPE.replace("root/", "another/");
    let objects = [key("a"), format!("{other}x"), "plain".to_string()];
    let mut world = World::new();
    let all = world.change(&[&objects[0], &objects[1], &objects[2]]).unwrap();
    assert_eq!(all.guards.len(), 2);
    assert_eq!(world.change(&[&objects[0], &objects[2]]).unwrap().guards.len(), 1);
    assert_eq!(world.change(&[&objects[2]]).unwrap().guards.len(), 0);
}
