//! Deleting objects of a closed prefix, one outside step at a time.

use vstd::prelude::*;

use crate::closing::Locks;
use crate::ident::Uuid;
use crate::marker::{lock_on, prefix_lock, LockName};
use crate::options::{deletion_options, GuardId, ObjectOptions};
use crate::records::{ClosedPrefixProof, ClosedPrefixProofV1, Error};
use crate::text::{
    ascending, begins_with, characters, lemma_precedes_transitive, owned_texts, precedes,
    text_precedes, texts_backwards,
};

verus! {

/// The most objects that are deleted at a time.
pub const MAX_KEYS: usize = 1_000;

/// The number of hexadecimal digits in the name of an object of a closed prefix.
pub const DIGEST_LENGTH: usize = 64;

/// Whether `c` is a hexadecimal digit and no capital letter.
pub open spec fn lower_hex(c: char) -> bool {
    '0' <= c <= '9' || 'a' <= c <= 'f'
}

/// Whether `key` is `prefix` and a digest: sixty-four hexadecimal digits.
pub open spec fn digest_below(prefix: Seq<char>, key: Seq<char>) -> bool {
    &&& begins_with(key, prefix)
    &&& key.len() == prefix.len() + DIGEST_LENGTH
    &&& forall|i: int| prefix.len() <= i < key.len() ==> lower_hex(#[trigger] key[i])
}

/// Whether objects of a prefix can be deleted together: they are not too few or too many,
/// they stand in ascending order, and each is a digest below the prefix.
pub open spec fn deletable(prefix: Seq<char>, keys: Seq<Seq<char>>) -> bool {
    &&& 0 < keys.len() <= MAX_KEYS
    &&& ascending(keys)
    &&& forall|i: int| 0 <= i < keys.len() ==> digest_below(prefix, #[trigger] keys[i])
}

/// The deletion of objects of a closed prefix, at the step that it waits for. `keys` are
/// the keys of the objects still to be deleted, the next one last.
pub enum Deletion<E> {
    /// The prefix is to be locked.
    LockPrefix { deployment: Uuid, proof: ClosedPrefixProofV1, keys: Vec<String> },
    /// The bucket's lifecycle is to be locked.
    LockBucket {
        deployment: Uuid,
        proof: ClosedPrefixProofV1,
        keys: Vec<String>,
        prefix_guard: GuardId,
    },
    /// The prefix's marker is to be read.
    ReadMarker { deployment: Uuid, proof: ClosedPrefixProofV1, keys: Vec<String>, locks: Locks },
    /// The bucket's incarnation is to be read.
    ReadIncarnation { proof: ClosedPrefixProofV1, keys: Vec<String>, locks: Locks },
    /// The locks are to be checked, before anything is deleted.
    Verify { bucket: String, keys: Vec<String>, locks: Locks },
    /// The locks are to be checked, before the next object is deleted or the deletion ends.
    CheckLocks { bucket: String, keys: Vec<String>, locks: Locks },
    /// The object with this key is to be deleted.
    DeleteObject { bucket: String, key: String, keys: Vec<String>, locks: Locks },
    /// The change to the bucket is to be made known to those who list its objects.
    Observe { bucket: String, keys: Vec<String>, locks: Locks },
    /// The deletion is over.
    Finished(Result<(), Error<E>>),
}

/// What a [`Deletion`] stands at. `keys` are the keys still to come, in order.
pub enum DeletionState<E> {
    LockPrefix { deployment: Seq<u8>, proof: ClosedPrefixProof, keys: Seq<Seq<char>> },
    LockBucket {
        deployment: Seq<u8>,
        proof: ClosedPrefixProof,
        keys: Seq<Seq<char>>,
        prefix_guard: GuardId,
    },
    ReadMarker {
        deployment: Seq<u8>,
        proof: ClosedPrefixProof,
        keys: Seq<Seq<char>>,
        locks: Locks,
    },
    ReadIncarnation { proof: ClosedPrefixProof, keys: Seq<Seq<char>>, locks: Locks },
    Verify { bucket: Seq<char>, keys: Seq<Seq<char>>, locks: Locks },
    CheckLocks { bucket: Seq<char>, keys: Seq<Seq<char>>, locks: Locks },
    DeleteObject { bucket: Seq<char>, key: Seq<char>, keys: Seq<Seq<char>>, locks: Locks },
    Observe { bucket: Seq<char>, keys: Seq<Seq<char>>, locks: Locks },
    Finished(Result<(), Error<E>>),
}

/// What a deletion waits for.
pub enum DeletionAction<'a> {
    /// Take the lock of this name, shared.
    LockShared(LockName),
    /// Take the lock on the bucket's lifecycle, shared.
    LockBucketLifecycle { bucket: &'a String },
    /// Read the marker of this prefix.
    ReadMarker { bucket: &'a String, prefix: &'a String },
    /// Read the bucket's incarnation from disk.
    ReadIncarnation { bucket: &'a String },
    /// Say whether these locks were lost.
    CheckLocks { locks: Locks },
    /// Delete this object.
    Delete { bucket: &'a String, key: &'a String, options: ObjectOptions },
    /// Make the change to this bucket known to those who list its objects.
    Observe { bucket: &'a String },
    /// Nothing.
    Finish,
}

/// What came of an outside step of a deletion.
pub enum DeletionEvent<E> {
    PrefixLocked(Result<GuardId, Error<E>>),
    BucketLocked(Result<GuardId, Error<E>>),
    Marker(Result<Option<ClosedPrefixProofV1>, Error<E>>),
    Incarnation(Result<Uuid, Error<E>>),
    LocksChecked { prefix_lost: bool, bucket_lost: bool },
    Deleted(Result<(), Error<E>>),
    Observed,
}

impl<E> View for Deletion<E> {
    type V = DeletionState<E>;

    open spec fn view(&self) -> DeletionState<E> {
        match *self {
            Deletion::LockPrefix { deployment, proof, keys } => DeletionState::LockPrefix {
                deployment: deployment@,
                proof: proof@,
                keys: texts_backwards(keys@),
            },
            Deletion::LockBucket { deployment, proof, keys, prefix_guard } => DeletionState::LockBucket {
                deployment: deployment@,
                proof: proof@,
                keys: texts_backwards(keys@),
                prefix_guard,
            },
            Deletion::ReadMarker { deployment, proof, keys, locks } => DeletionState::ReadMarker {
                deployment: deployment@,
                proof: proof@,
                keys: texts_backwards(keys@),
                locks,
            },
            Deletion::ReadIncarnation { proof, keys, locks } => DeletionState::ReadIncarnation {
                proof: proof@,
                keys: texts_backwards(keys@),
                locks,
            },
            Deletion::Verify { bucket, keys, locks } => DeletionState::Verify {
                bucket: bucket@,
                keys: texts_backwards(keys@),
                locks,
            },
            Deletion::CheckLocks { bucket, keys, locks } => DeletionState::CheckLocks {
                bucket: bucket@,
                keys: texts_backwards(keys@),
                locks,
            },
            Deletion::DeleteObject { bucket, key, keys, locks } => DeletionState::DeleteObject {
                bucket: bucket@,
                key: key@,
                keys: texts_backwards(keys@),
                locks,
            },
            Deletion::Observe { bucket, keys, locks } => DeletionState::Observe {
                bucket: bucket@,
                keys: texts_backwards(keys@),
                locks,
            },
            Deletion::Finished(outcome) => DeletionState::Finished(outcome),
        }
    }
}

impl<E> DeletionState<E> {
    /// The deletion that is begun with a proof and keys.
    pub open spec fn start(
        deployment: Seq<u8>,
        proof: ClosedPrefixProof,
        keys: Seq<Seq<char>>,
    ) -> DeletionState<E> {
        if deletable(proof.closed.prefix, keys) {
            DeletionState::LockPrefix { deployment, proof, keys }
        } else {
            DeletionState::Finished(Err(Error::PreconditionFailed))
        }
    }

    /// Whether `event` is what the deletion waits for.
    pub open spec fn awaits(self, event: DeletionEvent<E>) -> bool {
        match self {
            DeletionState::LockPrefix { .. } => event is PrefixLocked,
            DeletionState::LockBucket { .. } => event is BucketLocked,
            DeletionState::ReadMarker { .. } => event is Marker,
            DeletionState::ReadIncarnation { .. } => event is Incarnation,
            DeletionState::Verify { .. } => event is LocksChecked,
            DeletionState::CheckLocks { .. } => event is LocksChecked,
            DeletionState::DeleteObject { .. } => event is Deleted,
            DeletionState::Observe { .. } => event is Observed,
            DeletionState::Finished(_) => false,
        }
    }

    /// The deletion after `event`.
    pub open spec fn after(self, event: DeletionEvent<E>) -> DeletionState<E> {
        match (self, event) {
            (
                DeletionState::LockPrefix { deployment, proof, keys },
                DeletionEvent::PrefixLocked(locked),
            ) => match locked {
                Ok(prefix_guard) => DeletionState::LockBucket { deployment, proof, keys, prefix_guard },
                Err(error) => DeletionState::Finished(Err(error)),
            },
            (
                DeletionState::LockBucket { deployment, proof, keys, prefix_guard },
                DeletionEvent::BucketLocked(locked),
            ) => match locked {
                Ok(bucket_guard) => DeletionState::ReadMarker {
                    deployment,
                    proof,
                    keys,
                    locks: Locks { prefix: prefix_guard, bucket: bucket_guard },
                },
                Err(error) => DeletionState::Finished(Err(error)),
            },
            (
                DeletionState::ReadMarker { deployment, proof, keys, locks },
                DeletionEvent::Marker(read),
            ) => match read {
                Ok(marker) => if marker is Some && marker->0@ == proof && deployment
                    == proof.provider_deployment {
                    DeletionState::ReadIncarnation { proof, keys, locks }
                } else {
                    DeletionState::Finished(Err(Error::PreconditionFailed))
                },
                Err(error) => DeletionState::Finished(Err(error)),
            },
            (
                DeletionState::ReadIncarnation { proof, keys, locks },
                DeletionEvent::Incarnation(read),
            ) => match read {
                Ok(incarnation) => if incarnation@ == proof.bucket_incarnation {
                    DeletionState::Verify { bucket: proof.closed.bucket, keys, locks }
                } else {
                    DeletionState::Finished(Err(Error::PreconditionFailed))
                },
                Err(error) => DeletionState::Finished(Err(error)),
            },
            (
                DeletionState::Verify { bucket, keys, locks },
                DeletionEvent::LocksChecked { prefix_lost, bucket_lost },
            ) => if prefix_lost || bucket_lost {
                DeletionState::Finished(Err(Error::PreconditionFailed))
            } else {
                DeletionState::CheckLocks { bucket, keys, locks }
            },
            (
                DeletionState::CheckLocks { bucket, keys, locks },
                DeletionEvent::LocksChecked { prefix_lost, bucket_lost },
            ) => if prefix_lost || bucket_lost {
                DeletionState::Finished(Err(Error::PreconditionFailed))
            } else if keys.len() == 0 {
                DeletionState::Finished(Ok(()))
            } else {
                DeletionState::DeleteObject { bucket, key: keys[0], keys: keys.skip(1), locks }
            },
            (
                DeletionState::DeleteObject { bucket, keys, locks, .. },
                DeletionEvent::Deleted(deleted),
            ) => match deleted {
                Err(error) if !error.says_absent() => DeletionState::Finished(Err(error)),
                _ => DeletionState::Observe { bucket, keys, locks },
            },
            (DeletionState::Observe { bucket, keys, locks }, DeletionEvent::Observed) => {
                DeletionState::CheckLocks { bucket, keys, locks }
            },
            (waiting, _) => waiting,
        }
    }
}

impl<E> Deletion<E> {
    /// Begins to delete objects of a closed prefix.
    pub fn begin(deployment: Uuid, proof: &ClosedPrefixProofV1, keys: &[String]) -> (deletion: Deletion<
        E,
    >)
        ensures
            deletion@ == DeletionState::<E>::start(deployment@, proof@, owned_texts(keys@)),
    {
        if !are_deletable(proof.closed.prefix.as_str(), keys) {
            return Deletion::Finished(Err(Error::PreconditionFailed));
        }
        Deletion::LockPrefix { deployment, proof: proof.clone(), keys: backwards(keys) }
    }

    /// What the deletion waits for.
    pub fn action(&self) -> (action: DeletionAction<'_>)
        ensures
            match self@ {
                DeletionState::LockPrefix { proof, .. } => action matches DeletionAction::LockShared(
                    name,
                ) && name@ == lock_on(proof.closed.bucket, proof.closed.prefix),
                DeletionState::LockBucket { proof, .. } => action matches DeletionAction::LockBucketLifecycle {
                    bucket,
                } && bucket@ == proof.closed.bucket,
                DeletionState::ReadMarker { proof, .. } => action matches DeletionAction::ReadMarker {
                    bucket,
                    prefix,
                } && bucket@ == proof.closed.bucket && prefix@ == proof.closed.prefix,
                DeletionState::ReadIncarnation { proof, .. } => action matches DeletionAction::ReadIncarnation {
                    bucket,
                } && bucket@ == proof.closed.bucket,
                DeletionState::Verify { locks: held, .. } => action matches DeletionAction::CheckLocks {
                    locks,
                } && locks == held,
                DeletionState::CheckLocks { locks: held, .. } => action matches DeletionAction::CheckLocks {
                    locks,
                } && locks == held,
                DeletionState::DeleteObject { bucket: b, key: k, locks: held, .. } => action matches DeletionAction::Delete {
                    bucket,
                    key,
                    options,
                } && bucket@ == b && key@ == k && options@ == deletion_options(held.prefix, held.bucket),
                DeletionState::Observe { bucket: b, .. } => action matches DeletionAction::Observe {
                    bucket,
                } && bucket@ == b,
                DeletionState::Finished(_) => action is Finish,
            },
    {
        match self {
            Deletion::LockPrefix { proof, .. } => DeletionAction::LockShared(
                prefix_lock(proof.closed.bucket.as_str(), proof.closed.prefix.as_str()),
            ),
            Deletion::LockBucket { proof, .. } => DeletionAction::LockBucketLifecycle {
                bucket: &proof.closed.bucket,
            },
            Deletion::ReadMarker { proof, .. } => DeletionAction::ReadMarker {
                bucket: &proof.closed.bucket,
                prefix: &proof.closed.prefix,
            },
            Deletion::ReadIncarnation { proof, .. } => DeletionAction::ReadIncarnation {
                bucket: &proof.closed.bucket,
            },
            Deletion::Verify { locks, .. } => DeletionAction::CheckLocks { locks: *locks },
            Deletion::CheckLocks { locks, .. } => DeletionAction::CheckLocks { locks: *locks },
            Deletion::DeleteObject { bucket, key, locks, .. } => DeletionAction::Delete {
                bucket,
                key,
                options: ObjectOptions::for_deletion(locks.prefix, locks.bucket),
            },
            Deletion::Observe { bucket, .. } => DeletionAction::Observe { bucket },
            Deletion::Finished(_) => DeletionAction::Finish,
        }
    }

    /// Goes on with the deletion. An event that it does not wait for leaves it as it is.
    pub fn step(self, event: DeletionEvent<E>) -> (next: Deletion<E>)
        ensures
            next@ == self@.after(event),
    {
        match (self, event) {
            (
                Deletion::LockPrefix { deployment, proof, keys },
                DeletionEvent::PrefixLocked(locked),
            ) => match locked {
                Ok(prefix_guard) => Deletion::LockBucket { deployment, proof, keys, prefix_guard },
                Err(error) => Deletion::Finished(Err(error)),
            },
            (
                Deletion::LockBucket { deployment, proof, keys, prefix_guard },
                DeletionEvent::BucketLocked(locked),
            ) => match locked {
                Ok(bucket_guard) => Deletion::ReadMarker {
                    deployment,
                    proof,
                    keys,
                    locks: Locks { prefix: prefix_guard, bucket: bucket_guard },
                },
                Err(error) => Deletion::Finished(Err(error)),
            },
            (Deletion::ReadMarker { deployment, proof, keys, locks }, DeletionEvent::Marker(read)) => {
                match read {
                    Ok(Some(marker)) => {
                        if marker.same(&proof) && deployment.same(&proof.provider_deployment) {
                            Deletion::ReadIncarnation { proof, keys, locks }
                        } else {
                            Deletion::Finished(Err(Error::PreconditionFailed))
                        }
                    },
                    Ok(None) => Deletion::Finished(Err(Error::PreconditionFailed)),
                    Err(error) => Deletion::Finished(Err(error)),
                }
            },
            (Deletion::ReadIncarnation { proof, keys, locks }, DeletionEvent::Incarnation(read)) => {
                match read {
                    Ok(incarnation) => {
                        if incarnation.same(&proof.bucket_incarnation) {
                            Deletion::Verify { bucket: proof.closed.bucket, keys, locks }
                        } else {
                            Deletion::Finished(Err(Error::PreconditionFailed))
                        }
                    },
                    Err(error) => Deletion::Finished(Err(error)),
                }
            },
            (
                Deletion::Verify { bucket, keys, locks },
                DeletionEvent::LocksChecked { prefix_lost, bucket_lost },
            ) => {
                if prefix_lost || bucket_lost {
                    Deletion::Finished(Err(Error::PreconditionFailed))
                } else {
                    Deletion::CheckLocks { bucket, keys, locks }
                }
            },
            (
                Deletion::CheckLocks { bucket, keys, locks },
                DeletionEvent::LocksChecked { prefix_lost, bucket_lost },
            ) => {
                if prefix_lost || bucket_lost {
                    Deletion::Finished(Err(Error::PreconditionFailed))
                } else {
                    Deletion::next_object(bucket, keys, locks)
                }
            },
            (
                Deletion::DeleteObject { bucket, keys, locks, .. },
                DeletionEvent::Deleted(deleted),
            ) => match deleted {
                Ok(_) => Deletion::Observe { bucket, keys, locks },
                Err(error) => {
                    if error.is_absent() {
                        Deletion::Observe { bucket, keys, locks }
                    } else {
                        Deletion::Finished(Err(error))
                    }
                },
            },
            (Deletion::Observe { bucket, keys, locks }, DeletionEvent::Observed) => {
                Deletion::CheckLocks { bucket, keys, locks }
            },
            (waiting, _) => waiting,
        }
    }

    /// Goes on to the next object, if there is one.
    fn next_object(bucket: String, keys: Vec<String>, locks: Locks) -> (next: Deletion<E>)
        ensures
            next@ == (if keys@.len() == 0 {
                DeletionState::<E>::Finished(Ok(()))
            } else {
                DeletionState::<E>::DeleteObject {
                    bucket: bucket@,
                    key: texts_backwards(keys@)[0],
                    keys: texts_backwards(keys@).skip(1),
                    locks,
                }
            }),
    {
        let mut keys = keys;
        let ghost all = texts_backwards(keys@);
        match keys.pop() {
            Some(key) => {
                assert(key@ == all[0]);
                assert(texts_backwards(keys@) =~= all.skip(1));
                Deletion::DeleteObject { bucket, key, keys, locks }
            },
            None => Deletion::Finished(Ok(())),
        }
    }
}

/// A copy of a list of strings, from its end to its start.
fn backwards(strings: &[String]) -> (copy: Vec<String>)
    ensures
        texts_backwards(copy@) == owned_texts(strings@),
{
    let mut copy: Vec<String> = Vec::new();
    let mut i: usize = strings.len();
    while i > 0
        invariant
            i <= strings@.len(),
            texts_backwards(copy@) == owned_texts(strings@).skip(i as int),
        decreases i,
    {
        i -= 1;
        let ghost done = texts_backwards(copy@);
        copy.push(strings[i].clone());
        assert(texts_backwards(copy@) =~= seq![strings@[i as int]@] + done);
        assert(owned_texts(strings@).skip(i as int) =~= seq![strings@[i as int]@] + done);
    }
    assert(owned_texts(strings@).skip(0) == owned_texts(strings@));
    copy
}

/// Whether `key` is `prefix` and a digest.
pub fn is_digest_below(prefix: &str, key: &str) -> (is: bool)
    ensures
        is == digest_below(prefix@, key@),
{
    let start = characters(prefix);
    let whole = characters(key);
    if whole.len() < start.len() || whole.len() - start.len() != DIGEST_LENGTH {
        return false;
    }
    let mut i: usize = 0;
    while i < whole.len()
        invariant
            i <= whole@.len(),
            start@ == prefix@,
            whole@ == key@,
            whole@.len() == start@.len() + DIGEST_LENGTH,
            forall|j: int| 0 <= j < i && j < start@.len() ==> whole@[j] == start@[j],
            forall|j: int| start@.len() <= j < i ==> lower_hex(#[trigger] whole@[j]),
        decreases whole@.len() - i,
    {
        let c = whole[i];
        if i < start.len() {
            if c != start[i] {
                assert(whole@.take(start@.len() as int)[i as int] == c);
                return false;
            }
        } else if !(('0' <= c && c <= '9') || ('a' <= c && c <= 'f')) {
            assert(!lower_hex(key@[i as int]));
            return false;
        }
        i += 1;
    }
    assert(whole@.take(start@.len() as int) =~= start@);
    true
}

/// Whether objects of a prefix can be deleted together.
pub fn are_deletable(prefix: &str, keys: &[String]) -> (are: bool)
    ensures
        are == deletable(prefix@, owned_texts(keys@)),
{
    if keys.len() == 0 || keys.len() > MAX_KEYS {
        return false;
    }
    let ghost all = owned_texts(keys@);
    let mut i: usize = 0;
    while i < keys.len()
        invariant
            i <= keys@.len(),
            all == owned_texts(keys@),
            ascending(all.take(i as int)),
            forall|j: int| 0 <= j < i ==> digest_below(prefix@, #[trigger] all[j]),
        decreases keys@.len() - i,
    {
        assert(all[i as int] == keys@[i as int]@);
        if i > 0 && !text_precedes(keys[i - 1].as_str(), keys[i].as_str()) {
            assert(all[i - 1] == keys@[i - 1]@);
            assert(!ascending(all));
            return false;
        }
        if !is_digest_below(prefix, keys[i].as_str()) {
            return false;
        }
        proof {
            let ready = all.take(i as int);
            let more = all.take(i + 1);
            assert forall|a: int, b: int| 0 <= a < b < more.len() implies precedes(
                more[a],
                more[b],
            ) by {
                if b < i {
                    assert(precedes(ready[a], ready[b]));
                } else {
                    assert(all[i - 1] == keys@[i - 1]@);
                    if a < i - 1 {
                        assert(precedes(ready[a], ready[i - 1]));
                        lemma_precedes_transitive(all[a], all[i - 1], all[i as int]);
                    }
                }
            }
        }
        i += 1;
    }
    assert(all.take(i as int) == all);
    true
}

} // verus!
