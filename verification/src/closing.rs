//! Closing a prefix, one outside step at a time.

use vstd::prelude::*;

use crate::ident::{all_zero, Uuid};
use crate::marker::{
    lock_on, marker_key, marker_key_text, prefix_lock, Lock, LockName, MARKER_MAX_BYTES,
};
use crate::options::{marker_options, GuardId, ObjectOptions};
use crate::records::{ClosedPrefix, ClosedPrefixProofV1, ClosedPrefixV1, Error};
use crate::scope_laws::law_scopes_are_the_scope_prefixes;
use crate::scopes::{is_scope, object_scopes, scopes};
use crate::text::{same_text, texts};

verus! {

/// Whether a request can be granted: its prefix is a scope, its operation is not nil, and
/// its context is not all zeros.
pub open spec fn closable(requested: ClosedPrefix) -> bool {
    &&& is_scope(requested.prefix)
    &&& !all_zero(requested.operation)
    &&& !all_zero(requested.context_sha256)
}

/// The locks under which a prefix is closed, or its objects are deleted.
#[derive(Clone, Copy, Debug, PartialEq, Eq)]
pub struct Locks {
    pub prefix: GuardId,
    pub bucket: GuardId,
}

/// The closing of a prefix, at the step that it waits for.
pub enum Closing<E> {
    /// The prefix is to be locked.
    LockPrefix { deployment: Uuid, requested: ClosedPrefixV1 },
    /// The bucket's lifecycle is to be locked. Changes to objects take the lock on the
    /// prefix before that on the bucket's lifecycle too.
    LockBucket { deployment: Uuid, requested: ClosedPrefixV1, prefix_guard: GuardId },
    /// The bucket's incarnation is to be read.
    ReadIncarnation { deployment: Uuid, requested: ClosedPrefixV1, locks: Locks },
    /// The prefix's marker is to be read, to see whether there is one.
    ReadMarker { proof: ClosedPrefixProofV1, locks: Locks },
    /// The proof is to be encoded.
    EncodeMarker { proof: ClosedPrefixProofV1, locks: Locks },
    /// The encoded proof is to be written as the prefix's marker.
    SaveMarker { proof: ClosedPrefixProofV1, locks: Locks, bytes: Vec<u8> },
    /// The locks are to be checked.
    CheckLocks { proof: ClosedPrefixProofV1, locks: Locks },
    /// The prefix's marker is to be read, to see whether it is the proof.
    ConfirmMarker { proof: ClosedPrefixProofV1 },
    /// The closing is over.
    Finished(Result<ClosedPrefixProofV1, Error<E>>),
}

/// What a closing waits for.
pub enum ClosingAction<'a> {
    /// Take the lock of this name, for oneself alone.
    LockExclusive(LockName),
    /// Take the lock on the bucket's lifecycle, for oneself alone.
    LockBucketLifecycle { bucket: &'a String },
    /// Read the bucket's incarnation from disk.
    ReadIncarnation { bucket: &'a String },
    /// Read the marker of this prefix.
    ReadMarker { bucket: &'a String, prefix: &'a String },
    /// Encode this proof.
    Encode { proof: &'a ClosedPrefixProofV1 },
    /// Write these bytes under this key, in the bucket that the server keeps its metadata
    /// in.
    Save { key: String, bytes: &'a Vec<u8>, options: ObjectOptions },
    /// Say whether these locks were lost.
    CheckLocks { locks: Locks },
    /// Nothing.
    Finish,
}

/// What came of an outside step of a closing.
pub enum ClosingEvent<E> {
    PrefixLocked(Result<GuardId, Error<E>>),
    BucketLocked(Result<GuardId, Error<E>>),
    Incarnation(Result<Uuid, Error<E>>),
    Marker(Result<Option<ClosedPrefixProofV1>, Error<E>>),
    /// The encoded proof, or none if it could not be encoded.
    Encoded(Option<Vec<u8>>),
    Saved(Result<(), Error<E>>),
    LocksChecked { prefix_lost: bool, bucket_lost: bool },
}

impl<E> Closing<E> {
    /// The closing that is begun by a request.
    pub open spec fn start(deployment: Uuid, requested: ClosedPrefixV1) -> Closing<E> {
        if closable(requested@) {
            Closing::LockPrefix { deployment, requested }
        } else {
            Closing::Finished(Err(Error::PreconditionFailed))
        }
    }

    /// The lock that the closing waits for, for itself alone, if it is the prefix's that it
    /// waits for.
    pub open spec fn exclusive_lock(self) -> Option<Lock> {
        match self {
            Closing::LockPrefix { requested, .. } => Some(
                lock_on(requested.bucket@, requested.prefix@),
            ),
            _ => None,
        }
    }

    /// Whether `event` is what the closing waits for.
    pub open spec fn awaits(self, event: ClosingEvent<E>) -> bool {
        match self {
            Closing::LockPrefix { .. } => event is PrefixLocked,
            Closing::LockBucket { .. } => event is BucketLocked,
            Closing::ReadIncarnation { .. } => event is Incarnation,
            Closing::ReadMarker { .. } => event is Marker,
            Closing::EncodeMarker { .. } => event is Encoded,
            Closing::SaveMarker { .. } => event is Saved,
            Closing::CheckLocks { .. } => event is LocksChecked,
            Closing::ConfirmMarker { .. } => event is Marker,
            Closing::Finished(_) => false,
        }
    }

    /// The closing after `event`.
    pub open spec fn after(self, event: ClosingEvent<E>) -> Closing<E> {
        match (self, event) {
            (Closing::LockPrefix { deployment, requested }, ClosingEvent::PrefixLocked(locked)) => {
                match locked {
                    Ok(prefix_guard) => Closing::LockBucket { deployment, requested, prefix_guard },
                    Err(error) => Closing::Finished(Err(error)),
                }
            },
            (
                Closing::LockBucket { deployment, requested, prefix_guard },
                ClosingEvent::BucketLocked(locked),
            ) => match locked {
                Ok(bucket_guard) => Closing::ReadIncarnation {
                    deployment,
                    requested,
                    locks: Locks { prefix: prefix_guard, bucket: bucket_guard },
                },
                Err(error) => Closing::Finished(Err(error)),
            },
            (
                Closing::ReadIncarnation { deployment, requested, locks },
                ClosingEvent::Incarnation(read),
            ) => match read {
                Ok(incarnation) => Closing::ReadMarker {
                    proof: ClosedPrefixProofV1 {
                        closed: requested,
                        provider_deployment: deployment,
                        bucket_incarnation: incarnation,
                    },
                    locks,
                },
                Err(error) => Closing::Finished(Err(error)),
            },
            (Closing::ReadMarker { proof, locks }, ClosingEvent::Marker(read)) => match read {
                Ok(Some(existing)) => if existing@ == proof@ {
                    Closing::CheckLocks { proof, locks }
                } else {
                    Closing::Finished(Err(Error::PreconditionFailed))
                },
                Ok(None) => Closing::EncodeMarker { proof, locks },
                Err(error) => Closing::Finished(Err(error)),
            },
            (Closing::EncodeMarker { proof, locks }, ClosingEvent::Encoded(encoded)) => match encoded {
                Some(bytes) => if bytes@.len() <= MARKER_MAX_BYTES {
                    Closing::SaveMarker { proof, locks, bytes }
                } else {
                    Closing::Finished(Err(Error::PreconditionFailed))
                },
                None => Closing::Finished(Err(Error::CorruptedFormat)),
            },
            (Closing::SaveMarker { proof, locks, .. }, ClosingEvent::Saved(saved)) => match saved {
                Ok(_) => Closing::CheckLocks { proof, locks },
                Err(error) => Closing::Finished(Err(error)),
            },
            (
                Closing::CheckLocks { proof, .. },
                ClosingEvent::LocksChecked { prefix_lost, bucket_lost },
            ) => if prefix_lost || bucket_lost {
                Closing::Finished(Err(Error::PreconditionFailed))
            } else {
                Closing::ConfirmMarker { proof }
            },
            (Closing::ConfirmMarker { proof }, ClosingEvent::Marker(read)) => match read {
                Ok(Some(existing)) if existing@ == proof@ => Closing::Finished(Ok(proof)),
                Ok(_) => Closing::Finished(Err(Error::PreconditionFailed)),
                Err(error) => Closing::Finished(Err(error)),
            },
            (waiting, _) => waiting,
        }
    }

    /// Begins to close a prefix.
    pub fn begin(deployment: Uuid, requested: ClosedPrefixV1) -> (closing: Closing<E>)
        ensures
            closing == Closing::<E>::start(deployment, requested),
    {
        if is_closable(&requested) {
            Closing::LockPrefix { deployment, requested }
        } else {
            Closing::Finished(Err(Error::PreconditionFailed))
        }
    }

    /// What the closing waits for.
    pub fn action(&self) -> (action: ClosingAction<'_>)
        ensures
            match *self {
                Closing::LockPrefix { requested, .. } => action matches ClosingAction::LockExclusive(
                    name,
                ) && name@ == lock_on(requested.bucket@, requested.prefix@),
                Closing::LockBucket { requested, .. } => action matches ClosingAction::LockBucketLifecycle {
                    bucket,
                } && *bucket == requested.bucket,
                Closing::ReadIncarnation { requested, .. } => action matches ClosingAction::ReadIncarnation {
                    bucket,
                } && *bucket == requested.bucket,
                Closing::ReadMarker { proof, .. } => action matches ClosingAction::ReadMarker {
                    bucket,
                    prefix,
                } && *bucket == proof.closed.bucket && *prefix == proof.closed.prefix,
                Closing::EncodeMarker { proof: held, .. } => action matches ClosingAction::Encode {
                    proof,
                } && *proof == held,
                Closing::SaveMarker { proof, bytes: held, .. } => action matches ClosingAction::Save {
                    key,
                    bytes,
                    options,
                } && key@ == marker_key_text(proof.closed.bucket@, proof.closed.prefix@) && *bytes
                    == held && options@ == marker_options(),
                Closing::CheckLocks { locks: held, .. } => action matches ClosingAction::CheckLocks {
                    locks,
                } && locks == held,
                Closing::ConfirmMarker { proof } => action matches ClosingAction::ReadMarker {
                    bucket,
                    prefix,
                } && *bucket == proof.closed.bucket && *prefix == proof.closed.prefix,
                Closing::Finished(_) => action is Finish,
            },
    {
        match self {
            Closing::LockPrefix { requested, .. } => ClosingAction::LockExclusive(
                prefix_lock(requested.bucket.as_str(), requested.prefix.as_str()),
            ),
            Closing::LockBucket { requested, .. } => ClosingAction::LockBucketLifecycle {
                bucket: &requested.bucket,
            },
            Closing::ReadIncarnation { requested, .. } => ClosingAction::ReadIncarnation {
                bucket: &requested.bucket,
            },
            Closing::ReadMarker { proof, .. } => ClosingAction::ReadMarker {
                bucket: &proof.closed.bucket,
                prefix: &proof.closed.prefix,
            },
            Closing::EncodeMarker { proof, .. } => ClosingAction::Encode { proof },
            Closing::SaveMarker { proof, bytes, .. } => ClosingAction::Save {
                key: marker_key(proof.closed.bucket.as_str(), proof.closed.prefix.as_str()),
                bytes,
                options: ObjectOptions::for_marker(),
            },
            Closing::CheckLocks { locks, .. } => ClosingAction::CheckLocks { locks: *locks },
            Closing::ConfirmMarker { proof } => ClosingAction::ReadMarker {
                bucket: &proof.closed.bucket,
                prefix: &proof.closed.prefix,
            },
            Closing::Finished(_) => ClosingAction::Finish,
        }
    }

    /// Goes on with the closing. An event that it does not wait for leaves it as it is.
    pub fn step(self, event: ClosingEvent<E>) -> (next: Closing<E>)
        ensures
            next == self.after(event),
    {
        match (self, event) {
            (Closing::LockPrefix { deployment, requested }, ClosingEvent::PrefixLocked(locked)) => {
                match locked {
                    Ok(prefix_guard) => Closing::LockBucket { deployment, requested, prefix_guard },
                    Err(error) => Closing::Finished(Err(error)),
                }
            },
            (
                Closing::LockBucket { deployment, requested, prefix_guard },
                ClosingEvent::BucketLocked(locked),
            ) => match locked {
                Ok(bucket_guard) => Closing::ReadIncarnation {
                    deployment,
                    requested,
                    locks: Locks { prefix: prefix_guard, bucket: bucket_guard },
                },
                Err(error) => Closing::Finished(Err(error)),
            },
            (
                Closing::ReadIncarnation { deployment, requested, locks },
                ClosingEvent::Incarnation(read),
            ) => match read {
                Ok(incarnation) => Closing::ReadMarker {
                    proof: ClosedPrefixProofV1 {
                        closed: requested,
                        provider_deployment: deployment,
                        bucket_incarnation: incarnation,
                    },
                    locks,
                },
                Err(error) => Closing::Finished(Err(error)),
            },
            (Closing::ReadMarker { proof, locks }, ClosingEvent::Marker(read)) => match read {
                Ok(Some(existing)) => {
                    if existing.same(&proof) {
                        Closing::CheckLocks { proof, locks }
                    } else {
                        Closing::Finished(Err(Error::PreconditionFailed))
                    }
                },
                Ok(None) => Closing::EncodeMarker { proof, locks },
                Err(error) => Closing::Finished(Err(error)),
            },
            (Closing::EncodeMarker { proof, locks }, ClosingEvent::Encoded(encoded)) => match encoded {
                Some(bytes) => {
                    if bytes.len() <= MARKER_MAX_BYTES {
                        Closing::SaveMarker { proof, locks, bytes }
                    } else {
                        Closing::Finished(Err(Error::PreconditionFailed))
                    }
                },
                None => Closing::Finished(Err(Error::CorruptedFormat)),
            },
            (Closing::SaveMarker { proof, locks, .. }, ClosingEvent::Saved(saved)) => match saved {
                Ok(_) => Closing::CheckLocks { proof, locks },
                Err(error) => Closing::Finished(Err(error)),
            },
            (
                Closing::CheckLocks { proof, .. },
                ClosingEvent::LocksChecked { prefix_lost, bucket_lost },
            ) => {
                if prefix_lost || bucket_lost {
                    Closing::Finished(Err(Error::PreconditionFailed))
                } else {
                    Closing::ConfirmMarker { proof }
                }
            },
            (Closing::ConfirmMarker { proof }, ClosingEvent::Marker(read)) => match read {
                Ok(Some(existing)) => {
                    if existing.same(&proof) {
                        Closing::Finished(Ok(proof))
                    } else {
                        Closing::Finished(Err(Error::PreconditionFailed))
                    }
                },
                Ok(None) => Closing::Finished(Err(Error::PreconditionFailed)),
                Err(error) => Closing::Finished(Err(error)),
            },
            (waiting, _) => waiting,
        }
    }
}

/// Whether a request can be granted.
pub fn is_closable(requested: &ClosedPrefixV1) -> (is: bool)
    ensures
        is == closable(requested@),
{
    if requested.operation.is_nil() || is_all_zero(requested.context_sha256.as_slice()) {
        return false;
    }
    is_scope_text(requested.prefix.as_str())
}

/// Whether every byte is zero.
fn is_all_zero(bytes: &[u8]) -> (is: bool)
    ensures
        is == all_zero(bytes@),
{
    let mut i: usize = 0;
    while i < bytes.len()
        invariant
            i <= bytes@.len(),
            forall|j: int| 0 <= j < i ==> bytes@[j] == 0,
        decreases bytes@.len() - i,
    {
        if bytes[i] != 0 {
            return false;
        }
        i += 1;
    }
    true
}

/// Whether a string is a scope: it is then one of its own.
pub fn is_scope_text(s: &str) -> (is: bool)
    ensures
        is == is_scope(s@),
{
    let found = object_scopes(s);
    proof {
        assert(s@.take(s@.len() as int) == s@);
        law_scopes_are_the_scope_prefixes(s@, s@);
    }
    let mut i: usize = 0;
    while i < found.len()
        invariant
            i <= found@.len(),
            texts(found@) == scopes(s@),
            is_scope(s@) <==> scopes(s@).contains(s@),
            forall|j: int| 0 <= j < i ==> #[trigger] texts(found@)[j] != s@,
        decreases found@.len() - i,
    {
        if same_text(found[i], s) {
            assert(texts(found@)[i as int] == s@);
            return true;
        }
        assert(texts(found@)[i as int] == found@[i as int]@);
        i += 1;
    }
    false
}

} // verus!
