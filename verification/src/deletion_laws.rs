//! What holds of every deletion.

use vstd::prelude::*;

use crate::closing::Locks;
use crate::deletion::{
    deletable, digest_below, lower_hex, Deletion, DeletionEvent, DeletionState,
};
use crate::ident::hex_value;
use crate::records::{ClosedPrefixProof, Error};
use crate::scope_laws::law_scopes_are_the_scope_prefixes;
use crate::scopes::{is_scope, scopes};
use crate::text::{hex_digit, hex_text, owned_texts};
use crate::text_laws::{earlier, law_ascending_is_pairwise, law_texts_backwards_are_reversed};

verus! {

impl<E> DeletionState<E> {
    /// The deletion after all of `events`.
    pub open spec fn run(self, events: Seq<DeletionEvent<E>>) -> DeletionState<E>
        decreases events.len(),
    {
        if events.len() == 0 {
            self
        } else {
            self.run(events.drop_last()).after(events.last())
        }
    }

    /// Whether each of `events` is what the deletion waits for when it comes.
    pub open spec fn answered(self, events: Seq<DeletionEvent<E>>) -> bool {
        forall|i: int|
            0 <= i < events.len() ==> self.run(events.take(i)).awaits(#[trigger] events[i])
    }
}

/// Whether `event` says that both locks are held.
pub open spec fn locks_held<E>(event: DeletionEvent<E>) -> bool {
    event matches DeletionEvent::LocksChecked { prefix_lost, bucket_lost } && !prefix_lost
        && !bucket_lost
}

/// Whether both locks were had.
pub open spec fn locked<E>(events: Seq<DeletionEvent<E>>) -> bool {
    &&& events.len() >= 2
    &&& events[0] matches DeletionEvent::PrefixLocked(Ok(_))
    &&& events[1] matches DeletionEvent::BucketLocked(Ok(_))
}

/// Whether `locks` are those that were had: that on the prefix first, then that on the
/// bucket's lifecycle.
pub open spec fn under<E>(events: Seq<DeletionEvent<E>>, locks: Locks) -> bool {
    &&& events.len() >= 2
    &&& events[0] == DeletionEvent::<E>::PrefixLocked(Ok(locks.prefix))
    &&& events[1] == DeletionEvent::<E>::BucketLocked(Ok(locks.bucket))
}

/// Whether the prefix's marker was found to be the proof, made at this deployment.
pub open spec fn marked<E>(
    events: Seq<DeletionEvent<E>>,
    deployment: Seq<u8>,
    proof: ClosedPrefixProof,
) -> bool {
    &&& locked(events)
    &&& events.len() >= 3
    &&& events[2] matches DeletionEvent::Marker(Ok(Some(marker))) && marker@ == proof
    &&& proof.provider_deployment == deployment
}

/// Whether the proof was found to be of this deployment and of the bucket's incarnation, and
/// the locks to be held.
pub open spec fn verified<E>(
    events: Seq<DeletionEvent<E>>,
    deployment: Seq<u8>,
    proof: ClosedPrefixProof,
) -> bool {
    &&& marked(events, deployment, proof)
    &&& events.len() >= 5
    &&& events[3] matches DeletionEvent::Incarnation(Ok(read)) && read@ == proof.bucket_incarnation
    &&& locks_held(events[4])
}

/// Whether the object with index `i` is gone: it was deleted, or was found not to be there.
/// The locks were held before, and the change was made known after.
pub open spec fn gone<E>(events: Seq<DeletionEvent<E>>, i: int) -> bool {
    &&& events.len() >= 3 * i + 8
    &&& locks_held(events[3 * i + 5])
    &&& events[3 * i + 6] matches DeletionEvent::Deleted(deleted) && (deleted matches Err(error)
        ==> error.says_absent())
    &&& events[3 * i + 7] is Observed
}

/// What came before, if a deletion of `keys` stands at `s` after `events`, each of which it
/// waited for: nothing is deleted before the proof is verified, the objects are taken in
/// turn, and those before the one at hand are gone.
pub open spec fn deletion_history<E>(
    deployment: Seq<u8>,
    proof: ClosedPrefixProof,
    keys: Seq<Seq<char>>,
    events: Seq<DeletionEvent<E>>,
    s: DeletionState<E>,
) -> bool {
    let n = events.len() as int;
    match s {
        DeletionState::LockPrefix { deployment: d, proof: p, keys: k } => n == 0 && d == deployment
            && p == proof && k == keys,
        DeletionState::LockBucket { deployment: d, proof: p, keys: k, prefix_guard } => n == 1 && d
            == deployment && p == proof && k == keys && events[0]
            == DeletionEvent::<E>::PrefixLocked(Ok(prefix_guard)),
        DeletionState::ReadMarker { deployment: d, proof: p, keys: k, locks } => n == 2 && d
            == deployment && p == proof && k == keys && under(events, locks),
        DeletionState::ReadIncarnation { proof: p, keys: k, locks } => n == 3 && p == proof && k
            == keys && under(events, locks) && marked(events, deployment, proof),
        DeletionState::Verify { bucket, keys: k, locks } => n == 4 && bucket == proof.closed.bucket
            && k == keys && under(events, locks) && marked(events, deployment, proof) && (
        events[3] matches DeletionEvent::Incarnation(Ok(read)) && read@ == proof.bucket_incarnation),
        DeletionState::CheckLocks { bucket, keys: later, locks } => {
            let i = keys.len() - later.len();
            &&& under(events, locks)
            &&& bucket == proof.closed.bucket
            &&& 0 <= i && later == keys.skip(i)
            &&& n == 3 * i + 5 && verified(events, deployment, proof)
            &&& forall|j: int| 0 <= j < i ==> #[trigger] gone(events, j)
        },
        DeletionState::DeleteObject { bucket, key, keys: later, locks } => {
            let i = keys.len() - later.len() - 1;
            &&& under(events, locks)
            &&& bucket == proof.closed.bucket
            &&& 0 <= i && key == keys[i] && later == keys.skip(i + 1)
            &&& n == 3 * i + 6 && verified(events, deployment, proof) && locks_held(events[n - 1])
            &&& forall|j: int| 0 <= j < i ==> #[trigger] gone(events, j)
        },
        DeletionState::Observe { bucket, keys: later, locks } => {
            let i = keys.len() - later.len() - 1;
            &&& under(events, locks)
            &&& bucket == proof.closed.bucket
            &&& 0 <= i && later == keys.skip(i + 1)
            &&& n == 3 * i + 7 && verified(events, deployment, proof) && locks_held(events[n - 2])
            &&& events[n - 1] matches DeletionEvent::Deleted(deleted) && (
            deleted matches Err(error) ==> error.says_absent())
            &&& forall|j: int| 0 <= j < i ==> #[trigger] gone(events, j)
        },
        DeletionState::Finished(Ok(_)) => deleted_all(deployment, proof, keys.len(), events),
        DeletionState::Finished(Err(_)) => !deleted_all(deployment, proof, keys.len(), events),
    }
}

/// Whether the proof was verified, each of `count` objects is gone, and the locks were held
/// to the end.
pub open spec fn deleted_all<E>(
    deployment: Seq<u8>,
    proof: ClosedPrefixProof,
    count: nat,
    events: Seq<DeletionEvent<E>>,
) -> bool {
    &&& verified(events, deployment, proof)
    &&& events.len() == 3 * count + 6
    &&& forall|j: int| 0 <= j < count ==> #[trigger] gone(events, j)
    &&& locks_held(events.last())
}

/// Whether `key` is `prefix` and the thirty-two bytes `digest` in lower-case hexadecimal.
pub open spec fn named_by(key: Seq<char>, prefix: Seq<char>, digest: Seq<u8>) -> bool {
    digest.len() == 32 && key == prefix + hex_text(digest)
}

/// Whether `key` is `prefix` and some digest.
pub open spec fn named_by_some(key: Seq<char>, prefix: Seq<char>) -> bool {
    exists|digest: Seq<u8>| #[trigger] named_by(key, prefix, digest)
}

/// Whether `keys` are 1 to 1000 keys, the smaller before the greater, and each of them
/// `prefix` and some digest.
pub open spec fn digests_in_order(prefix: Seq<char>, keys: Seq<Seq<char>>) -> bool {
    &&& 1 <= keys.len() <= 1000
    &&& forall|i: int, j: int|
        0 <= i < j < keys.len() ==> earlier(#[trigger] keys[i], #[trigger] keys[j])
    &&& forall|i: int| 0 <= i < keys.len() ==> named_by_some(#[trigger] keys[i], prefix)
}

/// The byte that two hexadecimal digits denote.
spec fn byte_of(high: char, low: char) -> u8 {
    (hex_value(high)->0 * 16 + hex_value(low)->0) as u8
}

proof fn lemma_byte_of(high: char, low: char)
    requires
        lower_hex(high),
        lower_hex(low),
    ensures
        hex_digit(byte_of(high, low) as int / 16) == high,
        hex_digit(byte_of(high, low) as int % 16) == low,
{
}

/// Sixty-four lower-case digits are some thirty-two bytes in hexadecimal.
proof fn lemma_digits_are_a_digest(text: Seq<char>) -> (digest: Seq<u8>)
    requires
        text.len() == 64,
        forall|k: int| 0 <= k < 64 ==> lower_hex(#[trigger] text[k]),
    ensures
        digest.len() == 32,
        hex_text(digest) == text,
{
    let digest = Seq::new(32, |j: int| byte_of(text[2 * j], text[2 * j + 1]));
    assert(hex_text(digest).len() == 64);
    assert forall|k: int| 0 <= k < 64 implies hex_text(digest)[k] == text[k] by {
        let j = k / 2;
        lemma_byte_of(text[2 * j], text[2 * j + 1]);
        assert(digest[j] == byte_of(text[2 * j], text[2 * j + 1]));
        assert(k == 2 * j || k == 2 * j + 1);
    }
    assert(hex_text(digest) =~= text);
    digest
}

/// A key can be deleted exactly if it is the prefix and some digest: every digest will do.
pub proof fn law_every_digest_can_be_deleted(prefix: Seq<char>, key: Seq<char>)
    ensures
        digest_below(prefix, key) <==> named_by_some(key, prefix),
{
    let n = prefix.len() as int;
    if digest_below(prefix, key) {
        let text = key.skip(n);
        assert forall|k: int| 0 <= k < 64 implies lower_hex(#[trigger] text[k]) by {
            assert(text[k] == key[n + k]);
        }
        let digest = lemma_digits_are_a_digest(text);
        assert(key =~= key.take(n) + text);
        assert(named_by(key, prefix, digest));
    }
    if named_by_some(key, prefix) {
        let digest = choose|digest: Seq<u8>| #[trigger] named_by(key, prefix, digest);
        let text = hex_text(digest);
        assert(text.len() == 64);
        assert(key.take(n) =~= prefix);
        assert forall|k: int| n <= k < key.len() implies lower_hex(#[trigger] key[k]) by {
            assert(key[k] == text[k - n]);
        }
    }
}

/// A deletion is begun for every list of 1 to 1000 keys that are the prefix and a digest each
/// and of which the smaller stand before the greater, and refused for every other.
pub proof fn law_keys_are_accepted_exactly<E>(
    deployment: Seq<u8>,
    proof: ClosedPrefixProof,
    keys: Seq<Seq<char>>,
)
    ensures
        DeletionState::<E>::start(deployment, proof, keys) == (if digests_in_order(
            proof.closed.prefix,
            keys,
        ) {
            DeletionState::<E>::LockPrefix { deployment, proof, keys }
        } else {
            DeletionState::<E>::Finished(Err(Error::PreconditionFailed))
        }),
        deletable(proof.closed.prefix, keys) <==> digests_in_order(proof.closed.prefix, keys),
{
    let prefix = proof.closed.prefix;
    law_ascending_is_pairwise(keys);
    assert forall|i: int| 0 <= i < keys.len() implies digest_below(prefix, #[trigger] keys[i])
        == named_by_some(keys[i], prefix) by {
        law_every_digest_can_be_deleted(prefix, keys[i]);
    }
}

/// The objects of any 1 to 1000 digests can be deleted together, in ascending order.
pub proof fn law_objects_of_digests_can_be_deleted<E>(
    deployment: Seq<u8>,
    proof: ClosedPrefixProof,
    digests: Seq<Seq<u8>>,
    keys: Seq<Seq<char>>,
)
    requires
        1 <= digests.len() <= 1000,
        keys.len() == digests.len(),
        forall|i: int|
            0 <= i < digests.len() ==> (#[trigger] digests[i]).len() == 32 && keys[i]
                == proof.closed.prefix + hex_text(digests[i]),
        forall|i: int, j: int|
            0 <= i < j < keys.len() ==> earlier(#[trigger] keys[i], #[trigger] keys[j]),
    ensures
        DeletionState::<E>::start(deployment, proof, keys) == (DeletionState::<E>::LockPrefix {
            deployment,
            proof,
            keys,
        }),
{
    law_keys_are_accepted_exactly::<E>(deployment, proof, keys);
    assert forall|i: int| 0 <= i < keys.len() implies named_by_some(
        #[trigger] keys[i],
        proof.closed.prefix,
    ) by {
        assert(named_by(keys[i], proof.closed.prefix, digests[i]));
    }
}

/// Whether two events are of the same step.
pub open spec fn of_one_step<E>(event: DeletionEvent<E>, other: DeletionEvent<E>) -> bool {
    match event {
        DeletionEvent::PrefixLocked(_) => other is PrefixLocked,
        DeletionEvent::BucketLocked(_) => other is BucketLocked,
        DeletionEvent::Marker(_) => other is Marker,
        DeletionEvent::Incarnation(_) => other is Incarnation,
        DeletionEvent::LocksChecked { .. } => other is LocksChecked,
        DeletionEvent::Deleted(_) => other is Deleted,
        DeletionEvent::Observed => other is Observed,
    }
}

/// A deletion that waits for a step takes whatever comes of it, good or bad.
pub proof fn law_deletion_takes_whatever_comes<E>(
    s: DeletionState<E>,
    event: DeletionEvent<E>,
    other: DeletionEvent<E>,
)
    requires
        s.awaits(event),
        of_one_step(event, other),
    ensures
        s.awaits(other),
{
}

/// What a deletion stands at is what it holds, its keys from the last to the first.
pub proof fn law_deletion_shows_where_it_stands<E>(deletion: Deletion<E>)
    ensures
        match deletion {
            Deletion::LockPrefix { deployment, proof, keys } => deletion@ == (
            DeletionState::<E>::LockPrefix {
                deployment: deployment.bytes@,
                proof: proof@,
                keys: owned_texts(keys@).reverse(),
            }),
            Deletion::LockBucket { deployment, proof, keys, prefix_guard } => deletion@ == (
            DeletionState::<E>::LockBucket {
                deployment: deployment.bytes@,
                proof: proof@,
                keys: owned_texts(keys@).reverse(),
                prefix_guard,
            }),
            Deletion::ReadMarker { deployment, proof, keys, locks } => deletion@ == (
            DeletionState::<E>::ReadMarker {
                deployment: deployment.bytes@,
                proof: proof@,
                keys: owned_texts(keys@).reverse(),
                locks,
            }),
            Deletion::ReadIncarnation { proof, keys, locks } => deletion@ == (
            DeletionState::<E>::ReadIncarnation {
                proof: proof@,
                keys: owned_texts(keys@).reverse(),
                locks,
            }),
            Deletion::Verify { bucket, keys, locks } => deletion@ == (DeletionState::<E>::Verify {
                bucket: bucket@,
                keys: owned_texts(keys@).reverse(),
                locks,
            }),
            Deletion::CheckLocks { bucket, keys, locks } => deletion@ == (
            DeletionState::<E>::CheckLocks {
                bucket: bucket@,
                keys: owned_texts(keys@).reverse(),
                locks,
            }),
            Deletion::DeleteObject { bucket, key, keys, locks } => deletion@ == (
            DeletionState::<E>::DeleteObject {
                bucket: bucket@,
                key: key@,
                keys: owned_texts(keys@).reverse(),
                locks,
            }),
            Deletion::Observe { bucket, keys, locks } => deletion@ == (DeletionState::<E>::Observe {
                bucket: bucket@,
                keys: owned_texts(keys@).reverse(),
                locks,
            }),
            Deletion::Finished(outcome) => deletion@ == DeletionState::<E>::Finished(outcome),
        },
{
    match deletion {
        Deletion::Finished(_) => {},
        Deletion::LockPrefix { keys, .. } => law_texts_backwards_are_reversed(keys@),
        Deletion::LockBucket { keys, .. } => law_texts_backwards_are_reversed(keys@),
        Deletion::ReadMarker { keys, .. } => law_texts_backwards_are_reversed(keys@),
        Deletion::ReadIncarnation { keys, .. } => law_texts_backwards_are_reversed(keys@),
        Deletion::Verify { keys, .. } => law_texts_backwards_are_reversed(keys@),
        Deletion::CheckLocks { keys, .. } => law_texts_backwards_are_reversed(keys@),
        Deletion::DeleteObject { keys, .. } => law_texts_backwards_are_reversed(keys@),
        Deletion::Observe { keys, .. } => law_texts_backwards_are_reversed(keys@),
    }
}

/// Every deletion that took its steps in turn took those that its history names; the locks
/// that are checked, and under which objects are deleted, are those that were had.
pub proof fn law_deletion_history<E>(
    deployment: Seq<u8>,
    proof: ClosedPrefixProof,
    keys: Seq<Seq<char>>,
    events: Seq<DeletionEvent<E>>,
)
    requires
        deletable(proof.closed.prefix, keys),
        DeletionState::<E>::start(deployment, proof, keys).answered(events),
    ensures
        deletion_history(
            deployment,
            proof,
            keys,
            events,
            DeletionState::<E>::start(deployment, proof, keys).run(events),
        ),
    decreases events.len(),
{
    let start = DeletionState::<E>::start(deployment, proof, keys);
    if events.len() > 0 {
        let earlier = events.drop_last();
        assert forall|i: int| 0 <= i < earlier.len() implies start.run(earlier.take(i)).awaits(
            #[trigger] earlier[i],
        ) by {
            assert(earlier.take(i) == events.take(i));
            assert(events[i] == earlier[i]);
        }
        law_deletion_history(deployment, proof, keys, earlier);
        let n = events.len() - 1;
        assert(events.take(n) == earlier);
        assert(start.run(earlier).awaits(events[n]));
        lemma_deletion_history_step(deployment, proof, keys, events, start.run(earlier));
    }
}

proof fn lemma_deletion_history_step<E>(
    deployment: Seq<u8>,
    proof: ClosedPrefixProof,
    keys: Seq<Seq<char>>,
    events: Seq<DeletionEvent<E>>,
    before: DeletionState<E>,
)
    requires
        keys.len() > 0,
        events.len() > 0,
        deletion_history(deployment, proof, keys, events.drop_last(), before),
        before.awaits(events.last()),
    ensures
        deletion_history(deployment, proof, keys, events, before.after(events.last())),
{
    let earlier = events.drop_last();
    let n = events.len() - 1;
    assert forall|i: int| 0 <= i < n implies earlier[i] == events[i] by {}
    assert forall|j: int| 0 <= j && gone(earlier, j) implies #[trigger] gone(events, j) by {}
    match before {
        DeletionState::Verify { .. } => {
            assert(keys.skip(0) =~= keys);
        },
        DeletionState::CheckLocks { keys: later, .. } => {
            let i = keys.len() - later.len();
            assert(verified(events, deployment, proof));
            assert forall|j: int| 0 <= j < i implies #[trigger] gone(events, j) by {
                assert(gone(earlier, j));
            }
            if later.len() > 0 {
                assert(later.skip(1) =~= keys.skip(i + 1));
                assert(later[0] == keys[i]);
                if !locks_held(events.last()) && deleted_all(deployment, proof, keys.len(), events) {
                    assert(gone(events, i));
                }
            } else {
                assert(i == keys.len());
            }
        },
        DeletionState::DeleteObject { keys: later, .. } => {
            let i = keys.len() - later.len() - 1;
            assert(verified(events, deployment, proof));
            assert forall|j: int| 0 <= j < i implies #[trigger] gone(events, j) by {
                assert(gone(earlier, j));
            }
        },
        DeletionState::Observe { keys: later, .. } => {
            let i = keys.len() - later.len() - 1;
            assert(verified(events, deployment, proof));
            assert(gone(events, i));
            assert forall|j: int| 0 <= j < i + 1 implies #[trigger] gone(events, j) by {
                if j < i {
                    assert(gone(earlier, j));
                }
            }
        },
        _ => {},
    }
}

proof fn lemma_deletion_run_step<E>(s: DeletionState<E>, events: Seq<DeletionEvent<E>>, n: int)
    requires
        0 <= n < events.len(),
    ensures
        s.run(events.take(n + 1)) == s.run(events.take(n)).after(events[n]),
{
    assert(events.take(n + 1).drop_last() == events.take(n));
}

/// A deletion whose proof is verified goes on to its keys.
proof fn lemma_verified_deletion_goes_on<E>(
    deployment: Seq<u8>,
    proof: ClosedPrefixProof,
    keys: Seq<Seq<char>>,
    events: Seq<DeletionEvent<E>>,
    locks: Locks,
)
    requires
        deletable(proof.closed.prefix, keys),
        verified(events, deployment, proof),
        under(events, locks),
    ensures
        DeletionState::<E>::start(deployment, proof, keys).run(events.take(5)) == (
        DeletionState::<E>::CheckLocks { bucket: proof.closed.bucket, keys, locks }),
        forall|i: int|
            0 <= i < 5 ==> DeletionState::<E>::start(deployment, proof, keys).run(
                events.take(i),
            ).awaits(#[trigger] events[i]),
{
    let start = DeletionState::<E>::start(deployment, proof, keys);
    assert(events.take(0) =~= Seq::<DeletionEvent<E>>::empty());
    assert(start.run(events.take(0)) == start);
    lemma_deletion_run_step(start, events, 0);
    lemma_deletion_run_step(start, events, 1);
    lemma_deletion_run_step(start, events, 2);
    lemma_deletion_run_step(start, events, 3);
    lemma_deletion_run_step(start, events, 4);
    assert forall|i: int| 0 <= i < 5 implies start.run(events.take(i)).awaits(
        #[trigger] events[i],
    ) by {
        assert(i == 0 || i == 1 || i == 2 || i == 3 || i == 4);
    }
}

/// A deletion of which the next object is gone goes on to those that follow.
proof fn lemma_gone_object_is_passed<E>(
    bucket: Seq<char>,
    keys: Seq<Seq<char>>,
    locks: Locks,
    j: int,
    checked: DeletionEvent<E>,
    deleted: DeletionEvent<E>,
    observed: DeletionEvent<E>,
)
    requires
        0 <= j < keys.len(),
        locks_held(checked),
        deleted matches DeletionEvent::Deleted(outcome) && (outcome matches Err(error)
            ==> error.says_absent()),
        observed is Observed,
    ensures
        ({
            let before = DeletionState::<E>::CheckLocks { bucket, keys: keys.skip(j), locks };
            &&& before.awaits(checked)
            &&& before.after(checked).awaits(deleted)
            &&& before.after(checked).after(deleted).awaits(observed)
            &&& before.after(checked).after(deleted).after(observed) == (
            DeletionState::<E>::CheckLocks { bucket, keys: keys.skip(j + 1), locks })
        }),
{
    assert(keys.skip(j).skip(1) =~= keys.skip(j + 1));
}

/// A deletion of which the first `k` objects are gone goes on to those that follow.
#[verifier::rlimit(40)]
proof fn lemma_gone_objects_are_passed<E>(
    deployment: Seq<u8>,
    proof: ClosedPrefixProof,
    keys: Seq<Seq<char>>,
    events: Seq<DeletionEvent<E>>,
    locks: Locks,
    k: int,
)
    requires
        deletable(proof.closed.prefix, keys),
        deleted_all(deployment, proof, keys.len(), events),
        under(events, locks),
        0 <= k <= keys.len(),
    ensures
        DeletionState::<E>::start(deployment, proof, keys).run(events.take(3 * k + 5)) == (
        DeletionState::<E>::CheckLocks { bucket: proof.closed.bucket, keys: keys.skip(k), locks }),
        forall|i: int|
            0 <= i < 3 * k + 5 ==> DeletionState::<E>::start(deployment, proof, keys).run(
                events.take(i),
            ).awaits(#[trigger] events[i]),
    decreases k,
{
    let start = DeletionState::<E>::start(deployment, proof, keys);
    if k == 0 {
        lemma_verified_deletion_goes_on(deployment, proof, keys, events, locks);
        assert(keys.skip(0) =~= keys);
    } else {
        let j = k - 1;
        lemma_gone_objects_are_passed(deployment, proof, keys, events, locks, j);
        assert(gone(events, j));
        lemma_deletion_run_step(start, events, 3 * j + 5);
        lemma_deletion_run_step(start, events, 3 * j + 6);
        lemma_deletion_run_step(start, events, 3 * j + 7);
        lemma_gone_object_is_passed(
            proof.closed.bucket,
            keys,
            locks,
            j,
            events[3 * j + 5],
            events[3 * j + 6],
            events[3 * j + 7],
        );
        assert forall|i: int| 0 <= i < 3 * k + 5 implies start.run(events.take(i)).awaits(
            #[trigger] events[i],
        ) by {
            assert(i < 3 * j + 5 || i == 3 * j + 5 || i == 3 * j + 6 || i == 3 * j + 7);
        }
    }
}

/// A deletion with nothing left to delete ends when its locks are found to be held.
proof fn lemma_last_check_ends<E>(
    bucket: Seq<char>,
    keys: Seq<Seq<char>>,
    locks: Locks,
    checked: DeletionEvent<E>,
)
    requires
        keys.len() == 0,
        locks_held(checked),
    ensures
        (DeletionState::<E>::CheckLocks { bucket, keys, locks }).awaits(checked),
        (DeletionState::<E>::CheckLocks { bucket, keys, locks }).after(checked) == DeletionState::<
            E,
        >::Finished(Ok(())),
{
}

#[verifier::rlimit(40)]
proof fn lemma_deleted_all_succeeds<E>(
    deployment: Seq<u8>,
    proof: ClosedPrefixProof,
    keys: Seq<Seq<char>>,
    events: Seq<DeletionEvent<E>>,
)
    requires
        deletable(proof.closed.prefix, keys),
        deleted_all(deployment, proof, keys.len(), events),
    ensures
        DeletionState::<E>::start(deployment, proof, keys).answered(events),
        DeletionState::<E>::start(deployment, proof, keys).run(events) == DeletionState::<
            E,
        >::Finished(Ok(())),
{
    let start = DeletionState::<E>::start(deployment, proof, keys);
    let locks = Locks {
        prefix: events[0]->PrefixLocked_0->Ok_0,
        bucket: events[1]->BucketLocked_0->Ok_0,
    };
    let k = keys.len() as int;
    let n = 3 * k + 5;
    lemma_gone_objects_are_passed(deployment, proof, keys, events, locks, k);
    lemma_deletion_run_step(start, events, n);
    assert(events.take(n + 1) =~= events);
    lemma_last_check_ends(proof.closed.bucket, keys.skip(k), locks, events[n]);
    assert forall|i: int| 0 <= i < events.len() implies start.run(events.take(i)).awaits(
        #[trigger] events[i],
    ) by {
        assert(i < n || i == n);
    }
}

/// A deletion takes its steps in turn and succeeds exactly if its keys can be deleted
/// together, the proof was verified, every object is gone, and the locks were held to the
/// end.
pub proof fn law_deletion_succeeds_exactly<E>(
    deployment: Seq<u8>,
    proof: ClosedPrefixProof,
    keys: Seq<Seq<char>>,
    events: Seq<DeletionEvent<E>>,
)
    ensures
        ({
            let start = DeletionState::<E>::start(deployment, proof, keys);
            start.answered(events) && start.run(events) == DeletionState::<E>::Finished(Ok(()))
        }) <==> deletable(proof.closed.prefix, keys) && deleted_all(
            deployment,
            proof,
            keys.len(),
            events,
        ),
{
    let start = DeletionState::<E>::start(deployment, proof, keys);
    if !deletable(proof.closed.prefix, keys) {
        if start.answered(events) {
            law_undeletable_keys_refused_at_once(deployment, proof, keys, events);
        }
    } else if deleted_all(deployment, proof, keys.len(), events) {
        lemma_deleted_all_succeeds(deployment, proof, keys, events);
    } else if start.answered(events) {
        law_deletion_history(deployment, proof, keys, events);
    }
}

/// Whether `again` is what comes of a step when it is taken a second time: the locks are had
/// once more, the marker and the incarnation are as they were, the locks are held as before,
/// and the object, which is gone, is found not to be there.
pub open spec fn repeats<E>(event: DeletionEvent<E>, again: DeletionEvent<E>) -> bool {
    match event {
        DeletionEvent::PrefixLocked(Ok(_)) => again matches DeletionEvent::PrefixLocked(Ok(_)),
        DeletionEvent::BucketLocked(Ok(_)) => again matches DeletionEvent::BucketLocked(Ok(_)),
        DeletionEvent::Marker(Ok(Some(marker))) => again matches DeletionEvent::Marker(
            Ok(Some(same)),
        ) && same@ == marker@,
        DeletionEvent::Incarnation(Ok(incarnation)) => again matches DeletionEvent::Incarnation(
            Ok(same),
        ) && same@ == incarnation@,
        DeletionEvent::Deleted(_) => again matches DeletionEvent::Deleted(Err(error))
            && error.says_absent(),
        _ => again == event,
    }
}

/// A deletion that succeeded succeeds again, though none of its objects is there any more.
pub proof fn law_repeated_deletion_succeeds<E>(
    deployment: Seq<u8>,
    proof: ClosedPrefixProof,
    keys: Seq<Seq<char>>,
    events: Seq<DeletionEvent<E>>,
    again: Seq<DeletionEvent<E>>,
)
    requires
        DeletionState::<E>::start(deployment, proof, keys).answered(events),
        DeletionState::<E>::start(deployment, proof, keys).run(events) == DeletionState::<
            E,
        >::Finished(Ok(())),
        again.len() == events.len(),
        forall|i: int| 0 <= i < events.len() ==> repeats(#[trigger] events[i], again[i]),
    ensures
        DeletionState::<E>::start(deployment, proof, keys).answered(again),
        DeletionState::<E>::start(deployment, proof, keys).run(again) == DeletionState::<
            E,
        >::Finished(Ok(())),
{
    law_deletion_succeeds_exactly(deployment, proof, keys, events);
    assert(repeats(events[0], again[0]));
    assert(repeats(events[1], again[1]));
    assert(repeats(events[2], again[2]));
    assert(repeats(events[3], again[3]));
    assert(repeats(events[4], again[4]));
    assert(verified(again, deployment, proof));
    assert forall|j: int| 0 <= j < keys.len() implies #[trigger] gone(again, j) by {
        assert(gone(events, j));
        assert(repeats(events[3 * j + 5], again[3 * j + 5]));
        assert(repeats(events[3 * j + 6], again[3 * j + 6]));
        assert(repeats(events[3 * j + 7], again[3 * j + 7]));
    }
    assert(repeats(events.last(), again.last()));
    law_deletion_succeeds_exactly(deployment, proof, keys, again);
}

/// Whether `error` is how a deletion ends that `event` ends before it is done: an outside
/// failure is handed on, and all else is a failed precondition. That an object is not there
/// is no failure.
pub open spec fn deletion_fails_with<E>(event: DeletionEvent<E>, error: Error<E>) -> bool {
    match event {
        DeletionEvent::PrefixLocked(locked) => (locked matches Err(failure) && error == failure),
        DeletionEvent::BucketLocked(locked) => (locked matches Err(failure) && error == failure),
        DeletionEvent::Marker(Err(failure)) => error == failure,
        DeletionEvent::Marker(Ok(_)) => error == Error::<E>::PreconditionFailed,
        DeletionEvent::Incarnation(Err(failure)) => error == failure,
        DeletionEvent::Incarnation(Ok(_)) => error == Error::<E>::PreconditionFailed,
        DeletionEvent::LocksChecked { .. } => !locks_held(event) && error == Error::<
            E,
        >::PreconditionFailed,
        DeletionEvent::Deleted(deleted) => (deleted matches Err(failure) && error == failure)
            && !error.says_absent(),
        DeletionEvent::Observed => false,
    }
}

/// A deletion that took its steps in turn and failed did so at its last step, with the error
/// that belongs to what came of it.
pub proof fn law_deletion_fails_as_its_last_step_says<E>(
    deployment: Seq<u8>,
    proof: ClosedPrefixProof,
    keys: Seq<Seq<char>>,
    events: Seq<DeletionEvent<E>>,
    error: Error<E>,
)
    requires
        deletable(proof.closed.prefix, keys),
        DeletionState::<E>::start(deployment, proof, keys).answered(events),
        DeletionState::<E>::start(deployment, proof, keys).run(events) == DeletionState::<
            E,
        >::Finished(Err(error)),
    ensures
        events.len() > 0,
        deletion_fails_with(events.last(), error),
{
    let start = DeletionState::<E>::start(deployment, proof, keys);
    let n = events.len() - 1;
    assert(events.take(n) =~= events.drop_last());
    assert(start.run(events.take(n)).awaits(events[n]));
}

/// Keys that cannot be deleted together are refused before anything is locked, read or
/// deleted.
pub proof fn law_undeletable_keys_refused_at_once<E>(
    deployment: Seq<u8>,
    proof: ClosedPrefixProof,
    keys: Seq<Seq<char>>,
    events: Seq<DeletionEvent<E>>,
)
    requires
        !deletable(proof.closed.prefix, keys),
        DeletionState::<E>::start(deployment, proof, keys).answered(events),
    ensures
        events.len() == 0,
        DeletionState::<E>::start(deployment, proof, keys).run(events) == DeletionState::<
            E,
        >::Finished(Err(Error::PreconditionFailed)),
{
    let start = DeletionState::<E>::start(deployment, proof, keys);
    if events.len() > 0 {
        assert(events.take(0) == Seq::<DeletionEvent<E>>::empty());
        assert(start.run(events.take(0)).awaits(events[0]));
    }
}

/// Whether a deletion that stands at `at` after `events` is about to delete one of the given
/// keys in its turn, under the locks that were had, with the proof verified and the locks
/// found to be held right before.
pub open spec fn deletes_in_turn<E>(
    deployment: Seq<u8>,
    proof: ClosedPrefixProof,
    keys: Seq<Seq<char>>,
    events: Seq<DeletionEvent<E>>,
    at: DeletionState<E>,
) -> bool {
    let i = (events.len() - 6) / 3;
    &&& at matches DeletionState::DeleteObject { bucket, key, locks, .. }
    &&& under(events, locks)
    &&& 0 <= i < keys.len()
    &&& events.len() == 3 * i + 6
    &&& bucket == proof.closed.bucket
    &&& key == keys[i]
    &&& digest_below(proof.closed.prefix, key)
    &&& verified(events, deployment, proof)
    &&& locks_held(events.last())
}

proof fn lemma_deletes_in_turn<E>(
    deployment: Seq<u8>,
    proof: ClosedPrefixProof,
    keys: Seq<Seq<char>>,
    events: Seq<DeletionEvent<E>>,
    at: DeletionState<E>,
)
    requires
        deletable(proof.closed.prefix, keys),
        deletion_history(deployment, proof, keys, events, at),
        at is DeleteObject,
    ensures
        deletes_in_turn(deployment, proof, keys, events, at),
{
    let i = keys.len() - at->DeleteObject_keys.len() - 1;
    assert((events.len() - 6) / 3 == i);
    assert(digest_below(proof.closed.prefix, keys[i]));
}

/// Nothing but the given keys is deleted, each in its turn and under the locks that were
/// had, and nothing before the proof was verified and the locks were found to be held right
/// before.
pub proof fn law_only_the_given_keys_are_deleted<E>(
    deployment: Seq<u8>,
    proof: ClosedPrefixProof,
    keys: Seq<Seq<char>>,
    events: Seq<DeletionEvent<E>>,
)
    requires
        DeletionState::<E>::start(deployment, proof, keys).answered(events),
        DeletionState::<E>::start(deployment, proof, keys).run(events) is DeleteObject,
    ensures
        deletes_in_turn(
            deployment,
            proof,
            keys,
            events,
            DeletionState::<E>::start(deployment, proof, keys).run(events),
        ),
{
    let at = DeletionState::<E>::start(deployment, proof, keys).run(events);
    if deletable(proof.closed.prefix, keys) {
        law_deletion_history(deployment, proof, keys, events);
        lemma_deletes_in_turn(deployment, proof, keys, events, at);
    } else {
        law_undeletable_keys_refused_at_once(deployment, proof, keys, events);
    }
}

/// What can be deleted below a scope is kept from being changed by that scope's marker: the
/// scope is among the scopes of each key.
pub proof fn law_deletable_keys_lie_below_the_scope(
    prefix: Seq<char>,
    keys: Seq<Seq<char>>,
    i: int,
)
    requires
        is_scope(prefix),
        deletable(prefix, keys),
        0 <= i < keys.len(),
    ensures
        scopes(keys[i]).contains(prefix),
{
    assert(digest_below(prefix, keys[i]));
    law_scopes_are_the_scope_prefixes(keys[i], prefix);
}

/// An event that a deletion does not wait for leaves it as it is.
pub proof fn law_deletion_ignores_unexpected_event<E>(s: DeletionState<E>, event: DeletionEvent<E>)
    requires
        !s.awaits(event),
    ensures
        s.after(event) == s,
{
}

} // verus!
