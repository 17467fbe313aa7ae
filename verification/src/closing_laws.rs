//! What holds of every closing, and of every reading of a marker.

use vstd::prelude::*;

use crate::closing::{closable, Closing, ClosingEvent, Locks};
use crate::ident::{all_zero, Uuid};
use crate::ident_laws::{law_nil_has_no_other_byte, some_nonzero};
use crate::reading::{marker_size, marks, MarkerRead, MarkerReadEvent};
use crate::records::{ClosedPrefix, ClosedPrefixProof, ClosedPrefixProofV1, ClosedPrefixV1, Error};
use crate::scope_laws::{law_epoch_scope_is_scope, scope_text};
use crate::shape_laws::{law_scope_is_what_is_written_as_one, scope_shaped};

verus! {

impl<E> Closing<E> {
    /// The closing after all of `events`.
    pub open spec fn run(self, events: Seq<ClosingEvent<E>>) -> Closing<E>
        decreases events.len(),
    {
        if events.len() == 0 {
            self
        } else {
            self.run(events.drop_last()).after(events.last())
        }
    }

    /// Whether each of `events` is what the closing waits for when it comes.
    pub open spec fn answered(self, events: Seq<ClosingEvent<E>>) -> bool {
        forall|i: int|
            0 <= i < events.len() ==> self.run(events.take(i)).awaits(#[trigger] events[i])
    }
}

impl<E> MarkerRead<E> {
    /// The reading after all of `events`.
    pub open spec fn run(self, events: Seq<MarkerReadEvent<E>>) -> MarkerRead<E>
        decreases events.len(),
    {
        if events.len() == 0 {
            self
        } else {
            self.run(events.drop_last()).after(events.last())
        }
    }

    /// Whether each of `events` is what the reading waits for when it comes.
    pub open spec fn answered(self, events: Seq<MarkerReadEvent<E>>) -> bool {
        forall|i: int|
            0 <= i < events.len() ==> self.run(events.take(i)).awaits(#[trigger] events[i])
    }
}

/// The proof that a request was granted at a deployment, in an incarnation of its bucket.
pub open spec fn proof_of(
    requested: ClosedPrefix,
    deployment: Seq<u8>,
    incarnation: Seq<u8>,
) -> ClosedPrefixProof {
    ClosedPrefixProof {
        closed: requested,
        provider_deployment: deployment,
        bucket_incarnation: incarnation,
    }
}

/// Whether both locks were had, and the bucket's incarnation was read.
pub open spec fn prepared<E>(events: Seq<ClosingEvent<E>>, incarnation: Seq<u8>) -> bool {
    &&& events.len() >= 3
    &&& events[0] matches ClosingEvent::PrefixLocked(Ok(_))
    &&& events[1] matches ClosingEvent::BucketLocked(Ok(_))
    &&& events[2] matches ClosingEvent::Incarnation(Ok(read)) && read@ == incarnation
}

/// Whether `locks` are those that were had: that on the prefix first, then that on the
/// bucket's lifecycle.
pub open spec fn under<E>(events: Seq<ClosingEvent<E>>, locks: Locks) -> bool {
    &&& events.len() >= 2
    &&& events[0] == ClosingEvent::<E>::PrefixLocked(Ok(locks.prefix))
    &&& events[1] == ClosingEvent::<E>::BucketLocked(Ok(locks.bucket))
}

/// Whether `event` says that the prefix's marker is `proof`.
pub open spec fn marker_is<E>(event: ClosingEvent<E>, proof: ClosedPrefixProof) -> bool {
    event matches ClosingEvent::Marker(Ok(Some(marker))) && marker@ == proof
}

/// Whether `event` says that both locks are held.
pub open spec fn locks_held<E>(event: ClosingEvent<E>) -> bool {
    event matches ClosingEvent::LocksChecked { prefix_lost, bucket_lost } && !prefix_lost
        && !bucket_lost
}

/// Whether the prefix was found closed by the very same request, and still was so at the
/// end, with the locks held.
pub open spec fn found_closed<E>(events: Seq<ClosingEvent<E>>, proof: ClosedPrefixProof) -> bool {
    &&& events.len() == 6
    &&& prepared(events, proof.bucket_incarnation)
    &&& marker_is(events[3], proof)
    &&& locks_held(events[4])
    &&& marker_is(events[5], proof)
}

/// Whether the prefix was found open, its marker was written, and was there at the end,
/// with the locks held.
pub open spec fn closed_anew<E>(events: Seq<ClosingEvent<E>>, proof: ClosedPrefixProof) -> bool {
    &&& events.len() == 8
    &&& prepared(events, proof.bucket_incarnation)
    &&& events[3] matches ClosingEvent::Marker(Ok(None))
    &&& events[4] matches ClosingEvent::Encoded(Some(bytes)) && bytes@.len() <= 2048
    &&& events[5] matches ClosingEvent::Saved(Ok(_))
    &&& locks_held(events[6])
    &&& marker_is(events[7], proof)
}

/// Whether the prefix was found open, and an encoding of its proof that a marker can hold
/// was had.
pub open spec fn encoded<E>(events: Seq<ClosingEvent<E>>, incarnation: Seq<u8>) -> bool {
    &&& events.len() >= 5
    &&& prepared(events, incarnation)
    &&& events[3] matches ClosingEvent::Marker(Ok(None))
    &&& events[4] matches ClosingEvent::Encoded(Some(bytes)) && bytes@.len() <= 2048
}

/// What came before, if a closing of `requested` at `deployment` stands at `s` after
/// `events`, each of which it waited for.
pub open spec fn closing_history<E>(
    deployment: Uuid,
    requested: ClosedPrefixV1,
    events: Seq<ClosingEvent<E>>,
    s: Closing<E>,
) -> bool {
    let n = events.len();
    match s {
        Closing::LockPrefix { deployment: d, requested: r } => n == 0 && d == deployment && r
            == requested,
        Closing::LockBucket { deployment: d, requested: r, prefix_guard } => n == 1 && d == deployment
            && r == requested && events[0] == ClosingEvent::<E>::PrefixLocked(Ok(prefix_guard)),
        Closing::ReadIncarnation { deployment: d, requested: r, locks } => n == 2 && d == deployment
            && r == requested && under(events, locks),
        Closing::ReadMarker { proof, locks } => {
            &&& under(events, locks)
            &&& proof@ == proof_of(requested@, deployment@, proof.bucket_incarnation@)
            &&& n == 3 && prepared(events, proof.bucket_incarnation@)
        },
        Closing::EncodeMarker { proof, locks } => {
            &&& under(events, locks)
            &&& proof@ == proof_of(requested@, deployment@, proof.bucket_incarnation@)
            &&& n == 4 && prepared(events, proof.bucket_incarnation@)
            &&& events[3] matches ClosingEvent::Marker(Ok(None))
        },
        Closing::SaveMarker { proof, locks, bytes } => {
            &&& under(events, locks)
            &&& proof@ == proof_of(requested@, deployment@, proof.bucket_incarnation@)
            &&& n == 5 && encoded(events, proof.bucket_incarnation@)
            &&& events[4] == ClosingEvent::<E>::Encoded(Some(bytes))
        },
        Closing::CheckLocks { proof, locks } => {
            &&& under(events, locks)
            &&& proof@ == proof_of(requested@, deployment@, proof.bucket_incarnation@)
            &&& {
                ||| n == 4 && prepared(events, proof.bucket_incarnation@) && marker_is(
                    events[3],
                    proof@,
                )
                ||| n == 6 && encoded(events, proof.bucket_incarnation@) && (
                events[5] matches ClosingEvent::Saved(Ok(_)))
            }
        },
        Closing::ConfirmMarker { proof } => {
            &&& proof@ == proof_of(requested@, deployment@, proof.bucket_incarnation@)
            &&& {
                ||| n == 5 && prepared(events, proof.bucket_incarnation@) && marker_is(
                    events[3],
                    proof@,
                ) && locks_held(events[4])
                ||| n == 7 && encoded(events, proof.bucket_incarnation@) && (
                events[5] matches ClosingEvent::Saved(Ok(_))) && locks_held(events[6])
            }
        },
        Closing::Finished(Ok(proof)) => {
            &&& proof@ == proof_of(requested@, deployment@, proof.bucket_incarnation@)
            &&& found_closed(events, proof@) || closed_anew(events, proof@)
        },
        Closing::Finished(Err(_)) => forall|proof: ClosedPrefixProof|
            proof.closed == requested@ && proof.provider_deployment == deployment@ ==> !(
            #[trigger] found_closed(events, proof)) && !closed_anew(events, proof),
    }
}

/// A closing is begun for every request whose prefix is written as a scope and of whose
/// operation and context some byte is not zero, whatever else they are, and refused for every
/// other.
pub proof fn law_request_is_granted_exactly<E>(deployment: Uuid, requested: ClosedPrefixV1)
    ensures
        Closing::<E>::start(deployment, requested) == (if scope_shaped(requested.prefix@)
            && some_nonzero(requested.operation.bytes@) && some_nonzero(requested.context_sha256@) {
            Closing::<E>::LockPrefix { deployment, requested }
        } else {
            Closing::<E>::Finished(Err(Error::PreconditionFailed))
        }),
        closable(requested@) <==> scope_shaped(requested.prefix@) && some_nonzero(
            requested.operation.bytes@,
        ) && some_nonzero(requested.context_sha256@),
{
    law_scope_is_what_is_written_as_one(requested.prefix@);
    law_nil_has_no_other_byte(requested.operation@);
    law_nil_has_no_other_byte(requested.context_sha256@);
}

/// Every epoch of every database can be closed, below whatever root: by any operation and in
/// any context of which some byte is not zero.
pub proof fn law_every_epoch_can_be_closed<E>(
    deployment: Uuid,
    requested: ClosedPrefixV1,
    root: Seq<char>,
    database: Uuid,
    ordinal: u64,
    label: Uuid,
    i: int,
    j: int,
)
    requires
        requested.prefix@ == scope_text(root, database.bytes@, ordinal as nat, label.bytes@),
        some_nonzero(database.bytes@),
        ordinal > 0,
        some_nonzero(label.bytes@),
        0 <= i < 16 && requested.operation.bytes@[i] != 0,
        0 <= j < 32 && requested.context_sha256@[j] != 0,
    ensures
        Closing::<E>::start(deployment, requested) == (Closing::<E>::LockPrefix {
            deployment,
            requested,
        }),
{
    law_nil_has_no_other_byte(database.bytes@);
    law_nil_has_no_other_byte(label.bytes@);
    law_epoch_scope_is_scope(root, database.bytes@, ordinal as nat, label.bytes@);
    law_scope_is_what_is_written_as_one(requested.prefix@);
    law_request_is_granted_exactly::<E>(deployment, requested);
}

/// Whether two events are of the same step.
pub open spec fn of_one_step<E>(event: ClosingEvent<E>, other: ClosingEvent<E>) -> bool {
    match event {
        ClosingEvent::PrefixLocked(_) => other is PrefixLocked,
        ClosingEvent::BucketLocked(_) => other is BucketLocked,
        ClosingEvent::Incarnation(_) => other is Incarnation,
        ClosingEvent::Marker(_) => other is Marker,
        ClosingEvent::Encoded(_) => other is Encoded,
        ClosingEvent::Saved(_) => other is Saved,
        ClosingEvent::LocksChecked { .. } => other is LocksChecked,
    }
}

/// A closing that waits for a step takes whatever comes of it, good or bad.
pub proof fn law_closing_takes_whatever_comes<E>(
    s: Closing<E>,
    event: ClosingEvent<E>,
    other: ClosingEvent<E>,
)
    requires
        s.awaits(event),
        of_one_step(event, other),
    ensures
        s.awaits(other),
{
}

/// Every closing that took its steps in turn took those that its history names: both locks
/// first, that on the prefix before that on the bucket's lifecycle; a marker is written
/// only where none was read; the locks that are checked are those that were had; and it
/// ends with a proof only where that was read back after they were found to be held.
pub proof fn law_closing_history<E>(
    deployment: Uuid,
    requested: ClosedPrefixV1,
    events: Seq<ClosingEvent<E>>,
)
    requires
        closable(requested@),
        Closing::<E>::start(deployment, requested).answered(events),
    ensures
        closing_history(
            deployment,
            requested,
            events,
            Closing::<E>::start(deployment, requested).run(events),
        ),
    decreases events.len(),
{
    let start = Closing::<E>::start(deployment, requested);
    if events.len() > 0 {
        let earlier = events.drop_last();
        assert forall|i: int| 0 <= i < earlier.len() implies start.run(earlier.take(i)).awaits(
            #[trigger] earlier[i],
        ) by {
            assert(earlier.take(i) == events.take(i));
            assert(events[i] == earlier[i]);
        }
        law_closing_history(deployment, requested, earlier);
        assert(events.take(events.len() - 1) == earlier);
        let n = events.len() - 1;
        assert(start.run(earlier).awaits(events[n]));
        lemma_closing_history_step(deployment, requested, events, start.run(earlier));
    }
}

proof fn lemma_closing_history_step<E>(
    deployment: Uuid,
    requested: ClosedPrefixV1,
    events: Seq<ClosingEvent<E>>,
    before: Closing<E>,
)
    requires
        events.len() > 0,
        closing_history(deployment, requested, events.drop_last(), before),
        before.awaits(events.last()),
    ensures
        closing_history(deployment, requested, events, before.after(events.last())),
{
    let earlier = events.drop_last();
    assert forall|i: int| 0 <= i < earlier.len() implies earlier[i] == events[i] by {}
    let after = before.after(events.last());
    match before {
        Closing::ReadMarker { proof, .. } => {
            assert(prepared(events, proof.bucket_incarnation@));
        },
        Closing::EncodeMarker { proof, .. } => {
            assert(prepared(events, proof.bucket_incarnation@));
        },
        Closing::SaveMarker { proof, .. } => {
            assert(encoded(events, proof.bucket_incarnation@));
        },
        Closing::CheckLocks { proof, .. } => {
            assert(prepared(events, proof.bucket_incarnation@));
        },
        Closing::ConfirmMarker { proof } => {
            assert(prepared(events, proof.bucket_incarnation@));
        },
        _ => {},
    }
}

/// A request that cannot be granted is refused before anything is locked, read or written.
pub proof fn law_ungrantable_request_refused_at_once<E>(
    deployment: Uuid,
    requested: ClosedPrefixV1,
    events: Seq<ClosingEvent<E>>,
)
    requires
        !closable(requested@),
        Closing::<E>::start(deployment, requested).answered(events),
    ensures
        events.len() == 0,
        Closing::<E>::start(deployment, requested).run(events) == Closing::<E>::Finished(
            Err(Error::PreconditionFailed),
        ),
{
    let start = Closing::<E>::start(deployment, requested);
    if events.len() > 0 {
        assert(events.take(0) == Seq::<ClosingEvent<E>>::empty());
        assert(start.run(events.take(0)).awaits(events[0]));
    }
}

/// A closing that took its steps in turn succeeds exactly if the request can be granted and
/// the prefix was found closed by it or was closed anew; what it returns is the proof of
/// the request.
pub proof fn law_closing_succeeds_exactly<E>(
    deployment: Uuid,
    requested: ClosedPrefixV1,
    events: Seq<ClosingEvent<E>>,
)
    requires
        Closing::<E>::start(deployment, requested).answered(events),
    ensures
        match Closing::<E>::start(deployment, requested).run(events) {
            Closing::Finished(Ok(proof)) => {
                &&& closable(requested@)
                &&& proof@ == proof_of(requested@, deployment@, proof.bucket_incarnation@)
                &&& found_closed(events, proof@) || closed_anew(events, proof@)
            },
            _ => !closable(requested@) || forall|incarnation: Seq<u8>|
                {
                    let proof = #[trigger] proof_of(requested@, deployment@, incarnation);
                    !found_closed(events, proof) && !closed_anew(events, proof)
                },
        },
{
    let end = Closing::<E>::start(deployment, requested).run(events);
    if closable(requested@) {
        law_closing_history(deployment, requested, events);
        if !(end matches Closing::Finished(Ok(_))) {
            assert forall|incarnation: Seq<u8>|
                {
                    let proof = #[trigger] proof_of(requested@, deployment@, incarnation);
                    !found_closed(events, proof) && !closed_anew(events, proof)
                } by {
                let proof = proof_of(requested@, deployment@, incarnation);
                if found_closed(events, proof) {
                    assert(marker_is(events[3], proof));
                }
            }
        }
    } else {
        law_ungrantable_request_refused_at_once(deployment, requested, events);
    }
}

/// A closing of a request that can be granted is owed success where the prefix is found
/// closed by it or is closed anew: it takes its steps in turn, and returns the proof.
pub proof fn law_closing_is_owed_success<E>(
    deployment: Uuid,
    requested: ClosedPrefixV1,
    events: Seq<ClosingEvent<E>>,
    incarnation: Seq<u8>,
)
    requires
        closable(requested@),
        ({
            let proof = proof_of(requested@, deployment@, incarnation);
            found_closed(events, proof) || closed_anew(events, proof)
        }),
    ensures
        Closing::<E>::start(deployment, requested).answered(events),
        Closing::<E>::start(deployment, requested).run(events) matches Closing::Finished(Ok(granted))
            && granted@ == proof_of(requested@, deployment@, incarnation),
{
    let start = Closing::<E>::start(deployment, requested);
    let n = events.len() as int;
    assert(events.take(0) =~= Seq::<ClosingEvent<E>>::empty());
    assert(start.run(events.take(0)) == start);
    lemma_closing_run_step(start, events, 0);
    lemma_closing_run_step(start, events, 1);
    lemma_closing_run_step(start, events, 2);
    let s3 = start.run(events.take(3));
    assert(s3 is ReadMarker);
    assert(s3->ReadMarker_proof@ =~= proof_of(requested@, deployment@, incarnation));
    lemma_closing_run_step(start, events, 3);
    lemma_closing_run_step(start, events, 4);
    lemma_closing_run_step(start, events, 5);
    if n == 8 {
        lemma_closing_run_step(start, events, 6);
        lemma_closing_run_step(start, events, 7);
    }
    assert(events.take(n) =~= events);
    assert forall|i: int| 0 <= i < n implies start.run(events.take(i)).awaits(
        #[trigger] events[i],
    ) by {
        assert(i == 0 || i == 1 || i == 2 || i == 3 || i == 4 || i == 5 || i == 6 || i == 7);
    }
}

/// Whether `error` is how a closing ends that `event` ends without a proof: an outside
/// failure is handed on, a proof that cannot be encoded counts as corrupted, and all else is
/// a failed precondition.
pub open spec fn closing_fails_with<E>(event: ClosingEvent<E>, error: Error<E>) -> bool {
    match event {
        ClosingEvent::PrefixLocked(locked) => (locked matches Err(failure) && error == failure),
        ClosingEvent::BucketLocked(locked) => (locked matches Err(failure) && error == failure),
        ClosingEvent::Incarnation(read) => (read matches Err(failure) && error == failure),
        ClosingEvent::Marker(Err(failure)) => error == failure,
        ClosingEvent::Marker(Ok(_)) => error == Error::<E>::PreconditionFailed,
        ClosingEvent::Encoded(None) => error == Error::<E>::CorruptedFormat,
        ClosingEvent::Encoded(Some(bytes)) => bytes@.len() > 2048 && error == Error::<
            E,
        >::PreconditionFailed,
        ClosingEvent::Saved(saved) => (saved matches Err(failure) && error == failure),
        ClosingEvent::LocksChecked { .. } => !locks_held(event) && error == Error::<
            E,
        >::PreconditionFailed,
    }
}

/// A closing that took its steps in turn and failed did so at its last step, with the error
/// that belongs to what came of it.
pub proof fn law_closing_fails_as_its_last_step_says<E>(
    deployment: Uuid,
    requested: ClosedPrefixV1,
    events: Seq<ClosingEvent<E>>,
    error: Error<E>,
)
    requires
        closable(requested@),
        Closing::<E>::start(deployment, requested).answered(events),
        Closing::<E>::start(deployment, requested).run(events) == Closing::<E>::Finished(Err(error)),
    ensures
        events.len() > 0,
        closing_fails_with(events.last(), error),
{
    let start = Closing::<E>::start(deployment, requested);
    let n = events.len() - 1;
    assert(events.take(n) =~= events.drop_last());
    assert(start.run(events.take(n)).awaits(events[n]));
}

/// The proof that a closing returns is what a second closing with the same request returns,
/// where the deployment and the bucket's incarnation are the same and the marker is found
/// to be that proof; nothing is written for it.
pub proof fn law_replayed_closing_returns_the_same_proof<E>(
    deployment: Uuid,
    requested: ClosedPrefixV1,
    events: Seq<ClosingEvent<E>>,
    proof: ClosedPrefixProofV1,
    again: ClosedPrefixV1,
    replay: Seq<ClosingEvent<E>>,
)
    requires
        Closing::<E>::start(deployment, requested).answered(events),
        Closing::<E>::start(deployment, requested).run(events) == Closing::<E>::Finished(Ok(proof)),
        again@ == requested@,
        found_closed(replay, proof@),
    ensures
        Closing::<E>::start(deployment, again).answered(replay),
        Closing::<E>::start(deployment, again).run(replay) matches Closing::Finished(Ok(second))
            && second@ == proof@,
        forall|n: int|
            0 <= n <= replay.len() ==> !(#[trigger] Closing::<E>::start(deployment, again).run(
                replay.take(n),
            ) is SaveMarker),
{
    law_closing_succeeds_exactly(deployment, requested, events);
    let start = Closing::<E>::start(deployment, again);
    assert(replay.take(0) == Seq::<ClosingEvent<E>>::empty());
    lemma_closing_run_step(start, replay, 0);
    lemma_closing_run_step(start, replay, 1);
    lemma_closing_run_step(start, replay, 2);
    let s3 = start.run(replay.take(3));
    assert(s3 matches Closing::ReadMarker { proof: p, .. } && p@ == proof@) by {
        assert(s3 is ReadMarker);
        assert(s3->ReadMarker_proof@ =~= proof@);
    }
    lemma_closing_run_step(start, replay, 3);
    lemma_closing_run_step(start, replay, 4);
    lemma_closing_run_step(start, replay, 5);
    assert(replay.take(6) == replay);
    assert forall|i: int| 0 <= i < replay.len() implies start.run(replay.take(i)).awaits(
        #[trigger] replay[i],
    ) by {
        if i == 0 {
        } else if i == 1 {
        } else if i == 2 {
        } else if i == 3 {
        } else if i == 4 {
        } else {
            assert(i == 5);
        }
    }
    assert forall|n: int| 0 <= n <= replay.len() implies !(#[trigger] start.run(
        replay.take(n),
    ) is SaveMarker) by {
        if n == 0 {
        } else if n == 1 {
        } else if n == 2 {
        } else if n == 3 {
        } else if n == 4 {
        } else if n == 5 {
        } else {
            assert(n == 6);
        }
    }
}

/// The marker that `event` says was read.
pub open spec fn marker_read<E>(event: ClosingEvent<E>) -> Option<ClosedPrefixProof> {
    match event {
        ClosingEvent::Marker(Ok(Some(marker))) => Some(marker@),
        _ => None,
    }
}

/// Two closings that were granted, and that read the same marker last, had the same request,
/// at the same deployment and in the same incarnation of the bucket, and returned the same
/// proof. A marker is written only where there is none, so this holds of any two closings
/// of one prefix while its marker is not removed.
pub proof fn law_granted_closings_of_a_prefix_agree<E>(
    deployment: Uuid,
    requested: ClosedPrefixV1,
    events: Seq<ClosingEvent<E>>,
    proof: ClosedPrefixProofV1,
    other_deployment: Uuid,
    other_requested: ClosedPrefixV1,
    other_events: Seq<ClosingEvent<E>>,
    other_proof: ClosedPrefixProofV1,
)
    requires
        Closing::<E>::start(deployment, requested).answered(events),
        Closing::<E>::start(deployment, requested).run(events) == Closing::<E>::Finished(Ok(proof)),
        Closing::<E>::start(other_deployment, other_requested).answered(other_events),
        Closing::<E>::start(other_deployment, other_requested).run(other_events) == Closing::<
            E,
        >::Finished(Ok(other_proof)),
        marker_read(events.last()) == marker_read(other_events.last()),
    ensures
        proof@ == other_proof@,
        requested@ == other_requested@,
        deployment@ == other_deployment@,
{
    law_closing_succeeds_exactly(deployment, requested, events);
    law_closing_succeeds_exactly(other_deployment, other_requested, other_events);
    assert(marker_is(events.last(), proof@));
    assert(marker_is(other_events.last(), other_proof@));
}

/// A closing that finds a marker other than the proof of its own request is refused, and
/// goes no further.
pub proof fn law_conflicting_closing_refused<E>(
    deployment: Uuid,
    requested: ClosedPrefixV1,
    events: Seq<ClosingEvent<E>>,
    incarnation: Seq<u8>,
    existing: ClosedPrefixProofV1,
)
    requires
        closable(requested@),
        events.len() == 4,
        prepared(events, incarnation),
        events[3] == ClosingEvent::<E>::Marker(Ok(Some(existing))),
        existing@ != proof_of(requested@, deployment@, incarnation),
    ensures
        Closing::<E>::start(deployment, requested).run(events) == Closing::<E>::Finished(
            Err(Error::PreconditionFailed),
        ),
{
    let start = Closing::<E>::start(deployment, requested);
    assert(events.take(0) == Seq::<ClosingEvent<E>>::empty());
    lemma_closing_run_step(start, events, 0);
    lemma_closing_run_step(start, events, 1);
    lemma_closing_run_step(start, events, 2);
    lemma_closing_run_step(start, events, 3);
    assert(events.take(4) == events);
}

proof fn lemma_closing_run_step<E>(s: Closing<E>, events: Seq<ClosingEvent<E>>, n: int)
    requires
        0 <= n < events.len(),
    ensures
        s.run(events.take(n + 1)) == s.run(events.take(n)).after(events[n]),
{
    assert(events.take(n + 1).drop_last() == events.take(n));
}

proof fn lemma_reading_run_step<E>(s: MarkerRead<E>, events: Seq<MarkerReadEvent<E>>, n: int)
    requires
        0 <= n < events.len(),
    ensures
        s.run(events.take(n + 1)) == s.run(events.take(n)).after(events[n]),
{
    assert(events.take(n + 1).drop_last() == events.take(n));
}

/// Whether the object with the marker was opened, was as long as a marker may be and as
/// it was said to be, and held `marker`.
pub open spec fn marker_was_read<E>(
    events: Seq<MarkerReadEvent<E>>,
    marker: ClosedPrefixProofV1,
) -> bool {
    &&& events.len() == 3
    &&& events[0] matches MarkerReadEvent::Opened(Ok(size)) && marker_size(size as int) && (
    events[1] matches MarkerReadEvent::Bytes(Ok(bytes)) && bytes@.len() == size)
    &&& events[2] == MarkerReadEvent::<E>::Decoded(Some(marker))
}

/// Whether the object with the marker was found not to be there.
pub open spec fn marker_was_absent<E>(events: Seq<MarkerReadEvent<E>>) -> bool {
    &&& events.len() == 1
    &&& events[0] matches MarkerReadEvent::Opened(Err(error)) && error.says_absent()
}

/// A reading that took its steps in turn returns a marker exactly if it read one that is
/// the prefix's and complete, and says that there is none exactly if there is no object.
pub proof fn law_reading_returns_exactly<E>(
    bucket: String,
    prefix: String,
    events: Seq<MarkerReadEvent<E>>,
)
    requires
        (MarkerRead::<E>::Open { bucket, prefix }).answered(events),
    ensures
        ({
            let end = (MarkerRead::<E>::Open { bucket, prefix }).run(events);
            &&& forall|marker: ClosedPrefixProofV1|
                end == MarkerRead::<E>::Finished(Ok(Some(marker))) <==> #[trigger] marker_was_read(
                    events,
                    marker,
                ) && marks(marker@, bucket@, prefix@)
            &&& end == MarkerRead::<E>::Finished(Ok(None)) <==> marker_was_absent(events)
        }),
{
    let start = MarkerRead::<E>::Open { bucket, prefix };
    assert(events.take(0) == Seq::<MarkerReadEvent<E>>::empty());
    assert(events.take(events.len() as int) == events);
    if events.len() > 0 {
        assert(start.run(events.take(0)).awaits(events[0]));
        lemma_reading_run_step(start, events, 0);
    }
    if events.len() > 1 {
        assert(start.run(events.take(1)).awaits(events[1]));
        lemma_reading_run_step(start, events, 1);
    }
    if events.len() > 2 {
        assert(start.run(events.take(2)).awaits(events[2]));
        lemma_reading_run_step(start, events, 2);
    }
    if events.len() > 3 {
        assert(start.run(events.take(3)).awaits(events[3]));
    }
}

/// An event that a reading does not wait for leaves it as it is.
pub proof fn law_reading_ignores_unexpected_event<E>(s: MarkerRead<E>, event: MarkerReadEvent<E>)
    requires
        !s.awaits(event),
    ensures
        s.after(event) == s,
{
}

/// The marker that a closing writes is read back: where the object holds the bytes that
/// were written, and these decode to the proof that was encoded, a reading of the prefix's
/// marker returns that proof. The deployment and the bucket's incarnation must not be nil,
/// and the encoding not be empty.
pub proof fn law_written_marker_is_read_back<E>(
    deployment: Uuid,
    requested: ClosedPrefixV1,
    events: Seq<ClosingEvent<E>>,
    decoded: ClosedPrefixProofV1,
    read: Seq<MarkerReadEvent<E>>,
)
    requires
        Closing::<E>::start(deployment, requested).answered(events),
        Closing::<E>::start(deployment, requested).run(events) is SaveMarker,
        !all_zero(deployment@),
        ({
            let saved = Closing::<E>::start(deployment, requested).run(events);
            &&& decoded@ == saved->SaveMarker_proof@
            &&& !all_zero(saved->SaveMarker_proof.bucket_incarnation@)
            &&& saved->SaveMarker_bytes@.len() > 0
            &&& read.len() == 3
            &&& read[0] matches MarkerReadEvent::Opened(Ok(size)) && size as int
                == saved->SaveMarker_bytes@.len()
            &&& read[1] == MarkerReadEvent::<E>::Bytes(Ok(saved->SaveMarker_bytes))
            &&& read[2] == MarkerReadEvent::<E>::Decoded(Some(decoded))
        }),
    ensures
        (MarkerRead::<E>::Open { bucket: requested.bucket, prefix: requested.prefix }).run(read)
            == MarkerRead::<E>::Finished(Ok(Some(decoded))),
{
    if closable(requested@) {
        law_closing_history(deployment, requested, events);
    } else {
        law_ungrantable_request_refused_at_once(deployment, requested, events);
    }
    let start = MarkerRead::<E>::Open { bucket: requested.bucket, prefix: requested.prefix };
    assert(read.take(0) == Seq::<MarkerReadEvent<E>>::empty());
    lemma_reading_run_step(start, read, 0);
    lemma_reading_run_step(start, read, 1);
    lemma_reading_run_step(start, read, 2);
    assert(read.take(3) == read);
}

/// An event that a closing does not wait for leaves it as it is.
pub proof fn law_closing_ignores_unexpected_event<E>(s: Closing<E>, event: ClosingEvent<E>)
    requires
        !s.awaits(event),
    ensures
        s.after(event) == s,
{
}

} // verus!
