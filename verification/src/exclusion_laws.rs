//! What holds of a closing while changes to objects below its prefix are admitted.

use vstd::prelude::*;

use crate::admission::{AdmissionEvent, AdmissionState};
use crate::admission_laws::{found_open, law_admission_history, lemma_admission_part_answered};
use crate::closing::{closable, Closing, ClosingEvent};
use crate::closing_laws::{law_closing_history, law_ungrantable_request_refused_at_once};
use crate::ident::Uuid;
use crate::listing::{law_scope_list, scope_list, scope_of_some};
use crate::marker::{lock_on, Lock};
use crate::options::GuardId;
use crate::records::ClosedPrefixV1;

verus! {

impl<E> AdmissionState<E> {
    /// Whether `lock` was had, shared, when it was waited for.
    pub open spec fn had_shared(self, events: Seq<AdmissionEvent<E>>, lock: Lock) -> bool {
        exists|i: int|
            {
                &&& 0 <= i < events.len()
                &&& #[trigger] events[i] matches AdmissionEvent::Locked(Ok(_))
                &&& self.run(events.take(i)).shared_lock() == Some(lock)
            }
    }
}

impl<E> Closing<E> {
    /// Whether `lock` was had, for the closing alone, when it was waited for.
    pub open spec fn had_exclusive(self, events: Seq<ClosingEvent<E>>, lock: Lock) -> bool {
        exists|i: int|
            {
                &&& 0 <= i < events.len()
                &&& #[trigger] events[i] matches ClosingEvent::PrefixLocked(Ok(_))
                &&& self.run(events.take(i)).exclusive_lock() == Some(lock)
            }
    }

    /// Whether the closing neither saves a marker nor is granted, at any time in `events`.
    pub open spec fn closes_nothing(self, events: Seq<ClosingEvent<E>>) -> bool {
        forall|n: int|
            0 <= n <= events.len() ==> {
                let s = #[trigger] self.run(events.take(n));
                !(s is SaveMarker) && !(s matches Closing::Finished(Ok(_)))
            }
    }
}

/// An admission that was granted had the lock on each of its scopes, shared; its guards are
/// those locks.
pub proof fn law_granted_admission_had_every_lock<E>(
    bucket: Seq<char>,
    prefixes: Seq<Seq<char>>,
    events: Seq<AdmissionEvent<E>>,
    guards: Seq<GuardId>,
    k: int,
)
    requires
        AdmissionState::<E>::start(bucket, prefixes).answered(events),
        AdmissionState::<E>::start(bucket, prefixes).run(events) == AdmissionState::<E>::Finished(
            Ok(guards),
        ),
        0 <= k < prefixes.len(),
    ensures
        events[3 * k] == AdmissionEvent::<E>::Locked(Ok(guards[k])),
        AdmissionState::<E>::start(bucket, prefixes).had_shared(
            events,
            lock_on(bucket, prefixes[k]),
        ),
{
    let start = AdmissionState::<E>::start(bucket, prefixes);
    law_admission_history(bucket, prefixes, events);
    assert(found_open(events, k, guards[k]));
    lemma_admission_part_answered(bucket, prefixes, events, 3 * k);
    law_admission_history(bucket, prefixes, events.take(3 * k));
    assert(start.run(events.take(3 * k)).awaits(events[3 * k]));
}

/// A closing that did not have the lock on its prefix for itself alone saves no marker and
/// is not granted.
pub proof fn law_closing_needs_its_exclusive_lock<E>(
    deployment: Uuid,
    requested: ClosedPrefixV1,
    events: Seq<ClosingEvent<E>>,
)
    requires
        Closing::<E>::start(deployment, requested).answered(events),
        !Closing::<E>::start(deployment, requested).had_exclusive(
            events,
            lock_on(requested.bucket@, requested.prefix@),
        ),
    ensures
        Closing::<E>::start(deployment, requested).closes_nothing(events),
{
    let start = Closing::<E>::start(deployment, requested);
    if closable(requested@) {
        assert forall|n: int| 0 <= n <= events.len() implies {
            let s = #[trigger] start.run(events.take(n));
            !(s is SaveMarker) && !(s matches Closing::Finished(Ok(_)))
        } by {
            let part = events.take(n);
            assert forall|i: int| 0 <= i < part.len() implies start.run(part.take(i)).awaits(
                #[trigger] part[i],
            ) by {
                assert(part.take(i) =~= events.take(i));
                assert(part[i] == events[i]);
            }
            law_closing_history(deployment, requested, part);
            let s = start.run(part);
            if s is SaveMarker || s matches Closing::Finished(Ok(_)) {
                assert(part[0] == events[0]);
                assert(events[0] matches ClosingEvent::PrefixLocked(Ok(_)));
                assert(events.take(0) =~= Seq::<ClosingEvent<E>>::empty());
                assert(start.run(events.take(0)) == start);
            }
        }
    } else {
        law_ungrantable_request_refused_at_once(deployment, requested, events);
        assert(events =~= Seq::<ClosingEvent<E>>::empty());
        assert forall|n: int| 0 <= n <= events.len() implies {
            let s = #[trigger] start.run(events.take(n));
            !(s is SaveMarker) && !(s matches Closing::Finished(Ok(_)))
        } by {
            assert(events.take(n) =~= events);
        }
    }
}

/// While a granted admission of changes holds its locks, no closing of a prefix that one of
/// the changed objects lies below saves a marker or is granted: the closing waits for the
/// very lock that the admission has, and that it would have for itself alone. Premise: what
/// the admission has shared and still holds, no closing has for itself alone.
pub proof fn law_closing_waits_for_admitted_changes<E>(
    bucket: Seq<char>,
    objects: Seq<Seq<char>>,
    admission: Seq<AdmissionEvent<E>>,
    deployment: Uuid,
    requested: ClosedPrefixV1,
    closing: Seq<ClosingEvent<E>>,
)
    requires
        AdmissionState::<E>::start(bucket, scope_list(objects)).answered(admission),
        AdmissionState::<E>::start(bucket, scope_list(objects)).run(
            admission,
        ) matches AdmissionState::Finished(Ok(_)),
        Closing::<E>::start(deployment, requested).answered(closing),
        requested.bucket@ == bucket,
        scope_of_some(objects, requested.prefix@),
        forall|lock: Lock|
            !(#[trigger] AdmissionState::<E>::start(bucket, scope_list(objects)).had_shared(
                admission,
                lock,
            ) && #[trigger] Closing::<E>::start(deployment, requested).had_exclusive(closing, lock)),
    ensures
        AdmissionState::<E>::start(bucket, scope_list(objects)).had_shared(
            admission,
            lock_on(requested.bucket@, requested.prefix@),
        ),
        Closing::<E>::start(deployment, requested).closes_nothing(closing),
{
    let prefixes = scope_list(objects);
    let guards = AdmissionState::<E>::start(bucket, prefixes).run(admission)->Finished_0->Ok_0;
    law_scope_list(objects);
    assert(prefixes.contains(requested.prefix@));
    let k = choose|k: int| 0 <= k < prefixes.len() && prefixes[k] == requested.prefix@;
    law_granted_admission_had_every_lock(bucket, prefixes, admission, guards, k);
    law_closing_needs_its_exclusive_lock(deployment, requested, closing);
}

} // verus!
