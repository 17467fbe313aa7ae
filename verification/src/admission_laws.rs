//! What holds of every admission.

use vstd::prelude::*;

use crate::admission::{Admission, AdmissionEvent, AdmissionState, AdmissionStep};
use crate::closing::{Closing, ClosingEvent};
use crate::closing_laws::law_closing_succeeds_exactly;
use crate::ident::Uuid;
use crate::listing::{law_scope_list, scope_list, scope_of_some};
use crate::options::GuardId;
use crate::records::{ClosedPrefixV1, Error};
use crate::scope_laws::law_scopes_are_the_scope_prefixes;
use crate::scopes::{is_scope, scopes};
use crate::text::{begins_with, owned_texts};
use crate::text_laws::law_texts_backwards_are_reversed;

verus! {

impl<E> AdmissionState<E> {
    /// The admission after all of `events`.
    pub open spec fn run(self, events: Seq<AdmissionEvent<E>>) -> AdmissionState<E>
        decreases events.len(),
    {
        if events.len() == 0 {
            self
        } else {
            self.run(events.drop_last()).after(events.last())
        }
    }

    /// Whether each of `events` is what the admission waits for when it comes.
    pub open spec fn answered(self, events: Seq<AdmissionEvent<E>>) -> bool {
        forall|i: int|
            0 <= i < events.len() ==> self.run(events.take(i)).awaits(#[trigger] events[i])
    }
}

/// Whether the scope with index `i` was found open: it was locked, it had no marker, and the
/// lock was still held after that was read.
pub open spec fn found_open<E>(events: Seq<AdmissionEvent<E>>, i: int, guard: GuardId) -> bool {
    &&& events.len() >= 3 * i + 3
    &&& events[3 * i] == AdmissionEvent::<E>::Locked(Ok(guard))
    &&& events[3 * i + 1] matches AdmissionEvent::Marker(Ok(None))
    &&& events[3 * i + 2] == (AdmissionEvent::<E>::LockChecked { lost: false })
}

/// Whether the scope with index `i` was found open, under whichever lock.
pub open spec fn was_open<E>(events: Seq<AdmissionEvent<E>>, i: int) -> bool {
    events[3 * i] matches AdmissionEvent::Locked(Ok(guard)) && found_open(events, i, guard)
}

/// Whether the scope with index `i` was found closed: it had a marker.
pub open spec fn found_closed<E>(events: Seq<AdmissionEvent<E>>, i: int) -> bool {
    events.len() > 3 * i + 1 && (events[3 * i + 1] matches AdmissionEvent::Marker(Ok(Some(_))))
}

/// What came before, if an admission over `prefixes` stands at `s` after `events`, each of
/// which it waited for: the scopes are taken in turn, and those before the one at hand, or
/// before the one at which it failed, were found open.
pub open spec fn admission_history<E>(
    bucket: Seq<char>,
    prefixes: Seq<Seq<char>>,
    events: Seq<AdmissionEvent<E>>,
    s: AdmissionState<E>,
) -> bool {
    let n = events.len() as int;
    match s {
        AdmissionState::Pending { bucket: b, prefix, later, guards, step } => {
            let k = guards.len() as int;
            &&& b == bucket
            &&& k < prefixes.len()
            &&& prefix == prefixes[k]
            &&& later == prefixes.skip(k + 1)
            &&& forall|i: int| 0 <= i < k ==> #[trigger] found_open(events, i, guards[i])
            &&& match step {
                AdmissionStep::Lock => n == 3 * k,
                AdmissionStep::ReadMarker(guard) => n == 3 * k + 1 && events[3 * k]
                    == AdmissionEvent::<E>::Locked(Ok(guard)),
                AdmissionStep::CheckLock(guard) => n == 3 * k + 2 && events[3 * k]
                    == AdmissionEvent::<E>::Locked(Ok(guard)) && (
                events[3 * k + 1] matches AdmissionEvent::Marker(Ok(None))),
            }
        },
        AdmissionState::Finished(Ok(guards)) => {
            &&& guards.len() == prefixes.len()
            &&& n == 3 * guards.len()
            &&& forall|i: int| 0 <= i < guards.len() ==> #[trigger] found_open(events, i, guards[i])
        },
        AdmissionState::Finished(Err(error)) => {
            &&& 0 < n <= 3 * prefixes.len()
            &&& forall|i: int| 0 <= i < (n - 1) / 3 ==> #[trigger] was_open(events, i)
            &&& match events[n - 1] {
                AdmissionEvent::Locked(Err(e)) => n % 3 == 1 && error == e,
                AdmissionEvent::Marker(Err(e)) => n % 3 == 2 && error == e,
                AdmissionEvent::Marker(Ok(Some(_))) => n % 3 == 2 && error
                    == Error::<E>::PreconditionFailed,
                AdmissionEvent::LockChecked { lost } => n % 3 == 0 && lost && error
                    == Error::<E>::PreconditionFailed,
                _ => false,
            }
        },
    }
}

/// Every admission that took its steps in turn took those that its history names.
pub proof fn law_admission_history<E>(
    bucket: Seq<char>,
    prefixes: Seq<Seq<char>>,
    events: Seq<AdmissionEvent<E>>,
)
    requires
        AdmissionState::<E>::start(bucket, prefixes).answered(events),
    ensures
        admission_history(
            bucket,
            prefixes,
            events,
            AdmissionState::<E>::start(bucket, prefixes).run(events),
        ),
    decreases events.len(),
{
    let start = AdmissionState::<E>::start(bucket, prefixes);
    if events.len() > 0 {
        let earlier = events.drop_last();
        assert forall|i: int| 0 <= i < earlier.len() implies start.run(earlier.take(i)).awaits(
            #[trigger] earlier[i],
        ) by {
            assert(earlier.take(i) == events.take(i));
            assert(events[i] == earlier[i]);
        }
        law_admission_history(bucket, prefixes, earlier);
        let n = events.len() - 1;
        assert(events.take(n) == earlier);
        assert(start.run(earlier).awaits(events[n]));
        lemma_admission_history_step(bucket, prefixes, events, start.run(earlier));
    }
}

proof fn lemma_admission_history_step<E>(
    bucket: Seq<char>,
    prefixes: Seq<Seq<char>>,
    events: Seq<AdmissionEvent<E>>,
    before: AdmissionState<E>,
)
    requires
        events.len() > 0,
        admission_history(bucket, prefixes, events.drop_last(), before),
        before.awaits(events.last()),
    ensures
        admission_history(bucket, prefixes, events, before.after(events.last())),
{
    let earlier = events.drop_last();
    let n = events.len() as int;
    assert forall|i: int| 0 <= i < earlier.len() implies earlier[i] == events[i] by {}
    if let AdmissionState::Pending { guards, step, .. } = before {
        let k = guards.len() as int;
        assert forall|i: int| 0 <= i < k implies #[trigger] found_open(events, i, guards[i]) by {
            assert(found_open(earlier, i, guards[i]));
        }
        assert((n - 1) / 3 == k);
        assert forall|i: int| 0 <= i < k implies #[trigger] was_open(events, i) by {
            assert(found_open(events, i, guards[i]));
        }
        if let AdmissionStep::CheckLock(guard) = step {
            if events.last() == (AdmissionEvent::<E>::LockChecked { lost: false }) {
                let more = guards.push(guard);
                assert forall|i: int| 0 <= i < k + 1 implies #[trigger] found_open(
                    events,
                    i,
                    more[i],
                ) by {
                    if i < k {
                        assert(found_open(events, i, guards[i]));
                    } else {
                        assert(more[i] == guard);
                    }
                }
                if k + 1 < prefixes.len() {
                    assert(prefixes.skip(k + 1).skip(1) =~= prefixes.skip(k + 2));
                }
            }
        }
    }
}

proof fn lemma_admission_run_step<E>(
    s: AdmissionState<E>,
    events: Seq<AdmissionEvent<E>>,
    n: int,
)
    requires
        0 <= n < events.len(),
    ensures
        s.run(events.take(n + 1)) == s.run(events.take(n)).after(events[n]),
{
    assert(events.take(n + 1).drop_last() == events.take(n));
}

/// Whether every one of `count` scopes was found open, under `guards`, and nothing else came.
pub open spec fn all_open<E>(
    events: Seq<AdmissionEvent<E>>,
    count: nat,
    guards: Seq<GuardId>,
) -> bool {
    &&& guards.len() == count
    &&& events.len() == 3 * count
    &&& forall|i: int| 0 <= i < count ==> #[trigger] found_open(events, i, guards[i])
}

/// An admission that finds the next scope open goes on to those that follow.
proof fn lemma_open_scope_is_passed<E>(
    bucket: Seq<char>,
    prefixes: Seq<Seq<char>>,
    guards: Seq<GuardId>,
    j: int,
    locked: AdmissionEvent<E>,
    marker: AdmissionEvent<E>,
    checked: AdmissionEvent<E>,
)
    requires
        0 <= j < prefixes.len(),
        j < guards.len(),
        locked == AdmissionEvent::<E>::Locked(Ok(guards[j])),
        marker matches AdmissionEvent::Marker(Ok(None)),
        checked == (AdmissionEvent::<E>::LockChecked { lost: false }),
    ensures
        ({
            let before = AdmissionState::<E>::going_on(bucket, prefixes.skip(j), guards.take(j));
            &&& before.awaits(locked)
            &&& before.after(locked).awaits(marker)
            &&& before.after(locked).after(marker).awaits(checked)
            &&& before.after(locked).after(marker).after(checked) == AdmissionState::<E>::going_on(
                bucket,
                prefixes.skip(j + 1),
                guards.take(j + 1),
            )
        }),
{
    assert(prefixes.skip(j).skip(1) =~= prefixes.skip(j + 1));
    assert(guards.take(j).push(guards[j]) =~= guards.take(j + 1));
}

/// An admission that finds its first `k` scopes open goes on to those that follow.
proof fn lemma_open_scopes_are_passed<E>(
    bucket: Seq<char>,
    prefixes: Seq<Seq<char>>,
    events: Seq<AdmissionEvent<E>>,
    guards: Seq<GuardId>,
    k: int,
)
    requires
        0 <= k <= prefixes.len(),
        k <= guards.len(),
        3 * k <= events.len(),
        forall|i: int| 0 <= i < k ==> #[trigger] found_open(events, i, guards[i]),
    ensures
        AdmissionState::<E>::start(bucket, prefixes).run(events.take(3 * k))
            == AdmissionState::<E>::going_on(bucket, prefixes.skip(k), guards.take(k)),
        forall|i: int|
            0 <= i < 3 * k ==> AdmissionState::<E>::start(bucket, prefixes).run(
                events.take(i),
            ).awaits(#[trigger] events[i]),
    decreases k,
{
    let start = AdmissionState::<E>::start(bucket, prefixes);
    if k == 0 {
        assert(events.take(0) =~= Seq::<AdmissionEvent<E>>::empty());
        assert(prefixes.skip(0) =~= prefixes);
        assert(guards.take(0) =~= Seq::<GuardId>::empty());
    } else {
        let j = k - 1;
        lemma_open_scopes_are_passed(bucket, prefixes, events, guards, j);
        assert(found_open(events, j, guards[j]));
        lemma_admission_run_step(start, events, 3 * j);
        lemma_admission_run_step(start, events, 3 * j + 1);
        lemma_admission_run_step(start, events, 3 * j + 2);
        lemma_open_scope_is_passed(
            bucket,
            prefixes,
            guards,
            j,
            events[3 * j],
            events[3 * j + 1],
            events[3 * j + 2],
        );
        assert forall|i: int| 0 <= i < 3 * k implies start.run(events.take(i)).awaits(
            #[trigger] events[i],
        ) by {
            assert(i < 3 * j || i == 3 * j || i == 3 * j + 1 || i == 3 * j + 2);
        }
    }
}

/// An admission takes its steps in turn and grants the change exactly if every scope was
/// found open, and then holds the locks on all of them.
pub proof fn law_admission_succeeds_exactly<E>(
    bucket: Seq<char>,
    prefixes: Seq<Seq<char>>,
    events: Seq<AdmissionEvent<E>>,
    guards: Seq<GuardId>,
)
    ensures
        ({
            let start = AdmissionState::<E>::start(bucket, prefixes);
            start.answered(events) && start.run(events) == AdmissionState::<E>::Finished(Ok(guards))
        }) <==> all_open(events, prefixes.len(), guards),
{
    let start = AdmissionState::<E>::start(bucket, prefixes);
    if start.answered(events) {
        law_admission_history(bucket, prefixes, events);
    }
    if all_open(events, prefixes.len(), guards) {
        lemma_open_scopes_are_passed(bucket, prefixes, events, guards, prefixes.len() as int);
        assert(events.take(3 * prefixes.len() as int) =~= events);
        assert(guards.take(prefixes.len() as int) =~= guards);
    }
}

/// Whether the first scopes were found open, under `guards`, and the next one of `count` ended
/// the admission with `error`: it could not be locked or its marker not be read, for that
/// reason; it has a marker, or its lock was lost, which is a failed precondition.
pub open spec fn fails_behind<E>(
    events: Seq<AdmissionEvent<E>>,
    count: nat,
    guards: Seq<GuardId>,
    error: Error<E>,
) -> bool {
    let k = guards.len() as int;
    let n = events.len();
    &&& k < count
    &&& n > 3 * k
    &&& forall|i: int| 0 <= i < k ==> #[trigger] found_open(events, i, guards[i])
    &&& {
        ||| n == 3 * k + 1 && events[3 * k] == AdmissionEvent::<E>::Locked(Err(error))
        ||| n == 3 * k + 2 && (events[3 * k] matches AdmissionEvent::Locked(Ok(_))) && events[3 * k
            + 1] == AdmissionEvent::<E>::Marker(Err(error))
        ||| n == 3 * k + 2 && (events[3 * k] matches AdmissionEvent::Locked(Ok(_))) && (events[3 * k
            + 1] matches AdmissionEvent::Marker(Ok(Some(_)))) && error == Error::<
            E,
        >::PreconditionFailed
        ||| n == 3 * k + 3 && (events[3 * k] matches AdmissionEvent::Locked(Ok(_))) && (events[3 * k
            + 1] matches AdmissionEvent::Marker(Ok(None))) && events[3 * k + 2] == (
        AdmissionEvent::<E>::LockChecked { lost: true }) && error == Error::<E>::PreconditionFailed
    }
}

/// An admission takes its steps in turn and ends with an error exactly if some scope, behind
/// those that were found open, ended it with that error.
pub proof fn law_admission_fails_exactly<E>(
    bucket: Seq<char>,
    prefixes: Seq<Seq<char>>,
    events: Seq<AdmissionEvent<E>>,
    error: Error<E>,
)
    ensures
        ({
            let start = AdmissionState::<E>::start(bucket, prefixes);
            start.answered(events) && start.run(events) == AdmissionState::<E>::Finished(Err(error))
        }) <==> exists|guards: Seq<GuardId>| #[trigger]
            fails_behind(events, prefixes.len(), guards, error),
{
    let start = AdmissionState::<E>::start(bucket, prefixes);
    if start.answered(events) && start.run(events) == AdmissionState::<E>::Finished(Err(error)) {
        assert(events.len() > 0);
        let n = events.len() - 1;
        let shorter = events.drop_last();
        assert(events.take(n) =~= shorter);
        assert(start.run(shorter).awaits(events[n]));
        lemma_admission_part_answered(bucket, prefixes, events, n);
        law_admission_history(bucket, prefixes, shorter);
        let before = start.run(shorter);
        assert(before is Pending);
        let guards = before->Pending_guards;
        assert forall|i: int| 0 <= i < guards.len() implies #[trigger] found_open(
            events,
            i,
            guards[i],
        ) by {
            assert(found_open(shorter, i, guards[i]));
        }
        assert(fails_behind(events, prefixes.len(), guards, error));
    }
    if exists|guards: Seq<GuardId>| #[trigger] fails_behind(events, prefixes.len(), guards, error) {
        let guards = choose|guards: Seq<GuardId>| #[trigger]
            fails_behind(events, prefixes.len(), guards, error);
        let k = guards.len() as int;
        let n = events.len() as int;
        lemma_open_scopes_are_passed(bucket, prefixes, events, guards, k);
        lemma_admission_run_step(start, events, 3 * k);
        if n > 3 * k + 1 {
            lemma_admission_run_step(start, events, 3 * k + 1);
        }
        if n > 3 * k + 2 {
            lemma_admission_run_step(start, events, 3 * k + 2);
        }
        assert(events.take(n) =~= events);
        assert forall|i: int| 0 <= i < n implies start.run(events.take(i)).awaits(
            #[trigger] events[i],
        ) by {
            assert(i < 3 * k || i == 3 * k || i == 3 * k + 1 || i == 3 * k + 2);
        }
    }
}

/// What an admission stands at is what it holds, the later scopes from the last to the first.
pub proof fn law_admission_shows_where_it_stands<E>(admission: Admission<E>)
    ensures
        match admission {
            Admission::Pending { bucket, prefix, later, guards, step } => admission@ == (
            AdmissionState::<E>::Pending {
                bucket: bucket@,
                prefix: prefix@,
                later: owned_texts(later@).reverse(),
                guards: guards@,
                step,
            }),
            Admission::Finished(Ok(guard)) => admission@ == AdmissionState::<E>::Finished(
                Ok(guard.guards@),
            ),
            Admission::Finished(Err(error)) => admission@ == AdmissionState::<E>::Finished(
                Err(error),
            ),
        },
{
    if let Admission::Pending { later, .. } = admission {
        law_texts_backwards_are_reversed(later@);
    }
}

/// Whether two events say the same, except for which lock was had.
pub open spec fn alike<E>(event: AdmissionEvent<E>, other: AdmissionEvent<E>) -> bool {
    match (event, other) {
        (AdmissionEvent::Locked(Ok(_)), AdmissionEvent::Locked(Ok(_))) => true,
        _ => event == other,
    }
}

/// Whether what came of the scope with index `j` in `events` is what came of that with index
/// `k` in `other`.
pub open spec fn scope_alike<E>(
    events: Seq<AdmissionEvent<E>>,
    j: int,
    other: Seq<AdmissionEvent<E>>,
    k: int,
) -> bool {
    &&& alike(events[3 * j], other[3 * k])
    &&& alike(events[3 * j + 1], other[3 * k + 1])
    &&& alike(events[3 * j + 2], other[3 * k + 2])
}

/// Leaving out objects does not turn an admission into a refusal: the scopes of the objects
/// that are left are among those of all, and where each is found as it was, the change to
/// the objects that are left is granted too.
pub proof fn law_fewer_objects_stay_admitted<E>(
    bucket: Seq<char>,
    objects: Seq<Seq<char>>,
    events: Seq<AdmissionEvent<E>>,
    fewer: Seq<Seq<char>>,
    fewer_events: Seq<AdmissionEvent<E>>,
)
    requires
        AdmissionState::<E>::start(bucket, scope_list(objects)).answered(events),
        AdmissionState::<E>::start(bucket, scope_list(objects)).run(
            events,
        ) matches AdmissionState::Finished(Ok(_)),
        forall|i: int| 0 <= i < fewer.len() ==> objects.contains(#[trigger] fewer[i]),
        fewer_events.len() == 3 * scope_list(fewer).len(),
        forall|j: int, k: int|
            0 <= j < scope_list(fewer).len() && 0 <= k < scope_list(objects).len()
                && #[trigger] scope_list(fewer)[j] == #[trigger] scope_list(objects)[k]
                ==> scope_alike(fewer_events, j, events, k),
    ensures
        forall|j: int|
            0 <= j < scope_list(fewer).len() ==> scope_list(objects).contains(
                #[trigger] scope_list(fewer)[j],
            ),
        AdmissionState::<E>::start(bucket, scope_list(fewer)).answered(fewer_events),
        AdmissionState::<E>::start(bucket, scope_list(fewer)).run(
            fewer_events,
        ) matches AdmissionState::Finished(Ok(_)),
{
    let all = scope_list(objects);
    let some = scope_list(fewer);
    law_admission_history(bucket, all, events);
    let guards = AdmissionState::<E>::start(bucket, all).run(events)->Finished_0->Ok_0;
    let fewer_guards = Seq::new(some.len(), |j: int| fewer_events[3 * j]->Locked_0->Ok_0);
    law_scope_list(objects);
    law_scope_list(fewer);
    assert forall|j: int| 0 <= j < some.len() implies all.contains(#[trigger] some[j]) by {
        let scope = some[j];
        assert(some.contains(scope));
        let i = choose|i: int|
            0 <= i < fewer.len() && (#[trigger] scopes(fewer[i])).contains(scope);
        assert(objects.contains(fewer[i]));
        let o = choose|o: int| 0 <= o < objects.len() && objects[o] == fewer[i];
        assert(scopes(objects[o]).contains(scope));
        assert(scope_of_some(objects, scope));
        assert(all.contains(scope));
    }
    assert forall|j: int| 0 <= j < some.len() implies #[trigger] found_open(
        fewer_events,
        j,
        fewer_guards[j],
    ) by {
        assert(all.contains(some[j]));
        let k = choose|k: int| 0 <= k < all.len() && all[k] == some[j];
        assert(some[j] == all[k]);
        assert(scope_alike(fewer_events, j, events, k));
        assert(found_open(events, k, guards[k]));
    }
    law_admission_succeeds_exactly(bucket, some, fewer_events, fewer_guards);
}

/// A change to objects of which one lies below a closed prefix is refused: as soon as the
/// prefix's marker is read, the admission ends with a failed precondition.
pub proof fn law_closed_prefix_refuses_changes_below<E>(
    bucket: Seq<char>,
    objects: Seq<Seq<char>>,
    object: int,
    prefix: Seq<char>,
    events: Seq<AdmissionEvent<E>>,
)
    requires
        0 <= object < objects.len(),
        is_scope(prefix),
        begins_with(objects[object], prefix),
        AdmissionState::<E>::start(bucket, scope_list(objects)).answered(events),
    ensures
        exists|k: int|
            {
                &&& 0 <= k < scope_list(objects).len()
                &&& #[trigger] scope_list(objects)[k] == prefix
                &&& found_closed(events, k) ==> AdmissionState::<E>::start(bucket, scope_list(objects)).run(events)
                    == AdmissionState::<E>::Finished(Err(Error::PreconditionFailed))
                &&& AdmissionState::<E>::start(bucket, scope_list(objects)).run(
                    events,
                ) matches AdmissionState::Finished(Ok(guards)) ==> found_open(events, k, guards[k])
            },
{
    let prefixes = scope_list(objects);
    law_scope_of_object_is_listed(objects, object, prefix);
    let k = choose|k: int| 0 <= k < prefixes.len() && prefixes[k] == prefix;
    law_admission_history(bucket, prefixes, events);
    if found_closed(events, k) {
        law_closed_scope_ends_admission(bucket, prefixes, events, k);
    }
    if let AdmissionState::Finished(Ok(guards)) = AdmissionState::<E>::start(bucket, prefixes).run(
        events,
    ) {
        assert(found_open(events, k, guards[k]));
    }
    assert(prefixes[k] == prefix);
}

/// A scope that an object lies below is among those that are looked at before the object is
/// changed.
pub proof fn law_scope_of_object_is_listed(
    objects: Seq<Seq<char>>,
    object: int,
    prefix: Seq<char>,
)
    requires
        0 <= object < objects.len(),
        is_scope(prefix),
        begins_with(objects[object], prefix),
    ensures
        scope_list(objects).contains(prefix),
{
    law_scope_list(objects);
    law_scopes_are_the_scope_prefixes(objects[object], prefix);
    assert(scopes(objects[object]).contains(prefix));
    assert(scope_of_some(objects, prefix));
}

/// An admission that finds a scope closed ends there, with a failed precondition.
pub proof fn law_closed_scope_ends_admission<E>(
    bucket: Seq<char>,
    prefixes: Seq<Seq<char>>,
    events: Seq<AdmissionEvent<E>>,
    k: int,
)
    requires
        0 <= k,
        AdmissionState::<E>::start(bucket, prefixes).answered(events),
        found_closed(events, k),
    ensures
        events.len() == 3 * k + 2,
        AdmissionState::<E>::start(bucket, prefixes).run(events) == AdmissionState::<E>::Finished(
            Err(Error::PreconditionFailed),
        ),
{
    let part = events.take(3 * k + 2);
    lemma_admission_part_answered(bucket, prefixes, events, 3 * k + 2);
    law_admission_history(bucket, prefixes, part);
    let there = AdmissionState::<E>::start(bucket, prefixes).run(part);
    assert(part[3 * k + 1] == events[3 * k + 1]);
    match there {
        AdmissionState::Pending { guards, .. } => {
            if k < guards.len() {
                assert(found_open(part, k, guards[k]));
            }
        },
        AdmissionState::Finished(Ok(guards)) => {
            assert(3 * guards.len() == 3 * k + 2);
        },
        AdmissionState::Finished(Err(_)) => {
            if events.len() > 3 * k + 2 {
                assert(there.awaits(events[3 * k + 2]));
            }
            assert(part == events);
        },
    }
}

/// As long as the marker of a prefix that a closing closed is there to be read, no change to
/// a key below the prefix is granted, whatever follows the prefix and whatever is changed
/// with it.
pub proof fn law_granted_closing_fences_every_key_below<E>(
    deployment: Uuid,
    requested: ClosedPrefixV1,
    events: Seq<ClosingEvent<E>>,
    objects: Seq<Seq<char>>,
    object: int,
    admission: Seq<AdmissionEvent<E>>,
)
    requires
        Closing::<E>::start(deployment, requested).answered(events),
        Closing::<E>::start(deployment, requested).run(events) matches Closing::Finished(Ok(_)),
        0 <= object < objects.len(),
        begins_with(objects[object], requested.prefix@),
        AdmissionState::<E>::start(requested.bucket@, scope_list(objects)).answered(admission),
        forall|k: int|
            0 <= k < scope_list(objects).len() && #[trigger] scope_list(objects)[k]
                == requested.prefix@ && admission.len() > 3 * k + 1 ==> !(
            admission[3 * k + 1] matches AdmissionEvent::Marker(Ok(None))),
    ensures
        scope_list(objects).contains(requested.prefix@),
        !(AdmissionState::<E>::start(requested.bucket@, scope_list(objects)).run(
            admission,
        ) matches AdmissionState::Finished(Ok(_))),
{
    let prefix = requested.prefix@;
    law_closing_succeeds_exactly(deployment, requested, events);
    law_scope_of_object_is_listed(objects, object, prefix);
    law_closed_prefix_refuses_changes_below(requested.bucket@, objects, object, prefix, admission);
}

/// What comes of the first events that answer an admission answers it too.
pub proof fn lemma_admission_part_answered<E>(
    bucket: Seq<char>,
    prefixes: Seq<Seq<char>>,
    events: Seq<AdmissionEvent<E>>,
    n: int,
)
    requires
        AdmissionState::<E>::start(bucket, prefixes).answered(events),
        0 <= n <= events.len(),
    ensures
        AdmissionState::<E>::start(bucket, prefixes).answered(events.take(n)),
{
    let start = AdmissionState::<E>::start(bucket, prefixes);
    let part = events.take(n);
    assert forall|i: int| 0 <= i < part.len() implies start.run(part.take(i)).awaits(
        #[trigger] part[i],
    ) by {
        assert(part.take(i) == events.take(i));
        assert(events[i] == part[i]);
    }
}

/// A change to objects that have no scopes is admitted at once, without a lock.
pub proof fn law_objects_without_scopes_admitted_at_once<E>(
    bucket: Seq<char>,
    objects: Seq<Seq<char>>,
)
    requires
        forall|i: int|
            0 <= i < objects.len() ==> #[trigger] scopes(objects[i]) == Seq::<Seq<char>>::empty(),
    ensures
        AdmissionState::<E>::start(bucket, scope_list(objects)) == AdmissionState::<E>::Finished(
            Ok(Seq::<GuardId>::empty()),
        ),
{
    let prefixes = scope_list(objects);
    law_scope_list(objects);
    if prefixes.len() > 0 {
        assert(prefixes.contains(prefixes[0]));
        assert(scope_of_some(objects, prefixes[0]));
    }
}

/// An event that an admission does not wait for leaves it as it is.
pub proof fn law_admission_ignores_unexpected_event<E>(
    s: AdmissionState<E>,
    event: AdmissionEvent<E>,
)
    requires
        !s.awaits(event),
    ensures
        s.after(event) == s,
{
}

} // verus!
