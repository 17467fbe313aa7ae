//! Admitting changes to objects: none of their scopes may be closed.

use vstd::prelude::*;

use crate::marker::{lock_on, prefix_lock, Lock, LockName};
use crate::options::{GuardId, PrefixMutationGuard};
use crate::records::{ClosedPrefixProofV1, Error};
use crate::text::{texts, texts_backwards};

verus! {

/// What an admission waits for, for the scope at hand.
#[derive(Clone, Copy, Debug, PartialEq, Eq)]
pub enum AdmissionStep {
    /// A shared lock on the scope.
    Lock,
    /// The scope's marker, under this lock.
    ReadMarker(GuardId),
    /// Whether this lock is still held.
    CheckLock(GuardId),
}

/// An admission of changes to objects of a bucket.
pub enum Admission<E> {
    /// `prefix` is the scope at hand; `later` are those still to come, the next one last;
    /// `guards` are the locks on those that were found open.
    Pending {
        bucket: String,
        prefix: String,
        later: Vec<String>,
        guards: Vec<GuardId>,
        step: AdmissionStep,
    },
    /// The admission is over.
    Finished(Result<PrefixMutationGuard, Error<E>>),
}

/// What an [`Admission`] stands at.
pub enum AdmissionState<E> {
    Pending {
        bucket: Seq<char>,
        prefix: Seq<char>,
        later: Seq<Seq<char>>,
        guards: Seq<GuardId>,
        step: AdmissionStep,
    },
    Finished(Result<Seq<GuardId>, Error<E>>),
}

/// What an admission waits for.
#[derive(Debug, PartialEq, Eq)]
pub enum AdmissionAction {
    /// Take the lock of this name, shared.
    LockShared(LockName),
    /// Read the marker of this prefix.
    ReadMarker { bucket: String, prefix: String },
    /// Say whether this lock was lost.
    CheckLock { guard: GuardId },
    /// Nothing.
    Finish,
}

/// What came of an outside step of an admission.
pub enum AdmissionEvent<E> {
    Locked(Result<GuardId, Error<E>>),
    Marker(Result<Option<ClosedPrefixProofV1>, Error<E>>),
    LockChecked { lost: bool },
}

impl<E> View for Admission<E> {
    type V = AdmissionState<E>;

    open spec fn view(&self) -> AdmissionState<E> {
        match *self {
            Admission::Pending { bucket, prefix, later, guards, step } => AdmissionState::Pending {
                bucket: bucket@,
                prefix: prefix@,
                later: texts_backwards(later@),
                guards: guards@,
                step,
            },
            Admission::Finished(Ok(guard)) => AdmissionState::Finished(Ok(guard@)),
            Admission::Finished(Err(error)) => AdmissionState::Finished(Err(error)),
        }
    }
}

impl<E> AdmissionState<E> {
    /// An admission that has the scopes `prefixes` before it.
    pub open spec fn start(bucket: Seq<char>, prefixes: Seq<Seq<char>>) -> AdmissionState<E> {
        AdmissionState::going_on(bucket, prefixes, Seq::empty())
    }

    /// An admission that has the scopes `prefixes` before it, and holds `guards`.
    pub open spec fn going_on(
        bucket: Seq<char>,
        prefixes: Seq<Seq<char>>,
        guards: Seq<GuardId>,
    ) -> AdmissionState<E> {
        if prefixes.len() == 0 {
            AdmissionState::Finished(Ok(guards))
        } else {
            AdmissionState::Pending {
                bucket,
                prefix: prefixes[0],
                later: prefixes.skip(1),
                guards,
                step: AdmissionStep::Lock,
            }
        }
    }

    /// The lock that the admission waits for, shared, if it waits for one.
    pub open spec fn shared_lock(self) -> Option<Lock> {
        match self {
            AdmissionState::Pending { bucket, prefix, step: AdmissionStep::Lock, .. } => Some(
                lock_on(bucket, prefix),
            ),
            _ => None,
        }
    }

    /// Whether `event` is what the admission waits for.
    pub open spec fn awaits(self, event: AdmissionEvent<E>) -> bool {
        match self {
            AdmissionState::Pending { step: AdmissionStep::Lock, .. } => event is Locked,
            AdmissionState::Pending { step: AdmissionStep::ReadMarker(_), .. } => event is Marker,
            AdmissionState::Pending { step: AdmissionStep::CheckLock(_), .. } => event is LockChecked,
            AdmissionState::Finished(_) => false,
        }
    }

    /// The admission after `event`.
    pub open spec fn after(self, event: AdmissionEvent<E>) -> AdmissionState<E> {
        match self {
            AdmissionState::Finished(_) => self,
            AdmissionState::Pending { bucket, prefix, later, guards, step } => match (step, event) {
                (AdmissionStep::Lock, AdmissionEvent::Locked(Ok(guard))) => AdmissionState::Pending {
                    bucket,
                    prefix,
                    later,
                    guards,
                    step: AdmissionStep::ReadMarker(guard),
                },
                (AdmissionStep::Lock, AdmissionEvent::Locked(Err(error))) => AdmissionState::Finished(
                    Err(error),
                ),
                (AdmissionStep::ReadMarker(guard), AdmissionEvent::Marker(Ok(None))) => AdmissionState::Pending {
                    bucket,
                    prefix,
                    later,
                    guards,
                    step: AdmissionStep::CheckLock(guard),
                },
                (AdmissionStep::ReadMarker(_), AdmissionEvent::Marker(Ok(Some(_)))) => AdmissionState::Finished(
                    Err(Error::PreconditionFailed),
                ),
                (AdmissionStep::ReadMarker(_), AdmissionEvent::Marker(Err(error))) => AdmissionState::Finished(
                    Err(error),
                ),
                (AdmissionStep::CheckLock(guard), AdmissionEvent::LockChecked { lost }) => if lost {
                    AdmissionState::Finished(Err(Error::PreconditionFailed))
                } else {
                    AdmissionState::going_on(bucket, later, guards.push(guard))
                },
                _ => self,
            },
        }
    }
}

impl<E> Admission<E> {
    /// Begins to admit changes to objects that have these scopes.
    pub fn begin(bucket: &str, prefixes: Vec<&str>) -> (admission: Admission<E>)
        ensures
            admission@ == AdmissionState::<E>::start(bucket@, texts(prefixes@)),
    {
        let mut later: Vec<String> = Vec::new();
        let mut i: usize = prefixes.len();
        while i > 0
            invariant
                i <= prefixes@.len(),
                texts_backwards(later@) == texts(prefixes@).skip(i as int),
            decreases i,
        {
            i -= 1;
            let ghost done = texts_backwards(later@);
            later.push(prefixes[i].to_owned());
            assert(texts_backwards(later@) =~= seq![prefixes@[i as int]@] + done);
            assert(texts(prefixes@).skip(i as int) =~= seq![prefixes@[i as int]@] + done);
        }
        assert(texts(prefixes@).skip(0) == texts(prefixes@));
        Admission::go_on(bucket.to_owned(), later, Vec::new())
    }

    /// Goes on to the next scope, if there is one.
    fn go_on(bucket: String, later: Vec<String>, guards: Vec<GuardId>) -> (admission: Admission<E>)
        ensures
            admission@ == AdmissionState::<E>::going_on(bucket@, texts_backwards(later@), guards@),
    {
        let mut later = later;
        let ghost all = texts_backwards(later@);
        match later.pop() {
            Some(prefix) => {
                assert(prefix@ == all[0]);
                assert(texts_backwards(later@) =~= all.skip(1));
                Admission::Pending { bucket, prefix, later, guards, step: AdmissionStep::Lock }
            },
            None => Admission::Finished(Ok(PrefixMutationGuard { guards })),
        }
    }

    /// What the admission waits for.
    pub fn action(&self) -> (action: AdmissionAction)
        ensures
            match self@ {
                AdmissionState::Pending { bucket: b, prefix: p, step: AdmissionStep::Lock, .. } => {
                    action matches AdmissionAction::LockShared(name) && name@ == lock_on(b, p)
                },
                AdmissionState::Pending { bucket: b, prefix: p, step: AdmissionStep::ReadMarker(_), .. } => {
                    action matches AdmissionAction::ReadMarker { bucket, prefix } && bucket@ == b
                        && prefix@ == p
                },
                AdmissionState::Pending { step: AdmissionStep::CheckLock(held), .. } => {
                    action matches AdmissionAction::CheckLock { guard } && guard == held
                },
                AdmissionState::Finished(_) => action is Finish,
            },
    {
        match self {
            Admission::Pending { bucket, prefix, step, .. } => match *step {
                AdmissionStep::Lock => AdmissionAction::LockShared(
                    prefix_lock(bucket.as_str(), prefix.as_str()),
                ),
                AdmissionStep::ReadMarker(_) => AdmissionAction::ReadMarker {
                    bucket: bucket.clone(),
                    prefix: prefix.clone(),
                },
                AdmissionStep::CheckLock(guard) => AdmissionAction::CheckLock { guard },
            },
            Admission::Finished(_) => AdmissionAction::Finish,
        }
    }

    /// Goes on with the admission. An event that it does not wait for leaves it as it is.
    pub fn step(self, event: AdmissionEvent<E>) -> (next: Admission<E>)
        ensures
            next@ == self@.after(event),
    {
        match self {
            Admission::Finished(outcome) => Admission::Finished(outcome),
            Admission::Pending { bucket, prefix, later, guards, step } => match (step, event) {
                (AdmissionStep::Lock, AdmissionEvent::Locked(Ok(guard))) => Admission::Pending {
                    bucket,
                    prefix,
                    later,
                    guards,
                    step: AdmissionStep::ReadMarker(guard),
                },
                (AdmissionStep::Lock, AdmissionEvent::Locked(Err(error))) => Admission::Finished(
                    Err(error),
                ),
                (AdmissionStep::ReadMarker(guard), AdmissionEvent::Marker(Ok(None))) => Admission::Pending {
                    bucket,
                    prefix,
                    later,
                    guards,
                    step: AdmissionStep::CheckLock(guard),
                },
                (AdmissionStep::ReadMarker(_), AdmissionEvent::Marker(Ok(Some(_)))) => Admission::Finished(
                    Err(Error::PreconditionFailed),
                ),
                (AdmissionStep::ReadMarker(_), AdmissionEvent::Marker(Err(error))) => Admission::Finished(
                    Err(error),
                ),
                (AdmissionStep::CheckLock(guard), AdmissionEvent::LockChecked { lost }) => {
                    if lost {
                        Admission::Finished(Err(Error::PreconditionFailed))
                    } else {
                        let mut guards = guards;
                        guards.push(guard);
                        Admission::go_on(bucket, later, guards)
                    }
                },
                (step, _) => Admission::Pending { bucket, prefix, later, guards, step },
            },
        }
    }
}

} // verus!
