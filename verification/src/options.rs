//! The options of an object operation that closing prefixes has a part in, and the
//! guard under which objects are changed.

use std::borrow::Cow;

use vstd::prelude::*;

verus! {

/// Stands for a lock that is held. Whoever holds the locks numbers them.
#[derive(Clone, Copy, Debug, PartialEq, Eq)]
pub struct GuardId(pub u64);

/// The conditions on which an object is written.
#[derive(Debug, PartialEq, Eq)]
pub struct HTTPPreconditions {
    pub if_none_match: Option<String>,
}

/// The options of an object operation.
#[derive(Debug, PartialEq, Eq)]
pub struct ObjectOptions {
    pub max_parity: bool,
    pub http_preconditions: Option<HTTPPreconditions>,
    pub namespace_lock_guards: Vec<GuardId>,
    pub bucket_lifecycle_lock_guards: Vec<GuardId>,
}

/// What [`ObjectOptions`] say.
#[verifier::ext_equal]
pub struct Options {
    pub max_parity: bool,
    /// The entity tag that the object must not have, where there is a condition on it.
    pub if_none_match: Option<Option<Seq<char>>>,
    pub namespace_lock_guards: Seq<GuardId>,
    pub bucket_lifecycle_lock_guards: Seq<GuardId>,
}

impl View for HTTPPreconditions {
    type V = Option<Seq<char>>;

    open spec fn view(&self) -> Option<Seq<char>> {
        match self.if_none_match {
            Some(tag) => Some(tag@),
            None => None,
        }
    }
}

impl View for ObjectOptions {
    type V = Options;

    open spec fn view(&self) -> Options {
        Options {
            max_parity: self.max_parity,
            if_none_match: match self.http_preconditions {
                Some(preconditions) => Some(preconditions@),
                None => None,
            },
            namespace_lock_guards: self.namespace_lock_guards@,
            bucket_lifecycle_lock_guards: self.bucket_lifecycle_lock_guards@,
        }
    }
}

/// The options of an operation of which nothing was asked.
pub open spec fn default_options() -> Options {
    Options {
        max_parity: false,
        if_none_match: None,
        namespace_lock_guards: Seq::empty(),
        bucket_lifecycle_lock_guards: Seq::empty(),
    }
}

impl Default for ObjectOptions {
    fn default() -> (options: Self)
        ensures
            options@ == default_options(),
    {
        ObjectOptions {
            max_parity: false,
            http_preconditions: None,
            namespace_lock_guards: Vec::new(),
            bucket_lifecycle_lock_guards: Vec::new(),
        }
    }
}

impl Clone for ObjectOptions {
    fn clone(&self) -> (copy: Self)
        ensures
            copy@ == self@,
    {
        ObjectOptions {
            max_parity: self.max_parity,
            http_preconditions: match &self.http_preconditions {
                Some(preconditions) => Some(
                    HTTPPreconditions {
                        if_none_match: match &preconditions.if_none_match {
                            Some(tag) => Some(tag.clone()),
                            None => None,
                        },
                    },
                ),
                None => None,
            },
            namespace_lock_guards: copied(&self.namespace_lock_guards),
            bucket_lifecycle_lock_guards: copied(&self.bucket_lifecycle_lock_guards),
        }
    }
}

/// A copy of a list of locks.
fn copied(guards: &Vec<GuardId>) -> (copy: Vec<GuardId>)
    ensures
        copy@ == guards@,
{
    let mut copy: Vec<GuardId> = Vec::new();
    let mut i: usize = 0;
    while i < guards.len()
        invariant
            i <= guards@.len(),
            copy@ == guards@.take(i as int),
        decreases guards@.len() - i,
    {
        copy.push(guards[i]);
        i += 1;
    }
    copy
}

impl ObjectOptions {
    /// Has the operation hold a lock on a name while it lasts.
    pub fn add_namespace_lock_guard(&mut self, guard: GuardId)
        ensures
            final(self)@ == (Options {
                namespace_lock_guards: old(self)@.namespace_lock_guards.push(guard),
                ..old(self)@
            }),
    {
        self.namespace_lock_guards.push(guard);
    }

    /// Has the operation hold a lock on its bucket's lifecycle while it lasts.
    pub fn add_bucket_lifecycle_lock_guard(&mut self, guard: GuardId)
        ensures
            final(self)@ == (Options {
                bucket_lifecycle_lock_guards: old(self)@.bucket_lifecycle_lock_guards.push(guard),
                ..old(self)@
            }),
    {
        self.bucket_lifecycle_lock_guards.push(guard);
    }

    /// The options under which a marker is written: with the most parity, and only if
    /// there is no object with its key.
    pub fn for_marker() -> (options: ObjectOptions)
        ensures
            options@ == marker_options(),
    {
        ObjectOptions {
            max_parity: true,
            http_preconditions: Some(
                HTTPPreconditions { if_none_match: Some("*".to_owned()) },
            ),
            namespace_lock_guards: Vec::new(),
            bucket_lifecycle_lock_guards: Vec::new(),
        }
    }

    /// The options under which an object of a closed prefix is deleted: with the lock on
    /// the prefix, and with that on the bucket's lifecycle.
    pub fn for_deletion(prefix_guard: GuardId, bucket_guard: GuardId) -> (options: ObjectOptions)
        ensures
            options@ == deletion_options(prefix_guard, bucket_guard),
    {
        let mut options = ObjectOptions::default();
        options.add_namespace_lock_guard(prefix_guard);
        options.add_bucket_lifecycle_lock_guard(bucket_guard);
        assert(options@ =~= deletion_options(prefix_guard, bucket_guard));
        options
    }
}

/// The options under which a marker is written.
pub open spec fn marker_options() -> Options {
    Options { max_parity: true, if_none_match: Some(Some("*"@)), ..default_options() }
}

/// The options under which an object of a closed prefix is deleted.
pub open spec fn deletion_options(prefix_guard: GuardId, bucket_guard: GuardId) -> Options {
    Options {
        namespace_lock_guards: seq![prefix_guard],
        bucket_lifecycle_lock_guards: seq![bucket_guard],
        ..default_options()
    }
}

/// The locks under which objects may be changed: one for each of their scopes.
#[derive(Debug, PartialEq, Eq)]
pub struct PrefixMutationGuard {
    pub guards: Vec<GuardId>,
}

impl View for PrefixMutationGuard {
    type V = Seq<GuardId>;

    open spec fn view(&self) -> Seq<GuardId> {
        self.guards@
    }
}

/// `options` with `guards` added to the locks on names that it holds.
pub open spec fn guarded(options: Options, guards: Seq<GuardId>) -> Options {
    Options { namespace_lock_guards: options.namespace_lock_guards + guards, ..options }
}

impl PrefixMutationGuard {
    /// The options with these locks added: the same ones if there are no locks to add,
    /// else a copy.
    pub fn options<'a>(&self, options: &'a ObjectOptions) -> (guarded_options: Cow<'a, ObjectOptions>)
        ensures
            guarded_options@ == guarded(options@, self@),
            match guarded_options {
                Cow::Borrowed(same) => self@.len() == 0 && same == options,
                Cow::Owned(copy) => self@.len() > 0 && copy@ == guarded(options@, self@),
            },
    {
        if self.guards.is_empty() {
            assert(guarded(options@, self@) =~= options@);
            return Cow::Borrowed(options);
        }
        let mut owned = options.clone();
        self.add_to_options(&mut owned);
        Cow::Owned(owned)
    }

    /// Adds these locks to the options.
    pub fn add_to_options(&self, options: &mut ObjectOptions)
        ensures
            final(options)@ == guarded(old(options)@, self@),
            final(options).namespace_lock_guards@ == old(options).namespace_lock_guards@
                + self.guards@,
            final(options).bucket_lifecycle_lock_guards@
                == old(options).bucket_lifecycle_lock_guards@,
            final(options).max_parity == old(options).max_parity,
    {
        let mut i: usize = 0;
        assert(options@ =~= guarded(options@, self@.take(0)));
        while i < self.guards.len()
            invariant
                i <= self@.len(),
                options@ == guarded(old(options)@, self@.take(i as int)),
            decreases self@.len() - i,
        {
            options.add_namespace_lock_guard(self.guards[i]);
            assert(self@.take(i + 1) == self@.take(i as int).push(self@[i as int]));
            assert(options@ =~= guarded(old(options)@, self@.take(i + 1)));
            i += 1;
        }
        assert(self@.take(i as int) == self@);
    }
}

} // verus!
