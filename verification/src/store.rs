//! The object store, as far as closing prefixes goes.

use vstd::prelude::*;

use crate::admission::{Admission, AdmissionState};
use crate::closing::Closing;
use crate::deletion::{Deletion, DeletionState};
use crate::ident::Uuid;
use crate::listing::{law_scope_list_of_one, mutation_scopes, scope_list};
use crate::reading::MarkerRead;
use crate::records::{ClosedPrefixProofV1, ClosedPrefixV1};
use crate::scopes::scopes;
use crate::text::{owned_texts, texts};

verus! {

/// An object store. Its operations are begun here; whoever carries out their outside
/// steps drives them on to their end.
#[derive(Clone, Copy, Debug, PartialEq, Eq)]
pub struct ECStore {
    /// The deployment that the store belongs to.
    pub id: Uuid,
}

impl ECStore {
    /// Begins to admit a change to an object.
    pub fn admit_prefix_mutation<E>(&self, bucket: &str, object: &str) -> (admission: Admission<E>)
        ensures
            admission@ == AdmissionState::<E>::start(bucket@, scopes(object@)),
    {
        let objects: [&str; 1] = [object];
        assert(texts(objects@) =~= seq![object@]);
        proof {
            law_scope_list_of_one(object@);
        }
        self.admit_prefix_mutations(bucket, objects.as_slice())
    }

    /// Begins to admit changes to objects of a bucket.
    pub fn admit_prefix_mutations<E>(&self, bucket: &str, objects: &[&str]) -> (admission: Admission<
        E,
    >)
        ensures
            admission@ == AdmissionState::<E>::start(bucket@, scope_list(texts(objects@))),
    {
        Admission::begin(bucket, mutation_scopes(objects))
    }

    /// Begins to close a prefix. A request that cannot be granted is refused at once.
    pub fn close_prefix<E>(&self, requested: ClosedPrefixV1) -> (closing: Closing<E>)
        ensures
            closing == Closing::<E>::start(self.id, requested),
    {
        Closing::begin(self.id, requested)
    }

    /// Begins to delete objects of a closed prefix. Keys that cannot be deleted together
    /// are refused at once.
    pub fn delete_closed_prefix_objects<E>(
        &self,
        proof: &ClosedPrefixProofV1,
        keys: &[String],
    ) -> (deletion: Deletion<E>)
        ensures
            deletion@ == DeletionState::<E>::start(self.id@, proof@, owned_texts(keys@)),
    {
        Deletion::begin(self.id, proof, keys)
    }

    /// Begins to read the marker of a prefix.
    pub fn read_prefix_marker<E>(&self, bucket: &str, prefix: &str) -> (read: MarkerRead<E>)
        ensures
            read matches MarkerRead::Open { bucket: b, prefix: p } && b@ == bucket@ && p@ == prefix@,
    {
        MarkerRead::begin(bucket, prefix)
    }
}

} // verus!
