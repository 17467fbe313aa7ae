//! What is asked to be closed, and the proof that it was.

use vstd::prelude::*;

use crate::ident::Uuid;
use crate::text::same_text;

verus! {

/// A request to close a prefix of a bucket.
#[derive(Debug, PartialEq, Eq)]
pub struct ClosedPrefixV1 {
    pub bucket: String,
    pub prefix: String,
    pub operation: Uuid,
    pub context_sha256: [u8; 32],
}

/// The proof that a prefix is closed: what was asked, and where it was done.
#[derive(Debug, PartialEq, Eq)]
pub struct ClosedPrefixProofV1 {
    pub closed: ClosedPrefixV1,
    pub provider_deployment: Uuid,
    pub bucket_incarnation: Uuid,
}

/// What a [`ClosedPrefixV1`] says.
#[verifier::ext_equal]
pub struct ClosedPrefix {
    pub bucket: Seq<char>,
    pub prefix: Seq<char>,
    pub operation: Seq<u8>,
    pub context_sha256: Seq<u8>,
}

/// What a [`ClosedPrefixProofV1`] says.
#[verifier::ext_equal]
pub struct ClosedPrefixProof {
    pub closed: ClosedPrefix,
    pub provider_deployment: Seq<u8>,
    pub bucket_incarnation: Seq<u8>,
}

impl View for ClosedPrefixV1 {
    type V = ClosedPrefix;

    open spec fn view(&self) -> ClosedPrefix {
        ClosedPrefix {
            bucket: self.bucket@,
            prefix: self.prefix@,
            operation: self.operation@,
            context_sha256: self.context_sha256@,
        }
    }
}

impl View for ClosedPrefixProofV1 {
    type V = ClosedPrefixProof;

    open spec fn view(&self) -> ClosedPrefixProof {
        ClosedPrefixProof {
            closed: self.closed@,
            provider_deployment: self.provider_deployment@,
            bucket_incarnation: self.bucket_incarnation@,
        }
    }
}

impl Clone for ClosedPrefixV1 {
    fn clone(&self) -> (copy: Self)
        ensures
            copy == *self,
    {
        ClosedPrefixV1 {
            bucket: self.bucket.clone(),
            prefix: self.prefix.clone(),
            operation: self.operation,
            context_sha256: self.context_sha256,
        }
    }
}

impl Clone for ClosedPrefixProofV1 {
    fn clone(&self) -> (copy: Self)
        ensures
            copy == *self,
    {
        ClosedPrefixProofV1 {
            closed: self.closed.clone(),
            provider_deployment: self.provider_deployment,
            bucket_incarnation: self.bucket_incarnation,
        }
    }
}

impl ClosedPrefixV1 {
    /// Whether two requests say the same.
    pub fn same(&self, other: &ClosedPrefixV1) -> (same: bool)
        ensures
            same == (self@ == other@),
    {
        if !same_text(self.bucket.as_str(), other.bucket.as_str()) || !same_text(
            self.prefix.as_str(),
            other.prefix.as_str(),
        ) || !self.operation.same(&other.operation) {
            return false;
        }
        let mut i: usize = 0;
        while i < 32
            invariant
                i <= 32,
                forall|j: int| 0 <= j < i ==> self.context_sha256@[j] == other.context_sha256@[j],
            decreases 32 - i,
        {
            if self.context_sha256[i] != other.context_sha256[i] {
                return false;
            }
            i += 1;
        }
        assert(self.context_sha256@ =~= other.context_sha256@);
        true
    }
}

impl ClosedPrefixProofV1 {
    /// Whether two proofs say the same.
    pub fn same(&self, other: &ClosedPrefixProofV1) -> (same: bool)
        ensures
            same == (self@ == other@),
    {
        self.closed.same(&other.closed) && self.provider_deployment.same(&other.provider_deployment)
            && self.bucket_incarnation.same(&other.bucket_incarnation)
    }
}

/// Why an operation on a closed prefix failed. `Other` carries a failure of the storage
/// that this library hands through.
#[derive(Debug, PartialEq, Eq)]
pub enum Error<E> {
    PreconditionFailed,
    CorruptedFormat,
    FileNotFound,
    ObjectNotFound(String, String),
    Other(E),
}

impl<E> Error<E> {
    /// Whether the failure says that the object is not there.
    pub open spec fn says_absent(self) -> bool {
        self is FileNotFound || self is ObjectNotFound
    }

    /// Whether the failure says that the object is not there.
    pub fn is_absent(&self) -> (is: bool)
        ensures
            is == self.says_absent(),
    {
        match self {
            Error::FileNotFound => true,
            Error::ObjectNotFound(_, _) => true,
            _ => false,
        }
    }
}

} // verus!
