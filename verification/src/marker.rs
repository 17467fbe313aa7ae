//! The marker that records a closed prefix, and the lock on a prefix: their names.

use vstd::prelude::*;
use vstd::slice::slice_to_vec;
use vstd::string::StringExecFns;
use vstd::utf8::encode_utf8;

use crate::text::{hex_lower, hex_text, lemma_utf8_injective};

verus! {

/// The most bytes that a marker may hold.
pub const MARKER_MAX_BYTES: usize = 2_048;

/// Where the markers are kept.
pub const MARKER_ROOT: &'static str = "tokoloshe/closed-prefix/v1";

/// What is hashed for a prefix of a bucket: the bucket's bytes, a zero byte, and the
/// prefix's bytes.
pub open spec fn scope_bytes(bucket: Seq<char>, prefix: Seq<char>) -> Seq<u8> {
    encode_utf8(bucket).push(0) + encode_utf8(prefix)
}

/// The SHA-256 digest of `data`.
pub uninterp spec fn sha256(data: Seq<u8>) -> Seq<u8>;

/// The hash of a prefix of a bucket, in hexadecimal.
pub open spec fn scope_hash_text(bucket: Seq<char>, prefix: Seq<char>) -> Seq<char> {
    hex_text(sha256(scope_bytes(bucket, prefix)))
}

/// The key of what belongs to the scope with the given hash.
pub open spec fn key_of_hash(hash: Seq<char>) -> Seq<char> {
    MARKER_ROOT@.push('/') + hash
}

/// The key of a prefix's marker.
pub open spec fn marker_key_text(bucket: Seq<char>, prefix: Seq<char>) -> Seq<char> {
    key_of_hash(scope_hash_text(bucket, prefix))
}

/// Calls `sha2::Sha256::digest`.
///
/// Claimed without proof: the digest depends on nothing but the bytes handed in.
#[verifier::external_body]
fn sha256_digest(data: &[u8]) -> (digest: [u8; 32])
    ensures
        digest@ == sha256(data@),
{
    <sha2::Sha256 as sha2::Digest>::digest(data).into()
}

/// The hash of a prefix of a bucket, as 64 hexadecimal digits.
pub fn scope_hash(bucket: &str, prefix: &str) -> (hash: String)
    ensures
        hash@ == scope_hash_text(bucket@, prefix@),
        hash@.len() == 64,
{
    let mut scope: Vec<u8> = slice_to_vec(bucket.as_bytes());
    scope.push(0);
    let mut rest: Vec<u8> = slice_to_vec(prefix.as_bytes());
    scope.append(&mut rest);
    assert(scope@ == scope_bytes(bucket@, prefix@));
    let digest = sha256_digest(scope.as_slice());
    hex_lower(digest.as_slice())
}

/// The key of what belongs to the scope with the given hash.
pub fn key_for_hash(hash: &str) -> (key: String)
    ensures
        key@ == key_of_hash(hash@),
{
    let mut key = MARKER_ROOT.to_owned();
    key.append("/");
    key.append(hash);
    proof {
        reveal_strlit("/");
        assert(key@ =~= key_of_hash(hash@));
    }
    key
}

/// The key of a prefix's marker: the place of the markers, a slash, and the hash.
pub fn marker_key(bucket: &str, prefix: &str) -> (key: String)
    ensures
        key@ == marker_key_text(bucket@, prefix@),
        key@.len() == 91,
{
    let hash = scope_hash(bucket, prefix);
    proof {
        reveal_strlit("tokoloshe/closed-prefix/v1");
    }
    key_for_hash(hash.as_str())
}

/// The name of a lock: a resource of a bucket.
#[derive(Debug, PartialEq, Eq)]
pub struct LockName {
    pub bucket: String,
    pub resource: String,
}

/// What a [`LockName`] names.
pub struct Lock {
    pub bucket: Seq<char>,
    pub resource: Seq<char>,
}

impl View for LockName {
    type V = Lock;

    open spec fn view(&self) -> Lock {
        Lock { bucket: self.bucket@, resource: self.resource@ }
    }
}

/// The lock on a prefix of a bucket.
pub open spec fn lock_on(bucket: Seq<char>, prefix: Seq<char>) -> Lock {
    Lock { bucket, resource: marker_key_text(bucket, prefix) }
}

/// The name of the lock on a prefix of a bucket: a resource of that bucket, called as the
/// prefix's marker is.
pub fn prefix_lock(bucket: &str, prefix: &str) -> (name: LockName)
    ensures
        name@ == lock_on(bucket@, prefix@),
{
    LockName { bucket: bucket.to_owned(), resource: marker_key(bucket, prefix) }
}

/// Different prefixes are hashed from different bytes, as are the prefixes of different
/// buckets, if no bucket has a zero byte in its name.
pub proof fn law_scope_bytes_injective(
    bucket: Seq<char>,
    prefix: Seq<char>,
    other_bucket: Seq<char>,
    other_prefix: Seq<char>,
)
    requires
        !encode_utf8(bucket).contains(0),
        !encode_utf8(other_bucket).contains(0),
        scope_bytes(bucket, prefix) == scope_bytes(other_bucket, other_prefix),
    ensures
        bucket == other_bucket,
        prefix == other_prefix,
{
    let whole = scope_bytes(bucket, prefix);
    let a = encode_utf8(bucket);
    let b = encode_utf8(other_bucket);
    if a.len() < b.len() {
        assert(whole[a.len() as int] == 0);
        assert(b[a.len() as int] == 0);
    }
    if b.len() < a.len() {
        assert(whole[b.len() as int] == 0);
        assert(a[b.len() as int] == 0);
    }
    assert(a =~= whole.take(a.len() as int));
    assert(b =~= whole.take(a.len() as int));
    assert(encode_utf8(prefix) =~= whole.skip(a.len() as int + 1));
    assert(encode_utf8(other_prefix) =~= whole.skip(a.len() as int + 1));
    lemma_utf8_injective(bucket, other_bucket);
    lemma_utf8_injective(prefix, other_prefix);
}

} // verus!
