//! What records and options show of themselves.

use vstd::prelude::*;
use vstd::utf8::encode_utf8;

use crate::marker::{lock_on, marker_key_text, scope_bytes, sha256, LockName};
use crate::options::{
    default_options, deletion_options, guarded, marker_options, GuardId, ObjectOptions, Options,
    PrefixMutationGuard,
};
use crate::records::{ClosedPrefixProofV1, ClosedPrefixV1, Error};
use crate::text::hex_text;

verus! {

/// Whether two requests agree in every field.
pub open spec fn same_request(a: ClosedPrefixV1, b: ClosedPrefixV1) -> bool {
    &&& a.bucket@ == b.bucket@
    &&& a.prefix@ == b.prefix@
    &&& forall|i: int| 0 <= i < 16 ==> #[trigger] a.operation.bytes@[i] == b.operation.bytes@[i]
    &&& forall|i: int| 0 <= i < 32 ==> #[trigger] a.context_sha256@[i] == b.context_sha256@[i]
}

/// Whether two proofs agree in every field.
pub open spec fn same_proof(a: ClosedPrefixProofV1, b: ClosedPrefixProofV1) -> bool {
    &&& same_request(a.closed, b.closed)
    &&& forall|i: int|
        0 <= i < 16 ==> #[trigger] a.provider_deployment.bytes@[i]
            == b.provider_deployment.bytes@[i]
    &&& forall|i: int|
        0 <= i < 16 ==> #[trigger] a.bucket_incarnation.bytes@[i] == b.bucket_incarnation.bytes@[i]
}

/// Two requests are equal exactly if they agree in every field.
pub proof fn law_requests_are_equal_in_every_field(a: ClosedPrefixV1, b: ClosedPrefixV1)
    ensures
        a@ == b@ <==> same_request(a, b),
{
    if same_request(a, b) {
        assert(a.operation@ =~= b.operation@);
        assert(a@.context_sha256 =~= b@.context_sha256);
    }
}

/// Two proofs are equal exactly if they agree in every field.
pub proof fn law_proofs_are_equal_in_every_field(a: ClosedPrefixProofV1, b: ClosedPrefixProofV1)
    ensures
        a@ == b@ <==> same_proof(a, b),
{
    law_requests_are_equal_in_every_field(a.closed, b.closed);
    if same_proof(a, b) {
        assert(a.provider_deployment@ =~= b.provider_deployment@);
        assert(a.bucket_incarnation@ =~= b.bucket_incarnation@);
    }
}

/// What a request and a proof show is what they hold.
pub proof fn law_proof_shows_its_fields(proof: ClosedPrefixProofV1)
    ensures
        proof@.closed == proof.closed@,
        proof@.closed.bucket == proof.closed.bucket@,
        proof@.closed.prefix == proof.closed.prefix@,
        proof@.closed.operation == proof.closed.operation.bytes@,
        proof@.closed.context_sha256 == proof.closed.context_sha256@,
        proof@.provider_deployment == proof.provider_deployment.bytes@,
        proof@.bucket_incarnation == proof.bucket_incarnation.bytes@,
{
}

/// Of all failures, just that no such file and that no such object is there say that an
/// object is absent.
pub proof fn law_two_failures_say_absent<E>(error: Error<E>)
    ensures
        error.says_absent() <==> error is FileNotFound || error is ObjectNotFound,
{
}

/// The marker of a prefix is kept under a fixed place, in an object named by the SHA-256
/// digest, in hexadecimal, of the bucket's bytes, a zero byte and the prefix's bytes. The
/// lock on the prefix is a resource of the bucket with the same name.
pub proof fn law_marker_and_lock_are_named_by_the_digest(bucket: Seq<char>, prefix: Seq<char>)
    ensures
        marker_key_text(bucket, prefix) == "tokoloshe/closed-prefix/v1/"@ + hex_text(
            sha256(encode_utf8(bucket) + seq![0u8] + encode_utf8(prefix)),
        ),
        lock_on(bucket, prefix).bucket == bucket,
        lock_on(bucket, prefix).resource == marker_key_text(bucket, prefix),
{
    reveal_strlit("tokoloshe/closed-prefix/v1");
    reveal_strlit("tokoloshe/closed-prefix/v1/");
    assert(scope_bytes(bucket, prefix) =~= encode_utf8(bucket) + seq![0u8] + encode_utf8(prefix));
    assert(marker_key_text(bucket, prefix) =~= "tokoloshe/closed-prefix/v1/"@ + hex_text(
        sha256(encode_utf8(bucket) + seq![0u8] + encode_utf8(prefix)),
    ));
}

/// What a lock's name shows is its bucket and its resource.
pub proof fn law_lock_name_shows_its_parts(name: LockName)
    ensures
        name@.bucket == name.bucket@,
        name@.resource == name.resource@,
{
}

/// What options show is what they hold.
pub proof fn law_options_show_their_fields(options: ObjectOptions)
    ensures
        options@.max_parity == options.max_parity,
        options@.namespace_lock_guards == options.namespace_lock_guards@,
        options@.bucket_lifecycle_lock_guards == options.bucket_lifecycle_lock_guards@,
        options@.if_none_match is Some <==> options.http_preconditions is Some,
        options.http_preconditions matches Some(conditions) ==> {
            &&& (options@.if_none_match->0 is Some <==> conditions.if_none_match is Some)
            &&& (conditions.if_none_match matches Some(tag) ==> options@.if_none_match->0
                == Some(tag@))
        },
{
}

/// What the guard of a change shows is its locks.
pub proof fn law_guard_shows_its_locks(guard: PrefixMutationGuard)
    ensures
        guard@.len() == guard.guards@.len(),
        forall|i: int| 0 <= i < guard.guards@.len() ==> #[trigger] guard@[i] == guard.guards@[i],
{
}

/// All locks of a guard are handed on: the options hold the locks on names that they held,
/// and behind these each of the guard's, in order and nothing else; and they stay as they
/// were in all other respects.
pub proof fn law_every_lock_is_handed_on(options: Options, guards: Seq<GuardId>)
    ensures
        guarded(options, guards).namespace_lock_guards.len() == options.namespace_lock_guards.len()
            + guards.len(),
        forall|i: int|
            0 <= i < options.namespace_lock_guards.len() ==> #[trigger] guarded(
                options,
                guards,
            ).namespace_lock_guards[i] == options.namespace_lock_guards[i],
        forall|i: int|
            0 <= i < guards.len() ==> guarded(
                options,
                guards,
            ).namespace_lock_guards[options.namespace_lock_guards.len() + i] == #[trigger] guards[i],
        guarded(options, guards).max_parity == options.max_parity,
        guarded(options, guards).if_none_match == options.if_none_match,
        guarded(options, guards).bucket_lifecycle_lock_guards
            == options.bucket_lifecycle_lock_guards,
{
}

/// Locks that are handed on in two parts are handed on as the whole.
pub proof fn law_locks_are_handed_on_in_parts(
    options: Options,
    first: Seq<GuardId>,
    second: Seq<GuardId>,
)
    ensures
        guarded(guarded(options, first), second) == guarded(options, first + second),
{
    assert(guarded(guarded(options, first), second) =~= guarded(options, first + second));
}

/// Options of which nothing was asked hold no lock, set no condition and ask for no more
/// parity.
pub proof fn law_default_options_ask_for_nothing()
    ensures
        !default_options().max_parity,
        default_options().if_none_match is None,
        default_options().namespace_lock_guards.len() == 0,
        default_options().bucket_lifecycle_lock_guards.len() == 0,
{
}

/// A marker is written with the most parity, under no lock of the options, and only where no
/// object of whatever tag is there.
pub proof fn law_marker_is_written_once()
    ensures
        marker_options().max_parity,
        marker_options().if_none_match == Some(Some("*"@)),
        marker_options().namespace_lock_guards.len() == 0,
        marker_options().bucket_lifecycle_lock_guards.len() == 0,
{
}

/// An object of a closed prefix is deleted under just the two locks that were had: that on
/// the prefix among the locks on names, and that on the bucket's lifecycle.
pub proof fn law_objects_are_deleted_under_both_locks(prefix_guard: GuardId, bucket_guard: GuardId)
    ensures
        deletion_options(prefix_guard, bucket_guard).namespace_lock_guards =~= seq![prefix_guard],
        deletion_options(prefix_guard, bucket_guard).bucket_lifecycle_lock_guards =~= seq![
            bucket_guard,
        ],
        !deletion_options(prefix_guard, bucket_guard).max_parity,
        deletion_options(prefix_guard, bucket_guard).if_none_match is None,
{
}

} // verus!
