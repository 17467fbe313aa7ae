use std::borrow::Cow;

use closed_prefix::options::{GuardId, HTTPPreconditions, ObjectOptions, PrefixMutationGuard};

fn some_options() -> ObjectOptions {
    ObjectOptions {
        max_parity: true,
        http_preconditions: Some(HTTPPreconditions { if_none_match: Some("tag".to_string()) }),
        namespace_lock_guards: vec![GuardId(1)],
        bucket_lifecycle_lock_guards: vec![GuardId(2)],
    }
}

#[test]
fn options_without_guards_are_borrowed() {
    let options = some_options();
    let guard = PrefixMutationGuard { guards: vec![] };
    match guard.options(&options) {
        Cow::Borrowed(same) => assert!(std::ptr::eq(same, &options)),
        Cow::Owned(_) => panic!("copied for nothing"),
    }
}

#[test]
fn options_with_guards_are_a_copy_that_holds_them() {
    let options = some_options();
    let guard = PrefixMutationGuard { guards: vec![GuardId(3), GuardId(4)] };
    let expected = ObjectOptions {
        namespace_lock_guards: vec![GuardId(1), GuardId(3), GuardId(4)],
        ..some_options()
    };
    match guard.options(&options) {
        Cow::Borrowed(_) => panic!("the guards are missing"),
        Cow::Owned(owned) => assert_eq!(owned, expected),
    }
    assert_eq!(options, some_options());
    let mut changed = some_options();
    guard.add_to_options(&mut changed);
    assert_eq!(changed, expected);
}

#[test]
fn default_options_ask_for_nothing() {
    let options = ObjectOptions::default();
    assert!(!options.max_parity);
    assert_eq!(options.http_preconditions, None);
    assert!(options.namespace_lock_guards.is_empty());
    assert!(options.bucket_lifecycle_lock_guards.is_empty());
    assert_eq!(some_options().clone(), some_options());
}

#[test]
fn marker_is_written_once_with_most_parity() {
    let options = ObjectOptions::for_marker();
    assert!(options.max_parity);
    assert_eq!(
        options.http_preconditions,
        Some(HTTPPreconditions { if_none_match: Some("*".to_string()) })
    );
    assert!(options.namespace_lock_guards.is_empty());
}

#[test]
fn deletion_holds_both_locks() {
    let options = ObjectOptions::for_deletion(GuardId(5), GuardId(6));
    assert_eq!(options.namespace_lock_guards, vec![GuardId(5)]);
    assert_eq!(options.bucket_lifecycle_lock_guards, vec![GuardId(6)]);
    assert!(!options.max_parity);
}
