use closed_prefix::ident::Uuid;
use closed_prefix::listing::mutation_scopes;
use closed_prefix::scopes::{is_database_in_shards, is_epoch_name, object_scopes, parse_number};
use closed_prefix::text::{hex_lower, same_text, text_precedes};

const SCOPE: &str =
    "root/v1/databases/1234/5678/12345678-1234-1234-1234-123456789abc/epochs/1-12345678-1234-1234-1234-123456789abc/objects/";

const ID: &str = "12345678-1234-1234-1234-123456789abc";

const NIL: &str = "00000000-0000-0000-0000-000000000000";

const BYTES: [u8; 16] = [
    0x12, 0x34, 0x56, 0x78, 0x12, 0x34, 0x12, 0x34, 0x12, 0x34, 0x12, 0x34, 0x56, 0x78, 0x9a, 0xbc,
];

#[test]
fn finds_canonical_scope_and_rejects_misspelt_shard() {
    let key = format!("{SCOPE}digest");
    assert_eq!(object_scopes(&key), vec![SCOPE]);
    assert!(object_scopes(&key.replace("/1234/5678/", "/1234/5679/")).is_empty());
}

#[test]
fn finds_closed_scope_even_when_suffix_contains_another_scope() {
    let key = format!("{SCOPE}nested/{SCOPE}digest");
    assert!(object_scopes(&key).contains(&SCOPE));
}

#[test]
fn finds_nested_scopes_in_ascending_order() {
    let key = format!("{SCOPE}nested/{SCOPE}digest");
    let inner = format!("{SCOPE}nested/{SCOPE}");
    assert_eq!(object_scopes(&key), vec![SCOPE, inner.as_str()]);
    let touching = format!("{SCOPE}{SCOPE}x");
    let longer = format!("{SCOPE}{SCOPE}");
    assert_eq!(object_scopes(&touching), vec![SCOPE, longer.as_str()]);
}

#[test]
fn scope_is_a_scope_of_itself_and_needs_its_last_slash() {
    assert_eq!(object_scopes(SCOPE), vec![SCOPE]);
    assert!(object_scopes(SCOPE.trim_end_matches('/')).is_empty());
    assert!(object_scopes(&format!("{}x", SCOPE.trim_end_matches('/'))).is_empty());
}

#[test]
fn scope_needs_a_segment_before_its_version() {
    let rest = SCOPE.trim_start_matches("root/");
    assert!(object_scopes(rest).is_empty());
    let rooted = format!("/{rest}");
    assert_eq!(object_scopes(&rooted), vec![rooted.as_str()]);
    let deep = format!("a/b//c/{rest}");
    assert_eq!(object_scopes(&deep), vec![deep.as_str()]);
    let wide = format!("\u{e9}t\u{e9}/{rest}\u{1f980}");
    assert_eq!(object_scopes(&wide), vec![wide.trim_end_matches('\u{1f980}')]);
}

#[test]
fn keys_without_databases_have_no_scopes() {
    assert!(object_scopes("").is_empty());
    assert!(object_scopes("plain/key").is_empty());
    assert!(object_scopes("root/v1/databases").is_empty());
    assert!(object_scopes("root/v1/databases/1234/5678/x/epochs/1-y/objects/z").is_empty());
}

#[test]
fn scope_rejects_wrong_words_and_extra_segments() {
    assert!(object_scopes(&SCOPE.replace("/v1/", "/v2/")).is_empty());
    assert!(object_scopes(&SCOPE.replace("epochs", "epoch")).is_empty());
    assert!(object_scopes(&SCOPE.replace("/objects/", "/objects//").replace("/objects//", "/object/")).is_empty());
    assert!(object_scopes(&SCOPE.replace("/epochs/", "//epochs/")).is_empty());
}

#[test]
fn epochs_have_a_positive_ordinal_and_a_label() {
    assert!(is_epoch_name(&format!("1-{ID}")));
    assert!(is_epoch_name(&format!("+1-{ID}")));
    assert!(is_epoch_name(&format!("007-{ID}")));
    assert!(is_epoch_name(&format!("18446744073709551615-{ID}")));
    assert!(!is_epoch_name(&format!("18446744073709551616-{ID}")));
    assert!(!is_epoch_name(&format!("0-{ID}")));
    assert!(!is_epoch_name(&format!("-{ID}")));
    assert!(!is_epoch_name(&format!("1-{NIL}")));
    assert!(!is_epoch_name(&format!("1--{ID}")));
    assert!(!is_epoch_name("1-"));
    assert!(!is_epoch_name("1"));
    assert!(!is_epoch_name(""));
}

#[test]
fn databases_stand_in_their_shards() {
    assert!(is_database_in_shards("1234", "5678", ID));
    assert!(is_database_in_shards("1234", "5678", "12345678123412341234123456789ABC"));
    assert!(!is_database_in_shards("5678", "1234", ID));
    assert!(!is_database_in_shards("0000", "0000", NIL));
    assert!(is_database_in_shards("00ab", "cdef", "00abcdef-0000-0000-0000-000000000000"));
    assert!(!is_database_in_shards("00AB", "CDEF", "00abcdef-0000-0000-0000-000000000000"));
    assert!(!is_database_in_shards("1234", "5678", "database"));
}

#[test]
fn numbers_are_decimal_and_fit() {
    let number = |s: &str| parse_number(&s.chars().collect::<Vec<char>>());
    assert_eq!(number("0"), Some(0));
    assert_eq!(number("42"), Some(42));
    assert_eq!(number("+42"), Some(42));
    assert_eq!(number("18446744073709551615"), Some(u64::MAX));
    assert_eq!(number("18446744073709551616"), None);
    assert_eq!(number("99999999999999999999"), None);
    assert_eq!(number(""), None);
    assert_eq!(number("+"), None);
    assert_eq!(number("-1"), None);
    assert_eq!(number("1 "), None);
    assert_eq!(number("\u{661}"), None);
}

#[test]
fn uuids_are_read_in_all_their_forms() {
    let expected = Some(Uuid { bytes: BYTES });
    assert_eq!(Uuid::parse_str(ID), expected);
    assert_eq!(Uuid::parse_str("12345678-1234-1234-1234-123456789ABC"), expected);
    assert_eq!(Uuid::parse_str("12345678123412341234123456789abc"), expected);
    assert_eq!(Uuid::parse_str("{12345678-1234-1234-1234-123456789abc}"), expected);
    assert_eq!(Uuid::parse_str("urn:uuid:12345678-1234-1234-1234-123456789abc"), expected);
    assert_eq!(Uuid::parse_str("URN:Uuid:12345678-1234-1234-1234-123456789abc"), expected);
}

#[test]
fn other_texts_are_no_uuids() {
    for text in [
        "",
        "12345678-1234-1234-1234-123456789ab",
        "12345678-1234-1234-1234-123456789abcd",
        "12345678-1234-1234-1234-123456789abg",
        "123456781-234-1234-1234-123456789abc",
        "{12345678-1234-1234-1234-123456789abc)",
        "{12345678123412341234123456789abc}",
        "urn-uuid:12345678-1234-1234-1234-123456789abc",
        "1234567812341234123412345678\u{e9}ab",
        "12345678-1234-1234-1234-1234567\u{e9}abc",
    ] {
        assert_eq!(Uuid::parse_str(text), None, "{text}");
    }
}

#[test]
fn nil_uuid_is_all_zeros() {
    assert!(Uuid::parse_str(NIL).unwrap().is_nil());
    assert!(!Uuid::parse_str(ID).unwrap().is_nil());
    let mut bytes = [0; 16];
    bytes[15] = 1;
    assert!(!Uuid { bytes }.is_nil());
    assert!(Uuid { bytes }.same(&Uuid { bytes }));
    assert!(!Uuid { bytes }.same(&Uuid { bytes: [0; 16] }));
}

#[test]
fn uuid_text_is_read_back() {
    let uuid = Uuid { bytes: BYTES };
    let hex = hex_lower(&uuid.bytes);
    assert_eq!(hex, "12345678123412341234123456789abc");
    assert_eq!(Uuid::parse_str(&hex), Some(uuid));
}

#[test]
fn strings_are_ordered_by_their_bytes() {
    let words = ["", "a", "a/", "a/b", "b", "z", "\u{7f}", "\u{80}", "\u{ffff}", "\u{10000}"];
    for (i, a) in words.iter().enumerate() {
        for (j, b) in words.iter().enumerate() {
            assert_eq!(text_precedes(a, b), i < j);
            assert_eq!(text_precedes(a, b), a < b);
            assert_eq!(same_text(a, b), i == j);
        }
    }
}

#[test]
fn scopes_of_several_objects_are_listed_once_in_order() {
    let other = SCOPE.replace("root/", "another/");
    let first = format!("{SCOPE}one");
    let second = format!("{SCOPE}two");
    let third = format!("{other}nested/{SCOPE}x");
    let inner = format!("{other}nested/{SCOPE}");
    let listed = mutation_scopes(&[&first, "plain", &third, &second]);
    assert_eq!(listed, vec![other.as_str(), inner.as_str(), SCOPE]);
    assert!(mutation_scopes(&[]).is_empty());
}

#[test]
fn longer_key_keeps_the_scopes_that_fit() {
    let inner = format!("{SCOPE}nested/{SCOPE}");
    let longer = format!("{inner}digest");
    let all = object_scopes(&longer);
    assert_eq!(all, vec![SCOPE, inner.as_str()]);
    let shorter = &longer[..inner.len() - 1];
    assert_eq!(object_scopes(shorter), vec![SCOPE]);
    assert_eq!(object_scopes(&inner), all);
}
