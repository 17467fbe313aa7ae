use closed_prefix::ident::Uuid;
use closed_prefix::marker::{key_for_hash, marker_key, prefix_lock, scope_hash, MARKER_MAX_BYTES};
use closed_prefix::options::ObjectOptions;
use closed_prefix::reading::{is_marker_of, MarkerRead, MarkerReadAction, MarkerReadEvent};
use closed_prefix::records::{ClosedPrefixProofV1, ClosedPrefixV1, Error};
use closed_prefix::store::ECStore;

fn kept_proof() -> ClosedPrefixProofV1 {
    ClosedPrefixProofV1 {
        closed: ClosedPrefixV1 {
            bucket: "bucket".to_string(),
            prefix: "prefix".to_string(),
            operation: Uuid { bytes: [1; 16] },
            context_sha256: [2; 32],
        },
        provider_deployment: Uuid { bytes: [3; 16] },
        bucket_incarnation: Uuid { bytes: [4; 16] },
    }
}

fn begin() -> MarkerRead<u8> {
    ECStore { id: Uuid { bytes: [3; 16] } }.read_prefix_marker("bucket", "prefix")
}

fn opening() -> MarkerReadAction<'static> {
    MarkerReadAction::Open { key: marker_key("bucket", "prefix"), options: ObjectOptions::default() }
}

fn outcome(read: MarkerRead<u8>) -> Result<Option<ClosedPrefixProofV1>, Error<u8>> {
    assert_eq!(read.action(), MarkerReadAction::Finish);
    match read {
        MarkerRead::Finished(outcome) => outcome,
        _ => panic!("the reading is not over"),
    }
}

#[test]
fn scope_hash_is_the_digest_of_bucket_zero_and_prefix() {
    assert_eq!(
        scope_hash("bucket", "prefix"),
        "3a177d875c22bdefd9a6f7447f6b7f250743fd7d5f81ccc4c00531942ff48fc5"
    );
    assert_eq!(scope_hash("", ""), "6e340b9cffb37a989ca544e6bb780a2c78901d3fb33738768511a30617afa01d");
    assert_ne!(scope_hash("buck", "etprefix"), scope_hash("bucket", "prefix"));
    assert_eq!(scope_hash("a\0b", "c"), scope_hash("a", "b\0c"));
}

#[test]
fn marker_and_lock_share_a_key() {
    let key = "tokoloshe/closed-prefix/v1/3a177d875c22bdefd9a6f7447f6b7f250743fd7d5f81ccc4c00531942ff48fc5";
    assert_eq!(marker_key("bucket", "prefix"), key);
    assert_eq!(key.len(), 91);
    assert_eq!(key_for_hash("beef"), "tokoloshe/closed-prefix/v1/beef");
    let lock = prefix_lock("bucket", "prefix");
    assert_eq!(lock.bucket, "bucket");
    assert_eq!(lock.resource, key);
}

#[test]
fn marker_is_read() {
    let read = begin();
    assert_eq!(read.action(), opening());
    let read = read.step(MarkerReadEvent::Opened(Ok(3)));
    assert_eq!(read.action(), MarkerReadAction::Read { limit: 2_049 });
    let read = read.step(MarkerReadEvent::Bytes(Ok(vec![7, 8, 9])));
    assert_eq!(read.action(), MarkerReadAction::Decode { bytes: &vec![7, 8, 9] });
    let read = read.step(MarkerReadEvent::Decoded(Some(kept_proof())));
    assert_eq!(outcome(read), Ok(Some(kept_proof())));
}

#[test]
fn missing_object_is_no_marker() {
    assert_eq!(outcome(begin().step(MarkerReadEvent::Opened(Err(Error::FileNotFound)))), Ok(None));
    let absent = Error::ObjectNotFound("bucket".to_string(), "key".to_string());
    assert_eq!(outcome(begin().step(MarkerReadEvent::Opened(Err(absent)))), Ok(None));
}

#[test]
fn outside_failures_of_a_reading_are_handed_through() {
    assert_eq!(outcome(begin().step(MarkerReadEvent::Opened(Err(Error::Other(5))))), Err(Error::Other(5)));
    let read = begin().step(MarkerReadEvent::Opened(Ok(3)));
    assert_eq!(outcome(read.step(MarkerReadEvent::Bytes(Err(Error::Other(6))))), Err(Error::Other(6)));
    let read = begin().step(MarkerReadEvent::Opened(Ok(3)));
    assert_eq!(
        outcome(read.step(MarkerReadEvent::Bytes(Err(Error::FileNotFound)))),
        Err(Error::FileNotFound)
    );
}

#[test]
fn marker_of_a_wrong_size_is_corrupted() {
    for size in [-1, 0, 2_049, i64::MAX] {
        assert_eq!(
            outcome(begin().step(MarkerReadEvent::Opened(Ok(size)))),
            Err(Error::CorruptedFormat)
        );
    }
    assert_eq!(MARKER_MAX_BYTES, 2_048);
    let read = begin().step(MarkerReadEvent::Opened(Ok(2_048)));
    assert_eq!(read.action(), MarkerReadAction::Read { limit: 2_049 });
    let read = read.step(MarkerReadEvent::Bytes(Ok(vec![0; 2_049])));
    assert_eq!(outcome(read), Err(Error::CorruptedFormat));
}

#[test]
fn marker_that_is_not_the_prefixes_own_is_corrupted() {
    let mut others = vec![kept_proof(), kept_proof(), kept_proof(), kept_proof()];
    others[0].closed.bucket = "other".to_string();
    others[1].closed.prefix = "prefix/".to_string();
    others[2].provider_deployment = Uuid { bytes: [0; 16] };
    others[3].bucket_incarnation = Uuid { bytes: [0; 16] };
    assert!(is_marker_of(&kept_proof(), "bucket", "prefix"));
    for other in others {
        assert!(!is_marker_of(&other, "bucket", "prefix"));
        let read = begin()
            .step(MarkerReadEvent::Opened(Ok(1)))
            .step(MarkerReadEvent::Bytes(Ok(vec![0])))
            .step(MarkerReadEvent::Decoded(Some(other)));
        assert_eq!(outcome(read), Err(Error::CorruptedFormat));
    }
    let read = begin()
        .step(MarkerReadEvent::Opened(Ok(1)))
        .step(MarkerReadEvent::Bytes(Ok(vec![0])))
        .step(MarkerReadEvent::Decoded(None));
    assert_eq!(outcome(read), Err(Error::CorruptedFormat));
}

#[test]
fn reading_ignores_what_it_does_not_wait_for() {
    let read = begin().step(MarkerReadEvent::Decoded(Some(kept_proof())));
    assert_eq!(read.action(), opening());
    let read = read.step(MarkerReadEvent::Opened(Ok(3))).step(MarkerReadEvent::Opened(Ok(4)));
    let read = read.step(MarkerReadEvent::Bytes(Ok(vec![1, 2, 3])));
    assert_eq!(read.action(), MarkerReadAction::Decode { bytes: &vec![1, 2, 3] });
}

#[test]
fn records_are_compared_and_copied_whole() {
    let one = kept_proof();
    assert!(one.same(&one.clone()));
    assert_eq!(one.clone(), one);
    let mut others = vec![kept_proof(), kept_proof(), kept_proof(), kept_proof(), kept_proof(), kept_proof()];
    others[0].closed.bucket.push('x');
    others[1].closed.prefix.push('x');
    others[2].closed.operation = Uuid { bytes: [9; 16] };
    others[3].closed.context_sha256[31] = 9;
    others[4].provider_deployment = Uuid { bytes: [9; 16] };
    others[5].bucket_incarnation = Uuid { bytes: [9; 16] };
    for other in others {
        assert!(!one.same(&other));
    }
}
