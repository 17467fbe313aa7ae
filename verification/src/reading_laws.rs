//! What comes of a marker's reading, whatever is read.

use vstd::prelude::*;

use crate::ident_laws::{law_nil_has_no_other_byte, some_nonzero};
use crate::reading::{MarkerRead, MarkerReadEvent};
use crate::record_laws::law_proof_shows_its_fields;
use crate::records::{ClosedPrefixProofV1, Error};

verus! {

/// Whether `marker` names the bucket and the prefix, and neither of its two other parts is
/// nil.
pub open spec fn complete_marker(
    marker: ClosedPrefixProofV1,
    bucket: Seq<char>,
    prefix: Seq<char>,
) -> bool {
    &&& marker.closed.bucket@ == bucket
    &&& marker.closed.prefix@ == prefix
    &&& some_nonzero(marker.provider_deployment.bytes@)
    &&& some_nonzero(marker.bucket_incarnation.bytes@)
}

/// What a reading comes to if its object is opened, its bytes are read and decoded, as far as
/// it goes: an object that holds nothing or more than 2048 bytes, that holds another number
/// of bytes than was said, or whose bytes are no complete marker of the prefix is corrupted.
pub open spec fn reading_comes_to<E>(
    bucket: Seq<char>,
    prefix: Seq<char>,
    size: i64,
    bytes: Vec<u8>,
    decoded: Option<ClosedPrefixProofV1>,
) -> Result<Option<ClosedPrefixProofV1>, Error<E>> {
    if 1 <= size <= 2048 && bytes@.len() == size && decoded is Some && complete_marker(
        decoded->0,
        bucket,
        prefix,
    ) {
        Ok(decoded)
    } else {
        Err(Error::CorruptedFormat)
    }
}

/// A reading goes on while what comes is right, and returns the marker exactly if it is a
/// complete one of the prefix, in an object of 1 to 2048 bytes that holds as many as was
/// said; all else is corrupted, at the step at which it shows.
pub proof fn law_reading_takes_what_is_right<E>(
    bucket: String,
    prefix: String,
    size: i64,
    bytes: Vec<u8>,
    decoded: Option<ClosedPrefixProofV1>,
)
    ensures
        ({
            let start = MarkerRead::<E>::Open { bucket, prefix };
            let opened = start.after(MarkerReadEvent::Opened(Ok(size)));
            let read = opened.after(MarkerReadEvent::Bytes(Ok(bytes)));
            let end = read.after(MarkerReadEvent::Decoded(decoded));
            let corrupted = MarkerRead::<E>::Finished(Err(Error::CorruptedFormat));
            &&& start.awaits(MarkerReadEvent::Opened(Ok(size)))
            &&& end == MarkerRead::<E>::Finished(
                reading_comes_to(bucket@, prefix@, size, bytes, decoded),
            )
            &&& if 1 <= size <= 2048 {
                opened.awaits(MarkerReadEvent::Bytes(Ok(bytes)))
            } else {
                opened == corrupted
            }
            &&& 1 <= size <= 2048 ==> if bytes@.len() == size {
                read.awaits(MarkerReadEvent::Decoded(decoded))
            } else {
                read == corrupted
            }
        }),
{
    if let Some(marker) = decoded {
        law_proof_shows_its_fields(marker);
        law_nil_has_no_other_byte(marker.provider_deployment@);
        law_nil_has_no_other_byte(marker.bucket_incarnation@);
    }
}

/// A reading whose object is not there finds no marker, and any other failure to open or to
/// read the object is handed on.
pub proof fn law_reading_hands_failures_on<E>(
    bucket: String,
    prefix: String,
    size: i64,
    failure: Error<E>,
)
    ensures
        ({
            let start = MarkerRead::<E>::Open { bucket, prefix };
            let opened = start.after(MarkerReadEvent::Opened(Ok(size)));
            &&& start.awaits(MarkerReadEvent::Opened(Err(failure)))
            &&& start.after(MarkerReadEvent::Opened(Err(failure))) == MarkerRead::<E>::Finished(
                if failure is FileNotFound || failure is ObjectNotFound {
                    Ok(None)
                } else {
                    Err(failure)
                },
            )
            &&& 1 <= size <= 2048 ==> {
                &&& opened.awaits(MarkerReadEvent::Bytes(Err(failure)))
                &&& opened.after(MarkerReadEvent::Bytes(Err(failure))) == MarkerRead::<E>::Finished(
                    Err(failure),
                )
            }
        }),
{
}

} // verus!
