//! Reading a prefix's marker, one outside step at a time.

use vstd::prelude::*;

use crate::ident::all_zero;
use crate::marker::{marker_key, marker_key_text, MARKER_MAX_BYTES};
use crate::options::{default_options, ObjectOptions};
use crate::records::{ClosedPrefixProof, ClosedPrefixProofV1, Error};
use crate::text::same_text;

verus! {

/// A marker's reading, at the step that it waits for.
pub enum MarkerRead<E> {
    /// The object with the marker is to be opened.
    Open { bucket: String, prefix: String },
    /// The object was opened, and is said to hold `size` bytes.
    Read { bucket: String, prefix: String, size: usize },
    /// The bytes were read, and are to be decoded.
    Decode { bucket: String, prefix: String, bytes: Vec<u8> },
    /// The reading is over. There is a marker, there is none, or it could not be read.
    Finished(Result<Option<ClosedPrefixProofV1>, Error<E>>),
}

/// What a marker's reading waits for.
#[derive(Debug, PartialEq, Eq)]
pub enum MarkerReadAction<'a> {
    /// Open the object with this key, in the bucket that the server keeps its metadata in,
    /// whole and with no headers asked for, and say how many bytes it holds.
    Open { key: String, options: ObjectOptions },
    /// Read the object to its end, but no more than `limit` bytes of it.
    Read { limit: u64 },
    /// Decode these bytes.
    Decode { bytes: &'a Vec<u8> },
    /// Nothing.
    Finish,
}

/// What came of an outside step of a marker's reading.
pub enum MarkerReadEvent<E> {
    Opened(Result<i64, Error<E>>),
    Bytes(Result<Vec<u8>, Error<E>>),
    /// The decoded proof, or none if the bytes do not hold one.
    Decoded(Option<ClosedPrefixProofV1>),
}

/// Whether a marker is that of the prefix, and complete.
pub open spec fn marks(marker: ClosedPrefixProof, bucket: Seq<char>, prefix: Seq<char>) -> bool {
    &&& marker.closed.bucket == bucket
    &&& marker.closed.prefix == prefix
    &&& !all_zero(marker.provider_deployment)
    &&& !all_zero(marker.bucket_incarnation)
}

/// Whether a marker may hold `size` bytes.
pub open spec fn marker_size(size: int) -> bool {
    0 < size <= MARKER_MAX_BYTES
}

impl<E> MarkerRead<E> {
    /// Begins to read the marker of a prefix of a bucket.
    pub fn begin(bucket: &str, prefix: &str) -> (read: MarkerRead<E>)
        ensures
            read matches MarkerRead::Open { bucket: b, prefix: p } && b@ == bucket@ && p@ == prefix@,
    {
        MarkerRead::Open { bucket: bucket.to_owned(), prefix: prefix.to_owned() }
    }

    /// Whether `event` is what the reading waits for.
    pub open spec fn awaits(self, event: MarkerReadEvent<E>) -> bool {
        match self {
            MarkerRead::Open { .. } => event is Opened,
            MarkerRead::Read { .. } => event is Bytes,
            MarkerRead::Decode { .. } => event is Decoded,
            MarkerRead::Finished(_) => false,
        }
    }

    /// The reading after `event`.
    pub open spec fn after(self, event: MarkerReadEvent<E>) -> MarkerRead<E> {
        match (self, event) {
            (MarkerRead::Open { bucket, prefix }, MarkerReadEvent::Opened(Ok(size))) => if marker_size(
                size as int,
            ) {
                MarkerRead::Read { bucket, prefix, size: size as usize }
            } else {
                MarkerRead::Finished(Err(Error::CorruptedFormat))
            },
            (MarkerRead::Open { .. }, MarkerReadEvent::Opened(Err(error))) => if error.says_absent() {
                MarkerRead::Finished(Ok(None))
            } else {
                MarkerRead::Finished(Err(error))
            },
            (MarkerRead::Read { bucket, prefix, size }, MarkerReadEvent::Bytes(Ok(bytes))) => if bytes@.len()
                == size {
                MarkerRead::Decode { bucket, prefix, bytes }
            } else {
                MarkerRead::Finished(Err(Error::CorruptedFormat))
            },
            (MarkerRead::Read { .. }, MarkerReadEvent::Bytes(Err(error))) => MarkerRead::Finished(
                Err(error),
            ),
            (MarkerRead::Decode { bucket, prefix, .. }, MarkerReadEvent::Decoded(decoded)) => match decoded {
                Some(marker) if marks(marker@, bucket@, prefix@) => MarkerRead::Finished(
                    Ok(Some(marker)),
                ),
                _ => MarkerRead::Finished(Err(Error::CorruptedFormat)),
            },
            (waiting, _) => waiting,
        }
    }

    /// What the reading waits for. The limit is one byte more than a marker may hold, so
    /// that an object that grew is told from one that did not.
    pub fn action(&self) -> (action: MarkerReadAction<'_>)
        ensures
            match *self {
                MarkerRead::Open { bucket, prefix } => action matches MarkerReadAction::Open {
                    key,
                    options,
                } && key@ == marker_key_text(bucket@, prefix@) && options@ == default_options(),
                MarkerRead::Read { .. } => action matches MarkerReadAction::Read { limit } && limit
                    == MARKER_MAX_BYTES + 1,
                MarkerRead::Decode { bytes: held, .. } => action matches MarkerReadAction::Decode { bytes }
                    && *bytes == held,
                MarkerRead::Finished(_) => action is Finish,
            },
    {
        match self {
            MarkerRead::Open { bucket, prefix } => MarkerReadAction::Open {
                key: marker_key(bucket.as_str(), prefix.as_str()),
                options: ObjectOptions::default(),
            },
            MarkerRead::Read { .. } => MarkerReadAction::Read { limit: MARKER_MAX_BYTES as u64 + 1 },
            MarkerRead::Decode { bytes, .. } => MarkerReadAction::Decode { bytes },
            MarkerRead::Finished(_) => MarkerReadAction::Finish,
        }
    }

    /// Goes on with the reading. An event that it does not wait for leaves it as it is.
    pub fn step(self, event: MarkerReadEvent<E>) -> (next: MarkerRead<E>)
        ensures
            next == self.after(event),
    {
        match (self, event) {
            (MarkerRead::Open { bucket, prefix }, MarkerReadEvent::Opened(Ok(size))) => {
                if 0 < size && size <= MARKER_MAX_BYTES as i64 {
                    MarkerRead::Read { bucket, prefix, size: size as usize }
                } else {
                    MarkerRead::Finished(Err(Error::CorruptedFormat))
                }
            },
            (MarkerRead::Open { .. }, MarkerReadEvent::Opened(Err(error))) => {
                if error.is_absent() {
                    MarkerRead::Finished(Ok(None))
                } else {
                    MarkerRead::Finished(Err(error))
                }
            },
            (MarkerRead::Read { bucket, prefix, size }, MarkerReadEvent::Bytes(Ok(bytes))) => {
                if bytes.len() == size {
                    MarkerRead::Decode { bucket, prefix, bytes }
                } else {
                    MarkerRead::Finished(Err(Error::CorruptedFormat))
                }
            },
            (MarkerRead::Read { .. }, MarkerReadEvent::Bytes(Err(error))) => MarkerRead::Finished(
                Err(error),
            ),
            (MarkerRead::Decode { bucket, prefix, .. }, MarkerReadEvent::Decoded(decoded)) => {
                match decoded {
                    Some(marker) => {
                        if is_marker_of(&marker, bucket.as_str(), prefix.as_str()) {
                            MarkerRead::Finished(Ok(Some(marker)))
                        } else {
                            MarkerRead::Finished(Err(Error::CorruptedFormat))
                        }
                    },
                    None => MarkerRead::Finished(Err(Error::CorruptedFormat)),
                }
            },
            (waiting, _) => waiting,
        }
    }
}

/// Whether a marker is that of the prefix, and complete.
pub fn is_marker_of(marker: &ClosedPrefixProofV1, bucket: &str, prefix: &str) -> (is: bool)
    ensures
        is == marks(marker@, bucket@, prefix@),
{
    same_text(marker.closed.bucket.as_str(), bucket) && same_text(
        marker.closed.prefix.as_str(),
        prefix,
    ) && !marker.provider_deployment.is_nil() && !marker.bucket_incarnation.is_nil()
}

} // verus!
