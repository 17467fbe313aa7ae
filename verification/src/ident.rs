//! UUIDs: their bytes, and the texts that denote them.

use vstd::prelude::*;

use crate::text::{hex_digit, hex_text};

verus! {

/// A UUID, held as its sixteen bytes in the order in which its text shows them.
#[derive(Clone, Copy, Debug, PartialEq, Eq, Hash)]
pub struct Uuid {
    pub bytes: [u8; 16],
}

impl View for Uuid {
    type V = Seq<u8>;

    open spec fn view(&self) -> Seq<u8> {
        self.bytes@
    }
}

/// Whether every byte is zero, as in the nil UUID.
pub open spec fn all_zero(bytes: Seq<u8>) -> bool {
    forall|i: int| 0 <= i < bytes.len() ==> bytes[i] == 0
}

/// The value of a hexadecimal digit of either case.
pub open spec fn hex_value(c: char) -> Option<int> {
    if '0' <= c <= '9' {
        Some(c as int - '0' as int)
    } else if 'a' <= c <= 'f' {
        Some(c as int - 'a' as int + 10)
    } else if 'A' <= c <= 'F' {
        Some(c as int - 'A' as int + 10)
    } else {
        None
    }
}

/// The digits of a UUID written in five groups, of 8, 4, 4, 4 and 12 characters,
/// with hyphens between them.
pub open spec fn grouped_digits(s: Seq<char>) -> Option<Seq<char>> {
    if s.len() == 36 && s[8] == '-' && s[13] == '-' && s[18] == '-' && s[23] == '-' {
        Some(
            s.subrange(0, 8) + s.subrange(9, 13) + s.subrange(14, 18) + s.subrange(19, 23)
                + s.subrange(24, 36),
        )
    } else {
        None
    }
}

/// Whether `s` is the start of a UUID's URN, in letters of either case.
pub open spec fn urn_start(s: Seq<char>) -> bool {
    &&& s.len() == 9
    &&& (s[0] == 'u' || s[0] == 'U') && (s[1] == 'r' || s[1] == 'R') && (s[2] == 'n' || s[2] == 'N')
    &&& (s[4] == 'u' || s[4] == 'U') && (s[5] == 'u' || s[5] == 'U') && (s[6] == 'i' || s[6] == 'I')
    &&& (s[7] == 'd' || s[7] == 'D') && s[3] == ':' && s[8] == ':'
}

/// The digits of a UUID's text: the digits alone, the five groups, the groups in
/// braces, or the groups behind `urn:uuid:`.
pub open spec fn uuid_digits(s: Seq<char>) -> Option<Seq<char>> {
    if s.len() == 32 {
        Some(s)
    } else if s.len() == 38 && s[0] == '{' && s[37] == '}' {
        grouped_digits(s.subrange(1, 37))
    } else if s.len() == 45 && urn_start(s.take(9)) {
        grouped_digits(s.skip(9))
    } else {
        grouped_digits(s)
    }
}

/// The UUID that a text denotes, if it denotes one.
pub open spec fn uuid_in(s: Seq<char>) -> Option<Seq<u8>> {
    match uuid_digits(s) {
        Some(digits) if forall|i: int| 0 <= i < 32 ==> hex_value(#[trigger] digits[i]) is Some => Some(
            Seq::new(
                16,
                |j: int| (hex_value(digits[2 * j])->0 * 16 + hex_value(digits[2 * j + 1])->0) as u8,
            ),
        ),
        _ => None,
    }
}

/// The usual text of a UUID: five groups of lower-case digits.
pub open spec fn uuid_text(bytes: Seq<u8>) -> Seq<char> {
    let digits = hex_text(bytes);
    digits.subrange(0, 8).push('-') + digits.subrange(8, 12).push('-') + digits.subrange(
        12,
        16,
    ).push('-') + digits.subrange(16, 20).push('-') + digits.subrange(20, 32)
}

/// The usual text of a UUID denotes that UUID.
pub proof fn law_uuid_text_denotes_uuid(bytes: Seq<u8>)
    requires
        bytes.len() == 16,
    ensures
        uuid_in(uuid_text(bytes)) == Some(bytes),
{
    let s = uuid_text(bytes);
    let digits = hex_text(bytes);
    assert(s.len() == 36);
    assert(grouped_digits(s) is Some);
    assert(grouped_digits(s)->0 =~= digits);
    assert forall|i: int| 0 <= i < 32 implies hex_value(#[trigger] digits[i]) is Some by {}
    assert forall|j: int| 0 <= j < 16 implies bytes[j] == #[trigger] (uuid_in(s)->0)[j] by {
        assert(digits[2 * j] == hex_digit(bytes[j] as int / 16));
        assert(digits[2 * j + 1] == hex_digit(bytes[j] as int % 16));
    }
    assert(uuid_in(s)->0 =~= bytes);
}

impl Uuid {
    /// Whether this is the nil UUID.
    pub fn is_nil(&self) -> (is: bool)
        ensures
            is == all_zero(self@),
    {
        let mut i: usize = 0;
        while i < 16
            invariant
                i <= 16,
                forall|j: int| 0 <= j < i ==> self@[j] == 0,
            decreases 16 - i,
        {
            if self.bytes[i] != 0 {
                return false;
            }
            i += 1;
        }
        true
    }

    /// Whether two UUIDs are equal.
    pub fn same(&self, other: &Uuid) -> (same: bool)
        ensures
            same == (self@ == other@),
            same == (*self == *other),
    {
        let mut i: usize = 0;
        while i < 16
            invariant
                i <= 16,
                forall|j: int| 0 <= j < i ==> self@[j] == other@[j],
            decreases 16 - i,
        {
            if self.bytes[i] != other.bytes[i] {
                return false;
            }
            i += 1;
        }
        assert(self@ =~= other@);
        assert(self.bytes =~= other.bytes);
        true
    }

    /// The UUID that `text` denotes.
    pub fn parse_str(text: &str) -> (parsed: Option<Uuid>)
        ensures
            parsed matches Some(uuid) ==> uuid_in(text@) == Some(uuid@),
            parsed is None ==> uuid_in(text@) is None,
    {
        match uuid_bytes(text) {
            Some(bytes) => Some(Uuid { bytes }),
            None => None,
        }
    }
}

/// Calls `uuid::Uuid::parse_str`, and `uuid::Uuid::into_bytes` on what it returns.
///
/// Claimed without proof: the call succeeds on exactly the texts that [`uuid_in`]
/// reads, and the bytes are those it gives. What a refused text was refused for is
/// not kept.
#[verifier::external_body]
fn uuid_bytes(text: &str) -> (bytes: Option<[u8; 16]>)
    ensures
        bytes matches Some(b) ==> uuid_in(text@) == Some(b@),
        bytes is None ==> uuid_in(text@) is None,
{
    uuid::Uuid::parse_str(text).ok().map(uuid::Uuid::into_bytes)
}

} // verus!
