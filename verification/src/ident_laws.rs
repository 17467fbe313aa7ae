//! What holds of all UUIDs and of the texts that denote them.

use vstd::prelude::*;

use crate::ident::{
    all_zero, grouped_digits, hex_value, urn_start, uuid_digits, uuid_in, Uuid,
};
use crate::text::{hex_digit, hex_text};

verus! {

/// Whether some byte is not zero.
pub open spec fn some_nonzero(bytes: Seq<u8>) -> bool {
    exists|i: int| 0 <= i < bytes.len() && #[trigger] bytes[i] != 0
}

/// Bytes are all zero exactly if none of them is another.
pub proof fn law_nil_has_no_other_byte(bytes: Seq<u8>)
    ensures
        all_zero(bytes) <==> !some_nonzero(bytes),
{
}

/// What a UUID shows is its sixteen bytes.
pub proof fn law_uuid_shows_its_bytes(uuid: Uuid)
    ensures
        uuid@.len() == 16,
        forall|i: int| 0 <= i < 16 ==> #[trigger] uuid@[i] == uuid.bytes@[i],
{
}

/// `c` is the lower-case character `lower`, or its capital.
pub open spec fn either_case(c: char, lower: char) -> bool {
    c == lower || ('a' <= lower <= 'z' && c as int == lower as int - 32)
}

/// `digits` are those of `bytes`, each in either case.
pub open spec fn digits_of(digits: Seq<char>, bytes: Seq<u8>) -> bool {
    &&& bytes.len() == 16
    &&& digits.len() == 32
    &&& forall|i: int| 0 <= i < 32 ==> either_case(#[trigger] digits[i], hex_text(bytes)[i])
}

/// Thirty-two digits in five groups, with hyphens between them.
pub open spec fn in_groups(digits: Seq<char>) -> Seq<char> {
    digits.subrange(0, 8) + "-"@ + digits.subrange(8, 12) + "-"@ + digits.subrange(12, 16) + "-"@
        + digits.subrange(16, 20) + "-"@ + digits.subrange(20, 32)
}

/// `start` is `urn:uuid:`, each letter in either case.
pub open spec fn urn_of_uuids(start: Seq<char>) -> bool {
    &&& start.len() == 9
    &&& forall|i: int| 0 <= i < 9 ==> either_case(#[trigger] start[i], "urn:uuid:"@[i])
}

/// Whether `s` is written from these digits: as they are, in groups, in groups and braces,
/// or in groups behind `start`, the start of a URN.
pub open spec fn written_from(s: Seq<char>, digits: Seq<char>, start: Seq<char>) -> bool {
    ||| s == digits
    ||| s == in_groups(digits)
    ||| s == "{"@ + in_groups(digits) + "}"@
    ||| urn_of_uuids(start) && s == start + in_groups(digits)
}

/// Whether `s` spells the UUID with these bytes, in one of the ways to write it.
pub open spec fn spells_uuid(s: Seq<char>, bytes: Seq<u8>) -> bool {
    exists|digits: Seq<char>, start: Seq<char>|
        #[trigger] written_from(s, digits, start) && digits_of(digits, bytes)
}

proof fn lemma_digit_values(c: char, n: int)
    requires
        0 <= n < 16,
    ensures
        hex_value(c) == Some(n) <==> either_case(c, hex_digit(n)),
{
}

proof fn lemma_digits_of(digits: Seq<char>, bytes: Seq<u8>)
    requires
        digits.len() == 32,
    ensures
        digits_of(digits, bytes) <==> {
            &&& bytes.len() == 16
            &&& forall|i: int| 0 <= i < 32 ==> hex_value(#[trigger] digits[i]) is Some
            &&& forall|j: int|
                0 <= j < 16 ==> #[trigger] bytes[j] == (hex_value(digits[2 * j])->0 * 16
                    + hex_value(digits[2 * j + 1])->0) as u8
        },
{
    if digits_of(digits, bytes) {
        assert forall|j: int| 0 <= j < 16 implies {
            &&& hex_value(digits[2 * j]) == Some((#[trigger] bytes[j]) as int / 16)
            &&& hex_value(digits[2 * j + 1]) == Some(bytes[j] as int % 16)
        } by {
            assert(either_case(digits[2 * j], hex_text(bytes)[2 * j]));
            assert(either_case(digits[2 * j + 1], hex_text(bytes)[2 * j + 1]));
            lemma_digit_values(digits[2 * j], bytes[j] as int / 16);
            lemma_digit_values(digits[2 * j + 1], bytes[j] as int % 16);
        }
        assert forall|i: int| 0 <= i < 32 implies hex_value(#[trigger] digits[i]) is Some by {
            let b = bytes[i / 2];
            assert(i == 2 * (i / 2) || i == 2 * (i / 2) + 1);
        }
    }
    if {
        &&& bytes.len() == 16
        &&& forall|i: int| 0 <= i < 32 ==> hex_value(#[trigger] digits[i]) is Some
        &&& forall|j: int|
            0 <= j < 16 ==> #[trigger] bytes[j] == (hex_value(digits[2 * j])->0 * 16 + hex_value(
                digits[2 * j + 1],
            )->0) as u8
    } {
        assert forall|i: int| 0 <= i < 32 implies either_case(
            #[trigger] digits[i],
            hex_text(bytes)[i],
        ) by {
            let j = i / 2;
            let high = hex_value(digits[2 * j])->0;
            let low = hex_value(digits[2 * j + 1])->0;
            assert(hex_value(digits[2 * j]) is Some);
            assert(hex_value(digits[2 * j + 1]) is Some);
            assert(bytes[j] as int == high * 16 + low);
            assert(bytes[j] as int / 16 == high);
            assert(bytes[j] as int % 16 == low);
            lemma_digit_values(digits[2 * j], high);
            lemma_digit_values(digits[2 * j + 1], low);
            assert(i == 2 * j || i == 2 * j + 1);
        }
    }
}

proof fn lemma_groups(digits: Seq<char>)
    requires
        digits.len() == 32,
    ensures
        in_groups(digits).len() == 36,
        grouped_digits(in_groups(digits)) == Some(digits),
{
    reveal_strlit("-");
    let s = in_groups(digits);
    assert(s.len() == 36);
    assert(s[8] == '-' && s[13] == '-' && s[18] == '-' && s[23] == '-');
    assert(grouped_digits(s)->0 =~= digits);
}

proof fn lemma_grouped(s: Seq<char>)
    requires
        grouped_digits(s) is Some,
    ensures
        (grouped_digits(s)->0).len() == 32,
        in_groups(grouped_digits(s)->0) == s,
{
    reveal_strlit("-");
    assert(in_groups(grouped_digits(s)->0) =~= s);
}

proof fn lemma_digits_as_written(s: Seq<char>, digits: Seq<char>, start: Seq<char>)
    requires
        digits.len() == 32,
        written_from(s, digits, start),
    ensures
        uuid_digits(s) == Some(digits),
{
    reveal_strlit("{");
    reveal_strlit("}");
    reveal_strlit("urn:uuid:");
    lemma_groups(digits);
    if s == "{"@ + in_groups(digits) + "}"@ {
        assert(s.subrange(1, 37) =~= in_groups(digits));
    } else if s == start + in_groups(digits) && urn_of_uuids(start) {
        assert(s.take(9) =~= start);
        assert(s.skip(9) =~= in_groups(digits));
        assert(either_case(start[0], 'u') && either_case(start[1], 'r') && either_case(start[2], 'n'));
        assert(either_case(start[3], ':') && either_case(start[4], 'u') && either_case(start[5], 'u'));
        assert(either_case(start[6], 'i') && either_case(start[7], 'd') && either_case(start[8], ':'));
    }
}

proof fn lemma_written_as_read(s: Seq<char>)
    requires
        uuid_digits(s) is Some,
    ensures
        (uuid_digits(s)->0).len() == 32,
        exists|start: Seq<char>| #[trigger] written_from(s, uuid_digits(s)->0, start),
{
    reveal_strlit("{");
    reveal_strlit("}");
    reveal_strlit("urn:uuid:");
    let digits = uuid_digits(s)->0;
    if s.len() == 32 {
        assert(written_from(s, digits, Seq::empty()));
    } else if s.len() == 38 && s[0] == '{' && s[37] == '}' {
        lemma_grouped(s.subrange(1, 37));
        assert(s =~= "{"@ + in_groups(digits) + "}"@);
        assert(written_from(s, digits, Seq::empty()));
    } else if s.len() == 45 && urn_start(s.take(9)) {
        let start = s.take(9);
        lemma_grouped(s.skip(9));
        assert(s =~= start + in_groups(digits));
        assert(urn_of_uuids(start));
        assert(written_from(s, digits, start));
    } else {
        lemma_grouped(s);
        assert(written_from(s, digits, Seq::empty()));
    }
}

/// A text is read as a UUID exactly if it spells that UUID, in whichever of the ways to
/// write it and with digits of either case.
pub proof fn law_uuid_is_read_exactly_where_it_is_spelled(s: Seq<char>, bytes: Seq<u8>)
    ensures
        uuid_in(s) == Some(bytes) <==> spells_uuid(s, bytes),
{
    if uuid_in(s) == Some(bytes) {
        let digits = uuid_digits(s)->0;
        lemma_written_as_read(s);
        lemma_digits_of(digits, bytes);
        let start = choose|start: Seq<char>| #[trigger] written_from(s, digits, start);
        assert(written_from(s, digits, start) && digits_of(digits, bytes));
    }
    if spells_uuid(s, bytes) {
        let (digits, start) = choose|digits: Seq<char>, start: Seq<char>|
            #[trigger] written_from(s, digits, start) && digits_of(digits, bytes);
        lemma_digits_as_written(s, digits, start);
        lemma_digits_of(digits, bytes);
        assert(uuid_in(s)->0 =~= bytes);
    }
}

/// A text spells one UUID at most.
pub proof fn law_text_spells_one_uuid(s: Seq<char>, a: Seq<u8>, b: Seq<u8>)
    requires
        spells_uuid(s, a),
        spells_uuid(s, b),
    ensures
        a == b,
{
    law_uuid_is_read_exactly_where_it_is_spelled(s, a);
    law_uuid_is_read_exactly_where_it_is_spelled(s, b);
}

} // verus!
