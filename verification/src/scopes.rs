//! The scopes of an object key: those of its prefixes that can be closed.
//!
//! A scope is a prefix of the form
//! `<root>/v1/databases/<shard>/<shard>/<database>/epochs/<ordinal>-<label>/objects/`.

use vstd::prelude::*;
use vstd::slice::slice_subrange;
use vstd::string::StrSliceExecFns;

use crate::ident::{all_zero, uuid_in, Uuid};
use crate::text::{characters, hex_lower, hex_text, same_text, texts};

verus! {

/// What stands between the slashes of `s`, the empty segments included.
pub open spec fn segments(s: Seq<char>) -> Seq<Seq<char>>
    decreases s.len(),
{
    if s.len() == 0 {
        seq![Seq::<char>::empty()]
    } else {
        let before = segments(s.drop_last());
        if s.last() == '/' {
            before.push(Seq::<char>::empty())
        } else {
            before.drop_last().push(before.last().push(s.last()))
        }
    }
}

/// Whether `s` is made of decimal digits alone.
pub open spec fn all_digits(s: Seq<char>) -> bool {
    forall|i: int| 0 <= i < s.len() ==> '0' <= #[trigger] s[i] <= '9'
}

/// The number that a string of decimal digits denotes.
pub open spec fn digits_value(s: Seq<char>) -> nat
    decreases s.len(),
{
    if s.len() == 0 {
        0
    } else {
        digits_value(s.drop_last()) * 10 + (s.last() as int - '0' as int) as nat
    }
}

/// The number below 2^64 that `s` denotes: decimal digits, behind at most one `+`.
pub open spec fn number_in(s: Seq<char>) -> Option<nat> {
    let digits = if s.len() > 0 && s[0] == '+' { s.skip(1) } else { s };
    if digits.len() > 0 && all_digits(digits) && digits_value(digits) <= u64::MAX {
        Some(digits_value(digits))
    } else {
        None
    }
}

/// Whether `s` denotes a UUID other than the nil one.
pub open spec fn names_uuid(s: Seq<char>) -> bool {
    uuid_in(s) matches Some(bytes) && !all_zero(bytes)
}

/// Whether `database` names a database, and the two shards are the first four bytes
/// of its UUID in hexadecimal, two bytes each.
pub open spec fn database_in_shards(
    high_shard: Seq<char>,
    low_shard: Seq<char>,
    database: Seq<char>,
) -> bool {
    &&& names_uuid(database)
    &&& high_shard == hex_text((uuid_in(database)->0).subrange(0, 2))
    &&& low_shard == hex_text((uuid_in(database)->0).subrange(2, 4))
}

/// `at` is the place of the first hyphen of `s`.
pub open spec fn first_hyphen(s: Seq<char>, at: int) -> bool {
    0 <= at < s.len() && s[at] == '-' && !s.take(at).contains('-')
}

/// Whether `s` is a positive ordinal, a hyphen, and a label that names a UUID.
pub open spec fn names_epoch(s: Seq<char>) -> bool {
    exists|at: int|
        {
            &&& #[trigger] first_hyphen(s, at)
            &&& number_in(s.take(at)) matches Some(ordinal) && ordinal > 0
            &&& names_uuid(s.skip(at + 1))
        }
}

/// Whether `s` is a scope.
pub open spec fn is_scope(s: Seq<char>) -> bool {
    let parts = segments(s);
    let n = parts.len();
    &&& n >= 10
    &&& parts[n - 9] == "v1"@
    &&& parts[n - 8] == "databases"@
    &&& database_in_shards(parts[n - 7], parts[n - 6], parts[n - 5])
    &&& parts[n - 4] == "epochs"@
    &&& names_epoch(parts[n - 3])
    &&& parts[n - 2] == "objects"@
    &&& parts[n - 1] == Seq::<char>::empty()
}

/// The scopes among the prefixes of `object` of at most `n` characters, shortest first.
pub open spec fn scopes_within(object: Seq<char>, n: int) -> Seq<Seq<char>>
    decreases n,
{
    if n <= 0 {
        Seq::empty()
    } else {
        let shorter = scopes_within(object, n - 1);
        if is_scope(object.take(n)) {
            shorter.push(object.take(n))
        } else {
            shorter
        }
    }
}

/// The scopes of `object`: every prefix of it that is a scope, shortest first.
pub open spec fn scopes(object: Seq<char>) -> Seq<Seq<char>> {
    scopes_within(object, object.len() as int)
}

/// A number is no smaller than what its leading digits denote.
proof fn lemma_leading_digits(s: Seq<char>, n: int)
    requires
        0 <= n <= s.len(),
    ensures
        digits_value(s.take(n)) <= digits_value(s),
    decreases s.len() - n,
{
    if n == s.len() {
        assert(s.take(n) == s);
    } else {
        lemma_leading_digits(s, n + 1);
        assert(s.take(n + 1).drop_last() == s.take(n));
    }
}

/// Reads a number below 2^64.
pub fn parse_number(s: &[char]) -> (number: Option<u64>)
    ensures
        number matches Some(n) ==> number_in(s@) == Some(n as nat),
        number is None ==> number_in(s@) is None,
{
    let first: usize = if s.len() > 0 && s[0] == '+' { 1 } else { 0 };
    let ghost digits = s@.skip(first as int);
    assert(first == 0 ==> digits == s@);
    if first == s.len() {
        return None;
    }
    let mut value: u64 = 0;
    let mut i: usize = first;
    while i < s.len()
        invariant
            first <= i <= s@.len(),
            first < s@.len(),
            digits == s@.skip(first as int),
            number_in(s@) == (if all_digits(digits) && digits_value(digits) <= u64::MAX {
                Some(digits_value(digits))
            } else {
                None
            }),
            all_digits(digits.take(i - first)),
            value == digits_value(digits.take(i - first)),
        decreases s@.len() - i,
    {
        let c = s[i];
        assert(c == digits[i - first]);
        if c < '0' || '9' < c {
            return None;
        }
        let ghost next = digits.take(i - first + 1);
        assert(next.drop_last() == digits.take(i - first));
        proof {
            lemma_leading_digits(digits, i - first + 1);
            assert forall|j: int| 0 <= j < next.len() implies '0' <= #[trigger] next[j] <= '9' by {
                if j < i - first {
                    assert(next[j] == digits.take(i - first)[j]);
                }
            }
        }
        let digit: u64 = (c as u32 - '0' as u32) as u64;
        let tens: u64 = match value.checked_mul(10) {
            Some(tens) => tens,
            None => return None,
        };
        value = match tens.checked_add(digit) {
            Some(sum) => sum,
            None => return None,
        };
        i += 1;
    }
    assert(digits.take(i - first) == digits);
    Some(value)
}

/// Whether `segment` denotes a UUID other than the nil one.
fn is_uuid_name(segment: &str) -> (is: bool)
    ensures
        is == names_uuid(segment@),
{
    match Uuid::parse_str(segment) {
        Some(uuid) => !uuid.is_nil(),
        None => false,
    }
}

/// Whether a database's segment and those of its shards fit together.
pub fn is_database_in_shards(high_shard: &str, low_shard: &str, database: &str) -> (is: bool)
    ensures
        is == database_in_shards(high_shard@, low_shard@, database@),
{
    match Uuid::parse_str(database) {
        Some(uuid) => {
            let bytes = uuid.bytes.as_slice();
            !uuid.is_nil() && same_text(
                high_shard,
                hex_lower(slice_subrange(bytes, 0, 2)).as_str(),
            ) && same_text(low_shard, hex_lower(slice_subrange(bytes, 2, 4)).as_str())
        },
        None => false,
    }
}

/// Whether `segment` names an epoch.
pub fn is_epoch_name(segment: &str) -> (is: bool)
    ensures
        is == names_epoch(segment@),
{
    let chars = characters(segment);
    let mut at: usize = 0;
    while at < chars.len() && chars[at] != '-'
        invariant
            at <= chars@.len(),
            chars@ == segment@,
            !chars@.take(at as int).contains('-'),
        decreases chars@.len() - at,
    {
        assert(chars@.take(at + 1) == chars@.take(at as int).push(chars@[at as int]));
        at += 1;
    }
    assert forall|k: int| first_hyphen(segment@, k) implies k == at by {
        if k < at {
            assert(chars@.take(at as int)[k] == '-');
        }
        if at < k {
            assert(segment@.take(k)[at as int] == '-');
        }
    }
    if at == chars.len() {
        return false;
    }
    assert(first_hyphen(segment@, at as int));
    let ordinal = slice_subrange(chars.as_slice(), 0, at);
    assert(ordinal@ == segment@.take(at as int));
    let label = segment.substring_char(at + 1, chars.len());
    assert(label@ == segment@.skip(at + 1));
    match parse_number(ordinal) {
        Some(number) => number > 0 && is_uuid_name(label),
        None => false,
    }
}

/// The part of `s` that a completed segment takes up.
spec fn part(s: Seq<char>, bounds: (usize, usize)) -> Seq<char> {
    s.subrange(bounds.0 as int, bounds.1 as int)
}

/// The completed segments of the first `n` characters of `s` lie within `done`, and the
/// one that is not completed begins at `start`.
spec fn segmented(s: Seq<char>, n: int, done: Seq<(usize, usize)>, start: int) -> bool {
    &&& 0 <= start <= n <= s.len()
    &&& segments(s.take(n)).len() == done.len() + 1
    &&& segments(s.take(n)).last() == s.subrange(start, n)
    &&& forall|j: int|
        0 <= j < done.len() ==> {
            &&& (#[trigger] done[j]).0 <= done[j].1 <= n
            &&& segments(s.take(n))[j] == part(s, done[j])
        }
}

/// Whether the first `n` characters of `object` are a scope, given the bounds of their
/// segments.
fn ends_scope(object: &str, n: usize, done: &Vec<(usize, usize)>) -> (is: bool)
    requires
        segmented(object@, n as int, done@, n as int),
    ensures
        is == is_scope(object@.take(n as int)),
{
    let count: usize = done.len();
    if count < 9 {
        return false;
    }
    let ghost parts = segments(object@.take(n as int));
    assert(parts.len() == count + 1);
    assert forall|j: int| 0 <= j < count implies parts[j] == part(object@, #[trigger] done@[j]) by {}
    assert(parts.last() == Seq::<char>::empty());
    let (a, b) = done[count - 8];
    let version = object.substring_char(a, b);
    let (a, b) = done[count - 7];
    let databases = object.substring_char(a, b);
    let (a, b) = done[count - 6];
    let high_shard = object.substring_char(a, b);
    let (a, b) = done[count - 5];
    let low_shard = object.substring_char(a, b);
    let (a, b) = done[count - 4];
    let database = object.substring_char(a, b);
    let (a, b) = done[count - 3];
    let epochs = object.substring_char(a, b);
    let (a, b) = done[count - 2];
    let epoch = object.substring_char(a, b);
    let (a, b) = done[count - 1];
    let objects = object.substring_char(a, b);
    same_text(version, "v1") && same_text(databases, "databases") && same_text(epochs, "epochs")
        && same_text(objects, "objects") && is_database_in_shards(high_shard, low_shard, database)
        && is_epoch_name(epoch)
}

/// The scopes of an object key, in order: every prefix of it that is a scope.
pub fn object_scopes(object: &str) -> (found: Vec<&str>)
    ensures
        texts(found@) == scopes(object@),
{
    let chars = characters(object);
    let mut found: Vec<&str> = Vec::new();
    let mut done: Vec<(usize, usize)> = Vec::new();
    let mut start: usize = 0;
    let mut i: usize = 0;
    assert(object@.take(0) == Seq::<char>::empty());
    while i < chars.len()
        invariant
            i <= chars@.len(),
            chars@ == object@,
            segmented(object@, i as int, done@, start as int),
            texts(found@) == scopes_within(object@, i as int),
        decreases chars@.len() - i,
    {
        let ghost before = segments(object@.take(i as int));
        let ghost after = segments(object@.take(i + 1));
        assert(object@.take(i + 1).drop_last() == object@.take(i as int));
        assert(object@.take(i + 1).last() == object@[i as int]);
        i += 1;
        if chars[i - 1] == '/' {
            let ghost completed = done@;
            done.push((start, i - 1));
            start = i;
            proof {
                assert(after == before.push(Seq::<char>::empty()));
                assert(after.last() =~= object@.subrange(i as int, i as int));
                assert forall|j: int| 0 <= j < done@.len() implies {
                    &&& (#[trigger] done@[j]).0 <= done@[j].1 <= i
                    &&& after[j] == part(object@, done@[j])
                } by {
                    if j < done@.len() - 1 {
                        assert(done@[j] == completed[j]);
                    }
                }
            }
            let ghost earlier = found@;
            if ends_scope(object, i, &done) {
                found.push(object.substring_char(0, i));
                assert(found@.last()@ == object@.take(i as int));
                assert(texts(found@) =~= texts(earlier).push(object@.take(i as int)));
            }
        } else {
            assert(after.last() =~= object@.subrange(start as int, i as int));
            assert(after.last().len() > 0);
        }
    }
    assert(object@.take(i as int) == object@);
    found
}

} // verus!
