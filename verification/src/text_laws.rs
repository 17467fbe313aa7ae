//! What holds of all strings, of their order, and of bytes in hexadecimal.

use vstd::prelude::*;
use vstd::utf8::encode_utf8;

use crate::ident::hex_value;
use crate::text::{
    ascending, begins_with, bytes_precede, hex_digit, hex_text, lemma_common_start, owned_texts,
    precedes, texts, texts_backwards,
};

verus! {

/// `a` and `b` agree up to the place `n`, where `a` ends first or has the smaller byte.
pub open spec fn differ_first(a: Seq<u8>, b: Seq<u8>, n: int) -> bool {
    &&& 0 <= n <= a.len()
    &&& n < b.len()
    &&& forall|i: int| 0 <= i < n ==> #[trigger] a[i] == b[i]
    &&& n < a.len() ==> a[n] < b[n]
}

/// Whether the UTF-8 bytes of `a` are smaller than those of `b` where the two first differ.
pub open spec fn earlier(a: Seq<char>, b: Seq<char>) -> bool {
    exists|n: int| differ_first(encode_utf8(a), encode_utf8(b), n)
}

proof fn lemma_bytes_differ_first(a: Seq<u8>, b: Seq<u8>)
    ensures
        bytes_precede(a, b) <==> exists|n: int| differ_first(a, b, n),
    decreases a.len(),
{
    if bytes_precede(a, b) {
        if a.len() == 0 || a[0] != b[0] {
            assert(differ_first(a, b, 0));
        } else {
            let a1 = a.drop_first();
            let b1 = b.drop_first();
            lemma_bytes_differ_first(a1, b1);
            let n = choose|n: int| differ_first(a1, b1, n);
            assert forall|i: int| 0 <= i < n + 1 implies #[trigger] a[i] == b[i] by {
                if i > 0 {
                    assert(a1[i - 1] == b1[i - 1]);
                }
            }
            assert(n < a1.len() ==> a[n + 1] == a1[n] && b[n + 1] == b1[n]);
            assert(differ_first(a, b, n + 1));
        }
    }
    if exists|n: int| differ_first(a, b, n) {
        let n = choose|n: int| differ_first(a, b, n);
        assert(a.take(n) =~= b.take(n));
        lemma_common_start(a, b, n);
    }
}

/// One string comes before another exactly if its UTF-8 bytes are smaller where the two
/// first differ, or end there.
pub proof fn law_first_difference_decides_the_order(a: Seq<char>, b: Seq<char>)
    ensures
        precedes(a, b) <==> earlier(a, b),
{
    lemma_bytes_differ_first(encode_utf8(a), encode_utf8(b));
}

/// Strings stand in ascending order exactly if each is smaller than all that follow it.
pub proof fn law_ascending_is_pairwise(strings: Seq<Seq<char>>)
    ensures
        ascending(strings) <==> forall|i: int, j: int|
            0 <= i < j < strings.len() ==> earlier(#[trigger] strings[i], #[trigger] strings[j]),
{
    assert forall|i: int, j: int|
        #![trigger strings[i], strings[j]]
        0 <= i < j < strings.len() implies precedes(strings[i], strings[j]) == earlier(
        strings[i],
        strings[j],
    ) by {
        law_first_difference_decides_the_order(strings[i], strings[j]);
    }
}

/// A string begins with another exactly if it is that other and something behind it.
pub proof fn law_beginning_leaves_a_rest(s: Seq<char>, start: Seq<char>)
    ensures
        begins_with(s, start) <==> exists|rest: Seq<char>| s == #[trigger] (start + rest),
{
    if begins_with(s, start) {
        assert(s =~= start + s.skip(start.len() as int));
    }
    if exists|rest: Seq<char>| s == #[trigger] (start + rest) {
        let rest = choose|rest: Seq<char>| s == #[trigger] (start + rest);
        assert(s.take(start.len() as int) =~= start);
    }
}

/// The texts of strings are those of each, in the order of the strings.
pub proof fn law_texts_are_those_of_each(strings: Seq<&str>)
    ensures
        texts(strings).len() == strings.len(),
        forall|i: int| 0 <= i < strings.len() ==> #[trigger] texts(strings)[i] == strings[i]@,
{
}

/// The texts of owned strings are those of each, in the order of the strings, or in the
/// opposite order if they are taken backwards.
pub proof fn law_owned_texts_are_those_of_each(strings: Seq<String>)
    ensures
        owned_texts(strings).len() == strings.len(),
        texts_backwards(strings).len() == strings.len(),
        forall|i: int| 0 <= i < strings.len() ==> #[trigger] owned_texts(strings)[i] == strings[i]@,
        forall|i: int|
            0 <= i < strings.len() ==> #[trigger] texts_backwards(strings)[i] == strings[strings.len()
                - 1 - i]@,
{
}

/// Texts taken backwards are the texts, reversed.
pub proof fn law_texts_backwards_are_reversed(strings: Seq<String>)
    ensures
        texts_backwards(strings) == owned_texts(strings).reverse(),
{
    assert(texts_backwards(strings) =~= owned_texts(strings).reverse());
}

/// The sixteen hexadecimal digits stand in their usual order, and are worth their place.
pub proof fn law_hex_digits_in_order(n: int)
    requires
        0 <= n < 16,
    ensures
        hex_digit(n) == "0123456789abcdef"@[n],
        hex_value(hex_digit(n)) == Some(n),
{
    reveal_strlit("0123456789abcdef");
}

/// Bytes in hexadecimal are two lower-case digits for each, that for the sixteens first.
pub proof fn law_hex_text_is_two_digits_a_byte(bytes: Seq<u8>)
    ensures
        hex_text(bytes).len() == 2 * bytes.len(),
        forall|i: int|
            0 <= i < bytes.len() ==> {
                &&& hex_text(bytes)[2 * i] == "0123456789abcdef"@[(#[trigger] bytes[i]) as int / 16]
                &&& hex_text(bytes)[2 * i + 1] == "0123456789abcdef"@[bytes[i] as int % 16]
            },
{
    assert forall|i: int| 0 <= i < bytes.len() implies {
        &&& hex_text(bytes)[2 * i] == "0123456789abcdef"@[(#[trigger] bytes[i]) as int / 16]
        &&& hex_text(bytes)[2 * i + 1] == "0123456789abcdef"@[bytes[i] as int % 16]
    } by {
        law_hex_digits_in_order(bytes[i] as int / 16);
        law_hex_digits_in_order(bytes[i] as int % 16);
    }
}

/// Different bytes have different texts in hexadecimal.
pub proof fn law_hex_text_injective(a: Seq<u8>, b: Seq<u8>)
    requires
        hex_text(a) == hex_text(b),
    ensures
        a == b,
{
    assert(hex_text(a).len() == 2 * a.len());
    assert(hex_text(b).len() == 2 * b.len());
    assert forall|i: int| 0 <= i < a.len() implies a[i] == b[i] by {
        assert(hex_text(a)[2 * i] == hex_digit(a[i] as int / 16));
        assert(hex_text(b)[2 * i] == hex_digit(b[i] as int / 16));
        assert(hex_text(a)[2 * i + 1] == hex_digit(a[i] as int % 16));
        assert(hex_text(b)[2 * i + 1] == hex_digit(b[i] as int % 16));
        law_hex_digits_in_order(a[i] as int / 16);
        law_hex_digits_in_order(b[i] as int / 16);
        law_hex_digits_in_order(a[i] as int % 16);
        law_hex_digits_in_order(b[i] as int % 16);
    }
    assert(a =~= b);
}

} // verus!
