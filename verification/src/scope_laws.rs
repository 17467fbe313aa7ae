//! What holds of scopes whatever the key.

use vstd::prelude::*;
use vstd::utf8::encode_utf8;

use crate::ident::{all_zero, law_uuid_text_denotes_uuid, uuid_text};
use crate::scopes::{
    all_digits, database_in_shards, digits_value, first_hyphen, is_scope, names_epoch, number_in, scopes, scopes_within,
    segments,
};
use crate::text::{begins_with, bytes_precede, hex_text, precedes};

verus! {

/// `s` holds `part` somewhere.
pub open spec fn holds(s: Seq<char>, part: Seq<char>) -> bool {
    exists|i: int|
        0 <= i <= s.len() - part.len() && #[trigger] s.subrange(i, i + part.len()) == part
}

/// The decimal digits of a number.
pub open spec fn decimal_text(n: nat) -> Seq<char>
    decreases n,
{
    if n < 10 {
        seq![('0' as int + n) as char]
    } else {
        decimal_text(n / 10).push(('0' as int + n % 10) as char)
    }
}

/// The scope below `root` of the epoch `ordinal`, labelled `label`, of a database.
pub open spec fn scope_text(
    root: Seq<char>,
    database: Seq<u8>,
    ordinal: nat,
    label: Seq<u8>,
) -> Seq<char> {
    root + "/v1/databases/"@ + hex_text(database.subrange(0, 2)) + "/"@ + hex_text(
        database.subrange(2, 4),
    ) + "/"@ + uuid_text(database) + "/epochs/"@ + decimal_text(ordinal) + "-"@ + uuid_text(label)
        + "/objects/"@
}

proof fn lemma_scopes_within(object: Seq<char>, n: int, p: Seq<char>)
    requires
        0 <= n <= object.len(),
    ensures
        scopes_within(object, n).contains(p) <==> (is_scope(p) && begins_with(object, p) && 0
            < p.len() <= n),
    decreases n,
{
    if n > 0 {
        lemma_scopes_within(object, n - 1, p);
        let shorter = scopes_within(object, n - 1);
        let all = scopes_within(object, n);
        if is_scope(object.take(n)) {
            assert(all == shorter.push(object.take(n)));
            assert(all[all.len() - 1] == object.take(n));
            if shorter.contains(p) {
                let k = choose|k: int| 0 <= k < shorter.len() && shorter[k] == p;
                assert(all[k] == p);
            }
        }
        if begins_with(object, p) && p.len() == n {
            assert(p == object.take(n));
        }
    }
}

/// The scopes of a key are exactly those of its prefixes that are scopes.
pub proof fn law_scopes_are_the_scope_prefixes(object: Seq<char>, p: Seq<char>)
    ensures
        scopes(object).contains(p) <==> is_scope(p) && begins_with(object, p),
{
    lemma_scopes_within(object, object.len() as int, p);
    if p.len() == 0 {
        assert(segments(p).len() == 1);
    }
}

/// Every key below a scope has that scope among its own, whatever follows it.
pub proof fn law_scope_covers_every_key_below(scope: Seq<char>, rest: Seq<char>)
    requires
        is_scope(scope),
    ensures
        scopes(scope + rest).contains(scope),
{
    assert((scope + rest).take(scope.len() as int) == scope);
    law_scopes_are_the_scope_prefixes(scope + rest, scope);
}

/// The scopes of a key are exactly those scopes of a longer key that are no longer than the
/// key, and come first among them.
pub proof fn law_longer_key_keeps_scopes(object: Seq<char>, rest: Seq<char>)
    ensures
        forall|p: Seq<char>| #[trigger]
            scopes(object).contains(p) <==> scopes(object + rest).contains(p) && p.len()
                <= object.len(),
        scopes(object).len() <= scopes(object + rest).len(),
        scopes(object + rest).take(scopes(object).len() as int) == scopes(object),
{
    let longer = object + rest;
    assert forall|p: Seq<char>| #[trigger]
        scopes(object).contains(p) <==> scopes(longer).contains(p) && p.len() <= object.len() by {
        law_scopes_are_the_scope_prefixes(object, p);
        law_scopes_are_the_scope_prefixes(longer, p);
        if p.len() <= object.len() {
            assert(longer.take(p.len() as int) =~= object.take(p.len() as int));
        }
    }
    assert(longer.take(object.len() as int) =~= object.take(object.len() as int));
    lemma_shared_start_shares_scopes(object, longer, object.len() as int);
    lemma_scopes_within_grow(longer, object.len() as int, longer.len() as int);
}

proof fn lemma_shared_start_shares_scopes(a: Seq<char>, b: Seq<char>, n: int)
    requires
        0 <= n <= a.len(),
        n <= b.len(),
        a.take(n) == b.take(n),
    ensures
        scopes_within(a, n) == scopes_within(b, n),
    decreases n,
{
    if n > 0 {
        assert(a.take(n - 1) =~= a.take(n).take(n - 1));
        assert(b.take(n - 1) =~= b.take(n).take(n - 1));
        lemma_shared_start_shares_scopes(a, b, n - 1);
    }
}

proof fn lemma_scopes_within_grow(object: Seq<char>, m: int, n: int)
    requires
        0 <= m <= n,
    ensures
        scopes_within(object, m).len() <= scopes_within(object, n).len(),
        scopes_within(object, n).take(scopes_within(object, m).len() as int) == scopes_within(
            object,
            m,
        ),
    decreases n,
{
    let fewer = scopes_within(object, m);
    if m == n {
        assert(fewer.take(fewer.len() as int) =~= fewer);
    } else {
        lemma_scopes_within_grow(object, m, n - 1);
        let shorter = scopes_within(object, n - 1);
        assert(scopes_within(object, n).take(fewer.len() as int) =~= shorter.take(
            fewer.len() as int,
        ));
    }
}

proof fn lemma_encode_concat(a: Seq<char>, b: Seq<char>)
    ensures
        encode_utf8(a + b) == encode_utf8(a) + encode_utf8(b),
    decreases a.len(),
{
    if a.len() == 0 {
        assert(a + b == b);
        assert(encode_utf8(a) == Seq::<u8>::empty());
        assert(encode_utf8(a) + encode_utf8(b) == encode_utf8(b));
    } else {
        lemma_encode_concat(a.drop_first(), b);
        assert((a + b).drop_first() == a.drop_first() + b);
        assert((a + b)[0] == a[0]);
        assert(encode_utf8(a + b) =~= encode_utf8(a) + encode_utf8(b));
    }
}

proof fn lemma_longer_bytes(a: Seq<u8>, b: Seq<u8>)
    requires
        b.len() > 0,
    ensures
        bytes_precede(a, a + b),
    decreases a.len(),
{
    if a.len() > 0 {
        lemma_longer_bytes(a.drop_first(), b);
        assert((a + b).drop_first() == a.drop_first() + b);
    }
}

/// A string comes before every longer string that begins with it.
pub proof fn lemma_prefix_precedes(a: Seq<char>, b: Seq<char>)
    requires
        a.len() < b.len(),
        begins_with(b, a),
    ensures
        precedes(a, b),
{
    let rest = b.skip(a.len() as int);
    assert(b == a + rest);
    lemma_encode_concat(a, rest);
    assert(encode_utf8(rest).len() > 0);
    lemma_longer_bytes(encode_utf8(a), encode_utf8(rest));
}

proof fn lemma_scopes_within_ascending(object: Seq<char>, n: int, i: int, j: int)
    requires
        0 <= n <= object.len(),
        0 <= i < j < scopes_within(object, n).len(),
    ensures
        precedes(scopes_within(object, n)[i], scopes_within(object, n)[j]),
    decreases n,
{
    let shorter = scopes_within(object, n - 1);
    if j < shorter.len() {
        lemma_scopes_within_ascending(object, n - 1, i, j);
    } else {
        assert(shorter.contains(shorter[i]));
        lemma_scopes_within(object, n - 1, shorter[i]);
        assert(object.take(n).take(shorter[i].len() as int) == object.take(shorter[i].len() as int));
        lemma_prefix_precedes(shorter[i], object.take(n));
    }
}

/// The scopes of a key stand in strictly ascending order, so none occurs twice.
pub proof fn law_scopes_ascend(object: Seq<char>, i: int, j: int)
    requires
        0 <= i < j < scopes(object).len(),
    ensures
        precedes(scopes(object)[i], scopes(object)[j]),
{
    lemma_scopes_within_ascending(object, object.len() as int, i, j);
}

/// Where the segment with index `j` begins.
spec fn segment_start(parts: Seq<Seq<char>>, j: int) -> int
    decreases j,
{
    if j <= 0 {
        0
    } else {
        segment_start(parts, j - 1) + parts[j - 1].len() + 1
    }
}

proof fn lemma_segment_start_agrees(p: Seq<Seq<char>>, q: Seq<Seq<char>>, j: int)
    requires
        forall|k: int| 0 <= k < j ==> p[k] == q[k],
    ensures
        segment_start(p, j) == segment_start(q, j),
    decreases j,
{
    if j > 0 {
        lemma_segment_start_agrees(p, q, j - 1);
    }
}

/// Each segment stands where the lengths of those before it say, with a slash before it
/// unless it is the first.
proof fn lemma_segment_place(s: Seq<char>, j: int)
    requires
        0 <= j < segments(s).len(),
    ensures
        0 <= segment_start(segments(s), j),
        segment_start(segments(s), j) + segments(s)[j].len() <= s.len(),
        s.subrange(
            segment_start(segments(s), j),
            segment_start(segments(s), j) + segments(s)[j].len(),
        ) == segments(s)[j],
        j > 0 ==> 0 < segment_start(segments(s), j),
        j > 0 ==> s[segment_start(segments(s), j) - 1] == '/',
        j == segments(s).len() - 1 ==> segment_start(segments(s), j) + segments(s)[j].len() == s.len(),
    decreases s.len(),
{
    let parts = segments(s);
    if s.len() > 0 {
        let before = segments(s.drop_last());
        lemma_segments_nonempty(s.drop_last());
        lemma_segment_start_agrees(parts, before, j);
        if j < before.len() {
            lemma_segment_place(s.drop_last(), j);
            let at = segment_start(before, j);
            assert(s.drop_last().subrange(at, at + before[j].len()) == s.subrange(
                at,
                at + before[j].len(),
            ));
            if j > 0 {
                assert(s[at - 1] == s.drop_last()[at - 1]);
            }
            assert(s.subrange(at, at + parts[j].len()) =~= parts[j]);
        } else {
            lemma_segment_start_agrees(parts, before, j - 1);
            lemma_segment_place(s.drop_last(), j - 1);
            assert(segment_start(parts, j) == s.len());
            assert(s.subrange(s.len() as int, s.len() as int) =~= parts[j]);
        }
    } else {
        assert(s.subrange(0, 0) =~= parts[0]);
    }
}

pub proof fn lemma_segments_nonempty(s: Seq<char>)
    ensures
        segments(s).len() > 0,
    decreases s.len(),
{
    if s.len() > 0 {
        lemma_segments_nonempty(s.drop_last());
    }
}

/// A key without `/v1/databases/` in it has no scopes.
pub proof fn law_no_scope_without_databases(object: Seq<char>)
    requires
        !holds(object, "/v1/databases/"@),
    ensures
        scopes(object) == Seq::<Seq<char>>::empty(),
{
    if scopes(object).len() > 0 {
        let scope = scopes(object)[0];
        assert(scopes(object).contains(scope));
        law_scopes_are_the_scope_prefixes(object, scope);
        reveal_strlit("/v1/databases/");
        reveal_strlit("v1");
        reveal_strlit("databases");
        let parts = segments(scope);
        let v = parts.len() - 9;
        lemma_segment_place(scope, v);
        lemma_segment_place(scope, v + 1);
        lemma_segment_place(scope, v + 2);
        let at = segment_start(parts, v);
        assert(segment_start(parts, v + 1) == at + 3);
        assert(segment_start(parts, v + 2) == at + 13);
        assert(scope.subrange(at, at + 2) == "v1"@);
        assert(scope.subrange(at + 3, at + 12) == "databases"@);
        let found = object.subrange(at - 1, at + 13);
        assert forall|k: int| 0 <= k < 14 implies found[k] == "/v1/databases/"@[k] by {
            assert(found[k] == object.take(scope.len() as int)[at - 1 + k]);
            assert(found[k] == scope[at - 1 + k]);
            if 1 <= k < 3 {
                assert(scope.subrange(at, at + 2)[k - 1] == "v1"@[k - 1]);
            } else if 4 <= k < 13 {
                assert(scope.subrange(at + 3, at + 12)[k - 4] == "databases"@[k - 4]);
            }
        }
        assert(found =~= "/v1/databases/"@);
        assert(object.subrange(at - 1, at - 1 + "/v1/databases/"@.len()) == "/v1/databases/"@);
    }
}

/// A slash and a segment without slashes behind a string are one more segment.
proof fn lemma_one_more_segment(s: Seq<char>, segment: Seq<char>)
    requires
        !segment.contains('/'),
    ensures
        segments(s.push('/') + segment) == segments(s).push(segment),
    decreases segment.len(),
{
    let whole = s.push('/') + segment;
    if segment.len() == 0 {
        assert(whole == s.push('/'));
        assert(whole.drop_last() == s);
        assert(segment == Seq::<char>::empty());
    } else {
        let shorter = segment.drop_last();
        assert forall|k: int| 0 <= k < shorter.len() implies shorter[k] != '/' by {
            assert(shorter[k] == segment[k]);
            assert(segment.contains(segment[k]));
        }
        lemma_one_more_segment(s, shorter);
        assert(whole.drop_last() == s.push('/') + shorter);
        assert(segment.contains(segment.last()));
        assert(whole.last() == segment.last());
        assert(segments(whole) =~= segments(s).push(shorter).drop_last().push(
            shorter.push(segment.last()),
        ));
        assert(shorter.push(segment.last()) == segment);
        assert(segments(s).push(shorter).drop_last() == segments(s));
    }
}

pub proof fn lemma_decimal_text(n: nat)
    ensures
        decimal_text(n).len() > 0,
        all_digits(decimal_text(n)),
        digits_value(decimal_text(n)) == n,
    decreases n,
{
    let text = decimal_text(n);
    if n < 10 {
        assert(text.drop_last() == Seq::<char>::empty());
        assert(digits_value(text.drop_last()) == 0);
    } else {
        lemma_decimal_text(n / 10);
        assert(text.drop_last() == decimal_text(n / 10));
        assert forall|i: int| 0 <= i < text.len() implies '0' <= #[trigger] text[i] <= '9' by {
            if i < text.len() - 1 {
                assert(text[i] == decimal_text(n / 10)[i]);
            }
        }
    }
}

/// The decimal digits of a number below 2^64 denote that number.
pub proof fn law_decimal_text_denotes_number(n: nat)
    requires
        n <= u64::MAX,
    ensures
        number_in(decimal_text(n)) == Some(n),
{
    lemma_decimal_text(n);
    assert('0' <= decimal_text(n)[0]);
}

/// An ordinal's digits, a hyphen and a label's text name an epoch.
proof fn lemma_epoch_name(ordinal: nat, label: Seq<u8>)
    requires
        0 < ordinal <= u64::MAX,
        label.len() == 16,
        !all_zero(label),
    ensures
        names_epoch(decimal_text(ordinal) + "-"@ + uuid_text(label)),
        !(decimal_text(ordinal) + "-"@ + uuid_text(label)).contains('/'),
{
    let number = decimal_text(ordinal);
    let epoch = number + "-"@ + uuid_text(label);
    reveal_strlit("-");
    law_uuid_text_denotes_uuid(label);
    law_decimal_text_denotes_number(ordinal);
    lemma_decimal_text(ordinal);
    lemma_uuid_text_slashless(label);
    let at = number.len() as int;
    assert(epoch.take(at) == number);
    assert(epoch.skip(at + 1) == uuid_text(label));
    assert(first_hyphen(epoch, at));
    assert forall|k: int| 0 <= k < epoch.len() implies epoch[k] != '/' by {
        if k < at {
            assert(epoch[k] == number[k]);
        } else if k > at {
            assert(epoch[k] == uuid_text(label)[k - at - 1]);
            assert(uuid_text(label).contains(epoch[k]));
        }
    }
}

proof fn lemma_uuid_text_slashless(bytes: Seq<u8>)
    requires
        bytes.len() == 16,
    ensures
        !uuid_text(bytes).contains('/'),
{
    assert forall|k: int| 0 <= k < 32 implies hex_text(bytes)[k] != '/' by {}
}

/// The segments of a string of the form of a scope.
pub proof fn lemma_scope_segments(
    root: Seq<char>,
    high: Seq<char>,
    low: Seq<char>,
    database: Seq<char>,
    epoch: Seq<char>,
)
    requires
        !high.contains('/'),
        !low.contains('/'),
        !database.contains('/'),
        !epoch.contains('/'),
    ensures
        segments(
            root + "/v1/databases/"@ + high + "/"@ + low + "/"@ + database + "/epochs/"@ + epoch
                + "/objects/"@,
        ) == segments(root) + seq![
            "v1"@,
            "databases"@,
            high,
            low,
            database,
            "epochs"@,
            epoch,
            "objects"@,
            Seq::<char>::empty(),
        ],
{
    reveal_strlit("/v1/databases/");
    reveal_strlit("/");
    reveal_strlit("/epochs/");
    reveal_strlit("/objects/");
    reveal_strlit("v1");
    reveal_strlit("databases");
    reveal_strlit("epochs");
    reveal_strlit("objects");
    let s1 = root.push('/') + "v1"@;
    let s2 = s1.push('/') + "databases"@;
    let s3 = s2.push('/') + high;
    let s4 = s3.push('/') + low;
    let s5 = s4.push('/') + database;
    let s6 = s5.push('/') + "epochs"@;
    let s7 = s6.push('/') + epoch;
    let s8 = s7.push('/') + "objects"@;
    let s9 = s8.push('/') + Seq::<char>::empty();
    lemma_one_more_segment(root, "v1"@);
    lemma_one_more_segment(s1, "databases"@);
    lemma_one_more_segment(s2, high);
    lemma_one_more_segment(s3, low);
    lemma_one_more_segment(s4, database);
    lemma_one_more_segment(s5, "epochs"@);
    lemma_one_more_segment(s6, epoch);
    lemma_one_more_segment(s7, "objects"@);
    lemma_one_more_segment(s8, Seq::<char>::empty());
    assert(s2.push('/') =~= root + "/v1/databases/"@);
    assert(s3.push('/') =~= s2.push('/') + high + "/"@);
    assert(s4.push('/') =~= s3.push('/') + low + "/"@);
    assert(s6.push('/') =~= s5 + "/epochs/"@);
    assert(s9 =~= s7 + "/objects/"@);
    assert(segments(s9) =~= segments(root) + seq![
        "v1"@,
        "databases"@,
        high,
        low,
        database,
        "epochs"@,
        epoch,
        "objects"@,
        Seq::<char>::empty(),
    ]);
}

proof fn lemma_three_behind(a: Seq<char>, b: Seq<char>, c: Seq<char>, d: Seq<char>)
    ensures
        a + b + c + d == a + (b + c + d),
{
    assert(a + b + c + d =~= a + (b + c + d));
}

/// A string with the segments of a scope is one.
pub proof fn lemma_is_scope(
    s: Seq<char>,
    before: Seq<Seq<char>>,
    high: Seq<char>,
    low: Seq<char>,
    database: Seq<char>,
    epoch: Seq<char>,
)
    requires
        before.len() > 0,
        segments(s) == before + seq![
            "v1"@,
            "databases"@,
            high,
            low,
            database,
            "epochs"@,
            epoch,
            "objects"@,
            Seq::<char>::empty(),
        ],
        database_in_shards(high, low, database),
        names_epoch(epoch),
    ensures
        is_scope(s),
{
}

/// The scope of an epoch whose ordinal is positive, and whose database and label are not
/// nil, is a scope.
pub proof fn law_epoch_scope_is_scope(
    root: Seq<char>,
    database: Seq<u8>,
    ordinal: nat,
    label: Seq<u8>,
)
    requires
        database.len() == 16,
        !all_zero(database),
        0 < ordinal <= u64::MAX,
        label.len() == 16,
        !all_zero(label),
    ensures
        is_scope(scope_text(root, database, ordinal, label)),
{
    let high = hex_text(database.subrange(0, 2));
    let low = hex_text(database.subrange(2, 4));
    let epoch = decimal_text(ordinal) + "-"@ + uuid_text(label);
    law_uuid_text_denotes_uuid(database);
    lemma_uuid_text_slashless(database);
    assert(!high.contains('/'));
    assert(!low.contains('/'));
    assert(database_in_shards(high, low, uuid_text(database)));
    lemma_epoch_name(ordinal, label);
    lemma_segments_nonempty(root);
    lemma_scope_segments(root, high, low, uuid_text(database), epoch);
    let start = root + "/v1/databases/"@ + high + "/"@ + low + "/"@ + uuid_text(database)
        + "/epochs/"@;
    lemma_three_behind(start, decimal_text(ordinal), "-"@, uuid_text(label));
    lemma_is_scope(
        scope_text(root, database, ordinal, label),
        segments(root),
        high,
        low,
        uuid_text(database),
        epoch,
    );
}

} // verus!
