//! What a scope looks like, character by character.

use vstd::prelude::*;

use crate::ident::{law_uuid_text_denotes_uuid, uuid_in, uuid_text};
use crate::ident_laws::{
    digits_of, either_case, in_groups, law_nil_has_no_other_byte,
    law_uuid_is_read_exactly_where_it_is_spelled, some_nonzero, spells_uuid, urn_of_uuids,
    written_from,
};
use crate::listing::{law_scope_list, scope_list, scope_of_some};
use crate::scope_laws::{
    decimal_text, law_scopes_are_the_scope_prefixes, lemma_decimal_text, lemma_is_scope,
    lemma_scope_segments, lemma_segments_nonempty,
};
use crate::scopes::{
    all_digits, database_in_shards, digits_value, first_hyphen, is_scope, names_epoch, names_uuid,
    number_in, scopes, scopes_within, segments,
};
use crate::text::hex_text;
use crate::text_laws::{earlier, law_ascending_is_pairwise, law_beginning_leaves_a_rest};

verus! {

/// Strings with slashes between them.
pub open spec fn joined(parts: Seq<Seq<char>>) -> Seq<char>
    decreases parts.len(),
{
    if parts.len() == 0 {
        Seq::empty()
    } else if parts.len() == 1 {
        parts[0]
    } else {
        joined(parts.drop_last()) + "/"@ + parts.last()
    }
}

/// The segments of a string have no slashes in them, and are the string again once slashes
/// are put between them.
pub proof fn law_segments_are_joined_by_slashes(s: Seq<char>)
    ensures
        segments(s).len() > 0,
        joined(segments(s)) == s,
        forall|i: int| 0 <= i < segments(s).len() ==> !(#[trigger] segments(s)[i]).contains('/'),
    decreases s.len(),
{
    reveal_strlit("/");
    if s.len() == 0 {
        assert(joined(segments(s)) =~= s);
    } else {
        let shorter = s.drop_last();
        law_segments_are_joined_by_slashes(shorter);
        let before = segments(shorter);
        let parts = segments(s);
        if s.last() == '/' {
            assert(parts.drop_last() =~= before);
            assert(parts.last() =~= Seq::<char>::empty());
            assert(joined(parts) =~= shorter + "/"@);
            assert(shorter + "/"@ =~= s);
        } else {
            assert(parts.drop_last() =~= before.drop_last());
            assert(parts.last() == before.last().push(s.last()));
            assert(!before[before.len() - 1].contains('/'));
            assert(!parts.last().contains('/')) by {
                assert forall|k: int| 0 <= k < parts.last().len() implies parts.last()[k] != '/' by {
                    if k < before.last().len() {
                        assert(parts.last()[k] == before.last()[k]);
                        assert(before.last().contains(before.last()[k]));
                    }
                }
            }
            if parts.len() == 1 {
                assert(joined(parts) =~= shorter.push(s.last()));
            } else {
                assert(joined(parts) =~= joined(before).push(s.last()));
            }
            assert(shorter.push(s.last()) =~= s);
        }
        assert forall|i: int| 0 <= i < parts.len() implies !(#[trigger] parts[i]).contains('/') by {
            if i < parts.len() - 1 {
                assert(parts[i] == before[i]);
            }
        }
    }
}

/// As many zeros.
pub open spec fn zeros(count: nat) -> Seq<char> {
    Seq::new(count, |i: int| '0')
}

/// Whether `s` is the decimal digits of `n`, behind any zeros and, if `plus`, a `+` before
/// these.
pub open spec fn number_behind(s: Seq<char>, n: nat, plus: bool, leading: nat) -> bool {
    s == (if plus { "+"@ } else { Seq::<char>::empty() }) + zeros(leading) + decimal_text(n)
}

/// Whether `s` spells the number `n`, which is below 2^64.
pub open spec fn spells_number(s: Seq<char>, n: nat) -> bool {
    &&& n < 0x1_0000_0000_0000_0000
    &&& exists|plus: bool, leading: nat| #[trigger] number_behind(s, n, plus, leading)
}

proof fn lemma_leading_zeros(d: Seq<char>) -> (leading: nat)
    requires
        d.len() > 0,
        all_digits(d),
    ensures
        d == zeros(leading) + decimal_text(digits_value(d)),
    decreases d.len(),
{
    let front = d.drop_last();
    let c = d.last();
    let v = digits_value(front);
    assert('0' <= c <= '9');
    if front.len() == 0 {
        assert(v == 0);
        assert(d =~= zeros(0) + decimal_text(digits_value(d)));
        0
    } else {
        assert forall|i: int| 0 <= i < front.len() implies '0' <= #[trigger] front[i] <= '9' by {
            assert(front[i] == d[i]);
        }
        let z = lemma_leading_zeros(front);
        let n = digits_value(d);
        assert(d =~= front.push(c));
        if v == 0 {
            assert(decimal_text(v) =~= seq!['0']);
            assert(decimal_text(n) =~= seq![c]);
            assert(d =~= zeros(z + 1) + decimal_text(n));
            z + 1
        } else {
            assert(n / 10 == v);
            assert(n >= 10);
            assert(decimal_text(n) =~= decimal_text(v).push(c));
            assert(d =~= zeros(z) + decimal_text(n));
            z
        }
    }
}

proof fn lemma_value_behind_zeros(leading: nat, d: Seq<char>)
    requires
        all_digits(d),
    ensures
        all_digits(zeros(leading) + d),
        digits_value(zeros(leading) + d) == digits_value(d),
    decreases leading + d.len(),
{
    let s = zeros(leading) + d;
    assert forall|i: int| 0 <= i < s.len() implies '0' <= #[trigger] s[i] <= '9' by {
        if i >= leading {
            assert(s[i] == d[i - leading]);
        }
    }
    if d.len() > 0 {
        assert forall|i: int| 0 <= i < d.len() - 1 implies '0' <= #[trigger] d.drop_last()[i] <= '9' by {
            assert(d.drop_last()[i] == d[i]);
        }
        lemma_value_behind_zeros(leading, d.drop_last());
        assert(s.drop_last() =~= zeros(leading) + d.drop_last());
    } else if leading > 0 {
        lemma_value_behind_zeros((leading - 1) as nat, d);
        assert(s.drop_last() =~= zeros((leading - 1) as nat) + d);
    }
}

/// A text is read as a number exactly if it spells that number, with whatever zeros before
/// its digits, and with or without a `+` before all of them.
pub proof fn law_number_is_read_exactly_where_it_is_spelled(s: Seq<char>, n: nat)
    ensures
        number_in(s) == Some(n) <==> spells_number(s, n),
{
    reveal_strlit("+");
    let signed = s.len() > 0 && s[0] == '+';
    let digits = if signed { s.skip(1) } else { s };
    if number_in(s) == Some(n) {
        let leading = lemma_leading_zeros(digits);
        if signed {
            assert(s =~= "+"@ + digits);
        }
        assert(s =~= (if signed { "+"@ } else { Seq::<char>::empty() }) + zeros(leading)
            + decimal_text(n));
        assert(number_behind(s, n, signed, leading));
    }
    if spells_number(s, n) {
        let (plus, leading) = choose|plus: bool, leading: nat|
            #[trigger] number_behind(s, n, plus, leading);
        let behind = zeros(leading) + decimal_text(n);
        lemma_decimal_text(n);
        lemma_value_behind_zeros(leading, decimal_text(n));
        assert('0' <= behind[0] <= '9');
        if plus {
            assert(s =~= "+"@ + behind);
            assert(s.skip(1) =~= behind);
        } else {
            assert(s =~= behind);
        }
    }
}

/// Whether `s` is a scope, written with these texts for its parts: something, a database in
/// its shards, an epoch that has a positive ordinal and a label, and nothing behind. `db` and
/// `lb` are the bytes of the database and of the label.
pub open spec fn written_as_scope(
    s: Seq<char>,
    root: Seq<char>,
    database: Seq<char>,
    db: Seq<u8>,
    ordinal: Seq<char>,
    n: nat,
    label: Seq<char>,
    lb: Seq<u8>,
) -> bool {
    &&& s == root + "/v1/databases/"@ + hex_text(db.subrange(0, 2)) + "/"@ + hex_text(
        db.subrange(2, 4),
    ) + "/"@ + database + "/epochs/"@ + (ordinal + "-"@ + label) + "/objects/"@
    &&& spells_uuid(database, db) && some_nonzero(db)
    &&& spells_number(ordinal, n) && n > 0
    &&& spells_uuid(label, lb) && some_nonzero(lb)
}

/// Whether `s` can be written as a scope.
pub open spec fn scope_shaped(s: Seq<char>) -> bool {
    exists|
        root: Seq<char>,
        database: Seq<char>,
        db: Seq<u8>,
        ordinal: Seq<char>,
        n: nat,
        label: Seq<char>,
        lb: Seq<u8>,
    | #[trigger] written_as_scope(s, root, database, db, ordinal, n, label, lb)
}

proof fn lemma_groups_slashless(digits: Seq<char>)
    requires
        digits.len() == 32,
        !digits.contains('/'),
    ensures
        !in_groups(digits).contains('/'),
{
    reveal_strlit("-");
    let s = in_groups(digits);
    assert forall|k: int| 0 <= k < s.len() implies s[k] != '/' by {
        assert(s[k] == (if k < 8 {
            digits[k]
        } else if k == 8 {
            '-'
        } else if k < 13 {
            digits[k - 1]
        } else if k == 13 {
            '-'
        } else if k < 18 {
            digits[k - 2]
        } else if k == 18 {
            '-'
        } else if k < 23 {
            digits[k - 3]
        } else if k == 23 {
            '-'
        } else {
            digits[k - 4]
        }));
        assert forall|i: int| 0 <= i < 32 implies digits[i] != '/' by {
            assert(digits.contains(digits[i]));
        }
    }
}

proof fn lemma_uuid_slashless(s: Seq<char>, bytes: Seq<u8>)
    requires
        spells_uuid(s, bytes),
    ensures
        !s.contains('/'),
{
    reveal_strlit("{");
    reveal_strlit("}");
    reveal_strlit("urn:uuid:");
    let (digits, start) = choose|digits: Seq<char>, start: Seq<char>|
        #[trigger] written_from(s, digits, start) && digits_of(digits, bytes);
    assert forall|i: int| 0 <= i < 32 implies digits[i] != '/' by {
        assert(either_case(digits[i], hex_text(bytes)[i]));
    }
    lemma_groups_slashless(digits);
    let groups = in_groups(digits);
    assert forall|k: int| 0 <= k < s.len() implies s[k] != '/' by {
        assert(forall|i: int| 0 <= i < groups.len() ==> groups.contains(#[trigger] groups[i]));
        if s == "{"@ + groups + "}"@ {
            assert(s[k] == '{' || s[k] == '}' || s[k] == groups[k - 1]);
            if 0 < k <= groups.len() {
                assert(s[k] == groups[k - 1]);
            }
        } else if s == start + groups && urn_of_uuids(start) {
            if k < 9 {
                assert(either_case(start[k], "urn:uuid:"@[k]));
            } else {
                assert(s[k] == groups[k - 9]);
            }
        } else if s == groups {
            assert(groups.contains(groups[k]));
        }
    }
}

proof fn lemma_number_plain(s: Seq<char>, n: nat)
    requires
        spells_number(s, n),
    ensures
        !s.contains('/'),
        !s.contains('-'),
{
    law_number_is_read_exactly_where_it_is_spelled(s, n);
    let signed = s.len() > 0 && s[0] == '+';
    let digits = if signed { s.skip(1) } else { s };
    assert forall|k: int| 0 <= k < s.len() implies s[k] != '/' && s[k] != '-' by {
        if signed && k > 0 {
            assert(s[k] == digits[k - 1]);
        } else if !signed {
            assert(s[k] == digits[k]);
        }
    }
}

proof fn lemma_hex_slashless(bytes: Seq<u8>)
    ensures
        !hex_text(bytes).contains('/'),
{
}

proof fn lemma_shaped_is_scope(
    s: Seq<char>,
    root: Seq<char>,
    database: Seq<char>,
    db: Seq<u8>,
    ordinal: Seq<char>,
    n: nat,
    label: Seq<char>,
    lb: Seq<u8>,
)
    requires
        written_as_scope(s, root, database, db, ordinal, n, label, lb),
    ensures
        is_scope(s),
{
    reveal_strlit("-");
    let high = hex_text(db.subrange(0, 2));
    let low = hex_text(db.subrange(2, 4));
    let epoch = ordinal + "-"@ + label;
    law_uuid_is_read_exactly_where_it_is_spelled(database, db);
    law_uuid_is_read_exactly_where_it_is_spelled(label, lb);
    law_number_is_read_exactly_where_it_is_spelled(ordinal, n);
    law_nil_has_no_other_byte(db);
    law_nil_has_no_other_byte(lb);
    lemma_uuid_slashless(database, db);
    lemma_uuid_slashless(label, lb);
    lemma_number_plain(ordinal, n);
    lemma_hex_slashless(db.subrange(0, 2));
    lemma_hex_slashless(db.subrange(2, 4));
    let at = ordinal.len() as int;
    assert(epoch.take(at) =~= ordinal);
    assert(epoch.skip(at + 1) =~= label);
    assert(epoch[at] == '-');
    assert(first_hyphen(epoch, at));
    assert(names_epoch(epoch));
    assert forall|k: int| 0 <= k < epoch.len() implies epoch[k] != '/' by {
        if k < at {
            assert(ordinal.contains(ordinal[k]));
        } else if k > at {
            assert(epoch[k] == label[k - at - 1]);
            assert(label.contains(label[k - at - 1]));
        }
    }
    assert(database_in_shards(high, low, database));
    lemma_scope_segments(root, high, low, database, epoch);
    lemma_segments_nonempty(root);
    lemma_is_scope(s, segments(root), high, low, database, epoch);
}

proof fn lemma_named_uuid(text: Seq<char>) -> (bytes: Seq<u8>)
    requires
        names_uuid(text),
    ensures
        spells_uuid(text, bytes),
        some_nonzero(bytes),
        uuid_in(text) == Some(bytes),
{
    let bytes = uuid_in(text)->0;
    law_uuid_is_read_exactly_where_it_is_spelled(text, bytes);
    law_nil_has_no_other_byte(bytes);
    bytes
}

proof fn lemma_read_number(text: Seq<char>)
    requires
        number_in(text) is Some,
    ensures
        spells_number(text, number_in(text)->0),
{
    law_number_is_read_exactly_where_it_is_spelled(text, number_in(text)->0);
}

/// An epoch's name is an ordinal, a hyphen and a label.
proof fn lemma_epoch_parts(epoch: Seq<char>) -> (at: int)
    requires
        names_epoch(epoch),
    ensures
        0 <= at < epoch.len(),
        epoch == epoch.take(at) + "-"@ + epoch.skip(at + 1),
        number_in(epoch.take(at)) is Some,
        number_in(epoch.take(at))->0 > 0,
        names_uuid(epoch.skip(at + 1)),
{
    reveal_strlit("-");
    let at = choose|at: int|
        {
            &&& #[trigger] first_hyphen(epoch, at)
            &&& number_in(epoch.take(at)) matches Some(ordinal) && ordinal > 0
            &&& names_uuid(epoch.skip(at + 1))
        };
    assert(epoch =~= epoch.take(at) + "-"@ + epoch.skip(at + 1));
    at
}

/// A string with the segments of a scope is these, with slashes between them.
proof fn lemma_scope_joined(
    s: Seq<char>,
    before: Seq<Seq<char>>,
    high: Seq<char>,
    low: Seq<char>,
    database: Seq<char>,
    epoch: Seq<char>,
)
    requires
        before.len() > 0,
        segments(s) == before + seq![
            "v1"@,
            "databases"@,
            high,
            low,
            database,
            "epochs"@,
            epoch,
            "objects"@,
            Seq::<char>::empty(),
        ],
    ensures
        s == joined(before) + "/v1/databases/"@ + high + "/"@ + low + "/"@ + database + "/epochs/"@
            + epoch + "/objects/"@,
{
    let parts = segments(s);
    let n = before.len() as int;
    law_segments_are_joined_by_slashes(s);
    assert(!parts[n + 2].contains('/') && !parts[n + 3].contains('/'));
    assert(!parts[n + 4].contains('/') && !parts[n + 6].contains('/'));
    assert(before =~= parts.take(n));
    lemma_joined_start_splits(s, before);
    lemma_scope_segments(joined(before), high, low, database, epoch);
    law_segments_are_joined_by_slashes(
        joined(before) + "/v1/databases/"@ + high + "/"@ + low + "/"@ + database + "/epochs/"@
            + epoch + "/objects/"@,
    );
}

proof fn lemma_scope_is_shaped(s: Seq<char>)
    requires
        is_scope(s),
    ensures
        scope_shaped(s),
{
    let parts = segments(s);
    let c = parts.len();
    let before = parts.take(c - 9);
    let high = parts[c - 7];
    let low = parts[c - 6];
    let database = parts[c - 5];
    let epoch = parts[c - 3];
    assert(parts =~= before + seq![
        "v1"@,
        "databases"@,
        high,
        low,
        database,
        "epochs"@,
        epoch,
        "objects"@,
        Seq::<char>::empty(),
    ]);
    lemma_scope_joined(s, before, high, low, database, epoch);
    let db = lemma_named_uuid(database);
    let at = lemma_epoch_parts(epoch);
    let ordinal = epoch.take(at);
    let label = epoch.skip(at + 1);
    let n = number_in(ordinal)->0;
    lemma_read_number(ordinal);
    let lb = lemma_named_uuid(label);
    assert(written_as_scope(s, joined(before), database, db, ordinal, n, label, lb));
}

/// The leading segments of a string, joined, have just these segments.
proof fn lemma_joined_start_splits(s: Seq<char>, before: Seq<Seq<char>>)
    requires
        0 < before.len() <= segments(s).len(),
        before == segments(s).take(before.len() as int),
    ensures
        segments(joined(before)) == before,
    decreases s.len(),
{
    let parts = segments(s);
    if before.len() == parts.len() {
        assert(before =~= parts);
        law_segments_are_joined_by_slashes(s);
    } else {
        assert(s.len() > 0);
        let shorter = s.drop_last();
        let earlier_parts = segments(shorter);
        assert(before =~= earlier_parts.take(before.len() as int));
        lemma_joined_start_splits(shorter, before);
    }
}

/// A string is a scope exactly if it is written as one. So the shards are the first bytes of
/// the database, which is not nil; the ordinal is positive and below 2^64; and the label is
/// not nil.
pub proof fn law_scope_is_what_is_written_as_one(s: Seq<char>)
    ensures
        is_scope(s) <==> scope_shaped(s),
{
    if is_scope(s) {
        lemma_scope_is_shaped(s);
    }
    if scope_shaped(s) {
        let (root, database, db, ordinal, n, label, lb) = choose|
            root: Seq<char>,
            database: Seq<char>,
            db: Seq<u8>,
            ordinal: Seq<char>,
            n: nat,
            label: Seq<char>,
            lb: Seq<u8>,
        | #[trigger] written_as_scope(s, root, database, db, ordinal, n, label, lb);
        lemma_shaped_is_scope(s, root, database, db, ordinal, n, label, lb);
    }
}

proof fn lemma_first_four_bytes(bytes: Seq<u8>)
    requires
        bytes.len() == 16,
    ensures
        hex_text(bytes.subrange(0, 2)) + hex_text(bytes.subrange(2, 4)) == hex_text(bytes.take(4)),
        hex_text(bytes.subrange(0, 2)).len() == 4,
        hex_text(bytes.subrange(2, 4)).len() == 4,
{
    assert(hex_text(bytes.subrange(0, 2)) + hex_text(bytes.subrange(2, 4)) =~= hex_text(
        bytes.take(4),
    ));
}

proof fn lemma_scope_shards(
    s: Seq<char>,
    before: Seq<Seq<char>>,
    high: Seq<char>,
    low: Seq<char>,
    database: Seq<char>,
    epoch: Seq<char>,
)
    requires
        is_scope(s),
        segments(s) == before + seq![
            "v1"@,
            "databases"@,
            high,
            low,
            database,
            "epochs"@,
            epoch,
            "objects"@,
            Seq::<char>::empty(),
        ],
    ensures
        database_in_shards(high, low, database),
{
}

/// A string in the form of a scope is one only with the first four bytes of its database
/// for its shards, two bytes each, and only if the database is not nil: any other shards make
/// it none.
pub proof fn law_misspelt_shards_make_no_scope(
    root: Seq<char>,
    high: Seq<char>,
    low: Seq<char>,
    database: Seq<u8>,
    epoch: Seq<char>,
)
    requires
        database.len() == 16,
        !high.contains('/'),
        !low.contains('/'),
        !epoch.contains('/'),
        is_scope(
            root + "/v1/databases/"@ + high + "/"@ + low + "/"@ + uuid_text(database) + "/epochs/"@
                + epoch + "/objects/"@,
        ),
    ensures
        high + low == hex_text(database.take(4)),
        high.len() == 4,
        low.len() == 4,
        some_nonzero(database),
{
    let text = uuid_text(database);
    let s = root + "/v1/databases/"@ + high + "/"@ + low + "/"@ + text + "/epochs/"@ + epoch
        + "/objects/"@;
    law_uuid_text_denotes_uuid(database);
    assert(!text.contains('/')) by {
        law_uuid_is_read_exactly_where_it_is_spelled(text, database);
        lemma_uuid_slashless(text, database);
    }
    lemma_scope_segments(root, high, low, text, epoch);
    lemma_scope_shards(s, segments(root), high, low, text, epoch);
    let bytes = lemma_named_uuid(text);
    lemma_first_four_bytes(database);
}

/// The scopes of a key are exactly what is written as a scope and leaves a rest of the key.
pub proof fn law_scopes_are_what_the_key_begins_with(object: Seq<char>, p: Seq<char>)
    ensures
        scopes(object).contains(p) <==> scope_shaped(p) && exists|rest: Seq<char>|
            object == #[trigger] (p + rest),
{
    law_scopes_are_the_scope_prefixes(object, p);
    law_scope_is_what_is_written_as_one(p);
    law_beginning_leaves_a_rest(object, p);
}

/// The scopes of a key grow in length, so none occurs twice.
pub proof fn law_scopes_grow(object: Seq<char>, i: int, j: int)
    requires
        0 <= i < j < scopes(object).len(),
    ensures
        scopes(object)[i].len() < scopes(object)[j].len(),
{
    lemma_scopes_within_grow_in_length(object, object.len() as int, i, j);
}

proof fn lemma_scopes_within_grow_in_length(object: Seq<char>, n: int, i: int, j: int)
    requires
        n <= object.len(),
        0 <= i < scopes_within(object, n).len(),
        i <= j < scopes_within(object, n).len(),
    ensures
        scopes_within(object, n)[j].len() <= n,
        i < j ==> scopes_within(object, n)[i].len() < scopes_within(object, n)[j].len(),
    decreases n,
{
    if n > 0 {
        let shorter = scopes_within(object, n - 1);
        if j < shorter.len() {
            lemma_scopes_within_grow_in_length(object, n - 1, i, j);
        } else if i < shorter.len() {
            lemma_scopes_within_grow_in_length(object, n - 1, i, i);
        }
    }
}

/// The scopes of several objects are listed exactly: what is written as a scope and one of
/// the objects begins with, each once, the smaller before the greater.
pub proof fn law_scope_list_holds_what_objects_begin_with(objects: Seq<Seq<char>>, p: Seq<char>)
    ensures
        scope_list(objects).contains(p) <==> scope_shaped(p) && exists|i: int, rest: Seq<char>|
            #![trigger objects[i], p + rest]
            0 <= i < objects.len() && objects[i] == p + rest,
        forall|i: int, j: int|
            0 <= i < j < scope_list(objects).len() ==> earlier(
                #[trigger] scope_list(objects)[i],
                #[trigger] scope_list(objects)[j],
            ),
{
    let listed = scope_list(objects);
    law_scope_list(objects);
    law_ascending_is_pairwise(listed);
    if listed.contains(p) {
        assert(scope_of_some(objects, p));
        let i = choose|i: int| 0 <= i < objects.len() && (#[trigger] scopes(objects[i])).contains(p);
        law_scopes_are_what_the_key_begins_with(objects[i], p);
        let rest = choose|rest: Seq<char>| objects[i] == #[trigger] (p + rest);
        assert(objects[i] == p + rest);
    }
    if scope_shaped(p) && exists|i: int, rest: Seq<char>|
        #![trigger objects[i], p + rest]
        0 <= i < objects.len() && objects[i] == p + rest {
        let (i, rest) = choose|i: int, rest: Seq<char>|
            #![trigger objects[i], p + rest]
            0 <= i < objects.len() && objects[i] == p + rest;
        assert(objects[i] == p + rest);
        law_scopes_are_what_the_key_begins_with(objects[i], p);
        assert(scopes(objects[i]).contains(p));
        assert(scope_of_some(objects, p));
    }
}

} // verus!
