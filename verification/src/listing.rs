//! Listing the scopes of several objects.

use vstd::prelude::*;

use crate::scope_laws::law_scopes_ascend;
use crate::scopes::{object_scopes, scopes};
use crate::text::{
    ascending, lemma_precedes_irreflexive, lemma_precedes_total, lemma_precedes_transitive,
    precedes, text_precedes, texts,
};

verus! {

/// Whether `scope` is a scope of one of the objects.
pub open spec fn scope_of_some(objects: Seq<Seq<char>>, scope: Seq<char>) -> bool {
    exists|i: int| 0 <= i < objects.len() && (#[trigger] scopes(objects[i])).contains(scope)
}

/// Whether `listed` are the scopes of the objects, in order, none of them twice.
pub open spec fn lists_scopes(listed: Seq<Seq<char>>, objects: Seq<Seq<char>>) -> bool {
    &&& ascending(listed)
    &&& forall|scope: Seq<char>| #[trigger]
        listed.contains(scope) <==> scope_of_some(objects, scope)
}

/// The scopes of the objects, in order, none of them twice.
pub open spec fn scope_list(objects: Seq<Seq<char>>) -> Seq<Seq<char>> {
    choose|listed: Seq<Seq<char>>| lists_scopes(listed, objects)
}

/// Strings in ascending order are determined by which they are.
proof fn lemma_ascending_unique(a: Seq<Seq<char>>, b: Seq<Seq<char>>)
    requires
        ascending(a),
        ascending(b),
        forall|s: Seq<char>| #[trigger] a.contains(s) <==> b.contains(s),
    ensures
        a == b,
    decreases a.len(),
{
    if a.len() == 0 || b.len() == 0 {
        if a.len() > 0 {
            assert(a.contains(a[0]));
        }
        if b.len() > 0 {
            assert(b.contains(b[0]));
            assert(a.contains(b[0]));
        }
        assert(a =~= b);
    } else {
        assert(a.contains(a[0]));
        assert(b.contains(a[0]));
        assert(b.contains(b[0]));
        assert(a.contains(b[0]));
        let i = choose|i: int| 0 <= i < b.len() && b[i] == a[0];
        let j = choose|j: int| 0 <= j < a.len() && a[j] == b[0];
        if i > 0 && j > 0 {
            lemma_precedes_transitive(b[0], b[i], a[j]);
            lemma_precedes_irreflexive(b[0]);
        }
        assert(a[0] == b[0]);
        let x = a.skip(1);
        let y = b.skip(1);
        assert forall|s: Seq<char>| #[trigger] x.contains(s) <==> y.contains(s) by {
            if x.contains(s) {
                let k = choose|k: int| 0 <= k < x.len() && x[k] == s;
                assert(a[k + 1] == s);
                assert(precedes(a[0], a[k + 1]));
                lemma_precedes_irreflexive(s);
                assert(a.contains(s));
                let m = choose|m: int| 0 <= m < b.len() && b[m] == s;
                assert(y[m - 1] == s);
            }
            if y.contains(s) {
                let k = choose|k: int| 0 <= k < y.len() && y[k] == s;
                assert(b[k + 1] == s);
                assert(precedes(b[0], b[k + 1]));
                lemma_precedes_irreflexive(s);
                assert(b.contains(s));
                assert(a.contains(s));
                let m = choose|m: int| 0 <= m < a.len() && a[m] == s;
                assert(x[m - 1] == s);
            }
        }
        lemma_ascending_unique(x, y);
        assert(a == seq![a[0]] + x);
        assert(b == seq![b[0]] + y);
    }
}

/// One more string has its place among strings in ascending order.
proof fn lemma_room_for_one(strings: Seq<Seq<char>>, new: Seq<char>) -> (more: Seq<Seq<char>>)
    requires
        ascending(strings),
    ensures
        ascending(more),
        forall|s: Seq<char>| #[trigger] more.contains(s) <==> strings.contains(s) || s == new,
    decreases strings.len(),
{
    if strings.len() == 0 {
        let more = seq![new];
        assert forall|s: Seq<char>| #[trigger]
            more.contains(s) <==> strings.contains(s) || s == new by {
            assert(more[0] == new);
        }
        more
    } else {
        let last = strings.last();
        let rest = strings.drop_last();
        lemma_precedes_total(last, new);
        assert forall|s: Seq<char>| #[trigger]
            strings.contains(s) <==> rest.contains(s) || s == last by {
            assert(strings[strings.len() - 1] == last);
            if rest.contains(s) {
                let k = choose|k: int| 0 <= k < rest.len() && rest[k] == s;
                assert(strings[k] == s);
            }
            if strings.contains(s) && s != last {
                let k = choose|k: int| 0 <= k < strings.len() && strings[k] == s;
                assert(rest[k] == s);
            }
        }
        if last == new {
            strings
        } else {
            let (before, end) = if precedes(last, new) {
                (strings, new)
            } else {
                (lemma_room_for_one(rest, new), last)
            };
            let more = before.push(end);
            assert forall|s: Seq<char>| #[trigger]
                more.contains(s) <==> before.contains(s) || s == end by {
                assert(more[more.len() - 1] == end);
                if before.contains(s) {
                    let k = choose|k: int| 0 <= k < before.len() && before[k] == s;
                    assert(more[k] == s);
                }
            }
            assert forall|i: int, j: int| 0 <= i < j < more.len() implies precedes(
                more[i],
                more[j],
            ) by {
                if j == more.len() - 1 {
                    assert(before.contains(before[i]));
                    if precedes(last, new) {
                        if i < strings.len() - 1 {
                            lemma_precedes_transitive(strings[i], last, new);
                        }
                    } else if before[i] != new {
                        let k = choose|k: int| 0 <= k < rest.len() && rest[k] == before[i];
                        assert(precedes(strings[k], strings[strings.len() - 1]));
                    }
                }
            }
            more
        }
    }
}

proof fn lemma_room_for_all(strings: Seq<Seq<char>>, new: Seq<Seq<char>>) -> (more: Seq<Seq<char>>)
    requires
        ascending(strings),
    ensures
        ascending(more),
        forall|s: Seq<char>| #[trigger] more.contains(s) <==> strings.contains(s) || new.contains(s),
    decreases new.len(),
{
    if new.len() == 0 {
        strings
    } else {
        let fewer = lemma_room_for_all(strings, new.drop_last());
        let more = lemma_room_for_one(fewer, new.last());
        assert forall|s: Seq<char>| #[trigger]
            more.contains(s) <==> strings.contains(s) || new.contains(s) by {
            assert(new[new.len() - 1] == new.last());
            assert(fewer.contains(s) <==> strings.contains(s) || new.drop_last().contains(s));
            if new.drop_last().contains(s) {
                let k = choose|k: int| 0 <= k < new.len() - 1 && new.drop_last()[k] == s;
                assert(new[k] == s);
            }
            if new.contains(s) && s != new.last() {
                let k = choose|k: int| 0 <= k < new.len() && new[k] == s;
                assert(new.drop_last()[k] == s);
            }
        }
        more
    }
}

proof fn lemma_scope_list_exists(objects: Seq<Seq<char>>) -> (listed: Seq<Seq<char>>)
    ensures
        lists_scopes(listed, objects),
    decreases objects.len(),
{
    if objects.len() == 0 {
        Seq::empty()
    } else {
        let earlier = objects.drop_last();
        let fewer = lemma_scope_list_exists(earlier);
        let own = scopes(objects.last());
        let listed = lemma_room_for_all(fewer, own);
        assert forall|s: Seq<char>| #[trigger]
            listed.contains(s) <==> scope_of_some(objects, s) by {
            lemma_one_more_object(earlier, objects.last(), s);
            assert(earlier.push(objects.last()) == objects);
            assert(fewer.contains(s) <==> scope_of_some(earlier, s));
        }
        listed
    }
}

/// A scope of some of the objects is one of an earlier object, or of the last.
proof fn lemma_one_more_object(earlier: Seq<Seq<char>>, object: Seq<char>, s: Seq<char>)
    ensures
        scope_of_some(earlier.push(object), s) <==> scope_of_some(earlier, s) || scopes(
            object,
        ).contains(s),
{
    let now = earlier.push(object);
    if scope_of_some(earlier, s) {
        let j = choose|j: int|
            0 <= j < earlier.len() && (#[trigger] scopes(earlier[j])).contains(s);
        assert(now[j] == earlier[j]);
        assert(scopes(now[j]).contains(s));
    }
    if scope_of_some(now, s) {
        let j = choose|j: int| 0 <= j < now.len() && (#[trigger] scopes(now[j])).contains(s);
        if j < earlier.len() {
            assert(now[j] == earlier[j]);
            assert(scopes(earlier[j]).contains(s));
        }
    }
    if scopes(object).contains(s) {
        assert(scopes(now[earlier.len() as int]).contains(s));
    }
}

/// The list of the objects' scopes is in ascending order, and holds every scope of every
/// object and nothing else.
pub proof fn law_scope_list(objects: Seq<Seq<char>>)
    ensures
        lists_scopes(scope_list(objects), objects),
{
    let listed = lemma_scope_list_exists(objects);
    law_scope_list_unique(listed, objects);
}

/// There is one list of the objects' scopes only.
pub proof fn law_scope_list_unique(listed: Seq<Seq<char>>, objects: Seq<Seq<char>>)
    requires
        lists_scopes(listed, objects),
    ensures
        listed == scope_list(objects),
{
    let chosen = scope_list(objects);
    assert(lists_scopes(chosen, objects));
    assert forall|s: Seq<char>| #[trigger] listed.contains(s) <==> chosen.contains(s) by {}
    lemma_ascending_unique(listed, chosen);
}

/// The scopes of one object are listed as they are found.
pub proof fn law_scope_list_of_one(object: Seq<char>)
    ensures
        lists_scopes(scopes(object), seq![object]),
        scope_list(seq![object]) == scopes(object),
{
    let own = scopes(object);
    assert forall|i: int, j: int| 0 <= i < j < own.len() implies precedes(own[i], own[j]) by {
        law_scopes_ascend(object, i, j);
    }
    assert forall|s: Seq<char>| #[trigger]
        own.contains(s) <==> scope_of_some(seq![object], s) by {
        if own.contains(s) {
            assert(scopes(seq![object][0]).contains(s));
        }
    }
    law_scope_list_unique(own, seq![object]);
}

/// Puts a string in its place among strings in ascending order, unless it is there.
fn insert_ascending<'a>(strings: &mut Vec<&'a str>, new: &'a str)
    requires
        ascending(texts(old(strings)@)),
    ensures
        ascending(texts(final(strings)@)),
        forall|s: Seq<char>| #[trigger]
            texts(final(strings)@).contains(s) <==> texts(old(strings)@).contains(s) || s == new@,
{
    let ghost before = texts(strings@);
    let mut at: usize = 0;
    while at < strings.len() && text_precedes(strings[at], new)
        invariant
            at <= strings@.len(),
            texts(strings@) == before,
            ascending(before),
            forall|j: int| 0 <= j < at ==> precedes(#[trigger] before[j], new@),
        decreases strings@.len() - at,
    {
        assert(before[at as int] == strings@[at as int]@);
        at += 1;
    }
    if at < strings.len() && !text_precedes(new, strings[at]) {
        proof {
            assert(before[at as int] == strings@[at as int]@);
            lemma_precedes_total(before[at as int], new@);
            assert(before.contains(before[at as int]));
        }
        return;
    }
    strings.insert(at, new);
    proof {
        let after = texts(strings@);
        assert(after =~= before.insert(at as int, new@));
        assert forall|i: int, j: int| 0 <= i < j < after.len() implies precedes(
            after[i],
            after[j],
        ) by {
            if i == at && j > at + 1 {
                lemma_precedes_transitive(new@, before[at as int], before[j - 1]);
            }
        }
        assert forall|s: Seq<char>| #[trigger]
            after.contains(s) <==> before.contains(s) || s == new@ by {
            assert(after[at as int] == new@);
            if before.contains(s) {
                let k = choose|k: int| 0 <= k < before.len() && before[k] == s;
                if k < at {
                    assert(after[k] == s);
                } else {
                    assert(after[k + 1] == s);
                }
            }
            if after.contains(s) {
                let k = choose|k: int| 0 <= k < after.len() && after[k] == s;
                if k < at {
                    assert(before[k] == s);
                } else if k > at {
                    assert(before[k - 1] == s);
                }
            }
        }
    }
}

/// The scopes of the objects, in order, none of them twice.
pub fn mutation_scopes<'a>(objects: &[&'a str]) -> (listed: Vec<&'a str>)
    ensures
        lists_scopes(texts(listed@), texts(objects@)),
        texts(listed@) == scope_list(texts(objects@)),
{
    let mut listed: Vec<&'a str> = Vec::new();
    let mut i: usize = 0;
    while i < objects.len()
        invariant
            i <= objects@.len(),
            lists_scopes(texts(listed@), texts(objects@).take(i as int)),
        decreases objects@.len() - i,
    {
        let found = object_scopes(objects[i]);
        let ghost earlier = texts(objects@).take(i as int);
        let ghost now = texts(objects@).take(i + 1);
        let ghost own = scopes(objects@[i as int]@);
        let mut k: usize = 0;
        while k < found.len()
            invariant
                k <= found@.len(),
                texts(found@) == own,
                ascending(texts(listed@)),
                forall|s: Seq<char>| #[trigger]
                    texts(listed@).contains(s) <==> scope_of_some(earlier, s) || own.take(
                        k as int,
                    ).contains(s),
            decreases found@.len() - k,
        {
            insert_ascending(&mut listed, found[k]);
            assert(own[k as int] == found@[k as int]@);
            assert forall|s: Seq<char>| #[trigger] own.take(k + 1).contains(s) <==> own.take(
                k as int,
            ).contains(s) || s == own[k as int] by {
                assert(own.take(k + 1) == own.take(k as int).push(own[k as int]));
                assert(own.take(k + 1)[k as int] == own[k as int]);
                if own.take(k as int).contains(s) {
                    let j = choose|j: int| 0 <= j < k && own.take(k as int)[j] == s;
                    assert(own.take(k + 1)[j] == s);
                }
            }
            assert forall|s: Seq<char>| #[trigger]
                texts(listed@).contains(s) <==> scope_of_some(earlier, s) || own.take(
                    k + 1,
                ).contains(s) by {
                assert(own.take(k + 1).contains(s) <==> own.take(k as int).contains(s) || s
                    == own[k as int]);
            }
            k += 1;
        }
        assert(own.take(k as int) == own);
        assert(now == earlier.push(objects@[i as int]@));
        assert forall|s: Seq<char>|
            scope_of_some(now, s) <==> scope_of_some(earlier, s) || own.contains(s) by {
            lemma_one_more_object(earlier, objects@[i as int]@, s);
        }
        i += 1;
    }
    assert(texts(objects@).take(i as int) == texts(objects@));
    proof {
        law_scope_list_unique(texts(listed@), texts(objects@));
    }
    listed
}

} // verus!
