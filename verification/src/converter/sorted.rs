//! Ascending sequences of strings: sequences without repetition, kept in
//! lexicographic order.

use crate::converter::text::{
    lemma_lex_lt_asymmetric, lemma_lex_lt_irreflexive, lemma_lex_lt_total,
    lemma_lex_lt_transitive, lex_lt, str_eq, str_lt, views,
};
use vstd::prelude::*;

verus! {

/// Each element comes before all that follow it. Such a sequence holds no
/// element twice.
pub open spec fn ascending(s: Seq<Seq<char>>) -> bool {
    forall|i: int, j: int| #![trigger s[i], s[j]] 0 <= i < j < s.len() ==> lex_lt(s[i], s[j])
}

/// `r` and `s` hold the same elements, whatever their order and number.
pub open spec fn same_elements(r: Seq<Seq<char>>, s: Seq<Seq<char>>) -> bool {
    forall|x: Seq<char>|
        #![trigger r.contains(x)]
        #![trigger s.contains(x)]
        r.contains(x) <==> s.contains(x)
}

/// The elements of `s` in ascending order, each once.
pub open spec fn sorted_set(s: Seq<Seq<char>>) -> Seq<Seq<char>> {
    choose|r: Seq<Seq<char>>| ascending(r) && same_elements(r, s)
}

/// `r` with `x` put in its place, unless `r` holds it already.
spec fn with_element(r: Seq<Seq<char>>, x: Seq<char>) -> Seq<Seq<char>>
    decreases r.len(),
{
    if r.len() == 0 {
        seq![x]
    } else if lex_lt(r.last(), x) {
        r.push(x)
    } else if r.last() == x {
        r
    } else {
        with_element(r.drop_last(), x).push(r.last())
    }
}

proof fn lemma_with_element(r: Seq<Seq<char>>, x: Seq<char>)
    requires
        ascending(r),
    ensures
        ascending(with_element(r, x)),
        forall|y: Seq<char>|
            #![trigger with_element(r, x).contains(y)]
            #![trigger r.contains(y)]
            with_element(r, x).contains(y) <==> (r.contains(y) || y == x),
    decreases r.len(),
{
    let w = with_element(r, x);
    if r.len() == 0 {
        assert(w[0] == x);
    } else if lex_lt(r.last(), x) {
        assert forall|i: int, j: int| 0 <= i < j < w.len() implies lex_lt(w[i], w[j]) by {
            if j == r.len() && i < r.len() - 1 {
                lemma_lex_lt_transitive(r[i], r.last(), x);
            }
        }
        assert forall|y: Seq<char>| w.contains(y) <==> (r.contains(y) || y == x) by {
            if r.contains(y) {
                let i = choose|i: int| 0 <= i < r.len() && r[i] == y;
                assert(w[i] == y);
            }
            if y == x {
                assert(w[r.len() as int] == y);
            }
        }
    } else if r.last() == x {
        assert(r[r.len() - 1] == x);
    } else {
        let head = r.drop_last();
        let inner = with_element(head, x);
        lemma_with_element(head, x);
        lemma_lex_lt_total(r.last(), x);
        assert forall|i: int, j: int| 0 <= i < j < w.len() implies lex_lt(w[i], w[j]) by {
            if j == inner.len() {
                let y = inner[i];
                assert(inner.contains(y));
                assert(head.contains(y) || y == x);
                if y != x {
                    let k = choose|k: int| 0 <= k < head.len() && head[k] == y;
                    assert(r[k] == y);
                    assert(lex_lt(r[k], r[r.len() - 1]));
                }
                assert(w[j] == r.last());
            } else {
                assert(w[i] == inner[i] && w[j] == inner[j]);
            }
        }
        assert forall|y: Seq<char>| w.contains(y) <==> (r.contains(y) || y == x) by {
            if w.contains(y) {
                let i = choose|i: int| 0 <= i < w.len() && w[i] == y;
                if i < inner.len() {
                    assert(inner.contains(y));
                    if head.contains(y) {
                        let k = choose|k: int| 0 <= k < head.len() && head[k] == y;
                        assert(r[k] == y);
                    }
                } else {
                    assert(r[r.len() - 1] == y);
                }
            }
            if r.contains(y) {
                let k = choose|k: int| 0 <= k < r.len() && r[k] == y;
                if k < head.len() {
                    assert(head[k] == y);
                    assert(inner.contains(y));
                    let i = choose|i: int| 0 <= i < inner.len() && inner[i] == y;
                    assert(w[i] == y);
                } else {
                    assert(w[inner.len() as int] == y);
                }
            }
            if y == x {
                assert(inner.contains(y));
                let i = choose|i: int| 0 <= i < inner.len() && inner[i] == y;
                assert(w[i] == y);
            }
        }
    }
}

/// Every sequence has an ascending sequence with the same elements.
proof fn lemma_ascending_exists(s: Seq<Seq<char>>) -> (r: Seq<Seq<char>>)
    ensures
        ascending(r),
        same_elements(r, s),
    decreases s.len(),
{
    if s.len() == 0 {
        s
    } else {
        let head = lemma_ascending_exists(s.drop_last());
        lemma_with_element(head, s.last());
        let r = with_element(head, s.last());
        assert forall|y: Seq<char>| r.contains(y) <==> s.contains(y) by {
            if s.contains(y) {
                let k = choose|k: int| 0 <= k < s.len() && s[k] == y;
                if k < s.len() - 1 {
                    assert(s.drop_last()[k] == y);
                }
            }
            if s.drop_last().contains(y) {
                let k = choose|k: int| 0 <= k < s.len() - 1 && s.drop_last()[k] == y;
                assert(s[k] == y);
            }
            if y == s.last() {
                assert(s[s.len() - 1] == y);
            }
        }
        r
    }
}

/// Two ascending sequences with the same elements are one sequence.
pub proof fn lemma_ascending_unique(a: Seq<Seq<char>>, b: Seq<Seq<char>>)
    requires
        ascending(a),
        ascending(b),
        same_elements(a, b),
    ensures
        a == b,
    decreases a.len(),
{
    if a.len() == 0 {
        if b.len() > 0 {
            assert(b.contains(b[0]));
        }
        assert(a =~= b);
    } else {
        assert(a.contains(a.last())) by {
            assert(a[a.len() - 1] == a.last());
        }
        let jb = choose|j: int| 0 <= j < b.len() && b[j] == a.last();
        assert(b.contains(b.last())) by {
            assert(b[b.len() - 1] == b.last());
        }
        let ja = choose|j: int| 0 <= j < a.len() && a[j] == b.last();
        if a.last() != b.last() {
            assert(lex_lt(b[jb], b[b.len() - 1]));
            assert(lex_lt(a[ja], a[a.len() - 1]));
            lemma_lex_lt_asymmetric(a.last(), b.last());
        }
        let a0 = a.drop_last();
        let b0 = b.drop_last();
        assert forall|x: Seq<char>| a0.contains(x) <==> b0.contains(x) by {
            if a0.contains(x) {
                let i = choose|i: int| 0 <= i < a0.len() && a0[i] == x;
                assert(a[i] == x);
                assert(lex_lt(a[i], a[a.len() - 1]));
                lemma_lex_lt_irreflexive(x);
                assert(b.contains(x));
                let j = choose|j: int| 0 <= j < b.len() && b[j] == x;
                assert(b0[j] == x);
            }
            if b0.contains(x) {
                let i = choose|i: int| 0 <= i < b0.len() && b0[i] == x;
                assert(b[i] == x);
                assert(lex_lt(b[i], b[b.len() - 1]));
                lemma_lex_lt_irreflexive(x);
                assert(a.contains(x));
                let j = choose|j: int| 0 <= j < a.len() && a[j] == x;
                assert(a0[j] == x);
            }
        }
        assert(ascending(a0)) by {
            assert forall|i: int, j: int| 0 <= i < j < a0.len() implies lex_lt(a0[i], a0[j]) by {
                assert(lex_lt(a[i], a[j]));
            }
        }
        assert(ascending(b0)) by {
            assert forall|i: int, j: int| 0 <= i < j < b0.len() implies lex_lt(b0[i], b0[j]) by {
                assert(lex_lt(b[i], b[j]));
            }
        }
        lemma_ascending_unique(a0, b0);
        assert(a =~= a0.push(a.last()));
        assert(b =~= b0.push(b.last()));
    }
}

/// `sorted_set(s)` is ascending and holds the elements of `s`.
pub proof fn lemma_sorted_set(s: Seq<Seq<char>>)
    ensures
        ascending(sorted_set(s)),
        same_elements(sorted_set(s), s),
{
    let r = lemma_ascending_exists(s);
    assert(ascending(r) && same_elements(r, s));
}

/// An ascending sequence that holds the elements of `s` is `sorted_set(s)`.
pub proof fn lemma_sorted_set_is(r: Seq<Seq<char>>, s: Seq<Seq<char>>)
    requires
        ascending(r),
        same_elements(r, s),
    ensures
        r == sorted_set(s),
{
    lemma_sorted_set(s);
    lemma_ascending_unique(r, sorted_set(s));
}

/// An ascending sequence holds each element once.
pub proof fn lemma_ascending_no_duplicates(s: Seq<Seq<char>>)
    requires
        ascending(s),
    ensures
        s.no_duplicates(),
{
    assert forall|i: int, j: int| 0 <= i < s.len() && 0 <= j < s.len() && i != j implies s[i]
        != s[j] by {
        if i < j {
            assert(lex_lt(s[i], s[j]));
        } else {
            assert(lex_lt(s[j], s[i]));
        }
        lemma_lex_lt_irreflexive(s[i]);
    }
}

/// Where `key` stands in the ascending `keys`: the number of keys that
/// come before it, and whether the key at that place is `key` itself.
pub(crate) fn position(keys: &Vec<String>, key: &str) -> (r: (usize, bool))
    requires
        ascending(views(keys@)),
    ensures
        r.0 <= keys.len(),
        forall|j: int| 0 <= j < r.0 ==> lex_lt(#[trigger] keys[j]@, key@),
        r.1 ==> r.0 < keys.len() && keys[r.0 as int]@ == key@,
        !r.1 ==> forall|j: int| r.0 <= j < keys.len() ==> lex_lt(key@, #[trigger] keys[j]@),
        r.1 == views(keys@).contains(key@),
{
    let ghost ks = views(keys@);
    let mut i: usize = 0;
    while i < keys.len()
        invariant
            i <= keys.len(),
            ks == views(keys@),
            ascending(ks),
            forall|j: int| 0 <= j < i ==> lex_lt(#[trigger] keys[j]@, key@),
        decreases keys.len() - i,
    {
        if str_lt(keys[i].as_str(), key) {
            i = i + 1;
        } else {
            let found = str_eq(keys[i].as_str(), key);
            proof {
                lemma_position(ks, key@, i as int);
                assert(ks[i as int] == keys[i as int]@);
                if !found {
                    assert forall|j: int| i <= j < keys.len() implies lex_lt(
                        key@,
                        #[trigger] keys[j]@,
                    ) by {
                        assert(ks[j] == keys[j]@);
                    }
                }
            }
            return (i, found);
        }
    }
    proof {
        lemma_position(ks, key@, i as int);
    }
    (i, false)
}

/// Between the keys that come before `key` and the first that does not,
/// `key` is either that first one or in none of them.
proof fn lemma_position(ks: Seq<Seq<char>>, key: Seq<char>, i: int)
    requires
        ascending(ks),
        0 <= i <= ks.len(),
        forall|j: int| 0 <= j < i ==> lex_lt(#[trigger] ks[j], key),
        i < ks.len() ==> !lex_lt(ks[i], key),
    ensures
        i < ks.len() && ks[i] != key ==> lex_lt(key, ks[i]),
        i == ks.len() || ks[i] != key ==> forall|j: int|
            i <= j < ks.len() ==> lex_lt(key, #[trigger] ks[j]),
        ks.contains(key) <==> i < ks.len() && ks[i] == key,
{
    if i < ks.len() && ks[i] != key {
        lemma_lex_lt_total(ks[i], key);
    }
    if i == ks.len() || ks[i] != key {
        assert forall|j: int| i <= j < ks.len() implies lex_lt(key, #[trigger] ks[j]) by {
            if i < j {
                assert(lex_lt(ks[i], ks[j]));
                lemma_lex_lt_transitive(key, ks[i], ks[j]);
            }
        }
        if ks.contains(key) {
            let k = choose|k: int| 0 <= k < ks.len() && ks[k] == key;
            lemma_lex_lt_irreflexive(key);
            if k < i {
                assert(lex_lt(ks[k], key));
            } else {
                assert(lex_lt(key, ks[k]));
            }
        }
    }
}

/// Putting `key` at place `i` of the ascending `ks`, where all before it
/// come before `key` and all from it on come after `key`, keeps the
/// sequence ascending and adds `key` to what it holds.
pub(crate) proof fn lemma_insert_at(ks: Seq<Seq<char>>, key: Seq<char>, i: int)
    requires
        ascending(ks),
        0 <= i <= ks.len(),
        forall|j: int| 0 <= j < i ==> lex_lt(#[trigger] ks[j], key),
        forall|j: int| i <= j < ks.len() ==> lex_lt(key, #[trigger] ks[j]),
    ensures
        ascending(ks.insert(i, key)),
        forall|y: Seq<char>|
            #![trigger ks.insert(i, key).contains(y)]
            #![trigger ks.contains(y)]
            ks.insert(i, key).contains(y) <==> (ks.contains(y) || y == key),
{
    let w = ks.insert(i, key);
    assert forall|a: int, b: int| 0 <= a < b < w.len() implies lex_lt(w[a], w[b]) by {
        if b < i {
            assert(lex_lt(ks[a], ks[b]));
        } else if b == i {
            assert(lex_lt(ks[a], key));
        } else if a < i {
            assert(lex_lt(ks[a], ks[b - 1]));
        } else if a == i {
            assert(lex_lt(key, ks[b - 1]));
        } else {
            assert(lex_lt(ks[a - 1], ks[b - 1]));
        }
    }
    assert forall|y: Seq<char>| w.contains(y) <==> (ks.contains(y) || y == key) by {
        if w.contains(y) {
            let k = choose|k: int| 0 <= k < w.len() && w[k] == y;
            if k < i {
                assert(ks[k] == y);
            } else if k > i {
                assert(ks[k - 1] == y);
            }
        }
        if ks.contains(y) {
            let k = choose|k: int| 0 <= k < ks.len() && ks[k] == y;
            if k < i {
                assert(w[k] == y);
            } else {
                assert(w[k + 1] == y);
            }
        }
        if y == key {
            assert(w[i] == y);
        }
    }
}

/// Puts `x` in its place in the ascending `v`, unless `v` holds it already.
pub(crate) fn insert_unique(v: &mut Vec<String>, x: String)
    requires
        ascending(views(old(v)@)),
    ensures
        ascending(views(final(v)@)),
        forall|y: Seq<char>|
            #![trigger views(final(v)@).contains(y)]
            #![trigger views(old(v)@).contains(y)]
            views(final(v)@).contains(y) <==> (views(old(v)@).contains(y) || y == x@),
{
    let (i, found) = position(v, x.as_str());
    if !found {
        proof {
            lemma_insert_at(views(v@), x@, i as int);
            assert(views(v@.insert(i as int, x)) =~= views(v@).insert(i as int, x@));
        }
        v.insert(i, x);
    }
}

/// The strings of `items` in ascending order, each once.
pub fn sort_dedup(items: Vec<String>) -> (out: Vec<String>)
    ensures
        views(out@) == sorted_set(views(items@)),
{
    let ghost all = views(items@);
    let mut items = items;
    let mut out: Vec<String> = Vec::new();
    while items.len() > 0
        invariant
            ascending(views(out@)),
            forall|y: Seq<char>|
                #![trigger all.contains(y)]
                all.contains(y) <==> (views(out@).contains(y) || views(items@).contains(y)),
        decreases items.len(),
    {
        let ghost before = views(items@);
        let ghost held = views(out@);
        let x = items.pop().unwrap();
        proof {
            assert(views(items@) =~= before.drop_last());
            assert(before.last() == x@);
        }
        insert_unique(&mut out, x);
        proof {
            assert forall|y: Seq<char>| #![trigger all.contains(y)]
                all.contains(y) <==> (views(out@).contains(y) || views(items@).contains(y)) by {
                if before.contains(y) {
                    let k = choose|k: int| 0 <= k < before.len() && before[k] == y;
                    if k < before.len() - 1 {
                        assert(before.drop_last()[k] == y);
                    }
                }
                if before.drop_last().contains(y) {
                    let k = choose|k: int|
                        0 <= k < before.drop_last().len() && before.drop_last()[k] == y;
                    assert(before[k] == y);
                }
                if y == x@ {
                    assert(before[before.len() - 1] == y);
                }
                assert(views(out@).contains(y) <==> (held.contains(y) || y == x@));
            }
        }
    }
    proof {
        assert(views(items@).len() == 0);
        assert(same_elements(views(out@), all));
        lemma_sorted_set_is(views(out@), all);
    }
    out
}

} // verus!
