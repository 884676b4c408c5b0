//! Strings seen as sequences of characters: white space, words, prefixes
//! and the lexicographic order.

use vstd::prelude::*;
use vstd::std_specs::iter::IteratorSpec;
use vstd::string::*;

verus! {

/// The characters that carry the Unicode property `White_Space`.
pub open spec fn is_white_space(c: char) -> bool {
    let n = c as int;
    ||| 0x09 <= n <= 0x0D
    ||| n == 0x20
    ||| n == 0x85
    ||| n == 0xA0
    ||| n == 0x1680
    ||| 0x2000 <= n <= 0x200A
    ||| n == 0x2028
    ||| n == 0x2029
    ||| n == 0x202F
    ||| n == 0x205F
    ||| n == 0x3000
}

/// Whether `c` carries the Unicode property `White_Space`.
pub fn is_whitespace(c: char) -> (b: bool)
    ensures
        b == is_white_space(c),
{
    let n = c as u32;
    (0x09 <= n && n <= 0x0D) || n == 0x20 || n == 0x85 || n == 0xA0 || n == 0x1680 || (0x2000
        <= n && n <= 0x200A) || n == 0x2028 || n == 0x2029 || n == 0x202F || n == 0x205F || n
        == 0x3000
}

/// The views of a sequence of strings, in order.
pub open spec fn views(v: Seq<String>) -> Seq<Seq<char>> {
    Seq::new(v.len(), |i: int| v[i]@)
}

/// The words of `s`: its maximal runs of characters that are not white
/// space, in the order in which they occur.
///
/// Read one character at a time: white space adds nothing, a character that
/// follows a character of a word lengthens that word, and any other
/// character opens a new word.
pub open spec fn words(s: Seq<char>) -> Seq<Seq<char>>
    decreases s.len(),
{
    if s.len() == 0 {
        Seq::empty()
    } else {
        let before = words(s.drop_last());
        if is_white_space(s.last()) {
            before
        } else if s.len() >= 2 && !is_white_space(s[s.len() - 2]) {
            before.drop_last().push(before.last().push(s.last()))
        } else {
            before.push(seq![s.last()])
        }
    }
}

/// Whether no character of `s` is white space.
pub open spec fn is_bare(s: Seq<char>) -> bool {
    forall|i: int| 0 <= i < s.len() ==> !is_white_space(#[trigger] s[i])
}

/// A text that ends in a character of a word has a last word.
proof fn lemma_words_last(s: Seq<char>)
    requires
        s.len() > 0,
        !is_white_space(s.last()),
    ensures
        words(s).len() > 0,
{
}

/// Each word holds at least one character and no white space.
pub proof fn lemma_words_are_bare(s: Seq<char>, i: int)
    requires
        0 <= i < words(s).len(),
    ensures
        words(s)[i].len() > 0,
        is_bare(words(s)[i]),
    decreases s.len(),
{
    if s.len() > 0 {
        let before = words(s.drop_last());
        if is_white_space(s.last()) {
            lemma_words_are_bare(s.drop_last(), i);
        } else if s.len() >= 2 && !is_white_space(s[s.len() - 2]) {
            lemma_words_last(s.drop_last());
            if i < before.len() - 1 {
                lemma_words_are_bare(s.drop_last(), i);
            } else {
                lemma_words_are_bare(s.drop_last(), before.len() - 1);
            }
        } else if i < before.len() {
            lemma_words_are_bare(s.drop_last(), i);
        }
    }
}

/// A text of at least one character and no white space is one word.
pub proof fn lemma_words_of_bare(w: Seq<char>)
    requires
        w.len() > 0,
        is_bare(w),
    ensures
        words(w) == seq![w],
    decreases w.len(),
{
    if w.len() == 1 {
        assert(words(w.drop_last()) =~= Seq::<Seq<char>>::empty());
        assert(words(w) =~= seq![seq![w.last()]]);
        assert(seq![w.last()] =~= w);
    } else {
        lemma_words_of_bare(w.drop_last());
        assert(w.drop_last().push(w.last()) =~= w);
        assert(words(w) =~= seq![w]);
    }
}

/// Where a text is cut at its beginning, at its end or next to white
/// space, its words are the words of the first part and then those of the
/// second.
pub proof fn lemma_words_concat(a: Seq<char>, b: Seq<char>)
    requires
        a.len() == 0 || b.len() == 0 || is_white_space(a.last()) || is_white_space(b[0]),
    ensures
        words(a + b) == words(a) + words(b),
    decreases b.len(),
{
    if b.len() == 0 {
        assert(a + b =~= a);
        assert(words(a) + words(b) =~= words(a));
    } else {
        let s = a + b;
        let b0 = b.drop_last();
        assert(s.drop_last() =~= a + b0);
        lemma_words_concat(a, b0);
        if is_white_space(b.last()) {
        } else if b.len() >= 2 && !is_white_space(b[b.len() - 2]) {
            assert(s[s.len() - 2] == b[b.len() - 2]);
            lemma_words_last(b0);
            let before = words(b0);
            assert((words(a) + before).drop_last() =~= words(a) + before.drop_last());
            assert(words(s) =~= words(a) + words(b));
        } else {
            if s.len() >= 2 {
                if b.len() >= 2 {
                    assert(s[s.len() - 2] == b[b.len() - 2]);
                } else {
                    assert(s[s.len() - 2] == a.last());
                }
            }
            assert(words(s) =~= words(a) + words(b));
        }
    }
}

/// Whether `s` begins with `p`.
pub open spec fn has_prefix(s: Seq<char>, p: Seq<char>) -> bool {
    p.len() <= s.len() && s.take(p.len() as int) == p
}

/// The lexicographic order on strings, by the code points of their
/// characters: a proper prefix comes first, and otherwise the first
/// character that differs decides.
pub open spec fn lex_lt(a: Seq<char>, b: Seq<char>) -> bool
    decreases a.len(),
{
    if b.len() == 0 {
        false
    } else if a.len() == 0 {
        true
    } else if a[0] == b[0] {
        lex_lt(a.skip(1), b.skip(1))
    } else {
        a[0] < b[0]
    }
}

/// No string comes before itself.
pub proof fn lemma_lex_lt_irreflexive(a: Seq<char>)
    ensures
        !lex_lt(a, a),
    decreases a.len(),
{
    if a.len() > 0 {
        lemma_lex_lt_irreflexive(a.skip(1));
    }
}

/// The order is transitive.
pub proof fn lemma_lex_lt_transitive(a: Seq<char>, b: Seq<char>, c: Seq<char>)
    requires
        lex_lt(a, b),
        lex_lt(b, c),
    ensures
        lex_lt(a, c),
    decreases a.len(),
{
    if a.len() > 0 && a[0] == b[0] && b[0] == c[0] {
        lemma_lex_lt_transitive(a.skip(1), b.skip(1), c.skip(1));
    }
}

/// Of two different strings one comes before the other.
pub proof fn lemma_lex_lt_total(a: Seq<char>, b: Seq<char>)
    ensures
        a == b || lex_lt(a, b) || lex_lt(b, a),
    decreases a.len(),
{
    if a.len() == 0 || b.len() == 0 {
        if a.len() == 0 && b.len() == 0 {
            assert(a =~= b);
        }
    } else if a[0] == b[0] {
        lemma_lex_lt_total(a.skip(1), b.skip(1));
        if a.skip(1) == b.skip(1) {
            assert(a =~= seq![a[0]] + a.skip(1));
            assert(b =~= seq![b[0]] + b.skip(1));
        }
    }
}

/// Of two strings at most one comes before the other.
pub proof fn lemma_lex_lt_asymmetric(a: Seq<char>, b: Seq<char>)
    requires
        lex_lt(a, b),
    ensures
        !lex_lt(b, a),
{
    if lex_lt(b, a) {
        lemma_lex_lt_transitive(a, b, a);
        lemma_lex_lt_irreflexive(a);
    }
}

/// What lies behind a common beginning decides the order.
proof fn lemma_lex_lt_skip(a: Seq<char>, b: Seq<char>, i: int)
    requires
        0 <= i <= a.len(),
        i <= b.len(),
        a.take(i) == b.take(i),
    ensures
        lex_lt(a, b) == lex_lt(a.skip(i), b.skip(i)),
    decreases i,
{
    if i == 0 {
        assert(a.skip(0) =~= a);
        assert(b.skip(0) =~= b);
    } else {
        assert(a[0] == a.take(i)[0]);
        assert(b[0] == b.take(i)[0]);
        assert(a.skip(1).take(i - 1) =~= a.take(i).skip(1));
        assert(b.skip(1).take(i - 1) =~= b.take(i).skip(1));
        lemma_lex_lt_skip(a.skip(1), b.skip(1), i - 1);
        assert(a.skip(1).skip(i - 1) =~= a.skip(i));
        assert(b.skip(1).skip(i - 1) =~= b.skip(i));
    }
}

/// Two texts that agree up to place `i` and at place `i` agree up to the
/// next place, and what is left of each there is what was left without
/// its first character.
proof fn lemma_step(a: Seq<char>, b: Seq<char>, i: int)
    requires
        0 <= i < a.len(),
        i < b.len(),
        a.take(i) == b.take(i),
        a[i] == b[i],
    ensures
        a.take(i + 1) == b.take(i + 1),
        a.skip(i).drop_first() == a.skip(i + 1),
        b.skip(i).drop_first() == b.skip(i + 1),
{
    assert(a.take(i + 1) =~= a.take(i).push(a[i]));
    assert(b.take(i + 1) =~= b.take(i).push(b[i]));
    assert(a.skip(i).drop_first() =~= a.skip(i + 1));
    assert(b.skip(i).drop_first() =~= b.skip(i + 1));
}

/// Whether `a` comes before `b` in the lexicographic order.
pub fn str_lt(a: &str, b: &str) -> (r: bool)
    ensures
        r == lex_lt(a@, b@),
{
    let mut rest_a = a.chars();
    let mut rest_b = b.chars();
    let ghost mut i: int = 0;
    loop
        invariant
            0 <= i <= a@.len(),
            i <= b@.len(),
            a@.take(i) == b@.take(i),
            rest_a.remaining() == a@.skip(i),
            rest_b.remaining() == b@.skip(i),
            rest_a.obeys_prophetic_iter_laws(),
            rest_b.obeys_prophetic_iter_laws(),
        decreases a@.len() - i,
    {
        proof {
            lemma_lex_lt_skip(a@, b@, i);
        }
        let next_b = rest_b.next();
        let next_a = rest_a.next();
        match next_b {
            None => {
                return false;
            },
            Some(cb) => {
                match next_a {
                    None => {
                        return true;
                    },
                    Some(ca) => {
                        if ca != cb {
                            return ca < cb;
                        }
                        proof {
                            lemma_step(a@, b@, i);
                            i = i + 1;
                        }
                    },
                }
            },
        }
    }
}

/// Whether `a` and `b` hold the same characters.
pub fn str_eq(a: &str, b: &str) -> (r: bool)
    ensures
        r == (a@ == b@),
{
    let mut rest_a = a.chars();
    let mut rest_b = b.chars();
    let ghost mut i: int = 0;
    loop
        invariant
            0 <= i <= a@.len(),
            i <= b@.len(),
            a@.take(i) == b@.take(i),
            rest_a.remaining() == a@.skip(i),
            rest_b.remaining() == b@.skip(i),
            rest_a.obeys_prophetic_iter_laws(),
            rest_b.obeys_prophetic_iter_laws(),
        decreases a@.len() - i,
    {
        let next_a = rest_a.next();
        let next_b = rest_b.next();
        match (next_a, next_b) {
            (None, None) => {
                proof {
                    assert(a@ =~= a@.take(i));
                    assert(b@ =~= b@.take(i));
                }
                return true;
            },
            (Some(ca), Some(cb)) => {
                if ca != cb {
                    return false;
                }
                proof {
                    lemma_step(a@, b@, i);
                    i = i + 1;
                }
            },
            _ => {
                return false;
            },
        }
    }
}

/// Whether `s` begins with `p`.
pub fn starts_with(s: &str, p: &str) -> (r: bool)
    ensures
        r == has_prefix(s@, p@),
{
    let mut rest_s = s.chars();
    let mut rest_p = p.chars();
    let ghost mut i: int = 0;
    loop
        invariant
            0 <= i <= s@.len(),
            i <= p@.len(),
            s@.take(i) == p@.take(i),
            rest_s.remaining() == s@.skip(i),
            rest_p.remaining() == p@.skip(i),
            rest_s.obeys_prophetic_iter_laws(),
            rest_p.obeys_prophetic_iter_laws(),
        decreases p@.len() - i,
    {
        match rest_p.next() {
            None => {
                proof {
                    assert(p@ =~= p@.take(i));
                }
                return true;
            },
            Some(cp) => {
                match rest_s.next() {
                    None => {
                        return false;
                    },
                    Some(cs) => {
                        if cs != cp {
                            proof {
                                if has_prefix(s@, p@) {
                                    assert(s@.take(p@.len() as int)[i] == p@[i]);
                                }
                            }
                            return false;
                        }
                        proof {
                            lemma_step(s@, p@, i);
                            i = i + 1;
                        }
                    },
                }
            },
        }
    }
}

/// `s` without the beginning `p`, if it begins with `p`.
pub fn strip_prefix<'a>(s: &'a str, p: &str) -> (r: Option<&'a str>)
    ensures
        match r {
            Some(rest) => has_prefix(s@, p@) && rest@ == s@.skip(p@.len() as int),
            None => !has_prefix(s@, p@),
        },
{
    if starts_with(s, p) {
        let rest = s.substring_char(p.unicode_len(), s.unicode_len());
        proof {
            assert(rest@ =~= s@.skip(p@.len() as int));
        }
        Some(rest)
    } else {
        None
    }
}

/// The words of `s`, each as a string of its own.
pub fn split_whitespace(s: &str) -> (out: Vec<String>)
    ensures
        views(out@) == words(s@),
{
    let len = s.unicode_len();
    let mut out: Vec<String> = Vec::new();
    let mut rest = s.chars();
    let mut i: usize = 0;
    let mut start: usize = 0;
    let mut in_word = false;
    proof {
        assert(views(out@) =~= Seq::<Seq<char>>::empty());
        assert(s@.take(0) =~= Seq::<char>::empty());
    }
    loop
        invariant
            len == s@.len(),
            i <= len,
            rest.remaining() == s@.skip(i as int),
            rest.obeys_prophetic_iter_laws(),
            in_word ==> start < i && !is_white_space(s@[i - 1]) && words(s@.take(i as int))
                == views(out@).push(s@.subrange(start as int, i as int)),
            !in_word ==> (i == 0 || is_white_space(s@[i - 1])) && words(s@.take(i as int))
                == views(out@),
        decreases len - i,
    {
        match rest.next() {
            None => {
                proof {
                    assert(s@.take(i as int) =~= s@);
                }
                if in_word {
                    let ghost before = views(out@);
                    let word = s.substring_char(start, i).to_owned();
                    out.push(word);
                    proof {
                        assert(views(out@) =~= before.push(word@));
                    }
                }
                return out;
            },
            Some(c) => {
                let ghost upto = s@.take(i + 1);
                proof {
                    assert(upto.drop_last() =~= s@.take(i as int));
                    assert(upto.last() == c);
                }
                if is_whitespace(c) {
                    if in_word {
                        let ghost before = views(out@);
                        let word = s.substring_char(start, i).to_owned();
                        out.push(word);
                        in_word = false;
                        proof {
                            assert(views(out@) =~= before.push(word@));
                        }
                    }
                } else if in_word {
                    proof {
                        let word = s@.subrange(start as int, i as int);
                        assert(upto[upto.len() - 2] == s@[i - 1]);
                        assert(views(out@).push(word).drop_last() =~= views(out@));
                        assert(word.push(c) =~= s@.subrange(start as int, i + 1));
                    }
                } else {
                    start = i;
                    in_word = true;
                    proof {
                        if i > 0 {
                            assert(upto[upto.len() - 2] == s@[i - 1]);
                        }
                        assert(seq![c] =~= s@.subrange(i as int, i + 1));
                    }
                }
                proof {
                    assert(s@.skip(i as int).drop_first() =~= s@.skip(i + 1));
                }
                i = i + 1;
            },
        }
    }
}

/// A copy of each string of `v`, in the same order.
pub fn clone_strings(v: &Vec<String>) -> (out: Vec<String>)
    ensures
        views(out@) == views(v@),
{
    let mut out: Vec<String> = Vec::new();
    let mut i: usize = 0;
    while i < v.len()
        invariant
            i <= v.len(),
            out.len() == i,
            forall|j: int| 0 <= j < i ==> out[j]@ == v[j]@,
        decreases v.len() - i,
    {
        out.push(v[i].clone());
        i = i + 1;
    }
    proof {
        assert(views(out@) =~= views(v@));
    }
    out
}

} // verus!
