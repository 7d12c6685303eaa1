//! A total lexicographic order on strings, used to keep the declared
//! dependency set in one canonical form.

use crate::strings::str_eq;
use vstd::prelude::*;
use vstd::string::StrSliceExecFns;

verus! {

/// Strict lexicographic order on character sequences, by code point.
pub open spec fn lex_lt(a: Seq<char>, b: Seq<char>) -> bool
    decreases a.len(),
{
    if b.len() == 0 {
        false
    } else if a.len() == 0 {
        true
    } else if a[0] != b[0] {
        (a[0] as u32) < (b[0] as u32)
    } else {
        lex_lt(a.skip(1), b.skip(1))
    }
}

/// Distinct characters have distinct Unicode scalar values.
proof fn lemma_distinct_chars_distinct_scalars(x: char, y: char)
    requires
        x != y,
    ensures
        (x as u32) != (y as u32),
{
}

pub proof fn lemma_lex_lt_irreflexive(a: Seq<char>)
    ensures
        !lex_lt(a, a),
    decreases a.len(),
{
    if a.len() > 0 {
        lemma_lex_lt_irreflexive(a.skip(1));
    }
}

pub proof fn lemma_lex_lt_connected(a: Seq<char>, b: Seq<char>)
    ensures
        lex_lt(a, b) || lex_lt(b, a) || a == b,
    decreases a.len(),
{
    if a.len() == 0 {
        if b.len() == 0 {
            assert(a =~= b);
        }
    } else if b.len() == 0 {
    } else if a[0] == b[0] {
        lemma_lex_lt_connected(a.skip(1), b.skip(1));
        if !lex_lt(a, b) && !lex_lt(b, a) {
            assert(a.skip(1) == b.skip(1));
            assert(a.len() == b.len());
            assert forall|i: int| 0 <= i < a.len() implies a[i] == b[i] by {
                if i >= 1 {
                    assert(a.skip(1)[i - 1] == b.skip(1)[i - 1]);
                }
            }
            assert(a =~= b);
        }
    } else {
        lemma_distinct_chars_distinct_scalars(a[0], b[0]);
    }
}

pub proof fn lemma_lex_lt_transitive(a: Seq<char>, b: Seq<char>, c: Seq<char>)
    requires
        lex_lt(a, b),
        lex_lt(b, c),
    ensures
        lex_lt(a, c),
    decreases a.len(),
{
    if a.len() == 0 {
    } else {
        if a[0] == b[0] && b[0] == c[0] {
            lemma_lex_lt_transitive(a.skip(1), b.skip(1), c.skip(1));
        }
    }
}

/// Decides the lexicographic order, character by character.
pub fn str_lt(a: &str, b: &str) -> (r: bool)
    ensures
        r == lex_lt(a@, b@),
{
    let a_len = a.unicode_len();
    let b_len = b.unicode_len();
    let mut i: usize = 0;
    proof {
        assert(a@.skip(0) =~= a@);
        assert(b@.skip(0) =~= b@);
    }
    loop
        invariant
            a_len == a@.len(),
            b_len == b@.len(),
            i <= a_len,
            i <= b_len,
            lex_lt(a@, b@) == lex_lt(a@.skip(i as int), b@.skip(i as int)),
        decreases a_len - i,
    {
        if i >= b_len {
            return false;
        }
        if i >= a_len {
            return true;
        }
        let ca = a.get_char(i);
        let cb = b.get_char(i);
        if ca != cb {
            return (ca as u32) < (cb as u32);
        }
        proof {
            assert(a@.skip(i as int).skip(1) =~= a@.skip(i + 1));
            assert(b@.skip(i as int).skip(1) =~= b@.skip(i + 1));
        }
        i = i + 1;
    }
}

/// Strictly increasing in the lexicographic order; hence duplicate-free.
pub open spec fn sorted_unique(s: Seq<Seq<char>>) -> bool {
    forall|i: int, j: int| 0 <= i < j < s.len() ==> lex_lt(s[i], s[j])
}

/// Law: a strictly sorted sequence is determined by the set of its
/// elements.  Two canonical dependency lists over the same set are equal.
pub proof fn lemma_sorted_unique_seqs_equal(s: Seq<Seq<char>>, t: Seq<Seq<char>>)
    requires
        sorted_unique(s),
        sorted_unique(t),
        s.to_set() == t.to_set(),
    ensures
        s == t,
    decreases s.len(),
{
    if s.len() == 0 {
        if t.len() > 0 {
            assert(t.to_set().contains(t[0]));
            assert(s.contains(t[0]));
        }
        assert(s =~= t);
    } else if t.len() == 0 {
        assert(s.to_set().contains(s[0]));
        assert(t.contains(s[0]));
    } else {
        let x = s[0];
        let y = t[0];
        if x != y {
            assert(s.to_set().contains(x));
            assert(t.contains(x));
            let i = choose|i: int| 0 <= i < t.len() && t[i] == x;
            assert(i > 0);
            assert(lex_lt(y, x));
            assert(t.to_set().contains(y));
            assert(s.contains(y));
            let j = choose|j: int| 0 <= j < s.len() && s[j] == y;
            assert(j > 0);
            assert(lex_lt(x, y));
            lemma_lex_lt_transitive(x, y, x);
            lemma_lex_lt_irreflexive(x);
            assert(false);
        }
        let s1 = s.skip(1);
        let t1 = t.skip(1);
        assert(sorted_unique(s1)) by {
            assert(forall|i: int, j: int|
                0 <= i < j < s1.len() ==> lex_lt(#[trigger] s1[i], #[trigger] s1[j]))
                by {
                assert(forall|i: int, j: int|
                    0 <= i < j < s1.len() ==> s1[i] == s[i + 1] && s1[j] == s[j + 1]
                        && lex_lt(#[trigger] s[i + 1], #[trigger] s[j + 1]));
            }
        }
        assert(sorted_unique(t1)) by {
            assert(forall|i: int, j: int|
                0 <= i < j < t1.len() ==> lex_lt(#[trigger] t1[i], #[trigger] t1[j]))
                by {
                assert(forall|i: int, j: int|
                    0 <= i < j < t1.len() ==> t1[i] == t[i + 1] && t1[j] == t[j + 1]
                        && lex_lt(#[trigger] t[i + 1], #[trigger] t[j + 1]));
            }
        }
        assert(s1.to_set() =~= t1.to_set()) by {
            assert forall|e: Seq<char>| s1.to_set().contains(e) implies t1.to_set().contains(
                e,
            ) by {
                lemma_skip_set_membership(s, t, e);
            }
            assert forall|e: Seq<char>| t1.to_set().contains(e) implies s1.to_set().contains(
                e,
            ) by {
                lemma_skip_set_membership(t, s, e);
            }
        }
        lemma_sorted_unique_seqs_equal(s1, t1);
        assert(s.len() == t.len());
        assert forall|i: int| 0 <= i < s.len() implies s[i] == t[i] by {
            if i >= 1 {
                assert(s1[i - 1] == t1[i - 1]);
            }
        }
        assert(s =~= t);
    }
}

/// An element found past the head of `s` sits past the head of `t` too,
/// when both are strictly sorted with the same head and the same elements.
proof fn lemma_skip_set_membership(s: Seq<Seq<char>>, t: Seq<Seq<char>>, e: Seq<char>)
    requires
        sorted_unique(s),
        sorted_unique(t),
        s.to_set() == t.to_set(),
        s.len() > 0,
        t.len() > 0,
        s[0] == t[0],
        s.skip(1).to_set().contains(e),
    ensures
        t.skip(1).to_set().contains(e),
{
    let s1 = s.skip(1);
    let i = choose|i: int| 0 <= i < s1.len() && s1[i] == e;
    assert(s[i + 1] == e);
    assert(lex_lt(s[0], e));
    assert(s.contains(e));
    assert(s.to_set().contains(e));
    assert(t.contains(e));
    let j = choose|j: int| 0 <= j < t.len() && t[j] == e;
    if j == 0 {
        lemma_lex_lt_irreflexive(e);
        assert(false);
    }
    assert(t.skip(1)[j - 1] == e);
    assert(t.skip(1).contains(e));
}

/// Inserts `x` into a strictly sorted vector, keeping it strictly sorted;
/// a string already present is not inserted again.
pub fn insert_sorted(v: &mut Vec<String>, x: String)
    requires
        sorted_unique(old(v).deep_view()),
    ensures
        sorted_unique(final(v).deep_view()),
        final(v).deep_view().to_set() == old(v).deep_view().to_set().insert(x@),
{
    let mut k: usize = 0;
    while k < v.len() && str_lt(v[k].as_str(), x.as_str())
        invariant
            sorted_unique(v.deep_view()),
            k <= v.len(),
            forall|i: int| 0 <= i < k ==> lex_lt(v.deep_view()[i], x@),
        decreases v.len() - k,
    {
        k = k + 1;
    }
    if k < v.len() && str_eq(v[k].as_str(), x.as_str()) {
        proof {
            assert(v.deep_view()[k as int] == v@[k as int]@);
            assert(v.deep_view()[k as int] == x@);
            assert(v.deep_view().to_set() =~= v.deep_view().to_set().insert(x@));
        }
        return;
    }
    let ghost old_view = v.deep_view();
    proof {
        if k < old_view.len() {
            lemma_lex_lt_connected(old_view[k as int], x@);
        }
    }
    v.insert(k, x);
    proof {
        let new_view = v.deep_view();
        assert(new_view =~= old_view.insert(k as int, x@));
        assert(forall|i: int| 0 <= i < k ==> new_view[i] == old_view[i]);
        assert(new_view[k as int] == x@);
        assert(forall|i: int|
            k < i < new_view.len() ==> new_view[i] == old_view[i - 1]);
        assert forall|i: int, j: int|
            0 <= i < j < new_view.len() implies lex_lt(new_view[i], new_view[j]) by {
            if i < k && j == k {
            } else if i == k && j > k {
                lemma_lex_lt_transitive_chain(old_view, x@, k as int, j - 1);
            } else if i < k && j > k {
            } else if i > k || j < k {
            }
        }
        assert(new_view.to_set() =~= old_view.to_set().insert(x@)) by {
            assert forall|e: Seq<char>| new_view.to_set().contains(e) implies
                old_view.to_set().contains(e) || e == x@ by {
                let i = choose|i: int| 0 <= i < new_view.len() && new_view[i] == e;
                if i < k {
                    assert(old_view[i] == e);
                } else if i > k {
                    assert(old_view[i - 1] == e);
                }
            }
            assert forall|e: Seq<char>| old_view.to_set().contains(e) implies
                new_view.to_set().contains(e) by {
                let i = choose|i: int| 0 <= i < old_view.len() && old_view[i] == e;
                if i < k {
                    assert(new_view[i] == e);
                } else {
                    assert(new_view[i + 1] == e);
                }
            }
            assert(new_view.to_set().contains(x@));
        }
    }
}

/// The order relates the inserted element, past its slot, to every later one.
proof fn lemma_lex_lt_transitive_chain(v: Seq<Seq<char>>, x: Seq<char>, k: int, j: int)
    requires
        sorted_unique(v),
        0 <= k <= j < v.len(),
        k == j || lex_lt(x, v[k]),
        k < j ==> lex_lt(x, v[k]),
    ensures
        j > k ==> lex_lt(x, v[j]),
{
    if j > k {
        lemma_lex_lt_transitive(x, v[k], v[j]);
    }
}

/// Returns the canonical (sorted, duplicate-free) form of a list of names.
pub fn canonical_names(names: &Vec<String>) -> (r: Vec<String>)
    ensures
        sorted_unique(r.deep_view()),
        r.deep_view().to_set() == names.deep_view().to_set(),
{
    let mut r: Vec<String> = Vec::new();
    let mut i: usize = 0;
    proof {
        assert(r.deep_view().to_set() =~= names.deep_view().take(0).to_set());
    }
    while i < names.len()
        invariant
            i <= names.len(),
            sorted_unique(r.deep_view()),
            r.deep_view().to_set() == names.deep_view().take(i as int).to_set(),
        decreases names.len() - i,
    {
        let ghost prefix = names.deep_view().take(i as int);
        insert_sorted(&mut r, names[i].clone());
        proof {
            let next = names.deep_view().take(i + 1);
            assert(next.drop_last() =~= prefix);
            assert(next.last() == names.deep_view()[i as int]);
            assert(next.to_set() =~= prefix.to_set().insert(names.deep_view()[i as int]))
                by {
                assert forall|e: Seq<char>| next.to_set().contains(e) implies
                    prefix.to_set().contains(e) || e == names.deep_view()[i as int] by {
                    let q = choose|q: int| 0 <= q < next.len() && next[q] == e;
                    if q < i {
                        assert(prefix[q] == e);
                    }
                }
                assert forall|e: Seq<char>| prefix.to_set().contains(e) implies
                    next.to_set().contains(e) by {
                    let q = choose|q: int| 0 <= q < prefix.len() && prefix[q] == e;
                    assert(next[q] == e);
                }
                assert(next[i as int] == names.deep_view()[i as int]);
            }
        }
        i = i + 1;
    }
    proof {
        assert(names.deep_view().take(names.len() as int) =~= names.deep_view());
    }
    r
}

} // verus!
