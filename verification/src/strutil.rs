//! Lexicographic ordering of strings, canonical (sorted, deduplicated)
//! name sequences, and joining names for display.
//!
//! The canonical form built here is what makes marker hashing
//! order-independent: two dependency lists with the same name set always
//! canonicalise to the same sequence, and lists with different name sets
//! never do.

use vstd::prelude::*;
use itertools::Itertools;

verus! {

/// Strict lexicographic order on character sequences, by Unicode scalar
/// value, with a proper prefix ordered before its extensions.
pub open spec fn lex_lt(a: Seq<char>, b: Seq<char>) -> bool
    decreases a.len(),
{
    if b.len() == 0 {
        false
    } else if a.len() == 0 {
        true
    } else if (a[0] as u32) < (b[0] as u32) {
        true
    } else if (a[0] as u32) == (b[0] as u32) {
        lex_lt(a.drop_first(), b.drop_first())
    } else {
        false
    }
}

pub proof fn lemma_lex_lt_irreflexive(a: Seq<char>)
    ensures
        !lex_lt(a, a),
    decreases a.len(),
{
    if a.len() > 0 {
        lemma_lex_lt_irreflexive(a.drop_first());
    }
}

/// Two sequences that neither order relates are equal.
pub proof fn lemma_lex_lt_connected(a: Seq<char>, b: Seq<char>)
    requires
        !lex_lt(a, b),
        !lex_lt(b, a),
    ensures
        a == b,
    decreases a.len(),
{
    if b.len() == 0 {
        assert(a.len() == 0);
        assert(a =~= b);
    } else {
        assert(a.len() > 0);
        assert((a[0] as u32) == (b[0] as u32));
        vstd::utf8::char_u32_cast(a[0], a[0] as u32);
        vstd::utf8::char_u32_cast(b[0], b[0] as u32);
        assert(a[0] == b[0]);
        assert(!lex_lt(a.drop_first(), b.drop_first()));
        assert(!lex_lt(b.drop_first(), a.drop_first()));
        lemma_lex_lt_connected(a.drop_first(), b.drop_first());
        assert(a =~= b) by {
            assert(forall|i: int|
                1 <= i < a.len() ==> a[i] == a.drop_first()[i - 1] && b[i] == b.drop_first()[i
                    - 1]);
        }
    }
}

pub proof fn lemma_lex_lt_asymmetric(a: Seq<char>, b: Seq<char>)
    requires
        lex_lt(a, b),
    ensures
        !lex_lt(b, a),
        a != b,
    decreases a.len(),
{
    if a.len() > 0 && b.len() > 0 && (a[0] as u32) == (b[0] as u32) {
        lemma_lex_lt_asymmetric(a.drop_first(), b.drop_first());
        assert(a != b) by {
            if a == b {
                assert(a.drop_first() =~= b.drop_first());
            }
        }
    } else {
        if a == b {
            lemma_lex_lt_irreflexive(a);
        }
    }
}

pub proof fn lemma_lex_lt_transitive(a: Seq<char>, b: Seq<char>, c: Seq<char>)
    requires
        lex_lt(a, b),
        lex_lt(b, c),
    ensures
        lex_lt(a, c),
    decreases a.len(),
{
    if a.len() > 0 && c.len() > 0 {
        assert(b.len() > 0);
        if (a[0] as u32) == (b[0] as u32) && (b[0] as u32) == (c[0] as u32) {
            lemma_lex_lt_transitive(a.drop_first(), b.drop_first(), c.drop_first());
        }
    }
}

/// Compares two strings in the order of [`lex_lt`].
pub fn str_lt(a: &str, b: &str) -> (r: bool)
    ensures
        r == lex_lt(a@, b@),
{
    let a_len = a.unicode_len();
    let b_len = b.unicode_len();
    let mut i: usize = 0;
    proof {
        assert(a@.skip(0) =~= a@);
        assert(b@.skip(0) =~= b@);
    }
    loop
        invariant
            i <= a_len,
            i <= b_len,
            a_len == a@.len(),
            b_len == b@.len(),
            lex_lt(a@, b@) == lex_lt(a@.skip(i as int), b@.skip(i as int)),
        decreases a_len - i,
    {
        if i == a_len || i == b_len {
            assert(a@.skip(i as int).len() == 0 || b@.skip(i as int).len() == 0);
            return a_len < b_len;
        }
        let ca = a.get_char(i);
        let cb = b.get_char(i);
        proof {
            assert(a@.skip(i as int).len() > 0 && b@.skip(i as int).len() > 0);
            assert(a@.skip(i as int)[0] == a@[i as int]);
            assert(b@.skip(i as int)[0] == b@[i as int]);
        }
        if (ca as u32) < (cb as u32) {
            return true;
        }
        if (ca as u32) > (cb as u32) {
            return false;
        }
        proof {
            assert(a@.skip(i as int).drop_first() =~= a@.skip(i + 1));
            assert(b@.skip(i as int).drop_first() =~= b@.skip(i + 1));
        }
        i = i + 1;
    }
}

/// Strictly sorted: sorted with no duplicates.
pub open spec fn sorted_strict(s: Seq<Seq<char>>) -> bool {
    forall|i: int, j: int| 0 <= i < j < s.len() ==> lex_lt(s[i], s[j])
}

/// Inserts `x` into a strictly sorted sequence, keeping order and
/// dropping the insertion if `x` is already present.
pub open spec fn insert_sorted(s: Seq<Seq<char>>, x: Seq<char>) -> Seq<Seq<char>>
    decreases s.len(),
{
    if s.len() == 0 {
        seq![x]
    } else if lex_lt(x, s[0]) {
        seq![x] + s
    } else if x == s[0] {
        s
    } else {
        seq![s[0]] + insert_sorted(s.drop_first(), x)
    }
}

/// The canonical form of a name list: strictly sorted, duplicates removed.
pub open spec fn canon_names(s: Seq<Seq<char>>) -> Seq<Seq<char>>
    decreases s.len(),
{
    if s.len() == 0 {
        Seq::empty()
    } else {
        insert_sorted(canon_names(s.drop_last()), s.last())
    }
}

pub proof fn lemma_insert_sorted_props(s: Seq<Seq<char>>, x: Seq<char>)
    requires
        sorted_strict(s),
    ensures
        sorted_strict(insert_sorted(s, x)),
        insert_sorted(s, x).to_set() == s.to_set().insert(x),
    decreases s.len(),
{
    let r = insert_sorted(s, x);
    if s.len() == 0 {
        assert(r =~= seq![x]);
        assert(r.to_set() =~= s.to_set().insert(x)) by {
            assert(r[0] == x);
            assert(r.to_set().contains(x));
            assert forall|y: Seq<char>| s.to_set().insert(x).contains(y) implies r.to_set()
                .contains(y) by {
                assert(y == x);
            }
        }
    } else if lex_lt(x, s[0]) {
        assert(r =~= seq![x] + s);
        assert(sorted_strict(r)) by {
            assert forall|i: int, j: int| 0 <= i < j < r.len() implies lex_lt(r[i], r[j]) by {
                if i == 0 {
                    if j > 1 {
                        lemma_lex_lt_transitive(x, s[0], s[j - 1]);
                    }
                } else {
                    assert(r[i] == s[i - 1] && r[j] == s[j - 1]);
                }
            }
        }
        assert(r.to_set() =~= s.to_set().insert(x)) by {
            assert forall|y: Seq<char>| r.to_set().contains(y) implies s.to_set().insert(
                x,
            ).contains(y) by {
                let k = choose|k: int| 0 <= k < r.len() && r[k] == y;
                if k > 0 {
                    assert(s[k - 1] == y);
                }
            }
            assert forall|y: Seq<char>| s.to_set().insert(x).contains(y) implies r.to_set()
                .contains(y) by {
                if y == x {
                    assert(r[0] == y);
                } else {
                    let k = choose|k: int| 0 <= k < s.len() && s[k] == y;
                    assert(r[k + 1] == y);
                }
            }
        }
    } else if x == s[0] {
        assert(r == s);
        assert(r.to_set() =~= s.to_set().insert(x)) by {
            assert(s[0] == x);
            assert(s.to_set().contains(x));
        }
    } else {
        if !lex_lt(s[0], x) {
            lemma_lex_lt_connected(x, s[0]);
        }
        assert(lex_lt(s[0], x));
        let tail = s.drop_first();
        assert(sorted_strict(tail)) by {
            assert forall|i: int, j: int| 0 <= i < j < tail.len() implies lex_lt(
                tail[i],
                tail[j],
            ) by {
                assert(tail[i] == s[i + 1] && tail[j] == s[j + 1]);
            }
        }
        lemma_insert_sorted_props(tail, x);
        let rt = insert_sorted(tail, x);
        assert(r =~= seq![s[0]] + rt);
        assert(sorted_strict(r)) by {
            assert forall|i: int, j: int| 0 <= i < j < r.len() implies lex_lt(r[i], r[j]) by {
                if i == 0 {
                    assert(rt.to_set().contains(r[j]));
                    let k = choose|k: int| 0 <= k < rt.len() && rt[k] == r[j];
                    if r[j] == x {
                        assert(lex_lt(s[0], x));
                    } else {
                        assert(tail.to_set().contains(r[j]));
                        let m = choose|m: int| 0 <= m < tail.len() && tail[m] == r[j];
                        assert(tail[m] == s[m + 1]);
                        assert(lex_lt(s[0], s[m + 1]));
                    }
                } else {
                    assert(r[i] == rt[i - 1] && r[j] == rt[j - 1]);
                }
            }
        }
        assert(r.to_set() =~= s.to_set().insert(x)) by {
            assert forall|y: Seq<char>| r.to_set().contains(y) implies s.to_set().insert(
                x,
            ).contains(y) by {
                let k = choose|k: int| 0 <= k < r.len() && r[k] == y;
                if k == 0 {
                    assert(s[0] == y);
                } else {
                    assert(rt.to_set().contains(y));
                    if y != x {
                        assert(tail.to_set().contains(y));
                        let m = choose|m: int| 0 <= m < tail.len() && tail[m] == y;
                        assert(s[m + 1] == y);
                    }
                }
            }
            assert forall|y: Seq<char>| s.to_set().insert(x).contains(y) implies r.to_set()
                .contains(y) by {
                if y == x {
                    assert(rt.to_set().contains(y));
                    let k = choose|k: int| 0 <= k < rt.len() && rt[k] == y;
                    assert(r[k + 1] == y);
                } else {
                    let k = choose|k: int| 0 <= k < s.len() && s[k] == y;
                    if k == 0 {
                        assert(r[0] == y);
                    } else {
                        assert(tail[k - 1] == y);
                        assert(tail.to_set().contains(y));
                        assert(rt.to_set().contains(y));
                        let m = choose|m: int| 0 <= m < rt.len() && rt[m] == y;
                        assert(r[m + 1] == y);
                    }
                }
            }
        }
    }
}

/// The canonical form is strictly sorted and keeps exactly the original
/// name set.
pub proof fn lemma_canon_props(s: Seq<Seq<char>>)
    ensures
        sorted_strict(canon_names(s)),
        canon_names(s).to_set() == s.to_set(),
    decreases s.len(),
{
    if s.len() == 0 {
        assert(canon_names(s).to_set() =~= s.to_set());
    } else {
        lemma_canon_props(s.drop_last());
        lemma_insert_sorted_props(canon_names(s.drop_last()), s.last());
        assert(canon_names(s).to_set() =~= s.to_set()) by {
            assert(canon_names(s).to_set() == s.drop_last().to_set().insert(s.last()));
            assert forall|y: Seq<char>| s.drop_last().to_set().insert(s.last()).contains(
                y,
            ) implies s.to_set().contains(y) by {
                if y == s.last() {
                    assert(s[s.len() - 1] == y);
                } else {
                    let k = choose|k: int| 0 <= k < s.drop_last().len() && s.drop_last()[k] == y;
                    assert(s[k] == y);
                }
            }
            assert forall|y: Seq<char>| s.to_set().contains(y) implies s.drop_last()
                .to_set()
                .insert(s.last()).contains(y) by {
                let k = choose|k: int| 0 <= k < s.len() && s[k] == y;
                if k < s.len() - 1 {
                    assert(s.drop_last()[k] == y);
                }
            }
        }
    }
}

/// A set of names has exactly one strictly sorted arrangement.
pub proof fn lemma_sorted_strict_unique(a: Seq<Seq<char>>, b: Seq<Seq<char>>)
    requires
        sorted_strict(a),
        sorted_strict(b),
        a.to_set() == b.to_set(),
    ensures
        a == b,
    decreases a.len(),
{
    if a.len() == 0 {
        if b.len() > 0 {
            assert(b.to_set().contains(b[0]));
            assert(a.to_set().contains(b[0]));
        }
        assert(a =~= b);
    } else {
        assert(a.to_set().contains(a[0]));
        assert(b.to_set().contains(a[0]));
        assert(b.len() > 0);
        // The heads are both the unique minimum of the shared set.
        assert(a[0] == b[0]) by {
            let i = choose|i: int| 0 <= i < b.len() && b[i] == a[0];
            let j = choose|j: int| 0 <= j < a.len() && a[j] == b[0];
            assert(b.to_set().contains(b[0]));
            assert(a.to_set().contains(b[0]));
            if i > 0 {
                assert(lex_lt(b[0], b[i]));
                if j > 0 {
                    assert(lex_lt(a[0], a[j]));
                    lemma_lex_lt_transitive(a[0], b[0], a[0]);
                    lemma_lex_lt_irreflexive(a[0]);
                }
            }
        }
        let at = a.drop_first();
        let bt = b.drop_first();
        assert(sorted_strict(at) && sorted_strict(bt)) by {
            assert(forall|i: int, j: int|
                0 <= i < j < at.len() ==> at[i] == a[i + 1] && at[j] == a[j + 1]);
            assert(forall|i: int, j: int|
                0 <= i < j < bt.len() ==> bt[i] == b[i + 1] && bt[j] == b[j + 1]);
        }
        assert(at.to_set() =~= bt.to_set()) by {
            assert forall|y: Seq<char>| at.to_set().contains(y) implies bt.to_set().contains(
                y,
            ) by {
                let k = choose|k: int| 0 <= k < at.len() && at[k] == y;
                assert(a[k + 1] == y);
                assert(lex_lt(a[0], y));
                assert(a.to_set().contains(y));
                assert(b.to_set().contains(y));
                let m = choose|m: int| 0 <= m < b.len() && b[m] == y;
                if m == 0 {
                    lemma_lex_lt_irreflexive(y);
                }
                assert(bt[m - 1] == y);
            }
            assert forall|y: Seq<char>| bt.to_set().contains(y) implies at.to_set().contains(
                y,
            ) by {
                let k = choose|k: int| 0 <= k < bt.len() && bt[k] == y;
                assert(b[k + 1] == y);
                assert(lex_lt(b[0], y));
                assert(b.to_set().contains(y));
                assert(a.to_set().contains(y));
                let m = choose|m: int| 0 <= m < a.len() && a[m] == y;
                if m == 0 {
                    lemma_lex_lt_irreflexive(y);
                }
                assert(at[m - 1] == y);
            }
        }
        lemma_sorted_strict_unique(at, bt);
        assert(a =~= b) by {
            assert(forall|i: int| 1 <= i < a.len() ==> a[i] == at[i - 1] && b[i] == bt[i - 1]);
        }
    }
}

/// Canonicalisation depends only on the name set: it is unchanged by
/// reordering or duplication, and changed by adding or removing a name.
pub proof fn lemma_canon_set_sensitivity(s1: Seq<Seq<char>>, s2: Seq<Seq<char>>)
    ensures
        canon_names(s1) == canon_names(s2) <==> s1.to_set() == s2.to_set(),
{
    lemma_canon_props(s1);
    lemma_canon_props(s2);
    if s1.to_set() == s2.to_set() {
        lemma_sorted_strict_unique(canon_names(s1), canon_names(s2));
    }
}

/// Joins the parts with the separator between consecutive parts.
pub open spec fn join_with(parts: Seq<Seq<char>>, sep: Seq<char>) -> Seq<char>
    decreases parts.len(),
{
    if parts.len() == 0 {
        Seq::empty()
    } else if parts.len() == 1 {
        parts[0]
    } else {
        parts[0] + sep + join_with(parts.drop_first(), sep)
    }
}

/// Relies on `itertools::Itertools::join`: concatenates the elements'
/// `Display` output (for strings, the string itself) with the separator
/// between consecutive elements.
#[verifier::external_body]
pub fn join_strings(parts: &Vec<String>, sep: &str) -> (r: String)
    ensures
        r@ == join_with(parts.deep_view(), sep@),
{
    parts.iter().join(sep)
}

} // verus!
