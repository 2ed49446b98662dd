//! Sets of names held as strictly ascending vectors of strings, so that a
//! set has exactly one representation and output order is deterministic.
use vstd::prelude::*;

verus! {

/// `a` sorts before `b` when the two agree below position `i` and, from
/// `i` on, `a` runs out first or has the smaller character where they first
/// differ.
pub open spec fn lex_lt_from(a: Seq<char>, b: Seq<char>, i: int) -> bool
    decreases a.len() - i,
{
    if i >= b.len() || i < 0 {
        false
    } else if i >= a.len() {
        true
    } else if a[i] != b[i] {
        (a[i] as int) < (b[i] as int)
    } else {
        lex_lt_from(a, b, i + 1)
    }
}

/// Lexicographic order on character sequences.
pub open spec fn lex_lt(a: Seq<char>, b: Seq<char>) -> bool {
    lex_lt_from(a, b, 0)
}

/// Every earlier element sorts strictly before every later one.
pub open spec fn strictly_sorted(s: Seq<Seq<char>>) -> bool {
    forall|i: int, j: int| 0 <= i < j < s.len() ==> lex_lt(#[trigger] s[i], #[trigger] s[j])
}

proof fn lemma_lex_irreflexive_from(a: Seq<char>, i: int)
    requires
        0 <= i,
    ensures
        !lex_lt_from(a, a, i),
    decreases a.len() - i,
{
    if i < a.len() {
        lemma_lex_irreflexive_from(a, i + 1);
    }
}

proof fn lemma_lex_asymmetric_from(a: Seq<char>, b: Seq<char>, i: int)
    requires
        0 <= i,
        lex_lt_from(a, b, i),
    ensures
        !lex_lt_from(b, a, i),
    decreases a.len() - i,
{
    if i < a.len() && i < b.len() && a[i] == b[i] {
        lemma_lex_asymmetric_from(a, b, i + 1);
    }
}

proof fn lemma_lex_transitive_from(a: Seq<char>, b: Seq<char>, c: Seq<char>, i: int)
    requires
        0 <= i,
        lex_lt_from(a, b, i),
        lex_lt_from(b, c, i),
    ensures
        lex_lt_from(a, c, i),
    decreases a.len() - i,
{
    if i < a.len() && i < b.len() && i < c.len() && a[i] == b[i] && b[i] == c[i] {
        lemma_lex_transitive_from(a, b, c, i + 1);
    }
}

proof fn lemma_lex_total_from(a: Seq<char>, b: Seq<char>, i: int)
    requires
        0 <= i <= a.len(),
        i <= b.len(),
        a.subrange(0, i) == b.subrange(0, i),
        a != b,
    ensures
        lex_lt_from(a, b, i) || lex_lt_from(b, a, i),
    decreases a.len() - i,
{
    if i == a.len() && i == b.len() {
        assert(a =~= a.subrange(0, i));
        assert(b =~= b.subrange(0, i));
    } else if i < a.len() && i < b.len() && a[i] == b[i] {
        assert(a.subrange(0, i + 1) =~= a.subrange(0, i).push(a[i]));
        assert(b.subrange(0, i + 1) =~= b.subrange(0, i).push(b[i]));
        lemma_lex_total_from(a, b, i + 1);
    } else if i < a.len() && i < b.len() {
        assert((a[i] as int) != (b[i] as int));
    }
}

pub proof fn lemma_lex_irreflexive(a: Seq<char>)
    ensures
        !lex_lt(a, a),
{
    lemma_lex_irreflexive_from(a, 0);
}

pub proof fn lemma_lex_asymmetric(a: Seq<char>, b: Seq<char>)
    requires
        lex_lt(a, b),
    ensures
        !lex_lt(b, a),
        a != b,
{
    lemma_lex_asymmetric_from(a, b, 0);
    lemma_lex_irreflexive_from(a, 0);
}

pub proof fn lemma_lex_transitive(a: Seq<char>, b: Seq<char>, c: Seq<char>)
    requires
        lex_lt(a, b),
        lex_lt(b, c),
    ensures
        lex_lt(a, c),
{
    lemma_lex_transitive_from(a, b, c, 0);
}

pub proof fn lemma_lex_total(a: Seq<char>, b: Seq<char>)
    requires
        a != b,
    ensures
        lex_lt(a, b) || lex_lt(b, a),
{
    assert(a.subrange(0, 0) =~= b.subrange(0, 0));
    lemma_lex_total_from(a, b, 0);
}

/// Putting `x` at position `i` of a sorted sequence, after every smaller
/// element and before every larger one, keeps it sorted.
pub proof fn lemma_insert_keeps_sorted(s: Seq<Seq<char>>, i: int, x: Seq<char>)
    requires
        strictly_sorted(s),
        0 <= i <= s.len(),
        forall|k: int| 0 <= k < i ==> lex_lt(#[trigger] s[k], x),
        i < s.len() ==> lex_lt(x, s[i]),
    ensures
        strictly_sorted(s.insert(i, x)),
{
    let t = s.insert(i, x);
    assert forall|p: int, q: int| 0 <= p < q < t.len() implies lex_lt(#[trigger] t[p], #[trigger] t[q]) by {
        if q < i {
        } else if q == i {
        } else if p < i {
            lemma_lex_transitive(s[p], x, s[i]);
            if q - 1 > i {
                lemma_lex_transitive(s[p], s[i], s[q - 1]);
            }
        } else if p == i {
            if q - 1 > i {
                lemma_lex_transitive(x, s[i], s[q - 1]);
            }
        }
    }
}

/// Whether `a` sorts strictly before `b`.
pub fn lex_less(a: &str, b: &str) -> (r: bool)
    ensures
        r == lex_lt(a@, b@),
{
    let la = a.unicode_len();
    let lb = b.unicode_len();
    let mut i: usize = 0;
    while i < la && i < lb
        invariant
            la == a@.len(),
            lb == b@.len(),
            i <= la,
            i <= lb,
            lex_lt(a@, b@) == lex_lt_from(a@, b@, i as int),
        decreases la - i,
    {
        let ca = a.get_char(i);
        let cb = b.get_char(i);
        if ca != cb {
            return (ca as u32) < (cb as u32);
        }
        i = i + 1;
    }
    i < lb
}

/// Two strictly sorted sequences with the same elements are the same
/// sequence.
pub proof fn lemma_sorted_unique(s1: Seq<Seq<char>>, s2: Seq<Seq<char>>)
    requires
        strictly_sorted(s1),
        strictly_sorted(s2),
        s1.to_set() == s2.to_set(),
    ensures
        s1 == s2,
    decreases s1.len(),
{
    if s1.len() == 0 {
        if s2.len() > 0 {
            assert(s2.to_set().contains(s2[0]));
        }
        assert(s2.len() == 0);
        assert(s1 =~= s2);
    } else {
        assert(s1.to_set().contains(s1[0]));
        assert(s2.to_set().contains(s1[0]));
        let k = choose|k: int| 0 <= k < s2.len() && s2[k] == s1[0];
        assert(s1.to_set().contains(s2[0]));
        let m = choose|m: int| 0 <= m < s1.len() && s1[m] == s2[0];
        if k > 0 && m > 0 {
            lemma_lex_asymmetric(s2[0], s2[k]);
        } else if k > 0 {
            lemma_lex_irreflexive(s2[0]);
        } else if m > 0 {
            lemma_lex_irreflexive(s1[0]);
        }
        assert(s1[0] == s2[0]);
        let t1 = s1.drop_first();
        let t2 = s2.drop_first();
        assert forall|x: Seq<char>| t1.to_set().contains(x) implies t2.to_set().contains(x) by {
            let a = choose|a: int| 0 <= a < t1.len() && t1[a] == x;
            assert(s1[a + 1] == x);
            lemma_lex_asymmetric(s1[0], s1[a + 1]);
            assert(s2.to_set().contains(x));
            let b = choose|b: int| 0 <= b < s2.len() && s2[b] == x;
            assert(b != 0);
            assert(t2[b - 1] == x);
        }
        assert forall|x: Seq<char>| t2.to_set().contains(x) implies t1.to_set().contains(x) by {
            let a = choose|a: int| 0 <= a < t2.len() && t2[a] == x;
            assert(s2[a + 1] == x);
            lemma_lex_asymmetric(s2[0], s2[a + 1]);
            assert(s1.to_set().contains(x));
            let b = choose|b: int| 0 <= b < s1.len() && s1[b] == x;
            assert(b != 0);
            assert(t1[b - 1] == x);
        }
        assert(t1.to_set() =~= t2.to_set());
        lemma_sorted_unique(t1, t2);
        assert(s1 =~= s2.drop_first().insert(0, s2[0]));
    }
}

/// Whether `v` holds `x`.
pub fn contains_name(v: &Vec<String>, x: &String) -> (r: bool)
    ensures
        r == v.deep_view().contains(x@),
{
    let mut i: usize = 0;
    while i < v.len()
        invariant
            i <= v.len(),
            forall|k: int| 0 <= k < i ==> v.deep_view()[k] != x@,
        decreases v.len() - i,
    {
        if v[i] == *x {
            assert(v.deep_view()[i as int] == x@);
            return true;
        }
        i = i + 1;
    }
    false
}

/// Adds `x` to the sorted set `v`, keeping it sorted and free of repeats.
pub fn insert_name(v: &mut Vec<String>, x: String)
    requires
        strictly_sorted(old(v).deep_view()),
    ensures
        strictly_sorted(final(v).deep_view()),
        final(v).deep_view().to_set() == old(v).deep_view().to_set().insert(x@),
{
    let ghost old_v = v.deep_view();
    let mut i: usize = 0;
    while i < v.len() && lex_less(v[i].as_str(), x.as_str())
        invariant
            v.deep_view() == old_v,
            i <= v.len(),
            forall|k: int| 0 <= k < i ==> lex_lt(#[trigger] old_v[k], x@),
        decreases v.len() - i,
    {
        i = i + 1;
    }
    if i < v.len() && v[i] == x {
        assert(old_v.to_set().contains(x@)) by {
            assert(old_v[i as int] == x@);
        }
        assert(old_v.to_set().insert(x@) =~= old_v.to_set());
        return;
    }
    let ghost xv = x@;
    proof {
        if i < old_v.len() {
            lemma_lex_total(old_v[i as int], xv);
        }
    }
    v.insert(i, x);
    let ghost nv = v.deep_view();
    assert(nv =~= old_v.insert(i as int, xv));
    proof {
        lemma_insert_keeps_sorted(old_v, i as int, xv);
    }
    assert(nv.to_set() =~= old_v.to_set().insert(xv)) by {
        assert forall|y: Seq<char>| nv.to_set().contains(y) implies old_v.to_set().insert(xv).contains(y) by {
            let k = choose|k: int| 0 <= k < nv.len() && nv[k] == y;
            if k < i {
                assert(old_v[k] == y);
            } else if k > i {
                assert(old_v[k - 1] == y);
            }
        }
        assert forall|y: Seq<char>| old_v.to_set().insert(xv).contains(y) implies nv.to_set().contains(y) by {
            if y == xv {
                assert(nv[i as int] == y);
            } else {
                let k = choose|k: int| 0 <= k < old_v.len() && old_v[k] == y;
                if k < i {
                    assert(nv[k] == y);
                } else {
                    assert(nv[k + 1] == y);
                }
            }
        }
    }
}

/// Adds every name of `names` to the sorted set `acc`.
pub fn insert_all(acc: &mut Vec<String>, names: &Vec<String>)
    requires
        strictly_sorted(old(acc).deep_view()),
    ensures
        strictly_sorted(final(acc).deep_view()),
        final(acc).deep_view().to_set() == old(acc).deep_view().to_set().union(
            names.deep_view().to_set(),
        ),
{
    let ghost start = acc.deep_view().to_set();
    let mut i: usize = 0;
    while i < names.len()
        invariant
            i <= names.len(),
            strictly_sorted(acc.deep_view()),
            acc.deep_view().to_set() == start.union(names.deep_view().subrange(0, i as int).to_set()),
        decreases names.len() - i,
    {
        insert_name(acc, names[i].clone());
        proof {
            let nd = names.deep_view();
            assert(nd.subrange(0, i + 1) =~= nd.subrange(0, i as int).push(nd[i as int]));
            nd.subrange(0, i as int).lemma_push_to_set_commute(nd[i as int]);
        }
        i = i + 1;
    }
    proof {
        assert(names.deep_view().subrange(0, i as int) =~= names.deep_view());
    }
}

/// The names of the sorted set `a` that `b` does not hold, in order.
pub fn difference(a: &Vec<String>, b: &Vec<String>) -> (r: Vec<String>)
    requires
        strictly_sorted(a.deep_view()),
    ensures
        strictly_sorted(r.deep_view()),
        r.deep_view().to_set() == a.deep_view().to_set().difference(b.deep_view().to_set()),
{
    let ghost ad = a.deep_view();
    let ghost bs = b.deep_view().to_set();
    let mut r: Vec<String> = Vec::new();
    let mut i: usize = 0;
    while i < a.len()
        invariant
            ad == a.deep_view(),
            bs == b.deep_view().to_set(),
            strictly_sorted(ad),
            i <= a.len(),
            strictly_sorted(r.deep_view()),
            forall|k: int| 0 <= k < r.deep_view().len() ==> exists|j: int| 0 <= j < i && ad[j] == #[trigger] r.deep_view()[k],
            r.deep_view().to_set() == ad.subrange(0, i as int).to_set().difference(bs),
        decreases a.len() - i,
    {
        let ghost old_r = r.deep_view();
        let keep = !contains_name(b, &a[i]);
        if keep {
            r.push(a[i].clone());
            proof {
                assert(r.deep_view() =~= old_r.push(ad[i as int]));
                assert forall|p: int, q: int| 0 <= p < q < r.deep_view().len() implies lex_lt(#[trigger] r.deep_view()[p], #[trigger] r.deep_view()[q]) by {
                    if q == old_r.len() {
                        let j = choose|j: int| 0 <= j < i && ad[j] == old_r[p];
                    }
                }
                old_r.lemma_push_to_set_commute(ad[i as int]);
            }
        }
        proof {
            assert(ad.subrange(0, i + 1) =~= ad.subrange(0, i as int).push(ad[i as int]));
            ad.subrange(0, i as int).lemma_push_to_set_commute(ad[i as int]);
            assert(r.deep_view().to_set() =~= ad.subrange(0, i + 1).to_set().difference(bs));
        }
        i = i + 1;
    }
    proof {
        assert(ad.subrange(0, i as int) =~= ad);
    }
    r
}

} // verus!
