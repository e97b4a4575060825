//! Stable ordering: the insertion-sort characterisation of a stable sort, the
//! removal of consecutive duplicates, and lexicographic order on characters.

use vstd::prelude::*;

verus! {

/// Inserts `x` into `s` after every element that is ordered no later than it.
pub open spec fn insert_stable<T>(s: Seq<T>, x: T, le: spec_fn(T, T) -> bool) -> Seq<T>
    decreases s.len(),
{
    if s.len() == 0 {
        seq![x]
    } else if le(s.last(), x) {
        s.push(x)
    } else {
        insert_stable(s.drop_last(), x, le).push(s.last())
    }
}

/// The stable sort of `s` by the total preorder `le`: equal elements keep their order.
pub open spec fn sort_stable<T>(s: Seq<T>, le: spec_fn(T, T) -> bool) -> Seq<T>
    decreases s.len(),
{
    if s.len() == 0 {
        Seq::empty()
    } else {
        insert_stable(sort_stable(s.drop_last(), le), s.last(), le)
    }
}

pub proof fn lemma_insert_at<T>(s: Seq<T>, x: T, le: spec_fn(T, T) -> bool, j: int)
    requires
        0 <= j <= s.len(),
        j == 0 || le(s[j - 1], x),
        forall|k: int| j <= k < s.len() ==> !le(#[trigger] s[k], x),
    ensures
        insert_stable(s, x, le) == s.insert(j, x),
    decreases s.len(),
{
    if s.len() == 0 {
        assert(s.insert(j, x) =~= seq![x]);
    } else if j == s.len() {
        assert(s.insert(j, x) =~= s.push(x));
    } else {
        assert(!le(s[s.len() - 1], x));
        lemma_insert_at(s.drop_last(), x, le, j);
        assert(s.drop_last().insert(j, x).push(s.last()) =~= s.insert(j, x));
    }
}

pub proof fn lemma_insert_len<T>(s: Seq<T>, x: T, le: spec_fn(T, T) -> bool)
    ensures
        insert_stable(s, x, le).len() == s.len() + 1,
    decreases s.len(),
{
    if s.len() > 0 && !le(s.last(), x) {
        lemma_insert_len(s.drop_last(), x, le);
    }
}

pub proof fn lemma_sort_len<T>(s: Seq<T>, le: spec_fn(T, T) -> bool)
    ensures
        sort_stable(s, le).len() == s.len(),
    decreases s.len(),
{
    if s.len() > 0 {
        lemma_sort_len(s.drop_last(), le);
        lemma_insert_len(sort_stable(s.drop_last(), le), s.last(), le);
    }
}

/// `s` without elements equal to the one just before them.
pub open spec fn dedup_consecutive<T>(s: Seq<T>) -> Seq<T>
    decreases s.len(),
{
    if s.len() <= 1 {
        s
    } else if s.last() == s[s.len() - 2] {
        dedup_consecutive(s.drop_last())
    } else {
        dedup_consecutive(s.drop_last()).push(s.last())
    }
}

pub proof fn lemma_dedup_head<T>(s: Seq<T>)
    ensures
        s.len() > 0 ==> dedup_consecutive(s).len() > 0 && dedup_consecutive(s)[0] == s[0],
        s.len() == 0 ==> dedup_consecutive(s).len() == 0,
    decreases s.len(),
{
    if s.len() > 1 {
        lemma_dedup_head(s.drop_last());
    }
}

/// Three-way lexicographic comparison of character sequences by code point.
pub open spec fn lex_order(a: Seq<char>, b: Seq<char>) -> int
    decreases a.len(),
{
    if a.len() == 0 && b.len() == 0 {
        0
    } else if a.len() == 0 {
        -1
    } else if b.len() == 0 {
        1
    } else if a[0] < b[0] {
        -1
    } else if a[0] > b[0] {
        1
    } else {
        lex_order(a.drop_first(), b.drop_first())
    }
}

pub fn compare_chars(a: &[char], b: &[char]) -> (r: i8)
    ensures
        r as int == lex_order(a@, b@),
{
    let mut i: usize = 0;
    assert(a@.subrange(0, a@.len() as int) =~= a@);
    assert(b@.subrange(0, b@.len() as int) =~= b@);
    while i < a.len() && i < b.len()
        invariant
            i <= a.len(),
            i <= b.len(),
            lex_order(a@, b@) == lex_order(a@.subrange(i as int, a@.len() as int), b@.subrange(
                i as int,
                b@.len() as int,
            )),
        decreases a.len() - i,
    {
        let ghost sa = a@.subrange(i as int, a@.len() as int);
        let ghost sb = b@.subrange(i as int, b@.len() as int);
        assert(sa[0] == a@[i as int] && sb[0] == b@[i as int]);
        if a[i] < b[i] {
            return -1;
        }
        if a[i] > b[i] {
            return 1;
        }
        assert(sa.drop_first() =~= a@.subrange(i + 1, a@.len() as int));
        assert(sb.drop_first() =~= b@.subrange(i + 1, b@.len() as int));
        i = i + 1;
    }
    if i < b.len() {
        return -1;
    }
    if i < a.len() {
        return 1;
    }
    0
}


pub proof fn lemma_lex_antisymmetric(a: Seq<char>, b: Seq<char>)
    ensures
        lex_order(a, b) == -lex_order(b, a),
        lex_order(a, b) == 0 ==> a == b,
        -1 <= lex_order(a, b) <= 1,
    decreases a.len(),
{
    if a.len() > 0 && b.len() > 0 && a[0] == b[0] {
        lemma_lex_antisymmetric(a.drop_first(), b.drop_first());
        if lex_order(a, b) == 0 {
            assert(a =~= seq![a[0]] + a.drop_first());
            assert(b =~= seq![b[0]] + b.drop_first());
        }
    }
}

pub proof fn lemma_lex_transitive(a: Seq<char>, b: Seq<char>, c: Seq<char>)
    requires
        lex_order(a, b) <= 0,
        lex_order(b, c) <= 0,
    ensures
        lex_order(a, c) <= 0,
    decreases a.len(),
{
    if a.len() > 0 && b.len() > 0 && c.len() > 0 && a[0] == b[0] && b[0] == c[0] {
        lemma_lex_transitive(a.drop_first(), b.drop_first(), c.drop_first());
    }
}

/// `le` orders every pair and is transitive.
pub open spec fn total_preorder<T>(le: spec_fn(T, T) -> bool) -> bool {
    &&& forall|a: T, b: T| #[trigger] le(a, b) || le(b, a)
    &&& forall|a: T, b: T, c: T| #[trigger] le(a, b) && #[trigger] le(b, c) ==> le(a, c)
}

pub open spec fn sorted_by<T>(s: Seq<T>, le: spec_fn(T, T) -> bool) -> bool {
    forall|i: int, j: int| 0 <= i < j < s.len() ==> le(#[trigger] s[i], #[trigger] s[j])
}

/// No two elements of `s` are ordered both ways unless they are equal.
pub open spec fn ties_only_equal<T>(s: Seq<T>, le: spec_fn(T, T) -> bool) -> bool {
    forall|i: int, j: int|
        0 <= i < s.len() && 0 <= j < s.len() && le(#[trigger] s[i], #[trigger] s[j]) && le(s[j], s[i])
            ==> s[i] == s[j]
}

pub proof fn lemma_insert_multiset<T>(s: Seq<T>, x: T, le: spec_fn(T, T) -> bool)
    ensures
        insert_stable(s, x, le).to_multiset() == s.to_multiset().insert(x),
    decreases s.len(),
{
    broadcast use vstd::seq_lib::group_to_multiset_ensures;

    if s.len() == 0 {
        assert(seq![x] =~= Seq::<T>::empty().push(x));
    } else if le(s.last(), x) {
    } else {
        lemma_insert_multiset(s.drop_last(), x, le);
        assert(s =~= s.drop_last().push(s.last()));
        assert(insert_stable(s, x, le).to_multiset() =~= s.to_multiset().insert(x));
    }
}

pub proof fn lemma_sort_multiset<T>(s: Seq<T>, le: spec_fn(T, T) -> bool)
    ensures
        sort_stable(s, le).to_multiset() == s.to_multiset(),
    decreases s.len(),
{
    broadcast use vstd::seq_lib::group_to_multiset_ensures;

    if s.len() > 0 {
        lemma_sort_multiset(s.drop_last(), le);
        lemma_insert_multiset(sort_stable(s.drop_last(), le), s.last(), le);
        assert(s =~= s.drop_last().push(s.last()));
    }
}

proof fn lemma_member_of<T>(s: Seq<T>, e: T)
    requires
        s.to_multiset().count(e) > 0,
    ensures
        exists|k: int| 0 <= k < s.len() && s[k] == e,
{
    broadcast use vstd::seq_lib::group_to_multiset_ensures;

    assert(s.contains(e));
}

pub proof fn lemma_insert_sorted<T>(s: Seq<T>, x: T, le: spec_fn(T, T) -> bool)
    requires
        total_preorder(le),
        sorted_by(s, le),
    ensures
        sorted_by(insert_stable(s, x, le), le),
    decreases s.len(),
{
    broadcast use vstd::seq_lib::group_to_multiset_ensures;

    if s.len() == 0 {
    } else if le(s.last(), x) {
        let r = s.push(x);
        assert forall|i: int, j: int| 0 <= i < j < r.len() implies le(#[trigger] r[i], #[trigger] r[j]) by {
            if j == r.len() - 1 {
                if i < s.len() - 1 {
                    assert(le(s[i], s[s.len() - 1]));
                }
            }
        }
    } else {
        let p = s.drop_last();
        lemma_insert_sorted(p, x, le);
        lemma_insert_multiset(p, x, le);
        let q = insert_stable(p, x, le);
        let r = q.push(s.last());
        assert(le(x, s.last()));
        assert forall|i: int, j: int| 0 <= i < j < r.len() implies le(#[trigger] r[i], #[trigger] r[j]) by {
            if j == r.len() - 1 {
                let e = q[i];
                assert(q.contains(e));
                assert(q.to_multiset().count(e) > 0);
                if e != x {
                    assert(p.to_multiset().count(e) > 0);
                    lemma_member_of(p, e);
                    let k = choose|k: int| 0 <= k < p.len() && p[k] == e;
                    assert(le(s[k], s[s.len() - 1]));
                }
            }
        }
    }
}

pub proof fn lemma_sort_sorted<T>(s: Seq<T>, le: spec_fn(T, T) -> bool)
    requires
        total_preorder(le),
    ensures
        sorted_by(sort_stable(s, le), le),
    decreases s.len(),
{
    if s.len() > 0 {
        lemma_sort_sorted(s.drop_last(), le);
        lemma_insert_sorted(sort_stable(s.drop_last(), le), s.last(), le);
    }
}

proof fn lemma_sorted_permutations_agree<T>(a: Seq<T>, b: Seq<T>, le: spec_fn(T, T) -> bool)
    requires
        total_preorder(le),
        sorted_by(a, le),
        sorted_by(b, le),
        a.to_multiset() == b.to_multiset(),
        ties_only_equal(a, le),
    ensures
        a == b,
    decreases a.len(),
{
    broadcast use vstd::seq_lib::group_to_multiset_ensures;

    a.to_multiset_ensures();
    b.to_multiset_ensures();
    assert(a.len() == b.len());
    if a.len() > 0 {
        let x = a[0];
        let y = b[0];
        assert(b.contains(y));
        assert(a.to_multiset().count(y) > 0);
        lemma_member_of(a, y);
        let k = choose|k: int| 0 <= k < a.len() && a[k] == y;
        assert(a.contains(x));
        assert(b.to_multiset().count(x) > 0);
        lemma_member_of(b, x);
        let m = choose|m: int| 0 <= m < b.len() && b[m] == x;
        if k > 0 {
            assert(le(a[0], a[k]));
        } else {
            assert(le(x, x) || le(x, x));
        }
        if m > 0 {
            assert(le(b[0], b[m]));
        } else {
            assert(le(y, y) || le(y, y));
        }
        assert(le(x, y) && le(y, x));
        assert(a[0] == a[k]);
        let ra = a.remove(0);
        let rb = b.remove(0);
        assert(ra.to_multiset() == rb.to_multiset());
        assert(ra =~= a.drop_first());
        assert(rb =~= b.drop_first());
        assert forall|i: int, j: int| 0 <= i < j < ra.len() implies le(#[trigger] ra[i], #[trigger] ra[j]) by {
            assert(le(a[i + 1], a[j + 1]));
        }
        assert forall|i: int, j: int| 0 <= i < j < rb.len() implies le(#[trigger] rb[i], #[trigger] rb[j]) by {
            assert(le(b[i + 1], b[j + 1]));
        }
        assert forall|i: int, j: int|
            0 <= i < ra.len() && 0 <= j < ra.len() && le(#[trigger] ra[i], #[trigger] ra[j]) && le(
                ra[j],
                ra[i],
            ) implies ra[i] == ra[j] by {
            assert(ra[i] == a[i + 1] && ra[j] == a[j + 1]);
        }
        lemma_sorted_permutations_agree(ra, rb, le);
        assert(a =~= seq![x] + ra);
        assert(b =~= seq![y] + rb);
    }
}

/// A stable sort by a total preorder depends only on which elements there are, not
/// on the order they arrived in, when no two different elements tie.
pub proof fn lemma_sort_ignores_arrival_order<T>(a: Seq<T>, b: Seq<T>, le: spec_fn(T, T) -> bool)
    requires
        total_preorder(le),
        a.to_multiset() == b.to_multiset(),
        ties_only_equal(a, le),
    ensures
        sort_stable(a, le) == sort_stable(b, le),
{
    broadcast use vstd::seq_lib::group_to_multiset_ensures;

    lemma_sort_sorted(a, le);
    lemma_sort_sorted(b, le);
    lemma_sort_multiset(a, le);
    lemma_sort_multiset(b, le);
    let sa = sort_stable(a, le);
    assert forall|i: int, j: int|
        0 <= i < sa.len() && 0 <= j < sa.len() && le(#[trigger] sa[i], #[trigger] sa[j]) && le(
            sa[j],
            sa[i],
        ) implies sa[i] == sa[j] by {
        assert(sa.contains(sa[i]) && sa.contains(sa[j]));
        assert(a.to_multiset().count(sa[i]) > 0);
        assert(a.to_multiset().count(sa[j]) > 0);
        lemma_member_of(a, sa[i]);
        lemma_member_of(a, sa[j]);
        let p = choose|k: int| 0 <= k < a.len() && a[k] == sa[i];
        let q = choose|k: int| 0 <= k < a.len() && a[k] == sa[j];
        assert(le(a[p], a[q]) && le(a[q], a[p]));
    }
    lemma_sorted_permutations_agree(sa, sort_stable(b, le), le);
}

/// Removing neighbouring repeats keeps every element: each element of `s` is still
/// there afterwards, and nothing else is.
pub proof fn lemma_dedup_keeps_every_element<T>(s: Seq<T>)
    ensures
        forall|e: T| dedup_consecutive(s).contains(e) <==> s.contains(e),
    decreases s.len(),
{
    if s.len() > 1 {
        let p = s.drop_last();
        let x = s.last();
        lemma_dedup_keeps_every_element(p);
        let d = dedup_consecutive(p);
        assert forall|e: T| s.contains(e) <==> (p.contains(e) || e == x) by {
            if s.contains(e) {
                let k = choose|k: int| 0 <= k < s.len() && s[k] == e;
                if k < p.len() {
                    assert(p[k] == e);
                }
            }
            if p.contains(e) {
                let k = choose|k: int| 0 <= k < p.len() && p[k] == e;
                assert(s[k] == e);
            }
            if e == x {
                assert(s[s.len() - 1] == e);
            }
        }
        if x == s[s.len() - 2] {
            assert(p[p.len() - 1] == x);
            assert(p.contains(x));
            assert(dedup_consecutive(s) == d);
        } else {
            let r = d.push(x);
            assert(dedup_consecutive(s) == r);
            assert forall|e: T| r.contains(e) <==> (d.contains(e) || e == x) by {
                if r.contains(e) {
                    let k = choose|k: int| 0 <= k < r.len() && r[k] == e;
                    if k < d.len() {
                        assert(d[k] == e);
                    }
                }
                if d.contains(e) {
                    let k = choose|k: int| 0 <= k < d.len() && d[k] == e;
                    assert(r[k] == e);
                }
                if e == x {
                    assert(r[r.len() - 1] == e);
                }
            }
        }
    } else {
        assert forall|e: T| dedup_consecutive(s).contains(e) <==> s.contains(e) by {}
    }
}

/// Removing neighbouring repeats keeps a sorted sequence sorted.
pub proof fn lemma_dedup_keeps_order<T>(s: Seq<T>, le: spec_fn(T, T) -> bool)
    requires
        sorted_by(s, le),
    ensures
        sorted_by(dedup_consecutive(s), le),
        forall|i: int| 0 <= i < dedup_consecutive(s).len() ==> s.contains(#[trigger] dedup_consecutive(s)[i]),
    decreases s.len(),
{
    if s.len() > 1 {
        let p = s.drop_last();
        assert(sorted_by(p, le)) by {
            assert forall|i: int, j: int| 0 <= i < j < p.len() implies le(#[trigger] p[i], #[trigger] p[j]) by {
                assert(le(s[i], s[j]));
            }
        }
        lemma_dedup_keeps_order(p, le);
        let d = dedup_consecutive(p);
        assert forall|i: int| 0 <= i < d.len() implies s.contains(#[trigger] d[i]) by {
            assert(p.contains(d[i]));
            let k = choose|k: int| 0 <= k < p.len() && p[k] == d[i];
            assert(s[k] == d[i]);
        }
        if s.last() != s[s.len() - 2] {
            let r = d.push(s.last());
            assert forall|i: int, j: int| 0 <= i < j < r.len() implies le(#[trigger] r[i], #[trigger] r[j]) by {
                if j == r.len() - 1 {
                    assert(p.contains(d[i]));
                    let k = choose|k: int| 0 <= k < p.len() && p[k] == d[i];
                    assert(le(s[k], s[s.len() - 1]));
                }
            }
            assert forall|i: int| 0 <= i < r.len() implies s.contains(#[trigger] r[i]) by {
                if i == r.len() - 1 {
                    assert(s[s.len() - 1] == r[i]);
                } else {
                    assert(s.contains(d[i]));
                }
            }
        }
    }
}

} // verus!
