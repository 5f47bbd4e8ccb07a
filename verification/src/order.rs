//! Lexicographic order on character sequences, and the sorted, duplicate-free
//! list of messages that a validation run reports.
//!
//! Characters compare by code point; since UTF-8 preserves code-point order,
//! this is the byte order in which `String`s sort.

use vstd::prelude::*;
use crate::chars::views;


verus! {

/// `a[i..]` sorts strictly before `b[i..]`, given that the characters before `i` agree.
pub open spec fn lex_lt_at(a: Seq<char>, b: Seq<char>, i: nat) -> bool
    decreases a.len() - i,
{
    if i >= a.len() {
        i < b.len()
    } else if i >= b.len() {
        false
    } else if a[i as int] != b[i as int] {
        (a[i as int] as u32) < (b[i as int] as u32)
    } else {
        lex_lt_at(a, b, i + 1)
    }
}

/// Strict lexicographic order.
pub open spec fn lex_lt(a: Seq<char>, b: Seq<char>) -> bool {
    lex_lt_at(a, b, 0)
}

pub proof fn lemma_lex_irreflexive_at(a: Seq<char>, i: nat)
    ensures
        !lex_lt_at(a, a, i),
    decreases a.len() - i,
{
    if i < a.len() {
        lemma_lex_irreflexive_at(a, i + 1);
    }
}

pub proof fn lemma_lex_transitive_at(a: Seq<char>, b: Seq<char>, c: Seq<char>, i: nat)
    requires
        lex_lt_at(a, b, i),
        lex_lt_at(b, c, i),
    ensures
        lex_lt_at(a, c, i),
    decreases a.len() - i,
{
    if i < a.len() && i < b.len() && i < c.len() && a[i as int] == b[i as int] && b[i as int]
        == c[i as int] {
        lemma_lex_transitive_at(a, b, c, i + 1);
    }
}

pub proof fn lemma_lex_total_at(a: Seq<char>, b: Seq<char>, i: nat)
    requires
        i <= a.len(),
        i <= b.len(),
        a.subrange(i as int, a.len() as int) != b.subrange(i as int, b.len() as int),
    ensures
        lex_lt_at(a, b, i) || lex_lt_at(b, a, i),
    decreases a.len() - i,
{
    if i < a.len() && i < b.len() && a[i as int] == b[i as int] {
        let ta = a.subrange(i + 1int, a.len() as int);
        let tb = b.subrange(i + 1int, b.len() as int);
        let sa = a.subrange(i as int, a.len() as int);
        let sb = b.subrange(i as int, b.len() as int);
        if ta == tb {
            assert(ta.len() == a.len() - i - 1);
            assert(tb.len() == b.len() - i - 1);
            assert(sa.len() == sb.len());
            assert forall|k: int| 0 <= k < sa.len() implies sa[k] == sb[k] by {
                if k > 0 {
                    assert(sa[k] == ta[k - 1]);
                    assert(sb[k] == tb[k - 1]);
                }
            }
            assert(sa =~= sb);
        }
        lemma_lex_total_at(a, b, i + 1);
    } else if i < a.len() && i < b.len() {
        let x = a[i as int] as u32;
        let y = b[i as int] as u32;
        assert(x != y) by {
            if x == y {
                vstd::utf8::char_u32_cast(a[i as int], x);
                vstd::utf8::char_u32_cast(b[i as int], y);
            }
        }
    } else if i == a.len() && i == b.len() {
        assert(a.subrange(i as int, a.len() as int) =~= b.subrange(i as int, b.len() as int));
    }
}

pub proof fn lemma_lex_irreflexive(a: Seq<char>)
    ensures
        !lex_lt(a, a),
{
    lemma_lex_irreflexive_at(a, 0);
}

pub proof fn lemma_lex_transitive(a: Seq<char>, b: Seq<char>, c: Seq<char>)
    requires
        lex_lt(a, b),
        lex_lt(b, c),
    ensures
        lex_lt(a, c),
{
    lemma_lex_transitive_at(a, b, c, 0);
}

pub proof fn lemma_lex_total(a: Seq<char>, b: Seq<char>)
    requires
        a != b,
    ensures
        lex_lt(a, b) || lex_lt(b, a),
{
    assert(a.subrange(0, a.len() as int) =~= a);
    assert(b.subrange(0, b.len() as int) =~= b);
    lemma_lex_total_at(a, b, 0);
}

pub proof fn lemma_lex_asymmetric(a: Seq<char>, b: Seq<char>)
    requires
        lex_lt(a, b),
    ensures
        !lex_lt(b, a),
{
    if lex_lt(b, a) {
        lemma_lex_transitive(a, b, a);
        lemma_lex_irreflexive(a);
    }
}

pub fn lex_less(a: &[char], b: &[char]) -> (r: bool)
    ensures
        r == lex_lt(a@, b@),
{
    let mut i: usize = 0;
    while i < a.len() && i < b.len() && a[i] == b[i]
        invariant
            i <= a@.len(),
            i <= b@.len(),
            lex_lt(a@, b@) == lex_lt_at(a@, b@, i as nat),
        decreases a@.len() - i,
    {
        i = i + 1;
    }
    if i >= a.len() {
        i < b.len()
    } else if i >= b.len() {
        false
    } else {
        (a[i] as u32) < (b[i] as u32)
    }
}

pub fn same_text(a: &[char], b: &[char]) -> (r: bool)
    ensures
        r == (a@ == b@),
{
    if a.len() != b.len() {
        return false;
    }
    let mut i: usize = 0;
    while i < a.len()
        invariant
            a@.len() == b@.len(),
            i <= a@.len(),
            forall|j: int| 0 <= j < i ==> a@[j] == b@[j],
        decreases a@.len() - i,
    {
        if a[i] != b[i] {
            return false;
        }
        i = i + 1;
    }
    assert(a@ =~= b@);
    true
}

/// Every element sorts strictly before each later one.
pub open spec fn strictly_sorted(s: Seq<Seq<char>>) -> bool {
    forall|i: int, j: int| 0 <= i < j < s.len() ==> lex_lt(#[trigger] s[i], #[trigger] s[j])
}

/// Inserts `x` at its place in a strictly sorted list, unless it is there already.
pub fn insert_sorted(v: &mut Vec<Vec<char>>, x: Vec<char>)
    requires
        strictly_sorted(views(old(v)@)),
    ensures
        strictly_sorted(views(final(v)@)),
        forall|m: Seq<char>|
            #[trigger] views(final(v)@).contains(m) <==> (views(old(v)@).contains(m) || m == x@),
{
    let ghost old_v = views(v@);
    let mut k: usize = 0;
    while k < v.len() && lex_less(v[k].as_slice(), x.as_slice())
        invariant
            k <= v@.len(),
            views(v@) == old_v,
            forall|j: int| 0 <= j < k ==> lex_lt(#[trigger] old_v[j], x@),
        decreases v@.len() - k,
    {
        k = k + 1;
    }
    if k < v.len() && same_text(v[k].as_slice(), x.as_slice()) {
        assert(old_v[k as int] == x@);
        assert forall|m: Seq<char>| #[trigger] views(v@).contains(m) <==> (old_v.contains(m) || m
            == x@) by {
            if m == x@ {
                assert(views(v@)[k as int] == m);
            }
        }
        return;
    }
    proof {
        if k < v@.len() {
            assert(!lex_lt(old_v[k as int], x@));
            lemma_lex_total(old_v[k as int], x@);
            assert(lex_lt(x@, old_v[k as int]));
        }
    }
    v.insert(k, x);
    proof {
        let nv = views(v@);
        assert(nv =~= old_v.insert(k as int, x@));
        assert forall|i: int, j: int| 0 <= i < j < nv.len() implies lex_lt(
            #[trigger] nv[i],
            #[trigger] nv[j],
        ) by {
            if j < k {
            } else if i < k && j == k {
            } else if i < k {
                assert(lex_lt(old_v[i], x@));
                assert(lex_lt(x@, old_v[k as int]));
                lemma_lex_transitive(old_v[i], x@, old_v[k as int]);
                if j - 1 > k {
                    assert(lex_lt(old_v[k as int], old_v[j - 1]));
                    lemma_lex_transitive(old_v[i], old_v[k as int], old_v[j - 1]);
                }
            } else if i == k {
                if j - 1 > k {
                    assert(lex_lt(old_v[k as int], old_v[j - 1]));
                    lemma_lex_transitive(x@, old_v[k as int], old_v[j - 1]);
                }
            } else {
                assert(nv[i] == old_v[i - 1]);
                assert(nv[j] == old_v[j - 1]);
            }
        }
        assert forall|m: Seq<char>| #[trigger] nv.contains(m) <==> (old_v.contains(m) || m
            == x@) by {
            if nv.contains(m) {
                let i = choose|i: int| 0 <= i < nv.len() && nv[i] == m;
                if i < k {
                    assert(old_v[i] == m);
                } else if i > k {
                    assert(old_v[i - 1] == m);
                }
            }
            if old_v.contains(m) {
                let i = choose|i: int| 0 <= i < old_v.len() && old_v[i] == m;
                if i < k {
                    assert(nv[i] == m);
                } else {
                    assert(nv[i + 1] == m);
                }
            }
            if m == x@ {
                assert(nv[k as int] == m);
            }
        }
    }
}

/// The elements of `s`, sorted and without duplicates.
pub open spec fn sorted_set(s: Seq<Seq<char>>) -> Seq<Seq<char>> {
    choose|r: Seq<Seq<char>>|
        strictly_sorted(r) && forall|m: Seq<char>| #[trigger] r.contains(m) <==> s.contains(m)
}

/// The messages of `msgs`, sorted and without duplicates.
pub fn sorted_unique(msgs: &Vec<Vec<char>>) -> (r: Vec<Vec<char>>)
    ensures
        strictly_sorted(views(r@)),
        forall|m: Seq<char>| #[trigger] views(r@).contains(m) <==> views(msgs@).contains(m),
        views(r@) == sorted_set(views(msgs@)),
{
    let mut r: Vec<Vec<char>> = Vec::new();
    let mut k: usize = 0;
    while k < msgs.len()
        invariant
            k <= msgs@.len(),
            strictly_sorted(views(r@)),
            forall|m: Seq<char>| #[trigger]
                views(r@).contains(m) <==> views(msgs@).subrange(0, k as int).contains(m),
        decreases msgs@.len() - k,
    {
        let item = crate::chars::slice_of(msgs[k].as_slice(), 0, msgs[k].len());
        proof {
            assert(msgs@[k as int]@.subrange(0, msgs@[k as int]@.len() as int) =~= msgs@[k as int]@);
        }
        let ghost before = views(r@);
        insert_sorted(&mut r, item);
        proof {
            assert forall|m: Seq<char>| #[trigger]
                views(r@).contains(m) <==> views(msgs@).subrange(0, k + 1).contains(m) by {
                let p = views(msgs@).subrange(0, k as int);
                let q = views(msgs@).subrange(0, k + 1);
                assert(q =~= p.push(views(msgs@)[k as int]));
                assert(views(r@).contains(m) <==> (before.contains(m) || m == views(msgs@)[k as int]));
                assert(before.contains(m) <==> p.contains(m));
                if m == views(msgs@)[k as int] {
                    assert(q[k as int] == m);
                }
                if p.contains(m) {
                    let i = choose|i: int| 0 <= i < p.len() && p[i] == m;
                    assert(q[i] == m);
                }
                if q.contains(m) {
                    let i = choose|i: int| 0 <= i < q.len() && q[i] == m;
                    if i < k {
                        assert(p[i] == m);
                    }
                }
            }
        }
        k = k + 1;
    }
    assert(views(msgs@).subrange(0, k as int) =~= views(msgs@));
    proof {
        let c = sorted_set(views(msgs@));
        assert(strictly_sorted(views(r@)) && forall|m: Seq<char>| #[trigger]
            views(r@).contains(m) <==> views(msgs@).contains(m));
        lemma_sorted_unique_determined(views(r@), c);
    }
    r
}

/// A strictly sorted list is the only one of its elements: two strictly sorted
/// lists that hold the same messages are equal.
pub proof fn lemma_sorted_unique_determined(a: Seq<Seq<char>>, b: Seq<Seq<char>>)
    requires
        strictly_sorted(a),
        strictly_sorted(b),
        forall|m: Seq<char>| #![trigger a.contains(m)] #![trigger b.contains(m)] a.contains(m) <==> b.contains(m),
    ensures
        a == b,
    decreases a.len(),
{
    if a.len() == 0 {
        if b.len() > 0 {
            assert(b.contains(b[0]));
        }
        assert(a =~= b);
    } else if b.len() == 0 {
        assert(a.contains(a[0]));
    } else {
        let x = a[0];
        let y = b[0];
        assert(a.contains(x));
        assert(b.contains(y));
        let i = choose|i: int| 0 <= i < b.len() && b[i] == x;
        let j = choose|j: int| 0 <= j < a.len() && a[j] == y;
        if x != y {
            if i > 0 {
                assert(lex_lt(y, x));
            }
            if j > 0 {
                assert(lex_lt(x, y));
            }
            if i > 0 && j > 0 {
                lemma_lex_asymmetric(y, x);
            }
        }
        assert(x == y);
        let a1 = a.drop_first();
        let b1 = b.drop_first();
        assert forall|m: Seq<char>| #[trigger] a1.contains(m) <==> b1.contains(m) by {
            if a1.contains(m) {
                let p = choose|p: int| 0 <= p < a1.len() && a1[p] == m;
                assert(a[p + 1] == m);
                assert(lex_lt(x, m));
                lemma_lex_irreflexive(m);
                assert(b.contains(m));
                let q = choose|q: int| 0 <= q < b.len() && b[q] == m;
                assert(q != 0);
                assert(b1[q - 1] == m);
            }
            if b1.contains(m) {
                let p = choose|p: int| 0 <= p < b1.len() && b1[p] == m;
                assert(b[p + 1] == m);
                assert(lex_lt(y, m));
                lemma_lex_irreflexive(m);
                assert(a.contains(m));
                let q = choose|q: int| 0 <= q < a.len() && a[q] == m;
                assert(q != 0);
                assert(a1[q - 1] == m);
            }
        }
        assert(strictly_sorted(a1)) by {
            assert forall|i: int, j: int| 0 <= i < j < a1.len() implies lex_lt(
                #[trigger] a1[i],
                #[trigger] a1[j],
            ) by {
                assert(a1[i] == a[i + 1]);
                assert(a1[j] == a[j + 1]);
            }
        }
        assert(strictly_sorted(b1)) by {
            assert forall|i: int, j: int| 0 <= i < j < b1.len() implies lex_lt(
                #[trigger] b1[i],
                #[trigger] b1[j],
            ) by {
                assert(b1[i] == b[i + 1]);
                assert(b1[j] == b[j + 1]);
            }
        }
        lemma_sorted_unique_determined(a1, b1);
        assert(a =~= b) by {
            assert forall|k: int| 0 <= k < a.len() implies a[k] == b[k] by {
                if k > 0 {
                    assert(a[k] == a1[k - 1]);
                    assert(b[k] == b1[k - 1]);
                }
            }
        }
    }
}

// ---------------------------------------------------------------------------
// Paths
// ---------------------------------------------------------------------------

/// `a[i..]` sorts strictly before `b[i..]` as paths, given that the components
/// before `i` agree: components compare by name, and a path sorts before every
/// path below it.
pub open spec fn path_lt_at(a: Seq<Seq<char>>, b: Seq<Seq<char>>, i: nat) -> bool
    decreases a.len() - i,
{
    if i >= a.len() {
        i < b.len()
    } else if i >= b.len() {
        false
    } else if a[i as int] != b[i as int] {
        lex_lt(a[i as int], b[i as int])
    } else {
        path_lt_at(a, b, i + 1)
    }
}

/// The order of a depth-first walk that visits siblings by name: a directory
/// comes before everything below it, and siblings in name order.
pub open spec fn path_lt(a: Seq<Seq<char>>, b: Seq<Seq<char>>) -> bool {
    path_lt_at(a, b, 0)
}

proof fn lemma_path_irreflexive_at(a: Seq<Seq<char>>, i: nat)
    ensures
        !path_lt_at(a, a, i),
    decreases a.len() - i,
{
    if i < a.len() {
        lemma_path_irreflexive_at(a, i + 1);
    }
}

proof fn lemma_path_transitive_at(a: Seq<Seq<char>>, b: Seq<Seq<char>>, c: Seq<Seq<char>>, i: nat)
    requires
        path_lt_at(a, b, i),
        path_lt_at(b, c, i),
    ensures
        path_lt_at(a, c, i),
    decreases a.len() - i,
{
    if i < a.len() && i < b.len() && i < c.len() {
        let (x, y, z) = (a[i as int], b[i as int], c[i as int]);
        if x != y && y != z {
            lemma_lex_transitive(x, y, z);
            if x == z {
                lemma_lex_irreflexive(x);
            }
        } else if x != y {
        } else if y != z {
        } else {
            lemma_path_transitive_at(a, b, c, i + 1);
        }
    }
}

proof fn lemma_path_total_at(a: Seq<Seq<char>>, b: Seq<Seq<char>>, i: nat)
    requires
        i <= a.len(),
        i <= b.len(),
        !path_lt_at(a, b, i),
        !path_lt_at(b, a, i),
    ensures
        a.len() == b.len(),
        forall|k: int| i <= k < a.len() ==> a[k] == b[k],
    decreases a.len() - i,
{
    if i < a.len() && i < b.len() {
        if a[i as int] != b[i as int] {
            lemma_lex_total(a[i as int], b[i as int]);
        } else {
            lemma_path_total_at(a, b, i + 1);
        }
    }
}

pub proof fn lemma_path_irreflexive(a: Seq<Seq<char>>)
    ensures
        !path_lt(a, a),
{
    lemma_path_irreflexive_at(a, 0);
}

pub proof fn lemma_path_transitive(a: Seq<Seq<char>>, b: Seq<Seq<char>>, c: Seq<Seq<char>>)
    requires
        path_lt(a, b),
        path_lt(b, c),
    ensures
        path_lt(a, c),
{
    lemma_path_transitive_at(a, b, c, 0);
}

pub proof fn lemma_path_total(a: Seq<Seq<char>>, b: Seq<Seq<char>>)
    requires
        a != b,
    ensures
        path_lt(a, b) || path_lt(b, a),
{
    if !path_lt(a, b) && !path_lt(b, a) {
        lemma_path_total_at(a, b, 0);
        assert(a =~= b);
    }
}

pub fn path_less(a: &Vec<Vec<char>>, b: &Vec<Vec<char>>) -> (r: bool)
    ensures
        r == path_lt(views(a@), views(b@)),
{
    let ghost (x, y) = (views(a@), views(b@));
    let mut i: usize = 0;
    while i < a.len() && i < b.len() && same_text(a[i].as_slice(), b[i].as_slice())
        invariant
            i <= a@.len(),
            i <= b@.len(),
            x == views(a@),
            y == views(b@),
            path_lt(x, y) == path_lt_at(x, y, i as nat),
        decreases a@.len() - i,
    {
        i = i + 1;
    }
    if i >= a.len() {
        i < b.len()
    } else if i >= b.len() {
        false
    } else {
        lex_less(a[i].as_slice(), b[i].as_slice())
    }
}

/// `x` put into its place in the strictly sorted `r`, unless it is there.
pub open spec fn insert_spec(r: Seq<Seq<char>>, x: Seq<char>) -> Seq<Seq<char>>
    decreases r.len(),
{
    if r.len() == 0 {
        seq![x]
    } else if lex_lt(r.last(), x) {
        r.push(x)
    } else if r.last() == x {
        r
    } else {
        insert_spec(r.drop_last(), x).push(r.last())
    }
}

pub open spec fn sort_spec(s: Seq<Seq<char>>) -> Seq<Seq<char>>
    decreases s.len(),
{
    if s.len() == 0 {
        seq![]
    } else {
        insert_spec(sort_spec(s.drop_last()), s.last())
    }
}

proof fn lemma_insert_spec(r: Seq<Seq<char>>, x: Seq<char>)
    requires
        strictly_sorted(r),
    ensures
        strictly_sorted(insert_spec(r, x)),
        forall|m: Seq<char>| #[trigger] insert_spec(r, x).contains(m) <==> (r.contains(m) || m == x),
    decreases r.len(),
{
    let res = insert_spec(r, x);
    if r.len() == 0 {
        assert forall|m: Seq<char>| #[trigger] res.contains(m) <==> (r.contains(m) || m == x) by {
            if res.contains(m) {
                let k = choose|k: int| 0 <= k < res.len() && res[k] == m;
                assert(k == 0);
            }
            if m == x {
                assert(res[0] == m);
            }
        }
    } else {
        let l = r.last();
        let init = r.drop_last();
        assert(strictly_sorted(init)) by {
            assert forall|i: int, j: int| 0 <= i < j < init.len() implies lex_lt(
                #[trigger] init[i],
                #[trigger] init[j],
            ) by {
                assert(init[i] == r[i] && init[j] == r[j]);
            }
        }
        assert forall|m: Seq<char>| #[trigger] r.contains(m) <==> (init.contains(m) || m == l) by {
            assert(r =~= init.push(l));
        }
        if lex_lt(l, x) {
            assert(res == r.push(x));
            assert forall|i: int, j: int| 0 <= i < j < res.len() implies lex_lt(
                #[trigger] res[i],
                #[trigger] res[j],
            ) by {
                if j == r.len() {
                    if i < r.len() - 1 {
                        assert(lex_lt(r[i], r[r.len() - 1]));
                        lemma_lex_transitive(r[i], l, x);
                    }
                } else {
                    assert(res[i] == r[i] && res[j] == r[j]);
                }
            }
            assert forall|m: Seq<char>| #[trigger] res.contains(m) <==> (r.contains(m) || m == x) by {
                if res.contains(m) {
                    let k = choose|k: int| 0 <= k < res.len() && res[k] == m;
                    if k < r.len() {
                        assert(r[k] == m);
                    }
                }
                if r.contains(m) {
                    let k = choose|k: int| 0 <= k < r.len() && r[k] == m;
                    assert(res[k] == m);
                }
                if m == x {
                    assert(res[r.len() as int] == m);
                }
            }
        } else if l == x {
            assert(r.contains(l));
        } else {
            lemma_lex_total(l, x);
            lemma_insert_spec(init, x);
            let inner = insert_spec(init, x);
            assert(res == inner.push(l));
            assert forall|m: Seq<char>| #[trigger] res.contains(m) <==> (inner.contains(m) || m == l) by {
                if res.contains(m) {
                    let k = choose|k: int| 0 <= k < res.len() && res[k] == m;
                    if k < inner.len() {
                        assert(inner[k] == m);
                    }
                }
                if inner.contains(m) {
                    let k = choose|k: int| 0 <= k < inner.len() && inner[k] == m;
                    assert(res[k] == m);
                }
                if m == l {
                    assert(res[inner.len() as int] == m);
                }
            }
            assert forall|i: int, j: int| 0 <= i < j < res.len() implies lex_lt(
                #[trigger] res[i],
                #[trigger] res[j],
            ) by {
                if j == inner.len() {
                    let y = res[i];
                    assert(inner[i] == y);
                    assert(inner.contains(y));
                    if y != x {
                        assert(init.contains(y));
                        let k = choose|k: int| 0 <= k < init.len() && init[k] == y;
                        assert(r[k] == y);
                        assert(lex_lt(r[k], r[r.len() - 1]));
                    }
                } else {
                    assert(res[i] == inner[i] && res[j] == inner[j]);
                }
            }
        }
    }
}

proof fn lemma_sort_spec(s: Seq<Seq<char>>)
    ensures
        strictly_sorted(sort_spec(s)),
        forall|m: Seq<char>| #[trigger] sort_spec(s).contains(m) <==> s.contains(m),
    decreases s.len(),
{
    if s.len() > 0 {
        lemma_sort_spec(s.drop_last());
        lemma_insert_spec(sort_spec(s.drop_last()), s.last());
        assert forall|m: Seq<char>| #[trigger] s.contains(m) <==> (s.drop_last().contains(m) || m
            == s.last()) by {
            assert(s =~= s.drop_last().push(s.last()));
        }
    }
}

/// `sorted_set(s)` is strictly sorted and holds exactly the elements of `s`.
pub proof fn lemma_sorted_set(s: Seq<Seq<char>>)
    ensures
        strictly_sorted(sorted_set(s)),
        forall|m: Seq<char>| #[trigger] sorted_set(s).contains(m) <==> s.contains(m),
{
    lemma_sort_spec(s);
    let w = sort_spec(s);
    assert(strictly_sorted(w) && forall|m: Seq<char>| #[trigger] w.contains(m) <==> s.contains(m));
}

/// Lists that hold the same elements have the same sorted set.
pub proof fn lemma_sorted_set_same(s1: Seq<Seq<char>>, s2: Seq<Seq<char>>)
    requires
        forall|m: Seq<char>| #![trigger s1.contains(m)] #![trigger s2.contains(m)] s1.contains(m) <==> s2.contains(m),
    ensures
        sorted_set(s1) == sorted_set(s2),
{
    lemma_sorted_set(s1);
    lemma_sorted_set(s2);
    let (a, b) = (sorted_set(s1), sorted_set(s2));
    assert forall|m: Seq<char>| #![trigger a.contains(m)] #![trigger b.contains(m)] a.contains(m) <==> b.contains(m) by {
        assert(a.contains(m) <==> s1.contains(m));
        assert(b.contains(m) <==> s2.contains(m));
    }
    lemma_sorted_unique_determined(a, b);
}

} // verus!
