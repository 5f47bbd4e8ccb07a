//! The order in which the repository is walked: depth first, siblings in name
//! order.  Ordering the entries by path gives exactly that order, whatever
//! order the snapshot lists them in.

use vstd::prelude::*;
use crate::order::{lemma_path_irreflexive, lemma_path_total, lemma_path_transitive, path_less, path_lt};
use crate::repo::{path_of, Entry};

verus! {

/// Inserts entry `i` into the walk order `ord`, after every entry whose path
/// does not sort after its own.
pub open spec fn walk_insert(es: Seq<Entry>, ord: Seq<usize>, i: usize) -> Seq<usize>
    decreases ord.len(),
{
    if ord.len() == 0 {
        seq![i]
    } else if path_lt(path_of(es[i as int]), path_of(es[ord.last() as int])) {
        walk_insert(es, ord.drop_last(), i).push(ord.last())
    } else {
        ord.push(i)
    }
}

/// The walk order of the first `n` entries.
pub open spec fn walk_order_upto(es: Seq<Entry>, n: nat) -> Seq<usize>
    decreases n,
{
    if n == 0 {
        seq![]
    } else {
        walk_insert(es, walk_order_upto(es, (n - 1) as nat), (n - 1) as usize)
    }
}

/// The indices of the entries in walk order: by path, and entries that share
/// a path in the order they are listed.
pub open spec fn walk_order(es: Seq<Entry>) -> Seq<usize> {
    walk_order_upto(es, es.len())
}

/// The entries at the indices `ord`, in that order.
pub open spec fn entries_at(es: Seq<Entry>, ord: Seq<usize>) -> Seq<Entry> {
    ord.map_values(|i: usize| es[i as int])
}

/// The entries in walk order.
pub open spec fn walk_entries(es: Seq<Entry>) -> Seq<Entry> {
    entries_at(es, walk_order(es))
}

pub open spec fn no_repeats(s: Seq<usize>) -> bool {
    forall|a: int, b: int| 0 <= a < b < s.len() ==> #[trigger] s[a] != #[trigger] s[b]
}

/// No entry sorts after a later one.
pub open spec fn walk_sorted(es: Seq<Entry>, s: Seq<usize>) -> bool {
    forall|a: int, b: int|
        0 <= a < b < s.len() ==> !path_lt(
            path_of(es[#[trigger] s[b] as int]),
            path_of(es[#[trigger] s[a] as int]),
        )
}

/// No two entries share a path, as in a file system.
pub open spec fn unique_paths(es: Seq<Entry>) -> bool {
    forall|a: int, b: int|
        0 <= a < es.len() && 0 <= b < es.len() && a != b ==> path_of(#[trigger] es[a]) != path_of(
            #[trigger] es[b],
        )
}

/// Each path sorts strictly before every later one.
pub open spec fn strictly_path_sorted(ps: Seq<Seq<Seq<char>>>) -> bool {
    forall|a: int, b: int| 0 <= a < b < ps.len() ==> path_lt(#[trigger] ps[a], #[trigger] ps[b])
}

proof fn lemma_path_asymmetric(a: Seq<Seq<char>>, b: Seq<Seq<char>>)
    requires
        path_lt(a, b),
    ensures
        !path_lt(b, a),
{
    if path_lt(b, a) {
        lemma_path_transitive(a, b, a);
        lemma_path_irreflexive(a);
    }
}

proof fn lemma_walk_insert(es: Seq<Entry>, ord: Seq<usize>, i: usize)
    requires
        i < es.len(),
        forall|k: int| 0 <= k < ord.len() ==> #[trigger] ord[k] < es.len(),
        no_repeats(ord),
        !ord.contains(i),
        walk_sorted(es, ord),
    ensures
        walk_insert(es, ord, i).len() == ord.len() + 1,
        forall|x: usize| #[trigger]
            walk_insert(es, ord, i).contains(x) <==> (ord.contains(x) || x == i),
        no_repeats(walk_insert(es, ord, i)),
        walk_sorted(es, walk_insert(es, ord, i)),
    decreases ord.len(),
{
    let r = walk_insert(es, ord, i);
    let pi = path_of(es[i as int]);
    if ord.len() == 0 {
        assert(r =~= seq![i]);
        assert forall|x: usize| #[trigger] r.contains(x) <==> (ord.contains(x) || x == i) by {
            if r.contains(x) {
                let k = choose|k: int| 0 <= k < r.len() && r[k] == x;
                assert(k == 0);
            }
            if x == i {
                assert(r[0] == x);
            }
        }
    } else {
        let last = ord.last();
        let pl = path_of(es[last as int]);
        let init = ord.drop_last();
        assert forall|k: int| 0 <= k < init.len() implies #[trigger] init[k] < es.len() by {
            assert(init[k] == ord[k]);
        }
        assert(no_repeats(init)) by {
            assert forall|a: int, b: int| 0 <= a < b < init.len() implies #[trigger] init[a]
                != #[trigger] init[b] by {
                assert(init[a] == ord[a] && init[b] == ord[b]);
            }
        }
        assert(walk_sorted(es, init)) by {
            assert forall|a: int, b: int| 0 <= a < b < init.len() implies !path_lt(
                path_of(es[#[trigger] init[b] as int]),
                path_of(es[#[trigger] init[a] as int]),
            ) by {
                assert(init[a] == ord[a] && init[b] == ord[b]);
            }
        }
        assert(!init.contains(i)) by {
            if init.contains(i) {
                let k = choose|k: int| 0 <= k < init.len() && init[k] == i;
                assert(ord[k] == i);
            }
        }
        assert(!init.contains(last)) by {
            if init.contains(last) {
                let k = choose|k: int| 0 <= k < init.len() && init[k] == last;
                assert(ord[k] == ord[ord.len() - 1]);
            }
        }
        assert(last != i) by {
            assert(ord[ord.len() - 1] == last);
        }
        assert(forall|x: usize| #[trigger] ord.contains(x) <==> (init.contains(x) || x == last)) by {
            assert(ord =~= init.push(last));
        }
        if path_lt(pi, pl) {
            lemma_walk_insert(es, init, i);
            let inner = walk_insert(es, init, i);
            assert(r == inner.push(last));
            assert forall|x: usize| #[trigger] r.contains(x) <==> (ord.contains(x) || x == i) by {
                assert(r.contains(x) <==> (inner.contains(x) || x == last)) by {
                    if r.contains(x) {
                        let k = choose|k: int| 0 <= k < r.len() && r[k] == x;
                        if k < inner.len() {
                            assert(inner[k] == x);
                        }
                    }
                    if inner.contains(x) {
                        let k = choose|k: int| 0 <= k < inner.len() && inner[k] == x;
                        assert(r[k] == x);
                    }
                    if x == last {
                        assert(r[inner.len() as int] == x);
                    }
                }
            }
            assert(no_repeats(r)) by {
                assert forall|a: int, b: int| 0 <= a < b < r.len() implies #[trigger] r[a]
                    != #[trigger] r[b] by {
                    if b == inner.len() {
                        assert(inner.contains(r[a]));
                        assert(r[b] == last);
                    } else {
                        assert(r[a] == inner[a] && r[b] == inner[b]);
                    }
                }
            }
            assert(walk_sorted(es, r)) by {
                assert forall|a: int, b: int| 0 <= a < b < r.len() implies !path_lt(
                    path_of(es[#[trigger] r[b] as int]),
                    path_of(es[#[trigger] r[a] as int]),
                ) by {
                    if b == inner.len() {
                        let x = r[a];
                        assert(inner[a] == x);
                        assert(inner.contains(x));
                        assert(r[b] == last);
                        if x == i {
                            lemma_path_asymmetric(pi, pl);
                        } else {
                            assert(init.contains(x));
                            let k = choose|k: int| 0 <= k < init.len() && init[k] == x;
                            assert(ord[k] == x);
                            assert(ord[ord.len() - 1] == last);
                        }
                    } else {
                        assert(r[a] == inner[a] && r[b] == inner[b]);
                    }
                }
            }
        } else {
            assert(r == ord.push(i));
            assert forall|x: usize| #[trigger] r.contains(x) <==> (ord.contains(x) || x == i) by {
                if r.contains(x) {
                    let k = choose|k: int| 0 <= k < r.len() && r[k] == x;
                    if k < ord.len() {
                        assert(ord[k] == x);
                    }
                }
                if ord.contains(x) {
                    let k = choose|k: int| 0 <= k < ord.len() && ord[k] == x;
                    assert(r[k] == x);
                }
                if x == i {
                    assert(r[ord.len() as int] == x);
                }
            }
            assert(no_repeats(r)) by {
                assert forall|a: int, b: int| 0 <= a < b < r.len() implies #[trigger] r[a]
                    != #[trigger] r[b] by {
                    if b == ord.len() {
                        assert(r[a] == ord[a]);
                        assert(ord.contains(ord[a]));
                    } else {
                        assert(r[a] == ord[a] && r[b] == ord[b]);
                    }
                }
            }
            assert(walk_sorted(es, r)) by {
                assert forall|a: int, b: int| 0 <= a < b < r.len() implies !path_lt(
                    path_of(es[#[trigger] r[b] as int]),
                    path_of(es[#[trigger] r[a] as int]),
                ) by {
                    if b == ord.len() {
                        let pa = path_of(es[ord[a] as int]);
                        assert(r[a] == ord[a]);
                        if path_lt(pi, pa) {
                            if a < ord.len() - 1 {
                                assert(ord[ord.len() - 1] == last);
                                assert(!path_lt(pl, pa));
                                if pl != pa {
                                    lemma_path_total(pl, pa);
                                    lemma_path_transitive(pi, pa, pl);
                                }
                            }
                        }
                    } else {
                        assert(r[a] == ord[a] && r[b] == ord[b]);
                    }
                }
            }
        }
    }
}

/// The walk order of the first `n` entries holds each of them once, sorted.
pub proof fn lemma_walk_order_upto(es: Seq<Entry>, n: nat)
    requires
        n <= es.len(),
        es.len() <= usize::MAX,
    ensures
        walk_order_upto(es, n).len() == n,
        forall|x: usize| #[trigger] walk_order_upto(es, n).contains(x) <==> x < n,
        forall|k: int| 0 <= k < n ==> #[trigger] walk_order_upto(es, n)[k] < n,
        no_repeats(walk_order_upto(es, n)),
        walk_sorted(es, walk_order_upto(es, n)),
    decreases n,
{
    let r = walk_order_upto(es, n);
    if n == 0 {
        assert forall|x: usize| #[trigger] r.contains(x) <==> x < n by {
            if r.contains(x) {
                let k = choose|k: int| 0 <= k < r.len() && r[k] == x;
            }
        }
    } else {
        let m = (n - 1) as nat;
        lemma_walk_order_upto(es, m);
        let prev = walk_order_upto(es, m);
        assert forall|k: int| 0 <= k < prev.len() implies #[trigger] prev[k] < es.len() by {
            assert(prev.contains(prev[k]));
        }
        assert(m as usize == m);
        assert(!prev.contains(m as usize));
        lemma_walk_insert(es, prev, m as usize);
        assert forall|k: int| 0 <= k < n implies #[trigger] r[k] < n by {
            assert(r.contains(r[k]));
        }
    }
}

/// Computes the walk order of the entries.
pub fn walk_order_exec(es: &Vec<Entry>) -> (r: Vec<usize>)
    ensures
        r@ == walk_order(es@),
        forall|k: int| 0 <= k < r@.len() ==> #[trigger] r@[k] < es@.len(),
{
    let mut ord: Vec<usize> = Vec::new();
    let mut i: usize = 0;
    while i < es.len()
        invariant
            i <= es@.len(),
            ord@ == walk_order_upto(es@, i as nat),
        decreases es@.len() - i,
    {
        proof {
            lemma_walk_order_upto(es@, i as nat);
        }
        let ghost base = ord@;
        let mut j: usize = ord.len();
        proof {
            assert(base.subrange(0, j as int) =~= base);
            assert(walk_insert(es@, base, i) =~= walk_insert(es@, base.subrange(0, j as int), i)
                + base.subrange(j as int, base.len() as int));
        }
        while j > 0 && path_less(&es[i].path, &es[ord[j - 1]].path)
            invariant
                i < es@.len(),
                j <= base.len(),
                ord@ == base,
                base.len() == i,
                forall|k: int| 0 <= k < base.len() ==> #[trigger] base[k] < i,
                walk_insert(es@, base, i) == walk_insert(es@, base.subrange(0, j as int), i)
                    + base.subrange(j as int, base.len() as int),
            decreases j,
        {
            proof {
                let s = base.subrange(0, j as int);
                let t = base.subrange(0, j - 1);
                assert(s.drop_last() =~= t);
                assert(s.last() == base[j - 1]);
                assert(walk_insert(es@, s, i) == walk_insert(es@, t, i).push(base[j - 1]));
                assert(walk_insert(es@, t, i).push(base[j - 1]) + base.subrange(
                    j as int,
                    base.len() as int,
                ) =~= walk_insert(es@, t, i) + base.subrange(j - 1, base.len() as int));
            }
            j = j - 1;
        }
        proof {
            let s = base.subrange(0, j as int);
            if j > 0 {
                assert(s.last() == base[j - 1]);
            }
            assert(walk_insert(es@, s, i) == s.push(i));
        }
        ord.insert(j, i);
        proof {
            assert(ord@ =~= base.subrange(0, j as int).push(i) + base.subrange(
                j as int,
                base.len() as int,
            ));
            assert(walk_order_upto(es@, (i + 1) as nat) == walk_insert(es@, base, i));
        }
        i = i + 1;
    }
    proof {
        lemma_walk_order_upto(es@, i as nat);
    }
    ord
}

/// Two strictly path-sorted lists that hold the same paths are equal.
pub proof fn lemma_path_sorted_determined(a: Seq<Seq<Seq<char>>>, b: Seq<Seq<Seq<char>>>)
    requires
        strictly_path_sorted(a),
        strictly_path_sorted(b),
        forall|m: Seq<Seq<char>>| #![trigger a.contains(m)] #![trigger b.contains(m)] a.contains(m) <==> b.contains(m),
    ensures
        a == b,
    decreases a.len(),
{
    if a.len() == 0 {
        if b.len() > 0 {
            assert(b.contains(b[0]));
        }
        assert(a =~= b);
    } else if b.len() == 0 {
        assert(a.contains(a[0]));
    } else {
        let x = a[0];
        let y = b[0];
        assert(a.contains(x));
        assert(b.contains(y));
        let i = choose|i: int| 0 <= i < b.len() && b[i] == x;
        let j = choose|j: int| 0 <= j < a.len() && a[j] == y;
        if x != y {
            if i > 0 {
                assert(path_lt(y, x));
            }
            if j > 0 {
                assert(path_lt(x, y));
            }
            if i > 0 && j > 0 {
                lemma_path_asymmetric(y, x);
            }
        }
        assert(x == y);
        let a1 = a.drop_first();
        let b1 = b.drop_first();
        assert forall|m: Seq<Seq<char>>| #[trigger] a1.contains(m) <==> b1.contains(m) by {
            if a1.contains(m) {
                let p = choose|p: int| 0 <= p < a1.len() && a1[p] == m;
                assert(a[p + 1] == m);
                assert(path_lt(x, m));
                lemma_path_irreflexive(m);
                assert(b.contains(m));
                let q = choose|q: int| 0 <= q < b.len() && b[q] == m;
                assert(q != 0);
                assert(b1[q - 1] == m);
            }
            if b1.contains(m) {
                let p = choose|p: int| 0 <= p < b1.len() && b1[p] == m;
                assert(b[p + 1] == m);
                assert(path_lt(y, m));
                lemma_path_irreflexive(m);
                assert(a.contains(m));
                let q = choose|q: int| 0 <= q < a.len() && a[q] == m;
                assert(q != 0);
                assert(a1[q - 1] == m);
            }
        }
        assert(strictly_path_sorted(a1)) by {
            assert forall|i: int, j: int| 0 <= i < j < a1.len() implies path_lt(
                #[trigger] a1[i],
                #[trigger] a1[j],
            ) by {
                assert(a1[i] == a[i + 1]);
                assert(a1[j] == a[j + 1]);
            }
        }
        assert(strictly_path_sorted(b1)) by {
            assert forall|i: int, j: int| 0 <= i < j < b1.len() implies path_lt(
                #[trigger] b1[i],
                #[trigger] b1[j],
            ) by {
                assert(b1[i] == b[i + 1]);
                assert(b1[j] == b[j + 1]);
            }
        }
        lemma_path_sorted_determined(a1, b1);
        assert(a =~= b) by {
            assert forall|k: int| 0 <= k < a.len() implies a[k] == b[k] by {
                if k > 0 {
                    assert(a[k] == a1[k - 1]);
                    assert(b[k] == b1[k - 1]);
                }
            }
        }
    }
}

} // verus!
