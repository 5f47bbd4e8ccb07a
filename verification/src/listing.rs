//! Why the order in which a snapshot lists its entries does not matter: two
//! snapshots that hold the same entries, one per path, and agree on
//! everything else, report the same messages.

use vstd::prelude::*;
use crate::repo::{
    find_entry, inspect_components, inspect_text, inspect_walk, listing_error_at, path_of,
    resolve_link, resolve_walk, root_listing, Entry, InspectionView, Kind, Repository,
};
use crate::scan::{found_file, found_kind, read_msgs, read_result};
use crate::files::{
    active_inventory_msgs, below_msgs, below_paths, child_msgs, child_path, children_msgs,
    children_paths, exact_inventory_msgs, inventory_msgs, is_child, properties_entries_msgs, properties_file_msgs, properties_msgs, require_msgs,
    workflow_file_msgs, workflows_msgs,
};
use crate::order::{lemma_path_total, path_lt, sorted_set};
use crate::workflow::set_debug;
use crate::validate::{repository_msgs, state_msgs};
use crate::scan::{
    lemma_walked_files_exact, lemma_walked_files_in_order, listed, open_dir, text_files_msgs,
    walk_entries_msgs, walk_entry_msgs, walked_file, walked_file_msgs, walked_files,
    walked_files_msgs,
};
use crate::walk::{
    lemma_path_sorted_determined, lemma_walk_order_upto, strictly_path_sorted, unique_paths,
    walk_entries, walk_order,
};

verus! {

/// The two entry lists hold the same entries, one per path.
pub open spec fn same_entries(es1: Seq<Entry>, es2: Seq<Entry>) -> bool {
    &&& es1.len() <= usize::MAX
    &&& es2.len() <= usize::MAX
    &&& unique_paths(es1)
    &&& unique_paths(es2)
    &&& forall|e: Entry| #![trigger es1.contains(e)] #![trigger es2.contains(e)]
        es1.contains(e) <==> es2.contains(e)
}

/// Two snapshots that differ at most in the order they list their entries.
pub open spec fn same_but_order(r1: Repository, r2: Repository) -> bool {
    &&& same_entries(r1.entries@, r2.entries@)
    &&& r1.root_display == r2.root_display
    &&& r1.root_error == r2.root_error
    &&& r1.root_listing_error == r2.root_listing_error
    &&& r1.state_before == r2.state_before
    &&& r1.state_after == r2.state_after
}

/// What an inspection found, with the entry in place of its position.
pub enum Found {
    Root,
    At(Entry),
    Nowhere,
    Missing,
    Symlink,
    Escapes,
    Failed(Seq<char>),
}

pub open spec fn erase(es: Seq<Entry>, v: InspectionView) -> Found {
    match v {
        InspectionView::Found(None) => Found::Root,
        InspectionView::Found(Some(i)) => if i < es.len() {
            Found::At(es[i as int])
        } else {
            Found::Nowhere
        },
        InspectionView::Missing => Found::Missing,
        InspectionView::Symlink => Found::Symlink,
        InspectionView::Escapes => Found::Escapes,
        InspectionView::Failed(e) => Found::Failed(e),
    }
}

/// With the same entries, every path finds the same entry, or none in both.
pub proof fn lemma_find_same(es1: Seq<Entry>, es2: Seq<Entry>, q: Seq<Seq<char>>)
    requires
        same_entries(es1, es2),
    ensures
        (find_entry(es1, q) < es1.len()) == (find_entry(es2, q) < es2.len()),
        find_entry(es1, q) < es1.len() ==> es1[find_entry(es1, q)] == es2[find_entry(es2, q)],
{
    crate::repo::lemma_find_entry(es1, q, 0);
    crate::repo::lemma_find_entry(es2, q, 0);
    let f1 = find_entry(es1, q);
    let f2 = find_entry(es2, q);
    if f1 < es1.len() {
        assert(es1.contains(es1[f1]));
        let k = choose|k: int| 0 <= k < es2.len() && es2[k] == es1[f1];
        assert(path_of(es2[k]) == q);
        assert(f2 <= k);
        if f2 != k {
            assert(path_of(es2[f2]) == path_of(es2[k]));
        }
    }
    if f2 < es2.len() {
        assert(es2.contains(es2[f2]));
        let k = choose|k: int| 0 <= k < es1.len() && es1[k] == es2[f2];
        assert(path_of(es1[k]) == q);
        assert(f1 <= k);
        if f1 != k {
            assert(path_of(es1[f1]) == path_of(es1[k]));
        }
    }
}

proof fn lemma_listing_error_same(
    es1: Seq<Entry>,
    es2: Seq<Entry>,
    rl: Option<Seq<char>>,
    cur: Seq<Seq<char>>,
)
    requires
        same_entries(es1, es2),
    ensures
        listing_error_at(es1, rl, cur) == listing_error_at(es2, rl, cur),
{
    lemma_find_same(es1, es2, cur);
}

proof fn lemma_inspect_walk_same(
    es1: Seq<Entry>,
    es2: Seq<Entry>,
    rl: Option<Seq<char>>,
    comps: Seq<Seq<char>>,
    k: int,
    cur: Seq<Seq<char>>,
)
    requires
        same_entries(es1, es2),
    ensures
        erase(es1, inspect_walk(es1, rl, comps, k, cur)) == erase(
            es2,
            inspect_walk(es2, rl, comps, k, cur),
        ),
    decreases comps.len() - k,
{
    if 0 <= k < comps.len() && comps[k] != ".."@ {
        let cand = cur.push(comps[k]);
        lemma_find_same(es1, es2, cand);
        lemma_listing_error_same(es1, es2, rl, cur);
        lemma_inspect_walk_same(es1, es2, rl, comps, k + 1, cand);
        crate::repo::lemma_find_entry(es1, cand, 0);
        crate::repo::lemma_find_entry(es2, cand, 0);
    }
}

proof fn lemma_resolve_walk_same(
    es1: Seq<Entry>,
    es2: Seq<Entry>,
    rl: Option<Seq<char>>,
    comps: Seq<Seq<char>>,
    k: int,
    cur: Seq<Seq<char>>,
)
    requires
        same_entries(es1, es2),
    ensures
        resolve_walk(es1, rl, comps, k, cur) == resolve_walk(es2, rl, comps, k, cur),
    decreases comps.len() - k,
{
    if 0 <= k < comps.len() {
        if comps[k] == ".."@ {
            if cur.len() > 0 {
                lemma_resolve_walk_same(es1, es2, rl, comps, k + 1, cur.drop_last());
            }
        } else {
            let cand = cur.push(comps[k]);
            lemma_find_same(es1, es2, cand);
            lemma_listing_error_same(es1, es2, rl, cur);
            lemma_resolve_walk_same(es1, es2, rl, comps, k + 1, cand);
        }
    }
}

pub proof fn lemma_inspect_same(r1: Repository, r2: Repository)
    requires
        same_but_order(r1, r2),
    ensures
        forall|s: Seq<char>|
            erase(r1.entries@, #[trigger] inspect_text(r1, s)) == erase(
                r2.entries@,
                inspect_text(r2, s),
            ),
        forall|c: Seq<Seq<char>>|
            erase(r1.entries@, #[trigger] inspect_components(r1, c)) == erase(
                r2.entries@,
                inspect_components(r2, c),
            ),
        forall|d: Seq<Seq<char>>, t: Seq<char>| #[trigger]
            resolve_link(r1, d, t) == resolve_link(r2, d, t),
{
    let (es1, es2) = (r1.entries@, r2.entries@);
    assert(root_listing(r1) == root_listing(r2));
    let rl = root_listing(r1);
    assert forall|s: Seq<char>|
        erase(es1, #[trigger] inspect_text(r1, s)) == erase(es2, inspect_text(r2, s)) by {
        let sc = crate::repo::components(s);
        lemma_inspect_walk_same(es1, es2, rl, sc, 0, seq![]);
        let rc = crate::repo::components(r1.root_display@);
        lemma_inspect_walk_same(
            es1,
            es2,
            rl,
            sc.subrange(rc.len() as int, sc.len() as int),
            0,
            seq![],
        );
    }
    assert forall|c: Seq<Seq<char>>|
        erase(es1, #[trigger] inspect_components(r1, c)) == erase(
            es2,
            inspect_components(r2, c),
        ) by {
        lemma_inspect_walk_same(es1, es2, rl, c, 0, seq![]);
    }
    assert forall|d: Seq<Seq<char>>, t: Seq<char>| #[trigger]
        resolve_link(r1, d, t) == resolve_link(r2, d, t) by {
        lemma_resolve_walk_same(es1, es2, rl, crate::repo::components(t), 0, d);
    }
}

/// Whatever reads an inspection reads the same of two that find the same.
pub proof fn lemma_found_same(r1: Repository, r2: Repository, a: InspectionView, b: InspectionView)
    requires
        erase(r1.entries@, a) == erase(r2.entries@, b),
    ensures
        found_kind(r1, a) == found_kind(r2, b),
        found_file(r1, a) == found_file(r2, b),
        read_result(r1, a) == read_result(r2, b),
        forall|rel: Seq<char>| #[trigger] read_msgs(r1, a, rel) == read_msgs(r2, b, rel),
        (a == InspectionView::Missing) == (b == InspectionView::Missing),
        crate::files::listable_dir(r1, a) == crate::files::listable_dir(r2, b) || r1.root_listing_error
            != r2.root_listing_error,
{
}

proof fn lemma_required_same(r1: Repository, r2: Repository)
    requires
        same_but_order(r1, r2),
    ensures
        crate::scan::required_msgs(r1) == crate::scan::required_msgs(r2),
{
    lemma_inspect_same(r1, r2);
    assert forall|l: Seq<char>| #[trigger] crate::scan::required_line_msgs(r1, l)
        == crate::scan::required_line_msgs(r2, l) by {
        let r = crate::chars::trim(l);
        lemma_found_same(r1, r2, inspect_text(r1, r), inspect_text(r2, r));
    }
    assert forall|f: Seq<char>| #[trigger] crate::scan::forbidden_msg(r1, f)
        == crate::scan::forbidden_msg(r2, f) by {
        lemma_found_same(r1, r2, inspect_text(r1, f), inspect_text(r2, f));
    }
    let m = "validation-required-files.txt"@;
    lemma_found_same(r1, r2, inspect_text(r1, m), inspect_text(r2, m));
    match read_result(r1, inspect_text(r1, m)) {
        Some(t) => {
            lemma_required_lines_same(r1, r2, crate::chars::lines(t));
            lemma_forbidden_same(r1, r2, crate::scan::forbidden_paths());
        },
        None => {},
    }
}

proof fn lemma_required_lines_same(r1: Repository, r2: Repository, ls: Seq<Seq<char>>)
    requires
        forall|l: Seq<char>| #[trigger] crate::scan::required_line_msgs(r1, l)
            == crate::scan::required_line_msgs(r2, l),
    ensures
        crate::scan::required_lines_msgs(r1, ls) == crate::scan::required_lines_msgs(r2, ls),
    decreases ls.len(),
{
    if ls.len() > 0 {
        lemma_required_lines_same(r1, r2, ls.drop_last());
        assert(crate::scan::required_line_msgs(r1, ls.last()) == crate::scan::required_line_msgs(
            r2,
            ls.last(),
        ));
    }
}

proof fn lemma_forbidden_same(r1: Repository, r2: Repository, fs: Seq<Seq<char>>)
    requires
        forall|f: Seq<char>| #[trigger] crate::scan::forbidden_msg(r1, f)
            == crate::scan::forbidden_msg(r2, f),
    ensures
        crate::scan::forbidden_msgs(r1, fs) == crate::scan::forbidden_msgs(r2, fs),
    decreases fs.len(),
{
    if fs.len() > 0 {
        lemma_forbidden_same(r1, r2, fs.drop_last());
        assert(crate::scan::forbidden_msg(r1, fs.last()) == crate::scan::forbidden_msg(r2, fs.last()));
    }
}

proof fn lemma_link_msgs_same(
    r1: Repository,
    r2: Repository,
    dir: Seq<Seq<char>>,
    rel: Seq<char>,
    ts: Seq<Seq<char>>,
)
    requires
        same_but_order(r1, r2),
    ensures
        crate::scan::link_msgs(r1, dir, rel, ts) == crate::scan::link_msgs(r2, dir, rel, ts),
    decreases ts.len(),
{
    lemma_inspect_same(r1, r2);
    if ts.len() > 0 {
        lemma_link_msgs_same(r1, r2, dir, rel, ts.drop_last());
        let t = ts.last();
        match crate::markdown::link_file_part(t) {
            Some(f) => {
                assert(resolve_link(r1, dir, crate::markdown::percent_decoded(f)) == resolve_link(
                    r2,
                    dir,
                    crate::markdown::percent_decoded(f),
                ));
            },
            None => {},
        }
        assert(crate::scan::link_msg(r1, dir, rel, t) == crate::scan::link_msg(r2, dir, rel, t));
    }
}

/// The text rules read the same of a text file in both snapshots.
pub proof fn lemma_text_file_same(r1: Repository, r2: Repository, c: Seq<Seq<char>>, rel: Seq<char>)
    requires
        same_but_order(r1, r2),
    ensures
        crate::scan::text_file_msgs(r1, c, rel) == crate::scan::text_file_msgs(r2, c, rel),
{
    lemma_inspect_same(r1, r2);
    let (a, b) = (inspect_components(r1, c), inspect_components(r2, c));
    assert(erase(r1.entries@, a) == erase(r2.entries@, b));
    lemma_found_same(r1, r2, a, b);
    match found_kind(r1, a) {
        Some(Kind::File { content: crate::repo::Content::Bytes(bytes), .. }) => {
            let t = vstd::utf8::decode_utf8(bytes@);
            if c.len() > 0 {
                lemma_link_msgs_same(r1, r2, c.drop_last(), rel, crate::markdown::link_targets(t));
            }
            assert(crate::scan::content_msgs(r1, c, rel, bytes@) == crate::scan::content_msgs(
                r2,
                c,
                rel,
                bytes@,
            ));
        },
        _ => {},
    }
}

pub proof fn lemma_listed_same(r1: Repository, r2: Repository)
    requires
        same_entries(r1.entries@, r2.entries@),
        r1.root_listing_error == r2.root_listing_error,
    ensures
        forall|e: Entry| #[trigger] listed(r1, e) == listed(r2, e),
{
    let (es1, es2) = (r1.entries@, r2.entries@);
    assert forall|e: Entry| #[trigger] listed(r1, e) == listed(r2, e) by {
        let p = path_of(e);
        assert forall|j: int| 1 <= j < p.len() implies open_dir(r1, #[trigger] p.subrange(0, j))
            == open_dir(r2, p.subrange(0, j)) by {
            lemma_find_same(es1, es2, p.subrange(0, j));
        }
    }
}

pub open spec fn entry_paths(w: Seq<Entry>) -> Seq<Seq<Seq<char>>> {
    w.map_values(|e: Entry| path_of(e))
}

proof fn lemma_walk_entries_facts(es: Seq<Entry>)
    requires
        es.len() <= usize::MAX,
        unique_paths(es),
    ensures
        walk_entries(es).len() == es.len(),
        forall|e: Entry| #[trigger] walk_entries(es).contains(e) <==> es.contains(e),
        strictly_path_sorted(entry_paths(walk_entries(es))),
{
    let ord = walk_order(es);
    let w = walk_entries(es);
    lemma_walk_order_upto(es, es.len());
    assert forall|e: Entry| #[trigger] w.contains(e) <==> es.contains(e) by {
        if w.contains(e) {
            let j = choose|j: int| 0 <= j < w.len() && w[j] == e;
            assert(ord.contains(ord[j]));
            assert(es[ord[j] as int] == e);
        }
        if es.contains(e) {
            let k = choose|k: int| 0 <= k < es.len() && es[k] == e;
            assert(ord.contains(k as usize));
            let j = choose|j: int| 0 <= j < ord.len() && ord[j] == k as usize;
            assert(w[j] == e);
        }
    }
    let ps = entry_paths(w);
    assert forall|a: int, b: int| 0 <= a < b < ps.len() implies path_lt(#[trigger] ps[a], #[trigger] ps[b]) by {
        assert(ord.contains(ord[a]) && ord.contains(ord[b]));
        assert(ord[a] != ord[b]);
        assert(!path_lt(path_of(es[ord[b] as int]), path_of(es[ord[a] as int])));
        assert(path_of(es[ord[a] as int]) != path_of(es[ord[b] as int]));
        lemma_path_total(ps[a], ps[b]);
    }
}

/// With the same entries, one per path, the walk visits the same entries in
/// the same order.
pub proof fn lemma_walk_entries_same(es1: Seq<Entry>, es2: Seq<Entry>)
    requires
        same_entries(es1, es2),
    ensures
        walk_entries(es1) == walk_entries(es2),
{
    lemma_walk_entries_facts(es1);
    lemma_walk_entries_facts(es2);
    let (w1, w2) = (walk_entries(es1), walk_entries(es2));
    let (p1, p2) = (entry_paths(w1), entry_paths(w2));
    assert forall|m: Seq<Seq<char>>| #[trigger] p1.contains(m) <==> p2.contains(m) by {
        if p1.contains(m) {
            let j = choose|j: int| 0 <= j < p1.len() && p1[j] == m;
            assert(w1.contains(w1[j]));
            assert(w2.contains(w1[j]));
            let k = choose|k: int| 0 <= k < w2.len() && w2[k] == w1[j];
            assert(p2[k] == m);
        }
        if p2.contains(m) {
            let j = choose|j: int| 0 <= j < p2.len() && p2[j] == m;
            assert(w2.contains(w2[j]));
            assert(w1.contains(w2[j]));
            let k = choose|k: int| 0 <= k < w1.len() && w1[k] == w2[j];
            assert(p1[k] == m);
        }
    }
    lemma_path_sorted_determined(p1, p2);
    assert forall|k: int| 0 <= k < w1.len() implies w1[k] == w2[k] by {
        assert(p1[k] == p2[k]);
        assert(w1.contains(w1[k]) && w2.contains(w2[k]));
        assert(es1.contains(w1[k]) && es1.contains(w2[k]));
        let a = choose|a: int| 0 <= a < es1.len() && es1[a] == w1[k];
        let b = choose|b: int| 0 <= b < es1.len() && es1[b] == w2[k];
        if a != b {
            assert(path_of(es1[a]) != path_of(es1[b]));
        }
    }
    assert(w1 =~= w2);
}

proof fn lemma_walk_entries_msgs_same(r1: Repository, r2: Repository, w: Seq<Entry>)
    requires
        forall|e: Entry| #[trigger] walk_entry_msgs(r1, e) == walk_entry_msgs(r2, e),
    ensures
        walk_entries_msgs(r1, w) == walk_entries_msgs(r2, w),
    decreases w.len(),
{
    if w.len() > 0 {
        lemma_walk_entries_msgs_same(r1, r2, w.drop_last());
        assert(walk_entry_msgs(r1, w.last()) == walk_entry_msgs(r2, w.last()));
    }
}

proof fn lemma_walked_files_msgs_same(r1: Repository, r2: Repository, fs: Seq<Seq<Seq<char>>>)
    requires
        forall|p: Seq<Seq<char>>| #[trigger] walked_file_msgs(r1, p) == walked_file_msgs(r2, p),
    ensures
        walked_files_msgs(r1, fs) == walked_files_msgs(r2, fs),
    decreases fs.len(),
{
    if fs.len() > 0 {
        lemma_walked_files_msgs_same(r1, r2, fs.drop_last());
        assert(walked_file_msgs(r1, fs.last()) == walked_file_msgs(r2, fs.last()));
    }
}

/// The walk does not depend on the listing order: the same files, in the same order.
pub proof fn lemma_walked_files_same(r1: Repository, r2: Repository)
    requires
        same_entries(r1.entries@, r2.entries@),
        r1.root_listing_error == r2.root_listing_error,
    ensures
        walked_files(r1) == walked_files(r2),
{
    let (es1, es2) = (r1.entries@, r2.entries@);
    lemma_listed_same(r1, r2);
    lemma_walked_files_exact(r1);
    lemma_walked_files_exact(r2);
    lemma_walked_files_in_order(r1);
    lemma_walked_files_in_order(r2);
    let (f1, f2) = (walked_files(r1), walked_files(r2));
    assert forall|m: Seq<Seq<char>>| #[trigger] f1.contains(m) <==> f2.contains(m) by {
        if f1.contains(m) {
            let k = choose|k: int| 0 <= k < es1.len() && walked_file(r1, #[trigger] es1[k]) && path_of(es1[k]) == m;
            assert(es1.contains(es1[k]));
            let k2 = choose|k2: int| 0 <= k2 < es2.len() && es2[k2] == es1[k];
            assert(listed(r1, es1[k]) == listed(r2, es1[k]));
            assert(walked_file(r2, es2[k2]));
        }
        if f2.contains(m) {
            let k = choose|k: int| 0 <= k < es2.len() && walked_file(r2, #[trigger] es2[k]) && path_of(es2[k]) == m;
            assert(es2.contains(es2[k]));
            let k1 = choose|k1: int| 0 <= k1 < es1.len() && es1[k1] == es2[k];
            assert(listed(r1, es1[k1]) == listed(r2, es1[k1]));
            assert(walked_file(r1, es1[k1]));
        }
    }
    lemma_path_sorted_determined(f1, f2);
}

proof fn lemma_text_files_same(r1: Repository, r2: Repository)
    requires
        same_but_order(r1, r2),
    ensures
        text_files_msgs(r1) == text_files_msgs(r2),
{
    lemma_listed_same(r1, r2);
    lemma_walk_entries_same(r1.entries@, r2.entries@);
    assert forall|e: Entry| #[trigger] walk_entry_msgs(r1, e) == walk_entry_msgs(r2, e) by {
        assert(listed(r1, e) == listed(r2, e));
    }
    lemma_walk_entries_msgs_same(r1, r2, walk_entries(r1.entries@));
    lemma_walked_files_same(r1, r2);
    assert forall|p: Seq<Seq<char>>| #[trigger] walked_file_msgs(r1, p) == walked_file_msgs(r2, p) by {
        lemma_find_same(r1.entries@, r2.entries@, p);
        let k = find_entry(r1.entries@, p);
        if k < r1.entries@.len() && p.len() > 0 {
            match crate::repo::relative_text(r1.entries@[k]) {
                Some(r) => {
                    lemma_text_file_same(r1, r2, p, r);
                },
                None => {},
            }
        }
    }
    lemma_walked_files_msgs_same(r1, r2, walked_files(r1));
}

proof fn lemma_require_same(r1: Repository, r2: Repository)
    requires
        same_but_order(r1, r2),
    ensures
        forall|rel: Seq<char>, ts: Seq<Seq<char>>| #[trigger] require_msgs(r1, rel, ts)
            == require_msgs(r2, rel, ts),
        forall|c: crate::workflow::WorkflowContract| #[trigger] workflow_file_msgs(r1, c)
            == workflow_file_msgs(r2, c),
        crate::files::public_contract_msgs(r1) == crate::files::public_contract_msgs(r2),
        crate::files::issue_form_msgs(r1) == crate::files::issue_form_msgs(r2),
{
    lemma_inspect_same(r1, r2);
    assert forall|rel: Seq<char>, ts: Seq<Seq<char>>| #[trigger] require_msgs(r1, rel, ts)
        == require_msgs(r2, rel, ts) by {
        lemma_found_same(r1, r2, inspect_text(r1, rel), inspect_text(r2, rel));
    }
    assert forall|c: crate::workflow::WorkflowContract| #[trigger] workflow_file_msgs(r1, c)
        == workflow_file_msgs(r2, c) by {
        let p = c.path@;
        lemma_found_same(r1, r2, inspect_text(r1, p), inspect_text(r2, p));
    }
}

proof fn lemma_workflows_same(r1: Repository, r2: Repository, cs: Seq<crate::workflow::WorkflowContract>)
    requires
        forall|c: crate::workflow::WorkflowContract| #[trigger] workflow_file_msgs(r1, c)
            == workflow_file_msgs(r2, c),
    ensures
        workflows_msgs(r1, cs) == workflows_msgs(r2, cs),
    decreases cs.len(),
{
    if cs.len() > 0 {
        lemma_workflows_same(r1, r2, cs.drop_last());
        assert(workflow_file_msgs(r1, cs.last()) == workflow_file_msgs(r2, cs.last()));
    }
}

proof fn lemma_properties_entries_same(
    r1: Repository,
    r2: Repository,
    dir: Seq<Seq<char>>,
    w: Seq<Entry>,
)
    requires
        forall|e: Entry| #[trigger] properties_file_msgs(r1, dir, e) == properties_file_msgs(r2, dir, e),
    ensures
        properties_entries_msgs(r1, dir, w) == properties_entries_msgs(r2, dir, w),
    decreases w.len(),
{
    if w.len() > 0 {
        lemma_properties_entries_same(r1, r2, dir, w.drop_last());
        assert(properties_file_msgs(r1, dir, w.last()) == properties_file_msgs(r2, dir, w.last()));
    }
}

proof fn lemma_properties_same(r1: Repository, r2: Repository)
    requires
        same_but_order(r1, r2),
    ensures
        properties_msgs(r1) == properties_msgs(r2),
{
    lemma_inspect_same(r1, r2);
    let d = "workflow-templates"@;
    lemma_found_same(r1, r2, inspect_text(r1, d), inspect_text(r2, d));
    lemma_walk_entries_same(r1.entries@, r2.entries@);
    match crate::files::listable_dir(r1, inspect_text(r1, d)) {
        Some(dir) => {
            assert forall|e: Entry| #[trigger] properties_file_msgs(r1, dir, e)
                == properties_file_msgs(r2, dir, e) by {
                let c = path_of(e);
                lemma_found_same(r1, r2, inspect_components(r1, c), inspect_components(r2, c));
                let yml = crate::files::strip_suffixes(c.last(), ".properties.json"@) + ".yml"@;
                lemma_found_same(
                    r1,
                    r2,
                    inspect_components(r1, dir.push(yml)),
                    inspect_components(r2, dir.push(yml)),
                );
            }
            lemma_properties_entries_same(r1, r2, dir, walk_entries(r1.entries@));
        },
        None => {},
    }
}

/// The two lists hold the same elements.
pub open spec fn same_members(a: Seq<Seq<char>>, b: Seq<Seq<char>>) -> bool {
    forall|m: Seq<char>| #![trigger a.contains(m)] #![trigger b.contains(m)] a.contains(m) <==> b.contains(m)
}

proof fn lemma_concat_members(a1: Seq<Seq<char>>, a2: Seq<Seq<char>>, b1: Seq<Seq<char>>, b2: Seq<Seq<char>>)
    requires
        same_members(a1, b1),
        same_members(a2, b2),
    ensures
        same_members(a1 + a2, b1 + b2),
{
    assert forall|m: Seq<char>| #![trigger (a1 + a2).contains(m)] #![trigger (b1 + b2).contains(m)]
        (a1 + a2).contains(m) <==> (b1 + b2).contains(m) by {
        if (a1 + a2).contains(m) {
            let k = choose|k: int| 0 <= k < (a1 + a2).len() && (a1 + a2)[k] == m;
            if k < a1.len() {
                assert(a1[k] == m);
                assert(a1.contains(m));
                assert(b1.contains(m));
                let i = choose|i: int| 0 <= i < b1.len() && b1[i] == m;
                assert((b1 + b2)[i] == m);
            } else {
                assert(a2[k - a1.len()] == m);
                assert(a2.contains(m));
                assert(b2.contains(m));
                let i = choose|i: int| 0 <= i < b2.len() && b2[i] == m;
                assert((b1 + b2)[b1.len() + i] == m);
            }
        }
        if (b1 + b2).contains(m) {
            let k = choose|k: int| 0 <= k < (b1 + b2).len() && (b1 + b2)[k] == m;
            if k < b1.len() {
                assert(b1[k] == m);
                assert(b1.contains(m));
                assert(a1.contains(m));
                let i = choose|i: int| 0 <= i < a1.len() && a1[i] == m;
                assert((a1 + a2)[i] == m);
            } else {
                assert(b2[k - b1.len()] == m);
                assert(b2.contains(m));
                assert(a2.contains(m));
                let i = choose|i: int| 0 <= i < a2.len() && a2[i] == m;
                assert((a1 + a2)[a1.len() + i] == m);
            }
        }
    }
}

proof fn lemma_children_paths_members(
    repo: Repository,
    d: Seq<Seq<char>>,
    exts: Option<Seq<Seq<char>>>,
    es: Seq<Entry>,
)
    ensures
        forall|p: Seq<char>| #[trigger] children_paths(repo, d, exts, es).contains(p) <==> exists|j: int|
            0 <= j < es.len() && is_child(d, #[trigger] es[j]) && child_path(repo, es[j], exts)
                == Some(p),
    decreases es.len(),
{
    if es.len() > 0 {
        let init = es.drop_last();
        lemma_children_paths_members(repo, d, exts, init);
        let w = children_paths(repo, d, exts, es);
        let v = children_paths(repo, d, exts, init);
        assert forall|p: Seq<char>| #[trigger] w.contains(p) <==> exists|j: int|
            0 <= j < es.len() && is_child(d, #[trigger] es[j]) && child_path(repo, es[j], exts)
                == Some(p) by {
            if w.contains(p) {
                let k = choose|k: int| 0 <= k < w.len() && w[k] == p;
                if k < v.len() {
                    assert(v[k] == p);
                    assert(v.contains(p));
                    let j = choose|j: int|
                        0 <= j < init.len() && is_child(d, #[trigger] init[j]) && child_path(
                            repo,
                            init[j],
                            exts,
                        ) == Some(p);
                    assert(es[j] == init[j]);
                } else {
                    assert(es[es.len() - 1] == es.last());
                }
            }
            if exists|j: int| 0 <= j < es.len() && is_child(d, #[trigger] es[j]) && child_path(repo, es[j], exts) == Some(p) {
                let j = choose|j: int|
                    0 <= j < es.len() && is_child(d, #[trigger] es[j]) && child_path(repo, es[j], exts)
                        == Some(p);
                if j < es.len() - 1 {
                    assert(init[j] == es[j]);
                    assert(v.contains(p));
                    let k = choose|k: int| 0 <= k < v.len() && v[k] == p;
                    assert(w[k] == p);
                } else {
                    assert(w[w.len() - 1] == p);
                }
            }
        }
    }
}

proof fn lemma_children_msgs_members(
    repo: Repository,
    d: Seq<Seq<char>>,
    exts: Option<Seq<Seq<char>>>,
    es: Seq<Entry>,
)
    ensures
        forall|m: Seq<char>| #[trigger] children_msgs(repo, d, exts, es).contains(m) <==> exists|j: int|
            0 <= j < es.len() && is_child(d, #[trigger] es[j]) && child_msgs(repo, es[j], exts).contains(m),
    decreases es.len(),
{
    if es.len() > 0 {
        let init = es.drop_last();
        lemma_children_msgs_members(repo, d, exts, init);
        let w = children_msgs(repo, d, exts, es);
        let v = children_msgs(repo, d, exts, init);
        let c = child_msgs(repo, es.last(), exts);
        assert forall|m: Seq<char>| #[trigger] w.contains(m) <==> exists|j: int|
            0 <= j < es.len() && is_child(d, #[trigger] es[j]) && child_msgs(repo, es[j], exts).contains(m) by {
            if is_child(d, es.last()) {
                assert(w == v + c);
                if w.contains(m) {
                    let k = choose|k: int| 0 <= k < w.len() && w[k] == m;
                    if k < v.len() {
                        assert(v[k] == m);
                        assert(v.contains(m));
                        let j = choose|j: int|
                            0 <= j < init.len() && is_child(d, #[trigger] init[j]) && child_msgs(
                                repo,
                                init[j],
                                exts,
                            ).contains(m);
                        assert(es[j] == init[j]);
                    } else {
                        assert(c[k - v.len()] == m);
                        assert(c.contains(m));
                        assert(es[es.len() - 1] == es.last());
                    }
                }
            } else {
                assert(w == v);
                if w.contains(m) {
                    let j = choose|j: int|
                        0 <= j < init.len() && is_child(d, #[trigger] init[j]) && child_msgs(
                            repo,
                            init[j],
                            exts,
                        ).contains(m);
                    assert(es[j] == init[j]);
                }
            }
            if exists|j: int| 0 <= j < es.len() && is_child(d, #[trigger] es[j]) && child_msgs(repo, es[j], exts).contains(m) {
                let j = choose|j: int|
                    0 <= j < es.len() && is_child(d, #[trigger] es[j]) && child_msgs(repo, es[j], exts).contains(m);
                if j < es.len() - 1 {
                    assert(init[j] == es[j]);
                    assert(v.contains(m));
                    let k = choose|k: int| 0 <= k < v.len() && v[k] == m;
                    if is_child(d, es.last()) {
                        assert((v + c)[k] == m);
                    }
                } else {
                    assert(w == v + c);
                    let k = choose|k: int| 0 <= k < c.len() && c[k] == m;
                    assert((v + c)[v.len() + k] == m);
                }
            }
        }
    }
}

proof fn lemma_below_same(r1: Repository, r2: Repository, reldir: Seq<char>, exts: Option<Seq<Seq<char>>>)
    requires
        same_but_order(r1, r2),
    ensures
        below_paths(r1, reldir, exts) == below_paths(r2, reldir, exts),
        same_members(below_msgs(r1, reldir, exts), below_msgs(r2, reldir, exts)),
{
    let (es1, es2) = (r1.entries@, r2.entries@);
    lemma_inspect_same(r1, r2);
    lemma_found_same(r1, r2, inspect_text(r1, reldir), inspect_text(r2, reldir));
    match crate::files::listable_dir(r1, inspect_text(r1, reldir)) {
        Some(d) => {
            lemma_children_paths_members(r1, d, exts, es1);
            lemma_children_paths_members(r2, d, exts, es2);
            let (c1, c2) = (children_paths(r1, d, exts, es1), children_paths(r2, d, exts, es2));
            assert forall|p: Seq<char>| #![trigger c1.contains(p)] #![trigger c2.contains(p)] c1.contains(p) <==> c2.contains(p) by {
                if c1.contains(p) {
                    let j = choose|j: int| 0 <= j < es1.len() && is_child(d, #[trigger] es1[j]) && child_path(r1, es1[j], exts) == Some(p);
                    assert(es1.contains(es1[j]));
                    let k = choose|k: int| 0 <= k < es2.len() && es2[k] == es1[j];
                    assert(child_path(r2, es2[k], exts) == Some(p));
                }
                if c2.contains(p) {
                    let j = choose|j: int| 0 <= j < es2.len() && is_child(d, #[trigger] es2[j]) && child_path(r2, es2[j], exts) == Some(p);
                    assert(es2.contains(es2[j]));
                    let k = choose|k: int| 0 <= k < es1.len() && es1[k] == es2[j];
                    assert(child_path(r1, es1[k], exts) == Some(p));
                }
            }
            crate::order::lemma_sorted_set_same(c1, c2);
            lemma_children_msgs_members(r1, d, exts, es1);
            lemma_children_msgs_members(r2, d, exts, es2);
            let (m1, m2) = (children_msgs(r1, d, exts, es1), children_msgs(r2, d, exts, es2));
            assert forall|m: Seq<char>| #![trigger m1.contains(m)] #![trigger m2.contains(m)] m1.contains(m) <==> m2.contains(m) by {
                if m1.contains(m) {
                    let j = choose|j: int| 0 <= j < es1.len() && is_child(d, #[trigger] es1[j]) && child_msgs(r1, es1[j], exts).contains(m);
                    assert(es1.contains(es1[j]));
                    let k = choose|k: int| 0 <= k < es2.len() && es2[k] == es1[j];
                    assert(child_msgs(r2, es2[k], exts) == child_msgs(r1, es1[j], exts));
                }
                if m2.contains(m) {
                    let j = choose|j: int| 0 <= j < es2.len() && is_child(d, #[trigger] es2[j]) && child_msgs(r2, es2[j], exts).contains(m);
                    assert(es2.contains(es2[j]));
                    let k = choose|k: int| 0 <= k < es1.len() && es1[k] == es2[j];
                    assert(child_msgs(r1, es1[k], exts) == child_msgs(r2, es2[j], exts));
                }
            }
        },
        None => {},
    }
}

proof fn lemma_inventory_members(r1: Repository, r2: Repository)
    requires
        same_but_order(r1, r2),
    ensures
        same_members(inventory_msgs(r1), inventory_msgs(r2)),
{
    let it = ".github/ISSUE_TEMPLATE"@;
    let wt = "workflow-templates"@;
    let aw = ".github/workflows"@;
    let xs = Some(crate::lists::active_extensions());
    lemma_below_same(r1, r2, it, None);
    lemma_below_same(r1, r2, wt, None);
    lemma_below_same(r1, r2, aw, xs);
    let e1 = exact_inventory_msgs(r1, it, crate::lists::issue_templates(), "issue-template"@);
    let e2 = exact_inventory_msgs(r2, it, crate::lists::issue_templates(), "issue-template"@);
    let f1 = exact_inventory_msgs(r1, wt, crate::lists::workflow_templates(), "workflow-template"@);
    let f2 = exact_inventory_msgs(r2, wt, crate::lists::workflow_templates(), "workflow-template"@);
    let (g1, g2) = (active_inventory_msgs(r1), active_inventory_msgs(r2));
    let t1 = if below_paths(r1, it, None) == sorted_set(crate::lists::issue_templates()) { seq![] } else {
        seq!["issue-template"@ + " inventory mismatch; expected "@ + set_debug(sorted_set(crate::lists::issue_templates())) + ", found "@ + set_debug(below_paths(r1, it, None))]
    };
    assert(e1 == below_msgs(r1, it, None) + t1);
    assert(e2 == below_msgs(r2, it, None) + t1);
    same_members_refl(t1);
    lemma_concat_members(below_msgs(r1, it, None), t1, below_msgs(r2, it, None), t1);
    let u1 = if below_paths(r1, wt, None) == sorted_set(crate::lists::workflow_templates()) { seq![] } else {
        seq!["workflow-template"@ + " inventory mismatch; expected "@ + set_debug(sorted_set(crate::lists::workflow_templates())) + ", found "@ + set_debug(below_paths(r1, wt, None))]
    };
    assert(f1 == below_msgs(r1, wt, None) + u1);
    assert(f2 == below_msgs(r2, wt, None) + u1);
    same_members_refl(u1);
    lemma_concat_members(below_msgs(r1, wt, None), u1, below_msgs(r2, wt, None), u1);
    let v1 = if below_paths(r1, aw, xs) == sorted_set(crate::lists::active_workflows()) { seq![] } else {
        seq!["active workflow inventory drift; expected "@ + set_debug(sorted_set(crate::lists::active_workflows())) + ", found "@ + set_debug(below_paths(r1, aw, xs))]
    };
    assert(g1 == below_msgs(r1, aw, xs) + v1);
    assert(g2 == below_msgs(r2, aw, xs) + v1);
    same_members_refl(v1);
    lemma_concat_members(below_msgs(r1, aw, xs), v1, below_msgs(r2, aw, xs), v1);
    lemma_concat_members(e1, f1, e2, f2);
    lemma_concat_members(e1 + f1, g1, e2 + f2, g2);
}

proof fn same_members_refl(a: Seq<Seq<char>>)
    ensures
        same_members(a, a),
{
}

/// Two snapshots that differ at most in their listing order report the same
/// messages, though messages of the inventory rule may come in another order.
pub proof fn lemma_repository_msgs_same(r1: Repository, r2: Repository)
    requires
        same_but_order(r1, r2),
    ensures
        same_members(repository_msgs(r1), repository_msgs(r2)),
{
    lemma_parts_same(r1, r2);
    lemma_eight_parts(
        crate::scan::required_msgs(r1),
        text_files_msgs(r1),
        inventory_msgs(r1),
        crate::files::public_contract_msgs(r1),
        crate::files::issue_form_msgs(r1),
        workflows_msgs(r1, crate::workflow::pinned_workflows()),
        properties_msgs(r1),
        state_msgs(r1),
        inventory_msgs(r2),
    );
}

proof fn lemma_parts_same(r1: Repository, r2: Repository)
    requires
        same_but_order(r1, r2),
    ensures
        crate::scan::required_msgs(r1) == crate::scan::required_msgs(r2),
        text_files_msgs(r1) == text_files_msgs(r2),
        same_members(inventory_msgs(r1), inventory_msgs(r2)),
        crate::files::public_contract_msgs(r1) == crate::files::public_contract_msgs(r2),
        crate::files::issue_form_msgs(r1) == crate::files::issue_form_msgs(r2),
        workflows_msgs(r1, crate::workflow::pinned_workflows()) == workflows_msgs(
            r2,
            crate::workflow::pinned_workflows(),
        ),
        properties_msgs(r1) == properties_msgs(r2),
        state_msgs(r1) == state_msgs(r2),
{
    lemma_required_same(r1, r2);
    lemma_text_files_same(r1, r2);
    lemma_inventory_members(r1, r2);
    lemma_require_same(r1, r2);
    lemma_workflows_same(r1, r2, crate::workflow::pinned_workflows());
    lemma_properties_same(r1, r2);
}

proof fn lemma_eight_parts(
    q: Seq<Seq<char>>,
    t: Seq<Seq<char>>,
    i1: Seq<Seq<char>>,
    p: Seq<Seq<char>>,
    f: Seq<Seq<char>>,
    w: Seq<Seq<char>>,
    o: Seq<Seq<char>>,
    s: Seq<Seq<char>>,
    i2: Seq<Seq<char>>,
)
    requires
        same_members(i1, i2),
    ensures
        same_members(q + t + i1 + p + f + w + o + s, q + t + i2 + p + f + w + o + s),
{
    let a = q + t;
    same_members_refl(a);
    lemma_concat_members(a, i1, a, i2);
    same_members_refl(p);
    lemma_concat_members(a + i1, p, a + i2, p);
    same_members_refl(f);
    lemma_concat_members(a + i1 + p, f, a + i2 + p, f);
    same_members_refl(w);
    lemma_concat_members(a + i1 + p + f, w, a + i2 + p + f, w);
    same_members_refl(o);
    lemma_concat_members(a + i1 + p + f + w, o, a + i2 + p + f + w, o);
    same_members_refl(s);
    lemma_concat_members(a + i1 + p + f + w + o, s, a + i2 + p + f + w + o, s);
}

} // verus!
