//! Properties of the validator as a whole, stated over the rules' specifications.

use vstd::prelude::*;
use crate::chars::{decimal, find_char, has_char, is_blank, lemma_find_char, is_space, lower, lemma_skip_space_bounds, skip_space, starts_with, trim, trim_end, trim_start, trimmed_end};
use crate::markdown::{is_external, link_targets, link_targets_from};
use crate::scan::{line_item_msgs, line_msgs};
use crate::repo::{components, find_entry, inspect_components, inspect_walk, path_of, resolve_link, resolve_walk, Entry, InspectionView, Kind, Repository, ResolutionView, WorkTreeState};
use crate::scan::{listed, open_dir, walked_files};
use crate::listing::{lemma_repository_msgs_same, lemma_walked_files_same, same_but_order, same_entries};
use crate::order::{lemma_sorted_set, lemma_sorted_unique_determined, sorted_set, strictly_sorted};
use crate::chars::{contains_text, debug_text};
use crate::scan::{is_namespace, owner_msgs, owner_tokens, token_msgs, walked_file};
use crate::files::{active_inventory_msgs, below_msgs, below_paths, exact_inventory_msgs};
use crate::run::cargo_arguments;
use crate::validate::{repository_msgs, state_msgs};
use crate::workflow::{expected_lines, full_sha, last_at, references, reference_text, workflow_line_msgs, workflow_msgs, significant_lines, WorkflowContract};

verus! {

/// A repository whose version-control state differs before and after the
/// run is reported as changed during validation.
pub proof fn law_change_is_reported(repo: Repository)
    requires
        repo.state_before matches WorkTreeState::Captured(a) && repo.state_after matches Ok(b)
            && a@ != b@,
    ensures
        repository_msgs(repo).contains("repository changed during validation"@),
{
    let m = repository_msgs(repo);
    let st = state_msgs(repo);
    assert(st == seq!["repository changed during validation"@]);
    let k = m.len() - 1;
    assert(m[k] == st[0]);
}

proof fn lemma_last_at_skip(s: Seq<char>, j: int, n: int)
    requires
        0 <= j < n <= s.len(),
        s[j] == '@',
        forall|k: int| j < k < n ==> s[k] != '@',
    ensures
        last_at(s, n) == j,
    decreases n - j,
{
    if n - 1 > j {
        lemma_last_at_skip(s, j, n - 1);
    }
}

/// The reference every pinned workflow must call names a full commit SHA.
pub proof fn law_expected_reference_is_pinned(c: WorkflowContract)
    ensures
        full_sha(reference_text(c)),
{
    reveal_strlit("@");
    reveal_strlit("624cb41adeed21a6461eb838bc7330bd0a5079fd");
    let r = reference_text(c);
    let rev = "624cb41adeed21a6461eb838bc7330bd0a5079fd"@;
    let head = "uses: "@ + "dornglut/github-workflows/.github/workflows"@ + "/"@ + c.reusable_workflow@;
    assert(r == head + "@"@ + rev);
    let j = head.len() as int;
    assert(r[j] == '@');
    assert forall|k: int| j < k < r.len() implies r[k] != '@' by {
        assert(r[k] == rev[k - j - 1]);
    }
    lemma_last_at_skip(r, j, r.len() as int);
    assert forall|i: int| j + 1 <= i < r.len() implies crate::workflow::is_hex(#[trigger] r[i]) by {
        assert(r[i] == rev[i - j - 1]);
    }
}

proof fn lemma_trim_start_at(s: Seq<char>, i: int)
    requires
        0 <= i < s.len(),
        !is_space(s[i]),
        forall|k: int| 0 <= k < i ==> is_space(#[trigger] s[k]),
    ensures
        trim_start(s) == s.subrange(i, s.len() as int),
{
    lemma_skip_space_bounds(s, 0);
    let a = skip_space(s, 0);
    if a < i {
        assert(!is_space(s[a]));
    } else if a > i {
        assert(is_space(s[i]));
    }
}

/// A line whose first non-space character, at `i`, is not `u` is no `uses:` line.
proof fn lemma_not_uses(s: Seq<char>, i: int)
    requires
        0 <= i < s.len(),
        !is_space(s[i]),
        s[i] != 'u',
        forall|k: int| 0 <= k < i ==> is_space(#[trigger] s[k]),
    ensures
        !starts_with(trim_start(s), "uses:"@),
{
    reveal_strlit("uses:");
    lemma_trim_start_at(s, i);
    assert(trim_start(s)[0] == s[i]);
    if starts_with(trim_start(s), "uses:"@) {
        assert(trim_start(s).subrange(0, 5)[0] == 'u');
    }
}

proof fn lemma_no_references(ls: Seq<Seq<char>>)
    requires
        forall|k: int| 0 <= k < ls.len() ==> !starts_with(trim_start(#[trigger] ls[k]), "uses:"@),
    ensures
        references(ls) == Seq::<Seq<char>>::empty(),
    decreases ls.len(),
{
    if ls.len() > 0 {
        let d = ls.drop_last();
        assert forall|k: int| 0 <= k < d.len() implies !starts_with(
            trim_start(#[trigger] d[k]),
            "uses:"@,
        ) by {
            assert(d[k] == ls[k]);
        }
        lemma_no_references(d);
        assert(!starts_with(trim_start(ls[ls.len() - 1]), "uses:"@));
    }
}

proof fn lemma_expected_references(c: WorkflowContract)
    ensures
        references(expected_lines(c)) == seq![reference_text(c)],
{
    let e = expected_lines(c);
    reveal_strlit("name: Validate");
    reveal_strlit("on:");
    reveal_strlit("  pull_request:");
    reveal_strlit("  push:");
    reveal_strlit("    branches:");
    reveal_strlit("      - ");
    reveal_strlit("permissions:");
    reveal_strlit("  contents: read");
    reveal_strlit("jobs:");
    reveal_strlit("  validate:");
    reveal_strlit("    ");
    reveal_strlit("uses: ");
    reveal_strlit("624cb41adeed21a6461eb838bc7330bd0a5079fd");
    lemma_not_uses(e[0], 0);
    lemma_not_uses(e[1], 0);
    lemma_not_uses(e[2], 2);
    lemma_not_uses(e[3], 2);
    lemma_not_uses(e[4], 4);
    lemma_not_uses(e[5], 6);
    lemma_not_uses(e[6], 0);
    lemma_not_uses(e[7], 2);
    lemma_not_uses(e[8], 0);
    lemma_not_uses(e[9], 2);
    let d = e.drop_last();
    assert forall|k: int| 0 <= k < d.len() implies !starts_with(
        trim_start(#[trigger] d[k]),
        "uses:"@,
    ) by {
        assert(d[k] == e[k]);
    }
    lemma_no_references(d);
    let r = reference_text(c);
    let line = e[10];
    assert(line == "    "@ + r);
    lemma_trim_start_at(line, 4);
    assert(trim_start(line) =~= r);
    reveal_strlit("uses:");
    assert(r.subrange(0, 5) =~= "uses:"@);
    assert(starts_with(trim_start(line), "uses:"@));
    assert(r[r.len() - 1] == 'd');
    assert(trimmed_end(r, r.len() as int) == r.len());
    assert(trim_end(r) =~= r);
    assert(trim(line) == r);
    assert(references(e) =~= seq![r]);
}

/// A workflow file whose non-blank lines, without trailing white space, are
/// exactly the accepted lines reports no drift of any kind.
pub proof fn law_accepted_workflow_passes(path: Seq<char>, t: Seq<char>, c: WorkflowContract)
    requires
        significant_lines(crate::chars::lines(t)) == expected_lines(c),
    ensures
        workflow_msgs(path, t, c) == Seq::<Seq<char>>::empty(),
{
    lemma_expected_references(c);
    let e = expected_lines(c);
    assert(workflow_msgs(path, t, c) =~= Seq::<Seq<char>>::empty());
}

proof fn lemma_significant_insert_blank(ls: Seq<Seq<char>>, i: int, w: Seq<char>)
    requires
        0 <= i <= ls.len(),
        is_blank(w),
    ensures
        significant_lines(ls.insert(i, w)) == significant_lines(ls),
    decreases ls.len(),
{
    let m = ls.insert(i, w);
    if i == ls.len() {
        assert(m.drop_last() =~= ls);
        assert(m.last() == w);
    } else {
        assert(m.drop_last() =~= ls.drop_last().insert(i, w));
        assert(m.last() == ls.last());
        lemma_significant_insert_blank(ls.drop_last(), i, w);
    }
}

proof fn lemma_trimmed_end_prefix(a: Seq<char>, b: Seq<char>, n: int)
    requires
        0 <= n <= a.len(),
    ensures
        trimmed_end(a + b, n) == trimmed_end(a, n),
    decreases n,
{
    if n > 0 {
        assert((a + b)[n - 1] == a[n - 1]);
        lemma_trimmed_end_prefix(a, b, n - 1);
    }
}

proof fn lemma_trimmed_end_spaces(a: Seq<char>, b: Seq<char>, n: int)
    requires
        a.len() <= n <= a.len() + b.len(),
        is_blank(b),
    ensures
        trimmed_end(a + b, n) == trimmed_end(a + b, a.len() as int),
    decreases n,
{
    if n > a.len() {
        assert((a + b)[n - 1] == b[n - 1 - a.len()]);
        lemma_trimmed_end_spaces(a, b, n - 1);
    }
}

proof fn lemma_pad_line(l: Seq<char>, p: Seq<char>)
    requires
        is_blank(p),
    ensures
        is_blank(l + p) == is_blank(l),
        trim_end(l + p) == trim_end(l),
{
    let q = l + p;
    if is_blank(l) {
        assert forall|k: int| 0 <= k < q.len() implies is_space(#[trigger] q[k]) by {
            if k < l.len() {
                assert(q[k] == l[k]);
            } else {
                assert(q[k] == p[k - l.len()]);
            }
        }
    } else {
        let k = choose|k: int| 0 <= k < l.len() && !is_space(#[trigger] l[k]);
        assert(q[k] == l[k]);
    }
    lemma_trimmed_end_spaces(l, p, q.len() as int);
    lemma_trimmed_end_prefix(l, p, l.len() as int);
    crate::chars::lemma_trimmed_end_bounds(l, l.len() as int);
    assert(q.subrange(0, trimmed_end(l, l.len() as int)) =~= l.subrange(
        0,
        trimmed_end(l, l.len() as int),
    ));
}

proof fn lemma_significant_pad(ls: Seq<Seq<char>>, i: int, p: Seq<char>)
    requires
        0 <= i < ls.len(),
        is_blank(p),
    ensures
        significant_lines(ls.update(i, ls[i] + p)) == significant_lines(ls),
    decreases ls.len(),
{
    let m = ls.update(i, ls[i] + p);
    if i == ls.len() - 1 {
        assert(m.drop_last() =~= ls.drop_last());
        lemma_pad_line(ls[i], p);
    } else {
        assert(m.drop_last() =~= ls.drop_last().update(i, ls[i] + p));
        assert(m.last() == ls.last());
        lemma_significant_pad(ls.drop_last(), i, p);
    }
}

/// Blank and white-space-only lines do not matter to the workflow rule: a
/// workflow whose lines are another's with one such line inserted anywhere
/// reports exactly what the other reports.
pub proof fn law_blank_workflow_line_is_ignored(
    path: Seq<char>,
    ls: Seq<Seq<char>>,
    i: int,
    w: Seq<char>,
    c: WorkflowContract,
)
    requires
        0 <= i <= ls.len(),
        is_blank(w),
    ensures
        workflow_line_msgs(path, ls.insert(i, w), c) == workflow_line_msgs(path, ls, c),
{
    lemma_significant_insert_blank(ls, i, w);
}

/// Trailing white space does not matter to the workflow rule: a workflow
/// whose lines are another's with white space appended to one line reports
/// exactly what the other reports.
pub proof fn law_trailing_space_is_ignored(
    path: Seq<char>,
    ls: Seq<Seq<char>>,
    i: int,
    p: Seq<char>,
    c: WorkflowContract,
)
    requires
        0 <= i < ls.len(),
        is_blank(p),
    ensures
        workflow_line_msgs(path, ls.update(i, ls[i] + p), c) == workflow_line_msgs(path, ls, c),
{
    lemma_significant_pad(ls, i, p);
}

/// The same for whole texts: two workflow texts whose lines differ by one
/// inserted blank line, or by white space appended to one line, report the
/// same drift.
pub proof fn law_workflow_texts_judged_by_significant_lines(
    path: Seq<char>,
    t1: Seq<char>,
    t2: Seq<char>,
    i: int,
    w: Seq<char>,
    c: WorkflowContract,
)
    requires
        is_blank(w),
        (0 <= i <= crate::chars::lines(t1).len() && crate::chars::lines(t2) == crate::chars::lines(t1).insert(i, w))
            || (0 <= i < crate::chars::lines(t1).len() && crate::chars::lines(t2) == crate::chars::lines(
            t1,
        ).update(i, crate::chars::lines(t1)[i] + w)),
    ensures
        workflow_msgs(path, t2, c) == workflow_msgs(path, t1, c),
{
    let l1 = crate::chars::lines(t1);
    if 0 <= i <= l1.len() && crate::chars::lines(t2) == l1.insert(i, w) {
        lemma_significant_insert_blank(l1, i, w);
    } else {
        lemma_significant_pad(l1, i, w);
    }
}

proof fn lemma_find_char_shift(m: Seq<char>, s: Seq<char>, c: char, k: int)
    requires
        0 <= k <= s.len(),
    ensures
        find_char(m + s, c, m.len() + k) == m.len() + find_char(s, c, k),
    decreases s.len() - k,
{
    let t = m + s;
    if k < s.len() {
        assert(t[m.len() + k] == s[k]);
        if s[k] != c {
            lemma_find_char_shift(m, s, c, k + 1);
        }
    }
}

proof fn lemma_find_char_skip(t: Seq<char>, c: char, a: int, b: int)
    requires
        0 <= a <= b <= t.len(),
        forall|k: int| a <= k < b ==> t[k] != c,
    ensures
        find_char(t, c, a) == find_char(t, c, b),
    decreases b - a,
{
    if a < b {
        lemma_find_char_skip(t, c, a + 1, b);
    }
}

proof fn lemma_targets_shift(m: Seq<char>, s: Seq<char>, k: int)
    requires
        0 <= k <= s.len(),
    ensures
        link_targets_from(m + s, m.len() + k) == link_targets_from(s, k),
    decreases s.len() - k,
{
    let t = m + s;
    let n = m.len() as int;
    if k < s.len() {
        assert(t[n + k] == s[k]);
        if s[k] != '[' {
            lemma_targets_shift(m, s, k + 1);
        } else {
            lemma_find_char_shift(m, s, ']', k + 1);
            lemma_find_char(s, ']', k + 1);
            let le = find_char(s, ']', k + 1);
            if le + 1 < s.len() {
                assert(t[n + le + 1] == s[le + 1]);
            }
            if le + 1 >= s.len() || s[le + 1] != '(' {
                lemma_targets_shift(m, s, k + 1);
            } else {
                lemma_find_char_shift(m, s, ')', le + 2);
                lemma_find_char(s, ')', le + 2);
                let te = find_char(s, ')', le + 2);
                if te >= s.len() {
                    lemma_targets_shift(m, s, k + 1);
                } else {
                    lemma_targets_shift(m, s, te + 1);
                    assert(t.subrange(n + le + 2, n + te) =~= s.subrange(le + 2, te));
                }
            }
        }
    }
}

proof fn lemma_prefix_hides_nothing(m: Seq<char>, s: Seq<char>, i: int)
    requires
        0 <= i <= m.len(),
        !has_char(m, '('),
        s.len() > 0,
        s[0] == '[',
    ensures
        link_targets_from(m + s, i) == link_targets_from(m + s, m.len() as int),
    decreases m.len() - i,
{
    let t = m + s;
    let n = m.len() as int;
    if i < n {
        lemma_prefix_hides_nothing(m, s, i + 1);
        assert(t[i] == m[i]);
        if t[i] == '[' {
            lemma_find_char(t, ']', i + 1);
            let le = find_char(t, ']', i + 1);
            if le < n - 1 {
                assert(t[le + 1] == m[le + 1]);
                assert(t[le + 1] != '(');
            } else if le == n - 1 {
                assert(t[le + 1] == s[0]);
            } else {
                lemma_find_char_skip(t, ']', i + 1, n);
                lemma_find_char_shift(m, s, ']', 0);
                assert(s[0] != ']');
                lemma_find_char(s, ']', 0);
                assert(find_char(s, ']', 0) == find_char(s, ']', 1));
                let ls = find_char(s, ']', 1);
                assert(le == n + ls);
                if le + 1 < t.len() && t[le + 1] == '(' {
                    assert(t[le + 1] == s[ls + 1]);
                    lemma_find_char(s, ')', ls + 2);
                    lemma_find_char_shift(m, s, ')', ls + 2);
                    let ts = find_char(s, ')', ls + 2);
                    if ts < s.len() {
                        lemma_targets_shift(m, s, ts + 1);
                        lemma_targets_shift(m, s, 0);
                        assert(t.subrange(le + 2, n + ts) =~= s.subrange(ls + 2, ts));
                    } else {
                        lemma_targets_shift(m, s, 0);
                        lemma_targets_shift(m, s, 1);
                    }
                } else {
                    if ls + 1 < s.len() {
                        assert(t[le + 1] == s[ls + 1]);
                    }
                }
            }
        }
    }
}

/// A malformed link candidate hides no later one: after any text without a
/// `(`, a text that starts a link candidate yields the same link targets as
/// it does on its own.
pub proof fn law_malformed_candidate_hides_nothing(m: Seq<char>, s: Seq<char>)
    requires
        !has_char(m, '('),
        s.len() > 0,
        s[0] == '[',
    ensures
        link_targets(m + s) == link_targets(s),
{
    lemma_prefix_hides_nothing(m, s, 0);
    lemma_targets_shift(m, s, 0);
}

/// ASCII case folding is idempotent.
pub proof fn law_lower_idempotent(t: Seq<char>)
    ensures
        lower(lower(t)) == lower(t),
{
    assert forall|i: int| 0 <= i < t.len() implies lower(lower(t))[i] == lower(t)[i] by {
        let c = t[i];
        if 'A' <= c && c <= 'Z' {
            let d = ((c as u32) + 32) as char;
            assert(!('A' <= d && d <= 'Z'));
        }
    }
    assert(lower(lower(t)) =~= lower(t));
}

/// Whether a link target is external does not depend on its ASCII case.
pub proof fn law_external_ignores_case(t: Seq<char>)
    ensures
        is_external(lower(t)) == is_external(t),
{
    law_lower_idempotent(t);
}

pub open spec fn has_trailing_space(line: Seq<char>) -> bool {
    line.len() > 0 && (line.last() == ' ' || line.last() == '\t')
}

/// Every line that ends in a space or tab, and every line that holds a tab,
/// is reported under its number counted from 1; and a text whose lines do
/// neither reports nothing about its lines.
pub proof fn law_lines_reported_by_number(rel: Seq<char>, ls: Seq<Seq<char>>)
    ensures
        forall|k: int|
            0 <= k < ls.len() && has_trailing_space(#[trigger] ls[k]) ==> line_msgs(rel, ls).contains(
                rel + ":"@ + decimal((k + 1) as nat) + ": trailing whitespace"@,
            ),
        forall|k: int|
            0 <= k < ls.len() && has_char(#[trigger] ls[k], '\t') ==> line_msgs(rel, ls).contains(
                rel + ":"@ + decimal((k + 1) as nat) + ": tab character"@,
            ),
        (forall|k: int|
            0 <= k < ls.len() ==> !has_trailing_space(#[trigger] ls[k]) && !has_char(ls[k], '\t'))
            ==> line_msgs(rel, ls) == Seq::<Seq<char>>::empty(),
    decreases ls.len(),
{
    if ls.len() > 0 {
        let d = ls.drop_last();
        law_lines_reported_by_number(rel, d);
        let n = ls.len() - 1;
        let all = line_msgs(rel, ls);
        let prev = line_msgs(rel, d);
        let last = line_item_msgs(rel, ls.len(), ls.last());
        assert(all == prev + last);
        assert forall|k: int|
            0 <= k < ls.len() && has_trailing_space(#[trigger] ls[k]) implies all.contains(
                rel + ":"@ + decimal((k + 1) as nat) + ": trailing whitespace"@,
            ) by {
            let m = rel + ":"@ + decimal((k + 1) as nat) + ": trailing whitespace"@;
            if k < n {
                assert(d[k] == ls[k]);
                let j = choose|j: int| 0 <= j < prev.len() && prev[j] == m;
                assert(all[j] == m);
            } else {
                assert(last[0] == m);
                assert(all[prev.len() as int] == m);
            }
        }
        assert forall|k: int|
            0 <= k < ls.len() && has_char(#[trigger] ls[k], '\t') implies all.contains(
                rel + ":"@ + decimal((k + 1) as nat) + ": tab character"@,
            ) by {
            let m = rel + ":"@ + decimal((k + 1) as nat) + ": tab character"@;
            if k < n {
                assert(d[k] == ls[k]);
                let j = choose|j: int| 0 <= j < prev.len() && prev[j] == m;
                assert(all[j] == m);
            } else {
                assert(last[last.len() - 1] == m);
                assert(all[all.len() - 1] == m);
            }
        }
        if forall|k: int|
            0 <= k < ls.len() ==> !has_trailing_space(#[trigger] ls[k]) && !has_char(ls[k], '\t') {
            assert forall|k: int|
                0 <= k < d.len() implies !has_trailing_space(#[trigger] d[k]) && !has_char(
                d[k],
                '\t',
            ) by {
                assert(d[k] == ls[k]);
            }
            assert(!has_trailing_space(ls[n]));
            assert(all =~= Seq::<Seq<char>>::empty());
        }
    }
}

proof fn lemma_climb(es: Seq<Entry>, rl: Option<Seq<char>>, comps: Seq<Seq<char>>, d: int, j: int, cur: Seq<Seq<char>>)
    requires
        0 <= j <= d,
        d < comps.len(),
        cur.len() == d - j,
        forall|k: int| 0 <= k <= d ==> #[trigger] comps[k] == ".."@,
    ensures
        resolve_walk(es, rl, comps, j, cur) == ResolutionView::Escapes,
    decreases d - j,
{
    assert(comps[j] == ".."@);
    if cur.len() > 0 {
        lemma_climb(es, rl, comps, d, j + 1, cur.drop_last());
    }
}

/// A relative link cannot climb above the repository root: from a directory
/// `dir` below the root, a target whose first `dir.len() + 1` components are
/// `..` escapes, whatever follows.
pub proof fn law_link_cannot_climb_above_root(repo: Repository, dir: Seq<Seq<char>>, t: Seq<char>)
    requires
        repo.root_error is None,
        components(t).len() > dir.len(),
        forall|k: int| 0 <= k <= dir.len() ==> #[trigger] components(t)[k] == ".."@,
    ensures
        resolve_link(repo, dir, t) == ResolutionView::Escapes,
{
    lemma_climb(repo.entries@, crate::repo::root_listing(repo), components(t), dir.len() as int, 0, dir);
}

proof fn lemma_walk_reaches(repo: Repository, i: int, k: int)
    requires
        0 <= i < repo.entries@.len(),
        listed(repo, repo.entries@[i]),
        find_entry(repo.entries@, path_of(repo.entries@[i])) == i,
        repo.entries@[i].kind matches Kind::File { .. },
        forall|j: int|
            0 <= j < path_of(repo.entries@[i]).len() ==> #[trigger] path_of(repo.entries@[i])[j]
                != ".."@,
        0 <= k < path_of(repo.entries@[i]).len(),
    ensures
        inspect_walk(
            repo.entries@,
            crate::repo::root_listing(repo),
            path_of(repo.entries@[i]),
            k,
            path_of(repo.entries@[i]).subrange(0, k),
        ) == InspectionView::Found(Some(i as usize)),
    decreases path_of(repo.entries@[i]).len() - k,
{
    let p = path_of(repo.entries@[i]);
    let es = repo.entries@;
    assert(p[k] != ".."@);
    let cand = p.subrange(0, k).push(p[k]);
    assert(cand =~= p.subrange(0, k + 1));
    if k + 1 == p.len() {
        assert(cand =~= p);
    } else {
        assert(open_dir(repo, p.subrange(0, k + 1)));
        lemma_walk_reaches(repo, i, k + 1);
    }
}

/// Every file that the walk over the repository reaches is found again when
/// its path is inspected, as long as no other entry shares its path and no
/// component of it is `..`: inspecting never takes a walked file for a
/// symbolic link, a missing path or an escape.
pub proof fn law_walked_file_is_found(repo: Repository, i: int)
    requires
        0 <= i < repo.entries@.len(),
        repo.root_error is None,
        listed(repo, repo.entries@[i]),
        find_entry(repo.entries@, path_of(repo.entries@[i])) == i,
        repo.entries@[i].kind matches Kind::File { .. },
        forall|j: int|
            0 <= j < path_of(repo.entries@[i]).len() ==> #[trigger] path_of(repo.entries@[i])[j]
                != ".."@,
    ensures
        inspect_components(repo, path_of(repo.entries@[i])) == InspectionView::Found(
            Some(i as usize),
        ),
{
    let p = path_of(repo.entries@[i]);
    assert(p.subrange(0, 0) =~= Seq::<Seq<char>>::empty());
    lemma_walk_reaches(repo, i, 0);
}

/// The walk does not depend on the order in which the snapshot lists its
/// entries: two snapshots that hold the same entries, one per path, and
/// agree on whether the root could be listed walk the same files in the same
/// order.
pub proof fn law_walk_ignores_listing_order(r1: Repository, r2: Repository)
    requires
        same_entries(r1.entries@, r2.entries@),
        r1.root_listing_error == r2.root_listing_error,
    ensures
        walked_files(r1) == walked_files(r2),
{
    lemma_walked_files_same(r1, r2);
}

/// The order in which the file system lists directory entries does not
/// matter to validation: two snapshots that hold the same entries, one per
/// path, and agree on everything else report the same messages, so
/// `validate_repository` returns the same result for both: `Ok` for both, or
/// the same sorted messages.
pub proof fn law_listing_order_does_not_matter(r1: Repository, r2: Repository)
    requires
        same_but_order(r1, r2),
    ensures
        forall|m: Seq<char>| #![trigger repository_msgs(r1).contains(m)] #![trigger repository_msgs(r2).contains(m)]
            repository_msgs(r1).contains(m) <==> repository_msgs(r2).contains(m),
        (repository_msgs(r1).len() == 0) == (repository_msgs(r2).len() == 0),
        sorted_set(repository_msgs(r1)) == sorted_set(repository_msgs(r2)),
{
    lemma_repository_msgs_same(r1, r2);
    let (a, b) = (repository_msgs(r1), repository_msgs(r2));
    if a.len() > 0 {
        assert(a.contains(a[0]));
    }
    if b.len() > 0 {
        assert(b.contains(b[0]));
    }
    crate::order::lemma_sorted_set_same(a, b);
}

// ---------------------------------------------------------------------------
// Link resolution
// ---------------------------------------------------------------------------

/// Every component of `cs`, taken from `dir`, names a listed entry: each one
/// before the last a directory, the last one anything but a symbolic link or
/// an entry that could not be inspected; no component is `..`.
pub open spec fn names_existing(es: Seq<Entry>, dir: Seq<Seq<char>>, cs: Seq<Seq<char>>) -> bool {
    forall|j: int|
        #![trigger cs[j]]
        0 <= j < cs.len() ==> {
            let i = find_entry(es, dir + cs.subrange(0, j + 1));
            &&& cs[j] != ".."@
            &&& 0 <= i < es.len()
            &&& if j + 1 < cs.len() {
                es[i].kind is Directory
            } else {
                !(es[i].kind is Symlink) && !(es[i].kind is Uninspectable)
            }
        }
}

proof fn lemma_resolve_existing(
    es: Seq<Entry>,
    rl: Option<Seq<char>>,
    dir: Seq<Seq<char>>,
    cs: Seq<Seq<char>>,
    k: int,
)
    requires
        0 <= k <= cs.len(),
        names_existing(es, dir, cs),
    ensures
        resolve_walk(es, rl, cs, k, dir + cs.subrange(0, k)) == ResolutionView::Exists,
    decreases cs.len() - k,
{
    if k < cs.len() {
        let cur = dir + cs.subrange(0, k);
        let cand = cur.push(cs[k]);
        assert(cand =~= dir + cs.subrange(0, k + 1));
        assert(cs[k] != ".."@);
        lemma_resolve_existing(es, rl, dir, cs, k + 1);
    }
}

/// A relative link whose components all name existing entries (directories
/// on the way, the last one a file or a directory, no symbolic link) resolves:
/// a link to an existing directory is no broken link.
pub proof fn law_existing_link_target_resolves(repo: Repository, dir: Seq<Seq<char>>, t: Seq<char>)
    requires
        repo.root_error is None,
        !starts_with(t, "/"@),
        !has_char(t, '\\'),
        !(t.len() >= 2 && (t[0] as u32) < 128 && t[1] == ':'),
        names_existing(repo.entries@, dir, components(t)),
    ensures
        resolve_link(repo, dir, t) == ResolutionView::Exists,
{
    let cs = components(t);
    assert(dir + cs.subrange(0, 0) =~= dir);
    lemma_resolve_existing(repo.entries@, crate::repo::root_listing(repo), dir, cs, 0);
}

// ---------------------------------------------------------------------------
// Historical owner tokens
// ---------------------------------------------------------------------------

proof fn lemma_token_reported(rel: Seq<char>, l: Seq<char>, ts: Seq<Seq<char>>, k: int)
    requires
        0 <= k < ts.len(),
        contains_text(l, ts[k]),
    ensures
        token_msgs(rel, l, ts).contains(rel + ": contains historical owner token "@ + debug_text(ts[k])),
    decreases ts.len(),
{
    let m = rel + ": contains historical owner token "@ + debug_text(ts[k]);
    let r = token_msgs(rel, l, ts);
    if k == ts.len() - 1 {
        assert(r == token_msgs(rel, l, ts.drop_last()).push(m));
        assert(r[r.len() - 1] == m);
    } else {
        assert(ts.drop_last()[k] == ts[k]);
        lemma_token_reported(rel, l, ts.drop_last(), k);
        let rest = token_msgs(rel, l, ts.drop_last());
        let j = choose|j: int| 0 <= j < rest.len() && rest[j] == m;
        if contains_text(l, ts.last()) {
            assert(r == rest.push(rel + ": contains historical owner token "@ + debug_text(ts.last())));
            assert(r[j] == m);
        }
    }
}

/// Owner tokens are found whatever the ASCII case of the text: the report for
/// a text is the report for its lower-cased form.
pub proof fn law_owner_tokens_ignore_case(rel: Seq<char>, t: Seq<char>)
    ensures
        owner_msgs(rel, t) == owner_msgs(rel, lower(t)),
{
    law_lower_idempotent(t);
}

/// On an organization surface, each owner token that the text holds in any
/// ASCII case is reported.
pub proof fn law_owner_token_is_reported(rel: Seq<char>, t: Seq<char>, k: int)
    requires
        is_namespace(rel),
        0 <= k < owner_tokens().len(),
        contains_text(lower(t), owner_tokens()[k]),
    ensures
        owner_msgs(rel, t).contains(
            rel + ": contains historical owner token "@ + debug_text(owner_tokens()[k]),
        ),
{
    lemma_token_reported(rel, lower(t), owner_tokens(), k);
}

// ---------------------------------------------------------------------------
// The walk
// ---------------------------------------------------------------------------

/// The walk reaches every regular file whose directories could all be listed,
/// unless its first component is `.git` or `target`: only those two are
/// skipped, so every file below `.github`, say, gets the text checks.
pub proof fn law_walk_reaches_every_listed_file(repo: Repository, k: int)
    requires
        repo.entries@.len() <= usize::MAX,
        0 <= k < repo.entries@.len(),
        repo.root_listing_error is None,
        repo.entries@[k].kind is File,
        path_of(repo.entries@[k]).len() >= 1,
        path_of(repo.entries@[k])[0] != ".git"@,
        path_of(repo.entries@[k])[0] != "target"@,
        forall|j: int|
            #![trigger path_of(repo.entries@[k]).subrange(0, j)]
            1 <= j < path_of(repo.entries@[k]).len() ==> {
                let i = find_entry(repo.entries@, path_of(repo.entries@[k]).subrange(0, j));
                0 <= i < repo.entries@.len() && repo.entries@[i].kind matches Kind::Directory {
                    listing_error: None,
                }
            },
    ensures
        walked_files(repo).contains(path_of(repo.entries@[k])),
{
    let p = path_of(repo.entries@[k]);
    assert forall|j: int| 1 <= j < p.len() implies open_dir(repo, #[trigger] p.subrange(0, j)) by {
        assert(p.subrange(0, j) == path_of(repo.entries@[k]).subrange(0, j));
    }
    assert(listed(repo, repo.entries@[k]));
    assert(walked_file(repo, repo.entries@[k]));
    crate::scan::lemma_walked_files_exact(repo);
}

// ---------------------------------------------------------------------------
// Inventories
// ---------------------------------------------------------------------------

proof fn lemma_below_sorted(repo: Repository, dir: Seq<char>, exts: Option<Seq<Seq<char>>>)
    ensures
        strictly_sorted(below_paths(repo, dir, exts)),
{
    match crate::files::listable_dir(repo, crate::repo::inspect_text(repo, dir)) {
        Some(d) => {
            lemma_sorted_set(crate::files::children_paths(repo, d, exts, repo.entries@));
        },
        None => {},
    }
}

proof fn lemma_inventory_compares_sets(actual: Seq<Seq<char>>, expected: Seq<Seq<char>>)
    requires
        strictly_sorted(actual),
    ensures
        (actual == sorted_set(expected)) <==> (forall|x: Seq<char>|
            #![trigger actual.contains(x)]
            #![trigger expected.contains(x)]
            actual.contains(x) <==> expected.contains(x)),
{
    lemma_sorted_set(expected);
    let ex = sorted_set(expected);
    if forall|x: Seq<char>| #![trigger actual.contains(x)] #![trigger expected.contains(x)] actual.contains(x) <==> expected.contains(x) {
        assert forall|x: Seq<char>| #![trigger actual.contains(x)] #![trigger ex.contains(x)] actual.contains(x) <==> ex.contains(x) by {
            assert(ex.contains(x) <==> expected.contains(x));
        }
        lemma_sorted_unique_determined(actual, ex);
    }
}

/// An exact inventory reports a mismatch exactly when the set of files
/// directly below the directory differs from the expected set: a file there
/// that is not expected, or an expected one that is not there.
pub proof fn law_exact_inventory_compares_sets(
    repo: Repository,
    dir: Seq<char>,
    expected: Seq<Seq<char>>,
    kind: Seq<char>,
)
    ensures
        (exact_inventory_msgs(repo, dir, expected, kind) == below_msgs(repo, dir, None)) <==> (
        forall|x: Seq<char>|
            #![trigger below_paths(repo, dir, None).contains(x)]
            #![trigger expected.contains(x)]
            below_paths(repo, dir, None).contains(x) <==> expected.contains(x)),
{
    lemma_below_sorted(repo, dir, None);
    lemma_inventory_compares_sets(below_paths(repo, dir, None), expected);
    let b = below_msgs(repo, dir, None);
    let m = exact_inventory_msgs(repo, dir, expected, kind);
    if below_paths(repo, dir, None) != sorted_set(expected) {
        assert(m.len() == b.len() + 1);
    } else {
        assert(m =~= b);
    }
}

/// The active-workflow inventory reports drift exactly when the set of
/// workflow files differs from the expected one.
pub proof fn law_active_inventory_compares_sets(repo: Repository)
    ensures
        (active_inventory_msgs(repo) == below_msgs(
            repo,
            ".github/workflows"@,
            Some(crate::lists::active_extensions()),
        )) <==> (forall|x: Seq<char>|
            #![trigger below_paths(repo, ".github/workflows"@, Some(crate::lists::active_extensions())).contains(x)]
            #![trigger crate::lists::active_workflows().contains(x)]
            below_paths(repo, ".github/workflows"@, Some(crate::lists::active_extensions())).contains(x)
                <==> crate::lists::active_workflows().contains(x)),
{
    let xs = Some(crate::lists::active_extensions());
    let d = ".github/workflows"@;
    lemma_below_sorted(repo, d, xs);
    lemma_inventory_compares_sets(below_paths(repo, d, xs), crate::lists::active_workflows());
    let b = below_msgs(repo, d, xs);
    let m = active_inventory_msgs(repo);
    if below_paths(repo, d, xs) != sorted_set(crate::lists::active_workflows()) {
        assert(m.len() == b.len() + 1);
    } else {
        assert(m =~= b);
    }
}

// ---------------------------------------------------------------------------
// The validate command
// ---------------------------------------------------------------------------

/// The validate command runs, in this order, `cargo +stable fmt --all
/// --check`, `cargo +stable clippy --workspace --all-targets --locked -- -D
/// warnings` and `cargo +stable test --workspace --all-targets --locked`.
pub proof fn law_cargo_runs_format_lint_test()
    ensures
        cargo_arguments(0) == seq!["+stable"@, "fmt"@, "--all"@, "--check"@],
        cargo_arguments(1) == seq![
            "+stable"@,
            "clippy"@,
            "--workspace"@,
            "--all-targets"@,
            "--locked"@,
            "--"@,
            "-D"@,
            "warnings"@,
        ],
        cargo_arguments(2) == seq!["+stable"@, "test"@, "--workspace"@, "--all-targets"@, "--locked"@],
{
}

/// The historical owner tokens are the old owner's GitHub URL prefix, a
/// quoted owner path, and the old repository path.
pub proof fn law_owner_tokens()
    ensures
        owner_tokens() == seq!["github.com/crystonix/"@, "`crystonix/"@, "crystonix/runen"@],
{
}

} // verus!
