//! The pinned workflow files: their one accepted shape, and the drift reports
//! for a workflow text that departs from it.

use vstd::prelude::*;
use crate::chars::{
    append, blank, cat, copy_text, debug_of, debug_text, has_prefix, is_blank, join, join_exec,
    lemma_views_push, lines, lines_exec, starts_with, text, trim, trim_end, trim_end_of,
    trim_of, trim_start, trim_start_of, views,
};
use crate::order::same_text;

verus! {

/// A workflow file whose text is fixed: the branch that pushes validate, and
/// the reusable workflow it calls at the pinned revision.
#[derive(Clone, Copy)]
pub struct WorkflowContract {
    pub path: &'static str,
    pub branch: &'static str,
    pub reusable_workflow: &'static str,
}

pub open spec fn reference_text(c: WorkflowContract) -> Seq<char> {
    "uses: "@ + "dornglut/github-workflows/.github/workflows"@ + "/"@ + c.reusable_workflow@ + "@"@
        + "624cb41adeed21a6461eb838bc7330bd0a5079fd"@
}

/// The accepted lines of a workflow file, in order.
pub open spec fn expected_lines(c: WorkflowContract) -> Seq<Seq<char>> {
    seq![
        "name: Validate"@,
        "on:"@,
        "  pull_request:"@,
        "  push:"@,
        "    branches:"@,
        "      - "@ + c.branch@,
        "permissions:"@,
        "  contents: read"@,
        "jobs:"@,
        "  validate:"@,
        "    "@ + reference_text(c),
    ]
}

/// The three pinned workflow files.
pub open spec fn pinned_workflows() -> Seq<WorkflowContract> {
    seq![
        WorkflowContract {
            path: ".github/workflows/validate.yml",
            branch: "main",
            reusable_workflow: "reusable-rust-cargo-validate.yml",
        },
        WorkflowContract {
            path: "workflow-templates/documentation-validation.yml",
            branch: "$default-branch",
            reusable_workflow: "reusable-python-repository-validate.yml",
        },
        WorkflowContract {
            path: "workflow-templates/rust-validation.yml",
            branch: "$default-branch",
            reusable_workflow: "reusable-rust-cargo-validate.yml",
        },
    ]
}

pub fn workflow_contracts() -> (r: Vec<WorkflowContract>)
    ensures
        r@ == pinned_workflows(),
{
    let mut r: Vec<WorkflowContract> = Vec::new();
    r.push(
        WorkflowContract {
            path: ".github/workflows/validate.yml",
            branch: "main",
            reusable_workflow: "reusable-rust-cargo-validate.yml",
        },
    );
    r.push(
        WorkflowContract {
            path: "workflow-templates/documentation-validation.yml",
            branch: "$default-branch",
            reusable_workflow: "reusable-python-repository-validate.yml",
        },
    );
    r.push(
        WorkflowContract {
            path: "workflow-templates/rust-validation.yml",
            branch: "$default-branch",
            reusable_workflow: "reusable-rust-cargo-validate.yml",
        },
    );
    assert(r@ =~= pinned_workflows());
    r
}

impl WorkflowContract {
    /// The `uses:` line that calls the reusable workflow at the pinned revision.
    pub fn reusable_reference(self) -> (r: Vec<char>)
        ensures
            r@ == reference_text(self),
    {
        let mut r = text("uses: ");
        append(&mut r, text("dornglut/github-workflows/.github/workflows").as_slice());
        append(&mut r, text("/").as_slice());
        append(&mut r, text(self.reusable_workflow).as_slice());
        append(&mut r, text("@").as_slice());
        append(&mut r, text("624cb41adeed21a6461eb838bc7330bd0a5079fd").as_slice());
        r
    }

    /// The accepted lines of the workflow file.
    pub fn lines(self) -> (r: Vec<Vec<char>>)
        ensures
            views(r@) == expected_lines(self),
    {
        let mut r: Vec<Vec<char>> = Vec::new();
        r.push(text("name: Validate"));
        r.push(text("on:"));
        r.push(text("  pull_request:"));
        r.push(text("  push:"));
        r.push(text("    branches:"));
        r.push(cat(text("      - ").as_slice(), text(self.branch).as_slice()));
        r.push(text("permissions:"));
        r.push(text("  contents: read"));
        r.push(text("jobs:"));
        r.push(text("  validate:"));
        r.push(cat(text("    ").as_slice(), self.reusable_reference().as_slice()));
        assert(views(r@) =~= expected_lines(self));
        r
    }
}

// ---------------------------------------------------------------------------
// Rendering lists
// ---------------------------------------------------------------------------

pub open spec fn debug_all(s: Seq<Seq<char>>) -> Seq<Seq<char>> {
    s.map_values(|x: Seq<char>| debug_text(x))
}

/// `format!("{:?}", v)` for a vector of strings: `["a", "b"]`.
pub open spec fn list_debug(s: Seq<Seq<char>>) -> Seq<char> {
    "["@ + join(debug_all(s), ", "@) + "]"@
}

/// `format!("{:?}", set)` for a set of strings, given in order: `{"a", "b"}`.
pub open spec fn set_debug(s: Seq<Seq<char>>) -> Seq<char> {
    "{"@ + join(debug_all(s), ", "@) + "}"@
}

pub fn debug_all_exec(v: &Vec<Vec<char>>) -> (r: Vec<Vec<char>>)
    ensures
        views(r@) == debug_all(views(v@)),
{
    let mut r: Vec<Vec<char>> = Vec::new();
    let mut i: usize = 0;
    while i < v.len()
        invariant
            i <= v@.len(),
            views(r@) == debug_all(views(v@).subrange(0, i as int)),
        decreases v@.len() - i,
    {
        let d = debug_of(v[i].as_slice());
        proof {
            lemma_views_push(r@, d);
        }
        r.push(d);
        i = i + 1;
        assert(views(r@) =~= debug_all(views(v@).subrange(0, i as int)));
    }
    assert(views(v@).subrange(0, i as int) =~= views(v@));
    r
}

pub fn list_debug_exec(v: &Vec<Vec<char>>) -> (r: Vec<char>)
    ensures
        r@ == list_debug(views(v@)),
{
    let d = debug_all_exec(v);
    let mut r = text("[");
    append(&mut r, join_exec(&d, text(", ").as_slice()).as_slice());
    append(&mut r, text("]").as_slice());
    r
}

pub fn set_debug_exec(v: &Vec<Vec<char>>) -> (r: Vec<char>)
    ensures
        r@ == set_debug(views(v@)),
{
    let d = debug_all_exec(v);
    let mut r = text("{");
    append(&mut r, join_exec(&d, text(", ").as_slice()).as_slice());
    append(&mut r, text("}").as_slice());
    r
}

// ---------------------------------------------------------------------------
// Pinned revisions
// ---------------------------------------------------------------------------

pub open spec fn is_hex(c: char) -> bool {
    ('0' <= c && c <= '9') || ('a' <= c && c <= 'f') || ('A' <= c && c <= 'F')
}

/// Index of the last `'@'` before position `n`, or -1.
pub open spec fn last_at(s: Seq<char>, n: int) -> int
    decreases n,
{
    if n <= 0 {
        -1
    } else if s[n - 1] == '@' {
        n - 1
    } else {
        last_at(s, n - 1)
    }
}

/// The text after the last `@` is forty hexadecimal digits: a full commit SHA.
pub open spec fn full_sha(r: Seq<char>) -> bool {
    let d = last_at(r, r.len() as int);
    d >= 0 && r.len() - (d + 1) == 40 && forall|i: int| d + 1 <= i < r.len() ==> is_hex(
        #[trigger] r[i],
    )
}

proof fn lemma_last_at(s: Seq<char>, n: int)
    requires
        0 <= n <= s.len(),
    ensures
        -1 <= last_at(s, n) < n,
        last_at(s, n) >= 0 ==> s[last_at(s, n)] == '@',
    decreases n,
{
    if n > 0 && s[n - 1] != '@' {
        lemma_last_at(s, n - 1);
    }
}

pub fn has_full_sha(reference: &[char]) -> (r: bool)
    ensures
        r == full_sha(reference@),
{
    proof {
        lemma_last_at(reference@, reference@.len() as int);
    }
    let mut n = reference.len();
    while n > 0 && reference[n - 1] != '@'
        invariant
            n <= reference@.len(),
            last_at(reference@, reference@.len() as int) == last_at(reference@, n as int),
        decreases n,
    {
        n = n - 1;
    }
    if n == 0 {
        return false;
    }
    if reference.len() - n != 40 {
        return false;
    }
    let mut i = n;
    while i < reference.len()
        invariant
            0 < n <= i <= reference@.len(),
            last_at(reference@, reference@.len() as int) == n - 1,
            forall|j: int| n <= j < i ==> is_hex(#[trigger] reference@[j]),
        decreases reference@.len() - i,
    {
        let c = reference[i];
        if !(('0' <= c && c <= '9') || ('a' <= c && c <= 'f') || ('A' <= c && c <= 'F')) {
            assert(!is_hex(reference@[i as int]));
            return false;
        }
        i = i + 1;
    }
    true
}

// ---------------------------------------------------------------------------
// Drift reports
// ---------------------------------------------------------------------------

/// The lines that are not blank, with trailing white space removed.
pub open spec fn significant_lines(ls: Seq<Seq<char>>) -> Seq<Seq<char>>
    decreases ls.len(),
{
    if ls.len() == 0 {
        seq![]
    } else if is_blank(ls.last()) {
        significant_lines(ls.drop_last())
    } else {
        significant_lines(ls.drop_last()).push(trim_end(ls.last()))
    }
}

/// The `uses:` lines, trimmed.
pub open spec fn references(ls: Seq<Seq<char>>) -> Seq<Seq<char>>
    decreases ls.len(),
{
    if ls.len() == 0 {
        seq![]
    } else if starts_with(trim_start(ls.last()), "uses:"@) {
        references(ls.drop_last()).push(trim(ls.last()))
    } else {
        references(ls.drop_last())
    }
}

/// The references that are not pinned to a full commit SHA.
pub open spec fn unpinned(rs: Seq<Seq<char>>) -> Seq<Seq<char>>
    decreases rs.len(),
{
    if rs.len() == 0 {
        seq![]
    } else if full_sha(rs.last()) {
        unpinned(rs.drop_last())
    } else {
        unpinned(rs.drop_last()).push(rs.last())
    }
}

/// The lines that are not among `e`.
pub open spec fn unexpected(ls: Seq<Seq<char>>, e: Seq<Seq<char>>) -> Seq<Seq<char>>
    decreases ls.len(),
{
    if ls.len() == 0 {
        seq![]
    } else if e.contains(ls.last()) {
        unexpected(ls.drop_last(), e)
    } else {
        unexpected(ls.drop_last(), e).push(ls.last())
    }
}

pub open spec fn range_matches(ls: Seq<Seq<char>>, e: Seq<Seq<char>>, a: int, b: int) -> bool {
    b <= ls.len() && ls.subrange(a, b) == e.subrange(a, b)
}

pub open spec fn identity_msgs(path: Seq<char>, ls: Seq<Seq<char>>, e: Seq<Seq<char>>) -> Seq<
    Seq<char>,
> {
    if ls.len() == 0 || ls[0] != e[0] {
        seq![path + ": workflow identity drift; expected "@ + debug_text(e[0])]
    } else {
        seq![]
    }
}

pub open spec fn trigger_msgs(
    path: Seq<char>,
    ls: Seq<Seq<char>>,
    e: Seq<Seq<char>>,
    branch: Seq<char>,
) -> Seq<Seq<char>> {
    if range_matches(ls, e, 1, 6) {
        seq![]
    } else {
        let branch_msgs = if ls.len() >= 6 && ls.subrange(1, 6).contains(e[5]) {
            seq![]
        } else {
            seq![path + ": workflow branch drift; expected "@ + debug_text(e[5])]
        };
        branch_msgs.push(
            path + ": workflow trigger drift; expected unconfigured pull_request and push for "@
                + debug_text(branch) + " only"@,
        )
    }
}

pub open spec fn permission_msgs(path: Seq<char>, ls: Seq<Seq<char>>, e: Seq<Seq<char>>) -> Seq<
    Seq<char>,
> {
    if range_matches(ls, e, 6, 8) {
        seq![]
    } else {
        seq![path + ": workflow permission drift; expected top-level contents: read only"@]
    }
}

pub open spec fn immutable_msg(path: Seq<char>, r: Seq<char>) -> Seq<char> {
    path
        + ": immutable revision drift; reusable workflow reference is not pinned to a full commit SHA: "@
        + debug_text(r)
}

pub open spec fn immutable_msgs(path: Seq<char>, rs: Seq<Seq<char>>) -> Seq<Seq<char>>
    decreases rs.len(),
{
    if rs.len() == 0 {
        seq![]
    } else {
        immutable_msgs(path, rs.drop_last()).push(immutable_msg(path, rs.last()))
    }
}

pub open spec fn reference_msgs(path: Seq<char>, ls: Seq<Seq<char>>, c: WorkflowContract) -> Seq<
    Seq<char>,
> {
    let rs = references(ls);
    if rs == seq![reference_text(c)] {
        seq![]
    } else {
        immutable_msgs(path, unpinned(rs)).push(
            path + ": workflow profile or immutable revision drift; expected "@ + debug_text(
                reference_text(c),
            ) + ", found "@ + list_debug(rs),
        )
    }
}

pub open spec fn job_msgs(path: Seq<char>, ls: Seq<Seq<char>>, e: Seq<Seq<char>>) -> Seq<
    Seq<char>,
> {
    if ls.len() >= 8 && ls.subrange(8, ls.len() as int) == e.subrange(8, e.len() as int) {
        seq![]
    } else {
        seq![path + ": workflow job drift; expected sole reusable job 'validate'"@]
    }
}

pub open spec fn ordering_msgs(path: Seq<char>, ls: Seq<Seq<char>>, e: Seq<Seq<char>>) -> Seq<
    Seq<char>,
> {
    if ls == e || unexpected(ls, e).len() == 0 {
        seq![]
    } else {
        seq![path + ": unexpected workflow field or ordering drift: "@ + list_debug(unexpected(ls, e))]
    }
}

/// Every drift report for the workflow text `t` at `path`, held against `c`.
pub open spec fn workflow_msgs(path: Seq<char>, t: Seq<char>, c: WorkflowContract) -> Seq<
    Seq<char>,
> {
    workflow_line_msgs(path, lines(t), c)
}

/// Every drift report for a workflow whose lines are `raw`.
pub open spec fn workflow_line_msgs(path: Seq<char>, raw: Seq<Seq<char>>, c: WorkflowContract) -> Seq<
    Seq<char>,
> {
    let ls = significant_lines(raw);
    let e = expected_lines(c);
    identity_msgs(path, ls, e) + trigger_msgs(path, ls, e, c.branch@) + permission_msgs(path, ls, e)
        + reference_msgs(path, ls, c) + job_msgs(path, ls, e) + ordering_msgs(path, ls, e)
}

fn significant_lines_exec(ls: &Vec<Vec<char>>) -> (r: Vec<Vec<char>>)
    ensures
        views(r@) == significant_lines(views(ls@)),
{
    let mut r: Vec<Vec<char>> = Vec::new();
    let mut i: usize = 0;
    while i < ls.len()
        invariant
            i <= ls@.len(),
            views(r@) == significant_lines(views(ls@).subrange(0, i as int)),
        decreases ls@.len() - i,
    {
        let ghost p = views(ls@).subrange(0, i + 1);
        assert(p.drop_last() =~= views(ls@).subrange(0, i as int));
        if !blank(ls[i].as_slice()) {
            let t = trim_end_of(ls[i].as_slice());
            proof {
                lemma_views_push(r@, t);
            }
            r.push(t);
        }
        i = i + 1;
    }
    assert(views(ls@).subrange(0, i as int) =~= views(ls@));
    r
}

fn references_exec(ls: &Vec<Vec<char>>) -> (r: Vec<Vec<char>>)
    ensures
        views(r@) == references(views(ls@)),
{
    let uses = text("uses:");
    let mut r: Vec<Vec<char>> = Vec::new();
    let mut i: usize = 0;
    while i < ls.len()
        invariant
            i <= ls@.len(),
            uses@ == "uses:"@,
            views(r@) == references(views(ls@).subrange(0, i as int)),
        decreases ls@.len() - i,
    {
        let ghost p = views(ls@).subrange(0, i + 1);
        assert(p.drop_last() =~= views(ls@).subrange(0, i as int));
        let s = trim_start_of(ls[i].as_slice());
        if has_prefix(s.as_slice(), uses.as_slice()) {
            let t = trim_of(ls[i].as_slice());
            proof {
                lemma_views_push(r@, t);
            }
            r.push(t);
        }
        i = i + 1;
    }
    assert(views(ls@).subrange(0, i as int) =~= views(ls@));
    r
}

fn unpinned_exec(rs: &Vec<Vec<char>>) -> (r: Vec<Vec<char>>)
    ensures
        views(r@) == unpinned(views(rs@)),
{
    let mut r: Vec<Vec<char>> = Vec::new();
    let mut i: usize = 0;
    while i < rs.len()
        invariant
            i <= rs@.len(),
            views(r@) == unpinned(views(rs@).subrange(0, i as int)),
        decreases rs@.len() - i,
    {
        let ghost p = views(rs@).subrange(0, i + 1);
        assert(p.drop_last() =~= views(rs@).subrange(0, i as int));
        if !has_full_sha(rs[i].as_slice()) {
            let t = copy_text(rs[i].as_slice());
            proof {
                lemma_views_push(r@, t);
            }
            r.push(t);
        }
        i = i + 1;
    }
    assert(views(rs@).subrange(0, i as int) =~= views(rs@));
    r
}

fn contains_line(e: &Vec<Vec<char>>, l: &[char]) -> (r: bool)
    ensures
        r == views(e@).contains(l@),
{
    let mut i: usize = 0;
    while i < e.len()
        invariant
            i <= e@.len(),
            forall|j: int| 0 <= j < i ==> views(e@)[j] != l@,
        decreases e@.len() - i,
    {
        if same_text(e[i].as_slice(), l) {
            assert(views(e@)[i as int] == l@);
            return true;
        }
        i = i + 1;
    }
    false
}

fn unexpected_exec(ls: &Vec<Vec<char>>, e: &Vec<Vec<char>>) -> (r: Vec<Vec<char>>)
    ensures
        views(r@) == unexpected(views(ls@), views(e@)),
{
    let mut r: Vec<Vec<char>> = Vec::new();
    let mut i: usize = 0;
    while i < ls.len()
        invariant
            i <= ls@.len(),
            views(r@) == unexpected(views(ls@).subrange(0, i as int), views(e@)),
        decreases ls@.len() - i,
    {
        let ghost p = views(ls@).subrange(0, i + 1);
        assert(p.drop_last() =~= views(ls@).subrange(0, i as int));
        if !contains_line(e, ls[i].as_slice()) {
            let t = copy_text(ls[i].as_slice());
            proof {
                lemma_views_push(r@, t);
            }
            r.push(t);
        }
        i = i + 1;
    }
    assert(views(ls@).subrange(0, i as int) =~= views(ls@));
    r
}

/// `views(a[from..to]) == views(b[from..to])`, both within bounds.
fn same_range(a: &Vec<Vec<char>>, b: &Vec<Vec<char>>, from: usize, to: usize) -> (r: bool)
    requires
        from <= to <= a@.len(),
        to <= b@.len(),
    ensures
        r == (views(a@).subrange(from as int, to as int) == views(b@).subrange(
            from as int,
            to as int,
        )),
{
    let mut i = from;
    while i < to
        invariant
            from <= i <= to,
            to <= a@.len(),
            to <= b@.len(),
            forall|j: int| from <= j < i ==> views(a@)[j] == views(b@)[j],
        decreases to - i,
    {
        if !same_text(a[i].as_slice(), b[i].as_slice()) {
            assert(views(a@).subrange(from as int, to as int)[i - from] != views(b@).subrange(
                from as int,
                to as int,
            )[i - from]);
            return false;
        }
        i = i + 1;
    }
    assert(views(a@).subrange(from as int, to as int) =~= views(b@).subrange(
        from as int,
        to as int,
    ));
    true
}

fn contains_in_range(v: &Vec<Vec<char>>, l: &[char], from: usize, to: usize) -> (r: bool)
    requires
        from <= to <= v@.len(),
    ensures
        r == views(v@).subrange(from as int, to as int).contains(l@),
{
    let ghost sub = views(v@).subrange(from as int, to as int);
    let mut i = from;
    while i < to
        invariant
            from <= i <= to <= v@.len(),
            sub == views(v@).subrange(from as int, to as int),
            forall|j: int| 0 <= j < i - from ==> sub[j] != l@,
        decreases to - i,
    {
        if same_text(v[i].as_slice(), l) {
            assert(sub[i - from] == l@);
            return true;
        }
        assert(sub[i - from] == views(v@)[i as int]);
        i = i + 1;
    }
    false
}

fn push_msg(errors: &mut Vec<Vec<char>>, m: Vec<char>)
    ensures
        views(final(errors)@) == views(old(errors)@).push(m@),
{
    proof {
        lemma_views_push(errors@, m);
    }
    errors.push(m);
}

fn identity_check(path: &[char], ls: &Vec<Vec<char>>, e: &Vec<Vec<char>>, errors: &mut Vec<Vec<char>>)
    requires
        e@.len() == 11,
    ensures
        views(final(errors)@) == views(old(errors)@) + identity_msgs(path@, views(ls@), views(e@)),
{
    let ghost start = views(errors@);
    if ls.len() == 0 || !same_text(ls[0].as_slice(), e[0].as_slice()) {
        let mut m = cat(path, text(": workflow identity drift; expected ").as_slice());
        append(&mut m, debug_of(e[0].as_slice()).as_slice());
        push_msg(errors, m);
    }
    assert(views(errors@) =~= start + identity_msgs(path@, views(ls@), views(e@)));
}

fn trigger_check(
    path: &[char],
    ls: &Vec<Vec<char>>,
    e: &Vec<Vec<char>>,
    branch: &str,
    errors: &mut Vec<Vec<char>>,
)
    requires
        e@.len() == 11,
    ensures
        views(final(errors)@) == views(old(errors)@) + trigger_msgs(
            path@,
            views(ls@),
            views(e@),
            branch@,
        ),
{
    let ghost start = views(errors@);
    let trigger_ok = ls.len() >= 6 && same_range(ls, e, 1, 6);
    if !trigger_ok {
        let has_branch = ls.len() >= 6 && contains_in_range(ls, e[5].as_slice(), 1, 6);
        if !has_branch {
            let mut m = cat(path, text(": workflow branch drift; expected ").as_slice());
            append(&mut m, debug_of(e[5].as_slice()).as_slice());
            push_msg(errors, m);
        }
        let mut m = cat(
            path,
            text(
                ": workflow trigger drift; expected unconfigured pull_request and push for ",
            ).as_slice(),
        );
        append(&mut m, debug_of(text(branch).as_slice()).as_slice());
        append(&mut m, text(" only").as_slice());
        push_msg(errors, m);
    }
    assert(views(errors@) =~= start + trigger_msgs(path@, views(ls@), views(e@), branch@));
}

fn permission_check(
    path: &[char],
    ls: &Vec<Vec<char>>,
    e: &Vec<Vec<char>>,
    errors: &mut Vec<Vec<char>>,
)
    requires
        e@.len() == 11,
    ensures
        views(final(errors)@) == views(old(errors)@) + permission_msgs(path@, views(ls@), views(e@)),
{
    let ghost start = views(errors@);
    if !(ls.len() >= 8 && same_range(ls, e, 6, 8)) {
        let m = cat(
            path,
            text(": workflow permission drift; expected top-level contents: read only").as_slice(),
        );
        push_msg(errors, m);
    }
    assert(views(errors@) =~= start + permission_msgs(path@, views(ls@), views(e@)));
}

fn reference_check(
    path: &[char],
    ls: &Vec<Vec<char>>,
    contract: WorkflowContract,
    errors: &mut Vec<Vec<char>>,
)
    ensures
        views(final(errors)@) == views(old(errors)@) + reference_msgs(path@, views(ls@), contract),
{
    let ghost start = views(errors@);
    let refs = references_exec(ls);
    let expected_reference = contract.reusable_reference();
    let single = refs.len() == 1 && same_text(refs[0].as_slice(), expected_reference.as_slice());
    proof {
        if single {
            assert(views(refs@) =~= seq![reference_text(contract)]);
        } else if views(refs@) == seq![reference_text(contract)] {
            assert(views(refs@)[0] == reference_text(contract));
        }
    }
    if !single {
        let bad = unpinned_exec(&refs);
        let mut i: usize = 0;
        while i < bad.len()
            invariant
                i <= bad@.len(),
                views(errors@) == start + immutable_msgs(path@, views(bad@).subrange(0, i as int)),
            decreases bad@.len() - i,
        {
            let ghost p = views(bad@).subrange(0, i + 1);
            assert(p.drop_last() =~= views(bad@).subrange(0, i as int));
            let mut m = cat(
                path,
                text(
                    ": immutable revision drift; reusable workflow reference is not pinned to a full commit SHA: ",
                ).as_slice(),
            );
            append(&mut m, debug_of(bad[i].as_slice()).as_slice());
            push_msg(errors, m);
            i = i + 1;
        }
        assert(views(bad@).subrange(0, i as int) =~= views(bad@));
        let mut m = cat(
            path,
            text(": workflow profile or immutable revision drift; expected ").as_slice(),
        );
        append(&mut m, debug_of(expected_reference.as_slice()).as_slice());
        append(&mut m, text(", found ").as_slice());
        append(&mut m, list_debug_exec(&refs).as_slice());
        push_msg(errors, m);
    }
    assert(views(errors@) =~= start + reference_msgs(path@, views(ls@), contract));
}

fn job_check(path: &[char], ls: &Vec<Vec<char>>, e: &Vec<Vec<char>>, errors: &mut Vec<Vec<char>>)
    requires
        e@.len() == 11,
    ensures
        views(final(errors)@) == views(old(errors)@) + job_msgs(path@, views(ls@), views(e@)),
{
    let ghost start = views(errors@);
    let ghost sl = views(ls@);
    let ghost se = views(e@);
    if !(ls.len() == 11 && same_range(ls, e, 8, 11)) {
        proof {
            if sl.len() >= 8 && sl.subrange(8, sl.len() as int) == se.subrange(8, se.len() as int) {
                assert(sl.subrange(8, sl.len() as int).len() == sl.len() - 8);
                assert(se.subrange(8, se.len() as int).len() == 3);
                assert(sl.len() == 11);
            }
        }
        let m = cat(
            path,
            text(": workflow job drift; expected sole reusable job 'validate'").as_slice(),
        );
        push_msg(errors, m);
    }
    assert(views(errors@) =~= start + job_msgs(path@, sl, se));
}

fn ordering_check(
    path: &[char],
    ls: &Vec<Vec<char>>,
    e: &Vec<Vec<char>>,
    errors: &mut Vec<Vec<char>>,
)
    requires
        e@.len() == 11,
    ensures
        views(final(errors)@) == views(old(errors)@) + ordering_msgs(path@, views(ls@), views(e@)),
{
    let ghost start = views(errors@);
    let ghost sl = views(ls@);
    let ghost se = views(e@);
    let all_same = ls.len() == 11 && same_range(ls, e, 0, 11);
    proof {
        if all_same {
            assert(sl.subrange(0, 11) =~= sl);
            assert(se.subrange(0, 11) =~= se);
            assert(sl =~= se);
        } else if sl == se {
            assert(sl.subrange(0, 11) =~= se.subrange(0, 11));
        }
    }
    if !all_same {
        let un = unexpected_exec(ls, e);
        if un.len() > 0 {
            let mut m = cat(
                path,
                text(": unexpected workflow field or ordering drift: ").as_slice(),
            );
            append(&mut m, list_debug_exec(&un).as_slice());
            push_msg(errors, m);
        }
    }
    assert(views(errors@) =~= start + ordering_msgs(path@, sl, se));
}

/// Appends to `errors` every drift report for the workflow text `t` at `path`.
pub fn workflow_contract_failures(
    path: &[char],
    t: &[char],
    contract: WorkflowContract,
    errors: &mut Vec<Vec<char>>,
)
    ensures
        views(final(errors)@) == views(old(errors)@) + workflow_msgs(path@, t@, contract),
{
    let ghost start = views(errors@);
    let raw = lines_exec(t);
    let ls = significant_lines_exec(&raw);
    let e = contract.lines();
    assert(e@.len() == 11) by {
        assert(views(e@).len() == 11);
    }
    identity_check(path, &ls, &e, errors);
    trigger_check(path, &ls, &e, contract.branch, errors);
    permission_check(path, &ls, &e, errors);
    reference_check(path, &ls, contract, errors);
    job_check(path, &ls, &e, errors);
    ordering_check(path, &ls, &e, errors);
    assert(views(errors@) =~= start + workflow_msgs(path@, t@, contract));
}

} // verus!
