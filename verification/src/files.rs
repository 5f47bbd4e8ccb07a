//! File inventories, contract tokens, the pinned workflows and the
//! workflow-template metadata.

use vstd::prelude::*;
use crate::chars::{append, blank, contains_exec, contains_text, copy_text, debug_of, debug_text, ends_with, has_char, has_char_exec, has_suffix, is_blank, lemma_views_push, lower, lower_exec, text, views};
use crate::json::{parse_json, json_document, JsonDocument, JsonField, JsonMember};
use crate::order::{same_text, sorted_set, sorted_unique};
use crate::repo::{copy_path, display_path, display_text, inspect_components, inspect_components_exec, inspect_text, inspect_text_exec, path_of, relative_path, relative_text, same_path, Entry, Inspection, InspectionView, Kind, Repository};
use crate::scan::{extension, extension_of, found_file, msg, msg3, push_msg, read_msgs, read_result, read_utf8};
use crate::walk::{walk_entries, walk_order, walk_order_exec};
use crate::workflow::{set_debug, set_debug_exec, workflow_contract_failures, workflow_msgs, WorkflowContract};

verus! {

// ---------------------------------------------------------------------------
// Files directly below a directory
// ---------------------------------------------------------------------------

/// The directory that `insp` found, when it can be listed: its path.
pub open spec fn listable_dir(repo: Repository, insp: InspectionView) -> Option<Seq<Seq<char>>> {
    match insp {
        InspectionView::Found(None) => if repo.root_listing_error is None {
            Some(seq![])
        } else {
            None
        },
        InspectionView::Found(Some(i)) => if i < repo.entries@.len() && repo.entries@[i as int].kind
            matches Kind::Directory { listing_error: None } {
            Some(path_of(repo.entries@[i as int]))
        } else {
            None
        },
        _ => None,
    }
}

pub open spec fn is_child(dir: Seq<Seq<char>>, e: Entry) -> bool {
    path_of(e).len() == dir.len() + 1 && path_of(e).subrange(0, dir.len() as int) == dir
}

/// `x` equals one of `xs` when ASCII case is ignored on both sides.
pub open spec fn folded_member(xs: Seq<Seq<char>>, x: Seq<char>) -> bool {
    exists|k: int| 0 <= k < xs.len() && #[trigger] lower(xs[k]) == lower(x)
}

/// The extension of `e`'s name can be read as UTF-8 and is, ignoring ASCII
/// case, one of `exts` (with no `exts`, every file passes).
pub open spec fn extension_passes(e: Entry, exts: Option<Seq<Seq<char>>>) -> bool {
    match exts {
        None => true,
        Some(xs) => match extension(path_of(e).last()) {
            None => false,
            Some(x) => (e.utf8 || !has_char(x, '\u{FFFD}')) && folded_member(xs, x),
        },
    }
}

/// The path of a child file that counts, if it does.
pub open spec fn child_path(repo: Repository, e: Entry, exts: Option<Seq<Seq<char>>>) -> Option<
    Seq<char>,
> {
    match e.kind {
        Kind::File { .. } => if extension_passes(e, exts) {
            relative_text(e)
        } else {
            None
        },
        _ => None,
    }
}

/// What a child reports.
pub open spec fn child_msgs(repo: Repository, e: Entry, exts: Option<Seq<Seq<char>>>) -> Seq<
    Seq<char>,
> {
    let shown = display_text(repo.root_display@, path_of(e));
    match e.kind {
        Kind::Uninspectable { error } => seq![shown + ": failed to inspect path: "@ + error@],
        Kind::Symlink { .. } => match relative_text(e) {
            Some(r) => seq![r + ": symbolic links are not permitted"@],
            None => seq![shown + ": unsupported path encoding"@],
        },
        Kind::File { .. } => if extension_passes(e, exts) && relative_text(e) is None {
            seq![shown + ": unsupported path encoding"@]
        } else {
            seq![]
        },
        _ => seq![],
    }
}

pub open spec fn children_paths(
    repo: Repository,
    dir: Seq<Seq<char>>,
    exts: Option<Seq<Seq<char>>>,
    es: Seq<Entry>,
) -> Seq<Seq<char>>
    decreases es.len(),
{
    if es.len() == 0 {
        seq![]
    } else {
        let rest = children_paths(repo, dir, exts, es.drop_last());
        if is_child(dir, es.last()) && child_path(repo, es.last(), exts) is Some {
            rest.push(child_path(repo, es.last(), exts).unwrap())
        } else {
            rest
        }
    }
}

pub open spec fn children_msgs(
    repo: Repository,
    dir: Seq<Seq<char>>,
    exts: Option<Seq<Seq<char>>>,
    es: Seq<Entry>,
) -> Seq<Seq<char>>
    decreases es.len(),
{
    if es.len() == 0 {
        seq![]
    } else {
        let rest = children_msgs(repo, dir, exts, es.drop_last());
        if is_child(dir, es.last()) {
            rest + child_msgs(repo, es.last(), exts)
        } else {
            rest
        }
    }
}

/// The relative paths of the files directly below `reldir` (with a passing
/// extension), sorted and without duplicates.
pub open spec fn below_paths(repo: Repository, reldir: Seq<char>, exts: Option<Seq<Seq<char>>>) -> Seq<
    Seq<char>,
> {
    match listable_dir(repo, inspect_text(repo, reldir)) {
        Some(d) => sorted_set(children_paths(repo, d, exts, repo.entries@)),
        None => seq![],
    }
}

/// What listing the files directly below `reldir` reports.
pub open spec fn below_msgs(repo: Repository, reldir: Seq<char>, exts: Option<Seq<Seq<char>>>) -> Seq<
    Seq<char>,
> {
    let insp = inspect_text(repo, reldir);
    match insp {
        InspectionView::Symlink | InspectionView::Escapes => seq![
            reldir + ": symbolic links are not permitted"@,
        ],
        InspectionView::Failed(e) => seq![reldir + ": failed to inspect path: "@ + e],
        _ => match listable_dir(repo, insp) {
            Some(d) => children_msgs(repo, d, exts, repo.entries@),
            None => seq![],
        },
    }
}

fn listable_dir_exec(repo: &Repository, insp: &Inspection) -> (r: Option<Vec<Vec<char>>>)
    ensures
        match (r, listable_dir(*repo, insp@)) {
            (Some(v), Some(d)) => views(v@) == d,
            (None, None) => true,
            _ => false,
        },
{
    match insp {
        Inspection::Found(None) => {
            if repo.root_listing_error.is_none() {
                let v: Vec<Vec<char>> = Vec::new();
                assert(views(v@) =~= seq![]);
                Some(v)
            } else {
                None
            }
        },
        Inspection::Found(Some(i)) => {
            if *i < repo.entries.len() {
                match &repo.entries[*i].kind {
                    Kind::Directory { listing_error: None } => Some(copy_path(&repo.entries[*i].path)),
                    _ => None,
                }
            } else {
                None
            }
        },
        _ => None,
    }
}

fn is_child_exec(dir: &Vec<Vec<char>>, e: &Entry) -> (r: bool)
    ensures
        r == is_child(views(dir@), *e),
{
    if e.path.len() == 0 || e.path.len() - 1 != dir.len() {
        return false;
    }
    let mut i: usize = 0;
    while i < dir.len()
        invariant
            e.path@.len() == dir@.len() + 1,
            i <= dir@.len(),
            forall|j: int| 0 <= j < i ==> path_of(*e)[j] == views(dir@)[j],
        decreases dir@.len() - i,
    {
        if !same_text(e.path[i].as_slice(), dir[i].as_slice()) {
            assert(path_of(*e).subrange(0, dir@.len() as int)[i as int] != views(dir@)[i as int]);
            return false;
        }
        i = i + 1;
    }
    assert(path_of(*e).subrange(0, dir@.len() as int) =~= views(dir@));
    true
}

fn one_of_folded(v: &Vec<Vec<char>>, s: &[char]) -> (r: bool)
    ensures
        r == folded_member(views(v@), s@),
{
    let key = lower_exec(s);
    let mut i: usize = 0;
    while i < v.len()
        invariant
            i <= v@.len(),
            key@ == lower(s@),
            forall|j: int| 0 <= j < i ==> lower(#[trigger] views(v@)[j]) != lower(s@),
        decreases v@.len() - i,
    {
        let candidate = lower_exec(v[i].as_slice());
        if same_text(candidate.as_slice(), key.as_slice()) {
            assert(lower(views(v@)[i as int]) == lower(s@));
            return true;
        }
        i = i + 1;
    }
    false
}

fn extension_passes_exec(e: &Entry, exts: Option<&Vec<Vec<char>>>) -> (r: bool)
    requires
        e.path@.len() > 0,
    ensures
        r == extension_passes(
            *e,
            match exts {
                Some(v) => Some(views(v@)),
                None => None,
            },
        ),
{
    match exts {
        None => true,
        Some(xs) => {
            let n = e.path.len();
            match extension_of(e.path[n - 1].as_slice()) {
                None => false,
                Some(x) => {
                    if !e.utf8 && has_char_exec(x.as_slice(), '\u{FFFD}') {
                        return false;
                    }
                    one_of_folded(xs, x.as_slice())
                },
            }
        },
    }
}

/// Collects the files directly below `reldir` (with an extension among `exts`,
/// when given), reporting links, uninspectable children and non-UTF-8 paths.
pub fn files_directly_below(
    repo: &Repository,
    reldir: &[char],
    exts: Option<&Vec<Vec<char>>>,
    errors: &mut Vec<Vec<char>>,
) -> (r: Vec<Vec<char>>)
    ensures
        ({
            let xs = match exts {
                Some(v) => Some(views(v@)),
                None => None,
            };
            &&& views(final(errors)@) == views(old(errors)@) + below_msgs(*repo, reldir@, xs)
            &&& views(r@) == below_paths(*repo, reldir@, xs)
        }),
{
    let ghost xs = match exts {
        Some(v) => Some(views(v@)),
        None => None,
    };
    let ghost start = views(errors@);
    let insp = inspect_text_exec(repo, reldir);
    match &insp {
        Inspection::Symlink | Inspection::Escapes => {
            push_msg(errors, msg(reldir, ": symbolic links are not permitted"));
            let v: Vec<Vec<char>> = Vec::new();
            proof {
                assert(views(v@) =~= seq![]);
                assert(views(errors@) =~= start + below_msgs(*repo, reldir@, xs));
            }
            return v;
        },
        Inspection::Failed(e) => {
            push_msg(errors, msg3(reldir, ": failed to inspect path: ", e.as_slice()));
            let v: Vec<Vec<char>> = Vec::new();
            proof {
                assert(views(v@) =~= seq![]);
                assert(views(errors@) =~= start + below_msgs(*repo, reldir@, xs));
            }
            return v;
        },
        _ => {},
    }
    let dir = match listable_dir_exec(repo, &insp) {
        Some(d) => d,
        None => {
            let v: Vec<Vec<char>> = Vec::new();
            proof {
                assert(views(v@) =~= seq![]);
                assert(views(errors@) =~= start + below_msgs(*repo, reldir@, xs));
            }
            return v;
        },
    };
    let ghost d = views(dir@);
    let mut found: Vec<Vec<char>> = Vec::new();
    let mut k: usize = 0;
    while k < repo.entries.len()
        invariant
            k <= repo.entries@.len(),
            d == views(dir@),
            xs == match exts {
                Some(v) => Some(views(v@)),
                None => None,
            },
            views(errors@) == start + children_msgs(
                *repo,
                d,
                xs,
                repo.entries@.subrange(0, k as int),
            ),
            views(found@) == children_paths(*repo, d, xs, repo.entries@.subrange(0, k as int)),
        decreases repo.entries@.len() - k,
    {
        let ghost p = repo.entries@.subrange(0, k + 1);
        assert(p.drop_last() =~= repo.entries@.subrange(0, k as int));
        let ghost before = views(errors@);
        let e = &repo.entries[k];
        if is_child_exec(&dir, e) {
            match &e.kind {
                Kind::Uninspectable { error } => {
                    let shown = display_path(repo, &e.path);
                    push_msg(errors, msg3(shown.as_slice(), ": failed to inspect path: ", error.as_slice()));
                },
                Kind::Symlink { .. } => {
                    match relative_path(e) {
                        Some(r) => {
                            push_msg(errors, msg(r.as_slice(), ": symbolic links are not permitted"));
                        },
                        None => {
                            let shown = display_path(repo, &e.path);
                            push_msg(errors, msg(shown.as_slice(), ": unsupported path encoding"));
                        },
                    }
                },
                Kind::File { .. } => {
                    if extension_passes_exec(e, exts) {
                        match relative_path(e) {
                            Some(r) => {
                                proof {
                                    lemma_views_push(found@, r);
                                }
                                found.push(r);
                            },
                            None => {
                                let shown = display_path(repo, &e.path);
                                push_msg(errors, msg(shown.as_slice(), ": unsupported path encoding"));
                            },
                        }
                    }
                },
                _ => {},
            }
        }
        assert(views(errors@) =~= before + (if is_child(d, repo.entries@[k as int]) {
            child_msgs(*repo, repo.entries@[k as int], xs)
        } else {
            seq![]
        }));
        k = k + 1;
    }
    assert(repo.entries@.subrange(0, k as int) =~= repo.entries@);
    let r = sorted_unique(&found);
    assert(views(errors@) =~= start + below_msgs(*repo, reldir@, xs));
    r
}

// ---------------------------------------------------------------------------
// Inventories
// ---------------------------------------------------------------------------

fn same_list(a: &Vec<Vec<char>>, b: &Vec<Vec<char>>) -> (r: bool)
    ensures
        r == (views(a@) == views(b@)),
{
    same_path(a, b)
}

/// What an exact inventory of the files directly below `dir` reports.
pub open spec fn exact_inventory_msgs(
    repo: Repository,
    dir: Seq<char>,
    expected: Seq<Seq<char>>,
    kind: Seq<char>,
) -> Seq<Seq<char>> {
    let actual = below_paths(repo, dir, None);
    let ex = sorted_set(expected);
    below_msgs(repo, dir, None) + if actual == ex {
        seq![]
    } else {
        seq![
            kind + " inventory mismatch; expected "@ + set_debug(ex) + ", found "@ + set_debug(
                actual,
            ),
        ]
    }
}

/// What the active-workflow inventory reports.
pub open spec fn active_inventory_msgs(repo: Repository) -> Seq<Seq<char>> {
    let dir = ".github/workflows"@;
    let xs = Some(crate::lists::active_extensions());
    let actual = below_paths(repo, dir, xs);
    let ex = sorted_set(crate::lists::active_workflows());
    below_msgs(repo, dir, xs) + if actual == ex {
        seq![]
    } else {
        seq![
            "active workflow inventory drift; expected "@ + set_debug(ex) + ", found "@ + set_debug(
                actual,
            ),
        ]
    }
}

/// What the inventory rule reports: the issue templates and the workflow
/// templates are exactly the accepted suites, and the only active workflow is
/// the validation workflow.
pub open spec fn inventory_msgs(repo: Repository) -> Seq<Seq<char>> {
    exact_inventory_msgs(
        repo,
        ".github/ISSUE_TEMPLATE"@,
        crate::lists::issue_templates(),
        "issue-template"@,
    ) + exact_inventory_msgs(
        repo,
        "workflow-templates"@,
        crate::lists::workflow_templates(),
        "workflow-template"@,
    ) + active_inventory_msgs(repo)
}

pub fn validate_exact_inventory(
    repo: &Repository,
    directory: &str,
    expected_paths: &Vec<Vec<char>>,
    kind: &str,
    errors: &mut Vec<Vec<char>>,
)
    ensures
        views(final(errors)@) == views(old(errors)@) + exact_inventory_msgs(
            *repo,
            directory@,
            views(expected_paths@),
            kind@,
        ),
{
    let ghost start = views(errors@);
    let actual = files_directly_below(repo, text(directory).as_slice(), None, errors);
    let ghost s1 = views(errors@);
    let expected = sorted_unique(expected_paths);
    if !same_list(&actual, &expected) {
        let mut m = text(kind);
        append(&mut m, text(" inventory mismatch; expected ").as_slice());
        append(&mut m, set_debug_exec(&expected).as_slice());
        append(&mut m, text(", found ").as_slice());
        append(&mut m, set_debug_exec(&actual).as_slice());
        push_msg(errors, m);
    }
    assert(views(errors@) =~= start + exact_inventory_msgs(
        *repo,
        directory@,
        views(expected_paths@),
        kind@,
    ));
}

/// Appends what the inventory rule reports.
pub fn validate_file_inventories(repo: &Repository, errors: &mut Vec<Vec<char>>)
    ensures
        views(final(errors)@) == views(old(errors)@) + inventory_msgs(*repo),
{
    let ghost start = views(errors@);
    validate_exact_inventory(
        repo,
        ".github/ISSUE_TEMPLATE",
        &crate::lists::issue_templates_list(),
        "issue-template",
        errors,
    );
    validate_exact_inventory(
        repo,
        "workflow-templates",
        &crate::lists::workflow_templates_list(),
        "workflow-template",
        errors,
    );
    let ghost s2 = views(errors@);
    let xs = crate::lists::active_extensions_list();
    let actual = files_directly_below(repo, text(".github/workflows").as_slice(), Some(&xs), errors);
    let expected = sorted_unique(&crate::lists::active_workflows_list());
    if !same_list(&actual, &expected) {
        let mut m = text("active workflow inventory drift; expected ");
        append(&mut m, set_debug_exec(&expected).as_slice());
        append(&mut m, text(", found ").as_slice());
        append(&mut m, set_debug_exec(&actual).as_slice());
        push_msg(errors, m);
    }
    assert(views(errors@) =~= s2 + active_inventory_msgs(*repo));
    assert(views(errors@) =~= start + inventory_msgs(*repo));
}

// ---------------------------------------------------------------------------
// Contract tokens
// ---------------------------------------------------------------------------

pub open spec fn missing_token_msgs(rel: Seq<char>, t: Seq<char>, ts: Seq<Seq<char>>) -> Seq<
    Seq<char>,
>
    decreases ts.len(),
{
    if ts.len() == 0 {
        seq![]
    } else {
        let rest = missing_token_msgs(rel, t, ts.drop_last());
        if contains_text(t, ts.last()) {
            rest
        } else {
            rest.push(rel + ": missing required contract token "@ + debug_text(ts.last()))
        }
    }
}

/// What requiring the tokens `ts` of the file `rel` reports.
pub open spec fn require_msgs(repo: Repository, rel: Seq<char>, ts: Seq<Seq<char>>) -> Seq<
    Seq<char>,
> {
    let insp = inspect_text(repo, rel);
    read_msgs(repo, insp, rel) + match read_result(repo, insp) {
        None => seq![],
        Some(t) => missing_token_msgs(rel, t, ts),
    }
}

/// Appends what requiring `tokens` of the file `relative` reports.
pub fn require_tokens(
    repo: &Repository,
    relative: &str,
    tokens: &Vec<Vec<char>>,
    errors: &mut Vec<Vec<char>>,
)
    ensures
        views(final(errors)@) == views(old(errors)@) + require_msgs(
            *repo,
            relative@,
            views(tokens@),
        ),
{
    let ghost start = views(errors@);
    let rel = text(relative);
    let insp = inspect_text_exec(repo, rel.as_slice());
    let t = match read_utf8(repo, &insp, rel.as_slice(), errors) {
        Some(t) => t,
        None => {
            assert(views(errors@) =~= start + require_msgs(*repo, relative@, views(tokens@)));
            return;
        },
    };
    let ghost s1 = views(errors@);
    let mut k: usize = 0;
    while k < tokens.len()
        invariant
            k <= tokens@.len(),
            views(errors@) == s1 + missing_token_msgs(
                rel@,
                t@,
                views(tokens@).subrange(0, k as int),
            ),
        decreases tokens@.len() - k,
    {
        let ghost p = views(tokens@).subrange(0, k + 1);
        assert(p.drop_last() =~= views(tokens@).subrange(0, k as int));
        if !contains_exec(t.as_slice(), tokens[k].as_slice()) {
            let d = debug_of(tokens[k].as_slice());
            push_msg(errors, msg3(rel.as_slice(), ": missing required contract token ", d.as_slice()));
        }
        k = k + 1;
    }
    assert(views(tokens@).subrange(0, k as int) =~= views(tokens@));
    assert(views(errors@) =~= start + require_msgs(*repo, relative@, views(tokens@)));
}

/// What the community-health contracts report.
pub open spec fn public_contract_msgs(repo: Repository) -> Seq<Seq<char>> {
    require_msgs(repo, "CONTRIBUTING.md"@, crate::lists::contributing_tokens()) + require_msgs(
        repo,
        "GOVERNANCE.md"@,
        crate::lists::governance_tokens(),
    ) + require_msgs(repo, "CODE_OF_CONDUCT.md"@, crate::lists::conduct_tokens()) + require_msgs(
        repo,
        "SECURITY.md"@,
        crate::lists::security_tokens(),
    ) + require_msgs(repo, "PULL_REQUEST_TEMPLATE.md"@, crate::lists::pull_request_tokens())
}

/// What the issue forms report.
pub open spec fn issue_form_msgs(repo: Repository) -> Seq<Seq<char>> {
    require_msgs(repo, ".github/ISSUE_TEMPLATE/config.yml"@, crate::lists::config_tokens())
        + require_msgs(repo, ".github/ISSUE_TEMPLATE/defect.yml"@, crate::lists::defect_tokens())
        + require_msgs(
        repo,
        ".github/ISSUE_TEMPLATE/proposal.yml"@,
        crate::lists::proposal_tokens(),
    )
}

pub fn validate_public_contracts(repo: &Repository, errors: &mut Vec<Vec<char>>)
    ensures
        views(final(errors)@) == views(old(errors)@) + public_contract_msgs(*repo),
{
    let ghost start = views(errors@);
    require_tokens(repo, "CONTRIBUTING.md", &crate::lists::contributing_tokens_list(), errors);
    require_tokens(repo, "GOVERNANCE.md", &crate::lists::governance_tokens_list(), errors);
    require_tokens(repo, "CODE_OF_CONDUCT.md", &crate::lists::conduct_tokens_list(), errors);
    require_tokens(repo, "SECURITY.md", &crate::lists::security_tokens_list(), errors);
    require_tokens(
        repo,
        "PULL_REQUEST_TEMPLATE.md",
        &crate::lists::pull_request_tokens_list(),
        errors,
    );
    assert(views(errors@) =~= start + public_contract_msgs(*repo));
}

pub fn validate_issue_forms(repo: &Repository, errors: &mut Vec<Vec<char>>)
    ensures
        views(final(errors)@) == views(old(errors)@) + issue_form_msgs(*repo),
{
    let ghost start = views(errors@);
    require_tokens(
        repo,
        ".github/ISSUE_TEMPLATE/config.yml",
        &crate::lists::config_tokens_list(),
        errors,
    );
    require_tokens(
        repo,
        ".github/ISSUE_TEMPLATE/defect.yml",
        &crate::lists::defect_tokens_list(),
        errors,
    );
    require_tokens(
        repo,
        ".github/ISSUE_TEMPLATE/proposal.yml",
        &crate::lists::proposal_tokens_list(),
        errors,
    );
    assert(views(errors@) =~= start + issue_form_msgs(*repo));
}

// ---------------------------------------------------------------------------
// Pinned workflows
// ---------------------------------------------------------------------------

/// What the pinned workflow file of `c` reports.
pub open spec fn workflow_file_msgs(repo: Repository, c: WorkflowContract) -> Seq<Seq<char>> {
    let p = c.path@;
    let insp = inspect_text(repo, p);
    read_msgs(repo, insp, p) + match read_result(repo, insp) {
        None => seq![],
        Some(t) => workflow_msgs(p, t, c),
    }
}

pub open spec fn workflows_msgs(repo: Repository, cs: Seq<WorkflowContract>) -> Seq<Seq<char>>
    decreases cs.len(),
{
    if cs.len() == 0 {
        seq![]
    } else {
        workflows_msgs(repo, cs.drop_last()) + workflow_file_msgs(repo, cs.last())
    }
}

pub fn validate_workflows(repo: &Repository, errors: &mut Vec<Vec<char>>)
    ensures
        views(final(errors)@) == views(old(errors)@) + workflows_msgs(
            *repo,
            crate::workflow::pinned_workflows(),
        ),
{
    let ghost start = views(errors@);
    let cs = crate::workflow::workflow_contracts();
    let mut k: usize = 0;
    while k < cs.len()
        invariant
            k <= cs@.len(),
            views(errors@) == start + workflows_msgs(*repo, cs@.subrange(0, k as int)),
        decreases cs@.len() - k,
    {
        let ghost p = cs@.subrange(0, k + 1);
        assert(p.drop_last() =~= cs@.subrange(0, k as int));
        let ghost before = views(errors@);
        let c = cs[k];
        let path = text(c.path);
        let insp = inspect_text_exec(repo, path.as_slice());
        if let Some(t) = read_utf8(repo, &insp, path.as_slice(), errors) {
            workflow_contract_failures(path.as_slice(), t.as_slice(), c, errors);
        }
        assert(views(errors@) =~= before + workflow_file_msgs(*repo, c));
        k = k + 1;
    }
    assert(cs@.subrange(0, k as int) =~= crate::workflow::pinned_workflows());
}

// ---------------------------------------------------------------------------
// Workflow-template metadata
// ---------------------------------------------------------------------------

/// The value of the first member named `key` from member `i` on.
pub open spec fn member_from(ms: Seq<JsonMember>, key: Seq<char>, i: int) -> Option<JsonField>
    decreases ms.len() - i,
{
    if i < 0 || i >= ms.len() {
        None
    } else if ms[i].key@ == key {
        Some(ms[i].value)
    } else {
        member_from(ms, key, i + 1)
    }
}

/// `value.get(key)`: the member named `key` of an object.
pub open spec fn member(doc: JsonDocument, key: Seq<char>) -> Option<JsonField> {
    match doc {
        JsonDocument::Object(ms) => member_from(ms@, key, 0),
        JsonDocument::Other => None,
    }
}

/// The member is a string that is not blank.
pub open spec fn filled_string(doc: JsonDocument, key: Seq<char>) -> bool {
    member(doc, key) matches Some(JsonField::Text(s)) && !is_blank(s@)
}

/// The member is a non-empty list of non-empty strings.
pub open spec fn filled_list(doc: JsonDocument, key: Seq<char>) -> bool {
    match member(doc, key) {
        Some(JsonField::List(items)) => items@.len() > 0 && forall|i: int|
            0 <= i < items@.len() ==> (#[trigger] items@[i] matches Some(s) && s@.len() > 0),
        _ => false,
    }
}

pub open spec fn string_msg(rel: Seq<char>, doc: JsonDocument, key: Seq<char>) -> Seq<Seq<char>> {
    if filled_string(doc, key) {
        seq![]
    } else {
        seq![rel + ": "@ + key + " must be a non-empty string"@]
    }
}

pub open spec fn list_msg(rel: Seq<char>, doc: JsonDocument, key: Seq<char>) -> Seq<Seq<char>> {
    if filled_list(doc, key) {
        seq![]
    } else {
        seq![rel + ": "@ + key + " must be a non-empty list of non-empty strings"@]
    }
}

/// What the fields of a metadata document report: `name`, `description` and
/// `iconName` are non-blank strings; `categories` and `filePatterns` are
/// non-empty lists of non-empty strings.
pub open spec fn property_field_msgs(rel: Seq<char>, doc: JsonDocument) -> Seq<Seq<char>> {
    string_msg(rel, doc, "name"@) + string_msg(rel, doc, "description"@) + string_msg(
        rel,
        doc,
        "iconName"@,
    ) + list_msg(rel, doc, "categories"@) + list_msg(rel, doc, "filePatterns"@)
}

fn member_exec<'a>(doc: &'a JsonDocument, key: &str) -> (r: Option<&'a JsonField>)
    ensures
        match (r, member(*doc, key@)) {
            (Some(a), Some(b)) => *a == b,
            (None, None) => true,
            _ => false,
        },
{
    match doc {
        JsonDocument::Object(ms) => {
            let k = text(key);
            let mut i: usize = 0;
            while i < ms.len()
                invariant
                    i <= ms@.len(),
                    k@ == key@,
                    member(*doc, key@) == member_from(ms@, key@, i as int),
                decreases ms@.len() - i,
            {
                if same_text(text(ms[i].key.as_str()).as_slice(), k.as_slice()) {
                    return Some(&ms[i].value);
                }
                i = i + 1;
            }
            None
        },
        JsonDocument::Other => None,
    }
}

fn string_check(rel: &[char], doc: &JsonDocument, key: &str, errors: &mut Vec<Vec<char>>)
    ensures
        views(final(errors)@) == views(old(errors)@) + string_msg(rel@, *doc, key@),
{
    let ghost start = views(errors@);
    let ok = match member_exec(doc, key) {
        Some(JsonField::Text(s)) => !blank(text(s.as_str()).as_slice()),
        _ => false,
    };
    if !ok {
        let mut m = msg(rel, ": ");
        append(&mut m, text(key).as_slice());
        append(&mut m, text(" must be a non-empty string").as_slice());
        push_msg(errors, m);
    }
    assert(views(errors@) =~= start + string_msg(rel@, *doc, key@));
}

fn list_check(rel: &[char], doc: &JsonDocument, key: &str, errors: &mut Vec<Vec<char>>)
    ensures
        views(final(errors)@) == views(old(errors)@) + list_msg(rel@, *doc, key@),
{
    let ghost start = views(errors@);
    let ok = match member_exec(doc, key) {
        Some(JsonField::List(items)) => {
            let mut all = items.len() > 0;
            let mut i: usize = 0;
            while i < items.len() && all
                invariant
                    i <= items@.len(),
                    all ==> items@.len() > 0,
                    all ==> forall|j: int|
                        0 <= j < i ==> (#[trigger] items@[j] matches Some(s) && s@.len() > 0),
                    !all ==> !(items@.len() > 0 && forall|j: int|
                        0 <= j < items@.len() ==> (#[trigger] items@[j] matches Some(s) && s@.len()
                            > 0)),
                decreases items@.len() - i,
            {
                match &items[i] {
                    Some(s) => {
                        if text(s.as_str()).len() == 0 {
                            all = false;
                        }
                    },
                    None => {
                        all = false;
                    },
                }
                i = i + 1;
            }
            all
        },
        _ => false,
    };
    if !ok {
        let mut m = msg(rel, ": ");
        append(&mut m, text(key).as_slice());
        append(&mut m, text(" must be a non-empty list of non-empty strings").as_slice());
        push_msg(errors, m);
    }
    assert(views(errors@) =~= start + list_msg(rel@, *doc, key@));
}

/// Appends what the fields of the parsed metadata document `doc`, read from
/// the file `rel`, report.
pub fn workflow_property_failures(rel: &[char], doc: &JsonDocument, errors: &mut Vec<Vec<char>>)
    ensures
        views(final(errors)@) == views(old(errors)@) + property_field_msgs(rel@, *doc),
{
    let ghost start = views(errors@);
    string_check(rel, doc, "name", errors);
    string_check(rel, doc, "description", errors);
    string_check(rel, doc, "iconName", errors);
    list_check(rel, doc, "categories", errors);
    list_check(rel, doc, "filePatterns", errors);
    assert(views(errors@) =~= start + property_field_msgs(rel@, *doc));
}

/// `s` with every trailing `p` removed (`str::trim_end_matches`).
pub open spec fn strip_suffixes(s: Seq<char>, p: Seq<char>) -> Seq<char>
    decreases s.len(),
{
    if p.len() > 0 && ends_with(s, p) {
        strip_suffixes(s.subrange(0, s.len() - p.len()), p)
    } else {
        s
    }
}

/// The workflow template that a metadata file `name` in `dir` describes exists.
pub open spec fn sibling_msgs(
    repo: Repository,
    dir: Seq<Seq<char>>,
    name: Seq<char>,
    rel: Seq<char>,
) -> Seq<Seq<char>> {
    let yml = strip_suffixes(name, ".properties.json"@) + ".yml"@;
    if found_file(repo, inspect_components(repo, dir.push(yml))) {
        seq![]
    } else {
        seq![rel + ": matching workflow template is missing"@]
    }
}

/// A child of the template directory that is a metadata file by its name.
pub open spec fn is_properties_name(e: Entry) -> bool {
    let name = path_of(e).last();
    (e.utf8 || !has_char(name, '\u{FFFD}')) && ends_with(name, ".properties.json"@)
}

/// What one metadata file reports.
pub open spec fn properties_file_msgs(repo: Repository, dir: Seq<Seq<char>>, e: Entry) -> Seq<
    Seq<char>,
> {
    match relative_text(e) {
        None => seq![display_text(repo.root_display@, path_of(e)) + ": unsupported path encoding"@],
        Some(r) => {
            let insp = inspect_components(repo, path_of(e));
            read_msgs(repo, insp, r) + match read_result(repo, insp) {
                None => seq![r + ": invalid JSON"@],
                Some(t) => match json_document(t) {
                    None => seq![r + ": invalid JSON"@],
                    Some(doc) => property_field_msgs(r, doc) + sibling_msgs(
                        repo,
                        dir,
                        path_of(e).last(),
                        r,
                    ),
                },
            }
        },
    }
}

pub open spec fn properties_entries_msgs(
    repo: Repository,
    dir: Seq<Seq<char>>,
    es: Seq<Entry>,
) -> Seq<Seq<char>>
    decreases es.len(),
{
    if es.len() == 0 {
        seq![]
    } else {
        let rest = properties_entries_msgs(repo, dir, es.drop_last());
        if is_child(dir, es.last()) && is_properties_name(es.last()) {
            rest + properties_file_msgs(repo, dir, es.last())
        } else {
            rest
        }
    }
}

/// What the metadata rule reports for every `*.properties.json` directly
/// below `workflow-templates`, taken in path order.
pub open spec fn properties_msgs(repo: Repository) -> Seq<Seq<char>> {
    let d = "workflow-templates"@;
    let insp = inspect_text(repo, d);
    match insp {
        InspectionView::Symlink | InspectionView::Escapes => seq![
            d + ": symbolic links are not permitted"@,
        ],
        InspectionView::Failed(e) => seq![d + ": failed to inspect path: "@ + e],
        _ => match listable_dir(repo, insp) {
            Some(dir) => properties_entries_msgs(repo, dir, walk_entries(repo.entries@)),
            None => seq![],
        },
    }
}

fn strip_suffixes_exec(s: &[char], p: &[char]) -> (r: Vec<char>)
    ensures
        r@ == strip_suffixes(s@, p@),
{
    let mut n = s.len();
    let mut cur = copy_text(s);
    while p.len() > 0 && has_suffix(cur.as_slice(), p)
        invariant
            cur@ == s@.subrange(0, n as int),
            n <= s@.len(),
            strip_suffixes(s@, p@) == strip_suffixes(cur@, p@),
        decreases n,
    {
        assert(cur@.subrange(0, cur@.len() - p@.len()) =~= s@.subrange(0, n - p@.len()));
        n = n - p.len();
        cur = crate::chars::slice_of(s, 0, n);
    }
    cur
}

fn properties_file_check(
    repo: &Repository,
    dir: &Vec<Vec<char>>,
    e: &Entry,
    errors: &mut Vec<Vec<char>>,
)
    requires
        e.path@.len() > 0,
    ensures
        views(final(errors)@) == views(old(errors)@) + properties_file_msgs(*repo, views(dir@), *e),
{
    let ghost start = views(errors@);
    let r = match relative_path(e) {
        Some(r) => r,
        None => {
            let shown = display_path(repo, &e.path);
            push_msg(errors, msg(shown.as_slice(), ": unsupported path encoding"));
            assert(views(errors@) =~= start + properties_file_msgs(*repo, views(dir@), *e));
            return;
        },
    };
    let insp = inspect_components_exec(repo, &e.path);
    let t = read_utf8(repo, &insp, r.as_slice(), errors);
    let ghost s1 = views(errors@);
    let doc = match t {
        Some(t) => parse_json(&crate::chars::to_string(t.as_slice())),
        None => None,
    };
    let doc = match doc {
        Some(doc) => doc,
        None => {
            push_msg(errors, msg(r.as_slice(), ": invalid JSON"));
            assert(views(errors@) =~= start + properties_file_msgs(*repo, views(dir@), *e));
            return;
        },
    };
    workflow_property_failures(r.as_slice(), &doc, errors);
    let ghost s2 = views(errors@);
    let name = &e.path[e.path.len() - 1];
    let mut yml = strip_suffixes_exec(name.as_slice(), text(".properties.json").as_slice());
    append(&mut yml, text(".yml").as_slice());
    let mut sibling = copy_path(dir);
    proof {
        lemma_views_push(sibling@, yml);
    }
    sibling.push(yml);
    let found = inspect_components_exec(repo, &sibling);
    let is_file = match &found {
        Inspection::Found(Some(i)) => match &repo.entries[*i].kind {
            Kind::File { .. } => true,
            _ => false,
        },
        _ => false,
    };
    if !is_file {
        push_msg(errors, msg(r.as_slice(), ": matching workflow template is missing"));
    }
    assert(views(errors@) =~= start + properties_file_msgs(*repo, views(dir@), *e));
}

/// Appends what the metadata rule reports.
pub fn validate_workflow_properties(repo: &Repository, errors: &mut Vec<Vec<char>>)
    ensures
        views(final(errors)@) == views(old(errors)@) + properties_msgs(*repo),
{
    let ghost start = views(errors@);
    let d = text("workflow-templates");
    let insp = inspect_text_exec(repo, d.as_slice());
    match &insp {
        Inspection::Symlink | Inspection::Escapes => {
            push_msg(errors, msg(d.as_slice(), ": symbolic links are not permitted"));
            assert(views(errors@) =~= start + properties_msgs(*repo));
            return;
        },
        Inspection::Failed(e) => {
            push_msg(errors, msg3(d.as_slice(), ": failed to inspect path: ", e.as_slice()));
            assert(views(errors@) =~= start + properties_msgs(*repo));
            return;
        },
        _ => {},
    }
    let dir = match listable_dir_exec(repo, &insp) {
        Some(dir) => dir,
        None => {
            assert(views(errors@) =~= start + properties_msgs(*repo));
            return;
        },
    };
    let suffix = text(".properties.json");
    let ord = walk_order_exec(&repo.entries);
    let ghost w = walk_entries(repo.entries@);
    let mut k: usize = 0;
    while k < ord.len()
        invariant
            k <= ord@.len(),
            ord@ == walk_order(repo.entries@),
            forall|j: int| 0 <= j < ord@.len() ==> #[trigger] ord@[j] < repo.entries@.len(),
            w == walk_entries(repo.entries@),
            w.len() == ord@.len(),
            suffix@ == ".properties.json"@,
            views(errors@) == start + properties_entries_msgs(
                *repo,
                views(dir@),
                w.subrange(0, k as int),
            ),
        decreases ord@.len() - k,
    {
        let ghost p = w.subrange(0, k + 1);
        assert(p.drop_last() =~= w.subrange(0, k as int));
        let e = &repo.entries[ord[k]];
        assert(p.last() == *e);
        if is_child_exec(&dir, e) {
            let name = &e.path[e.path.len() - 1];
            let named = (e.utf8 || !has_char_exec(name.as_slice(), '\u{FFFD}')) && has_suffix(
                name.as_slice(),
                suffix.as_slice(),
            );
            if named {
                properties_file_check(repo, &dir, e, errors);
            }
        }
        k = k + 1;
    }
    assert(w.subrange(0, k as int) =~= w);
}

} // verus!
