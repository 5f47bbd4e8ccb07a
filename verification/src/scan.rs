//! Reading files, the required-file manifest, and the hygiene of every text
//! file in the repository (encoding, final newline, white space, historical
//! owner tokens and relative Markdown links).

use vstd::prelude::*;
use vstd::utf8::valid_utf8;
use vstd::utf8::decode_utf8;
use crate::chars::{after_last, append, cat, contains_exec, contains_text, copy_text, debug_of, debug_text, decimal, decimal_exec, has_char, has_char_exec, has_prefix, lemma_views_push, last_index, lines, lines_exec, lower, lower_exec, starts_with, text, trim, trim_of, views};
use crate::markdown::{link_file_part, link_file_part_exec, link_targets, markdown_link_targets, percent_decode, percent_decoded};
use crate::order::{lemma_path_total, path_lt, same_text};
use crate::walk::{entries_at, no_repeats, strictly_path_sorted, unique_paths, walk_entries, walk_order, walk_order_exec, walk_sorted};
use crate::repo::{display_path, display_text, find_entry, find_entry_exec, inspect_components, inspect_components_exec, inspect_text, inspect_text_exec, path_of, relative_path, relative_text, resolve_link, resolve_link_exec, copy_path, Content, Entry, Inspection, InspectionView, Kind, Repository, Resolution, ResolutionView};

verus! {

pub fn push_msg(errors: &mut Vec<Vec<char>>, m: Vec<char>)
    ensures
        views(final(errors)@) == views(old(errors)@).push(m@),
{
    proof {
        lemma_views_push(errors@, m);
    }
    errors.push(m);
}

/// `a + b` as a new message.
pub fn msg(a: &[char], b: &str) -> (r: Vec<char>)
    ensures
        r@ == a@ + b@,
{
    cat(a, text(b).as_slice())
}

/// `a + b + c` as a new message.
pub fn msg3(a: &[char], b: &str, c: &[char]) -> (r: Vec<char>)
    ensures
        r@ == a@ + b@ + c@,
{
    let mut r = cat(a, text(b).as_slice());
    append(&mut r, c);
    r
}

// ---------------------------------------------------------------------------
// Reading UTF-8 files
// ---------------------------------------------------------------------------

/// The kind of the entry an inspection found, if it found one.
pub open spec fn found_kind(repo: Repository, insp: InspectionView) -> Option<Kind> {
    match insp {
        InspectionView::Found(Some(i)) => if i < repo.entries@.len() {
            Some(repo.entries@[i as int].kind)
        } else {
            None
        },
        _ => None,
    }
}

pub open spec fn found_file(repo: Repository, insp: InspectionView) -> bool {
    found_kind(repo, insp) matches Some(Kind::File { .. })
}

/// The text of the file an inspection found, when it is a readable UTF-8 file.
pub open spec fn read_result(repo: Repository, insp: InspectionView) -> Option<Seq<char>> {
    match found_kind(repo, insp) {
        Some(Kind::File { content: Content::Bytes(b), .. }) => if valid_utf8(b@) {
            Some(decode_utf8(b@))
        } else {
            None
        },
        _ => None,
    }
}

/// What reading the file an inspection found reports, `rel` naming it.
pub open spec fn read_msgs(repo: Repository, insp: InspectionView, rel: Seq<char>) -> Seq<
    Seq<char>,
> {
    match found_kind(repo, insp) {
        Some(Kind::File { content: Content::Bytes(b), .. }) => if valid_utf8(b@) {
            seq![]
        } else {
            seq![rel + ": failed to read UTF-8 text"@]
        },
        Some(Kind::File { content: Content::Unreadable(e), .. }) => seq![
            rel + ": failed to read UTF-8 text: "@ + e@,
        ],
        _ => match insp {
            InspectionView::Symlink | InspectionView::Escapes => seq![
                rel + ": symbolic links are not permitted"@,
            ],
            InspectionView::Failed(e) => seq![rel + ": failed to inspect path: "@ + e],
            _ => seq![rel + ": failed to read UTF-8 text: file is missing"@],
        },
    }
}

/// Reads the UTF-8 text of the file that `insp` found, reporting each failure under `rel`.
pub fn read_utf8(
    repo: &Repository,
    insp: &Inspection,
    rel: &[char],
    errors: &mut Vec<Vec<char>>,
) -> (r: Option<Vec<char>>)
    ensures
        views(final(errors)@) == views(old(errors)@) + read_msgs(*repo, insp@, rel@),
        match (r, read_result(*repo, insp@)) {
            (Some(t), Some(s)) => t@ == s,
            (None, None) => true,
            _ => false,
        },
{
    let ghost start = views(errors@);
    if let Inspection::Found(Some(i)) = insp {
        if *i < repo.entries.len() {
            match &repo.entries[*i].kind {
                Kind::File { content: Content::Bytes(b), .. } => {
                    match crate::chars::decode_strict(b.as_slice()) {
                        Some(t) => {
                            assert(views(errors@) =~= start + read_msgs(*repo, insp@, rel@));
                            return Some(t);
                        },
                        None => {
                            push_msg(errors, msg(rel, ": failed to read UTF-8 text"));
                            assert(views(errors@) =~= start + read_msgs(*repo, insp@, rel@));
                            return None;
                        },
                    }
                },
                Kind::File { content: Content::Unreadable(e), .. } => {
                    push_msg(errors, msg3(rel, ": failed to read UTF-8 text: ", e.as_slice()));
                    assert(views(errors@) =~= start + read_msgs(*repo, insp@, rel@));
                    return None;
                },
                _ => {},
            }
        }
    }
    match insp {
        Inspection::Symlink | Inspection::Escapes => {
            push_msg(errors, msg(rel, ": symbolic links are not permitted"));
        },
        Inspection::Failed(e) => {
            push_msg(errors, msg3(rel, ": failed to inspect path: ", e.as_slice()));
        },
        _ => {
            push_msg(errors, msg(rel, ": failed to read UTF-8 text: file is missing"));
        },
    }
    assert(views(errors@) =~= start + read_msgs(*repo, insp@, rel@));
    None
}

// ---------------------------------------------------------------------------
// The required-file manifest
// ---------------------------------------------------------------------------

/// What one line of the manifest reports.
pub open spec fn required_line_msgs(repo: Repository, line: Seq<char>) -> Seq<Seq<char>> {
    let r = trim(line);
    if r.len() == 0 || r[0] == '#' {
        seq![]
    } else {
        let insp = inspect_text(repo, r);
        match found_kind(repo, insp) {
            Some(Kind::File { len, .. }) => if len > 0 {
                seq![]
            } else {
                seq![r + ": required file is empty"@]
            },
            _ => match insp {
                InspectionView::Symlink | InspectionView::Escapes => seq![
                    r + ": symbolic links are not permitted"@,
                ],
                InspectionView::Failed(e) => seq![r + ": failed to inspect path: "@ + e],
                _ => seq![r + ": required file is missing"@],
            },
        }
    }
}

pub open spec fn required_lines_msgs(repo: Repository, ls: Seq<Seq<char>>) -> Seq<Seq<char>>
    decreases ls.len(),
{
    if ls.len() == 0 {
        seq![]
    } else {
        required_lines_msgs(repo, ls.drop_last()) + required_line_msgs(repo, ls.last())
    }
}

/// Paths that must not exist.
pub open spec fn forbidden_paths() -> Seq<Seq<char>> {
    seq![
        ".github/ISSUE_TEMPLATE/architecture.yml"@,
        ".github/ISSUE_TEMPLATE/bug.yml"@,
        ".github/ISSUE_TEMPLATE/feature.yml"@,
        "scripts/validate.py"@,
    ]
}

pub open spec fn forbidden_msg(repo: Repository, f: Seq<char>) -> Seq<Seq<char>> {
    if inspect_text(repo, f) == InspectionView::Missing {
        seq![]
    } else if f == "scripts/validate.py"@ {
        seq![f + ": retired Python validator must not exist"@]
    } else {
        seq![f + ": retired issue form must not exist"@]
    }
}

pub open spec fn forbidden_msgs(repo: Repository, fs: Seq<Seq<char>>) -> Seq<Seq<char>>
    decreases fs.len(),
{
    if fs.len() == 0 {
        seq![]
    } else {
        forbidden_msgs(repo, fs.drop_last()) + forbidden_msg(repo, fs.last())
    }
}

/// What the required-path rule reports: each manifest line naming a missing,
/// empty or linked file, then each retired path that exists.  When the manifest
/// cannot be read, only that is reported.
pub open spec fn required_msgs(repo: Repository) -> Seq<Seq<char>> {
    let m = "validation-required-files.txt"@;
    let insp = inspect_text(repo, m);
    match read_result(repo, insp) {
        None => read_msgs(repo, insp, m),
        Some(t) => read_msgs(repo, insp, m) + required_lines_msgs(repo, lines(t)) + forbidden_msgs(
            repo,
            forbidden_paths(),
        ),
    }
}

fn required_line_check(repo: &Repository, line: &[char], errors: &mut Vec<Vec<char>>)
    ensures
        views(final(errors)@) == views(old(errors)@) + required_line_msgs(*repo, line@),
{
    let ghost start = views(errors@);
    let r = trim_of(line);
    if r.len() == 0 || r[0] == '#' {
        assert(views(errors@) =~= start + required_line_msgs(*repo, line@));
        return;
    }
    let insp = inspect_text_exec(repo, r.as_slice());
    if let Inspection::Found(Some(i)) = &insp {
        if let Kind::File { len, .. } = &repo.entries[*i].kind {
            if *len == 0 {
                push_msg(errors, msg(r.as_slice(), ": required file is empty"));
            }
            assert(views(errors@) =~= start + required_line_msgs(*repo, line@));
            return;
        }
    }
    match &insp {
        Inspection::Symlink | Inspection::Escapes => {
            push_msg(errors, msg(r.as_slice(), ": symbolic links are not permitted"));
        },
        Inspection::Failed(e) => {
            push_msg(errors, msg3(r.as_slice(), ": failed to inspect path: ", e.as_slice()));
        },
        _ => {
            push_msg(errors, msg(r.as_slice(), ": required file is missing"));
        },
    }
    assert(views(errors@) =~= start + required_line_msgs(*repo, line@));
}

pub fn forbidden_list() -> (r: Vec<Vec<char>>)
    ensures
        views(r@) == forbidden_paths(),
{
    let mut r: Vec<Vec<char>> = Vec::new();
    r.push(text(".github/ISSUE_TEMPLATE/architecture.yml"));
    r.push(text(".github/ISSUE_TEMPLATE/bug.yml"));
    r.push(text(".github/ISSUE_TEMPLATE/feature.yml"));
    r.push(text("scripts/validate.py"));
    assert(views(r@) =~= forbidden_paths());
    r
}

/// Appends what the required-path rule reports.
pub fn validate_required_paths(repo: &Repository, errors: &mut Vec<Vec<char>>)
    ensures
        views(final(errors)@) == views(old(errors)@) + required_msgs(*repo),
{
    let ghost start = views(errors@);
    let m = text("validation-required-files.txt");
    let insp = inspect_text_exec(repo, m.as_slice());
    let contents = read_utf8(repo, &insp, m.as_slice(), errors);
    let ghost s1 = views(errors@);
    let contents = match contents {
        Some(c) => c,
        None => {
            return;
        },
    };
    let ls = lines_exec(contents.as_slice());
    let mut k: usize = 0;
    while k < ls.len()
        invariant
            k <= ls@.len(),
            views(errors@) == s1 + required_lines_msgs(*repo, views(ls@).subrange(0, k as int)),
        decreases ls@.len() - k,
    {
        let ghost p = views(ls@).subrange(0, k + 1);
        assert(p.drop_last() =~= views(ls@).subrange(0, k as int));
        required_line_check(repo, ls[k].as_slice(), errors);
        k = k + 1;
        assert(views(errors@) =~= s1 + required_lines_msgs(*repo, views(ls@).subrange(0, k as int)));
    }
    assert(views(ls@).subrange(0, k as int) =~= views(ls@));
    let ghost s2 = views(errors@);
    let fs = forbidden_list();
    let validator = text("scripts/validate.py");
    let mut j: usize = 0;
    while j < fs.len()
        invariant
            j <= fs@.len(),
            views(fs@) == forbidden_paths(),
            validator@ == "scripts/validate.py"@,
            views(errors@) == s2 + forbidden_msgs(*repo, views(fs@).subrange(0, j as int)),
        decreases fs@.len() - j,
    {
        let ghost p = views(fs@).subrange(0, j + 1);
        assert(p.drop_last() =~= views(fs@).subrange(0, j as int));
        let ghost before = views(errors@);
        let insp = inspect_text_exec(repo, fs[j].as_slice());
        if !matches!(insp, Inspection::Missing) {
            if same_text(fs[j].as_slice(), validator.as_slice()) {
                push_msg(errors, msg(fs[j].as_slice(), ": retired Python validator must not exist"));
            } else {
                push_msg(errors, msg(fs[j].as_slice(), ": retired issue form must not exist"));
            }
        }
        assert(views(errors@) =~= before + forbidden_msg(*repo, views(fs@)[j as int]));
        j = j + 1;
    }
    assert(views(fs@).subrange(0, j as int) =~= forbidden_paths());
    assert(views(errors@) =~= start + required_msgs(*repo));
}

} // verus!

verus! {

// ---------------------------------------------------------------------------
// Which files are text, and which paths are organization surfaces
// ---------------------------------------------------------------------------

/// `Path::extension` of a file name: what follows its last `.`, unless that
/// `.` is the first character (or there is none).
pub open spec fn extension(name: Seq<char>) -> Option<Seq<char>> {
    let d = last_index(name, '.', name.len() as int);
    if d <= 0 || name == ".."@ {
        None
    } else {
        Some(name.subrange(d + 1, name.len() as int))
    }
}

pub fn extension_of(name: &[char]) -> (r: Option<Vec<char>>)
    ensures
        match (r, extension(name@)) {
            (Some(v), Some(x)) => v@ == x,
            (None, None) => true,
            _ => false,
        },
{
    let a = after_last(name, '.');
    if a <= 1 || same_text(name, text("..").as_slice()) {
        return None;
    }
    Some(crate::chars::slice_of(name, a, name.len()))
}

pub open spec fn text_suffixes() -> Seq<Seq<char>> {
    seq!["json"@, "md"@, "py"@, "toml"@, "txt"@, "yaml"@, "yml"@]
}

/// Files whose hygiene is checked: `CODEOWNERS`, and names whose extension is,
/// ignoring ASCII case, one of the text suffixes.
pub open spec fn is_text_name(name: Seq<char>) -> bool {
    name == "CODEOWNERS"@ || (extension(name) matches Some(x) && text_suffixes().contains(lower(x)))
}

pub open spec fn is_markdown_name(name: Seq<char>) -> bool {
    extension(name) matches Some(x) && lower(x) == "md"@
}

fn one_of(v: &Vec<Vec<char>>, s: &[char]) -> (r: bool)
    ensures
        r == views(v@).contains(s@),
{
    let mut i: usize = 0;
    while i < v.len()
        invariant
            i <= v@.len(),
            forall|j: int| 0 <= j < i ==> views(v@)[j] != s@,
        decreases v@.len() - i,
    {
        if same_text(v[i].as_slice(), s) {
            assert(views(v@)[i as int] == s@);
            return true;
        }
        i = i + 1;
    }
    false
}

fn text_suffix_list() -> (r: Vec<Vec<char>>)
    ensures
        views(r@) == text_suffixes(),
{
    let mut r: Vec<Vec<char>> = Vec::new();
    r.push(text("json"));
    r.push(text("md"));
    r.push(text("py"));
    r.push(text("toml"));
    r.push(text("txt"));
    r.push(text("yaml"));
    r.push(text("yml"));
    assert(views(r@) =~= text_suffixes());
    r
}

pub fn is_text_path(name: &[char]) -> (r: bool)
    ensures
        r == is_text_name(name@),
{
    if same_text(name, text("CODEOWNERS").as_slice()) {
        return true;
    }
    match extension_of(name) {
        Some(x) => {
            let l = lower_exec(x.as_slice());
            one_of(&text_suffix_list(), l.as_slice())
        },
        None => false,
    }
}

fn is_markdown_path(name: &[char]) -> (r: bool)
    ensures
        r == is_markdown_name(name@),
{
    match extension_of(name) {
        Some(x) => same_text(lower_exec(x.as_slice()).as_slice(), text("md").as_slice()),
        None => false,
    }
}

pub open spec fn namespace_exact() -> Seq<Seq<char>> {
    seq![
        "AGENTS.md"@,
        "CODE_OF_CONDUCT.md"@,
        "CONTRIBUTING.md"@,
        "GOVERNANCE.md"@,
        "PULL_REQUEST_TEMPLATE.md"@,
        "README.md"@,
        "SECURITY.md"@,
        "SUPPORT.md"@,
    ]
}

pub open spec fn namespace_prefixes() -> Seq<Seq<char>> {
    seq![".github/ISSUE_TEMPLATE/"@, "profile/"@, "workflow-templates/"@]
}

/// The organization's own surfaces: the community-health files at the root and
/// everything below the issue templates, the profile and the workflow templates.
pub open spec fn is_namespace(rel: Seq<char>) -> bool {
    namespace_exact().contains(rel) || exists|i: int|
        0 <= i < namespace_prefixes().len() && starts_with(rel, #[trigger] namespace_prefixes()[i])
}

pub fn is_namespace_surface(rel: &[char]) -> (r: bool)
    ensures
        r == is_namespace(rel@),
{
    let mut exact: Vec<Vec<char>> = Vec::new();
    exact.push(text("AGENTS.md"));
    exact.push(text("CODE_OF_CONDUCT.md"));
    exact.push(text("CONTRIBUTING.md"));
    exact.push(text("GOVERNANCE.md"));
    exact.push(text("PULL_REQUEST_TEMPLATE.md"));
    exact.push(text("README.md"));
    exact.push(text("SECURITY.md"));
    exact.push(text("SUPPORT.md"));
    assert(views(exact@) =~= namespace_exact());
    if one_of(&exact, rel) {
        return true;
    }
    let mut prefixes: Vec<Vec<char>> = Vec::new();
    prefixes.push(text(".github/ISSUE_TEMPLATE/"));
    prefixes.push(text("profile/"));
    prefixes.push(text("workflow-templates/"));
    assert(views(prefixes@) =~= namespace_prefixes());
    let mut i: usize = 0;
    while i < prefixes.len()
        invariant
            i <= prefixes@.len(),
            views(prefixes@) == namespace_prefixes(),
            forall|j: int| 0 <= j < i ==> !starts_with(rel@, #[trigger] namespace_prefixes()[j]),
        decreases prefixes@.len() - i,
    {
        if has_prefix(rel, prefixes[i].as_slice()) {
            assert(starts_with(rel@, namespace_prefixes()[i as int]));
            return true;
        }
        i = i + 1;
    }
    false
}

// ---------------------------------------------------------------------------
// The content of one text file
// ---------------------------------------------------------------------------

pub open spec fn line_item_msgs(rel: Seq<char>, n: nat, line: Seq<char>) -> Seq<Seq<char>> {
    let trailing = if line.len() > 0 && (line.last() == ' ' || line.last() == '\t') {
        seq![rel + ":"@ + decimal(n) + ": trailing whitespace"@]
    } else {
        seq![]
    };
    let tab = if has_char(line, '\t') {
        seq![rel + ":"@ + decimal(n) + ": tab character"@]
    } else {
        seq![]
    };
    trailing + tab
}

/// What the lines report, numbered from 1.
pub open spec fn line_msgs(rel: Seq<char>, ls: Seq<Seq<char>>) -> Seq<Seq<char>>
    decreases ls.len(),
{
    if ls.len() == 0 {
        seq![]
    } else {
        line_msgs(rel, ls.drop_last()) + line_item_msgs(rel, ls.len(), ls.last())
    }
}

pub open spec fn owner_tokens() -> Seq<Seq<char>> {
    seq!["github.com/crystonix/"@, "`crystonix/"@, "crystonix/runen"@]
}

pub open spec fn token_msgs(rel: Seq<char>, lowered: Seq<char>, ts: Seq<Seq<char>>) -> Seq<
    Seq<char>,
>
    decreases ts.len(),
{
    if ts.len() == 0 {
        seq![]
    } else {
        let rest = token_msgs(rel, lowered, ts.drop_last());
        if contains_text(lowered, ts.last()) {
            rest.push(rel + ": contains historical owner token "@ + debug_text(ts.last()))
        } else {
            rest
        }
    }
}

/// Historical owner tokens on an organization surface, in any ASCII case.
pub open spec fn owner_msgs(rel: Seq<char>, t: Seq<char>) -> Seq<Seq<char>> {
    if is_namespace(rel) {
        token_msgs(rel, lower(t), owner_tokens())
    } else {
        seq![]
    }
}

/// What one link target of the Markdown file `rel` in directory `dir` reports.
/// A symbolic link on the way is reported for the Markdown file, with the raw
/// target, and under the path of the link target.
pub open spec fn link_msg(
    repo: Repository,
    dir: Seq<Seq<char>>,
    rel: Seq<char>,
    target: Seq<char>,
) -> Seq<Seq<char>> {
    match link_file_part(target) {
        None => seq![],
        Some(f) => {
            let raw = trim(target);
            match resolve_link(repo, dir, percent_decoded(f)) {
                ResolutionView::Exists => seq![],
                ResolutionView::Escapes => seq![rel + ": link escapes repository: "@ + raw],
                ResolutionView::Symlink(p) => seq![
                    rel + ": symbolic links are not permitted: "@ + raw,
                    p + ": symbolic links are not permitted"@,
                ],
                ResolutionView::Missing => seq![rel + ": broken relative link: "@ + raw],
                ResolutionView::Failed(e) => seq![
                    rel + ": failed to inspect relative link "@ + raw + ": "@ + e,
                ],
            }
        },
    }
}

pub open spec fn link_msgs(
    repo: Repository,
    dir: Seq<Seq<char>>,
    rel: Seq<char>,
    ts: Seq<Seq<char>>,
) -> Seq<Seq<char>>
    decreases ts.len(),
{
    if ts.len() == 0 {
        seq![]
    } else {
        link_msgs(repo, dir, rel, ts.drop_last()) + link_msg(repo, dir, rel, ts.last())
    }
}

/// What the bytes `b` of the text file at `comps` (named `rel`) report.
pub open spec fn content_msgs(
    repo: Repository,
    comps: Seq<Seq<char>>,
    rel: Seq<char>,
    b: Seq<u8>,
) -> Seq<Seq<char>> {
    if b.contains(0u8) {
        seq![rel + ": contains a NUL byte"@]
    } else if !valid_utf8(b) {
        seq![rel + ": is not valid UTF-8"@]
    } else {
        let t = decode_utf8(b);
        let newline = if t.len() > 0 && t.last() != '\n' {
            seq![rel + ": must end with a newline"@]
        } else {
            seq![]
        };
        let links = if comps.len() > 0 && is_markdown_name(comps.last()) {
            link_msgs(repo, comps.drop_last(), rel, link_targets(t))
        } else {
            seq![]
        };
        newline + line_msgs(rel, lines(t)) + owner_msgs(rel, t) + links
    }
}

/// What the text file at `comps` (named `rel`) reports.
pub open spec fn text_file_msgs(repo: Repository, comps: Seq<Seq<char>>, rel: Seq<char>) -> Seq<
    Seq<char>,
> {
    let insp = inspect_components(repo, comps);
    match found_kind(repo, insp) {
        Some(Kind::File { content: Content::Bytes(b), .. }) => content_msgs(repo, comps, rel, b@),
        Some(Kind::File { content: Content::Unreadable(e), .. }) => seq![
            rel + ": failed to read text: "@ + e@,
        ],
        _ => match insp {
            InspectionView::Symlink | InspectionView::Escapes => seq![
                rel + ": symbolic links are not permitted"@,
            ],
            InspectionView::Failed(e) => seq![rel + ": failed to inspect path: "@ + e],
            _ => seq![],
        },
    }
}

fn line_checks(rel: &[char], ls: &Vec<Vec<char>>, errors: &mut Vec<Vec<char>>)
    ensures
        views(final(errors)@) == views(old(errors)@) + line_msgs(rel@, views(ls@)),
{
    let ghost start = views(errors@);
    let mut k: usize = 0;
    while k < ls.len()
        invariant
            k <= ls@.len(),
            views(errors@) == start + line_msgs(rel@, views(ls@).subrange(0, k as int)),
        decreases ls@.len() - k,
    {
        let ghost p = views(ls@).subrange(0, k + 1);
        assert(p.drop_last() =~= views(ls@).subrange(0, k as int));
        let ghost before = views(errors@);
        let line = &ls[k];
        let number = decimal_exec(k + 1);
        let n = line.len();
        if n > 0 && (line[n - 1] == ' ' || line[n - 1] == '\t') {
            let mut m = cat(rel, text(":").as_slice());
            append(&mut m, number.as_slice());
            append(&mut m, text(": trailing whitespace").as_slice());
            push_msg(errors, m);
        }
        if has_char_exec(line.as_slice(), '\t') {
            let mut m = cat(rel, text(":").as_slice());
            append(&mut m, number.as_slice());
            append(&mut m, text(": tab character").as_slice());
            push_msg(errors, m);
        }
        assert(views(errors@) =~= before + line_item_msgs(rel@, (k + 1) as nat, views(ls@)[k as int]));
        k = k + 1;
    }
    assert(views(ls@).subrange(0, k as int) =~= views(ls@));
}

fn owner_checks(rel: &[char], t: &[char], errors: &mut Vec<Vec<char>>)
    ensures
        views(final(errors)@) == views(old(errors)@) + owner_msgs(rel@, t@),
{
    let ghost start = views(errors@);
    if !is_namespace_surface(rel) {
        assert(views(errors@) =~= start + owner_msgs(rel@, t@));
        return;
    }
    let lowered = lower_exec(t);
    let mut tokens: Vec<Vec<char>> = Vec::new();
    tokens.push(text("github.com/crystonix/"));
    tokens.push(text("`crystonix/"));
    tokens.push(text("crystonix/runen"));
    assert(views(tokens@) =~= owner_tokens());
    let mut k: usize = 0;
    while k < tokens.len()
        invariant
            k <= tokens@.len(),
            views(errors@) == start + token_msgs(
                rel@,
                lowered@,
                views(tokens@).subrange(0, k as int),
            ),
        decreases tokens@.len() - k,
    {
        let ghost p = views(tokens@).subrange(0, k + 1);
        assert(p.drop_last() =~= views(tokens@).subrange(0, k as int));
        if contains_exec(lowered.as_slice(), tokens[k].as_slice()) {
            let d = debug_of(tokens[k].as_slice());
            push_msg(errors, msg3(rel, ": contains historical owner token ", d.as_slice()));
        }
        k = k + 1;
    }
    assert(views(tokens@).subrange(0, k as int) =~= owner_tokens());
}

fn link_check(
    repo: &Repository,
    dir: &Vec<Vec<char>>,
    rel: &[char],
    target: &[char],
    errors: &mut Vec<Vec<char>>,
)
    ensures
        views(final(errors)@) == views(old(errors)@) + link_msg(*repo, views(dir@), rel@, target@),
{
    let ghost start = views(errors@);
    let f = match link_file_part_exec(target) {
        Some(f) => f,
        None => {
            assert(views(errors@) =~= start + link_msg(*repo, views(dir@), rel@, target@));
            return;
        },
    };
    let raw = trim_of(target);
    let decoded = percent_decode(f.as_slice());
    match resolve_link_exec(repo, dir, decoded.as_slice()) {
        Resolution::Exists => {},
        Resolution::Escapes => {
            push_msg(errors, msg3(rel, ": link escapes repository: ", raw.as_slice()));
        },
        Resolution::Symlink(p) => {
            push_msg(errors, msg3(rel, ": symbolic links are not permitted: ", raw.as_slice()));
            push_msg(errors, msg(p.as_slice(), ": symbolic links are not permitted"));
        },
        Resolution::Missing => {
            push_msg(errors, msg3(rel, ": broken relative link: ", raw.as_slice()));
        },
        Resolution::Failed(e) => {
            let mut m = msg3(rel, ": failed to inspect relative link ", raw.as_slice());
            append(&mut m, text(": ").as_slice());
            append(&mut m, e.as_slice());
            push_msg(errors, m);
        },
    }
    assert(views(errors@) =~= start + link_msg(*repo, views(dir@), rel@, target@));
}

/// Appends what the relative links of the Markdown text `t` report; the file is
/// named `rel` and lies in directory `dir`.
pub fn validate_markdown_links(
    repo: &Repository,
    dir: &Vec<Vec<char>>,
    rel: &[char],
    t: &[char],
    errors: &mut Vec<Vec<char>>,
)
    ensures
        views(final(errors)@) == views(old(errors)@) + link_msgs(
            *repo,
            views(dir@),
            rel@,
            link_targets(t@),
        ),
{
    let ghost start = views(errors@);
    let ts = markdown_link_targets(t);
    let mut k: usize = 0;
    while k < ts.len()
        invariant
            k <= ts@.len(),
            views(errors@) == start + link_msgs(
                *repo,
                views(dir@),
                rel@,
                views(ts@).subrange(0, k as int),
            ),
        decreases ts@.len() - k,
    {
        let ghost p = views(ts@).subrange(0, k + 1);
        assert(p.drop_last() =~= views(ts@).subrange(0, k as int));
        link_check(repo, dir, rel, ts[k].as_slice(), errors);
        k = k + 1;
    }
    assert(views(ts@).subrange(0, k as int) =~= views(ts@));
}

fn has_nul(b: &[u8]) -> (r: bool)
    ensures
        r == b@.contains(0u8),
{
    let mut i: usize = 0;
    while i < b.len()
        invariant
            i <= b@.len(),
            forall|j: int| 0 <= j < i ==> b@[j] != 0u8,
        decreases b@.len() - i,
    {
        if b[i] == 0 {
            assert(b@[i as int] == 0u8);
            return true;
        }
        i = i + 1;
    }
    false
}

fn content_checks(
    repo: &Repository,
    comps: &Vec<Vec<char>>,
    rel: &[char],
    b: &[u8],
    errors: &mut Vec<Vec<char>>,
)
    ensures
        views(final(errors)@) == views(old(errors)@) + content_msgs(*repo, views(comps@), rel@, b@),
{
    let ghost start = views(errors@);
    if has_nul(b) {
        push_msg(errors, msg(rel, ": contains a NUL byte"));
        assert(views(errors@) =~= start + content_msgs(*repo, views(comps@), rel@, b@));
        return;
    }
    let t = match crate::chars::decode_strict(b) {
        Some(t) => t,
        None => {
            push_msg(errors, msg(rel, ": is not valid UTF-8"));
            assert(views(errors@) =~= start + content_msgs(*repo, views(comps@), rel@, b@));
            return;
        },
    };
    if t.len() > 0 && t[t.len() - 1] != '\n' {
        push_msg(errors, msg(rel, ": must end with a newline"));
    }
    let ghost s1 = views(errors@);
    let ls = lines_exec(t.as_slice());
    line_checks(rel, &ls, errors);
    let ghost s2 = views(errors@);
    owner_checks(rel, t.as_slice(), errors);
    let ghost s3 = views(errors@);
    if comps.len() > 0 && is_markdown_path(comps[comps.len() - 1].as_slice()) {
        let mut dir = crate::repo::copy_path(comps);
        let ghost before = dir@;
        dir.pop();
        assert(views(dir@) =~= views(before).drop_last());
        validate_markdown_links(repo, &dir, rel, t.as_slice(), errors);
    }
    assert(views(errors@) =~= start + content_msgs(*repo, views(comps@), rel@, b@));
}

/// Appends what the text file at `comps`, named `rel`, reports.
pub fn validate_text_file(
    repo: &Repository,
    comps: &Vec<Vec<char>>,
    rel: &[char],
    errors: &mut Vec<Vec<char>>,
)
    ensures
        views(final(errors)@) == views(old(errors)@) + text_file_msgs(*repo, views(comps@), rel@),
{
    let ghost start = views(errors@);
    let insp = inspect_components_exec(repo, comps);
    if let Inspection::Found(Some(i)) = &insp {
        match &repo.entries[*i].kind {
            Kind::File { content: Content::Bytes(b), .. } => {
                content_checks(repo, comps, rel, b.as_slice(), errors);
                return;
            },
            Kind::File { content: Content::Unreadable(e), .. } => {
                push_msg(errors, msg3(rel, ": failed to read text: ", e.as_slice()));
                assert(views(errors@) =~= start + text_file_msgs(*repo, views(comps@), rel@));
                return;
            },
            _ => {},
        }
    }
    match &insp {
        Inspection::Symlink | Inspection::Escapes => {
            push_msg(errors, msg(rel, ": symbolic links are not permitted"));
        },
        Inspection::Failed(e) => {
            push_msg(errors, msg3(rel, ": failed to inspect path: ", e.as_slice()));
        },
        _ => {},
    }
    assert(views(errors@) =~= start + text_file_msgs(*repo, views(comps@), rel@));
}

} // verus!

verus! {

// ---------------------------------------------------------------------------
// Walking the repository
// ---------------------------------------------------------------------------

/// `q` names a directory that could be listed.
pub open spec fn open_dir(repo: Repository, q: Seq<Seq<char>>) -> bool {
    let i = find_entry(repo.entries@, q);
    i < repo.entries@.len() && repo.entries@[i].kind matches Kind::Directory { listing_error: None }
}

/// The walk of the repository reaches `e`: the root and every directory above
/// `e` could be listed, and `e` is not below the top-level `.git` or `target`.
pub open spec fn listed(repo: Repository, e: Entry) -> bool {
    let p = path_of(e);
    &&& repo.root_listing_error is None
    &&& p.len() >= 1
    &&& p[0] != ".git"@
    &&& p[0] != "target"@
    &&& forall|j: int| 1 <= j < p.len() ==> open_dir(repo, #[trigger] p.subrange(0, j))
}

/// What the walk itself reports of an entry it reaches: an entry that cannot
/// be inspected, a symbolic link (never followed), a directory that cannot be read.
pub open spec fn walk_entry_msgs(repo: Repository, e: Entry) -> Seq<Seq<char>> {
    let shown = display_text(repo.root_display@, path_of(e));
    if !listed(repo, e) {
        seq![]
    } else {
        match e.kind {
            Kind::Uninspectable { error } => seq![shown + ": failed to inspect path: "@ + error@],
            Kind::Symlink { .. } => match relative_text(e) {
                Some(r) => seq![r + ": symbolic links are not permitted"@],
                None => seq![shown + ": unsupported path encoding"@],
            },
            Kind::Directory { listing_error: Some(err) } => seq![
                shown + ": failed to read directory: "@ + err@,
            ],
            _ => seq![],
        }
    }
}

pub open spec fn walk_entries_msgs(repo: Repository, es: Seq<Entry>) -> Seq<Seq<char>>
    decreases es.len(),
{
    if es.len() == 0 {
        seq![]
    } else {
        walk_entries_msgs(repo, es.drop_last()) + walk_entry_msgs(repo, es.last())
    }
}

/// What the walk reports, in walk order.
pub open spec fn walk_msgs(repo: Repository) -> Seq<Seq<char>> {
    let root = match repo.root_listing_error {
        Some(err) => seq![repo.root_display@ + ": failed to read directory: "@ + err@],
        None => seq![],
    };
    root + walk_entries_msgs(repo, walk_entries(repo.entries@))
}

/// The walk reaches `e`, and it is a regular file.
pub open spec fn walked_file(repo: Repository, e: Entry) -> bool {
    listed(repo, e) && e.kind is File
}

pub open spec fn walked_files_of(repo: Repository, es: Seq<Entry>) -> Seq<Seq<Seq<char>>>
    decreases es.len(),
{
    if es.len() == 0 {
        seq![]
    } else if walked_file(repo, es.last()) {
        walked_files_of(repo, es.drop_last()).push(path_of(es.last()))
    } else {
        walked_files_of(repo, es.drop_last())
    }
}

/// The paths of the regular files the walk reaches, in walk order.
pub open spec fn walked_files(repo: Repository) -> Seq<Seq<Seq<char>>> {
    walked_files_of(repo, walk_entries(repo.entries@))
}

/// What a walked file reports: a path that is not UTF-8, or the hygiene of a text file.
pub open spec fn walked_file_msgs(repo: Repository, p: Seq<Seq<char>>) -> Seq<Seq<char>> {
    let k = find_entry(repo.entries@, p);
    if k >= repo.entries@.len() || p.len() == 0 {
        seq![]
    } else {
        match relative_text(repo.entries@[k]) {
            None => seq![display_text(repo.root_display@, p) + ": unsupported path encoding"@],
            Some(r) => if is_text_name(p.last()) {
                text_file_msgs(repo, p, r)
            } else {
                seq![]
            },
        }
    }
}

pub open spec fn walked_files_msgs(repo: Repository, fs: Seq<Seq<Seq<char>>>) -> Seq<Seq<char>>
    decreases fs.len(),
{
    if fs.len() == 0 {
        seq![]
    } else {
        walked_files_msgs(repo, fs.drop_last()) + walked_file_msgs(repo, fs.last())
    }
}

/// What the text-file rule reports: what the walk reports, then what each
/// file it reaches reports, in walk order.
pub open spec fn text_files_msgs(repo: Repository) -> Seq<Seq<char>> {
    walk_msgs(repo) + walked_files_msgs(repo, walked_files(repo))
}

pub open spec fn path_views(v: Seq<Vec<Vec<char>>>) -> Seq<Seq<Seq<char>>> {
    v.map_values(|p: Vec<Vec<char>>| views(p@))
}

fn open_dir_exec(repo: &Repository, q: &Vec<Vec<char>>) -> (r: bool)
    ensures
        r == open_dir(*repo, views(q@)),
{
    let i = find_entry_exec(&repo.entries, q);
    if i >= repo.entries.len() {
        return false;
    }
    match &repo.entries[i].kind {
        Kind::Directory { listing_error: None } => true,
        _ => false,
    }
}

pub fn is_listed(repo: &Repository, e: &Entry) -> (r: bool)
    ensures
        r == listed(*repo, *e),
{
    let ghost p = path_of(*e);
    if repo.root_listing_error.is_some() {
        return false;
    }
    let n = e.path.len();
    if n == 0 {
        return false;
    }
    if same_text(e.path[0].as_slice(), text(".git").as_slice()) || same_text(
        e.path[0].as_slice(),
        text("target").as_slice(),
    ) {
        return false;
    }
    let mut prefix: Vec<Vec<char>> = Vec::new();
    let first = copy_text(e.path[0].as_slice());
    proof {
        lemma_views_push(prefix@, first);
    }
    prefix.push(first);
    let mut j: usize = 1;
    while j < n
        invariant
            1 <= j <= n,
            n == e.path@.len(),
            p == path_of(*e),
            views(prefix@) == p.subrange(0, j as int),
            forall|k: int| 1 <= k < j ==> open_dir(*repo, #[trigger] p.subrange(0, k)),
        decreases n - j,
    {
        if !open_dir_exec(repo, &prefix) {
            return false;
        }
        let c = copy_text(e.path[j].as_slice());
        proof {
            lemma_views_push(prefix@, c);
            assert(p.subrange(0, j + 1) =~= p.subrange(0, j as int).push(c@));
        }
        prefix.push(c);
        j = j + 1;
    }
    assert(p[0] == views(e.path@)[0]);
    true
}

fn walk_entry(repo: &Repository, e: &Entry, errors: &mut Vec<Vec<char>>) -> (reached: bool)
    ensures
        views(final(errors)@) == views(old(errors)@) + walk_entry_msgs(*repo, *e),
        reached == listed(*repo, *e),
{
    let ghost start = views(errors@);
    if !is_listed(repo, e) {
        assert(views(errors@) =~= start + walk_entry_msgs(*repo, *e));
        return false;
    }
    let shown = display_path(repo, &e.path);
    match &e.kind {
        Kind::Uninspectable { error } => {
            push_msg(errors, msg3(shown.as_slice(), ": failed to inspect path: ", error.as_slice()));
        },
        Kind::Symlink { .. } => {
            match relative_path(e) {
                Some(r) => {
                    push_msg(errors, msg(r.as_slice(), ": symbolic links are not permitted"));
                },
                None => {
                    push_msg(errors, msg(shown.as_slice(), ": unsupported path encoding"));
                },
            }
        },
        Kind::Directory { listing_error: Some(err) } => {
            push_msg(errors, msg3(shown.as_slice(), ": failed to read directory: ", err.as_slice()));
        },
        _ => {},
    }
    assert(views(errors@) =~= start + walk_entry_msgs(*repo, *e));
    true
}

proof fn lemma_walked_files_members(repo: Repository, es: Seq<Entry>)
    ensures
        forall|p: Seq<Seq<char>>| #[trigger]
            walked_files_of(repo, es).contains(p) <==> exists|j: int|
                0 <= j < es.len() && walked_file(repo, #[trigger] es[j]) && path_of(es[j]) == p,
    decreases es.len(),
{
    if es.len() > 0 {
        let init = es.drop_last();
        lemma_walked_files_members(repo, init);
        let w = walked_files_of(repo, es);
        let v = walked_files_of(repo, init);
        assert forall|p: Seq<Seq<char>>| #[trigger] w.contains(p) <==> exists|j: int|
            0 <= j < es.len() && walked_file(repo, #[trigger] es[j]) && path_of(es[j]) == p by {
            if w.contains(p) {
                let k = choose|k: int| 0 <= k < w.len() && w[k] == p;
                if k < v.len() {
                    assert(v[k] == p);
                    assert(v.contains(p));
                    let j = choose|j: int|
                        0 <= j < init.len() && walked_file(repo, #[trigger] init[j]) && path_of(
                            init[j],
                        ) == p;
                    assert(es[j] == init[j]);
                } else {
                    assert(es[es.len() - 1] == es.last());
                }
            }
            if exists|j: int| 0 <= j < es.len() && walked_file(repo, #[trigger] es[j]) && path_of(es[j]) == p {
                let j = choose|j: int|
                    0 <= j < es.len() && walked_file(repo, #[trigger] es[j]) && path_of(es[j]) == p;
                if j < es.len() - 1 {
                    assert(init[j] == es[j]);
                    assert(v.contains(p));
                    let k = choose|k: int| 0 <= k < v.len() && v[k] == p;
                    assert(w[k] == p);
                } else {
                    assert(w[w.len() - 1] == p);
                }
            }
        }
    }
}

proof fn lemma_walked_files_sorted(repo: Repository, ord: Seq<usize>)
    requires
        forall|k: int| 0 <= k < ord.len() ==> #[trigger] ord[k] < repo.entries@.len(),
        no_repeats(ord),
        walk_sorted(repo.entries@, ord),
        unique_paths(repo.entries@),
    ensures
        strictly_path_sorted(
            walked_files_of(repo, entries_at(repo.entries@, ord)),
        ),
        forall|a: int| 0 <= a < walked_files_of(repo, entries_at(repo.entries@, ord)).len()
            ==> exists|j: int| 0 <= j < ord.len() && #[trigger] walked_files_of(
                repo,
                entries_at(repo.entries@, ord),
            )[a] == path_of(repo.entries@[ord[j] as int]),
    decreases ord.len(),
{
    let es = repo.entries@;
    let w = entries_at(es, ord);
    let f = walked_files_of(repo, w);
    if ord.len() > 0 {
        let init = ord.drop_last();
        assert(w.drop_last() =~= entries_at(es, init));
        assert(no_repeats(init)) by {
            assert forall|a: int, b: int| 0 <= a < b < init.len() implies #[trigger] init[a]
                != #[trigger] init[b] by {
                assert(init[a] == ord[a] && init[b] == ord[b]);
            }
        }
        assert(walk_sorted(es, init)) by {
            assert forall|a: int, b: int| 0 <= a < b < init.len() implies !path_lt(
                path_of(es[#[trigger] init[b] as int]),
                path_of(es[#[trigger] init[a] as int]),
            ) by {
                assert(init[a] == ord[a] && init[b] == ord[b]);
            }
        }
        assert forall|k: int| 0 <= k < init.len() implies #[trigger] init[k] < es.len() by {
            assert(init[k] == ord[k]);
        }
        lemma_walked_files_sorted(repo, init);
        let g = walked_files_of(repo, entries_at(es, init));
        let n = ord.len() - 1;
        assert(w.last() == es[ord[n] as int]);
        if walked_file(repo, w.last()) {
            assert(f == g.push(path_of(es[ord[n] as int])));
            let pl = path_of(es[ord[n] as int]);
            assert forall|a: int, b: int| 0 <= a < b < f.len() implies path_lt(
                #[trigger] f[a],
                #[trigger] f[b],
            ) by {
                if b == f.len() - 1 {
                    assert(f[a] == g[a]);
                    let j = choose|j: int| 0 <= j < init.len() && #[trigger] g[a] == path_of(
                        es[init[j] as int],
                    );
                    assert(init[j] == ord[j]);
                    assert(ord[j] != ord[n]);
                    assert(!path_lt(pl, g[a]));
                    lemma_path_total(g[a], pl);
                } else {
                    assert(f[a] == g[a] && f[b] == g[b]);
                }
            }
            assert forall|a: int| 0 <= a < f.len() implies exists|j: int|
                0 <= j < ord.len() && #[trigger] f[a] == path_of(es[ord[j] as int]) by {
                if a < g.len() {
                    assert(f[a] == g[a]);
                    let j = choose|j: int| 0 <= j < init.len() && #[trigger] g[a] == path_of(
                        es[init[j] as int],
                    );
                    assert(init[j] == ord[j]);
                } else {
                    assert(f[a] == path_of(es[ord[n] as int]));
                }
            }
        } else {
            assert(f == g);
            assert forall|a: int| 0 <= a < f.len() implies exists|j: int|
                0 <= j < ord.len() && #[trigger] f[a] == path_of(es[ord[j] as int]) by {
                let j = choose|j: int| 0 <= j < init.len() && #[trigger] g[a] == path_of(
                    es[init[j] as int],
                );
                assert(init[j] == ord[j]);
            }
        }
    }
}

/// The walked files are exactly the paths of the entries the walk reaches as
/// regular files, whatever order the snapshot lists them in.
pub proof fn lemma_walked_files_exact(repo: Repository)
    requires
        repo.entries@.len() <= usize::MAX,
    ensures
        forall|p: Seq<Seq<char>>| #[trigger]
            walked_files(repo).contains(p) <==> exists|k: int|
                0 <= k < repo.entries@.len() && walked_file(repo, #[trigger] repo.entries@[k])
                    && path_of(repo.entries@[k]) == p,
{
    let es = repo.entries@;
    let ord = walk_order(es);
    let w = walk_entries(es);
    crate::walk::lemma_walk_order_upto(es, es.len());
    lemma_walked_files_members(repo, w);
    let f = walked_files(repo);
    assert forall|p: Seq<Seq<char>>| #[trigger] f.contains(p) <==> exists|k: int|
        0 <= k < es.len() && walked_file(repo, #[trigger] es[k]) && path_of(es[k]) == p by {
        if f.contains(p) {
            let j = choose|j: int|
                0 <= j < w.len() && walked_file(repo, #[trigger] w[j]) && path_of(w[j]) == p;
            assert(w[j] == es[ord[j] as int]);
        }
        if exists|k: int| 0 <= k < es.len() && walked_file(repo, #[trigger] es[k]) && path_of(es[k]) == p {
            let k = choose|k: int|
                0 <= k < es.len() && walked_file(repo, #[trigger] es[k]) && path_of(es[k]) == p;
            assert(ord.contains(k as usize));
            let j = choose|j: int| 0 <= j < ord.len() && ord[j] == k as usize;
            assert(w[j] == es[k]);
        }
    }
}

/// With one entry per path, the walked files come in strictly increasing path
/// order: depth first, siblings by name.
pub proof fn lemma_walked_files_in_order(repo: Repository)
    requires
        repo.entries@.len() <= usize::MAX,
        unique_paths(repo.entries@),
    ensures
        strictly_path_sorted(walked_files(repo)),
{
    let es = repo.entries@;
    crate::walk::lemma_walk_order_upto(es, es.len());
    lemma_walked_files_sorted(repo, walk_order(es));
}

/// Walks the repository depth first, with siblings in name order, skipping
/// the top-level `.git` and `target` and following no symbolic link: appends
/// what the walk reports and returns the regular files it reaches.  The files
/// are exactly those the walk reaches, whatever order the snapshot lists its
/// entries in; with one entry per path (as in a file system) each comes once,
/// in increasing path order, which is the depth-first order by name.
pub fn collect_files(repo: &Repository, errors: &mut Vec<Vec<char>>) -> (files: Vec<Vec<Vec<char>>>)
    ensures
        views(final(errors)@) == views(old(errors)@) + walk_msgs(*repo),
        path_views(files@) == walked_files(*repo),
        forall|p: Seq<Seq<char>>| #[trigger]
            path_views(files@).contains(p) <==> exists|k: int|
                0 <= k < repo.entries@.len() && walked_file(*repo, #[trigger] repo.entries@[k])
                    && path_of(repo.entries@[k]) == p,
        unique_paths(repo.entries@) ==> strictly_path_sorted(path_views(files@)),
{
    let ghost start = views(errors@);
    if let Some(err) = &repo.root_listing_error {
        push_msg(
            errors,
            msg3(repo.root_display.as_slice(), ": failed to read directory: ", err.as_slice()),
        );
    }
    let ghost s1 = views(errors@);
    let ord = walk_order_exec(&repo.entries);
    let ghost es = repo.entries@;
    let ghost w = walk_entries(es);
    let total = repo.entries.len();
    let mut files: Vec<Vec<Vec<char>>> = Vec::new();
    let mut k: usize = 0;
    while k < ord.len()
        invariant
            k <= ord@.len(),
            es == repo.entries@,
            ord@ == walk_order(es),
            forall|j: int| 0 <= j < ord@.len() ==> #[trigger] ord@[j] < es.len(),
            w == walk_entries(es),
            w.len() == ord@.len(),
            views(errors@) == s1 + walk_entries_msgs(*repo, w.subrange(0, k as int)),
            path_views(files@) == walked_files_of(*repo, w.subrange(0, k as int)),
        decreases ord@.len() - k,
    {
        let e = &repo.entries[ord[k]];
        proof {
            assert(w[k as int] == *e);
            let p = w.subrange(0, k + 1);
            assert(p.drop_last() =~= w.subrange(0, k as int));
            assert(p.last() == *e);
        }
        let reached = walk_entry(repo, e, errors);
        let is_file = match &e.kind {
            Kind::File { .. } => true,
            _ => false,
        };
        if reached && is_file {
            let copy = copy_path(&e.path);
            proof {
                assert(path_views(files@.push(copy)) =~= path_views(files@).push(views(copy@)));
            }
            files.push(copy);
        }
        k = k + 1;
    }
    proof {
        assert(w.subrange(0, k as int) =~= w);
        assert(es.len() == total);
        lemma_walked_files_exact(*repo);
        if unique_paths(es) {
            lemma_walked_files_in_order(*repo);
        }
    }
    files
}

fn walked_file_check(repo: &Repository, p: &Vec<Vec<char>>, errors: &mut Vec<Vec<char>>)
    ensures
        views(final(errors)@) == views(old(errors)@) + walked_file_msgs(*repo, views(p@)),
{
    let ghost start = views(errors@);
    let k = find_entry_exec(&repo.entries, p);
    if k >= repo.entries.len() || p.len() == 0 {
        assert(views(errors@) =~= start + walked_file_msgs(*repo, views(p@)));
        return;
    }
    match relative_path(&repo.entries[k]) {
        None => {
            let shown = display_path(repo, p);
            push_msg(errors, msg(shown.as_slice(), ": unsupported path encoding"));
        },
        Some(r) => {
            let n = p.len();
            if is_text_path(p[n - 1].as_slice()) {
                validate_text_file(repo, p, r.as_slice(), errors);
            }
        },
    }
    assert(views(errors@) =~= start + walked_file_msgs(*repo, views(p@)));
}

/// Appends what the walk over all files reports (entries that cannot be
/// inspected, symbolic links, unlistable directories), then, file by file in
/// walk order, paths that are not UTF-8 and the hygiene of each text file.
pub fn validate_text_files(repo: &Repository, errors: &mut Vec<Vec<char>>)
    ensures
        views(final(errors)@) == views(old(errors)@) + text_files_msgs(*repo),
{
    let ghost start = views(errors@);
    let files = collect_files(repo, errors);
    let ghost s1 = views(errors@);
    let ghost fs = walked_files(*repo);
    let mut k: usize = 0;
    while k < files.len()
        invariant
            k <= files@.len(),
            path_views(files@) == fs,
            fs == walked_files(*repo),
            views(errors@) == s1 + walked_files_msgs(*repo, fs.subrange(0, k as int)),
        decreases files@.len() - k,
    {
        proof {
            let q = fs.subrange(0, k + 1);
            assert(q.drop_last() =~= fs.subrange(0, k as int));
            assert(q.last() == views(files@[k as int]@));
        }
        walked_file_check(repo, &files[k], errors);
        k = k + 1;
    }
    assert(fs.subrange(0, k as int) =~= fs);
    assert(views(errors@) =~= start + text_files_msgs(*repo));
}

} // verus!
