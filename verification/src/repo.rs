//! The repository as the validator sees it: every path below the root with
//! what `symlink_metadata` reports of it, and the contents of regular files.
//! Paths are looked up and walked here exactly as the validator walks the
//! file system: one component at a time, never following a symbolic link.

use vstd::prelude::*;
use crate::chars::{
    copy_text, find_char, find_char_exec, has_char_exec, join, lemma_find_char, lemma_views_push, slice_of,
    starts_with, text, views,
};
use crate::order::same_text;

verus! {

/// Where a symbolic link leads once fully resolved.
pub enum Destination {
    /// A path inside the repository root.
    InsideRoot,
    /// A path outside the repository root.
    OutsideRoot,
    /// Nowhere: resolving it failed.
    Unresolved,
}

/// What reading a regular file gave.
pub enum Content {
    Bytes(Vec<u8>),
    /// Reading failed with this error.
    Unreadable(Vec<char>),
}

/// What `symlink_metadata` reports of a path.
pub enum Kind {
    File { len: u64, content: Content },
    /// A directory; `listing_error` is set when listing it failed.
    Directory { listing_error: Option<Vec<char>> },
    Symlink { destination: Destination },
    /// Neither file, directory nor symbolic link (a socket, a FIFO, ...).
    Special,
    /// Inspecting the path failed with this error.
    Uninspectable { error: Vec<char> },
}

/// A path below the root, as its components.  `utf8` tells whether the path
/// is valid UTF-8; where it is not, the components hold the lossy decoding.
pub struct Entry {
    pub path: Vec<Vec<char>>,
    pub utf8: bool,
    pub kind: Kind,
}

/// The version-control state of the root at one moment.
pub enum WorkTreeState {
    /// The root is not inside a version-control work tree: there is no state
    /// to compare, and nothing is reported about it.
    NoWorkTree,
    /// The state, as `worktree_fingerprint` renders it.
    Captured(Vec<u8>),
    /// Capturing the state failed with this error.
    Failed(Vec<char>),
}

/// A snapshot of a repository and of its version-control state around the run.
pub struct Repository {
    /// How the root path displays.
    pub root_display: Vec<char>,
    /// Set when resolving the root itself failed.
    pub root_error: Option<Vec<char>>,
    /// Set when listing the root failed.
    pub root_listing_error: Option<Vec<char>>,
    pub entries: Vec<Entry>,
    /// Version-control state captured before the repository was read.
    pub state_before: WorkTreeState,
    /// Version-control state captured again after the repository was read,
    /// or the error that kept it from being captured.  Only read when the
    /// first state was captured.
    pub state_after: Result<Vec<u8>, Vec<char>>,
}

pub open spec fn path_of(e: Entry) -> Seq<Seq<char>> {
    views(e.path@)
}

/// Index of the first entry at or after `i` whose path is `p`, or the number of entries.
pub open spec fn find_entry_from(es: Seq<Entry>, p: Seq<Seq<char>>, i: int) -> int
    decreases es.len() - i,
{
    if i < 0 || i >= es.len() {
        es.len() as int
    } else if path_of(es[i]) == p {
        i
    } else {
        find_entry_from(es, p, i + 1)
    }
}

pub open spec fn find_entry(es: Seq<Entry>, p: Seq<Seq<char>>) -> int {
    find_entry_from(es, p, 0)
}

pub proof fn lemma_find_entry(es: Seq<Entry>, p: Seq<Seq<char>>, i: int)
    requires
        0 <= i <= es.len(),
    ensures
        i <= find_entry_from(es, p, i) <= es.len(),
        find_entry_from(es, p, i) < es.len() ==> path_of(es[find_entry_from(es, p, i)]) == p,
        forall|k: int| i <= k < find_entry_from(es, p, i) ==> path_of(#[trigger] es[k]) != p,
    decreases es.len() - i,
{
    if i < es.len() && path_of(es[i]) != p {
        lemma_find_entry(es, p, i + 1);
    }
}

pub fn same_path(a: &Vec<Vec<char>>, b: &Vec<Vec<char>>) -> (r: bool)
    ensures
        r == (views(a@) == views(b@)),
{
    if a.len() != b.len() {
        return false;
    }
    let mut i: usize = 0;
    while i < a.len()
        invariant
            a@.len() == b@.len(),
            i <= a@.len(),
            forall|j: int| 0 <= j < i ==> a@[j]@ == b@[j]@,
        decreases a@.len() - i,
    {
        if !same_text(a[i].as_slice(), b[i].as_slice()) {
            assert(views(a@)[i as int] != views(b@)[i as int]);
            return false;
        }
        i = i + 1;
    }
    assert(views(a@) =~= views(b@));
    true
}

pub fn find_entry_exec(es: &Vec<Entry>, p: &Vec<Vec<char>>) -> (r: usize)
    ensures
        r == find_entry(es@, views(p@)),
        r <= es@.len(),
{
    let mut i: usize = 0;
    while i < es.len() && !same_path(&es[i].path, p)
        invariant
            i <= es@.len(),
            find_entry(es@, views(p@)) == find_entry_from(es@, views(p@), i as int),
        decreases es@.len() - i,
    {
        i = i + 1;
    }
    i
}

pub fn copy_path(p: &Vec<Vec<char>>) -> (r: Vec<Vec<char>>)
    ensures
        views(r@) == views(p@),
{
    let mut r: Vec<Vec<char>> = Vec::new();
    let mut i: usize = 0;
    while i < p.len()
        invariant
            i <= p@.len(),
            views(r@) == views(p@).subrange(0, i as int),
        decreases p@.len() - i,
    {
        let c = slice_of(p[i].as_slice(), 0, p[i].len());
        proof {
            assert(p@[i as int]@.subrange(0, p@[i as int]@.len() as int) =~= p@[i as int]@);
            lemma_views_push(r@, c);
            assert(views(p@).subrange(0, i + 1) =~= views(p@).subrange(0, i as int).push(c@));
        }
        r.push(c);
        i = i + 1;
    }
    assert(views(p@).subrange(0, i as int) =~= views(p@));
    r
}

// ---------------------------------------------------------------------------
// Path components
// ---------------------------------------------------------------------------

/// The `/`-separated components of `s` from `i` on, without empty ones and
/// without `.`; `..` is kept.
pub open spec fn components_from(s: Seq<char>, i: int) -> Seq<Seq<char>>
    decreases s.len() + 1 - i,
{
    if i < 0 || i > s.len() {
        seq![]
    } else {
        let e = find_char(s, '/', i);
        proof {
            lemma_find_char(s, '/', i);
        }
        let seg = s.subrange(i, e);
        let rest = if e < s.len() {
            components_from(s, e + 1)
        } else {
            seq![]
        };
        if seg.len() == 0 || seg == "."@ {
            rest
        } else {
            seq![seg] + rest
        }
    }
}

pub open spec fn components(s: Seq<char>) -> Seq<Seq<char>> {
    components_from(s, 0)
}

pub fn components_exec(s: &[char]) -> (r: Vec<Vec<char>>)
    ensures
        views(r@) == components(s@),
{
    let n = s.len();
    let dot = text(".");
    let mut out: Vec<Vec<char>> = Vec::new();
    let mut i: usize = 0;
    loop
        invariant
            n == s@.len(),
            i <= n,
            dot@ == "."@,
            views(out@) + components_from(s@, i as int) == components(s@),
        decreases n - i,
    {
        let e = find_char_exec(s, '/', i);
        let seg = slice_of(s, i, e);
        let keep = seg.len() > 0 && !same_text(seg.as_slice(), dot.as_slice());
        proof {
            lemma_find_char(s@, '/', i as int);
        }
        if keep {
            proof {
                lemma_views_push(out@, seg);
            }
            out.push(seg);
        }
        if e >= n {
            proof {
                assert(views(out@) =~= components(s@));
            }
            return out;
        }
        proof {
            if keep {
                assert(views(out@) + components_from(s@, e + 1) =~= views(out@).drop_last()
                    + components_from(s@, i as int));
            }
        }
        i = e + 1;
    }
}

/// `relative` as a path text: components joined by `/`, each `\` turned into
/// `/`, or `None` when the path is not valid UTF-8.
pub open spec fn relative_text(e: Entry) -> Option<Seq<char>> {
    if e.utf8 {
        Some(join(path_of(e), "/"@).map_values(|c: char| if c == '\\' { '/' } else { c }))
    } else {
        None
    }
}

pub fn relative_path(e: &Entry) -> (r: Option<Vec<char>>)
    ensures
        match (r, relative_text(*e)) {
            (Some(v), Some(t)) => v@ == t,
            (None, None) => true,
            _ => false,
        },
{
    if !e.utf8 {
        return None;
    }
    let joined = crate::chars::join_exec(&e.path, text("/").as_slice());
    let mut out: Vec<char> = Vec::new();
    let mut i: usize = 0;
    while i < joined.len()
        invariant
            i <= joined@.len(),
            out@ == joined@.subrange(0, i as int).map_values(
                |c: char| if c == '\\' { '/' } else { c },
            ),
        decreases joined@.len() - i,
    {
        let c = joined[i];
        out.push(if c == '\\' { '/' } else { c });
        i = i + 1;
        assert(out@ =~= joined@.subrange(0, i as int).map_values(
            |c: char| if c == '\\' { '/' } else { c },
        ));
    }
    assert(joined@.subrange(0, i as int) =~= joined@);
    Some(out)
}

/// `base` joined with `part` as `Path::join` joins them: a `/` goes between
/// unless `base` is empty or already ends with one.
pub open spec fn join_display(base: Seq<char>, part: Seq<char>) -> Seq<char> {
    if base.len() == 0 || base.last() == '/' {
        base + part
    } else {
        base + "/"@ + part
    }
}

/// How a path below the root displays: the root joined with each component.
pub open spec fn display_text(root: Seq<char>, p: Seq<Seq<char>>) -> Seq<char>
    decreases p.len(),
{
    if p.len() == 0 {
        root
    } else {
        join_display(display_text(root, p.drop_last()), p.last())
    }
}

pub fn display_path(repo: &Repository, p: &Vec<Vec<char>>) -> (r: Vec<char>)
    ensures
        r@ == display_text(repo.root_display@, views(p@)),
{
    let slash = text("/");
    let mut out = slice_of(repo.root_display.as_slice(), 0, repo.root_display.len());
    assert(repo.root_display@.subrange(0, repo.root_display@.len() as int) =~= repo.root_display@);
    let mut i: usize = 0;
    while i < p.len()
        invariant
            i <= p@.len(),
            slash@ == "/"@,
            out@ == display_text(repo.root_display@, views(p@).subrange(0, i as int)),
        decreases p@.len() - i,
    {
        let bare = out.len() == 0 || out[out.len() - 1] == '/';
        if !bare {
            crate::chars::append(&mut out, slash.as_slice());
        }
        crate::chars::append(&mut out, p[i].as_slice());
        proof {
            let q = views(p@).subrange(0, i + 1);
            assert(q.drop_last() =~= views(p@).subrange(0, i as int));
        }
        i = i + 1;
    }
    assert(views(p@).subrange(0, i as int) =~= views(p@));
    out
}

// ---------------------------------------------------------------------------
// Inspecting a path
// ---------------------------------------------------------------------------

/// What inspecting a path found.
pub enum Inspection {
    /// The path exists and is no symbolic link: the root (`None`) or an entry.
    Found(Option<usize>),
    Missing,
    /// A symbolic link on the way leads inside the root, or nowhere.
    Symlink,
    /// The path leaves the root, or a symbolic link on the way leads outside it.
    Escapes,
    Failed(Vec<char>),
}

pub enum InspectionView {
    Found(Option<usize>),
    Missing,
    Symlink,
    Escapes,
    Failed(Seq<char>),
}

impl View for Inspection {
    type V = InspectionView;

    open spec fn view(&self) -> InspectionView {
        match self {
            Inspection::Found(i) => InspectionView::Found(*i),
            Inspection::Missing => InspectionView::Missing,
            Inspection::Symlink => InspectionView::Symlink,
            Inspection::Escapes => InspectionView::Escapes,
            Inspection::Failed(e) => InspectionView::Failed(e@),
        }
    }
}

/// The error that kept the directory `cur` (the root, when `cur` is empty)
/// from being listed.  The snapshot holds nothing below such a directory, so
/// a path there cannot be looked up: that is a failure, not a missing path.
pub open spec fn listing_error_at(
    es: Seq<Entry>,
    rl: Option<Seq<char>>,
    cur: Seq<Seq<char>>,
) -> Option<Seq<char>> {
    if cur.len() == 0 {
        rl
    } else {
        let j = find_entry(es, cur);
        if j < es.len() {
            match es[j].kind {
                Kind::Directory { listing_error: Some(e) } => Some(e@),
                _ => None,
            }
        } else {
            None
        }
    }
}

/// The root's listing error, as `listing_error_at` reads it.
pub open spec fn root_listing(repo: Repository) -> Option<Seq<char>> {
    match repo.root_listing_error {
        Some(e) => Some(e@),
        None => None,
    }
}

pub fn listing_error_exec(repo: &Repository, cur: &Vec<Vec<char>>) -> (r: Option<Vec<char>>)
    ensures
        match r {
            Some(v) => listing_error_at(repo.entries@, root_listing(*repo), views(cur@)) == Some(v@),
            None => listing_error_at(repo.entries@, root_listing(*repo), views(cur@)) is None,
        },
{
    if cur.len() == 0 {
        return match &repo.root_listing_error {
            Some(e) => Some(copy_text(e.as_slice())),
            None => None,
        };
    }
    let j = find_entry_exec(&repo.entries, cur);
    if j >= repo.entries.len() {
        return None;
    }
    match &repo.entries[j].kind {
        Kind::Directory { listing_error: Some(e) } => Some(copy_text(e.as_slice())),
        _ => None,
    }
}

/// Walks `comps` from component `k` on, `cur` being the path reached so far.
pub open spec fn inspect_walk(
    es: Seq<Entry>,
    rl: Option<Seq<char>>,
    comps: Seq<Seq<char>>,
    k: int,
    cur: Seq<Seq<char>>,
) -> InspectionView
    decreases comps.len() - k,
{
    if k < 0 || k >= comps.len() {
        InspectionView::Found(None)
    } else if comps[k] == ".."@ {
        InspectionView::Escapes
    } else {
        let cand = cur.push(comps[k]);
        let i = find_entry(es, cand);
        if i >= es.len() {
            match listing_error_at(es, rl, cur) {
                Some(e) => InspectionView::Failed(e),
                None => InspectionView::Missing,
            }
        } else {
            match es[i].kind {
                Kind::Uninspectable { error } => InspectionView::Failed(error@),
                Kind::Symlink { destination: Destination::OutsideRoot } => InspectionView::Escapes,
                Kind::Symlink { .. } => InspectionView::Symlink,
                _ => if k + 1 == comps.len() {
                    InspectionView::Found(Some(i as usize))
                } else {
                    inspect_walk(es, rl, comps, k + 1, cand)
                },
            }
        }
    }
}

/// Inspecting the path with the given components below the root.
pub open spec fn inspect_components(repo: Repository, comps: Seq<Seq<char>>) -> InspectionView {
    match repo.root_error {
        Some(e) => InspectionView::Failed(e@),
        None => inspect_walk(repo.entries@, root_listing(repo), comps, 0, seq![]),
    }
}

/// An absolute path `s` lies below the absolute root `root`: the root's
/// components begin the path's.
pub open spec fn below_root(root: Seq<char>, s: Seq<char>) -> bool {
    let rc = components(root);
    let sc = components(s);
    root.len() > 0 && root[0] == '/' && rc.len() <= sc.len() && sc.subrange(0, rc.len() as int)
        == rc
}

/// Inspecting `root.join(s)`.  An absolute `s` replaces the root: it leaves
/// the root unless it names a path below it.
pub open spec fn inspect_text(repo: Repository, s: Seq<char>) -> InspectionView {
    match repo.root_error {
        Some(e) => InspectionView::Failed(e@),
        None => if s.len() > 0 && s[0] == '/' {
            if below_root(repo.root_display@, s) {
                let sc = components(s);
                inspect_walk(
                    repo.entries@,
                    root_listing(repo),
                    sc.subrange(components(repo.root_display@).len() as int, sc.len() as int),
                    0,
                    seq![],
                )
            } else {
                InspectionView::Escapes
            }
        } else {
            inspect_walk(repo.entries@, root_listing(repo), components(s), 0, seq![])
        },
    }
}

pub fn inspect_components_exec(repo: &Repository, comps: &Vec<Vec<char>>) -> (r: Inspection)
    ensures
        r@ == inspect_components(*repo, views(comps@)),
        r matches Inspection::Found(Some(i)) ==> i < repo.entries@.len(),
{
    if let Some(e) = &repo.root_error {
        return Inspection::Failed(copy_text(e.as_slice()));
    }
    let ghost cs = views(comps@);
    let dotdot = text("..");
    let mut cur: Vec<Vec<char>> = Vec::new();
    assert(views(cur@) =~= seq![]);
    let mut k: usize = 0;
    while k < comps.len()
        invariant
            k <= comps@.len(),
            cs == views(comps@),
            dotdot@ == ".."@,
            repo.root_error is None,
            inspect_components(*repo, cs) == inspect_walk(
                repo.entries@,
                root_listing(*repo),
                cs,
                k as int,
                views(cur@),
            ),
        decreases comps@.len() - k,
    {
        if same_text(comps[k].as_slice(), dotdot.as_slice()) {
            return Inspection::Escapes;
        }
        let c = slice_of(comps[k].as_slice(), 0, comps[k].len());
        proof {
            assert(comps@[k as int]@.subrange(0, comps@[k as int]@.len() as int) =~= comps@[k as int]@);
            lemma_views_push(cur@, c);
        }
        let failure = listing_error_exec(repo, &cur);
        cur.push(c);
        let i = find_entry_exec(&repo.entries, &cur);
        if i >= repo.entries.len() {
            return match failure {
                Some(e) => Inspection::Failed(e),
                None => Inspection::Missing,
            };
        }
        match &repo.entries[i].kind {
            Kind::Uninspectable { error } => {
                return Inspection::Failed(copy_text(error.as_slice()));
            },
            Kind::Symlink { destination: Destination::OutsideRoot } => {
                return Inspection::Escapes;
            },
            Kind::Symlink { .. } => {
                return Inspection::Symlink;
            },
            _ => {
                if k + 1 == comps.len() {
                    return Inspection::Found(Some(i));
                }
            },
        }
        k = k + 1;
    }
    Inspection::Found(None)
}

pub fn inspect_text_exec(repo: &Repository, s: &[char]) -> (r: Inspection)
    ensures
        r@ == inspect_text(*repo, s@),
        r matches Inspection::Found(Some(i)) ==> i < repo.entries@.len(),
{
    if let Some(e) = &repo.root_error {
        return Inspection::Failed(copy_text(e.as_slice()));
    }
    if s.len() > 0 && s[0] == '/' {
        let rc = components_exec(repo.root_display.as_slice());
        let sc = components_exec(s);
        let r = repo.root_display.as_slice();
        if r.len() == 0 || r[0] != '/' || rc.len() > sc.len() {
            return Inspection::Escapes;
        }
        let mut k: usize = 0;
        while k < rc.len()
            invariant
                rc@.len() <= sc@.len(),
                k <= rc@.len(),
                views(rc@) == components(repo.root_display@),
                views(sc@) == components(s@),
                repo.root_error is None,
                s@.len() > 0 && s@[0] == '/',
                repo.root_display@.len() > 0 && repo.root_display@[0] == '/',
                forall|j: int| 0 <= j < k ==> views(sc@)[j] == views(rc@)[j],
            decreases rc@.len() - k,
        {
            if !same_text(sc[k].as_slice(), rc[k].as_slice()) {
                assert(views(sc@).subrange(0, rc@.len() as int)[k as int] != views(rc@)[k as int]);
                return Inspection::Escapes;
            }
            k = k + 1;
        }
        assert(views(sc@).subrange(0, rc@.len() as int) =~= views(rc@));
        let mut rest: Vec<Vec<char>> = Vec::new();
        let mut j = rc.len();
        while j < sc.len()
            invariant
                rc@.len() <= j <= sc@.len(),
                views(rest@) == views(sc@).subrange(rc@.len() as int, j as int),
            decreases sc@.len() - j,
        {
            let c = copy_text(sc[j].as_slice());
            proof {
                lemma_views_push(rest@, c);
                assert(views(sc@).subrange(rc@.len() as int, j + 1) =~= views(sc@).subrange(
                    rc@.len() as int,
                    j as int,
                ).push(c@));
            }
            rest.push(c);
            j = j + 1;
        }
        return inspect_components_exec(repo, &rest);
    }
    let comps = components_exec(s);
    inspect_components_exec(repo, &comps)
}

// ---------------------------------------------------------------------------
// Resolving a relative Markdown link
// ---------------------------------------------------------------------------

/// What resolving a relative link found.
pub enum Resolution {
    Exists,
    Missing,
    /// A symbolic link inside the root (or one that leads nowhere) stands on
    /// the way; the path is that of the link target, relative to the root.
    Symlink(Vec<char>),
    Escapes,
    Failed(Vec<char>),
}

pub enum ResolutionView {
    Exists,
    Missing,
    Symlink(Seq<char>),
    Escapes,
    Failed(Seq<char>),
}

impl View for Resolution {
    type V = ResolutionView;

    open spec fn view(&self) -> ResolutionView {
        match self {
            Resolution::Exists => ResolutionView::Exists,
            Resolution::Missing => ResolutionView::Missing,
            Resolution::Symlink(p) => ResolutionView::Symlink(p@),
            Resolution::Escapes => ResolutionView::Escapes,
            Resolution::Failed(e) => ResolutionView::Failed(e@),
        }
    }
}

/// Walks the link components from `k` on, starting in directory `cur`.
pub open spec fn resolve_walk(
    es: Seq<Entry>,
    rl: Option<Seq<char>>,
    comps: Seq<Seq<char>>,
    k: int,
    cur: Seq<Seq<char>>,
) -> ResolutionView
    decreases comps.len() - k,
{
    if k < 0 || k >= comps.len() {
        ResolutionView::Exists
    } else if comps[k] == ".."@ {
        if cur.len() == 0 {
            ResolutionView::Escapes
        } else {
            resolve_walk(es, rl, comps, k + 1, cur.drop_last())
        }
    } else {
        let cand = cur.push(comps[k]);
        let i = find_entry(es, cand);
        if i >= es.len() {
            match listing_error_at(es, rl, cur) {
                Some(e) => ResolutionView::Failed(e),
                None => ResolutionView::Missing,
            }
        } else {
            match es[i].kind {
                Kind::Uninspectable { error } => ResolutionView::Failed(error@),
                Kind::Symlink { destination: Destination::OutsideRoot } => ResolutionView::Escapes,
                Kind::Symlink { .. } => ResolutionView::Symlink(
                    join(cand + comps.subrange(k + 1, comps.len() as int), "/"@),
                ),
                Kind::Directory { .. } => if k + 1 == comps.len() {
                    ResolutionView::Exists
                } else {
                    resolve_walk(es, rl, comps, k + 1, cand)
                },
                _ => if k + 1 == comps.len() {
                    ResolutionView::Exists
                } else {
                    ResolutionView::Missing
                },
            }
        }
    }
}

/// Resolving a (percent-decoded) relative link target from the directory `dir`.
/// Absolute targets, targets with a `\`, and targets whose second byte is `:`
/// (a drive letter) leave the root.
pub open spec fn resolve_link(repo: Repository, dir: Seq<Seq<char>>, t: Seq<char>) -> ResolutionView {
    if starts_with(t, "/"@) || crate::chars::has_char(t, '\\') || (t.len() >= 2 && (t[0] as u32)
        < 128 && t[1] == ':') {
        ResolutionView::Escapes
    } else {
        match repo.root_error {
            Some(e) => ResolutionView::Failed(e@),
            None => resolve_walk(repo.entries@, root_listing(repo), components(t), 0, dir),
        }
    }
}

pub fn resolve_link_exec(repo: &Repository, dir: &Vec<Vec<char>>, t: &[char]) -> (r: Resolution)
    ensures
        r@ == resolve_link(*repo, views(dir@), t@),
{
    if crate::chars::has_prefix(t, text("/").as_slice()) || has_char_exec(t, '\\') || (t.len() >= 2
        && (t[0] as u32) < 128 && t[1] == ':') {
        return Resolution::Escapes;
    }
    if let Some(e) = &repo.root_error {
        return Resolution::Failed(copy_text(e.as_slice()));
    }
    let comps = components_exec(t);
    let ghost cs = views(comps@);
    let dotdot = text("..");
    let mut cur = copy_path(dir);
    let mut k: usize = 0;
    while k < comps.len()
        invariant
            k <= comps@.len(),
            cs == views(comps@),
            dotdot@ == ".."@,
            cs == components(t@),
            resolve_link(*repo, views(dir@), t@) == resolve_walk(
                repo.entries@,
                root_listing(*repo),
                cs,
                k as int,
                views(cur@),
            ),
        decreases comps@.len() - k,
    {
        if same_text(comps[k].as_slice(), dotdot.as_slice()) {
            if cur.len() == 0 {
                return Resolution::Escapes;
            }
            let ghost before = cur@;
            cur.pop();
            proof {
                assert(views(cur@) =~= views(before).drop_last());
            }
            k = k + 1;
            continue;
        }
        let c = slice_of(comps[k].as_slice(), 0, comps[k].len());
        proof {
            assert(comps@[k as int]@.subrange(0, comps@[k as int]@.len() as int) =~= comps@[k as int]@);
            lemma_views_push(cur@, c);
        }
        let failure = listing_error_exec(repo, &cur);
        cur.push(c);
        let i = find_entry_exec(&repo.entries, &cur);
        if i >= repo.entries.len() {
            return match failure {
                Some(e) => Resolution::Failed(e),
                None => Resolution::Missing,
            };
        }
        match &repo.entries[i].kind {
            Kind::Uninspectable { error } => {
                return Resolution::Failed(copy_text(error.as_slice()));
            },
            Kind::Symlink { destination: Destination::OutsideRoot } => {
                return Resolution::Escapes;
            },
            Kind::Symlink { .. } => {
                let mut whole = copy_path(&cur);
                let mut j = k + 1;
                while j < comps.len()
                    invariant
                        k < j <= comps@.len(),
                        cs == views(comps@),
                        views(whole@) == views(cur@) + cs.subrange(k + 1, j as int),
                    decreases comps@.len() - j,
                {
                    let piece = slice_of(comps[j].as_slice(), 0, comps[j].len());
                    proof {
                        assert(comps@[j as int]@.subrange(0, comps@[j as int]@.len() as int)
                            =~= comps@[j as int]@);
                        lemma_views_push(whole@, piece);
                        assert(views(cur@) + cs.subrange(k + 1, j + 1) =~= (views(cur@)
                            + cs.subrange(k + 1, j as int)).push(piece@));
                    }
                    whole.push(piece);
                    j = j + 1;
                }
                let p = crate::chars::join_exec(&whole, text("/").as_slice());
                return Resolution::Symlink(p);
            },
            Kind::Directory { .. } => {
                if k + 1 == comps.len() {
                    return Resolution::Exists;
                }
            },
            _ => {
                if k + 1 == comps.len() {
                    return Resolution::Exists;
                }
                return Resolution::Missing;
            },
        }
        k = k + 1;
    }
    Resolution::Exists
}

} // verus!
