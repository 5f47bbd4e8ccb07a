//! A whole validation run: every rule over one repository snapshot, the check
//! that the repository did not change meanwhile, and the report.

use vstd::prelude::*;
use crate::chars::{append, cat, text, to_string, views};
use crate::order::{sorted_set, sorted_unique, strictly_sorted};
use crate::repo::{Repository, WorkTreeState};

verus! {

pub open spec fn string_views(v: Seq<String>) -> Seq<Seq<char>> {
    v.map_values(|s: String| s@)
}

proof fn lemma_string_views_push(v: Seq<String>, s: String)
    ensures
        string_views(v.push(s)) == string_views(v).push(s@),
{
    assert(string_views(v.push(s)) =~= string_views(v).push(s@));
}

/// The sorted, duplicate-free messages of a failed validation.
#[derive(Debug, Clone, PartialEq, Eq)]
pub struct ValidationErrors(Vec<String>);

impl View for ValidationErrors {
    type V = Seq<Seq<char>>;

    closed spec fn view(&self) -> Seq<Seq<char>> {
        string_views(self.0@)
    }
}

/// The report a failed run prints: a heading, then one `- ` line per message.
pub open spec fn report(msgs: Seq<Seq<char>>) -> Seq<char>
    decreases msgs.len(),
{
    if msgs.len() == 0 {
        "repository validation failed:\n"@
    } else {
        report(msgs.drop_last()) + "- "@ + msgs.last() + "\n"@
    }
}

impl ValidationErrors {
    fn from_messages(msgs: &Vec<Vec<char>>) -> (r: ValidationErrors)
        ensures
            r@ == views(msgs@),
    {
        let mut v: Vec<String> = Vec::new();
        let mut i: usize = 0;
        while i < msgs.len()
            invariant
                i <= msgs@.len(),
                string_views(v@) == views(msgs@).subrange(0, i as int),
            decreases msgs@.len() - i,
        {
            let t = to_string(msgs[i].as_slice());
            proof {
                lemma_string_views_push(v@, t);
                assert(views(msgs@).subrange(0, i + 1) =~= views(msgs@).subrange(0, i as int).push(
                    t@,
                ));
            }
            v.push(t);
            i = i + 1;
        }
        assert(views(msgs@).subrange(0, i as int) =~= views(msgs@));
        ValidationErrors(v)
    }

    /// The messages, in order.
    pub fn messages(&self) -> (r: Vec<String>)
        ensures
            string_views(r@) == self@,
    {
        let mut v: Vec<String> = Vec::new();
        let mut i: usize = 0;
        while i < self.0.len()
            invariant
                i <= self.0@.len(),
                string_views(v@) == self@.subrange(0, i as int),
            decreases self.0@.len() - i,
        {
            let t = self.0[i].clone();
            proof {
                lemma_string_views_push(v@, t);
                assert(self@.subrange(0, i + 1) =~= self@.subrange(0, i as int).push(t@));
            }
            v.push(t);
            i = i + 1;
        }
        assert(self@.subrange(0, i as int) =~= self@);
        v
    }

    /// The report as text (what `Display` shows).
    pub fn to_string(&self) -> (r: String)
        ensures
            r@ == report(self@),
    {
        let mut out = text("repository validation failed:\n");
        let mut i: usize = 0;
        while i < self.0.len()
            invariant
                i <= self.0@.len(),
                out@ == report(self@.subrange(0, i as int)),
            decreases self.0@.len() - i,
        {
            append(&mut out, text("- ").as_slice());
            append(&mut out, text(self.0[i].as_str()).as_slice());
            append(&mut out, text("\n").as_slice());
            proof {
                let p = self@.subrange(0, i + 1);
                assert(p.drop_last() =~= self@.subrange(0, i as int));
            }
            i = i + 1;
        }
        assert(self@.subrange(0, i as int) =~= self@);
        to_string(out.as_slice())
    }
}

/// What the version-control states around the run report.  A root outside
/// any work tree has no state, and nothing is reported.  Otherwise a state
/// that could not be captured is reported; once the first could not be
/// captured, the second is not compared; a second state that differs from the
/// first is a change.
pub open spec fn state_msgs(repo: Repository) -> Seq<Seq<char>> {
    match repo.state_before {
        WorkTreeState::NoWorkTree => seq![],
        WorkTreeState::Failed(e) => seq!["failed to capture repository state: "@ + e@],
        WorkTreeState::Captured(before) => match repo.state_after {
            Err(e) => seq!["failed to capture repository state: "@ + e@],
            Ok(after) => if after@ != before@ {
                seq!["repository changed during validation"@]
            } else {
                seq![]
            },
        },
    }
}

/// Every message of every rule, in the order the rules run.
pub open spec fn repository_msgs(repo: Repository) -> Seq<Seq<char>> {
    crate::scan::required_msgs(repo) + crate::scan::text_files_msgs(repo)
        + crate::files::inventory_msgs(repo) + crate::files::public_contract_msgs(repo)
        + crate::files::issue_form_msgs(repo) + crate::files::workflows_msgs(
        repo,
        crate::workflow::pinned_workflows(),
    ) + crate::files::properties_msgs(repo) + state_msgs(repo)
}

fn same_bytes(a: &Vec<u8>, b: &Vec<u8>) -> (r: bool)
    ensures
        r == (a@ == b@),
{
    if a.len() != b.len() {
        return false;
    }
    let mut i: usize = 0;
    while i < a.len()
        invariant
            a@.len() == b@.len(),
            i <= a@.len(),
            forall|j: int| 0 <= j < i ==> a@[j] == b@[j],
        decreases a@.len() - i,
    {
        if a[i] != b[i] {
            return false;
        }
        i = i + 1;
    }
    assert(a@ =~= b@);
    true
}

fn state_checks(repo: &Repository, errors: &mut Vec<Vec<char>>)
    ensures
        views(final(errors)@) == views(old(errors)@) + state_msgs(*repo),
{
    let ghost start = views(errors@);
    match &repo.state_before {
        WorkTreeState::NoWorkTree => {},
        WorkTreeState::Failed(e) => {
            crate::scan::push_msg(
                errors,
                cat(text("failed to capture repository state: ").as_slice(), e.as_slice()),
            );
        },
        WorkTreeState::Captured(before) => match &repo.state_after {
            Err(e) => {
                crate::scan::push_msg(
                    errors,
                    cat(text("failed to capture repository state: ").as_slice(), e.as_slice()),
                );
            },
            Ok(after) => {
                if !same_bytes(after, before) {
                    crate::scan::push_msg(errors, text("repository changed during validation"));
                }
            },
        },
    }
    assert(views(errors@) =~= start + state_msgs(*repo));
}

/// Validates the repository snapshot: `Ok` exactly when no rule reports
/// anything, else every message once, in sorted order.
pub fn validate_repository(repo: &Repository) -> (r: Result<(), ValidationErrors>)
    ensures
        r is Ok <==> repository_msgs(*repo).len() == 0,
        r matches Err(e) ==> e@ == sorted_set(repository_msgs(*repo)),
        r matches Err(e) ==> strictly_sorted(e@) && e@.len() > 0,
        r matches Err(e) ==> forall|m: Seq<char>|
            #[trigger] e@.contains(m) <==> repository_msgs(*repo).contains(m),
{
    let mut errors: Vec<Vec<char>> = Vec::new();
    assert(views(errors@) =~= seq![]);
    crate::scan::validate_required_paths(repo, &mut errors);
    crate::scan::validate_text_files(repo, &mut errors);
    crate::files::validate_file_inventories(repo, &mut errors);
    crate::files::validate_public_contracts(repo, &mut errors);
    crate::files::validate_issue_forms(repo, &mut errors);
    crate::files::validate_workflows(repo, &mut errors);
    crate::files::validate_workflow_properties(repo, &mut errors);
    state_checks(repo, &mut errors);
    assert(views(errors@) =~= repository_msgs(*repo));
    let sorted = sorted_unique(&errors);
    if sorted.len() == 0 {
        proof {
            if repository_msgs(*repo).len() > 0 {
                assert(views(errors@).contains(views(errors@)[0]));
                assert(views(sorted@).contains(views(errors@)[0]));
            }
        }
        Ok(())
    } else {
        proof {
            assert(views(sorted@).contains(views(sorted@)[0]));
        }
        Err(ValidationErrors::from_messages(&sorted))
    }
}

/// `git rev-parse --is-inside-work-tree` answered yes: it succeeded and
/// printed `true`, with or without a line ending.
pub open spec fn answers_work_tree(success: bool, stdout: Seq<u8>) -> bool {
    let yes = seq![116u8, 114, 117, 101];
    success && (stdout == yes || stdout == yes.push(10u8) || stdout == yes.push(13u8).push(10u8))
}

pub fn is_work_tree(success: bool, stdout: &[u8]) -> (r: bool)
    ensures
        r == answers_work_tree(success, stdout@),
{
    if !success {
        return false;
    }
    let n = stdout.len();
    let body: usize = if n >= 2 && stdout[n - 2] == 13u8 && stdout[n - 1] == 10u8 {
        n - 2
    } else if n >= 1 && stdout[n - 1] == 10u8 {
        n - 1
    } else {
        n
    };
    let yes = body == 4 && stdout[0] == 116u8 && stdout[1] == 114u8 && stdout[2] == 117u8
        && stdout[3] == 101u8;
    proof {
        let y = seq![116u8, 114, 117, 101];
        if yes {
            if body == n {
                assert(stdout@ =~= y);
            } else if body + 1 == n {
                assert(stdout@ =~= y.push(10u8));
            } else {
                assert(stdout@ =~= y.push(13u8).push(10u8));
            }
        } else {
            if stdout@ == y {
                assert(stdout@[3] == 101u8);
            }
            if stdout@ == y.push(10u8) {
                assert(stdout@[4] == 10u8 && stdout@[3] == 101u8);
            }
            if stdout@ == y.push(13u8).push(10u8) {
                assert(stdout@[5] == 10u8 && stdout@[4] == 13u8);
            }
        }
    }
    yes
}

/// The state that a version-control snapshot is compared by: the porcelain
/// status, then the staged file list, each behind its label.
pub open spec fn fingerprint_of(status: Seq<u8>, listing: Seq<u8>) -> Seq<u8> {
    seq![115u8, 116, 97, 116, 117, 115, 0] + status + seq![116u8, 114, 97, 99, 107, 101, 100, 0]
        + listing
}

pub fn worktree_fingerprint(status: &[u8], listing: &[u8]) -> (r: Vec<u8>)
    ensures
        r@ == fingerprint_of(status@, listing@),
{
    let mut r: Vec<u8> = Vec::new();
    r.push(115u8);
    r.push(116u8);
    r.push(97u8);
    r.push(116u8);
    r.push(117u8);
    r.push(115u8);
    r.push(0u8);
    let mut i: usize = 0;
    let ghost head = r@;
    while i < status.len()
        invariant
            i <= status@.len(),
            r@ == head + status@.subrange(0, i as int),
        decreases status@.len() - i,
    {
        r.push(status[i]);
        i = i + 1;
        assert(r@ =~= head + status@.subrange(0, i as int));
    }
    r.push(116u8);
    r.push(114u8);
    r.push(97u8);
    r.push(99u8);
    r.push(107u8);
    r.push(101u8);
    r.push(100u8);
    r.push(0u8);
    let ghost mid = r@;
    let mut j: usize = 0;
    while j < listing.len()
        invariant
            j <= listing@.len(),
            r@ == mid + listing@.subrange(0, j as int),
        decreases listing@.len() - j,
    {
        r.push(listing[j]);
        j = j + 1;
        assert(r@ =~= mid + listing@.subrange(0, j as int));
    }
    assert(status@.subrange(0, i as int) =~= status@);
    assert(listing@.subrange(0, j as int) =~= listing@);
    assert(r@ =~= fingerprint_of(status@, listing@));
    r
}

} // verus!
