//! The fixed lists the rules hold the repository to.

use vstd::prelude::*;
use crate::chars::{text, views};

verus! {

/// Tokens that `CONTRIBUTING.md` must hold.
pub open spec fn contributing_tokens() -> Seq<Seq<char>> {
    seq![
        "Do not begin a code or documentation contribution unless:"@,
        "An open issue is not by itself authorization to implement it."@,
        "owner-only, discussion, or open-contribution mode"@,
    ]
}

pub fn contributing_tokens_list() -> (r: Vec<Vec<char>>)
    ensures
        views(r@) == contributing_tokens(),
{
    let mut r: Vec<Vec<char>> = Vec::new();
    r.push(text("Do not begin a code or documentation contribution unless:"));
    r.push(text("An open issue is not by itself authorization to implement it."));
    r.push(text("owner-only, discussion, or open-contribution mode"));
    assert(views(r@) =~= contributing_tokens());
    r
}

/// Tokens that `GOVERNANCE.md` must hold.
pub open spec fn governance_tokens() -> Seq<Seq<char>> {
    seq![
        "dornglut/engineering/blob/main/governance/authority-and-work.md"@,
        "dornglut/engineering/blob/main/standards/github.md"@,
        "GitHub Projects represent operational priority and status."@,
    ]
}

pub fn governance_tokens_list() -> (r: Vec<Vec<char>>)
    ensures
        views(r@) == governance_tokens(),
{
    let mut r: Vec<Vec<char>> = Vec::new();
    r.push(text("dornglut/engineering/blob/main/governance/authority-and-work.md"));
    r.push(text("dornglut/engineering/blob/main/standards/github.md"));
    r.push(text("GitHub Projects represent operational priority and status."));
    assert(views(r@) =~= governance_tokens());
    r
}

/// Tokens that `CODE_OF_CONDUCT.md` must hold.
pub open spec fn conduct_tokens() -> Seq<Seq<char>> {
    seq![
        "## Reporting"@,
        "## Enforcement"@,
        "confidentiality cannot be guaranteed"@,
    ]
}

pub fn conduct_tokens_list() -> (r: Vec<Vec<char>>)
    ensures
        views(r@) == conduct_tokens(),
{
    let mut r: Vec<Vec<char>> = Vec::new();
    r.push(text("## Reporting"));
    r.push(text("## Enforcement"));
    r.push(text("confidentiality cannot be guaranteed"));
    assert(views(r@) =~= conduct_tokens());
    r
}

/// Tokens that `SECURITY.md` must hold.
pub open spec fn security_tokens() -> Seq<Seq<char>> {
    seq![
        "Do not report suspected vulnerabilities"@,
        "private vulnerability report"@,
    ]
}

pub fn security_tokens_list() -> (r: Vec<Vec<char>>)
    ensures
        views(r@) == security_tokens(),
{
    let mut r: Vec<Vec<char>> = Vec::new();
    r.push(text("Do not report suspected vulnerabilities"));
    r.push(text("private vulnerability report"));
    assert(views(r@) =~= security_tokens());
    r
}

/// Tokens that `PULL_REQUEST_TEMPLATE.md` must hold.
pub open spec fn pull_request_tokens() -> Seq<Seq<char>> {
    seq![
        "Accepted implementation base, when relevant:"@,
        "Reviewed feature head:"@,
        "Synthetic merge-result revision, only when separately validated:"@,
        "Accepted squash merge, after merge:"@,
        "Accepted-main push revision or run, when required:"@,
        "Repository profile or organization-policy exception:"@,
    ]
}

pub fn pull_request_tokens_list() -> (r: Vec<Vec<char>>)
    ensures
        views(r@) == pull_request_tokens(),
{
    let mut r: Vec<Vec<char>> = Vec::new();
    r.push(text("Accepted implementation base, when relevant:"));
    r.push(text("Reviewed feature head:"));
    r.push(text("Synthetic merge-result revision, only when separately validated:"));
    r.push(text("Accepted squash merge, after merge:"));
    r.push(text("Accepted-main push revision or run, when required:"));
    r.push(text("Repository profile or organization-policy exception:"));
    assert(views(r@) =~= pull_request_tokens());
    r
}

/// Tokens that the issue-template configuration must hold.
pub open spec fn config_tokens() -> Seq<Seq<char>> {
    seq![
        "blank_issues_enabled: false"@,
        "https://github.com/dornglut/.github/security/policy"@,
        "https://github.com/dornglut/engineering/issues/new"@,
    ]
}

pub fn config_tokens_list() -> (r: Vec<Vec<char>>)
    ensures
        views(r@) == config_tokens(),
{
    let mut r: Vec<Vec<char>> = Vec::new();
    r.push(text("blank_issues_enabled: false"));
    r.push(text("https://github.com/dornglut/.github/security/policy"));
    r.push(text("https://github.com/dornglut/engineering/issues/new"));
    assert(views(r@) =~= config_tokens());
    r
}

/// Tokens that the defect form must hold.
pub open spec fn defect_tokens() -> Seq<Seq<char>> {
    seq![
        "name: Defect"@,
        "title: \"[Defect] \""@,
        "id: repository_revision"@,
        "id: observed"@,
        "id: expected"@,
        "id: reproduction"@,
        "id: environment"@,
        "id: evidence"@,
        "does not disclose a security vulnerability, credential, or private data"@,
    ]
}

pub fn defect_tokens_list() -> (r: Vec<Vec<char>>)
    ensures
        views(r@) == defect_tokens(),
{
    let mut r: Vec<Vec<char>> = Vec::new();
    r.push(text("name: Defect"));
    r.push(text("title: \"[Defect] \""));
    r.push(text("id: repository_revision"));
    r.push(text("id: observed"));
    r.push(text("id: expected"));
    r.push(text("id: reproduction"));
    r.push(text("id: environment"));
    r.push(text("id: evidence"));
    r.push(text("does not disclose a security vulnerability, credential, or private data"));
    assert(views(r@) =~= defect_tokens());
    r
}

/// Tokens that the proposal form must hold.
pub open spec fn proposal_tokens() -> Seq<Seq<char>> {
    seq![
        "name: Proposal"@,
        "title: \"[Proposal] \""@,
        "id: proposal_type"@,
        "- Capability"@,
        "- Architecture"@,
        "- Documentation"@,
        "- Tooling"@,
        "- Research"@,
        "id: repository"@,
        "id: problem"@,
        "id: outcome"@,
        "id: evidence"@,
        "id: boundaries"@,
        "private Dornglut Inbox"@,
    ]
}

pub fn proposal_tokens_list() -> (r: Vec<Vec<char>>)
    ensures
        views(r@) == proposal_tokens(),
{
    let mut r: Vec<Vec<char>> = Vec::new();
    r.push(text("name: Proposal"));
    r.push(text("title: \"[Proposal] \""));
    r.push(text("id: proposal_type"));
    r.push(text("- Capability"));
    r.push(text("- Architecture"));
    r.push(text("- Documentation"));
    r.push(text("- Tooling"));
    r.push(text("- Research"));
    r.push(text("id: repository"));
    r.push(text("id: problem"));
    r.push(text("id: outcome"));
    r.push(text("id: evidence"));
    r.push(text("id: boundaries"));
    r.push(text("private Dornglut Inbox"));
    assert(views(r@) =~= proposal_tokens());
    r
}

/// The accepted issue-template suite.
pub open spec fn issue_templates() -> Seq<Seq<char>> {
    seq![
        ".github/ISSUE_TEMPLATE/config.yml"@,
        ".github/ISSUE_TEMPLATE/defect.yml"@,
        ".github/ISSUE_TEMPLATE/proposal.yml"@,
    ]
}

pub fn issue_templates_list() -> (r: Vec<Vec<char>>)
    ensures
        views(r@) == issue_templates(),
{
    let mut r: Vec<Vec<char>> = Vec::new();
    r.push(text(".github/ISSUE_TEMPLATE/config.yml"));
    r.push(text(".github/ISSUE_TEMPLATE/defect.yml"));
    r.push(text(".github/ISSUE_TEMPLATE/proposal.yml"));
    assert(views(r@) =~= issue_templates());
    r
}

/// The accepted workflow templates and their metadata.
pub open spec fn workflow_templates() -> Seq<Seq<char>> {
    seq![
        "workflow-templates/documentation-validation.properties.json"@,
        "workflow-templates/documentation-validation.yml"@,
        "workflow-templates/rust-validation.properties.json"@,
        "workflow-templates/rust-validation.yml"@,
    ]
}

pub fn workflow_templates_list() -> (r: Vec<Vec<char>>)
    ensures
        views(r@) == workflow_templates(),
{
    let mut r: Vec<Vec<char>> = Vec::new();
    r.push(text("workflow-templates/documentation-validation.properties.json"));
    r.push(text("workflow-templates/documentation-validation.yml"));
    r.push(text("workflow-templates/rust-validation.properties.json"));
    r.push(text("workflow-templates/rust-validation.yml"));
    assert(views(r@) =~= workflow_templates());
    r
}

/// The only active workflow.
pub open spec fn active_workflows() -> Seq<Seq<char>> {
    seq![
        ".github/workflows/validate.yml"@,
    ]
}

pub fn active_workflows_list() -> (r: Vec<Vec<char>>)
    ensures
        views(r@) == active_workflows(),
{
    let mut r: Vec<Vec<char>> = Vec::new();
    r.push(text(".github/workflows/validate.yml"));
    assert(views(r@) =~= active_workflows());
    r
}

/// Extensions of workflow files.
pub open spec fn active_extensions() -> Seq<Seq<char>> {
    seq![
        "yml"@,
        "yaml"@,
    ]
}

pub fn active_extensions_list() -> (r: Vec<Vec<char>>)
    ensures
        views(r@) == active_extensions(),
{
    let mut r: Vec<Vec<char>> = Vec::new();
    r.push(text("yml"));
    r.push(text("yaml"));
    assert(views(r@) =~= active_extensions());
    r
}

} // verus!
