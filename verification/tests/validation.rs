use xtask::repo::{Content, Destination, Entry, Kind, Repository, WorkTreeState};
use xtask::validate::validate_repository;

const WORKFLOW_REVISION: &str = "624cb41adeed21a6461eb838bc7330bd0a5079fd";

fn chars(s: &str) -> Vec<char> {
    s.chars().collect()
}

fn workflow_text(branch: &str, reusable: &str) -> String {
    format!(
        "name: Validate\non:\n  pull_request:\n  push:\n    branches:\n      - {branch}\npermissions:\n  contents: read\njobs:\n  validate:\n    uses: dornglut/github-workflows/.github/workflows/{reusable}@{WORKFLOW_REVISION}\n"
    )
}

const PROPERTIES: &str = "{\n  \"name\": \"Validation\",\n  \"description\": \"Runs validation.\",\n  \"iconName\": \"octicon check\",\n  \"categories\": [\"Rust\"],\n  \"filePatterns\": [\"Cargo.toml\"]\n}\n";

struct Fixture {
    repo: Repository,
}

impl Fixture {
    /// A repository that satisfies every rule.
    fn current_repository() -> Self {
        let mut fixture = Fixture {
            repo: Repository {
                root_display: chars("/tmp/organization"),
                root_error: None,
                root_listing_error: None,
                entries: Vec::new(),
                state_before: WorkTreeState::NoWorkTree,
                state_after: Ok(Vec::new()),
            },
        };
        fixture.write(
            "validation-required-files.txt",
            b"# Files every repository inherits\nREADME.md\nCONTRIBUTING.md\n\nGOVERNANCE.md\n",
        );
        fixture.write("README.md", b"# Organization defaults\n\nSee [contributing](CONTRIBUTING.md).\n");
        fixture.write(
            "CONTRIBUTING.md",
            b"# Contributing\n\nDo not begin a code or documentation contribution unless:\n\nAn open issue is not by itself authorization to implement it. Repositories may operate in owner-only, discussion, or open-contribution mode.\n",
        );
        fixture.write(
            "GOVERNANCE.md",
            b"# Governance\n\nSee dornglut/engineering/blob/main/governance/authority-and-work.md and dornglut/engineering/blob/main/standards/github.md.\n\nGitHub Projects represent operational priority and status.\n",
        );
        fixture.write(
            "CODE_OF_CONDUCT.md",
            b"# Code of conduct\n\n## Reporting\n\n## Enforcement\n\nReports are handled carefully, but confidentiality cannot be guaranteed.\n",
        );
        fixture.write(
            "SECURITY.md",
            b"# Security\n\nDo not report suspected vulnerabilities in public issues; open a private vulnerability report.\n",
        );
        fixture.write(
            "PULL_REQUEST_TEMPLATE.md",
            b"Accepted implementation base, when relevant:\nReviewed feature head:\nSynthetic merge-result revision, only when separately validated:\nAccepted squash merge, after merge:\nAccepted-main push revision or run, when required:\nRepository profile or organization-policy exception:\n",
        );
        fixture.write(
            ".github/ISSUE_TEMPLATE/config.yml",
            b"blank_issues_enabled: false\ncontact_links:\n  - url: https://github.com/dornglut/.github/security/policy\n  - url: https://github.com/dornglut/engineering/issues/new\n",
        );
        fixture.write(
            ".github/ISSUE_TEMPLATE/defect.yml",
            b"name: Defect\ntitle: \"[Defect] \"\nbody:\n  - id: repository_revision\n  - id: observed\n  - id: expected\n  - id: reproduction\n  - id: environment\n  - id: evidence\n  - label: This report does not disclose a security vulnerability, credential, or private data.\n",
        );
        fixture.write(
            ".github/ISSUE_TEMPLATE/proposal.yml",
            b"name: Proposal\ntitle: \"[Proposal] \"\nbody:\n  - id: proposal_type\n    options:\n      - Capability\n      - Architecture\n      - Documentation\n      - Tooling\n      - Research\n  - id: repository\n  - id: problem\n  - id: outcome\n  - id: evidence\n  - id: boundaries\n  - label: Private matters go to the private Dornglut Inbox.\n",
        );
        fixture.write(
            ".github/workflows/validate.yml",
            workflow_text("main", "reusable-rust-cargo-validate.yml").as_bytes(),
        );
        fixture.write(
            "workflow-templates/documentation-validation.yml",
            workflow_text("$default-branch", "reusable-python-repository-validate.yml").as_bytes(),
        );
        fixture.write("workflow-templates/documentation-validation.properties.json", PROPERTIES.as_bytes());
        fixture.write(
            "workflow-templates/rust-validation.yml",
            workflow_text("$default-branch", "reusable-rust-cargo-validate.yml").as_bytes(),
        );
        fixture.write("workflow-templates/rust-validation.properties.json", PROPERTIES.as_bytes());
        fixture.write("profile/README.md", b"# Dornglut\n\nIndependently useful Rust frameworks.\n");
        fixture
    }

    fn index_of(&self, relative: &str) -> Option<usize> {
        let path: Vec<Vec<char>> = relative.split('/').map(chars).collect();
        self.repo.entries.iter().position(|entry| entry.path == path)
    }

    fn ensure_directories(&mut self, relative: &str) {
        let parts: Vec<&str> = relative.split('/').collect();
        for end in 1..parts.len() {
            let directory = parts[..end].join("/");
            if self.index_of(&directory).is_none() {
                self.push(&directory, Kind::Directory { listing_error: None });
            }
        }
    }

    fn push(&mut self, relative: &str, kind: Kind) {
        let path = relative.split('/').map(chars).collect();
        self.repo.entries.push(Entry { path, utf8: true, kind });
    }

    fn set(&mut self, relative: &str, kind: Kind) {
        self.ensure_directories(relative);
        match self.index_of(relative) {
            Some(index) => self.repo.entries[index].kind = kind,
            None => self.push(relative, kind),
        }
    }

    fn write(&mut self, relative: &str, bytes: &[u8]) {
        self.set(
            relative,
            Kind::File { len: bytes.len() as u64, content: Content::Bytes(bytes.to_vec()) },
        );
    }

    fn read(&self, relative: &str) -> String {
        match &self.repo.entries[self.index_of(relative).unwrap()].kind {
            Kind::File { content: Content::Bytes(bytes), .. } => String::from_utf8(bytes.clone()).unwrap(),
            _ => panic!("{relative} is not a readable file"),
        }
    }

    fn remove(&mut self, relative: &str) {
        let index = self.index_of(relative).unwrap();
        self.repo.entries.remove(index);
    }

    fn symlink(&mut self, relative: &str, destination: Destination) {
        self.set(relative, Kind::Symlink { destination });
    }

    fn failure(&self) -> String {
        match validate_repository(&self.repo) {
            Ok(()) => panic!("validation passed"),
            Err(errors) => errors.to_string(),
        }
    }

    fn passes(&self) -> bool {
        validate_repository(&self.repo).is_ok()
    }
}

fn replace(fixture: &mut Fixture, relative: &str, from: &str, to: &str) {
    let text = fixture.read(relative);
    assert!(text.contains(from), "replacement source must be present");
    fixture.write(relative, text.replacen(from, to, 1).as_bytes());
}

fn assert_contains(value: impl AsRef<str>, expected: &str) {
    assert!(
        value.as_ref().contains(expected),
        "expected {expected:?} in:\n{}",
        value.as_ref()
    );
}

#[test]
fn repository_state_changes_between_snapshots_are_rejected() {
    let mut fixture = Fixture::current_repository();
    fixture.repo.state_before = WorkTreeState::Captured(b"status\0tracked\0".to_vec());
    fixture.repo.state_after = Ok(b"status\0 M tracked.md\0tracked\0".to_vec());
    assert_contains(fixture.failure(), "repository changed during validation");
}

#[test]
fn valid_current_repository_passes() {
    let fixture = Fixture::current_repository();
    assert!(fixture.passes(), "{:?}", validate_repository(&fixture.repo).err().map(|e| e.to_string()));
}

#[test]
fn missing_required_file_is_rejected() {
    let mut fixture = Fixture::current_repository();
    fixture.remove("README.md");
    assert_contains(fixture.failure(), "README.md: required file is missing");
}

#[test]
fn empty_required_file_is_rejected() {
    let mut fixture = Fixture::current_repository();
    fixture.write("README.md", b"");
    assert_contains(fixture.failure(), "README.md: required file is empty");
}

#[test]
fn retired_issue_template_is_rejected() {
    let mut fixture = Fixture::current_repository();
    fixture.write(".github/ISSUE_TEMPLATE/bug.yml", b"name: retired\n");
    assert_contains(
        fixture.failure(),
        ".github/ISSUE_TEMPLATE/bug.yml: retired issue form must not exist",
    );
}

#[test]
fn invalid_utf8_is_rejected() {
    let mut fixture = Fixture::current_repository();
    fixture.write("notes/invalid.MD", &[0xff]);
    assert_contains(fixture.failure(), "notes/invalid.MD: is not valid UTF-8");
}

#[test]
fn nul_byte_is_rejected() {
    let mut fixture = Fixture::current_repository();
    fixture.write("notes/nul.md", b"hello\0world\n");
    assert_contains(fixture.failure(), "notes/nul.md: contains a NUL byte");
}

#[test]
fn missing_final_newline_is_rejected_for_uppercase_extension() {
    let mut fixture = Fixture::current_repository();
    fixture.write("notes/UPPER.MD", b"text");
    assert_contains(fixture.failure(), "notes/UPPER.MD: must end with a newline");
}

#[test]
fn trailing_whitespace_and_tabs_are_rejected() {
    let mut fixture = Fixture::current_repository();
    fixture.write("notes/spacing.YmL", b"key: value \n\tother: value\n");
    let failure = fixture.failure();
    assert_contains(&failure, "notes/spacing.YmL:1: trailing whitespace");
    assert_contains(&failure, "notes/spacing.YmL:2: tab character");
}

#[test]
fn python_text_suffixes_remain_covered() {
    struct Case {
        path: &'static str,
        bytes: &'static [u8],
        expected: &'static [&'static str],
    }

    for case in [
        Case {
            path: "notes/invalid.py",
            bytes: &[0xff],
            expected: &["notes/invalid.py: is not valid UTF-8"],
        },
        Case {
            path: "notes/nul.PY",
            bytes: b"print('x')\0\n",
            expected: &["notes/nul.PY: contains a NUL byte"],
        },
        Case {
            path: "notes/newline.Py",
            bytes: b"print('x')",
            expected: &["notes/newline.Py: must end with a newline"],
        },
        Case {
            path: "notes/spacing.PY",
            bytes: b"print('x') \n\tprint('y')\n",
            expected: &[
                "notes/spacing.PY:1: trailing whitespace",
                "notes/spacing.PY:2: tab character",
            ],
        },
    ] {
        let mut fixture = Fixture::current_repository();
        fixture.write(case.path, case.bytes);
        let failure = fixture.failure();
        for expected in case.expected {
            assert_contains(&failure, expected);
        }
    }
}

#[test]
fn broken_relative_link_is_rejected() {
    let mut fixture = Fixture::current_repository();
    fixture.write("notes/link.md", b"[missing](missing.md)\n");
    assert_contains(
        fixture.failure(),
        "notes/link.md: broken relative link: missing.md",
    );
}

#[test]
fn malformed_link_does_not_hide_a_later_link_candidate() {
    let mut fixture = Fixture::current_repository();
    fixture.write(
        "notes/link.md",
        b"[malformed] text\n[missing](missing.md)\n",
    );
    assert_contains(
        fixture.failure(),
        "notes/link.md: broken relative link: missing.md",
    );
}

#[test]
fn markdown_link_parity_cases_match_the_accepted_python_behavior() {
    struct Case {
        name: &'static str,
        markdown: &'static str,
        files: &'static [&'static str],
        expected_failure: Option<&'static str>,
    }

    for case in [
        Case {
            name: "empty label",
            markdown: "[](missing.md)\n",
            files: &[],
            expected_failure: Some("notes/link.md: broken relative link: missing.md"),
        },
        Case {
            name: "empty image alt text",
            markdown: "![](missing.png)\n",
            files: &[],
            expected_failure: Some("notes/link.md: broken relative link: missing.png"),
        },
        Case {
            name: "encoded fragment character",
            markdown: "[file](file%23name.md)\n",
            files: &["notes/file#name.md"],
            expected_failure: None,
        },
        Case {
            name: "encoded query character",
            markdown: "[file](file%3Fname.md)\n",
            files: &["notes/file?name.md"],
            expected_failure: None,
        },
        Case {
            name: "literal fragment",
            markdown: "[file](file.md#section)\n",
            files: &["notes/file.md"],
            expected_failure: None,
        },
        Case {
            name: "literal query",
            markdown: "[file](file.md?view=1)\n",
            files: &["notes/file.md"],
            expected_failure: None,
        },
        Case {
            name: "encoded traversal",
            markdown: "[escape](%2E%2E/%2E%2E/outside.md)\n",
            files: &[],
            expected_failure: Some(
                "notes/link.md: link escapes repository: %2E%2E/%2E%2E/outside.md",
            ),
        },
        Case {
            name: "external links",
            markdown: "[web](https://example.com) [mail](mailto:maintainer@example.com)\n",
            files: &[],
            expected_failure: None,
        },
        Case {
            name: "pure fragment",
            markdown: "[section](#section)\n",
            files: &[],
            expected_failure: None,
        },
        Case {
            name: "multiple candidates",
            markdown: "[present](file.md) [missing](missing.md)\n",
            files: &["notes/file.md"],
            expected_failure: Some("notes/link.md: broken relative link: missing.md"),
        },
        Case {
            name: "malformed candidate followed by a valid candidate",
            markdown: "[malformed] prose [missing](missing.md)\n",
            files: &[],
            expected_failure: Some("notes/link.md: broken relative link: missing.md"),
        },
    ] {
        let mut fixture = Fixture::current_repository();
        for path in case.files {
            fixture.write(path, b"fixture\n");
        }
        fixture.write("notes/link.md", case.markdown.as_bytes());
        match case.expected_failure {
            Some(expected) => assert_contains(fixture.failure(), expected),
            None => assert!(fixture.passes(), "{} should pass", case.name),
        }
    }
}

#[test]
fn query_and_fragment_do_not_break_a_valid_relative_link() {
    let mut fixture = Fixture::current_repository();
    fixture.write("notes/target.md", b"# Target\n");
    fixture.write("notes/link.md", b"[target](target.md?view=full#target)\n");
    assert!(fixture.passes());
}

#[test]
fn repository_escaping_link_is_rejected() {
    let mut fixture = Fixture::current_repository();
    fixture.write("notes/link.md", b"[escape](../../outside.md)\n");
    assert_contains(
        fixture.failure(),
        "notes/link.md: link escapes repository: ../../outside.md",
    );
}

#[test]
fn symlinked_repository_surfaces_and_markdown_targets_are_rejected() {
    let mut fixture = Fixture::current_repository();
    fixture.write("notes/internal.md", b"internal\n");
    fixture.symlink("notes/alias.md", Destination::InsideRoot);
    fixture.write("notes/link.md", b"[alias](alias.md)\n");
    assert_contains(
        fixture.failure(),
        "notes/alias.md: symbolic links are not permitted",
    );
}

#[test]
fn symlinked_markdown_parent_directory_is_rejected() {
    let mut fixture = Fixture::current_repository();
    fixture.write("notes/targets/target.md", b"target\n");
    fixture.symlink("notes/linked", Destination::InsideRoot);
    fixture.write("notes/link.md", b"[target](linked/target.md)\n");
    assert_contains(
        fixture.failure(),
        "notes/linked/target.md: symbolic links are not permitted",
    );
}

#[test]
fn external_symlink_markdown_target_reports_a_repository_escape_without_reading_it() {
    let mut fixture = Fixture::current_repository();
    fixture.symlink("notes/external.md", Destination::OutsideRoot);
    fixture.write("notes/link.md", b"[external](external.md)\n");
    assert_contains(
        fixture.failure(),
        "notes/link.md: link escapes repository: external.md",
    );
}

#[test]
fn broken_symlink_markdown_target_is_rejected() {
    let mut fixture = Fixture::current_repository();
    fixture.symlink("notes/broken.md", Destination::Unresolved);
    fixture.write("notes/link.md", b"[broken](broken.md)\n");
    assert_contains(
        fixture.failure(),
        "notes/broken.md: symbolic links are not permitted",
    );
}

#[test]
fn required_symlinked_file_is_rejected() {
    let mut fixture = Fixture::current_repository();
    fixture.write("notes/readme.md", b"replacement\n");
    fixture.remove("README.md");
    fixture.symlink("README.md", Destination::InsideRoot);
    assert_contains(
        fixture.failure(),
        "README.md: symbolic links are not permitted",
    );
}

#[test]
fn historical_owner_token_is_rejected_on_active_surface() {
    let mut fixture = Fixture::current_repository();
    fixture.write(
        "profile/README.md",
        b"[old](https://github.com/crystonix/example)\n",
    );
    assert_contains(
        fixture.failure(),
        "profile/README.md: contains historical owner token \"github.com/crystonix/\"",
    );
}

#[test]
fn issue_template_inventory_drift_is_rejected() {
    let mut fixture = Fixture::current_repository();
    fixture.write(
        ".github/ISSUE_TEMPLATE/unexpected.yml",
        b"name: Unexpected\n",
    );
    assert_contains(fixture.failure(), "issue-template inventory mismatch");
}

#[test]
fn workflow_template_inventory_drift_is_rejected() {
    let mut fixture = Fixture::current_repository();
    fixture.write("workflow-templates/unexpected.yml", b"name: Unexpected\n");
    assert_contains(fixture.failure(), "workflow-template inventory mismatch");
}

#[test]
fn unauthorized_active_workflow_is_rejected() {
    let mut fixture = Fixture::current_repository();
    fixture.write(".github/workflows/unexpected.yml", b"name: Unexpected\n");
    assert_contains(fixture.failure(), "active workflow inventory drift");
}

#[test]
fn mutable_reusable_workflow_reference_is_rejected() {
    let mut fixture = Fixture::current_repository();
    replace(
        &mut fixture,
        ".github/workflows/validate.yml",
        "@624cb41adeed21a6461eb838bc7330bd0a5079fd",
        "@main",
    );
    assert_contains(
        fixture.failure(),
        ".github/workflows/validate.yml: immutable revision drift",
    );
}

#[test]
fn incorrect_branch_target_is_rejected() {
    let mut fixture = Fixture::current_repository();
    replace(&mut fixture, ".github/workflows/validate.yml", "- main", "- trunk");
    assert_contains(
        fixture.failure(),
        ".github/workflows/validate.yml: workflow branch drift",
    );
}

#[test]
fn incorrect_workflow_permission_is_rejected() {
    let mut fixture = Fixture::current_repository();
    replace(
        &mut fixture,
        ".github/workflows/validate.yml",
        "contents: read",
        "contents: write",
    );
    assert_contains(
        fixture.failure(),
        ".github/workflows/validate.yml: workflow permission drift",
    );
}

#[test]
fn malformed_workflows_are_rejected_without_panicking() {
    struct Case {
        name: &'static str,
        workflow: &'static [u8],
        expected: &'static str,
    }

    for case in [
        Case {
            name: "empty",
            workflow: b"",
            expected: "workflow identity drift",
        },
        Case {
            name: "whitespace only",
            workflow: b" \n\t\n",
            expected: "workflow identity drift",
        },
        Case {
            name: "name only",
            workflow: b"name: Validate\n",
            expected: "workflow trigger drift",
        },
        Case {
            name: "truncated trigger",
            workflow: b"name: Validate\non:\n  pull_request:\n  push:\n",
            expected: "workflow branch drift",
        },
        Case {
            name: "truncated permissions",
            workflow: b"name: Validate\non:\n  pull_request:\n  push:\n    branches:\n      - main\npermissions:\n",
            expected: "workflow permission drift",
        },
        Case {
            name: "truncated job",
            workflow: b"name: Validate\non:\n  pull_request:\n  push:\n    branches:\n      - main\npermissions:\n  contents: read\n",
            expected: "workflow job drift",
        },
        Case {
            name: "unexpected field",
            workflow: b"name: Validate\non:\n  pull_request:\n  push:\n    branches:\n      - main\npermissions:\n  contents: read\njobs:\n  validate:\n    uses: dornglut/github-workflows/.github/workflows/reusable-rust-cargo-validate.yml@624cb41adeed21a6461eb838bc7330bd0a5079fd\ntimeout-minutes: 5\n",
            expected: "unexpected workflow field or ordering drift",
        },
    ] {
        let mut fixture = Fixture::current_repository();
        fixture.write(".github/workflows/validate.yml", case.workflow);
        let failure = fixture.failure();
        assert!(
            failure.contains(case.expected),
            "{} should report {:?}, got:\n{failure}",
            case.name,
            case.expected
        );
    }
}

#[test]
fn extra_active_workflow_field_is_rejected() {
    let mut fixture = Fixture::current_repository();
    let text = format!(
        "{}timeout-minutes: 5\n",
        fixture.read(".github/workflows/validate.yml")
    );
    fixture.write(".github/workflows/validate.yml", text.as_bytes());
    assert_contains(
        fixture.failure(),
        ".github/workflows/validate.yml: unexpected workflow field or ordering drift",
    );
}

#[test]
fn malformed_workflow_properties_are_rejected() {
    let mut fixture = Fixture::current_repository();
    fixture.write("workflow-templates/rust-validation.properties.json", b"{\n");
    assert_contains(
        fixture.failure(),
        "workflow-templates/rust-validation.properties.json: invalid JSON",
    );
}

#[test]
fn missing_workflow_property_pair_is_rejected() {
    let mut fixture = Fixture::current_repository();
    fixture.remove("workflow-templates/rust-validation.yml");
    assert_contains(
        fixture.failure(),
        "workflow-templates/rust-validation.properties.json: matching workflow template is missing",
    );
}

#[test]
fn reintroduced_python_validator_is_rejected() {
    let mut fixture = Fixture::current_repository();
    fixture.write("scripts/validate.py", b"#!/usr/bin/env python3\n");
    assert_contains(
        fixture.failure(),
        "scripts/validate.py: retired Python validator must not exist",
    );
}
