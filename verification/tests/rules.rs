use xtask::chars::{decimal_exec, lines_exec, trim_of};
use xtask::json::{JsonDocument, JsonField, JsonMember};
use xtask::markdown::{
    hex_value, is_external_target, link_file_part_exec, markdown_link_targets, percent_decode,
};
use xtask::order::{lex_less, sorted_unique};
use xtask::repo::{
    components_exec, inspect_text_exec, relative_path, resolve_link_exec, Content, Destination,
    Entry, Inspection, Kind, Repository, Resolution, WorkTreeState,
};
use xtask::run::{
    git_failure, run_validation, successful_status, RunAction, RunEvent, RunFailure, RunStep,
};
use xtask::scan::{collect_files, extension_of, is_namespace_surface, is_text_path};
use xtask::validate::{is_work_tree, validate_repository, worktree_fingerprint};
use xtask::workflow::{has_full_sha, workflow_contract_failures, WorkflowContract};
use xtask::files::{files_directly_below, workflow_property_failures};

fn c(s: &str) -> Vec<char> {
    s.chars().collect()
}

fn s(v: &[char]) -> String {
    v.iter().collect()
}

fn all(v: &[Vec<char>]) -> Vec<String> {
    v.iter().map(|x| s(x)).collect()
}

fn entry(path: &str, kind: Kind) -> Entry {
    Entry { path: path.split('/').map(c).collect(), utf8: true, kind }
}

fn file(path: &str, bytes: &[u8]) -> Entry {
    entry(path, Kind::File { len: bytes.len() as u64, content: Content::Bytes(bytes.to_vec()) })
}

fn dir(path: &str) -> Entry {
    entry(path, Kind::Directory { listing_error: None })
}

fn repository(entries: Vec<Entry>) -> Repository {
    Repository {
        root_display: c("/work/repo"),
        root_error: None,
        root_listing_error: None,
        entries,
        state_before: WorkTreeState::Captured(vec![1]),
        state_after: Ok(vec![1]),
    }
}

fn messages(repo: &Repository) -> Vec<String> {
    match validate_repository(repo) {
        Ok(()) => Vec::new(),
        Err(errors) => errors.messages(),
    }
}

#[test]
fn link_targets_are_found_in_order() {
    assert_eq!(all(&markdown_link_targets(&c("[a](b) and [c](d e)"))), vec!["b", "d e"]);
    assert_eq!(all(&markdown_link_targets(&c("![img](pic.png)"))), vec!["pic.png"]);
    assert!(markdown_link_targets(&c("[a](b")).is_empty());
    assert!(markdown_link_targets(&c("[a] (b)")).is_empty());
    assert!(markdown_link_targets(&c("no links at all")).is_empty());
}

#[test]
fn malformed_candidate_hides_no_later_link() {
    let later = c("[y](z) tail");
    let mut whole = c("[x] no parenthesis here ");
    whole.extend(later.iter());
    assert_eq!(markdown_link_targets(&whole), markdown_link_targets(&later));
    assert_eq!(all(&markdown_link_targets(&whole)), vec!["z"]);
}

#[test]
fn unclosed_parenthesis_swallows_what_follows() {
    assert_eq!(all(&markdown_link_targets(&c("[a](b [c](d)"))), vec!["b [c](d"]);
}

#[test]
fn percent_decoding() {
    assert_eq!(s(&percent_decode(&c("a%20b"))), "a b");
    assert_eq!(s(&percent_decode(&c("%E2%9C%93"))), "\u{2713}");
    assert_eq!(s(&percent_decode(&c("%zz%4"))), "%zz%4");
    assert_eq!(s(&percent_decode(&c("100%"))), "100%");
    assert_eq!(s(&percent_decode(&c("caf\u{e9}%41"))), "caf\u{e9}A");
    assert_eq!(s(&percent_decode(&c("%FF"))), "\u{FFFD}");
    assert_eq!(s(&percent_decode(&c("%2e%2E/x"))), "../x");
}

#[test]
fn hexadecimal_digit_values() {
    assert_eq!(hex_value(b'0'), Some(0));
    assert_eq!(hex_value(b'9'), Some(9));
    assert_eq!(hex_value(b'a'), Some(10));
    assert_eq!(hex_value(b'F'), Some(15));
    assert_eq!(hex_value(b'g'), None);
    assert_eq!(hex_value(b'/'), None);
}

#[test]
fn external_targets_ignore_case() {
    assert!(is_external_target(&c("HTTPS://example.com")));
    assert!(is_external_target(&c("http://example.com")));
    assert!(is_external_target(&c("MailTo:someone@example.com")));
    assert!(!is_external_target(&c("ftp://example.com")));
    assert!(!is_external_target(&c("docs/http.md")));
}

#[test]
fn link_file_parts() {
    assert_eq!(link_file_part_exec(&c(" <a.md#x> \"title\" ")).map(|v| s(&v)), Some("a.md".to_string()));
    assert_eq!(link_file_part_exec(&c("b.md?view=1")).map(|v| s(&v)), Some("b.md".to_string()));
    assert_eq!(link_file_part_exec(&c("#frag")), None);
    assert_eq!(link_file_part_exec(&c("?query")), None);
    assert_eq!(link_file_part_exec(&c("   ")), None);
    assert_eq!(link_file_part_exec(&c("https://x/y.md")), None);
}

#[test]
fn full_commit_shas() {
    assert!(has_full_sha(&c("uses: a/b.yml@624cb41adeed21a6461eb838bc7330bd0a5079fd")));
    assert!(has_full_sha(&c("x@ABCDEF0123456789abcdef0123456789ABCDEF01")));
    assert!(!has_full_sha(&c("uses: a/b.yml@main")));
    assert!(!has_full_sha(&c("uses: a/b.yml@624cb41adeed21a6461eb838bc7330bd0a5079f")));
    assert!(!has_full_sha(&c("624cb41adeed21a6461eb838bc7330bd0a5079fd")));
    assert!(!has_full_sha(&c("x@624cb41adeed21a6461eb838bc7330bd0a5079fg")));
}

fn contract() -> WorkflowContract {
    WorkflowContract {
        path: ".github/workflows/validate.yml",
        branch: "main",
        reusable_workflow: "reusable-rust-cargo-validate.yml",
    }
}

#[test]
fn workflow_reference_and_lines() {
    assert_eq!(
        s(&contract().reusable_reference()),
        "uses: dornglut/github-workflows/.github/workflows/reusable-rust-cargo-validate.yml@624cb41adeed21a6461eb838bc7330bd0a5079fd"
    );
    let lines = all(&contract().lines());
    assert_eq!(lines.len(), 11);
    assert_eq!(lines[5], "      - main");
    assert_eq!(lines[10], format!("    {}", s(&contract().reusable_reference())));
    assert!(has_full_sha(&contract().reusable_reference()));
}

fn drift(text: &str) -> Vec<String> {
    let mut errors = Vec::new();
    workflow_contract_failures(&c("w.yml"), &c(text), contract(), &mut errors);
    all(&errors)
}

#[test]
fn accepted_workflow_reports_no_drift() {
    let text = all(&contract().lines()).join("\n") + "\n";
    assert!(drift(&text).is_empty());
    let spaced = all(&contract().lines()).join("   \n\n") + "\n";
    assert!(drift(&spaced).is_empty());
}

#[test]
fn workflow_drift_messages() {
    assert_eq!(
        drift(""),
        vec![
            "w.yml: workflow identity drift; expected \"name: Validate\"",
            "w.yml: workflow branch drift; expected \"      - main\"",
            "w.yml: workflow trigger drift; expected unconfigured pull_request and push for \"main\" only",
            "w.yml: workflow permission drift; expected top-level contents: read only",
            "w.yml: workflow profile or immutable revision drift; expected \"uses: dornglut/github-workflows/.github/workflows/reusable-rust-cargo-validate.yml@624cb41adeed21a6461eb838bc7330bd0a5079fd\", found []",
            "w.yml: workflow job drift; expected sole reusable job 'validate'",
        ]
    );
    let text = all(&contract().lines()).join("\n").replace("@624cb41adeed21a6461eb838bc7330bd0a5079fd", "@v1") + "\n";
    let found = drift(&text);
    assert_eq!(
        found,
        vec![
            "w.yml: immutable revision drift; reusable workflow reference is not pinned to a full commit SHA: \"uses: dornglut/github-workflows/.github/workflows/reusable-rust-cargo-validate.yml@v1\"",
            "w.yml: workflow profile or immutable revision drift; expected \"uses: dornglut/github-workflows/.github/workflows/reusable-rust-cargo-validate.yml@624cb41adeed21a6461eb838bc7330bd0a5079fd\", found [\"uses: dornglut/github-workflows/.github/workflows/reusable-rust-cargo-validate.yml@v1\"]",
            "w.yml: workflow job drift; expected sole reusable job 'validate'",
            "w.yml: unexpected workflow field or ordering drift: [\"    uses: dornglut/github-workflows/.github/workflows/reusable-rust-cargo-validate.yml@v1\"]",
        ]
    );
}

#[test]
fn branch_line_elsewhere_in_the_trigger_is_trigger_drift_only() {
    let lines = all(&contract().lines());
    let mut moved = lines.clone();
    moved.swap(4, 5);
    let found = drift(&(moved.join("\n") + "\n"));
    assert!(found.iter().any(|m| m.contains("workflow trigger drift")));
    assert!(!found.iter().any(|m| m.contains("workflow branch drift")));
}

#[test]
fn lines_split_like_str_lines() {
    assert_eq!(all(&lines_exec(&c("a\r\nb\n\nc"))), vec!["a", "b", "", "c"]);
    assert_eq!(all(&lines_exec(&c("a\n"))), vec!["a"]);
    assert_eq!(all(&lines_exec(&c("a\r"))), vec!["a\r"]);
    assert!(lines_exec(&c("")).is_empty());
}

#[test]
fn trimming_uses_unicode_white_space() {
    assert_eq!(s(&trim_of(&c("\u{3000} x y\u{A0}\t"))), "x y");
    assert_eq!(s(&trim_of(&c(" \n "))), "");
}

#[test]
fn decimal_rendering() {
    assert_eq!(s(&decimal_exec(0)), "0");
    assert_eq!(s(&decimal_exec(7)), "7");
    assert_eq!(s(&decimal_exec(1234)), "1234");
}

#[test]
fn sorting_removes_duplicates() {
    let input = vec![c("b"), c("a"), c("b"), c("ab"), c("")];
    assert_eq!(all(&sorted_unique(&input)), vec!["", "a", "ab", "b"]);
    assert!(lex_less(&c("a"), &c("b")));
    assert!(lex_less(&c("a"), &c("ab")));
    assert!(!lex_less(&c("b"), &c("ab")));
    assert!(!lex_less(&c("a"), &c("a")));
    assert!(lex_less(&c("Z"), &c("a")));
}

#[test]
fn validation_command_steps() {
    let (step, action) = run_validation(RunStep::Cargo(0), RunEvent::Started);
    assert_eq!(step, RunStep::Cargo(0));
    match action {
        RunAction::RunCargo(arguments) => assert_eq!(all(&arguments), vec!["+stable", "fmt", "--all", "--check"]),
        _ => panic!("expected a cargo run"),
    }
    let (step, action) = run_validation(
        RunStep::Cargo(0),
        RunEvent::CargoExited { success: true, status: c("exit status: 0") },
    );
    assert_eq!(step, RunStep::Cargo(1));
    match action {
        RunAction::RunCargo(arguments) => assert_eq!(arguments.len(), 8),
        _ => panic!("expected a cargo run"),
    }
    let (step, action) = run_validation(
        RunStep::Cargo(2),
        RunEvent::CargoExited { success: true, status: c("exit status: 0") },
    );
    assert_eq!(step, RunStep::Repository);
    assert!(matches!(action, RunAction::ValidateRepository));
    let (step, action) = run_validation(
        RunStep::Cargo(0),
        RunEvent::CargoExited { success: false, status: c("exit status: 1") },
    );
    assert_eq!(step, RunStep::Finished);
    match action {
        RunAction::Fail(RunFailure::Command(m)) => assert_eq!(s(&m), "cargo +stable fmt --all --check exited with exit status: 1"),
        _ => panic!("expected a failure"),
    }
    let (step, action) = run_validation(RunStep::Cargo(1), RunEvent::CargoFailed { error: c("no cargo") });
    assert_eq!(step, RunStep::Finished);
    assert!(matches!(action, RunAction::Fail(RunFailure::Command(m)) if s(&m) == "no cargo"));
    let (step, action) = run_validation(RunStep::Repository, RunEvent::RepositoryValidated(Ok(())));
    assert_eq!(step, RunStep::Finished);
    assert!(matches!(action, RunAction::Succeed));
}

#[test]
fn command_failures() {
    let arguments = vec![c("status"), c("-z")];
    assert!(successful_status(&c("git"), &arguments, true, &c("ok")).is_ok());
    assert_eq!(
        s(&successful_status(&c("git"), &arguments, false, &c("exit status: 128")).unwrap_err()),
        "git status -z exited with exit status: 128"
    );
    assert_eq!(
        s(&git_failure(&arguments, &c("exit status: 128"), b"  fatal: not a repo \xff\n")),
        "git status -z exited with exit status: 128: fatal: not a repo \u{FFFD}"
    );
}

#[test]
fn fingerprint_layout() {
    assert_eq!(worktree_fingerprint(b"S", b"T"), b"status\0Stracked\0T".to_vec());
}

fn member(key: &str, value: JsonField) -> JsonMember {
    JsonMember { key: key.to_string(), value }
}

fn words(items: &[&str]) -> JsonField {
    JsonField::List(items.iter().map(|item| Some(item.to_string())).collect())
}

fn properties(doc: &JsonDocument) -> Vec<String> {
    let mut errors = Vec::new();
    workflow_property_failures(&c("p.json"), doc, &mut errors);
    all(&errors)
}

#[test]
fn workflow_properties_fields() {
    let good = JsonDocument::Object(vec![
        member("name", JsonField::Text("N".to_string())),
        member("description", JsonField::Text("D".to_string())),
        member("iconName", JsonField::Text("I".to_string())),
        member("categories", words(&["a"])),
        member("filePatterns", words(&["*"])),
    ]);
    assert!(properties(&good).is_empty());
    let bad = JsonDocument::Object(vec![
        member("name", JsonField::Text(" ".to_string())),
        member("description", JsonField::Other),
        member("categories", words(&[])),
        member("filePatterns", words(&["", "x"])),
    ]);
    assert_eq!(
        properties(&bad),
        vec![
            "p.json: name must be a non-empty string",
            "p.json: description must be a non-empty string",
            "p.json: iconName must be a non-empty string",
            "p.json: categories must be a non-empty list of non-empty strings",
            "p.json: filePatterns must be a non-empty list of non-empty strings",
        ]
    );
    let mixed = JsonDocument::Object(vec![member(
        "categories",
        JsonField::List(vec![Some("a".to_string()), None]),
    )]);
    assert!(properties(&mixed)
        .contains(&"p.json: categories must be a non-empty list of non-empty strings".to_string()));
    assert_eq!(properties(&JsonDocument::Other).len(), 5);
}

fn template_repository(json: &str) -> Repository {
    let contents = format!("{json}\n");
    repository(vec![
        dir("workflow-templates"),
        file("workflow-templates/x.properties.json", contents.as_bytes()),
        file("workflow-templates/x.yml", b"x\n"),
    ])
}

#[test]
fn metadata_is_read_as_json() {
    let found = messages(&template_repository(
        r#"{"name":"N","description":"","iconName":"I","categories":["a"],"filePatterns":["*"]}"#,
    ));
    let ours: Vec<&String> =
        found.iter().filter(|m| m.starts_with("workflow-templates/x.properties.json")).collect();
    assert_eq!(
        ours,
        vec!["workflow-templates/x.properties.json: description must be a non-empty string"]
    );
    let broken = messages(&template_repository("{"));
    assert!(broken.contains(&"workflow-templates/x.properties.json: invalid JSON".to_string()));
    let scalar = messages(&template_repository("42"));
    assert!(scalar
        .contains(&"workflow-templates/x.properties.json: name must be a non-empty string".to_string()));
}

#[test]
fn file_name_extensions() {
    assert_eq!(extension_of(&c(".bashrc")), None);
    assert_eq!(extension_of(&c("plain")), None);
    assert_eq!(extension_of(&c("a.b.MD")).map(|v| s(&v)), Some("MD".to_string()));
    assert_eq!(extension_of(&c("trailing.")).map(|v| s(&v)), Some(String::new()));
    assert!(is_text_path(&c("CODEOWNERS")));
    assert!(is_text_path(&c("data.JSON")));
    assert!(is_text_path(&c("conf.yaml")));
    assert!(!is_text_path(&c("main.rs")));
    assert!(!is_text_path(&c(".md")));
}

#[test]
fn organization_surfaces() {
    assert!(is_namespace_surface(&c("README.md")));
    assert!(is_namespace_surface(&c("profile/anything.txt")));
    assert!(is_namespace_surface(&c(".github/ISSUE_TEMPLATE/x.yml")));
    assert!(!is_namespace_surface(&c("docs/README.md")));
    assert!(!is_namespace_surface(&c("profile")));
}

#[test]
fn paths_and_links_that_leave_the_root() {
    let repo = repository(vec![dir("a"), file("a/b.md", b"x\n"), file("c.md", b"y\n")]);
    assert!(matches!(inspect_text_exec(&repo, &c("a/../c.md")), Inspection::Escapes));
    assert!(matches!(inspect_text_exec(&repo, &c("missing/../c.md")), Inspection::Missing));
    assert!(matches!(inspect_text_exec(&repo, &c("/etc/passwd")), Inspection::Escapes));
    assert!(matches!(inspect_text_exec(&repo, &c("./a//b.md")), Inspection::Found(Some(1))));
    assert!(matches!(inspect_text_exec(&repo, &c(".")), Inspection::Found(None)));
    let from_a = vec![c("a")];
    assert!(matches!(resolve_link_exec(&repo, &from_a, &c("b.md")), Resolution::Exists));
    assert!(matches!(resolve_link_exec(&repo, &from_a, &c("../c.md")), Resolution::Exists));
    assert!(matches!(resolve_link_exec(&repo, &from_a, &c("../../c.md")), Resolution::Escapes));
    assert!(matches!(resolve_link_exec(&repo, &from_a, &c("C:/x")), Resolution::Escapes));
    assert!(matches!(resolve_link_exec(&repo, &from_a, &c("x\\y")), Resolution::Escapes));
    assert!(matches!(resolve_link_exec(&repo, &from_a, &c("/c.md")), Resolution::Escapes));
    assert!(matches!(resolve_link_exec(&repo, &from_a, &c("b.md/z")), Resolution::Missing));
    assert!(matches!(resolve_link_exec(&repo, &from_a, &c("..")), Resolution::Exists));
    assert_eq!(all(&components_exec(&c("./x//y/./.."))), vec!["x", "y", ".."]);
}

#[test]
fn relative_paths_use_forward_slashes() {
    let e = entry("dir\\name/file.md", Kind::Special);
    assert_eq!(relative_path(&e).map(|v| s(&v)), Some("dir/name/file.md".to_string()));
    let mut odd = entry("bad\u{FFFD}.md", Kind::Special);
    odd.utf8 = false;
    assert_eq!(relative_path(&odd), None);
}

#[test]
fn walk_reports_what_it_cannot_read() {
    let mut odd = file("odd\u{FFFD}.md", b"x\n");
    odd.utf8 = false;
    let repo = repository(vec![
        odd,
        entry("locked", Kind::Directory { listing_error: Some(c("Permission denied")) }),
        entry("gone", Kind::Uninspectable { error: c("I/O error") }),
        entry("unread.md", Kind::File { len: 3, content: Content::Unreadable(c("busy")) }),
        entry("link.md", Kind::Symlink { destination: Destination::InsideRoot }),
        entry(".git", Kind::Symlink { destination: Destination::InsideRoot }),
    ]);
    let found = messages(&repo);
    for expected in [
        "/work/repo/odd\u{FFFD}.md: unsupported path encoding",
        "/work/repo/locked: failed to read directory: Permission denied",
        "/work/repo/gone: failed to inspect path: I/O error",
        "unread.md: failed to read text: busy",
        "link.md: symbolic links are not permitted",
    ] {
        assert!(found.iter().any(|m| m == expected), "{expected:?} not in {found:?}");
    }
    assert!(!found.iter().any(|m| m.starts_with(".git:")));
}

#[test]
fn unreadable_root_is_reported() {
    let mut repo = repository(Vec::new());
    repo.root_listing_error = Some(c("denied"));
    repo.root_error = Some(c("no such root"));
    let found = messages(&repo);
    assert!(found.contains(&"/work/repo: failed to read directory: denied".to_string()));
    assert!(found.contains(&"validation-required-files.txt: failed to inspect path: no such root".to_string()));
    assert!(found.contains(&"workflow-templates: failed to inspect path: no such root".to_string()));
}

#[test]
fn report_is_sorted_and_deduplicated() {
    let mut repo = repository(Vec::new());
    repo.state_before = WorkTreeState::Failed(c("git missing"));
    let errors = validate_repository(&repo).unwrap_err();
    let list = errors.messages();
    let mut sorted = list.clone();
    sorted.sort();
    sorted.dedup();
    assert_eq!(list, sorted);
    assert!(list.contains(&"failed to capture repository state: git missing".to_string()));
    assert!(list.contains(&"validation-required-files.txt: failed to read UTF-8 text: file is missing".to_string()));
    let text = errors.to_string();
    assert!(text.starts_with("repository validation failed:\n- "));
    assert!(text.ends_with("\n"));
    assert_eq!(text.lines().count(), list.len() + 1);
}

#[test]
fn a_root_outside_any_work_tree_reports_no_state() {
    let mut repo = repository(Vec::new());
    repo.state_before = WorkTreeState::NoWorkTree;
    repo.state_after = Err(c("not reached"));
    assert!(!messages(&repo).iter().any(|m| m.contains("repository state") || m.contains("changed during")));
    repo.state_before = WorkTreeState::Captured(vec![1]);
    assert!(messages(&repo).contains(&"failed to capture repository state: not reached".to_string()));
    repo.state_after = Ok(vec![2]);
    assert!(messages(&repo).contains(&"repository changed during validation".to_string()));
    assert!(is_work_tree(true, b"true\n"));
    assert!(is_work_tree(true, b"true"));
    assert!(!is_work_tree(true, b"false\n"));
    assert!(!is_work_tree(false, b"true\n"));
}

#[test]
fn second_state_failure_is_reported() {
    let mut repo = repository(Vec::new());
    repo.state_after = Err(c("index locked"));
    assert!(messages(&repo).contains(&"failed to capture repository state: index locked".to_string()));
}

#[test]
fn quoted_contract_tokens_are_escaped() {
    let repo = repository(vec![dir(".github"), dir(".github/ISSUE_TEMPLATE"), file(".github/ISSUE_TEMPLATE/defect.yml", b"name: Defect\n")]);
    let found = messages(&repo);
    assert!(found.contains(
        &".github/ISSUE_TEMPLATE/defect.yml: missing required contract token \"title: \\\"[Defect] \\\"\"".to_string()
    ), "{found:?}");
}

#[test]
fn inventory_lists_render_as_sets() {
    let repo = repository(vec![dir(".github"), dir(".github/workflows"), file(".github/workflows/b.YAML", b"x\n"), file(".github/workflows/a.yml", b"x\n"), file(".github/workflows/c.txt", b"x\n")]);
    let found = messages(&repo);
    assert!(found.contains(
        &"active workflow inventory drift; expected {\".github/workflows/validate.yml\"}, found {\".github/workflows/a.yml\", \".github/workflows/b.YAML\"}".to_string()
    ), "{found:?}");
    assert!(found.contains(
        &"issue-template inventory mismatch; expected {\".github/ISSUE_TEMPLATE/config.yml\", \".github/ISSUE_TEMPLATE/defect.yml\", \".github/ISSUE_TEMPLATE/proposal.yml\"}, found {}".to_string()
    ), "{found:?}");
}

#[test]
fn extensions_match_ignoring_case_on_both_sides() {
    let repo = repository(vec![dir("d"), file("d/a.yml", b"x\n"), file("d/b.Yml", b"x\n"), file("d/c.txt", b"x\n")]);
    let mut errors = Vec::new();
    let upper = vec![c("YML")];
    let found = files_directly_below(&repo, &c("d"), Some(&upper), &mut errors);
    assert_eq!(all(&found), vec!["d/a.yml", "d/b.Yml"]);
    assert!(errors.is_empty());
    let every = files_directly_below(&repo, &c("d"), None, &mut errors);
    assert_eq!(all(&every), vec!["d/a.yml", "d/b.Yml", "d/c.txt"]);
}

#[test]
fn required_manifest_lines() {
    let repo = repository(vec![
        file("validation-required-files.txt", b"# comment\n\n  present.md  \n/work/repo/present.md\nempty.md\n/abs.md\n../up.md\nmissing.md\n"),
        file("present.md", b"x\n"),
        file("empty.md", b""),
    ]);
    let found = messages(&repo);
    for expected in [
        "empty.md: required file is empty",
        "/abs.md: symbolic links are not permitted",
        "../up.md: symbolic links are not permitted",
        "missing.md: required file is missing",
    ] {
        assert!(found.contains(&expected.to_string()), "{expected:?} not in {found:?}");
    }
    assert!(!found.iter().any(|m| m.contains("present.md") || m.starts_with("# comment")));
}

#[test]
fn properties_need_their_workflow_and_valid_fields() {
    let repo = repository(vec![
        dir("workflow-templates"),
        file("workflow-templates/x.properties.json", b"{\"name\": \"\"}\n"),
        file("workflow-templates/y.properties.json", b"not json\n"),
        file("workflow-templates/y.yml", b"name: y\n"),
    ]);
    let found = messages(&repo);
    for expected in [
        "workflow-templates/x.properties.json: name must be a non-empty string",
        "workflow-templates/x.properties.json: matching workflow template is missing",
        "workflow-templates/y.properties.json: invalid JSON",
    ] {
        assert!(found.contains(&expected.to_string()), "{expected:?} not in {found:?}");
    }
    assert!(!found.contains(&"workflow-templates/y.properties.json: matching workflow template is missing".to_string()));
}

#[test]
fn blank_lines_and_trailing_space_do_not_change_workflow_drift() {
    assert_eq!(drift(" \n\t\n"), drift(""));
    let accepted = all(&contract().lines()).join("\n") + "\n";
    let padded = all(&contract().lines()).join("  \n\n \t\n") + "\t\n\n";
    assert!(drift(&padded).is_empty());
    assert_eq!(drift(&padded), drift(&accepted));
    let broken = accepted.replace("name: Validate", "name: Check");
    let broken_padded = broken.replace("on:\n", "on: \n   \n");
    assert!(!drift(&broken).is_empty());
    assert_eq!(drift(&broken_padded), drift(&broken));
}

fn walked(repo: &Repository) -> (Vec<String>, Vec<String>) {
    let mut errors = Vec::new();
    let files = collect_files(repo, &mut errors);
    let paths = files.iter().map(|p| all(p).join("/")).collect();
    (paths, all(&errors))
}

#[test]
fn walk_is_depth_first_by_name_whatever_the_listing_order() {
    let entries = || {
        vec![
            file("b.md", b"x\n"),
            dir("a"),
            file("a.b", b"x\n"),
            file("a/z.md", b"x\n"),
            dir("a/c"),
            file("a/c/d.md", b"x\n"),
            entry("a/link.md", Kind::Symlink { destination: Destination::InsideRoot }),
            dir(".git"),
            file(".git/HEAD", b"x\n"),
            file("target/out", b"x\n"),
        ]
    };
    let forward = repository(entries());
    let mut reversed_entries = entries();
    reversed_entries.reverse();
    let reversed = repository(reversed_entries);
    let (paths, errors) = walked(&forward);
    assert_eq!(paths, vec!["a/c/d.md", "a/z.md", "a.b", "b.md"]);
    assert_eq!(errors, vec!["a/link.md: symbolic links are not permitted"]);
    assert_eq!(walked(&reversed), (paths, errors));
    assert_eq!(messages(&forward), messages(&reversed));
}

#[test]
fn a_root_that_ends_in_a_slash_is_not_doubled() {
    let mut odd = file("odd\u{FFFD}.md", b"x\n");
    odd.utf8 = false;
    let mut repo = repository(vec![odd]);
    repo.root_display = c("/");
    assert!(messages(&repo).contains(&"/odd\u{FFFD}.md: unsupported path encoding".to_string()));
}

#[test]
fn paths_below_an_unlistable_directory_cannot_be_looked_up() {
    let repo = repository(vec![
        file("validation-required-files.txt", b"locked/x.md\n"),
        entry("locked", Kind::Directory { listing_error: Some(c("Permission denied")) }),
        file("notes.md", b"[x](locked/x.md)\n"),
    ]);
    let found = messages(&repo);
    for expected in [
        "locked/x.md: failed to inspect path: Permission denied",
        "notes.md: failed to inspect relative link locked/x.md: Permission denied",
    ] {
        assert!(found.contains(&expected.to_string()), "{expected:?} not in {found:?}");
    }
    assert!(!found.iter().any(|m| m.contains("required file is missing") || m.contains("broken relative link")));
}

#[test]
fn symlinked_link_target_is_reported_for_the_file_and_the_target() {
    let repo = repository(vec![
        dir("notes"),
        dir("notes/targets"),
        file("notes/targets/target.md", b"target\n"),
        entry("notes/linked", Kind::Symlink { destination: Destination::InsideRoot }),
        file("notes/link.md", b"[target](linked/target.md)\n"),
    ]);
    let found = messages(&repo);
    for expected in [
        "notes/link.md: symbolic links are not permitted: linked/target.md",
        "notes/linked/target.md: symbolic links are not permitted",
    ] {
        assert!(found.contains(&expected.to_string()), "{expected:?} not in {found:?}");
    }
}
