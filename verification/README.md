# xtask

The repository validator of an organization-defaults repository, written in
Verus. Every rule it applies is proved against a contract:

- required files are present, non-empty and not symbolic links; retired files
  are absent;
- text files are NUL-free UTF-8, end with a newline, carry no trailing
  whitespace or tabs, and namespace surfaces hold no historical owner token;
- relative Markdown links resolve inside the repository, without links;
- issue-template, workflow-template and active-workflow inventories are exact;
- community-health files and issue forms hold their contract tokens;
- workflow files match their pinned contract line by line;
- workflow-template metadata holds the required fields and a sibling template;
- the version-control state did not change while the rules ran (a root
  outside any work tree has no state to compare).

## Layout

- `src/` — the verified library. `repo.rs` is the repository snapshot the rules
  read (entries, kinds, link destinations, inspection and link resolution);
  `scan.rs`, `files.rs`, `workflow.rs` and `markdown.rs` hold the rules;
  `walk.rs` orders the snapshot depth first with siblings by name, whatever
  order it was listed in; `validate.rs` runs the rules and sorts the messages; `run.rs` is the step
  function of the `validate` command (cargo checks, then the repository);
  `listing.rs` shows that the order in which a snapshot lists its entries
  changes no message; `laws.rs` states properties that span several functions; `chars.rs`,
  `order.rs`, `lists.rs` and `json.rs` are text helpers, message ordering,
  rule constants and the JSON document model (parsed with `serde_json`).
- `app/` — the command: walks the file system into a snapshot, runs git and
  cargo, prints the report.
- `tests/` — scenarios on in-memory snapshots, and tests of single rules.
