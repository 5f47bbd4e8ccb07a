//! The validation command: formatting, lint and test runs of cargo, then the
//! repository rules, stopping at the first failure.  The decisions are a step
//! function from the current step and what just happened to the next step and
//! what to do; the caller performs the action and reports back.

use vstd::prelude::*;
use crate::chars::{append, cat, decode_lossy, join, join_exec, text, trim, trim_of, utf8_lossy, views};
use crate::validate::ValidationErrors;

verus! {

/// The argument lists of the cargo runs, in order.
pub open spec fn cargo_arguments(i: int) -> Seq<Seq<char>> {
    if i == 0 {
        seq!["+stable"@, "fmt"@, "--all"@, "--check"@]
    } else if i == 1 {
        seq![
            "+stable"@,
            "clippy"@,
            "--workspace"@,
            "--all-targets"@,
            "--locked"@,
            "--"@,
            "-D"@,
            "warnings"@,
        ]
    } else {
        seq!["+stable"@, "test"@, "--workspace"@, "--all-targets"@, "--locked"@]
    }
}

/// The number of cargo runs.
pub fn cargo_invocation(i: usize) -> (r: Vec<Vec<char>>)
    requires
        i < 3,
    ensures
        views(r@) == cargo_arguments(i as int),
{
    let mut r: Vec<Vec<char>> = Vec::new();
    r.push(text("+stable"));
    if i == 0 {
        r.push(text("fmt"));
        r.push(text("--all"));
        r.push(text("--check"));
    } else if i == 1 {
        r.push(text("clippy"));
        r.push(text("--workspace"));
        r.push(text("--all-targets"));
        r.push(text("--locked"));
        r.push(text("--"));
        r.push(text("-D"));
        r.push(text("warnings"));
    } else {
        r.push(text("test"));
        r.push(text("--workspace"));
        r.push(text("--all-targets"));
        r.push(text("--locked"));
    }
    assert(views(r@) =~= cargo_arguments(i as int));
    r
}

/// What a command that exited unsuccessfully reports.
pub open spec fn exit_message(program: Seq<char>, arguments: Seq<Seq<char>>, status: Seq<char>) -> Seq<
    char,
> {
    program + " "@ + join(arguments, " "@) + " exited with "@ + status
}

/// `Ok` when the command succeeded; else what it reports.
pub fn successful_status(
    program: &[char],
    arguments: &Vec<Vec<char>>,
    success: bool,
    status: &[char],
) -> (r: Result<(), Vec<char>>)
    ensures
        success ==> r is Ok,
        !success ==> (r matches Err(m) && m@ == exit_message(program@, views(arguments@), status@)),
{
    if success {
        Ok(())
    } else {
        let mut m = cat(program, text(" ").as_slice());
        append(&mut m, join_exec(arguments, text(" ").as_slice()).as_slice());
        append(&mut m, text(" exited with ").as_slice());
        append(&mut m, status);
        Err(m)
    }
}

/// What a failed `git` run reports: its arguments, its exit status, and its
/// error output decoded (invalid UTF-8 replaced) and trimmed.
pub open spec fn git_message(arguments: Seq<Seq<char>>, status: Seq<char>, stderr: Seq<u8>) -> Seq<
    char,
> {
    exit_message("git"@, arguments, status) + ": "@ + trim(utf8_lossy(stderr))
}

pub fn git_failure(arguments: &Vec<Vec<char>>, status: &[char], stderr: &[u8]) -> (r: Vec<char>)
    ensures
        r@ == git_message(views(arguments@), status@, stderr@),
{
    let mut m = text("git");
    append(&mut m, text(" ").as_slice());
    append(&mut m, join_exec(arguments, text(" ").as_slice()).as_slice());
    append(&mut m, text(" exited with ").as_slice());
    append(&mut m, status);
    append(&mut m, text(": ").as_slice());
    let detail = decode_lossy(stderr);
    append(&mut m, trim_of(detail.as_slice()).as_slice());
    m
}

/// Where a validation command stands.
#[derive(Clone, Copy, PartialEq, Eq, Debug)]
pub enum RunStep {
    /// Cargo run `i` is next, or under way.
    Cargo(usize),
    /// The repository rules are under way.
    Repository,
    Finished,
}

/// What happened since the last step.
pub enum RunEvent {
    /// The command starts.
    Started,
    /// The current cargo run exited.
    CargoExited { success: bool, status: Vec<char> },
    /// The current cargo run could not be started or waited for.
    CargoFailed { error: Vec<char> },
    /// The repository rules ran.
    RepositoryValidated(Result<(), ValidationErrors>),
}

/// Why a validation command failed.
pub enum RunFailure {
    Command(Vec<char>),
    Repository(ValidationErrors),
}

/// What to do next.
pub enum RunAction {
    RunCargo(Vec<Vec<char>>),
    ValidateRepository,
    Succeed,
    Fail(RunFailure),
}

/// The events that can happen at a step.
pub open spec fn expected_event(step: RunStep, event: RunEvent) -> bool {
    match step {
        RunStep::Cargo(i) => i < 3 && match event {
            RunEvent::RepositoryValidated(_) => false,
            _ => true,
        },
        RunStep::Repository => event is RepositoryValidated,
        RunStep::Finished => false,
    }
}

/// The action runs cargo with the arguments of run `i`.
pub open spec fn runs_cargo(a: RunAction, i: int) -> bool {
    match a {
        RunAction::RunCargo(v) => views(v@) == cargo_arguments(i),
        _ => false,
    }
}

/// The action ends the command with a command failure reporting `m`.
pub open spec fn fails_with(a: RunAction, m: Seq<char>) -> bool {
    match a {
        RunAction::Fail(RunFailure::Command(v)) => v@ == m,
        _ => false,
    }
}

/// The action ends the command with the repository failures `e`.
pub open spec fn fails_on_repository(a: RunAction, e: Seq<Seq<char>>) -> bool {
    match a {
        RunAction::Fail(RunFailure::Repository(f)) => f@ == e,
        _ => false,
    }
}

/// One step of the validation command.  `Started` at cargo run `i` runs it;
/// a successful run moves on to the next run, and after the last one to the
/// repository rules; an unsuccessful run, one that could not run, and failed
/// repository rules end the command with that failure.
pub fn run_validation(step: RunStep, event: RunEvent) -> (r: (RunStep, RunAction))
    requires
        expected_event(step, event),
    ensures
        match (step, event) {
            (RunStep::Cargo(i), RunEvent::Started) => r.0 == step && runs_cargo(r.1, i as int),
            (RunStep::Cargo(i), RunEvent::CargoExited { success: true, .. }) => if i + 1 < 3 {
                r.0 == RunStep::Cargo((i + 1) as usize) && runs_cargo(r.1, i + 1)
            } else {
                r.0 == RunStep::Repository && r.1 is ValidateRepository
            },
            (RunStep::Cargo(i), RunEvent::CargoExited { success: false, status }) => r.0
                == RunStep::Finished && fails_with(
                r.1,
                exit_message("cargo"@, cargo_arguments(i as int), status@),
            ),
            (RunStep::Cargo(i), RunEvent::CargoFailed { error }) => r.0 == RunStep::Finished
                && fails_with(r.1, error@),
            (RunStep::Repository, RunEvent::RepositoryValidated(Ok(()))) => r.0 == RunStep::Finished
                && r.1 is Succeed,
            (RunStep::Repository, RunEvent::RepositoryValidated(Err(e))) => r.0 == RunStep::Finished
                && fails_on_repository(r.1, e@),
            _ => false,
        },
        r.0 == RunStep::Repository ==> (step == RunStep::Cargo(2) && event matches RunEvent::CargoExited {
            success: true,
            ..
        }),
        r.1 is Fail ==> r.0 == RunStep::Finished,
{
    match (step, event) {
        (RunStep::Cargo(i), RunEvent::Started) => (step, RunAction::RunCargo(cargo_invocation(i))),
        (RunStep::Cargo(i), RunEvent::CargoExited { success, status }) => {
            let arguments = cargo_invocation(i);
            match successful_status(text("cargo").as_slice(), &arguments, success, status.as_slice()) {
                Err(m) => (RunStep::Finished, RunAction::Fail(RunFailure::Command(m))),
                Ok(()) => {
                    if i + 1 < 3 {
                        (RunStep::Cargo(i + 1), RunAction::RunCargo(cargo_invocation(i + 1)))
                    } else {
                        (RunStep::Repository, RunAction::ValidateRepository)
                    }
                },
            }
        },
        (RunStep::Cargo(_), RunEvent::CargoFailed { error }) => (
            RunStep::Finished,
            RunAction::Fail(RunFailure::Command(error)),
        ),
        (RunStep::Repository, RunEvent::RepositoryValidated(Ok(()))) => (
            RunStep::Finished,
            RunAction::Succeed,
        ),
        (RunStep::Repository, RunEvent::RepositoryValidated(Err(e))) => (
            RunStep::Finished,
            RunAction::Fail(RunFailure::Repository(e)),
        ),
        _ => (RunStep::Finished, RunAction::Succeed),
    }
}

} // verus!
