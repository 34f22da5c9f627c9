//! The rules of a grading run: where the sandbox of an exercise lies, what
//! is put into it, under which deadline the tests run, and what verdict
//! comes out. The run itself (files and the test process) is the caller's
//! part; [`step`] tells it what to do next.

use vstd::prelude::*;
use vstd::string::*;
use crate::exercise::Exercise;
use crate::path::{dir_name, dir_name_of, join_path, path_joined};
use crate::text::{decimal, decimal_string, replace_all, replaced};

verus! {

/// Seconds granted to a run when neither the caller nor the exercise names
/// a limit.
pub const DEFAULT_TIMEOUT_SECS: u64 = 15;

/// The verdict of one grading run, with what the test process printed.
#[derive(Debug, Clone)]
pub struct GradeOutcome {
    pub passed: bool,
    pub stdout: String,
    pub stderr: String,
}

/// The mathematical content of a [`GradeOutcome`].
pub struct GradeOutcomeModel {
    pub passed: bool,
    pub stdout: Seq<char>,
    pub stderr: Seq<char>,
}

impl View for GradeOutcome {
    type V = GradeOutcomeModel;

    open spec fn view(&self) -> GradeOutcomeModel {
        GradeOutcomeModel { passed: self.passed, stdout: self.stdout@, stderr: self.stderr@ }
    }
}

/// The message that stands in place of the output of a run that was
/// stopped at its deadline.
pub open spec fn timeout_message(timeout_secs: u64) -> Seq<char> {
    "Timed out after "@ + decimal(timeout_secs as nat) + "s"@
}

impl GradeOutcome {
    /// The verdict of a run that has ended by itself: it passed exactly if
    /// the test process reported success, and the output is kept as it is.
    pub fn finished(success: bool, stdout: String, stderr: String) -> (outcome: GradeOutcome)
        ensures
            outcome.passed == success,
            outcome.stdout == stdout,
            outcome.stderr == stderr,
    {
        GradeOutcome { passed: success, stdout, stderr }
    }

    /// The verdict of a run that was stopped at its deadline: failed, with
    /// no output but the message that names the deadline.
    pub fn timed_out(timeout_secs: u64) -> (outcome: GradeOutcome)
        ensures
            !outcome.passed,
            outcome.stdout@ == Seq::<char>::empty(),
            outcome.stderr@ == timeout_message(timeout_secs),
    {
        let mut stderr = "Timed out after ".to_owned();
        let secs = decimal_string(timeout_secs);
        stderr.append(secs.as_str());
        stderr.append("s");
        GradeOutcome { passed: false, stdout: String::new(), stderr }
    }
}

/// The deadline that applies to a run: the caller's choice first, then the
/// exercise's own limit, then the default.
pub open spec fn effective_timeout(requested: Option<u64>, exercise_limit: Option<u64>) -> u64 {
    match requested {
        Some(t) => t,
        None => match exercise_limit {
            Some(t) => t,
            None => DEFAULT_TIMEOUT_SECS,
        },
    }
}

/// Picks the deadline for a grading run, in seconds.
pub fn resolve_timeout(requested: Option<u64>, exercise_limit: Option<u64>) -> (secs: u64)
    ensures
        secs == effective_timeout(requested, exercise_limit),
{
    match requested {
        Some(t) => t,
        None => match exercise_limit {
            Some(t) => t,
            None => DEFAULT_TIMEOUT_SECS,
        },
    }
}

/// The test source as it runs in the sandbox: every `crate::` reads
/// `exercise_sandbox::`. The replacement is textual and covers the whole
/// source.
pub open spec fn rewritten_tests(raw: Seq<char>) -> Seq<char> {
    replaced(raw, "crate::"@, "exercise_sandbox::"@)
}

/// Rewrites the fixed test source for the sandbox package.
pub fn rewrite_tests(raw: &str) -> (out: String)
    ensures
        out@ == rewritten_tests(raw@),
{
    replace_all(raw, "crate::", "exercise_sandbox::")
}

/// The sandbox directory of the exercise `id` under the data directory. It
/// depends on the id alone, so every run of an exercise uses the same one.
pub open spec fn sandbox_path(data_dir: Seq<char>, id: Seq<char>) -> Seq<char> {
    path_joined(path_joined(data_dir, "sandboxes"@), dir_name(id))
}

/// The sandbox directory of `ex` under `data_dir`.
pub fn sandbox_dir_for(ex: &Exercise, data_dir: &str) -> (dir: String)
    ensures
        dir@ == sandbox_path(data_dir@, ex.meta.id@),
{
    let base = join_path(data_dir, "sandboxes");
    let name = dir_name_of(ex.meta.id.as_str());
    join_path(base.as_str(), name.as_str())
}

/// Where the parts of a sandbox lie.
#[derive(Debug, Clone)]
pub struct SandboxLayout {
    /// The sandbox directory.
    pub root: String,
    /// The package manifest.
    pub manifest: String,
    /// The directory of the learner's code.
    pub source_dir: String,
    /// The learner's code.
    pub source_file: String,
    /// The directory of the tests.
    pub tests_dir: String,
    /// The rewritten tests.
    pub tests_file: String,
}

/// The places in the sandbox of the exercise `ex` under `data_dir`: the
/// manifest at the root, the learner's code as the library of the package,
/// the tests as its one integration test.
pub fn layout_for(ex: &Exercise, data_dir: &str) -> (layout: SandboxLayout)
    ensures
        layout.root@ == sandbox_path(data_dir@, ex.meta.id@),
        layout.manifest@ == path_joined(layout.root@, "Cargo.toml"@),
        layout.source_dir@ == path_joined(layout.root@, "src"@),
        layout.source_file@ == path_joined(layout.source_dir@, "lib.rs"@),
        layout.tests_dir@ == path_joined(layout.root@, "tests"@),
        layout.tests_file@ == path_joined(layout.tests_dir@, "exercise.rs"@),
{
    let root = sandbox_dir_for(ex, data_dir);
    let manifest = join_path(root.as_str(), "Cargo.toml");
    let source_dir = join_path(root.as_str(), "src");
    let source_file = join_path(source_dir.as_str(), "lib.rs");
    let tests_dir = join_path(root.as_str(), "tests");
    let tests_file = join_path(tests_dir.as_str(), "exercise.rs");
    SandboxLayout { root, manifest, source_dir, source_file, tests_dir, tests_file }
}

/// The program that builds and tests a sandbox.
pub fn test_program() -> (program: &'static str)
    ensures
        program@ == "cargo"@,
{
    "cargo"
}

/// The arguments with which the program is run in the sandbox directory.
pub fn test_arguments() -> (arguments: Vec<String>)
    ensures
        arguments.deep_view() == seq!["test"@, "--quiet"@],
{
    let mut arguments: Vec<String> = Vec::new();
    arguments.push("test".to_owned());
    arguments.push("--quiet".to_owned());
    assert(arguments.deep_view() =~= seq!["test"@, "--quiet"@]);
    arguments
}

/// The text of the package manifest that a new sandbox gets.
pub open spec fn manifest_text() -> Seq<char> {
    "[package]\nname = \"exercise_sandbox\"\nversion = \"0.1.0\"\nedition = \"2021\"\n\n[dependencies]\nthiserror = \"1\"\ntokio = { version = \"1\", features = [\"rt-multi-thread\",\"macros\",\"sync\"] }\n"@
}

/// The package manifest of a sandbox.
pub fn sandbox_manifest() -> (text: String)
    ensures
        text@ == manifest_text(),
{
    "[package]\nname = \"exercise_sandbox\"\nversion = \"0.1.0\"\nedition = \"2021\"\n\n[dependencies]\nthiserror = \"1\"\ntokio = { version = \"1\", features = [\"rt-multi-thread\",\"macros\",\"sync\"] }\n".to_owned()
}

/// Where a grading run stands.
#[derive(Debug, Clone, Copy, PartialEq, Eq, Structural)]
pub enum GradeState {
    /// Nothing is known of the sandbox yet.
    Uninitialized,
    /// The sandbox holds its package skeleton.
    Provisioned,
    /// The learner's code and the tests are in place and the tests run.
    Running,
    /// The tests ended with success.
    Passed,
    /// The tests ended without success.
    Failed,
    /// The deadline passed before the tests ended.
    TimedOut,
}

/// What the caller reports of the outside world.
#[derive(Debug, Clone, Copy, PartialEq, Eq, Structural)]
pub enum GradeEvent {
    /// The sandbox directory does not exist.
    SandboxMissing,
    /// The sandbox directory exists, or its skeleton has just been written.
    SandboxReady,
    /// The learner's code and the rewritten tests were copied in and the
    /// test process was started.
    Started,
    /// The test process ended before the deadline.
    Exited { success: bool },
    /// The deadline passed and the test process is still running.
    DeadlineElapsed,
}

/// What the caller is to do next.
#[derive(Debug, Clone, Copy, PartialEq, Eq, Structural)]
pub enum GradeAction {
    /// Create the sandbox directory and write its manifest.
    Provision,
    /// Copy the learner's code and the rewritten tests in, start the tests.
    Start,
    /// Wait for the test process until the deadline.
    Await,
    /// Take the output of the ended process and report the verdict.
    Collect,
    /// Kill the test process and its children, then report the timeout.
    Kill,
}

/// The transition of a grading run, `None` where `state` does not admit
/// `event`.
pub open spec fn next_step(state: GradeState, event: GradeEvent) -> Option<
    (GradeState, GradeAction),
> {
    match (state, event) {
        (GradeState::Uninitialized, GradeEvent::SandboxMissing) => Some(
            (GradeState::Uninitialized, GradeAction::Provision),
        ),
        (GradeState::Uninitialized, GradeEvent::SandboxReady) => Some(
            (GradeState::Provisioned, GradeAction::Start),
        ),
        (GradeState::Provisioned, GradeEvent::Started) => Some(
            (GradeState::Running, GradeAction::Await),
        ),
        (GradeState::Running, GradeEvent::Exited { success }) => Some(
            (
                if success {
                    GradeState::Passed
                } else {
                    GradeState::Failed
                },
                GradeAction::Collect,
            ),
        ),
        (GradeState::Running, GradeEvent::DeadlineElapsed) => Some(
            (GradeState::TimedOut, GradeAction::Kill),
        ),
        _ => None,
    }
}

/// Whether a run in `state` has its verdict.
pub open spec fn is_final(state: GradeState) -> bool {
    state == GradeState::Passed || state == GradeState::Failed || state == GradeState::TimedOut
}

/// Takes one event of a grading run and says where the run stands then and
/// what is to be done.
pub fn step(state: GradeState, event: GradeEvent) -> (next: Option<(GradeState, GradeAction)>)
    ensures
        next == next_step(state, event),
{
    match state {
        GradeState::Uninitialized => match event {
            GradeEvent::SandboxMissing => Some((GradeState::Uninitialized, GradeAction::Provision)),
            GradeEvent::SandboxReady => Some((GradeState::Provisioned, GradeAction::Start)),
            _ => None,
        },
        GradeState::Provisioned => match event {
            GradeEvent::Started => Some((GradeState::Running, GradeAction::Await)),
            _ => None,
        },
        GradeState::Running => match event {
            GradeEvent::Exited { success } => if success {
                Some((GradeState::Passed, GradeAction::Collect))
            } else {
                Some((GradeState::Failed, GradeAction::Collect))
            },
            GradeEvent::DeadlineElapsed => Some((GradeState::TimedOut, GradeAction::Kill)),
            _ => None,
        },
        _ => None,
    }
}

/// Whether a run in `state` has its verdict.
pub fn has_verdict(state: GradeState) -> (done: bool)
    ensures
        done == is_final(state),
{
    match state {
        GradeState::Passed => true,
        GradeState::Failed => true,
        GradeState::TimedOut => true,
        _ => false,
    }
}

/// A run that has its verdict takes no further event, a run reaches
/// `Passed` only when its test process exits with success, and it is asked
/// to kill the process exactly when the deadline has passed.
pub proof fn lemma_run_shape(state: GradeState, event: GradeEvent)
    ensures
        is_final(state) ==> next_step(state, event) is None,
        next_step(state, event) matches Some((after, action)) ==> {
            &&& (after == GradeState::Passed <==> event == (GradeEvent::Exited { success: true }))
            &&& (after == GradeState::TimedOut <==> event == GradeEvent::DeadlineElapsed)
            &&& (action == GradeAction::Kill <==> event == GradeEvent::DeadlineElapsed)
            &&& (is_final(after) ==> state == GradeState::Running)
        },
{
}

} // verus!
