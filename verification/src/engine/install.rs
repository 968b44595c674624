//! The actions behind the import guardian's code actions.
//!
//! Two operations: add one package to the current environment, and rebuild the
//! environment on a different Python before adding it. Both record the package
//! in the project manifest, because an install that vanishes on the next clone
//! has not really solved the user's problem.
//!
//! Installing `torch` or `tensorflow` here also consults the framework solver
//! for an index URL matched to the machine's GPU driver, so the quick fix that
//! follows a bare `import torch` pulls the CUDA build the driver can actually run
//! rather than whatever the default index happens to hand back.

use vstd::prelude::*;

use crate::engine::command::{InvocationView, Output};
use crate::engine::flow::{
    all_ok, change_outcome, change_step, failed_step, lemma_steps_push, ok_step, opt_interpreter,
    outcome, run_step, select, selected, step, step_views, Action, ActionView, OutputView, Reply,
    ReplyView, Step, StepView,
};
use crate::engine::interpreter::{Interpreter, InterpreterView};
use crate::engine::pip::{self, venv_python_spec};
use crate::engine::platform::Os;
use crate::engine::project::{normalize_name, normalized, requirement_name, requirement_name_spec};
use crate::engine::setup::{answers, as_str, SetupSummary};
use crate::engine::uv::{self, index_args, opt_uv, venv_args_spec, UvInfo, UvInfoView};
use crate::matrix::solve::{FrameworkSolve, FrameworkSolveView};
use crate::pypi::pyversion::{version_text, PyVersion};
use crate::settings::{PackageManager, ResolvedMode, Settings};
use crate::text;

verus! {

// ---------------------------------------------------------------------------
// Recording a package
// ---------------------------------------------------------------------------

/// Whether one of a requirements file's lines names a package.
pub open spec fn listed(existing: Seq<char>, package: Seq<char>) -> bool {
    exists|i: int|
        0 <= i < text::lines_spec(existing).len() && requirement_name_spec(
            #[trigger] text::lines_spec(existing)[i],
        ) == Some(normalized(package))
}

/// A requirements file with one more line.
pub open spec fn appended(existing: Seq<char>, package: Seq<char>) -> Seq<char> {
    if existing.len() > 0 && existing.last() != '\n' {
        existing.push('\n') + package + seq!['\n']
    } else {
        existing + package + seq!['\n']
    }
}

/// The text of requirements.txt with `package` appended, or nothing when the
/// name is already listed.
pub fn record_in_requirements(existing: &str, package: &str) -> (r: Option<String>)
    ensures
        match r {
            Some(text) => !listed(existing@, package@) && text@ == appended(existing@, package@),
            None => listed(existing@, package@),
        },
{
    let wanted = normalize_name(package);
    let lines = text::lines(existing);
    let ghost all = text::lines_spec(existing@);
    let mut i: usize = 0;
    while i < lines.len()
        invariant
            i <= lines@.len(),
            text::texts(lines@) == all,
            all == text::lines_spec(existing@),
            wanted@ == normalized(package@),
            forall|j: int|
                0 <= j < i ==> requirement_name_spec(#[trigger] all[j]) != Some(wanted@),
        decreases lines@.len() - i,
    {
        proof {
            assert(all[i as int] == lines@[i as int]@);
        }
        if let Some(name) = requirement_name(lines[i].as_str()) {
            if text::same(name.as_str(), wanted.as_str()) {
                proof {
                    assert(requirement_name_spec(text::lines_spec(existing@)[i as int]) == Some(
                        normalized(package@),
                    ));
                }
                return None;
            }
        }
        i += 1;
    }
    let mut out = existing.to_string();
    let len = existing.unicode_len();
    if len > 0 && existing.get_char(len - 1) != '\n' {
        out.push('\n');
    }
    out.append(package);
    out.push('\n');
    proof {
        assert(out@ =~= appended(existing@, package@));
    }
    Some(out)
}

/// Recording a package twice is recording it once: after the first time the name
/// is listed.
///
/// This is so of every text that is on one line and reads as a requirement on
/// the package it names.
pub proof fn recording_is_idempotent(existing: Seq<char>, package: Seq<char>)
    requires
        !package.contains('\n'),
        requirement_name_spec(text::strip_cr(package)) == Some(normalized(package)),
    ensures
        listed(appended(existing, package), package),
{
    let head = if existing.len() > 0 && existing.last() != '\n' {
        existing.push('\n')
    } else {
        existing
    };
    let tail = package + seq!['\n'];
    assert(appended(existing, package) =~= head + tail);
    lemma_lines_concat(head, tail);
    lemma_one_line(package);
    let all = text::lines_spec(head + tail);
    let k = text::lines_spec(head).len() as int;
    assert(all[k] == text::strip_cr(package));
}

/// What was listed stays listed.
pub proof fn recording_keeps_what_is_listed(
    existing: Seq<char>,
    package: Seq<char>,
    other: Seq<char>,
)
    requires
        listed(existing, other),
    ensures
        listed(appended(existing, package), other),
{
    let i = choose|i: int|
        0 <= i < text::lines_spec(existing).len() && requirement_name_spec(
            #[trigger] text::lines_spec(existing)[i],
        ) == Some(normalized(other));
    let tail = package + seq!['\n'];
    if existing.len() > 0 && existing.last() != '\n' {
        let head = existing.push('\n');
        assert(appended(existing, package) =~= head + tail);
        lemma_lines_concat(head, tail);
        lemma_last_line_ended(existing, i, other);
        let j = choose|j: int|
            0 <= j < text::lines_spec(head).len() && requirement_name_spec(
                #[trigger] text::lines_spec(head)[j],
            ) == Some(normalized(other));
        assert(text::lines_spec(head + tail)[j] == text::lines_spec(head)[j]);
    } else {
        assert(appended(existing, package) =~= existing + tail);
        lemma_lines_concat(existing, tail);
        assert(text::lines_spec(existing + tail)[i] == text::lines_spec(existing)[i]);
    }
}

/// A text that ends its last line has the lines of what follows it after its own.
proof fn lemma_lines_concat(a: Seq<char>, b: Seq<char>)
    requires
        a.len() == 0 || a.last() == '\n',
    ensures
        text::lines_spec(a + b) == text::lines_spec(a) + text::lines_spec(b),
    decreases a.len(),
{
    let p = text::eq_char('\n');
    if a.len() == 0 {
        assert(a + b =~= b);
        assert(text::lines_spec(a) + text::lines_spec(b) =~= text::lines_spec(b));
    } else {
        text::lemma_first_index(a, p);
        let i = text::first_index(a, p);
        if i >= a.len() {
            assert(!p(a[a.len() - 1]));
        }
        assert forall|j: int| 0 <= j < i implies !p(#[trigger] (a + b)[j]) by {
            assert((a + b)[j] == a[j]);
        }
        text::lemma_first_index_is(a + b, p, i);
        assert((a + b).take(i) =~= a.take(i));
        let rest = a.skip(i + 1);
        assert((a + b).skip(i + 1) =~= rest + b);
        if rest.len() > 0 {
            assert(rest.last() == a.last());
        }
        lemma_lines_concat(rest, b);
        assert(text::lines_spec(a + b) =~= text::lines_spec(a) + text::lines_spec(b));
    }
}

proof fn lemma_one_line(s: Seq<char>)
    requires
        !s.contains('\n'),
    ensures
        text::lines_spec(s + seq!['\n']) == seq![text::strip_cr(s)],
{
    let t = s + seq!['\n'];
    let p = text::eq_char('\n');
    assert forall|j: int| 0 <= j < s.len() implies !p(#[trigger] t[j]) by {
        assert(t[j] == s[j]);
        assert(s.contains(s[j]));
    }
    text::lemma_first_index_is(t, p, s.len() as int);
    assert(t.take(s.len() as int) =~= s);
    assert(t.skip(s.len() as int + 1) =~= Seq::<char>::empty());
    assert(text::lines_spec(Seq::<char>::empty()) =~= Seq::<Seq<char>>::empty());
    assert(text::lines_spec(t) =~= seq![text::strip_cr(s)]);
}

/// Ending the last line of a text changes no line but for a carriage return at
/// its end, which names nothing.
proof fn lemma_last_line_ended(s: Seq<char>, i: int, package: Seq<char>)
    requires
        s.len() > 0,
        s.last() != '\n',
        0 <= i < text::lines_spec(s).len(),
        requirement_name_spec(text::lines_spec(s)[i]) == Some(normalized(package)),
    ensures
        listed(s.push('\n'), package),
    decreases s.len(),
{
    let p = text::eq_char('\n');
    text::lemma_first_index(s, p);
    let k = text::first_index(s, p);
    let t = s.push('\n');
    if k >= s.len() {
        if s.contains('\n') {
            let j = choose|j: int| 0 <= j < s.len() && s[j] == '\n';
            assert(!p(s[j]));
        }
        assert(t =~= s + seq!['\n']);
        lemma_one_line(s);
        lemma_cr_names_nothing(s);
        assert(text::lines_spec(t)[0] == text::strip_cr(s));
    } else {
        let rest = s.skip(k + 1);
        assert forall|j: int| 0 <= j < k implies !p(#[trigger] t[j]) by {
            assert(t[j] == s[j]);
        }
        text::lemma_first_index_is(t, p, k);
        assert(t.take(k) =~= s.take(k));
        assert(t.skip(k + 1) =~= rest.push('\n'));
        assert(text::lines_spec(s) =~= seq![text::strip_cr(s.take(k))] + text::lines_spec(rest));
        assert(text::lines_spec(t) =~= seq![text::strip_cr(s.take(k))] + text::lines_spec(
            rest.push('\n'),
        ));
        if i == 0 {
            assert(text::lines_spec(t)[0] == text::lines_spec(s)[0]);
        } else {
            assert(rest.last() == s.last());
            assert(text::lines_spec(s)[i] == text::lines_spec(rest)[i - 1]);
            lemma_last_line_ended(rest, i - 1, package);
            let j = choose|j: int|
                0 <= j < text::lines_spec(rest.push('\n')).len() && requirement_name_spec(
                    #[trigger] text::lines_spec(rest.push('\n'))[j],
                ) == Some(normalized(package));
            assert(text::lines_spec(t)[j + 1] == text::lines_spec(rest.push('\n'))[j]);
        }
    }
}

proof fn lemma_cr_names_nothing(s: Seq<char>)
    ensures
        requirement_name_spec(text::strip_cr(s)) == requirement_name_spec(s),
{
    if s.len() > 0 && s.last() == '\r' {
        lemma_trim_without_cr(s);
    }
}

/// Trimming takes a carriage return at the end of a text with it.
proof fn lemma_trim_without_cr(s: Seq<char>)
    requires
        s.len() > 0,
        s.last() == '\r',
    ensures
        text::trim_spec(s.drop_last()) == text::trim_spec(s),
{
    let p = text::not_space();
    let t = s.drop_last();
    assert(!p('\r'));
    text::lemma_first_index(s, p);
    text::lemma_first_index(t, p);
    let i = text::first_index(s, p);
    if i >= s.len() - 1 {
        assert forall|j: int| 0 <= j < t.len() implies !p(#[trigger] t[j]) by {
            assert(t[j] == s[j]);
        }
        text::lemma_first_index_is(t, p, t.len() as int);
        let a = text::trim_start_spec(s);
        let b = text::trim_start_spec(t);
        assert(b =~= Seq::<char>::empty());
        assert forall|j: int| 0 <= j < a.len() implies !p(#[trigger] a[j]) by {
            assert(a[j] == s[i + j]);
        }
        text::lemma_last_index_is(a, p, 0);
        text::lemma_last_index_is(b, p, 0);
        assert(a.take(0) =~= b.take(0));
    } else {
        assert(t[i] == s[i]);
        assert forall|j: int| 0 <= j < i implies !p(#[trigger] t[j]) by {
            assert(t[j] == s[j]);
        }
        text::lemma_first_index_is(t, p, i);
        let a = text::trim_start_spec(s);
        let b = text::trim_start_spec(t);
        assert(b =~= a.drop_last());
        assert(a.last() == '\r');
        text::lemma_last_index(b, p);
        let k = text::last_index(b, p);
        assert forall|j: int| k <= j < a.len() implies !p(#[trigger] a[j]) by {
            if j < b.len() {
                assert(b[j] == a[j]);
            }
        }
        if k > 0 {
            assert(a[k - 1] == b[k - 1]);
        }
        text::lemma_last_index_is(a, p, k);
        assert(a.take(k) =~= b.take(k));
    }
}

/// Refuse an empty package name rather than shelling out with one, and a name
/// that would be read as a flag.
pub fn validate_package_name(name: &str) -> (r: Result<(), String>)
    ensures
        match r {
            Ok(_) => text::trim_spec(name@).len() > 0 && name@[0] != '-',
            Err(why) => if text::trim_spec(name@).len() == 0 {
                why@ == "no package name given"@
            } else {
                name@[0] == '-' && why@ == "`"@ + name@
                    + "` looks like a flag, not a package name"@
            },
        },
{
    if text::trim(name).unicode_len() == 0 {
        return Err("no package name given".to_string());
    }
    proof {
        text::lemma_first_index(name@, text::not_space());
        let t = text::trim_start_spec(name@);
        text::lemma_last_index(t, text::not_space());
    }
    if name.get_char(0) == '-' {
        let mut why = "`".to_string();
        why.append(name);
        why.append("` looks like a flag, not a package name");
        return Err(why);
    }
    Ok(())
}

// ---------------------------------------------------------------------------
// The job and the state
// ---------------------------------------------------------------------------

/// What an install goes by.
#[derive(Debug, PartialEq, Eq)]
pub struct Job {
    pub manager: PackageManager,
    pub package: String,
    /// The venv's path, and that of `requirements.txt`.
    pub venv: String,
    pub requirements: String,
    pub os: Os,
    /// The index that holds the build matched to the GPU driver.
    pub index_url: Option<String>,
    /// What the framework solver has to say.
    pub check: Option<String>,
    /// The Python to rebuild the environment on first, if it is to be rebuilt.
    ///
    /// The caller has already told the user how many packages that reinstalls.
    pub rebuild: Option<PyVersion>,
}

/// A job, mathematically.
#[verifier::ext_equal]
pub struct JobView {
    pub manager: PackageManager,
    pub package: Seq<char>,
    pub venv: Seq<char>,
    pub requirements: Seq<char>,
    pub os: Os,
    pub index_url: Option<Seq<char>>,
    pub check: Option<Seq<char>>,
    pub rebuild: Option<PyVersion>,
}

impl View for Job {
    type V = JobView;

    open spec fn view(&self) -> JobView {
        JobView {
            manager: self.manager,
            package: self.package@,
            venv: self.venv@,
            requirements: self.requirements@,
            os: self.os,
            index_url: text::opt_text(self.index_url),
            check: text::opt_text(self.check),
            rebuild: self.rebuild,
        }
    }
}

/// Where an install stands: rebuilding down to `Restore`, installing after it.
#[derive(Debug, PartialEq, Eq)]
enum Stage {
    RebuildWithUv,
    FindInterpreters,
    LookForOldVenv,
    RemoveVenv,
    InstallPython,
    CreateVenv,
    LookForDeclared,
    Restore,
    EnsureUv,
    LookForManifests,
    LookForVenv,
    Add,
    PipInstall,
    ReadRequirements,
    Record(String),
    Done,
}

/// A stage, mathematically.
#[verifier::ext_equal]
pub enum StageView {
    RebuildWithUv,
    FindInterpreters,
    LookForOldVenv,
    RemoveVenv,
    InstallPython,
    CreateVenv,
    LookForDeclared,
    Restore,
    EnsureUv,
    LookForManifests,
    LookForVenv,
    Add,
    PipInstall,
    ReadRequirements,
    Record(Seq<char>),
    Done,
}

impl View for Stage {
    type V = StageView;

    closed spec fn view(&self) -> StageView {
        match *self {
            Stage::RebuildWithUv => StageView::RebuildWithUv,
            Stage::FindInterpreters => StageView::FindInterpreters,
            Stage::LookForOldVenv => StageView::LookForOldVenv,
            Stage::RemoveVenv => StageView::RemoveVenv,
            Stage::InstallPython => StageView::InstallPython,
            Stage::CreateVenv => StageView::CreateVenv,
            Stage::LookForDeclared => StageView::LookForDeclared,
            Stage::Restore => StageView::Restore,
            Stage::EnsureUv => StageView::EnsureUv,
            Stage::LookForManifests => StageView::LookForManifests,
            Stage::LookForVenv => StageView::LookForVenv,
            Stage::Add => StageView::Add,
            Stage::PipInstall => StageView::PipInstall,
            Stage::ReadRequirements => StageView::ReadRequirements,
            Stage::Record(text) => StageView::Record(text@),
            Stage::Done => StageView::Done,
        }
    }
}

/// An install under way.
#[derive(Debug)]
pub struct Install {
    job: Job,
    uv: Option<UvInfo>,
    interpreter: Option<Interpreter>,
    pyproject: bool,
    stage: Stage,
    steps: Vec<Step>,
    ok: bool,
}

/// An install under way, mathematically.
#[verifier::ext_equal]
pub struct InstallView {
    pub job: JobView,
    /// The uv that was ensured.
    pub uv: Option<UvInfoView>,
    /// The interpreter pip mode rebuilds on.
    pub interpreter: Option<InterpreterView>,
    /// Whether the project had a pyproject.toml when last looked.
    pub pyproject: bool,
    pub stage: StageView,
    pub steps: Seq<StepView>,
    pub ok: bool,
}

impl View for Install {
    type V = InstallView;

    closed spec fn view(&self) -> InstallView {
        InstallView {
            job: self.job@,
            uv: opt_uv(self.uv),
            interpreter: opt_interpreter(self.interpreter),
            pyproject: self.pyproject,
            stage: self.stage@,
            steps: step_views(self.steps@),
            ok: self.ok,
        }
    }
}

pub open spec fn is_pip(job: JobView) -> bool {
    job.manager == PackageManager::Pip
}

/// Whether a stage belongs to uv mode alone.
pub open spec fn uv_stage(stage: StageView) -> bool {
    stage == StageView::RebuildWithUv || stage == StageView::InstallPython || stage
        == StageView::EnsureUv || stage == StageView::LookForManifests || stage == StageView::Add
}

/// Whether a stage belongs to pip mode alone.
pub open spec fn pip_stage(stage: StageView) -> bool {
    stage == StageView::FindInterpreters || stage == StageView::LookForOldVenv || stage
        == StageView::RemoveVenv || stage == StageView::LookForVenv
}

/// Whether a stage belongs to the rebuild.
pub open spec fn rebuild_stage(stage: StageView) -> bool {
    stage == StageView::RebuildWithUv || stage == StageView::FindInterpreters || stage
        == StageView::LookForOldVenv || stage == StageView::RemoveVenv || stage
        == StageView::InstallPython || stage == StageView::CreateVenv || stage
        == StageView::LookForDeclared || stage == StageView::Restore
}

/// What holds of every install: each stage has what it needs, pip mode has no
/// stage that uses uv, and the first step that fails is the last.
pub open spec fn sound(s: InstallView) -> bool {
    &&& is_pip(s.job) ==> !uv_stage(s.stage)
    &&& !is_pip(s.job) ==> !pip_stage(s.stage)
    &&& !is_pip(s.job) && s.stage != StageView::RebuildWithUv && s.stage != StageView::EnsureUv
        && s.stage != StageView::Done ==> s.uv is Some
    &&& is_pip(s.job) && (s.stage == StageView::LookForOldVenv || s.stage == StageView::RemoveVenv
        || s.stage == StageView::CreateVenv) ==> s.interpreter is Some
    &&& rebuild_stage(s.stage) ==> s.job.rebuild is Some
    &&& s.ok == all_ok(s.steps)
    &&& !s.ok ==> s.stage == StageView::Done
}

/// uv with these arguments.
pub open spec fn uv_run(s: InstallView, args: Seq<Seq<char>>) -> ActionView {
    ActionView::Run(InvocationView { program: s.uv->0.path, args })
}

/// The venv's own Python with these arguments.
pub open spec fn venv_run(s: InstallView, args: Seq<Seq<char>>) -> ActionView {
    ActionView::Run(InvocationView { program: venv_python_spec(s.job.venv, s.job.os), args })
}

/// Whether the declared dependencies are restored with `uv sync`.
pub open spec fn syncs(s: InstallView) -> bool {
    !is_pip(s.job) && s.pyproject
}

/// The action an install waits on.
pub open spec fn action_of(s: InstallView) -> ActionView {
    match s.stage {
        StageView::RebuildWithUv => ActionView::EnsureUv,
        StageView::EnsureUv => ActionView::EnsureUv,
        StageView::FindInterpreters => ActionView::FindInterpreters,
        StageView::LookForOldVenv => ActionView::LookForVenv,
        StageView::LookForVenv => ActionView::LookForVenv,
        StageView::RemoveVenv => ActionView::RemoveVenv,
        StageView::InstallPython => uv_run(
            s,
            seq!["python"@, "install"@, version_text(s.job.rebuild->0)],
        ),
        StageView::CreateVenv => if is_pip(s.job) {
            ActionView::Run(
                InvocationView {
                    program: s.interpreter->0.command,
                    args: seq!["-m"@, "venv"@, s.job.venv],
                },
            )
        } else {
            uv_run(s, venv_args_spec(s.job.rebuild->0, s.job.venv))
        },
        StageView::LookForDeclared => ActionView::LookForManifests,
        StageView::LookForManifests => ActionView::LookForManifests,
        StageView::Restore => if is_pip(s.job) {
            venv_run(s, seq!["-m"@, "pip"@, "install"@, "-r"@, s.job.requirements])
        } else if s.pyproject {
            uv_run(s, seq!["sync"@])
        } else {
            uv_run(s, seq!["pip"@, "install"@, "-r"@, s.job.requirements])
        },
        StageView::Add => uv_run(
            s,
            seq!["add"@] + index_args("--index"@, s.job.index_url) + seq![s.job.package],
        ),
        StageView::PipInstall => if is_pip(s.job) {
            venv_run(
                s,
                seq!["-m"@, "pip"@, "install"@] + index_args("--index-url"@, s.job.index_url)
                    + seq![s.job.package],
            )
        } else {
            uv_run(
                s,
                seq!["pip"@, "install"@] + index_args("--index-url"@, s.job.index_url)
                    + seq![s.job.package],
            )
        },
        StageView::ReadRequirements => ActionView::ReadRequirements,
        StageView::Record(text) => ActionView::WriteRequirements(text),
        StageView::Done => ActionView::Done,
    }
}

// ---------------------------------------------------------------------------
// Steps
// ---------------------------------------------------------------------------

/// An install with one more step: it goes on to `next` if the step went well,
/// and is over if not.
pub open spec fn recorded(s: InstallView, step: StepView, next: StageView) -> InstallView {
    InstallView {
        steps: s.steps.push(step),
        ok: s.ok && step.ok,
        stage: if step.ok {
            next
        } else {
            StageView::Done
        },
        ..s
    }
}

pub open spec fn moved(s: InstallView, next: StageView) -> InstallView {
    InstallView { stage: next, ..s }
}

/// The install proper, which begins with what the framework solver has to say.
pub open spec fn installing(s: InstallView) -> InstallView {
    let next = if is_pip(s.job) {
        StageView::LookForVenv
    } else {
        StageView::EnsureUv
    };
    match s.job.check {
        Some(detail) => recorded(s, ok_step("GPU/CUDA check"@, detail), next),
        None => moved(s, next),
    }
}

/// Where an install begins.
pub open spec fn begun(job: JobView) -> InstallView {
    let s = InstallView {
        job,
        uv: None,
        interpreter: None,
        pyproject: false,
        stage: StageView::Done,
        steps: seq![],
        ok: true,
    };
    if job.rebuild is None {
        installing(s)
    } else if is_pip(job) {
        moved(s, StageView::FindInterpreters)
    } else {
        moved(s, StageView::RebuildWithUv)
    }
}

pub open spec fn venv_name(job: JobView) -> Seq<char> {
    if is_pip(job) {
        "python -m venv"@
    } else {
        "uv venv"@
    }
}

pub open spec fn restore_name(s: InstallView) -> Seq<char> {
    if syncs(s) {
        "uv sync"@
    } else {
        "reinstall requirements.txt"@
    }
}

pub open spec fn pip_install_name(job: JobView) -> Seq<char> {
    (if is_pip(job) {
        "pip install "@
    } else {
        "uv pip install "@
    }) + job.package
}

/// Why pip mode cannot rebuild on a version that is not on the machine.
pub open spec fn not_on_machine(v: PyVersion) -> Seq<char> {
    "Python "@ + version_text(v)
        + " is not installed. Install it, then run this again. pip mode cannot fetch interpreters."@
}

/// An install after a reply. A reply that does not answer the action it waits on
/// changes nothing.
pub open spec fn after(s: InstallView, reply: ReplyView) -> InstallView {
    match (s.stage, reply) {
        (StageView::RebuildWithUv, ReplyView::Uv(Ok(uv))) => moved(
            InstallView { uv: Some(uv), ..s },
            StageView::InstallPython,
        ),
        (StageView::EnsureUv, ReplyView::Uv(Ok(uv))) => moved(
            InstallView { uv: Some(uv), ..s },
            StageView::LookForManifests,
        ),
        (StageView::RebuildWithUv, ReplyView::Uv(Err(e))) => recorded(
            s,
            failed_step("ensure uv"@, e),
            StageView::Done,
        ),
        (StageView::EnsureUv, ReplyView::Uv(Err(e))) => recorded(
            s,
            failed_step("ensure uv"@, e),
            StageView::Done,
        ),
        (StageView::FindInterpreters, ReplyView::Interpreters(found)) => match selected(
            found,
            s.job.rebuild->0,
        ) {
            Some(i) => moved(
                InstallView { interpreter: Some(i), ..s },
                StageView::LookForOldVenv,
            ),
            None => recorded(
                s,
                failed_step("select interpreter"@, not_on_machine(s.job.rebuild->0)),
                StageView::Done,
            ),
        },
        (StageView::LookForOldVenv, ReplyView::Venv(there)) => moved(
            s,
            if there {
                StageView::RemoveVenv
            } else {
                StageView::CreateVenv
            },
        ),
        (StageView::RemoveVenv, ReplyView::Changed(changed)) => match changed {
            Ok(_) => moved(s, StageView::CreateVenv),
            Err(e) => recorded(s, failed_step("remove old venv"@, e), StageView::Done),
        },
        (StageView::InstallPython, ReplyView::Ran(ran)) => recorded(
            s,
            run_step("uv python install "@ + version_text(s.job.rebuild->0), "ready"@, ran),
            StageView::CreateVenv,
        ),
        (StageView::CreateVenv, ReplyView::Ran(ran)) => recorded(
            s,
            run_step(venv_name(s.job), s.job.venv, ran),
            StageView::LookForDeclared,
        ),
        (StageView::LookForDeclared, ReplyView::Manifests { pyproject, requirements }) => {
            let seen = InstallView { pyproject, ..s };
            if syncs(seen) || requirements {
                moved(seen, StageView::Restore)
            } else {
                installing(seen)
            }
        },
        (StageView::Restore, ReplyView::Ran(ran)) => {
            let step = run_step(restore_name(s), "existing dependencies restored"@, ran);
            let more = recorded(s, step, StageView::Done);
            if step.ok {
                installing(more)
            } else {
                more
            }
        },
        (StageView::LookForManifests, ReplyView::Manifests { pyproject, requirements }) => moved(
            InstallView { pyproject, ..s },
            if pyproject {
                StageView::Add
            } else {
                StageView::PipInstall
            },
        ),
        (StageView::LookForVenv, ReplyView::Venv(there)) => if there {
            moved(s, StageView::PipInstall)
        } else {
            recorded(
                s,
                failed_step("locate venv"@, "no .venv in this project; run setup first"@),
                StageView::Done,
            )
        },
        // `uv add` writes pyproject itself; otherwise install, then record.
        (StageView::Add, ReplyView::Ran(ran)) => recorded(
            s,
            run_step(
                "uv add "@ + s.job.package,
                "installed and added to pyproject.toml"@,
                ran,
            ),
            StageView::Done,
        ),
        (StageView::PipInstall, ReplyView::Ran(ran)) => recorded(
            s,
            run_step(pip_install_name(s.job), "installed"@, ran),
            StageView::ReadRequirements,
        ),
        (StageView::ReadRequirements, ReplyView::Requirements(found)) => {
            let existing = match found {
                Some(text) => text,
                None => seq![],
            };
            if listed(existing, s.job.package) {
                moved(s, StageView::Done)
            } else {
                moved(s, StageView::Record(appended(existing, s.job.package)))
            }
        },
        (StageView::Record(_), ReplyView::Changed(changed)) => recorded(
            s,
            change_step("record in requirements.txt"@, s.job.package, changed),
            StageView::Done,
        ),
        _ => s,
    }
}

// ---------------------------------------------------------------------------
// Laws
// ---------------------------------------------------------------------------

proof fn lemma_recorded(steps: Seq<StepView>, step: StepView)
    ensures
        (all_ok(steps) && step.ok) == all_ok(steps.push(step)),
{
    let more = steps.push(step);
    if all_ok(more) {
        assert(more[steps.len() as int].ok);
        assert forall|i: int| 0 <= i < steps.len() implies (#[trigger] steps[i]).ok by {
            assert(more[i].ok);
        }
    }
}

/// Every install begins sound.
pub proof fn installs_begin_sound(job: JobView)
    ensures
        sound(begun(job)),
{
    let none = Seq::<StepView>::empty();
    assert forall|step: StepView| (all_ok(none) && step.ok) == all_ok(#[trigger] none.push(step)) by {
        lemma_recorded(none, step);
    }
}

/// And stays sound, whatever it is told.
pub proof fn installs_stay_sound(s: InstallView, reply: ReplyView)
    requires
        sound(s),
    ensures
        sound(after(s, reply)),
{
    assert forall|steps: Seq<StepView>, step: StepView|
        (all_ok(steps) && step.ok) == all_ok(#[trigger] steps.push(step)) by {
        lemma_recorded(steps, step);
    }
}

/// An install succeeds exactly if every step of it went well, and the first step
/// that does not go well ends it: a package is never installed into an
/// environment whose rebuild failed.
pub proof fn failure_ends_an_install(s: InstallView, reply: ReplyView)
    requires
        sound(s),
    ensures
        after(s, reply).ok == all_ok(after(s, reply).steps),
        !after(s, reply).ok ==> action_of(after(s, reply)) == ActionView::Done,
        s.stage == StageView::Done ==> after(s, reply) == s,
{
    installs_stay_sound(s, reply);
}

/// pip mode never downloads or invokes uv.
pub proof fn pip_mode_never_touches_uv(s: InstallView)
    requires
        sound(s),
        is_pip(s.job),
    ensures
        action_of(s) != ActionView::EnsureUv,
        action_of(s) matches ActionView::Run(i) ==> i.program == venv_python_spec(
            s.job.venv,
            s.job.os,
        ) || (s.stage == StageView::CreateVenv && i.program == s.interpreter->0.command),
{
}

/// How much of an install is left.
pub open spec fn remaining(s: InstallView) -> nat {
    match s.stage {
        StageView::Done => 0,
        StageView::Record(_) => 1,
        StageView::ReadRequirements => 2,
        StageView::PipInstall => 3,
        StageView::Add => 3,
        StageView::LookForVenv => 4,
        StageView::LookForManifests => 4,
        StageView::EnsureUv => 5,
        StageView::Restore => 6,
        StageView::LookForDeclared => 7,
        StageView::CreateVenv => 8,
        StageView::InstallPython => 9,
        StageView::RemoveVenv => 9,
        StageView::LookForOldVenv => 10,
        StageView::FindInterpreters => 11,
        StageView::RebuildWithUv => 10,
    }
}

/// Every answered action brings an install closer to its end, so it has one.
pub proof fn every_answer_makes_progress(s: InstallView, reply: ReplyView)
    requires
        sound(s),
        answers(action_of(s), reply),
    ensures
        remaining(after(s, reply)) < remaining(s),
{
}

// ---------------------------------------------------------------------------
// Running it
// ---------------------------------------------------------------------------

/// The job an install is begun with: what the framework solver said of the
/// package is noted, and the index it matched is used.
pub open spec fn job_of(
    manager: PackageManager,
    package: Seq<char>,
    venv: Seq<char>,
    requirements: Seq<char>,
    os: Os,
    solved: Option<FrameworkSolveView>,
    rebuild: Option<PyVersion>,
) -> JobView {
    JobView {
        manager,
        package,
        venv,
        requirements,
        os,
        index_url: match solved {
            Some(s) => s.index_url,
            None => None,
        },
        check: match solved {
            Some(s) => match s.finding {
                Some(f) => Some(f.detail),
                None => None,
            },
            None => None,
        },
        rebuild,
    }
}

pub open spec fn opt_solved(o: Option<&FrameworkSolve>) -> Option<FrameworkSolveView> {
    match o {
        Some(s) => Some(s@),
        None => None,
    }
}

fn job(
    settings: &Settings,
    package: &str,
    venv: &str,
    requirements: &str,
    os: Os,
    hardware: Option<&FrameworkSolve>,
    rebuild: Option<PyVersion>,
) -> (r: Job)
    ensures
        r@ == job_of(
            settings.package_manager,
            package@,
            venv@,
            requirements@,
            os,
            opt_solved(hardware),
            rebuild,
        ),
{
    let (index_url, check) = match hardware {
        Some(solved) => (
            text::clone_opt(&solved.index_url),
            match &solved.finding {
                Some(f) => Some(f.detail.clone()),
                None => None,
            },
        ),
        None => (None, None),
    };
    Job {
        manager: settings.package_manager,
        package: package.to_string(),
        venv: venv.to_string(),
        requirements: requirements.to_string(),
        os,
        index_url,
        check,
        rebuild,
    }
}

/// Install `package` into the project's existing environment and record it.
///
/// `hardware` is the framework solver's answer for the package, unpinned: this
/// installs whatever the package resolves to right now.
pub fn install_package(
    settings: &Settings,
    package: &str,
    venv: &str,
    requirements: &str,
    os: Os,
    hardware: Option<&FrameworkSolve>,
) -> (r: Install)
    ensures
        r@ == begun(
            job_of(
                settings.package_manager,
                package@,
                venv@,
                requirements@,
                os,
                opt_solved(hardware),
                None,
            ),
        ),
{
    Install::start(job(settings, package, venv, requirements, os, hardware, None))
}

/// Rebuild the environment on `version`, then install `package` into it.
///
/// The caller has already told the user how many packages this reinstalls, so
/// this does the work without asking again.
pub fn recreate_with_python(
    settings: &Settings,
    version: PyVersion,
    package: &str,
    venv: &str,
    requirements: &str,
    os: Os,
    hardware: Option<&FrameworkSolve>,
) -> (r: Install)
    ensures
        r@ == begun(
            job_of(
                settings.package_manager,
                package@,
                venv@,
                requirements@,
                os,
                opt_solved(hardware),
                Some(version),
            ),
        ),
{
    Install::start(job(settings, package, venv, requirements, os, hardware, Some(version)))
}

impl Install {
    #[verifier::type_invariant]
    spec fn is_sound(self) -> bool {
        sound(self@)
    }

    /// Begin to install a package into the project's environment, after
    /// rebuilding it if the job says so.
    pub fn start(job: Job) -> (r: Install)
        ensures
            r@ == begun(job@),
    {
        proof {
            installs_begin_sound(job@);
        }
        let steps: Vec<Step> = Vec::new();
        proof {
            assert(step_views(steps@) =~= seq![]);
        }
        let pip = job.manager == PackageManager::Pip;
        let rebuild = job.rebuild.is_some();
        let s = Install {
            job,
            uv: None,
            interpreter: None,
            pyproject: false,
            stage: Stage::Done,
            steps,
            ok: true,
        };
        if !rebuild {
            s.begin_install()
        } else if pip {
            s.go(Stage::FindInterpreters)
        } else {
            s.go(Stage::RebuildWithUv)
        }
    }

    fn begin_install(self) -> (r: Install)
        requires
            sound(installing(self@)),
        ensures
            r@ == installing(self@),
    {
        let next = if self.job.manager == PackageManager::Pip {
            Stage::LookForVenv
        } else {
            Stage::EnsureUv
        };
        let s = match &self.job.check {
            Some(detail) => step("GPU/CUDA check", true, detail.as_str()),
            None => return self.go(next),
        };
        self.record(s, next)
    }

    fn record(self, s: Step, next: Stage) -> (r: Install)
        requires
            sound(recorded(self@, s@, next@)),
        ensures
            r@ == recorded(self@, s@, next@),
    {
        let Install { job, uv, interpreter, pyproject, stage: _, mut steps, ok } = self;
        let ok = ok && s.ok;
        let stage = if s.ok {
            next
        } else {
            Stage::Done
        };
        proof {
            lemma_steps_push(steps@, s);
        }
        steps.push(s);
        Install { job, uv, interpreter, pyproject, stage, steps, ok }
    }

    fn go(self, next: Stage) -> (r: Install)
        requires
            sound(moved(self@, next@)),
        ensures
            r@ == moved(self@, next@),
    {
        let Install { job, uv, interpreter, pyproject, stage: _, steps, ok } = self;
        Install { job, uv, interpreter, pyproject, stage: next, steps, ok }
    }

    /// The action to perform next.
    pub fn next_action(&self) -> (r: Action)
        ensures
            r@ == action_of(self@),
    {
        proof {
            use_type_invariant(self);
        }
        match &self.stage {
            Stage::RebuildWithUv | Stage::EnsureUv => Action::EnsureUv,
            Stage::FindInterpreters => Action::FindInterpreters,
            Stage::LookForOldVenv | Stage::LookForVenv => Action::LookForVenv,
            Stage::RemoveVenv => Action::RemoveVenv,
            Stage::LookForDeclared | Stage::LookForManifests => Action::LookForManifests,
            Stage::ReadRequirements => Action::ReadRequirements,
            Stage::Record(text) => Action::WriteRequirements(text.clone()),
            Stage::Done => Action::Done,
            _ => if self.job.manager == PackageManager::Pip {
                self.pip_action()
            } else {
                match &self.uv {
                    Some(uv) => self.uv_action(uv),
                    None => Action::Done,
                }
            },
        }
    }

    fn package_list(&self) -> (r: Vec<String>)
        ensures
            text::texts(r@) == seq![self@.job.package],
    {
        let r = vec![self.job.package.clone()];
        proof {
            assert(text::texts(r@) =~= seq![self.job.package@]);
        }
        r
    }

    fn pip_action(&self) -> (r: Action)
        requires
            sound(self@),
            is_pip(self@.job),
            self@.stage == StageView::CreateVenv || self@.stage == StageView::Restore
                || self@.stage == StageView::PipInstall,
        ensures
            r@ == action_of(self@),
    {
        let venv = self.job.venv.as_str();
        match &self.stage {
            Stage::CreateVenv => match &self.interpreter {
                Some(i) => Action::Run(pip::create_venv(i, venv)),
                None => Action::Done,
            },
            Stage::Restore => Action::Run(
                pip::install_requirements(venv, self.job.os, self.job.requirements.as_str()),
            ),
            _ => {
                let packages = self.package_list();
                Action::Run(
                    pip::install_packages(
                        venv,
                        self.job.os,
                        &packages,
                        as_str(&self.job.index_url),
                    ),
                )
            },
        }
    }

    fn uv_action(&self, uv: &UvInfo) -> (r: Action)
        requires
            sound(self@),
            !is_pip(self@.job),
            self@.uv == Some(uv@),
            self@.stage == StageView::InstallPython || self@.stage == StageView::CreateVenv
                || self@.stage == StageView::Restore || self@.stage == StageView::Add
                || self@.stage == StageView::PipInstall,
        ensures
            r@ == action_of(self@),
    {
        let index_url = as_str(&self.job.index_url);
        match &self.stage {
            Stage::InstallPython => match self.job.rebuild {
                Some(py) => Action::Run(uv::python_install(uv, py)),
                None => Action::Done,
            },
            Stage::CreateVenv => match self.job.rebuild {
                Some(py) => Action::Run(uv::create_venv(uv, py, self.job.venv.as_str())),
                None => Action::Done,
            },
            Stage::Restore => if self.pyproject {
                Action::Run(uv::sync(uv))
            } else {
                Action::Run(uv::pip_install_requirements(uv, self.job.requirements.as_str()))
            },
            Stage::Add => {
                let packages = self.package_list();
                Action::Run(uv::add(uv, &packages, index_url))
            },
            _ => {
                let packages = self.package_list();
                Action::Run(uv::pip_install(uv, &packages, index_url))
            },
        }
    }

    /// Take in what came of the action.
    pub fn advance(self, reply: Reply) -> (r: Install)
        ensures
            r@ == after(self@, reply@),
    {
        proof {
            use_type_invariant(&self);
            installs_stay_sound(self@, reply@);
        }
        match reply {
            Reply::Uv(result) => self.uv_ensured(result),
            Reply::Interpreters(found) => self.interpreters_found(found),
            Reply::Venv(there) => self.venv_looked_for(there),
            Reply::Manifests { pyproject, requirements } => self.looked(pyproject, requirements),
            Reply::Ran(ran) => self.ran(ran),
            Reply::Changed(changed) => self.changed(changed),
            Reply::Requirements(found) => match &self.stage {
                Stage::ReadRequirements => {
                    let existing = match found {
                        Some(text) => text,
                        None => {
                            let none = String::new();
                            proof {
                                assert(none@ =~= seq![]);
                            }
                            none
                        },
                    };
                    match record_in_requirements(existing.as_str(), self.job.package.as_str()) {
                        Some(text) => self.go(Stage::Record(text)),
                        None => self.go(Stage::Done),
                    }
                },
                _ => self,
            },
        }
    }

    fn uv_ensured(self, result: Result<UvInfo, String>) -> (r: Install)
        requires
            sound(after(self@, Reply::Uv(result)@)),
        ensures
            r@ == after(self@, Reply::Uv(result)@),
    {
        let next = match &self.stage {
            Stage::RebuildWithUv => Stage::InstallPython,
            Stage::EnsureUv => Stage::LookForManifests,
            _ => return self,
        };
        match result {
            Ok(info) => {
                let Install { job, uv: _, interpreter, pyproject, stage: _, steps, ok } = self;
                Install { job, uv: Some(info), interpreter, pyproject, stage: next, steps, ok }
            },
            Err(e) => {
                let s = step("ensure uv", false, e.as_str());
                self.record(s, Stage::Done)
            },
        }
    }

    fn interpreters_found(self, found: Vec<Interpreter>) -> (r: Install)
        requires
            sound(self@),
            sound(after(self@, Reply::Interpreters(found)@)),
        ensures
            r@ == after(self@, Reply::Interpreters(found)@),
    {
        match &self.stage {
            Stage::FindInterpreters => {},
            _ => return self,
        }
        let version = match self.job.rebuild {
            Some(version) => version,
            None => return self,
        };
        match select(&found, version) {
            Some(i) => {
                let Install { job, uv, interpreter: _, pyproject, stage: _, steps, ok } = self;
                Install {
                    job,
                    uv,
                    interpreter: Some(i),
                    pyproject,
                    stage: Stage::LookForOldVenv,
                    steps,
                    ok,
                }
            },
            None => {
                let mut detail = "Python ".to_string();
                detail.append(version.to_text().as_str());
                detail.append(
                    " is not installed. Install it, then run this again. pip mode cannot fetch interpreters.",
                );
                let s = step("select interpreter", false, detail.as_str());
                self.record(s, Stage::Done)
            },
        }
    }

    fn venv_looked_for(self, there: bool) -> (r: Install)
        requires
            sound(after(self@, ReplyView::Venv(there))),
        ensures
            r@ == after(self@, ReplyView::Venv(there)),
    {
        match &self.stage {
            Stage::LookForOldVenv => if there {
                self.go(Stage::RemoveVenv)
            } else {
                self.go(Stage::CreateVenv)
            },
            Stage::LookForVenv => if there {
                self.go(Stage::PipInstall)
            } else {
                let s = step("locate venv", false, "no .venv in this project; run setup first");
                self.record(s, Stage::Done)
            },
            _ => self,
        }
    }

    fn looked(self, pyproject: bool, requirements: bool) -> (r: Install)
        requires
            sound(self@),
            sound(after(self@, (ReplyView::Manifests { pyproject, requirements }))),
        ensures
            r@ == after(self@, (ReplyView::Manifests { pyproject, requirements })),
    {
        let declared = match &self.stage {
            Stage::LookForDeclared => true,
            Stage::LookForManifests => false,
            _ => return self,
        };
        let Install { job, uv, interpreter, pyproject: _, stage, steps, ok } = self;
        let s = Install { job, uv, interpreter, pyproject, stage, steps, ok };
        if !declared {
            if pyproject {
                s.go(Stage::Add)
            } else {
                s.go(Stage::PipInstall)
            }
        } else if (s.job.manager == PackageManager::Uv && pyproject) || requirements {
            s.go(Stage::Restore)
        } else {
            s.begin_install()
        }
    }

    fn ran(self, ran: Result<Output, String>) -> (r: Install)
        requires
            sound(self@),
            sound(after(self@, Reply::Ran(ran)@)),
        ensures
            r@ == after(self@, Reply::Ran(ran)@),
    {
        match &self.stage {
            Stage::InstallPython => match self.job.rebuild {
                Some(py) => {
                    let mut name = "uv python install ".to_string();
                    name.append(py.to_text().as_str());
                    let s = outcome(name.as_str(), "ready", &ran);
                    self.record(s, Stage::CreateVenv)
                },
                None => self,
            },
            Stage::CreateVenv => {
                let name = if self.job.manager == PackageManager::Pip {
                    "python -m venv"
                } else {
                    "uv venv"
                };
                let s = outcome(name, self.job.venv.as_str(), &ran);
                self.record(s, Stage::LookForDeclared)
            },
            Stage::Restore => {
                let name = if self.job.manager == PackageManager::Uv && self.pyproject {
                    "uv sync"
                } else {
                    "reinstall requirements.txt"
                };
                let s = outcome(name, "existing dependencies restored", &ran);
                let went_well = s.ok;
                proof {
                    lemma_recorded(self@.steps, s@);
                }
                let more = self.record(s, Stage::Done);
                if went_well {
                    more.begin_install()
                } else {
                    more
                }
            },
            Stage::Add => {
                let mut name = "uv add ".to_string();
                name.append(self.job.package.as_str());
                let s = outcome(name.as_str(), "installed and added to pyproject.toml", &ran);
                self.record(s, Stage::Done)
            },
            Stage::PipInstall => {
                let mut name = if self.job.manager == PackageManager::Pip {
                    "pip install ".to_string()
                } else {
                    "uv pip install ".to_string()
                };
                name.append(self.job.package.as_str());
                let s = outcome(name.as_str(), "installed", &ran);
                self.record(s, Stage::ReadRequirements)
            },
            _ => self,
        }
    }

    fn changed(self, changed: Result<(), String>) -> (r: Install)
        requires
            sound(after(self@, Reply::Changed(changed)@)),
        ensures
            r@ == after(self@, Reply::Changed(changed)@),
    {
        match &self.stage {
            Stage::RemoveVenv => match changed {
                Ok(_) => self.go(Stage::CreateVenv),
                Err(e) => {
                    let s = step("remove old venv", false, e.as_str());
                    self.record(s, Stage::Done)
                },
            },
            Stage::Record(_) => {
                let s = change_outcome(
                    "record in requirements.txt",
                    self.job.package.as_str(),
                    &changed,
                );
                self.record(s, Stage::Done)
            },
            _ => self,
        }
    }

    /// What was done, for people. Meant for when the flow is over.
    pub fn into_summary(self, mode: ResolvedMode) -> (r: SetupSummary)
        ensures
            r.package_manager == self@.job.manager,
            r.resolved_mode == mode,
            r.python == self@.job.rebuild,
            r.venv_path@ == self@.job.venv,
            r.why@ == why_text(self@.job),
            step_views(r.steps@) == self@.steps,
            r.ok == self@.ok,
            r.ok == all_ok(step_views(r.steps@)),
    {
        proof {
            use_type_invariant(&self);
        }
        let why = match self.job.rebuild {
            Some(version) => {
                let mut why = "Rebuilding the environment on Python ".to_string();
                why.append(version.to_text().as_str());
                why.append(" so ");
                why.append(self.job.package.as_str());
                why.append(" can install.");
                why
            },
            None => {
                let mut why = "Installing ".to_string();
                why.append(self.job.package.as_str());
                why.append(".");
                why
            },
        };
        SetupSummary {
            package_manager: self.job.manager,
            resolved_mode: mode,
            python: self.job.rebuild,
            venv_path: self.job.venv,
            why,
            steps: self.steps,
            ok: self.ok,
        }
    }
}

/// Why an install was run.
pub open spec fn why_text(job: JobView) -> Seq<char> {
    match job.rebuild {
        Some(v) => "Rebuilding the environment on Python "@ + version_text(v) + " so "@
            + job.package + " can install."@,
        None => "Installing "@ + job.package + "."@,
    }
}

/// An install in pip mode: the venv has to be there; its own Python installs the package,
/// from the index the hardware asks for; and the package is then recorded, unless it is
/// listed already.
pub proof fn pip_installs_into_the_venv_and_records(
    job: JobView,
    out: OutputView,
    existing: Option<Seq<char>>,
)
    requires
        job.manager == PackageManager::Pip,
        job.rebuild is None,
        out.success,
    ensures
        ({
            let s0 = begun(job);
            let lost = after(s0, ReplyView::Venv(false));
            let s1 = after(s0, ReplyView::Venv(true));
            let s2 = after(s1, ReplyView::Ran(Ok(out)));
            let s3 = after(s2, ReplyView::Requirements(existing));
            let s4 = after(s3, ReplyView::Changed(Ok(())));
            let text = match existing {
                Some(t) => t,
                None => seq![],
            };
            &&& action_of(s0) == ActionView::LookForVenv
            &&& action_of(lost) == ActionView::Done && !lost.ok
            &&& action_of(s1) == ActionView::Run(
                InvocationView {
                    program: if job.os == Os::Windows {
                        job.venv + "\\Scripts\\python.exe"@
                    } else {
                        job.venv + "/bin/python"@
                    },
                    args: match job.index_url {
                        Some(url) => seq![
                            "-m"@,
                            "pip"@,
                            "install"@,
                            "--index-url"@,
                            url,
                            job.package,
                        ],
                        None => seq!["-m"@, "pip"@, "install"@, job.package],
                    },
                },
            )
            &&& action_of(s2) == ActionView::ReadRequirements
            &&& listed(text, job.package) ==> action_of(s3) == ActionView::Done && s3.ok
            &&& !listed(text, job.package) ==> action_of(s3) == ActionView::WriteRequirements(
                appended(text, job.package),
            ) && action_of(s4) == ActionView::Done && s4.ok
        }),
{
    let s1 = after(begun(job), ReplyView::Venv(true));
    if let ActionView::Run(run) = action_of(s1) {
        match job.index_url {
            Some(url) => {
                assert(run.args =~= seq![
                    "-m"@,
                    "pip"@,
                    "install"@,
                    "--index-url"@,
                    url,
                    job.package,
                ]);
            },
            None => {
                assert(run.args =~= seq!["-m"@, "pip"@, "install"@, job.package]);
            },
        }
    }
}

/// An install with uv: a project with a manifest of its own gets the package added to it;
/// one without gets it installed and recorded.
pub proof fn uv_installs_add_to_the_manifest(job: JobView, uv: UvInfoView, out: OutputView, r: bool)
    requires
        job.manager != PackageManager::Pip,
        job.rebuild is None,
        out.success,
    ensures
        ({
            let s0 = begun(job);
            let s1 = after(s0, ReplyView::Uv(Ok(uv)));
            let with = after(s1, ReplyView::Manifests { pyproject: true, requirements: r });
            let without = after(s1, ReplyView::Manifests { pyproject: false, requirements: r });
            let added = after(with, ReplyView::Ran(Ok(out)));
            let installed = after(without, ReplyView::Ran(Ok(out)));
            &&& action_of(s0) == ActionView::EnsureUv
            &&& action_of(s1) == ActionView::LookForManifests
            &&& action_of(with) == ActionView::Run(
                InvocationView {
                    program: uv.path,
                    args: match job.index_url {
                        Some(url) => seq!["add"@, "--index"@, url, job.package],
                        None => seq!["add"@, job.package],
                    },
                },
            )
            &&& action_of(without) == ActionView::Run(
                InvocationView {
                    program: uv.path,
                    args: match job.index_url {
                        Some(url) => seq!["pip"@, "install"@, "--index-url"@, url, job.package],
                        None => seq!["pip"@, "install"@, job.package],
                    },
                },
            )
            &&& action_of(added) == ActionView::Done && added.ok
            &&& action_of(installed) == ActionView::ReadRequirements
        }),
{
    let s1 = after(begun(job), ReplyView::Uv(Ok(uv)));
    let with = after(s1, ReplyView::Manifests { pyproject: true, requirements: r });
    let without = after(s1, ReplyView::Manifests { pyproject: false, requirements: r });
    if let ActionView::Run(run) = action_of(with) {
        match job.index_url {
            Some(url) => {
                assert(run.args =~= seq!["add"@, "--index"@, url, job.package]);
            },
            None => {
                assert(run.args =~= seq!["add"@, job.package]);
            },
        }
    }
    if let ActionView::Run(run) = action_of(without) {
        match job.index_url {
            Some(url) => {
                assert(run.args =~= seq!["pip"@, "install"@, "--index-url"@, url, job.package]);
            },
            None => {
                assert(run.args =~= seq!["pip"@, "install"@, job.package]);
            },
        }
    }
}

/// A rebuild with uv: the wanted Python is installed, the venv is made anew on it, what
/// was declared is restored, and only then is the package installed.
pub proof fn uv_rebuilds_on_the_wanted_python(
    job: JobView,
    target: PyVersion,
    uv: UvInfoView,
    out: OutputView,
)
    requires
        job.manager != PackageManager::Pip,
        job.rebuild == Some(target),
        out.success,
    ensures
        ({
            let s0 = begun(job);
            let s1 = after(s0, ReplyView::Uv(Ok(uv)));
            let s2 = after(s1, ReplyView::Ran(Ok(out)));
            let s3 = after(s2, ReplyView::Ran(Ok(out)));
            let synced = after(
                s3,
                ReplyView::Manifests { pyproject: true, requirements: false },
            );
            let listed = after(s3, ReplyView::Manifests { pyproject: false, requirements: true });
            let bare = after(s3, ReplyView::Manifests { pyproject: false, requirements: false });
            &&& action_of(s0) == ActionView::EnsureUv
            &&& action_of(s1) == ActionView::Run(
                InvocationView {
                    program: uv.path,
                    args: seq!["python"@, "install"@, version_text(target)],
                },
            )
            &&& action_of(s2) == ActionView::Run(
                InvocationView {
                    program: uv.path,
                    args: seq!["venv"@, "--clear"@, "--python"@, version_text(target), job.venv],
                },
            )
            &&& action_of(s3) == ActionView::LookForManifests
            &&& action_of(synced) == ActionView::Run(
                InvocationView { program: uv.path, args: seq!["sync"@] },
            )
            &&& action_of(listed) == ActionView::Run(
                InvocationView {
                    program: uv.path,
                    args: seq!["pip"@, "install"@, "-r"@, job.requirements],
                },
            )
            &&& action_of(bare) == ActionView::EnsureUv
            &&& action_of(after(synced, ReplyView::Ran(Ok(out)))) == ActionView::EnsureUv
            &&& action_of(after(listed, ReplyView::Ran(Ok(out)))) == ActionView::EnsureUv
        }),
{
}

/// A rebuild in pip mode: an interpreter of the wanted version has to be on the machine;
/// the old venv is removed and one is made with that interpreter; what was declared is
/// restored, and only then is the package installed.
pub proof fn pip_rebuilds_on_an_interpreter_that_is_there(
    job: JobView,
    target: PyVersion,
    found: Seq<InterpreterView>,
    chosen: InterpreterView,
    out: OutputView,
)
    requires
        job.manager == PackageManager::Pip,
        job.rebuild == Some(target),
        selected(found, target) == Some(chosen),
        out.success,
    ensures
        ({
            let s0 = begun(job);
            let s1 = after(s0, ReplyView::Interpreters(found));
            let fresh = after(s1, ReplyView::Venv(false));
            let old = after(s1, ReplyView::Venv(true));
            let removed = after(old, ReplyView::Changed(Ok(())));
            let s3 = after(removed, ReplyView::Ran(Ok(out)));
            let listed = after(s3, ReplyView::Manifests { pyproject: true, requirements: true });
            let bare = after(s3, ReplyView::Manifests { pyproject: true, requirements: false });
            let create = ActionView::Run(
                InvocationView { program: chosen.command, args: seq!["-m"@, "venv"@, job.venv] },
            );
            &&& action_of(s0) == ActionView::FindInterpreters
            &&& action_of(s1) == ActionView::LookForVenv
            &&& action_of(fresh) == create
            &&& action_of(old) == ActionView::RemoveVenv
            &&& action_of(removed) == create
            &&& action_of(s3) == ActionView::LookForManifests
            &&& action_of(listed) == ActionView::Run(
                InvocationView {
                    program: if job.os == Os::Windows {
                        job.venv + "\\Scripts\\python.exe"@
                    } else {
                        job.venv + "/bin/python"@
                    },
                    args: seq!["-m"@, "pip"@, "install"@, "-r"@, job.requirements],
                },
            )
            &&& action_of(after(listed, ReplyView::Ran(Ok(out)))) == ActionView::LookForVenv
            &&& action_of(bare) == ActionView::LookForVenv
        }),
{
}

/// A rebuild in pip mode ends before anything is touched where no interpreter of the
/// wanted version is on the machine.
pub proof fn pip_rebuilds_fetch_no_interpreter(
    job: JobView,
    target: PyVersion,
    found: Seq<InterpreterView>,
)
    requires
        job.manager == PackageManager::Pip,
        job.rebuild == Some(target),
        selected(found, target) is None,
    ensures
        ({
            let s = after(begun(job), ReplyView::Interpreters(found));
            action_of(s) == ActionView::Done && !s.ok && s.steps.len() == 1
        }),
{
}

/// What the hardware check found is told, and does not stop an install; its index is where
/// the package comes from.
pub proof fn hardware_checks_are_told(
    manager: PackageManager,
    package: Seq<char>,
    venv: Seq<char>,
    requirements: Seq<char>,
    os: Os,
    solved: FrameworkSolveView,
)
    requires
        solved.finding is Some,
    ensures
        ({
            let job = job_of(manager, package, venv, requirements, os, Some(solved), None);
            &&& job.index_url == solved.index_url
            &&& job.package == package
            &&& begun(job).ok
            &&& begun(job).steps.len() == 1
            &&& begun(job).steps[0].detail == solved.finding->0.detail
            &&& action_of(begun(job)) != ActionView::Done
        }),
{
}

/// A recorded package stands on a line of its own at the end, behind all that was there.
pub proof fn recording_adds_one_line(existing: Seq<char>, package: Seq<char>)
    ensures
        existing.is_prefix_of(appended(existing, package)),
        (package + "\n"@).is_suffix_of(appended(existing, package)),
        existing.len() > 0 ==> appended(existing, package)[appended(existing, package).len()
            - package.len() - 2] == '\n',
{
    reveal_strlit("\n");
    let all = appended(existing, package);
    let n = all.len() as int;
    assert(all.subrange(0, existing.len() as int) =~= existing);
    assert(all.subrange(n - package.len() - 1, n) =~= package + "\n"@);
    if existing.len() > 0 && existing.last() == '\n' {
        assert(all[existing.len() - 1] == existing[existing.len() - 1]);
    }
}

/// A command that fails, or cannot be run, fails the install and ends it, and so does
/// a change that cannot be made.
pub proof fn failed_commands_fail_the_install(
    s: InstallView,
    i: InvocationView,
    out: OutputView,
    e: Seq<char>,
)
    requires
        !out.success,
    ensures
        action_of(s) == ActionView::Run(i) ==> {
            &&& !after(s, ReplyView::Ran(Err(e))).ok
            &&& action_of(after(s, ReplyView::Ran(Err(e)))) == ActionView::Done
            &&& !after(s, ReplyView::Ran(Ok(out))).ok
            &&& action_of(after(s, ReplyView::Ran(Ok(out)))) == ActionView::Done
        },
        action_of(s) is RemoveVenv || action_of(s) is WriteRequirements ==> {
            &&& !after(s, ReplyView::Changed(Err(e))).ok
            &&& action_of(after(s, ReplyView::Changed(Err(e)))) == ActionView::Done
        },
        action_of(s) is EnsureUv ==> {
            &&& !after(s, ReplyView::Uv(Err(e))).ok
            &&& action_of(after(s, ReplyView::Uv(Err(e)))) == ActionView::Done
        },
{
}

} // verus!
