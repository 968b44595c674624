//! What the flows that change an environment are made of.
//!
//! A flow decides and never acts: it names one action at a time and is handed
//! back what came of it. Whoever performs the actions needs to know nothing of
//! the order they come in, or of when to stop.

use vstd::prelude::*;

use crate::engine::command::{Invocation, InvocationView, Output};
use crate::engine::interpreter::{first_of, interpreter_views, Interpreter, InterpreterView};
use crate::engine::pip;
use crate::engine::uv::{UvInfo, UvInfoView};
use crate::pypi::pyversion::PyVersion;
use crate::text;

verus! {

/// One executed step, for a human-readable summary.
#[derive(Debug, PartialEq, Eq)]
pub struct Step {
    pub name: String,
    pub ok: bool,
    pub detail: String,
}

/// A step, mathematically.
#[verifier::ext_equal]
pub struct StepView {
    pub name: Seq<char>,
    pub ok: bool,
    pub detail: Seq<char>,
}

impl View for Step {
    type V = StepView;

    open spec fn view(&self) -> StepView {
        StepView { name: self.name@, ok: self.ok, detail: self.detail@ }
    }
}

impl Clone for Step {
    fn clone(&self) -> (r: Step)
        ensures
            r == *self,
    {
        Step { name: self.name.clone(), ok: self.ok, detail: self.detail.clone() }
    }
}

pub open spec fn step_views(v: Seq<Step>) -> Seq<StepView> {
    Seq::new(v.len(), |i: int| v[i]@)
}

pub proof fn lemma_steps_push(v: Seq<Step>, s: Step)
    ensures
        step_views(v.push(s)) == step_views(v).push(s@),
{
    assert(step_views(v.push(s)) =~= step_views(v).push(s@));
}

/// Whether every step went well.
pub open spec fn all_ok(steps: Seq<StepView>) -> bool {
    forall|i: int| 0 <= i < steps.len() ==> (#[trigger] steps[i]).ok
}

pub open spec fn ok_step(name: Seq<char>, detail: Seq<char>) -> StepView {
    StepView { name, ok: true, detail }
}

pub open spec fn failed_step(name: Seq<char>, detail: Seq<char>) -> StepView {
    StepView { name, ok: false, detail }
}

pub fn step(name: &str, ok: bool, detail: &str) -> (r: Step)
    ensures
        r@ == (StepView { name: name@, ok, detail: detail@ }),
{
    Step { name: name.to_string(), ok, detail: detail.to_string() }
}

/// What is to be done next.
#[derive(Debug, PartialEq, Eq)]
pub enum Action {
    /// Have a usable uv, downloading it if need be.
    EnsureUv,
    /// See which of `pyproject.toml` and `requirements.txt` are there.
    LookForManifests,
    /// See whether the venv directory is there.
    LookForVenv,
    /// Probe the machine for interpreters.
    FindInterpreters,
    Run(Invocation),
    /// Remove the venv directory.
    RemoveVenv,
    /// Read `requirements.txt`.
    ReadRequirements,
    /// Replace `requirements.txt`.
    WriteRequirements(String),
    /// Nothing: the flow is over.
    Done,
}

/// An action, mathematically.
#[verifier::ext_equal]
pub enum ActionView {
    EnsureUv,
    LookForManifests,
    LookForVenv,
    FindInterpreters,
    Run(InvocationView),
    RemoveVenv,
    ReadRequirements,
    WriteRequirements(Seq<char>),
    Done,
}

impl View for Action {
    type V = ActionView;

    open spec fn view(&self) -> ActionView {
        match *self {
            Action::EnsureUv => ActionView::EnsureUv,
            Action::LookForManifests => ActionView::LookForManifests,
            Action::LookForVenv => ActionView::LookForVenv,
            Action::FindInterpreters => ActionView::FindInterpreters,
            Action::Run(i) => ActionView::Run(i@),
            Action::RemoveVenv => ActionView::RemoveVenv,
            Action::ReadRequirements => ActionView::ReadRequirements,
            Action::WriteRequirements(s) => ActionView::WriteRequirements(s@),
            Action::Done => ActionView::Done,
        }
    }
}

/// What came of an action.
#[derive(Debug)]
pub enum Reply {
    Uv(Result<UvInfo, String>),
    Manifests { pyproject: bool, requirements: bool },
    Venv(bool),
    Interpreters(Vec<Interpreter>),
    /// The process ran, or could not be started.
    Ran(Result<Output, String>),
    /// A file or directory was changed, or could not be.
    Changed(Result<(), String>),
    /// The text of `requirements.txt`, if it could be read.
    Requirements(Option<String>),
}

/// What a process gave back, mathematically.
#[verifier::ext_equal]
pub struct OutputView {
    pub success: bool,
    pub stdout: Seq<char>,
    pub stderr: Seq<char>,
}

/// A reply, mathematically.
pub enum ReplyView {
    Uv(Result<UvInfoView, Seq<char>>),
    Manifests { pyproject: bool, requirements: bool },
    Venv(bool),
    Interpreters(Seq<InterpreterView>),
    Ran(Result<OutputView, Seq<char>>),
    Changed(Result<(), Seq<char>>),
    Requirements(Option<Seq<char>>),
}

impl View for Output {
    type V = OutputView;

    open spec fn view(&self) -> OutputView {
        OutputView {
            success: self.succeeded(),
            stdout: self.stdout@,
            stderr: self.stderr@,
        }
    }
}

pub open spec fn ran_view(r: Result<Output, String>) -> Result<OutputView, Seq<char>> {
    match r {
        Ok(out) => Ok(out@),
        Err(e) => Err(e@),
    }
}

pub open spec fn changed_view(r: Result<(), String>) -> Result<(), Seq<char>> {
    match r {
        Ok(_) => Ok(()),
        Err(e) => Err(e@),
    }
}

impl View for Reply {
    type V = ReplyView;

    open spec fn view(&self) -> ReplyView {
        match *self {
            Reply::Uv(r) => ReplyView::Uv(
                match r {
                    Ok(info) => Ok(info@),
                    Err(e) => Err(e@),
                },
            ),
            Reply::Manifests { pyproject, requirements } => ReplyView::Manifests {
                pyproject,
                requirements,
            },
            Reply::Venv(there) => ReplyView::Venv(there),
            Reply::Interpreters(v) => ReplyView::Interpreters(interpreter_views(v@)),
            Reply::Ran(r) => ReplyView::Ran(ran_view(r)),
            Reply::Changed(r) => ReplyView::Changed(changed_view(r)),
            Reply::Requirements(t) => ReplyView::Requirements(text::opt_text(t)),
        }
    }
}

/// The step a run makes: `detail` where it went well, what the process wrote to
/// stderr where it did not, the error where it could not be started.
pub open spec fn run_step(
    name: Seq<char>,
    detail: Seq<char>,
    ran: Result<OutputView, Seq<char>>,
) -> StepView {
    match ran {
        Ok(out) => if out.success {
            ok_step(name, detail)
        } else {
            failed_step(name, text::trim_spec(out.stderr))
        },
        Err(e) => failed_step(name, e),
    }
}

pub fn outcome(name: &str, detail: &str, ran: &Result<Output, String>) -> (r: Step)
    ensures
        r@ == run_step(name@, detail@, ran_view(*ran)),
{
    match ran {
        Ok(out) => if out.success() {
            step(name, true, detail)
        } else {
            step(name, false, text::trim(out.stderr.as_str()))
        },
        Err(e) => step(name, false, e.as_str()),
    }
}

/// The step a change makes.
pub open spec fn change_step(
    name: Seq<char>,
    detail: Seq<char>,
    changed: Result<(), Seq<char>>,
) -> StepView {
    match changed {
        Ok(_) => ok_step(name, detail),
        Err(e) => failed_step(name, e),
    }
}

pub fn change_outcome(name: &str, detail: &str, changed: &Result<(), String>) -> (r: Step)
    ensures
        r@ == change_step(name@, detail@, changed_view(*changed)),
{
    match changed {
        Ok(_) => step(name, true, detail),
        Err(e) => step(name, false, e.as_str()),
    }
}

/// One release to install, and the index to install it from if not the default.
#[derive(Debug, PartialEq, Eq)]
pub struct Pin {
    /// `name==version`.
    pub spec: String,
    pub index_url: Option<String>,
}

/// A pin, mathematically.
#[verifier::ext_equal]
pub struct PinView {
    pub spec: Seq<char>,
    pub index_url: Option<Seq<char>>,
}

impl View for Pin {
    type V = PinView;

    open spec fn view(&self) -> PinView {
        PinView { spec: self.spec@, index_url: text::opt_text(self.index_url) }
    }
}

pub open spec fn pin_views(v: Seq<Pin>) -> Seq<PinView> {
    Seq::new(v.len(), |i: int| v[i]@)
}

pub open spec fn of_version(version: PyVersion) -> spec_fn(InterpreterView) -> Option<
    InterpreterView,
> {
    |i: InterpreterView|
        if i.version == version {
            Some(i)
        } else {
            None
        }
}

/// The first interpreter of a version.
pub open spec fn selected(v: Seq<InterpreterView>, version: PyVersion) -> Option<InterpreterView> {
    text::first_some(v, of_version(version))
}

pub open spec fn opt_interpreter(o: Option<Interpreter>) -> Option<InterpreterView> {
    match o {
        Some(i) => Some(i@),
        None => None,
    }
}

pub fn select(interpreters: &Vec<Interpreter>, version: PyVersion) -> (r: Option<Interpreter>)
    ensures
        opt_interpreter(r) == selected(interpreter_views(interpreters@), version),
{
    let ghost views = interpreter_views(interpreters@);
    match pip::select_interpreter(interpreters.as_slice(), version) {
        Some(found) => {
            proof {
                let i = choose|i: int|
                    first_of(views, version, i) && *found == #[trigger] interpreters@[i];
                assert(views[i] == found@);
                text::lemma_first_some_at(views, of_version(version), i);
            }
            Some(found.clone())
        },
        None => {
            proof {
                assert forall|j: int| 0 <= j < views.len() implies of_version(version)(
                    #[trigger] views[j],
                ) is None by {
                    assert(interpreters@[j].version != version);
                }
                text::lemma_first_some_at(views, of_version(version), views.len() as int);
            }
            None
        },
    }
}

/// An interpreter is selected exactly where one of the version is there, and it is the
/// first of them.
pub proof fn the_first_of_a_version_is_selected(v: Seq<InterpreterView>, version: PyVersion, i: int)
    requires
        0 <= i <= v.len(),
        forall|j: int|
            0 <= j < i ==> !((#[trigger] v[j]).version.major == version.major
                && v[j].version.minor == version.minor),
        i < v.len() ==> v[i].version.major == version.major && v[i].version.minor == version.minor,
    ensures
        selected(v, version) == if i < v.len() {
            Some(v[i])
        } else {
            None
        },
{
    assert forall|j: int| 0 <= j < i implies of_version(version)(#[trigger] v[j]) is None by {}
    text::lemma_first_some_at(v, of_version(version), i);
}

/// A step goes well exactly where its command could be run and succeeded; what went wrong
/// is told by the command's own words.
pub proof fn steps_go_well_where_commands_succeed(
    name: Seq<char>,
    detail: Seq<char>,
    out: OutputView,
    e: Seq<char>,
)
    ensures
        run_step(name, detail, Ok(out)).ok <==> out.success,
        out.success ==> run_step(name, detail, Ok(out)).detail == detail,
        !out.success ==> run_step(name, detail, Ok(out)).detail == text::trim_spec(out.stderr),
        !run_step(name, detail, Err(e)).ok,
        run_step(name, detail, Err(e)).detail == e,
        change_step(name, detail, Ok(())).ok,
        !change_step(name, detail, Err(e)).ok,
        run_step(name, detail, Ok(out)).name == name,
{
}

/// Everything went well exactly where no step failed: one failed step, wherever it
/// stands, is enough.
pub proof fn one_failed_step_is_enough(steps: Seq<StepView>, i: int)
    requires
        0 <= i < steps.len(),
    ensures
        !steps[i].ok ==> !all_ok(steps),
        all_ok(steps) ==> steps[i].ok,
        all_ok(steps.take(i)) && steps[i].ok ==> all_ok(steps.take(i + 1)),
        all_ok(seq![]),
{
    if all_ok(steps.take(i)) && steps[i].ok {
        assert forall|j: int| 0 <= j < i + 1 implies (#[trigger] steps.take(i + 1)[j]).ok by {
            if j < i {
                assert(steps.take(i)[j].ok);
            }
        }
    }
}

} // verus!
