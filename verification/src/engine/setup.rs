//! Environment bootstrap: the one flow behind both `pypilot setup` and the
//! editor's "Fix everything", so the two can never drift.
//!
//! uv mode: ensure uv, `uv python install X.Y`, `uv venv --python X.Y`, then
//! `uv sync` (pyproject) or `uv pip install -r requirements.txt`.
//!
//! pip mode: pick an already-installed interpreter for X.Y, `python -m venv`,
//! `pip install`. If the required Python isn't installed, the flow stops with a
//! clear "install Python X.Y" message: pip mode can't fetch interpreters.
//!
//! In every mode torch and tensorflow are then pinned to the build that suits
//! the GPU driver, where there is one.

use vstd::prelude::*;

use crate::engine::command::InvocationView;
use crate::engine::flow::{
    all_ok, change_outcome, change_step, failed_step, lemma_steps_push, ok_step, opt_interpreter,
    outcome, pin_views, run_step, select, selected, step, step_views, Action, ActionView,
    OutputView, Pin, PinView, Reply, ReplyView, Step, StepView,
};
use crate::engine::interpreter::{interpreter_views, Interpreter, InterpreterView};
use crate::engine::pins::{pins_of, target_views, Target, TargetView};
use crate::engine::pip::{self, venv_python_spec};
use crate::engine::platform::Os;
use crate::engine::solver::{find_limiter, limiter};
use crate::engine::uv::{self, index_args, opt_uv, venv_args_spec, UvInfo, UvInfoView};
use crate::engine::{Assessment, AssessmentView};
use crate::pypi::pyversion::{range_text, version_text, PyVersion};
use crate::pypi::{analysis_views, CompatReport, CompatReportView};
use crate::settings::{PackageManager, ResolvedMode, Settings};
use crate::text;

verus! {

/// Result of a bootstrap run.
#[derive(Debug)]
pub struct SetupSummary {
    pub package_manager: PackageManager,
    pub resolved_mode: ResolvedMode,
    pub python: Option<PyVersion>,
    pub venv_path: String,
    pub why: String,
    pub steps: Vec<Step>,
    /// Overall success (all critical steps ok).
    pub ok: bool,
}

// ---------------------------------------------------------------------------
// Why, and why not
// ---------------------------------------------------------------------------

pub open spec fn opt_compat(o: Option<&CompatReport>) -> Option<CompatReportView> {
    match o {
        Some(c) => Some(c@),
        None => None,
    }
}

/// Why a version was chosen.
pub open spec fn why_text(compat: Option<CompatReportView>, target: Option<PyVersion>) -> Seq<char> {
    match (compat, target) {
        (Some(c), Some(py)) => {
            let head = "Python "@ + version_text(py) + " chosen: dependencies support "@
                + range_text(c.intersection);
            match limiter(c.per_package, py, c.per_package.len() as int) {
                Some(i) => head + "; "@ + c.per_package[i].name
                    + " caps the upper bound (supports "@ + range_text(c.per_package[i].supported)
                    + ")."@,
                None => head + "."@,
            }
        },
        _ => "No dependency constraints; using an available interpreter."@,
    }
}

/// Say why the target version was chosen.
pub fn derive_why(compat: Option<&CompatReport>, target: Option<PyVersion>) -> (r: String)
    ensures
        r@ == why_text(opt_compat(compat), target),
{
    if let Some(c) = compat {
        if let Some(py) = target {
            let mut out = "Python ".to_string();
            out.append(py.to_text().as_str());
            out.append(" chosen: dependencies support ");
            out.append(c.intersection.to_range_string().as_str());
            match find_limiter(&c.per_package, py) {
                Some(i) => {
                    let p = &c.per_package[i];
                    proof {
                        assert(analysis_views(c.per_package@)[i as int] == p@);
                    }
                    out.append("; ");
                    out.append(p.name.as_str());
                    out.append(" caps the upper bound (supports ");
                    out.append(p.supported.to_range_string().as_str());
                    out.append(").");
                },
                None => {
                    out.append(".");
                },
            }
            return out;
        }
    }
    "No dependency constraints; using an available interpreter.".to_string()
}

/// Why nothing can be set up, when the dependencies fundamentally conflict.
pub open spec fn refusal_text(compat: Option<CompatReportView>) -> Option<Seq<char>> {
    match compat {
        Some(c) => if c.intersection == Set::<u8>::empty() && c.per_package.len() > 0 {
            Some(
                if c.conflicts.len() > 0 {
                    c.conflicts[0].explanation
                } else {
                    "dependencies have no common supported Python"@
                },
            )
        } else {
            None
        },
        None => None,
    }
}

/// Refuse when dependencies fundamentally conflict: there is no interpreter to
/// pick, so installing anything would just fail confusingly.
pub fn refusal(compat: Option<&CompatReport>) -> (r: Option<String>)
    ensures
        text::opt_text(r) == refusal_text(opt_compat(compat)),
{
    if let Some(c) = compat {
        if c.intersection.is_empty() && c.per_package.len() > 0 {
            if c.conflicts.len() > 0 {
                return Some(c.conflicts[0].explanation.clone());
            }
            return Some("dependencies have no common supported Python".to_string());
        }
    }
    None
}

// ---------------------------------------------------------------------------
// The plan and the state
// ---------------------------------------------------------------------------

/// What a bootstrap goes by.
#[derive(Debug, PartialEq, Eq)]
pub struct Plan {
    pub mode: ResolvedMode,
    /// The version the dependencies ask for, if they ask for one.
    pub python: Option<PyVersion>,
    /// The venv's path, and that of `requirements.txt`.
    pub venv: String,
    pub requirements: String,
    pub os: Os,
    /// The interpreters on the machine, newest first.
    pub interpreters: Vec<Interpreter>,
    /// The names of the declared dependencies.
    pub packages: Vec<String>,
    /// The framework builds that suit the GPU driver.
    pub pins: Vec<Pin>,
}

/// A plan, mathematically.
#[verifier::ext_equal]
pub struct PlanView {
    pub mode: ResolvedMode,
    pub python: Option<PyVersion>,
    pub venv: Seq<char>,
    pub requirements: Seq<char>,
    pub os: Os,
    pub interpreters: Seq<InterpreterView>,
    pub packages: Seq<Seq<char>>,
    pub pins: Seq<PinView>,
}

impl View for Plan {
    type V = PlanView;

    open spec fn view(&self) -> PlanView {
        PlanView {
            mode: self.mode,
            python: self.python,
            venv: self.venv@,
            requirements: self.requirements@,
            os: self.os,
            interpreters: interpreter_views(self.interpreters@),
            packages: text::texts(self.packages@),
            pins: pin_views(self.pins@),
        }
    }
}

/// Where a bootstrap stands.
#[derive(Debug, PartialEq, Eq)]
enum Stage {
    EnsureUv,
    LookForPyproject,
    Init,
    InstallPython,
    CreateVenv,
    LookForManifests,
    Install,
    Pin(usize),
    Freeze,
    WriteFrozen(String),
    Done,
}

/// A stage, mathematically.
#[verifier::ext_equal]
pub enum StageView {
    EnsureUv,
    LookForPyproject,
    Init,
    InstallPython,
    CreateVenv,
    LookForManifests,
    Install,
    Pin(nat),
    Freeze,
    WriteFrozen(Seq<char>),
    Done,
}

impl View for Stage {
    type V = StageView;

    closed spec fn view(&self) -> StageView {
        match *self {
            Stage::EnsureUv => StageView::EnsureUv,
            Stage::LookForPyproject => StageView::LookForPyproject,
            Stage::Init => StageView::Init,
            Stage::InstallPython => StageView::InstallPython,
            Stage::CreateVenv => StageView::CreateVenv,
            Stage::LookForManifests => StageView::LookForManifests,
            Stage::Install => StageView::Install,
            Stage::Pin(k) => StageView::Pin(k as nat),
            Stage::Freeze => StageView::Freeze,
            Stage::WriteFrozen(s) => StageView::WriteFrozen(s@),
            Stage::Done => StageView::Done,
        }
    }
}

/// A bootstrap under way.
#[derive(Debug)]
pub struct Setup {
    plan: Plan,
    uv: Option<UvInfo>,
    interpreter: Option<Interpreter>,
    pyproject: bool,
    requirements: bool,
    stage: Stage,
    steps: Vec<Step>,
    ok: bool,
}

/// A bootstrap under way, mathematically.
#[verifier::ext_equal]
pub struct SetupView {
    pub plan: PlanView,
    /// The uv that was ensured.
    pub uv: Option<UvInfoView>,
    /// The interpreter pip mode builds on.
    pub interpreter: Option<InterpreterView>,
    /// The manifests found when last looked for.
    pub pyproject: bool,
    pub requirements: bool,
    pub stage: StageView,
    pub steps: Seq<StepView>,
    pub ok: bool,
}

impl View for Setup {
    type V = SetupView;

    closed spec fn view(&self) -> SetupView {
        SetupView {
            plan: self.plan@,
            uv: opt_uv(self.uv),
            interpreter: opt_interpreter(self.interpreter),
            pyproject: self.pyproject,
            requirements: self.requirements,
            stage: self.stage@,
            steps: step_views(self.steps@),
            ok: self.ok,
        }
    }
}

/// The version uv installs: the one asked for; in pip-compatible mode else that
/// of the newest interpreter around.
pub open spec fn uv_python(p: PlanView) -> Option<PyVersion> {
    if p.mode == ResolvedMode::UvPipCompat && p.python is None && p.interpreters.len() > 0 {
        Some(p.interpreters[0].version)
    } else {
        p.python
    }
}

/// What the dependencies are installed from.
pub enum InstallFrom {
    /// `uv add -r requirements.txt`.
    Added,
    /// `uv sync`.
    Synced,
    Requirements,
    Packages,
    Nothing,
}

pub open spec fn install_from(s: SetupView) -> InstallFrom {
    if s.plan.mode == ResolvedMode::UvFull {
        if s.pyproject && s.requirements {
            InstallFrom::Added
        } else if s.pyproject {
            InstallFrom::Synced
        } else if s.requirements {
            InstallFrom::Requirements
        } else {
            InstallFrom::Nothing
        }
    } else if s.requirements {
        InstallFrom::Requirements
    } else if s.plan.packages.len() > 0 {
        InstallFrom::Packages
    } else {
        InstallFrom::Nothing
    }
}

/// What holds of every bootstrap: each stage has what it needs, pip mode has no
/// stage that uses uv, pip-compatible mode has none that writes a pyproject, and
/// the first step that fails is the last.
pub open spec fn sound(s: SetupView) -> bool {
    &&& s.plan.mode != ResolvedMode::PurePip && s.stage != StageView::EnsureUv && s.stage
        != StageView::Done ==> s.uv is Some
    &&& s.plan.mode == ResolvedMode::PurePip && s.stage != StageView::Done ==> s.interpreter is Some
    &&& s.plan.mode == ResolvedMode::PurePip ==> s.stage != StageView::EnsureUv && s.stage
        != StageView::InstallPython
    &&& s.plan.mode != ResolvedMode::UvFull ==> s.stage != StageView::LookForPyproject && s.stage
        != StageView::Init
    &&& s.plan.mode == ResolvedMode::UvFull ==> s.stage != StageView::Freeze && !(s.stage
        is WriteFrozen)
    &&& s.stage == StageView::InstallPython ==> uv_python(s.plan) is Some
    &&& s.stage == StageView::CreateVenv && s.plan.mode != ResolvedMode::PurePip ==> uv_python(
        s.plan,
    ) is Some
    &&& s.stage == StageView::Install ==> !(install_from(s) is Nothing)
    &&& s.stage matches StageView::Pin(k) ==> k < s.plan.pins.len()
    &&& s.ok == all_ok(s.steps)
    &&& !s.ok ==> s.stage == StageView::Done
}

// ---------------------------------------------------------------------------
// Actions
// ---------------------------------------------------------------------------

pub open spec fn is_pip(p: PlanView) -> bool {
    p.mode == ResolvedMode::PurePip
}

/// uv with these arguments.
pub open spec fn uv_run(s: SetupView, args: Seq<Seq<char>>) -> ActionView {
    ActionView::Run(InvocationView { program: s.uv->0.path, args })
}

/// The venv's own Python with these arguments.
pub open spec fn venv_run(s: SetupView, args: Seq<Seq<char>>) -> ActionView {
    ActionView::Run(
        InvocationView { program: venv_python_spec(s.plan.venv, s.plan.os), args },
    )
}

pub open spec fn install_action(s: SetupView) -> ActionView {
    match install_from(s) {
        InstallFrom::Added => uv_run(s, seq!["add"@, "-r"@, s.plan.requirements]),
        InstallFrom::Synced => uv_run(s, seq!["sync"@]),
        InstallFrom::Requirements => if is_pip(s.plan) {
            venv_run(s, seq!["-m"@, "pip"@, "install"@, "-r"@, s.plan.requirements])
        } else {
            uv_run(s, seq!["pip"@, "install"@, "-r"@, s.plan.requirements])
        },
        InstallFrom::Packages => if is_pip(s.plan) {
            venv_run(
                s,
                seq!["-m"@, "pip"@, "install"@] + index_args("--index-url"@, None)
                    + s.plan.packages,
            )
        } else {
            uv_run(
                s,
                seq!["pip"@, "install"@] + index_args("--index-url"@, None) + s.plan.packages,
            )
        },
        InstallFrom::Nothing => ActionView::Done,
    }
}

pub open spec fn pin_action(s: SetupView, pin: PinView) -> ActionView {
    if is_pip(s.plan) {
        venv_run(
            s,
            seq!["-m"@, "pip"@, "install"@] + index_args("--index-url"@, pin.index_url)
                + seq![pin.spec],
        )
    } else {
        uv_run(
            s,
            seq!["pip"@, "install"@] + index_args("--index-url"@, pin.index_url) + seq![pin.spec],
        )
    }
}

/// The action a bootstrap waits on.
pub open spec fn action_of(s: SetupView) -> ActionView {
    match s.stage {
        StageView::EnsureUv => ActionView::EnsureUv,
        StageView::LookForPyproject => ActionView::LookForManifests,
        StageView::Init => uv_run(s, seq!["init"@]),
        StageView::InstallPython => uv_run(
            s,
            seq!["python"@, "install"@, version_text(uv_python(s.plan)->0)],
        ),
        StageView::CreateVenv => if is_pip(s.plan) {
            ActionView::Run(
                InvocationView {
                    program: s.interpreter->0.command,
                    args: seq!["-m"@, "venv"@, s.plan.venv],
                },
            )
        } else {
            uv_run(s, venv_args_spec(uv_python(s.plan)->0, s.plan.venv))
        },
        StageView::LookForManifests => ActionView::LookForManifests,
        StageView::Install => install_action(s),
        StageView::Pin(k) => pin_action(s, s.plan.pins[k as int]),
        StageView::Freeze => if is_pip(s.plan) {
            venv_run(s, seq!["-m"@, "pip"@, "freeze"@])
        } else {
            uv_run(s, seq!["pip"@, "freeze"@])
        },
        StageView::WriteFrozen(text) => ActionView::WriteRequirements(text),
        StageView::Done => ActionView::Done,
    }
}

// ---------------------------------------------------------------------------
// Steps
// ---------------------------------------------------------------------------

/// A bootstrap with one more step: it goes on to `next` if the step went well,
/// and is over if not.
pub open spec fn recorded(s: SetupView, step: StepView, next: StageView) -> SetupView {
    SetupView {
        steps: s.steps.push(step),
        ok: s.ok && step.ok,
        stage: if step.ok {
            next
        } else {
            StageView::Done
        },
        ..s
    }
}

pub open spec fn moved(s: SetupView, next: StageView) -> SetupView {
    SetupView { stage: next, ..s }
}

/// A uv as shown to people.
pub open spec fn uv_text(uv: UvInfoView) -> Seq<char> {
    "uv "@ + uv.version + " ("@ + (if uv.managed {
        "managed"@
    } else {
        "on PATH"@
    }) + ")"@
}

pub open spec fn python_stage(p: PlanView) -> StageView {
    if uv_python(p) is Some {
        StageView::InstallPython
    } else {
        StageView::LookForManifests
    }
}

/// The stage of the `k`th pin, or what follows the last: the requirements are
/// frozen in the modes that keep a requirements.txt.
pub open spec fn pin_stage(p: PlanView, k: nat) -> StageView {
    if k < p.pins.len() {
        StageView::Pin(k)
    } else if p.mode == ResolvedMode::UvFull {
        StageView::Done
    } else {
        StageView::Freeze
    }
}

pub open spec fn install_name(s: SetupView) -> Seq<char> {
    match install_from(s) {
        InstallFrom::Added => "uv add -r requirements.txt"@,
        InstallFrom::Synced => "uv sync"@,
        InstallFrom::Requirements => if is_pip(s.plan) {
            "pip install -r requirements.txt"@
        } else {
            "uv pip install -r requirements.txt"@
        },
        InstallFrom::Packages => if is_pip(s.plan) {
            "pip install"@
        } else {
            "uv pip install"@
        },
        InstallFrom::Nothing => ""@,
    }
}

pub open spec fn install_detail(s: SetupView) -> Seq<char> {
    match install_from(s) {
        InstallFrom::Added => "dependencies added to pyproject.toml and installed"@,
        InstallFrom::Synced => "dependencies installed"@,
        _ => "installed"@,
    }
}

pub open spec fn pin_name(p: PlanView, pin: PinView) -> Seq<char> {
    (if is_pip(p) {
        "pip install "@
    } else {
        "uv pip install "@
    }) + pin.spec
}

pub open spec fn freeze_name(p: PlanView) -> Seq<char> {
    if is_pip(p) {
        "pip freeze > requirements.txt"@
    } else {
        "uv pip freeze > requirements.txt"@
    }
}

pub open spec fn venv_name(p: PlanView) -> Seq<char> {
    if is_pip(p) {
        "python -m venv"@
    } else {
        "uv venv"@
    }
}

pub open spec fn python_name(v: PyVersion) -> Seq<char> {
    "uv python install "@ + version_text(v)
}

/// A bootstrap after a reply. A reply that does not answer the action it waits
/// on changes nothing.
pub open spec fn after(s: SetupView, reply: ReplyView) -> SetupView {
    match (s.stage, reply) {
        (StageView::EnsureUv, ReplyView::Uv(Ok(uv))) => recorded(
            SetupView { uv: Some(uv), ..s },
            ok_step("ensure uv"@, uv_text(uv)),
            if s.plan.mode == ResolvedMode::UvFull {
                StageView::LookForPyproject
            } else {
                python_stage(s.plan)
            },
        ),
        (StageView::EnsureUv, ReplyView::Uv(Err(e))) => recorded(
            s,
            failed_step("ensure uv"@, e),
            StageView::Done,
        ),
        // A manifest is scaffolded when the project has none yet; an existing
        // pyproject.toml is never touched.
        (StageView::LookForPyproject, ReplyView::Manifests { pyproject, requirements }) => moved(
            s,
            if pyproject {
                python_stage(s.plan)
            } else {
                StageView::Init
            },
        ),
        // Not fatal when it refuses: the directory may already hold a file it
        // will not overwrite.
        (StageView::Init, ReplyView::Ran(Ok(out))) => recorded(
            s,
            ok_step(
                "uv init"@,
                if out.success {
                    "pyproject.toml created"@
                } else {
                    "(warning) "@ + text::trim_spec(out.stderr)
                },
            ),
            python_stage(s.plan),
        ),
        (StageView::Init, ReplyView::Ran(Err(e))) => recorded(
            s,
            failed_step("uv init"@, e),
            StageView::Done,
        ),
        (StageView::InstallPython, ReplyView::Ran(ran)) => recorded(
            s,
            run_step(python_name(uv_python(s.plan)->0), "ready"@, ran),
            StageView::CreateVenv,
        ),
        (StageView::CreateVenv, ReplyView::Ran(ran)) => recorded(
            s,
            run_step(venv_name(s.plan), s.plan.venv, ran),
            StageView::LookForManifests,
        ),
        (StageView::LookForManifests, ReplyView::Manifests { pyproject, requirements }) => {
            let seen = SetupView { pyproject, requirements, ..s };
            if install_from(seen) is Nothing {
                recorded(
                    seen,
                    ok_step("install dependencies"@, "no manifest to install from"@),
                    StageView::Done,
                )
            } else {
                moved(seen, StageView::Install)
            }
        },
        (StageView::Install, ReplyView::Ran(ran)) => recorded(
            s,
            run_step(install_name(s), install_detail(s), ran),
            pin_stage(s.plan, 0),
        ),
        (StageView::Pin(k), ReplyView::Ran(ran)) => recorded(
            s,
            run_step(pin_name(s.plan, s.plan.pins[k as int]), "installed"@, ran),
            pin_stage(s.plan, k + 1),
        ),
        (StageView::Freeze, ReplyView::Ran(ran)) => match ran {
            Ok(out) => if out.success {
                moved(s, StageView::WriteFrozen(out.stdout))
            } else {
                recorded(s, run_step(freeze_name(s.plan), ""@, ran), StageView::Done)
            },
            Err(e) => recorded(s, run_step(freeze_name(s.plan), ""@, ran), StageView::Done),
        },
        (StageView::WriteFrozen(_), ReplyView::Changed(changed)) => recorded(
            s,
            change_step(
                freeze_name(s.plan),
                "requirements.txt updated with exact pins"@,
                changed,
            ),
            StageView::Done,
        ),
        _ => s,
    }
}

/// How a bootstrap begins.
pub open spec fn begun(plan: PlanView, refusal: Option<Seq<char>>) -> SetupView {
    let s = SetupView {
        plan,
        uv: None,
        interpreter: None,
        pyproject: false,
        requirements: false,
        stage: StageView::EnsureUv,
        steps: seq![],
        ok: true,
    };
    if refusal is Some {
        recorded(s, failed_step("resolve Python version"@, refusal->0), StageView::Done)
    } else if !is_pip(plan) {
        s
    } else {
        let found = match plan.python {
            Some(py) => selected(plan.interpreters, py),
            None => if plan.interpreters.len() > 0 {
                Some(plan.interpreters[0])
            } else {
                None
            },
        };
        match found {
            Some(i) => recorded(
                SetupView { interpreter: Some(i), ..s },
                ok_step("select interpreter"@, i.command + " ("@ + version_text(i.version) + ")"@),
                StageView::CreateVenv,
            ),
            None => recorded(
                s,
                failed_step("select interpreter"@, no_interpreter(plan.python)),
                StageView::Done,
            ),
        }
    }
}

/// Why pip mode has no interpreter to build on.
pub open spec fn no_interpreter(python: Option<PyVersion>) -> Seq<char> {
    match python {
        Some(py) => "Python "@ + version_text(py)
            + " is required but not installed. Install it (e.g. from python.org or your package manager), then run setup again. pip mode cannot fetch interpreters."@,
        None => "no Python interpreter found on this machine"@,
    }
}

// ---------------------------------------------------------------------------
// Laws
// ---------------------------------------------------------------------------

proof fn lemma_recorded(s: SetupView, step: StepView)
    requires
        s.ok == all_ok(s.steps),
    ensures
        (s.ok && step.ok) == all_ok(s.steps.push(step)),
{
    let more = s.steps.push(step);
    if all_ok(more) {
        assert(more[s.steps.len() as int].ok);
        assert forall|i: int| 0 <= i < s.steps.len() implies (#[trigger] s.steps[i]).ok by {
            assert(more[i].ok);
        }
    }
}

/// Every bootstrap begins sound.
pub proof fn bootstraps_begin_sound(plan: PlanView, refusal: Option<Seq<char>>)
    ensures
        sound(begun(plan, refusal)),
{
    let s = SetupView {
        plan,
        uv: None,
        interpreter: None,
        pyproject: false,
        requirements: false,
        stage: StageView::EnsureUv,
        steps: seq![],
        ok: true,
    };
    assert forall|step: StepView| (s.ok && step.ok) == all_ok(#[trigger] s.steps.push(step)) by {
        lemma_recorded(s, step);
    }
}

/// And stays sound, whatever it is told.
pub proof fn bootstraps_stay_sound(s: SetupView, reply: ReplyView)
    requires
        sound(s),
    ensures
        sound(after(s, reply)),
{
    assert forall|step: StepView| (s.ok && step.ok) == all_ok(#[trigger] s.steps.push(step)) by {
        lemma_recorded(s, step);
    }
}

/// A bootstrap succeeds exactly if every step of it went well, and the first step
/// that does not go well ends it: nothing is done after a failure.
pub proof fn failure_ends_a_bootstrap(s: SetupView, reply: ReplyView)
    requires
        sound(s),
    ensures
        after(s, reply).ok == all_ok(after(s, reply).steps),
        !after(s, reply).ok ==> action_of(after(s, reply)) == ActionView::Done,
        s.stage == StageView::Done ==> after(s, reply) == s,
{
    bootstraps_stay_sound(s, reply);
}

/// pip mode never downloads or invokes uv: all it ever runs is the interpreter
/// that was chosen and the venv's own.
pub proof fn pip_mode_never_touches_uv(s: SetupView)
    requires
        sound(s),
        s.plan.mode == ResolvedMode::PurePip,
    ensures
        action_of(s) != ActionView::EnsureUv,
        action_of(s) matches ActionView::Run(i) ==> i.program == s.interpreter->0.command
            || i.program == venv_python_spec(s.plan.venv, s.plan.os),
{
}

/// pip-compatible mode never runs `uv init`, `uv add` or `uv sync`, so it never
/// creates a pyproject.toml or a lockfile.
pub proof fn compatible_mode_never_writes_a_pyproject(s: SetupView)
    requires
        sound(s),
        s.plan.mode == ResolvedMode::UvPipCompat,
    ensures
        action_of(s) matches ActionView::Run(i) ==> i.args[0] == "python"@ || i.args[0] == "venv"@
            || i.args[0] == "pip"@,
{
}

/// How much of a bootstrap is left.
pub open spec fn remaining(s: SetupView) -> nat {
    match s.stage {
        StageView::Done => 0,
        StageView::WriteFrozen(_) => 1,
        StageView::Freeze => 2,
        StageView::Pin(k) => (3 + (s.plan.pins.len() - k)) as nat,
        StageView::Install => 4 + s.plan.pins.len(),
        StageView::LookForManifests => 5 + s.plan.pins.len(),
        StageView::CreateVenv => 6 + s.plan.pins.len(),
        StageView::InstallPython => 7 + s.plan.pins.len(),
        StageView::Init => 8 + s.plan.pins.len(),
        StageView::LookForPyproject => 9 + s.plan.pins.len(),
        StageView::EnsureUv => 10 + s.plan.pins.len(),
    }
}

/// Whether a reply is what an action can come to.
pub open spec fn answers(action: ActionView, reply: ReplyView) -> bool {
    match action {
        ActionView::EnsureUv => reply is Uv,
        ActionView::LookForManifests => reply is Manifests,
        ActionView::LookForVenv => reply is Venv,
        ActionView::FindInterpreters => reply is Interpreters,
        ActionView::Run(_) => reply is Ran,
        ActionView::RemoveVenv => reply is Changed,
        ActionView::ReadRequirements => reply is Requirements,
        ActionView::WriteRequirements(_) => reply is Changed,
        ActionView::Done => false,
    }
}

/// Every answered action brings a bootstrap closer to its end, so it has one.
pub proof fn every_answer_makes_progress(s: SetupView, reply: ReplyView)
    requires
        sound(s),
        answers(action_of(s), reply),
    ensures
        remaining(after(s, reply)) < remaining(s),
{
}

// ---------------------------------------------------------------------------
// Running it
// ---------------------------------------------------------------------------

/// The plan an assessment leads to.
pub open spec fn planned(
    a: AssessmentView,
    mode: ResolvedMode,
    venv: Seq<char>,
    requirements: Seq<char>,
    os: Os,
    targets: Seq<TargetView>,
) -> PlanView {
    PlanView {
        mode,
        python: a.target_python,
        venv,
        requirements,
        os,
        interpreters: a.interpreters,
        packages: Seq::new(a.packages.len(), |i: int| a.packages[i].name),
        pins: pins_of(targets),
    }
}

/// Bootstrap on what was assessed, in an explicit mode (such as one the user was
/// asked for). `targets` are the frameworks to pin.
pub fn run_with_mode(
    assessment: &Assessment,
    mode: ResolvedMode,
    venv: &str,
    requirements: &str,
    os: Os,
    targets: Vec<Target>,
) -> (r: Setup)
    ensures
        r@ == begun(
            planned(assessment@, mode, venv@, requirements@, os, target_views(targets@)),
            refusal_text(assessment@.compat),
        ),
{
    let ghost views = target_views(targets@);
    let mut rest = targets;
    let mut pins: Vec<Pin> = Vec::new();
    while rest.len() > 0
        invariant
            pins@.len() + rest@.len() == views.len(),
            forall|i: int| 0 <= i < pins@.len() ==> (#[trigger] pins@[i])@ == views[i].pin,
            forall|i: int|
                0 <= i < rest@.len() ==> (#[trigger] rest@[i])@ == views[pins@.len() + i],
        decreases rest@.len(),
    {
        let Target { note: _, pin } = rest.remove(0);
        pins.push(pin);
    }
    let interpreters = clone_interpreters(&assessment.probes.interpreters);
    let packages = assessment.project.names();
    proof {
        assert(pin_views(pins@) =~= pins_of(views));
        assert(text::texts(packages@) =~= Seq::new(
            assessment@.packages.len(),
            |i: int| assessment@.packages[i].name,
        ));
    }
    let plan = Plan {
        mode,
        python: assessment.target_python,
        venv: venv.to_string(),
        requirements: requirements.to_string(),
        os,
        interpreters,
        packages,
        pins,
    };
    let why = match &assessment.compat {
        Some(c) => refusal(Some(c)),
        None => None,
    };
    Setup::start(plan, why)
}

/// Bootstrap on what was assessed, in the mode the settings resolve to.
pub fn run(
    assessment: &Assessment,
    settings: &Settings,
    venv: &str,
    requirements: &str,
    os: Os,
    targets: Vec<Target>,
) -> (r: Setup)
    ensures
        r@ == begun(
            planned(
                assessment@,
                settings.resolved_mode(),
                venv@,
                requirements@,
                os,
                target_views(targets@),
            ),
            refusal_text(assessment@.compat),
        ),
{
    run_with_mode(assessment, settings.resolve_mode(), venv, requirements, os, targets)
}

fn clone_interpreters(v: &Vec<Interpreter>) -> (r: Vec<Interpreter>)
    ensures
        interpreter_views(r@) == interpreter_views(v@),
{
    let mut out: Vec<Interpreter> = Vec::new();
    let mut i: usize = 0;
    while i < v.len()
        invariant
            i <= v@.len(),
            out@.len() == i,
            forall|j: int| 0 <= j < i ==> (#[trigger] out@[j])@ == v@[j]@,
        decreases v@.len() - i,
    {
        out.push(v[i].clone());
        i += 1;
    }
    proof {
        assert(interpreter_views(out@) =~= interpreter_views(v@));
    }
    out
}

impl Setup {
    #[verifier::type_invariant]
    spec fn is_sound(self) -> bool {
        sound(self@)
    }

    /// Begin a bootstrap. `refusal` says why there can be none.
    pub fn start(plan: Plan, refusal: Option<String>) -> (r: Setup)
        ensures
            r@ == begun(plan@, text::opt_text(refusal)),
    {
        proof {
            bootstraps_begin_sound(plan@, text::opt_text(refusal));
        }
        let mut steps: Vec<Step> = Vec::new();
        proof {
            assert(step_views(steps@) =~= seq![]);
        }
        if let Some(why) = refusal {
            let s = step("resolve Python version", false, why.as_str());
            proof {
                lemma_steps_push(steps@, s);
            }
            steps.push(s);
            return Setup {
                plan,
                uv: None,
                interpreter: None,
                pyproject: false,
                requirements: false,
                stage: Stage::Done,
                steps,
                ok: false,
            };
        }
        if plan.mode != ResolvedMode::PurePip {
            return Setup {
                plan,
                uv: None,
                interpreter: None,
                pyproject: false,
                requirements: false,
                stage: Stage::EnsureUv,
                steps,
                ok: true,
            };
        }
        let found = match plan.python {
            Some(py) => select(&plan.interpreters, py),
            None => if plan.interpreters.len() > 0 {
                Some(plan.interpreters[0].clone())
            } else {
                None
            },
        };
        match found {
            Some(i) => {
                let mut detail = i.command.clone();
                detail.append(" (");
                detail.append(i.version.to_text().as_str());
                detail.append(")");
                let s = step("select interpreter", true, detail.as_str());
                proof {
                    lemma_steps_push(steps@, s);
                }
                steps.push(s);
                Setup {
                    plan,
                    uv: None,
                    interpreter: Some(i),
                    pyproject: false,
                    requirements: false,
                    stage: Stage::CreateVenv,
                    steps,
                    ok: true,
                }
            },
            None => {
                let detail = match plan.python {
                    Some(py) => {
                        let mut detail = "Python ".to_string();
                        detail.append(py.to_text().as_str());
                        detail.append(
                            " is required but not installed. Install it (e.g. from python.org or your package manager), then run setup again. pip mode cannot fetch interpreters.",
                        );
                        detail
                    },
                    None => "no Python interpreter found on this machine".to_string(),
                };
                let s = step("select interpreter", false, detail.as_str());
                proof {
                    lemma_steps_push(steps@, s);
                }
                steps.push(s);
                Setup {
                    plan,
                    uv: None,
                    interpreter: None,
                    pyproject: false,
                    requirements: false,
                    stage: Stage::Done,
                    steps,
                    ok: false,
                }
            },
        }
    }

    fn uv_version(&self) -> (r: Option<PyVersion>)
        ensures
            r == uv_python(self@.plan),
    {
        if self.plan.mode == ResolvedMode::UvPipCompat && self.plan.python.is_none()
            && self.plan.interpreters.len() > 0 {
            Some(self.plan.interpreters[0].version)
        } else {
            self.plan.python
        }
    }

    /// The action to perform next.
    pub fn next_action(&self) -> (r: Action)
        ensures
            r@ == action_of(self@),
    {
        proof {
            use_type_invariant(self);
        }
        match &self.stage {
            Stage::EnsureUv => Action::EnsureUv,
            Stage::LookForPyproject | Stage::LookForManifests => Action::LookForManifests,
            Stage::WriteFrozen(text) => Action::WriteRequirements(text.clone()),
            Stage::Done => Action::Done,
            _ => match self.plan.mode {
                ResolvedMode::PurePip => match &self.interpreter {
                    Some(i) => self.pip_action(i),
                    None => Action::Done,
                },
                _ => match &self.uv {
                    Some(uv) => self.uv_action(uv),
                    None => Action::Done,
                },
            },
        }
    }

    fn pip_action(&self, interpreter: &Interpreter) -> (r: Action)
        requires
            sound(self@),
            is_pip(self@.plan),
            self@.interpreter == Some(interpreter@),
            self@.stage == StageView::CreateVenv || self@.stage == StageView::Install
                || self@.stage is Pin || self@.stage == StageView::Freeze,
        ensures
            r@ == action_of(self@),
    {
        let venv = self.plan.venv.as_str();
        match &self.stage {
            Stage::CreateVenv => Action::Run(pip::create_venv(interpreter, venv)),
            Stage::Install => if self.requirements {
                Action::Run(
                    pip::install_requirements(
                        venv,
                        self.plan.os,
                        self.plan.requirements.as_str(),
                    ),
                )
            } else {
                Action::Run(
                    pip::install_packages(venv, self.plan.os, &self.plan.packages, None),
                )
            },
            Stage::Pin(k) => {
                let pin = &self.plan.pins[*k];
                proof {
                    assert(self@.plan.pins[*k as int] == pin@);
                }
                let specs = vec![pin.spec.clone()];
                proof {
                    assert(text::texts(specs@) =~= seq![pin.spec@]);
                }
                Action::Run(
                    pip::install_packages(venv, self.plan.os, &specs, as_str(&pin.index_url)),
                )
            },
            _ => Action::Run(pip::freeze_requirements(venv, self.plan.os)),
        }
    }

    fn uv_action(&self, uv: &UvInfo) -> (r: Action)
        requires
            sound(self@),
            !is_pip(self@.plan),
            self@.uv == Some(uv@),
            self@.stage == StageView::Init || self@.stage == StageView::InstallPython
                || self@.stage == StageView::CreateVenv || self@.stage == StageView::Install
                || self@.stage is Pin || self@.stage == StageView::Freeze,
        ensures
            r@ == action_of(self@),
    {
        let requirements = self.plan.requirements.as_str();
        match &self.stage {
            Stage::Init => Action::Run(uv::init(uv)),
            Stage::InstallPython => match self.uv_version() {
                Some(py) => Action::Run(uv::python_install(uv, py)),
                None => Action::Done,
            },
            Stage::CreateVenv => match self.uv_version() {
                Some(py) => Action::Run(uv::create_venv(uv, py, self.plan.venv.as_str())),
                None => Action::Done,
            },
            Stage::Install => if self.plan.mode == ResolvedMode::UvFull && self.pyproject {
                if self.requirements {
                    Action::Run(uv::add_requirements(uv, requirements))
                } else {
                    Action::Run(uv::sync(uv))
                }
            } else if self.requirements {
                Action::Run(uv::pip_install_requirements(uv, requirements))
            } else {
                Action::Run(uv::pip_install(uv, &self.plan.packages, None))
            },
            Stage::Pin(k) => {
                let pin = &self.plan.pins[*k];
                proof {
                    assert(self@.plan.pins[*k as int] == pin@);
                }
                let specs = vec![pin.spec.clone()];
                proof {
                    assert(text::texts(specs@) =~= seq![pin.spec@]);
                }
                Action::Run(uv::pip_install(uv, &specs, as_str(&pin.index_url)))
            },
            _ => Action::Run(uv::pip_freeze(uv)),
        }
    }

    fn python_next(&self) -> (r: Stage)
        ensures
            r@ == python_stage(self@.plan),
    {
        if self.uv_version().is_some() {
            Stage::InstallPython
        } else {
            Stage::LookForManifests
        }
    }

    fn pin_next(&self, k: usize) -> (r: Stage)
        ensures
            r@ == pin_stage(self@.plan, k as nat),
    {
        if k < self.plan.pins.len() {
            Stage::Pin(k)
        } else if self.plan.mode == ResolvedMode::UvFull {
            Stage::Done
        } else {
            Stage::Freeze
        }
    }

    fn freeze_label(&self) -> (r: &'static str)
        ensures
            r@ == freeze_name(self@.plan),
    {
        if self.plan.mode == ResolvedMode::PurePip {
            "pip freeze > requirements.txt"
        } else {
            "uv pip freeze > requirements.txt"
        }
    }

    fn install_step(&self, ran: &Result<crate::engine::command::Output, String>) -> (r: Step)
        requires
            !(install_from(self@) is Nothing),
        ensures
            r@ == run_step(
                install_name(self@),
                install_detail(self@),
                crate::engine::flow::ran_view(*ran),
            ),
    {
        let pip = self.plan.mode == ResolvedMode::PurePip;
        if self.plan.mode == ResolvedMode::UvFull && self.pyproject {
            if self.requirements {
                outcome(
                    "uv add -r requirements.txt",
                    "dependencies added to pyproject.toml and installed",
                    ran,
                )
            } else {
                outcome("uv sync", "dependencies installed", ran)
            }
        } else if self.requirements {
            if pip {
                outcome("pip install -r requirements.txt", "installed", ran)
            } else {
                outcome("uv pip install -r requirements.txt", "installed", ran)
            }
        } else if pip {
            outcome("pip install", "installed", ran)
        } else {
            outcome("uv pip install", "installed", ran)
        }
    }

    fn pin_step(&self, k: usize, ran: &Result<crate::engine::command::Output, String>) -> (r: Step)
        requires
            k < self@.plan.pins.len(),
        ensures
            r@ == run_step(
                pin_name(self@.plan, self@.plan.pins[k as int]),
                "installed"@,
                crate::engine::flow::ran_view(*ran),
            ),
    {
        proof {
            assert(self@.plan.pins[k as int] == self.plan.pins@[k as int]@);
        }
        let mut name = if self.plan.mode == ResolvedMode::PurePip {
            "pip install ".to_string()
        } else {
            "uv pip install ".to_string()
        };
        name.append(self.plan.pins[k].spec.as_str());
        outcome(name.as_str(), "installed", ran)
    }

    fn record(self, s: Step, next: Stage) -> (r: Setup)
        requires
            sound(recorded(self@, s@, next@)),
        ensures
            r@ == recorded(self@, s@, next@),
    {
        let Setup { plan, uv, interpreter, pyproject, requirements, stage: _, mut steps, ok } =
            self;
        let ok = ok && s.ok;
        let stage = if s.ok {
            next
        } else {
            Stage::Done
        };
        proof {
            lemma_steps_push(steps@, s);
        }
        steps.push(s);
        Setup { plan, uv, interpreter, pyproject, requirements, stage, steps, ok }
    }

    fn go(self, next: Stage) -> (r: Setup)
        requires
            sound(moved(self@, next@)),
        ensures
            r@ == moved(self@, next@),
    {
        let Setup { plan, uv, interpreter, pyproject, requirements, stage: _, steps, ok } = self;
        Setup { plan, uv, interpreter, pyproject, requirements, stage: next, steps, ok }
    }

    /// Take in what came of the action.
    pub fn advance(self, reply: Reply) -> (r: Setup)
        ensures
            r@ == after(self@, reply@),
    {
        proof {
            use_type_invariant(&self);
            bootstraps_stay_sound(self@, reply@);
        }
        match reply {
            Reply::Uv(result) => self.uv_ensured(result),
            Reply::Manifests { pyproject, requirements } => self.looked(pyproject, requirements),
            Reply::Ran(ran) => self.ran(ran),
            Reply::Changed(changed) => match &self.stage {
                Stage::WriteFrozen(_) => {
                    let s = change_outcome(
                        self.freeze_label(),
                        "requirements.txt updated with exact pins",
                        &changed,
                    );
                    self.record(s, Stage::Done)
                },
                _ => self,
            },
            _ => self,
        }
    }

    fn uv_ensured(self, result: Result<UvInfo, String>) -> (r: Setup)
        requires
            sound(after(self@, Reply::Uv(result)@)),
        ensures
            r@ == after(self@, Reply::Uv(result)@),
    {
        match &self.stage {
            Stage::EnsureUv => {},
            _ => return self,
        }
        match result {
            Ok(info) => {
                let mut detail = "uv ".to_string();
                detail.append(info.version.as_str());
                detail.append(" (");
                detail.append(
                    if info.managed {
                        "managed"
                    } else {
                        "on PATH"
                    },
                );
                detail.append(")");
                let next = if self.plan.mode == ResolvedMode::UvFull {
                    Stage::LookForPyproject
                } else {
                    self.python_next()
                };
                let s = step("ensure uv", true, detail.as_str());
                let Setup {
                    plan,
                    uv: _,
                    interpreter,
                    pyproject,
                    requirements,
                    stage: _,
                    mut steps,
                    ok,
                } = self;
                proof {
                    lemma_steps_push(steps@, s);
                }
                steps.push(s);
                Setup {
                    plan,
                    uv: Some(info),
                    interpreter,
                    pyproject,
                    requirements,
                    stage: next,
                    steps,
                    ok,
                }
            },
            Err(e) => {
                let s = step("ensure uv", false, e.as_str());
                self.record(s, Stage::Done)
            },
        }
    }

    fn looked(self, pyproject: bool, requirements: bool) -> (r: Setup)
        requires
            sound(self@),
            sound(after(self@, (ReplyView::Manifests { pyproject, requirements }))),
        ensures
            r@ == after(self@, (ReplyView::Manifests { pyproject, requirements })),
    {
        match &self.stage {
            Stage::LookForPyproject => {
                let next = if pyproject {
                    self.python_next()
                } else {
                    Stage::Init
                };
                self.go(next)
            },
            Stage::LookForManifests => {
                let something = requirements || (if self.plan.mode == ResolvedMode::UvFull {
                    pyproject
                } else {
                    self.plan.packages.len() > 0
                });
                let Setup {
                    plan,
                    uv,
                    interpreter,
                    pyproject: _,
                    requirements: _,
                    stage: _,
                    mut steps,
                    ok,
                } = self;
                if something {
                    Setup {
                        plan,
                        uv,
                        interpreter,
                        pyproject,
                        requirements,
                        stage: Stage::Install,
                        steps,
                        ok,
                    }
                } else {
                    let s = step("install dependencies", true, "no manifest to install from");
                    proof {
                        lemma_steps_push(steps@, s);
                    }
                    steps.push(s);
                    Setup {
                        plan,
                        uv,
                        interpreter,
                        pyproject,
                        requirements,
                        stage: Stage::Done,
                        steps,
                        ok,
                    }
                }
            },
            _ => self,
        }
    }

    fn ran(self, ran: Result<crate::engine::command::Output, String>) -> (r: Setup)
        requires
            sound(self@),
            sound(after(self@, Reply::Ran(ran)@)),
        ensures
            r@ == after(self@, Reply::Ran(ran)@),
    {
        match &self.stage {
            Stage::Init => match &ran {
                Ok(out) => {
                    let s = if out.success() {
                        step("uv init", true, "pyproject.toml created")
                    } else {
                        let mut detail = "(warning) ".to_string();
                        detail.append(text::trim(out.stderr.as_str()));
                        step("uv init", true, detail.as_str())
                    };
                    let next = self.python_next();
                    self.record(s, next)
                },
                Err(e) => {
                    let s = step("uv init", false, e.as_str());
                    self.record(s, Stage::Done)
                },
            },
            Stage::InstallPython => match self.uv_version() {
                Some(py) => {
                    let mut name = "uv python install ".to_string();
                    name.append(py.to_text().as_str());
                    let s = outcome(name.as_str(), "ready", &ran);
                    self.record(s, Stage::CreateVenv)
                },
                None => self,
            },
            Stage::CreateVenv => {
                let name = if self.plan.mode == ResolvedMode::PurePip {
                    "python -m venv"
                } else {
                    "uv venv"
                };
                let s = outcome(name, self.plan.venv.as_str(), &ran);
                self.record(s, Stage::LookForManifests)
            },
            Stage::Install => {
                let s = self.install_step(&ran);
                let next = self.pin_next(0);
                self.record(s, next)
            },
            Stage::Pin(k) => {
                let k = *k;
                proof {
                    assert(k < self.plan.pins.len());
                }
                let s = self.pin_step(k, &ran);
                let next = self.pin_next(k + 1);
                self.record(s, next)
            },
            Stage::Freeze => {
                if let Ok(out) = &ran {
                    if out.success() {
                        let frozen = out.stdout.clone();
                        return self.go(Stage::WriteFrozen(frozen));
                    }
                }
                let s = outcome(self.freeze_label(), "", &ran);
                self.record(s, Stage::Done)
            },
            _ => self,
        }
    }

    /// What was done, for people. Meant for when the flow is over.
    pub fn into_summary(self, package_manager: PackageManager, why: String) -> (r: SetupSummary)
        ensures
            r.package_manager == package_manager,
            r.resolved_mode == self@.plan.mode,
            r.python == self@.plan.python,
            r.venv_path@ == self@.plan.venv,
            r.why@ == why@,
            step_views(r.steps@) == self@.steps,
            r.ok == self@.ok,
            r.ok == all_ok(step_views(r.steps@)),
    {
        proof {
            use_type_invariant(&self);
        }
        SetupSummary {
            package_manager,
            resolved_mode: self.plan.mode,
            python: self.plan.python,
            venv_path: self.plan.venv,
            why,
            steps: self.steps,
            ok: self.ok,
        }
    }
}

pub fn as_str(o: &Option<String>) -> (r: Option<&str>)
    ensures
        text::opt_str(r) == text::opt_text(*o),
{
    match o {
        Some(s) => Some(s.as_str()),
        None => None,
    }
}

/// A bootstrap in full uv mode: a manifest is scaffolded where there is none, the version
/// the dependencies ask for is installed, and the venv is made on it before anything is
/// installed into it.
pub proof fn full_setups_run_in_order(
    plan: PlanView,
    py: PyVersion,
    uv: UvInfoView,
    out: OutputView,
    r: bool,
)
    requires
        plan.mode == ResolvedMode::UvFull,
        plan.python == Some(py),
        out.success,
    ensures
        ({
            let s0 = begun(plan, None);
            let s1 = after(s0, ReplyView::Uv(Ok(uv)));
            let bare = after(s1, ReplyView::Manifests { pyproject: false, requirements: r });
            let there = after(s1, ReplyView::Manifests { pyproject: true, requirements: r });
            let s3 = after(there, ReplyView::Ran(Ok(out)));
            let s4 = after(s3, ReplyView::Ran(Ok(out)));
            let both = after(s4, ReplyView::Manifests { pyproject: true, requirements: true });
            let own = after(s4, ReplyView::Manifests { pyproject: true, requirements: false });
            let install_python = ActionView::Run(
                InvocationView {
                    program: uv.path,
                    args: seq!["python"@, "install"@, version_text(py)],
                },
            );
            &&& action_of(s0) == ActionView::EnsureUv
            &&& action_of(s1) == ActionView::LookForManifests
            &&& action_of(bare) == ActionView::Run(
                InvocationView { program: uv.path, args: seq!["init"@] },
            )
            &&& action_of(after(bare, ReplyView::Ran(Ok(out)))) == install_python
            &&& action_of(there) == install_python
            &&& action_of(s3) == ActionView::Run(
                InvocationView {
                    program: uv.path,
                    args: seq!["venv"@, "--clear"@, "--python"@, version_text(py), plan.venv],
                },
            )
            &&& action_of(s4) == ActionView::LookForManifests
            &&& action_of(both) == ActionView::Run(
                InvocationView { program: uv.path, args: seq!["add"@, "-r"@, plan.requirements] },
            )
            &&& action_of(own) == ActionView::Run(
                InvocationView { program: uv.path, args: seq!["sync"@] },
            )
            &&& plan.pins.len() == 0 ==> action_of(after(own, ReplyView::Ran(Ok(out))))
                == ActionView::Done && after(own, ReplyView::Ran(Ok(out))).ok
        }),
{
}

/// A bootstrap in pip-compatible mode: the requirements, or else the declared names, are
/// installed, and what came of it is frozen back.
pub proof fn compatible_setups_freeze_what_they_install(
    plan: PlanView,
    py: PyVersion,
    uv: UvInfoView,
    out: OutputView,
)
    requires
        plan.mode == ResolvedMode::UvPipCompat,
        plan.python == Some(py),
        plan.pins.len() == 0,
        plan.packages.len() > 0,
        out.success,
    ensures
        ({
            let s1 = after(begun(plan, None), ReplyView::Uv(Ok(uv)));
            let s2 = after(s1, ReplyView::Ran(Ok(out)));
            let s3 = after(s2, ReplyView::Ran(Ok(out)));
            let listed = after(s3, ReplyView::Manifests { pyproject: true, requirements: true });
            let named = after(s3, ReplyView::Manifests { pyproject: true, requirements: false });
            let installed = after(listed, ReplyView::Ran(Ok(out)));
            let frozen = after(installed, ReplyView::Ran(Ok(out)));
            let done = after(frozen, ReplyView::Changed(Ok(())));
            &&& action_of(s1) == ActionView::Run(
                InvocationView {
                    program: uv.path,
                    args: seq!["python"@, "install"@, version_text(py)],
                },
            )
            &&& action_of(listed) == ActionView::Run(
                InvocationView {
                    program: uv.path,
                    args: seq!["pip"@, "install"@, "-r"@, plan.requirements],
                },
            )
            &&& action_of(named) == ActionView::Run(
                InvocationView {
                    program: uv.path,
                    args: seq!["pip"@, "install"@] + plan.packages,
                },
            )
            &&& action_of(installed) == ActionView::Run(
                InvocationView { program: uv.path, args: seq!["pip"@, "freeze"@] },
            )
            &&& action_of(frozen) == ActionView::WriteRequirements(out.stdout)
            &&& action_of(done) == ActionView::Done && done.ok
        }),
{
    let s1 = after(begun(plan, None), ReplyView::Uv(Ok(uv)));
    let s2 = after(s1, ReplyView::Ran(Ok(out)));
    let s3 = after(s2, ReplyView::Ran(Ok(out)));
    let named = after(s3, ReplyView::Manifests { pyproject: true, requirements: false });
    if let ActionView::Run(run) = action_of(named) {
        assert(run.args =~= seq!["pip"@, "install"@] + plan.packages);
    }
}

/// A bootstrap in pip mode: it builds on an interpreter of the wanted version, or on the
/// first there is where none is wanted, and ends at once where there is none.
pub proof fn pip_setups_build_on_an_interpreter(
    plan: PlanView,
    py: PyVersion,
    chosen: InterpreterView,
    out: OutputView,
)
    requires
        plan.mode == ResolvedMode::PurePip,
        out.success,
    ensures
        plan.python == Some(py) && selected(plan.interpreters, py) is None ==> action_of(
            begun(plan, None),
        ) == ActionView::Done && !begun(plan, None).ok,
        plan.python is None && plan.interpreters.len() == 0 ==> action_of(begun(plan, None))
            == ActionView::Done && !begun(plan, None).ok,
        (plan.python == Some(py) && selected(plan.interpreters, py) == Some(chosen))
            || plan.python is None && plan.interpreters.len() > 0 && plan.interpreters[0] == chosen
            ==> {
            let s0 = begun(plan, None);
            let s1 = after(s0, ReplyView::Ran(Ok(out)));
            let s2 = after(s1, ReplyView::Manifests { pyproject: false, requirements: true });
            &&& action_of(s0) == ActionView::Run(
                InvocationView { program: chosen.command, args: seq!["-m"@, "venv"@, plan.venv] },
            )
            &&& action_of(s1) == ActionView::LookForManifests
            &&& action_of(s2) == ActionView::Run(
                InvocationView {
                    program: if plan.os == Os::Windows {
                        plan.venv + "\\Scripts\\python.exe"@
                    } else {
                        plan.venv + "/bin/python"@
                    },
                    args: seq!["-m"@, "pip"@, "install"@, "-r"@, plan.requirements],
                },
            )
        },
{
}

/// Every pin is installed, one after another, each from its own index.
pub proof fn every_pin_is_installed(s: SetupView, k: nat, out: OutputView)
    requires
        sound(s),
        s.stage == StageView::Pin(k),
        s.plan.mode != ResolvedMode::PurePip,
        out.success,
    ensures
        action_of(s) == ActionView::Run(
            InvocationView {
                program: s.uv->0.path,
                args: match s.plan.pins[k as int].index_url {
                    Some(url) => seq![
                        "pip"@,
                        "install"@,
                        "--index-url"@,
                        url,
                        s.plan.pins[k as int].spec,
                    ],
                    None => seq!["pip"@, "install"@, s.plan.pins[k as int].spec],
                },
            },
        ),
        k + 1 < s.plan.pins.len() ==> after(s, ReplyView::Ran(Ok(out))).stage == StageView::Pin(
            k + 1,
        ),
        k + 1 == s.plan.pins.len() ==> !(after(s, ReplyView::Ran(Ok(out))).stage is Pin),
{
    if let ActionView::Run(run) = action_of(s) {
        match s.plan.pins[k as int].index_url {
            Some(url) => {
                assert(run.args =~= seq![
                    "pip"@,
                    "install"@,
                    "--index-url"@,
                    url,
                    s.plan.pins[k as int].spec,
                ]);
            },
            None => {
                assert(run.args =~= seq!["pip"@, "install"@, s.plan.pins[k as int].spec]);
            },
        }
    }
}

/// A bootstrap is refused exactly where the packages that were found share no version, and
/// one that is refused does nothing.
pub proof fn conflicts_are_refused(plan: PlanView, c: CompatReportView)
    ensures
        refusal_text(Some(c)) is Some <==> c.per_package.len() > 0 && forall|m: u8|
            !c.intersection.contains(m),
        refusal_text(None) is None,
        refusal_text(Some(c)) is Some && c.conflicts.len() > 0 ==> refusal_text(Some(c))->0
            == c.conflicts[0].explanation,
        refusal_text(Some(c)) is Some ==> action_of(begun(plan, refusal_text(Some(c))))
            == ActionView::Done && !begun(plan, refusal_text(Some(c))).ok,
{
    if forall|m: u8| !c.intersection.contains(m) {
        assert(c.intersection =~= Set::<u8>::empty());
    }
}

/// What is said of the version chosen tells it and what the dependencies share, and a
/// package that is said to cap it ends there.
pub proof fn choices_are_explained(c: CompatReportView, py: PyVersion)
    requires
        py.major == 3,
        forall|j: int|
            0 <= j < c.per_package.len() ==> (#[trigger] c.per_package[j]).supported.subset_of(
                crate::pypi::pyversion::universe_minors(),
            ),
    ensures
        ("Python "@ + version_text(py) + " chosen: dependencies support "@ + range_text(
            c.intersection,
        )).is_prefix_of(why_text(Some(c), Some(py))),
        why_text(Some(c), Some(py)) == "Python "@ + version_text(py)
            + " chosen: dependencies support "@ + range_text(c.intersection) + "."@ || exists|i: int|
            0 <= i < c.per_package.len() && (#[trigger] c.per_package[i]).supported.contains(
                py.minor,
            ) && (forall|m: u8| #[trigger]
                c.per_package[i].supported.contains(m) ==> m <= py.minor) && why_text(
                Some(c),
                Some(py),
            ) == "Python "@ + version_text(py) + " chosen: dependencies support "@ + range_text(
                c.intersection,
            ) + "; "@ + c.per_package[i].name + " caps the upper bound (supports "@ + range_text(
                c.per_package[i].supported,
            ) + ")."@,
{
    crate::engine::solver::the_upper_bound_is_set_by_a_package_that_ends_there(c.per_package, py);
    let head = "Python "@ + version_text(py) + " chosen: dependencies support "@ + range_text(
        c.intersection,
    );
    let told = why_text(Some(c), Some(py));
    assert(told.take(head.len() as int) =~= head);
}

/// A command that fails, or cannot be run, fails the bootstrap and ends it. The one
/// exception is a `uv init` that ran and refused: the bootstrap then goes on.
pub proof fn failed_commands_fail_the_bootstrap(
    s: SetupView,
    i: InvocationView,
    out: OutputView,
    e: Seq<char>,
)
    requires
        action_of(s) == ActionView::Run(i),
        !out.success,
    ensures
        !after(s, ReplyView::Ran(Err(e))).ok,
        action_of(after(s, ReplyView::Ran(Err(e)))) == ActionView::Done,
        i.args[0] != "init"@ ==> !after(s, ReplyView::Ran(Ok(out))).ok && action_of(
            after(s, ReplyView::Ran(Ok(out))),
        ) == ActionView::Done,
        i.args[0] == "init"@ ==> after(s, ReplyView::Ran(Ok(out))).ok == s.ok,
{
    reveal_strlit("init");
    reveal_strlit("venv");
    reveal_strlit("python");
    reveal_strlit("pip");
    reveal_strlit("add");
    reveal_strlit("sync");
    reveal_strlit("-m");
    assert("init"@[0] == 'i');
    assert("venv"@[0] == 'v');
    assert("python"@[0] == 'p');
    assert("pip"@[0] == 'p');
    assert("add"@[0] == 'a');
    assert("sync"@[0] == 's');
    assert("-m"@[0] == '-');
}

/// A change that cannot be made fails the bootstrap and ends it.
pub proof fn failed_changes_fail_the_bootstrap(s: SetupView, e: Seq<char>)
    requires
        action_of(s) is WriteRequirements,
    ensures
        !after(s, ReplyView::Changed(Err(e))).ok,
        after(s, ReplyView::Changed(Ok(()))).ok == s.ok,
        action_of(after(s, ReplyView::Changed(Err(e)))) == ActionView::Done,
{
}

} // verus!
