//! `pypilot fix cuda`: re-pin torch and tensorflow to the build that matches the
//! driver.

use vstd::prelude::*;

use crate::engine::command::InvocationView;
use crate::engine::flow::{Action, ActionView, OutputView, Reply, ReplyView};
use crate::engine::pins::{target_views, Target, TargetView};
use crate::engine::pip::{self, venv_python_spec};
use crate::engine::platform::Os;
use crate::engine::project::{requirement_views, Requirement};
use crate::engine::setup::{answers, as_str};
use crate::engine::uv::{self, index_args, opt_uv, UvInfo, UvInfoView};
use crate::matrix::frameworks::Framework;
use crate::matrix::is_framework;
use crate::settings::PackageManager;
use crate::text;

verus! {

/// The declared frameworks, or why there is nothing to re-pin.
pub fn declared_frameworks(packages: &Vec<Requirement>) -> (r: Result<Vec<Requirement>, String>)
    ensures
        match r {
            Ok(found) => found@.len() > 0 && requirement_views(found@) == requirement_views(
                packages@,
            ).filter(is_framework()),
            Err(e) => requirement_views(packages@).filter(is_framework()).len() == 0 && e@
                == "no torch or tensorflow dependency declared here, so there is nothing to re-pin"@,
        },
{
    let ghost views = requirement_views(packages@);
    let mut found: Vec<Requirement> = Vec::new();
    let mut i: usize = 0;
    proof {
        assert(requirement_views(found@) =~= views.take(0).filter(is_framework()));
    }
    while i < packages.len()
        invariant
            i <= packages@.len(),
            views == requirement_views(packages@),
            requirement_views(found@) == views.take(i as int).filter(is_framework()),
        decreases packages@.len() - i,
    {
        let req = &packages[i];
        proof {
            let now = views.take(i as int + 1);
            assert(now.drop_last() =~= views.take(i as int));
            assert(now.last() == req@);
            reveal_with_fuel(Seq::filter, 2);
        }
        if Framework::from_package_name(req.name.as_str()).is_some() {
            let kept = req.clone();
            proof {
                assert(requirement_views(found@.push(kept)) =~= requirement_views(found@).push(
                    kept@,
                ));
            }
            found.push(kept);
        }
        i += 1;
    }
    proof {
        assert(views.take(i as int) =~= views);
        assert(requirement_views(found@).len() == found@.len());
    }
    if found.len() == 0 {
        return Err(
            "no torch or tensorflow dependency declared here, so there is nothing to re-pin".to_string(),
        );
    }
    Ok(found)
}

// ---------------------------------------------------------------------------
// The flow
// ---------------------------------------------------------------------------

/// Where the re-pinning stands. The number is that of the pin.
#[derive(Debug, Clone, Copy, PartialEq, Eq, Structural)]
enum Stage {
    EnsureUv(usize),
    LookForVenv(usize),
    Install(usize),
    Done,
}

/// A stage, mathematically.
#[verifier::ext_equal]
pub enum StageView {
    EnsureUv(nat),
    LookForVenv(nat),
    Install(nat),
    Done,
}

impl View for Stage {
    type V = StageView;

    closed spec fn view(&self) -> StageView {
        match *self {
            Stage::EnsureUv(k) => StageView::EnsureUv(k as nat),
            Stage::LookForVenv(k) => StageView::LookForVenv(k as nat),
            Stage::Install(k) => StageView::Install(k as nat),
            Stage::Done => StageView::Done,
        }
    }
}

/// A re-pinning under way.
#[derive(Debug)]
pub struct Repin {
    manager: PackageManager,
    venv: String,
    os: Os,
    targets: Vec<Target>,
    uv: Option<UvInfo>,
    stage: Stage,
    lines: Vec<String>,
    failed: bool,
    error: Option<String>,
}

/// A re-pinning under way, mathematically.
#[verifier::ext_equal]
pub struct RepinView {
    pub manager: PackageManager,
    pub venv: Seq<char>,
    pub os: Os,
    pub targets: Seq<TargetView>,
    pub uv: Option<UvInfoView>,
    pub stage: StageView,
    /// What is said, a line for each pin that was tried.
    pub lines: Seq<Seq<char>>,
    /// Whether an install failed.
    pub failed: bool,
    /// What ended it early: uv could not be had, or a process not be started.
    pub error: Option<Seq<char>>,
}

impl View for Repin {
    type V = RepinView;

    closed spec fn view(&self) -> RepinView {
        RepinView {
            manager: self.manager,
            venv: self.venv@,
            os: self.os,
            targets: target_views(self.targets@),
            uv: opt_uv(self.uv),
            stage: self.stage@,
            lines: text::texts(self.lines@),
            failed: self.failed,
            error: text::opt_text(self.error),
        }
    }
}

pub open spec fn is_pip(s: RepinView) -> bool {
    s.manager == PackageManager::Pip
}

/// What is said of a target first.
pub open spec fn noted(t: TargetView) -> Seq<Seq<char>> {
    match t.note {
        Some(note) => seq![note],
        None => seq![],
    }
}

/// A re-pinning that turns to its `k`th target.
pub open spec fn arrived(s: RepinView, k: nat) -> RepinView {
    if k >= s.targets.len() {
        RepinView { stage: StageView::Done, ..s }
    } else {
        RepinView {
            stage: if is_pip(s) {
                StageView::LookForVenv(k)
            } else {
                StageView::EnsureUv(k)
            },
            lines: s.lines + noted(s.targets[k as int]),
            ..s
        }
    }
}

/// What holds of every re-pinning.
pub open spec fn sound(s: RepinView) -> bool {
    match s.stage {
        StageView::EnsureUv(k) => !is_pip(s) && k < s.targets.len(),
        StageView::LookForVenv(k) => is_pip(s) && k < s.targets.len(),
        StageView::Install(k) => k < s.targets.len() && (!is_pip(s) ==> s.uv is Some),
        StageView::Done => true,
    }
}

pub open spec fn begun(
    manager: PackageManager,
    venv: Seq<char>,
    os: Os,
    targets: Seq<TargetView>,
) -> RepinView {
    arrived(
        RepinView {
            manager,
            venv,
            os,
            targets,
            uv: None,
            stage: StageView::Done,
            lines: seq![],
            failed: false,
            error: None,
        },
        0,
    )
}

/// The action a re-pinning waits on.
pub open spec fn action_of(s: RepinView) -> ActionView {
    match s.stage {
        StageView::EnsureUv(_) => ActionView::EnsureUv,
        StageView::LookForVenv(_) => ActionView::LookForVenv,
        StageView::Install(k) => {
            let p = s.targets[k as int].pin;
            if is_pip(s) {
                ActionView::Run(
                    InvocationView {
                        program: venv_python_spec(s.venv, s.os),
                        args: seq!["-m"@, "pip"@, "install"@] + index_args(
                            "--index-url"@,
                            p.index_url,
                        ) + seq![p.spec],
                    },
                )
            } else {
                ActionView::Run(
                    InvocationView {
                        program: s.uv->0.path,
                        args: seq!["pip"@, "install"@] + index_args("--index-url"@, p.index_url)
                            + seq![p.spec],
                    },
                )
            }
        },
        StageView::Done => ActionView::Done,
    }
}

/// The line an install gives.
pub open spec fn install_line(spec: Seq<char>, out: OutputView) -> Seq<char> {
    if out.success {
        "  ok installed "@ + spec
    } else {
        "  failed "@ + text::trim_spec(out.stderr)
    }
}

pub open spec fn stopped(s: RepinView, error: Seq<char>) -> RepinView {
    RepinView { stage: StageView::Done, error: Some(error), ..s }
}

/// A re-pinning that is over with its `k`th target.
pub open spec fn said(s: RepinView, line: Seq<char>, went_wrong: bool, k: nat) -> RepinView {
    arrived(
        RepinView { lines: s.lines.push(line), failed: s.failed || went_wrong, ..s },
        k + 1,
    )
}

/// A re-pinning after a reply. A failed install does not keep the other
/// frameworks from being pinned; a reply that does not answer changes nothing.
pub open spec fn after(s: RepinView, reply: ReplyView) -> RepinView {
    match (s.stage, reply) {
        (StageView::EnsureUv(k), ReplyView::Uv(Ok(uv))) => RepinView {
            uv: Some(uv),
            stage: StageView::Install(k),
            ..s
        },
        (StageView::EnsureUv(k), ReplyView::Uv(Err(e))) => stopped(s, e),
        (StageView::LookForVenv(k), ReplyView::Venv(there)) => if there {
            RepinView { stage: StageView::Install(k), ..s }
        } else {
            said(s, "  failed no .venv in this project; run setup first"@, true, k)
        },
        (StageView::Install(k), ReplyView::Ran(Ok(out))) => said(
            s,
            install_line(s.targets[k as int].pin.spec, out),
            !out.success,
            k,
        ),
        (StageView::Install(k), ReplyView::Ran(Err(e))) => stopped(s, e),
        _ => s,
    }
}

/// Every re-pinning begins sound and stays so.
pub proof fn repins_stay_sound(
    manager: PackageManager,
    venv: Seq<char>,
    os: Os,
    targets: Seq<TargetView>,
    s: RepinView,
    reply: ReplyView,
)
    ensures
        sound(begun(manager, venv, os, targets)),
        sound(s) ==> sound(after(s, reply)),
{
}

/// pip mode never downloads or invokes uv.
pub proof fn pip_mode_never_touches_uv(s: RepinView)
    requires
        sound(s),
        is_pip(s),
    ensures
        action_of(s) != ActionView::EnsureUv,
        action_of(s) matches ActionView::Run(i) ==> i.program == venv_python_spec(s.venv, s.os),
{
}

/// How much of a re-pinning is left.
pub open spec fn remaining(s: RepinView) -> nat {
    match s.stage {
        StageView::EnsureUv(k) => (2 * (s.targets.len() - k)) as nat,
        StageView::LookForVenv(k) => (2 * (s.targets.len() - k)) as nat,
        StageView::Install(k) => (2 * (s.targets.len() - k) - 1) as nat,
        StageView::Done => 0,
    }
}

/// Every answered action brings a re-pinning closer to its end, so it has one.
pub proof fn every_answer_makes_progress(s: RepinView, reply: ReplyView)
    requires
        sound(s),
        answers(action_of(s), reply),
    ensures
        remaining(after(s, reply)) < remaining(s),
{
}

impl Repin {
    #[verifier::type_invariant]
    spec fn is_sound(self) -> bool {
        sound(self@)
    }

    pub fn start(manager: PackageManager, venv: &str, os: Os, targets: Vec<Target>) -> (r: Repin)
        ensures
            r@ == begun(manager, venv@, os, target_views(targets@)),
    {
        let lines: Vec<String> = Vec::new();
        proof {
            assert(text::texts(lines@) =~= seq![]);
        }
        let s = Repin {
            manager,
            venv: venv.to_string(),
            os,
            targets,
            uv: None,
            stage: Stage::Done,
            lines,
            failed: false,
            error: None,
        };
        s.arrive(0)
    }

    fn arrive(self, k: usize) -> (r: Repin)
        ensures
            r@ == arrived(self@, k as nat),
    {
        let Repin { manager, venv, os, targets, uv, stage: _, mut lines, failed, error } = self;
        let ghost before = text::texts(lines@);
        if k >= targets.len() {
            return Repin {
                manager,
                venv,
                os,
                targets,
                uv,
                stage: Stage::Done,
                lines,
                failed,
                error,
            };
        }
        let stage = if manager == PackageManager::Pip {
            Stage::LookForVenv(k)
        } else {
            Stage::EnsureUv(k)
        };
        proof {
            assert(target_views(targets@)[k as int] == targets@[k as int]@);
            assert(before + seq![] =~= before);
        }
        if let Some(note) = &targets[k].note {
            let line = note.clone();
            proof {
                text::lemma_texts_push(lines@, line);
                assert(before.push(line@) =~= before + seq![line@]);
            }
            lines.push(line);
        }
        Repin { manager, venv, os, targets, uv, stage, lines, failed, error }
    }

    /// The action to perform next.
    pub fn next_action(&self) -> (r: Action)
        ensures
            r@ == action_of(self@),
    {
        proof {
            use_type_invariant(self);
        }
        match self.stage {
            Stage::EnsureUv(_) => Action::EnsureUv,
            Stage::LookForVenv(_) => Action::LookForVenv,
            Stage::Install(k) => {
                let p = &self.targets[k].pin;
                proof {
                    assert(self@.targets[k as int] == self.targets@[k as int]@);
                }
                let specs = vec![p.spec.clone()];
                proof {
                    assert(text::texts(specs@) =~= seq![p.spec@]);
                }
                let index_url = as_str(&p.index_url);
                if self.manager == PackageManager::Pip {
                    Action::Run(
                        pip::install_packages(self.venv.as_str(), self.os, &specs, index_url),
                    )
                } else {
                    match &self.uv {
                        Some(uv) => Action::Run(uv::pip_install(uv, &specs, index_url)),
                        None => Action::Done,
                    }
                }
            },
            Stage::Done => Action::Done,
        }
    }

    fn stop(self, e: String) -> (r: Repin)
        ensures
            r@ == stopped(self@, e@),
    {
        let Repin { manager, venv, os, targets, uv, stage: _, lines, failed, error: _ } = self;
        Repin { manager, venv, os, targets, uv, stage: Stage::Done, lines, failed, error: Some(e) }
    }

    fn say(self, line: String, went_wrong: bool, k: usize) -> (r: Repin)
        requires
            k < self@.targets.len(),
        ensures
            r@ == said(self@, line@, went_wrong, k as nat),
    {
        proof {
            use_type_invariant(&self);
        }
        let Repin { manager, venv, os, targets, uv, stage, mut lines, failed, error } = self;
        proof {
            text::lemma_texts_push(lines@, line);
        }
        lines.push(line);
        assert(k < targets.len());
        let s = Repin {
            manager,
            venv,
            os,
            targets,
            uv,
            stage,
            lines,
            failed: failed || went_wrong,
            error,
        };
        s.arrive(k + 1)
    }

    /// Take in what came of the action.
    pub fn advance(self, reply: Reply) -> (r: Repin)
        ensures
            r@ == after(self@, reply@),
    {
        proof {
            use_type_invariant(&self);
        }
        match (self.stage, reply) {
            (Stage::EnsureUv(k), Reply::Uv(result)) => match result {
                Ok(info) => {
                    let Repin { manager, venv, os, targets, uv: _, stage: _, lines, failed, error } =
                        self;
                    Repin {
                        manager,
                        venv,
                        os,
                        targets,
                        uv: Some(info),
                        stage: Stage::Install(k),
                        lines,
                        failed,
                        error,
                    }
                },
                Err(e) => self.stop(e),
            },
            (Stage::LookForVenv(k), Reply::Venv(there)) => if there {
                let Repin { manager, venv, os, targets, uv, stage: _, lines, failed, error } = self;
                Repin {
                    manager,
                    venv,
                    os,
                    targets,
                    uv,
                    stage: Stage::Install(k),
                    lines,
                    failed,
                    error,
                }
            } else {
                self.say(
                    "  failed no .venv in this project; run setup first".to_string(),
                    true,
                    k,
                )
            },
            (Stage::Install(k), Reply::Ran(ran)) => match ran {
                Ok(out) => {
                    proof {
                        assert(self@.targets[k as int] == self.targets@[k as int]@);
                    }
                    if out.success() {
                        let mut line = "  ok installed ".to_string();
                        line.append(self.targets[k].pin.spec.as_str());
                        self.say(line, false, k)
                    } else {
                        let mut line = "  failed ".to_string();
                        line.append(text::trim(out.stderr.as_str()));
                        self.say(line, true, k)
                    }
                },
                Err(e) => self.stop(e),
            },
            _ => self,
        }
    }

    /// What was said, and the error it ends with. Meant for when it is over.
    pub fn outcome(self) -> (r: (Vec<String>, Option<String>))
        ensures
            text::texts(r.0@) == self@.lines,
            text::opt_text(r.1) == if self@.error is Some {
                self@.error
            } else if self@.failed {
                Some("one or more installs did not finish, see above"@)
            } else {
                None
            },
    {
        let error = match self.error {
            Some(e) => Some(e),
            None => if self.failed {
                Some("one or more installs did not finish, see above".to_string())
            } else {
                None
            },
        };
        (self.lines, error)
    }
}

/// Each framework is re-pinned from its own index, in turn, and one that fails keeps none
/// of the others from it.
pub proof fn every_framework_is_repinned(s: RepinView, k: nat, uv: UvInfoView, out: OutputView)
    requires
        sound(s),
        s.manager != PackageManager::Pip,
        s.stage == StageView::EnsureUv(k),
    ensures
        ({
            let ready = after(s, ReplyView::Uv(Ok(uv)));
            let ran = after(ready, ReplyView::Ran(Ok(out)));
            let pin = s.targets[k as int].pin;
            &&& action_of(s) == ActionView::EnsureUv
            &&& action_of(ready) == ActionView::Run(
                InvocationView {
                    program: uv.path,
                    args: match pin.index_url {
                        Some(url) => seq!["pip"@, "install"@, "--index-url"@, url, pin.spec],
                        None => seq!["pip"@, "install"@, pin.spec],
                    },
                },
            )
            &&& ran.failed == (s.failed || !out.success)
            &&& k + 1 < s.targets.len() ==> ran.stage == StageView::EnsureUv(k + 1)
            &&& k + 1 == s.targets.len() ==> action_of(ran) == ActionView::Done
            &&& ran.error == s.error
        }),
{
    let ready = after(s, ReplyView::Uv(Ok(uv)));
    let pin = s.targets[k as int].pin;
    if let ActionView::Run(run) = action_of(ready) {
        match pin.index_url {
            Some(url) => {
                assert(run.args =~= seq!["pip"@, "install"@, "--index-url"@, url, pin.spec]);
            },
            None => {
                assert(run.args =~= seq!["pip"@, "install"@, pin.spec]);
            },
        }
    }
}

/// In pip mode each framework is re-pinned by the venv's own Python, and a project without
/// a venv is told of it.
pub proof fn pip_mode_repins_in_the_venv(s: RepinView, k: nat, out: OutputView)
    requires
        sound(s),
        s.manager == PackageManager::Pip,
        s.stage == StageView::LookForVenv(k),
    ensures
        ({
            let ready = after(s, ReplyView::Venv(true));
            let lost = after(s, ReplyView::Venv(false));
            let ran = after(ready, ReplyView::Ran(Ok(out)));
            let pin = s.targets[k as int].pin;
            &&& action_of(s) == ActionView::LookForVenv
            &&& action_of(ready) == ActionView::Run(
                InvocationView {
                    program: if s.os == Os::Windows {
                        s.venv + "\\Scripts\\python.exe"@
                    } else {
                        s.venv + "/bin/python"@
                    },
                    args: match pin.index_url {
                        Some(url) => seq![
                            "-m"@,
                            "pip"@,
                            "install"@,
                            "--index-url"@,
                            url,
                            pin.spec,
                        ],
                        None => seq!["-m"@, "pip"@, "install"@, pin.spec],
                    },
                },
            )
            &&& lost.failed
            &&& ran.failed == (s.failed || !out.success)
        }),
{
    let ready = after(s, ReplyView::Venv(true));
    let pin = s.targets[k as int].pin;
    if let ActionView::Run(run) = action_of(ready) {
        match pin.index_url {
            Some(url) => {
                assert(run.args =~= seq![
                    "-m"@,
                    "pip"@,
                    "install"@,
                    "--index-url"@,
                    url,
                    pin.spec,
                ]);
            },
            None => {
                assert(run.args =~= seq!["-m"@, "pip"@, "install"@, pin.spec]);
            },
        }
    }
}

/// A re-pinning begins with its first target, and with none it is over at once.
pub proof fn repins_begin_with_the_first(
    manager: PackageManager,
    venv: Seq<char>,
    os: Os,
    targets: Seq<TargetView>,
)
    ensures
        targets.len() == 0 ==> action_of(begun(manager, venv, os, targets)) == ActionView::Done,
        targets.len() > 0 ==> begun(manager, venv, os, targets).stage == if manager
            == PackageManager::Pip {
            StageView::LookForVenv(0)
        } else {
            StageView::EnsureUv(0)
        },
        !begun(manager, venv, os, targets).failed,
        begun(manager, venv, os, targets).error is None,
{
}

/// An install that fails is remembered as a failure, whatever comes after it; a
/// command that cannot be run, or a uv that cannot be had, ends the re-pinning.
pub proof fn failed_installs_are_remembered(
    s: RepinView,
    i: InvocationView,
    out: OutputView,
    e: Seq<char>,
    reply: ReplyView,
)
    ensures
        action_of(s) == ActionView::Run(i) && !out.success ==> after(
            s,
            ReplyView::Ran(Ok(out)),
        ).failed,
        action_of(s) == ActionView::Run(i) && out.success ==> after(
            s,
            ReplyView::Ran(Ok(out)),
        ).failed == s.failed,
        action_of(s) == ActionView::Run(i) ==> after(s, ReplyView::Ran(Err(e))).error == Some(e)
            && action_of(after(s, ReplyView::Ran(Err(e)))) == ActionView::Done,
        action_of(s) == ActionView::EnsureUv ==> after(s, ReplyView::Uv(Err(e))).error == Some(e)
            && action_of(after(s, ReplyView::Uv(Err(e)))) == ActionView::Done,
        action_of(s) == ActionView::LookForVenv ==> after(s, ReplyView::Venv(false)).failed,
        s.failed ==> after(s, reply).failed,
{
}

} // verus!
