//! What each command prints, and what it decides before it acts.

use vstd::prelude::*;

use crate::cli::doctor::{manager_name, manager_text};
use crate::cli::page::{
    no_lines, no_spans, pad, padded, plain, styled, truncate, truncated, Line, Page, SpanView, Style,
};
use crate::engine::flow::{step_views, Step, StepView};
use crate::engine::setup::SetupSummary;
use crate::engine::{Assessment, AssessmentView};
use crate::pypi::metadata::{PackageAnalysis, PackageAnalysisView};
use crate::pypi::pyversion::{highest, range_text, version_text, PyVersion};
use crate::settings::PackageManager;
use crate::text;

verus! {

// ---------------------------------------------------------------------------
// setup
// ---------------------------------------------------------------------------

/// What `pypilot setup` prints before it starts.
pub fn setup_header(workspace: &str, manager: PackageManager) -> (r: Line)
    ensures
        r@ == no_spans().push(styled("PyPilot setup"@, Style::CyanBold)).push(plain(" — "@)).push(
            plain(workspace@),
        ).push(plain(" ("@)).push(
            styled(manager_name(manager) + " mode"@, Style::Bold),
        ).push(plain(")"@)),
{
    let mut mode = manager_text(manager).to_string();
    mode.append(" mode");
    Line::new().with("PyPilot setup", Style::CyanBold).plain(" — ").plain(workspace).plain(
        " (",
    ).with(mode.as_str(), Style::Bold).plain(")")
}

/// How a step is shown in the summary of a setup.
pub open spec fn setup_step(s: StepView) -> Seq<SpanView> {
    no_spans().push(plain("  "@)).push(
        if s.ok {
            styled("✓"@, Style::GreenBold)
        } else {
            styled("✗"@, Style::RedBold)
        },
    ).push(plain(" "@)).push(styled(padded(s.name, 24), Style::Bold)).push(plain(" — "@)).push(
        plain(truncated(s.detail, 300)),
    )
}

pub open spec fn setup_steps(
    page: Seq<Seq<SpanView>>,
    v: Seq<StepView>,
    n: int,
) -> Seq<Seq<SpanView>>
    decreases n,
{
    if n <= 0 {
        page
    } else {
        setup_steps(page, v, n - 1).push(setup_step(v[n - 1]))
    }
}

/// The summary of a setup.
pub open spec fn setup_page(
    why: Seq<char>,
    steps: Seq<StepView>,
    ok: bool,
    venv: Seq<char>,
    python: Option<PyVersion>,
) -> Seq<Seq<SpanView>> {
    let page = if why.len() > 0 {
        no_lines().push(no_spans().push(plain("  "@)).push(styled(why, Style::Cyan)))
    } else {
        no_lines()
    };
    let page = page.push(
        no_spans().push(
            styled("── Steps ────────────────────────────────────────────────"@, Style::CyanBold),
        ),
    );
    let page = setup_steps(page, steps, steps.len() as int).push(no_spans());
    if ok {
        page.push(
            no_spans().push(plain("  "@)).push(styled("✓ Done."@, Style::GreenBold)).push(
                plain(" Environment at "@),
            ).push(plain(venv)).push(plain(" ("@)).push(
                match python {
                    Some(p) => styled("Python "@ + version_text(p), Style::CyanBold),
                    None => plain("system interpreter"@),
                },
            ).push(plain(")."@)),
        )
    } else {
        page
    }
}

/// What `pypilot setup` prints when it is through, and the error it ends with if
/// a step failed.
pub fn setup_report(summary: &SetupSummary) -> (r: (Page, Option<String>))
    ensures
        r.0@ == setup_page(
            summary.why@,
            step_views(summary.steps@),
            summary.ok,
            summary.venv_path@,
            summary.python,
        ),
        text::opt_text(r.1) == if summary.ok {
            None
        } else {
            Some("setup did not complete — see the steps above"@)
        },
{
    let mut page = Page::new();
    if summary.why.as_str().unicode_len() > 0 {
        page.add(Line::new().plain("  ").with(summary.why.as_str(), Style::Cyan));
    }
    page.add(
        Line::new().with(
            "── Steps ────────────────────────────────────────────────",
            Style::CyanBold,
        ),
    );
    let ghost first = page@;
    let ghost views = step_views(summary.steps@);
    let mut i: usize = 0;
    while i < summary.steps.len()
        invariant
            i <= summary.steps@.len(),
            views == step_views(summary.steps@),
            page@ == setup_steps(first, views, i as int),
        decreases summary.steps@.len() - i,
    {
        let s = &summary.steps[i];
        proof {
            assert(views[i as int] == s@);
        }
        let start = Line::new().plain("  ");
        let marked = if s.ok {
            start.with("✓", Style::GreenBold)
        } else {
            start.with("✗", Style::RedBold)
        };
        page.add(
            marked.plain(" ").with(pad(s.name.as_str(), 24).as_str(), Style::Bold).plain(
                " — ",
            ).plain(truncate(s.detail.as_str(), 300).as_str()),
        );
        i += 1;
    }
    page.add(Line::new());
    if !summary.ok {
        return (page, Some("setup did not complete — see the steps above".to_string()));
    }
    let start = Line::new().plain("  ").with("✓ Done.", Style::GreenBold).plain(
        " Environment at ",
    ).plain(summary.venv_path.as_str()).plain(" (");
    let named = match summary.python {
        Some(p) => {
            let mut s = "Python ".to_string();
            s.append(p.to_text().as_str());
            start.with(s.as_str(), Style::CyanBold)
        },
        None => start.plain("system interpreter"),
    };
    page.add(named.plain(")."));
    (page, None)
}

// ---------------------------------------------------------------------------
// check
// ---------------------------------------------------------------------------

/// Why `pypilot check` has nothing to go by.
pub fn check_failure(package: &str, error: &str) -> (r: String)
    ensures
        r@ == "PyPI has no usable metadata for `"@ + package@ + "`: "@ + error@,
{
    let mut out = "PyPI has no usable metadata for `".to_string();
    out.append(package);
    out.append("`: ");
    out.append(error);
    out
}

pub open spec fn check_label(name: Seq<char>) -> Seq<SpanView> {
    no_spans().push(plain("  "@)).push(plain(padded(name, 18))).push(plain(": "@))
}

fn label(name: &str) -> (r: Line)
    ensures
        r@ == check_label(name@),
{
    Line::new().plain("  ").plain(pad(name, 18).as_str()).plain(": ")
}

/// A version that would do, where there is one.
pub open spec fn suggestion(
    before: Seq<char>,
    supported: Set<u8>,
    after: Seq<char>,
) -> Seq<char> {
    match highest(supported) {
        Some(t) => before + version_text(t) + after,
        None => ""@,
    }
}

/// Whether the project's Python can run the package.
pub open spec fn verdict_line(a: PackageAnalysisView, current: Option<PyVersion>) -> Seq<SpanView> {
    match current {
        Some(py) => if py.major == 3 && a.supported.contains(py.minor) {
            no_spans().push(plain("  "@)).push(styled("✓"@, Style::GreenBold)).push(
                plain(" This project's Python "@),
            ).push(styled(version_text(py), Style::CyanBold)).push(plain(" can run "@)).push(
                styled(a.name, Style::Bold),
            ).push(plain("."@))
        } else {
            no_spans().push(plain("  "@)).push(styled("[ERROR]"@, Style::RedBold)).push(
                plain(" "@),
            ).push(styled(a.name, Style::Bold)).push(
                plain(" does not support this project's Python "@),
            ).push(styled(version_text(py), Style::YellowBold)).push(plain("."@)).push(
                styled(suggestion(" Use Python "@, a.supported, " instead."@), Style::Cyan),
            )
        },
        None => no_spans().push(plain("  "@)).push(styled("[INFO ]"@, Style::CyanBold)).push(
            plain(" This project has no virtual environment yet."@),
        ).push(styled(suggestion(" Python "@, a.supported, " would suit it."@), Style::Cyan)),
    }
}

/// What `pypilot check` prints.
pub open spec fn check_page(
    a: PackageAnalysisView,
    installed: bool,
    current: Option<PyVersion>,
) -> Seq<Seq<SpanView>> {
    let page = no_lines().push(
        no_spans().push(styled("PyPilot check —"@, Style::CyanBold)).push(plain(" "@)).push(
            styled(a.name, Style::Bold),
        ).push(plain(" ("@)).push(styled("v"@ + a.version, Style::Cyan)).push(plain(")"@)),
    ).push(
        no_spans().push(
            styled("── Package Details ──────────────────────────────────────"@, Style::CyanBold),
        ),
    ).push(
        check_label("supported Python"@).push(styled(range_text(a.supported), Style::GreenBold)),
    );
    let page = match a.requires_python {
        Some(rp) => page.push(check_label("requires-python"@).push(styled(rp, Style::Green))),
        None => page,
    };
    let page = if a.sdist_only {
        page.push(
            check_label("wheels"@).push(
                styled("none for this platform, will compile from source"@, Style::Yellow),
            ),
        )
    } else {
        page
    };
    page.push(
        check_label("installed"@).push(
            if installed {
                styled("yes"@, Style::GreenBold)
            } else {
                styled("no"@, Style::Yellow)
            },
        ),
    ).push(
        no_spans().push(
            styled("── Verdict ──────────────────────────────────────────────"@, Style::CyanBold),
        ),
    ).push(verdict_line(a, current))
}

fn suggest(before: &str, a: &PackageAnalysis, after: &str) -> (r: String)
    ensures
        r@ == suggestion(before@, a@.supported, after@),
{
    match a.supported.max() {
        Some(t) => {
            let mut s = before.to_string();
            s.append(t.to_text().as_str());
            s.append(after);
            s
        },
        None => "".to_string(),
    }
}

fn verdict(a: &PackageAnalysis, current: Option<PyVersion>) -> (r: Line)
    ensures
        r@ == verdict_line(a@, current),
{
    match current {
        Some(py) => if a.supported.contains(py) {
            Line::new().plain("  ").with("✓", Style::GreenBold).plain(
                " This project's Python ",
            ).with(py.to_text().as_str(), Style::CyanBold).plain(" can run ").with(
                a.name.as_str(),
                Style::Bold,
            ).plain(".")
        } else {
            let advice = suggest(" Use Python ", a, " instead.");
            Line::new().plain("  ").with("[ERROR]", Style::RedBold).plain(" ").with(
                a.name.as_str(),
                Style::Bold,
            ).plain(" does not support this project's Python ").with(
                py.to_text().as_str(),
                Style::YellowBold,
            ).plain(".").with(advice.as_str(), Style::Cyan)
        },
        None => {
            let advice = suggest(" Python ", a, " would suit it.");
            Line::new().plain("  ").with("[INFO ]", Style::CyanBold).plain(
                " This project has no virtual environment yet.",
            ).with(advice.as_str(), Style::Cyan)
        },
    }
}

/// Can this package run on the current environment?
pub fn check_report(a: &PackageAnalysis, installed: bool, current: Option<PyVersion>) -> (r: Page)
    ensures
        r@ == check_page(a@, installed, current),
{
    let mut version = "v".to_string();
    version.append(a.version.as_str());
    let mut page = Page::new();
    page.add(
        Line::new().with("PyPilot check —", Style::CyanBold).plain(" ").with(
            a.name.as_str(),
            Style::Bold,
        ).plain(" (").with(version.as_str(), Style::Cyan).plain(")"),
    );
    page.add(
        Line::new().with(
            "── Package Details ──────────────────────────────────────",
            Style::CyanBold,
        ),
    );
    page.add(
        label("supported Python").with(a.supported.to_range_string().as_str(), Style::GreenBold),
    );
    if let Some(rp) = &a.requires_python {
        page.add(label("requires-python").with(rp.as_str(), Style::Green));
    }
    if a.sdist_only {
        page.add(
            label("wheels").with("none for this platform, will compile from source", Style::Yellow),
        );
    }
    if installed {
        page.add(label("installed").with("yes", Style::GreenBold));
    } else {
        page.add(label("installed").with("no", Style::Yellow));
    }
    page.add(
        Line::new().with(
            "── Verdict ──────────────────────────────────────────────",
            Style::CyanBold,
        ),
    );
    page.add(verdict(a, current));
    page
}

// ---------------------------------------------------------------------------
// fix python, install
// ---------------------------------------------------------------------------

/// A step as `fix` and `install` list it.
pub open spec fn step_line(s: StepView) -> Seq<char> {
    "  "@ + (if s.ok {
        "ok"@
    } else {
        "failed"@
    }) + " "@ + s.name + " "@ + s.detail
}

pub open spec fn step_lines(v: Seq<StepView>) -> Seq<Seq<char>> {
    Seq::new(v.len(), |i: int| step_line(v[i]))
}

/// The steps of a flow, one line each.
pub fn list_steps(steps: &Vec<Step>) -> (r: Vec<String>)
    ensures
        text::texts(r@) == step_lines(step_views(steps@)),
{
    let mut out: Vec<String> = Vec::new();
    let mut i: usize = 0;
    while i < steps.len()
        invariant
            i <= steps@.len(),
            out@.len() == i,
            forall|j: int| 0 <= j < i ==> (#[trigger] out@[j])@ == step_line(steps@[j]@),
        decreases steps@.len() - i,
    {
        let mut line = "  ".to_string();
        if steps[i].ok {
            line.append("ok");
        } else {
            line.append("failed");
        }
        line.append(" ");
        line.append(steps[i].name.as_str());
        line.append(" ");
        line.append(steps[i].detail.as_str());
        out.push(line);
        i += 1;
    }
    proof {
        assert(text::texts(out@) =~= step_lines(step_views(steps@)));
    }
    out
}

/// What `pypilot fix python` is to do.
#[derive(Debug, PartialEq, Eq)]
pub enum PythonFix {
    /// There is no version to rebuild on; why.
    Refuse(String),
    /// The environment is right already; what to say.
    Nothing(String),
    /// Rebuild on this version, after saying this.
    Rebuild { target: PyVersion, lines: Vec<String> },
}

/// What is to be done, mathematically.
#[verifier::ext_equal]
pub enum PythonFixView {
    Refuse(Seq<char>),
    Nothing(Seq<char>),
    Rebuild { target: PyVersion, lines: Seq<Seq<char>> },
}

impl View for PythonFix {
    type V = PythonFixView;

    open spec fn view(&self) -> PythonFixView {
        match *self {
            PythonFix::Refuse(s) => PythonFixView::Refuse(s@),
            PythonFix::Nothing(s) => PythonFixView::Nothing(s@),
            PythonFix::Rebuild { target, lines } => PythonFixView::Rebuild {
                target,
                lines: text::texts(lines@),
            },
        }
    }
}

pub open spec fn python_fix_of(a: AssessmentView, installed: nat) -> PythonFixView {
    match a.compat {
        None => PythonFixView::Refuse(
            "no declared dependencies here, so there is no version to solve for"@,
        ),
        Some(c) => if c.intersection == Set::<u8>::empty() {
            PythonFixView::Refuse(
                if c.conflicts.len() > 0 {
                    c.conflicts[0].explanation
                } else {
                    "the dependencies share no supported Python version"@
                },
            )
        } else {
            match a.target_python {
                None => PythonFixView::Refuse("could not determine a target Python version"@),
                Some(target) => {
                    let current = match a.venv {
                        Some(v) => v.1,
                        None => None,
                    };
                    if current == Some(target) {
                        PythonFixView::Nothing(
                            "Already on Python "@ + version_text(target) + ". Nothing to do."@,
                        )
                    } else {
                        let first = "Rebuilding on Python "@ + version_text(target)
                            + ". Dependencies support "@ + range_text(c.intersection) + "."@;
                        PythonFixView::Rebuild {
                            target,
                            lines: if installed > 0 {
                                seq![
                                    first,
                                    text::decimal_spec(installed)
                                        + " installed packages will be reinstalled."@,
                                ]
                            } else {
                                seq![first]
                            },
                        }
                    }
                },
            }
        },
    }
}

/// Decide what `pypilot fix python` is to do, given how many packages the venv
/// holds.
pub fn python_fix(a: &Assessment, installed: usize) -> (r: PythonFix)
    ensures
        r@ == python_fix_of(a@, installed as nat),
{
    let compat = match &a.compat {
        Some(c) => c,
        None => return PythonFix::Refuse(
            "no declared dependencies here, so there is no version to solve for".to_string(),
        ),
    };
    if compat.intersection.is_empty() {
        if compat.conflicts.len() > 0 {
            return PythonFix::Refuse(compat.conflicts[0].explanation.clone());
        }
        return PythonFix::Refuse(
            "the dependencies share no supported Python version".to_string(),
        );
    }
    let target = match a.target_python {
        Some(t) => t,
        None => return PythonFix::Refuse(
            "could not determine a target Python version".to_string(),
        ),
    };
    let current = match &a.probes.venv {
        Some(v) => v.python,
        None => None,
    };
    let settled = match current {
        Some(py) => py == target,
        None => false,
    };
    if settled {
        let mut s = "Already on Python ".to_string();
        s.append(target.to_text().as_str());
        s.append(". Nothing to do.");
        return PythonFix::Nothing(s);
    }
    let mut first = "Rebuilding on Python ".to_string();
    first.append(target.to_text().as_str());
    first.append(". Dependencies support ");
    first.append(compat.intersection.to_range_string().as_str());
    first.append(".");
    let ghost shown = first@;
    if installed > 0 {
        let mut second = text::decimal(installed as u64);
        second.append(" installed packages will be reinstalled.");
        let lines = vec![first, second];
        proof {
            assert(text::texts(lines@) =~= seq![shown, lines@[1]@]);
        }
        PythonFix::Rebuild { target, lines }
    } else {
        let lines = vec![first];
        proof {
            assert(text::texts(lines@) =~= seq![shown]);
        }
        PythonFix::Rebuild { target, lines }
    }
}

/// What `pypilot fix python` ends with: the last line, or the error.
pub fn rebuild_outcome(target: PyVersion, ok: bool) -> (r: Result<String, String>)
    ensures
        match r {
            Ok(s) => ok && s@ == "\nEnvironment now runs Python "@ + version_text(target) + "."@,
            Err(e) => !ok && e@ == "the rebuild did not finish, see the steps above"@,
        },
{
    if ok {
        let mut s = "\nEnvironment now runs Python ".to_string();
        s.append(target.to_text().as_str());
        s.append(".");
        Ok(s)
    } else {
        Err("the rebuild did not finish, see the steps above".to_string())
    }
}

// ---------------------------------------------------------------------------
// migrate-conda, update-data
// ---------------------------------------------------------------------------

/// Refuse a migration that has nothing to go by, or that would overwrite
/// something the user might still need.
pub fn check_migration(
    has_conda_env: bool,
    has_pyproject: bool,
    workspace: &str,
    target: &str,
) -> (r: Result<(), String>)
    ensures
        match r {
            Ok(_) => has_conda_env && !has_pyproject,
            Err(e) => if !has_conda_env {
                e@ == "no environment.yml found in "@ + workspace@
            } else {
                has_pyproject && e@ == target@
                    + " already exists; migrate-conda never overwrites an existing pyproject.toml"@
            },
        },
{
    if !has_conda_env {
        let mut e = "no environment.yml found in ".to_string();
        e.append(workspace);
        return Err(e);
    }
    if has_pyproject {
        let mut e = target.to_string();
        e.append(" already exists; migrate-conda never overwrites an existing pyproject.toml");
        return Err(e);
    }
    Ok(())
}

/// What `pypilot migrate-conda` says when the file is written.
pub fn migration_report(target: &str, carried_over: usize) -> (r: String)
    ensures
        r@ == "Wrote "@ + target@ + "\n\n"@ + text::decimal_spec(carried_over as nat)
            + " dependencies carried over as-is from environment.yml.\nConda package names do not always match their PyPI name, and some have no PyPI equivalent at all, so review the dependencies list before running `pypilot setup`.\n\nThe environment.yml was left in place; delete it once you're satisfied."@,
{
    let mut s = "Wrote ".to_string();
    s.append(target);
    s.append("\n\n");
    s.append(text::decimal(carried_over as u64).as_str());
    s.append(
        " dependencies carried over as-is from environment.yml.\nConda package names do not always match their PyPI name, and some have no PyPI equivalent at all, so review the dependencies list before running `pypilot setup`.\n\nThe environment.yml was left in place; delete it once you're satisfied.",
    );
    s
}

/// How the refresh of one dataset went.
pub type Refreshed = (String, Result<(), String>);

/// A refresh as it is listed.
pub open spec fn refresh_line(r: Refreshed) -> Seq<char> {
    match r.1 {
        Ok(_) => "  ok    "@ + r.0@,
        Err(e) => "  failed "@ + r.0@ + ": "@ + e@,
    }
}

pub open spec fn any_failed(v: Seq<Refreshed>) -> bool {
    exists|i: int| 0 <= i < v.len() && (#[trigger] v[i]).1 is Err
}

/// What `pypilot update-data` prints.
pub open spec fn refresh_lines(v: Seq<Refreshed>) -> Seq<Seq<char>> {
    Seq::new(v.len(), |i: int| refresh_line(v[i])).push(
        if any_failed(v) {
            "\nOne or more datasets could not be refreshed; PyPilot keeps using the bundled snapshot for those."@
        } else {
            "\nAll datasets refreshed."@
        },
    )
}

pub fn refresh_report(results: &Vec<Refreshed>) -> (r: Vec<String>)
    ensures
        text::texts(r@) == refresh_lines(results@),
{
    let mut out: Vec<String> = Vec::new();
    let mut failed = false;
    let mut i: usize = 0;
    while i < results.len()
        invariant
            i <= results@.len(),
            out@.len() == i,
            forall|j: int| 0 <= j < i ==> (#[trigger] out@[j])@ == refresh_line(results@[j]),
            failed == exists|j: int| 0 <= j < i && (#[trigger] results@[j]).1 is Err,
        decreases results@.len() - i,
    {
        let ghost was = failed;
        match &results[i].1 {
            Ok(_) => {
                let mut line = "  ok    ".to_string();
                line.append(results[i].0.as_str());
                out.push(line);
            },
            Err(e) => {
                failed = true;
                let mut line = "  failed ".to_string();
                line.append(results[i].0.as_str());
                line.append(": ");
                line.append(e.as_str());
                out.push(line);
            },
        }
        proof {
            if was {
                let j = choose|j: int| 0 <= j < i && (#[trigger] results@[j]).1 is Err;
                assert(results@[j].1 is Err);
            }
            if failed && !was {
                assert(results@[i as int].1 is Err);
            }
        }
        i += 1;
    }
    let last = if failed {
        "\nOne or more datasets could not be refreshed; PyPilot keeps using the bundled snapshot for those.".to_string()
    } else {
        "\nAll datasets refreshed.".to_string()
    };
    out.push(last);
    proof {
        assert(text::texts(out@) =~= refresh_lines(results@));
    }
    out
}

/// `fix python` refuses where there is nothing to solve for or no version suits all, does
/// nothing where the venv is on the target already, and else rebuilds on the target.
pub proof fn python_is_fixed_on_the_target(a: AssessmentView, installed: nat, m: u8)
    ensures
        a.compat is None ==> python_fix_of(a, installed) is Refuse,
        a.compat is Some && (forall|k: u8| !(#[trigger] a.compat->0.intersection.contains(k)))
            ==> python_fix_of(a, installed) is Refuse,
        a.compat is Some && a.compat->0.intersection.contains(m) && a.target_python is Some
            && a.venv is Some && (a.venv->0).1 == a.target_python ==> python_fix_of(a, installed)
            is Nothing,
        a.compat is Some && a.compat->0.intersection.contains(m) && a.target_python is Some && (
        a.venv is None || (a.venv->0).1 != a.target_python) ==> python_fix_of(a, installed)
            is Rebuild && python_fix_of(a, installed)->Rebuild_target == a.target_python->0,
{
    if a.compat is Some && (forall|k: u8| !(#[trigger] a.compat->0.intersection.contains(k))) {
        assert(a.compat->0.intersection =~= Set::<u8>::empty());
    }
}

/// A step is listed by its name and its detail, and a failure as one.
pub proof fn steps_are_listed_as_they_went(v: Seq<StepView>, i: int)
    requires
        0 <= i < v.len(),
    ensures
        step_lines(v).len() == v.len(),
        v[i].ok ==> step_lines(v)[i] == "  ok "@ + v[i].name + " "@ + v[i].detail,
        !v[i].ok ==> step_lines(v)[i] == "  failed "@ + v[i].name + " "@ + v[i].detail,
{
    reveal_strlit("  ");
    reveal_strlit(" ");
    reveal_strlit("ok");
    reveal_strlit("failed");
    reveal_strlit("  ok ");
    reveal_strlit("  failed ");
    assert("  "@ + "ok"@ + " "@ =~= "  ok "@);
    assert("  "@ + "failed"@ + " "@ =~= "  failed "@);
}

/// What could not be refreshed is named, and all is said to be well only where it is.
pub proof fn refreshes_that_fail_are_named(v: Seq<Refreshed>, i: int)
    requires
        0 <= i < v.len(),
    ensures
        refresh_lines(v).len() == v.len() + 1,
        v[i].1 is Err ==> refresh_lines(v)[i] == "  failed "@ + v[i].0@ + ": "@ + v[i].1->Err_0@,
        v[i].1 is Ok ==> refresh_lines(v)[i] == "  ok    "@ + v[i].0@,
        refresh_lines(v).last() == "\nAll datasets refreshed."@ <==> forall|j: int|
            0 <= j < v.len() ==> (#[trigger] v[j]).1 is Ok,
{
    reveal_strlit("\nAll datasets refreshed.");
    reveal_strlit(
        "\nOne or more datasets could not be refreshed; PyPilot keeps using the bundled snapshot for those.",
    );
    if any_failed(v) {
        let j = choose|j: int| 0 <= j < v.len() && (#[trigger] v[j]).1 is Err;
        assert(!(v[j].1 is Ok));
        assert(refresh_lines(v).last()[1] == 'O');
    }
}

/// A check ends by saying whether the package runs on the project's Python, which it
/// does exactly where it supports that version, and names both.
pub proof fn checks_end_with_whether_it_runs(
    a: PackageAnalysisView,
    installed: bool,
    py: PyVersion,
)
    ensures
        ({
            let line = check_page(a, installed, Some(py)).last();
            if py.major == 3 && a.supported.contains(py.minor) {
                &&& line.len() == 7
                &&& line[1].text == "✓"@
                &&& line[3].text == version_text(py)
                &&& line[5].text == a.name
            } else {
                &&& line.len() == 8
                &&& line[1].text == "[ERROR]"@
                &&& line[3].text == a.name
                &&& line[5].text == version_text(py)
            }
        }),
{
}

/// A check tells the package, its version, the Pythons it supports and whether it is
/// installed.
pub proof fn checks_tell_what_was_found(
    a: PackageAnalysisView,
    installed: bool,
    current: Option<PyVersion>,
)
    ensures
        ({
            let page = check_page(a, installed, current);
            &&& page[0][2].text == a.name
            &&& page[0][4].text == "v"@ + a.version
            &&& page[2][3].text == range_text(a.supported)
            &&& page[page.len() - 3][1].text == padded("installed"@, 18)
            &&& page[page.len() - 3][3].text == if installed {
                "yes"@
            } else {
                "no"@
            }
            &&& a.sdist_only ==> page[page.len() - 4][1].text == padded("wheels"@, 18)
        }),
{
}

/// A package that does not run on the project's Python is offered the newest that it
/// runs on, where there is one.
pub proof fn checks_offer_the_newest_python(a: PackageAnalysisView, py: PyVersion, m: u8)
    requires
        a.supported.subset_of(crate::pypi::pyversion::universe_minors()),
        a.supported.contains(m),
        forall|k: u8| #[trigger] a.supported.contains(k) ==> k <= m,
        !(py.major == 3 && a.supported.contains(py.minor)),
    ensures
        ({
            let newest = version_text(PyVersion { major: 3, minor: m });
            &&& check_page(a, true, Some(py)).last().last().text == " Use Python "@ + newest
                + " instead."@
            &&& check_page(a, false, None).last().last().text == " Python "@ + newest
                + " would suit it."@
        }),
{
    crate::pypi::pyversion::highest_is_the_newest_member(a.supported);
}

} // verus!
