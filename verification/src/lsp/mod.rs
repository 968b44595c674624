//! What the language server decides and says: workspace onboarding and the live
//! import guardian.
//!
//! On workspace open, a probe and compatibility pass raises at most one
//! notification with `[Fix everything] [Show details] [Ignore] [Never for this
//! project]`. If the environment is already correct it stays quiet. On Python
//! buffers, imports that cannot resolve become diagnostics with quick fixes.

pub mod diagnostics;

use vstd::prelude::*;

use crate::engine::flow::{step_views, Step, StepView};
use crate::engine::install::validate_package_name;
use crate::engine::interpreter::{Interpreter, InterpreterView};
use crate::engine::setup::SetupSummary;
use crate::engine::{
    any_of, worst, Assessment, AssessmentView, Finding, FindingView, FixKind, Severity,
};
use crate::lsp::diagnostics::{CMD_INSTALL, CMD_RECREATE};
use crate::pypi::metadata::{PackageAnalysis, PackageAnalysisView};
use crate::pypi::pyversion::{parse_version_spec, range_text, version_text, PyVersion};
use crate::pypi::analysis_views;
use crate::settings::{Notifications, Settings};
use crate::text;

verus! {

/// Command IDs of the notification's buttons.
pub const CMD_FIX: &'static str = "pypilot.fixEverything";

pub const CMD_DETAILS: &'static str = "pypilot.showDetails";

pub const CMD_IGNORE: &'static str = "pypilot.ignore";

pub const CMD_NEVER: &'static str = "pypilot.neverForProject";

/// Notification button labels.
pub const BTN_FIX: &'static str = "Fix everything";

pub const BTN_DETAILS: &'static str = "Show details";

pub const BTN_IGNORE: &'static str = "Ignore";

pub const BTN_NEVER: &'static str = "Never for this project";

// ---------------------------------------------------------------------------
// Whether to scan, and what to say
// ---------------------------------------------------------------------------

/// Whether the workspace is to be scanned at all. `explicit` means the user
/// asked, which lifts the silence rules.
pub fn should_scan(settings: &Settings, explicit: bool) -> (r: bool)
    ensures
        r == (explicit || (settings.notifications != Notifications::Off && !settings.dismissed
            && settings.auto_check_on_open)),
{
    explicit || (settings.notifications != Notifications::Off && !settings.dismissed
        && settings.auto_check_on_open)
}

/// What a scan comes to.
#[derive(Debug, PartialEq, Eq)]
pub enum Notice {
    Quiet,
    /// A message without buttons.
    Inform(String),
    /// A notification with the four buttons.
    Toast { severity: Severity, summary: String },
}

/// A notice, mathematically.
#[verifier::ext_equal]
pub enum NoticeView {
    Quiet,
    Inform(Seq<char>),
    Toast { severity: Severity, summary: Seq<char> },
}

impl View for Notice {
    type V = NoticeView;

    open spec fn view(&self) -> NoticeView {
        match *self {
            Notice::Quiet => NoticeView::Quiet,
            Notice::Inform(s) => NoticeView::Inform(s@),
            Notice::Toast { severity, summary } => NoticeView::Toast {
                severity,
                summary: summary@,
            },
        }
    }
}

/// Whether the findings are worth a notification: under `all` any finding is,
/// otherwise only warnings and errors.
pub open spec fn speaks(findings: Seq<FindingView>, level: Notifications) -> bool {
    if level == Notifications::All {
        findings.len() > 0
    } else {
        any_of(findings, Severity::Error) || any_of(findings, Severity::Warning)
    }
}

/// What a scan comes to. A clean result is confirmed only to a user who asked.
pub open spec fn notice_of(a: AssessmentView, level: Notifications, explicit: bool) -> NoticeView {
    if a.sources.len() == 0 {
        if explicit {
            NoticeView::Inform("PyPilot: no Python project files found in this workspace."@)
        } else {
            NoticeView::Quiet
        }
    } else if speaks(a.findings, level) {
        NoticeView::Toast {
            severity: match worst(a.findings) {
                Some(s) => s,
                None => Severity::Info,
            },
            summary: toast_text(a.findings),
        }
    } else if explicit {
        NoticeView::Inform(all_good_text(a))
    } else {
        NoticeView::Quiet
    }
}

/// Decide what to tell the user about an assessment.
pub fn notice(a: &Assessment, level: Notifications, explicit: bool) -> (r: Notice)
    ensures
        r@ == notice_of(a@, level, explicit),
{
    if !a.project.is_python_project() {
        if explicit {
            return Notice::Inform(
                "PyPilot: no Python project files found in this workspace.".to_string(),
            );
        }
        return Notice::Quiet;
    }
    let speaks = if level == Notifications::All {
        a.findings.len() > 0
    } else {
        !a.all_good()
    };
    if speaks {
        let severity = match a.worst_severity() {
            Some(s) => s,
            None => Severity::Info,
        };
        Notice::Toast { severity, summary: toast_summary(a) }
    } else if explicit {
        Notice::Inform(all_good_summary(a))
    } else {
        Notice::Quiet
    }
}

/// Silence contract: a project whose findings hold no warning and no error is
/// never notified about unasked, unless notes were asked for.
pub proof fn clean_projects_stay_silent(a: AssessmentView, level: Notifications)
    requires
        !any_of(a.findings, Severity::Error),
        !any_of(a.findings, Severity::Warning),
        level != Notifications::All || a.findings.len() == 0,
    ensures
        notice_of(a, level, false) == NoticeView::Quiet,
{
}

/// A problem in a Python project that is scanned is always notified, as what it
/// is: an error as an error, a warning as a warning where there is no error.
pub proof fn problems_are_never_swallowed(a: AssessmentView, level: Notifications, explicit: bool)
    requires
        a.sources.len() > 0,
        any_of(a.findings, Severity::Error) || any_of(a.findings, Severity::Warning),
    ensures
        notice_of(a, level, explicit) == (NoticeView::Toast {
            severity: if any_of(a.findings, Severity::Error) {
                Severity::Error
            } else {
                Severity::Warning
            },
            summary: toast_text(a.findings),
        }),
{
}

// ---------------------------------------------------------------------------
// Texts
// ---------------------------------------------------------------------------

/// Confirmation for an explicitly requested scan that found nothing wrong.
pub open spec fn all_good_text(a: AssessmentView) -> Seq<char> {
    let venv = match a.venv {
        Some((_, Some(p))) => "Python "@ + version_text(p) + " venv"@,
        _ => "environment"@,
    };
    match a.compat {
        Some(c) => "PyPilot: everything looks good. The "@ + venv
            + " is compatible, and dependencies support "@ + range_text(c.intersection) + "."@,
        None => "PyPilot: everything looks good. The "@ + venv + " is in place."@,
    }
}

pub fn all_good_summary(a: &Assessment) -> (r: String)
    ensures
        r@ == all_good_text(a@),
{
    let python = match &a.probes.venv {
        Some(v) => v.python,
        None => None,
    };
    let venv = match python {
        Some(p) => {
            let mut s = "Python ".to_string();
            s.append(p.to_text().as_str());
            s.append(" venv");
            s
        },
        None => "environment".to_string(),
    };
    let mut out = "PyPilot: everything looks good. The ".to_string();
    out.append(venv.as_str());
    match &a.compat {
        Some(c) => {
            out.append(" is compatible, and dependencies support ");
            out.append(c.intersection.to_range_string().as_str());
            out.append(".");
        },
        None => {
            out.append(" is in place.");
        },
    }
    out
}

pub open spec fn of_severity(s: Severity) -> spec_fn(FindingView) -> Option<FindingView> {
    |f: FindingView|
        if f.severity == s {
            Some(f)
        } else {
            None
        }
}

/// The finding a notification leads with: the first error, else the first
/// warning, else the first note.
pub open spec fn primary(findings: Seq<FindingView>) -> Option<FindingView> {
    let error = text::first_some(findings, of_severity(Severity::Error));
    let warning = text::first_some(findings, of_severity(Severity::Warning));
    if error is Some {
        error
    } else if warning is Some {
        warning
    } else {
        text::first_some(findings, of_severity(Severity::Info))
    }
}

/// One line for the notification, always naming the package that caused it.
pub open spec fn toast_text(findings: Seq<FindingView>) -> Seq<char> {
    match primary(findings) {
        Some(f) => "PyPilot: "@ + f.title + ". "@ + f.detail,
        None => "PyPilot: this project needs attention."@,
    }
}

fn first_of_severity(findings: &Vec<Finding>, s: Severity) -> (r: Option<usize>)
    ensures
        match r {
            Some(i) => i < findings@.len() && text::first_some(
                crate::engine::finding_views(findings@),
                of_severity(s),
            ) == Some(findings@[i as int]@),
            None => text::first_some(
                crate::engine::finding_views(findings@),
                of_severity(s),
            ) is None,
        },
{
    let ghost views = crate::engine::finding_views(findings@);
    let mut i: usize = 0;
    while i < findings.len()
        invariant
            i <= findings@.len(),
            views == crate::engine::finding_views(findings@),
            forall|j: int| 0 <= j < i ==> of_severity(s)(#[trigger] views[j]) is None,
        decreases findings@.len() - i,
    {
        proof {
            assert(views[i as int] == findings@[i as int]@);
        }
        if findings[i].severity == s {
            proof {
                text::lemma_first_some_at(views, of_severity(s), i as int);
            }
            return Some(i);
        }
        i += 1;
    }
    proof {
        text::lemma_first_some_at(views, of_severity(s), i as int);
    }
    None
}

pub fn toast_summary(a: &Assessment) -> (r: String)
    ensures
        r@ == toast_text(a@.findings),
{
    let mut lead = first_of_severity(&a.findings, Severity::Error);
    if lead.is_none() {
        lead = first_of_severity(&a.findings, Severity::Warning);
    }
    if lead.is_none() {
        lead = first_of_severity(&a.findings, Severity::Info);
    }
    match lead {
        Some(i) => {
            let f = &a.findings[i];
            let mut out = "PyPilot: ".to_string();
            out.append(f.title.as_str());
            out.append(". ");
            out.append(f.detail.as_str());
            out
        },
        None => "PyPilot: this project needs attention.".to_string(),
    }
}

// ---------------------------------------------------------------------------
// The report behind "Show details"
// ---------------------------------------------------------------------------

/// The versions of the interpreters, for people.
pub open spec fn interpreters_text(v: Seq<InterpreterView>) -> Seq<char> {
    if v.len() == 0 {
        "none"@
    } else {
        text::join_spec(Seq::new(v.len(), |i: int| version_text(v[i].version)), ", "@)
    }
}

fn interpreter_list(interpreters: &Vec<Interpreter>) -> (r: String)
    ensures
        r@ == interpreters_text(crate::engine::interpreter::interpreter_views(interpreters@)),
{
    let ghost views = crate::engine::interpreter::interpreter_views(interpreters@);
    if interpreters.len() == 0 {
        return "none".to_string();
    }
    let mut names: Vec<String> = Vec::new();
    let mut i: usize = 0;
    while i < interpreters.len()
        invariant
            i <= interpreters@.len(),
            names@.len() == i,
            views == crate::engine::interpreter::interpreter_views(interpreters@),
            forall|j: int|
                0 <= j < i ==> (#[trigger] names@[j])@ == version_text(views[j].version),
        decreases interpreters@.len() - i,
    {
        names.push(interpreters[i].version.to_text());
        i += 1;
    }
    proof {
        assert(text::texts(names@) =~= Seq::new(
            views.len(),
            |i: int| version_text(views[i].version),
        ));
    }
    text::join(&names, ", ")
}

/// The first `n` rows of the package table.
pub open spec fn package_rows(v: Seq<PackageAnalysisView>, n: int) -> Seq<char>
    decreases n,
{
    if n <= 0 {
        seq![]
    } else {
        package_rows(v, n - 1) + "| "@ + v[n - 1].name + " | "@ + range_text(v[n - 1].supported)
            + " |\n"@
    }
}

fn append_rows(out: &mut String, packages: &Vec<PackageAnalysis>)
    ensures
        final(out)@ == old(out)@ + package_rows(
            analysis_views(packages@),
            packages@.len() as int,
        ),
{
    let ghost head = out@;
    let ghost views = analysis_views(packages@);
    let mut i: usize = 0;
    proof {
        assert(head + package_rows(views, 0) =~= head);
    }
    while i < packages.len()
        invariant
            i <= packages@.len(),
            views == analysis_views(packages@),
            out@ == head + package_rows(views, i as int),
        decreases packages@.len() - i,
    {
        let p = &packages[i];
        let range = p.supported.to_range_string();
        let ghost before = package_rows(views, i as int);
        out.append("| ");
        out.append(p.name.as_str());
        out.append(" | ");
        out.append(range.as_str());
        out.append(" |\n");
        proof {
            assert(views[i as int] == p@);
            assert(out@ =~= head + (before + "| "@ + p.name@ + " | "@ + range@ + " |\n"@));
        }
        i += 1;
    }
}

pub open spec fn severity_word(s: Severity) -> Seq<char> {
    match s {
        Severity::Error => "Error"@,
        Severity::Warning => "Warning"@,
        Severity::Info => "Note"@,
    }
}

pub open spec fn fix_note(fix: FixKind) -> Seq<char> {
    match fix {
        FixKind::RecreateWithPython(v) => "\n_Fix: rebuild the environment on Python "@
            + version_text(v) + "._\n"@,
        FixKind::SetupEnvironment => "\n_Fix: run \"Fix everything\", or `pypilot setup`._\n"@,
        FixKind::MigrateConda => "\n_Fix: run `pypilot migrate-conda`._\n"@,
        FixKind::Manual => ""@,
    }
}

/// The first `n` findings, each with its fix.
pub open spec fn finding_sections(v: Seq<FindingView>, n: int) -> Seq<char>
    decreases n,
{
    if n <= 0 {
        seq![]
    } else {
        finding_sections(v, n - 1) + "### "@ + severity_word(v[n - 1].severity) + ": "@
            + v[n - 1].title + "\n"@ + v[n - 1].detail + "\n"@ + fix_note(v[n - 1].fix) + "\n"@
    }
}

fn fix_text(fix: FixKind) -> (r: String)
    ensures
        r@ == fix_note(fix),
{
    match fix {
        FixKind::RecreateWithPython(v) => {
            let mut s = "\n_Fix: rebuild the environment on Python ".to_string();
            s.append(v.to_text().as_str());
            s.append("._\n");
            s
        },
        FixKind::SetupEnvironment => "\n_Fix: run \"Fix everything\", or `pypilot setup`._\n".to_string(),
        FixKind::MigrateConda => "\n_Fix: run `pypilot migrate-conda`._\n".to_string(),
        FixKind::Manual => "".to_string(),
    }
}

fn append_findings(out: &mut String, findings: &Vec<Finding>)
    ensures
        final(out)@ == old(out)@ + finding_sections(
            crate::engine::finding_views(findings@),
            findings@.len() as int,
        ),
{
    let ghost head = out@;
    let ghost views = crate::engine::finding_views(findings@);
    let mut i: usize = 0;
    proof {
        assert(head + finding_sections(views, 0) =~= head);
    }
    while i < findings.len()
        invariant
            i <= findings@.len(),
            views == crate::engine::finding_views(findings@),
            out@ == head + finding_sections(views, i as int),
        decreases findings@.len() - i,
    {
        let f = &findings[i];
        let ghost before = finding_sections(views, i as int);
        let word = match f.severity {
            Severity::Error => "Error",
            Severity::Warning => "Warning",
            Severity::Info => "Note",
        };
        let note = fix_text(f.fix);
        out.append("### ");
        out.append(word);
        out.append(": ");
        out.append(f.title.as_str());
        out.append("\n");
        out.append(f.detail.as_str());
        out.append("\n");
        out.append(note.as_str());
        out.append("\n");
        proof {
            assert(views[i as int] == f@);
            assert(out@ =~= head + (before + "### "@ + word@ + ": "@ + f.title@ + "\n"@ + f.detail@
                + "\n"@ + note@ + "\n"@));
        }
        i += 1;
    }
}

/// The compatibility part of the report.
pub open spec fn compat_section(a: AssessmentView) -> Seq<char> {
    match a.compat {
        Some(c) => {
            let head = "## Compatibility\n- Supported Python across dependencies: **"@
                + range_text(c.intersection) + "**\n"@;
            let target = match a.target_python {
                Some(t) => head + "- Recommended interpreter: **Python "@ + version_text(t)
                    + "**\n"@,
                None => head,
            };
            target + "\n| Package | Supported Python |\n|---|---|\n"@ + package_rows(
                c.per_package,
                c.per_package.len() as int,
            ) + "\n"@
        },
        None => seq![],
    }
}

/// The whole report.
pub open spec fn report_text(a: AssessmentView) -> Seq<char> {
    let uv = match a.uv {
        Some(u) => "v"@ + u.version,
        None => "not detected"@,
    };
    let venv = match a.venv {
        Some(v) => v.0,
        None => "none"@,
    };
    let environment = "# PyPilot report\n\n## Environment\n- uv: "@ + uv + "\n- virtualenv: "@ + venv
        + "\n- interpreters: "@ + interpreters_text(a.interpreters) + "\n\n"@;
    let head = environment + compat_section(a) + "## Findings\n"@;
    if a.findings.len() == 0 {
        head + "Everything looks good.\n"@
    } else {
        head + finding_sections(a.findings, a.findings.len() as int)
    }
}

fn compat_markdown(a: &Assessment) -> (r: String)
    ensures
        r@ == compat_section(a@),
{
    match &a.compat {
        Some(c) => {
            let mut s = "## Compatibility\n- Supported Python across dependencies: **".to_string();
            s.append(c.intersection.to_range_string().as_str());
            s.append("**\n");
            if let Some(t) = a.target_python {
                s.append("- Recommended interpreter: **Python ");
                s.append(t.to_text().as_str());
                s.append("**\n");
            }
            s.append("\n| Package | Supported Python |\n|---|---|\n");
            append_rows(&mut s, &c.per_package);
            s.append("\n");
            s
        },
        None => {
            let s = String::new();
            proof {
                assert(s@ =~= seq![]);
            }
            s
        },
    }
}

/// The report behind "Show details".
pub fn details_markdown(a: &Assessment) -> (r: String)
    ensures
        r@ == report_text(a@),
{
    let mut s = "# PyPilot report\n\n## Environment\n- uv: ".to_string();
    match &a.probes.uv {
        Some(u) => {
            let mut shown = "v".to_string();
            shown.append(u.version.as_str());
            s.append(shown.as_str());
        },
        None => {
            s.append("not detected");
        },
    }
    s.append("\n- virtualenv: ");
    match &a.probes.venv {
        Some(v) => {
            s.append(v.path.as_str());
        },
        None => {
            s.append("none");
        },
    }
    s.append("\n- interpreters: ");
    s.append(interpreter_list(&a.probes.interpreters).as_str());
    s.append("\n\n");
    s.append(compat_markdown(a).as_str());
    s.append("## Findings\n");
    if a.findings.len() == 0 {
        s.append("Everything looks good.\n");
    } else {
        append_findings(&mut s, &a.findings);
    }
    s
}

// ---------------------------------------------------------------------------
// Buttons and commands
// ---------------------------------------------------------------------------

/// What the user picked.
#[derive(Debug, Clone, Copy, PartialEq, Eq, Structural)]
pub enum Choice {
    Fix,
    Details,
    Never,
    /// Ignored, or closed.
    Nothing,
}

/// The button that was pressed, if any, as a choice.
pub fn choice(title: Option<&str>) -> (r: Choice)
    ensures
        r == match title {
            Some(t) => if t@ == BTN_FIX@ {
                Choice::Fix
            } else if t@ == BTN_DETAILS@ {
                Choice::Details
            } else if t@ == BTN_NEVER@ {
                Choice::Never
            } else {
                Choice::Nothing
            },
            None => Choice::Nothing,
        },
{
    match title {
        Some(t) => if text::same(t, BTN_FIX) {
            Choice::Fix
        } else if text::same(t, BTN_DETAILS) {
            Choice::Details
        } else if text::same(t, BTN_NEVER) {
            Choice::Never
        } else {
            Choice::Nothing
        },
        None => Choice::Nothing,
    }
}

/// A command the editor sent.
#[derive(Debug, PartialEq, Eq)]
pub enum Request {
    Fix,
    Details,
    Never,
    Ignore,
    Install { package: String },
    Recreate { python: String, package: String },
    /// A known command without the arguments it needs.
    Incomplete,
    /// Not one of ours; what to log.
    Unknown(String),
}

/// A request, mathematically.
#[verifier::ext_equal]
pub enum RequestView {
    Fix,
    Details,
    Never,
    Ignore,
    Install { package: Seq<char> },
    Recreate { python: Seq<char>, package: Seq<char> },
    Incomplete,
    Unknown(Seq<char>),
}

impl View for Request {
    type V = RequestView;

    open spec fn view(&self) -> RequestView {
        match *self {
            Request::Fix => RequestView::Fix,
            Request::Details => RequestView::Details,
            Request::Never => RequestView::Never,
            Request::Ignore => RequestView::Ignore,
            Request::Install { package } => RequestView::Install { package: package@ },
            Request::Recreate { python, package } => RequestView::Recreate {
                python: python@,
                package: package@,
            },
            Request::Incomplete => RequestView::Incomplete,
            Request::Unknown(s) => RequestView::Unknown(s@),
        }
    }
}

/// The argument at an index, if it is there and is a text.
pub open spec fn arg(args: Seq<Option<String>>, i: int) -> Option<Seq<char>> {
    if 0 <= i < args.len() {
        text::opt_text(args[i])
    } else {
        None
    }
}

pub open spec fn request_of(command: Seq<char>, args: Seq<Option<String>>) -> RequestView {
    if command == CMD_FIX@ {
        RequestView::Fix
    } else if command == CMD_DETAILS@ {
        RequestView::Details
    } else if command == CMD_NEVER@ {
        RequestView::Never
    } else if command == CMD_IGNORE@ {
        RequestView::Ignore
    } else if command == CMD_INSTALL@ {
        match arg(args, 0) {
            Some(package) => RequestView::Install { package },
            None => RequestView::Incomplete,
        }
    } else if command == CMD_RECREATE@ {
        match (arg(args, 0), arg(args, 1)) {
            (Some(python), Some(package)) => RequestView::Recreate { python, package },
            _ => RequestView::Incomplete,
        }
    } else {
        RequestView::Unknown("unknown command `"@ + command + "`"@)
    }
}

fn string_arg(args: &[Option<String>], index: usize) -> (r: Option<String>)
    ensures
        text::opt_text(r) == arg(args@, index as int),
{
    if index < args.len() {
        text::clone_opt(&args[index])
    } else {
        None
    }
}

/// Read a command and its arguments, of which only the texts count.
pub fn request(command: &str, args: &[Option<String>]) -> (r: Request)
    ensures
        r@ == request_of(command@, args@),
{
    if text::same(command, CMD_FIX) {
        Request::Fix
    } else if text::same(command, CMD_DETAILS) {
        Request::Details
    } else if text::same(command, CMD_NEVER) {
        Request::Never
    } else if text::same(command, CMD_IGNORE) {
        Request::Ignore
    } else if text::same(command, CMD_INSTALL) {
        match string_arg(args, 0) {
            Some(package) => Request::Install { package },
            None => Request::Incomplete,
        }
    } else if text::same(command, CMD_RECREATE) {
        match (string_arg(args, 0), string_arg(args, 1)) {
            (Some(python), Some(package)) => Request::Recreate { python, package },
            _ => Request::Incomplete,
        }
    } else {
        let mut message = "unknown command `".to_string();
        message.append(command);
        message.append("`");
        Request::Unknown(message)
    }
}

pub open spec fn bad_name_text(package: Seq<char>) -> Seq<char> {
    "PyPilot: `"@ + package + "` is not a valid package name."@
}

/// Whether a name may be handed to an installer.
pub open spec fn installable(package: Seq<char>) -> bool {
    text::trim_spec(package).len() > 0 && package[0] != '-'
}

/// Refuse an install of what is no package name, with what to tell the user.
pub fn check_install(package: &str) -> (r: Result<(), String>)
    ensures
        match r {
            Ok(_) => installable(package@),
            Err(e) => !installable(package@) && e@ == bad_name_text(package@),
        },
{
    if validate_package_name(package).is_ok() {
        return Ok(());
    }
    let mut e = "PyPilot: `".to_string();
    e.append(package);
    e.append("` is not a valid package name.");
    Err(e)
}

/// Refuse a rebuild on what is no Python version, or for what is no package
/// name, with what to tell the user.
pub fn check_recreate(python: &str, package: &str) -> (r: Result<PyVersion, String>)
    ensures
        match r {
            Ok(v) => parse_version_spec(python@) == Some(v) && installable(package@),
            Err(e) => if parse_version_spec(python@) is None {
                e@ == "PyPilot: `"@ + python@ + "` is not a Python version."@
            } else {
                !installable(package@) && e@ == bad_name_text(package@)
            },
        },
{
    match PyVersion::parse(python) {
        Some(v) => match check_install(package) {
            Ok(_) => Ok(v),
            Err(e) => Err(e),
        },
        None => {
            let mut e = "PyPilot: `".to_string();
            e.append(python);
            e.append("` is not a Python version.");
            Err(e)
        },
    }
}

// ---------------------------------------------------------------------------
// Outcomes
// ---------------------------------------------------------------------------

/// The last step that failed.
pub open spec fn last_failed(steps: Seq<StepView>) -> Option<StepView>
    decreases steps.len(),
{
    if steps.len() == 0 {
        None
    } else if !steps.last().ok {
        Some(steps.last())
    } else {
        last_failed(steps.drop_last())
    }
}

pub open spec fn failure_text(steps: Seq<StepView>) -> Seq<char> {
    match last_failed(steps) {
        Some(s) => "PyPilot: "@ + s.name + ": "@ + s.detail,
        None => "PyPilot: the operation did not finish"@,
    }
}

/// What to tell the user when a flow failed.
pub fn report_failed_step(steps: &Vec<Step>) -> (r: String)
    ensures
        r@ == failure_text(step_views(steps@)),
{
    let ghost views = step_views(steps@);
    let mut i: usize = steps.len();
    proof {
        assert(views.take(i as int) =~= views);
    }
    while i > 0
        invariant
            i <= steps@.len(),
            views == step_views(steps@),
            last_failed(views) == last_failed(views.take(i as int)),
        decreases i,
    {
        proof {
            let seen = views.take(i as int);
            assert(seen.drop_last() =~= views.take(i - 1));
            assert(seen.last() == steps@[i - 1]@);
        }
        if !steps[i - 1].ok {
            let mut out = "PyPilot: ".to_string();
            out.append(steps[i - 1].name.as_str());
            out.append(": ");
            out.append(steps[i - 1].detail.as_str());
            return out;
        }
        i -= 1;
    }
    "PyPilot: the operation did not finish".to_string()
}

/// The Python a setup ended on, for people.
pub open spec fn python_text(python: Option<PyVersion>) -> Seq<char> {
    match python {
        Some(p) => "Python "@ + version_text(p),
        None => "system interpreter"@,
    }
}

/// What to tell the user when "Fix everything" is through.
pub fn fix_outcome(summary: &SetupSummary) -> (r: String)
    ensures
        r@ == if summary.ok {
            "PyPilot: done. "@ + python_text(summary.python) + " at "@ + summary.venv_path@ + ". "@
                + summary.why@
        } else {
            failure_text(step_views(summary.steps@))
        },
{
    if !summary.ok {
        return report_failed_step(&summary.steps);
    }
    let python = match summary.python {
        Some(p) => {
            let mut s = "Python ".to_string();
            s.append(p.to_text().as_str());
            s
        },
        None => "system interpreter".to_string(),
    };
    let mut out = "PyPilot: done. ".to_string();
    out.append(python.as_str());
    out.append(" at ");
    out.append(summary.venv_path.as_str());
    out.append(". ");
    out.append(summary.why.as_str());
    out
}

/// What to tell the user when an install or a rebuild is through.
pub fn install_outcome(summary: &SetupSummary, package: &str) -> (r: String)
    ensures
        r@ == if !summary.ok {
            failure_text(step_views(summary.steps@))
        } else {
            match summary.python {
                Some(v) => "PyPilot: environment now runs Python "@ + version_text(v) + ", with "@
                    + package@ + " installed."@,
                None => "PyPilot: installed "@ + package@ + "."@,
            }
        },
{
    if !summary.ok {
        return report_failed_step(&summary.steps);
    }
    match summary.python {
        Some(v) => {
            let mut out = "PyPilot: environment now runs Python ".to_string();
            out.append(v.to_text().as_str());
            out.append(", with ");
            out.append(package);
            out.append(" installed.");
            out
        },
        None => {
            let mut out = "PyPilot: installed ".to_string();
            out.append(package);
            out.append(".");
            out
        },
    }
}

// ---------------------------------------------------------------------------
// Buffers
// ---------------------------------------------------------------------------

/// Whether a buffer is analyzed, by the extension of its file: Python files, and
/// those that have none.
pub fn is_analyzed(extension: Option<&str>, settings: &Settings) -> (r: bool)
    ensures
        r == (settings.notifications != Notifications::Off && match extension {
            Some(e) => e@ == "py"@,
            None => true,
        }),
{
    settings.notifications != Notifications::Off && match extension {
        Some(e) => text::same(e, "py"),
        None => true,
    }
}

/// The version a line of a `pyvenv.cfg` gives.
pub open spec fn version_on_line() -> spec_fn(Seq<char>) -> Option<PyVersion> {
    |line: Seq<char>|
        {
            let i = text::first_index(line, text::eq_char('='));
            let key = text::trim_spec(line.take(i));
            if i < line.len() && (key == "version"@ || key == "version_info"@) {
                parse_version_spec(text::trim_spec(line.skip(i + 1)))
            } else {
                None
            }
        }
}

/// Read the venv's Python version from the text of its `pyvenv.cfg`.
pub fn venv_python(cfg: &str) -> (r: Option<PyVersion>)
    ensures
        r == text::first_some(text::lines_spec(cfg@), version_on_line()),
{
    let lines = text::lines(cfg);
    let ghost views = text::lines_spec(cfg@);
    let mut i: usize = 0;
    while i < lines.len()
        invariant
            i <= lines@.len(),
            text::texts(lines@) == views,
            views == text::lines_spec(cfg@),
            forall|j: int| 0 <= j < i ==> version_on_line()(#[trigger] views[j]) is None,
        decreases lines@.len() - i,
    {
        let line = lines[i].as_str();
        proof {
            assert(views[i as int] == line@);
        }
        let eq = text::index_of(line, '=');
        if eq < line.unicode_len() {
            let key = text::trim(text::before(line, eq));
            if text::same(key, "version") || text::same(key, "version_info") {
                let found = PyVersion::parse(text::trim(text::after(line, eq + 1)));
                if found.is_some() {
                    proof {
                        text::lemma_first_some_at(views, version_on_line(), i as int);
                    }
                    return found;
                }
            }
        }
        i += 1;
    }
    proof {
        text::lemma_first_some_at(views, version_on_line(), i as int);
    }
    None
}

/// A notification leads with the first error, and with the first warning only where there
/// is no error.
pub proof fn notices_lead_with_the_first_of_the_worst(
    a: AssessmentView,
    level: Notifications,
    explicit: bool,
    i: int,
)
    requires
        a.sources.len() > 0,
        0 <= i < a.findings.len(),
        a.findings[i].severity == Severity::Error || a.findings[i].severity == Severity::Warning,
        forall|j: int| 0 <= j < i ==> (#[trigger] a.findings[j]).severity != a.findings[i].severity,
        a.findings[i].severity == Severity::Warning ==> forall|j: int|
            0 <= j < a.findings.len() ==> (#[trigger] a.findings[j]).severity != Severity::Error,
    ensures
        notice_of(a, level, explicit) == (NoticeView::Toast {
            severity: a.findings[i].severity,
            summary: "PyPilot: "@ + a.findings[i].title + ". "@ + a.findings[i].detail,
        }),
{
    let s = a.findings[i].severity;
    assert forall|j: int| 0 <= j < i implies of_severity(s)(#[trigger] a.findings[j]) is None by {}
    text::lemma_first_some_at(a.findings, of_severity(s), i);
    if s == Severity::Warning {
        assert forall|j: int| 0 <= j < a.findings.len() implies of_severity(Severity::Error)(
            #[trigger] a.findings[j],
        ) is None by {}
        text::lemma_first_some_at(
            a.findings,
            of_severity(Severity::Error),
            a.findings.len() as int,
        );
        assert(!any_of(a.findings, Severity::Error));
        assert(any_of(a.findings, Severity::Warning));
    } else {
        assert(any_of(a.findings, Severity::Error));
    }
}

/// Outside a Python project nothing is said, except to a user who asked.
pub proof fn other_workspaces_are_left_alone(a: AssessmentView, level: Notifications)
    requires
        a.sources.len() == 0,
    ensures
        notice_of(a, level, false) == NoticeView::Quiet,
        notice_of(a, level, true) is Inform,
{
}

/// The report holds every finding, its title and its detail, under its severity.
pub proof fn reports_hold_every_finding(a: AssessmentView, i: int, word: Seq<char>)
    requires
        0 <= i < a.findings.len(),
        word == (match a.findings[i].severity {
            Severity::Error => "Error"@,
            Severity::Warning => "Warning"@,
            Severity::Info => "Note"@,
        }),
    ensures
        exists|x: Seq<char>, y: Seq<char>|
            report_text(a) == #[trigger] (x + ("### "@ + word + ": "@ + a.findings[i].title + "\n"@
                + a.findings[i].detail + "\n"@) + y),
{
    let n = a.findings.len() as int;
    let (x, y) = lemma_section(a.findings, n, i, word);
    let all = finding_sections(a.findings, n);
    let f = a.findings[i];
    let section = "### "@ + word + ": "@ + f.title + "\n"@ + f.detail + "\n"@;
    let text = report_text(a);
    let k = text.len() - all.len();
    let head = text.take(k);
    assert(text.skip(k) =~= all);
    assert(text =~= head + all);
    assert(text =~= (head + x) + section + y);
}

proof fn lemma_section(v: Seq<FindingView>, n: int, i: int, word: Seq<char>) -> (r: (
    Seq<char>,
    Seq<char>,
))
    requires
        0 <= i < n <= v.len(),
        word == severity_word(v[i].severity),
    ensures
        finding_sections(v, n) == r.0 + ("### "@ + word + ": "@ + v[i].title + "\n"@ + v[i].detail
            + "\n"@) + r.1,
    decreases n,
{
    let section = "### "@ + word + ": "@ + v[i].title + "\n"@ + v[i].detail + "\n"@;
    let before = finding_sections(v, n - 1);
    if i < n - 1 {
        let (x, y) = lemma_section(v, n - 1, i, word);
        let last = v[n - 1];
        let z = y + "### "@ + severity_word(last.severity) + ": "@ + last.title + "\n"@
            + last.detail + "\n"@ + fix_note(last.fix) + "\n"@;
        assert(finding_sections(v, n) =~= x + section + z);
        (x, z)
    } else {
        let y = fix_note(v[i].fix) + "\n"@;
        assert(finding_sections(v, n) =~= before + section + y);
        (before, y)
    }
}

/// A command is what its name says, with the arguments it needs, and any other name is
/// refused.
pub proof fn commands_are_told_by_name(args: Seq<Option<String>>, other: Seq<char>)
    requires
        other != "pypilot.fixEverything"@,
        other != "pypilot.showDetails"@,
        other != "pypilot.neverForProject"@,
        other != "pypilot.ignore"@,
        other != "pypilot.installPackage"@,
        other != "pypilot.recreateWithPython"@,
    ensures
        request_of("pypilot.fixEverything"@, args) is Fix,
        request_of("pypilot.showDetails"@, args) is Details,
        request_of("pypilot.neverForProject"@, args) is Never,
        request_of("pypilot.ignore"@, args) is Ignore,
        args.len() > 0 && args[0] is Some ==> request_of("pypilot.installPackage"@, args) == (
        RequestView::Install { package: args[0]->0@ }),
        args.len() == 0 || args[0] is None ==> request_of("pypilot.installPackage"@, args)
            is Incomplete,
        args.len() > 1 && args[0] is Some && args[1] is Some ==> request_of(
            "pypilot.recreateWithPython"@,
            args,
        ) == (RequestView::Recreate { python: args[0]->0@, package: args[1]->0@ }),
        args.len() < 2 ==> request_of("pypilot.recreateWithPython"@, args) is Incomplete,
        request_of(other, args) is Unknown,
{
    reveal_strlit("pypilot.fixEverything");
    reveal_strlit("pypilot.showDetails");
    reveal_strlit("pypilot.neverForProject");
    reveal_strlit("pypilot.ignore");
    reveal_strlit("pypilot.installPackage");
    reveal_strlit("pypilot.recreateWithPython");
    assert("pypilot.fixEverything"@[8] == 'f');
    assert("pypilot.showDetails"@[8] == 's');
    assert("pypilot.neverForProject"@[8] == 'n');
    assert("pypilot.ignore"@[8] == 'i' && "pypilot.ignore"@[9] == 'g');
    assert("pypilot.installPackage"@[8] == 'i' && "pypilot.installPackage"@[9] == 'n');
    assert("pypilot.recreateWithPython"@[8] == 'r');
}

/// A failure is told by the last step that went wrong.
pub proof fn failures_are_told_by_the_last_step(steps: Seq<StepView>, i: int)
    requires
        0 <= i < steps.len(),
        !steps[i].ok,
        forall|j: int| i < j < steps.len() ==> (#[trigger] steps[j]).ok,
    ensures
        failure_text(steps) == "PyPilot: "@ + steps[i].name + ": "@ + steps[i].detail,
    decreases steps.len(),
{
    if i < steps.len() - 1 {
        assert(steps[steps.len() - 1].ok);
        let before = steps.drop_last();
        assert forall|j: int| i < j < before.len() implies (#[trigger] before[j]).ok by {
            assert(before[j] == steps[j]);
        }
        failures_are_told_by_the_last_step(before, i);
    }
}

/// What an installer could take for an option is never handed to it, and neither is a
/// blank.
pub proof fn options_are_no_packages(package: Seq<char>)
    ensures
        package.len() > 0 && package[0] == '-' ==> !installable(package),
        package.len() > 0 && package[0] != '-' && !text::is_space(package[0]) ==> installable(
            package,
        ),
        (forall|i: int| 0 <= i < package.len() ==> text::is_space(#[trigger] package[i]))
            ==> !installable(package),
{
    if package.len() > 0 && !text::is_space(package[0]) {
        text::lemma_first_index_is(package, text::not_space(), 0);
        assert(package.skip(0) =~= package);
        text::lemma_last_index(package, text::not_space());
        let m = text::last_index(package, text::not_space());
        if m == 0 {
            assert(!text::not_space()(package[0]));
        }
    }
    if forall|i: int| 0 <= i < package.len() ==> text::is_space(#[trigger] package[i]) {
        assert forall|i: int| 0 <= i < package.len() implies !text::not_space()(
            #[trigger] package[i],
        ) by {}
        text::lemma_first_index_is(package, text::not_space(), package.len() as int);
        let e = package.skip(package.len() as int);
        assert(e =~= Seq::<char>::empty());
        text::lemma_last_index(e, text::not_space());
    }
}

/// Where all is well, that is said of the Python the environment stands on and of
/// what the dependencies support.
pub proof fn good_news_name_the_python(a: AssessmentView, path: Seq<char>, p: PyVersion)
    requires
        a.venv == Some((path, Some(p))),
    ensures
        ("PyPilot: everything looks good. The Python "@ + version_text(p)
            + " venv is "@).is_prefix_of(all_good_text(a)),
        a.compat is Some ==> ("dependencies support "@ + range_text((a.compat->0).intersection)
            + "."@).is_suffix_of(all_good_text(a)),
{
    reveal_strlit("PyPilot: everything looks good. The Python ");
    reveal_strlit("PyPilot: everything looks good. The ");
    reveal_strlit("Python ");
    reveal_strlit(" venv");
    reveal_strlit(" venv is ");
    reveal_strlit(" is compatible, and dependencies support ");
    reveal_strlit("dependencies support ");
    reveal_strlit(" is in place.");
    let told = all_good_text(a);
    let start = "PyPilot: everything looks good. The Python "@ + version_text(p) + " venv is "@;
    assert(told.take(start.len() as int) =~= start);
    if let Some(c) = a.compat {
        let end = "dependencies support "@ + range_text(c.intersection) + "."@;
        assert(told.skip(told.len() - end.len()) =~= end);
    }
}

} // verus!
