//! Turning guardian findings into editor diagnostics and quick fixes.
//!
//! Each diagnostic carries its own fix, so when the editor asks for code actions
//! they are rebuilt from the diagnostic under the cursor instead of re-analyzing
//! the buffer.
//!
//! Every install action names the distribution it will install. When an import
//! resolves to a different name (`cv2` to `opencv-python`) the title says both,
//! because the user is approving a name they never typed.

use vstd::prelude::*;

use crate::engine::guardian::{Finding, FindingView, Problem, ProblemView};
use crate::pypi::pyversion::{range_text, version_text, PyVersion};
use crate::text;

verus! {

/// Command IDs of the fixes that take arguments.
pub const CMD_INSTALL: &'static str = "pypilot.installPackage";

pub const CMD_RECREATE: &'static str = "pypilot.recreateWithPython";

/// What marks a diagnostic as ours.
pub const SOURCE: &'static str = "pypilot";

/// The fix attached to a diagnostic.
#[derive(Debug, PartialEq, Eq)]
pub struct FixData {
    pub package: String,
    /// The import that the package provides, where that is another name.
    pub provides: Option<String>,
    pub action: FixAction,
}

#[derive(Debug, PartialEq, Eq)]
pub enum FixAction {
    /// Install into the environment that already exists.
    Install,
    /// Build the project's first environment on `python`, then install.
    Create { python: String },
    /// Replace the existing environment with one on `python`, then install.
    Recreate { python: String, reinstall_count: usize },
    /// Nothing safe to automate.
    Nothing,
}

/// A fix, mathematically.
#[verifier::ext_equal]
pub struct FixDataView {
    pub package: Seq<char>,
    pub provides: Option<Seq<char>>,
    pub action: FixActionView,
}

#[verifier::ext_equal]
pub enum FixActionView {
    Install,
    Create { python: Seq<char> },
    Recreate { python: Seq<char>, reinstall_count: nat },
    Nothing,
}

impl View for FixAction {
    type V = FixActionView;

    open spec fn view(&self) -> FixActionView {
        match *self {
            FixAction::Install => FixActionView::Install,
            FixAction::Create { python } => FixActionView::Create { python: python@ },
            FixAction::Recreate { python, reinstall_count } => FixActionView::Recreate {
                python: python@,
                reinstall_count: reinstall_count as nat,
            },
            FixAction::Nothing => FixActionView::Nothing,
        }
    }
}

impl View for FixData {
    type V = FixDataView;

    open spec fn view(&self) -> FixDataView {
        FixDataView {
            package: self.package@,
            provides: text::opt_text(self.provides),
            action: self.action@,
        }
    }
}

impl Clone for FixAction {
    fn clone(&self) -> (r: FixAction)
        ensures
            r@ == self@,
    {
        match self {
            FixAction::Install => FixAction::Install,
            FixAction::Create { python } => FixAction::Create { python: python.clone() },
            FixAction::Recreate { python, reinstall_count } => FixAction::Recreate {
                python: python.clone(),
                reinstall_count: *reinstall_count,
            },
            FixAction::Nothing => FixAction::Nothing,
        }
    }
}

impl Clone for FixData {
    fn clone(&self) -> (r: FixData)
        ensures
            r@ == self@,
    {
        FixData {
            package: self.package.clone(),
            provides: text::clone_opt(&self.provides),
            action: self.action.clone(),
        }
    }
}

#[derive(Debug, Clone, Copy, PartialEq, Eq, Structural)]
pub enum DiagnosticSeverity {
    Error,
    Warning,
}

/// A squiggle in a buffer.
#[derive(Debug, PartialEq, Eq)]
pub struct Diagnostic {
    /// Zero-based line, and the character offsets on it.
    pub line: u32,
    pub start: u32,
    pub end: u32,
    pub severity: Option<DiagnosticSeverity>,
    pub source: Option<String>,
    pub message: String,
    pub data: Option<FixData>,
}

/// A diagnostic, mathematically.
#[verifier::ext_equal]
pub struct DiagnosticView {
    pub line: u32,
    pub start: u32,
    pub end: u32,
    pub severity: Option<DiagnosticSeverity>,
    pub source: Option<Seq<char>>,
    pub message: Seq<char>,
    pub data: Option<FixDataView>,
}

pub open spec fn opt_fix(o: Option<FixData>) -> Option<FixDataView> {
    match o {
        Some(f) => Some(f@),
        None => None,
    }
}

impl View for Diagnostic {
    type V = DiagnosticView;

    open spec fn view(&self) -> DiagnosticView {
        DiagnosticView {
            line: self.line,
            start: self.start,
            end: self.end,
            severity: self.severity,
            source: text::opt_text(self.source),
            message: self.message@,
            data: opt_fix(self.data),
        }
    }
}

impl Default for Diagnostic {
    fn default() -> (r: Diagnostic)
        ensures
            r.line == 0 && r.start == 0 && r.end == 0,
            r.severity is None,
            r.source is None,
            r.message@ == Seq::<char>::empty(),
            r.data is None,
    {
        Diagnostic {
            line: 0,
            start: 0,
            end: 0,
            severity: None,
            source: None,
            message: String::new(),
            data: None,
        }
    }
}

impl Clone for Diagnostic {
    fn clone(&self) -> (r: Diagnostic)
        ensures
            r@ == self@,
    {
        Diagnostic {
            line: self.line,
            start: self.start,
            end: self.end,
            severity: self.severity,
            source: text::clone_opt(&self.source),
            message: self.message.clone(),
            data: match &self.data {
                Some(f) => Some(f.clone()),
                None => None,
            },
        }
    }
}

pub open spec fn diagnostic_views(v: Seq<Diagnostic>) -> Seq<DiagnosticView> {
    Seq::new(v.len(), |i: int| v[i]@)
}

// ---------------------------------------------------------------------------
// Findings to diagnostics
// ---------------------------------------------------------------------------

/// A distribution, and the import it provides where that is another name.
pub open spec fn named(package: Seq<char>, provides: Option<Seq<char>>) -> Seq<char> {
    match provides {
        Some(module) => "`"@ + package + "` (provides `"@ + module + "`)"@,
        None => "`"@ + package + "`"@,
    }
}

/// The import a finding is about, where the distribution has another name.
pub open spec fn provided(f: FindingView) -> Option<Seq<char>> {
    if f.renamed {
        Some(f.import.module)
    } else {
        None
    }
}

/// The distribution of a finding, and the import it provides where that is
/// another name.
pub open spec fn shown(f: FindingView) -> Seq<char> {
    named(f.package, provided(f))
}

/// The installed package and what it lacks.
pub open spec fn missing_text(
    package: Seq<char>,
    version: Option<Seq<char>>,
    attribute: Seq<char>,
    available: Seq<Seq<char>>,
) -> Seq<char> {
    let named = match version {
        Some(v) => "`"@ + package + "` "@ + v,
        None => "`"@ + package + "`"@,
    };
    let head = named + " has no attribute `"@ + attribute + "`."@;
    if available.len() == 0 {
        head
    } else {
        head + " It provides "@ + text::join_spec(available, ", "@) + "."@
    }
}

pub open spec fn message_of(f: FindingView) -> Seq<char> {
    match f.problem {
        ProblemView::NotInstalled => shown(f) + " is not installed."@,
        ProblemView::IncompatibleInterpreter { current, supported, target, reinstall_count } =>
            shown(f) + " has no wheels for Python "@ + version_text(current) + ". It supports "@
            + range_text(supported) + "."@,
        ProblemView::NoEnvironment { target } => shown(f)
            + " is not installed, and this project has no virtual environment yet."@,
        ProblemView::NotOnPyPi => "PyPI has no project named `"@ + f.package
            + "`. Check the spelling, or it may come from a private index."@,
        ProblemView::AttributeMissing { attribute, installed_version, available } => missing_text(
            f.package,
            installed_version,
            attribute,
            available,
        ),
    }
}

pub open spec fn severity_of(p: ProblemView) -> DiagnosticSeverity {
    match p {
        ProblemView::IncompatibleInterpreter { .. } => DiagnosticSeverity::Error,
        ProblemView::AttributeMissing { .. } => DiagnosticSeverity::Error,
        _ => DiagnosticSeverity::Warning,
    }
}

/// The fix for a problem. A name PyPI does not know is deliberately actionless:
/// offering to install it is how a typo becomes an incident.
pub open spec fn fix_of(p: ProblemView) -> FixActionView {
    match p {
        ProblemView::NotInstalled => FixActionView::Install,
        ProblemView::IncompatibleInterpreter { current, supported, target, reinstall_count } =>
            match target {
            Some(t) => FixActionView::Recreate { python: version_text(t), reinstall_count },
            None => FixActionView::Nothing,
        },
        ProblemView::NoEnvironment { target } => match target {
            Some(t) => FixActionView::Create { python: version_text(t) },
            None => FixActionView::Nothing,
        },
        ProblemView::NotOnPyPi => FixActionView::Nothing,
        ProblemView::AttributeMissing { .. } => FixActionView::Nothing,
    }
}

/// The diagnostic of a finding.
pub open spec fn diagnostic_of(f: FindingView) -> DiagnosticView {
    DiagnosticView {
        line: f.import.line,
        start: f.import.start,
        end: f.import.end,
        severity: Some(severity_of(f.problem)),
        source: Some(SOURCE@),
        message: message_of(f),
        data: Some(
            FixDataView { package: f.package, provides: provided(f), action: fix_of(f.problem) },
        ),
    }
}

fn name(package: &str, provides: &Option<String>) -> (r: String)
    ensures
        r@ == named(package@, text::opt_text(*provides)),
{
    let mut out = "`".to_string();
    out.append(package);
    match provides {
        Some(module) => {
            out.append("` (provides `");
            out.append(module.as_str());
            out.append("`)");
        },
        None => {
            out.append("`");
        },
    }
    out
}

fn provided_import(f: &Finding) -> (r: Option<String>)
    ensures
        text::opt_text(r) == provided(f@),
{
    if f.renamed {
        Some(f.import.module.clone())
    } else {
        None
    }
}

/// Build the diagnostic for one finding.
pub fn to_diagnostic(finding: &Finding) -> (r: Diagnostic)
    ensures
        r@ == diagnostic_of(finding@),
{
    let provides = provided_import(finding);
    let (severity, message, action) = match &finding.problem {
        Problem::NotInstalled => {
            let mut message = name(finding.package.as_str(), &provides);
            message.append(" is not installed.");
            (DiagnosticSeverity::Warning, message, FixAction::Install)
        },
        Problem::IncompatibleInterpreter { current, supported, target, reinstall_count } => {
            let mut message = name(finding.package.as_str(), &provides);
            message.append(" has no wheels for Python ");
            message.append(current.to_text().as_str());
            message.append(". It supports ");
            message.append(supported.to_range_string().as_str());
            message.append(".");
            let action = match target {
                Some(t) => FixAction::Recreate {
                    python: t.to_text(),
                    reinstall_count: *reinstall_count,
                },
                None => FixAction::Nothing,
            };
            (DiagnosticSeverity::Error, message, action)
        },
        Problem::NoEnvironment { target } => {
            let mut message = name(finding.package.as_str(), &provides);
            message.append(" is not installed, and this project has no virtual environment yet.");
            let action = match target {
                Some(t) => FixAction::Create { python: t.to_text() },
                None => FixAction::Nothing,
            };
            (DiagnosticSeverity::Warning, message, action)
        },
        Problem::NotOnPyPi => {
            let mut message = "PyPI has no project named `".to_string();
            message.append(finding.package.as_str());
            message.append("`. Check the spelling, or it may come from a private index.");
            (DiagnosticSeverity::Warning, message, FixAction::Nothing)
        },
        Problem::AttributeMissing { attribute, installed_version, available } => {
            let mut message = "`".to_string();
            message.append(finding.package.as_str());
            match installed_version {
                Some(v) => {
                    message.append("` ");
                    message.append(v.as_str());
                },
                None => {
                    message.append("`");
                },
            }
            message.append(" has no attribute `");
            message.append(attribute.as_str());
            message.append("`.");
            if available.len() > 0 {
                message.append(" It provides ");
                message.append(text::join(available, ", ").as_str());
                message.append(".");
            }
            (DiagnosticSeverity::Error, message, FixAction::Nothing)
        },
    };
    Diagnostic {
        line: finding.import.line,
        start: finding.import.start,
        end: finding.import.end,
        severity: Some(severity),
        source: Some(SOURCE.to_string()),
        message,
        data: Some(FixData { package: finding.package.clone(), provides, action }),
    }
}

// ---------------------------------------------------------------------------
// Diagnostics to code actions
// ---------------------------------------------------------------------------

/// A command the editor sends back.
#[derive(Debug, PartialEq, Eq)]
pub struct Command {
    pub title: String,
    pub command: String,
    pub arguments: Vec<String>,
}

/// A quick fix.
#[derive(Debug, PartialEq, Eq)]
pub struct CodeAction {
    pub title: String,
    pub diagnostic: Diagnostic,
    pub command: Command,
}

/// A quick fix, mathematically.
#[verifier::ext_equal]
pub struct CodeActionView {
    pub title: Seq<char>,
    pub diagnostic: DiagnosticView,
    pub command_title: Seq<char>,
    pub command: Seq<char>,
    pub arguments: Seq<Seq<char>>,
}

impl View for CodeAction {
    type V = CodeActionView;

    open spec fn view(&self) -> CodeActionView {
        CodeActionView {
            title: self.title@,
            diagnostic: self.diagnostic@,
            command_title: self.command.title@,
            command: self.command.command@,
            arguments: text::texts(self.command.arguments@),
        }
    }
}

pub open spec fn action_views(v: Seq<CodeAction>) -> Seq<CodeActionView> {
    Seq::new(v.len(), |i: int| v[i]@)
}

/// How much gets rebuilt. "3 packages will be reinstalled" is the difference
/// between a trusted fix and a surprise.
pub open spec fn scope_text(count: nat) -> Seq<char> {
    if count == 0 {
        ""@
    } else if count == 1 {
        " (1 existing package will be reinstalled)"@
    } else {
        " ("@ + text::decimal_spec(count) + " existing packages will be reinstalled)"@
    }
}

/// The quick fix a diagnostic carries, if it is ours and carries one.
pub open spec fn action_of() -> spec_fn(DiagnosticView) -> Option<CodeActionView> {
    |d: DiagnosticView|
        if d.source != Some(SOURCE@) || d.data is None {
            None
        } else {
            let package = d.data->0.package;
            let shown = named(package, d.data->0.provides);
            match d.data->0.action {
                FixActionView::Install => Some(
                    CodeActionView {
                        title: "Install "@ + shown,
                        diagnostic: d,
                        command_title: "Install "@ + package,
                        command: CMD_INSTALL@,
                        arguments: seq![package],
                    },
                ),
                FixActionView::Create { python } => Some(
                    CodeActionView {
                        title: "Create environment on Python "@ + python + " and install "@
                            + shown,
                        diagnostic: d,
                        command_title: "Create environment"@,
                        command: CMD_RECREATE@,
                        arguments: seq![python, package],
                    },
                ),
                FixActionView::Recreate { python, reinstall_count } => Some(
                    CodeActionView {
                        title: "Rebuild environment on Python "@ + python + " and install "@
                            + shown + scope_text(reinstall_count),
                        diagnostic: d,
                        command_title: "Rebuild environment"@,
                        command: CMD_RECREATE@,
                        arguments: seq![python, package],
                    },
                ),
                FixActionView::Nothing => None,
            }
        }
}

fn scope(count: usize) -> (r: String)
    ensures
        r@ == scope_text(count as nat),
{
    if count == 0 {
        return "".to_string();
    }
    if count == 1 {
        return " (1 existing package will be reinstalled)".to_string();
    }
    let mut out = " (".to_string();
    out.append(text::decimal(count as u64).as_str());
    out.append(" existing packages will be reinstalled)");
    out
}

pub open spec fn opt_action(o: Option<CodeAction>) -> Option<CodeActionView> {
    match o {
        Some(a) => Some(a@),
        None => None,
    }
}

fn is_ours(d: &Diagnostic) -> (r: bool)
    ensures
        r == (d@.source == Some(SOURCE@)),
{
    match &d.source {
        Some(s) => text::same(s.as_str(), SOURCE),
        None => false,
    }
}

fn two(a: &str, b: &str) -> (r: Vec<String>)
    ensures
        text::texts(r@) == seq![a@, b@],
{
    let r = vec![a.to_string(), b.to_string()];
    proof {
        assert(text::texts(r@) =~= seq![a@, b@]);
    }
    r
}

fn code_action(d: &Diagnostic) -> (r: Option<CodeAction>)
    ensures
        opt_action(r) == action_of()(d@),
{
    if !is_ours(d) {
        return None;
    }
    let fix = match &d.data {
        Some(fix) => fix,
        None => return None,
    };
    let package = fix.package.as_str();
    let shown = name(package, &fix.provides);
    match &fix.action {
        FixAction::Install => {
            let mut title = "Install ".to_string();
            title.append(shown.as_str());
            let mut short = "Install ".to_string();
            short.append(package);
            let arguments = vec![package.to_string()];
            proof {
                assert(text::texts(arguments@) =~= seq![package@]);
            }
            Some(
                CodeAction {
                    title,
                    diagnostic: d.clone(),
                    command: Command { title: short, command: CMD_INSTALL.to_string(), arguments },
                },
            )
        },
        FixAction::Create { python } => {
            let mut title = "Create environment on Python ".to_string();
            title.append(python.as_str());
            title.append(" and install ");
            title.append(shown.as_str());
            Some(
                CodeAction {
                    title,
                    diagnostic: d.clone(),
                    command: Command {
                        title: "Create environment".to_string(),
                        command: CMD_RECREATE.to_string(),
                        arguments: two(python.as_str(), package),
                    },
                },
            )
        },
        FixAction::Recreate { python, reinstall_count } => {
            let mut title = "Rebuild environment on Python ".to_string();
            title.append(python.as_str());
            title.append(" and install ");
            title.append(shown.as_str());
            title.append(scope(*reinstall_count).as_str());
            Some(
                CodeAction {
                    title,
                    diagnostic: d.clone(),
                    command: Command {
                        title: "Rebuild environment".to_string(),
                        command: CMD_RECREATE.to_string(),
                        arguments: two(python.as_str(), package),
                    },
                },
            )
        },
        FixAction::Nothing => None,
    }
}

/// Rebuild quick fixes from the diagnostics the editor sent back.
pub fn code_actions(diagnostics: &[Diagnostic]) -> (r: Vec<CodeAction>)
    ensures
        action_views(r@) == diagnostic_views(diagnostics@).filter_map(action_of()),
{
    let ghost views = diagnostic_views(diagnostics@);
    let ghost f = action_of();
    let mut out: Vec<CodeAction> = Vec::new();
    let mut i: usize = 0;
    proof {
        assert(action_views(out@) =~= views.take(0).filter_map(f));
    }
    while i < diagnostics.len()
        invariant
            i <= diagnostics@.len(),
            views == diagnostic_views(diagnostics@),
            f == action_of(),
            action_views(out@) == views.take(i as int).filter_map(f),
        decreases diagnostics@.len() - i,
    {
        proof {
            views.lemma_filter_map_take_succ(f, i as int);
            assert(views[i as int] == diagnostics@[i as int]@);
        }
        if let Some(action) = code_action(&diagnostics[i]) {
            proof {
                assert(action_views(out@.push(action)) =~= action_views(out@).push(action@));
            }
            out.push(action);
        }
        i += 1;
    }
    proof {
        assert(views.take(i as int) =~= views);
    }
    out
}

// ---------------------------------------------------------------------------
// Laws
// ---------------------------------------------------------------------------

/// A name PyPI does not have is never offered for install, and neither is a
/// package that is installed but lacks an attribute.
pub proof fn nothing_unsafe_is_offered(f: FindingView)
    requires
        f.problem is NotOnPyPi || f.problem is AttributeMissing,
    ensures
        action_of()(diagnostic_of(f)) is None,
{
}

/// Every fix that is offered installs the distribution the finding names, a plain
/// install says so with the import it provides where that is another name, and
/// only the first environment is created: an existing one is rebuilt.
pub proof fn fixes_install_what_they_name(f: FindingView)
    ensures
        match action_of()(diagnostic_of(f)) {
            Some(a) => a.arguments.last() == f.package && a.diagnostic == diagnostic_of(f) && (
            a.command == CMD_INSTALL@ <==> f.problem is NotInstalled) && (f.problem is NotInstalled
                ==> a.title == "Install "@ + shown(f)),
            None => fix_of(f.problem) is Nothing,
        },
{
    reveal_strlit("pypilot.installPackage");
    reveal_strlit("pypilot.recreateWithPython");
    assert(CMD_INSTALL@.len() != CMD_RECREATE@.len());
}

/// Diagnostics of other servers are left alone.
pub proof fn foreign_diagnostics_are_ignored(d: DiagnosticView)
    requires
        d.source != Some(SOURCE@),
    ensures
        action_of()(d) is None,
{
}

/// A diagnostic stands where its import does, and is an error exactly where the code
/// cannot work as it is: on a Python the package has no wheels for, or for want of an
/// attribute.
pub proof fn diagnostics_stand_where_the_import_does(f: FindingView)
    ensures
        diagnostic_of(f).line == f.import.line,
        diagnostic_of(f).start == f.import.start,
        diagnostic_of(f).end == f.import.end,
        diagnostic_of(f).severity == Some(DiagnosticSeverity::Error) <==> f.problem
            is IncompatibleInterpreter || f.problem is AttributeMissing,
        diagnostic_of(f).severity == Some(DiagnosticSeverity::Warning) <==> f.problem
            is NotInstalled || f.problem is NoEnvironment || f.problem is NotOnPyPi,
{
}

/// Each problem that can be fixed is offered its fix: a missing package is installed, a
/// missing environment is created on the version all agree on, and one on the wrong Python
/// is rebuilt on the newest that the package supports.
pub proof fn problems_are_offered_their_fix(f: FindingView, t: PyVersion)
    ensures
        f.problem is NotInstalled ==> action_of()(diagnostic_of(f)) is Some && action_of()(
            diagnostic_of(f),
        )->0.command == "pypilot.installPackage"@ && action_of()(diagnostic_of(f))->0.arguments
            == seq![f.package],
        f.problem == (ProblemView::NoEnvironment { target: Some(t) }) ==> action_of()(
            diagnostic_of(f),
        ) is Some && action_of()(diagnostic_of(f))->0.command == "pypilot.recreateWithPython"@
            && action_of()(diagnostic_of(f))->0.arguments == seq![version_text(t), f.package],
        f.problem is IncompatibleInterpreter && f.problem->IncompatibleInterpreter_target == Some(t)
            ==> action_of()(diagnostic_of(f)) is Some && action_of()(diagnostic_of(f))->0.command
            == "pypilot.recreateWithPython"@ && action_of()(diagnostic_of(f))->0.arguments == seq![
            version_text(t),
            f.package,
        ],
{
}

/// Every diagnostic names the distribution it is about, in backquotes.
pub proof fn diagnostics_name_the_distribution(f: FindingView)
    ensures
        exists|a: Seq<char>, b: Seq<char>|
            message_of(f) == #[trigger] (a + ("`"@ + f.package + "`"@) + b),
{
    reveal_strlit("`");
    reveal_strlit("PyPI has no project named `");
    reveal_strlit("`. Check the spelling, or it may come from a private index.");
    reveal_strlit("` (provides `");
    reveal_strlit("`)");
    reveal_strlit("` ");
    let quoted = "`"@ + f.package + "`"@;
    let m = message_of(f);
    let n = quoted.len() as int;
    match f.problem {
        ProblemView::NotOnPyPi => {
            let a = "PyPI has no project named `"@.drop_last();
            let b = "`. Check the spelling, or it may come from a private index."@.drop_first();
            assert(m =~= a + quoted + b);
        },
        _ => {
            let e = Seq::<char>::empty();
            assert(m.take(n) =~= quoted);
            let b = m.skip(n);
            assert(m =~= e + quoted + b);
        },
    }
}

} // verus!
