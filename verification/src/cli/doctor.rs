//! `pypilot doctor`: the read-only probe and compatibility report.

use vstd::prelude::*;

use crate::cli::page::{no_lines, no_spans, pad, padded, plain, styled, Line, Page, SpanView, Style};
use crate::engine::interpreter::{interpreter_views, Interpreter, InterpreterView};
use crate::engine::probe::VenvInfo;
use crate::engine::project::{requirement_text, requirement_views, Requirement, RequirementView};
use crate::engine::uv::{UvInfo, UvInfoView};
use crate::engine::{finding_views, Assessment, AssessmentView, Finding, FindingView, Severity};
use crate::pypi::metadata::{PackageAnalysis, PackageAnalysisView};
use crate::pypi::pyversion::{range_text, version_text, PyVersion};
use crate::pypi::{analysis_views, pair_views, CompatReport, CompatReportView};
use crate::settings::PackageManager;
use crate::text;

verus! {

/// The beginning of a line that gives a label and something for it.
pub open spec fn labelled(label: Seq<char>) -> Seq<SpanView> {
    no_spans().push(plain("  "@)).push(styled(padded(label, 16), Style::Dimmed)).push(plain(": "@))
}

pub(crate) fn label(name: &str) -> (r: Line)
    ensures
        r@ == labelled(name@),
{
    let padded = pad(name, 16);
    Line::new().plain("  ").with(padded.as_str(), Style::Dimmed).plain(": ")
}

pub open spec fn heading(s: Seq<char>) -> Seq<SpanView> {
    no_spans().push(styled(s, Style::BlueBold))
}

fn head(s: &str) -> (r: Line)
    ensures
        r@ == heading(s@),
{
    Line::new().with(s, Style::BlueBold)
}

pub open spec fn manager_name(m: PackageManager) -> Seq<char> {
    match m {
        PackageManager::Uv => "Uv"@,
        PackageManager::Pip => "Pip"@,
    }
}

pub(crate) fn manager_text(m: PackageManager) -> (r: &'static str)
    ensures
        r@ == manager_name(m),
{
    match m {
        PackageManager::Uv => "Uv",
        PackageManager::Pip => "Pip",
    }
}

pub open spec fn uv_line(uv: Option<UvInfoView>) -> Seq<SpanView> {
    match uv {
        Some(u) => labelled("uv"@).push(styled("present"@, Style::GreenBold)).push(
            plain(" ("@),
        ).push(styled("v"@ + u.version, Style::Cyan)).push(plain(", "@)).push(
            styled(
                if u.managed {
                    "managed"@
                } else {
                    "on PATH"@
                },
                Style::Dimmed,
            ),
        ).push(plain(")"@)),
        None => labelled("uv"@).push(styled("not detected"@, Style::Yellow)),
    }
}

fn show_uv(uv: &Option<UvInfo>) -> (r: Line)
    ensures
        r@ == uv_line(crate::engine::uv::opt_uv(*uv)),
{
    match uv {
        Some(u) => {
            let mut version = "v".to_string();
            version.append(u.version.as_str());
            let origin = if u.managed {
                "managed"
            } else {
                "on PATH"
            };
            label("uv").with("present", Style::GreenBold).plain(" (").with(
                version.as_str(),
                Style::Cyan,
            ).plain(", ").with(origin, Style::Dimmed).plain(")")
        },
        None => label("uv").with("not detected", Style::Yellow),
    }
}

pub open spec fn venv_line(venv: Option<(Seq<char>, Option<PyVersion>)>) -> Seq<SpanView> {
    match venv {
        Some((path, python)) => labelled("virtualenv"@).push(plain(path)).push(plain(" ("@)).push(
            match python {
                Some(p) => styled("Python "@ + version_text(p), Style::GreenBold),
                None => styled("unknown"@, Style::Dimmed),
            },
        ).push(plain(")"@)),
        None => labelled("virtualenv"@).push(styled("none"@, Style::Yellow)),
    }
}

fn show_venv(venv: &Option<VenvInfo>) -> (r: Line)
    ensures
        r@ == venv_line(
            match *venv {
                Some(v) => Some((v.path@, v.python)),
                None => None,
            },
        ),
{
    match venv {
        Some(v) => {
            let start = label("virtualenv").plain(v.path.as_str()).plain(" (");
            let middle = match v.python {
                Some(p) => {
                    let mut s = "Python ".to_string();
                    s.append(p.to_text().as_str());
                    start.with(s.as_str(), Style::GreenBold)
                },
                None => start.with("unknown", Style::Dimmed),
            };
            middle.plain(")")
        },
        None => label("virtualenv").with("none", Style::Yellow),
    }
}

/// The line so far and a comma, unless this is the first of a list.
pub open spec fn comma(line: Seq<SpanView>, n: int) -> Seq<SpanView> {
    if n > 0 {
        line.push(plain(", "@))
    } else {
        line
    }
}

fn and_comma(line: Line, n: usize) -> (r: Line)
    ensures
        r@ == comma(line@, n as int),
{
    if n > 0 {
        line.plain(", ")
    } else {
        line
    }
}

pub open spec fn interpreter_spans(v: Seq<InterpreterView>, n: int) -> Seq<SpanView>
    decreases n,
{
    if n <= 0 {
        labelled("interpreters"@)
    } else {
        comma(interpreter_spans(v, n - 1), n - 1).push(
            styled(version_text(v[n - 1].version), Style::CyanBold),
        ).push(plain(" ("@)).push(styled(v[n - 1].command, Style::Dimmed)).push(plain(")"@))
    }
}

pub open spec fn interpreters_line(v: Seq<InterpreterView>) -> Seq<SpanView> {
    if v.len() == 0 {
        labelled("interpreters"@).push(styled("none found"@, Style::Yellow))
    } else {
        interpreter_spans(v, v.len() as int)
    }
}

fn show_interpreters(interpreters: &Vec<Interpreter>) -> (r: Line)
    ensures
        r@ == interpreters_line(interpreter_views(interpreters@)),
{
    let ghost views = interpreter_views(interpreters@);
    if interpreters.len() == 0 {
        return label("interpreters").with("none found", Style::Yellow);
    }
    let mut line = label("interpreters");
    let mut i: usize = 0;
    while i < interpreters.len()
        invariant
            i <= interpreters@.len(),
            views == interpreter_views(interpreters@),
            line@ == interpreter_spans(views, i as int),
        decreases interpreters@.len() - i,
    {
        let found = &interpreters[i];
        proof {
            assert(views[i as int] == found@);
        }
        line = and_comma(line, i).with(found.version.to_text().as_str(), Style::CyanBold).plain(
            " (",
        ).with(found.command.as_str(), Style::Dimmed).plain(")");
        i += 1;
    }
    line
}

pub open spec fn bold_list(start: Seq<SpanView>, v: Seq<Seq<char>>, n: int) -> Seq<SpanView>
    decreases n,
{
    if n <= 0 {
        start
    } else {
        comma(bold_list(start, v, n - 1), n - 1).push(styled(v[n - 1], Style::Bold))
    }
}

fn show_list(start: Line, names: &Vec<String>) -> (r: Line)
    ensures
        r@ == bold_list(start@, text::texts(names@), names@.len() as int),
{
    let ghost first = start@;
    let mut line = start;
    let mut i: usize = 0;
    while i < names.len()
        invariant
            i <= names@.len(),
            line@ == bold_list(first, text::texts(names@), i as int),
        decreases names@.len() - i,
    {
        proof {
            assert(text::texts(names@)[i as int] == names@[i as int]@);
        }
        line = and_comma(line, i).with(names[i].as_str(), Style::Bold);
        i += 1;
    }
    line
}

pub open spec fn requirement_texts(v: Seq<RequirementView>) -> Seq<Seq<char>> {
    Seq::new(v.len(), |i: int| requirement_text(v[i]))
}

fn requirement_list(packages: &Vec<Requirement>) -> (r: Vec<String>)
    ensures
        text::texts(r@) == requirement_texts(requirement_views(packages@)),
{
    let mut out: Vec<String> = Vec::new();
    let mut i: usize = 0;
    while i < packages.len()
        invariant
            i <= packages@.len(),
            out@.len() == i,
            forall|j: int|
                0 <= j < i ==> (#[trigger] out@[j])@ == requirement_text(packages@[j]@),
        decreases packages@.len() - i,
    {
        out.push(packages[i].to_text());
        i += 1;
    }
    proof {
        assert(text::texts(out@) =~= requirement_texts(requirement_views(packages@)));
    }
    out
}

/// The part of the report on the project.
pub open spec fn project_lines(page: Seq<Seq<SpanView>>, a: AssessmentView) -> Seq<Seq<SpanView>> {
    let page = page.push(heading("── Project ──────────────────────────────────────────────"@));
    if a.sources.len() == 0 {
        page.push(
            no_spans().push(plain("  "@)).push(
                styled("(no Python project files detected)"@, Style::Dimmed),
            ),
        )
    } else {
        let page = page.push(bold_list(labelled("files"@), a.sources, a.sources.len() as int));
        let page = match a.requires_python {
            Some(rp) => page.push(labelled("requires-python"@).push(styled(rp, Style::GreenBold))),
            None => page,
        };
        page.push(
            bold_list(
                labelled("dependencies"@),
                requirement_texts(a.packages),
                a.packages.len() as int,
            ),
        )
    }
}

fn add_project(page: &mut Page, a: &Assessment)
    ensures
        final(page)@ == project_lines(old(page)@, a@),
{
    page.add(head("── Project ──────────────────────────────────────────────"));
    if a.project.sources.len() == 0 {
        page.add(
            Line::new().plain("  ").with("(no Python project files detected)", Style::Dimmed),
        );
    } else {
        page.add(show_list(label("files"), &a.project.sources));
        if let Some(rp) = &a.project.declared_requires_python {
            page.add(label("requires-python").with(rp.as_str(), Style::GreenBold));
        }
        let names = requirement_list(&a.project.packages);
        proof {
            assert(names@.len() == text::texts(names@).len());
        }
        page.add(show_list(label("dependencies"), &names));
    }
}

/// A package and the versions it supports.
pub open spec fn package_line(a: PackageAnalysisView) -> Seq<SpanView> {
    let line = no_spans().push(plain("    "@)).push(styled("•"@, Style::Dimmed)).push(
        plain(" "@),
    ).push(styled(padded(a.name, 20), Style::Bold)).push(plain(" "@)).push(
        styled(range_text(a.supported), Style::Green),
    );
    if a.sdist_only {
        line.push(styled(" (sdist only)"@, Style::Yellow))
    } else {
        line
    }
}

pub open spec fn package_lines(
    page: Seq<Seq<SpanView>>,
    v: Seq<PackageAnalysisView>,
    n: int,
) -> Seq<Seq<SpanView>>
    decreases n,
{
    if n <= 0 {
        page
    } else {
        package_lines(page, v, n - 1).push(package_line(v[n - 1]))
    }
}

fn add_packages(page: &mut Page, packages: &Vec<PackageAnalysis>)
    ensures
        final(page)@ == package_lines(
            old(page)@,
            analysis_views(packages@),
            packages@.len() as int,
        ),
{
    let ghost first = page@;
    let ghost views = analysis_views(packages@);
    let mut i: usize = 0;
    while i < packages.len()
        invariant
            i <= packages@.len(),
            views == analysis_views(packages@),
            page@ == package_lines(first, views, i as int),
        decreases packages@.len() - i,
    {
        let p = &packages[i];
        proof {
            assert(views[i as int] == p@);
        }
        let line = Line::new().plain("    ").with("•", Style::Dimmed).plain(" ").with(
            pad(p.name.as_str(), 20).as_str(),
            Style::Bold,
        ).plain(" ").with(p.supported.to_range_string().as_str(), Style::Green);
        if p.sdist_only {
            page.add(line.with(" (sdist only)", Style::Yellow));
        } else {
            page.add(line);
        }
        i += 1;
    }
}

/// A package that could not be resolved, and why.
pub open spec fn unresolved_line(u: (Seq<char>, Seq<char>)) -> Seq<SpanView> {
    no_spans().push(plain("    "@)).push(styled("•"@, Style::Dimmed)).push(plain(" "@)).push(
        styled(padded(u.0, 20), Style::Bold),
    ).push(plain(" "@)).push(styled("unresolved ("@ + u.1 + ")"@, Style::RedBold))
}

pub open spec fn unresolved_lines(
    page: Seq<Seq<SpanView>>,
    v: Seq<(Seq<char>, Seq<char>)>,
    n: int,
) -> Seq<Seq<SpanView>>
    decreases n,
{
    if n <= 0 {
        page
    } else {
        unresolved_lines(page, v, n - 1).push(unresolved_line(v[n - 1]))
    }
}

fn add_unresolved(page: &mut Page, unresolved: &Vec<(String, String)>)
    ensures
        final(page)@ == unresolved_lines(
            old(page)@,
            pair_views(unresolved@),
            unresolved@.len() as int,
        ),
{
    let ghost first = page@;
    let ghost views = pair_views(unresolved@);
    let mut i: usize = 0;
    while i < unresolved.len()
        invariant
            i <= unresolved@.len(),
            views == pair_views(unresolved@),
            page@ == unresolved_lines(first, views, i as int),
        decreases unresolved@.len() - i,
    {
        let u = &unresolved[i];
        proof {
            assert(views[i as int] == (u.0@, u.1@));
        }
        let mut why = "unresolved (".to_string();
        why.append(u.1.as_str());
        why.append(")");
        page.add(
            Line::new().plain("    ").with("•", Style::Dimmed).plain(" ").with(
                pad(u.0.as_str(), 20).as_str(),
                Style::Bold,
            ).plain(" ").with(why.as_str(), Style::RedBold),
        );
        i += 1;
    }
}

/// The part of the report on compatibility, where there is something to check.
pub open spec fn compat_lines(
    page: Seq<Seq<SpanView>>,
    compat: Option<CompatReportView>,
    target: Option<PyVersion>,
) -> Seq<Seq<SpanView>> {
    match compat {
        Some(c) => {
            let page = page.push(
                heading("── Compatibility ────────────────────────────────────────"@),
            ).push(
                labelled("supported Python"@).push(
                    styled(range_text(c.intersection), Style::GreenBold),
                ),
            );
            let page = match target {
                Some(t) => page.push(
                    labelled("recommended"@).push(
                        styled("Python "@ + version_text(t), Style::CyanBold),
                    ),
                ),
                None => page,
            };
            unresolved_lines(
                package_lines(page, c.per_package, c.per_package.len() as int),
                c.unresolved,
                c.unresolved.len() as int,
            ).push(no_spans())
        },
        None => page,
    }
}

fn add_compat(page: &mut Page, compat: &Option<CompatReport>, target: Option<PyVersion>)
    ensures
        final(page)@ == compat_lines(
            old(page)@,
            match *compat {
                Some(c) => Some(c@),
                None => None,
            },
            target,
        ),
{
    if let Some(c) = compat {
        page.add(head("── Compatibility ────────────────────────────────────────"));
        page.add(
            label("supported Python").with(
                c.intersection.to_range_string().as_str(),
                Style::GreenBold,
            ),
        );
        if let Some(t) = target {
            let mut s = "Python ".to_string();
            s.append(t.to_text().as_str());
            page.add(label("recommended").with(s.as_str(), Style::CyanBold));
        }
        add_packages(page, &c.per_package);
        add_unresolved(page, &c.unresolved);
        page.add(Line::new());
    }
}

pub open spec fn tag(s: Severity) -> SpanView {
    match s {
        Severity::Error => styled("[ERROR]"@, Style::RedBold),
        Severity::Warning => styled("[WARN ]"@, Style::YellowBold),
        Severity::Info => styled("[INFO ]"@, Style::CyanBold),
    }
}

/// The first `n` findings, two lines each.
pub open spec fn finding_lines(
    page: Seq<Seq<SpanView>>,
    v: Seq<FindingView>,
    n: int,
) -> Seq<Seq<SpanView>>
    decreases n,
{
    if n <= 0 {
        page
    } else {
        finding_lines(page, v, n - 1).push(
            no_spans().push(plain("  "@)).push(tag(v[n - 1].severity)).push(plain(" "@)).push(
                styled(v[n - 1].title, Style::Bold),
            ),
        ).push(
            no_spans().push(plain("          "@)).push(styled(v[n - 1].detail, Style::Dimmed)),
        )
    }
}

fn add_findings(page: &mut Page, findings: &Vec<Finding>)
    ensures
        final(page)@ == finding_lines(
            old(page)@,
            finding_views(findings@),
            findings@.len() as int,
        ),
{
    let ghost first = page@;
    let ghost views = finding_views(findings@);
    let mut i: usize = 0;
    while i < findings.len()
        invariant
            i <= findings@.len(),
            views == finding_views(findings@),
            page@ == finding_lines(first, views, i as int),
        decreases findings@.len() - i,
    {
        let f = &findings[i];
        proof {
            assert(views[i as int] == f@);
        }
        let start = Line::new().plain("  ");
        let tagged = match f.severity {
            Severity::Error => start.with("[ERROR]", Style::RedBold),
            Severity::Warning => start.with("[WARN ]", Style::YellowBold),
            Severity::Info => start.with("[INFO ]", Style::CyanBold),
        };
        page.add(tagged.plain(" ").with(f.title.as_str(), Style::Bold));
        page.add(Line::new().plain("          ").with(f.detail.as_str(), Style::Dimmed));
        i += 1;
    }
}

/// The whole report.
pub open spec fn doctor_page(
    workspace: Seq<char>,
    manager: PackageManager,
    a: AssessmentView,
) -> Seq<Seq<SpanView>> {
    let page = no_lines().push(
        no_spans().push(styled("PyPilot doctor"@, Style::CyanBold)).push(plain(" — "@)).push(
            styled(workspace, Style::Dimmed),
        ),
    ).push(
        labelled("package manager"@).push(styled(manager_name(manager), Style::Bold)),
    ).push(no_spans()).push(
        heading("── Environment ──────────────────────────────────────────"@),
    ).push(uv_line(a.uv)).push(venv_line(a.venv)).push(interpreters_line(a.interpreters)).push(
        no_spans(),
    );
    let page = project_lines(page, a).push(no_spans());
    let page = compat_lines(page, a.compat, a.target_python).push(
        heading("── Findings ─────────────────────────────────────────────"@),
    );
    if a.findings.len() == 0 {
        page.push(
            no_spans().push(plain("  "@)).push(styled("✓"@, Style::GreenBold)).push(
                plain(" Everything looks good."@),
            ),
        )
    } else {
        finding_lines(page, a.findings, a.findings.len() as int)
    }
}

/// The report `pypilot doctor` prints.
pub fn report(workspace: &str, manager: PackageManager, a: &Assessment) -> (r: Page)
    ensures
        r@ == doctor_page(workspace@, manager, a@),
{
    let mut page = Page::new();
    page.add(
        Line::new().with("PyPilot doctor", Style::CyanBold).plain(" — ").with(
            workspace,
            Style::Dimmed,
        ),
    );
    page.add(label("package manager").with(manager_text(manager), Style::Bold));
    page.add(Line::new());
    page.add(head("── Environment ──────────────────────────────────────────"));
    page.add(show_uv(&a.probes.uv));
    page.add(show_venv(&a.probes.venv));
    page.add(show_interpreters(&a.probes.interpreters));
    page.add(Line::new());
    add_project(&mut page, a);
    page.add(Line::new());
    add_compat(&mut page, &a.compat, a.target_python);
    page.add(head("── Findings ─────────────────────────────────────────────"));
    if a.findings.len() == 0 {
        page.add(
            Line::new().plain("  ").with("✓", Style::GreenBold).plain(" Everything looks good."),
        );
    } else {
        add_findings(&mut page, &a.findings);
    }
    page
}

// ---------------------------------------------------------------------------
// Laws
// ---------------------------------------------------------------------------

proof fn lemma_finding_lines(page: Seq<Seq<SpanView>>, v: Seq<FindingView>, n: int)
    requires
        0 <= n <= v.len(),
    ensures
        finding_lines(page, v, n).len() == page.len() + 2 * n,
        forall|k: int|
            0 <= k < page.len() ==> #[trigger] finding_lines(page, v, n)[k] == page[k],
        forall|i: int|
            0 <= i < n ==> {
                let first = finding_lines(page, v, n)[page.len() + 2 * i];
                let second = finding_lines(page, v, n)[page.len() + 2 * i + 1];
                &&& first.len() == 4
                &&& first[1] == tag((#[trigger] v[i]).severity)
                &&& first[3].text == v[i].title
                &&& second.len() == 2
                &&& second[1].text == v[i].detail
            },
    decreases n,
{
    if n > 0 {
        lemma_finding_lines(page, v, n - 1);
    }
}

proof fn lemma_package_lines(page: Seq<Seq<SpanView>>, v: Seq<PackageAnalysisView>, n: int)
    requires
        0 <= n <= v.len(),
    ensures
        package_lines(page, v, n).len() == page.len() + n,
        forall|k: int|
            0 <= k < page.len() ==> #[trigger] package_lines(page, v, n)[k] == page[k],
        forall|i: int|
            0 <= i < n ==> package_lines(page, v, n)[page.len() + i] == package_line(
                #[trigger] v[i],
            ),
    decreases n,
{
    if n > 0 {
        lemma_package_lines(page, v, n - 1);
    }
}

proof fn lemma_unresolved_lines(page: Seq<Seq<SpanView>>, v: Seq<(Seq<char>, Seq<char>)>, n: int)
    requires
        0 <= n <= v.len(),
    ensures
        unresolved_lines(page, v, n).len() == page.len() + n,
        forall|k: int|
            0 <= k < page.len() ==> #[trigger] unresolved_lines(page, v, n)[k] == page[k],
        forall|i: int|
            0 <= i < n ==> unresolved_lines(page, v, n)[page.len() + i] == unresolved_line(
                #[trigger] v[i],
            ),
    decreases n,
{
    if n > 0 {
        lemma_unresolved_lines(page, v, n - 1);
    }
}

/// The report up to the part on the project.
spec fn environment_part(workspace: Seq<char>, manager: PackageManager, a: AssessmentView) -> Seq<
    Seq<SpanView>,
> {
    no_lines().push(
        no_spans().push(styled("PyPilot doctor"@, Style::CyanBold)).push(plain(" — "@)).push(
            styled(workspace, Style::Dimmed),
        ),
    ).push(
        labelled("package manager"@).push(styled(manager_name(manager), Style::Bold)),
    ).push(no_spans()).push(
        heading("── Environment ──────────────────────────────────────────"@),
    ).push(uv_line(a.uv)).push(venv_line(a.venv)).push(interpreters_line(a.interpreters)).push(
        no_spans(),
    )
}

/// The report up to its findings.
spec fn before_findings(workspace: Seq<char>, manager: PackageManager, a: AssessmentView) -> Seq<
    Seq<SpanView>,
> {
    compat_lines(
        project_lines(environment_part(workspace, manager, a), a).push(no_spans()),
        a.compat,
        a.target_python,
    ).push(heading("── Findings ─────────────────────────────────────────────"@))
}

proof fn lemma_report_grows(workspace: Seq<char>, manager: PackageManager, a: AssessmentView)
    ensures
        before_findings(workspace, manager, a).len() <= doctor_page(workspace, manager, a).len(),
        forall|k: int|
            0 <= k < before_findings(workspace, manager, a).len() ==> #[trigger] doctor_page(
                workspace,
                manager,
                a,
            )[k] == before_findings(workspace, manager, a)[k],
{
    lemma_finding_lines(
        before_findings(workspace, manager, a),
        a.findings,
        a.findings.len() as int,
    );
}

/// A report ends with its findings, each tagged by how severe it is and followed by
/// what is to be said of it.
pub proof fn reports_end_with_every_finding(
    workspace: Seq<char>,
    manager: PackageManager,
    a: AssessmentView,
    i: int,
)
    requires
        0 <= i < a.findings.len(),
    ensures
        ({
            let page = doctor_page(workspace, manager, a);
            let at = page.len() - 2 * (a.findings.len() - i);
            &&& 0 <= at
            &&& page[at].len() == 4
            &&& page[at][1].text == (match a.findings[i].severity {
                Severity::Error => "[ERROR]"@,
                Severity::Warning => "[WARN ]"@,
                Severity::Info => "[INFO ]"@,
            })
            &&& page[at][3].text == a.findings[i].title
            &&& page[at + 1].len() == 2
            &&& page[at + 1][1].text == a.findings[i].detail
        }),
{
    lemma_finding_lines(
        before_findings(workspace, manager, a),
        a.findings,
        a.findings.len() as int,
    );
    assert(doctor_page(workspace, manager, a) == finding_lines(
        before_findings(workspace, manager, a),
        a.findings,
        a.findings.len() as int,
    ));
}

/// A report without findings says that all is well.
pub proof fn clean_reports_say_so(workspace: Seq<char>, manager: PackageManager, a: AssessmentView)
    requires
        a.findings.len() == 0,
    ensures
        doctor_page(workspace, manager, a).last().last().text == " Everything looks good."@,
{
}

/// A report shows every package that was analysed with the versions it supports.
pub proof fn reports_show_every_package(
    workspace: Seq<char>,
    manager: PackageManager,
    a: AssessmentView,
    compat: CompatReportView,
    i: int,
)
    requires
        a.compat == Some(compat),
        0 <= i < compat.per_package.len(),
    ensures
        exists|k: int|
            0 <= k < doctor_page(workspace, manager, a).len() && ({
                let line = #[trigger] doctor_page(workspace, manager, a)[k];
                &&& line.len() >= 6
                &&& line[3].text == padded(compat.per_package[i].name, 20)
                &&& line[5].text == range_text(compat.per_package[i].supported)
                &&& (line.len() == 7 && line[6].text == " (sdist only)"@)
                    == compat.per_package[i].sdist_only
            }),
{
    lemma_report_grows(workspace, manager, a);
    let start = project_lines(environment_part(workspace, manager, a), a).push(no_spans());
    let head = compat_head(start, compat, a.target_python);
    let n = compat.per_package.len() as int;
    let packages = package_lines(head, compat.per_package, n);
    lemma_package_lines(head, compat.per_package, n);
    lemma_unresolved_lines(packages, compat.unresolved, compat.unresolved.len() as int);
    let k = head.len() + i;
    assert(packages[k] == package_line(compat.per_package[i]));
    assert(before_findings(workspace, manager, a)[k] == packages[k]);
    assert(doctor_page(workspace, manager, a)[k] == packages[k]);
}

/// A report shows every name that could not be resolved, and why.
pub proof fn reports_show_every_unresolved_name(
    workspace: Seq<char>,
    manager: PackageManager,
    a: AssessmentView,
    compat: CompatReportView,
    i: int,
)
    requires
        a.compat == Some(compat),
        0 <= i < compat.unresolved.len(),
    ensures
        exists|k: int|
            0 <= k < doctor_page(workspace, manager, a).len() && ({
                let line = #[trigger] doctor_page(workspace, manager, a)[k];
                &&& line.len() == 6
                &&& line[3].text == padded(compat.unresolved[i].0, 20)
                &&& line[5].text == "unresolved ("@ + compat.unresolved[i].1 + ")"@
            }),
{
    lemma_report_grows(workspace, manager, a);
    let start = project_lines(environment_part(workspace, manager, a), a).push(no_spans());
    let head = compat_head(start, compat, a.target_python);
    let packages = package_lines(
        head,
        compat.per_package,
        compat.per_package.len() as int,
    );
    let n = compat.unresolved.len() as int;
    lemma_unresolved_lines(packages, compat.unresolved, n);
    let k = packages.len() + i;
    let all = unresolved_lines(packages, compat.unresolved, n);
    assert(all[k] == unresolved_line(compat.unresolved[i]));
    assert(before_findings(workspace, manager, a)[k] == all[k]);
    assert(doctor_page(workspace, manager, a)[k] == all[k]);
}

/// The part on compatibility up to its packages.
spec fn compat_head(
    page: Seq<Seq<SpanView>>,
    c: CompatReportView,
    target: Option<PyVersion>,
) -> Seq<Seq<SpanView>> {
    let page = page.push(heading("── Compatibility ────────────────────────────────────────"@)).push(
        labelled("supported Python"@).push(styled(range_text(c.intersection), Style::GreenBold)),
    );
    match target {
        Some(t) => page.push(
            labelled("recommended"@).push(styled("Python "@ + version_text(t), Style::CyanBold)),
        ),
        None => page,
    }
}

/// A report tells which Python is recommended, where one is.
pub proof fn reports_tell_the_recommended_python(
    workspace: Seq<char>,
    manager: PackageManager,
    a: AssessmentView,
    compat: CompatReportView,
    target: PyVersion,
)
    requires
        a.compat == Some(compat),
        a.target_python == Some(target),
    ensures
        exists|k: int|
            0 <= k < doctor_page(workspace, manager, a).len() && ({
                let line = #[trigger] doctor_page(workspace, manager, a)[k];
                &&& line.len() == 4
                &&& line[1].text == padded("recommended"@, 16)
                &&& line[3].text == "Python "@ + version_text(target)
            }),
{
    lemma_report_grows(workspace, manager, a);
    let start = project_lines(environment_part(workspace, manager, a), a).push(no_spans());
    let head = compat_head(start, compat, a.target_python);
    let packages = package_lines(
        head,
        compat.per_package,
        compat.per_package.len() as int,
    );
    lemma_package_lines(head, compat.per_package, compat.per_package.len() as int);
    lemma_unresolved_lines(packages, compat.unresolved, compat.unresolved.len() as int);
    let k = head.len() - 1;
    assert(packages[k] == head[k]);
    assert(before_findings(workspace, manager, a)[k] == head[k]);
    assert(doctor_page(workspace, manager, a)[k] == head[k]);
}

/// A report tells whether uv is there and which it is, and on which Python the
/// environment stands, where there is one.
pub proof fn reports_tell_the_tools(path: Seq<char>, python: PyVersion, info: UvInfoView)
    ensures
        uv_line(Some(info))[3].text == "present"@,
        uv_line(Some(info))[5].text == "v"@ + info.version,
        uv_line(Some(info))[7].text == if info.managed {
            "managed"@
        } else {
            "on PATH"@
        },
        uv_line(None).last().text == "not detected"@,
        venv_line(Some((path, Some(python))))[3].text == path,
        venv_line(Some((path, Some(python))))[5].text == "Python "@ + version_text(python),
        venv_line(Some((path, None)))[5].text == "unknown"@,
        venv_line(None).last().text == "none"@,
{
}

} // verus!
