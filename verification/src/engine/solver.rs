//! The constraint solver: turns probes, project and PyPI metadata into findings.
//!
//! Every finding states the *why*: which package constrained the Python choice.

use vstd::prelude::*;

use crate::engine::command::Output;
use crate::engine::probe::Probes;
use crate::engine::interpreter;
use crate::engine::project::ProjectDeps;
use crate::engine::{
    finding_views, lemma_findings_push, Assessment, Finding, FindingView, FixKind, Severity,
};
use crate::matrix::HardwareReport;
use crate::pypi::metadata::{PackageAnalysis, PackageAnalysisView};
use crate::pypi::pyversion::{highest, range_text, version_text, PyVersion};
use crate::pypi::{analysis_views, blocks, compatible, CompatReport, CompatReportView};
use crate::text;

verus! {

/// Flattened, process-free view of the environment for [`synthesize`].
#[derive(Debug)]
pub struct EnvSummary {
    pub has_venv: bool,
    pub venv_python: Option<PyVersion>,
    pub uv_present: bool,
    pub interpreters: Vec<PyVersion>,
}

impl Default for EnvSummary {
    fn default() -> (r: EnvSummary)
        ensures
            !r.has_venv,
            r.venv_python is None,
            !r.uv_present,
            r.interpreters@.len() == 0,
    {
        EnvSummary {
            has_venv: false,
            venv_python: None,
            uv_present: false,
            interpreters: Vec::new(),
        }
    }
}

impl EnvSummary {
    /// The flattened view of what probing found.
    pub fn from_probes(p: &Probes) -> (r: EnvSummary)
        ensures
            r.has_venv == (p.venv is Some),
            r.venv_python == match p.venv {
                Some(v) => v.python,
                None => None,
            },
            r.uv_present == (p.uv is Some),
            r.interpreters@ == Seq::new(
                p.interpreters@.len(),
                |i: int| p.interpreters@[i].version,
            ),
    {
        let mut interpreters: Vec<PyVersion> = Vec::new();
        let mut i: usize = 0;
        while i < p.interpreters.len()
            invariant
                i <= p.interpreters@.len(),
                interpreters@.len() == i,
                forall|j: int| 0 <= j < i ==> #[trigger] interpreters@[j] == p.interpreters@[j].version,
            decreases p.interpreters@.len() - i,
        {
            interpreters.push(p.interpreters[i].version);
            i += 1;
        }
        proof {
            assert(interpreters@ =~= Seq::new(
                p.interpreters@.len(),
                |i: int| p.interpreters@[i].version,
            ));
        }
        EnvSummary {
            has_venv: p.venv.is_some(),
            venv_python: match &p.venv {
                Some(v) => v.python,
                None => None,
            },
            uv_present: p.uv.is_some(),
            interpreters,
        }
    }
}

// ---------------------------------------------------------------------------
// What the findings say
// ---------------------------------------------------------------------------

pub open spec fn conda_finding() -> FindingView {
    FindingView {
        severity: Severity::Info,
        title: "Conda environment detected"@,
        detail: "environment.yml found. PyPilot won't manage conda directly; `pypilot migrate-conda` translates it to a pyproject.toml."@,
        fix: FixKind::MigrateConda,
    }
}

pub open spec fn no_venv_finding() -> FindingView {
    FindingView {
        severity: Severity::Warning,
        title: "No virtual environment"@,
        detail: "This project has Python files but no .venv. Create one to isolate its dependencies."@,
        fix: FixKind::SetupEnvironment,
    }
}

pub open spec fn unresolved_finding(u: (Seq<char>, Seq<char>)) -> FindingView {
    FindingView {
        severity: Severity::Warning,
        title: "Could not resolve `"@ + u.0 + "`"@,
        detail: "PyPI lookup failed for `"@ + u.0 + "` ("@ + u.1
            + "). It may be a typo or a private package."@,
        fix: FixKind::Manual,
    }
}

pub open spec fn compile_finding(warning: Seq<char>) -> FindingView {
    FindingView {
        severity: Severity::Warning,
        title: "Will compile from source"@,
        detail: warning,
        fix: FixKind::Manual,
    }
}

pub open spec fn conflict_finding(compat: CompatReportView) -> FindingView {
    FindingView {
        severity: Severity::Error,
        title: "Dependencies conflict on Python version"@,
        detail: if compat.conflicts.len() > 0 {
            compat.conflicts[0].explanation
        } else {
            "The project's dependencies have no common supported Python version."@
        },
        fix: FixKind::Manual,
    }
}

/// A blocking package and what it supports.
pub open spec fn blocker_text() -> spec_fn(PackageAnalysisView) -> Seq<char> {
    |a: PackageAnalysisView| a.name + " (supports "@ + range_text(a.supported) + ")"@
}

/// Who blocks the current interpreter.
pub open spec fn blockers_text(compat: CompatReportView, current: PyVersion) -> Seq<char> {
    let blockers = compat.per_package.filter(blocks(current));
    if blockers.len() == 0 {
        "some dependencies"@
    } else {
        text::join_spec(blockers.map_values(blocker_text()), ", "@)
    }
}

pub open spec fn incompat_text(
    compat: CompatReportView,
    current: PyVersion,
    target: Option<PyVersion>,
) -> Seq<char> {
    let head = blockers_text(compat, current) + " do not support Python "@ + version_text(current)
        + "."@;
    match target {
        Some(t) => head + " Recreate the environment with Python "@ + version_text(t) + "."@,
        None => head,
    }
}

/// Of the first `n` packages whose newest version is `cap`, the first that
/// supports the fewest versions.
pub open spec fn limiter(v: Seq<PackageAnalysisView>, cap: PyVersion, n: int) -> Option<int>
    decreases n,
{
    if n <= 0 {
        None
    } else {
        let best = limiter(v, cap, n - 1);
        if highest(v[n - 1].supported) != Some(cap) {
            best
        } else {
            match best {
                Some(b) => if v[n - 1].supported.len() < v[b].supported.len() {
                    Some(n - 1)
                } else {
                    best
                },
                None => Some(n - 1),
            }
        }
    }
}

/// The package that sets the upper bound of the recommendation.
pub open spec fn capping_text(compat: CompatReportView) -> Seq<char> {
    match highest(compat.intersection) {
        Some(cap) => match limiter(compat.per_package, cap, compat.per_package.len() as int) {
            Some(i) => " (upper bound set by "@ + compat.per_package[i].name + ", which supports "@
                + range_text(compat.per_package[i].supported) + ")"@,
            None => seq![],
        },
        None => seq![],
    }
}

pub open spec fn setup_finding(compat: CompatReportView) -> FindingView {
    let head = "Dependencies support Python "@ + range_text(compat.intersection) + "."@;
    FindingView {
        severity: Severity::Warning,
        title: "No environment set up yet"@,
        detail: match highest(compat.intersection) {
            Some(t) => head + " Recommended: "@ + version_text(t) + capping_text(compat) + "."@,
            None => head,
        },
        fix: FixKind::SetupEnvironment,
    }
}

pub open spec fn wrong_python_finding(compat: CompatReportView, current: PyVersion) -> FindingView {
    let target = highest(compat.intersection);
    FindingView {
        severity: Severity::Error,
        title: "Python "@ + version_text(current) + " is not supported by this project"@,
        detail: incompat_text(compat, current, target),
        fix: match target {
            Some(t) => FixKind::RecreateWithPython(t),
            None => FixKind::Manual,
        },
    }
}

/// What the dependencies themselves give rise to.
pub open spec fn dependency_findings(compat: CompatReportView) -> Seq<FindingView> {
    Seq::new(compat.unresolved.len(), |i: int| unresolved_finding(compat.unresolved[i])) + Seq::new(
        compat.sdist_warnings.len(),
        |i: int| compile_finding(compat.sdist_warnings[i]),
    )
}

/// What is wrong with the interpreter in use: a conflict no version solves, a
/// venv on an unsupported version, or no venv yet. A compatible venv is silent.
pub open spec fn interpreter_findings(
    compat: CompatReportView,
    venv_python: Option<PyVersion>,
) -> Seq<FindingView> {
    if compat.intersection == Set::<u8>::empty() {
        seq![conflict_finding(compat)]
    } else {
        match venv_python {
            Some(current) => if compatible(compat, current) {
                seq![]
            } else {
                seq![wrong_python_finding(compat, current)]
            },
            None => seq![setup_finding(compat)],
        }
    }
}

/// The findings on a workspace.
pub open spec fn findings_spec(
    has_venv: bool,
    venv_python: Option<PyVersion>,
    is_python: bool,
    has_conda: bool,
    compat: Option<CompatReportView>,
) -> Seq<FindingView> {
    let conda = if has_conda {
        seq![conda_finding()]
    } else {
        seq![]
    };
    if !is_python {
        seq![]
    } else {
        match compat {
            None => if has_venv {
                conda
            } else {
                conda.push(no_venv_finding())
            },
            Some(compat) => conda + dependency_findings(compat) + interpreter_findings(
                compat,
                venv_python,
            ),
        }
    }
}

/// The interpreter to target: the newest every dependency supports.
pub open spec fn target_spec(is_python: bool, compat: Option<CompatReportView>) -> Option<
    PyVersion,
> {
    match compat {
        Some(compat) => if is_python {
            highest(compat.intersection)
        } else {
            None
        },
        None => None,
    }
}

pub open spec fn opt_report(o: Option<&CompatReport>) -> Option<CompatReportView> {
    match o {
        Some(r) => Some(r@),
        None => None,
    }
}

// ---------------------------------------------------------------------------
// Making them
// ---------------------------------------------------------------------------

/// Explain why the current interpreter is unsupported, naming the blockers.
fn incompat_reason(compat: &CompatReport, current: PyVersion, target: Option<PyVersion>) -> (r:
    String)
    ensures
        r@ == incompat_text(compat@, current, target),
{
    let blockers = compat.blockers_for(current);
    let ghost views = analysis_views(blockers@);
    let mut names: Vec<String> = Vec::new();
    let mut i: usize = 0;
    while i < blockers.len()
        invariant
            i <= blockers@.len(),
            views == analysis_views(blockers@),
            names@.len() == i,
            forall|j: int| 0 <= j < i ==> (#[trigger] names@[j])@ == blocker_text()(views[j]),
        decreases blockers@.len() - i,
    {
        let p = &blockers[i];
        let mut name = p.name.clone();
        name.append(" (supports ");
        name.append(p.supported.to_range_string().as_str());
        name.append(")");
        proof {
            assert(views[i as int] == p@);
        }
        names.push(name);
        i += 1;
    }
    let mut out = if names.len() == 0 {
        "some dependencies".to_string()
    } else {
        proof {
            assert(text::texts(names@) =~= views.map_values(blocker_text()));
        }
        text::join(&names, ", ")
    };
    out.append(" do not support Python ");
    out.append(current.to_text().as_str());
    out.append(".");
    if let Some(t) = target {
        out.append(" Recreate the environment with Python ");
        out.append(t.to_text().as_str());
        out.append(".");
    }
    out
}

/// The package whose upper bound is `cap`, the narrowest first.
pub fn find_limiter(packages: &Vec<PackageAnalysis>, cap: PyVersion) -> (r: Option<usize>)
    ensures
        match r {
            Some(i) => i < packages@.len() && limiter(
                analysis_views(packages@),
                cap,
                packages@.len() as int,
            ) == Some(i as int),
            None => limiter(analysis_views(packages@), cap, packages@.len() as int) is None,
        },
{
    let ghost views = analysis_views(packages@);
    let mut best: Option<usize> = None;
    let mut i: usize = 0;
    while i < packages.len()
        invariant
            i <= packages@.len(),
            views == analysis_views(packages@),
            match best {
                Some(b) => b < i && limiter(views, cap, i as int) == Some(b as int),
                None => limiter(views, cap, i as int) is None,
            },
        decreases packages@.len() - i,
    {
        proof {
            assert(views[i as int] == packages@[i as int]@);
        }
        let capped = match packages[i].supported.max() {
            Some(v) => v == cap,
            None => false,
        };
        if capped {
            match best {
                Some(b) => {
                    proof {
                        assert(views[b as int] == packages@[b as int]@);
                    }
                    if packages[i].supported.len() < packages[b].supported.len() {
                        best = Some(i);
                    }
                },
                None => {
                    best = Some(i);
                },
            }
        }
        i += 1;
    }
    best
}

/// "(upper bound set by X, which supports 3.9–3.12)" for the recommendation.
fn capping_clause(compat: &CompatReport) -> (r: String)
    ensures
        r@ == capping_text(compat@),
{
    let cap = match compat.intersection.max() {
        Some(cap) => cap,
        None => return String::new(),
    };
    match find_limiter(&compat.per_package, cap) {
        Some(i) => {
            let p = &compat.per_package[i];
            let mut out = " (upper bound set by ".to_string();
            out.append(p.name.as_str());
            out.append(", which supports ");
            out.append(p.supported.to_range_string().as_str());
            out.append(")");
            out
        },
        None => String::new(),
    }
}

fn push_dependency_findings(compat: &CompatReport, findings: &mut Vec<Finding>)
    ensures
        finding_views(final(findings)@) == finding_views(old(findings)@) + dependency_findings(
            compat@,
        ),
{
    let ghost before = finding_views(findings@);
    let ghost first = Seq::new(
        compat@.unresolved.len(),
        |i: int| unresolved_finding(compat@.unresolved[i]),
    );
    let ghost second = Seq::new(
        compat@.sdist_warnings.len(),
        |i: int| compile_finding(compat@.sdist_warnings[i]),
    );
    let mut i: usize = 0;
    proof {
        assert(before + first.take(0) =~= before);
    }
    while i < compat.unresolved.len()
        invariant
            i <= compat.unresolved@.len(),
            first == Seq::new(
                compat@.unresolved.len(),
                |i: int| unresolved_finding(compat@.unresolved[i]),
            ),
            finding_views(findings@) == before + first.take(i as int),
        decreases compat.unresolved@.len() - i,
    {
        let name = compat.unresolved[i].0.as_str();
        let err = compat.unresolved[i].1.as_str();
        let mut title = "Could not resolve `".to_string();
        title.append(name);
        title.append("`");
        let mut detail = "PyPI lookup failed for `".to_string();
        detail.append(name);
        detail.append("` (");
        detail.append(err);
        detail.append("). It may be a typo or a private package.");
        let f = Finding { severity: Severity::Warning, title, detail, fix: FixKind::Manual };
        proof {
            lemma_findings_push(findings@, f);
            assert(f@ == first[i as int]);
            assert(before + first.take(i as int + 1) =~= (before + first.take(i as int)).push(f@));
        }
        findings.push(f);
        i += 1;
    }
    let mut k: usize = 0;
    proof {
        assert(first.take(i as int) =~= first);
        assert(before + first + second.take(0) =~= before + first);
    }
    while k < compat.sdist_warnings.len()
        invariant
            k <= compat.sdist_warnings@.len(),
            second == Seq::new(
                compat@.sdist_warnings.len(),
                |i: int| compile_finding(compat@.sdist_warnings[i]),
            ),
            finding_views(findings@) == before + first + second.take(k as int),
        decreases compat.sdist_warnings@.len() - k,
    {
        let f = Finding {
            severity: Severity::Warning,
            title: "Will compile from source".to_string(),
            detail: compat.sdist_warnings[k].clone(),
            fix: FixKind::Manual,
        };
        proof {
            lemma_findings_push(findings@, f);
            assert(f@ == second[k as int]);
            assert(before + first + second.take(k as int + 1) =~= (before + first + second.take(
                k as int,
            )).push(f@));
        }
        findings.push(f);
        k += 1;
    }
    proof {
        assert(second.take(k as int) =~= second);
        assert(before + first + second =~= before + dependency_findings(compat@));
    }
}

fn interpreter_finding(compat: &CompatReport, venv_python: Option<PyVersion>) -> (r: Option<Finding>)
    ensures
        interpreter_findings(compat@, venv_python) == (match r {
            Some(f) => seq![f@],
            None => seq![],
        }),
{
    if compat.intersection.is_empty() {
        let detail = if compat.conflicts.len() > 0 {
            compat.conflicts[0].explanation.clone()
        } else {
            "The project's dependencies have no common supported Python version.".to_string()
        };
        return Some(
            Finding {
                severity: Severity::Error,
                title: "Dependencies conflict on Python version".to_string(),
                detail,
                fix: FixKind::Manual,
            },
        );
    }
    let target = compat.suggested_python();
    match venv_python {
        Some(current) => {
            if compat.is_compatible(current) {
                return None;
            }
            let mut title = "Python ".to_string();
            title.append(current.to_text().as_str());
            title.append(" is not supported by this project");
            Some(
                Finding {
                    severity: Severity::Error,
                    title,
                    detail: incompat_reason(compat, current, target),
                    fix: match target {
                        Some(t) => FixKind::RecreateWithPython(t),
                        None => FixKind::Manual,
                    },
                },
            )
        },
        None => {
            let mut detail = "Dependencies support Python ".to_string();
            detail.append(compat.intersection.to_range_string().as_str());
            detail.append(".");
            if let Some(t) = target {
                detail.append(" Recommended: ");
                detail.append(t.to_text().as_str());
                detail.append(capping_clause(compat).as_str());
                detail.append(".");
            }
            Some(
                Finding {
                    severity: Severity::Warning,
                    title: "No environment set up yet".to_string(),
                    detail,
                    fix: FixKind::SetupEnvironment,
                },
            )
        },
    }
}

/// Pure decision logic: given a flattened environment, the project, and the
/// compatibility report, produce the target interpreter and the findings.
pub fn synthesize(env: &EnvSummary, project: &ProjectDeps, compat: Option<&CompatReport>) -> (r: (
    Option<PyVersion>,
    Vec<Finding>,
))
    ensures
        r.0 == target_spec(project.sources@.len() > 0, opt_report(compat)),
        finding_views(r.1@) == findings_spec(
            env.has_venv,
            env.venv_python,
            project.sources@.len() > 0,
            project.has_conda_env,
            opt_report(compat),
        ),
{
    let mut findings: Vec<Finding> = Vec::new();
    proof {
        assert(finding_views(findings@) =~= seq![]);
    }
    if !project.is_python_project() {
        return (None, findings);
    }
    if project.has_conda_env {
        let f = Finding {
            severity: Severity::Info,
            title: "Conda environment detected".to_string(),
            detail:
                "environment.yml found. PyPilot won't manage conda directly; `pypilot migrate-conda` translates it to a pyproject.toml.".to_string(),
            fix: FixKind::MigrateConda,
        };
        findings.push(f);
        proof {
            assert(finding_views(findings@) =~= seq![conda_finding()]);
        }
    }
    let compat = match compat {
        Some(compat) => compat,
        None => {
            if !env.has_venv {
                let f = Finding {
                    severity: Severity::Warning,
                    title: "No virtual environment".to_string(),
                    detail:
                        "This project has Python files but no .venv. Create one to isolate its dependencies.".to_string(),
                    fix: FixKind::SetupEnvironment,
                };
                proof {
                    lemma_findings_push(findings@, f);
                }
                findings.push(f);
            }
            return (None, findings);
        },
    };
    push_dependency_findings(compat, &mut findings);
    let ghost before = finding_views(findings@);
    match interpreter_finding(compat, env.venv_python) {
        Some(f) => {
            proof {
                lemma_findings_push(findings@, f);
                assert(before.push(f@) =~= before + seq![f@]);
            }
            findings.push(f);
        },
        None => {
            proof {
                assert(before + seq![] =~= before);
            }
        },
    }
    (compat.suggested_python(), findings)
}

// ---------------------------------------------------------------------------
// The assessment
// ---------------------------------------------------------------------------

/// Whether uv can be asked to confirm what the metadata says: uv is there, and so
/// is an interpreter of the target version.
pub open spec fn can_dry_run(probes: Probes, target: Option<PyVersion>) -> bool {
    probes.uv is Some && target is Some && exists|i: int|
        0 <= i < probes.interpreters@.len() && (#[trigger] probes.interpreters@[i]).version
            == target->0
}

/// The interpreter to run `uv pip install --dry-run` against, when that can be
/// done before committing to a setup.
pub fn dry_run_target(probes: &Probes, target: Option<PyVersion>) -> (r: Option<PyVersion>)
    ensures
        r == (if can_dry_run(*probes, target) {
            target
        } else {
            None
        }),
{
    if probes.uv.is_none() {
        return None;
    }
    let version = match target {
        Some(version) => version,
        None => return None,
    };
    match interpreter::find_version(probes.interpreters.as_slice(), version) {
        Some(_) => target,
        None => None,
    }
}

pub open spec fn dry_run_text(target: PyVersion, stderr: Seq<char>) -> FindingView {
    FindingView {
        severity: Severity::Warning,
        title: "uv cannot resolve these dependencies on Python "@ + version_text(target),
        detail: "The package metadata agrees on this version, but the resolver does not: "@
            + text::trim_spec(stderr),
        fix: FixKind::Manual,
    }
}

/// What a dry run that disagrees with the metadata gives rise to: the conflict
/// metadata alone cannot see.
pub fn dry_run_finding(target: PyVersion, out: &Output) -> (r: Option<Finding>)
    ensures
        match r {
            Some(f) => !out.succeeded() && f@ == dry_run_text(target, out.stderr@),
            None => out.succeeded(),
        },
{
    if out.success() {
        return None;
    }
    let mut title = "uv cannot resolve these dependencies on Python ".to_string();
    title.append(target.to_text().as_str());
    let mut detail =
        "The package metadata agrees on this version, but the resolver does not: ".to_string();
    detail.append(text::trim(out.stderr.as_str()));
    Some(Finding { severity: Severity::Warning, title, detail, fix: FixKind::Manual })
}

pub open spec fn opt_owned_report(o: Option<CompatReport>) -> Option<CompatReportView> {
    match o {
        Some(r) => Some(r@),
        None => None,
    }
}

/// The full read-only assessment: what the solver finds, what a dry run added,
/// then what the hardware check found.
pub fn assess(
    probes: Probes,
    project: ProjectDeps,
    compat: Option<CompatReport>,
    dry_run: Option<Finding>,
    hardware: HardwareReport,
) -> (r: Assessment)
    ensures
        r.probes == probes,
        r.project == project,
        r.compat == compat,
        r.target_python == target_spec(project.sources@.len() > 0, opt_owned_report(compat)),
        finding_views(r.findings@) == findings_spec(
            probes.venv is Some,
            match probes.venv {
                Some(v) => v.python,
                None => None,
            },
            project.sources@.len() > 0,
            project.has_conda_env,
            opt_owned_report(compat),
        ) + (match dry_run {
            Some(f) => seq![f@],
            None => seq![],
        }) + finding_views(hardware.findings@),
{
    let env = EnvSummary::from_probes(&probes);
    let (target_python, mut findings) = match &compat {
        Some(report) => synthesize(&env, &project, Some(report)),
        None => synthesize(&env, &project, None),
    };
    let ghost first = finding_views(findings@);
    let ghost mut second = Seq::<FindingView>::empty();
    if let Some(f) = dry_run {
        proof {
            lemma_findings_push(findings@, f);
            second = seq![f@];
        }
        findings.push(f);
    }
    proof {
        assert(finding_views(findings@) =~= first + second);
    }
    let mut more = hardware.findings;
    let ghost added = more@;
    let ghost so_far = findings@;
    findings.append(&mut more);
    proof {
        assert(finding_views(findings@) =~= finding_views(so_far) + finding_views(added));
    }
    Assessment { probes, project, compat, target_python, findings }
}

// ---------------------------------------------------------------------------
// Laws
// ---------------------------------------------------------------------------

/// A workspace that is no Python project is met with silence.
pub proof fn silent_outside_python_projects(
    has_venv: bool,
    venv_python: Option<PyVersion>,
    has_conda: bool,
    compat: Option<CompatReportView>,
)
    ensures
        findings_spec(has_venv, venv_python, false, has_conda, compat).len() == 0,
        target_spec(false, compat) is None,
{
}

/// An environment on a supported Python, with every dependency resolved to a
/// wheel, raises neither an error nor a warning.
pub proof fn compatible_environment_stays_silent(
    current: PyVersion,
    has_conda: bool,
    compat: CompatReportView,
)
    requires
        compatible(compat, current),
        compat.unresolved.len() == 0,
        compat.sdist_warnings.len() == 0,
    ensures
        ({
            let findings = findings_spec(true, Some(current), true, has_conda, Some(compat));
            &&& !crate::engine::any_of(findings, Severity::Error)
            &&& !crate::engine::any_of(findings, Severity::Warning)
        }),
{
    let findings = findings_spec(true, Some(current), true, has_conda, Some(compat));
    assert(compat.intersection.contains(current.minor));
    assert(dependency_findings(compat) =~= seq![]);
    assert(interpreter_findings(compat, Some(current)) =~= seq![]);
    assert forall|i: int| 0 <= i < findings.len() implies (#[trigger] findings[i]).severity
        == Severity::Info by {}
}

/// An environment on a Python that every dependency supports raises no error,
/// whatever else there is to say.
pub proof fn right_interpreters_raise_no_error(
    current: PyVersion,
    has_conda: bool,
    compat: CompatReportView,
)
    requires
        compatible(compat, current),
    ensures
        !crate::engine::any_of(
            findings_spec(true, Some(current), true, has_conda, Some(compat)),
            Severity::Error,
        ),
{
    assert(compat.intersection.contains(current.minor));
}

/// An environment whose Python some dependency excludes is an error, and its fix
/// is to rebuild on the newest version every dependency supports.
pub proof fn wrong_python_is_rebuilt_on_the_target(
    current: PyVersion,
    has_conda: bool,
    compat: CompatReportView,
)
    requires
        compat.intersection != Set::<u8>::empty(),
        compat.intersection.subset_of(crate::pypi::pyversion::universe_minors()),
        !compatible(compat, current),
    ensures
        ({
            let findings = findings_spec(true, Some(current), true, has_conda, Some(compat));
            &&& findings.len() > 0
            &&& findings.last().severity == Severity::Error
            &&& target_spec(true, Some(compat)) is Some
            &&& findings.last().fix == FixKind::RecreateWithPython(
                target_spec(true, Some(compat))->0,
            )
        }),
{
    crate::pypi::pyversion::highest_is_the_newest_member(compat.intersection);
}

/// Dependencies that no version satisfies are an error that tells the conflict
/// found, that no automatic fix answers, and that leaves no target.
pub proof fn conflicts_are_never_fixed_automatically(
    has_venv: bool,
    venv_python: Option<PyVersion>,
    has_conda: bool,
    compat: CompatReportView,
)
    requires
        compat.intersection == Set::<u8>::empty(),
    ensures
        ({
            let findings = findings_spec(has_venv, venv_python, true, has_conda, Some(compat));
            &&& findings.len() > 0
            &&& findings.last().severity == Severity::Error
            &&& forall|i: int|
                0 <= i < findings.len() ==> (#[trigger] findings[i]).fix == FixKind::Manual
                    || findings[i].fix == FixKind::MigrateConda
            &&& findings.last().fix == FixKind::Manual
            &&& compat.conflicts.len() > 0 ==> findings.last().detail
                == compat.conflicts[0].explanation
            &&& target_spec(true, Some(compat)) is None
        }),
{
    crate::pypi::pyversion::highest_is_the_newest_member(compat.intersection);
}

/// Every name PyPI could not resolve and every package that will compile is
/// reported, as a warning to be dealt with by hand.
pub proof fn every_dependency_problem_is_reported(
    has_venv: bool,
    venv_python: Option<PyVersion>,
    has_conda: bool,
    compat: CompatReportView,
)
    ensures
        ({
            let findings = findings_spec(has_venv, venv_python, true, has_conda, Some(compat));
            &&& forall|i: int|
                0 <= i < compat.unresolved.len() ==> findings.contains(
                    unresolved_finding(#[trigger] compat.unresolved[i]),
                )
            &&& forall|i: int|
                0 <= i < compat.sdist_warnings.len() ==> findings.contains(
                    compile_finding(#[trigger] compat.sdist_warnings[i]),
                )
        }),
{
    let findings = findings_spec(has_venv, venv_python, true, has_conda, Some(compat));
    let before: int = if has_conda {
        1
    } else {
        0
    };
    assert forall|i: int| 0 <= i < compat.unresolved.len() implies findings.contains(
        unresolved_finding(#[trigger] compat.unresolved[i]),
    ) by {
        assert(findings[before + i] == unresolved_finding(compat.unresolved[i]));
    }
    assert forall|i: int| 0 <= i < compat.sdist_warnings.len() implies findings.contains(
        compile_finding(#[trigger] compat.sdist_warnings[i]),
    ) by {
        assert(findings[before + compat.unresolved.len() + i] == compile_finding(
            compat.sdist_warnings[i],
        ));
    }
}

/// Where the dependencies agree and there is no environment yet, one is offered
/// as a warning, on the newest version every dependency supports.
pub proof fn a_first_environment_is_offered(
    has_venv: bool,
    has_conda: bool,
    compat: CompatReportView,
)
    requires
        compat.intersection != Set::<u8>::empty(),
        compat.intersection.subset_of(crate::pypi::pyversion::universe_minors()),
    ensures
        ({
            let findings = findings_spec(has_venv, None, true, has_conda, Some(compat));
            &&& findings.len() > 0
            &&& findings.last() == setup_finding(compat)
            &&& findings.last().severity == Severity::Warning
            &&& findings.last().fix == FixKind::SetupEnvironment
            &&& target_spec(true, Some(compat)) is Some
            &&& forall|m: u8| #[trigger]
                compat.intersection.contains(m) ==> m <= target_spec(true, Some(compat))->0.minor
        }),
{
    crate::pypi::pyversion::highest_is_the_newest_member(compat.intersection);
}

/// A conda environment is always noted, and never as more than a note.
pub proof fn conda_is_noted(
    has_venv: bool,
    venv_python: Option<PyVersion>,
    compat: Option<CompatReportView>,
)
    ensures
        ({
            let findings = findings_spec(has_venv, venv_python, true, true, compat);
            &&& findings.len() > 0
            &&& findings[0] == conda_finding()
            &&& findings[0].severity == Severity::Info
            &&& findings[0].fix == FixKind::MigrateConda
        }),
{
}

proof fn lemma_limiter(v: Seq<PackageAnalysisView>, cap: PyVersion, n: int)
    requires
        0 <= n <= v.len(),
    ensures
        match limiter(v, cap, n) {
            Some(i) => {
                &&& 0 <= i < n
                &&& highest(v[i].supported) == Some(cap)
                &&& forall|j: int|
                    0 <= j < n && highest((#[trigger] v[j]).supported) == Some(cap)
                        ==> v[i].supported.len() <= v[j].supported.len()
                &&& forall|j: int|
                    0 <= j < i && highest((#[trigger] v[j]).supported) == Some(cap)
                        ==> v[i].supported.len() < v[j].supported.len()
            },
            None => forall|j: int|
                0 <= j < n ==> highest((#[trigger] v[j]).supported) != Some(cap),
        },
    decreases n,
{
    if n > 0 {
        lemma_limiter(v, cap, n - 1);
    }
}

/// Whether a set of minors ends at a version: it holds it and nothing newer.
pub open spec fn ends_at(supported: Set<u8>, cap: PyVersion) -> bool {
    supported.contains(cap.minor) && forall|k: u8| #[trigger] supported.contains(k) ==> k
        <= cap.minor
}

/// The package said to set an upper bound is one that ends there, and none that
/// ends there supports fewer versions; of several as narrow it is the first. Only
/// where no package ends there is none said to.
pub proof fn the_upper_bound_is_set_by_a_package_that_ends_there(
    v: Seq<PackageAnalysisView>,
    cap: PyVersion,
)
    requires
        cap.major == 3,
        forall|j: int|
            0 <= j < v.len() ==> (#[trigger] v[j]).supported.subset_of(
                crate::pypi::pyversion::universe_minors(),
            ),
    ensures
        match limiter(v, cap, v.len() as int) {
            Some(i) => {
                &&& 0 <= i < v.len()
                &&& ends_at(v[i].supported, cap)
                &&& forall|j: int|
                    0 <= j < v.len() && ends_at((#[trigger] v[j]).supported, cap)
                        ==> v[i].supported.len() <= v[j].supported.len()
                &&& forall|j: int|
                    0 <= j < i && ends_at((#[trigger] v[j]).supported, cap)
                        ==> v[i].supported.len() < v[j].supported.len()
            },
            None => forall|j: int|
                0 <= j < v.len() ==> !ends_at((#[trigger] v[j]).supported, cap),
        },
{
    lemma_limiter(v, cap, v.len() as int);
    assert forall|j: int| 0 <= j < v.len() implies (highest((#[trigger] v[j]).supported) == Some(
        cap,
    ) <==> ends_at(v[j].supported, cap)) by {
        crate::pypi::pyversion::highest_is_the_newest_member(v[j].supported);
    }
}

/// The package that a recommendation names as its bound ends at the recommended
/// version, and the text tells what that package supports. One is named wherever
/// one ends there.
pub proof fn recommendations_name_a_package_that_ends_there(compat: CompatReportView)
    requires
        compat.intersection.subset_of(crate::pypi::pyversion::universe_minors()),
        forall|j: int|
            0 <= j < compat.per_package.len() ==> (
            #[trigger] compat.per_package[j]).supported.subset_of(
                crate::pypi::pyversion::universe_minors(),
            ),
        highest(compat.intersection) is Some,
    ensures
        (exists|j: int|
            0 <= j < compat.per_package.len() && ends_at(
                (#[trigger] compat.per_package[j]).supported,
                highest(compat.intersection)->0,
            )) ==> capping_text(compat).len() > 0,
        capping_text(compat).len() == 0 || exists|i: int|
            0 <= i < compat.per_package.len() && ends_at(
                (#[trigger] compat.per_package[i]).supported,
                highest(compat.intersection)->0,
            ) && capping_text(compat) == " (upper bound set by "@ + compat.per_package[i].name
                + ", which supports "@ + range_text(compat.per_package[i].supported) + ")"@,
{
    crate::pypi::pyversion::highest_is_the_newest_member(compat.intersection);
    the_upper_bound_is_set_by_a_package_that_ends_there(
        compat.per_package,
        highest(compat.intersection)->0,
    );
    reveal_strlit(" (upper bound set by ");
}

/// An environment is in error exactly where its Python is not one that the
/// dependencies share: another minor, or another major altogether.
pub proof fn environments_are_held_to_what_is_shared(
    current: PyVersion,
    has_conda: bool,
    compat: CompatReportView,
)
    ensures
        (exists|i: int|
            0 <= i < findings_spec(true, Some(current), true, has_conda, Some(compat)).len() && (
            #[trigger] findings_spec(true, Some(current), true, has_conda, Some(compat))[i]).severity
                == Severity::Error) <==> !(current.major == 3 && compat.intersection.contains(
            current.minor,
        )),
{
    let findings = findings_spec(true, Some(current), true, has_conda, Some(compat));
    if current.major == 3 && compat.intersection.contains(current.minor) {
        right_interpreters_raise_no_error(current, has_conda, compat);
        assert(!crate::engine::any_of(findings, Severity::Error));
    } else {
        assert(findings[findings.len() - 1].severity == Severity::Error);
    }
}

/// What is said of a name that could not be resolved holds the name and what went
/// wrong; what is said of a package that will compile is the warning itself.
pub proof fn problems_name_their_package(name: Seq<char>, reason: Seq<char>, warning: Seq<char>)
    ensures
        ("Could not resolve `"@ + name + "`"@) == unresolved_finding((name, reason)).title,
        ("PyPI lookup failed for `"@ + name + "` ("@ + reason + ")"@).is_prefix_of(
            unresolved_finding((name, reason)).detail,
        ),
        unresolved_finding((name, reason)).severity == Severity::Warning,
        compile_finding(warning).detail == warning,
        compile_finding(warning).severity == Severity::Warning,
{
    let told = "PyPI lookup failed for `"@ + name + "` ("@ + reason;
    let detail = unresolved_finding((name, reason)).detail;
    reveal_strlit(")");
    reveal_strlit("). It may be a typo or a private package.");
    let end = "). It may be a typo or a private package."@;
    assert(detail == told + end);
    assert(told + ")"@ =~= detail.take(told.len() as int + 1));
    assert((told + ")"@).is_prefix_of(detail));
}

/// Each package that excludes the Python in use is named by what is said about it,
/// with the versions it does support.
pub proof fn blocking_packages_are_named(
    compat: CompatReportView,
    current: PyVersion,
    target: Option<PyVersion>,
    i: int,
)
    requires
        0 <= i < compat.per_package.len(),
        current.major != 3 || !compat.per_package[i].supported.contains(current.minor),
    ensures
        exists|from: int, to: int|
            0 <= from <= to <= incompat_text(compat, current, target).len()
                && #[trigger] incompat_text(compat, current, target).subrange(from, to)
                == compat.per_package[i].name + " (supports "@ + range_text(
                compat.per_package[i].supported,
            ) + ")"@,
{
    let blockers = compat.per_package.filter(blocks(current));
    lemma_filter_keeps(compat.per_package, blocks(current), i);
    let a = compat.per_package[i];
    let k = choose|k: int| 0 <= k < blockers.len() && blockers[k] == a;
    let parts = blockers.map_values(blocker_text());
    assert(parts[k] == a.name + " (supports "@ + range_text(a.supported) + ")"@);
    let from = lemma_part_of_join(parts, ", "@, k);
    let to = from + parts[k].len();
    let joined = text::join_spec(parts, ", "@);
    let whole = incompat_text(compat, current, target);
    assert(blockers_text(compat, current) == joined);
    assert(joined.is_prefix_of(whole)) by {
        assert(whole.take(joined.len() as int) =~= joined);
    }
    assert(whole.subrange(from, to) =~= joined.subrange(from, to));
}

proof fn lemma_filter_keeps(
    v: Seq<PackageAnalysisView>,
    p: spec_fn(PackageAnalysisView) -> bool,
    i: int,
)
    requires
        0 <= i < v.len(),
        p(v[i]),
    ensures
        v.filter(p).contains(v[i]),
{
    broadcast use vstd::seq_lib::group_filter_ensures;

    assert(v.contains(v[i]));
}

/// Where a part stands in the text that joins it to others.
proof fn lemma_part_of_join(parts: Seq<Seq<char>>, sep: Seq<char>, k: int) -> (from: int)
    requires
        0 <= k < parts.len(),
    ensures
        0 <= from,
        from + parts[k].len() <= text::join_spec(parts, sep).len(),
        text::join_spec(parts, sep).subrange(from, from + parts[k].len()) == parts[k],
    decreases parts.len(),
{
    let joined = text::join_spec(parts, sep);
    if parts.len() == 1 {
        assert(joined.subrange(0, joined.len() as int) =~= parts[0]);
        0
    } else if k == parts.len() - 1 {
        let from = joined.len() - parts[k].len();
        assert(joined.subrange(from, joined.len() as int) =~= parts[k]);
        from
    } else {
        let from = lemma_part_of_join(parts.drop_last(), sep, k);
        let before = text::join_spec(parts.drop_last(), sep);
        assert(joined.subrange(from, from + parts[k].len()) =~= before.subrange(
            from,
            from + parts[k].len(),
        ));
        from
    }
}

/// A dry run is made only with uv and with an interpreter of the target version that
/// is already there, and is then made on the target.
pub proof fn dry_runs_need_uv_and_the_interpreter(probes: Probes, target: PyVersion, i: int)
    requires
        0 <= i < probes.interpreters@.len(),
    ensures
        probes.uv is Some && probes.interpreters@[i].version == target ==> can_dry_run(
            probes,
            Some(target),
        ),
        probes.uv is None ==> !can_dry_run(probes, Some(target)),
        !can_dry_run(probes, None),
        can_dry_run(probes, Some(target)) ==> exists|j: int|
            0 <= j < probes.interpreters@.len() && (#[trigger] probes.interpreters@[j]).version
                == target,
{
}

} // verus!
