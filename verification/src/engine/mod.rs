//! The engine: probing, project parsing, constraint solving, and bootstrap.
//!
//! Everything here is editor-agnostic. Both front ends are thin callers over
//! the read-only assessment in [`solver`] and the flows in [`setup`].

pub mod command;
pub mod flow;
pub mod gpu;
pub mod guardian;
pub mod imports;
pub mod install;
pub mod installed;
pub mod interpreter;
pub mod modules;
pub mod pins;
pub mod pip;
pub mod platform;
pub mod probe;
pub mod project;
pub mod rescan;
pub mod setup;
pub mod solver;
pub mod stdlib;
pub mod uv;

use vstd::prelude::*;

use crate::pypi::{CompatReport, CompatReportView, PyVersion};
use crate::text;

verus! {

/// Severity of a finding: drives toast styling and doctor output ordering.
#[derive(Debug, Clone, Copy, PartialEq, Eq, Structural)]
pub enum Severity {
    /// Blocks installation entirely (empty intersection, incompatible interpreter).
    Error,
    /// Works but suboptimal / needs attention (sdist compile, missing venv).
    Warning,
    /// Purely informational.
    Info,
}

/// A machine-actionable fix a finding can carry.
#[derive(Debug, Clone, Copy, PartialEq, Eq, Structural)]
pub enum FixKind {
    /// Run the full bootstrap (install uv, Python, venv, deps).
    SetupEnvironment,
    /// Recreate the venv on a specific Python version.
    RecreateWithPython(PyVersion),
    /// Translate the conda environment with `pypilot migrate-conda`.
    MigrateConda,
    /// Nothing to automate; the message itself is the guidance.
    Manual,
}

/// One finding: a problem plus the *why* and an optional fix.
#[derive(Debug, PartialEq, Eq)]
pub struct Finding {
    pub severity: Severity,
    pub title: String,
    /// The "why": always names the constraining package(s).
    pub detail: String,
    pub fix: FixKind,
}

/// A finding, mathematically.
#[verifier::ext_equal]
pub struct FindingView {
    pub severity: Severity,
    pub title: Seq<char>,
    pub detail: Seq<char>,
    pub fix: FixKind,
}

impl View for Finding {
    type V = FindingView;

    open spec fn view(&self) -> FindingView {
        FindingView {
            severity: self.severity,
            title: self.title@,
            detail: self.detail@,
            fix: self.fix,
        }
    }
}

impl Clone for Finding {
    fn clone(&self) -> (r: Finding)
        ensures
            r == *self,
    {
        Finding {
            severity: self.severity,
            title: self.title.clone(),
            detail: self.detail.clone(),
            fix: self.fix,
        }
    }
}

pub open spec fn finding_views(v: Seq<Finding>) -> Seq<FindingView> {
    Seq::new(v.len(), |i: int| v[i]@)
}

pub proof fn lemma_findings_push(v: Seq<Finding>, f: Finding)
    ensures
        finding_views(v.push(f)) == finding_views(v).push(f@),
{
    assert(finding_views(v.push(f)) =~= finding_views(v).push(f@));
}

/// The full read-only assessment of a workspace.
#[derive(Debug)]
pub struct Assessment {
    pub probes: probe::Probes,
    pub project: project::ProjectDeps,
    /// `None` when there are no declared dependencies to check.
    pub compat: Option<CompatReport>,
    /// Chosen target interpreter, when one can be determined.
    pub target_python: Option<PyVersion>,
    pub findings: Vec<Finding>,
}

/// An assessment, mathematically.
#[verifier::ext_equal]
pub struct AssessmentView {
    pub uv: Option<uv::UvInfoView>,
    /// The venv's path and Python.
    pub venv: Option<(Seq<char>, Option<PyVersion>)>,
    pub interpreters: Seq<interpreter::InterpreterView>,
    pub sources: Seq<Seq<char>>,
    pub requires_python: Option<Seq<char>>,
    pub packages: Seq<project::RequirementView>,
    pub compat: Option<CompatReportView>,
    pub target_python: Option<PyVersion>,
    pub findings: Seq<FindingView>,
}

impl View for Assessment {
    type V = AssessmentView;

    open spec fn view(&self) -> AssessmentView {
        AssessmentView {
            uv: uv::opt_uv(self.probes.uv),
            venv: match self.probes.venv {
                Some(v) => Some((v.path@, v.python)),
                None => None,
            },
            interpreters: interpreter::interpreter_views(self.probes.interpreters@),
            sources: text::texts(self.project.sources@),
            requires_python: text::opt_text(self.project.declared_requires_python),
            packages: project::requirement_views(self.project.packages@),
            compat: match self.compat {
                Some(c) => Some(c@),
                None => None,
            },
            target_python: self.target_python,
            findings: finding_views(self.findings@),
        }
    }
}

/// Whether some finding has the given severity.
pub open spec fn any_of(findings: Seq<FindingView>, s: Severity) -> bool {
    exists|i: int| 0 <= i < findings.len() && (#[trigger] findings[i]).severity == s
}

/// The highest severity present.
pub open spec fn worst(findings: Seq<FindingView>) -> Option<Severity> {
    if any_of(findings, Severity::Error) {
        Some(Severity::Error)
    } else if any_of(findings, Severity::Warning) {
        Some(Severity::Warning)
    } else if any_of(findings, Severity::Info) {
        Some(Severity::Info)
    } else {
        None
    }
}

fn has_severity(findings: &Vec<Finding>, s: Severity) -> (r: bool)
    ensures
        r == any_of(finding_views(findings@), s),
{
    let ghost views = finding_views(findings@);
    let mut i: usize = 0;
    while i < findings.len()
        invariant
            i <= findings@.len(),
            views == finding_views(findings@),
            forall|j: int| 0 <= j < i ==> (#[trigger] views[j]).severity != s,
        decreases findings@.len() - i,
    {
        proof {
            assert(views[i as int] == findings@[i as int]@);
        }
        if findings[i].severity == s {
            return true;
        }
        i += 1;
    }
    false
}

impl Assessment {
    /// Silence contract: true when there is nothing worth a toast.
    pub fn all_good(&self) -> (r: bool)
        ensures
            r == (!any_of(finding_views(self.findings@), Severity::Error) && !any_of(
                finding_views(self.findings@),
                Severity::Warning,
            )),
    {
        !has_severity(&self.findings, Severity::Error) && !has_severity(
            &self.findings,
            Severity::Warning,
        )
    }

    /// Highest severity present, for toast selection.
    pub fn worst_severity(&self) -> (r: Option<Severity>)
        ensures
            r == worst(finding_views(self.findings@)),
    {
        if has_severity(&self.findings, Severity::Error) {
            Some(Severity::Error)
        } else if has_severity(&self.findings, Severity::Warning) {
            Some(Severity::Warning)
        } else if has_severity(&self.findings, Severity::Info) {
            Some(Severity::Info)
        } else {
            None
        }
    }
}

/// The severity told of a workspace is that of a finding it has, and none it has is
/// worse; only a workspace without findings has none to tell.
pub proof fn the_worst_finding_is_told(findings: Seq<FindingView>)
    ensures
        worst(findings) is None <==> findings.len() == 0,
        worst(findings) is Some ==> exists|i: int|
            0 <= i < findings.len() && (#[trigger] findings[i]).severity == worst(findings)->0,
        forall|i: int|
            0 <= i < findings.len() ==> match (#[trigger] findings[i]).severity {
                Severity::Error => worst(findings) == Some(Severity::Error),
                Severity::Warning => worst(findings) == Some(Severity::Error) || worst(findings)
                    == Some(Severity::Warning),
                Severity::Info => worst(findings) is Some,
            },
{
    if findings.len() > 0 {
        let first = findings[0].severity;
        assert(any_of(findings, first));
    }
    assert forall|i: int| 0 <= i < findings.len() implies any_of(
        findings,
        (#[trigger] findings[i]).severity,
    ) by {}
}

} // verus!
