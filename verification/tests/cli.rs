//! The command line: modes, arguments and what is printed.

use pypilot::cli::commands::{
    check_failure, check_migration, check_report, list_steps, migration_report, python_fix,
    rebuild_outcome, refresh_report, setup_header, setup_report, PythonFix,
};
use pypilot::cli::doctor::report;
use pypilot::cli::page::{pad, truncate, Page, Style};
use pypilot::cli::{
    dispatch, mode, positional, task, unknown_mode, workspace_from_args, Mode, Task,
};
use pypilot::engine::flow::step;
use pypilot::engine::platform::Platform;
use pypilot::engine::probe::Probes;
use pypilot::engine::project::{ProjectDeps, Requirement};
use pypilot::engine::setup::SetupSummary;
use pypilot::engine::{Assessment, Finding, FixKind, Severity};
use pypilot::pypi::metadata::PackageAnalysis;
use pypilot::pypi::pyversion::{PyVersion, PyVersionSet};
use pypilot::pypi::CompatReport;
use pypilot::settings::{PackageManager, ResolvedMode};

fn v(items: &[&str]) -> Vec<String> {
    items.iter().map(|s| s.to_string()).collect()
}

fn text(p: &Page) -> String {
    p.lines
        .iter()
        .map(|l| l.to_text())
        .collect::<Vec<_>>()
        .join("\n")
}

#[test]
fn positional_skips_the_path_flag_and_its_value() {
    assert_eq!(
        positional(&v(&["--path", "/tmp/proj", "mediapipe"])).as_deref(),
        Some("mediapipe")
    );
    assert_eq!(
        positional(&v(&["mediapipe", "--path", "/tmp/proj"])).as_deref(),
        Some("mediapipe")
    );
    assert_eq!(positional(&v(&["--path", "/tmp/proj"])), None);
}

#[test]
fn workspace_accepts_both_flag_forms() {
    assert_eq!(
        workspace_from_args(&v(&["--path", "/tmp/proj"])).as_deref(),
        Some("/tmp/proj")
    );
    assert_eq!(
        workspace_from_args(&v(&["--path=/tmp/proj"])).as_deref(),
        Some("/tmp/proj")
    );
    assert_eq!(workspace_from_args(&v(&["mediapipe"])), None);
}

#[test]
fn words_name_modes() {
    assert_eq!(mode(Some("lsp")), Some(Mode::Lsp));
    assert_eq!(mode(Some("doctor")), Some(Mode::Doctor));
    assert_eq!(mode(Some("--version")), Some(Mode::Version));
    assert_eq!(mode(Some("migrate-conda")), Some(Mode::MigrateConda));
    assert_eq!(mode(Some("nonsense")), None);
}

#[test]
fn tasks_need_their_arguments() {
    assert_eq!(task(Mode::Doctor, &[]), Ok(Task::Doctor));
    assert_eq!(
        task(Mode::Check, &v(&["mediapipe"])),
        Ok(Task::Check("mediapipe".into()))
    );
    assert!(task(Mode::Check, &[]).is_err());
    assert_eq!(task(Mode::Fix, &v(&["python"])), Ok(Task::FixPython));
    assert_eq!(task(Mode::Fix, &v(&["cuda"])), Ok(Task::FixCuda));
    assert!(task(Mode::Fix, &v(&["everything"])).is_err());
    assert!(task(Mode::Install, &[]).is_err());
}

#[test]
fn columns_are_padded_and_cut() {
    assert_eq!(pad("ab", 4), "ab  ");
    assert_eq!(pad("abcdef", 4), "abcdef");
    assert_eq!(truncate("abcdef", 10), "abcdef");
    assert_eq!(truncate("abcdef", 4), "abcd…");
    assert_eq!(truncate("  ab  ", 4), "ab");
}

fn analysis() -> PackageAnalysis {
    let versions: Vec<PyVersion> = [9, 10, 11, 12].iter().map(|&m| PyVersion::py3(m)).collect();
    PackageAnalysis {
        name: "mediapipe".into(),
        version: "0.10.14".into(),
        supported: PyVersionSet::from_versions(&versions),
        has_platform_wheels: true,
        sdist_only: false,
        requires_python: None,
    }
}

#[test]
fn a_check_shows_the_supported_range() {
    let page = text(&check_report(&analysis(), false, Some(PyVersion::py3(13))));
    assert!(page.contains("mediapipe"));
    assert!(page.contains("0.10.14"));
    assert!(page.contains("3.9–3.12"));
    assert!(check_failure("mediapip", "not found").contains("mediapip"));
}

fn compat() -> CompatReport {
    CompatReport {
        platform: Platform::current("linux", "x86_64"),
        intersection: analysis().supported,
        per_package: vec![analysis()],
        unresolved: vec![],
        conflicts: vec![],
        sdist_warnings: vec![],
    }
}

fn assessment(findings: Vec<Finding>, target: Option<PyVersion>) -> Assessment {
    Assessment {
        probes: Probes::default(),
        project: ProjectDeps {
            sources: vec!["requirements.txt".into()],
            packages: vec![Requirement::any("mediapipe")],
            ..Default::default()
        },
        compat: target.map(|_| compat()),
        target_python: target,
        findings,
    }
}

#[test]
fn doctor_prints_every_finding() {
    let a = assessment(
        vec![Finding {
            severity: Severity::Warning,
            title: "Conda project".into(),
            detail: "environment.yml found".into(),
            fix: FixKind::MigrateConda,
        }],
        Some(PyVersion::py3(12)),
    );
    let page = text(&report("/p", PackageManager::Uv, &a));
    assert!(page.contains("/p"));
    assert!(page.contains("Conda project"));
    assert!(page.contains("3.12"));
}

fn summary(ok: bool) -> SetupSummary {
    SetupSummary {
        package_manager: PackageManager::Uv,
        resolved_mode: ResolvedMode::UvFull,
        python: Some(PyVersion::py3(12)),
        venv_path: "/p/.venv".into(),
        why: "mediapipe".into(),
        steps: vec![step("Create venv", ok, "/p/.venv")],
        ok,
    }
}

#[test]
fn setup_reports_success_or_the_error() {
    assert!(setup_header("/p", PackageManager::Uv).to_text().contains("/p"));
    let (page, error) = setup_report(&summary(true));
    assert!(text(&page).contains("Create venv"));
    assert_eq!(error, None);
    let (_, error) = setup_report(&summary(false));
    assert!(error.is_some());
    assert_eq!(list_steps(&summary(true).steps).len(), 1);
}

#[test]
fn fixing_python_needs_something_to_fix() {
    assert!(matches!(
        python_fix(&assessment(vec![], None), 0),
        PythonFix::Refuse(_)
    ));
    match python_fix(&assessment(vec![], Some(PyVersion::py3(12))), 2) {
        PythonFix::Rebuild { target, lines } => {
            assert_eq!(target, PyVersion::py3(12));
            assert!(!lines.is_empty());
        }
        other => panic!("expected a rebuild, got {other:?}"),
    }
    assert!(rebuild_outcome(PyVersion::py3(12), true).is_ok());
    assert!(rebuild_outcome(PyVersion::py3(12), false).is_err());
}

#[test]
fn migration_never_overwrites() {
    assert!(check_migration(true, false, "/p", "/p/pyproject.toml").is_ok());
    assert!(check_migration(false, false, "/p", "/p/pyproject.toml").is_err());
    assert!(check_migration(true, true, "/p", "/p/pyproject.toml").is_err());
    assert!(migration_report("/p/pyproject.toml", 3).contains("3"));
}

#[test]
fn refreshes_are_listed_by_file() {
    let lines = refresh_report(&vec![
        ("nvidia.json".to_string(), Ok(())),
        ("frameworks.json".to_string(), Err("offline".to_string())),
    ]);
    assert!(lines.iter().any(|l| l.contains("nvidia.json")));
    assert!(lines.iter().any(|l| l.contains("offline")));
}

#[test]
fn styles_ride_along_with_the_text() {
    let line = setup_header("/p", PackageManager::Pip);
    assert!(line.spans.iter().any(|s| s.style != Style::Plain));
}

#[test]
fn unknown_modes_are_named() {
    assert_eq!(dispatch("doctor", &[]), Ok(Task::Doctor));
    assert_eq!(dispatch("migrate-conda", &[]), Ok(Task::MigrateConda));
    assert_eq!(
        dispatch("check", &v(&["mediapipe"])),
        Ok(Task::Check("mediapipe".to_string()))
    );
    assert_eq!(
        dispatch("nonsense", &[]),
        Err("unknown CLI mode `nonsense`".to_string())
    );
    assert_eq!(dispatch("lsp", &[]), Err("unknown CLI mode `lsp`".to_string()));
    assert_eq!(unknown_mode("nonsense"), "pypilot: unknown mode `nonsense`\n");
}
