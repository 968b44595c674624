//! Diagnostics, quick fixes and what the editor is told.

use pypilot::engine::flow::step;
use pypilot::engine::guardian::{Finding, Problem};
use pypilot::engine::imports::ImportRef;
use pypilot::engine::probe::Probes;
use pypilot::engine::project::ProjectDeps;
use pypilot::engine::setup::SetupSummary;
use pypilot::engine::{Assessment, FixKind, Severity};
use pypilot::lsp::diagnostics::{
    code_actions, to_diagnostic, Diagnostic, DiagnosticSeverity, FixAction, CMD_INSTALL,
    CMD_RECREATE,
};
use pypilot::lsp::{
    all_good_summary, check_install, check_recreate, choice, details_markdown, fix_outcome,
    install_outcome, is_analyzed, notice, report_failed_step, request, should_scan,
    toast_summary, venv_python, Choice, Notice, Request, BTN_DETAILS, BTN_FIX, BTN_IGNORE,
    BTN_NEVER, CMD_DETAILS, CMD_FIX, CMD_IGNORE, CMD_NEVER,
};
use pypilot::pypi::pyversion::{PyVersion, PyVersionSet};
use pypilot::settings::{Notifications, PackageManager, ResolvedMode, Settings};

fn finding(problem: Problem, package: &str, renamed: bool) -> Finding {
    Finding {
        import: ImportRef {
            module: "cv2".into(),
            binding: Some("cv2".into()),
            line: 2,
            start: 7,
            end: 10,
        },
        package: package.into(),
        renamed,
        problem,
    }
}

fn supported(minors: &[u8]) -> PyVersionSet {
    let versions: Vec<PyVersion> = minors.iter().map(|&m| PyVersion::py3(m)).collect();
    PyVersionSet::from_versions(&versions)
}

#[test]
fn missing_package_is_a_warning_with_an_install_fix() {
    let d = to_diagnostic(&finding(Problem::NotInstalled, "mediapipe", false));
    assert_eq!(d.severity, Some(DiagnosticSeverity::Warning));
    assert!(d.message.contains("mediapipe"));

    let actions = code_actions(&[d]);
    assert_eq!(actions.len(), 1);
}

#[test]
fn renamed_imports_show_both_names() {
    let d = to_diagnostic(&finding(Problem::NotInstalled, "opencv-python", true));
    assert!(d.message.contains("opencv-python"));
    assert!(d.message.contains("cv2"), "must reveal the resolved rename");

    let action = &code_actions(&[d])[0];
    assert!(action.title.contains("opencv-python"));
}

#[test]
fn interpreter_conflict_is_an_error_naming_the_range() {
    let d = to_diagnostic(&finding(
        Problem::IncompatibleInterpreter {
            current: PyVersion::py3(13),
            supported: supported(&[9, 10, 11, 12]),
            target: Some(PyVersion::py3(12)),
            reinstall_count: 3,
        },
        "mediapipe",
        false,
    ));
    assert_eq!(d.severity, Some(DiagnosticSeverity::Error));
    assert!(d.message.contains("3.13"));
    assert!(d.message.contains("3.9–3.12"));

    let action = &code_actions(&[d])[0];
    assert!(action.title.contains("Python 3.12"));
    assert!(
        action
            .title
            .contains("3 existing packages will be reinstalled"),
        "the fix must state its blast radius, got: {}",
        action.title
    );
}

#[test]
fn fresh_project_creates_rather_than_rebuilds() {
    let d = to_diagnostic(&finding(
        Problem::NoEnvironment {
            target: Some(PyVersion::py3(12)),
        },
        "mediapipe",
        false,
    ));
    let action = &code_actions(&[d])[0];
    // There is nothing to rebuild or reinstall when no venv exists.
    assert!(
        action.title.starts_with("Create environment"),
        "{}",
        action.title
    );
    assert!(!action.title.contains("reinstalled"));
}

#[test]
fn unknown_projects_get_no_install_action() {
    let d = to_diagnostic(&finding(Problem::NotOnPyPi, "mediapip", false));
    assert!(
        code_actions(&[d]).is_empty(),
        "never offer to install a name PyPI does not have"
    );
}

#[test]
fn foreign_diagnostics_are_ignored() {
    let other = Diagnostic {
        source: Some("ruff".to_string()),
        message: "unused import".to_string(),
        ..Default::default()
    };
    assert!(code_actions(&[other]).is_empty());
}

#[test]
fn diagnostics_cover_the_import() {
    let d = to_diagnostic(&finding(Problem::NotInstalled, "mediapipe", false));
    assert_eq!((d.line, d.start, d.end), (2, 7, 10));
    assert_eq!(d.source.as_deref(), Some("pypilot"));
    assert_eq!(d.data.as_ref().unwrap().action, FixAction::Install);
    let action = &code_actions(&[d])[0];
    assert_eq!(action.command.command, CMD_INSTALL);
    assert_eq!(action.command.arguments, vec!["mediapipe"]);
}

#[test]
fn rebuilding_names_the_interpreter_and_the_package() {
    let d = to_diagnostic(&finding(
        Problem::IncompatibleInterpreter {
            current: PyVersion::py3(13),
            supported: supported(&[12]),
            target: Some(PyVersion::py3(12)),
            reinstall_count: 0,
        },
        "mediapipe",
        false,
    ));
    let action = &code_actions(&[d])[0];
    assert_eq!(action.command.command, CMD_RECREATE);
    assert_eq!(action.command.arguments, vec!["3.12", "mediapipe"]);
}

#[test]
fn missing_attributes_are_errors_without_a_fix() {
    let d = to_diagnostic(&finding(
        Problem::AttributeMissing {
            attribute: "solutions".into(),
            installed_version: Some("0.10.35".into()),
            available: vec!["tasks".into()],
        },
        "mediapipe",
        false,
    ));
    assert_eq!(d.severity, Some(DiagnosticSeverity::Error));
    assert!(d.message.contains("solutions"));
    assert!(d.message.contains("0.10.35"));
    assert!(d.message.contains("tasks"));
    assert!(code_actions(&[d]).is_empty());
}

// --- Assessments in the editor -----------------------------------------------

fn assessment(findings: Vec<pypilot::engine::Finding>) -> Assessment {
    Assessment {
        probes: Probes::default(),
        project: ProjectDeps {
            sources: vec!["requirements.txt".into()],
            ..Default::default()
        },
        compat: None,
        target_python: None,
        findings,
    }
}

fn problem(severity: Severity, title: &str) -> pypilot::engine::Finding {
    pypilot::engine::Finding {
        severity,
        title: title.into(),
        detail: "because".into(),
        fix: FixKind::Manual,
    }
}

#[test]
fn clean_projects_stay_quiet_unless_asked() {
    let a = assessment(vec![]);
    assert_eq!(notice(&a, Notifications::ProblemsOnly, false), Notice::Quiet);
    assert_eq!(
        notice(&a, Notifications::ProblemsOnly, true),
        Notice::Inform(all_good_summary(&a))
    );
}

#[test]
fn problems_become_a_toast() {
    let a = assessment(vec![
        problem(Severity::Error, "No environment"),
        problem(Severity::Warning, "Old driver"),
    ]);
    match notice(&a, Notifications::ProblemsOnly, false) {
        Notice::Toast { severity, summary } => {
            assert_eq!(severity, Severity::Error);
            assert_eq!(summary, toast_summary(&a));
            assert!(summary.contains("No environment"));
        }
        other => panic!("expected a toast, got {other:?}"),
    }
    assert!(details_markdown(&a).contains("Old driver"));
}

#[test]
fn scans_follow_the_settings() {
    let s = Settings::default();
    assert!(should_scan(&s, false));
    let dismissed = Settings {
        dismissed: true,
        ..s
    };
    assert!(!should_scan(&dismissed, false));
    assert!(should_scan(&dismissed, true));
    let manual = Settings {
        auto_check_on_open: false,
        ..s
    };
    assert!(!should_scan(&manual, false));
}

#[test]
fn buttons_choose() {
    assert_eq!(choice(Some(BTN_FIX)), Choice::Fix);
    assert_eq!(choice(Some(BTN_DETAILS)), Choice::Details);
    assert_eq!(choice(Some(BTN_NEVER)), Choice::Never);
    assert_eq!(choice(Some(BTN_IGNORE)), Choice::Nothing);
    assert_eq!(choice(None), Choice::Nothing);
}

#[test]
fn commands_are_read_with_their_arguments() {
    let arg = |s: &str| Some(s.to_string());
    assert_eq!(request(CMD_FIX, &[]), Request::Fix);
    assert_eq!(request(CMD_DETAILS, &[]), Request::Details);
    assert_eq!(request(CMD_NEVER, &[]), Request::Never);
    assert_eq!(request(CMD_IGNORE, &[]), Request::Ignore);
    assert_eq!(
        request(CMD_INSTALL, &[arg("numpy")]),
        Request::Install {
            package: "numpy".into()
        }
    );
    assert_eq!(request(CMD_INSTALL, &[None]), Request::Incomplete);
    assert_eq!(
        request(CMD_RECREATE, &[arg("3.12"), arg("numpy")]),
        Request::Recreate {
            python: "3.12".into(),
            package: "numpy".into()
        }
    );
    assert_eq!(request(CMD_RECREATE, &[arg("3.12")]), Request::Incomplete);
    assert_eq!(
        request("other", &[]),
        Request::Unknown("unknown command `other`".into())
    );
}

#[test]
fn unusable_arguments_are_refused() {
    assert!(check_install("numpy").is_ok());
    assert!(check_install("--upgrade").is_err());
    assert_eq!(check_recreate("3.12", "numpy"), Ok(PyVersion::py3(12)));
    assert!(check_recreate("latest", "numpy").is_err());
    assert!(check_recreate("3.12", "-e").is_err());
}

fn summary(ok: bool) -> SetupSummary {
    SetupSummary {
        package_manager: PackageManager::Uv,
        resolved_mode: ResolvedMode::UvFull,
        python: Some(PyVersion::py3(12)),
        venv_path: ".venv".into(),
        why: "mediapipe".into(),
        steps: vec![step("Create venv", true, ".venv"), step("Install", ok, "no network")],
        ok,
    }
}

#[test]
fn outcomes_name_the_failed_step() {
    assert!(report_failed_step(&summary(false).steps).contains("Install"));
    assert!(fix_outcome(&summary(false)).contains("Install"));
    assert!(fix_outcome(&summary(true)).contains("3.12"));
    assert!(install_outcome(&summary(true), "numpy").contains("numpy"));
    assert!(install_outcome(&summary(false), "numpy").contains("no network"));
}

#[test]
fn only_python_buffers_are_analyzed() {
    let s = Settings::default();
    assert!(is_analyzed(Some("py"), &s));
    assert!(!is_analyzed(Some("rs"), &s));
    assert!(is_analyzed(None, &s));
    let off = Settings {
        notifications: Notifications::Off,
        ..s
    };
    assert!(!is_analyzed(Some("py"), &off));
    assert_eq!(venv_python("version = 3.10.4\n"), Some(PyVersion::py3(10)));
}

#[test]
fn titles_say_both_names() {
    let renamed = to_diagnostic(&finding(Problem::NotInstalled, "opencv-python", true));
    let typo = to_diagnostic(&finding(Problem::NotOnPyPi, "mediapip", false));
    let actions = code_actions(&[renamed, typo]);
    assert_eq!(actions.len(), 1);
    assert_eq!(actions[0].title, "Install `opencv-python` (provides `cv2`)");
    assert_eq!(actions[0].command.command, CMD_INSTALL);
    assert_eq!(actions[0].command.arguments, vec!["opencv-python"]);

    let create = to_diagnostic(&finding(
        Problem::NoEnvironment {
            target: Some(PyVersion::py3(12)),
        },
        "opencv-python",
        true,
    ));
    assert_eq!(
        code_actions(&[create])[0].title,
        "Create environment on Python 3.12 and install `opencv-python` (provides `cv2`)"
    );
}
