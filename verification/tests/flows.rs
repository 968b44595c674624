//! Setting up, installing and re-pinning, step by step.

use pypilot::cli::repin::{declared_frameworks, Repin};
use pypilot::engine::command::{Invocation, Output};
use pypilot::engine::flow::{Action, Pin, Reply};
use pypilot::engine::gpu::Accelerator;
use pypilot::engine::install::{
    install_package, record_in_requirements, recreate_with_python, validate_package_name,
    Install, Job,
};
use pypilot::engine::interpreter::Interpreter;
use pypilot::engine::pins::{pin, targets, Target};
use pypilot::engine::platform::Os;
use pypilot::engine::probe::Probes;
use pypilot::engine::project::{ProjectDeps, Requirement};
use pypilot::engine::setup::{self, derive_why, refusal, run_with_mode, Plan, Setup};
use pypilot::engine::uv::UvInfo;
use pypilot::engine::Assessment;
use pypilot::matrix::data::{FRAMEWORKS_JSON, NVIDIA_JSON};
use pypilot::matrix::frameworks::FrameworkTable;
use pypilot::matrix::nvidia::DriverTable;
use pypilot::matrix::solve::FrameworkSolve;
use pypilot::pypi::pyversion::PyVersion;
use pypilot::settings::{PackageManager, ResolvedMode, Settings};

#[test]
fn rejects_names_that_would_become_flags() {
    assert!(validate_package_name("mediapipe").is_ok());
    assert!(validate_package_name("").is_err());
    assert!(validate_package_name("   ").is_err());
    assert!(validate_package_name("--upgrade").is_err());
}

#[test]
fn requirements_recording_is_idempotent() {
    let mut text = "numpy\n".to_string();
    for _ in 0..2 {
        if let Some(next) = record_in_requirements(&text, "mediapipe") {
            text = next;
        }
    }
    assert_eq!(text.matches("mediapipe").count(), 1);
    assert!(text.contains("numpy"));
}

#[test]
fn recording_starts_on_a_fresh_line() {
    assert_eq!(
        record_in_requirements("numpy", "torch").as_deref(),
        Some("numpy\ntorch\n")
    );
    assert_eq!(record_in_requirements("", "torch").as_deref(), Some("torch\n"));
    assert_eq!(record_in_requirements("Torch==2.4\n", "torch"), None);
}

fn done(stdout: &str) -> Reply {
    Reply::Ran(Ok(Output {
        status: Some(0),
        stdout: stdout.into(),
        stderr: String::new(),
    }))
}

fn failed(stderr: &str) -> Reply {
    Reply::Ran(Ok(Output {
        status: Some(1),
        stdout: String::new(),
        stderr: stderr.into(),
    }))
}

fn uv() -> Reply {
    Reply::Uv(Ok(UvInfo {
        path: "uv".into(),
        version: "0.5.0".into(),
        managed: false,
    }))
}

fn python(minor: u8) -> Interpreter {
    Interpreter {
        command: "python3".into(),
        path: "/usr/bin/python3".into(),
        version: PyVersion::py3(minor),
    }
}

fn plan(mode: ResolvedMode) -> Plan {
    Plan {
        mode,
        python: Some(PyVersion::py3(12)),
        venv: "/p/.venv".into(),
        requirements: "/p/requirements.txt".into(),
        os: Os::Linux,
        interpreters: vec![python(12)],
        packages: vec!["numpy".into()],
        pins: vec![],
    }
}

/// Answers every action with success and returns the commands that were run.
fn run_setup(plan: Plan, pyproject: bool, requirements: bool) -> (Vec<Invocation>, Setup) {
    let mut ran = vec![];
    let mut s = Setup::start(plan, None);
    for _ in 0..40 {
        let reply = match s.next_action() {
            Action::EnsureUv => uv(),
            Action::LookForManifests => Reply::Manifests {
                pyproject,
                requirements,
            },
            Action::LookForVenv => Reply::Venv(false),
            Action::FindInterpreters => Reply::Interpreters(vec![python(12)]),
            Action::Run(cmd) => {
                ran.push(cmd);
                done("")
            }
            Action::RemoveVenv | Action::WriteRequirements(_) => Reply::Changed(Ok(())),
            Action::ReadRequirements => Reply::Requirements(None),
            Action::Done => break,
        };
        s = s.advance(reply);
    }
    assert_eq!(s.next_action(), Action::Done);
    (ran, s)
}

#[test]
fn uv_setup_creates_and_syncs() {
    let (ran, s) = run_setup(plan(ResolvedMode::UvFull), true, false);
    let summary = s.into_summary(PackageManager::Uv, "numpy".into());
    assert!(summary.ok);
    assert_eq!(summary.python, Some(PyVersion::py3(12)));
    assert_eq!(summary.venv_path, "/p/.venv");
    assert!(summary.steps.iter().all(|st| st.ok));
    assert!(ran.iter().all(|c| c.program == "uv"));
    assert!(ran.iter().any(|c| c.args.contains(&"venv".to_string())));
    assert!(ran.iter().any(|c| c.args.contains(&"sync".to_string())));
}

#[test]
fn pip_setup_uses_the_interpreter_it_found() {
    let (ran, s) = run_setup(plan(ResolvedMode::PurePip), false, true);
    assert!(s.into_summary(PackageManager::Pip, String::new()).ok);
    assert!(ran.iter().all(|c| c.program != "uv"));
    assert_eq!(ran[0].program, "python3");
    assert!(ran
        .iter()
        .any(|c| c.program == "/p/.venv/bin/python" && c.args.contains(&"-r".to_string())));
}

#[test]
fn gpu_builds_are_pinned_after_the_install() {
    let mut p = plan(ResolvedMode::UvFull);
    p.pins = vec![Pin {
        spec: "torch==2.4.0".into(),
        index_url: Some("https://download.pytorch.org/whl/cu121".into()),
    }];
    let (ran, s) = run_setup(p, true, false);
    assert!(s.into_summary(PackageManager::Uv, String::new()).ok);
    let last = ran.last().unwrap();
    assert!(last.args.contains(&"torch==2.4.0".to_string()));
    assert!(last
        .args
        .contains(&"https://download.pytorch.org/whl/cu121".to_string()));
}

#[test]
fn a_failed_step_ends_a_setup() {
    let mut s = Setup::start(plan(ResolvedMode::UvFull), None);
    while s.next_action() != Action::Done {
        let reply = match s.next_action() {
            Action::EnsureUv => uv(),
            Action::LookForManifests => Reply::Manifests {
                pyproject: false,
                requirements: false,
            },
            _ => failed("boom"),
        };
        s = s.advance(reply);
    }
    let summary = s.into_summary(PackageManager::Uv, String::new());
    assert!(!summary.ok);
    let last = summary.steps.last().unwrap();
    assert!(!last.ok);
    assert!(last.detail.contains("boom"));
}

#[test]
fn a_refused_setup_does_nothing() {
    let s = Setup::start(plan(ResolvedMode::UvFull), Some("a conflicts with b".into()));
    assert_eq!(s.next_action(), Action::Done);
    let summary = s.into_summary(PackageManager::Uv, String::new());
    assert!(!summary.ok);
    assert!(summary.steps[0].detail.contains("a conflicts with b"));
    assert_eq!(refusal(None), None);
    assert!(!derive_why(None, Some(PyVersion::py3(12))).is_empty());
}

fn job(manager: PackageManager) -> Job {
    Job {
        manager,
        package: "mediapipe".into(),
        venv: "/p/.venv".into(),
        requirements: "/p/requirements.txt".into(),
        os: Os::Linux,
        index_url: None,
        check: Some("mediapipe".into()),
        rebuild: None,
    }
}

fn run_install(job: Job, pyproject: bool, requirements: Option<&str>) -> (Vec<Invocation>, Vec<String>, Install) {
    let mut ran = vec![];
    let mut written = vec![];
    let mut s = Install::start(job);
    for _ in 0..40 {
        let reply = match s.next_action() {
            Action::EnsureUv => uv(),
            Action::LookForManifests => Reply::Manifests {
                pyproject,
                requirements: requirements.is_some(),
            },
            Action::LookForVenv => Reply::Venv(true),
            Action::FindInterpreters => Reply::Interpreters(vec![python(12)]),
            Action::Run(cmd) => {
                ran.push(cmd);
                done("")
            }
            Action::RemoveVenv => Reply::Changed(Ok(())),
            Action::ReadRequirements => Reply::Requirements(requirements.map(|s| s.to_string())),
            Action::WriteRequirements(s) => {
                written.push(s);
                Reply::Changed(Ok(()))
            }
            Action::Done => break,
        };
        s = s.advance(reply);
    }
    assert_eq!(s.next_action(), Action::Done);
    (ran, written, s)
}

#[test]
fn uv_projects_add_the_package() {
    let (ran, written, s) = run_install(job(PackageManager::Uv), true, None);
    assert!(s.into_summary(ResolvedMode::UvFull).ok);
    assert!(ran
        .iter()
        .any(|c| c.args.contains(&"add".to_string()) && c.args.contains(&"mediapipe".to_string())));
    assert!(written.is_empty());
}

#[test]
fn pip_projects_record_the_package() {
    let (ran, written, s) = run_install(job(PackageManager::Pip), false, Some("numpy\n"));
    assert!(s.into_summary(ResolvedMode::PurePip).ok);
    assert!(ran.iter().all(|c| c.program != "uv"));
    assert_eq!(written, vec!["numpy\nmediapipe\n"]);
}

#[test]
fn frameworks_are_repinned_to_their_build() {
    let declared = declared_frameworks(&vec![
        Requirement::any("numpy"),
        Requirement::any("torch"),
    ])
    .unwrap();
    assert_eq!(declared, vec![Requirement::any("torch")]);
    assert!(declared_frameworks(&vec![Requirement::any("numpy")]).is_err());

    let solved = FrameworkSolve {
        resolved_version: Some("2.4.0".into()),
        finding: None,
        index_url: Some("https://i/cu121".into()),
    };
    let p = pin("torch", &solved).unwrap();
    assert_eq!(p.spec, "torch==2.4.0");
    assert_eq!(p.index_url.as_deref(), Some("https://i/cu121"));

    let target = Target {
        note: Some("matched".into()),
        pin: p,
    };
    let mut s = Repin::start(PackageManager::Uv, "/p/.venv", Os::Linux, vec![target]);
    let mut ran = vec![];
    for _ in 0..20 {
        let reply = match s.next_action() {
            Action::EnsureUv => uv(),
            Action::LookForVenv => Reply::Venv(true),
            Action::Run(cmd) => {
                ran.push(cmd);
                done("")
            }
            _ => break,
        };
        s = s.advance(reply);
    }
    let (lines, error) = s.outcome();
    assert_eq!(error, None);
    assert_eq!(lines, vec!["matched", "  ok installed torch==2.4.0"]);
    assert_eq!(ran.len(), 1);
    assert!(ran[0].args.contains(&"torch==2.4.0".to_string()));
}

#[test]
fn frameworks_become_targets() {
    let table = FrameworkTable::load(FRAMEWORKS_JSON).unwrap();
    let drivers = DriverTable::load(NVIDIA_JSON).unwrap();
    let packages = vec![
        Requirement::any("numpy"),
        Requirement {
            name: "torch".into(),
            spec: "==2.4.0".into(),
        },
    ];
    let gpu = Accelerator::Nvidia {
        name: "RTX 3080".into(),
        driver_version: "535.54.03".into(),
    };
    let found = targets(&packages, Some(&table), Some(&drivers), &gpu, Os::Linux);
    assert_eq!(found.len(), 1);
    assert_eq!(found[0].pin.spec, "torch==2.4.0");
    assert_eq!(
        found[0].pin.index_url.as_deref(),
        Some("https://download.pytorch.org/whl/cu121")
    );
    assert!(found[0].note.as_ref().unwrap().contains("cu121"));
    assert!(targets(&packages, None, Some(&drivers), &gpu, Os::Linux).is_empty());
}

fn assessment() -> Assessment {
    Assessment {
        probes: Probes {
            uv: None,
            venv: None,
            interpreters: vec![python(12)],
        },
        project: ProjectDeps {
            sources: vec!["requirements.txt".into()],
            packages: vec![Requirement::any("numpy")],
            ..Default::default()
        },
        compat: None,
        target_python: Some(PyVersion::py3(12)),
        findings: vec![],
    }
}

#[test]
fn an_assessment_is_set_up_in_the_settings_mode() {
    let pip = Settings {
        package_manager: PackageManager::Pip,
        ..Settings::default()
    };
    let s = setup::run(
        &assessment(),
        &pip,
        "/p/.venv",
        "/p/requirements.txt",
        Os::Linux,
        vec![],
    );
    match s.next_action() {
        Action::Run(cmd) => assert_eq!(cmd.args, vec!["-m", "venv", "/p/.venv"]),
        other => panic!("expected the venv to be created, got {other:?}"),
    }
    let s = run_with_mode(
        &assessment(),
        ResolvedMode::UvPipCompat,
        "/p/.venv",
        "/p/requirements.txt",
        Os::Linux,
        vec![],
    );
    assert_eq!(s.next_action(), Action::EnsureUv);
}

#[test]
fn installs_note_what_the_solver_said() {
    let solved = FrameworkSolve {
        resolved_version: Some("2.4.0".into()),
        finding: Some(pypilot::engine::Finding {
            severity: pypilot::engine::Severity::Info,
            title: "matched".into(),
            detail: "cu121 suits the driver".into(),
            fix: pypilot::engine::FixKind::Manual,
        }),
        index_url: Some("https://i/cu121".into()),
    };
    let mut s = install_package(
        &Settings::default(),
        "torch",
        "/p/.venv",
        "/p/requirements.txt",
        Os::Linux,
        Some(&solved),
    );
    let mut ran = vec![];
    for _ in 0..20 {
        let reply = match s.next_action() {
            Action::EnsureUv => uv(),
            Action::LookForManifests => Reply::Manifests {
                pyproject: true,
                requirements: false,
            },
            Action::Run(cmd) => {
                ran.push(cmd);
                done("")
            }
            _ => break,
        };
        s = s.advance(reply);
    }
    let summary = s.into_summary(ResolvedMode::UvFull);
    assert!(summary.ok);
    assert_eq!(summary.why, "Installing torch.");
    assert_eq!(summary.steps[0].name, "GPU/CUDA check");
    assert_eq!(summary.steps[0].detail, "cu121 suits the driver");
    assert_eq!(ran[0].args, vec!["add", "--index", "https://i/cu121", "torch"]);
}

#[test]
fn rebuilding_needs_the_interpreter_in_pip_mode() {
    let pip = Settings {
        package_manager: PackageManager::Pip,
        ..Settings::default()
    };
    let s = recreate_with_python(
        &pip,
        PyVersion::py3(12),
        "mediapipe",
        "/p/.venv",
        "/p/requirements.txt",
        Os::Linux,
        None,
    );
    assert_eq!(s.next_action(), Action::FindInterpreters);
    let s = s.advance(Reply::Interpreters(vec![python(13)]));
    assert_eq!(s.next_action(), Action::Done);
    let summary = s.into_summary(ResolvedMode::PurePip);
    assert!(!summary.ok);
    assert!(summary.steps[0].detail.contains("Python 3.12 is not installed"));
    assert_eq!(summary.python, Some(PyVersion::py3(12)));
}
