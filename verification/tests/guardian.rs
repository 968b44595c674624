//! Buffer text in, findings out, and the report they rest on, over recorded
//! package metadata so that nothing touches the network.
//!
//! The platform is pinned to Linux x86-64 throughout: wheel availability is per
//! platform.

use pypilot::engine::guardian::{
    analyze_buffer, candidates, check_attributes, classify, conclude, local_modules, packages_of,
    BufferContext, Problem,
};
use pypilot::engine::imports::ImportRef;
use pypilot::engine::installed::{scan, Installed};
use pypilot::engine::interpreter::Interpreter;
use pypilot::engine::modules::{Entry, EntryKind, PackageDir};
use pypilot::engine::pip;
use pypilot::engine::platform::{Arch, Os, Platform};
use pypilot::engine::project::{ProjectDeps, Requirement};
use pypilot::engine::solver::{synthesize, EnvSummary};
use pypilot::engine::{FixKind, Severity};
use pypilot::names::NameSet;
use pypilot::pypi::client::FixtureSource;
use pypilot::pypi::metadata::{DistFile, Info, PackageAnalysis, PackageMetadata};
use pypilot::pypi::pyversion::{PyVersion, PyVersionSet};
use pypilot::pypi::analyze;

fn linux() -> Platform {
    Platform {
        os: Os::Linux,
        arch: Arch::X86_64,
    }
}

fn wheel(filename: String) -> DistFile {
    DistFile {
        filename,
        packagetype: "bdist_wheel".into(),
        requires_python: None,
        yanked: false,
    }
}

/// A release with one manylinux wheel for each of the CPython versions.
fn cp_wheels(name: &str, version: &str, minors: &[u8], versions: &[&str]) -> PackageMetadata {
    PackageMetadata {
        info: Info {
            name: name.into(),
            version: version.into(),
            requires_python: None,
        },
        urls: minors
            .iter()
            .map(|m| {
                wheel(format!(
                    "{name}-{version}-cp3{m}-cp3{m}-manylinux_2_17_x86_64.whl"
                ))
            })
            .collect(),
        versions: versions.iter().map(|v| v.to_string()).collect(),
    }
}

fn numpy() -> PackageMetadata {
    cp_wheels("numpy", "2.3.0", &[9, 10, 11, 12, 13, 14], &["2.3.0"])
}

fn source() -> FixtureSource {
    let mut src = FixtureSource::new();
    src.insert(
        "mediapipe",
        cp_wheels("mediapipe", "0.10.21", &[9, 10, 11, 12], &["0.10.21"]),
    );
    src.insert("numpy", numpy());
    src
}

const MEDIAPIPE_RELEASES: [&str; 4] = ["0.10.9", "0.10.14", "0.10.35", "0.11.0rc1"];

/// The newest release under the plain name, plus the older one addressable by
/// exact version, mirroring how the index resolves a pin.
fn pinned_source() -> FixtureSource {
    let mut src = FixtureSource::new();
    let mut newest = cp_wheels("mediapipe", "0.10.35", &[], &MEDIAPIPE_RELEASES);
    newest.urls = vec![wheel(
        "mediapipe-0.10.35-py3-none-manylinux_2_28_x86_64.whl".to_string(),
    )];
    src.insert("mediapipe", newest);
    src.insert(
        "mediapipe==0.10.14",
        cp_wheels("mediapipe", "0.10.14", &[9, 10, 11, 12], &MEDIAPIPE_RELEASES),
    );
    src.insert("numpy", numpy());
    src
}

/// No Python files, so nothing is mistaken for a local module.
fn empty_workspace() -> NameSet {
    NameSet::new()
}

fn req(name: &str, spec: &str) -> Requirement {
    Requirement {
        name: name.to_string(),
        spec: spec.to_string(),
    }
}

fn analysis(name: &str, minors: &[u8]) -> PackageAnalysis {
    let versions: Vec<PyVersion> = minors.iter().map(|&m| PyVersion::py3(m)).collect();
    PackageAnalysis {
        name: name.into(),
        version: "1.0".into(),
        supported: PyVersionSet::from_versions(&versions),
        has_platform_wheels: true,
        sdist_only: false,
        requires_python: None,
    }
}

fn import_of(module: &str) -> ImportRef {
    ImportRef {
        module: module.into(),
        binding: Some(module.into()),
        line: 0,
        start: 7,
        end: 7 + module.len() as u32,
    }
}

// --- One import --------------------------------------------------------------

#[test]
fn compatible_but_missing_offers_a_plain_install() {
    let ctx = BufferContext {
        venv_python: Some(PyVersion::py3(12)),
        installed_count: 3,
        file_target: Some(PyVersion::py3(12)),
    };
    let f = classify(
        import_of("mediapipe"),
        "mediapipe".into(),
        false,
        Some(&analysis("mediapipe", &[9, 10, 11, 12])),
        &ctx,
    );
    assert_eq!(f.problem, Problem::NotInstalled);
}

#[test]
fn incompatible_interpreter_reports_target_and_reinstall_scope() {
    // The week-two case: 3.13 venv with packages in it, new import caps at 3.12.
    let ctx = BufferContext {
        venv_python: Some(PyVersion::py3(13)),
        installed_count: 3,
        file_target: Some(PyVersion::py3(12)),
    };
    let f = classify(
        import_of("mediapipe"),
        "mediapipe".into(),
        false,
        Some(&analysis("mediapipe", &[9, 10, 11, 12])),
        &ctx,
    );
    match f.problem {
        Problem::IncompatibleInterpreter {
            current,
            target,
            reinstall_count,
            ref supported,
        } => {
            assert_eq!(current, PyVersion::py3(13));
            assert_eq!(target, Some(PyVersion::py3(12)));
            assert_eq!(reinstall_count, 3);
            assert_eq!(supported.to_range_string(), "3.9–3.12");
        }
        other => panic!("expected an interpreter conflict, got {other:?}"),
    }
}

#[test]
fn no_venv_sizes_the_environment_for_the_whole_file() {
    let ctx = BufferContext {
        venv_python: None,
        installed_count: 0,
        file_target: Some(PyVersion::py3(12)),
    };
    let f = classify(
        import_of("mediapipe"),
        "mediapipe".into(),
        false,
        Some(&analysis("mediapipe", &[9, 10, 11, 12])),
        &ctx,
    );
    assert_eq!(
        f.problem,
        Problem::NoEnvironment {
            target: Some(PyVersion::py3(12))
        }
    );
}

#[test]
fn unknown_project_never_becomes_an_install_offer() {
    let ctx = BufferContext {
        venv_python: Some(PyVersion::py3(12)),
        ..Default::default()
    };
    let f = classify(import_of("mediapip"), "mediapip".into(), false, None, &ctx);
    assert_eq!(f.problem, Problem::NotOnPyPi);
}

// --- A whole buffer ----------------------------------------------------------

/// The headline case. mediapipe ships no cp313 wheel, so importing it on a 3.13
/// venv must be reported against the interpreter, not as a missing package.
#[test]
fn incompatible_import_names_the_version_and_the_fix() {
    let buffer = "import os\nimport mediapipe\n";
    let installed = Installed::default();

    let findings = analyze_buffer(
        buffer,
        &empty_workspace(),
        linux(),
        Some(PyVersion::py3(13)),
        &installed,
        &source(),
    );

    // `os` is stdlib and must never reach PyPI or the editor.
    assert_eq!(findings.len(), 1, "only mediapipe should be reported");
    let f = &findings[0];
    assert_eq!(f.package, "mediapipe");
    assert_eq!(f.import.line, 1);

    match &f.problem {
        Problem::IncompatibleInterpreter {
            current,
            target,
            supported,
            ..
        } => {
            assert_eq!(*current, PyVersion::py3(13));
            assert_eq!(*target, Some(PyVersion::py3(12)));
            assert_eq!(supported.to_range_string(), "3.9–3.12");
        }
        other => panic!("expected an interpreter conflict, got {other:?}"),
    }
}

/// On a supported interpreter the same import is just missing, and the fix is a
/// plain install rather than a rebuild.
#[test]
fn compatible_interpreter_gives_a_plain_install() {
    let findings = analyze_buffer(
        "import mediapipe\n",
        &empty_workspace(),
        linux(),
        Some(PyVersion::py3(12)),
        &Installed::default(),
        &source(),
    );

    assert_eq!(findings.len(), 1);
    assert_eq!(findings[0].problem, Problem::NotInstalled);
}

/// Installed packages produce no diagnostics at all.
#[test]
fn installed_packages_are_silent() {
    let mut packages = NameSet::new();
    packages.insert("mediapipe");
    let installed = Installed {
        packages,
        ..Default::default()
    };
    let findings = analyze_buffer(
        "import mediapipe\n",
        &empty_workspace(),
        linux(),
        Some(PyVersion::py3(12)),
        &installed,
        &source(),
    );
    assert!(findings.is_empty(), "an installed package needs no fix");
}

/// With no venv, the suggested interpreter comes from every import in the file,
/// so the first environment already suits all of them. numpy alone would allow
/// 3.14; mediapipe pulls the answer down to 3.12.
#[test]
fn fresh_project_sizes_the_venv_for_every_import() {
    let buffer = "import numpy\nimport mediapipe\n";
    let findings = analyze_buffer(
        buffer,
        &empty_workspace(),
        linux(),
        None,
        &Installed::default(),
        &source(),
    );

    assert_eq!(findings.len(), 2);
    for f in &findings {
        assert_eq!(
            f.problem,
            Problem::NoEnvironment {
                target: Some(PyVersion::py3(12))
            },
            "{} should target the version the whole file agrees on",
            f.package
        );
    }
}

/// A module that lives next to the file is the project's own, not a package.
#[test]
fn local_modules_are_never_reported() {
    let root = vec![Entry {
        name: "preprocess.py".into(),
        kind: EntryKind::File,
    }];

    let findings = analyze_buffer(
        "import preprocess\nimport mediapipe\n",
        &local_modules(&root, &[]),
        linux(),
        Some(PyVersion::py3(12)),
        &Installed::default(),
        &source(),
    );

    assert_eq!(findings.len(), 1);
    assert_eq!(findings[0].package, "mediapipe");
}

/// An unknown name gets flagged but never gets an install offer, which is the
/// typosquatting guard.
#[test]
fn unknown_package_is_flagged_without_an_install() {
    let findings = analyze_buffer(
        "import mediapip\n",
        &empty_workspace(),
        linux(),
        Some(PyVersion::py3(12)),
        &Installed::default(),
        &source(),
    );

    assert_eq!(findings.len(), 1);
    assert_eq!(findings[0].problem, Problem::NotOnPyPi);
}

#[test]
fn renamed_imports_are_looked_up_under_their_package() {
    let found = candidates("import cv2\nimport os\n", &empty_workspace(), &Installed::default());
    assert_eq!(found.len(), 1);
    assert_eq!(found[0].package, "opencv-python");
    assert!(found[0].renamed);
    assert!(packages_of(&found).contains("opencv-python"));
    let findings = conclude(found, &[], Some(PyVersion::py3(12)), 0);
    assert_eq!(findings[0].problem, Problem::NotOnPyPi);
}

#[test]
fn packages_under_src_are_local_too() {
    let src = vec![
        Entry {
            name: "app".into(),
            kind: EntryKind::Package,
        },
        Entry {
            name: "notes.txt".into(),
            kind: EntryKind::File,
        },
    ];
    let local = local_modules(&[], &src);
    assert!(local.contains("app"));
    assert!(!local.contains("notes"));
}

// --- Attribute checks against the installed package -------------------------
//
// The case metadata cannot answer. mediapipe 0.10.35 installs on any CPython
// 3.x and then raises `module 'mediapipe' has no attribute 'solutions'`,
// because the release dropped the legacy API. Reading the package on disk
// catches it while the file is being edited.

/// A package laid out like mediapipe 0.10.35.
fn mediapipe_on_disk() -> Vec<(String, PackageDir)> {
    vec![(
        "mediapipe".to_string(),
        PackageDir {
            init: Some(
                "import mediapipe.tasks.python as tasks\n\
                 from mediapipe.tasks.python.vision.core.image import Image\n"
                    .to_string(),
            ),
            entries: vec![Entry {
                name: "tasks".into(),
                kind: EntryKind::Package,
            }],
        },
    )]
}

fn installed_mediapipe() -> Installed {
    scan(&[
        "mediapipe".to_string(),
        "mediapipe-0.10.35.dist-info".to_string(),
    ])
}

#[test]
fn removed_api_is_caught_before_running_the_file() {
    let installed = installed_mediapipe();

    let buffer = "import mediapipe as mp\n\nmp_hands = mp.solutions.hands\n";
    let findings = check_attributes(buffer, &mediapipe_on_disk(), &installed);

    assert_eq!(findings.len(), 1, "got {findings:?}");
    match &findings[0].problem {
        Problem::AttributeMissing {
            attribute,
            installed_version,
            available,
        } => {
            assert_eq!(attribute, "solutions");
            assert_eq!(installed_version.as_deref(), Some("0.10.35"));
            assert!(
                available.contains(&"tasks".to_string()),
                "the message should point at the replacement API: {available:?}"
            );
        }
        other => panic!("expected a missing attribute, got {other:?}"),
    }
    // Squiggle lands on the usage, not the import.
    assert_eq!(findings[0].import.line, 2);
}

#[test]
fn attributes_that_exist_are_silent() {
    let installed = installed_mediapipe();

    // `tasks` is a submodule, `Image` is re-exported in __init__.py.
    let buffer = "import mediapipe as mp\n\nx = mp.tasks.python\ny = mp.Image\n";
    assert!(
        check_attributes(buffer, &mediapipe_on_disk(), &installed).is_empty(),
        "no false positives on the API that is actually there"
    );
}

#[test]
fn uninstalled_packages_are_not_attribute_checked() {
    // Nothing on disk to read, so nothing can be claimed.
    let buffer = "import mediapipe as mp\n\nx = mp.solutions\n";
    assert!(check_attributes(buffer, &mediapipe_on_disk(), &Installed::default()).is_empty());
}

// --- The engine over recorded metadata ---------------------------------------

fn python_project(pkgs: &[&str]) -> ProjectDeps {
    ProjectDeps {
        sources: vec!["requirements.txt".into()],
        packages: pkgs.iter().map(|s| Requirement::any(s)).collect(),
        ..Default::default()
    }
}

/// The headline case: mediapipe ships cp39–cp312 wheels only. On Python 3.13 the
/// engine must diagnose the incompatibility and suggest 3.12.
#[test]
fn mediapipe_on_313_is_diagnosed_and_312_suggested() {
    let src = source();
    let report = analyze(&src, linux(), &[Requirement::any("mediapipe")]);

    // Supported set is exactly 3.9–3.12.
    assert_eq!(report.intersection.to_range_string(), "3.9–3.12");
    assert_eq!(report.suggested_python(), Some(PyVersion::py3(12)));

    // 3.13 is not compatible, and mediapipe is named as the blocker.
    assert!(!report.is_compatible(PyVersion::py3(13)));
    let blockers = report.blockers_for(PyVersion::py3(13));
    assert!(blockers.iter().any(|p| p.name == "mediapipe"));

    // Now feed it to the decision logic with a 3.13 venv → recreate on 3.12.
    let env = EnvSummary {
        has_venv: true,
        venv_python: Some(PyVersion::py3(13)),
        uv_present: true,
        interpreters: vec![PyVersion::py3(13)],
    };
    let (target, findings) = synthesize(&env, &python_project(&["mediapipe"]), Some(&report));
    assert_eq!(target, Some(PyVersion::py3(12)));
    let err = findings
        .iter()
        .find(|f| f.severity == Severity::Error)
        .unwrap();
    assert_eq!(err.fix, FixKind::RecreateWithPython(PyVersion::py3(12)));
    assert!(err.detail.contains("mediapipe"));
    assert!(err.detail.contains("3.13"));
}

/// A broadly-compatible dep (numpy, cp39–cp313) does not lift mediapipe's cap:
/// the intersection is still 3.9–3.12.
#[test]
fn intersection_respects_the_tightest_dependency() {
    let src = source();
    let report = analyze(
        &src,
        linux(),
        &[Requirement::any("mediapipe"), Requirement::any("numpy")],
    );
    assert_eq!(report.suggested_python(), Some(PyVersion::py3(12)));
    assert!(report.is_compatible(PyVersion::py3(12)));
    assert!(!report.is_compatible(PyVersion::py3(13)));
}

/// pip-mode fallback: compatibility analysis is identical (it never touches the
/// package manager), and pip mode can only proceed when the required interpreter
/// already exists on the machine.
#[test]
fn pip_mode_requires_preinstalled_interpreter() {
    // Same analysis as uv mode — the engine is package-manager-agnostic.
    let src = source();
    let report = analyze(&src, linux(), &[Requirement::any("mediapipe")]);
    let target = report.suggested_python().unwrap();
    assert_eq!(target, PyVersion::py3(12));

    // pip mode: with 3.12 present it can proceed…
    let installed = vec![
        Interpreter {
            command: "python3.12".into(),
            path: "/usr/bin/python3.12".into(),
            version: PyVersion::py3(12),
        },
        Interpreter {
            command: "python3.13".into(),
            path: "/usr/bin/python3.13".into(),
            version: PyVersion::py3(13),
        },
    ];
    assert!(pip::select_interpreter(&installed, target).is_some());

    // …but with only 3.13 present, pip mode cannot fetch 3.12 → no interpreter.
    let only_313 = vec![Interpreter {
        command: "python3.13".into(),
        path: "/usr/bin/python3.13".into(),
        version: PyVersion::py3(13),
    }];
    assert!(pip::select_interpreter(&only_313, target).is_none());
}

// --- Pins --------------------------------------------------------------------
//
// A pinned dependency must be judged on the release that will actually be
// installed, not on whatever is newest.

/// Unpinned: the py3-tagged 0.10.35 really does install anywhere.
#[test]
fn unpinned_reports_the_newest_release() {
    let report = analyze(&pinned_source(), linux(), &[Requirement::any("mediapipe")]);

    assert_eq!(report.per_package[0].version, "0.10.35");
    assert!(
        report.is_compatible(PyVersion::py3(14)),
        "a py3-none wheel installs on any CPython 3.x"
    );
}

/// Pinned: the answer must come from 0.10.14's wheels, which stop at 3.12.
#[test]
fn exact_pin_is_judged_on_the_pinned_release() {
    let report = analyze(&pinned_source(), linux(), &[req("mediapipe", "==0.10.14")]);

    assert_eq!(
        report.per_package[0].version, "0.10.14",
        "the pinned release is what gets analyzed"
    );
    assert_eq!(report.intersection.to_range_string(), "3.9–3.12");
    assert_eq!(report.suggested_python(), Some(PyVersion::py3(12)));
    assert!(
        !report.is_compatible(PyVersion::py3(14)),
        "0.10.14 has no wheel for 3.14, so 3.14 must not be recommended"
    );
}

/// An upper bound behaves like a pin: the newest release below the cap wins.
#[test]
fn upper_bound_resolves_below_the_cap() {
    let report = analyze(&pinned_source(), linux(), &[req("mediapipe", "<0.10.20")]);

    assert_eq!(report.per_package[0].version, "0.10.14");
    assert_eq!(report.suggested_python(), Some(PyVersion::py3(12)));
}

/// A lower bound leaves the newest release as the answer, so no extra lookup is
/// needed and the result matches the unpinned case.
#[test]
fn lower_bound_keeps_the_newest_release() {
    let report = analyze(&pinned_source(), linux(), &[req("mediapipe", ">=0.10")]);

    assert_eq!(report.per_package[0].version, "0.10.35");
    assert!(report.is_compatible(PyVersion::py3(14)));
}

/// The pin propagates into the project-wide intersection, dragging the
/// recommendation down even though the other dependency allows 3.14.
#[test]
fn a_pin_constrains_the_whole_project() {
    let report = analyze(
        &pinned_source(),
        linux(),
        &[req("mediapipe", "==0.10.14"), Requirement::any("numpy")],
    );

    assert_eq!(report.suggested_python(), Some(PyVersion::py3(12)));
    let blockers = report.blockers_for(PyVersion::py3(14));
    assert!(
        blockers.iter().any(|p| p.name == "mediapipe"),
        "mediapipe must be named as the package that caps the version"
    );
}

/// A constraint nothing satisfies is reported rather than silently ignored.
#[test]
fn impossible_pin_is_reported() {
    let report = analyze(&pinned_source(), linux(), &[req("mediapipe", "==99.0.0")]);

    assert!(report.per_package.is_empty());
    assert_eq!(report.unresolved.len(), 1);
    assert!(
        report.unresolved[0].1.contains("no release"),
        "got: {}",
        report.unresolved[0].1
    );
}

/// Pre-releases are not selected unless the specifier asks for one.
#[test]
fn prerelease_is_not_picked_by_a_plain_lower_bound() {
    // 0.11.0rc1 is in the release list but must not be chosen.
    let report = analyze(&pinned_source(), linux(), &[req("mediapipe", ">=0.10.14")]);
    assert_eq!(report.per_package[0].version, "0.10.35");
}
