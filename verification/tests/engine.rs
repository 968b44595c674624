//! Imports, installed packages, modules, platforms, probes, uv and the solver.

use pypilot::engine::command::Output;
use pypilot::engine::gpu::{
    detect as detect_gpu, nvidia_smi_args, probe_nvidia_smi, Accelerator, Detection,
    CACHE_TTL_SECS,
};
use pypilot::engine::imports::{
    extract, extract_attr_uses, strip_strings_and_comments, take_word, Quote,
};
use pypilot::engine::installed::{
    distribution_name, distribution_version, scan, site_packages_dirs, Installed,
};
use pypilot::engine::interpreter::{candidates, discover, find_version, read_probe, Interpreter};
use pypilot::engine::modules::{
    attribute_status, bound_names, find_package, module_name, AttrStatus, Entry, EntryKind,
    PackageDir,
};
use pypilot::engine::pip;
use pypilot::engine::platform::{Arch, Os, Platform};
use pypilot::engine::probe::{detect_venv, parse_pyvenv_version, venv_names, Probes, VenvInfo};
use pypilot::engine::project::{ProjectDeps, Requirement};
use pypilot::engine::rescan::{is_new, request_file, request_key, request_text, Kind};
use pypilot::engine::solver::{
    assess, dry_run_finding, dry_run_target, synthesize, EnvSummary,
};
use pypilot::engine::stdlib::is_stdlib;
use pypilot::engine::uv::{
    clean_version, create_venv, detect, ensure, pick_asset, uv_asset_name, venv_args, Ensured,
    UvInfo,
};
use pypilot::engine::{FixKind, Severity};
use pypilot::matrix::HardwareReport;
use pypilot::names::NameSet;
use pypilot::pypi::metadata::PackageAnalysis;
use pypilot::pypi::pyversion::{PyVersion, PyVersionSet};
use pypilot::pypi::CompatReport;
use pypilot::settings::{PackageManager, Settings};

fn modules(src: &str) -> Vec<String> {
    extract(src).into_iter().map(|i| i.module).collect()
}

fn strings(items: &[&str]) -> Vec<String> {
    items.iter().map(|s| s.to_string()).collect()
}

fn output(status: Option<i32>, stdout: &str, stderr: &str) -> Output {
    Output {
        status,
        stdout: stdout.into(),
        stderr: stderr.into(),
    }
}

// --- Imports -----------------------------------------------------------------

#[test]
fn plain_import() {
    assert_eq!(modules("import os\n"), vec!["os"]);
}

#[test]
fn dotted_import_keeps_top_level() {
    assert_eq!(modules("import cv2.aruco\n"), vec!["cv2"]);
    assert_eq!(modules("from os.path import join\n"), vec!["os"]);
}

#[test]
fn aliased_and_multiple() {
    assert_eq!(modules("import numpy as np\n"), vec!["numpy"]);
    assert_eq!(modules("import os, sys\n"), vec!["os", "sys"]);
}

#[test]
fn relative_imports_are_skipped() {
    assert!(modules("from . import helpers\n").is_empty());
    assert!(modules("from .models import User\n").is_empty());
    assert!(modules("from ..pkg import thing\n").is_empty());
}

#[test]
fn indented_imports_are_found() {
    assert_eq!(modules("try:\n    import ujson\n"), vec!["ujson"]);
}

#[test]
fn imports_in_comments_and_strings_are_ignored() {
    assert!(modules("# import requests\n").is_empty());
    assert!(modules("x = \"import requests\"\n").is_empty());
}

#[test]
fn imports_inside_docstrings_are_ignored() {
    let src = "\"\"\"\nExample:\n    import requests\n\"\"\"\nimport os\n";
    assert_eq!(modules(src), vec!["os"]);
}

#[test]
fn position_covers_the_module_path() {
    let refs = extract("import cv2.aruco\n");
    assert_eq!(refs[0].line, 0);
    assert_eq!(refs[0].start, 7);
    assert_eq!(refs[0].end, 16);
}

#[test]
fn second_module_in_a_list_is_positioned() {
    let refs = extract("import os, sys\n");
    assert_eq!(refs[1].module, "sys");
    assert_eq!(refs[1].start, 11);
    assert_eq!(refs[1].end, 14);
}

#[test]
fn not_an_import_statement() {
    assert!(modules("important = 1\n").is_empty());
    assert!(modules("fromage = 2\n").is_empty());
}

#[test]
fn imports_bind_the_name_the_file_uses() {
    let bindings: Vec<Option<String>> = extract("import a\nimport b.c\nimport d as e\nfrom f import g\n")
        .into_iter()
        .map(|i| i.binding)
        .collect();
    assert_eq!(
        bindings,
        vec![
            Some("a".to_string()),
            Some("b".to_string()),
            Some("e".to_string()),
            None
        ]
    );
}

#[test]
fn masking_keeps_every_column() {
    let (masked, open) = strip_strings_and_comments("x = 'a#b' + y # tail", None);
    assert_eq!(masked, "x =       + y ");
    assert_eq!(open, None);
    let (_, open) = strip_strings_and_comments("\"\"\"starts here", None);
    assert_eq!(open, Some(Quote::Double));
    let (rest, open) = strip_strings_and_comments("ends ''' import os", Some(Quote::Single));
    assert!(rest.ends_with("import os"));
    assert_eq!(open, None);
}

#[test]
fn words_end_where_identifiers_do() {
    assert_eq!(take_word("abc_1.def"), "abc_1");
    assert_eq!(take_word(" x"), "");
}

#[test]
fn attribute_uses_are_positioned() {
    let uses = extract_attr_uses("import mediapipe as mp\nx = mp.solutions.hands\n", &strings(&["mp"]));
    assert_eq!(uses.len(), 1);
    assert_eq!(uses[0].attr, "solutions");
    assert_eq!((uses[0].line, uses[0].start, uses[0].end), (1, 4, 16));
    assert!(extract_attr_uses("a.mp.x\n# mp.y\n", &strings(&["mp"])).is_empty());
}

#[test]
fn the_standard_library_is_known() {
    assert!(is_stdlib("os"));
    assert!(is_stdlib("tomllib"));
    assert!(!is_stdlib("numpy"));
    assert!(!is_stdlib(""));
}

// --- Installed packages ------------------------------------------------------

#[test]
fn parses_dist_info_names() {
    assert_eq!(
        distribution_name("charset_normalizer-3.3.2.dist-info").as_deref(),
        Some("charset-normalizer")
    );
    assert_eq!(
        distribution_name("opencv_python-5.0.0.93.dist-info").as_deref(),
        Some("opencv-python")
    );
    assert_eq!(
        distribution_name("numpy-2.0.1.egg-info").as_deref(),
        Some("numpy")
    );
}

#[test]
fn ignores_non_metadata_entries() {
    assert!(distribution_name("numpy").is_none());
    assert!(distribution_name("__pycache__").is_none());
    assert!(distribution_name("numpy.libs").is_none());
}

#[test]
fn lookup_normalizes_the_query() {
    let mut packages = NameSet::new();
    packages.insert("opencv-python");
    let installed = Installed {
        packages,
        ..Default::default()
    };
    assert!(installed.contains("opencv_python"));
    assert!(installed.contains("OpenCV-Python"));
    assert!(!installed.contains("opencv"));
}

#[test]
fn missing_venv_scans_empty() {
    let empty = scan(&[]);
    assert_eq!(empty.count(), 0);
}

#[test]
fn scanning_keeps_versions() {
    let found = scan(&strings(&[
        "mediapipe",
        "mediapipe-0.10.35.dist-info",
        "opencv_python-4.10.0.dist-info",
    ]));
    assert_eq!(found.count(), 2);
    assert_eq!(found.version_of("mediapipe").as_deref(), Some("0.10.35"));
    assert_eq!(found.version_of("opencv-python").as_deref(), Some("4.10.0"));
    assert_eq!(found.version_of("numpy"), None);
    assert_eq!(
        distribution_version("numpy-2.0.1.egg-info").as_deref(),
        Some("2.0.1")
    );
}

#[test]
fn site_packages_depend_on_the_system() {
    assert_eq!(site_packages_dirs(true, &[]), vec!["Lib/site-packages"]);
    assert_eq!(
        site_packages_dirs(false, &strings(&["python3.12"])),
        vec!["lib/python3.12/site-packages"]
    );
    assert!(site_packages_dirs(false, &[]).is_empty());
}

// --- Modules -----------------------------------------------------------------

fn package(init: &str, submodules: &[&str]) -> PackageDir {
    PackageDir {
        init: Some(init.to_string()),
        entries: submodules
            .iter()
            .map(|m| Entry {
                name: m.to_string(),
                kind: EntryKind::Package,
            })
            .collect(),
    }
}

/// The real shape of mediapipe 0.10.35: tasks and modules on disk, a few
/// names re-exported, and no `solutions` anywhere.
fn mediapipe_0_10_35() -> PackageDir {
    package(
        "import mediapipe.tasks.python as tasks\n\
         from mediapipe.tasks.python.vision.core.image import Image\n\
         from mediapipe.tasks.python.vision.core.image import ImageFormat\n",
        &["tasks", "modules"],
    )
}

#[test]
fn removed_api_is_reported_missing() {
    let dir = mediapipe_0_10_35();
    match attribute_status(&dir, "solutions") {
        AttrStatus::Missing { available } => {
            assert!(available.contains(&"tasks".to_string()));
            assert!(
                available.contains(&"Image".to_string()),
                "re-exported names count as available: {available:?}"
            );
        }
        other => panic!("expected solutions to be missing, got {other:?}"),
    }
}

#[test]
fn submodules_and_reexports_are_present() {
    let dir = mediapipe_0_10_35();
    // On disk as a directory.
    assert_eq!(attribute_status(&dir, "tasks"), AttrStatus::Present);
    // Only bound in __init__.py, never a submodule.
    assert_eq!(attribute_status(&dir, "Image"), AttrStatus::Present);
}

#[test]
fn lazy_packages_are_left_alone() {
    // PEP 562 means the attribute may exist despite nothing on disk.
    let dir = package("def __getattr__(name):\n    return 1\n", &[]);
    assert_eq!(attribute_status(&dir, "anything"), AttrStatus::Unknown);
}

#[test]
fn recognizes_the_ways_a_name_gets_bound() {
    let names = bound_names(
        "import os\n\
         import a.b as alias\n\
         from x import y, z as w\n\
         CONST = 1\n\
         typed: int = 2\n\
         def fn():\n\
         \x20   local = 3\n\
         class Klass:\n\
         \x20   pass\n",
    );
    for expected in ["os", "alias", "y", "w", "CONST", "typed", "fn", "Klass"] {
        assert!(names.contains(expected), "missing {expected}: {names:?}");
    }
    assert!(
        !names.contains("local"),
        "names bound inside a function are not module attributes"
    );
}

#[test]
fn dunder_all_entries_count() {
    let names = bound_names("__all__ = [\n    \"alpha\",\n    \"beta\",\n]\n");
    assert!(names.contains("alpha"));
    assert!(names.contains("beta"));
}

#[test]
fn star_import_binds_nothing_specific() {
    // Cannot know what came in, so nothing is claimed.
    let names = bound_names("from x import *\n");
    assert!(names.is_empty(), "got {names:?}");
}

#[test]
fn packages_are_found_where_they_are_installed() {
    let sites = vec![("a".to_string(), false), ("b".to_string(), true)];
    assert_eq!(find_package(&sites, "numpy").as_deref(), Some("b/numpy"));
    assert_eq!(find_package(&[], "numpy"), None);
}

#[test]
fn entries_offer_their_module_names() {
    let entry = |name: &str, kind: EntryKind| Entry {
        name: name.into(),
        kind,
    };
    assert_eq!(module_name(&entry("util.py", EntryKind::File)).as_deref(), Some("util"));
    assert_eq!(module_name(&entry("README.md", EntryKind::File)), None);
    assert_eq!(module_name(&entry("pkg", EntryKind::Package)).as_deref(), Some("pkg"));
}

// --- Platform, GPU, probes ---------------------------------------------------

#[test]
fn any_wheel_matches_everywhere() {
    let p = Platform {
        os: Os::Linux,
        arch: Arch::X86_64,
    };
    assert!(p.wheel_tag_matches("any"));
}

#[test]
fn linux_x64_matches_manylinux() {
    let p = Platform {
        os: Os::Linux,
        arch: Arch::X86_64,
    };
    assert!(p.wheel_tag_matches("manylinux_2_17_x86_64"));
    assert!(p.wheel_tag_matches("manylinux2014_x86_64"));
    assert!(!p.wheel_tag_matches("win_amd64"));
    assert!(!p.wheel_tag_matches("macosx_11_0_arm64"));
}

#[test]
fn mac_arm_matches_arm64_and_universal() {
    let p = Platform {
        os: Os::Macos,
        arch: Arch::Aarch64,
    };
    assert!(p.wheel_tag_matches("macosx_11_0_arm64"));
    assert!(p.wheel_tag_matches("macosx_10_9_universal2"));
    assert!(!p.wheel_tag_matches("macosx_10_9_x86_64"));
}

#[test]
fn windows_x64_matches_win_amd64() {
    let p = Platform {
        os: Os::Windows,
        arch: Arch::X86_64,
    };
    assert!(p.wheel_tag_matches("win_amd64"));
    assert!(!p.wheel_tag_matches("manylinux_2_17_x86_64"));
}

#[test]
fn platforms_are_named_as_the_compiler_names_them() {
    assert_eq!(
        Platform::current("macos", "aarch64"),
        Platform {
            os: Os::Macos,
            arch: Arch::Aarch64
        }
    );
    assert_eq!(
        Platform::current("windows", "x86_64"),
        Platform {
            os: Os::Windows,
            arch: Arch::X86_64
        }
    );
}

#[test]
fn ttl_is_24_hours() {
    assert_eq!(CACHE_TTL_SECS, 24 * 60 * 60);
}

#[test]
fn nvidia_smi_output_names_the_first_card() {
    assert_eq!(
        nvidia_smi_args(),
        vec!["--query-gpu=driver_version,name", "--format=csv,noheader"]
    );
    let out = output(Some(0), "535.54.03, NVIDIA GeForce RTX 3080\n", "");
    assert_eq!(
        probe_nvidia_smi(Some(&out)),
        Accelerator::Nvidia {
            name: "NVIDIA GeForce RTX 3080".into(),
            driver_version: "535.54.03".into()
        }
    );
    assert_eq!(probe_nvidia_smi(None), Accelerator::Absent);
    assert_eq!(
        probe_nvidia_smi(Some(&output(Some(9), "535.54.03, X\n", ""))),
        Accelerator::Absent
    );
}

#[test]
fn a_day_old_detection_is_trusted() {
    let linux = Platform {
        os: Os::Linux,
        arch: Arch::X86_64,
    };
    let mac = Platform {
        os: Os::Macos,
        arch: Arch::Aarch64,
    };
    assert_eq!(
        detect_gpu(linux, 86_400, Some((0, Accelerator::Absent))),
        Detection::Known(Accelerator::Absent)
    );
    assert_eq!(
        detect_gpu(linux, 86_401, Some((0, Accelerator::Absent))),
        Detection::Probe
    );
    assert_eq!(detect_gpu(linux, 0, None), Detection::Probe);
    assert_eq!(
        detect_gpu(mac, 0, None),
        Detection::Known(Accelerator::AppleSilicon)
    );
}

#[test]
fn parse_pyvenv_cfg_version() {
    let cfg = "home = /usr/bin\nversion = 3.12.1\ninclude-system-site-packages = false\n";
    assert_eq!(parse_pyvenv_version(cfg), Some(PyVersion::py3(12)));
}

#[test]
fn the_first_environment_found_is_used() {
    assert_eq!(venv_names(), vec![".venv", "venv", "env"]);
    let found = detect_venv(&vec![
        (".venv".to_string(), None),
        ("venv".to_string(), Some("version = 3.11.2\n".to_string())),
    ]);
    assert_eq!(
        found,
        Some(VenvInfo {
            path: "venv".into(),
            python: Some(PyVersion::py3(11))
        })
    );
    assert_eq!(detect_venv(&vec![]), None);
}

fn interpreter(command: &str, path: &str, minor: u8) -> Interpreter {
    Interpreter {
        command: command.into(),
        path: path.into(),
        version: PyVersion::py3(minor),
    }
}

#[test]
fn interpreters_are_read_once_each() {
    assert_eq!(candidates()[0], "python3");
    assert!(candidates().contains(&"python3.12".to_string()));
    let probe = output(Some(0), "3.12\t/usr/bin/python3.12\n", "");
    let read = read_probe("python3", &probe);
    assert_eq!(
        read.map(|i| (i.command, i.version)),
        Some(("python3".to_string(), PyVersion::py3(12)))
    );
    assert!(read_probe("python3", &output(Some(1), "3.12\n", "")).is_none());

    let found = vec![
        interpreter("python3", "/usr/bin/python3.12", 12),
        interpreter("python3.12", "/usr/bin/python3.12", 12),
        interpreter("python3.13", "/usr/bin/python3.13", 13),
    ];
    let kept = discover(&found);
    assert_eq!(kept.len(), 2);
    assert!(find_version(&kept, PyVersion::py3(13)).is_some());
    assert!(find_version(&kept, PyVersion::py3(9)).is_none());
}

#[test]
fn pip_uses_the_environments_python() {
    assert_eq!(pip::venv_python("/p/.venv", Os::Linux), "/p/.venv/bin/python");
    assert_eq!(
        pip::venv_python("C:/p/.venv", Os::Windows),
        "C:/p/.venv\\Scripts\\python.exe"
    );
    let cmd = pip::install_packages("/p/.venv", Os::Linux, &strings(&["numpy"]), Some("https://i"));
    assert_eq!(cmd.program, "/p/.venv/bin/python");
    assert_eq!(
        cmd.args,
        vec!["-m", "pip", "install", "--index-url", "https://i", "numpy"]
    );
    let made = pip::create_venv(&interpreter("python3", "/usr/bin/python3", 12), "/p/.venv");
    assert_eq!(made.program, "python3");
    assert!(made.args.contains(&"venv".to_string()));
}

// --- uv ----------------------------------------------------------------------

#[test]
fn asset_names_per_platform() {
    assert_eq!(
        uv_asset_name(Platform {
            os: Os::Linux,
            arch: Arch::X86_64
        }),
        "uv-x86_64-unknown-linux-gnu.tar.gz"
    );
    assert_eq!(
        uv_asset_name(Platform {
            os: Os::Macos,
            arch: Arch::Aarch64
        }),
        "uv-aarch64-apple-darwin.tar.gz"
    );
    assert_eq!(
        uv_asset_name(Platform {
            os: Os::Windows,
            arch: Arch::X86_64
        }),
        "uv-x86_64-pc-windows-msvc.zip"
    );
}

#[test]
fn create_venv_passes_clear() {
    // Regression guard. Without --clear, `uv venv` errors out on any project
    // that already has an environment, which breaks both `setup` on a second
    // run and every rebuild action.
    let uv = UvInfo {
        path: "uv-does-not-exist-here".into(),
        version: "0.0.0".into(),
        managed: false,
    };
    let args = venv_args(PyVersion::py3(12), ".venv");
    assert!(
        args.iter().any(|a| a == "--clear"),
        "uv venv must replace an existing environment, got {args:?}"
    );
    let cmd = create_venv(&uv, PyVersion::py3(12), ".venv");
    assert_eq!(cmd.program, "uv-does-not-exist-here");
    assert_eq!(cmd.args, args);
}

#[test]
fn version_is_cleaned() {
    assert_eq!(clean_version("uv 0.4.20 (abcd 2024-09-01)"), "0.4.20");
    assert_eq!(clean_version("0.5.0"), "0.5.0");
}

#[test]
fn pip_mode_disables_uv() {
    let s = Settings {
        package_manager: PackageManager::Pip,
        ..Settings::default()
    };
    let linux = Platform {
        os: Os::Linux,
        arch: Arch::X86_64,
    };
    assert!(detect(s.package_manager, "/m/uv", Some("uv 0.5.0"), Some("uv 0.5.0")).is_none());
    assert!(matches!(
        ensure(s.package_manager, None, linux),
        Ensured::Refused(_)
    ));
}

#[test]
fn uv_is_used_where_found_and_fetched_where_not() {
    let linux = Platform {
        os: Os::Linux,
        arch: Arch::X86_64,
    };
    let found = detect(PackageManager::Uv, "/m/uv", None, Some("uv 0.5.0")).unwrap();
    assert_eq!((found.version.as_str(), found.managed), ("0.5.0", false));
    assert_eq!(
        ensure(PackageManager::Uv, Some(found.clone()), linux),
        Ensured::Ready(found)
    );
    match ensure(PackageManager::Uv, None, linux) {
        Ensured::Download(url) => assert!(url.ends_with("uv-x86_64-unknown-linux-gnu.tar.gz")),
        other => panic!("expected a download, got {other:?}"),
    }
}

#[test]
fn assets_are_picked_by_name() {
    let assets = vec![
        ("a".to_string(), "https://e/a".to_string()),
        ("b".to_string(), "https://e/b".to_string()),
    ];
    assert_eq!(pick_asset("o/r", "b", &assets).unwrap(), "https://e/b");
    assert_eq!(
        pick_asset("o/r", "c", &assets).unwrap_err(),
        "no asset `c` in o/r latest release"
    );
}

// --- Rescans -----------------------------------------------------------------

#[test]
fn path_is_deterministic_and_outside_workspace() {
    let a = request_file(0xfeed);
    let b = request_file(0xfeed);
    assert_eq!(a, b);
    assert!(a.ends_with(".req"));
    assert_ne!(a, request_file(0xbeef));
}

#[test]
fn rescan_requests_name_their_kind() {
    assert_eq!(request_text(Kind::Doctor, 5), "doctor 5");
    assert_eq!(request_text(Kind::Setup, 17), "setup 17");
    assert!(is_new(Some(2), Some(1)));
    assert!(!is_new(Some(2), Some(2)));
    assert!(!is_new(None, Some(2)));
    assert!(is_new(Some(2), None));
}

// --- The solver --------------------------------------------------------------

fn analysis(name: &str, minors: &[u8]) -> PackageAnalysis {
    let versions: Vec<PyVersion> = minors.iter().map(|&m| PyVersion::py3(m)).collect();
    PackageAnalysis {
        name: name.into(),
        version: "1.0".into(),
        supported: PyVersionSet::from_versions(&versions),
        has_platform_wheels: true,
        sdist_only: false,
        requires_python: None,
    }
}

fn report(pkgs: Vec<PackageAnalysis>) -> CompatReport {
    let intersection = pkgs
        .iter()
        .map(|p| p.supported.clone())
        .reduce(|a, b| a.intersect(&b))
        .unwrap_or_else(PyVersionSet::universe);
    CompatReport {
        platform: Platform::current("linux", "x86_64"),
        per_package: pkgs,
        unresolved: vec![],
        intersection,
        conflicts: vec![],
        sdist_warnings: vec![],
    }
}

fn python_project() -> ProjectDeps {
    ProjectDeps {
        sources: vec!["requirements.txt".into()],
        packages: vec![Requirement::any("mediapipe")],
        ..Default::default()
    }
}

#[test]
fn mediapipe_on_313_recommends_312() {
    // mediapipe supports 3.9–3.12; venv is 3.13.
    let compat = report(vec![analysis("mediapipe", &[9, 10, 11, 12])]);
    let env = EnvSummary {
        has_venv: true,
        venv_python: Some(PyVersion::py3(13)),
        uv_present: true,
        interpreters: vec![PyVersion::py3(13)],
    };
    let (target, findings) = synthesize(&env, &python_project(), Some(&compat));
    assert_eq!(target, Some(PyVersion::py3(12)));
    let f = findings
        .iter()
        .find(|f| f.severity == Severity::Error)
        .unwrap();
    assert_eq!(f.fix, FixKind::RecreateWithPython(PyVersion::py3(12)));
    assert!(f.detail.contains("mediapipe"));
    assert!(f.detail.contains("3.13"));
}

#[test]
fn compatible_venv_stays_silent() {
    let compat = report(vec![analysis("numpy", &[9, 10, 11, 12, 13])]);
    let env = EnvSummary {
        has_venv: true,
        venv_python: Some(PyVersion::py3(12)),
        uv_present: true,
        interpreters: vec![PyVersion::py3(12)],
    };
    let (_t, findings) = synthesize(&env, &python_project(), Some(&compat));
    assert!(findings.iter().all(|f| f.severity == Severity::Info));
}

#[test]
fn no_venv_suggests_setup_with_reason() {
    let compat = report(vec![analysis("mediapipe", &[9, 10, 11, 12])]);
    let env = EnvSummary::default();
    let (target, findings) = synthesize(&env, &python_project(), Some(&compat));
    assert_eq!(target, Some(PyVersion::py3(12)));
    let f = &findings[0];
    assert_eq!(f.fix, FixKind::SetupEnvironment);
    assert!(f.detail.contains("mediapipe"));
}

#[test]
fn not_a_python_project_is_silent() {
    let (target, findings) = synthesize(&EnvSummary::default(), &ProjectDeps::default(), None);
    assert!(target.is_none());
    assert!(findings.is_empty());
}

#[test]
fn an_assessment_lists_errors_first() {
    let compat = report(vec![analysis("mediapipe", &[9, 10, 11, 12])]);
    let probes = Probes {
        uv: None,
        venv: Some(VenvInfo {
            path: ".venv".into(),
            python: Some(PyVersion::py3(13)),
        }),
        interpreters: vec![],
    };
    let a = assess(
        probes,
        python_project(),
        Some(compat),
        None,
        HardwareReport::default(),
    );
    assert!(!a.all_good());
    assert_eq!(a.worst_severity(), Some(Severity::Error));
    assert_eq!(a.target_python, Some(PyVersion::py3(12)));
    assert_eq!(a.findings[0].severity, Severity::Error);

    let quiet = assess(
        Probes::default(),
        ProjectDeps::default(),
        None,
        None,
        HardwareReport::default(),
    );
    assert!(quiet.all_good());
    assert_eq!(quiet.worst_severity(), None);
}

#[test]
fn a_failed_dry_run_is_a_finding() {
    let good = output(Some(0), "", "");
    assert!(dry_run_finding(PyVersion::py3(12), &good).is_none());
    let bad = output(Some(1), "", "no solution found\n");
    let f = dry_run_finding(PyVersion::py3(12), &bad).unwrap();
    assert_eq!(f.severity, Severity::Warning);
    assert!(f.detail.contains("no solution found"));
    assert_eq!(dry_run_target(&Probes::default(), None), None);
}

#[test]
fn every_dependency_problem_is_a_warning() {
    let mut compat = report(vec![analysis("numpy", &[9, 10, 11, 12])]);
    compat.unresolved = vec![("numpi".to_string(), "not found".to_string())];
    compat.sdist_warnings = vec!["somelib 1.0 will compile".to_string()];
    let env = EnvSummary {
        has_venv: true,
        venv_python: Some(PyVersion::py3(12)),
        uv_present: true,
        interpreters: vec![],
    };
    let (target, findings) = synthesize(&env, &python_project(), Some(&compat));
    assert_eq!(target, Some(PyVersion::py3(12)));
    assert_eq!(findings.len(), 2);
    assert_eq!(findings[0].title, "Could not resolve `numpi`");
    assert_eq!(
        findings[0].detail,
        "PyPI lookup failed for `numpi` (not found). It may be a typo or a private package."
    );
    assert_eq!(findings[1].title, "Will compile from source");
    assert_eq!(findings[1].detail, "somelib 1.0 will compile");
    assert!(findings
        .iter()
        .all(|f| f.severity == Severity::Warning && f.fix == FixKind::Manual));
}

#[test]
fn a_conda_environment_is_noted() {
    let deps = ProjectDeps {
        sources: vec!["environment.yml".into()],
        has_conda_env: true,
        ..Default::default()
    };
    let (target, findings) = synthesize(&EnvSummary::default(), &deps, None);
    assert_eq!(target, None);
    assert_eq!(findings.len(), 2);
    assert_eq!(findings[0].severity, Severity::Info);
    assert_eq!(findings[0].fix, FixKind::MigrateConda);
    assert!(findings[0].detail.contains("pypilot migrate-conda"));
    assert_eq!(findings[1].title, "No virtual environment");
}

#[test]
fn conflicting_dependencies_offer_no_fix() {
    let compat = report(vec![
        analysis("legacy", &[8, 9, 10]),
        analysis("shiny", &[11, 12]),
    ]);
    let (target, findings) = synthesize(&EnvSummary::default(), &python_project(), Some(&compat));
    assert_eq!(target, None);
    let last = findings.last().unwrap();
    assert_eq!(last.severity, Severity::Error);
    assert_eq!(last.fix, FixKind::Manual);
}

#[test]
fn imports_bind_over_several_lines() {
    let bound = |source: &str| {
        let names = bound_names(source);
        let mut list: Vec<String> = names.list().clone();
        list.sort();
        list
    };
    assert_eq!(bound("from x import (\n    a,\n    b as c,\n)\n"), ["a", "c"]);
    assert_eq!(bound("from x import (a,  # first\n  b)\nd = 1\n"), ["a", "b", "d"]);
    assert_eq!(bound("from x import(a, b)\n"), ["a", "b"]);
    assert_eq!(bound("from x import a, \\\n    b\nc = 1\n"), ["a", "b", "c"]);
    assert_eq!(bound("from x import \\\n    (a,\n    b)\n"), ["a", "b"]);
    let dir = package("from x import (\n    a,\n)\n", &[]);
    assert_eq!(attribute_status(&dir, "a"), AttrStatus::Present);
}

#[test]
fn workspaces_are_known_whatever_their_case() {
    assert_eq!(request_key("/Home/Ünit"), "/home/ünit");
    assert_eq!(request_key("C:\\Demo"), request_key("c:\\demo"));
}
