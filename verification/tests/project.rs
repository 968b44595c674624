//! Manifests, requirements, conda environments and settings.

use pypilot::document::{as_text, field, read_json, read_toml, Tree};
use pypilot::engine::project::{
    conda_migration_pyproject, conda_spec_to_pep440, dedupe, normalize_name,
    parse_environment_yml, parse_pyproject, parse_requirement, parse_requirements, requirement_name, scan, ProjectDeps, Requirement,
    WorkspaceFiles,
};
use pypilot::text::trim;
use pypilot::settings::{
    merge, project_config_path, Notifications, PackageManager, RawSettings, RawState,
    ResolvedMode, Settings,
};

fn req(name: &str, spec: &str) -> Requirement {
    Requirement {
        name: name.to_string(),
        spec: spec.to_string(),
    }
}

#[test]
fn normalize_examples() {
    assert_eq!(normalize_name("Flask"), "flask");
    assert_eq!(normalize_name("opencv_python"), "opencv-python");
    assert_eq!(normalize_name("ruamel.yaml"), "ruamel-yaml");
}

#[test]
fn normalizing_collapses_runs_and_trims() {
    assert_eq!(normalize_name("A._-B"), "a-b");
    assert_eq!(normalize_name("_private_"), "private");
    assert_eq!(normalize_name(""), "");
}

#[test]
fn requirement_name_strips_specifiers() {
    assert_eq!(
        requirement_name("mediapipe==0.10.9").as_deref(),
        Some("mediapipe")
    );
    assert_eq!(requirement_name("torch>=2.0,<3").as_deref(), Some("torch"));
    assert_eq!(
        requirement_name("uvicorn[standard]").as_deref(),
        Some("uvicorn")
    );
    assert_eq!(
        requirement_name("numpy ; python_version<'3.10'").as_deref(),
        Some("numpy")
    );
    assert_eq!(requirement_name("# a comment"), None);
    assert_eq!(requirement_name("-r base.txt"), None);
    assert_eq!(requirement_name(""), None);
}

#[test]
fn parse_pep621_pyproject() {
    let text = r#"
[project]
name = "demo"
requires-python = ">=3.9,<3.13"
dependencies = ["mediapipe==0.10.9", "numpy>=1.24"]
"#;
    let (names, rp) = parse_pyproject(text);
    assert_eq!(rp.as_deref(), Some(">=3.9,<3.13"));
    assert!(names.iter().any(|r| r.name == "mediapipe"));
    assert!(names.iter().any(|r| r.name == "numpy"));
}

#[test]
fn parse_poetry_pyproject() {
    let text = r#"
[tool.poetry.dependencies]
python = "^3.10"
requests = "^2.31"
"#;
    let (names, rp) = parse_pyproject(text);
    assert!(names.iter().any(|r| r.name == "requests"));
    assert!(!names.iter().any(|r| r.name == "python"));
    assert!(rp.unwrap().starts_with(">=3.10"));
}

#[test]
fn a_broken_pyproject_declares_nothing() {
    let (names, rp) = parse_pyproject("[project\nname = ");
    assert!(names.is_empty());
    assert_eq!(rp, None);
}

#[test]
fn parse_conda_env() {
    let text = "name: demo\ndependencies:\n  - python=3.10\n  - numpy>=1.20\n";
    let (names, py) = parse_environment_yml(text);
    assert_eq!(py.as_deref(), Some("3.10"));
    assert!(names.iter().any(|r| r.name == "numpy"));
    assert!(!names.iter().any(|r| r.name == "python"));
}

#[test]
fn conda_dependency_pins_are_kept() {
    // Dropping these silently produced a pyproject.toml with no version
    // constraints at all, which is a different project from the one the
    // environment.yml described.
    let text = "dependencies:\n  \
         - numpy>=1.24\n  \
         - scipy=1.11\n  \
         - pandas==2.0.3\n  \
         - requests\n  \
         - pip:\n    \
         - mediapipe==0.10.14\n";
    let (names, _) = parse_environment_yml(text);

    let spec_of = |n: &str| {
        names
            .iter()
            .find(|r| r.name == n)
            .map(|r| r.spec.clone())
            .unwrap_or_else(|| panic!("{n} missing from {names:?}"))
    };
    assert_eq!(spec_of("numpy"), ">=1.24");
    // conda's single `=` is a prefix match, not an exact pin.
    assert_eq!(spec_of("scipy"), "==1.11.*");
    assert_eq!(spec_of("pandas"), "==2.0.3");
    assert_eq!(spec_of("requests"), "");
    assert_eq!(spec_of("mediapipe"), "==0.10.14");
}

#[test]
fn conda_build_strings_are_discarded() {
    // `name=version=build` has no PyPI equivalent for the build field.
    let text = "dependencies:\n  - numpy=1.24=py311h5a2b\n";
    let (names, _) = parse_environment_yml(text);
    assert_eq!(names[0].spec, "==1.24.*");
}

#[test]
fn conda_migration_produces_a_usable_pyproject() {
    let deps = ProjectDeps {
        sources: vec!["environment.yml".into()],
        packages: vec![Requirement::any("numpy"), req("pillow", "==10.0.0")],
        declared_requires_python: None,
        has_conda_env: true,
        conda_python: Some("3.10".to_string()),
    };
    let toml = conda_migration_pyproject(&deps, "My Demo Project");

    assert!(toml.contains("name = \"my-demo-project\""));
    assert!(
        toml.contains("requires-python = \">=3.10\""),
        "a bare conda python pin must gain a >= operator: {toml}"
    );
    assert!(toml.contains("\"numpy\""));
    assert!(toml.contains("\"pillow==10.0.0\""));
    assert!(
        !toml.contains("build-system"),
        "an application migration should not assume a build backend"
    );
}

#[test]
fn conda_migration_handles_no_python_pin_and_empty_name() {
    let deps = ProjectDeps {
        has_conda_env: true,
        ..Default::default()
    };
    let toml = conda_migration_pyproject(&deps, "");
    assert!(!toml.contains("requires-python"));
    assert!(toml.contains("name = \"project\""));
    assert!(toml.contains("dependencies = []"));
}

#[test]
fn a_migrated_environment_reads_back() {
    let text = "dependencies:\n  - python=3.11\n  - numpy>=1.24\n  - requests\n";
    let (packages, conda_python) = parse_environment_yml(text);
    let deps = ProjectDeps {
        sources: vec!["environment.yml".into()],
        packages,
        declared_requires_python: None,
        has_conda_env: true,
        conda_python,
    };
    let (back, rp) = parse_pyproject(&conda_migration_pyproject(&deps, "demo"));
    assert_eq!(rp.as_deref(), Some(">=3.11"));
    assert_eq!(back, vec![req("numpy", ">=1.24"), req("requests", "")]);
}

#[test]
fn requirements_keep_their_specifiers() {
    let reqs = parse_requirements("# header\nnumpy>=1.24\n\n-r other.txt\nTorch == 2.4.0\n");
    assert_eq!(reqs, vec![req("numpy", ">=1.24"), req("torch", "==2.4.0")]);
    assert_eq!(
        parse_requirement("uvicorn[standard]>=0.20"),
        Some(req("uvicorn", ">=0.20"))
    );
    assert_eq!(req("numpy", ">=1.24").to_text(), "numpy>=1.24");
    assert!(req("numpy", ">=1.24").is_pinned());
    assert!(!Requirement::any("numpy").is_pinned());
}

#[test]
fn duplicates_are_dropped() {
    let reqs = dedupe(vec![
        req("b", ""),
        req("a", "==1"),
        req("b", ""),
        req("a", "==1"),
    ]);
    assert_eq!(reqs, vec![req("a", "==1"), req("b", "")]);
}

#[test]
fn every_manifest_is_a_source() {
    let deps = scan(&WorkspaceFiles {
        pyproject: Some("[project]\ndependencies = [\"numpy\"]\n".into()),
        requirements: Some("flask\n".into()),
        has_environment_yml: true,
        environment_yml: Some("dependencies:\n  - python=3.10\n  - scipy\n".into()),
        has_python_file: true,
    });
    assert!(deps.is_python_project());
    assert!(deps.has_conda_env);
    assert_eq!(deps.conda_python.as_deref(), Some("3.10"));
    assert_eq!(deps.names(), vec!["flask", "numpy", "scipy"]);
}

#[test]
fn an_empty_folder_is_no_python_project() {
    let deps = scan(&WorkspaceFiles {
        pyproject: None,
        requirements: None,
        has_environment_yml: false,
        environment_yml: None,
        has_python_file: false,
    });
    assert!(!deps.is_python_project());
    assert!(deps.packages.is_empty());
}

// --- Documents ---------------------------------------------------------------

#[test]
fn toml_reads_into_a_tree() {
    let doc = read_toml("[a]\nb = \"c\"\nn = 1\nl = [\"x\", \"y\"]\n").unwrap();
    let a = field(&doc, "a").unwrap();
    assert_eq!(as_text(field(a, "b")), Some("c"));
    assert_eq!(as_text(field(a, "n")), None);
    assert!(field(a, "missing").is_none());
    match field(a, "l") {
        Some(Tree::List(items)) => assert_eq!(items.len(), 2),
        other => panic!("expected a list, got {other:?}"),
    }
    assert!(read_toml("= broken").is_none());
}

#[test]
fn json_reads_into_a_tree() {
    let doc = read_json("{\"a\": {\"b\": \"c\", \"n\": null, \"l\": [\"x\"]}}").unwrap();
    let a = field(&doc, "a").unwrap();
    assert_eq!(as_text(field(a, "b")), Some("c"));
    assert_eq!(as_text(field(a, "n")), None);
    match field(a, "l") {
        Some(Tree::List(items)) => assert_eq!(as_text(items.first()), Some("x")),
        other => panic!("expected a list, got {other:?}"),
    }
    assert!(read_json("{").is_none());
}

// --- Settings ----------------------------------------------------------------

#[test]
fn defaults_are_uv_first() {
    let s = Settings::default();
    assert_eq!(s.package_manager, PackageManager::Uv);
    assert_eq!(s.notifications, Notifications::ProblemsOnly);
    assert!(!s.dismissed);
}

#[test]
fn project_override_wins_over_global() {
    let mut base = RawSettings {
        package_manager: Some(PackageManager::Uv),
        ..Default::default()
    };
    merge(
        &mut base,
        Some(RawSettings {
            package_manager: Some(PackageManager::Pip),
            ..Default::default()
        }),
    );
    assert_eq!(base.package_manager, Some(PackageManager::Pip));
}

#[test]
fn absent_overlay_keys_do_not_clobber() {
    let mut base = RawSettings {
        package_manager: Some(PackageManager::Pip),
        notifications: Some(Notifications::All),
        ..Default::default()
    };
    merge(&mut base, Some(RawSettings::default()));
    assert_eq!(base.package_manager, Some(PackageManager::Pip));
    assert_eq!(base.notifications, Some(Notifications::All));
}

#[test]
fn settings_resolve_global_then_project() {
    let global = RawSettings {
        package_manager: Some(PackageManager::Pip),
        data_refresh_days: Some(3),
        ..Default::default()
    };
    let project = RawSettings {
        auto_check_on_open: Some(false),
        state: RawState { never: Some(true) },
        ..Default::default()
    };
    let s = Settings::load(Some(global), Some(project));
    assert_eq!(s.package_manager, PackageManager::Pip);
    assert_eq!(s.data_refresh_days, 3);
    assert!(!s.auto_check_on_open);
    assert!(s.dismissed);
    assert_eq!(s.resolve_mode(), ResolvedMode::PurePip);
    assert_eq!(Settings::load(None, None), Settings::default());
    assert_eq!(Settings::default().resolve_mode(), ResolvedMode::UvFull);
}

#[test]
fn dismissing_keeps_the_other_keys() {
    let raw = Settings::mark_dismissed(Some(RawSettings {
        package_manager: Some(PackageManager::Pip),
        ..Default::default()
    }));
    assert_eq!(raw.package_manager, Some(PackageManager::Pip));
    assert!(Settings::load(None, Some(raw)).dismissed);
}

#[test]
fn the_zed_directory_is_preferred_for_settings() {
    assert_eq!(project_config_path(true, true), ".zed/pypilot.toml");
    assert_eq!(project_config_path(false, true), "pypilot.toml");
    assert_eq!(project_config_path(false, false), ".zed/pypilot.toml");
}

#[test]
fn bare_urls_name_nothing() {
    assert_eq!(requirement_name("git+https://github.com/u/p@main"), None);
    assert_eq!(requirement_name("git+ssh://git@github.com/u/p.git"), None);
    assert_eq!(requirement_name("https://example.com/p.whl"), None);
    assert_eq!(requirement_name("@ https://example.com/p.whl"), None);
    assert_eq!(
        requirement_name("My_Pkg[extra] @ git+https://github.com/u/p@main").as_deref(),
        Some("my-pkg")
    );
    assert_eq!(
        requirement_name("numpy>=1.0 ; extra == 'a@b'").as_deref(),
        Some("numpy")
    );
}

#[test]
fn inline_comments_leave_the_pin_alone() {
    let r = parse_requirement("numpy==1.24.0 # pinned").unwrap();
    assert_eq!((r.name.as_str(), r.spec.as_str()), ("numpy", "==1.24.0"));
    let r = parse_requirement("numpy # >=2").unwrap();
    assert_eq!(r.spec, "");
}

#[test]
fn every_conda_clause_is_kept() {
    assert_eq!(conda_spec_to_pep440(">=1.20,<=2"), ">=1.20,<=2");
    assert_eq!(conda_spec_to_pep440(" >=1.20, <2 "), ">=1.20,<2");
    assert_eq!(conda_spec_to_pep440("=1.24,!=1.24.1"), "==1.24.*,!=1.24.1");
    assert_eq!(conda_spec_to_pep440("==1.24=py39,<2"), "==1.24,<2");
    assert_eq!(conda_spec_to_pep440("=1.*"), "==1.*");
    assert_eq!(conda_spec_to_pep440(""), "");
    assert_eq!(conda_spec_to_pep440("whatever"), "");
    let (_, py) = parse_environment_yml("dependencies:\n  - python<3.12,>3.8\n");
    assert_eq!(py, None);
}

#[test]
fn blanks_are_those_of_unicode() {
    for n in 0..=0x10ffffu32 {
        if let Some(c) = char::from_u32(n) {
            let listed = matches!(n, 9..=13 | 0x20 | 0x85 | 0xa0 | 0x1680 | 0x2000..=0x200a
                | 0x2028 | 0x2029 | 0x202f | 0x205f | 0x3000);
            assert_eq!(trim(c.to_string().as_str()).is_empty(), listed, "{n:x}");
        }
    }
}
