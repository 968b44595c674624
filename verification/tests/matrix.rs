//! GPU data: driver and framework tables, their refresh, and the build that
//! suits a machine.

use pypilot::engine::gpu::Accelerator;
use pypilot::engine::platform::Os;
use pypilot::engine::project::Requirement;
use pypilot::engine::Severity;
use pypilot::matrix::data::{FRAMEWORKS_JSON, IMPORT_MAP_JSON, NVIDIA_JSON};
use pypilot::matrix::frameworks::{
    parse_cuda_tag, CudaBuild, Framework, FrameworkTable, ReleaseInfo,
};
use pypilot::matrix::nvidia::{CudaVersion, DriverSupport, DriverTable};
use pypilot::matrix::refresh::{
    dataset_names, dataset_url, is_json, is_stale, read, read_cache,
};
use pypilot::matrix::solve::{
    apple_silicon, no_gpu, resolve_version, solve_framework, solve_tensorflow, solve_torch,
    unknown_release,
};
use pypilot::matrix::{
    check, import_map, is_mapped, needs_gpu, resolve_package, DataStore, ImportMap,
};

fn frameworks() -> FrameworkTable {
    FrameworkTable::load(FRAMEWORKS_JSON).expect("bundled table parses")
}

fn drivers() -> DriverTable {
    DriverTable::load(NVIDIA_JSON).expect("bundled table parses")
}

fn torch_2_4() -> (String, String, Vec<CudaBuild>) {
    let ReleaseInfo::Torch {
        version,
        cpu_index_url,
        cuda_builds,
    } = frameworks().release(Framework::Torch, "2.4.0").unwrap()
    else {
        unreachable!()
    };
    (version, cpu_index_url, cuda_builds)
}

fn nvidia(driver: &str) -> Accelerator {
    Accelerator::Nvidia {
        name: "RTX 3080".into(),
        driver_version: driver.into(),
    }
}

// --- Frameworks --------------------------------------------------------------

#[test]
fn cu_tag_parses_single_and_double_digit_minors() {
    assert_eq!(
        parse_cuda_tag("cu118"),
        Some(CudaVersion {
            major: 11,
            minor: 8
        })
    );
    assert_eq!(
        parse_cuda_tag("cu121"),
        Some(CudaVersion {
            major: 12,
            minor: 1
        })
    );
    assert_eq!(
        parse_cuda_tag("cu130"),
        Some(CudaVersion {
            major: 13,
            minor: 0
        })
    );
}

#[test]
fn other_tags_name_no_cuda() {
    assert_eq!(parse_cuda_tag("cpu"), None);
    assert_eq!(parse_cuda_tag("cu"), None);
    assert_eq!(parse_cuda_tag("rocm6"), None);
}

#[test]
fn framework_name_matching_is_case_insensitive() {
    assert_eq!(
        Framework::from_package_name("Torch"),
        Some(Framework::Torch)
    );
    assert_eq!(
        Framework::from_package_name("TensorFlow"),
        Some(Framework::TensorFlow)
    );
    assert_eq!(Framework::from_package_name("numpy"), None);
}

#[test]
fn torch_release_lists_its_cuda_builds_with_urls() {
    let t = frameworks();
    let info = t.release(Framework::Torch, "2.4.0").unwrap();
    let ReleaseInfo::Torch {
        cuda_builds,
        cpu_index_url,
        ..
    } = info
    else {
        panic!("expected a torch release");
    };
    assert!(cpu_index_url.ends_with("/cpu"));
    let cu121 = cuda_builds.iter().find(|b| b.tag == "cu121").unwrap();
    assert_eq!(
        cu121.cuda,
        CudaVersion {
            major: 12,
            minor: 1
        }
    );
    assert_eq!(cu121.index_url, "https://download.pytorch.org/whl/cu121");
}

#[test]
fn tensorflow_release_carries_its_minimum_cuda() {
    let t = frameworks();
    let info = t.release(Framework::TensorFlow, "2.15.0").unwrap();
    assert_eq!(
        info,
        ReleaseInfo::TensorFlow {
            version: "2.15.0".into(),
            min_cuda: CudaVersion {
                major: 12,
                minor: 2
            },
        }
    );
}

#[test]
fn unknown_version_is_none_not_an_error() {
    let t = frameworks();
    assert!(t.release(Framework::Torch, "0.0.1").is_none());
}

#[test]
fn latest_is_the_last_curated_release() {
    let t = frameworks();
    assert!(t.latest(Framework::Torch).is_some());
    assert!(t.latest(Framework::TensorFlow).is_some());
}

#[test]
fn a_requirement_resolves_to_a_curated_release() {
    let t = frameworks();
    assert_eq!(
        resolve_version(&t, Framework::Torch, None).as_deref(),
        t.latest(Framework::Torch)
    );
    let pinned = Requirement {
        name: "torch".into(),
        spec: "==2.4.0".into(),
    };
    assert_eq!(
        resolve_version(&t, Framework::Torch, Some(&pinned)).as_deref(),
        Some("2.4.0")
    );
    assert!(t.all_versions(Framework::Torch).contains(&"2.4.0".to_string()));
}

// --- Drivers -----------------------------------------------------------------

#[test]
fn exact_ga_driver_matches_its_cuda_release() {
    let t = drivers();
    let s = t.support_for("535.54.03", Os::Linux).unwrap();
    assert_eq!(
        s.max_known,
        CudaVersion {
            major: 12,
            minor: 2
        }
    );
    assert!(!s.exceeds_known_table);
}

#[test]
fn driver_between_two_rows_gets_the_lower_cuda() {
    let t = drivers();
    // Between 12.1 (530.30.02) and 12.2 (535.54.03) on Linux.
    let s = t.support_for("532.00.00", Os::Linux).unwrap();
    assert_eq!(
        s.max_known,
        CudaVersion {
            major: 12,
            minor: 1
        }
    );
}

#[test]
fn windows_and_linux_floors_differ_for_the_same_cuda() {
    let t = drivers();
    // 536.25 is the Windows floor for 12.2; it is below the Linux floor's
    // numeric value but must still resolve on Windows.
    let s = t.support_for("536.25", Os::Windows).unwrap();
    assert_eq!(
        s.max_known,
        CudaVersion {
            major: 12,
            minor: 2
        }
    );
}

#[test]
fn driver_older_than_everything_known_is_none() {
    let t = drivers();
    assert!(t.support_for("300.00", Os::Linux).is_none());
}

#[test]
fn driver_newer_than_the_table_gets_a_soft_note() {
    let t = drivers();
    let s = t.support_for("999.00", Os::Linux).unwrap();
    assert!(s.exceeds_known_table);
    // Still gets the newest known floor as a confirmed-supported answer.
    assert_eq!(
        s.max_known,
        CudaVersion {
            major: 12,
            minor: 9
        }
    );
}

#[test]
fn cuda_versions_read_and_render() {
    let v = CudaVersion::parse("12.4").unwrap();
    assert_eq!(v.to_text(), "12.4");
    assert!(v.is_before(&CudaVersion {
        major: 12,
        minor: 5
    }));
    assert!(!v.is_before(&v));
    assert_eq!(CudaVersion::parse("12"), None);
    assert!(DriverTable::load("[]").is_none());
    assert!(FrameworkTable::load("not json").is_none());
}

// --- Datasets ----------------------------------------------------------------

#[test]
fn bundled_datasets_are_valid_json() {
    // A malformed bundled dataset would disable every GPU check.
    serde_json::from_str::<serde_json::Value>(NVIDIA_JSON).unwrap();
    serde_json::from_str::<serde_json::Value>(FRAMEWORKS_JSON).unwrap();
    serde_json::from_str::<serde_json::Value>(IMPORT_MAP_JSON).unwrap();
}

#[test]
fn the_store_hands_out_the_bundled_datasets() {
    let store = DataStore::bundled();
    assert_eq!(store.nvidia, NVIDIA_JSON);
    assert_eq!(store.frameworks, FRAMEWORKS_JSON);
    assert_eq!(store.import_map, IMPORT_MAP_JSON);
}

#[test]
fn maps_the_classic_mismatches() {
    assert_eq!(resolve_package("cv2"), "opencv-python");
    assert_eq!(resolve_package("PIL"), "pillow");
    assert_eq!(resolve_package("sklearn"), "scikit-learn");
    assert_eq!(resolve_package("yaml"), "PyYAML");
}

#[test]
fn unmapped_names_resolve_to_themselves() {
    assert_eq!(resolve_package("mediapipe"), "mediapipe");
    assert_eq!(resolve_package("requests"), "requests");
    assert!(!is_mapped("mediapipe"));
    assert!(is_mapped("cv2"));
}

#[test]
fn map_is_not_empty() {
    // A parse failure would silently degrade every lookup to identity.
    assert!(import_map().entries.len() > 20);
}

#[test]
fn a_broken_import_map_resolves_names_to_themselves() {
    let map = ImportMap::load("{");
    assert!(map.entries.is_empty());
    assert_eq!(map.get("cv2"), None);
    assert_eq!(map.resolve("cv2"), "cv2");
}

#[test]
fn irrelevant_dependencies_produce_no_findings() {
    let packages = vec![Requirement::any("numpy"), Requirement::any("requests")];
    let report = check(
        &packages,
        Some(&frameworks()),
        Some(&drivers()),
        &Accelerator::Absent,
        Os::Linux,
    );
    assert!(report.findings.is_empty());
    assert!(
        report.gpu.is_none(),
        "GPU is not even probed when nothing needs it"
    );
    assert!(!needs_gpu(&packages));
}

#[test]
fn a_framework_makes_the_gpu_relevant() {
    let packages = vec![Requirement {
        name: "torch".into(),
        spec: "==2.4.0".into(),
    }];
    assert!(needs_gpu(&packages));
    let report = check(
        &packages,
        Some(&frameworks()),
        Some(&drivers()),
        &nvidia("535.54.03"),
        Os::Linux,
    );
    let gpu = report.gpu.unwrap();
    assert_eq!(gpu.driver_version.as_deref(), Some("535.54.03"));
    assert!(!gpu.apple_silicon);
    assert_eq!(report.findings.len(), 1);
    assert_eq!(report.findings[0].severity, Severity::Info);
}

// --- Refresh -----------------------------------------------------------------

#[test]
fn zero_ttl_never_touches_the_cache() {
    // `0` means fully offline: bundled content, whatever is cached.
    let text = read(NVIDIA_JSON, 0, None);
    assert_eq!(text, NVIDIA_JSON);
    assert_eq!(read(NVIDIA_JSON, 0, Some((0, "{}"))), NVIDIA_JSON);
}

#[test]
fn missing_cache_falls_back_to_bundled() {
    let text = read(NVIDIA_JSON, 7, None);
    assert_eq!(text, NVIDIA_JSON);
}

#[test]
fn fresh_cache_is_preferred_over_bundled() {
    let text = read(NVIDIA_JSON, 7, Some((0, r#"{"schema_version":99}"#)));
    assert_eq!(text, r#"{"schema_version":99}"#);
}

#[test]
fn corrupt_cache_falls_back_to_bundled_rather_than_serving_garbage() {
    let text = read(NVIDIA_JSON, 7, Some((0, "not json at all")));
    assert_eq!(text, NVIDIA_JSON);
}

#[test]
fn refresh_if_stale_is_a_noop_when_fully_offline() {
    assert!(!is_stale(0, None));
    assert!(!is_stale(0, Some((u64::MAX, "{}"))));
}

#[test]
fn an_old_cache_is_stale() {
    assert!(is_stale(7, None));
    assert!(!is_stale(7, Some((7 * 86_400, "{}"))));
    assert!(is_stale(7, Some((7 * 86_400 + 1, "{}"))));
    assert_eq!(read_cache(7, Some((7 * 86_400 + 1, "{}"))), None);
    assert!(is_json("{}"));
    assert!(!is_json("{"));
}

#[test]
fn datasets_are_refreshed_from_the_repository() {
    assert_eq!(
        dataset_names(),
        vec!["nvidia.json", "frameworks.json", "import_map.json"]
    );
    assert!(dataset_url("nvidia.json").ends_with("/helper/data/nvidia.json"));
}

// --- Solving -----------------------------------------------------------------

#[test]
fn driver_supporting_cu121_but_not_cu124_gets_cu121() {
    // torch 2.4.0 offers cu118/cu121/cu124. A driver capped at CUDA 12.2
    // (real GA floor for 12.2 is 535.54.03) can't run cu124.
    let (version, cpu_index_url, cuda_builds) = torch_2_4();
    let support = DriverSupport {
        max_known: CudaVersion {
            major: 12,
            minor: 2,
        },
        min_driver_for_max: "535.54.03".into(),
        exceeds_known_table: false,
    };
    let solved = solve_torch(
        &version,
        "RTX 3080",
        "535.54.03",
        Some(support),
        cpu_index_url,
        cuda_builds,
    );
    assert_eq!(
        solved.index_url.as_deref(),
        Some("https://download.pytorch.org/whl/cu121")
    );
    assert_eq!(solved.finding.unwrap().severity, Severity::Info);
}

#[test]
fn driver_supporting_the_newest_build_is_offered_it() {
    let (version, cpu_index_url, cuda_builds) = torch_2_4();
    let support = DriverSupport {
        max_known: CudaVersion {
            major: 12,
            minor: 6,
        },
        min_driver_for_max: "560.28.03".into(),
        exceeds_known_table: false,
    };
    let solved = solve_torch(
        &version,
        "RTX 4090",
        "560.28.03",
        Some(support),
        cpu_index_url,
        cuda_builds,
    );
    assert_eq!(
        solved.index_url.as_deref(),
        Some("https://download.pytorch.org/whl/cu124")
    );
}

#[test]
fn no_driver_data_falls_back_to_cpu_with_an_error() {
    let (version, cpu_index_url, cuda_builds) = torch_2_4();
    let solved = solve_torch(
        &version,
        "GT 210",
        "195.36.15",
        None,
        cpu_index_url.clone(),
        cuda_builds,
    );
    assert_eq!(solved.index_url, Some(cpu_index_url));
    assert_eq!(solved.finding.unwrap().severity, Severity::Error);
}

#[test]
fn tensorflow_within_driver_capability_is_silent() {
    let support = DriverSupport {
        max_known: CudaVersion {
            major: 12,
            minor: 5,
        },
        min_driver_for_max: "555.42.02".into(),
        exceeds_known_table: false,
    };
    let solved = solve_tensorflow(
        "2.16.1",
        "RTX 4090",
        "555.42.02",
        Some(support),
        CudaVersion {
            major: 12,
            minor: 3,
        },
    );
    assert!(solved.finding.is_none());
    assert!(solved.index_url.is_none());
}

#[test]
fn tensorflow_needing_newer_cuda_than_the_driver_has_is_an_error() {
    let support = DriverSupport {
        max_known: CudaVersion {
            major: 11,
            minor: 8,
        },
        min_driver_for_max: "520.61.05".into(),
        exceeds_known_table: false,
    };
    let solved = solve_tensorflow(
        "2.16.1",
        "GTX 1080",
        "520.61.05",
        Some(support),
        CudaVersion {
            major: 12,
            minor: 3,
        },
    );
    let f = solved.finding.unwrap();
    assert_eq!(f.severity, Severity::Error);
    assert!(f.detail.contains("12.3"));
}

#[test]
fn soft_note_appears_when_driver_exceeds_the_table() {
    let (version, cpu_index_url, cuda_builds) = torch_2_4();
    let support = DriverSupport {
        max_known: CudaVersion {
            major: 12,
            minor: 9,
        },
        min_driver_for_max: "575.51.03".into(),
        exceeds_known_table: true,
    };
    let solved = solve_torch(
        &version,
        "RTX 5090",
        "999.00",
        Some(support),
        cpu_index_url,
        cuda_builds,
    );
    assert!(solved
        .finding
        .unwrap()
        .detail
        .contains("conservative floor"));
}

#[test]
fn non_framework_package_is_not_handled() {
    assert!(solve_framework(
        "numpy",
        None,
        FRAMEWORKS_JSON,
        NVIDIA_JSON,
        &Accelerator::Absent,
        Os::Linux
    )
    .is_none());
}

#[test]
fn resolved_version_is_set_on_the_returned_solve() {
    // Whatever the machine's actual accelerator is, an unpinned torch
    // request must resolve to the table's newest curated release.
    let table = frameworks();
    for accelerator in [
        Accelerator::Absent,
        Accelerator::AppleSilicon,
        nvidia("535.54.03"),
    ] {
        let solved = solve_framework(
            "torch",
            None,
            FRAMEWORKS_JSON,
            NVIDIA_JSON,
            &accelerator,
            Os::Linux,
        )
        .unwrap();
        assert_eq!(
            solved.resolved_version.as_deref(),
            table.latest(Framework::Torch)
        );
    }
}

#[test]
fn machines_without_nvidia_get_their_own_answer() {
    let mps = apple_silicon(Framework::Torch, "2.4.0");
    assert_eq!(mps.index_url, None);
    assert!(mps.finding.unwrap().title.contains("MPS"));
    let cpu = no_gpu(frameworks().release(Framework::Torch, "2.4.0").unwrap());
    assert!(cpu.index_url.unwrap().ends_with("/cpu"));
    assert!(cpu.finding.is_none());
    let odd = unknown_release(Framework::TensorFlow, "9.9");
    assert!(odd.finding.unwrap().title.contains("tensorflow 9.9"));
}

#[test]
fn records_may_be_arrays_of_their_parts() {
    let drivers = DriverTable::load(r#"[[["12.4", "550.54.14", "551.61"]]]"#).unwrap();
    assert_eq!(
        drivers.support_for("550.54.14", Os::Linux).unwrap().max_known,
        CudaVersion { major: 12, minor: 4 }
    );
    assert!(DriverTable::load(r#"{"drivers": [["12.4", "550.54.14"]]}"#).is_none());
    assert!(DriverTable::load(r#"{"drivers": [["12.4", "1", "2", "3"]]}"#).is_none());

    let table = FrameworkTable::load(
        r#"[["cpu", "cuda/{tag}", [["2.4.0", ["cu121"]]]], [[["2.16.1", "12.3"]]]]"#,
    )
    .unwrap();
    assert_eq!(table.latest(Framework::Torch), Some("2.4.0"));
    assert_eq!(table.latest(Framework::TensorFlow), Some("2.16.1"));
    assert!(FrameworkTable::load(r#"[["cpu", "cuda/{tag}", []]]"#).is_none());

    let map = ImportMap::load(r#"[{"cv2": "opencv-python"}]"#);
    assert_eq!(map.resolve("cv2"), "opencv-python");
    assert_eq!(map.resolve("NumPy"), "NumPy");
}
