//! Versions, wheel tags, package metadata and the compatibility report.

use std::cmp::Ordering;

use pypilot::engine::platform::{Arch, Os, Platform};
use pypilot::engine::project::Requirement;
use pypilot::pypi::cache::{Cache, CachedLatest};
use pypilot::pypi::client::{conclude, FixtureSource, MetadataSource, Query, Response};
use pypilot::pypi::metadata::{DistFile, Info, PackageAnalysis, PackageMetadata};
use pypilot::pypi::pyversion::{parse_requires_python, PyVersion, PyVersionSet};
use pypilot::pypi::version::{PackageVersion, VersionSpec};
use pypilot::pypi::wheel::WheelTags;
use pypilot::pypi::{
    analyze, find_conflicts, release_name, report_on, wanted_release, Wanted,
};

fn linux() -> Platform {
    Platform {
        os: Os::Linux,
        arch: Arch::X86_64,
    }
}

fn py3(minors: &[u8]) -> Vec<PyVersion> {
    minors.iter().map(|&m| PyVersion::py3(m)).collect()
}

fn set(minors: &[u8]) -> PyVersionSet {
    PyVersionSet::from_versions(&py3(minors))
}

fn v(s: &str) -> PackageVersion {
    PackageVersion::parse(s).unwrap()
}

fn names(items: &[&str]) -> Vec<String> {
    items.iter().map(|s| s.to_string()).collect()
}

fn wheel(name: &str) -> DistFile {
    DistFile {
        filename: name.to_string(),
        packagetype: "bdist_wheel".to_string(),
        requires_python: None,
        yanked: false,
    }
}

fn sdist(name: &str) -> DistFile {
    DistFile {
        filename: name.to_string(),
        packagetype: "sdist".into(),
        requires_python: None,
        yanked: false,
    }
}

fn pkg(name: &str, rp: Option<&str>, files: Vec<DistFile>) -> PackageMetadata {
    PackageMetadata {
        info: Info {
            name: name.into(),
            version: "1.0".into(),
            requires_python: rp.map(|s| s.to_string()),
        },
        urls: files,
        versions: vec!["1.0".into()],
    }
}

fn meta(version: &str) -> PackageMetadata {
    PackageMetadata {
        info: Info {
            name: "mediapipe".into(),
            version: version.into(),
            requires_python: None,
        },
        urls: vec![],
        versions: vec!["0.10.14".into(), "0.10.35".into()],
    }
}

// --- Python versions ---------------------------------------------------------

#[test]
fn parse_cp_tag() {
    assert_eq!(PyVersion::parse("cp312"), Some(PyVersion::py3(12)));
    assert_eq!(PyVersion::parse("cp39"), Some(PyVersion::py3(9)));
    assert_eq!(PyVersion::parse("3.11"), Some(PyVersion::py3(11)));
    assert_eq!(PyVersion::parse("3.10.4"), Some(PyVersion::py3(10)));
}

#[test]
fn requires_python_lower_bound() {
    let s = parse_requires_python(">=3.8");
    assert!(s.contains(PyVersion::py3(8)));
    assert!(s.contains(PyVersion::py3(13)));
    assert!(!s.contains(PyVersion::py3(7)));
}

#[test]
fn requires_python_bounded_range() {
    let s = parse_requires_python(">=3.7,<3.13");
    assert!(s.contains(PyVersion::py3(12)));
    assert!(!s.contains(PyVersion::py3(13)));
    assert!(s.contains(PyVersion::py3(7)));
}

#[test]
fn requires_python_compatible_release() {
    // ~=3.9 means >=3.9,<4 → all of 3.9..
    let s = parse_requires_python("~=3.9");
    assert!(s.contains(PyVersion::py3(9)));
    assert!(s.contains(PyVersion::py3(13)));
    assert!(!s.contains(PyVersion::py3(8)));
}

#[test]
fn requires_python_not_equal_wildcard() {
    let s = parse_requires_python(">=3.8,!=3.9.*");
    assert!(s.contains(PyVersion::py3(8)));
    assert!(!s.contains(PyVersion::py3(9)));
    assert!(s.contains(PyVersion::py3(10)));
}

#[test]
fn empty_spec_is_universe() {
    assert_eq!(parse_requires_python(""), PyVersionSet::universe());
}

#[test]
fn intersection_and_range_string() {
    let a = set(&[9, 10, 11, 12]);
    let b = parse_requires_python(">=3.11");
    let i = a.intersect(&b);
    assert_eq!(i, set(&[11, 12]));
    assert_eq!(i.to_range_string(), "3.11–3.12");
    assert_eq!(a.to_range_string(), "3.9–3.12");
}

#[test]
fn range_string_with_gap() {
    assert_eq!(set(&[9, 11, 12]).to_range_string(), "3.9, 3.11–3.12");
}

#[test]
fn empty_intersection() {
    let a = parse_requires_python("<=3.10"); // ..3.10
    let b = parse_requires_python(">=3.11"); // 3.11..
    assert!(a.intersect(&b).is_empty());
}

#[test]
fn versions_render_both_ways() {
    assert_eq!(PyVersion::py3(12).cp_tag(), "cp312");
    assert_eq!(PyVersion::py3(12).to_text(), "3.12");
    assert_eq!(PyVersion::new(2, 7).to_text(), "2.7");
    assert_eq!(PyVersion::parse(""), None);
    assert_eq!(PyVersion::parse("three.nine"), None);
    assert_eq!(PyVersion::parse("cp"), None);
}

#[test]
fn version_sets_behave_like_sets() {
    let a = set(&[9, 11]);
    let b = set(&[10, 11]);
    assert_eq!(a.union(&b), set(&[9, 10, 11]));
    assert_eq!(a.intersect(&b), set(&[11]));
    assert_eq!(a.min(), Some(PyVersion::py3(9)));
    assert_eq!(a.max(), Some(PyVersion::py3(11)));
    assert_eq!(a.len(), 2);
    assert_eq!(a.iter(), py3(&[9, 11]));
    assert!(PyVersionSet::empty().is_empty());
    assert_eq!(PyVersionSet::empty().max(), None);
    assert_eq!(PyVersionSet::empty().to_range_string(), "none");
    assert_eq!(PyVersionSet::universe().to_range_string(), "3.7–3.14");
}

#[test]
fn untracked_versions_are_never_members() {
    let mut s = PyVersionSet::empty();
    s.insert(PyVersion::new(2, 7));
    s.insert(PyVersion::py3(6));
    s.insert(PyVersion::py3(15));
    assert!(s.is_empty());
    assert!(!PyVersionSet::universe().contains(PyVersion::new(2, 7)));
}

// --- Package versions --------------------------------------------------------

#[test]
fn orders_by_release_segments() {
    assert!(v("0.10.35") > v("0.10.14"));
    // Numeric, not lexicographic: "10" sorts above "2" here.
    assert!(v("0.10.10") > v("0.10.2"));
    assert!(v("1.0") < v("1.0.1"));
    assert!(v("2.0") > v("1.99.99"));
}

#[test]
fn zero_pads_shorter_versions() {
    assert_eq!(v("1.0.0"), v("1.0"));
    assert_eq!(v("1.0.0").cmp(&v("1.0")), Ordering::Equal);
}

#[test]
fn detects_prereleases() {
    assert!(v("1.0.0rc1").is_prerelease());
    assert!(v("2.0b3").is_prerelease());
    assert!(v("1.0.dev1").is_prerelease());
    assert!(!v("1.0.0").is_prerelease());
    assert!(!v("1.0.post1").is_prerelease());
}

#[test]
fn releases_outrank_their_prereleases() {
    assert!(v("1.0.0") > v("1.0.0rc1"));
}

#[test]
fn handles_epochs_and_local_versions() {
    assert_eq!(v("1!2.0").release, vec![2, 0]);
    assert_eq!(v("2.4.0+cpu").release, vec![2, 4, 0]);
}

#[test]
fn exact_pin_selects_that_release() {
    let spec = VersionSpec::parse("==0.10.14");
    let picked = spec
        .select_newest(&names(&["0.10.9", "0.10.14", "0.10.35"]))
        .unwrap();
    assert_eq!(picked.raw, "0.10.14");
}

#[test]
fn upper_bound_selects_newest_below_it() {
    let spec = VersionSpec::parse(">=0.10,<0.11");
    let picked = spec
        .select_newest(&names(&["0.9.1", "0.10.9", "0.10.14", "0.11.0", "1.0.0"]))
        .unwrap();
    assert_eq!(picked.raw, "0.10.14");
}

#[test]
fn unconstrained_takes_the_newest() {
    let spec = VersionSpec::parse("");
    assert!(spec.is_unconstrained());
    let picked = spec
        .select_newest(&names(&["0.10.14", "0.10.35", "0.9.0"]))
        .unwrap();
    assert_eq!(picked.raw, "0.10.35");
}

#[test]
fn lower_bound_still_takes_the_newest() {
    let spec = VersionSpec::parse(">=0.10");
    let picked = spec
        .select_newest(&names(&["0.9.0", "0.10.14", "0.10.35"]))
        .unwrap();
    assert_eq!(picked.raw, "0.10.35");
}

#[test]
fn compatible_release_caps_the_minor() {
    // ~=0.10.0 means >=0.10.0,<0.11
    let spec = VersionSpec::parse("~=0.10.0");
    let picked = spec
        .select_newest(&names(&["0.10.14", "0.10.35", "0.11.0"]))
        .unwrap();
    assert_eq!(picked.raw, "0.10.35");
}

#[test]
fn prereleases_are_skipped_unless_requested() {
    let spec = VersionSpec::parse(">=1.0");
    let picked = spec.select_newest(&names(&["1.0.0", "1.1.0rc1"])).unwrap();
    assert_eq!(picked.raw, "1.0.0", "an rc should not win by default");

    let explicit = VersionSpec::parse("==1.1.0rc1");
    let picked = explicit
        .select_newest(&names(&["1.0.0", "1.1.0rc1"]))
        .unwrap();
    assert_eq!(picked.raw, "1.1.0rc1");
}

#[test]
fn impossible_constraint_selects_nothing() {
    let spec = VersionSpec::parse(">=99.0");
    assert!(spec.select_newest(&names(&["1.0.0", "2.0.0"])).is_none());
}

#[test]
fn text_without_a_release_is_no_version() {
    assert!(PackageVersion::parse("").is_none());
    assert!(PackageVersion::parse("latest").is_none());
}

#[test]
fn excluded_releases_are_passed_over() {
    let spec = VersionSpec::parse("!=2.0,>1.0,<=2.1");
    assert!(!spec.matches(&v("2.0")));
    assert!(!spec.matches(&v("1.0")));
    assert!(spec.matches(&v("2.1")));
    assert!(!spec.allows_prerelease());
    assert!(VersionSpec::parse(">=1.0rc1").allows_prerelease());
}

// --- Wheel tags --------------------------------------------------------------

#[test]
fn parse_cp312_manylinux() {
    let t = WheelTags::parse("mediapipe-0.10.9-cp312-cp312-manylinux_2_17_x86_64.whl").unwrap();
    assert_eq!(t.py, vec!["cp312"]);
    assert_eq!(t.abi, vec!["cp312"]);
    assert!(t.supported_on(&linux()).contains(PyVersion::py3(12)));
}

#[test]
fn parse_with_build_tag() {
    // Optional build tag between version and pytag.
    let t = WheelTags::parse("foo-1.0-1-cp311-cp311-win_amd64.whl").unwrap();
    assert_eq!(t.py, vec!["cp311"]);
    assert_eq!(t.platform, vec!["win_amd64"]);
}

#[test]
fn pure_python_wheel_supports_all() {
    let t = WheelTags::parse("requests-2.31.0-py3-none-any.whl").unwrap();
    let s = t.supported_on(&linux());
    assert!(s.contains(PyVersion::py3(9)));
    assert!(s.contains(PyVersion::py3(13)));
}

#[test]
fn wrong_platform_yields_empty() {
    let t = WheelTags::parse("foo-1.0-cp312-cp312-win_amd64.whl").unwrap();
    assert!(t.supported_on(&linux()).is_empty());
}

#[test]
fn abi3_wheel_supports_floor_and_up() {
    let t = WheelTags::parse("cryptography-42.0-cp39-abi3-manylinux_2_17_x86_64.whl").unwrap();
    let s = t.supported_on(&linux());
    assert!(s.contains(PyVersion::py3(9)));
    assert!(s.contains(PyVersion::py3(13)));
    assert!(!s.contains(PyVersion::py3(8)));
}

#[test]
fn non_wheel_returns_none() {
    assert!(WheelTags::parse("mediapipe-0.10.9.tar.gz").is_none());
}

#[test]
fn compressed_tag_sets_are_split() {
    let t = WheelTags::parse("foo-1.0-py2.py3-none-any.whl").unwrap();
    assert_eq!(t.py, vec!["py2", "py3"]);
    assert_eq!(t.platform, vec!["any"]);
    assert_eq!(t.supported_on(&linux()), PyVersionSet::universe());
}

// --- Metadata ----------------------------------------------------------------

#[test]
fn wheel_tags_narrow_requires_python() {
    // requires_python loose (>=3.8) but wheels only up to cp312.
    let meta = PackageMetadata {
        info: Info {
            name: "mediapipe".into(),
            version: "0.10.9".into(),
            requires_python: Some(">=3.8".into()),
        },
        urls: vec![
            wheel("mediapipe-0.10.9-cp39-cp39-manylinux_2_17_x86_64.whl"),
            wheel("mediapipe-0.10.9-cp312-cp312-manylinux_2_17_x86_64.whl"),
        ],
        versions: vec!["0.10.9".into()],
    };
    let a = meta.analyze(&linux());
    assert!(a.has_platform_wheels);
    assert!(a.supported.contains(PyVersion::py3(9)));
    assert!(a.supported.contains(PyVersion::py3(12)));
    assert!(!a.supported.contains(PyVersion::py3(13)));
}

#[test]
fn sdist_only_keeps_requires_python_and_flags() {
    let meta = PackageMetadata {
        info: Info {
            name: "somelib".into(),
            version: "1.0".into(),
            requires_python: Some(">=3.9".into()),
        },
        urls: vec![DistFile {
            filename: "somelib-1.0.tar.gz".into(),
            packagetype: "sdist".into(),
            requires_python: None,
            yanked: false,
        }],
        versions: vec!["1.0".into()],
    };
    let a = meta.analyze(&linux());
    assert!(a.sdist_only);
    assert!(!a.has_platform_wheels);
    assert!(a.supported.contains(PyVersion::py3(13)));
}

#[test]
fn yanked_files_do_not_count() {
    let mut gone = wheel("x-1.0-cp313-cp313-manylinux_2_17_x86_64.whl");
    gone.yanked = true;
    let a = pkg(
        "x",
        None,
        vec![gone, wheel("x-1.0-cp312-cp312-manylinux_2_17_x86_64.whl")],
    )
    .analyze(&linux());
    assert_eq!(a.supported, set(&[12]));
}

#[test]
fn files_know_their_kind() {
    assert!(wheel("x-1.0-py3-none-any.whl").is_wheel());
    assert!(!wheel("x-1.0-py3-none-any.whl").is_sdist());
    assert!(sdist("x-1.0.tar.gz").is_sdist());
    assert!(!sdist("x-1.0.tar.gz").is_wheel());
}

// --- The report --------------------------------------------------------------

#[test]
fn empty_intersection_names_conflicting_pair() {
    let mut src = FixtureSource::new();
    // legacy: wheels only cp38-cp310
    src.insert(
        "legacy",
        pkg(
            "legacy",
            Some(">=3.8"),
            vec![
                wheel("legacy-1.0-cp38-cp38-manylinux_2_17_x86_64.whl"),
                wheel("legacy-1.0-cp310-cp310-manylinux_2_17_x86_64.whl"),
            ],
        ),
    );
    // shiny: requires >=3.11
    src.insert(
        "shiny",
        pkg(
            "shiny",
            Some(">=3.11"),
            vec![wheel("shiny-1.0-cp311-cp311-manylinux_2_17_x86_64.whl")],
        ),
    );

    let report = analyze(
        &src,
        linux(),
        &[Requirement::any("legacy"), Requirement::any("shiny")],
    );

    assert!(report.intersection.is_empty());
    assert_eq!(report.conflicts.len(), 1);
    let c = &report.conflicts[0];
    assert!(c.explanation.contains("legacy"));
    assert!(c.explanation.contains("shiny"));
}

#[test]
fn unknown_projects_are_listed_as_unresolved() {
    let src = FixtureSource::new();
    let report = analyze(&src, linux(), &[Requirement::any("nowhere")]);
    assert!(report.per_package.is_empty());
    assert_eq!(report.unresolved.len(), 1);
    assert_eq!(report.unresolved[0].0, "nowhere");
    assert_eq!(report.suggested_python(), Some(PyVersion::py3(14)));
}

#[test]
fn source_distributions_are_warned_about() {
    let mut src = FixtureSource::default();
    src.insert("somelib", pkg("somelib", Some(">=3.9"), vec![sdist("somelib-1.0.tar.gz")]));
    let report = analyze(&src, linux(), &[Requirement::any("somelib")]);
    assert_eq!(report.sdist_warnings.len(), 1);
    assert!(report.sdist_warnings[0].contains("somelib"));
    assert!(report.is_compatible(PyVersion::py3(9)));
    assert!(!report.is_compatible(PyVersion::py3(8)));
}

#[test]
fn fixtures_answer_by_name() {
    let mut src = FixtureSource::new();
    src.insert("mediapipe", meta("0.10.35"));
    assert_eq!(src.fetch("mediapipe").unwrap().info.version, "0.10.35");
    assert!(src.fetch("numpy").is_err());
}

#[test]
fn pins_decide_which_release_is_wanted() {
    let latest = meta("0.10.35");
    let want = |spec: &str| {
        wanted_release(
            &Requirement {
                name: "mediapipe".into(),
                spec: spec.into(),
            },
            &latest,
        )
    };
    assert_eq!(want(""), Wanted::Latest);
    assert_eq!(want(">=0.10"), Wanted::Latest);
    assert_eq!(want("==0.10.14"), Wanted::Release("0.10.14".into()));
    assert_eq!(want("==99.0.0"), Wanted::Nothing);
}

// --- The metadata cache ------------------------------------------------------

#[test]
fn storing_an_older_release_does_not_move_the_latest_pointer() {
    // The regression: resolving a pin fetches an older release, and writing
    // that into the latest slot made every later lookup answer with it.
    let cache = Cache::at("tiers");
    let newest = cache.put_latest("mediapipe", &meta("0.10.35"), 1000);
    let older = cache.put_release("mediapipe", &meta("0.10.14"));

    let latest = cache.latest_path("mediapipe").unwrap();
    assert!(newest.iter().any(|w| w.path == latest && w.overwrite));
    assert!(
        older.iter().all(|w| w.path != latest),
        "the newest release must stay the latest answer"
    );

    let pinned = cache.release_path("mediapipe", "0.10.14").unwrap();
    assert!(
        older.iter().any(|w| w.path == pinned),
        "the older release is retrievable on its own"
    );
}

#[test]
fn a_fresh_latest_is_handed_back_whole() {
    let cache = Cache::at("roundtrip");
    let writes = cache.put_latest("mediapipe", &meta("0.10.35"), 1000);
    let stamp = writes
        .iter()
        .find(|w| w.path == cache.latest_path("mediapipe").unwrap())
        .and_then(|w| w.fetched_at_unix)
        .unwrap();

    let kept = CachedLatest {
        fetched_at_unix: stamp,
        metadata: meta("0.10.35"),
    };
    let back = cache.get_latest(Some(kept), 1000).unwrap();
    assert_eq!(back.versions, vec!["0.10.14", "0.10.35"]);
}

#[test]
fn the_latest_answer_expires_after_a_day() {
    let cache = Cache::at("ttl");
    let kept = || CachedLatest {
        fetched_at_unix: 1000,
        metadata: meta("0.10.35"),
    };
    assert!(cache.get_latest(Some(kept()), 1000 + 86_400).is_some());
    assert!(cache.get_latest(Some(kept()), 1000 + 86_401).is_none());
    assert!(cache.get_latest(None, 1000).is_none());
}

#[test]
fn a_disabled_cache_stores_nothing() {
    let cache = Cache::disabled();
    assert!(cache.put_latest("mediapipe", &meta("0.10.35"), 1000).is_empty());
    assert!(cache.put_release("mediapipe", &meta("0.10.35")).is_empty());
    assert_eq!(cache.latest_path("mediapipe"), None);
    assert_eq!(cache.release_path("mediapipe", "1.0"), None);
}

// --- The live index ----------------------------------------------------------

#[test]
fn names_are_read_into_queries() {
    let latest = Query::parse("mediapipe");
    assert_eq!(latest.url(), "https://pypi.org/pypi/mediapipe/json");
    assert_eq!(latest.version, None);
    let one = Query::parse(&release_name("mediapipe", "0.10.14"));
    assert_eq!(one.project, "mediapipe");
    assert_eq!(one.version.as_deref(), Some("0.10.14"));
    assert_eq!(one.url(), "https://pypi.org/pypi/mediapipe/0.10.14/json");
}

#[test]
fn answers_are_kept_in_their_own_tier() {
    let cache = Cache::at("root");
    let latest = Query::parse("mediapipe");
    let one = Query::parse("mediapipe==0.10.14");
    assert_eq!(latest.cache_path(&cache), cache.latest_path("mediapipe"));
    assert_eq!(
        one.cache_path(&cache),
        cache.release_path("mediapipe", "0.10.14")
    );
    assert_eq!(latest.writes(&cache, &meta("0.10.35"), 7).len(), 2);
    let kept = one.writes(&cache, &meta("0.10.14"), 7);
    assert_eq!(kept.len(), 1);
    assert_eq!(Some(kept[0].path.clone()), one.cache_path(&cache));
}

#[test]
fn failed_lookups_say_why() {
    assert_eq!(
        conclude("x", Response::Unreachable).unwrap_err(),
        "requesting metadata for `x`"
    );
    assert_eq!(
        conclude("x", Response::Refused("404 Not Found".into())).unwrap_err(),
        "PyPI returned 404 Not Found for `x`"
    );
    assert_eq!(
        conclude("x", Response::Unreadable).unwrap_err(),
        "parsing PyPI JSON for `x`"
    );
    assert!(conclude("x", Response::Document(meta("1.0"))).is_ok());
}

#[test]
fn a_package_that_supports_nothing_is_named() {
    let mut src = FixtureSource::new();
    src.insert(
        "winonly",
        pkg("winonly", Some(">=4"), vec![wheel("winonly-1.0-cp312-cp312-win_amd64.whl")]),
    );
    src.insert(
        "pure",
        pkg("pure", Some(">=3.9"), vec![wheel("pure-1.0-py3-none-any.whl")]),
    );
    let report = analyze(
        &src,
        linux(),
        &[Requirement::any("winonly"), Requirement::any("pure")],
    );
    assert!(report.intersection.is_empty());
    assert_eq!(report.conflicts.len(), 1);
    assert_eq!(report.conflicts[0].low.name, "winonly");
    assert_eq!(report.conflicts[0].high.name, "pure");
    assert!(report.conflicts[0].explanation.contains("no installable distribution"));
}

#[test]
fn the_two_packages_at_odds_are_named() {
    let mut src = FixtureSource::new();
    src.insert("old", pkg("old", Some("<=3.9"), vec![wheel("old-1.0-py3-none-any.whl")]));
    src.insert("mid", pkg("mid", Some(">=3.8"), vec![wheel("mid-1.0-py3-none-any.whl")]));
    src.insert("new", pkg("new", Some(">=3.12"), vec![wheel("new-1.0-py3-none-any.whl")]));
    let report = analyze(
        &src,
        linux(),
        &[Requirement::any("old"), Requirement::any("mid"), Requirement::any("new")],
    );
    assert_eq!(report.conflicts.len(), 1);
    assert_eq!(
        report.conflicts[0].explanation,
        "old supports up to Python 3.9 but new requires at least Python 3.12 — no single interpreter satisfies both."
    );
}

fn analysis(name: &str, minors: &[u8]) -> PackageAnalysis {
    PackageAnalysis {
        name: name.into(),
        version: "1.0".into(),
        supported: set(minors),
        has_platform_wheels: true,
        sdist_only: false,
        requires_python: None,
    }
}

#[test]
fn interleaving_supports_name_both_packages() {
    let found = find_conflicts(&vec![analysis("a", &[10]), analysis("b", &[9, 11])]);
    assert_eq!(found.len(), 1);
    assert_eq!(found[0].low.name, "a");
    assert_eq!(found[0].high.name, "b");
    assert_eq!(
        found[0].explanation,
        "a supports Python 3.10 but b requires Python 3.9, 3.11 — no single interpreter satisfies both."
    );
}

#[test]
fn packages_that_overlap_are_never_named() {
    // Nothing suits all three, yet any two share a version.
    let found = find_conflicts(&vec![
        analysis("a", &[9, 12]),
        analysis("b", &[9, 10]),
        analysis("c", &[10, 12]),
    ]);
    assert!(found.is_empty());
    // A package that supports nothing is named before two that overlap.
    let found = find_conflicts(&vec![
        analysis("none", &[]),
        analysis("b", &[9, 10]),
        analysis("c", &[9, 10]),
    ]);
    assert_eq!(found.len(), 1);
    assert_eq!(found[0].low.name, "none");
}

#[test]
fn nothing_declared_is_nothing_to_report_on() {
    assert!(report_on(linux(), &vec![]).is_none());
    let lookups = vec![("nowhere".to_string(), Err("gone".to_string()))];
    assert_eq!(report_on(linux(), &lookups).unwrap().unresolved.len(), 1);
}

#[test]
fn prerelease_pins_admit_that_version_alone() {
    let spec = VersionSpec::parse("==1.1.0rc1");
    assert!(!spec.is_unconstrained());
    assert!(spec.matches(&v("1.1.0rc1")));
    assert!(spec.matches(&v("1.1.0.RC1")));
    for other in ["1.1.0rc2", "1.1.0", "2.0.0", "1.0.0", "1.2.0rc1"] {
        assert!(!spec.matches(&v(other)), "{other}");
    }
    let all = names(&["1.0.0", "1.1.0rc1", "1.1.0", "2.0.0"]);
    assert_eq!(spec.select_newest(&all).unwrap().raw, "1.1.0rc1");
}

#[test]
fn bounds_may_name_prereleases() {
    let spec = VersionSpec::parse(">=1.1.0rc1,<2");
    assert!(spec.matches(&v("1.1.0rc1")));
    assert!(spec.matches(&v("1.1.0")));
    assert!(!spec.matches(&v("1.0.9")));
    assert!(!spec.matches(&v("2.0")));
    assert!(!VersionSpec::parse("!=1.1.0rc1").matches(&v("1.1.0rc1")));
    assert!(VersionSpec::parse("~=1.1.0rc1").matches(&v("1.1.5")));
    assert!(!VersionSpec::parse("~=1.1.0rc1").matches(&v("1.2.0")));
    assert!(!VersionSpec::parse(">1.1.0rc1").matches(&v("1.1.0rc1")));
    assert!(VersionSpec::parse("<=1.1.0rc1").matches(&v("1.0")));
}

#[test]
fn local_and_post_pins_still_pin() {
    let spec = VersionSpec::parse("==2.4.0+cpu");
    assert!(!spec.is_unconstrained());
    assert_eq!(
        spec.select_newest(&names(&["2.3.0", "2.4.0", "2.5.0"])).unwrap().raw,
        "2.4.0"
    );
    assert!(VersionSpec::parse("==1.0.post1").matches(&v("1.0.post1")));
    assert!(!VersionSpec::parse("==1.0.post1").matches(&v("1.1")));
    assert!(VersionSpec::parse("==nonsense").is_unconstrained());
}

#[test]
fn the_newest_and_oldest_members_are_found() {
    assert_eq!(set(&[9, 11, 12]).max(), Some(PyVersion::py3(12)));
    assert_eq!(set(&[9, 11, 12]).min(), Some(PyVersion::py3(9)));
    assert_eq!(set(&[]).max(), None);
}

#[test]
fn commas_join_specifiers() {
    let both = parse_requires_python(" >=3.9 ,  <3.12 ");
    assert_eq!(
        both,
        parse_requires_python(" >=3.9 ").intersect(&parse_requires_python("  <3.12 "))
    );
    assert_eq!(both, set(&[9, 10, 11]));
}
