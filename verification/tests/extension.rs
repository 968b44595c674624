//! Finding a helper binary for the editor.

use pypilot::extension::{
    check_helper_version, is_stale, parse_helper_version, Action, AssetSpec, Host, HostArch,
    HostOs, Release, Reply, Search, HELPER_REPO, MIN_HELPER_VERSION,
};

#[test]
fn parses_the_helpers_own_version_output() {
    assert_eq!(parse_helper_version("pypilot 0.1.0"), Some((0, 1, 0)));
    assert_eq!(parse_helper_version("pypilot 1.12.3"), Some((1, 12, 3)));
}

#[test]
fn rejects_output_that_is_not_a_version() {
    assert_eq!(parse_helper_version(""), None);
    assert_eq!(parse_helper_version("pypilot"), None);
    assert_eq!(parse_helper_version("not pypilot at all"), None);
}

#[test]
fn min_helper_version_orders_as_expected() {
    assert!((0, 0, 9) < MIN_HELPER_VERSION);
    assert!(MIN_HELPER_VERSION <= (0, 1, 0));
}

#[test]
fn helpers_are_accepted_or_refused_by_version() {
    let said = |s: &str| Ok((Some(0), s.to_string()));
    assert_eq!(
        check_helper_version("/bin/pypilot", &said("pypilot 0.2.0")),
        Ok((0, 2, 0))
    );
    assert!(check_helper_version("/bin/pypilot", &said("pypilot 0.0.9")).is_err());
    assert!(check_helper_version("/bin/pypilot", &said("hello")).is_err());
    assert!(check_helper_version("/bin/pypilot", &Ok((Some(1), String::new()))).is_err());
    assert!(check_helper_version("/bin/pypilot", &Err("gone".into())).is_err());
}

#[test]
fn assets_are_named_for_the_host() {
    let linux = AssetSpec::for_platform(HostOs::Linux, HostArch::X8664).unwrap();
    assert!(linux.file_name().ends_with(".tar.gz"));
    assert_eq!(linux.binary_name(), "pypilot");
    let windows = AssetSpec::for_platform(HostOs::Windows, HostArch::X8664).unwrap();
    assert!(windows.file_name().ends_with(".zip"));
    assert_eq!(windows.binary_name(), "pypilot.exe");
    assert!(AssetSpec::for_platform(HostOs::Linux, HostArch::X86).is_err());
}

#[test]
fn older_downloads_are_stale() {
    assert!(is_stale("pypilot-0.1.0", "pypilot-0.2.0"));
    assert!(!is_stale("pypilot-0.2.0", "pypilot-0.2.0"));
    assert!(!is_stale("something-else", "pypilot-0.2.0"));
}

fn host() -> Host {
    Host {
        cached: None,
        os: HostOs::Linux,
        arch: HostArch::X8664,
    }
}

#[test]
fn a_good_helper_on_the_path_is_used() {
    let s = Search::start();
    assert_eq!(s.next_action(), Action::Which);
    let s = s.advance(Reply::Found(Some("/bin/pypilot".into())), &host());
    assert_eq!(s.next_action(), Action::AskVersion("/bin/pypilot".into()));
    let s = s.advance(
        Reply::Asked(Ok((Some(0), "pypilot 0.2.0".into()))),
        &host(),
    );
    assert!(matches!(s.next_action(), Action::Log(_)));
    let s = s.advance(Reply::Noted, &host());
    assert_eq!(s.next_action(), Action::Done(Ok("/bin/pypilot".into())));
}

#[test]
fn an_old_helper_gives_way_to_a_download() {
    let h = host();
    let asset = AssetSpec::for_platform(h.os, h.arch).unwrap().file_name();
    let s = Search::start()
        .advance(Reply::Found(Some("/bin/pypilot".into())), &h)
        .advance(Reply::Asked(Ok((Some(0), "pypilot 0.0.1".into()))), &h);
    assert!(matches!(s.next_action(), Action::Reject { .. }));
    let s = s.advance(Reply::Noted, &h);
    assert_eq!(s.next_action(), Action::FetchRelease);
    let s = s.advance(
        Reply::Release(Ok(Release {
            version: "0.3.0".into(),
            assets: vec![(asset, "https://example.invalid/a".into())],
        })),
        &h,
    );
    assert!(matches!(s.next_action(), Action::LookFor(_)));
    let s = s.advance(Reply::File(false), &h);
    match s.next_action() {
        Action::Download { url, zip, .. } => {
            assert_eq!(url, "https://example.invalid/a");
            assert!(!zip);
        }
        other => panic!("expected a download, got {other:?}"),
    }
    let s = s.advance(Reply::Changed(Ok(())), &h);
    assert!(matches!(s.next_action(), Action::MakeExecutable(_)));
    let s = s.advance(Reply::Changed(Ok(())), &h);
    assert!(matches!(s.next_action(), Action::Prune(_)));
    let s = s.advance(Reply::Noted, &h);
    assert!(matches!(s.next_action(), Action::Done(Ok(_))));
}

#[test]
fn a_release_without_our_asset_is_an_error() {
    let h = host();
    let s = Search::start()
        .advance(Reply::Found(None), &h)
        .advance(
            Reply::Release(Ok(Release {
                version: "0.3.0".into(),
                assets: vec![],
            })),
            &h,
        );
    assert!(matches!(s.next_action(), Action::Done(Err(_))));
    assert!(HELPER_REPO.ends_with("/pypilot"));
}
