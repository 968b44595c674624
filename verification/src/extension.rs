//! The editor extension: which helper binary to launch.
//!
//! Deliberately dumb. It reuses a `pypilot` already on `$PATH` if its version is
//! one it can work with, else one it downloaded before, else downloads the
//! matching release asset.

use vstd::prelude::*;

use crate::text;

verus! {

/// The repository that hosts the helper release assets.
pub const HELPER_REPO: &'static str = "Abdullah-Masood-05/pypilot";

/// Oldest helper version trusted when one is found on `$PATH`. An older helper
/// predates what is assumed about its command line, so using it silently would
/// surface as a confusing failure deep in the language server.
pub const MIN_HELPER_VERSION: (u32, u32, u32) = (0, 1, 0);

/// Whether one version comes before another.
pub open spec fn earlier(a: (u32, u32, u32), b: (u32, u32, u32)) -> bool {
    a.0 < b.0 || (a.0 == b.0 && (a.1 < b.1 || (a.1 == b.1 && a.2 < b.2)))
}

pub fn is_earlier(a: (u32, u32, u32), b: (u32, u32, u32)) -> (r: bool)
    ensures
        r == earlier(a, b),
{
    a.0 < b.0 || (a.0 == b.0 && (a.1 < b.1 || (a.1 == b.1 && a.2 < b.2)))
}

/// A part of a version.
pub open spec fn part(s: Seq<char>) -> Option<u32> {
    match text::parse_uint_spec(s, u32::MAX as nat) {
        Some(n) => Some(n as u32),
        None => None,
    }
}

/// The version in what the helper prints.
pub open spec fn helper_version(stdout: Seq<char>) -> Option<(u32, u32, u32)> {
    if !text::starts(stdout, "pypilot "@) {
        None
    } else {
        let parts = text::split_spec(
            stdout.skip("pypilot "@.len() as int),
            text::eq_char('.'),
        );
        if parts.len() < 3 {
            None
        } else {
            match (part(parts[0]), part(parts[1]), part(parts[2])) {
                (Some(a), Some(b), Some(c)) => Some((a, b, c)),
                _ => None,
            }
        }
    }
}

fn read_part(s: &str) -> (r: Option<u32>)
    ensures
        r == part(s@),
{
    match text::parse_uint(s, 4294967295) {
        Some(n) => Some(n as u32),
        None => None,
    }
}

/// Parses the `pypilot --version` output (`"pypilot X.Y.Z"`) into its numeric
/// parts.
pub fn parse_helper_version(stdout: &str) -> (r: Option<(u32, u32, u32)>)
    ensures
        r == helper_version(stdout@),
{
    let rest = match text::strip_prefix(stdout, "pypilot ") {
        Some(rest) => rest,
        None => return None,
    };
    let parts = text::split(rest, '.');
    let ghost views = text::texts(parts@);
    if parts.len() < 3 {
        return None;
    }
    proof {
        assert(views[0] == parts@[0]@ && views[1] == parts@[1]@ && views[2] == parts@[2]@);
    }
    match (
        read_part(parts[0].as_str()),
        read_part(parts[1].as_str()),
        read_part(parts[2].as_str()),
    ) {
        (Some(a), Some(b), Some(c)) => Some((a, b, c)),
        _ => None,
    }
}

pub open spec fn dotted(v: (u32, u32, u32)) -> Seq<char> {
    text::decimal_spec(v.0 as nat) + "."@ + text::decimal_spec(v.1 as nat) + "."@
        + text::decimal_spec(v.2 as nat)
}

fn show_version(v: (u32, u32, u32)) -> (r: String)
    ensures
        r@ == dotted(v),
{
    let mut s = text::decimal(v.0 as u64);
    s.append(".");
    s.append(text::decimal(v.1 as u64).as_str());
    s.append(".");
    s.append(text::decimal(v.2 as u64).as_str());
    s
}

/// An exit status as it is shown.
pub open spec fn status_text(status: Option<i32>) -> Seq<char> {
    match status {
        Some(code) => if code < 0 {
            "Some(-"@ + text::decimal_spec((-(code as int)) as nat) + ")"@
        } else {
            "Some("@ + text::decimal_spec(code as nat) + ")"@
        },
        None => "None"@,
    }
}

fn show_status(status: Option<i32>) -> (r: String)
    ensures
        r@ == status_text(status),
{
    match status {
        Some(code) => {
            let wide = code as i64;
            let mut s = if wide < 0 {
                "Some(-".to_string()
            } else {
                "Some(".to_string()
            };
            let size: u64 = if wide < 0 {
                (-wide) as u64
            } else {
                wide as u64
            };
            s.append(text::decimal(size).as_str());
            s.append(")");
            s
        },
        None => "None".to_string(),
    }
}

/// What asking a helper for its version came to: the status and the output, or
/// why it could not be run.
pub type Asked = Result<(Option<i32>, String), String>;

pub open spec fn asked_view(a: Asked) -> Result<(Option<i32>, Seq<char>), Seq<char>> {
    match a {
        Ok((status, stdout)) => Ok((status, stdout@)),
        Err(e) => Err(e@),
    }
}

/// The version of a helper, or why it is rejected.
pub open spec fn verdict(
    path: Seq<char>,
    asked: Result<(Option<i32>, Seq<char>), Seq<char>>,
) -> Result<(u32, u32, u32), Seq<char>> {
    match asked {
        Err(e) => Err("failed to run `"@ + path + " --version`: "@ + e),
        Ok((status, stdout)) => if status != Some(0i32) {
            Err("`"@ + path + " --version` exited with status "@ + status_text(status))
        } else {
            match helper_version(text::trim_spec(stdout)) {
                None => Err(
                    "could not parse a version from `"@ + text::trim_spec(stdout) + "`"@,
                ),
                Some(v) => if earlier(v, MIN_HELPER_VERSION) {
                    Err(
                        "version "@ + dotted(v) + " is older than the "@ + dotted(
                            MIN_HELPER_VERSION,
                        ) + " this shim requires"@,
                    )
                } else {
                    Ok(v)
                },
            }
        },
    }
}

/// Check what `<path> --version` came to against [`MIN_HELPER_VERSION`]. Gives
/// the version, or a human-readable reason to reject the binary.
pub fn check_helper_version(path: &str, asked: &Asked) -> (r: Result<(u32, u32, u32), String>)
    ensures
        match r {
            Ok(v) => verdict(path@, asked_view(*asked)) == Ok::<(u32, u32, u32), Seq<char>>(v),
            Err(e) => verdict(path@, asked_view(*asked)) == Err::<(u32, u32, u32), Seq<char>>(e@),
        },
{
    match asked {
        Err(e) => {
            let mut why = "failed to run `".to_string();
            why.append(path);
            why.append(" --version`: ");
            why.append(e.as_str());
            Err(why)
        },
        Ok((status, stdout)) => {
            let well = match *status {
                Some(code) => code == 0,
                None => false,
            };
            if !well {
                let mut why = "`".to_string();
                why.append(path);
                why.append(" --version` exited with status ");
                why.append(show_status(*status).as_str());
                return Err(why);
            }
            let shown = text::trim(stdout.as_str());
            match parse_helper_version(shown) {
                None => {
                    let mut why = "could not parse a version from `".to_string();
                    why.append(shown);
                    why.append("`");
                    Err(why)
                },
                Some(v) => if is_earlier(v, MIN_HELPER_VERSION) {
                    let mut why = "version ".to_string();
                    why.append(show_version(v).as_str());
                    why.append(" is older than the ");
                    why.append(show_version(MIN_HELPER_VERSION).as_str());
                    why.append(" this shim requires");
                    Err(why)
                } else {
                    Ok(v)
                },
            }
        },
    }
}

/// A helper is used from `$PATH` only if it said, with success, that its version
/// is at least the oldest one trusted.
pub proof fn old_helpers_are_never_used(
    path: Seq<char>,
    asked: Result<(Option<i32>, Seq<char>), Seq<char>>,
)
    ensures
        verdict(path, asked) matches Ok(v) ==> !earlier(v, MIN_HELPER_VERSION) && (asked matches Ok(
            out,
        ) && out.0 == Some(0i32)),
{
}

// ---------------------------------------------------------------------------
// Release assets
// ---------------------------------------------------------------------------

#[derive(Debug, Clone, Copy, PartialEq, Eq, Structural)]
pub enum HostOs {
    Mac,
    Linux,
    Windows,
}

#[derive(Debug, Clone, Copy, PartialEq, Eq, Structural)]
pub enum HostArch {
    Aarch64,
    X86,
    X8664,
}

/// Per-platform release asset description. Asset names must match the artifacts
/// the release workflow produces.
#[derive(Debug, PartialEq, Eq)]
pub struct AssetSpec {
    /// e.g. "linux-x64", "darwin-arm64", "windows-x64".
    pub slug: String,
    pub windows: bool,
}

pub open spec fn os_text(os: HostOs) -> Seq<char> {
    match os {
        HostOs::Mac => "Mac"@,
        HostOs::Linux => "Linux"@,
        HostOs::Windows => "Windows"@,
    }
}

pub open spec fn arch_text(arch: HostArch) -> Seq<char> {
    match arch {
        HostArch::Aarch64 => "Aarch64"@,
        HostArch::X86 => "X86"@,
        HostArch::X8664 => "X8664"@,
    }
}

/// The slug of a platform there is an asset for.
pub open spec fn slug_of(os: HostOs, arch: HostArch) -> Option<Seq<char>> {
    match (os, arch) {
        (HostOs::Linux, HostArch::X8664) => Some("linux-x64"@),
        (HostOs::Mac, HostArch::X8664) => Some("darwin-x64"@),
        (HostOs::Mac, HostArch::Aarch64) => Some("darwin-arm64"@),
        (HostOs::Windows, HostArch::X8664) => Some("windows-x64"@),
        _ => None,
    }
}

pub open spec fn unsupported(os: HostOs, arch: HostArch) -> Seq<char> {
    "unsupported platform for PyPilot helper: "@ + os_text(os) + "/"@ + arch_text(arch)
}

pub open spec fn asset_file(slug: Seq<char>, windows: bool) -> Seq<char> {
    "pypilot-"@ + slug + (if windows {
        ".zip"@
    } else {
        ".tar.gz"@
    })
}

pub open spec fn binary_in(windows: bool) -> Seq<char> {
    if windows {
        "pypilot.exe"@
    } else {
        "pypilot"@
    }
}

impl AssetSpec {
    pub fn for_platform(os: HostOs, arch: HostArch) -> (r: Result<AssetSpec, String>)
        ensures
            match r {
                Ok(spec) => slug_of(os, arch) == Some(spec.slug@) && spec.windows == (os
                    == HostOs::Windows),
                Err(e) => slug_of(os, arch) is None && e@ == unsupported(os, arch),
            },
    {
        match (os, arch) {
            (HostOs::Linux, HostArch::X8664) => Ok(
                AssetSpec { slug: "linux-x64".to_string(), windows: false },
            ),
            (HostOs::Mac, HostArch::X8664) => Ok(
                AssetSpec { slug: "darwin-x64".to_string(), windows: false },
            ),
            (HostOs::Mac, HostArch::Aarch64) => Ok(
                AssetSpec { slug: "darwin-arm64".to_string(), windows: false },
            ),
            (HostOs::Windows, HostArch::X8664) => Ok(
                AssetSpec { slug: "windows-x64".to_string(), windows: true },
            ),
            _ => {
                let os_name = match os {
                    HostOs::Mac => "Mac",
                    HostOs::Linux => "Linux",
                    HostOs::Windows => "Windows",
                };
                let arch_name = match arch {
                    HostArch::Aarch64 => "Aarch64",
                    HostArch::X86 => "X86",
                    HostArch::X8664 => "X8664",
                };
                let mut e = "unsupported platform for PyPilot helper: ".to_string();
                e.append(os_name);
                e.append("/");
                e.append(arch_name);
                Err(e)
            },
        }
    }

    /// Downloaded archive name, e.g. `pypilot-linux-x64.tar.gz`.
    pub fn file_name(&self) -> (r: String)
        ensures
            r@ == asset_file(self.slug@, self.windows),
    {
        let mut s = "pypilot-".to_string();
        s.append(self.slug.as_str());
        if self.windows {
            s.append(".zip");
        } else {
            s.append(".tar.gz");
        }
        s
    }

    /// Name of the binary inside the extracted archive directory.
    pub fn binary_name(&self) -> (r: &'static str)
        ensures
            r@ == binary_in(self.windows),
    {
        if self.windows {
            "pypilot.exe"
        } else {
            "pypilot"
        }
    }
}

/// Whether an entry of the working directory is a stale install: any version
/// directory other than the one just verified.
pub fn is_stale(entry: &str, keep_dir: &str) -> (r: bool)
    ensures
        r == (text::starts(entry@, "pypilot-"@) && entry@ != keep_dir@),
{
    text::starts_with(entry, "pypilot-") && !text::same(entry, keep_dir)
}

// ---------------------------------------------------------------------------
// Locating the helper
// ---------------------------------------------------------------------------

/// A published release: its version and its assets' names and URLs.
#[derive(Debug, PartialEq, Eq)]
pub struct Release {
    pub version: String,
    pub assets: Vec<(String, String)>,
}

/// The URL of the first asset of a name.
pub open spec fn asset_url(assets: Seq<(String, String)>, name: Seq<char>) -> Option<Seq<char>>
    decreases assets.len(),
{
    if assets.len() == 0 {
        None
    } else if assets[0].0@ == name {
        Some(assets[0].1@)
    } else {
        asset_url(assets.drop_first(), name)
    }
}

fn find_asset(assets: &Vec<(String, String)>, name: &str) -> (r: Option<String>)
    ensures
        text::opt_text(r) == asset_url(assets@, name@),
{
    let mut i: usize = 0;
    proof {
        assert(assets@.skip(0) =~= assets@);
    }
    while i < assets.len()
        invariant
            i <= assets@.len(),
            asset_url(assets@, name@) == asset_url(assets@.skip(i as int), name@),
        decreases assets@.len() - i,
    {
        proof {
            let rest = assets@.skip(i as int);
            assert(rest[0] == assets@[i as int]);
            assert(rest.drop_first() =~= assets@.skip(i as int + 1));
        }
        if text::same(assets[i].0.as_str(), name) {
            return Some(assets[i].1.clone());
        }
        i += 1;
    }
    None
}

/// What is to be done next.
#[derive(Debug, PartialEq, Eq)]
pub enum Action {
    /// Look for `pypilot` on `$PATH`.
    Which,
    /// Run this binary with `--version`.
    AskVersion(String),
    /// Log this.
    Log(String),
    /// Log one text and show the other as an installation failure.
    Reject { log: String, status: String },
    /// See whether this is a file.
    LookFor(String),
    /// Say that updates are being checked for, and fetch the latest release.
    FetchRelease,
    /// Say that a download is under way, and extract this archive there.
    Download { url: String, dir: String, zip: bool },
    MakeExecutable(String),
    /// Remove every install but this one.
    Prune(String),
    /// Launch this binary, or give up with this error.
    Done(Result<String, String>),
}

/// An action, mathematically.
#[verifier::ext_equal]
pub enum ActionView {
    Which,
    AskVersion(Seq<char>),
    Log(Seq<char>),
    Reject { log: Seq<char>, status: Seq<char> },
    LookFor(Seq<char>),
    FetchRelease,
    Download { url: Seq<char>, dir: Seq<char>, zip: bool },
    MakeExecutable(Seq<char>),
    Prune(Seq<char>),
    Done(Result<Seq<char>, Seq<char>>),
}

pub open spec fn result_view(r: Result<String, String>) -> Result<Seq<char>, Seq<char>> {
    match r {
        Ok(s) => Ok(s@),
        Err(e) => Err(e@),
    }
}

impl View for Action {
    type V = ActionView;

    open spec fn view(&self) -> ActionView {
        match *self {
            Action::Which => ActionView::Which,
            Action::AskVersion(p) => ActionView::AskVersion(p@),
            Action::Log(s) => ActionView::Log(s@),
            Action::Reject { log, status } => ActionView::Reject { log: log@, status: status@ },
            Action::LookFor(p) => ActionView::LookFor(p@),
            Action::FetchRelease => ActionView::FetchRelease,
            Action::Download { url, dir, zip } => ActionView::Download {
                url: url@,
                dir: dir@,
                zip,
            },
            Action::MakeExecutable(p) => ActionView::MakeExecutable(p@),
            Action::Prune(d) => ActionView::Prune(d@),
            Action::Done(r) => ActionView::Done(result_view(r)),
        }
    }
}

/// What came of an action.
#[derive(Debug, PartialEq, Eq)]
pub enum Reply {
    Found(Option<String>),
    Asked(Asked),
    /// It was logged, shown or pruned.
    Noted,
    File(bool),
    Release(Result<Release, String>),
    Changed(Result<(), String>),
}

/// Where the search stands.
#[derive(Debug, PartialEq, Eq)]
pub enum Search {
    Which,
    AskVersion { path: String },
    Accept { path: String, log: String },
    Reject { log: String, status: String },
    LookForCached { path: String },
    FetchRelease,
    LookForBinary { path: String, dir: String, url: String, zip: bool },
    Download { path: String, dir: String, url: String, zip: bool },
    MakeExecutable { path: String, dir: String },
    Prune { path: String, dir: String },
    Done(Result<String, String>),
}

/// A search, mathematically.
#[verifier::ext_equal]
pub enum SearchView {
    Which,
    AskVersion { path: Seq<char> },
    Accept { path: Seq<char>, log: Seq<char> },
    Reject { log: Seq<char>, status: Seq<char> },
    LookForCached { path: Seq<char> },
    FetchRelease,
    LookForBinary { path: Seq<char>, dir: Seq<char>, url: Seq<char>, zip: bool },
    Download { path: Seq<char>, dir: Seq<char>, url: Seq<char>, zip: bool },
    MakeExecutable { path: Seq<char>, dir: Seq<char> },
    Prune { path: Seq<char>, dir: Seq<char> },
    Done(Result<Seq<char>, Seq<char>>),
}

impl View for Search {
    type V = SearchView;

    open spec fn view(&self) -> SearchView {
        match *self {
            Search::Which => SearchView::Which,
            Search::AskVersion { path } => SearchView::AskVersion { path: path@ },
            Search::Accept { path, log } => SearchView::Accept { path: path@, log: log@ },
            Search::Reject { log, status } => SearchView::Reject { log: log@, status: status@ },
            Search::LookForCached { path } => SearchView::LookForCached { path: path@ },
            Search::FetchRelease => SearchView::FetchRelease,
            Search::LookForBinary { path, dir, url, zip } => SearchView::LookForBinary {
                path: path@,
                dir: dir@,
                url: url@,
                zip,
            },
            Search::Download { path, dir, url, zip } => SearchView::Download {
                path: path@,
                dir: dir@,
                url: url@,
                zip,
            },
            Search::MakeExecutable { path, dir } => SearchView::MakeExecutable {
                path: path@,
                dir: dir@,
            },
            Search::Prune { path, dir } => SearchView::Prune { path: path@, dir: dir@ },
            Search::Done(r) => SearchView::Done(result_view(r)),
        }
    }
}

/// What the search goes by: the binary it ended on last time, and the platform.
#[derive(Debug, PartialEq, Eq)]
pub struct Host {
    pub cached: Option<String>,
    pub os: HostOs,
    pub arch: HostArch,
}

pub open spec fn accepted_text(path: Seq<char>, v: (u32, u32, u32)) -> Seq<char> {
    "pypilot: using "@ + path + " on $PATH (version "@ + dotted(v) + ")"@
}

pub open spec fn ignored_text(path: Seq<char>, why: Seq<char>) -> Seq<char> {
    "pypilot: ignoring "@ + path + " on $PATH ("@ + why + "); downloading a managed copy instead"@
}

pub open spec fn rejected_text(path: Seq<char>, why: Seq<char>) -> Seq<char> {
    "pypilot on $PATH at "@ + path + " was rejected ("@ + why
        + "); downloading a managed copy instead"@
}

pub open spec fn no_asset(name: Seq<char>, version: Seq<char>) -> Seq<char> {
    "no PyPilot helper asset named `"@ + name + "` in release "@ + version
}

/// Where the search goes when `$PATH` gave nothing.
pub open spec fn without_path(host: Host) -> SearchView {
    match host.cached {
        Some(path) => SearchView::LookForCached { path: path@ },
        None => SearchView::FetchRelease,
    }
}

/// Where the search goes with the latest release at hand.
pub open spec fn with_release(host: Host, release: Release) -> SearchView {
    match slug_of(host.os, host.arch) {
        None => SearchView::Done(Err(unsupported(host.os, host.arch))),
        Some(slug) => {
            let windows = host.os == HostOs::Windows;
            let name = asset_file(slug, windows);
            match asset_url(release.assets@, name) {
                None => SearchView::Done(Err(no_asset(name, release.version@))),
                Some(url) => {
                    let dir = "pypilot-"@ + release.version@;
                    SearchView::LookForBinary {
                        path: dir + "/"@ + binary_in(windows),
                        dir,
                        url,
                        zip: windows,
                    }
                },
            }
        },
    }
}

/// The search after a reply. A reply that does not answer changes nothing.
pub open spec fn after(s: SearchView, reply: Reply, host: Host) -> SearchView {
    match (s, reply) {
        (SearchView::Which, Reply::Found(found)) => match found {
            Some(path) => SearchView::AskVersion { path: path@ },
            None => without_path(host),
        },
        (SearchView::AskVersion { path }, Reply::Asked(asked)) => match verdict(
            path,
            asked_view(asked),
        ) {
            Ok(v) => SearchView::Accept { path, log: accepted_text(path, v) },
            Err(why) => SearchView::Reject {
                log: ignored_text(path, why),
                status: rejected_text(path, why),
            },
        },
        (SearchView::Accept { path, log }, Reply::Noted) => SearchView::Done(Ok(path)),
        (SearchView::Reject { .. }, Reply::Noted) => without_path(host),
        (SearchView::LookForCached { path }, Reply::File(there)) => if there {
            SearchView::Done(Ok(path))
        } else {
            SearchView::FetchRelease
        },
        (SearchView::FetchRelease, Reply::Release(Ok(release))) => with_release(host, release),
        (SearchView::FetchRelease, Reply::Release(Err(e))) => SearchView::Done(Err(e@)),
        (SearchView::LookForBinary { path, dir, url, zip }, Reply::File(there)) => if there {
            SearchView::Done(Ok(path))
        } else {
            SearchView::Download { path, dir, url, zip }
        },
        (SearchView::Download { path, dir, url, zip }, Reply::Changed(changed)) => match changed {
            Ok(_) => SearchView::MakeExecutable { path, dir },
            Err(e) => SearchView::Done(Err("failed to download PyPilot helper: "@ + e@)),
        },
        (SearchView::MakeExecutable { path, dir }, Reply::Changed(changed)) => match changed {
            Ok(_) => SearchView::Prune { path, dir },
            Err(e) => SearchView::Done(Err("failed to mark helper executable: "@ + e@)),
        },
        (SearchView::Prune { path, dir }, Reply::Noted) => SearchView::Done(Ok(path)),
        _ => s,
    }
}

/// The action a search waits on.
pub open spec fn action_of(s: SearchView) -> ActionView {
    match s {
        SearchView::Which => ActionView::Which,
        SearchView::AskVersion { path } => ActionView::AskVersion(path),
        SearchView::Accept { path, log } => ActionView::Log(log),
        SearchView::Reject { log, status } => ActionView::Reject { log, status },
        SearchView::LookForCached { path } => ActionView::LookFor(path),
        SearchView::FetchRelease => ActionView::FetchRelease,
        SearchView::LookForBinary { path, dir, url, zip } => ActionView::LookFor(path),
        SearchView::Download { path, dir, url, zip } => ActionView::Download { url, dir, zip },
        SearchView::MakeExecutable { path, dir } => ActionView::MakeExecutable(path),
        SearchView::Prune { path, dir } => ActionView::Prune(dir),
        SearchView::Done(r) => ActionView::Done(r),
    }
}

fn after_path(host: &Host) -> (r: Search)
    ensures
        r@ == without_path(*host),
{
    match &host.cached {
        Some(path) => Search::LookForCached { path: path.clone() },
        None => Search::FetchRelease,
    }
}

fn after_release(host: &Host, release: &Release) -> (r: Search)
    ensures
        r@ == with_release(*host, *release),
{
    let spec = match AssetSpec::for_platform(host.os, host.arch) {
        Ok(spec) => spec,
        Err(e) => return Search::Done(Err(e)),
    };
    let name = spec.file_name();
    match find_asset(&release.assets, name.as_str()) {
        Some(url) => {
            let mut dir = "pypilot-".to_string();
            dir.append(release.version.as_str());
            let mut path = dir.clone();
            path.append("/");
            path.append(spec.binary_name());
            Search::LookForBinary { path, dir, url, zip: spec.windows }
        },
        None => {
            let mut e = "no PyPilot helper asset named `".to_string();
            e.append(name.as_str());
            e.append("` in release ");
            e.append(release.version.as_str());
            Search::Done(Err(e))
        },
    }
}

fn judge(path: String, asked: &Asked) -> (r: Search)
    ensures
        r@ == match verdict(path@, asked_view(*asked)) {
            Ok(v) => SearchView::Accept { path: path@, log: accepted_text(path@, v) },
            Err(why) => SearchView::Reject {
                log: ignored_text(path@, why),
                status: rejected_text(path@, why),
            },
        },
{
    match check_helper_version(path.as_str(), asked) {
        Ok(v) => {
            let mut log = "pypilot: using ".to_string();
            log.append(path.as_str());
            log.append(" on $PATH (version ");
            log.append(show_version(v).as_str());
            log.append(")");
            Search::Accept { path, log }
        },
        Err(why) => {
            let mut log = "pypilot: ignoring ".to_string();
            log.append(path.as_str());
            log.append(" on $PATH (");
            log.append(why.as_str());
            log.append("); downloading a managed copy instead");
            let mut status = "pypilot on $PATH at ".to_string();
            status.append(path.as_str());
            status.append(" was rejected (");
            status.append(why.as_str());
            status.append("); downloading a managed copy instead");
            Search::Reject { log, status }
        },
    }
}

impl Search {
    pub fn start() -> (r: Search)
        ensures
            r@ == SearchView::Which,
    {
        Search::Which
    }

    /// The action to perform next.
    pub fn next_action(&self) -> (r: Action)
        ensures
            r@ == action_of(self@),
    {
        match self {
            Search::Which => Action::Which,
            Search::AskVersion { path } => Action::AskVersion(path.clone()),
            Search::Accept { path: _, log } => Action::Log(log.clone()),
            Search::Reject { log, status } => Action::Reject {
                log: log.clone(),
                status: status.clone(),
            },
            Search::LookForCached { path } => Action::LookFor(path.clone()),
            Search::FetchRelease => Action::FetchRelease,
            Search::LookForBinary { path, dir: _, url: _, zip: _ } => Action::LookFor(
                path.clone(),
            ),
            Search::Download { path: _, dir, url, zip } => Action::Download {
                url: url.clone(),
                dir: dir.clone(),
                zip: *zip,
            },
            Search::MakeExecutable { path, dir: _ } => Action::MakeExecutable(path.clone()),
            Search::Prune { path: _, dir } => Action::Prune(dir.clone()),
            Search::Done(r) => Action::Done(
                match r {
                    Ok(path) => Ok(path.clone()),
                    Err(e) => Err(e.clone()),
                },
            ),
        }
    }

    /// Take in what came of the action.
    pub fn advance(self, reply: Reply, host: &Host) -> (r: Search)
        ensures
            r@ == after(self@, reply, *host),
    {
        match (self, reply) {
            (Search::Which, Reply::Found(found)) => match found {
                Some(path) => Search::AskVersion { path },
                None => after_path(host),
            },
            (Search::AskVersion { path }, Reply::Asked(asked)) => judge(path, &asked),
            (Search::Accept { path, log: _ }, Reply::Noted) => Search::Done(Ok(path)),
            (Search::Reject { log: _, status: _ }, Reply::Noted) => after_path(host),
            (Search::LookForCached { path }, Reply::File(there)) => if there {
                Search::Done(Ok(path))
            } else {
                Search::FetchRelease
            },
            (Search::FetchRelease, Reply::Release(result)) => match result {
                Ok(release) => after_release(host, &release),
                Err(e) => Search::Done(Err(e)),
            },
            (Search::LookForBinary { path, dir, url, zip }, Reply::File(there)) => if there {
                Search::Done(Ok(path))
            } else {
                Search::Download { path, dir, url, zip }
            },
            (Search::Download { path, dir, url: _, zip: _ }, Reply::Changed(changed)) => {
                match changed {
                    Ok(_) => Search::MakeExecutable { path, dir },
                    Err(e) => {
                        let mut why = "failed to download PyPilot helper: ".to_string();
                        why.append(e.as_str());
                        Search::Done(Err(why))
                    },
                }
            },
            (Search::MakeExecutable { path, dir }, Reply::Changed(changed)) => match changed {
                Ok(_) => Search::Prune { path, dir },
                Err(e) => {
                    let mut why = "failed to mark helper executable: ".to_string();
                    why.append(e.as_str());
                    Search::Done(Err(why))
                },
            },
            (Search::Prune { path, dir: _ }, Reply::Noted) => Search::Done(Ok(path)),
            (s, _) => s,
        }
    }
}

/// Old versions are pruned only once the new one is in place and executable.
pub proof fn pruning_comes_last(s: SearchView, reply: Reply, host: Host)
    requires
        !(s is Prune),
        after(s, reply, host) is Prune,
    ensures
        s is MakeExecutable,
        reply matches Reply::Changed(c) && c is Ok,
{
}

/// Versions compare part by part, and of two different ones exactly one is earlier.
pub proof fn versions_compare_part_by_part(a: (u32, u32, u32), b: (u32, u32, u32))
    ensures
        a.0 < b.0 ==> earlier(a, b),
        a.0 == b.0 && a.1 < b.1 ==> earlier(a, b),
        a.0 == b.0 && a.1 == b.1 && a.2 < b.2 ==> earlier(a, b),
        !(earlier(a, b) && earlier(b, a)),
        !earlier(a, b) && !earlier(b, a) ==> a == b,
        !earlier(a, a),
{
}

/// A helper says its version behind its name.
pub proof fn helpers_say_their_version(v: (u32, u32, u32))
    ensures
        helper_version("pypilot "@ + dotted(v)) == Some(v),
{
    reveal_strlit("pypilot ");
    reveal_strlit(".");
    let s = "pypilot "@ + dotted(v);
    assert(s.take(8) =~= "pypilot "@);
    assert(s.skip(8) =~= dotted(v));
    let a = text::decimal_spec(v.0 as nat);
    let b = text::decimal_spec(v.1 as nat);
    let c = text::decimal_spec(v.2 as nat);
    text::numbers_read_back(v.0 as nat, u32::MAX as nat);
    text::numbers_read_back(v.1 as nat, u32::MAX as nat);
    text::numbers_read_back(v.2 as nat, u32::MAX as nat);
    let parts = seq![a, b, c];
    assert forall|i: int| 0 <= i < parts.len() implies !(#[trigger] parts[i]).contains('.') by {
        if parts[i].contains('.') {
            let k = choose|k: int| 0 <= k < parts[i].len() && parts[i][k] == '.';
            assert(text::is_digit(parts[i][k]));
        }
    }
    text::pieces_read_back(parts, '.');
    assert(dotted(v) =~= text::join_spec(parts, seq!['.'])) by {
        assert(parts.drop_last() =~= seq![a, b]);
        assert(parts.drop_last().drop_last() =~= seq![a]);
        assert(text::join_spec(seq![a], seq!['.']) == a);
        assert(text::join_spec(seq![a, b], seq!['.']) == a + seq!['.'] + b);
        assert(text::join_spec(parts, seq!['.']) == a + seq!['.'] + b + seq!['.'] + c);
    }
}

/// A helper on the path is used where it says a version that is not too old, and is passed
/// over, with a word on it, where it does not.
pub proof fn the_helper_on_the_path_comes_first(
    host: Host,
    path: String,
    v: (u32, u32, u32),
    stdout: String,
)
    requires
        stdout@ == "pypilot "@ + dotted(v),
    ensures
        ({
            let asked = after(SearchView::Which, Reply::Found(Some(path)), host);
            let told = after(asked, Reply::Asked(Ok((Some(0i32), stdout))), host);
            let failed = after(asked, Reply::Asked(Ok((Some(1i32), stdout))), host);
            &&& action_of(asked) == ActionView::AskVersion(path@)
            &&& v.0 > 0 || v.1 >= 1 ==> told is Accept && after(told, Reply::Noted, host)
                == SearchView::Done(Ok(path@))
            &&& v.0 == 0 && v.1 == 0 ==> told is Reject
            &&& failed is Reject
            &&& told is Reject ==> after(told, Reply::Noted, host) == after(
                SearchView::Which,
                Reply::Found(None),
                host,
            )
        }),
{
    reveal_strlit("pypilot ");
    reveal_strlit(".");
    let s = stdout@;
    let c = text::decimal_spec(v.2 as nat);
    text::numbers_read_back(v.2 as nat, u32::MAX as nat);
    assert(s.last() == c[c.len() - 1]);
    assert(text::is_digit(c[c.len() - 1]));
    assert(s[0] == 'p');
    text::lemma_trimmed(s);
    helpers_say_their_version(v);
}

/// Without a helper on the path: the one downloaded before is used where it is still there,
/// and else the latest release is asked for.
pub proof fn the_cached_helper_comes_second(host: Host)
    ensures
        ({
            let s = after(SearchView::Which, Reply::Found(None), host);
            match host.cached {
                Some(path) => action_of(s) == ActionView::LookFor(path@) && after(
                    s,
                    Reply::File(true),
                    host,
                ) == SearchView::Done(Ok(path@)) && action_of(after(s, Reply::File(false), host))
                    == ActionView::FetchRelease,
                None => action_of(s) == ActionView::FetchRelease,
            }
        }),
{
}

/// The asset of a release is that of the machine: a zip on Windows, a tarball elsewhere,
/// under the name of its system and architecture.
pub proof fn assets_are_those_of_the_machine(host: Host, release: Release, i: int)
    requires
        0 <= i < release.assets@.len(),
        release.assets@[i].0@ == (match (host.os, host.arch) {
            (HostOs::Linux, HostArch::X8664) => "pypilot-"@ + "linux-x64"@ + ".tar.gz"@,
            (HostOs::Mac, HostArch::X8664) => "pypilot-"@ + "darwin-x64"@ + ".tar.gz"@,
            (HostOs::Mac, HostArch::Aarch64) => "pypilot-"@ + "darwin-arm64"@ + ".tar.gz"@,
            (HostOs::Windows, HostArch::X8664) => "pypilot-"@ + "windows-x64"@ + ".zip"@,
            _ => seq![],
        }),
        forall|j: int|
            0 <= j < i ==> (#[trigger] release.assets@[j]).0@ != release.assets@[i].0@,
    ensures
        ({
            let s = after(SearchView::FetchRelease, Reply::Release(Ok(release)), host);
            let windows = host.os == HostOs::Windows;
            let known = match (host.os, host.arch) {
                (HostOs::Linux, HostArch::X8664) => true,
                (HostOs::Mac, HostArch::X8664) => true,
                (HostOs::Mac, HostArch::Aarch64) => true,
                (HostOs::Windows, HostArch::X8664) => true,
                _ => false,
            };
            let dir = "pypilot-"@ + release.version@;
            let path = dir + "/"@ + (if windows {
                "pypilot.exe"@
            } else {
                "pypilot"@
            });
            &&& known ==> action_of(s) == ActionView::LookFor(path)
            &&& known ==> action_of(after(s, Reply::File(false), host)) == (ActionView::Download {
                url: release.assets@[i].1@,
                dir,
                zip: windows,
            })
            &&& !known ==> action_of(s) is Done && action_of(s)->Done_0 is Err
        }),
{
    lemma_asset_at(release.assets@, release.assets@[i].0@, i);
}

proof fn lemma_asset_at(assets: Seq<(String, String)>, name: Seq<char>, i: int)
    requires
        0 <= i < assets.len(),
        assets[i].0@ == name,
        forall|j: int| 0 <= j < i ==> (#[trigger] assets[j]).0@ != name,
    ensures
        asset_url(assets, name) == Some(assets[i].1@),
    decreases assets.len(),
{
    if i > 0 {
        assert(assets[0].0@ != name);
        let rest = assets.drop_first();
        assert forall|j: int| 0 <= j < i - 1 implies (#[trigger] rest[j]).0@ != name by {
            assert(rest[j] == assets[j + 1]);
        }
        assert(rest[i - 1] == assets[i]);
        lemma_asset_at(rest, name, i - 1);
    }
}

} // verus!
