//! The uv driver: which uv to use, and the commands it is given.
//!
//! uv is never installed system-wide. In pip mode this module is inert:
//! [`detect`] finds nothing and [`ensure`] refuses.

use vstd::prelude::*;

use crate::engine::command::{Invocation, InvocationView};
use crate::engine::platform::{triple, Os, Platform};
use crate::pypi::pyversion::{version_text, PyVersion};
use crate::settings::PackageManager;
use crate::text;

verus! {

/// A usable uv binary.
#[derive(Debug, PartialEq, Eq)]
pub struct UvInfo {
    pub path: String,
    pub version: String,
    /// True when this is the PyPilot-managed copy (vs. one found on `$PATH`).
    pub managed: bool,
}

/// A usable uv, mathematically.
#[verifier::ext_equal]
pub struct UvInfoView {
    pub path: Seq<char>,
    pub version: Seq<char>,
    pub managed: bool,
}

impl View for UvInfo {
    type V = UvInfoView;

    open spec fn view(&self) -> UvInfoView {
        UvInfoView { path: self.path@, version: self.version@, managed: self.managed }
    }
}

impl Clone for UvInfo {
    fn clone(&self) -> (r: UvInfo)
        ensures
            r == *self,
    {
        UvInfo {
            path: self.path.clone(),
            version: self.version.clone(),
            managed: self.managed,
        }
    }
}

pub open spec fn opt_uv(o: Option<UvInfo>) -> Option<UvInfoView> {
    match o {
        Some(info) => Some(info@),
        None => None,
    }
}

/// The version number in what `uv --version` prints.
pub open spec fn cleaned(raw: Seq<char>) -> Seq<char> {
    let t = text::trim_spec(raw);
    let word = text::first_word_spec(
        if text::starts(t, "uv"@) {
            t.skip(2)
        } else {
            raw
        },
    );
    if word.len() == 0 {
        raw
    } else {
        word
    }
}

/// "uv 0.4.20 (abc 2024-01-01)" -> "0.4.20".
pub fn clean_version(raw: &str) -> (r: String)
    ensures
        r@ == cleaned(raw@),
{
    proof {
        reveal_strlit("uv");
    }
    let base = match text::strip_prefix(text::trim(raw), "uv") {
        Some(rest) => rest,
        None => raw,
    };
    let word = text::first_word(base);
    if word.is_empty() {
        raw.to_string()
    } else {
        word.to_string()
    }
}

/// The uv to use: none in pip mode; else the managed copy where it answered,
/// else the one on the path.
pub open spec fn detected(
    manager: PackageManager,
    managed_path: Seq<char>,
    managed_version: Option<Seq<char>>,
    path_version: Option<Seq<char>>,
) -> Option<UvInfoView> {
    if manager == PackageManager::Pip {
        None
    } else {
        match (managed_version, path_version) {
            (Some(v), _) => Some(
                UvInfoView { path: managed_path, version: cleaned(v), managed: true },
            ),
            (None, Some(v)) => Some(
                UvInfoView { path: "uv"@, version: cleaned(v), managed: false },
            ),
            (None, None) => None,
        }
    }
}

/// Detect an available uv, without downloading, from what the managed copy and
/// the one on the path answered to `--version`. Returns `None` in pip mode.
pub fn detect(
    manager: PackageManager,
    managed_path: &str,
    managed_version: Option<&str>,
    path_version: Option<&str>,
) -> (r: Option<UvInfo>)
    ensures
        opt_uv(r) == detected(
            manager,
            managed_path@,
            text::opt_str(managed_version),
            text::opt_str(path_version),
        ),
{
    if manager == PackageManager::Pip {
        return None;
    }
    if let Some(v) = managed_version {
        return Some(
            UvInfo { path: managed_path.to_string(), version: clean_version(v), managed: true },
        );
    }
    if let Some(v) = path_version {
        return Some(UvInfo { path: "uv".to_string(), version: clean_version(v), managed: false });
    }
    None
}

/// What having a usable uv takes.
#[derive(Debug, PartialEq, Eq)]
pub enum Ensured {
    Ready(UvInfo),
    /// Fetch the standalone archive of this name, extract and verify it.
    Download(String),
    /// uv is not to be used; why.
    Refused(String),
}

/// Ensure a usable uv exists, downloading the managed copy if necessary.
/// Refuses in pip mode.
pub fn ensure(manager: PackageManager, found: Option<UvInfo>, platform: Platform) -> (r: Ensured)
    ensures
        match r {
            Ensured::Refused(why) => manager == PackageManager::Pip && why@
                == "uv is disabled in pip mode (package_manager = \"pip\")"@,
            Ensured::Ready(info) => manager == PackageManager::Uv && found == Some(info),
            Ensured::Download(name) => manager == PackageManager::Uv && found is None && name@
                == asset_name(platform),
        },
{
    if manager == PackageManager::Pip {
        return Ensured::Refused(
            "uv is disabled in pip mode (package_manager = \"pip\")".to_string(),
        );
    }
    match found {
        Some(info) => Ensured::Ready(info),
        None => Ensured::Download(uv_asset_name(platform)),
    }
}

/// The address of an asset of the name.
pub open spec fn address_of(asset_name: Seq<char>) -> spec_fn((String, String)) -> Option<
    Seq<char>,
> {
    |a: (String, String)|
        if a.0@ == asset_name {
            Some(a.1@)
        } else {
            None
        }
}

/// Pick an asset out of a release, by name: the address of the first that bears
/// it. The assets are pairs of a name and an address.
pub fn pick_asset(repo: &str, asset_name: &str, assets: &[(String, String)]) -> (r: Result<
    String,
    String,
>)
    ensures
        match r {
            Ok(url) => text::first_some(assets@, address_of(asset_name@)) == Some(url@),
            Err(e) => text::first_some(assets@, address_of(asset_name@)) is None && e@
                == "no asset `"@ + asset_name@ + "` in "@ + repo@ + " latest release"@,
        },
{
    let ghost f = address_of(asset_name@);
    let mut i: usize = 0;
    while i < assets.len()
        invariant
            i <= assets@.len(),
            f == address_of(asset_name@),
            forall|j: int| 0 <= j < i ==> f(#[trigger] assets@[j]) is None,
        decreases assets@.len() - i,
    {
        if text::same(assets[i].0.as_str(), asset_name) {
            proof {
                text::lemma_first_some_at(assets@, f, i as int);
            }
            return Ok(assets[i].1.clone());
        }
        i += 1;
    }
    proof {
        text::lemma_first_some_at(assets@, f, i as int);
    }
    let mut e = "no asset `".to_string();
    e.append(asset_name);
    e.append("` in ");
    e.append(repo);
    e.append(" latest release");
    Err(e)
}

pub open spec fn asset_name(p: Platform) -> Seq<char> {
    if p.os == Os::Windows {
        "uv-"@ + triple(p) + ".zip"@
    } else {
        "uv-"@ + triple(p) + ".tar.gz"@
    }
}

/// astral-sh/uv standalone asset name for a platform.
pub fn uv_asset_name(platform: Platform) -> (r: String)
    ensures
        r@ == asset_name(platform),
{
    let mut out = "uv-".to_string();
    out.append(platform.uv_triple());
    if platform.os == Os::Windows {
        out.append(".zip");
    } else {
        out.append(".tar.gz");
    }
    out
}

// ---------------------------------------------------------------------------
// Commands
// ---------------------------------------------------------------------------

/// The named index, or none.
pub open spec fn index_args(flag: Seq<char>, url: Option<Seq<char>>) -> Seq<Seq<char>> {
    match url {
        Some(url) => seq![flag, url],
        None => seq![],
    }
}

/// An argument vector, the index it names, and the packages.
pub fn with_index(start: Vec<String>, flag: &str, url: Option<&str>, packages: &Vec<String>) -> (r: Vec<
    String,
>)
    ensures
        text::texts(r@) == text::texts(start@) + index_args(flag@, text::opt_str(url))
            + text::texts(packages@),
{
    let ghost head = text::texts(start@);
    let mut args = start;
    if let Some(url) = url {
        let flag = flag.to_string();
        let url = url.to_string();
        proof {
            text::lemma_texts_push(args@, flag);
            text::lemma_texts_push(args@.push(flag), url);
            assert(head + seq![flag@, url@] =~= head.push(flag@).push(url@));
        }
        args.push(flag);
        args.push(url);
    } else {
        proof {
            assert(head + Seq::<Seq<char>>::empty() =~= head);
        }
    }
    text::extend(&mut args, packages);
    args
}

fn invocation(uv: &UvInfo, args: Vec<String>) -> (r: Invocation)
    ensures
        r@ == (InvocationView { program: uv@.path, args: text::texts(args@) }),
{
    Invocation { program: uv.path.clone(), args }
}

/// `uv python install <X.Y>`: fetch a CPython if the machine lacks it.
pub fn python_install(uv: &UvInfo, version: PyVersion) -> (r: Invocation)
    ensures
        r@ == (InvocationView {
            program: uv@.path,
            args: seq!["python"@, "install"@, version_text(version)],
        }),
{
    let v = version.to_text();
    let args = text::strings(&["python", "install", v.as_str()]);
    proof {
        assert(text::texts(args@) =~= seq!["python"@, "install"@, version_text(version)]);
    }
    invocation(uv, args)
}

pub open spec fn venv_args_spec(version: PyVersion, venv: Seq<char>) -> Seq<Seq<char>> {
    seq!["venv"@, "--clear"@, "--python"@, version_text(version), venv]
}

/// The argument vector of [`create_venv`].
pub fn venv_args(version: PyVersion, venv: &str) -> (r: Vec<String>)
    ensures
        text::texts(r@) == venv_args_spec(version, venv@),
{
    let v = version.to_text();
    let args = text::strings(&["venv", "--clear", "--python", v.as_str(), venv]);
    proof {
        assert(text::texts(args@) =~= venv_args_spec(version, venv@));
    }
    args
}

/// `uv venv --clear --python <X.Y> <path>`.
///
/// `--clear` is not optional: without it the command refuses to touch a
/// directory that already holds an environment, and replacing is what the
/// bootstrap and the rebuild both mean.
pub fn create_venv(uv: &UvInfo, version: PyVersion, venv: &str) -> (r: Invocation)
    ensures
        r@ == (InvocationView { program: uv@.path, args: venv_args_spec(version, venv@) }),
{
    invocation(uv, venv_args(version, venv))
}

/// `uv init`: scaffold a pyproject.toml.
pub fn init(uv: &UvInfo) -> (r: Invocation)
    ensures
        r@ == (InvocationView { program: uv@.path, args: seq!["init"@] }),
{
    let args = text::strings(&["init"]);
    proof {
        assert(text::texts(args@) =~= seq!["init"@]);
    }
    invocation(uv, args)
}

/// `uv sync` (pyproject/lockfile projects).
pub fn sync(uv: &UvInfo) -> (r: Invocation)
    ensures
        r@ == (InvocationView { program: uv@.path, args: seq!["sync"@] }),
{
    let args = text::strings(&["sync"]);
    proof {
        assert(text::texts(args@) =~= seq!["sync"@]);
    }
    invocation(uv, args)
}

/// `uv add <pkgs...>`: records the dependency in pyproject.toml and installs it.
pub fn add(uv: &UvInfo, packages: &Vec<String>, index_url: Option<&str>) -> (r: Invocation)
    ensures
        r@ == (InvocationView {
            program: uv@.path,
            args: seq!["add"@] + index_args("--index"@, text::opt_str(index_url)) + text::texts(
                packages@,
            ),
        }),
{
    let start = text::strings(&["add"]);
    proof {
        assert(text::texts(start@) =~= seq!["add"@]);
    }
    invocation(uv, with_index(start, "--index", index_url, packages))
}

/// `uv add -r requirements.txt`.
pub fn add_requirements(uv: &UvInfo, requirements: &str) -> (r: Invocation)
    ensures
        r@ == (InvocationView { program: uv@.path, args: seq!["add"@, "-r"@, requirements@] }),
{
    let args = text::strings(&["add", "-r", requirements]);
    proof {
        assert(text::texts(args@) =~= seq!["add"@, "-r"@, requirements@]);
    }
    invocation(uv, args)
}

/// `uv pip install <pkgs...>` into the project venv.
///
/// `index_url` overrides the default index for this call only.
pub fn pip_install(uv: &UvInfo, packages: &Vec<String>, index_url: Option<&str>) -> (r: Invocation)
    ensures
        r@ == (InvocationView {
            program: uv@.path,
            args: seq!["pip"@, "install"@] + index_args("--index-url"@, text::opt_str(index_url))
                + text::texts(packages@),
        }),
{
    let start = text::strings(&["pip", "install"]);
    proof {
        assert(text::texts(start@) =~= seq!["pip"@, "install"@]);
    }
    invocation(uv, with_index(start, "--index-url", index_url, packages))
}

/// `uv pip install -r requirements.txt`.
pub fn pip_install_requirements(uv: &UvInfo, requirements: &str) -> (r: Invocation)
    ensures
        r@ == (InvocationView {
            program: uv@.path,
            args: seq!["pip"@, "install"@, "-r"@, requirements@],
        }),
{
    let args = text::strings(&["pip", "install", "-r", requirements]);
    proof {
        assert(text::texts(args@) =~= seq!["pip"@, "install"@, "-r"@, requirements@]);
    }
    invocation(uv, args)
}

/// `uv pip freeze`.
pub fn pip_freeze(uv: &UvInfo) -> (r: Invocation)
    ensures
        r@ == (InvocationView { program: uv@.path, args: seq!["pip"@, "freeze"@] }),
{
    let args = text::strings(&["pip", "freeze"]);
    proof {
        assert(text::texts(args@) =~= seq!["pip"@, "freeze"@]);
    }
    invocation(uv, args)
}

/// `uv pip install --dry-run --system --python <X.Y> <pkgs...>`: a fast
/// resolvability check against a real interpreter, without needing a venv.
pub fn dry_run_resolve(uv: &UvInfo, version: PyVersion, packages: &Vec<String>) -> (r: Invocation)
    ensures
        r@ == (InvocationView {
            program: uv@.path,
            args: seq![
                "pip"@,
                "install"@,
                "--dry-run"@,
                "--system"@,
                "--python"@,
                version_text(version),
            ] + text::texts(packages@),
        }),
{
    let v = version.to_text();
    let mut args = text::strings(
        &["pip", "install", "--dry-run", "--system", "--python", v.as_str()],
    );
    proof {
        assert(text::texts(args@) =~= seq![
            "pip"@,
            "install"@,
            "--dry-run"@,
            "--system"@,
            "--python"@,
            version_text(version),
        ]);
    }
    text::extend(&mut args, packages);
    invocation(uv, args)
}

/// The version of uv is the word behind its name.
pub proof fn uv_says_its_version(version: Seq<char>, rest: Seq<char>)
    requires
        version.len() > 0,
        forall|i: int| 0 <= i < version.len() ==> !text::is_space(#[trigger] version[i]),
        rest.len() > 0,
        !text::is_space(rest.last()),
    ensures
        cleaned("uv "@ + version) == version,
        cleaned("uv "@ + version + " "@ + rest) == version,
{
    reveal_strlit("uv");
    reveal_strlit("uv ");
    reveal_strlit(" ");
    let a = "uv "@ + version;
    assert(version.last() == version[version.len() - 1]);
    assert(a.last() == version.last());
    text::lemma_trimmed(a);
    assert(a.take(2) =~= "uv"@);
    assert(a.skip(2) =~= seq![' '] + version);
    lemma_word_behind(version, Seq::empty());
    assert(seq![' '] + version + Seq::empty() =~= seq![' '] + version);
    let tail = " "@ + rest;
    let b = "uv "@ + version + " "@ + rest;
    assert(b.last() == rest.last());
    text::lemma_trimmed(b);
    assert(b.take(2) =~= "uv"@);
    assert(b.skip(2) =~= seq![' '] + version + tail);
    lemma_word_behind(version, tail);
}

proof fn lemma_word_behind(word: Seq<char>, tail: Seq<char>)
    requires
        word.len() > 0,
        forall|i: int| 0 <= i < word.len() ==> !text::is_space(#[trigger] word[i]),
        tail.len() > 0 ==> text::is_space(tail[0]),
    ensures
        text::first_word_spec(seq![' '] + word + tail) == word,
{
    let s = seq![' '] + word + tail;
    assert(s[1] == word[0]);
    text::lemma_first_index_is(s, text::not_space(), 1);
    let t = s.skip(1);
    assert(t =~= word + tail);
    assert forall|i: int| 0 <= i < word.len() implies !text::space()(#[trigger] t[i]) by {
        assert(t[i] == word[i]);
    }
    if tail.len() > 0 {
        assert(t[word.len() as int] == tail[0]);
    }
    text::lemma_first_index_is(t, text::space(), word.len() as int);
    assert(t.take(word.len() as int) =~= word);
}

/// Which uv is used: none in pip mode, PyPilot's own copy where it answered, else the one
/// on the path.
pub proof fn the_managed_uv_comes_first(
    managed_path: Seq<char>,
    managed: Option<Seq<char>>,
    on_path: Option<Seq<char>>,
)
    ensures
        detected(PackageManager::Pip, managed_path, managed, on_path) is None,
        managed is Some ==> detected(PackageManager::Uv, managed_path, managed, on_path) is Some
            && detected(PackageManager::Uv, managed_path, managed, on_path)->0.managed && detected(
            PackageManager::Uv,
            managed_path,
            managed,
            on_path,
        )->0.path == managed_path && detected(
            PackageManager::Uv,
            managed_path,
            managed,
            on_path,
        )->0.version == cleaned(managed->0),
        managed is None && on_path is Some ==> detected(
            PackageManager::Uv,
            managed_path,
            managed,
            on_path,
        ) == Some(
            UvInfoView { path: "uv"@, version: cleaned(on_path->0), managed: false },
        ),
        managed is None && on_path is None ==> detected(
            PackageManager::Uv,
            managed_path,
            managed,
            on_path,
        ) is None,
{
}

/// The asset picked from a release is the first that bears the name, and none is
/// picked where none bears it.
pub proof fn assets_are_picked_by_name(assets: Seq<(String, String)>, name: Seq<char>, i: int)
    requires
        0 <= i <= assets.len(),
        forall|j: int| 0 <= j < i ==> (#[trigger] assets[j]).0@ != name,
        i < assets.len() ==> assets[i].0@ == name,
    ensures
        i < assets.len() ==> text::first_some(assets, address_of(name)) == Some(assets[i].1@),
        i == assets.len() ==> text::first_some(assets, address_of(name)) is None,
{
    text::lemma_first_some_at(assets, address_of(name), i);
}

/// A venv is made anew with uv, on the version asked for and at the place named.
pub proof fn venvs_are_made_on_the_version_asked_for(version: PyVersion, venv: Seq<char>)
    ensures
        venv_args_spec(version, venv).len() == 5,
        venv_args_spec(version, venv)[0] == "venv"@,
        venv_args_spec(version, venv).contains("--clear"@),
        venv_args_spec(version, venv)[2] == "--python"@,
        venv_args_spec(version, venv)[3] == version_text(version),
        venv_args_spec(version, venv).last() == venv,
{
    assert(venv_args_spec(version, venv)[1] == "--clear"@);
}

} // verus!
