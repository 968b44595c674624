//! What is already installed in a project's virtualenv.
//!
//! Read off the names of the `.dist-info` directories rather than by running
//! `pip list`: this is consulted on every pause in typing, and it also works
//! when the venv has no pip in it, which is the normal case for environments uv
//! creates.

use vstd::prelude::*;

use crate::engine::project::{normalize_name, normalized};
use crate::names::NameSet;
use crate::text;

verus! {

/// Packages present in a virtualenv, normalized per PEP 503.
#[derive(Debug, PartialEq, Eq)]
pub struct Installed {
    pub packages: NameSet,
    /// Installed version per package, when the metadata directory records one,
    /// in the order the directories were read. A later one replaces an earlier.
    pub versions: Vec<(String, String)>,
}

impl Default for Installed {
    fn default() -> (r: Installed)
        ensures
            r.packages@ == Set::<Seq<char>>::empty(),
            r.versions@.len() == 0,
    {
        Installed { packages: NameSet::new(), versions: Vec::new() }
    }
}

/// The version recorded last under a name.
pub open spec fn recorded(versions: Seq<(String, String)>, name: Seq<char>) -> Option<Seq<char>>
    decreases versions.len(),
{
    if versions.len() == 0 {
        None
    } else if versions.last().0@ == name {
        Some(versions.last().1@)
    } else {
        recorded(versions.drop_last(), name)
    }
}

impl Installed {
    /// Is this distribution installed? `name` is normalized before comparison.
    pub fn contains(&self, name: &str) -> (r: bool)
        ensures
            r == self.packages@.contains(normalized(name@)),
    {
        self.packages.contains(normalize_name(name).as_str())
    }

    pub fn count(&self) -> (r: usize)
        ensures
            r == self.packages@.len(),
    {
        self.packages.len()
    }

    /// The installed version of a distribution, if known.
    pub fn version_of(&self, name: &str) -> (r: Option<String>)
        ensures
            text::opt_text(r) == recorded(self.versions@, normalized(name@)),
    {
        let wanted = normalize_name(name);
        let mut i: usize = self.versions.len();
        proof {
            assert(self.versions@.take(i as int) =~= self.versions@);
        }
        while i > 0
            invariant
                i <= self.versions@.len(),
                wanted@ == normalized(name@),
                recorded(self.versions@, wanted@) == recorded(
                    self.versions@.take(i as int),
                    wanted@,
                ),
            decreases i,
        {
            proof {
                let seen = self.versions@.take(i as int);
                assert(seen.drop_last() =~= self.versions@.take(i - 1));
                assert(seen.last() == self.versions@[i - 1]);
            }
            if text::same(self.versions[i - 1].0.as_str(), wanted.as_str()) {
                return Some(self.versions[i - 1].1.clone());
            }
            i -= 1;
        }
        None
    }
}

/// The name of a metadata directory without its suffix.
pub open spec fn metadata_stem(entry: Seq<char>) -> Option<Seq<char>> {
    if text::ends(entry, ".dist-info"@) {
        Some(entry.take(entry.len() - ".dist-info"@.len()))
    } else if text::ends(entry, ".egg-info"@) {
        Some(entry.take(entry.len() - ".egg-info"@.len()))
    } else {
        None
    }
}

/// The distribution an entry of `site-packages` is the metadata of.
pub open spec fn distribution_of(entry: Seq<char>) -> Option<Seq<char>> {
    match metadata_stem(entry) {
        Some(stem) => {
            let dash = text::first_index(stem, text::eq_char('-'));
            if dash == 0 {
                None
            } else {
                Some(normalized(stem.take(dash)))
            }
        },
        None => None,
    }
}

/// The version in the name of a metadata directory.
pub open spec fn version_in(entry: Seq<char>) -> Option<Seq<char>> {
    match metadata_stem(entry) {
        Some(stem) => {
            let dash = text::first_index(stem, text::eq_char('-'));
            if dash + 1 < stem.len() {
                Some(stem.skip(dash + 1))
            } else {
                None
            }
        },
        None => None,
    }
}

fn stem_of<'a>(entry: &'a str) -> (r: Option<&'a str>)
    ensures
        text::opt_str(r) == metadata_stem(entry@),
{
    match text::strip_suffix(entry, ".dist-info") {
        Some(stem) => Some(stem),
        None => text::strip_suffix(entry, ".egg-info"),
    }
}

/// The version out of a `.dist-info` directory name, if it has one.
pub fn distribution_version(entry: &str) -> (r: Option<String>)
    ensures
        text::opt_text(r) == version_in(entry@),
{
    let stem = match stem_of(entry) {
        Some(stem) => stem,
        None => return None,
    };
    let dash = text::index_of(stem, '-');
    let len = stem.unicode_len();
    if dash < len && dash + 1 < len {
        Some(text::after(stem, dash + 1).to_string())
    } else {
        None
    }
}

/// Pull the distribution name out of a `.dist-info` or `.egg-info` directory.
///
/// `charset_normalizer-3.3.2.dist-info` gives `charset-normalizer`.
pub fn distribution_name(entry: &str) -> (r: Option<String>)
    ensures
        text::opt_text(r) == distribution_of(entry@),
{
    let stem = match stem_of(entry) {
        Some(stem) => stem,
        None => return None,
    };
    let dash = text::index_of(stem, '-');
    if dash == 0 {
        return None;
    }
    Some(normalize_name(text::before(stem, dash)))
}

/// The distributions the first `n` entries are the metadata of.
pub open spec fn distributions(entries: Seq<Seq<char>>, n: int) -> Set<Seq<char>>
    decreases n,
{
    if n <= 0 {
        Set::empty()
    } else {
        match distribution_of(entries[n - 1]) {
            Some(name) => distributions(entries, n - 1).insert(name),
            None => distributions(entries, n - 1),
        }
    }
}

/// The version the first `n` entries give a distribution: that of the last entry
/// that gives one.
pub open spec fn version_given(
    entries: Seq<Seq<char>>,
    n: int,
    name: Seq<char>,
) -> Option<Seq<char>>
    decreases n,
{
    if n <= 0 {
        None
    } else if distribution_of(entries[n - 1]) == Some(name) && version_in(entries[n - 1]) is Some {
        version_in(entries[n - 1])
    } else {
        version_given(entries, n - 1, name)
    }
}

/// Read the installed distributions off the entries of the venv's
/// `site-packages` directories.
///
/// A venv that is missing or unreadable has no entries, which is the same as
/// nothing installed.
pub fn scan(entries: &[String]) -> (r: Installed)
    ensures
        r.packages@ == distributions(text::texts(entries@), entries@.len() as int),
        forall|name: Seq<char>| #[trigger]
            recorded(r.versions@, name) == version_given(
                text::texts(entries@),
                entries@.len() as int,
                name,
            ),
{
    let ghost all = text::texts(entries@);
    let mut packages = NameSet::new();
    let mut versions: Vec<(String, String)> = Vec::new();
    let mut i: usize = 0;
    while i < entries.len()
        invariant
            i <= entries@.len(),
            all == text::texts(entries@),
            packages@ == distributions(all, i as int),
            forall|name: Seq<char>| #[trigger]
                recorded(versions@, name) == version_given(all, i as int, name),
        decreases entries@.len() - i,
    {
        let entry = entries[i].as_str();
        proof {
            assert(all[i as int] == entry@);
        }
        let ghost before = versions@;
        if let Some(dist) = distribution_name(entry) {
            packages.insert(dist.as_str());
            if let Some(version) = distribution_version(entry) {
                versions.push((dist, version));
            }
        }
        proof {
            assert forall|name: Seq<char>| #[trigger]
                recorded(versions@, name) == version_given(all, i as int + 1, name) by {
                assert(recorded(before, name) == version_given(all, i as int, name));
                if versions@.len() > before.len() {
                    assert(versions@.drop_last() =~= before);
                }
            }
        }
        i += 1;
    }
    Installed { packages, versions }
}

/// The `site-packages` locations of a venv, relative to it.
pub open spec fn site_packages(windows: bool, lib: Seq<Seq<char>>) -> Seq<Seq<char>> {
    let posix = Seq::new(lib.len(), |i: int| "lib/"@ + lib[i] + "/site-packages"@);
    if windows {
        seq!["Lib/site-packages"@] + posix
    } else {
        posix
    }
}

/// The `site-packages` locations of a venv, relative to it, across platforms.
///
/// Windows uses `Lib/site-packages`, and `windows` says whether that is there.
/// POSIX nests under a version directory that is discovered rather than guessed:
/// `lib` names the entries of `lib` that hold a `site-packages` directory.
pub fn site_packages_dirs(windows: bool, lib: &[String]) -> (r: Vec<String>)
    ensures
        text::texts(r@) == site_packages(windows, text::texts(lib@)),
{
    let mut dirs: Vec<String> = Vec::new();
    if windows {
        dirs.push("Lib/site-packages".to_string());
    }
    let ghost posix = Seq::new(
        lib@.len(),
        |i: int| "lib/"@ + text::texts(lib@)[i] + "/site-packages"@,
    );
    let ghost first = text::texts(dirs@);
    let mut i: usize = 0;
    proof {
        assert(first + posix.take(0) =~= first);
        assert(first =~= if windows {
            seq!["Lib/site-packages"@]
        } else {
            Seq::<Seq<char>>::empty()
        });
    }
    while i < lib.len()
        invariant
            i <= lib@.len(),
            posix == Seq::new(
                lib@.len(),
                |i: int| "lib/"@ + text::texts(lib@)[i] + "/site-packages"@,
            ),
            text::texts(dirs@) == first + posix.take(i as int),
        decreases lib@.len() - i,
    {
        let mut dir = "lib/".to_string();
        dir.append(lib[i].as_str());
        dir.append("/site-packages");
        proof {
            assert(text::texts(lib@)[i as int] == lib@[i as int]@);
            text::lemma_texts_push(dirs@, dir);
            assert((first + posix.take(i as int)).push(posix[i as int]) =~= first + posix.take(
                i as int + 1,
            ));
        }
        dirs.push(dir);
        i += 1;
    }
    proof {
        assert(posix.take(i as int) =~= posix);
        assert(first + posix =~= site_packages(windows, text::texts(lib@)));
    }
    dirs
}

/// A distribution is told by the name of its metadata directory: the name before the
/// first dash, the version behind it, whichever kind of directory it is.
pub proof fn distributions_are_told_by_their_directory(
    name: Seq<char>,
    version: Seq<char>,
    ending: Seq<char>,
)
    requires
        name.len() > 0,
        !name.contains('-'),
        version.len() > 0,
        ending == ".dist-info"@ || ending == ".egg-info"@,
    ensures
        distribution_of(name + "-"@ + version + ending) == Some(normalized(name)),
        version_in(name + "-"@ + version + ending) == Some(version),
        distribution_of(name + ending) == Some(normalized(name)),
        version_in(name + ending) is None,
{
    reveal_strlit(".dist-info");
    reveal_strlit(".egg-info");
    reveal_strlit("-");
    let stem = name + "-"@ + version;
    lemma_stem(stem, ending);
    lemma_stem(name, ending);
    let n = name.len() as int;
    assert forall|j: int| 0 <= j < n implies !text::eq_char('-')(#[trigger] stem[j])
        && !text::eq_char('-')(name[j]) by {
        assert(stem[j] == name[j]);
        assert(name.contains(name[j]));
    }
    assert(stem[n] == '-');
    text::lemma_first_index_is(stem, text::eq_char('-'), n);
    text::lemma_first_index_is(name, text::eq_char('-'), n);
    assert(stem.take(n) =~= name);
    assert(name.take(n) =~= name);
    assert(stem.skip(n + 1) =~= version);
}

proof fn lemma_stem(stem: Seq<char>, ending: Seq<char>)
    requires
        ending == ".dist-info"@ || ending == ".egg-info"@,
    ensures
        metadata_stem(stem + ending) == Some(stem),
{
    reveal_strlit(".dist-info");
    reveal_strlit(".egg-info");
    let s = stem + ending;
    let n = stem.len() as int;
    assert(s.skip(n) =~= ending);
    assert(s.take(n) =~= stem);
    if ending == ".egg-info"@ && text::ends(s, ".dist-info"@) {
        let t = s.skip(s.len() - 10);
        assert(t[4] == s[s.len() - 6]);
        assert(ending[3] == s[s.len() - 6]);
    }
}

/// Other directories hold no distribution.
pub proof fn other_directories_hold_no_distribution(entry: Seq<char>)
    requires
        !".dist-info"@.is_suffix_of(entry),
        !".egg-info"@.is_suffix_of(entry),
    ensures
        distribution_of(entry) is None,
        version_in(entry) is None,
{
    reveal_strlit(".dist-info");
    reveal_strlit(".egg-info");
    let n = entry.len() as int;
    if text::ends(entry, ".dist-info"@) {
        assert(entry.subrange(n - 10, n) =~= entry.skip(n - 10));
    }
    if text::ends(entry, ".egg-info"@) {
        assert(entry.subrange(n - 9, n) =~= entry.skip(n - 9));
    }
}

/// What is installed is what some entry is the metadata of, and its version is the one
/// that the last such entry gives.
pub proof fn every_distribution_is_listed(entries: Seq<Seq<char>>, n: int, name: Seq<char>)
    requires
        0 <= n <= entries.len(),
    ensures
        distributions(entries, n).contains(name) <==> exists|i: int|
            0 <= i < n && distribution_of(#[trigger] entries[i]) == Some(name),
        match version_given(entries, n, name) {
            Some(v) => exists|i: int|
                0 <= i < n && distribution_of(#[trigger] entries[i]) == Some(name) && version_in(
                    entries[i],
                ) == Some(v) && forall|j: int|
                    i < j < n && distribution_of(#[trigger] entries[j]) == Some(name)
                        ==> version_in(entries[j]) is None,
            None => forall|i: int|
                0 <= i < n && distribution_of(#[trigger] entries[i]) == Some(name) ==> version_in(
                    entries[i],
                ) is None,
        },
    decreases n,
{
    if n > 0 {
        every_distribution_is_listed(entries, n - 1, name);
        if distribution_of(entries[n - 1]) == Some(name) {
            assert(distribution_of(entries[n - 1]) == Some(name));
        }
    }
}

/// Each interpreter's library directory has its packages beneath it, and on Windows the
/// environment's own comes first.
pub proof fn packages_stand_beneath_each_library(windows: bool, lib: Seq<Seq<char>>, i: int)
    requires
        0 <= i < lib.len(),
    ensures
        site_packages(windows, lib).len() == lib.len() + (if windows {
            1nat
        } else {
            0nat
        }),
        site_packages(windows, lib)[i + (if windows {
            1int
        } else {
            0int
        })] == "lib/"@ + lib[i] + "/site-packages"@,
        windows ==> site_packages(windows, lib)[0] == "Lib/site-packages"@,
{
}

/// The version recorded of a distribution is that of its last entry, and none is
/// recorded of one that has no entry.
pub proof fn the_last_record_of_a_version_counts(
    versions: Seq<(String, String)>,
    name: Seq<char>,
    i: int,
)
    requires
        -1 <= i < versions.len(),
        forall|j: int| i < j < versions.len() ==> (#[trigger] versions[j]).0@ != name,
        i >= 0 ==> versions[i].0@ == name,
    ensures
        i >= 0 ==> recorded(versions, name) == Some(versions[i].1@),
        i == -1 ==> recorded(versions, name) is None,
    decreases versions.len(),
{
    if versions.len() > 0 && i < versions.len() - 1 {
        assert(versions[versions.len() - 1].0@ != name);
        let before = versions.drop_last();
        assert forall|j: int| i < j < before.len() implies (#[trigger] before[j]).0@ != name by {
            assert(before[j] == versions[j]);
        }
        the_last_record_of_a_version_counts(before, name, i);
    }
}

} // verus!
