//! PyPI metadata and per-package Python-support analysis.
//!
//! Only what the analysis needs of a package document is kept: its `info`
//! block, the distribution files of that release, and the list of every
//! published version.

use vstd::prelude::*;

use crate::engine::platform::Platform;
use crate::pypi::pyversion::{
    parse_requires_python, requires_python_spec, universe_minors, PyVersionSet,
};
use crate::pypi::wheel::{wheel_minors, wheel_tags_spec, WheelTags};
use crate::text;

verus! {

/// The subset of a PyPI package document PyPilot consumes.
#[derive(Debug)]
pub struct PackageMetadata {
    pub info: Info,
    /// Distribution files for `info.version`.
    pub urls: Vec<DistFile>,
    /// Every published version, needed to resolve a pinned or capped
    /// dependency to the release an installer would actually choose.
    pub versions: Vec<String>,
}

#[derive(Debug)]
pub struct Info {
    pub name: String,
    pub version: String,
    pub requires_python: Option<String>,
}

#[derive(Debug)]
pub struct DistFile {
    pub filename: String,
    /// "bdist_wheel" | "sdist" | ...
    pub packagetype: String,
    /// Per-file `requires_python`, occasionally set independently of `info`.
    pub requires_python: Option<String>,
    pub yanked: bool,
}

/// A distribution file, mathematically.
#[verifier::ext_equal]
pub struct DistFileView {
    pub filename: Seq<char>,
    pub packagetype: Seq<char>,
    pub requires_python: Option<Seq<char>>,
    pub yanked: bool,
}

/// A package document, mathematically.
#[verifier::ext_equal]
pub struct PackageMetadataView {
    pub name: Seq<char>,
    pub version: Seq<char>,
    pub requires_python: Option<Seq<char>>,
    pub urls: Seq<DistFileView>,
    pub versions: Seq<Seq<char>>,
}

impl View for DistFile {
    type V = DistFileView;

    open spec fn view(&self) -> DistFileView {
        DistFileView {
            filename: self.filename@,
            packagetype: self.packagetype@,
            requires_python: text::opt_text(self.requires_python),
            yanked: self.yanked,
        }
    }
}

impl View for PackageMetadata {
    type V = PackageMetadataView;

    open spec fn view(&self) -> PackageMetadataView {
        PackageMetadataView {
            name: self.info.name@,
            version: self.info.version@,
            requires_python: text::opt_text(self.info.requires_python),
            urls: Seq::new(self.urls@.len(), |i: int| self.urls@[i]@),
            versions: text::texts(self.versions@),
        }
    }
}

/// Result of analyzing one package release against a platform.
#[derive(Debug, PartialEq, Eq)]
pub struct PackageAnalysis {
    pub name: String,
    pub version: String,
    /// Python minors this package can actually be installed on, here.
    pub supported: PyVersionSet,
    /// True if the package ships any wheel for this platform.
    pub has_platform_wheels: bool,
    /// True if only an sdist is available (would compile from source).
    pub sdist_only: bool,
    /// The `requires_python` string that was in effect (for messaging).
    pub requires_python: Option<String>,
}

/// A package analysis, mathematically.
#[verifier::ext_equal]
pub struct PackageAnalysisView {
    pub name: Seq<char>,
    pub version: Seq<char>,
    pub supported: Set<u8>,
    pub has_platform_wheels: bool,
    pub sdist_only: bool,
    pub requires_python: Option<Seq<char>>,
}

impl View for PackageAnalysis {
    type V = PackageAnalysisView;

    open spec fn view(&self) -> PackageAnalysisView {
        PackageAnalysisView {
            name: self.name@,
            version: self.version@,
            supported: self.supported@,
            has_platform_wheels: self.has_platform_wheels,
            sdist_only: self.sdist_only,
            requires_python: text::opt_text(self.requires_python),
        }
    }
}

impl Clone for PackageAnalysis {
    fn clone(&self) -> (r: PackageAnalysis)
        ensures
            r@ == self@,
    {
        PackageAnalysis {
            name: self.name.clone(),
            version: self.version.clone(),
            supported: self.supported.clone(),
            has_platform_wheels: self.has_platform_wheels,
            sdist_only: self.sdist_only,
            requires_python: text::clone_opt(&self.requires_python),
        }
    }
}

impl Clone for Info {
    fn clone(&self) -> (r: Info)
        ensures
            r == *self,
    {
        Info {
            name: self.name.clone(),
            version: self.version.clone(),
            requires_python: text::clone_opt(&self.requires_python),
        }
    }
}

impl Clone for DistFile {
    fn clone(&self) -> (r: DistFile)
        ensures
            r == *self,
    {
        DistFile {
            filename: self.filename.clone(),
            packagetype: self.packagetype.clone(),
            requires_python: text::clone_opt(&self.requires_python),
            yanked: self.yanked,
        }
    }
}

impl Clone for PackageMetadata {
    fn clone(&self) -> (r: PackageMetadata)
        ensures
            r@ == self@,
    {
        let r = PackageMetadata {
            info: self.info.clone(),
            urls: self.urls.clone(),
            versions: self.versions.clone(),
        };
        proof {
            assert(r@.urls =~= self@.urls);
            assert(r@.versions =~= self@.versions);
        }
        r
    }
}

pub open spec fn file_is_wheel(f: DistFileView) -> bool {
    f.packagetype == "bdist_wheel"@ || text::ends(f.filename, ".whl"@)
}

pub open spec fn file_is_sdist(f: DistFileView) -> bool {
    f.packagetype == "sdist"@ || text::ends(f.filename, ".tar.gz"@) || text::ends(
        f.filename,
        ".zip"@,
    )
}

/// The minors a file's wheel supports on a platform. A yanked file and one that
/// is no wheel support none.
pub open spec fn file_minors(f: DistFileView, p: Platform) -> Set<u8> {
    if f.yanked || !file_is_wheel(f) {
        Set::empty()
    } else {
        match wheel_tags_spec(f.filename) {
            Some(tags) => wheel_minors(tags, p),
            None => Set::empty(),
        }
    }
}

/// The minors that some wheel of the release supports on a platform.
pub open spec fn wheels_minors(urls: Seq<DistFileView>, p: Platform) -> Set<u8> {
    Set::new(
        |m: u8| exists|i: int| 0 <= i < urls.len() && file_minors(#[trigger] urls[i], p).contains(m),
    )
}

/// Whether the release offers a source distribution that is not yanked.
pub open spec fn offers_sdist(urls: Seq<DistFileView>) -> bool {
    exists|i: int|
        0 <= i < urls.len() && !(#[trigger] urls[i]).yanked && !file_is_wheel(urls[i])
            && file_is_sdist(urls[i])
}

/// The minors `requires_python` declares.
pub open spec fn declared_minors(requires_python: Option<Seq<char>>) -> Set<u8> {
    match requires_python {
        Some(s) => requires_python_spec(s),
        None => universe_minors(),
    }
}

/// What a release supports on a platform: what it declares, narrowed to its
/// wheels where it has any that install here.
pub open spec fn analysis_of(meta: PackageMetadataView, p: Platform) -> PackageAnalysisView {
    let declared = declared_minors(meta.requires_python);
    let wheels = wheels_minors(meta.urls, p);
    let has_wheels = wheels != Set::<u8>::empty();
    PackageAnalysisView {
        name: meta.name,
        version: meta.version,
        supported: if has_wheels {
            declared.intersect(wheels)
        } else {
            declared
        },
        has_platform_wheels: has_wheels,
        sdist_only: !has_wheels && offers_sdist(meta.urls),
        requires_python: meta.requires_python,
    }
}

/// Wheels narrow what a release declares and never widen it: every minor that is
/// supported is declared, and where a wheel installs here, some wheel is built
/// for it.
pub proof fn wheels_narrow_requires_python(meta: PackageMetadataView, p: Platform, m: u8)
    requires
        analysis_of(meta, p).supported.contains(m),
    ensures
        declared_minors(meta.requires_python).contains(m),
        analysis_of(meta, p).has_platform_wheels ==> exists|i: int|
            0 <= i < meta.urls.len() && file_minors(#[trigger] meta.urls[i], p).contains(m),
{
}

impl DistFile {
    pub fn is_wheel(&self) -> (r: bool)
        ensures
            r == file_is_wheel(self@),
    {
        text::same(self.packagetype.as_str(), "bdist_wheel") || text::ends_with(
            self.filename.as_str(),
            ".whl",
        )
    }

    pub fn is_sdist(&self) -> (r: bool)
        ensures
            r == file_is_sdist(self@),
    {
        text::same(self.packagetype.as_str(), "sdist") || text::ends_with(
            self.filename.as_str(),
            ".tar.gz",
        ) || text::ends_with(self.filename.as_str(), ".zip")
    }

    /// The minors this file's wheel supports on `platform`.
    fn supported_on(&self, platform: &Platform) -> (r: PyVersionSet)
        ensures
            r@ == file_minors(self@, *platform),
    {
        if self.yanked || !self.is_wheel() {
            return PyVersionSet::empty();
        }
        match WheelTags::parse(self.filename.as_str()) {
            Some(tags) => tags.supported_on(platform),
            None => PyVersionSet::empty(),
        }
    }
}

impl PackageMetadata {
    /// Compute the set of Python versions this package supports on `platform`.
    ///
    /// * Start from `requires_python` (or the full universe if absent).
    /// * If the package ships platform wheels, intersect with the union of those
    ///   wheels' supported minors: this is what catches the "no cp313 wheel" case.
    /// * If there are no platform wheels but an sdist exists, keep the
    ///   `requires_python` set and flag `sdist_only` (compiles from source).
    pub fn analyze(&self, platform: &Platform) -> (r: PackageAnalysis)
        ensures
            r@ == analysis_of(self@, *platform),
    {
        let declared = match &self.info.requires_python {
            Some(s) => parse_requires_python(s.as_str()),
            None => PyVersionSet::universe(),
        };
        let ghost urls = self@.urls;
        let mut wheels = PyVersionSet::empty();
        let mut has_sdist = false;
        let mut i: usize = 0;
        while i < self.urls.len()
            invariant
                i <= self.urls@.len(),
                urls == self@.urls,
                forall|m: u8| #[trigger] wheels@.contains(m) <==> exists|j: int|
                    0 <= j < i && file_minors(#[trigger] urls[j], *platform).contains(m),
                has_sdist == exists|j: int|
                    0 <= j < i && !(#[trigger] urls[j]).yanked && !file_is_wheel(urls[j])
                        && file_is_sdist(urls[j]),
            decreases self.urls@.len() - i,
        {
            let file = &self.urls[i];
            let ghost before = wheels@;
            proof {
                assert(urls[i as int] == file@);
            }
            let minors = file.supported_on(platform);
            wheels = wheels.union(&minors);
            if !file.yanked && !file.is_wheel() && file.is_sdist() {
                has_sdist = true;
            }
            proof {
                assert forall|m: u8| #[trigger] wheels@.contains(m) <==> exists|j: int|
                    0 <= j < i + 1 && file_minors(#[trigger] urls[j], *platform).contains(m) by {
                    if before.contains(m) {
                        let j = choose|j: int|
                            0 <= j < i && file_minors(#[trigger] urls[j], *platform).contains(m);
                        assert(file_minors(urls[j], *platform).contains(m));
                    }
                    if minors@.contains(m) {
                        assert(file_minors(urls[i as int], *platform).contains(m));
                    }
                }
            }
            i += 1;
        }
        proof {
            assert(wheels@ =~= wheels_minors(urls, *platform));
        }
        let has_platform_wheels = !wheels.is_empty();
        let supported = if has_platform_wheels {
            declared.intersect(&wheels)
        } else {
            declared
        };
        PackageAnalysis {
            name: self.info.name.clone(),
            version: self.info.version.clone(),
            supported,
            has_platform_wheels,
            sdist_only: !has_platform_wheels && has_sdist,
            requires_python: text::clone_opt(&self.info.requires_python),
        }
    }
}

/// What a release supports, told from its files: each minor that it declares and that
/// a wheel here is built for, and every declared one where no wheel installs here.
pub proof fn releases_support_what_they_declare_and_ship(meta: PackageMetadataView, p: Platform)
    ensures
        analysis_of(meta, p).has_platform_wheels <==> exists|i: int, k: u8|
            0 <= i < meta.urls.len() && #[trigger] file_minors(meta.urls[i], p).contains(k),
        forall|i: int, m: u8|
            0 <= i < meta.urls.len() && #[trigger] file_minors(meta.urls[i], p).contains(m)
                && declared_minors(meta.requires_python).contains(m) ==> analysis_of(
                meta,
                p,
            ).supported.contains(m),
        !analysis_of(meta, p).has_platform_wheels ==> analysis_of(meta, p).supported
            == declared_minors(meta.requires_python),
        analysis_of(meta, p).sdist_only <==> !analysis_of(meta, p).has_platform_wheels
            && exists|i: int|
            0 <= i < meta.urls.len() && !(#[trigger] meta.urls[i]).yanked
                && meta.urls[i].packagetype != "bdist_wheel"@ && !".whl"@.is_suffix_of(
                meta.urls[i].filename,
            ) && (meta.urls[i].packagetype == "sdist"@ || ".tar.gz"@.is_suffix_of(
                meta.urls[i].filename,
            ) || ".zip"@.is_suffix_of(meta.urls[i].filename)),
        analysis_of(meta, p).name == meta.name,
        analysis_of(meta, p).version == meta.version,
        analysis_of(meta, p).requires_python == meta.requires_python,
{
    let wheels = wheels_minors(meta.urls, p);
    if wheels != Set::<u8>::empty() {
        assert(!(wheels =~= Set::<u8>::empty()));
        let k = choose|k: u8| wheels.contains(k);
        let i = choose|i: int|
            0 <= i < meta.urls.len() && file_minors(#[trigger] meta.urls[i], p).contains(k);
        assert(file_minors(meta.urls[i], p).contains(k));
    }
    assert forall|i: int, m: u8|
        0 <= i < meta.urls.len() && #[trigger] file_minors(meta.urls[i], p).contains(
            m,
        ) implies wheels.contains(m) by {
        assert(file_minors(meta.urls[i], p).contains(m));
    }
    assert forall|i: int| 0 <= i < meta.urls.len() implies text::ends(
        (#[trigger] meta.urls[i]).filename,
        ".whl"@,
    ) == ".whl"@.is_suffix_of(meta.urls[i].filename) && text::ends(
        meta.urls[i].filename,
        ".tar.gz"@,
    ) == ".tar.gz"@.is_suffix_of(meta.urls[i].filename) && text::ends(
        meta.urls[i].filename,
        ".zip"@,
    ) == ".zip"@.is_suffix_of(meta.urls[i].filename) by {
        lemma_suffix(meta.urls[i].filename, ".whl"@);
        lemma_suffix(meta.urls[i].filename, ".tar.gz"@);
        lemma_suffix(meta.urls[i].filename, ".zip"@);
    }
}

proof fn lemma_suffix(s: Seq<char>, t: Seq<char>)
    ensures
        text::ends(s, t) == t.is_suffix_of(s),
{
    if t.len() <= s.len() {
        assert(s.skip(s.len() - t.len()) =~= s.subrange(s.len() - t.len(), s.len() as int));
    }
}

/// A release that declares nothing supports every version that is in scope.
pub proof fn undeclared_releases_support_everything(m: u8)
    ensures
        declared_minors(None).contains(m) <==> 7 <= m <= 14,
{
}

/// Yanked files are as if they were not there.
pub proof fn yanked_files_change_nothing(meta: PackageMetadataView, p: Platform, i: int)
    requires
        0 <= i < meta.urls.len(),
        meta.urls[i].yanked,
    ensures
        analysis_of(
            PackageMetadataView { urls: meta.urls.remove(i), ..meta },
            p,
        ) == analysis_of(meta, p),
{
    let fewer = PackageMetadataView { urls: meta.urls.remove(i), ..meta };
    let a = wheels_minors(meta.urls, p);
    let b = wheels_minors(fewer.urls, p);
    assert forall|m: u8| a.contains(m) <==> b.contains(m) by {
        if a.contains(m) {
            let j = choose|j: int|
                0 <= j < meta.urls.len() && file_minors(#[trigger] meta.urls[j], p).contains(m);
            let k = if j < i {
                j
            } else {
                j - 1
            };
            assert(fewer.urls[k] == meta.urls[j]);
        }
        if b.contains(m) {
            let j = choose|j: int|
                0 <= j < fewer.urls.len() && file_minors(#[trigger] fewer.urls[j], p).contains(m);
            let k = if j < i {
                j
            } else {
                j + 1
            };
            assert(fewer.urls[j] == meta.urls[k]);
        }
    }
    assert(a =~= b);
    if offers_sdist(meta.urls) {
        let j = choose|j: int|
            0 <= j < meta.urls.len() && !(#[trigger] meta.urls[j]).yanked && !file_is_wheel(
                meta.urls[j],
            ) && file_is_sdist(meta.urls[j]);
        let k = if j < i {
            j
        } else {
            j - 1
        };
        assert(fewer.urls[k] == meta.urls[j]);
    }
    if offers_sdist(fewer.urls) {
        let j = choose|j: int|
            0 <= j < fewer.urls.len() && !(#[trigger] fewer.urls[j]).yanked && !file_is_wheel(
                fewer.urls[j],
            ) && file_is_sdist(fewer.urls[j]);
        let k = if j < i {
            j
        } else {
            j + 1
        };
        assert(fewer.urls[j] == meta.urls[k]);
    }
}

/// A wheel that is not yanked supports what its name says, however it is labelled.
pub proof fn wheels_are_told_by_their_name(f: DistFileView, p: Platform)
    requires
        ".whl"@.is_suffix_of(f.filename),
    ensures
        file_minors(f, p) == (if f.yanked {
            Set::empty()
        } else {
            match wheel_tags_spec(f.filename) {
                Some(tags) => wheel_minors(tags, p),
                None => Set::empty(),
            }
        }),
{
    lemma_suffix(f.filename, ".whl"@);
}

/// A source distribution is told by its type or by the archive it comes in.
pub proof fn source_distributions_are_told_by_their_archive(f: DistFileView)
    ensures
        f.packagetype == "sdist"@ ==> file_is_sdist(f),
        ".tar.gz"@.is_suffix_of(f.filename) ==> file_is_sdist(f),
        ".zip"@.is_suffix_of(f.filename) ==> file_is_sdist(f),
        file_is_sdist(f) ==> f.packagetype == "sdist"@ || ".tar.gz"@.is_suffix_of(f.filename)
            || ".zip"@.is_suffix_of(f.filename),
{
    if ".tar.gz"@.is_suffix_of(f.filename) {
        assert(text::ends(f.filename, ".tar.gz"@));
    }
    if ".zip"@.is_suffix_of(f.filename) {
        assert(text::ends(f.filename, ".zip"@));
    }
    if text::ends(f.filename, ".tar.gz"@) {
        assert(".tar.gz"@.is_suffix_of(f.filename));
    }
    if text::ends(f.filename, ".zip"@) {
        assert(".zip"@.is_suffix_of(f.filename));
    }
}

} // verus!
