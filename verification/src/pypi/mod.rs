//! The PyPI metadata engine.
//!
//! Given a set of dependencies and the current platform, compute the
//! intersection of Python versions every dependency can run on. When that
//! intersection is empty, name the conflicting pair explicitly. Everything is
//! derived from PyPI metadata and wheel tags; there is no per-library table.

pub mod cache;
pub mod client;
pub mod metadata;
pub mod pyversion;
pub mod version;
pub mod wheel;

use vstd::prelude::*;

pub use client::{FixtureSource, MetadataSource};
pub use metadata::PackageAnalysis;
pub use pyversion::{PyVersion, PyVersionSet};

use crate::engine::platform::Platform;
use crate::engine::project::{requirement_views, Requirement, RequirementView};
use crate::text;
use metadata::{analysis_of, PackageAnalysisView, PackageMetadata, PackageMetadataView};
use pyversion::{
    highest, highest_is_the_newest_member, lowest, lowest_is_the_oldest_member, range_text,
    universe_minors, version_text,
};
use version::{
    satisfies, select_spec, selection_is_the_newest_that_satisfies, version_spec_of, VersionSpec,
};

verus! {

/// A pair of packages whose supported-Python sets don't overlap.
#[derive(Debug, PartialEq, Eq)]
pub struct ConflictPair {
    pub low: PackageAnalysis,
    pub high: PackageAnalysis,
    /// Human explanation, e.g. "opencv tops out at 3.10; ml-lib needs ≥3.11".
    pub explanation: String,
}

/// A conflict, mathematically.
#[verifier::ext_equal]
pub struct ConflictPairView {
    pub low: PackageAnalysisView,
    pub high: PackageAnalysisView,
    pub explanation: Seq<char>,
}

impl View for ConflictPair {
    type V = ConflictPairView;

    open spec fn view(&self) -> ConflictPairView {
        ConflictPairView { low: self.low@, high: self.high@, explanation: self.explanation@ }
    }
}

/// The full compatibility picture across a project's dependencies.
#[derive(Debug)]
pub struct CompatReport {
    pub platform: Platform,
    pub per_package: Vec<PackageAnalysis>,
    /// Packages that couldn't be fetched (name, then error).
    pub unresolved: Vec<(String, String)>,
    /// Intersection of every resolved package's supported set.
    pub intersection: PyVersionSet,
    /// Populated only when `intersection` is empty.
    pub conflicts: Vec<ConflictPair>,
    /// Packages that will compile from source (sdist-only) on this platform.
    pub sdist_warnings: Vec<String>,
}

/// A compatibility report, mathematically.
#[verifier::ext_equal]
pub struct CompatReportView {
    pub platform: Platform,
    pub per_package: Seq<PackageAnalysisView>,
    pub unresolved: Seq<(Seq<char>, Seq<char>)>,
    pub intersection: Set<u8>,
    pub conflicts: Seq<ConflictPairView>,
    pub sdist_warnings: Seq<Seq<char>>,
}

pub open spec fn analysis_views(v: Seq<PackageAnalysis>) -> Seq<PackageAnalysisView> {
    Seq::new(v.len(), |i: int| v[i]@)
}

pub open spec fn pair_views(v: Seq<(String, String)>) -> Seq<(Seq<char>, Seq<char>)> {
    Seq::new(v.len(), |i: int| (v[i].0@, v[i].1@))
}

pub open spec fn conflict_views(v: Seq<ConflictPair>) -> Seq<ConflictPairView> {
    Seq::new(v.len(), |i: int| v[i]@)
}

impl View for CompatReport {
    type V = CompatReportView;

    open spec fn view(&self) -> CompatReportView {
        CompatReportView {
            platform: self.platform,
            per_package: analysis_views(self.per_package@),
            unresolved: pair_views(self.unresolved@),
            intersection: self.intersection@,
            conflicts: conflict_views(self.conflicts@),
            sdist_warnings: text::texts(self.sdist_warnings@),
        }
    }
}

/// Whether a package excludes an interpreter.
pub open spec fn blocks(py: PyVersion) -> spec_fn(PackageAnalysisView) -> bool {
    |a: PackageAnalysisView| !(py.major == 3 && a.supported.contains(py.minor))
}

/// Whether an interpreter is in the intersection.
pub open spec fn compatible(report: CompatReportView, py: PyVersion) -> bool {
    py.major == 3 && report.intersection.contains(py.minor)
}

impl CompatReport {
    /// The recommended interpreter: the newest Python in the intersection.
    pub fn suggested_python(&self) -> (r: Option<PyVersion>)
        ensures
            r == highest(self@.intersection),
            match r {
                Some(v) => compatible(self@, v) && forall|k: u8| #[trigger]
                    self@.intersection.contains(k) ==> k <= v.minor,
                None => self@.intersection == Set::<u8>::empty(),
            },
    {
        self.intersection.max()
    }

    /// Is a given interpreter compatible with the whole dependency set?
    pub fn is_compatible(&self, py: PyVersion) -> (r: bool)
        ensures
            r == compatible(self@, py),
    {
        self.intersection.contains(py)
    }

    /// Which packages exclude a given interpreter (for "why 3.13 won't work").
    pub fn blockers_for(&self, py: PyVersion) -> (r: Vec<PackageAnalysis>)
        ensures
            analysis_views(r@) == self@.per_package.filter(blocks(py)),
    {
        let ghost all = self@.per_package;
        let mut out: Vec<PackageAnalysis> = Vec::new();
        let mut i: usize = 0;
        proof {
            assert(analysis_views(out@) =~= all.take(0).filter(blocks(py)));
        }
        while i < self.per_package.len()
            invariant
                i <= self.per_package@.len(),
                all == self@.per_package,
                analysis_views(out@) == all.take(i as int).filter(blocks(py)),
            decreases self.per_package@.len() - i,
        {
            proof {
                let now = all.take(i as int + 1);
                assert(now.drop_last() =~= all.take(i as int));
                assert(now.last() == self.per_package@[i as int]@);
                reveal_with_fuel(Seq::filter, 2);
            }
            if !self.per_package[i].supported.contains(py) {
                let ghost before = out@;
                let copy = self.per_package[i].clone();
                out.push(copy);
                proof {
                    assert(analysis_views(out@) =~= analysis_views(before).push(copy@));
                }
            }
            i += 1;
        }
        proof {
            assert(all.take(i as int) =~= all);
        }
        out
    }
}

// ---------------------------------------------------------------------------
// Conflicts
// ---------------------------------------------------------------------------

pub open spec fn has_versions() -> spec_fn(PackageAnalysisView) -> bool {
    |a: PackageAnalysisView| a.supported != Set::<u8>::empty()
}

pub open spec fn cap_of(a: PackageAnalysisView) -> int {
    match highest(a.supported) {
        Some(v) => v.minor as int,
        None => u8::MAX as int,
    }
}

pub open spec fn floor_of(a: PackageAnalysisView) -> int {
    match lowest(a.supported) {
        Some(v) => v.minor as int,
        None => 0,
    }
}

/// The position of the first package with the lowest cap.
pub open spec fn lowest_cap(v: Seq<PackageAnalysisView>) -> int
    decreases v.len(),
{
    if v.len() <= 1 {
        0
    } else {
        let best = lowest_cap(v.drop_last());
        if cap_of(v.last()) < cap_of(v[best]) {
            v.len() - 1
        } else {
            best
        }
    }
}

/// The position of the last package with the highest floor.
pub open spec fn highest_floor(v: Seq<PackageAnalysisView>) -> int
    decreases v.len(),
{
    if v.len() <= 1 {
        0
    } else {
        let best = highest_floor(v.drop_last());
        if floor_of(v.last()) >= floor_of(v[best]) {
            v.len() - 1
        } else {
            best
        }
    }
}

/// The position of the last package that supports the most versions.
pub open spec fn best_supported(v: Seq<PackageAnalysisView>) -> int
    decreases v.len(),
{
    if v.len() <= 1 {
        0
    } else {
        let best = best_supported(v.drop_last());
        if v.last().supported.len() >= v[best].supported.len() {
            v.len() - 1
        } else {
            best
        }
    }
}

/// Two packages that disagree: where the one ends below where the other begins,
/// the two ends, and otherwise the versions each of them supports.
pub open spec fn opposed_text(low: PackageAnalysisView, high: PackageAnalysisView) -> Seq<char> {
    match (highest(low.supported), lowest(high.supported)) {
        (Some(cap), Some(floor)) => if cap.minor < floor.minor {
            low.name + " supports up to Python "@ + version_text(cap) + " but "@ + high.name
                + " requires at least Python "@ + version_text(floor)
                + " — no single interpreter satisfies both."@
        } else {
            ranges_text(low, high)
        },
        _ => ranges_text(low, high),
    }
}

/// Two packages that disagree, and the versions each of them supports.
pub open spec fn ranges_text(low: PackageAnalysisView, high: PackageAnalysisView) -> Seq<char> {
    low.name + " supports Python "@ + range_text(low.supported) + " but "@ + high.name
        + " requires Python "@ + range_text(high.supported)
        + " — no single interpreter satisfies both."@
}

pub open spec fn nothing_text(a: PackageAnalysisView) -> Seq<char> {
    a.name + " "@ + a.version
        + " has no installable distribution for your platform/Python — it constrains the project to nothing."@
}

/// A package that supports no Python at all, against the best-supported one.
pub open spec fn dead_end(anchor: PackageAnalysisView) -> spec_fn(PackageAnalysisView) -> Option<
    ConflictPairView,
> {
    |a: PackageAnalysisView|
        if a.supported == Set::<u8>::empty() {
            Some(ConflictPairView { low: a, high: anchor, explanation: nothing_text(a) })
        } else {
            None
        }
}

/// Each package that supports no Python here, against the best-supported one.
pub open spec fn dead_ends(v: Seq<PackageAnalysisView>) -> Seq<ConflictPairView> {
    v.filter_map(dead_end(v[best_supported(v)]))
}

/// The first package from position `j` on that shares no version with the one at
/// position `i`.
pub open spec fn opponent_from(v: Seq<PackageAnalysisView>, i: int, j: int) -> Option<int>
    decreases v.len() - j,
{
    if j >= v.len() {
        None
    } else if v[i].supported.disjoint(v[j].supported) {
        Some(j)
    } else {
        opponent_from(v, i, j + 1)
    }
}

/// The first two packages from position `i` on that share no version.
pub open spec fn opponents_from(v: Seq<PackageAnalysisView>, i: int) -> Option<(int, int)>
    decreases v.len() - i,
{
    if i >= v.len() {
        None
    } else {
        match opponent_from(v, i, i + 1) {
            Some(j) => Some((i, j)),
            None => opponents_from(v, i + 1),
        }
    }
}

/// Two packages as a conflict.
pub open spec fn opposed(low: PackageAnalysisView, high: PackageAnalysisView) -> ConflictPairView {
    ConflictPairView { low, high, explanation: opposed_text(low, high) }
}

/// The conflict to tell: the package with the lowest cap against the one with
/// the highest floor where those two share no version, else the first two that
/// share none. Where any two share one, each package that supports nothing.
pub open spec fn conflicts_of(v: Seq<PackageAnalysisView>) -> Seq<ConflictPairView> {
    let bounded = v.filter(has_versions());
    let low = bounded[lowest_cap(bounded)];
    let high = bounded[highest_floor(bounded)];
    if bounded.len() >= 2 && low.supported.disjoint(high.supported) {
        seq![opposed(low, high)]
    } else {
        match opponents_from(bounded, 0) {
            Some((i, j)) => seq![opposed(bounded[i], bounded[j])],
            None => dead_ends(v),
        }
    }
}

fn cap(a: &PackageAnalysis) -> (r: u8)
    ensures
        r == cap_of(a@),
{
    match a.supported.max() {
        Some(v) => v.minor,
        None => u8::MAX,
    }
}

fn floor(a: &PackageAnalysis) -> (r: u8)
    ensures
        r == floor_of(a@),
{
    match a.supported.min() {
        Some(v) => v.minor,
        None => 0,
    }
}

/// Do two packages share no version?
fn apart(a: &PackageAnalysis, b: &PackageAnalysis) -> (r: bool)
    ensures
        r == a@.supported.disjoint(b@.supported),
{
    let shared = a.supported.intersect(&b.supported);
    proof {
        assert(shared@ == a@.supported.intersect(b@.supported));
        if a@.supported.disjoint(b@.supported) {
            assert(shared@ =~= Set::<u8>::empty());
        } else {
            let m = choose|m: u8| a@.supported.contains(m) && b@.supported.contains(m);
            assert(shared@.contains(m));
        }
    }
    shared.is_empty()
}

fn oppose(low: &PackageAnalysis, high: &PackageAnalysis) -> (r: ConflictPair)
    ensures
        r@ == opposed(low@, high@),
{
    let mut explanation = low.name.clone();
    let ends = match (low.supported.max(), high.supported.min()) {
        (Some(cap), Some(floor)) => if cap.minor < floor.minor {
            Some((cap, floor))
        } else {
            None
        },
        _ => None,
    };
    match ends {
        Some((cap, floor)) => {
            explanation.append(" supports up to Python ");
            explanation.append(cap.to_text().as_str());
            explanation.append(" but ");
            explanation.append(high.name.as_str());
            explanation.append(" requires at least Python ");
            explanation.append(floor.to_text().as_str());
        },
        None => {
            explanation.append(" supports Python ");
            explanation.append(low.supported.to_range_string().as_str());
            explanation.append(" but ");
            explanation.append(high.name.as_str());
            explanation.append(" requires Python ");
            explanation.append(high.supported.to_range_string().as_str());
        },
    }
    explanation.append(" — no single interpreter satisfies both.");
    ConflictPair { low: low.clone(), high: high.clone(), explanation }
}

/// The first two of the packages at the given positions that share no version.
fn find_opponents(packages: &Vec<PackageAnalysis>, at: &Vec<usize>) -> (r: Option<(usize, usize)>)
    requires
        forall|k: int| 0 <= k < at@.len() ==> (#[trigger] at@[k]) < packages@.len(),
    ensures
        match r {
            Some((i, j)) => i < at@.len() && j < at@.len() && opponents_from(
                picked(packages@, at@),
                0,
            ) == Some((i as int, j as int)),
            None => opponents_from(picked(packages@, at@), 0) is None,
        },
{
    let ghost v = picked(packages@, at@);
    let mut i: usize = 0;
    while i < at.len()
        invariant
            i <= at@.len(),
            v == picked(packages@, at@),
            forall|k: int| 0 <= k < at@.len() ==> (#[trigger] at@[k]) < packages@.len(),
            opponents_from(v, 0) == opponents_from(v, i as int),
        decreases at@.len() - i,
    {
        let mut j: usize = i + 1;
        while j < at.len()
            invariant
                i < j <= at@.len(),
                v == picked(packages@, at@),
                forall|k: int| 0 <= k < at@.len() ==> (#[trigger] at@[k]) < packages@.len(),
                opponents_from(v, 0) == opponents_from(v, i as int),
                opponent_from(v, i as int, i as int + 1) == opponent_from(v, i as int, j as int),
            decreases at@.len() - j,
        {
            proof {
                assert(v[i as int] == packages@[at@[i as int] as int]@);
                assert(v[j as int] == packages@[at@[j as int] as int]@);
            }
            if apart(&packages[at[i]], &packages[at[j]]) {
                return Some((i, j));
            }
            j += 1;
        }
        i += 1;
    }
    None
}

/// The packages at the given positions.
spec fn picked(packages: Seq<PackageAnalysis>, at: Seq<usize>) -> Seq<PackageAnalysisView> {
    Seq::new(at.len(), |k: int| packages[at[k] as int]@)
}

/// Fallback when a package supports no Python at all on this platform.
fn degenerate_conflicts(packages: &Vec<PackageAnalysis>) -> (r: Vec<ConflictPair>)
    ensures
        conflict_views(r@) == dead_ends(analysis_views(packages@)),
{
    let ghost v = analysis_views(packages@);
    let mut out: Vec<ConflictPair> = Vec::new();
    if packages.len() == 0 {
        proof {
            assert(conflict_views(out@) =~= dead_ends(v));
        }
        return out;
    }
    let mut anchor: usize = 0;
    let mut i: usize = 1;
    proof {
        assert(v.take(1).len() == 1);
    }
    while i < packages.len()
        invariant
            1 <= i <= packages@.len(),
            v == analysis_views(packages@),
            anchor < i,
            anchor == best_supported(v.take(i as int)),
        decreases packages@.len() - i,
    {
        proof {
            let now = v.take(i as int + 1);
            assert(now.drop_last() =~= v.take(i as int));
            assert(now.last() == packages@[i as int]@);
            assert(now[anchor as int] == packages@[anchor as int]@);
        }
        if packages[i].supported.len() >= packages[anchor].supported.len() {
            anchor = i;
        }
        i += 1;
    }
    let ghost best = v[best_supported(v)];
    proof {
        assert(v.take(i as int) =~= v);
        assert(best == packages@[anchor as int]@);
        assert(conflict_views(out@) =~= v.take(0).filter_map(dead_end(best)));
    }
    let mut k: usize = 0;
    while k < packages.len()
        invariant
            k <= packages@.len(),
            anchor < packages@.len(),
            v == analysis_views(packages@),
            best == packages@[anchor as int]@,
            conflict_views(out@) == v.take(k as int).filter_map(dead_end(best)),
        decreases packages@.len() - k,
    {
        proof {
            v.lemma_filter_map_take_succ(dead_end(best), k as int);
            assert(v[k as int] == packages@[k as int]@);
        }
        let p = &packages[k];
        if p.supported.is_empty() {
            let ghost before = out@;
            let mut explanation = p.name.clone();
            explanation.append(" ");
            explanation.append(p.version.as_str());
            explanation.append(
                " has no installable distribution for your platform/Python — it constrains the project to nothing.",
            );
            let pair = ConflictPair { low: p.clone(), high: packages[anchor].clone(), explanation };
            out.push(pair);
            proof {
                assert(conflict_views(out@) =~= conflict_views(before).push(pair@));
            }
        }
        k += 1;
    }
    proof {
        assert(v.take(k as int) =~= v);
    }
    out
}

/// Find explicit conflicting pairs when the global intersection is empty.
///
/// The tightest conflict is between the package with the *lowest max* supported
/// version and the one with the *highest min*: if those two don't overlap, that
/// pair is the story to tell, and otherwise the first pair that doesn't.
pub fn find_conflicts(packages: &Vec<PackageAnalysis>) -> (r: Vec<ConflictPair>)
    ensures
        conflict_views(r@) == conflicts_of(analysis_views(packages@)),
{
    let ghost v = analysis_views(packages@);
    let mut bounded: Vec<usize> = Vec::new();
    let mut i: usize = 0;
    let ghost mut kept = Seq::<PackageAnalysisView>::empty();
    proof {
        assert(kept =~= v.take(0).filter(has_versions()));
    }
    while i < packages.len()
        invariant
            i <= packages@.len(),
            v == analysis_views(packages@),
            kept == v.take(i as int).filter(has_versions()),
            kept.len() == bounded@.len(),
            forall|k: int|
                0 <= k < bounded@.len() ==> (#[trigger] bounded@[k]) < packages@.len() && kept[k]
                    == packages@[bounded@[k] as int]@,
        decreases packages@.len() - i,
    {
        proof {
            let now = v.take(i as int + 1);
            assert(now.drop_last() =~= v.take(i as int));
            assert(now.last() == packages@[i as int]@);
            reveal_with_fuel(Seq::filter, 2);
        }
        if !packages[i].supported.is_empty() {
            bounded.push(i);
            proof {
                kept = kept.push(packages@[i as int]@);
            }
        }
        i += 1;
    }
    proof {
        assert(v.take(i as int) =~= v);
    }
    proof {
        assert(picked(packages@, bounded@) =~= kept);
    }
    let mut out: Vec<ConflictPair> = Vec::new();
    if bounded.len() >= 2 {
        let mut low: usize = 0;
        let mut high: usize = 0;
        let mut k: usize = 1;
        proof {
            assert(kept.take(1).len() == 1);
        }
        while k < bounded.len()
            invariant
                1 <= k <= bounded@.len(),
                low < k,
                high < k,
                kept == picked(packages@, bounded@),
                forall|k: int| 0 <= k < bounded@.len() ==> (#[trigger] bounded@[k]) < packages@.len(),
                low == lowest_cap(kept.take(k as int)),
                high == highest_floor(kept.take(k as int)),
            decreases bounded@.len() - k,
        {
            proof {
                let now = kept.take(k as int + 1);
                assert(now.drop_last() =~= kept.take(k as int));
                assert(now.last() == packages@[bounded@[k as int] as int]@);
                assert(now[low as int] == packages@[bounded@[low as int] as int]@);
                assert(now[high as int] == packages@[bounded@[high as int] as int]@);
            }
            if cap(&packages[bounded[k]]) < cap(&packages[bounded[low]]) {
                low = k;
            }
            if floor(&packages[bounded[k]]) >= floor(&packages[bounded[high]]) {
                high = k;
            }
            k += 1;
        }
        proof {
            assert(kept.take(k as int) =~= kept);
            assert(kept[low as int] == packages@[bounded@[low as int] as int]@);
            assert(kept[high as int] == packages@[bounded@[high as int] as int]@);
        }
        let low = &packages[bounded[low]];
        let high = &packages[bounded[high]];
        if apart(low, high) {
            out.push(oppose(low, high));
            proof {
                assert(conflict_views(out@) =~= conflicts_of(v));
            }
            return out;
        }
    }
    match find_opponents(packages, &bounded) {
        Some((i, j)) => {
            out.push(oppose(&packages[bounded[i]], &packages[bounded[j]]));
            proof {
                assert(conflict_views(out@) =~= conflicts_of(v));
            }
            out
        },
        None => degenerate_conflicts(packages),
    }
}

// ---------------------------------------------------------------------------
// Resolving a requirement to a release
// ---------------------------------------------------------------------------

/// The release a requirement asks for, given the latest one.
#[derive(Debug, PartialEq, Eq)]
pub enum Wanted {
    /// The latest release is the one an installer would pick.
    Latest,
    /// An installer would pick this other release.
    Release(String),
    /// No published release satisfies the constraint.
    Nothing,
}

/// What a requirement asks for, mathematically.
#[verifier::ext_equal]
pub enum WantedView {
    Latest,
    Release(Seq<char>),
    Nothing,
}

impl View for Wanted {
    type V = WantedView;

    open spec fn view(&self) -> WantedView {
        match self {
            Wanted::Latest => WantedView::Latest,
            Wanted::Release(v) => WantedView::Release(v@),
            Wanted::Nothing => WantedView::Nothing,
        }
    }
}

/// The release a requirement asks for: the newest published one that satisfies
/// its constraint, and without a constraint the latest.
pub open spec fn wanted_spec(req: RequirementView, latest: PackageMetadataView) -> WantedView {
    let spec = version_spec_of(req.spec);
    if spec.clauses.len() == 0 {
        WantedView::Latest
    } else {
        match select_spec(spec, latest.versions) {
            Some(v) => if v.raw == latest.version {
                WantedView::Latest
            } else {
                WantedView::Release(v.raw)
            },
            None => WantedView::Nothing,
        }
    }
}

/// What names one release of a package: `name==version`.
pub open spec fn release_key(name: Seq<char>, version: Seq<char>) -> Seq<char> {
    name + "=="@ + version
}

pub open spec fn no_release_text(req: RequirementView) -> Seq<char> {
    "no release of `"@ + req.name + "` satisfies `"@ + req.spec + "`"@
}

/// The release document a requirement resolves to, or why there is none.
pub open spec fn resolved(
    req: RequirementView,
    answer: spec_fn(Seq<char>) -> Result<PackageMetadataView, Seq<char>>,
) -> Result<PackageMetadataView, Seq<char>> {
    match answer(req.name) {
        Err(e) => Err(e),
        Ok(latest) => match wanted_spec(req, latest) {
            WantedView::Latest => Ok(latest),
            WantedView::Release(v) => answer(release_key(req.name, v)),
            WantedView::Nothing => Err(no_release_text(req)),
        },
    }
}

/// Which release does `req` ask for, given the package's latest one?
pub fn wanted_release(req: &Requirement, latest: &PackageMetadata) -> (r: Wanted)
    ensures
        r@ == wanted_spec(req@, latest@),
{
    let spec = VersionSpec::parse(req.spec.as_str());
    if spec.is_unconstrained() {
        return Wanted::Latest;
    }
    match spec.select_newest(latest.versions.as_slice()) {
        Some(v) => if text::same(v.raw.as_str(), latest.info.version.as_str()) {
            Wanted::Latest
        } else {
            Wanted::Release(v.raw)
        },
        None => Wanted::Nothing,
    }
}

/// What names one release of a package: `name==version`.
pub fn release_name(name: &str, version: &str) -> (r: String)
    ensures
        r@ == release_key(name@, version@),
{
    let mut out = name.to_string();
    out.append("==");
    out.append(version);
    out
}

/// Why a requirement that no release satisfies is unresolved.
pub fn no_release(req: &Requirement) -> (r: String)
    ensures
        r@ == no_release_text(req@),
{
    let mut out = "no release of `".to_string();
    out.append(req.name.as_str());
    out.append("` satisfies `");
    out.append(req.spec.as_str());
    out.append("`");
    out
}

// ---------------------------------------------------------------------------
// The report
// ---------------------------------------------------------------------------

/// One package's name and the document, or the error, it resolved to.
pub type Lookup = (String, Result<PackageMetadata, String>);

/// A lookup, mathematically.
pub open spec fn lookup_view(l: Lookup) -> (Seq<char>, Result<PackageMetadataView, Seq<char>>) {
    (
        l.0@,
        match l.1 {
            Ok(meta) => Ok(meta@),
            Err(e) => Err(e@),
        },
    )
}

pub open spec fn lookup_views(v: Seq<Lookup>) -> Seq<
    (Seq<char>, Result<PackageMetadataView, Seq<char>>),
> {
    Seq::new(v.len(), |i: int| lookup_view(v[i]))
}

pub open spec fn found(p: Platform) -> spec_fn(
    (Seq<char>, Result<PackageMetadataView, Seq<char>>),
) -> Option<PackageAnalysisView> {
    |l: (Seq<char>, Result<PackageMetadataView, Seq<char>>)|
        match l.1 {
            Ok(meta) => Some(analysis_of(meta, p)),
            Err(_) => None,
        }
}

pub open spec fn failed() -> spec_fn(
    (Seq<char>, Result<PackageMetadataView, Seq<char>>),
) -> Option<(Seq<char>, Seq<char>)> {
    |l: (Seq<char>, Result<PackageMetadataView, Seq<char>>)|
        match l.1 {
            Ok(_) => None,
            Err(e) => Some((l.0, e)),
        }
}

pub open spec fn compile_text(a: PackageAnalysisView) -> Seq<char> {
    a.name + " "@ + a.version
        + " has no prebuilt wheel for your platform — it will compile from source (you may need build tools)."@
}

pub open spec fn compile_warning() -> spec_fn(PackageAnalysisView) -> Option<Seq<char>> {
    |a: PackageAnalysisView|
        if a.sdist_only {
            Some(compile_text(a))
        } else {
            None
        }
}

/// The versions every package supports.
pub open spec fn common_minors(v: Seq<PackageAnalysisView>) -> Set<u8> {
    Set::new(
        |m: u8|
            universe_minors().contains(m) && forall|i: int|
                0 <= i < v.len() ==> (#[trigger] v[i]).supported.contains(m),
    )
}

/// The report on a list of lookups: what resolved is intersected, what did not
/// is listed, and an empty intersection of two or more packages is explained.
pub open spec fn report_spec(
    p: Platform,
    lookups: Seq<(Seq<char>, Result<PackageMetadataView, Seq<char>>)>,
) -> CompatReportView {
    let per_package = lookups.filter_map(found(p));
    let intersection = common_minors(per_package);
    CompatReportView {
        platform: p,
        per_package,
        unresolved: lookups.filter_map(failed()),
        intersection,
        conflicts: if intersection == Set::<u8>::empty() && per_package.len() >= 2 {
            conflicts_of(per_package)
        } else {
            seq![]
        },
        sdist_warnings: per_package.filter_map(compile_warning()),
    }
}

/// The report on a list of lookups. Unresolvable names are collected rather than
/// failing the whole analysis.
pub fn report(platform: Platform, lookups: &Vec<Lookup>) -> (r: CompatReport)
    ensures
        r@ == report_spec(platform, lookup_views(lookups@)),
{
    let ghost views = lookup_views(lookups@);
    let mut per_package: Vec<PackageAnalysis> = Vec::new();
    let mut unresolved: Vec<(String, String)> = Vec::new();
    let mut i: usize = 0;
    proof {
        assert(analysis_views(per_package@) =~= views.take(0).filter_map(found(platform)));
        assert(pair_views(unresolved@) =~= views.take(0).filter_map(failed()));
    }
    while i < lookups.len()
        invariant
            i <= lookups@.len(),
            views == lookup_views(lookups@),
            analysis_views(per_package@) == views.take(i as int).filter_map(found(platform)),
            pair_views(unresolved@) == views.take(i as int).filter_map(failed()),
        decreases lookups@.len() - i,
    {
        proof {
            views.lemma_filter_map_take_succ(found(platform), i as int);
            views.lemma_filter_map_take_succ(failed(), i as int);
            assert(views[i as int] == lookup_view(lookups@[i as int]));
        }
        match &lookups[i].1 {
            Ok(meta) => {
                let ghost before = per_package@;
                let analysis = meta.analyze(&platform);
                per_package.push(analysis);
                proof {
                    assert(analysis_views(per_package@) =~= analysis_views(before).push(analysis@));
                }
            },
            Err(e) => {
                let ghost before = unresolved@;
                unresolved.push((lookups[i].0.clone(), e.clone()));
                proof {
                    assert(pair_views(unresolved@) =~= pair_views(before).push(
                        (lookups@[i as int].0@, e@),
                    ));
                }
            },
        }
        i += 1;
    }
    let ghost found_views = analysis_views(per_package@);
    proof {
        assert(views.take(i as int) =~= views);
    }
    let mut intersection = PyVersionSet::universe();
    let mut sdist_warnings: Vec<String> = Vec::new();
    let mut k: usize = 0;
    proof {
        assert(text::texts(sdist_warnings@) =~= found_views.take(0).filter_map(compile_warning()));
        assert(intersection@ =~= common_minors(found_views.take(0)));
    }
    while k < per_package.len()
        invariant
            k <= per_package@.len(),
            found_views == analysis_views(per_package@),
            intersection@ == common_minors(found_views.take(k as int)),
            text::texts(sdist_warnings@) == found_views.take(k as int).filter_map(
                compile_warning(),
            ),
        decreases per_package@.len() - k,
    {
        let a = &per_package[k];
        let ghost before = found_views.take(k as int);
        let ghost now = found_views.take(k as int + 1);
        proof {
            found_views.lemma_filter_map_take_succ(compile_warning(), k as int);
            assert(found_views[k as int] == a@);
            assert forall|m: u8| common_minors(now).contains(m) <==> #[trigger] common_minors(
                before,
            ).intersect(a@.supported).contains(m) by {
                assert(now[k as int] == a@);
                assert(forall|j: int| 0 <= j < k ==> #[trigger] now[j] == before[j]);
                if common_minors(now).contains(m) {
                    assert forall|j: int| 0 <= j < before.len() implies (
                    #[trigger] before[j]).supported.contains(m) by {
                        assert(now[j].supported.contains(m));
                    }
                }
            }
            assert(common_minors(now) =~= common_minors(before).intersect(a@.supported));
        }
        intersection = intersection.intersect(&a.supported);
        if a.sdist_only {
            let mut warning = a.name.clone();
            warning.append(" ");
            warning.append(a.version.as_str());
            warning.append(
                " has no prebuilt wheel for your platform — it will compile from source (you may need build tools).",
            );
            proof {
                text::lemma_texts_push(sdist_warnings@, warning);
            }
            sdist_warnings.push(warning);
        }
        k += 1;
    }
    proof {
        assert(found_views.take(k as int) =~= found_views);
    }
    let conflicts = if intersection.is_empty() && per_package.len() >= 2 {
        find_conflicts(&per_package)
    } else {
        let none: Vec<ConflictPair> = Vec::new();
        proof {
            assert(conflict_views(none@) =~= seq![]);
        }
        none
    };
    CompatReport { platform, per_package, unresolved, intersection, conflicts, sdist_warnings }
}

/// The report on a project's lookups. A project that declares no dependency has
/// nothing to report on.
pub fn report_on(platform: Platform, lookups: &Vec<Lookup>) -> (r: Option<CompatReport>)
    ensures
        match r {
            Some(found) => lookups@.len() > 0 && found@ == report_spec(
                platform,
                lookup_views(lookups@),
            ),
            None => lookups@.len() == 0,
        },
{
    if lookups.len() == 0 {
        None
    } else {
        Some(report(platform, lookups))
    }
}

/// The lookup of each requirement.
pub open spec fn lookups_of(
    reqs: Seq<RequirementView>,
    answer: spec_fn(Seq<char>) -> Result<PackageMetadataView, Seq<char>>,
) -> Seq<(Seq<char>, Result<PackageMetadataView, Seq<char>>)> {
    Seq::new(reqs.len(), |i: int| (reqs[i].name, resolved(reqs[i], answer)))
}

/// What a source answers.
pub open spec fn answers<S: MetadataSource>(source: &S) -> spec_fn(Seq<char>) -> Result<
    PackageMetadataView,
    Seq<char>,
> {
    |name: Seq<char>| source.answer(name)
}

/// The release document a requirement resolves to, or why there is none.
fn resolve<S: MetadataSource>(source: &S, req: &Requirement) -> (r: Result<PackageMetadata, String>)
    ensures
        lookup_view((req.name, r)).1 == resolved(req@, answers(source)),
{
    match source.fetch(req.name.as_str()) {
        Err(e) => Err(e),
        Ok(latest) => match wanted_release(req, &latest) {
            Wanted::Latest => Ok(latest),
            Wanted::Release(v) => source.fetch(
                release_name(req.name.as_str(), v.as_str()).as_str(),
            ),
            Wanted::Nothing => Err(no_release(req)),
        },
    }
}

/// Analyze a project's dependencies against a platform.
///
/// A pinned or capped dependency is judged on the release an installer would
/// pick, not on the newest one.
pub fn analyze<S: MetadataSource>(source: &S, platform: Platform, packages: &[Requirement]) -> (r:
    CompatReport)
    ensures
        r@ == report_spec(
            platform,
            lookups_of(requirement_views(packages@), answers(source)),
        ),
{
    let ghost wanted = lookups_of(requirement_views(packages@), answers(source));
    let mut lookups: Vec<Lookup> = Vec::new();
    let mut i: usize = 0;
    while i < packages.len()
        invariant
            i <= packages@.len(),
            wanted == lookups_of(requirement_views(packages@), answers(source)),
            lookups@.len() == i,
            forall|j: int| 0 <= j < i ==> lookup_view(#[trigger] lookups@[j]) == wanted[j],
        decreases packages@.len() - i,
    {
        let found = resolve(source, &packages[i]);
        lookups.push((packages[i].name.clone(), found));
        i += 1;
    }
    proof {
        assert(lookup_views(lookups@) =~= wanted);
    }
    report(platform, &lookups)
}

// ---------------------------------------------------------------------------
// Laws
// ---------------------------------------------------------------------------

/// The suggested Python runs every package that could be resolved, and no newer
/// one does.
pub proof fn the_suggestion_suits_every_package(
    p: Platform,
    lookups: Seq<(Seq<char>, Result<PackageMetadataView, Seq<char>>)>,
)
    ensures
        ({
            let report = report_spec(p, lookups);
            match highest(report.intersection) {
                Some(py) => {
                    &&& forall|i: int|
                        0 <= i < report.per_package.len() ==> (
                        #[trigger] report.per_package[i]).supported.contains(py.minor)
                    &&& forall|m: u8|
                        m > py.minor && universe_minors().contains(m) ==> exists|i: int|
                            0 <= i < report.per_package.len() && !(
                            #[trigger] report.per_package[i]).supported.contains(m)
                },
                None => report.intersection == Set::<u8>::empty(),
            }
        }),
{
    let report = report_spec(p, lookups);
    highest_is_the_newest_member(report.intersection);
    if let Some(py) = highest(report.intersection) {
        assert forall|m: u8| m > py.minor && universe_minors().contains(m) implies exists|i: int|
            0 <= i < report.per_package.len() && !(#[trigger] report.per_package[i]).supported.contains(
                m,
            ) by {
            assert(!report.intersection.contains(m));
        }
    }
}

/// Whether a set of minors has no gap.
pub open spec fn contiguous(s: Set<u8>) -> bool {
    forall|a: u8, b: u8, c: u8|
        a <= b <= c && #[trigger] s.contains(a) && #[trigger] s.contains(c)
            ==> #[trigger] s.contains(b)
}

proof fn lemma_lowest_cap(v: Seq<PackageAnalysisView>)
    requires
        v.len() > 0,
    ensures
        0 <= lowest_cap(v) < v.len(),
        forall|k: int| 0 <= k < v.len() ==> cap_of(v[lowest_cap(v)]) <= cap_of(#[trigger] v[k]),
    decreases v.len(),
{
    if v.len() > 1 {
        let before = v.drop_last();
        lemma_lowest_cap(before);
        assert forall|k: int| 0 <= k < v.len() implies cap_of(v[lowest_cap(v)]) <= cap_of(
            #[trigger] v[k],
        ) by {
            if k < before.len() {
                assert(before[k] == v[k]);
            }
        }
    }
}

proof fn lemma_highest_floor(v: Seq<PackageAnalysisView>)
    requires
        v.len() > 0,
    ensures
        0 <= highest_floor(v) < v.len(),
        forall|k: int|
            0 <= k < v.len() ==> floor_of(#[trigger] v[k]) <= floor_of(v[highest_floor(v)]),
    decreases v.len(),
{
    if v.len() > 1 {
        let before = v.drop_last();
        lemma_highest_floor(before);
        assert forall|k: int| 0 <= k < v.len() implies floor_of(#[trigger] v[k]) <= floor_of(
            v[highest_floor(v)],
        ) by {
            if k < before.len() {
                assert(before[k] == v[k]);
            }
        }
    }
}

/// Whether every package keeps to the versions PyPilot tracks.
pub open spec fn all_in_universe(v: Seq<PackageAnalysisView>) -> bool {
    forall|i: int| 0 <= i < v.len() ==> (#[trigger] v[i]).supported.subset_of(universe_minors())
}

/// Whether two packages disagree: each supports something, and nothing that the
/// other does.
pub open spec fn disagree(a: PackageAnalysisView, b: PackageAnalysisView) -> bool {
    &&& a.supported != Set::<u8>::empty()
    &&& b.supported != Set::<u8>::empty()
    &&& a.supported.disjoint(b.supported)
}

proof fn lemma_opponent(v: Seq<PackageAnalysisView>, i: int, j: int)
    requires
        0 <= j,
    ensures
        match opponent_from(v, i, j) {
            Some(k) => j <= k < v.len() && v[i].supported.disjoint(v[k].supported),
            None => forall|k: int|
                j <= k < v.len() ==> !v[i].supported.disjoint((#[trigger] v[k]).supported),
        },
    decreases v.len() - j,
{
    if j < v.len() && !v[i].supported.disjoint(v[j].supported) {
        lemma_opponent(v, i, j + 1);
    }
}

proof fn lemma_opponents(v: Seq<PackageAnalysisView>, i: int)
    requires
        0 <= i,
    ensures
        match opponents_from(v, i) {
            Some((a, b)) => i <= a < b < v.len() && v[a].supported.disjoint(v[b].supported),
            None => forall|a: int, b: int|
                i <= a < b < v.len() ==> !(#[trigger] v[a]).supported.disjoint(
                    (#[trigger] v[b]).supported,
                ),
        },
    decreases v.len() - i,
{
    if i < v.len() {
        lemma_opponent(v, i, i + 1);
        lemma_opponents(v, i + 1);
    }
}

/// What a list of packages with versions comes from.
proof fn lemma_bounded(v: Seq<PackageAnalysisView>, k: int)
    requires
        0 <= k < v.filter(has_versions()).len(),
    ensures
        v.contains(v.filter(has_versions())[k]),
        v.filter(has_versions())[k].supported != Set::<u8>::empty(),
{
    let bounded = v.filter(has_versions());
    assert(bounded.contains(bounded[k]));
    v.lemma_filter_contains_rev(has_versions(), bounded[k]);
    v.lemma_filter_pred(has_versions(), k);
}

/// Where two packages of a list disagree, nothing suits them all, exactly two are
/// named, those two disagree, and the explanation tells where they part.
pub proof fn an_empty_overlap_names_two_that_disagree(v: Seq<PackageAnalysisView>, a: int, b: int)
    requires
        0 <= a < v.len(),
        0 <= b < v.len(),
        disagree(v[a], v[b]),
    ensures
        common_minors(v) == Set::<u8>::empty(),
        conflicts_of(v).len() == 1,
        v.contains(conflicts_of(v)[0].low),
        v.contains(conflicts_of(v)[0].high),
        disagree(conflicts_of(v)[0].low, conflicts_of(v)[0].high),
        conflicts_of(v)[0].explanation == opposed_text(
            conflicts_of(v)[0].low,
            conflicts_of(v)[0].high,
        ),
{
    let bounded = v.filter(has_versions());
    v.lemma_filter_contains(has_versions(), a);
    v.lemma_filter_contains(has_versions(), b);
    let x = choose|x: int| 0 <= x < bounded.len() && bounded[x] == v[a];
    let y = choose|y: int| 0 <= y < bounded.len() && bounded[y] == v[b];
    if x == y {
        let m = choose|m: u8| v[a].supported.contains(m);
        assert(exists|m: u8| v[a].supported.contains(m)) by {
            if forall|m: u8| !v[a].supported.contains(m) {
                assert(v[a].supported =~= Set::<u8>::empty());
            }
        }
        assert(v[a].supported.contains(m) && v[b].supported.contains(m));
    }
    lemma_lowest_cap(bounded);
    lemma_highest_floor(bounded);
    lemma_bounded(v, lowest_cap(bounded));
    lemma_bounded(v, highest_floor(bounded));
    lemma_opponents(bounded, 0);
    if x < y {
        assert(bounded[x].supported.disjoint(bounded[y].supported));
    } else {
        assert(bounded[y].supported.disjoint(bounded[x].supported));
    }
    if let Some((i, j)) = opponents_from(bounded, 0) {
        lemma_bounded(v, i);
        lemma_bounded(v, j);
    }
    assert forall|m: u8| !common_minors(v).contains(m) by {
        if common_minors(v).contains(m) {
            assert(v[a].supported.contains(m) && v[b].supported.contains(m));
        }
    }
    assert(common_minors(v) =~= Set::<u8>::empty());
}

/// Two packages are never named that have a version in common.
pub proof fn named_packages_never_overlap(v: Seq<PackageAnalysisView>, k: int)
    requires
        0 <= k < conflicts_of(v).len(),
    ensures
        v.contains(conflicts_of(v)[k].low),
        v.contains(conflicts_of(v)[k].high),
        conflicts_of(v)[k].low.supported.disjoint(conflicts_of(v)[k].high.supported),
{
    let bounded = v.filter(has_versions());
    if bounded.len() >= 2 {
        lemma_lowest_cap(bounded);
        lemma_highest_floor(bounded);
        lemma_bounded(v, lowest_cap(bounded));
        lemma_bounded(v, highest_floor(bounded));
    }
    lemma_opponents(bounded, 0);
    if bounded.len() >= 2 && bounded[lowest_cap(bounded)].supported.disjoint(
        bounded[highest_floor(bounded)].supported,
    ) {
    } else if let Some((i, j)) = opponents_from(bounded, 0) {
        lemma_bounded(v, i);
        lemma_bounded(v, j);
    } else {
        let f = dead_end(v[best_supported(v)]);
        text::lemma_filter_map_source(v, f, k);
        lemma_best_supported(v);
    }
}

/// Packages that each support some versions in a row, and have none in common,
/// hold two that disagree.
pub proof fn supports_without_gaps_disagree(v: Seq<PackageAnalysisView>) -> (pair: (int, int))
    requires
        v.len() > 0,
        all_in_universe(v),
        forall|i: int|
            0 <= i < v.len() ==> (#[trigger] v[i]).supported != Set::<u8>::empty() && contiguous(
                v[i].supported,
            ),
        common_minors(v) == Set::<u8>::empty(),
    ensures
        0 <= pair.0 < v.len(),
        0 <= pair.1 < v.len(),
        disagree(v[pair.0], v[pair.1]),
{
    lemma_lowest_cap(v);
    lemma_highest_floor(v);
    let i = lowest_cap(v);
    let j = highest_floor(v);
    lowest_is_the_oldest_member(v[j].supported);
    highest_is_the_newest_member(v[i].supported);
    if cap_of(v[i]) >= floor_of(v[j]) {
        let m = lowest(v[j].supported)->0.minor;
        assert forall|k: int| 0 <= k < v.len() implies (#[trigger] v[k]).supported.contains(m) by {
            lowest_is_the_oldest_member(v[k].supported);
            highest_is_the_newest_member(v[k].supported);
            let a = lowest(v[k].supported)->0.minor;
            let c = highest(v[k].supported)->0.minor;
            assert(floor_of(v[k]) <= floor_of(v[j]));
            assert(cap_of(v[i]) <= cap_of(v[k]));
            assert(v[k].supported.contains(a) && v[k].supported.contains(c));
            assert(a <= m <= c);
        }
        assert(v[j].supported.contains(m));
        assert(common_minors(v).contains(m));
    }
    assert forall|m: u8| v[i].supported.contains(m) implies !v[j].supported.contains(m) by {
        assert(m <= highest(v[i].supported)->0.minor);
    }
    (i, j)
}

proof fn lemma_best_supported(v: Seq<PackageAnalysisView>)
    requires
        v.len() > 0,
    ensures
        0 <= best_supported(v) < v.len(),
    decreases v.len(),
{
    if v.len() > 1 {
        lemma_best_supported(v.drop_last());
    }
}

/// Where no two packages disagree, each that supports nothing is named, and said
/// to support nothing.
pub proof fn packages_that_support_nothing_are_named(v: Seq<PackageAnalysisView>, i: int)
    requires
        forall|a: int, b: int|
            0 <= a < v.len() && 0 <= b < v.len() ==> !disagree(#[trigger] v[a], #[trigger] v[b]),
        0 <= i < v.len(),
        v[i].supported == Set::<u8>::empty(),
    ensures
        exists|k: int|
            0 <= k < conflicts_of(v).len() && (#[trigger] conflicts_of(v)[k]).low == v[i]
                && v.contains(conflicts_of(v)[k].high) && conflicts_of(v)[k].explanation
                == nothing_text(v[i]),
        forall|k: int|
            0 <= k < conflicts_of(v).len() ==> (#[trigger] conflicts_of(v)[k]).low.supported
                == Set::<u8>::empty(),
{
    let bounded = v.filter(has_versions());
    if conflicts_of(v) != dead_ends(v) {
        if bounded.len() >= 2 {
            lemma_lowest_cap(bounded);
            lemma_highest_floor(bounded);
            lemma_bounded(v, lowest_cap(bounded));
            lemma_bounded(v, highest_floor(bounded));
        }
        lemma_opponents(bounded, 0);
        if let Some((x, y)) = opponents_from(bounded, 0) {
            lemma_bounded(v, x);
            lemma_bounded(v, y);
        }
        let pair = conflicts_of(v)[0];
        let a = choose|a: int| 0 <= a < v.len() && v[a] == pair.low;
        let b = choose|b: int| 0 <= b < v.len() && v[b] == pair.high;
        assert(disagree(v[a], v[b]));
    }
    lemma_best_supported(v);
    let f = dead_end(v[best_supported(v)]);
    text::lemma_filter_map_keeps(v, f, i);
    let k = choose|k: int|
        0 <= k < v.filter_map(f).len() && v.filter_map(f)[k] == f(v[i])->0;
    assert(conflicts_of(v)[k].low == v[i]);
    assert forall|k: int| 0 <= k < conflicts_of(v).len() implies (
    #[trigger] conflicts_of(v)[k]).low.supported == Set::<u8>::empty() by {
        text::lemma_filter_map_source(v, f, k);
    }
}

/// A dependency with a constraint is judged on the newest published release that
/// satisfies it, and on nothing where none does; one without is judged on the
/// latest release.
pub proof fn pins_are_judged_on_their_own_release(
    req: RequirementView,
    answer: spec_fn(Seq<char>) -> Result<PackageMetadataView, Seq<char>>,
    latest: PackageMetadataView,
)
    requires
        answer(req.name) == Ok::<PackageMetadataView, Seq<char>>(latest),
    ensures
        ({
            let spec = version_spec_of(req.spec);
            if spec.clauses.len() == 0 {
                resolved(req, answer) == Ok::<PackageMetadataView, Seq<char>>(latest)
            } else {
                match select_spec(spec, latest.versions) {
                    Some(v) => satisfies(spec, v) && resolved(req, answer) == (if v.raw
                        == latest.version {
                        Ok(latest)
                    } else {
                        answer(release_key(req.name, v.raw))
                    }),
                    None => resolved(req, answer) is Err,
                }
            }
        }),
{
    selection_is_the_newest_that_satisfies(version_spec_of(req.spec), latest.versions);
}

/// Nothing that was looked up goes missing: each package that was found is analysed,
/// each that was not is listed with what went wrong, and nothing else is.
pub proof fn every_lookup_is_accounted_for(
    p: Platform,
    lookups: Seq<(Seq<char>, Result<PackageMetadataView, Seq<char>>)>,
)
    ensures
        forall|i: int|
            0 <= i < lookups.len() ==> match (#[trigger] lookups[i]).1 {
                Ok(meta) => report_spec(p, lookups).per_package.contains(analysis_of(meta, p)),
                Err(e) => report_spec(p, lookups).unresolved.contains((lookups[i].0, e)),
            },
        report_spec(p, lookups).per_package.len() + report_spec(p, lookups).unresolved.len()
            == lookups.len(),
        report_spec(p, lookups).platform == p,
{
    lemma_counts(p, lookups);
    assert forall|i: int| 0 <= i < lookups.len() implies match (#[trigger] lookups[i]).1 {
        Ok(meta) => report_spec(p, lookups).per_package.contains(analysis_of(meta, p)),
        Err(e) => report_spec(p, lookups).unresolved.contains((lookups[i].0, e)),
    } by {
        match lookups[i].1 {
            Ok(meta) => {
                text::lemma_filter_map_keeps(lookups, found(p), i);
            },
            Err(e) => {
                text::lemma_filter_map_keeps(lookups, failed(), i);
            },
        }
    }
}

proof fn lemma_counts(
    p: Platform,
    lookups: Seq<(Seq<char>, Result<PackageMetadataView, Seq<char>>)>,
)
    ensures
        lookups.filter_map(found(p)).len() + lookups.filter_map(failed()).len() == lookups.len(),
    decreases lookups.len(),
{
    if lookups.len() > 0 {
        lemma_counts(p, lookups.drop_last());
    }
}

/// A version suits a project exactly where every package that was found supports it.
pub proof fn the_intersection_is_what_all_support(
    p: Platform,
    lookups: Seq<(Seq<char>, Result<PackageMetadataView, Seq<char>>)>,
    m: u8,
)
    ensures
        report_spec(p, lookups).intersection.contains(m) <==> 7 <= m <= 14 && forall|i: int|
            0 <= i < lookups.len() ==> ((#[trigger] lookups[i]).1 matches Ok(meta)
                ==> analysis_of(meta, p).supported.contains(m)),
{
    let per_package = lookups.filter_map(found(p));
    if report_spec(p, lookups).intersection.contains(m) {
        assert forall|i: int| 0 <= i < lookups.len() implies ((#[trigger] lookups[i]).1 matches Ok(
            meta,
        ) ==> analysis_of(meta, p).supported.contains(m)) by {
            if let Ok(meta) = lookups[i].1 {
                text::lemma_filter_map_keeps(lookups, found(p), i);
                let k = choose|k: int|
                    0 <= k < per_package.len() && per_package[k] == analysis_of(meta, p);
                assert(per_package[k].supported.contains(m));
            }
        }
    }
    if 7 <= m <= 14 && forall|i: int|
        0 <= i < lookups.len() ==> ((#[trigger] lookups[i]).1 matches Ok(meta) ==> analysis_of(
            meta,
            p,
        ).supported.contains(m)) {
        assert forall|k: int| 0 <= k < per_package.len() implies (
        #[trigger] per_package[k]).supported.contains(m) by {
            text::lemma_filter_map_source(lookups, found(p), k);
            let i = choose|i: int|
                0 <= i < lookups.len() && found(p)(#[trigger] lookups[i]) == Some(per_package[k]);
            assert(lookups[i].1 is Ok);
        }
    }
}

/// A package that has to be compiled is warned of by name and version, and no other is.
pub proof fn builds_from_source_are_warned_of(
    p: Platform,
    lookups: Seq<(Seq<char>, Result<PackageMetadataView, Seq<char>>)>,
)
    ensures
        forall|i: int|
            0 <= i < report_spec(p, lookups).per_package.len() && (#[trigger] report_spec(
                p,
                lookups,
            ).per_package[i]).sdist_only ==> exists|k: int|
                0 <= k < report_spec(p, lookups).sdist_warnings.len() && (report_spec(
                    p,
                    lookups,
                ).per_package[i].name + " "@ + report_spec(p, lookups).per_package[i].version
                    + " "@).is_prefix_of(#[trigger] report_spec(p, lookups).sdist_warnings[k]),
        (forall|i: int|
            0 <= i < report_spec(p, lookups).per_package.len() ==> !(#[trigger] report_spec(
                p,
                lookups,
            ).per_package[i]).sdist_only) ==> report_spec(p, lookups).sdist_warnings.len() == 0,
{
    let all = report_spec(p, lookups).per_package;
    let warnings = report_spec(p, lookups).sdist_warnings;
    let f = compile_warning();
    assert forall|i: int| 0 <= i < all.len() && (#[trigger] all[i]).sdist_only implies exists|
        k: int,
    |
        0 <= k < warnings.len() && (all[i].name + " "@ + all[i].version + " "@).is_prefix_of(
            #[trigger] warnings[k],
        ) by {
        text::lemma_filter_map_keeps(all, f, i);
        let k = choose|k: int| 0 <= k < warnings.len() && warnings[k] == compile_text(all[i]);
        lemma_compile_text(all[i]);
        assert(warnings[k] == compile_text(all[i]));
    }
    if warnings.len() > 0 {
        text::lemma_filter_map_source(all, f, 0);
        let i = choose|i: int| 0 <= i < all.len() && f(#[trigger] all[i]) == Some(warnings[0]);
        assert(all[i].sdist_only);
    }
}

proof fn lemma_compile_text(a: PackageAnalysisView)
    ensures
        (a.name + " "@ + a.version + " "@).is_prefix_of(compile_text(a)),
{
    reveal_strlit(" ");
    reveal_strlit(
        " has no prebuilt wheel for your platform — it will compile from source (you may need build tools).",
    );
    let front = a.name + " "@ + a.version + " "@;
    assert(compile_text(a).subrange(0, front.len() as int) =~= front);
}

/// What is said of two packages that share no version begins with the one and names
/// the other; where the one ends below where the other begins, it tells both ends.
pub proof fn conflicts_name_both_packages(low: PackageAnalysisView, high: PackageAnalysisView)
    requires
        low.supported.subset_of(universe_minors()),
        high.supported.subset_of(universe_minors()),
    ensures
        opposed(low, high).low == low,
        opposed(low, high).high == high,
        low.name.is_prefix_of(opposed(low, high).explanation),
        forall|a: u8, b: u8|
            low.supported.contains(a) && high.supported.contains(b) && (forall|m: u8| #[trigger]
                low.supported.contains(m) ==> m <= a) && (forall|m: u8| #[trigger]
                high.supported.contains(m) ==> b <= m) && a < b ==> #[trigger] ends_opposed(
                low.name,
                a,
                high.name,
                b,
            ) == opposed(low, high).explanation,
{
    crate::pypi::pyversion::highest_is_the_newest_member(low.supported);
    crate::pypi::pyversion::lowest_is_the_oldest_member(high.supported);
    let told = opposed(low, high).explanation;
    assert(told.take(low.name.len() as int) =~= low.name);
}

/// The words for a package that ends at 3.`a` and one that begins at 3.`b`.
pub open spec fn ends_opposed(low: Seq<char>, a: u8, high: Seq<char>, b: u8) -> Seq<char> {
    low + " supports up to Python "@ + version_text(PyVersion { major: 3, minor: a }) + " but "@
        + high + " requires at least Python "@ + version_text(PyVersion { major: 3, minor: b })
        + " — no single interpreter satisfies both."@
}

/// A release is asked for by the name of its package and its version, and what is said
/// where none satisfies a dependency tells the name and the constraint.
pub proof fn releases_are_asked_for_by_name_and_version(
    name: Seq<char>,
    version: Seq<char>,
    req: RequirementView,
)
    ensures
        release_key(name, version) == name + seq!['=', '='] + version,
        ("no release of `"@ + req.name + "`"@).is_prefix_of(no_release_text(req)),
        ("`"@ + req.spec + "`"@).is_suffix_of(no_release_text(req)),
{
    reveal_strlit("==");
    assert("=="@ =~= seq!['=', '=']);
    reveal_strlit("`");
    reveal_strlit("` satisfies `");
    let told = no_release_text(req);
    let start = "no release of `"@ + req.name + "`"@;
    assert(told.take(start.len() as int) =~= start);
    let end = "`"@ + req.spec + "`"@;
    assert(told.skip(told.len() - end.len()) =~= end);
}

/// Of packages that all support something, the one picked for its cap ends lowest and
/// is the first that does: every other has a version as new as any of its own. The one
/// picked for its floor begins highest and is the last that does.
pub proof fn the_tightest_bounds_are_told(v: Seq<PackageAnalysisView>, j: int, a: u8, c: u8)
    requires
        0 <= j < v.len(),
        forall|k: int|
            0 <= k < v.len() ==> (#[trigger] v[k]).supported != Set::<u8>::empty()
                && v[k].supported.subset_of(universe_minors()),
        v[lowest_cap(v)].supported.contains(a),
        v[highest_floor(v)].supported.contains(c),
    ensures
        0 <= lowest_cap(v) < v.len(),
        0 <= highest_floor(v) < v.len(),
        exists|b: u8| #[trigger]
            v[j].supported.contains(b) && a <= b && (j < lowest_cap(v) ==> a < b),
        exists|b: u8| #[trigger]
            v[j].supported.contains(b) && b <= c && (highest_floor(v) < j ==> b < c),
{
    lemma_tightest(v);
    lemma_ends(v[j]);
    lemma_ends(v[lowest_cap(v)]);
    lemma_ends(v[highest_floor(v)]);
    let cap = cap_of(v[j]) as u8;
    let floor = floor_of(v[j]) as u8;
    assert(v[j].supported.contains(cap) && a <= cap && (j < lowest_cap(v) ==> a < cap));
    assert(v[j].supported.contains(floor) && floor <= c && (highest_floor(v) < j ==> floor < c));
}

proof fn lemma_ends(x: PackageAnalysisView)
    requires
        x.supported != Set::<u8>::empty(),
        x.supported.subset_of(universe_minors()),
    ensures
        0 <= floor_of(x) <= cap_of(x) <= 255,
        x.supported.contains(cap_of(x) as u8),
        x.supported.contains(floor_of(x) as u8),
        forall|m: u8| #[trigger] x.supported.contains(m) ==> floor_of(x) <= m <= cap_of(x),
{
    crate::pypi::pyversion::highest_is_the_newest_member(x.supported);
    crate::pypi::pyversion::lowest_is_the_oldest_member(x.supported);
}

proof fn lemma_tightest(v: Seq<PackageAnalysisView>)
    requires
        v.len() > 0,
    ensures
        0 <= lowest_cap(v) < v.len(),
        0 <= highest_floor(v) < v.len(),
        0 <= best_supported(v) < v.len(),
        forall|j: int| 0 <= j < v.len() ==> cap_of(v[lowest_cap(v)]) <= cap_of(#[trigger] v[j]),
        forall|j: int|
            0 <= j < lowest_cap(v) ==> cap_of(v[lowest_cap(v)]) < cap_of(#[trigger] v[j]),
        forall|j: int|
            0 <= j < v.len() ==> floor_of(#[trigger] v[j]) <= floor_of(v[highest_floor(v)]),
        forall|j: int|
            highest_floor(v) < j < v.len() ==> floor_of(#[trigger] v[j]) < floor_of(
                v[highest_floor(v)],
            ),
        forall|j: int|
            0 <= j < v.len() ==> (#[trigger] v[j]).supported.len()
                <= v[best_supported(v)].supported.len(),
        forall|j: int|
            best_supported(v) < j < v.len() ==> (#[trigger] v[j]).supported.len()
                < v[best_supported(v)].supported.len(),
    decreases v.len(),
{
    if v.len() > 1 {
        let before = v.drop_last();
        lemma_tightest(before);
        assert forall|j: int| 0 <= j < before.len() implies #[trigger] v[j] == before[j] by {}
    }
}

/// A package that supports nothing is set against the one that supports the most
/// versions, and of several such against the last.
pub proof fn dead_ends_are_set_against_the_best_supported(v: Seq<PackageAnalysisView>, j: int)
    requires
        0 <= j < v.len(),
    ensures
        0 <= best_supported(v) < v.len(),
        v[j].supported.len() <= v[best_supported(v)].supported.len(),
        best_supported(v) < j ==> v[j].supported.len() < v[best_supported(v)].supported.len(),
        forall|k: int|
            0 <= k < dead_ends(v).len() ==> (#[trigger] dead_ends(v)[k]).high
                == v[best_supported(v)],
{
    lemma_tightest(v);
    assert forall|k: int| 0 <= k < dead_ends(v).len() implies (#[trigger] dead_ends(v)[k]).high
        == v[best_supported(v)] by {
        text::lemma_filter_map_source(v, dead_end(v[best_supported(v)]), k);
    }
}

} // verus!
