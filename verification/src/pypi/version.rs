//! Package versions and the specifiers that select them.
//!
//! A dependency line pins a *release*, and the release decides which Python
//! versions are usable, so reading only the newest release gives the wrong
//! answer for any project that pins or caps a dependency.
//!
//! Comparison here is on the release segments only, and pre-releases are left
//! out of selection because installers skip them unless asked.

use std::cmp::Ordering;
use vstd::prelude::*;

use crate::pypi::pyversion::{
    below_upper, compare_releases, read_operator, Clause, ClauseView, Op,
};
use crate::pypi::pyversion::{
    clause_admits, clause_spec, compatible_upper, ints, op_text, operator_of, order_from,
    release_order, release_text, segment, star_text,
};
use crate::pypi::pyversion::{
    lemma_clause_reads, lemma_operator, lemma_release_pieces, lemma_release_text,
};
use crate::text;

verus! {

/// A PyPI release version, comparable by release segments.
#[derive(Debug)]
pub struct PackageVersion {
    /// The version exactly as PyPI spells it, for display and for URLs.
    pub raw: String,
    /// The numeric segments.
    pub release: Vec<u64>,
    /// Whether it is an alpha, beta, release candidate or dev build.
    pub prerelease: bool,
}

/// A package version, mathematically.
#[verifier::ext_equal]
pub struct PackageVersionView {
    pub raw: Seq<char>,
    pub release: Seq<u64>,
    pub prerelease: bool,
}

impl View for PackageVersion {
    type V = PackageVersionView;

    open spec fn view(&self) -> PackageVersionView {
        PackageVersionView {
            raw: self.raw@,
            release: self.release@,
            prerelease: self.prerelease,
        }
    }
}

/// What follows the first `c`, or all of `s` when there is none.
pub open spec fn after_first(s: Seq<char>, c: char) -> Seq<char> {
    let i = text::first_index(s, text::eq_char(c));
    if i < s.len() {
        s.skip(i + 1)
    } else {
        s
    }
}

/// What precedes the first `c`, or all of `s` when there is none.
pub open spec fn before_first(s: Seq<char>, c: char) -> Seq<char> {
    s.take(text::first_index(s, text::eq_char(c)))
}

pub open spec fn not_numeric() -> spec_fn(char) -> bool {
    |c: char| !text::is_digit(c) && c != '.'
}

pub open spec fn not_dot() -> spec_fn(char) -> bool {
    |c: char| c != '.'
}

pub open spec fn segment_number() -> spec_fn(Seq<char>) -> Option<u64> {
    |p: Seq<char>|
        match text::parse_uint_spec(p, u64::MAX as nat) {
            Some(n) => Some(n as u64),
            None => None,
        }
}

/// A suffix without its leading dots, in lower case.
pub open spec fn tail_of(suffix: Seq<char>) -> Seq<char> {
    text::lower_ascii_spec(suffix.skip(text::first_index(suffix, not_dot())))
}

/// What follows the release segments of a version as written.
pub open spec fn suffix_of(raw: Seq<char>) -> Seq<char> {
    let core = before_first(after_first(text::trim_spec(raw), '!'), '+');
    tail_of(core.skip(text::first_index(core, not_numeric())))
}

/// Whether a suffix marks an alpha, beta, release candidate or dev build.
pub open spec fn marks_prerelease(suffix: Seq<char>) -> bool {
    let tail = tail_of(suffix);
    ||| text::starts(tail, "a"@)
    ||| text::starts(tail, "b"@)
    ||| text::starts(tail, "c"@)
    ||| text::starts(tail, "rc"@)
    ||| text::starts(tail, "alpha"@)
    ||| text::starts(tail, "beta"@)
    ||| text::starts(tail, "pre"@)
    ||| text::starts(tail, "dev"@)
}

/// The version a text names: an epoch and a local segment are dropped, the
/// release segments run up to the first character that is neither digit nor dot.
pub open spec fn package_version_spec(raw: Seq<char>) -> Option<PackageVersionView> {
    let t = text::trim_spec(raw);
    let core = before_first(after_first(t, '!'), '+');
    let cut = text::first_index(core, not_numeric());
    let release = text::split_spec(core.take(cut), text::eq_char('.')).filter_map(segment_number());
    if release.len() == 0 {
        None
    } else {
        Some(PackageVersionView { raw: t, release, prerelease: marks_prerelease(core.skip(cut)) })
    }
}

/// How two versions compare: by release, and a release outranks its own
/// pre-releases.
pub open spec fn version_order(a: PackageVersionView, b: PackageVersionView) -> int {
    let order = release_order(a.release, b.release);
    if order != 0 {
        order
    } else if a.prerelease && !b.prerelease {
        -1
    } else if !a.prerelease && b.prerelease {
        1
    } else {
        0
    }
}

fn ends_numeric(c: char) -> (r: bool)
    ensures
        r == not_numeric()(c),
{
    !('0' <= c && c <= '9') && c != '.'
}

fn tail(suffix: &str) -> (r: String)
    ensures
        r@ == tail_of(suffix@),
{
    let n = text::index_where(
        suffix,
        |c: char| -> (b: bool) ensures b == (c != '.') { c != '.' },
        Ghost(not_dot()),
    );
    text::lower_ascii(text::after(suffix, n))
}

fn has_prerelease_marker(suffix: &str) -> (r: bool)
    ensures
        r == marks_prerelease(suffix@),
{
    let tail = tail(suffix);
    let tail = tail.as_str();
    text::starts_with(tail, "a") || text::starts_with(tail, "b") || text::starts_with(tail, "c")
        || text::starts_with(tail, "rc") || text::starts_with(tail, "alpha") || text::starts_with(
        tail,
        "beta",
    ) || text::starts_with(tail, "pre") || text::starts_with(tail, "dev")
}

fn read_segments(numeric: &str) -> (r: Vec<u64>)
    ensures
        r@ == text::split_spec(numeric@, text::eq_char('.')).filter_map(segment_number()),
{
    let parts = text::split(numeric, '.');
    let ghost pieces = text::texts(parts@);
    let mut out: Vec<u64> = Vec::new();
    let mut i: usize = 0;
    while i < parts.len()
        invariant
            i <= parts@.len(),
            pieces == text::texts(parts@),
            out@ == pieces.take(i as int).filter_map(segment_number()),
        decreases parts@.len() - i,
    {
        proof {
            pieces.lemma_filter_map_take_succ(segment_number(), i as int);
            assert(pieces[i as int] == parts@[i as int]@);
        }
        match text::parse_uint(parts[i].as_str(), u64::MAX) {
            Some(n) => {
                out.push(n);
            },
            None => {},
        }
        i += 1;
    }
    proof {
        assert(pieces.take(i as int) =~= pieces);
    }
    out
}

/// A version without its epoch and its local segment.
fn core_of<'a>(t: &'a str) -> (r: &'a str)
    ensures
        r@ == before_first(after_first(t@, '!'), '+'),
{
    let bang = text::index_of(t, '!');
    let without_epoch = if bang < t.unicode_len() {
        text::after(t, bang + 1)
    } else {
        t
    };
    text::before(without_epoch, text::index_of(without_epoch, '+'))
}

/// What follows the release segments of a version as written.
fn suffix(raw: &str) -> (r: String)
    ensures
        r@ == suffix_of(raw@),
{
    let core = core_of(text::trim(raw));
    let cut = text::index_where(
        core,
        |c: char| -> (b: bool) ensures b == not_numeric()(c) { ends_numeric(c) },
        Ghost(not_numeric()),
    );
    tail(text::after(core, cut))
}

impl PackageVersion {
    /// Parse a version string. Returns `None` when there are no numeric
    /// segments to compare, which rules out anything we could order.
    pub fn parse(raw: &str) -> (r: Option<PackageVersion>)
        ensures
            match r {
                Some(v) => package_version_spec(raw@) == Some(v@) && v@.release.len() > 0,
                None => package_version_spec(raw@) is None,
            },
    {
        let t = text::trim(raw);
        let core = core_of(t);
        let cut = text::index_where(
            core,
            |c: char| -> (b: bool) ensures b == not_numeric()(c) { ends_numeric(c) },
            Ghost(not_numeric()),
        );
        let release = read_segments(text::before(core, cut));
        if release.len() == 0 {
            return None;
        }
        let prerelease = has_prerelease_marker(text::after(core, cut));
        Some(PackageVersion { raw: t.to_string(), release, prerelease })
    }

    /// Alphas, betas, release candidates and dev builds. Installers ignore these
    /// unless a specifier names one, so selection does too.
    pub fn is_prerelease(&self) -> (r: bool)
        ensures
            r == self@.prerelease,
    {
        self.prerelease
    }

    /// Negative, zero or positive: how this version compares with `other`.
    fn order(&self, other: &PackageVersion) -> (r: i32)
        ensures
            r == version_order(self@, other@),
    {
        let order = compare_releases(self.release.as_slice(), other.release.as_slice());
        if order != 0 {
            order
        } else if self.prerelease && !other.prerelease {
            -1
        } else if !self.prerelease && other.prerelease {
            1
        } else {
            0
        }
    }

    /// How this version compares with `other`.
    pub fn cmp(&self, other: &PackageVersion) -> (r: Ordering)
        ensures
            r == ordering_of(version_order(self@, other@)),
    {
        let order = self.order(other);
        if order < 0 {
            Ordering::Less
        } else if order > 0 {
            Ordering::Greater
        } else {
            Ordering::Equal
        }
    }
}

/// The sign of a comparison.
pub open spec fn ordering_of(order: int) -> Ordering {
    if order < 0 {
        Ordering::Less
    } else if order > 0 {
        Ordering::Greater
    } else {
        Ordering::Equal
    }
}

impl PartialEq for PackageVersion {
    fn eq(&self, other: &PackageVersion) -> (r: bool) {
        self.order(other) == 0
    }
}

impl vstd::std_specs::cmp::PartialEqSpecImpl for PackageVersion {
    open spec fn obeys_eq_spec() -> bool {
        true
    }

    open spec fn eq_spec(&self, other: &PackageVersion) -> bool {
        version_order(self@, other@) == 0
    }
}

impl Eq for PackageVersion {

}

impl PartialOrd for PackageVersion {
    fn partial_cmp(&self, other: &PackageVersion) -> (r: Option<Ordering>) {
        Some(self.cmp(other))
    }
}

impl vstd::std_specs::cmp::PartialOrdSpecImpl for PackageVersion {
    open spec fn obeys_partial_cmp_spec() -> bool {
        true
    }

    open spec fn partial_cmp_spec(&self, other: &PackageVersion) -> Option<Ordering> {
        Some(ordering_of(version_order(self@, other@)))
    }
}

impl Clone for PackageVersion {
    fn clone(&self) -> (r: PackageVersion)
        ensures
            r@ == self@,
    {
        PackageVersion {
            raw: self.raw.clone(),
            release: self.release.clone(),
            prerelease: self.prerelease,
        }
    }
}

// ---------------------------------------------------------------------------
// Specifiers
// ---------------------------------------------------------------------------

/// One clause of a version constraint.
#[derive(Debug)]
pub enum Bound {
    /// One on the release segments alone.
    Release(Clause),
    /// One that names a version with more to it, such as a pre-release.
    Named { op: Op, version: PackageVersion },
}

/// A clause of a version constraint, mathematically.
#[verifier::ext_equal]
pub enum BoundView {
    Release(ClauseView),
    Named { op: Op, version: PackageVersionView },
}

impl View for Bound {
    type V = BoundView;

    open spec fn view(&self) -> BoundView {
        match *self {
            Bound::Release(c) => BoundView::Release(c@),
            Bound::Named { op, version } => BoundView::Named { op, version: version@ },
        }
    }
}

pub open spec fn bound_views(v: Seq<Bound>) -> Seq<BoundView> {
    Seq::new(v.len(), |i: int| v[i]@)
}

/// Whether two versions are the same one. Of pre-releases of one release, only
/// those spelled alike are.
pub open spec fn same_version(a: PackageVersionView, b: PackageVersionView) -> bool {
    version_order(a, b) == 0 && (a.prerelease ==> suffix_of(a.raw) == suffix_of(b.raw))
}

/// Whether what a version has besides its release segments is an epoch, a local
/// segment or a post-release, none of which changes which release is picked.
pub open spec fn names_release(v: PackageVersionView) -> bool {
    suffix_of(v.raw).len() == 0 || text::starts(suffix_of(v.raw), "post"@)
}

/// The clause a text stands for. A bare version behaves like `==`.
pub open spec fn bound_spec(s: Seq<char>) -> Option<BoundView> {
    let (op, n) = operator_of(s);
    let released = match clause_spec(s) {
        Some(c) => Some(BoundView::Release(c)),
        None => None,
    };
    match package_version_spec(s.skip(n)) {
        Some(version) => if version.prerelease || (released is None && names_release(version)) {
            Some(BoundView::Named { op, version })
        } else {
            released
        },
        None => released,
    }
}

/// Whether a version satisfies a clause.
pub open spec fn bound_admits(b: BoundView, v: PackageVersionView) -> bool {
    match b {
        BoundView::Release(c) => clause_admits(c, v.release),
        BoundView::Named { op, version } => {
            let order = version_order(v, version);
            match op {
                Op::Ge => order >= 0,
                Op::Gt => order > 0,
                Op::Le => order <= 0,
                Op::Lt => order < 0,
                Op::Ne => !same_version(v, version),
                Op::Eq => same_version(v, version),
                Op::Compatible => order >= 0 && order_from(
                    ints(v.release),
                    compatible_upper(version.release),
                    0,
                ) < 0,
            }
        },
    }
}

/// The clause of one comma-separated piece.
pub open spec fn piece_bound() -> spec_fn(Seq<char>) -> Option<BoundView> {
    |piece: Seq<char>| bound_spec(text::trim_spec(piece))
}

/// Whether a version satisfies every clause.
pub open spec fn all_bounds_admit(bounds: Seq<BoundView>, v: PackageVersionView) -> bool {
    forall|i: int| 0 <= i < bounds.len() ==> bound_admits(#[trigger] bounds[i], v)
}

/// Whether a clause names some release segments.
spec fn has_segments(b: Bound) -> bool {
    match b {
        Bound::Release(c) => c@.version.len() > 0,
        Bound::Named { version, .. } => version@.release.len() > 0,
    }
}

impl Bound {
    /// Read one clause. `None` when no version follows the operator.
    fn parse(s: &str) -> (r: Option<Bound>)
        ensures
            match r {
                Some(b) => bound_spec(s@) == Some(b@) && has_segments(b),
                None => bound_spec(s@) is None,
            },
    {
        let (op, n) = read_operator(s);
        let released = Clause::parse(s);
        match PackageVersion::parse(text::after(s, n)) {
            Some(version) => {
                let suffix = suffix(version.raw.as_str());
                let plain = suffix.as_str().is_empty() || text::starts_with(suffix.as_str(), "post");
                if version.prerelease || (released.is_none() && plain) {
                    return Some(Bound::Named { op, version });
                }
            },
            None => {},
        }
        match released {
            Some(c) => Some(Bound::Release(c)),
            None => None,
        }
    }

    fn matches(&self, v: &PackageVersion) -> (r: bool)
        requires
            has_segments(*self),
        ensures
            r == bound_admits(self@, v@),
    {
        match self {
            Bound::Release(c) => c.matches(v.release.as_slice()),
            Bound::Named { op, version } => {
                let order = v.order(version);
                let same = order == 0 && (!v.prerelease || text::same(
                    suffix(v.raw.as_str()).as_str(),
                    suffix(version.raw.as_str()).as_str(),
                ));
                match op {
                    Op::Ge => order >= 0,
                    Op::Gt => order > 0,
                    Op::Le => order <= 0,
                    Op::Lt => order < 0,
                    Op::Ne => !same,
                    Op::Eq => same,
                    Op::Compatible => order >= 0 && below_upper(
                        v.release.as_slice(),
                        version.release.as_slice(),
                    ),
                }
            },
        }
    }
}

/// The version constraint from a dependency line, such as `>=1.2,<2`.
pub struct VersionSpec {
    clauses: Vec<Bound>,
    /// True when the specifier names a pre-release, which allows selecting one.
    allows_prerelease: bool,
}

/// A version constraint, mathematically.
#[verifier::ext_equal]
pub struct VersionSpecView {
    pub clauses: Seq<BoundView>,
    pub allows_prerelease: bool,
}

impl View for VersionSpec {
    type V = VersionSpecView;

    closed spec fn view(&self) -> VersionSpecView {
        VersionSpecView {
            clauses: bound_views(self.clauses@),
            allows_prerelease: self.allows_prerelease,
        }
    }
}

pub open spec fn not_operator() -> spec_fn(char) -> bool {
    |c: char| !(c == '>' || c == '<' || c == '=' || c == '!' || c == '~' || c == ' ')
}

/// Whether a clause names a pre-release.
pub open spec fn names_prerelease(piece: Seq<char>) -> bool {
    let t = text::trim_spec(piece);
    package_version_spec(t.skip(text::first_index(t, not_operator()))) matches Some(v)
        && v.prerelease
}

/// The constraint a specifier stands for.
pub open spec fn version_spec_of(s: Seq<char>) -> VersionSpecView {
    let t = text::trim_spec(s);
    let pieces = text::split_spec(t, text::eq_char(','));
    VersionSpecView {
        clauses: pieces.filter_map(piece_bound()),
        allows_prerelease: exists|i: int|
            0 <= i < pieces.len() && names_prerelease(#[trigger] pieces[i]),
    }
}

/// Whether a version satisfies a constraint.
pub open spec fn satisfies(spec: VersionSpecView, v: PackageVersionView) -> bool {
    (v.prerelease ==> spec.allows_prerelease) && all_bounds_admit(spec.clauses, v)
}

/// A listed version, if it can be read and satisfies the constraint.
pub open spec fn eligible(spec: VersionSpecView) -> spec_fn(Seq<char>) -> Option<
    PackageVersionView,
> {
    |raw: Seq<char>|
        match package_version_spec(raw) {
            Some(v) => if satisfies(spec, v) {
                Some(v)
            } else {
                None
            },
            None => None,
        }
}

/// The newest of a list; of several equally new, the last listed.
pub open spec fn newest(candidates: Seq<PackageVersionView>) -> Option<PackageVersionView>
    decreases candidates.len(),
{
    if candidates.len() == 0 {
        None
    } else {
        match newest(candidates.drop_last()) {
            Some(best) => if version_order(candidates.last(), best) >= 0 {
                Some(candidates.last())
            } else {
                Some(best)
            },
            None => Some(candidates.last()),
        }
    }
}

/// The newest listed version that satisfies the constraint.
pub open spec fn select_spec(spec: VersionSpecView, versions: Seq<Seq<char>>) -> Option<
    PackageVersionView,
> {
    newest(versions.filter_map(eligible(spec)))
}

fn ends_operator(c: char) -> (r: bool)
    ensures
        r == not_operator()(c),
{
    !(c == '>' || c == '<' || c == '=' || c == '!' || c == '~' || c == ' ')
}

/// Remove a leading comparison operator so the version can be parsed.
fn strip_operator<'a>(clause: &'a str) -> (r: &'a str)
    ensures
        r@ == clause@.skip(text::first_index(clause@, not_operator())),
{
    let n = text::index_where(
        clause,
        |c: char| -> (b: bool) ensures b == not_operator()(c) { ends_operator(c) },
        Ghost(not_operator()),
    );
    text::after(clause, n)
}

impl VersionSpec {
    #[verifier::type_invariant]
    closed spec fn clauses_have_versions(self) -> bool {
        forall|i: int| 0 <= i < self.clauses@.len() ==> has_segments(#[trigger] self.clauses@[i])
    }

    /// Parse the specifier portion of a requirement. An empty string means the
    /// dependency is unconstrained.
    pub fn parse(spec: &str) -> (r: VersionSpec)
        ensures
            r@ == version_spec_of(spec@),
    {
        let t = text::trim(spec);
        let parts = text::split(t, ',');
        let ghost pieces = text::texts(parts@);
        let mut allows_prerelease = false;
        let mut clauses: Vec<Bound> = Vec::new();
        let mut i: usize = 0;
        proof {
            assert(bound_views(clauses@) =~= pieces.take(0).filter_map(piece_bound()));
        }
        while i < parts.len()
            invariant
                i <= parts@.len(),
                pieces == text::texts(parts@),
                bound_views(clauses@) == pieces.take(i as int).filter_map(piece_bound()),
                forall|j: int| 0 <= j < clauses@.len() ==> has_segments(#[trigger] clauses@[j]),
                allows_prerelease == exists|j: int|
                    0 <= j < i && names_prerelease(#[trigger] pieces[j]),
            decreases parts@.len() - i,
        {
            proof {
                assert(pieces[i as int] == parts@[i as int]@);
            }
            let names = match PackageVersion::parse(strip_operator(text::trim(parts[i].as_str()))) {
                Some(v) => v.is_prerelease(),
                None => false,
            };
            proof {
                assert(names == names_prerelease(pieces[i as int]));
            }
            if names {
                allows_prerelease = true;
            }
            let ghost before = clauses@;
            proof {
                pieces.lemma_filter_map_take_succ(piece_bound(), i as int);
            }
            if let Some(b) = Bound::parse(text::trim(parts[i].as_str())) {
                clauses.push(b);
                proof {
                    assert(bound_views(clauses@) =~= bound_views(before).push(b@));
                }
            }
            i += 1;
        }
        proof {
            assert(pieces.take(i as int) =~= pieces);
        }
        VersionSpec { clauses, allows_prerelease }
    }

    /// No constraint at all, so the newest release is the right one.
    pub fn is_unconstrained(&self) -> (r: bool)
        ensures
            r == (self@.clauses.len() == 0),
    {
        self.clauses.len() == 0
    }

    /// Whether the specifier names a pre-release, which allows selecting one.
    pub fn allows_prerelease(&self) -> (r: bool)
        ensures
            r == self@.allows_prerelease,
    {
        self.allows_prerelease
    }

    pub fn matches(&self, version: &PackageVersion) -> (r: bool)
        ensures
            r == satisfies(self@, version@),
    {
        proof {
            use_type_invariant(self);
        }
        if version.is_prerelease() && !self.allows_prerelease {
            return false;
        }
        let ghost views = self@.clauses;
        let mut i: usize = 0;
        while i < self.clauses.len()
            invariant
                i <= self.clauses@.len(),
                views == bound_views(self.clauses@),
                forall|j: int|
                    0 <= j < self.clauses@.len() ==> has_segments(#[trigger] self.clauses@[j]),
                forall|j: int| 0 <= j < i ==> bound_admits(#[trigger] views[j], version@),
            decreases self.clauses@.len() - i,
        {
            if !self.clauses[i].matches(version) {
                proof {
                    assert(!bound_admits(views[i as int], version@));
                }
                return false;
            }
            i += 1;
        }
        true
    }

    /// The newest release satisfying this specifier, which is what an installer
    /// would pick.
    pub fn select_newest(&self, versions: &[String]) -> (r: Option<PackageVersion>)
        ensures
            match r {
                Some(v) => select_spec(self@, text::texts(versions@)) == Some(v@),
                None => select_spec(self@, text::texts(versions@)) is None,
            },
    {
        let ghost listed = text::texts(versions@);
        let mut best: Option<PackageVersion> = None;
        let mut i: usize = 0;
        while i < versions.len()
            invariant
                i <= versions@.len(),
                listed == text::texts(versions@),
                match best {
                    Some(v) => newest(listed.take(i as int).filter_map(eligible(self@))) == Some(v@),
                    None => newest(listed.take(i as int).filter_map(eligible(self@))) is None,
                },
            decreases versions@.len() - i,
        {
            let ghost before = listed.take(i as int).filter_map(eligible(self@));
            proof {
                listed.lemma_filter_map_take_succ(eligible(self@), i as int);
                assert(listed[i as int] == versions@[i as int]@);
            }
            if let Some(v) = PackageVersion::parse(versions[i].as_str()) {
                if self.matches(&v) {
                    proof {
                        let now = listed.take(i as int + 1).filter_map(eligible(self@));
                        assert(now =~= before.push(v@));
                        assert(now.drop_last() =~= before);
                    }
                    let replace = match &best {
                        Some(b) => v.order(b) >= 0,
                        None => true,
                    };
                    if replace {
                        best = Some(v);
                    }
                } else {
                    proof {
                        assert(listed.take(i as int + 1).filter_map(eligible(self@)) =~= before);
                    }
                }
            } else {
                proof {
                    assert(listed.take(i as int + 1).filter_map(eligible(self@)) =~= before);
                }
            }
            i += 1;
        }
        proof {
            assert(listed.take(i as int) =~= listed);
        }
        best
    }
}

impl Default for VersionSpec {
    fn default() -> (r: VersionSpec)
        ensures
            r@ == (VersionSpecView { clauses: seq![], allows_prerelease: false }),
    {
        let r = VersionSpec { clauses: Vec::new(), allows_prerelease: false };
        proof {
            assert(r@.clauses =~= seq![]);
        }
        r
    }
}

// ---------------------------------------------------------------------------
// Laws
// ---------------------------------------------------------------------------

/// Looking at one more segment never changes how two releases compare.
proof fn lemma_order_step(a: Seq<int>, b: Seq<int>, i: int)
    requires
        0 <= i,
    ensures
        order_from(a, b, i) == if segment(a, i) < segment(b, i) {
            -1int
        } else if segment(a, i) > segment(b, i) {
            1
        } else {
            order_from(a, b, i + 1)
        },
{
}

proof fn lemma_order_opposite(a: Seq<int>, b: Seq<int>, i: int)
    requires
        0 <= i,
    ensures
        order_from(a, b, i) == -order_from(b, a, i),
        order_from(a, a, i) == 0,
    decreases a.len() + b.len() - i,
{
    if i < a.len() || i < b.len() {
        lemma_order_opposite(a, b, i + 1);
    }
}

proof fn lemma_order_transitive(a: Seq<int>, b: Seq<int>, c: Seq<int>, i: int)
    requires
        0 <= i,
        order_from(a, b, i) <= 0,
        order_from(b, c, i) <= 0,
    ensures
        order_from(a, c, i) <= 0,
        order_from(a, b, i) < 0 || order_from(b, c, i) < 0 ==> order_from(a, c, i) < 0,
    decreases a.len() + b.len() + c.len() - i,
{
    if i < a.len() || i < b.len() || i < c.len() {
        lemma_order_step(a, b, i);
        lemma_order_step(b, c, i);
        lemma_order_step(a, c, i);
        if segment(a, i) == segment(b, i) && segment(b, i) == segment(c, i) {
            lemma_order_transitive(a, b, c, i + 1);
        }
    }
}

/// Versions are totally ordered: any two compare, the same way from both sides,
/// and what is not after something that is not after a third is not after it.
pub proof fn versions_are_totally_ordered(
    a: PackageVersionView,
    b: PackageVersionView,
    c: PackageVersionView,
)
    ensures
        version_order(a, a) == 0,
        version_order(a, b) == -version_order(b, a),
        version_order(a, b) <= 0 && version_order(b, c) <= 0 ==> version_order(a, c) <= 0,
{
    lemma_order_opposite(ints(a.release), ints(b.release), 0);
    if release_order(a.release, b.release) <= 0 && release_order(b.release, c.release) <= 0 {
        lemma_order_transitive(ints(a.release), ints(b.release), ints(c.release), 0);
        if release_order(a.release, b.release) == 0 && release_order(b.release, c.release) == 0 {
            lemma_order_opposite(ints(b.release), ints(c.release), 0);
            lemma_order_transitive(ints(c.release), ints(b.release), ints(a.release), 0);
            lemma_order_opposite(ints(a.release), ints(c.release), 0);
        }
    }
}

/// A release comes after every pre-release of it.
pub proof fn a_release_outranks_its_prereleases(a: PackageVersionView, pre: PackageVersionView)
    requires
        a.release == pre.release,
        !a.prerelease,
        pre.prerelease,
    ensures
        version_order(a, pre) > 0,
{
    lemma_order_opposite(ints(a.release), ints(a.release), 0);
}

proof fn lemma_newest(candidates: Seq<PackageVersionView>)
    ensures
        match newest(candidates) {
            Some(v) => candidates.contains(v) && forall|i: int|
                0 <= i < candidates.len() ==> version_order(#[trigger] candidates[i], v) <= 0,
            None => candidates.len() == 0,
        },
    decreases candidates.len(),
{
    if candidates.len() > 0 {
        let before = candidates.drop_last();
        lemma_newest(before);
        let last = candidates.last();
        let v = newest(candidates)->0;
        versions_are_totally_ordered(last, last, last);
        match newest(before) {
            Some(best) => {
                versions_are_totally_ordered(last, best, last);
                assert forall|i: int| 0 <= i < candidates.len() implies version_order(
                    #[trigger] candidates[i],
                    v,
                ) <= 0 by {
                    if i < before.len() {
                        assert(before[i] == candidates[i]);
                        versions_are_totally_ordered(candidates[i], best, v);
                    }
                }
                let k = choose|k: int| 0 <= k < before.len() && before[k] == best;
                assert(candidates[k] == best);
            },
            None => {},
        }
        assert(candidates[candidates.len() - 1] == last);
    }
}

/// What is selected is listed and satisfies the constraint, and nothing newer
/// that is listed does; nothing is selected only where nothing listed satisfies
/// it. A pre-release is selected only where the constraint names one.
pub proof fn selection_is_the_newest_that_satisfies(
    spec: VersionSpecView,
    versions: Seq<Seq<char>>,
)
    ensures
        match select_spec(spec, versions) {
            Some(v) => {
                &&& satisfies(spec, v)
                &&& v.prerelease ==> spec.allows_prerelease
                &&& exists|i: int|
                    0 <= i < versions.len() && package_version_spec(#[trigger] versions[i])
                        == Some(v)
                &&& forall|j: int|
                    0 <= j < versions.len() && eligible(spec)(#[trigger] versions[j]) is Some
                        ==> version_order(eligible(spec)(versions[j])->0, v) <= 0
            },
            None => forall|j: int|
                0 <= j < versions.len() ==> eligible(spec)(#[trigger] versions[j]) is None,
        },
{
    let f = eligible(spec);
    let candidates = versions.filter_map(f);
    lemma_newest(candidates);
    assert forall|j: int| 0 <= j < versions.len() && f(#[trigger] versions[j]) is Some implies (
    match newest(candidates) {
        Some(v) => version_order(f(versions[j])->0, v) <= 0,
        None => false,
    }) by {
        text::lemma_filter_map_keeps(versions, f, j);
        let k = choose|k: int|
            0 <= k < candidates.len() && candidates[k] == f(versions[j])->0;
        assert(candidates[k] == f(versions[j])->0);
    }
    if let Some(v) = newest(candidates) {
        let k = choose|k: int| 0 <= k < candidates.len() && candidates[k] == v;
        text::lemma_filter_map_source(versions, f, k);
        let i = choose|i: int|
            0 <= i < versions.len() && f(#[trigger] versions[i]) == Some(candidates[k]);
        assert(package_version_spec(versions[i]) == Some(v));
    }
}

/// A pin on a pre-release is a constraint, and it admits that pre-release alone.
pub proof fn prerelease_pins_admit_that_version_alone(raw: Seq<char>, v: PackageVersionView)
    requires
        raw.len() > 0,
        text::is_digit(raw[0]),
        !text::is_space(raw.last()),
        !raw.contains(','),
        package_version_spec(raw) is Some,
        package_version_spec(raw)->0.prerelease,
    ensures
        version_spec_of("=="@ + raw).clauses.len() == 1,
        satisfies(version_spec_of("=="@ + raw), v) <==> v.prerelease && release_order(
            v.release,
            package_version_spec(raw)->0.release,
        ) == 0 && suffix_of(v.raw) == suffix_of(raw),
{
    reveal_strlit("==");
    let s = "=="@ + raw;
    text::lemma_first_index_is(s, text::not_space(), 0);
    assert(s.skip(0) =~= s);
    assert(s.last() == raw.last());
    text::lemma_last_index_is(s, text::not_space(), s.len() as int);
    assert(s.take(s.len() as int) =~= s);
    assert(text::trim_spec(s) == s);
    assert forall|j: int| 0 <= j < s.len() implies !text::eq_char(',')(#[trigger] s[j]) by {
        if j >= 2 {
            assert(s[j] == raw[j - 2]);
            assert(raw.contains(raw[j - 2]));
        }
    }
    text::lemma_first_index_is(s, text::eq_char(','), s.len() as int);
    let pieces = text::split_spec(s, text::eq_char(','));
    assert(pieces == seq![s]);
    reveal_strlit(">=");
    reveal_strlit("<=");
    assert(s.take(2) =~= "=="@);
    assert(s.take(2)[0] == '=');
    assert(s.skip(2) =~= raw);
    assert(operator_of(s) == (Op::Eq, 2int));
    let pin = package_version_spec(raw)->0;
    assert(piece_bound()(s) == Some(BoundView::Named { op: Op::Eq, version: pin }));
    assert(pieces.drop_last() =~= Seq::<Seq<char>>::empty());
    assert(pieces.drop_last().filter_map(piece_bound()) =~= Seq::<BoundView>::empty());
    let clauses = version_spec_of(s).clauses;
    assert(clauses =~= seq![BoundView::Named { op: Op::Eq, version: pin }]);
    assert(s[2] == raw[0]);
    text::lemma_first_index_is(s, not_operator(), 2);
    assert(names_prerelease(pieces[0]));
    assert(pin.raw == text::trim_spec(raw));
    text::lemma_first_index_is(raw, text::not_space(), 0);
    assert(raw.skip(0) =~= raw);
    text::lemma_last_index_is(raw, text::not_space(), raw.len() as int);
    assert(raw.take(raw.len() as int) =~= raw);
    assert(bound_admits(clauses[0], v) == same_version(v, pin));
}

proof fn lemma_segments(release: Seq<u64>)
    ensures
        Seq::new(release.len(), |i: int| text::decimal_spec(release[i] as nat)).filter_map(
            segment_number(),
        ) == release,
    decreases release.len(),
{
    let parts = Seq::new(release.len(), |i: int| text::decimal_spec(release[i] as nat));
    if release.len() == 0 {
        assert(parts.filter_map(segment_number()) =~= release);
    } else {
        let before = release.drop_last();
        lemma_segments(before);
        assert(parts.drop_last() =~= Seq::new(
            before.len(),
            |i: int| text::decimal_spec(before[i] as nat),
        ));
        text::numbers_read_back(release.last() as nat, u64::MAX as nat);
        assert(segment_number()(parts.last()) == Some(release.last()));
        assert(before.push(release.last()) =~= release);
    }
}

/// A release followed by something that is neither digit nor dot.
proof fn lemma_version_reads(release: Seq<u64>, rest: Seq<char>)
    requires
        release.len() > 0,
        rest.len() > 0 ==> not_numeric()(rest[0]) && !text::is_space(rest.last()),
        !rest.contains('!'),
        !rest.contains('+'),
    ensures
        package_version_spec(release_text(release) + rest) == Some(
            PackageVersionView {
                raw: release_text(release) + rest,
                release,
                prerelease: marks_prerelease(rest),
            },
        ),
        suffix_of(release_text(release) + rest) == tail_of(rest),
{
    let v = release_text(release);
    let s = v + rest;
    lemma_release_text(release);
    lemma_release_pieces(release);
    lemma_segments(release);
    assert(s[0] == v[0]);
    if rest.len() > 0 {
        assert(s.last() == rest.last());
    } else {
        assert(s =~= v);
    }
    text::lemma_trimmed(s);
    assert forall|j: int| 0 <= j < s.len() implies !text::eq_char('!')(#[trigger] s[j])
        && !text::eq_char('+')(s[j]) by {
        if j < v.len() {
            assert(s[j] == v[j]);
        } else {
            assert(s[j] == rest[j - v.len()]);
            assert(rest.contains(rest[j - v.len()]));
        }
    }
    text::lemma_first_index_is(s, text::eq_char('!'), s.len() as int);
    text::lemma_first_index_is(s, text::eq_char('+'), s.len() as int);
    assert(s.take(s.len() as int) =~= s);
    assert forall|j: int| 0 <= j < v.len() implies !not_numeric()(#[trigger] s[j]) by {
        assert(s[j] == v[j]);
    }
    if rest.len() > 0 {
        assert(s[v.len() as int] == rest[0]);
    }
    text::lemma_first_index_is(s, not_numeric(), v.len() as int);
    assert(s.take(v.len() as int) =~= v);
    assert(s.skip(v.len() as int) =~= rest);
}

/// A release reads back as it is written, and is no pre-release.
pub proof fn releases_read_back(release: Seq<u64>)
    requires
        release.len() > 0,
    ensures
        package_version_spec(release_text(release)) == Some(
            PackageVersionView { raw: release_text(release), release, prerelease: false },
        ),
{
    reveal_strlit("a");
    reveal_strlit("b");
    reveal_strlit("c");
    reveal_strlit("rc");
    reveal_strlit("alpha");
    reveal_strlit("beta");
    reveal_strlit("pre");
    reveal_strlit("dev");
    let e = Seq::<char>::empty();
    lemma_version_reads(release, e);
    assert(release_text(release) + e =~= release_text(release));
    assert(tail_of(e).len() == 0) by {
        text::lemma_first_index(e, not_dot());
    }
}

/// A pre-release is told by the marker behind its release: an alpha, a beta, a
/// release candidate or a dev build is one, and a post-release is none.
pub proof fn prereleases_are_told_by_their_marker(release: Seq<u64>, marker: Seq<char>, n: nat)
    requires
        release.len() > 0,
        marker == "a"@ || marker == "b"@ || marker == "rc"@ || marker == "alpha"@ || marker
            == "beta"@ || marker == "pre"@ || marker == "dev"@ || marker == "post"@,
    ensures
        package_version_spec(release_text(release) + (marker + text::decimal_spec(n))) == Some(
            PackageVersionView {
                raw: release_text(release) + (marker + text::decimal_spec(n)),
                release,
                prerelease: marker != "post"@,
            },
        ),
{
    reveal_strlit("a");
    reveal_strlit("b");
    reveal_strlit("c");
    reveal_strlit("rc");
    reveal_strlit("alpha");
    reveal_strlit("beta");
    reveal_strlit("pre");
    reveal_strlit("dev");
    reveal_strlit("post");
    let digits = text::decimal_spec(n);
    text::numbers_read_back(n, n);
    let rest = marker + digits;
    assert(text::is_digit(digits[digits.len() - 1]));
    assert(rest.last() == digits[digits.len() - 1]);
    assert(rest[0] == marker[0]);
    assert forall|c: char| c == '!' || c == '+' implies !#[trigger] rest.contains(c) by {
        if rest.contains(c) {
            let k = choose|k: int| 0 <= k < rest.len() && rest[k] == c;
            if k < marker.len() {
                assert(marker[k] == c);
            } else {
                assert(text::is_digit(digits[k - marker.len()]));
            }
        }
    }
    lemma_version_reads(release, rest);
    text::lemma_first_index_is(rest, not_dot(), 0);
    assert(rest.skip(0) =~= rest);
    let tail = text::lower_ascii_spec(rest);
    assert(tail == tail_of(rest));
    assert forall|i: int| 0 <= i < marker.len() implies #[trigger] tail[i] == marker[i] by {
        assert(rest[i] == marker[i]);
    }
    assert(tail.take(marker.len() as int) =~= marker);
    if marker == "alpha"@ {
        assert(text::starts(tail, "alpha"@));
    }
    if marker == "post"@ {
        assert(tail.take(1)[0] == 'p');
        assert(tail.take(2)[0] == 'p');
        assert(tail.take(3)[1] == 'o');
        assert(tail.take(4)[0] == 'p');
        if tail.len() >= 5 {
            assert(tail.take(5)[0] == 'p');
        }
        assert(tail.take(3)[0] == 'p');
    }
}

/// What a constraint of one comparison admits: the releases that compare so with the
/// one it names, and no pre-release.
pub proof fn releases_are_bounded_as_named(release: Seq<u64>, v: PackageVersionView)
    requires
        release.len() > 0,
        !v.prerelease,
    ensures
        satisfies(version_spec_of(">="@ + release_text(release)), v) <==> release_order(
            v.release,
            release,
        ) >= 0,
        satisfies(version_spec_of("<="@ + release_text(release)), v) <==> release_order(
            v.release,
            release,
        ) <= 0,
        satisfies(version_spec_of(">"@ + release_text(release)), v) <==> release_order(
            v.release,
            release,
        ) > 0,
        satisfies(version_spec_of("<"@ + release_text(release)), v) <==> release_order(
            v.release,
            release,
        ) < 0,
        satisfies(version_spec_of("=="@ + release_text(release)), v) <==> release_order(
            v.release,
            release,
        ) == 0,
        satisfies(version_spec_of("!="@ + release_text(release)), v) <==> release_order(
            v.release,
            release,
        ) != 0,
{
    lemma_one_bound(Op::Ge, release, v);
    lemma_one_bound(Op::Le, release, v);
    lemma_one_bound(Op::Gt, release, v);
    lemma_one_bound(Op::Lt, release, v);
    lemma_one_bound(Op::Eq, release, v);
    lemma_one_bound(Op::Ne, release, v);
}

/// A constraint on plain releases admits no pre-release.
pub proof fn plain_constraints_admit_no_prerelease(release: Seq<u64>, v: PackageVersionView)
    requires
        release.len() > 0,
        v.prerelease,
    ensures
        !satisfies(version_spec_of(">="@ + release_text(release)), v),
        !satisfies(version_spec_of("<="@ + release_text(release)), v),
        !satisfies(version_spec_of("=="@ + release_text(release)), v),
{
    lemma_one_bound(Op::Ge, release, v);
    lemma_one_bound(Op::Le, release, v);
    lemma_one_bound(Op::Eq, release, v);
}

proof fn lemma_one_bound(op: Op, release: Seq<u64>, v: PackageVersionView)
    requires
        release.len() > 0,
    ensures
        satisfies(version_spec_of(op_text(op) + release_text(release)), v) <==> !v.prerelease
            && clause_admits(ClauseView { op, version: release, wildcard: false }, v.release),
        version_spec_of(op_text(op) + release_text(release)).clauses.len() == 1,
{
    let e = Seq::<char>::empty();
    let text = release_text(release);
    let s = op_text(op) + text;
    lemma_clause_reads(op_text(op), op, release, false);
    assert(op_text(op) + text + star_text(false) =~= s);
    lemma_release_text(release);
    lemma_operator(op, text);
    releases_read_back(release);
    let c = ClauseView { op, version: release, wildcard: false };
    let n = op_text(op).len() as int;
    assert(s.skip(n) =~= text);
    assert(bound_spec(s) == Some(BoundView::Release(c)));
    assert forall|i: int| 0 <= i < s.len() implies !text::eq_char(',')(#[trigger] s[i]) by {}
    text::lemma_split_none(s, text::eq_char(','));
    let pieces = text::split_spec(s, text::eq_char(','));
    assert(pieces == seq![s]);
    assert(pieces.drop_last() =~= Seq::<Seq<char>>::empty());
    assert(pieces.drop_last().filter_map(piece_bound()) =~= Seq::<BoundView>::empty());
    assert(piece_bound()(s) == Some(BoundView::Release(c)));
    let spec = version_spec_of(s);
    assert(spec.clauses =~= seq![BoundView::Release(c)]);
    lemma_operator_ends(op, text);
    assert(!names_prerelease(s));
    assert(!spec.allows_prerelease) by {
        if spec.allows_prerelease {
            let i = choose|i: int|
                0 <= i < pieces.len() && names_prerelease(#[trigger] pieces[i]);
            assert(pieces[i] == s);
        }
    }
    assert(spec.clauses[0] == BoundView::Release(c));
}

proof fn lemma_operator_ends(op: Op, text: Seq<char>)
    requires
        text.len() > 0,
        text::is_digit(text[0]),
    ensures
        (op_text(op) + text).skip(text::first_index(op_text(op) + text, not_operator())) == text,
{
    reveal_strlit(">=");
    reveal_strlit("<=");
    reveal_strlit("==");
    reveal_strlit("!=");
    reveal_strlit("~=");
    reveal_strlit(">");
    reveal_strlit("<");
    let s = op_text(op) + text;
    let n = op_text(op).len() as int;
    assert(s[n] == text[0]);
    assert forall|j: int| 0 <= j < n implies !not_operator()(#[trigger] s[j]) by {
        assert(s[j] == op_text(op)[j]);
    }
    text::lemma_first_index_is(s, not_operator(), n);
    assert(s.skip(n) =~= text);
}

/// A listed version that satisfies a constraint keeps the selection from being empty
/// or older.
pub proof fn what_satisfies_can_be_selected(
    spec: VersionSpecView,
    versions: Seq<Seq<char>>,
    i: int,
    v: PackageVersionView,
)
    requires
        0 <= i < versions.len(),
        package_version_spec(versions[i]) == Some(v),
        forall|k: int| 0 <= k < spec.clauses.len() ==> bound_admits(#[trigger] spec.clauses[k], v),
        v.prerelease ==> spec.allows_prerelease,
    ensures
        select_spec(spec, versions) is Some,
        version_order(v, select_spec(spec, versions)->0) <= 0,
{
    selection_is_the_newest_that_satisfies(spec, versions);
    assert(eligible(spec)(versions[i]) == Some(v));
}

proof fn lemma_bounds_join(a: Seq<Seq<char>>, b: Seq<Seq<char>>)
    ensures
        (a + b).filter_map(piece_bound()) == a.filter_map(piece_bound()) + b.filter_map(
            piece_bound(),
        ),
    decreases b.len(),
{
    let f = piece_bound();
    if b.len() == 0 {
        assert(a + b =~= a);
        assert(b.filter_map(f) =~= Seq::<BoundView>::empty());
        assert(a.filter_map(f) + b.filter_map(f) =~= a.filter_map(f));
    } else {
        assert((a + b).drop_last() =~= a + b.drop_last());
        assert((a + b).last() == b.last());
        lemma_bounds_join(a, b.drop_last());
        assert((a + b).filter_map(f) =~= a.filter_map(f) + b.filter_map(f));
    }
}

/// A comma joins constraints: what satisfies the two together satisfies both.
pub proof fn commas_join_constraints(a: Seq<char>, b: Seq<char>, v: PackageVersionView)
    requires
        !v.prerelease,
        a.len() > 0 && !text::is_space(a[0]) && !text::is_space(a.last()),
        b.len() > 0 && !text::is_space(b[0]) && !text::is_space(b.last()),
    ensures
        satisfies(version_spec_of(a + ","@ + b), v) <==> satisfies(version_spec_of(a), v)
            && satisfies(version_spec_of(b), v),
{
    reveal_strlit(",");
    let s = a + ","@ + b;
    assert(s =~= a + seq![','] + b);
    assert(s[0] == a[0] && s.last() == b.last());
    text::lemma_trimmed(s);
    text::lemma_trimmed(a);
    text::lemma_trimmed(b);
    let p = text::eq_char(',');
    text::lemma_split_at(a, ',', b, p);
    lemma_bounds_join(text::split_spec(a, p), text::split_spec(b, p));
    let x = version_spec_of(a).clauses;
    let y = version_spec_of(b).clauses;
    let both = version_spec_of(s).clauses;
    assert(both == x + y);
    if all_bounds_admit(both, v) {
        assert forall|i: int| 0 <= i < x.len() implies bound_admits(#[trigger] x[i], v) by {
            assert(both[i] == x[i]);
        }
        assert forall|i: int| 0 <= i < y.len() implies bound_admits(#[trigger] y[i], v) by {
            assert(both[x.len() + i] == y[i]);
        }
    }
}

} // verus!
