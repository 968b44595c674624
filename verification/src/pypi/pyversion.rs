//! Python version values and set algebra over the bounded CPython universe.
//!
//! The compatibility problem lives in a small, discrete space: the CPython minor
//! releases a project could realistically target, `3.MIN_MINOR ..= 3.MAX_MINOR`.
//! "Which Pythons does package X support" is a set over that universe;
//! `requires_python` and wheel tags each filter it, and the answer for a whole
//! project is the intersection of every dependency's set.

use std::collections::BTreeSet;
use vstd::prelude::*;

use crate::text;

verus! {

/// Lowest CPython minor PyPilot reasons about.
pub const MIN_MINOR: u8 = 7;

/// Highest CPython minor PyPilot reasons about.
pub const MAX_MINOR: u8 = 14;

/// A CPython version at minor granularity.
#[derive(Debug, Clone, Copy, PartialEq, Eq, PartialOrd, Ord, Hash, Structural)]
pub struct PyVersion {
    pub major: u8,
    pub minor: u8,
}

/// Whether PyPilot tracks this version: a 3.x inside the universe.
pub open spec fn in_scope(v: PyVersion) -> bool {
    v.major == 3 && MIN_MINOR <= v.minor <= MAX_MINOR
}

pub open spec fn not_digit() -> spec_fn(char) -> bool {
    |c: char| !text::is_digit(c)
}

/// The leading run of digits.
pub open spec fn leading_digits(s: Seq<char>) -> Seq<char> {
    s.take(text::first_index(s, not_digit()))
}

/// The version a run of digits stands for: one digit of major, then the minor.
pub open spec fn compact_version(s: Seq<char>) -> Option<PyVersion> {
    let digits = leading_digits(s);
    if digits.len() < 2 {
        None
    } else {
        match (
            text::parse_uint_spec(digits.take(1), u8::MAX as nat),
            text::parse_uint_spec(digits.skip(1), u8::MAX as nat),
        ) {
            (Some(major), Some(minor)) => Some(PyVersion { major: major as u8, minor: minor as u8 }),
            _ => None,
        }
    }
}

/// The version a dotted text names; a missing minor reads as zero.
pub open spec fn dotted_version(s: Seq<char>) -> Option<PyVersion> {
    let parts = text::split_spec(s, text::eq_char('.'));
    let minor = if parts.len() > 1 {
        text::parse_uint_spec(parts[1], u8::MAX as nat)
    } else {
        Some(0)
    };
    match (text::parse_uint_spec(parts[0], u8::MAX as nat), minor) {
        (Some(major), Some(minor)) => Some(PyVersion { major: major as u8, minor: minor as u8 }),
        _ => None,
    }
}

/// What [`PyVersion::parse`] reads.
pub open spec fn parse_version_spec(s: Seq<char>) -> Option<PyVersion> {
    let t = text::trim_spec(s);
    let read = if text::starts(t, "cp"@) || text::starts(t, "pp"@) {
        compact_version(t.skip(2))
    } else {
        dotted_version(t)
    };
    match read {
        Some(v) => if in_scope(v) {
            Some(v)
        } else {
            None
        },
        None => None,
    }
}

/// `3.12`, as shown to people.
pub open spec fn version_text(v: PyVersion) -> Seq<char> {
    text::decimal_spec(v.major as nat) + "."@ + text::decimal_spec(v.minor as nat)
}

/// The version a run of digits stands for: one digit of major, then the minor.
pub fn read_compact(s: &str) -> (r: Option<PyVersion>)
    ensures
        r == compact_version(s@),
{
    let end = text::index_where(
        s,
        |c: char| -> (b: bool) ensures b == !text::is_digit(c) { !('0' <= c && c <= '9') },
        Ghost(not_digit()),
    );
    if end < 2 {
        return None;
    }
    let digits = text::before(s, end);
    let major = text::parse_uint(text::before(digits, 1), u8::MAX as u64);
    let minor = text::parse_uint(text::after(digits, 1), u8::MAX as u64);
    match (major, minor) {
        (Some(major), Some(minor)) => Some(PyVersion { major: major as u8, minor: minor as u8 }),
        _ => None,
    }
}

fn read_dotted(s: &str) -> (r: Option<PyVersion>)
    ensures
        r == dotted_version(s@),
{
    let parts = text::split(s, '.');
    proof {
        assert(text::texts(parts@)[0] == parts@[0]@);
    }
    let major = text::parse_uint(parts[0].as_str(), u8::MAX as u64);
    let minor = if parts.len() > 1 {
        proof {
            assert(text::texts(parts@)[1] == parts@[1]@);
        }
        text::parse_uint(parts[1].as_str(), u8::MAX as u64)
    } else {
        Some(0)
    };
    match (major, minor) {
        (Some(major), Some(minor)) => Some(PyVersion { major: major as u8, minor: minor as u8 }),
        _ => None,
    }
}

impl PyVersion {
    pub fn new(major: u8, minor: u8) -> (r: PyVersion)
        ensures
            r == (PyVersion { major, minor }),
    {
        PyVersion { major, minor }
    }

    pub fn py3(minor: u8) -> (r: PyVersion)
        ensures
            r == (PyVersion { major: 3, minor }),
    {
        PyVersion { major: 3, minor }
    }

    /// Whether PyPilot tracks this version.
    pub fn is_tracked(&self) -> (r: bool)
        ensures
            r == in_scope(*self),
    {
        self.major == 3 && MIN_MINOR <= self.minor && self.minor <= MAX_MINOR
    }

    /// Parse a "3.12" / "3.12.1" / "cp312" style string to a minor version.
    /// Returns `None` for anything that isn't a 3.x version we track.
    pub fn parse(s: &str) -> (r: Option<PyVersion>)
        ensures
            r == parse_version_spec(s@),
    {
        proof {
            reveal_strlit("cp");
            reveal_strlit("pp");
        }
        let t = text::trim(s);
        let read = if text::starts_with(t, "cp") || text::starts_with(t, "pp") {
            read_compact(text::after(t, 2))
        } else {
            read_dotted(t)
        };
        match read {
            Some(v) => if v.is_tracked() {
                Some(v)
            } else {
                None
            },
            None => None,
        }
    }

    /// The CPython wheel tag for this version, e.g. `cp312`.
    pub fn cp_tag(&self) -> (r: String)
        ensures
            r@ == "cp"@ + text::decimal_spec(self.major as nat) + text::decimal_spec(
                self.minor as nat,
            ),
    {
        let mut out = "cp".to_string();
        out.append(text::decimal(self.major as u64).as_str());
        out.append(text::decimal(self.minor as u64).as_str());
        out
    }

    /// The version as shown to people, e.g. `3.12`.
    pub fn to_text(&self) -> (r: String)
        ensures
            r@ == version_text(*self),
    {
        let mut out = text::decimal(self.major as u64);
        out.append(".");
        out.append(text::decimal(self.minor as u64).as_str());
        out
    }
}

// ---------------------------------------------------------------------------
// Sets of versions
// ---------------------------------------------------------------------------

/// A set of supported Python versions over the bounded universe.
#[derive(Debug, PartialEq, Eq)]
pub struct PyVersionSet {
    minors: BTreeSet<u8>,
}

/// The minors of every version PyPilot tracks.
pub open spec fn universe_minors() -> Set<u8> {
    Set::new(|m: u8| MIN_MINOR <= m <= MAX_MINOR)
}

/// The lowest member at or above minor `m`.
pub open spec fn lowest_from(s: Set<u8>, m: int) -> Option<PyVersion>
    decreases MAX_MINOR + 1 - m,
{
    if m > MAX_MINOR {
        None
    } else if s.contains(m as u8) {
        Some(PyVersion { major: 3, minor: m as u8 })
    } else {
        lowest_from(s, m + 1)
    }
}

/// The lowest version of a set, if it has one.
pub open spec fn lowest(s: Set<u8>) -> Option<PyVersion> {
    lowest_from(s, MIN_MINOR as int)
}

/// The highest member at or below minor `m`.
pub open spec fn highest_to(s: Set<u8>, m: int) -> Option<PyVersion>
    decreases m + 1 - MIN_MINOR,
{
    if m < MIN_MINOR {
        None
    } else if s.contains(m as u8) {
        Some(PyVersion { major: 3, minor: m as u8 })
    } else {
        highest_to(s, m - 1)
    }
}

/// The highest version of a set, if it has one.
pub open spec fn highest(s: Set<u8>) -> Option<PyVersion> {
    highest_to(s, MAX_MINOR as int)
}

/// The members at or below minor `m`, in ascending order.
pub open spec fn members_to(s: Set<u8>, m: int) -> Seq<PyVersion>
    decreases m + 1 - MIN_MINOR,
{
    if m < MIN_MINOR {
        seq![]
    } else if s.contains(m as u8) {
        members_to(s, m - 1).push(PyVersion { major: 3, minor: m as u8 })
    } else {
        members_to(s, m - 1)
    }
}

/// The maximal runs of consecutive minors at or below `m`, in ascending order.
pub open spec fn runs_to(s: Set<u8>, m: int) -> Seq<(u8, u8)>
    decreases m + 1 - MIN_MINOR,
{
    if m < MIN_MINOR {
        seq![]
    } else {
        let runs = runs_to(s, m - 1);
        if !s.contains(m as u8) {
            runs
        } else if runs.len() > 0 && runs.last().1 + 1 == m {
            runs.drop_last().push((runs.last().0, m as u8))
        } else {
            runs.push((m as u8, m as u8))
        }
    }
}

/// One run as shown to people: `3.9` or `3.9–3.12`.
pub open spec fn run_text(run: (u8, u8)) -> Seq<char> {
    if run.0 == run.1 {
        "3."@ + text::decimal_spec(run.0 as nat)
    } else {
        "3."@ + text::decimal_spec(run.0 as nat) + "–3."@ + text::decimal_spec(run.1 as nat)
    }
}

/// A set as shown to people: its runs, comma separated, or `none`.
pub open spec fn range_text(s: Set<u8>) -> Seq<char> {
    let runs = runs_to(s, MAX_MINOR as int);
    if runs.len() == 0 {
        "none"@
    } else {
        text::join_spec(Seq::new(runs.len(), |i: int| run_text(runs[i])), ", "@)
    }
}

impl View for PyVersionSet {
    type V = Set<u8>;

    closed spec fn view(&self) -> Set<u8> {
        self.minors@
    }
}

impl PyVersionSet {
    #[verifier::type_invariant]
    closed spec fn in_universe(self) -> bool {
        &&& forall|m: u8| #[trigger] self.minors@.contains(m) ==> MIN_MINOR <= m <= MAX_MINOR
        &&& self.minors@.finite()
    }

    pub fn empty() -> (r: PyVersionSet)
        ensures
            r@ == Set::<u8>::empty(),
    {
        PyVersionSet { minors: BTreeSet::new() }
    }

    pub fn insert(&mut self, v: PyVersion)
        ensures
            final(self)@ == if in_scope(v) {
                old(self)@.insert(v.minor)
            } else {
                old(self)@
            },
    {
        proof {
            use_type_invariant(&*self);
        }
        if v.is_tracked() {
            let mut minors = self.minors.clone();
            minors.insert(v.minor);
            self.minors = minors;
        }
    }

    pub fn contains(&self, v: PyVersion) -> (r: bool)
        ensures
            r == (v.major == 3 && self@.contains(v.minor)),
    {
        v.major == 3 && self.minors.contains(&v.minor)
    }

    /// Every CPython minor PyPilot tracks (`3.MIN_MINOR ..= 3.MAX_MINOR`).
    pub fn universe() -> (r: PyVersionSet)
        ensures
            r@ == universe_minors(),
    {
        let mut out = PyVersionSet::empty();
        let mut m: u8 = MIN_MINOR;
        while m <= MAX_MINOR
            invariant
                MIN_MINOR <= m <= MAX_MINOR + 1,
                out@ == Set::new(|k: u8| MIN_MINOR <= k < m),
            decreases MAX_MINOR + 1 - m,
        {
            out.insert(PyVersion::py3(m));
            proof {
                assert(Set::new(|k: u8| MIN_MINOR <= k < m).insert(m) =~= Set::new(
                    |k: u8| MIN_MINOR <= k < m + 1,
                ));
            }
            m += 1;
        }
        proof {
            assert(out@ =~= universe_minors());
        }
        out
    }

    /// Build from a list of versions, keeping only 3.x within the universe.
    pub fn from_versions(versions: &[PyVersion]) -> (r: PyVersionSet)
        ensures
            forall|m: u8| #[trigger] r@.contains(m) <==> exists|i: int|
                0 <= i < versions@.len() && in_scope(#[trigger] versions@[i]) && versions@[i].minor == m,
    {
        let mut out = PyVersionSet::empty();
        let mut i: usize = 0;
        while i < versions.len()
            invariant
                i <= versions@.len(),
                forall|m: u8| #[trigger] out@.contains(m) <==> exists|j: int|
                    0 <= j < i && in_scope(#[trigger] versions@[j]) && versions@[j].minor == m,
            decreases versions@.len() - i,
        {
            let ghost before = out@;
            out.insert(versions[i]);
            proof {
                let v = versions@[i as int];
                assert forall|m: u8| #[trigger] out@.contains(m) <==> exists|j: int|
                    0 <= j < i + 1 && in_scope(#[trigger] versions@[j]) && versions@[j].minor == m by {
                    if before.contains(m) {
                        let j = choose|j: int|
                            0 <= j < i && in_scope(#[trigger] versions@[j]) && versions@[j].minor == m;
                        assert(in_scope(versions@[j]));
                    }
                    if in_scope(v) && v.minor == m {
                        assert(in_scope(versions@[i as int]));
                    }
                }
            }
            i += 1;
        }
        out
    }

    pub fn is_empty(&self) -> (r: bool)
        ensures
            r == (self@ == Set::<u8>::empty()),
    {
        let r = self.minors.is_empty();
        proof {
            if r {
                assert(self@ =~= Set::<u8>::empty());
            } else {
                assert(self@ != Set::<u8>::empty());
            }
        }
        r
    }

    pub fn len(&self) -> (r: usize)
        ensures
            r == self@.len(),
    {
        self.minors.len()
    }

    /// Set intersection, the workhorse of the whole engine.
    pub fn intersect(&self, other: &PyVersionSet) -> (r: PyVersionSet)
        ensures
            r@ == self@.intersect(other@),
    {
        proof {
            use_type_invariant(self);
        }
        let mut out = PyVersionSet::empty();
        let mut m: u8 = MIN_MINOR;
        while m <= MAX_MINOR
            invariant
                MIN_MINOR <= m <= MAX_MINOR + 1,
                forall|k: u8| #[trigger] out@.contains(k) <==> MIN_MINOR <= k < m && self@.contains(k)
                    && other@.contains(k),
            decreases MAX_MINOR + 1 - m,
        {
            if self.minors.contains(&m) && other.minors.contains(&m) {
                out.insert(PyVersion::py3(m));
            }
            m += 1;
        }
        proof {
            assert(out@ =~= self@.intersect(other@));
        }
        out
    }

    /// Set union.
    pub fn union(&self, other: &PyVersionSet) -> (r: PyVersionSet)
        ensures
            r@ == self@.union(other@),
    {
        proof {
            use_type_invariant(self);
            use_type_invariant(other);
        }
        let mut out = PyVersionSet::empty();
        let mut m: u8 = MIN_MINOR;
        while m <= MAX_MINOR
            invariant
                MIN_MINOR <= m <= MAX_MINOR + 1,
                forall|k: u8| #[trigger] out@.contains(k) <==> MIN_MINOR <= k < m && (self@.contains(k)
                    || other@.contains(k)),
            decreases MAX_MINOR + 1 - m,
        {
            if self.minors.contains(&m) || other.minors.contains(&m) {
                out.insert(PyVersion::py3(m));
            }
            m += 1;
        }
        proof {
            assert(out@ =~= self@.union(other@));
        }
        out
    }

    pub fn min(&self) -> (r: Option<PyVersion>)
        ensures
            r == lowest(self@),
            match r {
                Some(v) => in_scope(v) && self@.contains(v.minor) && forall|k: u8| #[trigger]
                    self@.contains(k) ==> v.minor <= k,
                None => self@ == Set::<u8>::empty(),
            },
    {
        proof {
            use_type_invariant(self);
        }
        let mut m: u8 = MIN_MINOR;
        while m <= MAX_MINOR
            invariant
                MIN_MINOR <= m <= MAX_MINOR + 1,
                lowest(self@) == lowest_from(self@, m as int),
                forall|k: u8| MIN_MINOR <= k < m ==> !#[trigger] self@.contains(k),
            decreases MAX_MINOR + 1 - m,
        {
            if self.minors.contains(&m) {
                proof {
                    use_type_invariant(self);
                    assert(self@.subset_of(universe_minors()));
                    lowest_is_the_oldest_member(self@);
                    assert(self@.contains(m));
                }
                return Some(PyVersion::py3(m));
            }
            m += 1;
        }
        proof {
            assert(self@ =~= Set::<u8>::empty());
        }
        None
    }

    pub fn max(&self) -> (r: Option<PyVersion>)
        ensures
            r == highest(self@),
            match r {
                Some(v) => in_scope(v) && self@.contains(v.minor) && forall|k: u8| #[trigger]
                    self@.contains(k) ==> k <= v.minor,
                None => self@ == Set::<u8>::empty(),
            },
    {
        proof {
            use_type_invariant(self);
        }
        let mut m: u8 = MAX_MINOR;
        while m >= MIN_MINOR
            invariant
                MIN_MINOR - 1 <= m <= MAX_MINOR,
                highest(self@) == highest_to(self@, m as int),
                forall|k: u8| m < k <= MAX_MINOR ==> !#[trigger] self@.contains(k),
            decreases m,
        {
            if self.minors.contains(&m) {
                proof {
                    use_type_invariant(self);
                    assert(self@.subset_of(universe_minors()));
                    highest_is_the_newest_member(self@);
                    assert(self@.contains(m));
                }
                return Some(PyVersion::py3(m));
            }
            m -= 1;
        }
        proof {
            assert(self@ =~= Set::<u8>::empty());
        }
        None
    }

    /// The versions of the set, in ascending order.
    pub fn iter(&self) -> (r: Vec<PyVersion>)
        ensures
            r@ == members_to(self@, MAX_MINOR as int),
    {
        let mut out: Vec<PyVersion> = Vec::new();
        let mut m: u8 = MIN_MINOR;
        while m <= MAX_MINOR
            invariant
                MIN_MINOR <= m <= MAX_MINOR + 1,
                out@ == members_to(self@, m - 1),
            decreases MAX_MINOR + 1 - m,
        {
            if self.minors.contains(&m) {
                out.push(PyVersion::py3(m));
            }
            m += 1;
        }
        out
    }

    /// Human-friendly range, e.g. "3.9–3.12" or "3.9, 3.11" for gaps.
    pub fn to_range_string(&self) -> (r: String)
        ensures
            r@ == range_text(self@),
    {
        let mut runs: Vec<(u8, u8)> = Vec::new();
        let mut m: u8 = MIN_MINOR;
        while m <= MAX_MINOR
            invariant
                MIN_MINOR <= m <= MAX_MINOR + 1,
                runs@ == runs_to(self@, m - 1),
                runs@.len() > 0 ==> runs@.last().1 < m,
            decreases MAX_MINOR + 1 - m,
        {
            if self.minors.contains(&m) {
                let n = runs.len();
                if n > 0 && runs[n - 1].1 + 1 == m {
                    let first = runs[n - 1].0;
                    runs.pop();
                    runs.push((first, m));
                } else {
                    runs.push((m, m));
                }
            }
            m += 1;
        }
        if runs.len() == 0 {
            return "none".to_string();
        }
        let ghost wanted = Seq::new(runs@.len(), |i: int| run_text(runs@[i]));
        let mut parts: Vec<String> = Vec::new();
        let mut i: usize = 0;
        while i < runs.len()
            invariant
                i <= runs@.len(),
                wanted == Seq::new(runs@.len(), |i: int| run_text(runs@[i])),
                text::texts(parts@) == wanted.take(i as int),
            decreases runs@.len() - i,
        {
            let (a, b) = runs[i];
            let mut part = "3.".to_string();
            part.append(text::decimal(a as u64).as_str());
            if a != b {
                part.append("–3.");
                part.append(text::decimal(b as u64).as_str());
            }
            proof {
                text::lemma_texts_push(parts@, part);
                assert(wanted.take(i as int).push(part@) =~= wanted.take(i as int + 1));
            }
            parts.push(part);
            i += 1;
        }
        proof {
            assert(wanted.take(i as int) =~= wanted);
        }
        text::join(&parts, ", ")
    }
}

impl Default for PyVersionSet {
    fn default() -> (r: PyVersionSet)
        ensures
            r@ == Set::<u8>::empty(),
    {
        PyVersionSet::empty()
    }
}

impl Clone for PyVersionSet {
    fn clone(&self) -> (r: PyVersionSet)
        ensures
            r@ == self@,
    {
        proof {
            use_type_invariant(self);
        }
        PyVersionSet { minors: self.minors.clone() }
    }
}

// ---------------------------------------------------------------------------
// Specifiers
// ---------------------------------------------------------------------------

/// The comparison a specifier clause makes.
#[derive(Debug, Clone, Copy, PartialEq, Eq, Structural)]
pub enum Op {
    Ge,
    Le,
    Gt,
    Lt,
    Eq,
    Ne,
    /// `~=`, the compatible release.
    Compatible,
}

/// One comparator clause from a specifier, e.g. `>=3.8` or `~=3.9` or `!=3.10.*`.
#[derive(Debug)]
pub struct Clause {
    pub op: Op,
    pub version: Vec<u64>,
    /// True for `==3.10.*` style prefix-wildcard matching.
    pub wildcard: bool,
}

/// A clause, mathematically.
#[verifier::ext_equal]
pub struct ClauseView {
    pub op: Op,
    pub version: Seq<u64>,
    pub wildcard: bool,
}

impl View for Clause {
    type V = ClauseView;

    open spec fn view(&self) -> ClauseView {
        ClauseView { op: self.op, version: self.version@, wildcard: self.wildcard }
    }
}

/// The views of a vector of clauses.
pub open spec fn clause_views(v: Seq<Clause>) -> Seq<ClauseView> {
    Seq::new(v.len(), |i: int| v[i]@)
}

/// The operator a clause opens with and how many characters it takes.
pub open spec fn operator_of(s: Seq<char>) -> (Op, int) {
    if text::starts(s, ">="@) {
        (Op::Ge, 2)
    } else if text::starts(s, "<="@) {
        (Op::Le, 2)
    } else if text::starts(s, "=="@) {
        (Op::Eq, 2)
    } else if text::starts(s, "!="@) {
        (Op::Ne, 2)
    } else if text::starts(s, "~="@) {
        (Op::Compatible, 2)
    } else if text::starts(s, ">"@) {
        (Op::Gt, 1)
    } else if text::starts(s, "<"@) {
        (Op::Lt, 1)
    } else {
        (Op::Eq, 0)
    }
}

/// `s` without the `.*`s at its end.
pub open spec fn without_stars(s: Seq<char>) -> Seq<char>
    decreases s.len(),
{
    if s.len() >= 2 && text::ends(s, ".*"@) {
        without_stars(s.take(s.len() - 2))
    } else {
        s
    }
}

/// The numbers in the pieces that are not empty; `None` if one is no number.
pub open spec fn release_numbers(parts: Seq<Seq<char>>) -> Option<Seq<u64>>
    decreases parts.len(),
{
    if parts.len() == 0 {
        Some(seq![])
    } else {
        match release_numbers(parts.drop_last()) {
            None => None,
            Some(v) => if parts.last().len() == 0 {
                Some(v)
            } else {
                match text::parse_uint_spec(parts.last(), u64::MAX as nat) {
                    Some(n) => Some(v.push(n as u64)),
                    None => None,
                }
            },
        }
    }
}

/// The clause a text stands for. A bare version behaves like `==`.
pub open spec fn clause_spec(s: Seq<char>) -> Option<ClauseView> {
    let (op, n) = operator_of(s);
    let rest = text::trim_spec(s.skip(n));
    match release_numbers(text::split_spec(without_stars(rest), text::eq_char('.'))) {
        Some(version) => if version.len() == 0 {
            None
        } else {
            Some(ClauseView { op, version, wildcard: text::ends(rest, ".*"@) })
        },
        None => None,
    }
}

/// The segment of a release at position `i`; a release is padded with zeros.
pub open spec fn segment(a: Seq<int>, i: int) -> int {
    if 0 <= i < a.len() {
        a[i]
    } else {
        0
    }
}

pub open spec fn ints(a: Seq<u64>) -> Seq<int> {
    Seq::new(a.len(), |i: int| a[i] as int)
}

/// How two releases compare from segment `i` on: negative, zero or positive.
pub open spec fn order_from(a: Seq<int>, b: Seq<int>, i: int) -> int
    decreases a.len() + b.len() - i,
{
    if i >= a.len() && i >= b.len() {
        0
    } else if segment(a, i) < segment(b, i) {
        -1
    } else if segment(a, i) > segment(b, i) {
        1
    } else {
        order_from(a, b, i + 1)
    }
}

/// How two releases compare, the shorter padded with zeros.
pub open spec fn release_order(a: Seq<u64>, b: Seq<u64>) -> int {
    order_from(ints(a), ints(b), 0)
}

/// Where a `~=` clause ends: the version without its last segment (a lone
/// segment stays), the new last one raised by one.
pub open spec fn compatible_upper(v: Seq<u64>) -> Seq<int> {
    let n = if v.len() >= 2 {
        v.len() - 1
    } else {
        v.len() as int
    };
    ints(v.take(n)).update(n - 1, v[n - 1] + 1)
}

/// Whether `candidate` shares the given prefix.
pub open spec fn shares_prefix(candidate: Seq<u64>, prefix: Seq<u64>) -> bool {
    forall|i: int| 0 <= i < prefix.len() ==> segment(ints(candidate), i) == #[trigger] prefix[i]
}

/// Whether a release satisfies a clause.
pub open spec fn clause_admits(c: ClauseView, candidate: Seq<u64>) -> bool {
    let order = release_order(candidate, c.version);
    match c.op {
        Op::Ge => order >= 0,
        Op::Gt => order > 0,
        Op::Le => order <= 0,
        Op::Lt => order < 0,
        Op::Ne => if c.wildcard {
            !shares_prefix(candidate, c.version)
        } else {
            order != 0
        },
        Op::Eq => if c.wildcard {
            shares_prefix(candidate, c.version)
        } else {
            order == 0
        },
        Op::Compatible => order >= 0 && order_from(
            ints(candidate),
            compatible_upper(c.version),
            0,
        ) < 0,
    }
}

/// The clause of one comma-separated piece.
pub open spec fn piece_clause() -> spec_fn(Seq<char>) -> Option<ClauseView> {
    |piece: Seq<char>| clause_spec(text::trim_spec(piece))
}

/// The clauses of a specifier; pieces that are no clause are passed over.
pub open spec fn clauses_spec(s: Seq<char>) -> Seq<ClauseView> {
    text::split_spec(s, text::eq_char(',')).filter_map(piece_clause())
}

/// Whether a release satisfies every clause.
pub open spec fn all_admit(clauses: Seq<ClauseView>, candidate: Seq<u64>) -> bool {
    forall|i: int| 0 <= i < clauses.len() ==> clause_admits(#[trigger] clauses[i], candidate)
}

/// The minors a `requires_python` specifier allows. One that holds no clause
/// allows every minor.
pub open spec fn requires_python_spec(s: Seq<char>) -> Set<u8> {
    let clauses = clauses_spec(text::trim_spec(s));
    Set::new(
        |m: u8|
            MIN_MINOR <= m <= MAX_MINOR && all_admit(clauses, seq![3u64, m as u64, 0u64]),
    )
}

/// Compare two releases, zero-padding the shorter. Returns -1/0/1.
pub fn compare_releases(a: &[u64], b: &[u64]) -> (r: i32)
    ensures
        r == release_order(a@, b@),
{
    let n = if a.len() < b.len() {
        b.len()
    } else {
        a.len()
    };
    let mut i: usize = 0;
    while i < n
        invariant
            i <= n,
            n >= a@.len(),
            n >= b@.len(),
            n == a@.len() || n == b@.len(),
            release_order(a@, b@) == order_from(ints(a@), ints(b@), i as int),
        decreases n - i,
    {
        let x: u64 = if i < a.len() {
            a[i]
        } else {
            0
        };
        let y: u64 = if i < b.len() {
            b[i]
        } else {
            0
        };
        if x < y {
            return -1;
        }
        if x > y {
            return 1;
        }
        i += 1;
    }
    0
}

/// Does `candidate` share the given prefix (for `==3.10.*`)?
fn prefix_matches(candidate: &[u64], prefix: &[u64]) -> (r: bool)
    ensures
        r == shares_prefix(candidate@, prefix@),
{
    let mut i: usize = 0;
    while i < prefix.len()
        invariant
            i <= prefix@.len(),
            forall|j: int| 0 <= j < i ==> segment(ints(candidate@), j) == #[trigger] prefix@[j],
        decreases prefix@.len() - i,
    {
        let x: u64 = if i < candidate.len() {
            candidate[i]
        } else {
            0
        };
        if x != prefix[i] {
            proof {
                assert(segment(ints(candidate@), i as int) != prefix@[i as int]);
            }
            return false;
        }
        i += 1;
    }
    true
}

proof fn lemma_order_past_zeros(a: Seq<int>, b: Seq<int>, i: int)
    requires
        0 <= i,
        forall|j: int| 0 <= j < a.len() ==> 0 <= #[trigger] a[j],
        b.len() <= i,
    ensures
        order_from(a, b, i) >= 0,
    decreases a.len() - i,
{
    if i < a.len() {
        lemma_order_past_zeros(a, b, i + 1);
    }
}

/// Is `candidate` below the end of the `~=` clause on `version`?
pub fn below_upper(candidate: &[u64], version: &[u64]) -> (r: bool)
    requires
        version@.len() > 0,
    ensures
        r == (order_from(ints(candidate@), compatible_upper(version@), 0) < 0),
{
    let n = if version.len() >= 2 {
        version.len() - 1
    } else {
        1
    };
    let ghost a = ints(candidate@);
    let ghost upper = compatible_upper(version@);
    let mut i: usize = 0;
    while i + 1 < n
        invariant
            i < n <= version@.len(),
            n == if version@.len() >= 2 {
                version@.len() - 1
            } else {
                1
            },
            a == ints(candidate@),
            upper == compatible_upper(version@),
            upper.len() == n,
            order_from(a, upper, 0) == order_from(a, upper, i as int),
        decreases n - i,
    {
        let x: u64 = if i < candidate.len() {
            candidate[i]
        } else {
            0
        };
        proof {
            assert(segment(upper, i as int) == version@[i as int]);
        }
        if x < version[i] {
            return true;
        }
        if x > version[i] {
            return false;
        }
        i += 1;
    }
    let x: u64 = if i < candidate.len() {
        candidate[i]
    } else {
        0
    };
    proof {
        assert(segment(upper, i as int) == version@[i as int] + 1);
        assert(segment(a, i as int) == x);
        lemma_order_past_zeros(a, upper, i as int + 1);
    }
    x <= version[i]
}

/// The numbers in the dot-separated pieces that are not empty.
fn read_release(s: &str) -> (r: Option<Vec<u64>>)
    ensures
        match r {
            Some(v) => release_numbers(text::split_spec(s@, text::eq_char('.'))) == Some(v@),
            None => release_numbers(text::split_spec(s@, text::eq_char('.'))) is None,
        },
{
    let parts = text::split(s, '.');
    let ghost pieces = text::texts(parts@);
    let mut out: Vec<u64> = Vec::new();
    let mut i: usize = 0;
    let mut failed = false;
    proof {
        assert(pieces.take(0) =~= seq![]);
    }
    while i < parts.len()
        invariant
            i <= parts@.len(),
            pieces == text::texts(parts@),
            release_numbers(pieces.take(i as int)) == (if failed {
                None
            } else {
                Some(out@)
            }),
        decreases parts@.len() - i,
    {
        let part = parts[i].as_str();
        proof {
            let now = pieces.take(i as int + 1);
            assert(now.drop_last() =~= pieces.take(i as int));
            assert(now.last() == part@);
        }
        if !failed && !part.is_empty() {
            match text::parse_uint(part, u64::MAX) {
                Some(n) => {
                    out.push(n);
                },
                None => {
                    failed = true;
                },
            }
        }
        i += 1;
    }
    proof {
        assert(pieces.take(i as int) =~= pieces);
    }
    if failed {
        None
    } else {
        Some(out)
    }
}

fn strip_stars<'a>(s: &'a str) -> (r: &'a str)
    ensures
        r@ == without_stars(s@),
{
    proof {
        reveal_strlit(".*");
    }
    let mut end: usize = s.unicode_len();
    proof {
        assert(s@.take(end as int) =~= s@);
    }
    while end >= 2 && text::ends_with(text::before(s, end), ".*")
        invariant
            end <= s@.len(),
            ".*"@.len() == 2,
            without_stars(s@.take(end as int)) == without_stars(s@),
        decreases end,
    {
        proof {
            assert(s@.take(end as int).take(end - 2) =~= s@.take(end - 2));
        }
        end -= 2;
    }
    text::before(s, end)
}

/// The operator a clause opens with and how many characters it takes.
pub fn read_operator(s: &str) -> (r: (Op, usize))
    ensures
        (r.0, r.1 as int) == operator_of(s@),
        r.1 <= s@.len(),
{
    proof {
        reveal_strlit(">=");
        reveal_strlit("<=");
        reveal_strlit("==");
        reveal_strlit("!=");
        reveal_strlit("~=");
        reveal_strlit(">");
        reveal_strlit("<");
    }
    if text::starts_with(s, ">=") {
        (Op::Ge, 2)
    } else if text::starts_with(s, "<=") {
        (Op::Le, 2)
    } else if text::starts_with(s, "==") {
        (Op::Eq, 2)
    } else if text::starts_with(s, "!=") {
        (Op::Ne, 2)
    } else if text::starts_with(s, "~=") {
        (Op::Compatible, 2)
    } else if text::starts_with(s, ">") {
        (Op::Gt, 1)
    } else if text::starts_with(s, "<") {
        (Op::Lt, 1)
    } else {
        (Op::Eq, 0)
    }
}

impl Clause {
    /// Read one clause. `None` when no version follows the operator.
    pub fn parse(s: &str) -> (r: Option<Clause>)
        ensures
            match r {
                Some(c) => clause_spec(s@) == Some(c@) && c@.version.len() > 0,
                None => clause_spec(s@) is None,
            },
    {
        let (op, n) = read_operator(s);
        let rest = text::trim(text::after(s, n));
        let wildcard = text::ends_with(rest, ".*");
        match read_release(strip_stars(rest)) {
            Some(version) => if version.len() == 0 {
                None
            } else {
                Some(Clause { op, version, wildcard })
            },
            None => None,
        }
    }

    /// Whether `candidate` satisfies this clause.
    pub fn matches(&self, candidate: &[u64]) -> (r: bool)
        requires
            self@.version.len() > 0,
        ensures
            r == clause_admits(self@, candidate@),
    {
        let order = compare_releases(candidate, self.version.as_slice());
        match self.op {
            Op::Ge => order >= 0,
            Op::Gt => order > 0,
            Op::Le => order <= 0,
            Op::Lt => order < 0,
            Op::Ne => if self.wildcard {
                !prefix_matches(candidate, self.version.as_slice())
            } else {
                order != 0
            },
            Op::Eq => if self.wildcard {
                prefix_matches(candidate, self.version.as_slice())
            } else {
                order == 0
            },
            Op::Compatible => order >= 0 && below_upper(candidate, self.version.as_slice()),
        }
    }
}

/// The clauses of a comma-joined specifier.
pub fn parse_clauses(s: &str) -> (r: Vec<Clause>)
    ensures
        clause_views(r@) == clauses_spec(s@),
        forall|i: int| 0 <= i < r@.len() ==> (#[trigger] r@[i])@.version.len() > 0,
{
    let parts = text::split(s, ',');
    let ghost pieces = text::texts(parts@);
    let mut out: Vec<Clause> = Vec::new();
    let mut i: usize = 0;
    proof {
        assert(clause_views(out@) =~= pieces.take(0).filter_map(piece_clause()));
    }
    while i < parts.len()
        invariant
            i <= parts@.len(),
            pieces == text::texts(parts@),
            clause_views(out@) == pieces.take(i as int).filter_map(piece_clause()),
            forall|j: int| 0 <= j < out@.len() ==> (#[trigger] out@[j])@.version.len() > 0,
        decreases parts@.len() - i,
    {
        let ghost before = out@;
        proof {
            pieces.lemma_filter_map_take_succ(piece_clause(), i as int);
            assert(pieces[i as int] == parts@[i as int]@);
        }
        match Clause::parse(text::trim(parts[i].as_str())) {
            Some(c) => {
                out.push(c);
                proof {
                    assert(clause_views(out@) =~= clause_views(before).push(c@));
                }
            },
            None => {},
        }
        i += 1;
    }
    proof {
        assert(pieces.take(i as int) =~= pieces);
    }
    out
}

/// Whether a release satisfies every clause.
pub fn all_match(clauses: &Vec<Clause>, candidate: &[u64]) -> (r: bool)
    requires
        forall|i: int| 0 <= i < clauses@.len() ==> (#[trigger] clauses@[i])@.version.len() > 0,
    ensures
        r == all_admit(clause_views(clauses@), candidate@),
{
    let ghost views = clause_views(clauses@);
    let mut i: usize = 0;
    while i < clauses.len()
        invariant
            i <= clauses@.len(),
            views == clause_views(clauses@),
            forall|j: int| 0 <= j < clauses@.len() ==> (#[trigger] clauses@[j])@.version.len() > 0,
            forall|j: int| 0 <= j < i ==> clause_admits(#[trigger] views[j], candidate@),
        decreases clauses@.len() - i,
    {
        if !clauses[i].matches(candidate) {
            proof {
                assert(!clause_admits(views[i as int], candidate@));
            }
            return false;
        }
        i += 1;
    }
    true
}

/// Parse a PEP 440 `requires_python` specifier into the set of versions it allows.
///
/// Supports the operators that actually appear in `requires_python`:
/// `>= <= > < == != ~=`, comma-joined (all must hold). An empty specifier
/// means "no constraint": the full universe.
pub fn parse_requires_python(spec: &str) -> (r: PyVersionSet)
    ensures
        r@ == requires_python_spec(spec@),
{
    let clauses = parse_clauses(text::trim(spec));
    let ghost views = clause_views(clauses@);
    let mut out = PyVersionSet::empty();
    let mut m: u8 = MIN_MINOR;
    while m <= MAX_MINOR
        invariant
            MIN_MINOR <= m <= MAX_MINOR + 1,
            views == clause_views(clauses@),
            forall|i: int| 0 <= i < clauses@.len() ==> (#[trigger] clauses@[i])@.version.len() > 0,
            forall|k: u8| #[trigger] out@.contains(k) <==> MIN_MINOR <= k < m && all_admit(
                views,
                seq![3u64, k as u64, 0u64],
            ),
        decreases MAX_MINOR + 1 - m,
    {
        let candidate: [u64; 3] = [3, m as u64, 0];
        proof {
            assert(candidate@ =~= seq![3u64, m as u64, 0u64]);
        }
        if all_match(&clauses, &candidate) {
            out.insert(PyVersion::py3(m));
        }
        m += 1;
    }
    proof {
        assert(out@ =~= requires_python_spec(spec@));
    }
    out
}

// ---------------------------------------------------------------------------
// Laws
// ---------------------------------------------------------------------------

proof fn lemma_highest_to(s: Set<u8>, m: int)
    requires
        m <= MAX_MINOR,
    ensures
        match highest_to(s, m) {
            Some(v) => in_scope(v) && v.minor <= m && s.contains(v.minor) && forall|k: u8|
                MIN_MINOR <= k <= m && #[trigger] s.contains(k) ==> k <= v.minor,
            None => forall|k: u8| MIN_MINOR <= k <= m ==> !#[trigger] s.contains(k),
        },
    decreases m + 1 - MIN_MINOR,
{
    if m >= MIN_MINOR && !s.contains(m as u8) {
        lemma_highest_to(s, m - 1);
    }
}

proof fn lemma_lowest_from(s: Set<u8>, m: int)
    requires
        MIN_MINOR <= m,
    ensures
        match lowest_from(s, m) {
            Some(v) => in_scope(v) && m <= v.minor && s.contains(v.minor) && forall|k: u8|
                m <= k <= MAX_MINOR && #[trigger] s.contains(k) ==> v.minor <= k,
            None => forall|k: u8| m <= k <= MAX_MINOR ==> !#[trigger] s.contains(k),
        },
    decreases MAX_MINOR + 1 - m,
{
    if m <= MAX_MINOR && !s.contains(m as u8) {
        lemma_lowest_from(s, m + 1);
    }
}

/// The highest version of a set is its newest member; only the empty set has
/// none.
pub proof fn highest_is_the_newest_member(s: Set<u8>)
    requires
        s.subset_of(universe_minors()),
    ensures
        match highest(s) {
            Some(v) => in_scope(v) && s.contains(v.minor) && forall|k: u8| #[trigger]
                s.contains(k) ==> k <= v.minor,
            None => s == Set::<u8>::empty(),
        },
{
    lemma_highest_to(s, MAX_MINOR as int);
    assert forall|k: u8| #[trigger] s.contains(k) implies MIN_MINOR <= k <= MAX_MINOR by {
        assert(universe_minors().contains(k));
    }
    if highest(s) is None {
        assert(s =~= Set::<u8>::empty());
    }
}

/// The lowest version of a set is its oldest member; only the empty set has none.
pub proof fn lowest_is_the_oldest_member(s: Set<u8>)
    requires
        s.subset_of(universe_minors()),
    ensures
        match lowest(s) {
            Some(v) => in_scope(v) && s.contains(v.minor) && forall|k: u8| #[trigger]
                s.contains(k) ==> v.minor <= k,
            None => s == Set::<u8>::empty(),
        },
{
    lemma_lowest_from(s, MIN_MINOR as int);
    assert forall|k: u8| #[trigger] s.contains(k) implies MIN_MINOR <= k <= MAX_MINOR by {
        assert(universe_minors().contains(k));
    }
    if lowest(s) is None {
        assert(s =~= Set::<u8>::empty());
    }
}

/// A specifier never allows a version outside the universe.
pub proof fn specifiers_stay_in_the_universe(s: Seq<char>)
    ensures
        requires_python_spec(s).subset_of(universe_minors()),
{
}

proof fn lemma_clauses_join(a: Seq<Seq<char>>, b: Seq<Seq<char>>)
    ensures
        (a + b).filter_map(piece_clause()) == a.filter_map(piece_clause()) + b.filter_map(
            piece_clause(),
        ),
    decreases b.len(),
{
    let f = piece_clause();
    if b.len() == 0 {
        assert(a + b =~= a);
        assert(b.filter_map(f) =~= Seq::<ClauseView>::empty());
        assert(a.filter_map(f) + b.filter_map(f) =~= a.filter_map(f));
    } else {
        assert((a + b).drop_last() =~= a + b.drop_last());
        assert((a + b).last() == b.last());
        lemma_clauses_join(a, b.drop_last());
        assert((a + b).filter_map(f) =~= a.filter_map(f) + b.filter_map(f));
    }
}

/// Pieces that give the same clauses one by one give the same clauses.
proof fn lemma_same_clauses(a: Seq<Seq<char>>, b: Seq<Seq<char>>)
    requires
        a.len() == b.len(),
        forall|i: int|
            0 <= i < a.len() ==> piece_clause()(#[trigger] a[i]) == piece_clause()(b[i]),
    ensures
        a.filter_map(piece_clause()) == b.filter_map(piece_clause()),
    decreases a.len(),
{
    if a.len() > 0 {
        let x = a.drop_last();
        let y = b.drop_last();
        assert forall|i: int| 0 <= i < x.len() implies piece_clause()(#[trigger] x[i])
            == piece_clause()(y[i]) by {
            assert(x[i] == a[i] && y[i] == b[i]);
        }
        lemma_same_clauses(x, y);
        assert(piece_clause()(a[a.len() - 1]) == piece_clause()(b[a.len() - 1]));
    }
}

/// A blank in front of a specifier or behind it changes none of its clauses.
proof fn lemma_blank_ends(s: Seq<char>, c: char)
    requires
        text::is_space(c),
    ensures
        clauses_spec(seq![c] + s) == clauses_spec(s),
        clauses_spec(s.push(c)) == clauses_spec(s),
{
    let p = text::eq_char(',');
    let pieces = text::split_spec(s, p);
    text::lemma_split_front(c, s, p);
    text::lemma_trim_ends(pieces[0], c);
    lemma_same_clauses(text::split_spec(seq![c] + s, p), pieces);
    text::lemma_split_back(s, c, p);
    text::lemma_trim_ends(pieces.last(), c);
    lemma_same_clauses(text::split_spec(s.push(c), p), pieces);
}

/// Trimming a specifier changes none of its clauses.
proof fn lemma_trimming_keeps_clauses(s: Seq<char>)
    ensures
        clauses_spec(text::trim_spec(s)) == clauses_spec(s),
    decreases s.len(),
{
    if s.len() == 0 {
        text::lemma_first_index(s, text::not_space());
        assert(text::trim_spec(s) =~= s);
    } else if text::is_space(s[0]) {
        let t = s.drop_first();
        assert(seq![s[0]] + t =~= s);
        text::lemma_trim_ends(t, s[0]);
        lemma_blank_ends(t, s[0]);
        lemma_trimming_keeps_clauses(t);
    } else if text::is_space(s.last()) {
        let t = s.drop_last();
        assert(t.push(s.last()) =~= s);
        text::lemma_trim_ends(t, s.last());
        lemma_blank_ends(t, s.last());
        lemma_trimming_keeps_clauses(t);
    } else {
        text::lemma_first_index_is(s, text::not_space(), 0);
        assert(s.skip(0) =~= s);
        text::lemma_last_index_is(s, text::not_space(), s.len() as int);
        assert(s.take(s.len() as int) =~= s);
    }
}

/// A comma joins specifiers: what the two allow together is what both allow.
pub proof fn commas_join_specifiers(a: Seq<char>, b: Seq<char>)
    ensures
        requires_python_spec(a + ","@ + b) == requires_python_spec(a).intersect(
            requires_python_spec(b),
        ),
{
    reveal_strlit(",");
    let s = a + ","@ + b;
    assert(","@ =~= seq![',']);
    lemma_trimming_keeps_clauses(a);
    lemma_trimming_keeps_clauses(b);
    lemma_trimming_keeps_clauses(s);
    let p = text::eq_char(',');
    text::lemma_split_at(a, ',', b, p);
    lemma_clauses_join(text::split_spec(a, p), text::split_spec(b, p));
    let x = clauses_spec(a);
    let y = clauses_spec(b);
    let both = clauses_spec(s);
    assert(both == x + y);
    assert forall|c: Seq<u64>| #[trigger] all_admit(both, c) <==> all_admit(x, c) && all_admit(
        y,
        c,
    ) by {
        if all_admit(both, c) {
            assert forall|i: int| 0 <= i < x.len() implies clause_admits(#[trigger] x[i], c) by {
                assert(both[i] == x[i]);
            }
            assert forall|i: int| 0 <= i < y.len() implies clause_admits(#[trigger] y[i], c) by {
                assert(both[x.len() + i] == y[i]);
            }
        }
    }
    assert(requires_python_spec(s) =~= requires_python_spec(a).intersect(requires_python_spec(b)));
}

/// A release as it is written: its numbers with dots between.
pub open spec fn release_text(release: Seq<u64>) -> Seq<char> {
    text::join_spec(
        Seq::new(release.len(), |i: int| text::decimal_spec(release[i] as nat)),
        seq!['.'],
    )
}

spec fn decimals(release: Seq<u64>) -> Seq<Seq<char>> {
    Seq::new(release.len(), |i: int| text::decimal_spec(release[i] as nat))
}

proof fn lemma_release_numbers(release: Seq<u64>)
    ensures
        release_numbers(decimals(release)) == Some(release),
    decreases release.len(),
{
    let parts = decimals(release);
    if release.len() > 0 {
        let before = release.drop_last();
        assert(parts.drop_last() =~= decimals(before));
        lemma_release_numbers(before);
        text::numbers_read_back(release.last() as nat, u64::MAX as nat);
        assert(parts.last() == text::decimal_spec(release.last() as nat));
        assert(before.push(release.last()) =~= release);
    }
}

/// A release holds digits and dots alone, and begins and ends with a digit.
pub proof fn lemma_release_text(release: Seq<u64>)
    requires
        release.len() > 0,
    ensures
        release_text(release).len() > 0,
        text::is_digit(release_text(release)[0]),
        text::is_digit(release_text(release).last()),
        forall|i: int|
            0 <= i < release_text(release).len() ==> text::is_digit(#[trigger] release_text(
                release,
            )[i]) || release_text(release)[i] == '.',
    decreases release.len(),
{
    let parts = decimals(release);
    let s = release_text(release);
    let last = text::decimal_spec(release.last() as nat);
    text::numbers_read_back(release.last() as nat, u64::MAX as nat);
    assert(parts.last() == last);
    assert(text::is_digit(last[0]) && text::is_digit(last[last.len() - 1]));
    let before = release.drop_last();
    assert(parts.drop_last() =~= decimals(before));
    if release.len() > 1 {
        lemma_release_text(before);
        let front = release_text(before);
        assert(s == front + seq!['.'] + last);
        assert(s[0] == front[0]);
        assert(s.last() == last.last());
        assert forall|i: int| 0 <= i < s.len() implies text::is_digit(#[trigger] s[i]) || s[i]
            == '.' by {
            if i < front.len() {
                assert(s[i] == front[i]);
            } else if i > front.len() {
                assert(s[i] == last[i - front.len() - 1]);
            }
        }
    } else {
        assert(s == last);
    }
}

/// A release comes apart at its dots.
pub proof fn lemma_release_pieces(release: Seq<u64>)
    requires
        release.len() > 0,
    ensures
        text::split_spec(release_text(release), text::eq_char('.')) == Seq::new(
            release.len(),
            |i: int| text::decimal_spec(release[i] as nat),
        ),
{
    let parts = decimals(release);
    assert forall|i: int| 0 <= i < parts.len() implies !(#[trigger] parts[i]).contains('.') by {
        text::numbers_read_back(release[i] as nat, u64::MAX as nat);
        if parts[i].contains('.') {
            let k = choose|k: int| 0 <= k < parts[i].len() && parts[i][k] == '.';
            assert(text::is_digit(parts[i][k]));
        }
    }
    text::pieces_read_back(parts, '.');
}

proof fn lemma_release_reads(release: Seq<u64>)
    requires
        release.len() > 0,
    ensures
        release_numbers(text::split_spec(release_text(release), text::eq_char('.'))) == Some(
            release,
        ),
{
    lemma_release_pieces(release);
    assert(decimals(release) =~= Seq::new(
        release.len(),
        |i: int| text::decimal_spec(release[i] as nat),
    ));
    lemma_release_numbers(release);
}

/// The operator a text of its own stands for.
pub open spec fn op_text(op: Op) -> Seq<char> {
    match op {
        Op::Ge => ">="@,
        Op::Le => "<="@,
        Op::Gt => ">"@,
        Op::Lt => "<"@,
        Op::Eq => "=="@,
        Op::Ne => "!="@,
        Op::Compatible => "~="@,
    }
}

pub proof fn lemma_operator(op: Op, rest: Seq<char>)
    requires
        rest.len() > 0,
        text::is_digit(rest[0]),
    ensures
        operator_of(op_text(op) + rest) == (op, op_text(op).len() as int),
        operator_of(rest) == (Op::Eq, 0int),
        op_text(op).len() > 0,
        forall|i: int| 0 <= i < op_text(op).len() ==> (#[trigger] op_text(op)[i]) != ',',
        !text::is_space(op_text(op)[0]),
{
    reveal_strlit(">=");
    reveal_strlit("<=");
    reveal_strlit("==");
    reveal_strlit("!=");
    reveal_strlit("~=");
    reveal_strlit(">");
    reveal_strlit("<");
    let s = op_text(op) + rest;
    assert(s[op_text(op).len() as int] == rest[0]);
    assert(s.take(op_text(op).len() as int) =~= op_text(op));
    assert(s.take(2)[0] == s[0]);
    assert(s.take(2)[1] == s[1]);
    assert(s.take(1)[0] == s[0]);
    assert(rest.take(1)[0] == rest[0]);
    if rest.len() >= 2 {
        assert(rest.take(2)[0] == rest[0]);
    }
}

/// What ends a release that stands for all that begin with it.
pub open spec fn star_text(star: bool) -> Seq<char> {
    if star {
        ".*"@
    } else {
        seq![]
    }
}

/// The star at the end of a release, and the release without it.
proof fn lemma_star(release: Seq<u64>, star: bool)
    requires
        release.len() > 0,
    ensures
        ({
            let rest = release_text(release) + star_text(star);
            &&& rest.len() > 0
            &&& text::is_digit(rest[0])
            &&& !text::is_space(rest.last())
            &&& text::ends(rest, ".*"@) == star
            &&& without_stars(rest) == release_text(release)
            &&& forall|i: int| 0 <= i < rest.len() ==> (#[trigger] rest[i]) != ','
        }),
{
    reveal_strlit(".*");
    let v = release_text(release);
    lemma_release_text(release);
    let rest = v + star_text(star);
    assert(rest[0] == v[0]);
    if v.len() >= 2 && text::ends(v, ".*"@) {
        assert(v.skip(v.len() - 2)[1] == v[v.len() - 1]);
    }
    assert(without_stars(v) == v);
    if star {
        assert(rest.skip(rest.len() - 2) =~= ".*"@);
        assert(rest.take(rest.len() - 2) =~= v);
    } else {
        assert(rest =~= v);
    }
    assert forall|i: int| 0 <= i < rest.len() implies (#[trigger] rest[i]) != ',' by {
        if i < v.len() {
            assert(rest[i] == v[i]);
        }
    }
}

/// What a clause reads: the operator, the release, and whether a star ends it.
pub proof fn lemma_clause_reads(front: Seq<char>, op: Op, release: Seq<u64>, star: bool)
    requires
        release.len() > 0,
        front == op_text(op) || op == Op::Eq && front.len() == 0,
    ensures
        ({
            let s = front + release_text(release) + star_text(star);
            &&& clause_spec(s) == Some(ClauseView { op, version: release, wildcard: star })
            &&& text::trim_spec(s) == s
            &&& forall|i: int| 0 <= i < s.len() ==> (#[trigger] s[i]) != ','
        }),
{
    let rest = release_text(release) + star_text(star);
    let s = front + release_text(release) + star_text(star);
    lemma_star(release, star);
    lemma_release_reads(release);
    lemma_operator(op, rest);
    assert(s =~= front + rest);
    let n = front.len() as int;
    if n == 0 {
        assert(s =~= rest);
    }
    assert(operator_of(s) == (op, n));
    assert(s.skip(n) =~= rest);
    text::lemma_trimmed(rest);
    assert(s.last() == rest.last());
    text::lemma_trimmed(s);
    assert forall|i: int| 0 <= i < s.len() implies (#[trigger] s[i]) != ',' by {
        if i < n {
            assert(s[i] == front[i]);
        } else {
            assert(s[i] == rest[i - n]);
        }
    }
}

/// What a specifier of one clause allows.
proof fn lemma_one_clause(front: Seq<char>, op: Op, release: Seq<u64>, star: bool, m: u8)
    requires
        release.len() > 0,
        front == op_text(op) || op == Op::Eq && front.len() == 0,
    ensures
        requires_python_spec(
            front + release_text(release) + star_text(star),
        ).contains(m) <==> MIN_MINOR <= m <= MAX_MINOR && clause_admits(
            ClauseView { op, version: release, wildcard: star },
            seq![3u64, m as u64, 0u64],
        ),
{
    let s = front + release_text(release) + star_text(star);
    lemma_clause_reads(front, op, release, star);
    let c = ClauseView { op, version: release, wildcard: star };
    assert forall|i: int| 0 <= i < s.len() implies !text::eq_char(',')(#[trigger] s[i]) by {}
    text::lemma_split_none(s, text::eq_char(','));
    let pieces = text::split_spec(s, text::eq_char(','));
    assert(pieces == seq![s]);
    assert(pieces.drop_last() =~= Seq::<Seq<char>>::empty());
    assert(pieces.drop_last().filter_map(piece_clause()) =~= Seq::<ClauseView>::empty());
    assert(piece_clause()(s) == Some(c));
    assert(clauses_spec(s) =~= seq![c]);
    let all = clauses_spec(s);
    assert(all[0] == c);
}

/// Releases compare at their first difference, the shorter padded with zeros; with
/// none they are equal.
pub proof fn releases_compare_at_their_first_difference(a: Seq<u64>, b: Seq<u64>, i: int)
    requires
        0 <= i,
        forall|j: int|
            0 <= j < i ==> #[trigger] segment(ints(a), j) == segment(ints(b), j),
    ensures
        (if i < a.len() {
            a[i] as int
        } else {
            0
        }) < (if i < b.len() {
            b[i] as int
        } else {
            0
        }) ==> release_order(a, b) < 0 && release_order(b, a) > 0,
        i >= a.len() && i >= b.len() ==> release_order(a, b) == 0,
        a == b ==> release_order(a, b) == 0,
{
    lemma_order_at(ints(a), ints(b), 0, i);
    lemma_order_at(ints(b), ints(a), 0, i);
    if a == b {
        lemma_order_at(ints(a), ints(b), 0, a.len() as int);
    }
}

/// The segment of a release at a position, zero past its end.
pub proof fn releases_are_padded_with_zeros(a: Seq<u64>, i: int)
    requires
        0 <= i,
    ensures
        segment(ints(a), i) == if i < a.len() {
            a[i] as int
        } else {
            0
        },
{
}

proof fn lemma_order_at(a: Seq<int>, b: Seq<int>, k: int, i: int)
    requires
        0 <= k,
        forall|j: int| k <= j < i ==> #[trigger] segment(a, j) == segment(b, j),
        forall|j: int| 0 <= j < a.len() ==> #[trigger] a[j] >= 0,
        forall|j: int| 0 <= j < b.len() ==> #[trigger] b[j] >= 0,
    ensures
        k <= i && segment(a, i) < segment(b, i) ==> order_from(a, b, k) < 0,
        k <= i && segment(a, i) > segment(b, i) ==> order_from(a, b, k) > 0,
        i >= a.len() && i >= b.len() ==> order_from(a, b, k) == 0,
    decreases a.len() + b.len() - k,
{
    if k < a.len() || k < b.len() {
        if k < i {
            assert(segment(a, k) == segment(b, k));
            lemma_order_at(a, b, k + 1, i);
        } else if segment(a, k) == segment(b, k) {
            if i >= a.len() && i >= b.len() {
                lemma_order_at(a, b, k + 1, i);
            }
        }
    }
}

/// What a specifier of one comparison allows: the minors whose first release
/// compares so with the release it names.
pub proof fn specifiers_compare_first_releases(release: Seq<u64>, m: u8)
    requires
        release.len() > 0,
    ensures
        requires_python_spec(">="@ + release_text(release)).contains(m) <==> 7 <= m <= 14
            && release_order(seq![3u64, m as u64, 0u64], release) >= 0,
        requires_python_spec("<="@ + release_text(release)).contains(m) <==> 7 <= m <= 14
            && release_order(seq![3u64, m as u64, 0u64], release) <= 0,
        requires_python_spec(">"@ + release_text(release)).contains(m) <==> 7 <= m <= 14
            && release_order(seq![3u64, m as u64, 0u64], release) > 0,
        requires_python_spec("<"@ + release_text(release)).contains(m) <==> 7 <= m <= 14
            && release_order(seq![3u64, m as u64, 0u64], release) < 0,
        requires_python_spec("=="@ + release_text(release)).contains(m) <==> 7 <= m <= 14
            && release_order(seq![3u64, m as u64, 0u64], release) == 0,
        requires_python_spec("!="@ + release_text(release)).contains(m) <==> 7 <= m <= 14
            && release_order(seq![3u64, m as u64, 0u64], release) != 0,
        requires_python_spec(release_text(release)).contains(m) <==> 7 <= m <= 14
            && release_order(seq![3u64, m as u64, 0u64], release) == 0,
{
    let v = release_text(release);
    let e = Seq::<char>::empty();
    lemma_one_clause(">="@, Op::Ge, release, false, m);
    assert(">="@ + v + e =~= ">="@ + v);
    lemma_one_clause("<="@, Op::Le, release, false, m);
    assert("<="@ + v + e =~= "<="@ + v);
    lemma_one_clause(">"@, Op::Gt, release, false, m);
    assert(">"@ + v + e =~= ">"@ + v);
    lemma_one_clause("<"@, Op::Lt, release, false, m);
    assert("<"@ + v + e =~= "<"@ + v);
    lemma_one_clause("=="@, Op::Eq, release, false, m);
    assert("=="@ + v + e =~= "=="@ + v);
    lemma_one_clause("!="@, Op::Ne, release, false, m);
    assert("!="@ + v + e =~= "!="@ + v);
    lemma_one_clause(e, Op::Eq, release, false, m);
    assert(e + v + e =~= v);
}

/// A star stands for whatever follows: such a specifier allows, or rules out, the
/// minors that begin with the release it names.
pub proof fn stars_match_what_begins_so(release: Seq<u64>, m: u8)
    requires
        release.len() > 0,
    ensures
        requires_python_spec("=="@ + release_text(release) + ".*"@).contains(m) <==> 7 <= m <= 14
            && release[0] == 3 && (release.len() >= 2 ==> release[1] == m) && forall|i: int|
            2 <= i < release.len() ==> #[trigger] release[i] == 0,
        requires_python_spec("!="@ + release_text(release) + ".*"@).contains(m) <==> 7 <= m <= 14
            && !requires_python_spec("=="@ + release_text(release) + ".*"@).contains(m),
{
    lemma_one_clause("=="@, Op::Eq, release, true, m);
    lemma_one_clause("!="@, Op::Ne, release, true, m);
    let candidate = seq![3u64, m as u64, 0u64];
    if shares_prefix(candidate, release) {
        assert(segment(ints(candidate), 0) == release[0]);
        if release.len() >= 2 {
            assert(segment(ints(candidate), 1) == release[1]);
        }
        assert forall|i: int| 2 <= i < release.len() implies #[trigger] release[i] == 0 by {
            assert(segment(ints(candidate), i) == release[i]);
        }
    }
    if release[0] == 3 && (release.len() >= 2 ==> release[1] == m) && forall|i: int|
        2 <= i < release.len() ==> #[trigger] release[i] == 0 {
        assert forall|i: int| 0 <= i < release.len() implies segment(ints(candidate), i)
            == #[trigger] release[i] by {}
    }
}

/// A compatible release is no older than the one named, and begins as it does but
/// for the last number.
pub proof fn compatible_releases_keep_all_but_the_last_number(release: Seq<u64>, last: u64, m: u8)
    requires
        release.len() > 0,
    ensures
        requires_python_spec("~="@ + release_text(release.push(last))).contains(m)
            <==> requires_python_spec(">="@ + release_text(release.push(last))).contains(m)
            && requires_python_spec("=="@ + release_text(release) + ".*"@).contains(m),
{
    let full = release.push(last);
    let e = Seq::<char>::empty();
    let v = release_text(full);
    lemma_one_clause("~="@, Op::Compatible, full, false, m);
    assert("~="@ + v + e =~= "~="@ + v);
    lemma_one_clause(">="@, Op::Ge, full, false, m);
    assert(">="@ + v + e =~= ">="@ + v);
    lemma_one_clause("=="@, Op::Eq, release, true, m);
    let candidate = seq![3u64, m as u64, 0u64];
    let a = ints(candidate);
    let n = release.len() as int;
    assert(full.take(n) =~= release);
    let upper = compatible_upper(full);
    assert(upper.len() == n);
    assert(forall|j: int| 0 <= j < n - 1 ==> #[trigger] upper[j] == release[j]);
    assert(upper[n - 1] == release[n - 1] + 1);
    if shares_prefix(candidate, release) {
        assert forall|j: int| 0 <= j < n - 1 implies #[trigger] segment(a, j) == segment(
            upper,
            j,
        ) by {
            assert(segment(a, j) == release[j]);
        }
        assert(segment(a, n - 1) == release[n - 1]);
        lemma_order_at(a, upper, 0, n - 1);
    } else {
        let d = lemma_first_difference(candidate, release);
        assert forall|j: int| 0 <= j < d implies #[trigger] segment(a, j) == segment(
            ints(full),
            j,
        ) by {
            assert(segment(a, j) == release[j]);
        }
        assert(segment(ints(full), d) == release[d]);
        lemma_order_at(a, ints(full), 0, d);
        if segment(a, d) > release[d] {
            assert forall|j: int| 0 <= j < d implies #[trigger] segment(a, j) == segment(
                upper,
                j,
            ) by {
                assert(segment(a, j) == release[j]);
            }
            if d < n - 1 {
                lemma_order_at(a, upper, 0, d);
            } else if segment(a, d) > upper[d] {
                lemma_order_at(a, upper, 0, d);
            } else {
                lemma_order_never_below(a, upper, 0);
            }
        }
    }
}

/// A release is not below another that it agrees with on all of its numbers.
proof fn lemma_order_never_below(a: Seq<int>, b: Seq<int>, k: int)
    requires
        0 <= k,
        forall|j: int| k <= j < b.len() ==> #[trigger] segment(a, j) == segment(b, j),
        forall|j: int| 0 <= j < a.len() ==> #[trigger] a[j] >= 0,
    ensures
        order_from(a, b, k) >= 0,
    decreases a.len() + b.len() - k,
{
    if k < a.len() || k < b.len() {
        if k < b.len() {
            assert(segment(a, k) == segment(b, k));
        }
        lemma_order_never_below(a, b, k + 1);
    }
}

/// Where a release first differs from a prefix that it does not share.
proof fn lemma_first_difference(candidate: Seq<u64>, prefix: Seq<u64>) -> (d: int)
    requires
        !shares_prefix(candidate, prefix),
    ensures
        0 <= d < prefix.len(),
        segment(ints(candidate), d) != prefix[d],
        forall|j: int| 0 <= j < d ==> segment(ints(candidate), j) == #[trigger] prefix[j],
    decreases prefix.len(),
{
    let front = prefix.drop_last();
    if !shares_prefix(candidate, front) {
        let d = lemma_first_difference(candidate, front);
        assert forall|j: int| 0 <= j < d implies segment(ints(candidate), j)
            == #[trigger] prefix[j] by {
            assert(front[j] == prefix[j]);
        }
        d
    } else {
        let n = prefix.len() - 1;
        assert forall|j: int| 0 <= j < n implies segment(ints(candidate), j)
            == #[trigger] prefix[j] by {
            assert(front[j] == prefix[j]);
        }
        n
    }
}

/// A minor is allowed from and up to the minor that a specifier names.
pub proof fn minors_are_bounded_as_named(n: u64, m: u8)
    requires
        7 <= m <= 14,
    ensures
        requires_python_spec(">="@ + release_text(seq![3u64, n])).contains(m) <==> m >= n,
        requires_python_spec(">"@ + release_text(seq![3u64, n])).contains(m) <==> m > n,
        requires_python_spec("<="@ + release_text(seq![3u64, n])).contains(m) <==> m <= n,
        requires_python_spec("<"@ + release_text(seq![3u64, n])).contains(m) <==> m < n,
        requires_python_spec("=="@ + release_text(seq![3u64, n])).contains(m) <==> m == n,
        requires_python_spec("!="@ + release_text(seq![3u64, n])).contains(m) <==> m != n,
        requires_python_spec("~="@ + release_text(seq![3u64, n])).contains(m) <==> m >= n,
{
    let release = seq![3u64, n];
    let candidate = seq![3u64, m as u64, 0u64];
    specifiers_compare_first_releases(release, m);
    compatible_releases_keep_all_but_the_last_number(seq![3u64], n, m);
    assert(seq![3u64].push(n) =~= release);
    stars_match_what_begins_so(seq![3u64], m);
    assert(segment(ints(candidate), 0) == segment(ints(release), 0));
    releases_compare_at_their_first_difference(candidate, release, 1);
    releases_compare_at_their_first_difference(release, candidate, 1);
    if m == n {
        assert(segment(ints(candidate), 1) == segment(ints(release), 1));
        assert(segment(ints(candidate), 2) == segment(ints(release), 2));
        releases_compare_at_their_first_difference(candidate, release, 3);
    }
}

/// A version reads back from the text shown for it, and from an interpreter tag,
/// and what follows its minor changes nothing.
pub proof fn versions_read_back(v: PyVersion, rest: Seq<char>)
    requires
        v.major == 3,
        rest.len() > 0 ==> !text::is_space(rest.last()),
    ensures
        parse_version_spec(version_text(v)) == if 7 <= v.minor <= 14 {
            Some(v)
        } else {
            None
        },
        parse_version_spec("cp3"@ + text::decimal_spec(v.minor as nat)) == if 7 <= v.minor <= 14 {
            Some(v)
        } else {
            None
        },
        parse_version_spec(version_text(v) + "."@ + rest) == if 7 <= v.minor <= 14 {
            Some(v)
        } else {
            None
        },
{
    reveal_strlit(".");
    reveal_strlit("cp");
    reveal_strlit("pp");
    reveal_strlit("cp3");
    let major = text::decimal_spec(3);
    let minor = text::decimal_spec(v.minor as nat);
    text::numbers_read_back(3, u8::MAX as nat);
    text::numbers_read_back(v.minor as nat, u8::MAX as nat);
    assert(major =~= seq!['3']) by {
        assert(text::digit_char(3) == '3');
    }
    assert(text::is_digit(minor[0]) && text::is_digit(minor[minor.len() - 1]));
    let p = text::eq_char('.');
    assert forall|i: int| 0 <= i < major.len() implies !p(#[trigger] major[i]) by {}
    assert forall|i: int| 0 <= i < minor.len() implies !p(#[trigger] minor[i]) by {
        assert(text::is_digit(minor[i]));
    }
    text::lemma_split_none(major, p);
    text::lemma_split_none(minor, p);
    // The text.
    let t = version_text(v);
    assert(t =~= major + seq!['.'] + minor);
    assert(t[0] == '3' && t.last() == minor[minor.len() - 1]);
    text::lemma_trimmed(t);
    assert(t.take(2)[0] == t[0]);
    text::lemma_split_at(major, '.', minor, p);
    assert(text::split_spec(t, p) =~= seq![major, minor]);
    // The text with more behind it.
    let u = t + "."@ + rest;
    assert(u =~= t + seq!['.'] + rest);
    assert(u[0] == '3');
    text::lemma_trimmed(u);
    assert(u.take(2)[0] == u[0]);
    text::lemma_split_at(t, '.', rest, p);
    assert(text::split_spec(u, p)[0] == major && text::split_spec(u, p)[1] == minor);
    // The tag.
    let g = "cp3"@ + minor;
    assert(g.last() == minor[minor.len() - 1]);
    text::lemma_trimmed(g);
    assert(g.take(2) =~= "cp"@);
    let digits = g.skip(2);
    assert(digits =~= seq!['3'] + minor);
    assert forall|i: int| 0 <= i < digits.len() implies !not_digit()(#[trigger] digits[i]) by {
        if i > 0 {
            assert(digits[i] == minor[i - 1]);
        }
    }
    text::lemma_first_index_is(digits, not_digit(), digits.len() as int);
    assert(digits.take(digits.len() as int) =~= digits);
    assert(digits.take(1) =~= major);
    assert(digits.skip(1) =~= minor);
}

/// The versions of a set in order: each member once, the oldest first.
pub proof fn members_are_listed_in_order(s: Set<u8>)
    requires
        s.subset_of(universe_minors()),
    ensures
        forall|m: u8|
            s.contains(m) <==> #[trigger] members_to(s, MAX_MINOR as int).contains(
                PyVersion { major: 3, minor: m },
            ),
        forall|i: int, j: int|
            0 <= i < j < members_to(s, MAX_MINOR as int).len() ==> (#[trigger] members_to(
                s,
                MAX_MINOR as int,
            )[i]).minor < (#[trigger] members_to(s, MAX_MINOR as int)[j]).minor,
{
    lemma_members(s, MAX_MINOR as int);
    assert forall|m: u8|
        s.contains(m) <==> #[trigger] members_to(s, MAX_MINOR as int).contains(
            PyVersion { major: 3, minor: m },
        ) by {
        if s.contains(m) {
            assert(universe_minors().contains(m));
        }
    }
}

proof fn lemma_members(s: Set<u8>, n: int)
    requires
        n <= MAX_MINOR,
    ensures
        forall|m: u8|
            s.contains(m) && MIN_MINOR <= m <= n <==> #[trigger] members_to(s, n).contains(
                PyVersion { major: 3, minor: m },
            ),
        forall|i: int| 0 <= i < members_to(s, n).len() ==> (#[trigger] members_to(s, n)[i]).minor
            <= n,
        forall|i: int, j: int|
            0 <= i < j < members_to(s, n).len() ==> (#[trigger] members_to(s, n)[i]).minor < (
            #[trigger] members_to(s, n)[j]).minor,
    decreases n + 1 - MIN_MINOR,
{
    if n >= MIN_MINOR {
        lemma_members(s, n - 1);
        let before = members_to(s, n - 1);
        let now = members_to(s, n);
        assert forall|m: u8|
            s.contains(m) && MIN_MINOR <= m <= n <==> #[trigger] now.contains(
                PyVersion { major: 3, minor: m },
            ) by {
            let v = PyVersion { major: 3, minor: m };
            assert(before.contains(v) <==> s.contains(m) && MIN_MINOR <= m <= n - 1);
            if before.contains(v) {
                let i = choose|i: int| 0 <= i < before.len() && before[i] == v;
                assert(now[i] == v);
            }
            if now.contains(v) {
                let i = choose|i: int| 0 <= i < now.len() && now[i] == v;
                if i < before.len() {
                    assert(before[i] == v);
                }
            }
            if m == n && s.contains(m) {
                assert(now.last() == v);
                assert(now[now.len() - 1] == v);
            }
        }
    } else {
        assert(members_to(s, n) =~= Seq::<PyVersion>::empty());
    }
}

/// The runs of a set hold its members and no other, in order, with a gap between
/// any two.
pub proof fn runs_hold_the_members(s: Set<u8>)
    requires
        s.subset_of(universe_minors()),
    ensures
        forall|m: u8|
            s.contains(m) <==> exists|i: int|
                0 <= i < runs_to(s, MAX_MINOR as int).len() && (#[trigger] runs_to(
                    s,
                    MAX_MINOR as int,
                )[i]).0 <= m <= runs_to(s, MAX_MINOR as int)[i].1,
        forall|i: int|
            0 <= i < runs_to(s, MAX_MINOR as int).len() - 1 ==> (#[trigger] runs_to(
                s,
                MAX_MINOR as int,
            )[i]).1 + 1 < runs_to(s, MAX_MINOR as int)[i + 1].0,
{
    lemma_runs(s, MAX_MINOR as int);
    assert forall|m: u8| #[trigger] s.contains(m) implies MIN_MINOR <= m <= MAX_MINOR by {
        assert(universe_minors().contains(m));
    }
}

proof fn lemma_runs(s: Set<u8>, n: int)
    requires
        n <= MAX_MINOR,
    ensures
        forall|m: u8|
            s.contains(m) && MIN_MINOR <= m <= n <==> exists|i: int|
                0 <= i < runs_to(s, n).len() && (#[trigger] runs_to(s, n)[i]).0 <= m <= runs_to(
                    s,
                    n,
                )[i].1,
        forall|i: int|
            0 <= i < runs_to(s, n).len() ==> (#[trigger] runs_to(s, n)[i]).0 <= runs_to(s, n)[i].1
                <= n,
        forall|i: int|
            0 <= i < runs_to(s, n).len() - 1 ==> (#[trigger] runs_to(s, n)[i]).1 + 1 < runs_to(
                s,
                n,
            )[i + 1].0,
    decreases n + 1 - MIN_MINOR,
{
    if n >= MIN_MINOR {
        lemma_runs(s, n - 1);
        let before = runs_to(s, n - 1);
        let now = runs_to(s, n);
        assert forall|m: u8|
            s.contains(m) && MIN_MINOR <= m <= n <==> exists|i: int|
                0 <= i < now.len() && (#[trigger] now[i]).0 <= m <= now[i].1 by {
            if m == n {
                assert(n as u8 == m);
            }
            if s.contains(m) && MIN_MINOR <= m <= n {
                if m == n {
                    let k = now.len() - 1;
                    assert(now[k].0 <= m <= now[k].1);
                } else {
                    let i = choose|i: int|
                        0 <= i < before.len() && (#[trigger] before[i]).0 <= m <= before[i].1;
                    assert(now[i].0 <= m <= now[i].1);
                }
            }
            if exists|i: int| 0 <= i < now.len() && (#[trigger] now[i]).0 <= m <= now[i].1 {
                let i = choose|i: int| 0 <= i < now.len() && (#[trigger] now[i]).0 <= m <= now[i].1;
                if m != n && i < before.len() {
                    assert(before[i].0 <= m <= before[i].1);
                }
                if m == n && !s.contains(m) {
                    assert(now == before);
                    assert(before[i].1 <= n - 1);
                }
            }
        }
    }
}

} // verus!
