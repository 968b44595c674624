//! Wheel filename tag parsing.
//!
//! The real-world compatibility signal is often not `requires_python` but
//! whether a binary wheel for the interpreter and platform exists. A wheel
//! filename is
//!   `{distribution}-{version}(-{build})?-{pytag}-{abitag}-{platformtag}.whl`
//! and each of its last three fields may be dot-compound.

use vstd::prelude::*;

use crate::engine::platform::{tag_runs_on, Platform};
use crate::pypi::pyversion::{
    compact_version, in_scope, not_digit, read_compact, universe_minors,
};
use crate::pypi::pyversion::{PyVersion, PyVersionSet, MAX_MINOR};
use crate::text;

verus! {

/// A parsed wheel filename's compatibility tags.
#[derive(Debug, PartialEq, Eq)]
pub struct WheelTags {
    pub py: Vec<String>,
    pub abi: Vec<String>,
    pub platform: Vec<String>,
}

/// Compatibility tags, mathematically.
#[verifier::ext_equal]
pub struct WheelTagsView {
    pub py: Seq<Seq<char>>,
    pub abi: Seq<Seq<char>>,
    pub platform: Seq<Seq<char>>,
}

impl View for WheelTags {
    type V = WheelTagsView;

    open spec fn view(&self) -> WheelTagsView {
        WheelTagsView {
            py: text::texts(self.py@),
            abi: text::texts(self.abi@),
            platform: text::texts(self.platform@),
        }
    }
}

/// The dot-separated parts of a tag.
pub open spec fn compound(s: Seq<char>) -> Seq<Seq<char>> {
    text::split_spec(s, text::eq_char('.'))
}

/// The tags of a wheel filename: its last three dash-separated fields of at
/// least five.
pub open spec fn wheel_tags_spec(filename: Seq<char>) -> Option<WheelTagsView> {
    let parts = text::split_spec(filename.take(filename.len() - 4), text::eq_char('-'));
    let n = parts.len() as int;
    if !text::ends(filename, ".whl"@) || n < 5 {
        None
    } else {
        Some(
            WheelTagsView {
                py: compound(parts[n - 3]),
                abi: compound(parts[n - 2]),
                platform: compound(parts[n - 1]),
            },
        )
    }
}

/// What a Python tag stands for.
#[derive(Debug, Clone, Copy, PartialEq, Eq, Structural)]
pub enum PyTag {
    /// Concrete CPython tag: cp312.
    Cp(PyVersion),
    /// Generic pure-python 3: py3 / py2.py3.
    PurePy3,
    /// py38-style tag pinned to a minor.
    PyMinor(PyVersion),
    Unknown,
}

pub open spec fn py_tag_spec(tag: Seq<char>) -> PyTag {
    if text::starts(tag, "cp"@) {
        match compact_version(tag.skip(2)) {
            Some(v) => PyTag::Cp(v),
            None => PyTag::Unknown,
        }
    } else if text::starts(tag, "py"@) {
        match compact_version(tag.skip(2)) {
            Some(v) => PyTag::PyMinor(v),
            None => PyTag::PurePy3,
        }
    } else {
        PyTag::Unknown
    }
}

/// The minors one Python tag admits: a stable-ABI wheel works on its floor and
/// every newer minor.
pub open spec fn tag_minors(tag: Seq<char>, abi3: bool) -> Set<u8> {
    match py_tag_spec(tag) {
        PyTag::Cp(v) => if abi3 {
            Set::new(|m: u8| universe_minors().contains(m) && v.minor <= m)
        } else {
            Set::new(|m: u8| in_scope(v) && m == v.minor)
        },
        PyTag::PurePy3 => universe_minors(),
        PyTag::PyMinor(v) => Set::new(|m: u8| in_scope(v) && m == v.minor),
        PyTag::Unknown => Set::empty(),
    }
}

/// The minors a wheel supports on a platform: none when no platform tag runs
/// there, else those that one of its Python tags admits.
pub open spec fn wheel_minors(tags: WheelTagsView, p: Platform) -> Set<u8> {
    let abi3 = tags.abi.contains("abi3"@);
    Set::new(
        |m: u8|
            (exists|i: int|
                0 <= i < tags.platform.len() && tag_runs_on(p, #[trigger] tags.platform[i])) && (
            exists|i: int| 0 <= i < tags.py.len() && tag_minors(#[trigger] tags.py[i], abi3).contains(m)),
    )
}

/// A wheel built for other platforms supports nothing here.
pub proof fn foreign_wheels_support_nothing(tags: WheelTagsView, p: Platform)
    requires
        forall|i: int|
            0 <= i < tags.platform.len() ==> !tag_runs_on(p, #[trigger] tags.platform[i]),
    ensures
        wheel_minors(tags, p) == Set::<u8>::empty(),
{
    assert(wheel_minors(tags, p) =~= Set::<u8>::empty());
}

/// A pure-Python wheel that runs here supports every version that is in scope.
pub proof fn pure_wheels_support_everything(tags: WheelTagsView, p: Platform, i: int, j: int)
    requires
        0 <= i < tags.platform.len(),
        tag_runs_on(p, tags.platform[i]),
        0 <= j < tags.py.len(),
        py_tag_spec(tags.py[j]) == PyTag::PurePy3,
    ensures
        universe_minors().subset_of(wheel_minors(tags, p)),
{
    assert forall|m: u8| universe_minors().contains(m) implies wheel_minors(tags, p).contains(
        m,
    ) by {
        assert(tag_minors(tags.py[j], tags.abi.contains("abi3"@)).contains(m));
    }
}

/// What a Python tag stands for.
pub fn classify_py_tag(tag: &str) -> (r: PyTag)
    ensures
        r == py_tag_spec(tag@),
{
    proof {
        reveal_strlit("cp");
        reveal_strlit("py");
    }
    if let Some(rest) = text::strip_prefix(tag, "cp") {
        return match read_compact(rest) {
            Some(v) => PyTag::Cp(v),
            None => PyTag::Unknown,
        };
    }
    if let Some(rest) = text::strip_prefix(tag, "py") {
        return match read_compact(rest) {
            Some(v) => PyTag::PyMinor(v),
            None => PyTag::PurePy3,
        };
    }
    PyTag::Unknown
}

impl WheelTags {
    /// Parse the three tag fields out of a `.whl` filename. Returns `None` if the
    /// name doesn't look like a wheel.
    pub fn parse(filename: &str) -> (r: Option<WheelTags>)
        ensures
            match r {
                Some(t) => wheel_tags_spec(filename@) == Some(t@),
                None => wheel_tags_spec(filename@) is None,
            },
    {
        proof {
            reveal_strlit(".whl");
        }
        let stem = match text::strip_suffix(filename, ".whl") {
            Some(stem) => stem,
            None => return None,
        };
        let parts = text::split(stem, '-');
        let n = parts.len();
        if n < 5 {
            return None;
        }
        proof {
            let views = text::texts(parts@);
            assert(views[n - 3] == parts@[n - 3]@);
            assert(views[n - 2] == parts@[n - 2]@);
            assert(views[n - 1] == parts@[n - 1]@);
        }
        Some(
            WheelTags {
                py: text::split(parts[n - 3].as_str(), '.'),
                abi: text::split(parts[n - 2].as_str(), '.'),
                platform: text::split(parts[n - 1].as_str(), '.'),
            },
        )
    }

    fn runs_on(&self, platform: &Platform) -> (r: bool)
        ensures
            r == exists|i: int|
                0 <= i < self@.platform.len() && tag_runs_on(*platform, #[trigger] self@.platform[i]),
    {
        let mut i: usize = 0;
        while i < self.platform.len()
            invariant
                i <= self.platform@.len(),
                forall|j: int|
                    0 <= j < i ==> !tag_runs_on(*platform, #[trigger] self@.platform[j]),
            decreases self.platform@.len() - i,
        {
            proof {
                assert(self@.platform[i as int] == self.platform@[i as int]@);
            }
            if platform.wheel_tag_matches(self.platform[i].as_str()) {
                return true;
            }
            i += 1;
        }
        false
    }

    /// Which Python minor versions does this wheel support *on this platform*?
    /// Empty if no platform tag matches (wheel is for a different OS/arch).
    pub fn supported_on(&self, platform: &Platform) -> (r: PyVersionSet)
        ensures
            r@ == wheel_minors(self@, *platform),
    {
        let mut set = PyVersionSet::empty();
        if !self.runs_on(platform) {
            proof {
                assert(set@ =~= wheel_minors(self@, *platform));
            }
            return set;
        }
        let abi3 = text::among(self.abi.as_slice(), "abi3");
        let mut i: usize = 0;
        while i < self.py.len()
            invariant
                i <= self.py@.len(),
                forall|m: u8| #[trigger] set@.contains(m) <==> exists|j: int|
                    0 <= j < i && tag_minors(#[trigger] self@.py[j], abi3).contains(m),
            decreases self.py@.len() - i,
        {
            let ghost before = set@;
            proof {
                assert(self@.py[i as int] == self.py@[i as int]@);
            }
            let ghost admitted = tag_minors(self@.py[i as int], abi3);
            match classify_py_tag(self.py[i].as_str()) {
                PyTag::Cp(v) => {
                    if abi3 {
                        let mut minor: u8 = v.minor;
                        while minor <= MAX_MINOR
                            invariant
                                v.minor <= minor,
                                minor <= MAX_MINOR + 1 || minor == v.minor,
                                forall|m: u8| #[trigger] set@.contains(m) <==> before.contains(m) || (
                                v.minor <= m < minor && universe_minors().contains(m)),
                            decreases MAX_MINOR + 1 - minor,
                        {
                            set.insert(PyVersion::py3(minor));
                            minor += 1;
                        }
                    } else {
                        set.insert(v);
                    }
                },
                PyTag::PurePy3 => {
                    set = set.union(&PyVersionSet::universe());
                },
                PyTag::PyMinor(v) => {
                    set.insert(v);
                },
                PyTag::Unknown => {},
            }
            proof {
                assert forall|m: u8| #[trigger] set@.contains(m) <==> before.contains(m)
                    || admitted.contains(m) by {}
                assert forall|m: u8| #[trigger] set@.contains(m) <==> exists|j: int|
                    0 <= j < i + 1 && tag_minors(#[trigger] self@.py[j], abi3).contains(m) by {
                    if before.contains(m) {
                        let j = choose|j: int|
                            0 <= j < i && tag_minors(#[trigger] self@.py[j], abi3).contains(m);
                        assert(tag_minors(self@.py[j], abi3).contains(m));
                    }
                    if admitted.contains(m) {
                        assert(tag_minors(self@.py[i as int], abi3).contains(m));
                    }
                }
            }
            i += 1;
        }
        proof {
            assert(set@ =~= wheel_minors(self@, *platform));
        }
        set
    }
}

/// The fields of a wheel's filename, the last three with dots between their tags.
pub open spec fn wheel_name(front: Seq<Seq<char>>, tags: WheelTagsView) -> Seq<char> {
    text::join_spec(
        front + seq![
            text::join_spec(tags.py, seq!['.']),
            text::join_spec(tags.abi, seq!['.']),
            text::join_spec(tags.platform, seq!['.']),
        ],
        seq!['-'],
    ) + ".whl"@
}

/// Whether a field holds tags: one at least, and none with a dash or a dot.
pub open spec fn well_tagged(tags: Seq<Seq<char>>) -> bool {
    tags.len() > 0 && forall|i: int|
        0 <= i < tags.len() ==> !(#[trigger] tags[i]).contains('-') && !tags[i].contains('.')
}

proof fn lemma_join_lacks(parts: Seq<Seq<char>>, sep: char, c: char)
    requires
        sep != c,
        forall|i: int| 0 <= i < parts.len() ==> !(#[trigger] parts[i]).contains(c),
    ensures
        !text::join_spec(parts, seq![sep]).contains(c),
    decreases parts.len(),
{
    let s = text::join_spec(parts, seq![sep]);
    if parts.len() > 0 {
        let before = parts.drop_last();
        assert forall|i: int| 0 <= i < before.len() implies !(#[trigger] before[i]).contains(c) by {
            assert(before[i] == parts[i]);
        }
        lemma_join_lacks(before, sep, c);
        let front = text::join_spec(before, seq![sep]);
        let last = parts[parts.len() - 1];
        assert(!last.contains(c));
        if s.contains(c) {
            let k = choose|k: int| 0 <= k < s.len() && s[k] == c;
            if parts.len() == 1 {
                assert(last[k] == c);
            } else if k < front.len() {
                assert(front[k] == c);
            } else if k > front.len() {
                assert(last[k - front.len() - 1] == c);
            }
        }
    }
}

/// A wheel's tags are read from the last three fields of its name, whatever stands
/// before them: the name, the version and perhaps a build number.
pub proof fn tags_are_the_last_three_fields(front: Seq<Seq<char>>, tags: WheelTagsView)
    requires
        forall|i: int| 0 <= i < front.len() ==> !(#[trigger] front[i]).contains('-'),
        well_tagged(tags.py),
        well_tagged(tags.abi),
        well_tagged(tags.platform),
    ensures
        wheel_tags_spec(wheel_name(front, tags)) == if front.len() >= 2 {
            Some(tags)
        } else {
            None
        },
{
    reveal_strlit(".whl");
    let py = text::join_spec(tags.py, seq!['.']);
    let abi = text::join_spec(tags.abi, seq!['.']);
    let platform = text::join_spec(tags.platform, seq!['.']);
    lemma_join_lacks(tags.py, '.', '-');
    lemma_join_lacks(tags.abi, '.', '-');
    lemma_join_lacks(tags.platform, '.', '-');
    let parts = front + seq![py, abi, platform];
    assert forall|i: int| 0 <= i < parts.len() implies !(#[trigger] parts[i]).contains('-') by {
        if i < front.len() {
            assert(parts[i] == front[i]);
        }
    }
    let stem = text::join_spec(parts, seq!['-']);
    let name = stem + ".whl"@;
    assert(name.skip(name.len() - 4) =~= ".whl"@);
    assert(name.take(name.len() - 4) =~= stem);
    text::pieces_read_back(parts, '-');
    text::pieces_read_back(tags.py, '.');
    text::pieces_read_back(tags.abi, '.');
    text::pieces_read_back(tags.platform, '.');
    let n = parts.len() as int;
    assert(parts[n - 3] == py && parts[n - 2] == abi && parts[n - 1] == platform);
}

/// A file that is not named as a wheel has no tags.
pub proof fn other_files_have_no_tags(filename: Seq<char>)
    requires
        !".whl"@.is_suffix_of(filename),
    ensures
        wheel_tags_spec(filename) is None,
{
    reveal_strlit(".whl");
    if text::ends(filename, ".whl"@) {
        assert(filename.subrange(filename.len() - 4, filename.len() as int) =~= filename.skip(
            filename.len() - 4,
        ));
    }
}

/// The minors that Python tags admit: one built for an interpreter its own, one on
/// the stable interface its own and every newer one, one that names no minor all
/// of them, and one of another interpreter none.
pub proof fn python_tags_admit_what_they_name(n: u8, m: u8, other: Seq<char>)
    ensures
        tag_minors("cp3"@ + text::decimal_spec(n as nat), false).contains(m) <==> m == n && 7 <= m
            <= 14,
        tag_minors("cp3"@ + text::decimal_spec(n as nat), true).contains(m) <==> m >= n && 7 <= m
            <= 14,
        tag_minors("py3"@ + text::decimal_spec(n as nat), false).contains(m) <==> m == n && 7 <= m
            <= 14,
        tag_minors("py3"@ + text::decimal_spec(n as nat), true).contains(m) <==> m == n && 7 <= m
            <= 14,
        tag_minors("py3"@, false).contains(m) <==> 7 <= m <= 14,
        tag_minors("py3"@, true).contains(m) <==> 7 <= m <= 14,
        !tag_minors("pp"@ + other, false).contains(m),
        !tag_minors("pp"@ + other, true).contains(m),
{
    reveal_strlit("cp3");
    reveal_strlit("py3");
    reveal_strlit("cp");
    reveal_strlit("py");
    reveal_strlit("pp");
    let minor = text::decimal_spec(n as nat);
    lemma_compact(n);
    let cp = "cp3"@ + minor;
    let py = "py3"@ + minor;
    assert(cp.take(2) =~= "cp"@);
    assert(cp.skip(2) =~= seq!['3'] + minor);
    assert(py.take(2) =~= "py"@);
    assert(py.take(2)[0] == 'p');
    assert(py.skip(2) =~= seq!['3'] + minor);
    let bare = "py3"@;
    assert(bare.take(2) =~= "py"@);
    assert(bare.skip(2) =~= seq!['3']);
    let pp = "pp"@ + other;
    assert(pp.take(2)[0] == 'p' && pp.take(2)[1] == 'p');
}

proof fn lemma_compact(n: u8)
    ensures
        compact_version(seq!['3'] + text::decimal_spec(n as nat)) == Some(
            PyVersion { major: 3, minor: n },
        ),
        compact_version(seq!['3']) is None,
{
    let minor = text::decimal_spec(n as nat);
    let major = text::decimal_spec(3);
    text::numbers_read_back(3, u8::MAX as nat);
    text::numbers_read_back(n as nat, u8::MAX as nat);
    assert(major =~= seq!['3']) by {
        assert(text::digit_char(3) == '3');
    }
    let digits = seq!['3'] + minor;
    assert forall|i: int| 0 <= i < digits.len() implies !not_digit()(#[trigger] digits[i]) by {
        if i > 0 {
            assert(digits[i] == minor[i - 1]);
        }
    }
    text::lemma_first_index_is(digits, not_digit(), digits.len() as int);
    assert(digits.take(digits.len() as int) =~= digits);
    assert(digits.take(1) =~= major);
    assert(digits.skip(1) =~= minor);
    text::lemma_first_index_is(seq!['3'], not_digit(), 1);
    assert(seq!['3'].take(1) =~= seq!['3']);
}

/// A wheel for one interpreter and one platform supports the minor it names, where
/// it runs.
pub proof fn a_wheel_supports_the_version_it_names(
    n: u8,
    abi: Seq<char>,
    platform: Seq<char>,
    p: Platform,
    m: u8,
)
    ensures
        wheel_minors(
            WheelTagsView {
                py: seq!["cp3"@ + text::decimal_spec(n as nat)],
                abi: seq![abi],
                platform: seq![platform],
            },
            p,
        ).contains(m) <==> tag_runs_on(p, platform) && 7 <= m <= 14 && (if abi == "abi3"@ {
            m >= n
        } else {
            m == n
        }),
{
    let tags = WheelTagsView {
        py: seq!["cp3"@ + text::decimal_spec(n as nat)],
        abi: seq![abi],
        platform: seq![platform],
    };
    python_tags_admit_what_they_name(n, m, seq![]);
    assert(tags.abi[0] == abi);
    assert(tags.platform[0] == platform);
    assert(tags.py[0] == "cp3"@ + text::decimal_spec(n as nat));
    assert(tags.abi.contains("abi3"@) <==> abi == "abi3"@);
}

/// More tags never take a version away: each of a wheel's Python tags admits what it
/// would alone, on each platform that one of its platform tags names.
pub proof fn every_tag_counts(tags: WheelTagsView, p: Platform, i: int, j: int, m: u8)
    requires
        0 <= i < tags.platform.len(),
        0 <= j < tags.py.len(),
        wheel_minors(
            WheelTagsView {
                py: seq![tags.py[j]],
                abi: tags.abi,
                platform: seq![tags.platform[i]],
            },
            p,
        ).contains(m),
    ensures
        wheel_minors(tags, p).contains(m),
{
    assert(tag_minors(tags.py[j], tags.abi.contains("abi3"@)).contains(m));
    assert(tag_runs_on(p, tags.platform[i]));
}

} // verus!
