//! Project dependency parsing.
//!
//! Reads the Python signal files of a workspace and normalizes their
//! dependencies to PyPI package names with the version constraint that came
//! with each. A conda `environment.yml` is read too, and can be turned into a
//! `pyproject.toml`.

use vstd::prelude::*;

use crate::document::{
    as_text, field, field_in, field_of, item_views, lemma_list_view, lemma_table_view, read_toml,
    table_views, text_of, toml_document, Tree, TreeView,
};
use crate::pypi::pyversion::{lemma_release_pieces, lemma_release_text, release_text};
use crate::text;

verus! {

/// A dependency as the project declares it: a name plus whatever version
/// constraint came with it.
#[derive(Debug, PartialEq, Eq, PartialOrd, Ord)]
pub struct Requirement {
    /// Normalized per PEP 503.
    pub name: String,
    /// The specifier as written, e.g. `==0.10.14`. Empty when unconstrained.
    pub spec: String,
}

/// A requirement, mathematically.
#[verifier::ext_equal]
pub struct RequirementView {
    pub name: Seq<char>,
    pub spec: Seq<char>,
}

impl View for Requirement {
    type V = RequirementView;

    open spec fn view(&self) -> RequirementView {
        RequirementView { name: self.name@, spec: self.spec@ }
    }
}

/// The views of a vector of requirements.
pub open spec fn requirement_views(v: Seq<Requirement>) -> Seq<RequirementView> {
    Seq::new(v.len(), |i: int| v[i]@)
}

pub proof fn lemma_requirements_push(v: Seq<Requirement>, r: Requirement)
    ensures
        requirement_views(v.push(r)) == requirement_views(v).push(r@),
{
    assert(requirement_views(v.push(r)) =~= requirement_views(v).push(r@));
}

impl Requirement {
    /// A dependency with no version constraint.
    pub fn any(name: &str) -> (r: Requirement)
        ensures
            r@ == (RequirementView { name: name@, spec: seq![] }),
    {
        Requirement { name: name.to_string(), spec: String::new() }
    }

    pub fn is_pinned(&self) -> (r: bool)
        ensures
            r == (self@.spec.len() > 0),
    {
        !self.spec.as_str().is_empty()
    }

    /// The requirement as written in a manifest: the name, then the specifier.
    pub fn to_text(&self) -> (r: String)
        ensures
            r@ == requirement_text(self@),
    {
        let mut out = self.name.clone();
        out.append(self.spec.as_str());
        out
    }
}

/// The requirement as written in a manifest.
pub open spec fn requirement_text(r: RequirementView) -> Seq<char> {
    r.name + r.spec
}

impl Clone for Requirement {
    fn clone(&self) -> (r: Requirement)
        ensures
            r == *self,
    {
        Requirement { name: self.name.clone(), spec: self.spec.clone() }
    }
}

impl Default for Requirement {
    fn default() -> (r: Requirement)
        ensures
            r@ == (RequirementView { name: seq![], spec: seq![] }),
    {
        Requirement { name: String::new(), spec: String::new() }
    }
}

// ---------------------------------------------------------------------------
// Names
// ---------------------------------------------------------------------------

/// The characters PEP 503 treats alike.
pub open spec fn is_separator(c: char) -> bool {
    c == '-' || c == '_' || c == '.'
}

/// `s` with each run of separators made one dash and a leading run dropped, and
/// whether `s` ends in a separator.
pub open spec fn collapse(s: Seq<char>) -> (Seq<char>, bool)
    decreases s.len(),
{
    if s.len() == 0 {
        (seq![], false)
    } else {
        let (out, sep) = collapse(s.drop_last());
        if !is_separator(s.last()) {
            (out.push(s.last()), false)
        } else if !sep && out.len() > 0 {
            (out.push('-'), true)
        } else {
            (out, true)
        }
    }
}

pub open spec fn not_dash() -> spec_fn(char) -> bool {
    |c: char| c != '-'
}

/// A project name in PEP 503 form.
pub open spec fn normalized(name: Seq<char>) -> Seq<char> {
    let out = collapse(text::lower_spec(text::trim_spec(name))).0;
    out.take(text::last_index(out, not_dash()))
}

/// Normalize a PyPI project name (PEP 503): lowercase, runs of `-_.` collapse to `-`.
pub fn normalize_name(name: &str) -> (r: String)
    ensures
        r@ == normalized(name@),
{
    let lowered = text::trim(name).to_lowercase();
    let chars = text::chars_of(lowered.as_str());
    let mut out = String::new();
    let mut prev_sep = false;
    let mut i: usize = 0;
    proof {
        assert(lowered@ == text::lower_spec(text::trim_spec(name@)));
        assert(chars@.take(0) =~= seq![]);
    }
    while i < chars.len()
        invariant
            i <= chars@.len(),
            collapse(chars@.take(i as int)) == (out@, prev_sep),
        decreases chars@.len() - i,
    {
        let c = chars[i];
        proof {
            let now = chars@.take(i as int + 1);
            assert(now.drop_last() =~= chars@.take(i as int));
            assert(now.last() == c);
        }
        if c == '-' || c == '_' || c == '.' {
            if !prev_sep && !out.as_str().is_empty() {
                out.push('-');
            }
            prev_sep = true;
        } else {
            out.push(c);
            prev_sep = false;
        }
        i += 1;
    }
    proof {
        assert(chars@.take(i as int) =~= chars@);
    }
    let end = text::end_where(
        out.as_str(),
        |c: char| -> (b: bool) ensures b == (c != '-') { c != '-' },
        Ghost(not_dash()),
    );
    text::before(out.as_str(), end).to_string()
}

/// A name in which every run of separators is one dash between two other
/// characters.
pub open spec fn well_separated(s: Seq<char>) -> bool {
    &&& forall|i: int| 0 <= i < s.len() ==> (#[trigger] s[i]) != '_' && s[i] != '.'
    &&& s.len() > 0 ==> s[0] != '-' && s.last() != '-'
    &&& forall|i: int, j: int|
        0 <= i && j == i + 1 && j < s.len() ==> !(#[trigger] s[i] == '-' && #[trigger] s[j] == '-')
}

/// A name that normalizing has nothing to change in.
pub open spec fn canonical(s: Seq<char>) -> bool {
    &&& well_separated(s)
    &&& text::all_ascii(s)
    &&& forall|i: int|
        0 <= i < s.len() ==> !text::is_space(#[trigger] s[i]) && text::lower_ascii_char(s[i])
            == s[i]
}

proof fn lemma_collapse(s: Seq<char>)
    ensures
        ({
            let (out, sep) = collapse(s);
            &&& forall|i: int| 0 <= i < out.len() ==> (#[trigger] out[i]) != '_' && out[i] != '.'
            &&& out.len() > 0 ==> out[0] != '-'
            &&& out.len() > 0 && out.last() == '-' ==> sep
            &&& forall|i: int, j: int|
                0 <= i && j == i + 1 && j < out.len() ==> !(#[trigger] out[i] == '-'
                    && #[trigger] out[j] == '-')
            &&& forall|i: int|
                0 <= i < out.len() ==> (#[trigger] out[i]) == '-' || s.contains(out[i])
        }),
    decreases s.len(),
{
    if s.len() > 0 {
        let t = s.drop_last();
        lemma_collapse(t);
        let before = collapse(t).0;
        let out = collapse(s).0;
        assert forall|i: int| 0 <= i < out.len() implies (#[trigger] out[i]) == '-' || s.contains(
            out[i],
        ) by {
            if i < before.len() {
                assert(out[i] == before[i]);
                if t.contains(out[i]) {
                    let k = choose|k: int| 0 <= k < t.len() && t[k] == out[i];
                    assert(s[k] == out[i]);
                }
            } else if out[i] != '-' {
                assert(s[s.len() - 1] == out[i]);
            }
        }
    }
}

/// A normalized name has no separator but single dashes, and none at either end.
pub proof fn normalized_names_are_well_separated(name: Seq<char>)
    ensures
        well_separated(normalized(name)),
{
    let s = text::lower_spec(text::trim_spec(name));
    lemma_collapse(s);
    let out = collapse(s).0;
    text::lemma_last_index(out, not_dash());
}

proof fn lemma_collapse_keeps(s: Seq<char>)
    requires
        forall|i: int| 0 <= i < s.len() ==> (#[trigger] s[i]) != '_' && s[i] != '.',
        s.len() > 0 ==> s[0] != '-',
        forall|i: int, j: int|
            0 <= i && j == i + 1 && j < s.len() ==> !(#[trigger] s[i] == '-' && #[trigger] s[j]
                == '-'),
    ensures
        collapse(s) == (s, s.len() > 0 && s.last() == '-'),
    decreases s.len(),
{
    if s.len() > 0 {
        let t = s.drop_last();
        lemma_collapse_keeps(t);
        assert(t.push(s.last()) =~= s);
        if s.last() == '-' {
            assert(t.len() > 0);
            assert(s[t.len() - 1] == t.last());
        }
    } else {
        assert(s =~= seq![]);
    }
}

/// A canonical name is its own normal form.
pub proof fn canonical_names_are_left_alone(name: Seq<char>)
    requires
        canonical(name),
    ensures
        normalized(name) == name,
{
    text::lemma_first_index_is(name, text::not_space(), 0);
    assert(name.skip(0) =~= name);
    text::lemma_last_index_is(name, text::not_space(), name.len() as int);
    assert(name.take(name.len() as int) =~= name);
    assert(text::lower_spec(name) =~= name);
    lemma_collapse_keeps(name);
    text::lemma_last_index_is(name, not_dash(), name.len() as int);
}

/// The normal form of an ASCII name without blanks inside is canonical, so that
/// normalizing it again changes nothing.
pub proof fn normalizing_is_idempotent(name: Seq<char>)
    requires
        text::all_ascii(name),
        forall|i: int|
            0 <= i < text::trim_spec(name).len() ==> !text::is_space(
                #[trigger] text::trim_spec(name)[i],
            ),
    ensures
        canonical(normalized(name)),
        normalized(normalized(name)) == normalized(name),
{
    let t = text::trim_spec(name);
    text::lemma_first_index(name, text::not_space());
    let head = text::trim_start_spec(name);
    text::lemma_last_index(head, text::not_space());
    assert forall|i: int| 0 <= i < t.len() implies text::is_ascii_char(#[trigger] t[i]) by {
        assert(t[i] == name[text::first_index(name, text::not_space()) + i]);
    }
    let s = text::lower_spec(t);
    assert(s == text::lower_ascii_spec(t));
    lemma_collapse(s);
    let out = collapse(s).0;
    text::lemma_last_index(out, not_dash());
    normalized_names_are_well_separated(name);
    let r = normalized(name);
    assert forall|i: int| 0 <= i < r.len() implies !text::is_space(#[trigger] r[i])
        && text::lower_ascii_char(r[i]) == r[i] && text::is_ascii_char(r[i]) by {
        assert(r[i] == out[i]);
        if out[i] != '-' {
            let k = choose|k: int| 0 <= k < s.len() && s[k] == out[i];
            assert(s[k] == text::lower_ascii_char(t[k]));
            assert(!text::is_space(t[k]));
        }
    }
    canonical_names_are_left_alone(r);
}

// ---------------------------------------------------------------------------
// Requirement lines
// ---------------------------------------------------------------------------

/// The characters a version specifier can begin with.
pub open spec fn starts_spec() -> spec_fn(char) -> bool {
    |c: char| c == '=' || c == '<' || c == '>' || c == '!' || c == '~'
}

/// The characters that end a bare name.
pub open spec fn ends_name() -> spec_fn(char) -> bool {
    |c: char|
        c == '=' || c == '<' || c == '>' || c == '!' || c == '~' || c == ';' || c == '[' || c == ' '
            || c == '('
}

fn is_spec_start(c: char) -> (r: bool)
    ensures
        r == starts_spec()(c),
{
    c == '=' || c == '<' || c == '>' || c == '!' || c == '~'
}

fn is_name_end(c: char) -> (r: bool)
    ensures
        r == ends_name()(c),
{
    c == '=' || c == '<' || c == '>' || c == '!' || c == '~' || c == ';' || c == '[' || c == ' '
        || c == '('
}

/// What precedes the first `c`, or all of `s` when there is none.
pub open spec fn before_char(s: Seq<char>, c: char) -> Seq<char> {
    s.take(text::first_index(s, text::eq_char(c)))
}

/// `line` up to a comment, which a space has to precede.
pub open spec fn without_comment(line: Seq<char>) -> Seq<char> {
    match text::find_spec(line, " #"@) {
        Some(i) => line.take(i),
        None => line,
    }
}

/// Whether a text can be the name of a package: letters, digits and separators,
/// the first a letter or a digit.
pub open spec fn is_package_name(s: Seq<char>) -> bool {
    &&& s.len() > 0
    &&& text::is_ascii_letter(s[0]) || text::is_digit(s[0])
    &&& forall|i: int| 0 <= i < s.len() ==> is_package_char(#[trigger] s[i])
}

/// A character of a package name.
pub open spec fn is_package_char(c: char) -> bool {
    text::is_ascii_letter(c) || text::is_digit(c) || c == '-' || c == '_' || c == '.'
}

/// The package name of a requirement line. Blank lines, comments, options and
/// bare URLs name nothing; `name @ url` names `name`.
pub open spec fn requirement_name_spec(line: Seq<char>) -> Option<Seq<char>> {
    let t = text::trim_spec(line);
    let body = without_comment(t);
    let head = before_char(body, ';');
    let referred = text::trim_spec(before_char(before_char(head, '@'), '['));
    let name = text::trim_spec(body.take(text::first_index(body, ends_name())));
    if t.len() == 0 || t[0] == '#' || t[0] == '-' {
        None
    } else if head.contains('@') {
        if is_package_name(referred) {
            Some(normalized(referred))
        } else {
            None
        }
    } else if text::has(body, "://"@) || name.len() == 0 {
        None
    } else {
        Some(normalized(name))
    }
}

pub open spec fn solid() -> spec_fn(char) -> bool {
    |c: char| !text::is_space(c)
}

/// `s` without its first bracketed part.
pub open spec fn without_extras(s: Seq<char>) -> Seq<char> {
    let open = text::first_index(s, text::eq_char('['));
    let close = text::first_index(s, text::eq_char(']'));
    if open < close && close < s.len() {
        s.take(open) + s.skip(close + 1)
    } else {
        s
    }
}

/// The version specifier of a requirement line: what follows the first
/// comparison character once the comment, the marker and the extras are gone,
/// without blanks.
pub open spec fn requirement_spec_text(line: Seq<char>) -> Seq<char> {
    let body = without_extras(before_char(without_comment(text::trim_spec(line)), ';'));
    body.skip(text::first_index(body, starts_spec())).filter(solid())
}

/// A requirement line, read.
pub open spec fn requirement_spec(line: Seq<char>) -> Option<RequirementView> {
    match requirement_name_spec(line) {
        Some(name) => Some(RequirementView { name, spec: requirement_spec_text(line) }),
        None => None,
    }
}

/// A character of a name as packages have them.
pub open spec fn is_name_char(c: char) -> bool {
    text::is_ascii_letter(c) || text::is_digit(c) || c == '-'
}

/// A character of a version specifier.
pub open spec fn is_spec_char(c: char) -> bool {
    text::is_ascii_letter(c) || text::is_digit(c) || starts_spec()(c) || c == '.' || c == '*' || c
        == '+' || c == '-' || c == ','
}

/// A requirement with a canonical name, and a specifier that begins with a
/// comparison or is empty.
pub open spec fn plain_requirement(r: RequirementView) -> bool {
    &&& r.name.len() > 0
    &&& canonical(r.name)
    &&& forall|i: int| 0 <= i < r.name.len() ==> is_name_char(#[trigger] r.name[i])
    &&& r.spec.len() > 0 ==> starts_spec()(r.spec[0])
    &&& forall|i: int| 0 <= i < r.spec.len() ==> is_spec_char(#[trigger] r.spec[i])
}

proof fn lemma_not_found(s: Seq<char>, t: Seq<char>)
    requires
        t.len() > 0,
        !s.contains(t[0]),
    ensures
        text::find_spec(s, t) is None,
{
    text::lemma_not_found(s, t);
}

proof fn lemma_all_solid(s: Seq<char>)
    requires
        forall|i: int| 0 <= i < s.len() ==> solid()(#[trigger] s[i]),
    ensures
        s.filter(solid()) == s,
    decreases s.len(),
{
    reveal(Seq::filter);
    if s.len() > 0 {
        let t = s.drop_last();
        assert forall|i: int| 0 <= i < t.len() implies solid()(#[trigger] t[i]) by {
            assert(t[i] == s[i]);
        }
        lemma_all_solid(t);
        assert(solid()(s[s.len() - 1]));
        assert(t.push(s.last()) =~= s);
    } else {
        assert(s.filter(solid()) =~= s);
    }
}

/// A requirement written out reads back as it was: the name and the pin survive.
#[verifier::rlimit(40)]
#[verifier::spinoff_prover]
pub proof fn requirements_read_back(r: RequirementView)
    requires
        plain_requirement(r),
    ensures
        requirement_spec(requirement_text(r)) == Some(r),
{
    let line = requirement_text(r);
    let n = r.name.len() as int;
    assert forall|i: int| 0 <= i < line.len() implies is_spec_char(#[trigger] line[i])
        && !text::is_space(line[i]) by {
        if i < n {
            assert(line[i] == r.name[i]);
        } else {
            assert(line[i] == r.spec[i - n]);
        }
    }
    assert(line[0] == r.name[0]);
    text::lemma_first_index_is(line, text::not_space(), 0);
    assert(line.skip(0) =~= line);
    text::lemma_last_index_is(line, text::not_space(), line.len() as int);
    assert(line.take(line.len() as int) =~= line);
    assert(text::trim_spec(line) == line);
    reveal_strlit(" #");
    reveal_strlit("://");
    lemma_not_found(line, " #"@);
    lemma_not_found(line, "://"@);
    assert(!line.contains('@'));
    assert forall|i: int| 0 <= i < n implies !ends_name()(#[trigger] line[i]) && !starts_spec()(
        line[i],
    ) by {
        assert(line[i] == r.name[i]);
    }
    if n < line.len() {
        assert(line[n] == r.spec[0]);
    }
    text::lemma_first_index_is(line, ends_name(), n);
    text::lemma_first_index_is(line, starts_spec(), n);
    assert(line.take(n) =~= r.name);
    assert(line.skip(n) =~= r.spec);
    text::lemma_first_index_is(r.name, text::not_space(), 0);
    assert(r.name.skip(0) =~= r.name);
    text::lemma_last_index_is(r.name, text::not_space(), n);
    assert(r.name.take(n) =~= r.name);
    canonical_names_are_left_alone(r.name);
    text::lemma_first_index_is(line, text::eq_char(';'), line.len() as int);
    assert(before_char(line, ';') == line);
    text::lemma_first_index_is(line, text::eq_char('['), line.len() as int);
    text::lemma_first_index(line, text::eq_char(']'));
    assert forall|i: int| 0 <= i < r.spec.len() implies solid()(#[trigger] r.spec[i]) by {
        assert(line[n + i] == r.spec[i]);
    }
    lemma_all_solid(r.spec);
}

fn strip_extras<'a>(name: &'a str) -> (r: &'a str)
    ensures
        r@ == before_char(name@, '['),
{
    text::before(name, text::index_of(name, '['))
}

/// Can a text be the name of a package?
fn could_be_package(s: &str) -> (r: bool)
    ensures
        r == is_package_name(s@),
{
    let chars = text::chars_of(s);
    if chars.len() == 0 || chars[0] == '-' || chars[0] == '_' || chars[0] == '.' {
        return false;
    }
    let mut i: usize = 0;
    while i < chars.len()
        invariant
            i <= chars@.len(),
            chars@ == s@,
            forall|j: int| 0 <= j < i ==> is_package_char(#[trigger] s@[j]),
        decreases chars@.len() - i,
    {
        let c = chars[i];
        if !(('a' <= c && c <= 'z') || ('A' <= c && c <= 'Z') || ('0' <= c && c <= '9') || c == '-'
            || c == '_' || c == '.') {
            proof {
                assert(!is_package_char(s@[i as int]));
            }
            return false;
        }
        i += 1;
    }
    proof {
        assert(is_package_char(s@[0]));
    }
    true
}

/// Extract the bare package name from a single requirement specifier line.
/// Returns `None` for comments, options, includes, blank lines, and URLs.
pub fn requirement_name(line: &str) -> (r: Option<String>)
    ensures
        match r {
            Some(name) => requirement_name_spec(line@) == Some(name@),
            None => requirement_name_spec(line@) is None,
        },
{
    let t = text::trim(line);
    if t.is_empty() {
        return None;
    }
    let first = t.get_char(0);
    if first == '#' || first == '-' {
        return None;
    }
    let body = match text::find(t, " #") {
        Some(i) => text::before(t, i),
        None => t,
    };
    let head = text::before(body, text::index_of(body, ';'));
    if text::has_char(head, '@') {
        let referred = text::trim(strip_extras(text::before(head, text::index_of(head, '@'))));
        if could_be_package(referred) {
            return Some(normalize_name(referred));
        }
        return None;
    }
    if text::contains(body, "://") {
        return None;
    }
    let end = text::index_where(
        body,
        |c: char| -> (b: bool) ensures b == ends_name()(c) { is_name_end(c) },
        Ghost(ends_name()),
    );
    let name = text::trim(text::before(body, end));
    if name.is_empty() {
        return None;
    }
    Some(normalize_name(name))
}

/// `s` without its white space.
fn squeeze(s: &str) -> (r: String)
    ensures
        r@ == s@.filter(solid()),
{
    let chars = text::chars_of(s);
    let mut out = String::new();
    let mut i: usize = 0;
    while i < chars.len()
        invariant
            i <= chars@.len(),
            chars@ == s@,
            out@ == s@.take(i as int).filter(solid()),
        decreases chars@.len() - i,
    {
        proof {
            let now = s@.take(i as int + 1);
            assert(now.drop_last() =~= s@.take(i as int));
            assert(now.last() == chars@[i as int]);
            reveal_with_fuel(Seq::filter, 2);
        }
        if !chars[i].is_whitespace() {
            out.push(chars[i]);
        }
        i += 1;
    }
    proof {
        assert(s@.take(i as int) =~= s@);
    }
    out
}

/// Parse one dependency line into a name and its version specifier.
///
/// Environment markers and extras are dropped: neither changes which release an
/// installer picks for the current machine. The version specifier is kept,
/// because it does.
pub fn parse_requirement(line: &str) -> (r: Option<Requirement>)
    ensures
        match r {
            Some(q) => requirement_spec(line@) == Some(q@),
            None => requirement_spec(line@) is None,
        },
{
    let name = match requirement_name(line) {
        Some(name) => name,
        None => return None,
    };
    let t = text::trim(line);
    let t = match text::find(t, " #") {
        Some(i) => text::before(t, i),
        None => t,
    };
    let without_marker = text::before(t, text::index_of(t, ';'));
    let open = text::index_of(without_marker, '[');
    let close = text::index_of(without_marker, ']');
    let mut body = without_marker.to_string();
    if open < close && close < without_marker.unicode_len() {
        body = text::before(without_marker, open).to_string();
        body.append(text::after(without_marker, close + 1));
    }
    let start = text::index_where(
        body.as_str(),
        |c: char| -> (b: bool) ensures b == starts_spec()(c) { is_spec_start(c) },
        Ghost(starts_spec()),
    );
    let spec = squeeze(text::after(body.as_str(), start));
    Some(Requirement { name, spec })
}

pub open spec fn line_requirement() -> spec_fn(Seq<char>) -> Option<RequirementView> {
    |line: Seq<char>| requirement_spec(line)
}

/// The requirements of a `requirements.txt`, in order.
pub open spec fn requirements_spec(s: Seq<char>) -> Seq<RequirementView> {
    text::lines_spec(s).filter_map(line_requirement())
}

/// The requirements of a `requirements.txt`, in order.
pub fn parse_requirements(s: &str) -> (r: Vec<Requirement>)
    ensures
        requirement_views(r@) == requirements_spec(s@),
{
    let lines = text::lines(s);
    let ghost views = text::texts(lines@);
    let mut out: Vec<Requirement> = Vec::new();
    let mut i: usize = 0;
    proof {
        assert(requirement_views(out@) =~= views.take(0).filter_map(line_requirement()));
    }
    while i < lines.len()
        invariant
            i <= lines@.len(),
            views == text::texts(lines@),
            requirement_views(out@) == views.take(i as int).filter_map(line_requirement()),
        decreases lines@.len() - i,
    {
        proof {
            views.lemma_filter_map_take_succ(line_requirement(), i as int);
            assert(views[i as int] == lines@[i as int]@);
        }
        if let Some(q) = parse_requirement(lines[i].as_str()) {
            proof {
                lemma_requirements_push(out@, q);
            }
            out.push(q);
        }
        i += 1;
    }
    proof {
        assert(views.take(i as int) =~= views);
    }
    out
}

// ---------------------------------------------------------------------------
// pyproject.toml
// ---------------------------------------------------------------------------

/// The requirement a list item declares.
pub open spec fn item_requirement() -> spec_fn(TreeView) -> Option<RequirementView> {
    |item: TreeView|
        match item {
            TreeView::Text(line) => requirement_spec(line),
            _ => None,
        }
}

/// The requirements a list declares.
pub open spec fn listed(t: Option<TreeView>) -> Seq<RequirementView> {
    match t {
        Some(TreeView::List(items)) => items.filter_map(item_requirement()),
        _ => seq![],
    }
}

/// The requirements of the first `n` groups of optional dependencies.
pub open spec fn grouped(entries: Seq<(Seq<char>, TreeView)>, n: int) -> Seq<RequirementView>
    decreases n,
{
    if n <= 0 {
        seq![]
    } else {
        grouped(entries, n - 1) + listed(Some(entries[n - 1].1))
    }
}

/// The requirements of every group of optional dependencies.
pub open spec fn optional_listed(t: Option<TreeView>) -> Seq<RequirementView> {
    match t {
        Some(TreeView::Table(entries)) => grouped(entries, entries.len() as int),
        _ => seq![],
    }
}

/// A Poetry constraint in PEP 440 form: `^3.9` is at least 3.9 and below the next
/// major, `~3.9` at least 3.9, anything else is kept.
pub open spec fn caret_spec(s: Seq<char>) -> Seq<char> {
    let t = text::trim_spec(s);
    let v = t.skip(1);
    if text::starts(t, "^"@) {
        let next = match text::parse_uint_spec(before_char(v, '.'), u32::MAX as nat) {
            Some(m) => m + 1,
            None => 4,
        };
        ">="@ + v + ",<"@ + text::decimal_spec(next)
    } else if text::starts(t, "~"@) {
        ">="@ + v
    } else {
        t
    }
}

/// What a Poetry key is: the interpreter, or a package.
pub open spec fn is_python_key(key: Seq<char>) -> bool {
    text::lower_ascii_spec(key) == text::lower_ascii_spec("python"@)
}

/// The requirement of a Poetry entry. Only a text that constrains something
/// becomes a specifier.
pub open spec fn poetry_requirement(entry: (Seq<char>, TreeView)) -> RequirementView {
    let spec = match entry.1 {
        TreeView::Text(s) => caret_spec(s),
        _ => seq![],
    };
    RequirementView {
        name: normalized(entry.0),
        spec: if spec == "*"@ {
            seq![]
        } else {
            spec
        },
    }
}

/// The requirements of the first `n` Poetry entries.
pub open spec fn poetry_listed(entries: Seq<(Seq<char>, TreeView)>, n: int) -> Seq<
    RequirementView,
>
    decreases n,
{
    if n <= 0 {
        seq![]
    } else if is_python_key(entries[n - 1].0) {
        poetry_listed(entries, n - 1)
    } else {
        poetry_listed(entries, n - 1).push(poetry_requirement(entries[n - 1]))
    }
}

/// The interpreter constraint of the first `n` Poetry entries: the first that a
/// `python` key gives.
pub open spec fn poetry_python(entries: Seq<(Seq<char>, TreeView)>, n: int) -> Option<Seq<char>>
    decreases n,
{
    if n <= 0 {
        None
    } else if poetry_python(entries, n - 1) is Some {
        poetry_python(entries, n - 1)
    } else if is_python_key(entries[n - 1].0) {
        match entries[n - 1].1 {
            TreeView::Text(s) => Some(caret_spec(s)),
            _ => None,
        }
    } else {
        None
    }
}

/// The entries of Poetry's dependency table.
pub open spec fn poetry_entries(doc: TreeView) -> Seq<(Seq<char>, TreeView)> {
    match field_in(field_in(field_of(doc, "tool"@), "poetry"@), "dependencies"@) {
        Some(TreeView::Table(entries)) => entries,
        _ => seq![],
    }
}

/// The requirements of a pyproject document: PEP 621's, its optional groups',
/// then Poetry's.
pub open spec fn pyproject_requirements(doc: TreeView) -> Seq<RequirementView> {
    let project = field_of(doc, "project"@);
    let poetry = poetry_entries(doc);
    listed(field_in(project, "dependencies"@)) + optional_listed(
        field_in(project, "optional-dependencies"@),
    ) + poetry_listed(poetry, poetry.len() as int)
}

/// The interpreter constraint of a pyproject document: PEP 621's, else Poetry's.
pub open spec fn pyproject_python(doc: TreeView) -> Option<Seq<char>> {
    let declared = text_of(field_in(field_of(doc, "project"@), "requires-python"@));
    let poetry = poetry_entries(doc);
    if declared is Some {
        declared
    } else {
        poetry_python(poetry, poetry.len() as int)
    }
}

/// Convert a Poetry caret/tilde constraint to an approximate PEP 440 form.
fn caret_to_pep440(s: &str) -> (r: String)
    ensures
        r@ == caret_spec(s@),
{
    proof {
        reveal_strlit("^");
        reveal_strlit("~");
    }
    let t = text::trim(s);
    if let Some(v) = text::strip_prefix(t, "^") {
        let major = text::before(v, text::index_of(v, '.'));
        let next: u64 = match text::parse_uint(major, u32::MAX as u64) {
            Some(m) => m + 1,
            None => 4,
        };
        let mut out = ">=".to_string();
        out.append(v);
        out.append(",<");
        out.append(text::decimal(next).as_str());
        out
    } else if let Some(v) = text::strip_prefix(t, "~") {
        let mut out = ">=".to_string();
        out.append(v);
        out
    } else {
        t.to_string()
    }
}

/// Append the requirements a list declares.
fn collect_listed(t: Option<&Tree>, out: &mut Vec<Requirement>)
    ensures
        requirement_views(final(out)@) == requirement_views(old(out)@) + listed(
            match t {
                Some(t) => Some(t@),
                None => None,
            },
        ),
{
    let ghost before = requirement_views(out@);
    match t {
        Some(Tree::List(items)) => {
            let ghost views = item_views(items@);
            let mut i: usize = 0;
            proof {
                lemma_list_view(*items);
                assert(before + views.take(0).filter_map(item_requirement()) =~= before);
            }
            while i < items.len()
                invariant
                    i <= items@.len(),
                    views == item_views(items@),
                    requirement_views(out@) == before + views.take(i as int).filter_map(
                        item_requirement(),
                    ),
                decreases items@.len() - i,
            {
                let ghost so_far = views.take(i as int).filter_map(item_requirement());
                proof {
                    views.lemma_filter_map_take_succ(item_requirement(), i as int);
                    assert(views[i as int] == items@[i as int]@);
                }
                if let Tree::Text(line) = &items[i] {
                    if let Some(q) = parse_requirement(line.as_str()) {
                        proof {
                            lemma_requirements_push(out@, q);
                            assert(before + (so_far + seq![q@]) =~= (before + so_far).push(q@));
                        }
                        out.push(q);
                    }
                }
                i += 1;
            }
            proof {
                assert(views.take(i as int) =~= views);
            }
        },
        _ => {
            proof {
                assert(before + seq![] =~= before);
            }
        },
    }
}

/// Append the requirements of every group of optional dependencies.
fn collect_groups(t: Option<&Tree>, out: &mut Vec<Requirement>)
    ensures
        requirement_views(final(out)@) == requirement_views(old(out)@) + optional_listed(
            match t {
                Some(t) => Some(t@),
                None => None,
            },
        ),
{
    let ghost before = requirement_views(out@);
    match t {
        Some(Tree::Table(entries)) => {
            let ghost views = table_views(entries@);
            let mut i: usize = 0;
            proof {
                lemma_table_view(*entries);
                assert(before + grouped(views, 0) =~= before);
            }
            while i < entries.len()
                invariant
                    i <= entries@.len(),
                    views == table_views(entries@),
                    requirement_views(out@) == before + grouped(views, i as int),
                decreases entries@.len() - i,
            {
                collect_listed(Some(&entries[i].1), out);
                proof {
                    assert(before + grouped(views, i as int + 1) =~= before + grouped(
                        views,
                        i as int,
                    ) + listed(Some(entries@[i as int].1@)));
                }
                i += 1;
            }
        },
        _ => {
            proof {
                assert(before + seq![] =~= before);
            }
        },
    }
}

/// The entries of Poetry's dependency table.
fn poetry_table<'a>(doc: &'a Tree) -> (r: Option<&'a Vec<(String, Tree)>>)
    ensures
        match r {
            Some(entries) => poetry_entries(doc@) == table_views(entries@),
            None => poetry_entries(doc@) == Seq::<(Seq<char>, TreeView)>::empty(),
        },
{
    if let Some(tool) = field(doc, "tool") {
        if let Some(poetry) = field(tool, "poetry") {
            if let Some(Tree::Table(entries)) = field(poetry, "dependencies") {
                proof {
                    lemma_table_view(*entries);
                }
                return Some(entries);
            }
        }
    }
    None
}

/// Read a Poetry dependency table: its requirements and the interpreter constraint.
fn read_poetry(entries: &Vec<(String, Tree)>) -> (r: (Vec<Requirement>, Option<String>))
    ensures
        requirement_views(r.0@) == poetry_listed(
            table_views(entries@),
            entries@.len() as int,
        ),
        text::opt_text(r.1) == poetry_python(
            table_views(entries@),
            entries@.len() as int,
        ),
{
    let ghost views = table_views(entries@);
    let mut names: Vec<Requirement> = Vec::new();
    let mut python: Option<String> = None;
    let mut i: usize = 0;
    proof {
        assert(requirement_views(names@) =~= seq![]);
    }
    while i < entries.len()
        invariant
            i <= entries@.len(),
            views == table_views(entries@),
            requirement_views(names@) == poetry_listed(views, i as int),
            text::opt_text(python) == poetry_python(views, i as int),
        decreases entries@.len() - i,
    {
        proof {
            assert(views[i as int] == (entries@[i as int].0@, entries@[i as int].1@));
        }
        let key = entries[i].0.as_str();
        let constraint = match &entries[i].1 {
            Tree::Text(s) => Some(caret_to_pep440(s.as_str())),
            _ => None,
        };
        if text::same_ignoring_case(key, "python") {
            if python.is_none() {
                python = constraint;
            }
        } else {
            let spec = match constraint {
                Some(s) => if text::same(s.as_str(), "*") {
                    String::new()
                } else {
                    s
                },
                None => String::new(),
            };
            proof {
                reveal_strlit("*");
            }
            let q = Requirement { name: normalize_name(key), spec };
            proof {
                assert(q@ =~= poetry_requirement(views[i as int]));
                lemma_requirements_push(names@, q);
            }
            names.push(q);
        }
        i += 1;
    }
    (names, python)
}

/// Dependencies and interpreter constraint of a pyproject document (PEP 621 and
/// Poetry).
pub fn pyproject_deps(doc: &Tree) -> (r: (Vec<Requirement>, Option<String>))
    ensures
        requirement_views(r.0@) == pyproject_requirements(doc@),
        text::opt_text(r.1) == pyproject_python(doc@),
{
    let mut names: Vec<Requirement> = Vec::new();
    let mut requires_python: Option<String> = None;
    proof {
        assert(requirement_views(names@) =~= seq![]);
    }
    if let Some(project) = field(doc, "project") {
        if let Some(s) = as_text(field(project, "requires-python")) {
            requires_python = Some(s.to_string());
        }
        collect_listed(field(project, "dependencies"), &mut names);
        collect_groups(field(project, "optional-dependencies"), &mut names);
    }
    let ghost pep621 = requirement_views(names@);
    proof {
        let project = field_of(doc@, "project"@);
        assert(pep621 =~= listed(field_in(project, "dependencies"@)) + optional_listed(
            field_in(project, "optional-dependencies"@),
        ));
    }
    match poetry_table(doc) {
        Some(entries) => {
            let (mut more, python) = read_poetry(entries);
            let ghost added = more@;
            names.append(&mut more);
            proof {
                assert(requirement_views(names@) =~= pep621 + requirement_views(added));
            }
            if requires_python.is_none() {
                requires_python = python;
            }
        },
        None => {
            proof {
                assert(requirement_views(names@) =~= pyproject_requirements(doc@));
            }
        },
    }
    (names, requires_python)
}

/// Parse dependencies and the interpreter constraint from the text of a
/// pyproject.toml. A text that is not TOML declares nothing.
pub fn parse_pyproject(s: &str) -> (r: (Vec<Requirement>, Option<String>))
    ensures
        match toml_document(s@) {
            Some(doc) => requirement_views(r.0@) == pyproject_requirements(doc) && text::opt_text(
                r.1,
            ) == pyproject_python(doc),
            None => r.0@.len() == 0 && r.1 is None,
        },
{
    match read_toml(s) {
        Some(doc) => pyproject_deps(&doc),
        None => (Vec::new(), None),
    }
}

// ---------------------------------------------------------------------------
// environment.yml
// ---------------------------------------------------------------------------

/// The characters that end the name in a conda dependency.
pub open spec fn ends_conda_name() -> spec_fn(char) -> bool {
    |c: char| c == '=' || c == '<' || c == '>' || c == '!' || c == '~' || c == ' '
}

fn is_conda_name_end(c: char) -> (r: bool)
    ensures
        r == ends_conda_name()(c),
{
    c == '=' || c == '<' || c == '>' || c == '!' || c == '~' || c == ' '
}

/// An operator and the version field that follows it, up to a build string;
/// empty when no version follows.
pub open spec fn with_operator(op: Seq<char>, rest: Seq<char>) -> Seq<char> {
    let v = text::trim_spec(before_char(rest, '='));
    if v.len() == 0 {
        seq![]
    } else {
        op + v
    }
}

/// One clause of a conda version in PEP 440 form. A single `=` is a prefix match,
/// spelled `==1.24.*`; a build string is dropped; what is not recognized
/// constrains nothing.
pub open spec fn conda_clause(s: Seq<char>) -> Seq<char> {
    let t = text::trim_spec(s);
    if text::starts(t, "=="@) {
        with_operator("=="@, t.skip(2))
    } else if text::starts(t, ">="@) {
        with_operator(">="@, t.skip(2))
    } else if text::starts(t, "<="@) {
        with_operator("<="@, t.skip(2))
    } else if text::starts(t, "!="@) {
        with_operator("!="@, t.skip(2))
    } else if text::starts(t, "~="@) {
        with_operator("~="@, t.skip(2))
    } else if text::starts(t, ">"@) {
        with_operator(">"@, t.skip(1))
    } else if text::starts(t, "<"@) {
        with_operator("<"@, t.skip(1))
    } else if text::starts(t, "="@) {
        let exact = with_operator("=="@, t.skip(1));
        if exact.len() == 0 || text::ends(exact, "*"@) {
            exact
        } else {
            exact + ".*"@
        }
    } else {
        seq![]
    }
}

/// A clause that constrains something.
pub open spec fn conda_piece() -> spec_fn(Seq<char>) -> Option<Seq<char>> {
    |piece: Seq<char>|
        if conda_clause(piece).len() == 0 {
            None
        } else {
            Some(conda_clause(piece))
        }
}

/// The version part of a conda dependency in PEP 440 form: each of its
/// comma-separated clauses that constrains something.
pub open spec fn conda_spec(rest: Seq<char>) -> Seq<char> {
    text::join_spec(
        text::split_spec(rest, text::eq_char(',')).filter_map(conda_piece()),
        ","@,
    )
}

/// What has been read of an `environment.yml`.
#[verifier::ext_equal]
pub struct CondaView {
    pub names: Seq<RequirementView>,
    pub python: Option<Seq<char>>,
    /// Whether the scan is inside the `dependencies:` block.
    pub in_deps: bool,
}

/// One dependency item: the `python` pin, or a package.
pub open spec fn conda_item(st: CondaView, item: Seq<char>) -> CondaView {
    let name = text::trim_spec(item.take(text::first_index(item, ends_conda_name())));
    if text::ends(item, ":"@) {
        st
    } else if is_python_key(name) {
        let parts = text::split_spec(item, text::eq_char('='));
        let pin = if parts.len() > 1 {
            text::trim_spec(parts[1])
        } else {
            seq![]
        };
        CondaView {
            python: if pin.len() == 0 {
                None
            } else {
                Some(pin)
            },
            ..st
        }
    } else if name.len() > 0 {
        CondaView {
            names: st.names.push(
                RequirementView { name: normalized(name), spec: conda_spec(item.skip(name.len() as int)) },
            ),
            ..st
        }
    } else {
        st
    }
}

/// One line of the file.
pub open spec fn conda_line(st: CondaView, raw: Seq<char>) -> CondaView {
    let line = text::trim_spec(raw);
    if text::starts(line, "dependencies:"@) {
        CondaView { in_deps: true, ..st }
    } else if !st.in_deps {
        st
    } else if !text::starts(raw, " "@) && !text::starts(line, "-"@) && text::ends(line, ":"@) {
        CondaView { in_deps: false, ..st }
    } else if text::starts(line, "-"@) {
        conda_item(st, text::trim_spec(line.skip(1)))
    } else {
        st
    }
}

/// The first `n` lines of the file.
pub open spec fn conda_lines(lines: Seq<Seq<char>>, n: int) -> CondaView
    decreases n,
{
    if n <= 0 {
        CondaView { names: seq![], python: None, in_deps: false }
    } else {
        conda_line(conda_lines(lines, n - 1), lines[n - 1])
    }
}

/// An `environment.yml`, read.
pub open spec fn conda_env(s: Seq<char>) -> CondaView {
    let lines = text::lines_spec(s);
    conda_lines(lines, lines.len() as int)
}

/// An operator and the version that follows it, discarding any build string.
fn versioned(op: &str, rest: &str) -> (r: String)
    ensures
        r@ == with_operator(op@, rest@),
{
    let v = text::trim(text::before(rest, text::index_of(rest, '=')));
    if v.is_empty() {
        return String::new();
    }
    let mut out = op.to_string();
    out.append(v);
    out
}

/// Convert one clause of a conda version into PEP 440.
fn convert_clause(s: &str) -> (r: String)
    ensures
        r@ == conda_clause(s@),
{
    proof {
        reveal_strlit("==");
        reveal_strlit(">=");
        reveal_strlit("<=");
        reveal_strlit("!=");
        reveal_strlit("~=");
        reveal_strlit(">");
        reveal_strlit("<");
        reveal_strlit("=");
    }
    let t = text::trim(s);
    if text::starts_with(t, "==") {
        return versioned("==", text::after(t, 2));
    }
    if text::starts_with(t, ">=") {
        return versioned(">=", text::after(t, 2));
    }
    if text::starts_with(t, "<=") {
        return versioned("<=", text::after(t, 2));
    }
    if text::starts_with(t, "!=") {
        return versioned("!=", text::after(t, 2));
    }
    if text::starts_with(t, "~=") {
        return versioned("~=", text::after(t, 2));
    }
    if text::starts_with(t, ">") {
        return versioned(">", text::after(t, 1));
    }
    if text::starts_with(t, "<") {
        return versioned("<", text::after(t, 1));
    }
    if text::starts_with(t, "=") {
        let mut exact = versioned("==", text::after(t, 1));
        if !exact.as_str().is_empty() && !text::ends_with(exact.as_str(), "*") {
            exact.append(".*");
        }
        return exact;
    }
    String::new()
}

/// Convert the version part of a conda dependency line into PEP 440.
///
/// Anything unrecognized yields an empty spec rather than a guess, since a
/// wrong constraint is worse than an absent one.
pub fn conda_spec_to_pep440(rest: &str) -> (r: String)
    ensures
        r@ == conda_spec(rest@),
{
    let parts = text::split(rest, ',');
    let ghost pieces = text::texts(parts@);
    let mut out: Vec<String> = Vec::new();
    let mut i: usize = 0;
    proof {
        assert(text::texts(out@) =~= pieces.take(0).filter_map(conda_piece()));
    }
    while i < parts.len()
        invariant
            i <= parts@.len(),
            pieces == text::texts(parts@),
            text::texts(out@) == pieces.take(i as int).filter_map(conda_piece()),
        decreases parts@.len() - i,
    {
        proof {
            pieces.lemma_filter_map_take_succ(conda_piece(), i as int);
            assert(pieces[i as int] == parts@[i as int]@);
        }
        let clause = convert_clause(parts[i].as_str());
        if !clause.as_str().is_empty() {
            proof {
                text::lemma_texts_push(out@, clause);
            }
            out.push(clause);
        }
        i += 1;
    }
    proof {
        assert(pieces.take(i as int) =~= pieces);
    }
    text::join(&out, ",")
}

/// Best-effort conda environment.yml: dependency names + the `python=` pin.
pub fn parse_environment_yml(s: &str) -> (r: (Vec<Requirement>, Option<String>))
    ensures
        requirement_views(r.0@) == conda_env(s@).names,
        text::opt_text(r.1) == conda_env(s@).python,
{
    proof {
        reveal_strlit("-");
    }
    let lines = text::lines(s);
    let ghost views = text::texts(lines@);
    let mut names: Vec<Requirement> = Vec::new();
    let mut python: Option<String> = None;
    let mut in_deps = false;
    let mut i: usize = 0;
    proof {
        assert(requirement_views(names@) =~= seq![]);
    }
    while i < lines.len()
        invariant
            i <= lines@.len(),
            views == text::texts(lines@),
            "-"@.len() == 1,
            conda_lines(views, i as int) == (CondaView {
                names: requirement_views(names@),
                python: text::opt_text(python),
                in_deps,
            }),
        decreases lines@.len() - i,
    {
        let raw = lines[i].as_str();
        proof {
            assert(views[i as int] == raw@);
        }
        let line = text::trim(raw);
        if text::starts_with(line, "dependencies:") {
            in_deps = true;
        } else if in_deps {
            if !text::starts_with(raw, " ") && !text::starts_with(line, "-") && text::ends_with(
                line,
                ":",
            ) {
                in_deps = false;
            } else if let Some(rest) = text::strip_prefix(line, "-") {
                let item = text::trim(rest);
                if !text::ends_with(item, ":") {
                    let end = text::index_where(
                        item,
                        |c: char| -> (b: bool) ensures b == ends_conda_name()(c) {
                            is_conda_name_end(c)
                        },
                        Ghost(ends_conda_name()),
                    );
                    let name = text::trim(text::before(item, end));
                    if text::same_ignoring_case(name, "python") {
                        let parts = text::split(item, '=');
                        python = None;
                        if parts.len() > 1 {
                            proof {
                                assert(text::texts(parts@)[1] == parts@[1]@);
                            }
                            let pin = text::trim(parts[1].as_str());
                            if !pin.is_empty() {
                                python = Some(pin.to_string());
                            }
                        }
                    } else if !name.is_empty() {
                        let n = name.unicode_len();
                        proof {
                            lemma_trimmed_is_shorter(item@.take(end as int));
                        }
                        let q = Requirement {
                            name: normalize_name(name),
                            spec: conda_spec_to_pep440(text::after(item, n)),
                        };
                        proof {
                            lemma_requirements_push(names@, q);
                        }
                        names.push(q);
                    }
                }
            }
        }
        i += 1;
    }
    (names, python)
}

proof fn lemma_trimmed_is_shorter(s: Seq<char>)
    ensures
        text::trim_spec(s).len() <= s.len(),
{
    text::lemma_first_index(s, text::not_space());
    text::lemma_last_index(text::trim_start_spec(s), text::not_space());
}

/// A version that a conda clause can name: it has no blank at either end, no `=`
/// and no comma.
pub open spec fn conda_version(v: Seq<char>) -> bool {
    &&& v.len() > 0
    &&& !text::is_space(v[0])
    &&& !text::is_space(v.last())
    &&& !v.contains('=')
    &&& !v.contains(',')
}

/// A build string as conda writes one after a version, or nothing.
pub open spec fn conda_build(w: Seq<char>) -> bool {
    (w.len() > 0 ==> w[0] == '=') && !w.contains(',')
}

/// What a pin is read from: trimming takes nothing of its operator or version.
proof fn lemma_pin_trims(op: Seq<char>, v: Seq<char>, w: Seq<char>)
    requires
        op.len() > 0,
        !text::is_space(op[0]),
        conda_version(v),
        conda_build(w),
    ensures
        ({
            let t = text::trim_spec(op + v + w);
            &&& t.len() >= op.len() + v.len()
            &&& t.take(op.len() as int) == op
            &&& t[op.len() as int] == v[0]
            &&& text::trim_spec(before_char(t.skip(op.len() as int), '=')) == v
        }),
{
    let s = op + v + w;
    let n = (op.len() + v.len()) as int;
    text::lemma_first_index_is(s, text::not_space(), 0);
    assert(s.skip(0) =~= s);
    text::lemma_last_index(s, text::not_space());
    let k = text::last_index(s, text::not_space());
    assert(s[n - 1] == v.last());
    if k < n {
        assert(!text::not_space()(s[n - 1]));
    }
    let t = text::trim_spec(s);
    assert(t == s.take(k));
    assert(t.take(op.len() as int) =~= op);
    let rest = t.skip(op.len() as int);
    assert forall|j: int| 0 <= j < v.len() implies !text::eq_char('=')(#[trigger] rest[j]) by {
        assert(rest[j] == v[j]);
    }
    if v.len() < rest.len() {
        assert(rest[v.len() as int] == w[0]);
    }
    text::lemma_first_index_is(rest, text::eq_char('='), v.len() as int);
    assert(rest.take(v.len() as int) =~= v);
    text::lemma_first_index_is(v, text::not_space(), 0);
    assert(v.skip(0) =~= v);
    text::lemma_last_index_is(v, text::not_space(), v.len() as int);
    assert(v.take(v.len() as int) =~= v);
}

/// The operators conda shares with PEP 440.
pub open spec fn shared_operator(op: Seq<char>) -> bool {
    op == "=="@ || op == ">="@ || op == "<="@ || op == "!="@ || op == "~="@ || op == ">"@ || op
        == "<"@
}

/// One clause of a conda version: an operator, a version and perhaps a build
/// string.
pub struct CondaPin {
    pub op: Seq<char>,
    pub version: Seq<char>,
    pub build: Seq<char>,
}

/// Whether a clause is one that conda can mean.
pub open spec fn valid_pin(p: CondaPin) -> bool {
    (shared_operator(p.op) || p.op == "="@) && conda_version(p.version) && conda_build(p.build)
}

/// A clause as conda writes it.
pub open spec fn pin_text() -> spec_fn(CondaPin) -> Seq<char> {
    |p: CondaPin| p.op + p.version + p.build
}

/// The same clause in PEP 440 form: a lone `=` is the prefix match it stands for.
pub open spec fn kept_text() -> spec_fn(CondaPin) -> Seq<char> {
    |p: CondaPin|
        if p.op != "="@ {
            p.op + p.version
        } else if p.version.last() == '*' {
            "=="@ + p.version
        } else {
            "=="@ + p.version + ".*"@
        }
}

proof fn lemma_clause_kept(op: Seq<char>, v: Seq<char>, build: Seq<char>)
    requires
        conda_version(v),
        conda_build(build),
    ensures
        shared_operator(op) ==> conda_clause(op + v + build) == op + v,
        conda_clause("="@ + v + build) == if v.last() == '*' {
            "=="@ + v
        } else {
            "=="@ + v + ".*"@
        },
{
    reveal_strlit("==");
    reveal_strlit(">=");
    reveal_strlit("<=");
    reveal_strlit("!=");
    reveal_strlit("~=");
    reveal_strlit(">");
    reveal_strlit("<");
    reveal_strlit("=");
    reveal_strlit("*");
    assert(v.contains(v[0]));
    if shared_operator(op) {
        lemma_pin_trims(op, v, build);
        let t = text::trim_spec(op + v + build);
        assert(t[0] == t.take(op.len() as int)[0]);
        lemma_openings(t);
        if op.len() == 2 {
            assert(t[1] == t.take(2)[1]);
        }
    }
    lemma_pin_trims("="@, v, build);
    let t = text::trim_spec("="@ + v + build);
    assert(t[0] == t.take(1)[0]);
    lemma_openings(t);
    let exact = "=="@ + v;
    assert(exact.skip(exact.len() - 1) =~= seq![v.last()]);
    assert("*"@ =~= seq!['*']);
    if text::ends(exact, "*"@) {
        assert(exact.skip(exact.len() - 1)[0] == "*"@[0]);
    }
}

proof fn lemma_pin_kept(p: CondaPin)
    requires
        valid_pin(p),
    ensures
        conda_piece()(pin_text()(p)) == Some(kept_text()(p)),
        !pin_text()(p).contains(','),
{
    reveal_strlit("==");
    reveal_strlit(">=");
    reveal_strlit("<=");
    reveal_strlit("!=");
    reveal_strlit("~=");
    reveal_strlit(">");
    reveal_strlit("<");
    reveal_strlit("=");
    lemma_clause_kept(p.op, p.version, p.build);
    let t = pin_text()(p);
    if t.contains(',') {
        let k = choose|k: int| 0 <= k < t.len() && t[k] == ',';
        let n = p.op.len() as int;
        let m = n + p.version.len();
        if k < n {
            assert(p.op[k] == ',');
        } else if k < m {
            assert(p.version[k - n] == ',');
            assert(p.version.contains(','));
        } else {
            assert(p.build[k - m] == ',');
            assert(p.build.contains(','));
        }
    }
}

/// A conda pin survives, clause by clause: an operator that PEP 440 shares keeps
/// its version, a lone `=` becomes the prefix match it stands for, and build
/// strings are all that is dropped.
pub proof fn conda_pins_are_kept(pins: Seq<CondaPin>)
    requires
        forall|i: int| 0 <= i < pins.len() ==> valid_pin(#[trigger] pins[i]),
    ensures
        conda_spec(text::join_spec(pins.map_values(pin_text()), ","@)) == text::join_spec(
            pins.map_values(kept_text()),
            ","@,
        ),
{
    reveal_strlit(",");
    if pins.len() == 0 {
        let none = Seq::<Seq<char>>::empty();
        assert(pins.map_values(pin_text()) =~= none);
        assert(pins.map_values(kept_text()) =~= none);
        let e = Seq::<char>::empty();
        assert(text::split_spec(e, text::eq_char(',')) =~= seq![e]);
        text::lemma_first_index_is(e, text::not_space(), 0);
        assert(text::trim_spec(e) =~= e);
        lemma_openings(e);
        assert(conda_piece()(e) is None);
        assert(seq![e].drop_last() =~= none);
        assert(none.filter_map(conda_piece()) =~= none);
        assert(seq![e].last() == e);
        assert(seq![e].filter_map(conda_piece()) =~= none);
    } else {
        lemma_pins_read(pins);
    }
}

/// The clauses of a list are read one by one.
proof fn lemma_pins_read(pins: Seq<CondaPin>)
    requires
        pins.len() > 0,
        forall|i: int| 0 <= i < pins.len() ==> valid_pin(#[trigger] pins[i]),
    ensures
        text::split_spec(
            text::join_spec(pins.map_values(pin_text()), ","@),
            text::eq_char(','),
        ).filter_map(conda_piece()) == pins.map_values(kept_text()),
    decreases pins.len(),
{
    reveal_strlit(",");
    let p = text::eq_char(',');
    let f = conda_piece();
    let last = pin_text()(pins.last());
    assert(valid_pin(pins[pins.len() - 1]));
    lemma_pin_kept(pins.last());
    assert forall|j: int| 0 <= j < last.len() implies !p(#[trigger] last[j]) by {
        assert(last.contains(last[j]));
    }
    text::lemma_first_index_is(last, p, last.len() as int);
    assert(text::split_spec(last, p) == seq![last]);
    let texts = pins.map_values(pin_text());
    let kept = pins.map_values(kept_text());
    let before = pins.drop_last();
    assert(texts.drop_last() =~= before.map_values(pin_text()));
    assert(kept.drop_last() =~= before.map_values(kept_text()));
    assert(texts.last() == last);
    let whole = text::join_spec(texts, ","@);
    if pins.len() == 1 {
        assert(whole == last);
        assert(seq![last].drop_last() =~= Seq::<Seq<char>>::empty());
        assert(seq![last].drop_last().filter_map(f) =~= Seq::<Seq<char>>::empty());
        assert(seq![last].filter_map(f) =~= kept);
    } else {
        assert forall|i: int| 0 <= i < before.len() implies valid_pin(#[trigger] before[i]) by {
            assert(before[i] == pins[i]);
        }
        lemma_pins_read(before);
        let head = text::join_spec(texts.drop_last(), ","@);
        assert(","@ =~= seq![',']);
        assert(whole == head + seq![','] + last);
        text::lemma_split_at(head, ',', last, p);
        let pieces = text::split_spec(head, p);
        let all = text::split_spec(whole, p);
        assert(all =~= pieces.push(last));
        assert(all.drop_last() =~= pieces);
        assert(all.filter_map(f) =~= kept);
    }
}

/// How a text opens, character by character.
proof fn lemma_openings(t: Seq<char>)
    ensures
        text::starts(t, "=="@) <==> t.len() >= 2 && t[0] == '=' && t[1] == '=',
        text::starts(t, ">="@) <==> t.len() >= 2 && t[0] == '>' && t[1] == '=',
        text::starts(t, "<="@) <==> t.len() >= 2 && t[0] == '<' && t[1] == '=',
        text::starts(t, "!="@) <==> t.len() >= 2 && t[0] == '!' && t[1] == '=',
        text::starts(t, "~="@) <==> t.len() >= 2 && t[0] == '~' && t[1] == '=',
        text::starts(t, ">"@) <==> t.len() >= 1 && t[0] == '>',
        text::starts(t, "<"@) <==> t.len() >= 1 && t[0] == '<',
        text::starts(t, "="@) <==> t.len() >= 1 && t[0] == '=',
{
    reveal_strlit("==");
    reveal_strlit(">=");
    reveal_strlit("<=");
    reveal_strlit("!=");
    reveal_strlit("~=");
    reveal_strlit(">");
    reveal_strlit("<");
    reveal_strlit("=");
    if t.len() >= 2 {
        let two = t.take(2);
        assert(two[0] == t[0] && two[1] == t[1]);
        assert(two == "=="@ <==> two =~= "=="@);
        assert(two == ">="@ <==> two =~= ">="@);
        assert(two == "<="@ <==> two =~= "<="@);
        assert(two == "!="@ <==> two =~= "!="@);
        assert(two == "~="@ <==> two =~= "~="@);
    }
    if t.len() >= 1 {
        let one = t.take(1);
        assert(one[0] == t[0]);
        assert(one == ">"@ <==> one =~= ">"@);
        assert(one == "<"@ <==> one =~= "<"@);
        assert(one == "="@ <==> one =~= "="@);
    }
}

// ---------------------------------------------------------------------------
// One entry per name
// ---------------------------------------------------------------------------

/// Whether some requirement constrains `name` with a specifier.
pub open spec fn constrained(reqs: Seq<RequirementView>, name: Seq<char>) -> bool {
    exists|j: int|
        0 <= j < reqs.len() && (#[trigger] reqs[j]).name == name && reqs[j].spec.len() > 0
}

/// Whether `spec` is what the mentions of `name` come to: the first in
/// dictionary order of the specifiers that constrain it, or none.
pub open spec fn merged_spec(reqs: Seq<RequirementView>, name: Seq<char>, spec: Seq<char>) -> bool {
    if spec.len() == 0 {
        !constrained(reqs, name)
    } else {
        &&& exists|j: int|
            0 <= j < reqs.len() && (#[trigger] reqs[j]).name == name && reqs[j].spec == spec
        &&& forall|j: int|
            0 <= j < reqs.len() && (#[trigger] reqs[j]).name == name && reqs[j].spec.len() > 0
                ==> !text::lex_lt(reqs[j].spec, spec)
    }
}

pub open spec fn mentions(reqs: Seq<RequirementView>, name: Seq<char>) -> bool {
    exists|j: int| 0 <= j < reqs.len() && (#[trigger] reqs[j]).name == name
}

/// Whether `out` lists each name of `reqs` that is not empty once, in dictionary
/// order, with the specifier its mentions come to.
pub open spec fn deduped(reqs: Seq<RequirementView>, out: Seq<RequirementView>) -> bool {
    &&& forall|i: int, j: int|
        0 <= i < j < out.len() ==> text::lex_lt(#[trigger] out[i].name, #[trigger] out[j].name)
    &&& forall|i: int|
        0 <= i < out.len() ==> (#[trigger] out[i]).name.len() > 0 && mentions(reqs, out[i].name)
            && merged_spec(reqs, out[i].name, out[i].spec)
    &&& forall|j: int|
        0 <= j < reqs.len() && (#[trigger] reqs[j]).name.len() > 0 ==> mentions(out, reqs[j].name)
}

/// The first position whose name does not come before `name`.
fn position(out: &Vec<Requirement>, name: &str) -> (r: usize)
    requires
        forall|i: int, j: int|
            0 <= i < j < out@.len() ==> text::lex_lt(#[trigger] out@[i].name@, #[trigger] out@[j].name@),
    ensures
        r <= out@.len(),
        forall|i: int| 0 <= i < r ==> text::lex_lt(#[trigger] out@[i].name@, name@),
        forall|i: int|
            r <= i < out@.len() ==> #[trigger] out@[i].name@ == name@ && i == r || text::lex_lt(
                name@,
                out@[i].name@,
            ),
{
    let mut i: usize = 0;
    while i < out.len()
        invariant
            i <= out@.len(),
            forall|k: int| 0 <= k < i ==> text::lex_lt(#[trigger] out@[k].name@, name@),
            forall|i: int, j: int|
                0 <= i < j < out@.len() ==> text::lex_lt(
                    #[trigger] out@[i].name@,
                    #[trigger] out@[j].name@,
                ),
        decreases out@.len() - i,
    {
        if !text::less(out[i].name.as_str(), name) {
            proof {
                let at = out@[i as int].name@;
                text::lemma_lex_total(at, name@);
                assert forall|k: int| i <= k < out@.len() implies #[trigger] out@[k].name@ == name@
                    && k == i || text::lex_lt(name@, out@[k].name@) by {
                    if k > i {
                        assert(text::lex_lt(at, out@[k].name@));
                        if at != name@ {
                            text::lemma_lex_transitive(name@, at, out@[k].name@);
                        }
                    }
                }
            }
            return i;
        }
        i += 1;
    }
    i
}

/// The specifier two mentions of one name come to.
pub open spec fn merge(old_spec: Seq<char>, new_spec: Seq<char>) -> Seq<char> {
    if old_spec.len() == 0 || (new_spec.len() > 0 && text::lex_lt(new_spec, old_spec)) {
        new_spec
    } else {
        old_spec
    }
}

proof fn lemma_merged_push(
    reqs: Seq<RequirementView>,
    r: RequirementView,
    name: Seq<char>,
    spec: Seq<char>,
)
    requires
        merged_spec(reqs, name, spec),
    ensures
        r.name != name ==> merged_spec(reqs.push(r), name, spec),
        r.name == name ==> merged_spec(reqs.push(r), name, merge(spec, r.spec)),
{
    let more = reqs.push(r);
    let n = reqs.len() as int;
    let result = if r.name == name {
        merge(spec, r.spec)
    } else {
        spec
    };
    assert(more[n] == r);
    assert forall|j: int| 0 <= j < n implies #[trigger] more[j] == reqs[j] by {}
    if result.len() == 0 {
        if constrained(more, name) {
            let j = choose|j: int|
                0 <= j < more.len() && (#[trigger] more[j]).name == name && more[j].spec.len() > 0;
            if j < n {
                assert(reqs[j].name == name);
                assert(constrained(reqs, name));
            }
        }
    } else {
        if result == spec {
            let j = choose|j: int|
                0 <= j < reqs.len() && (#[trigger] reqs[j]).name == name && reqs[j].spec == spec;
            assert(more[j].name == name && more[j].spec == spec);
        } else {
            assert(more[n].name == name && more[n].spec == result);
        }
        assert forall|j: int|
            0 <= j < more.len() && (#[trigger] more[j]).name == name && more[j].spec.len()
                > 0 implies !text::lex_lt(more[j].spec, result) by {
            text::lemma_lex_irreflexive(result);
            if j < n {
                assert(reqs[j].name == name && reqs[j].spec.len() > 0);
                if result != spec {
                    assert(constrained(reqs, name));
                    if text::lex_lt(more[j].spec, result) {
                        text::lemma_lex_transitive(more[j].spec, result, spec);
                    }
                }
            } else {
                text::lemma_lex_total(r.spec, spec);
            }
        }
    }
}

proof fn lemma_mentions_push(reqs: Seq<RequirementView>, r: RequirementView, name: Seq<char>)
    ensures
        mentions(reqs, name) ==> mentions(reqs.push(r), name),
        mentions(reqs.push(r), r.name),
        !mentions(reqs, name) && r.name != name ==> !mentions(reqs.push(r), name),
{
    let more = reqs.push(r);
    assert(more[reqs.len() as int] == r);
    if mentions(reqs, name) {
        let j = choose|j: int| 0 <= j < reqs.len() && (#[trigger] reqs[j]).name == name;
        assert(more[j].name == name);
    }
    if mentions(more, name) && r.name != name {
        let j = choose|j: int| 0 <= j < more.len() && (#[trigger] more[j]).name == name;
        assert(reqs[j].name == name);
    }
}

/// A requirement without a name changes nothing.
proof fn lemma_dedupe_nameless(
    reqs: Seq<RequirementView>,
    r: RequirementView,
    out: Seq<RequirementView>,
)
    requires
        deduped(reqs, out),
        r.name.len() == 0,
    ensures
        deduped(reqs.push(r), out),
{
    let more = reqs.push(r);
    assert forall|i: int| 0 <= i < out.len() implies (#[trigger] out[i]).name.len() > 0 && mentions(
        more,
        out[i].name,
    ) && merged_spec(more, out[i].name, out[i].spec) by {
        lemma_mentions_push(reqs, r, out[i].name);
        lemma_merged_push(reqs, r, out[i].name, out[i].spec);
    }
    assert forall|j: int|
        0 <= j < more.len() && (#[trigger] more[j]).name.len() > 0 implies mentions(
        out,
        more[j].name,
    ) by {
        assert(more[j] == reqs[j]);
    }
}

/// A second mention of a name changes its specifier.
proof fn lemma_dedupe_again(
    reqs: Seq<RequirementView>,
    r: RequirementView,
    out: Seq<RequirementView>,
    p: int,
)
    requires
        deduped(reqs, out),
        0 <= p < out.len(),
        out[p].name == r.name,
    ensures
        deduped(
            reqs.push(r),
            out.update(p, RequirementView { name: r.name, spec: merge(out[p].spec, r.spec) }),
        ),
{
    let more = reqs.push(r);
    let next = out.update(p, RequirementView { name: r.name, spec: merge(out[p].spec, r.spec) });
    assert forall|i: int| 0 <= i < next.len() implies #[trigger] next[i].name == out[i].name by {}
    assert forall|i: int, j: int| 0 <= i < j < next.len() implies text::lex_lt(
        #[trigger] next[i].name,
        #[trigger] next[j].name,
    ) by {
        assert(text::lex_lt(out[i].name, out[j].name));
    }
    assert forall|i: int| 0 <= i < next.len() implies (#[trigger] next[i]).name.len() > 0
        && mentions(more, next[i].name) && merged_spec(more, next[i].name, next[i].spec) by {
        assert(out[i].name.len() > 0);
        lemma_mentions_push(reqs, r, out[i].name);
        lemma_merged_push(reqs, r, out[i].name, out[i].spec);
        if i != p {
            text::lemma_lex_irreflexive(r.name);
            if i < p {
                assert(text::lex_lt(out[i].name, out[p].name));
            } else {
                assert(text::lex_lt(out[p].name, out[i].name));
            }
        }
    }
    assert forall|j: int|
        0 <= j < more.len() && (#[trigger] more[j]).name.len() > 0 implies mentions(
        next,
        more[j].name,
    ) by {
        if j < reqs.len() {
            assert(more[j] == reqs[j]);
            let k = choose|k: int| 0 <= k < out.len() && (#[trigger] out[k]).name == reqs[j].name;
            assert(next[k].name == more[j].name);
        } else {
            assert(next[p].name == more[j].name);
        }
    }
}

/// A first mention of a name takes its place in the order.
proof fn lemma_dedupe_first(
    reqs: Seq<RequirementView>,
    r: RequirementView,
    out: Seq<RequirementView>,
    p: int,
)
    requires
        deduped(reqs, out),
        r.name.len() > 0,
        0 <= p <= out.len(),
        forall|i: int| 0 <= i < p ==> text::lex_lt(#[trigger] out[i].name, r.name),
        forall|i: int| p <= i < out.len() ==> text::lex_lt(r.name, #[trigger] out[i].name),
    ensures
        deduped(reqs.push(r), out.insert(p, r)),
{
    let more = reqs.push(r);
    let next = out.insert(p, r);
    assert(next.len() == out.len() + 1);
    assert(next[p] == r);
    assert forall|i: int| 0 <= i < p implies #[trigger] next[i] == out[i] by {}
    assert forall|i: int| p < i < next.len() implies #[trigger] next[i] == out[i - 1] by {}
    assert forall|i: int, j: int| 0 <= i < j < next.len() implies text::lex_lt(
        #[trigger] next[i].name,
        #[trigger] next[j].name,
    ) by {
        if j < p {
            assert(text::lex_lt(out[i].name, out[j].name));
        } else if i < p && j > p {
            assert(text::lex_lt(out[i].name, out[j - 1].name));
        } else if i > p {
            assert(text::lex_lt(out[i - 1].name, out[j - 1].name));
        } else if i == p {
            assert(text::lex_lt(r.name, out[j - 1].name));
        } else {
            assert(text::lex_lt(out[i].name, r.name));
        }
    }
    assert forall|k: int| 0 <= k < out.len() implies (#[trigger] out[k]).name != r.name by {
        text::lemma_lex_irreflexive(r.name);
    }
    if mentions(reqs, r.name) {
        let j = choose|j: int| 0 <= j < reqs.len() && (#[trigger] reqs[j]).name == r.name;
        assert(mentions(out, reqs[j].name));
        assert(false);
    }
    assert forall|i: int| 0 <= i < next.len() implies (#[trigger] next[i]).name.len() > 0
        && mentions(more, next[i].name) && merged_spec(more, next[i].name, next[i].spec) by {
        if i == p {
            lemma_mentions_push(reqs, r, r.name);
            assert(merged_spec(reqs, r.name, seq![])) by {
                if constrained(reqs, r.name) {
                    let j = choose|j: int|
                        0 <= j < reqs.len() && (#[trigger] reqs[j]).name == r.name
                            && reqs[j].spec.len() > 0;
                    assert(mentions(reqs, r.name));
                }
            }
            lemma_merged_push(reqs, r, r.name, seq![]);
        } else {
            let k = if i < p {
                i
            } else {
                i - 1
            };
            assert(next[i] == out[k]);
            lemma_mentions_push(reqs, r, out[k].name);
            lemma_merged_push(reqs, r, out[k].name, out[k].spec);
        }
    }
    assert forall|j: int|
        0 <= j < more.len() && (#[trigger] more[j]).name.len() > 0 implies mentions(
        next,
        more[j].name,
    ) by {
        if j < reqs.len() {
            assert(more[j] == reqs[j]);
            let k = choose|k: int| 0 <= k < out.len() && (#[trigger] out[k]).name == reqs[j].name;
            if k < p {
                assert(next[k].name == more[j].name);
            } else {
                assert(next[k + 1] == out[k]);
                assert(next[k + 1].name == more[j].name);
            }
        } else {
            assert(next[p].name == more[j].name);
        }
    }
}

/// One requirement per name, in dictionary order. Of several mentions the
/// constrained one stays, since an installer has to satisfy every mention.
pub fn dedupe(reqs: Vec<Requirement>) -> (r: Vec<Requirement>)
    ensures
        deduped(requirement_views(reqs@), requirement_views(r@)),
{
    let ghost views = requirement_views(reqs@);
    let mut out: Vec<Requirement> = Vec::new();
    let mut i: usize = 0;
    while i < reqs.len()
        invariant
            i <= reqs@.len(),
            views == requirement_views(reqs@),
            deduped(views.take(i as int), requirement_views(out@)),
        decreases reqs@.len() - i,
    {
        let ghost done = views.take(i as int);
        let ghost before = requirement_views(out@);
        let ghost r = reqs@[i as int]@;
        proof {
            assert(views.take(i as int + 1) =~= done.push(r));
        }
        if reqs[i].name.as_str().is_empty() {
            proof {
                lemma_dedupe_nameless(done, r, before);
            }
        } else {
            proof {
                assert forall|a: int, b: int| 0 <= a < b < out@.len() implies text::lex_lt(
                    #[trigger] out@[a].name@,
                    #[trigger] out@[b].name@,
                ) by {
                    assert(text::lex_lt(before[a].name, before[b].name));
                }
            }
            let p = position(&out, reqs[i].name.as_str());
            if p < out.len() && text::same(out[p].name.as_str(), reqs[i].name.as_str()) {
                proof {
                    lemma_dedupe_again(done, r, before, p as int);
                }
                let new_spec = reqs[i].spec.as_str();
                let old_spec = out[p].spec.as_str();
                let replace = old_spec.is_empty() || (!new_spec.is_empty() && text::less(
                    new_spec,
                    old_spec,
                ));
                if replace {
                    let q = reqs[i].clone();
                    out.set(p, q);
                }
                proof {
                    assert(requirement_views(out@) =~= before.update(
                        p as int,
                        RequirementView { name: r.name, spec: merge(before[p as int].spec, r.spec) },
                    ));
                }
            } else {
                proof {
                    assert forall|k: int| 0 <= k < p implies text::lex_lt(
                        #[trigger] before[k].name,
                        r.name,
                    ) by {
                        assert(text::lex_lt(out@[k].name@, r.name));
                    }
                    assert forall|k: int| p <= k < before.len() implies text::lex_lt(
                        r.name,
                        #[trigger] before[k].name,
                    ) by {
                        assert(out@[k].name@ == before[k].name);
                    }
                    lemma_dedupe_first(done, r, before, p as int);
                }
                out.insert(p, reqs[i].clone());
                proof {
                    assert(requirement_views(out@) =~= before.insert(p as int, r));
                }
            }
        }
        i += 1;
    }
    proof {
        assert(views.take(i as int) =~= views);
    }
    out
}

// ---------------------------------------------------------------------------
// The workspace
// ---------------------------------------------------------------------------

/// What we learned from a workspace's project files.
#[derive(Debug)]
pub struct ProjectDeps {
    /// Signal files that were found and parsed, relative to the workspace.
    pub sources: Vec<String>,
    /// Declared dependencies, deduped and normalized.
    pub packages: Vec<Requirement>,
    /// `requires-python` from pyproject, if declared.
    pub declared_requires_python: Option<String>,
    /// True when an `environment.yml` is present.
    pub has_conda_env: bool,
    /// Python pin parsed from a conda `environment.yml`, if any.
    pub conda_python: Option<String>,
}

/// The project files of a workspace root: the text of each that is a file and
/// could be read.
#[derive(Debug)]
pub struct WorkspaceFiles {
    pub pyproject: Option<String>,
    pub requirements: Option<String>,
    /// Whether `environment.yml` is a file, readable or not.
    pub has_environment_yml: bool,
    pub environment_yml: Option<String>,
    /// Whether the root holds a `.py` file.
    pub has_python_file: bool,
}

impl ProjectDeps {
    pub fn is_python_project(&self) -> (r: bool)
        ensures
            r == (self.sources@.len() > 0),
    {
        self.sources.len() > 0
    }

    /// Just the names, for display and for callers that don't care about pins.
    pub fn names(&self) -> (r: Vec<String>)
        ensures
            r@.len() == self.packages@.len(),
            forall|i: int| 0 <= i < r@.len() ==> (#[trigger] r@[i])@ == self.packages@[i]@.name,
    {
        let mut out: Vec<String> = Vec::new();
        let mut i: usize = 0;
        while i < self.packages.len()
            invariant
                i <= self.packages@.len(),
                out@.len() == i,
                forall|j: int| 0 <= j < i ==> (#[trigger] out@[j])@ == self.packages@[j]@.name,
            decreases self.packages@.len() - i,
        {
            out.push(self.packages[i].name.clone());
            i += 1;
        }
        out
    }
}

impl Default for ProjectDeps {
    fn default() -> (r: ProjectDeps)
        ensures
            r.sources@.len() == 0,
            r.packages@.len() == 0,
            r.declared_requires_python is None,
            !r.has_conda_env,
            r.conda_python is None,
    {
        ProjectDeps {
            sources: Vec::new(),
            packages: Vec::new(),
            declared_requires_python: None,
            has_conda_env: false,
            conda_python: None,
        }
    }
}

/// The requirements a pyproject text declares.
pub open spec fn pyproject_text_requirements(s: Option<Seq<char>>) -> Seq<RequirementView> {
    match s {
        Some(s) => match toml_document(s) {
            Some(doc) => pyproject_requirements(doc),
            None => seq![],
        },
        None => seq![],
    }
}

/// The interpreter constraint a pyproject text declares.
pub open spec fn pyproject_text_python(s: Option<Seq<char>>) -> Option<Seq<char>> {
    match s {
        Some(s) => match toml_document(s) {
            Some(doc) => pyproject_python(doc),
            None => None,
        },
        None => None,
    }
}

/// Every requirement a workspace declares, file by file.
pub open spec fn declared_requirements(files: WorkspaceFiles) -> Seq<RequirementView> {
    pyproject_text_requirements(text::opt_text(files.pyproject)) + (match files.requirements {
        Some(s) => requirements_spec(s@),
        None => seq![],
    }) + (if files.has_environment_yml && files.environment_yml is Some {
        conda_env(files.environment_yml->0@).names
    } else {
        seq![]
    })
}

/// The signal files of a workspace. A bare `.py` file also makes it a Python
/// project, with no manifest.
pub open spec fn signal_files(files: WorkspaceFiles) -> Seq<Seq<char>> {
    let first = if files.pyproject is Some {
        seq!["pyproject.toml"@]
    } else {
        seq![]
    };
    let second = if files.requirements is Some {
        first.push("requirements.txt"@)
    } else {
        first
    };
    let third = if files.has_environment_yml {
        second.push("environment.yml"@)
    } else {
        second
    };
    if third.len() == 0 && files.has_python_file {
        seq!["*.py"@]
    } else {
        third
    }
}

/// Read a workspace's project files.
pub fn scan(files: &WorkspaceFiles) -> (r: ProjectDeps)
    ensures
        text::texts(r.sources@) == signal_files(*files),
        deduped(declared_requirements(*files), requirement_views(r.packages@)),
        text::opt_text(r.declared_requires_python) == pyproject_text_python(
            text::opt_text(files.pyproject),
        ),
        r.has_conda_env == files.has_environment_yml,
        text::opt_text(r.conda_python) == (if files.has_environment_yml
            && files.environment_yml is Some {
            conda_env(files.environment_yml->0@).python
        } else {
            None
        }),
{
    let mut deps = ProjectDeps::default();
    let mut names: Vec<Requirement> = Vec::new();
    let ghost none = Seq::<RequirementView>::empty();
    let ghost mut first = none;
    let ghost mut second = none;
    let ghost mut third = none;
    proof {
        assert(requirement_views(names@) =~= none);
        assert(text::texts(deps.sources@) =~= seq![]);
    }
    if let Some(s) = &files.pyproject {
        let (pkgs, python) = parse_pyproject(s.as_str());
        proof {
            first = requirement_views(pkgs@);
            if toml_document(s@) is None {
                assert(first =~= none);
            }
        }
        names = pkgs;
        deps.declared_requires_python = python;
        let name = "pyproject.toml".to_string();
        proof {
            text::lemma_texts_push(deps.sources@, name);
        }
        deps.sources.push(name);
        proof {
            assert(text::texts(deps.sources@) =~= seq!["pyproject.toml"@]);
        }
    }
    if let Some(s) = &files.requirements {
        let mut pkgs = parse_requirements(s.as_str());
        proof {
            second = requirement_views(pkgs@);
            assert(requirement_views(names@ + pkgs@) =~= first + second);
        }
        names.append(&mut pkgs);
        let name = "requirements.txt".to_string();
        proof {
            text::lemma_texts_push(deps.sources@, name);
        }
        deps.sources.push(name);
    }
    proof {
        assert(requirement_views(names@) =~= first + second);
    }
    if files.has_environment_yml {
        if let Some(s) = &files.environment_yml {
            let (mut pkgs, python) = parse_environment_yml(s.as_str());
            proof {
                third = requirement_views(pkgs@);
                assert(requirement_views(names@ + pkgs@) =~= first + second + third);
            }
            names.append(&mut pkgs);
            deps.conda_python = python;
        }
        deps.has_conda_env = true;
        let name = "environment.yml".to_string();
        proof {
            text::lemma_texts_push(deps.sources@, name);
        }
        deps.sources.push(name);
    }
    proof {
        assert(requirement_views(names@) =~= first + second + third);
        assert(declared_requirements(*files) =~= first + second + third);
    }
    if deps.sources.len() == 0 && files.has_python_file {
        let name = "*.py".to_string();
        proof {
            text::lemma_texts_push(deps.sources@, name);
        }
        deps.sources.push(name);
        proof {
            assert(text::texts(deps.sources@) =~= seq!["*.py"@]);
        }
    }
    deps.packages = dedupe(names);
    deps
}

// ---------------------------------------------------------------------------
// Leaving conda
// ---------------------------------------------------------------------------

/// A text with each white space character made a dash.
pub open spec fn dashed(s: Seq<char>) -> Seq<char> {
    Seq::new(
        s.len(),
        |i: int|
            if text::is_space(s[i]) {
                '-'
            } else {
                s[i]
            },
    )
}

/// The project name a directory name gives.
pub open spec fn project_name_of(directory: Seq<char>) -> Seq<char> {
    let name = normalized(dashed(directory));
    if name.len() == 0 {
        "project"@
    } else {
        name
    }
}

/// A conda Python pin as a `requires-python` specifier: a bare version is a lower
/// bound.
pub open spec fn requires_python_of(pin: Seq<char>) -> Seq<char> {
    let v = text::trim_spec(pin);
    if v.len() > 0 && (v[0] == '>' || v[0] == '<' || v[0] == '=' || v[0] == '~' || v[0] == '!') {
        v
    } else {
        ">="@ + v
    }
}

/// The first `n` requirements as the lines of a TOML list.
pub open spec fn dependency_lines(reqs: Seq<RequirementView>, n: int) -> Seq<char>
    decreases n,
{
    if n <= 0 {
        seq![]
    } else {
        dependency_lines(reqs, n - 1) + "    \""@ + requirement_text(reqs[n - 1]) + "\",\n"@
    }
}

/// The pyproject.toml a conda project migrates to.
pub open spec fn migrated(
    reqs: Seq<RequirementView>,
    python: Option<Seq<char>>,
    directory: Seq<char>,
) -> Seq<char> {
    let head = "[project]\nname = \""@ + project_name_of(directory)
        + "\"\nversion = \"0.1.0\"\n"@;
    let middle = match python {
        Some(pin) => head + "requires-python = \""@ + requires_python_of(pin) + "\"\n"@,
        None => head,
    };
    if reqs.len() == 0 {
        middle + "dependencies = []\n"@
    } else {
        middle + "dependencies = [\n"@ + dependency_lines(reqs, reqs.len() as int) + "]\n"@
    }
}

fn dashes_for_spaces(s: &str) -> (r: String)
    ensures
        r@ == dashed(s@),
{
    let chars = text::chars_of(s);
    let mut out = String::new();
    let mut i: usize = 0;
    proof {
        assert(out@ =~= dashed(s@).take(0));
    }
    while i < chars.len()
        invariant
            i <= chars@.len(),
            chars@ == s@,
            out@ == dashed(s@).take(i as int),
        decreases chars@.len() - i,
    {
        let c = if chars[i].is_whitespace() {
            '-'
        } else {
            chars[i]
        };
        proof {
            assert(dashed(s@).take(i as int).push(c) =~= dashed(s@).take(i as int + 1));
        }
        out.push(c);
        i += 1;
    }
    proof {
        assert(dashed(s@).take(i as int) =~= dashed(s@));
    }
    out
}

fn with_lower_bound(pin: &str) -> (r: String)
    ensures
        r@ == requires_python_of(pin@),
{
    let v = text::trim(pin);
    if v.unicode_len() > 0 {
        let first = v.get_char(0);
        if first == '>' || first == '<' || first == '=' || first == '~' || first == '!' {
            return v.to_string();
        }
    }
    let mut out = ">=".to_string();
    out.append(v);
    out
}

/// Translate a conda `environment.yml` into a minimal PEP 621 `pyproject.toml`.
///
/// `project_name` is typically the workspace directory name. This is
/// deliberately conservative: conda package names do not always match their PyPI
/// equivalent, and guessing a mapping per name would be a guess. Every parsed
/// dependency is carried over as it is, for the user to review. There is no
/// `[build-system]` section: this describes an application, not a
/// redistributable package.
pub fn conda_migration_pyproject(deps: &ProjectDeps, project_name: &str) -> (r: String)
    ensures
        r@ == migrated(
            requirement_views(deps.packages@),
            text::opt_text(deps.conda_python),
            project_name@,
        ),
{
    let spaced = dashes_for_spaces(project_name);
    let name = normalize_name(spaced.as_str());
    let mut out = "[project]\nname = \"".to_string();
    if name.as_str().unicode_len() == 0 {
        out.append("project");
    } else {
        out.append(name.as_str());
    }
    out.append("\"\nversion = \"0.1.0\"\n");
    if let Some(pin) = &deps.conda_python {
        out.append("requires-python = \"");
        out.append(with_lower_bound(pin.as_str()).as_str());
        out.append("\"\n");
    }
    if deps.packages.len() == 0 {
        out.append("dependencies = []\n");
        return out;
    }
    out.append("dependencies = [\n");
    let ghost head = out@;
    let ghost reqs = requirement_views(deps.packages@);
    let mut i: usize = 0;
    proof {
        assert(head + dependency_lines(reqs, 0) =~= head);
    }
    while i < deps.packages.len()
        invariant
            i <= deps.packages@.len(),
            reqs == requirement_views(deps.packages@),
            out@ == head + dependency_lines(reqs, i as int),
        decreases deps.packages@.len() - i,
    {
        let ghost before = dependency_lines(reqs, i as int);
        let line = deps.packages[i].to_text();
        out.append("    \"");
        out.append(line.as_str());
        out.append("\",\n");
        proof {
            assert(reqs[i as int] == deps.packages@[i as int]@);
            assert(out@ =~= head + (before + "    \""@ + line@ + "\",\n"@));
        }
        i += 1;
    }
    out.append("]\n");
    out
}

/// A requirements file reads back line by line, in order.
pub proof fn requirement_files_read_back(reqs: Seq<RequirementView>)
    requires
        forall|i: int| 0 <= i < reqs.len() ==> plain_requirement(#[trigger] reqs[i]),
    ensures
        requirements_spec(
            text::join_spec(reqs.map_values(|r: RequirementView| requirement_text(r)), "\n"@),
        ) == reqs,
{
    let lines = reqs.map_values(|r: RequirementView| requirement_text(r));
    assert forall|i: int| 0 <= i < lines.len() implies text::is_line(#[trigger] lines[i])
        && lines[i].len() > 0 && line_requirement()(lines[i]) == Some(reqs[i]) by {
        lemma_requirement_line(reqs[i]);
        requirements_read_back(reqs[i]);
    }
    if lines.len() > 0 {
        assert(lines[lines.len() - 1].len() > 0);
    }
    text::lines_read_back(lines);
    lemma_all_read(lines, reqs);
}

proof fn lemma_requirement_line(r: RequirementView)
    requires
        plain_requirement(r),
    ensures
        text::is_line(requirement_text(r)),
        requirement_text(r).len() > 0,
{
    let line = requirement_text(r);
    assert forall|i: int| 0 <= i < line.len() implies is_spec_char(#[trigger] line[i]) by {
        if i < r.name.len() {
            assert(line[i] == r.name[i]);
        } else {
            assert(line[i] == r.spec[i - r.name.len()]);
        }
    }
    assert(is_spec_char(line[line.len() - 1]));
}

proof fn lemma_all_read(lines: Seq<Seq<char>>, reqs: Seq<RequirementView>)
    requires
        lines.len() == reqs.len(),
        forall|i: int|
            0 <= i < lines.len() ==> line_requirement()(#[trigger] lines[i]) == Some(reqs[i]),
    ensures
        lines.filter_map(line_requirement()) == reqs,
    decreases lines.len(),
{
    if lines.len() == 0 {
        assert(lines.filter_map(line_requirement()) =~= reqs);
    } else {
        let a = lines.drop_last();
        let b = reqs.drop_last();
        assert forall|i: int| 0 <= i < a.len() implies line_requirement()(#[trigger] a[i]) == Some(
            b[i],
        ) by {
            assert(a[i] == lines[i]);
        }
        lemma_all_read(a, b);
        assert(line_requirement()(lines[lines.len() - 1]) == Some(reqs[lines.len() - 1]));
        assert(b.push(reqs.last()) =~= reqs);
    }
}

/// A line that is blank, or whose first character past the blanks begins a comment or
/// an option, names nothing.
pub proof fn comments_options_and_blanks_name_nothing(line: Seq<char>, k: int)
    requires
        0 <= k <= line.len(),
        forall|i: int| 0 <= i < k ==> text::is_space(#[trigger] line[i]),
        k < line.len() ==> line[k] == '#' || line[k] == '-',
    ensures
        requirement_spec(line) is None,
{
    assert forall|i: int| 0 <= i < k implies !text::not_space()(#[trigger] line[i]) by {}
    text::lemma_first_index_is(line, text::not_space(), k);
    let rest = line.skip(k);
    text::lemma_last_index(rest, text::not_space());
    let m = text::last_index(rest, text::not_space());
    let t = text::trim_spec(line);
    assert(t == rest.take(m));
    if k < line.len() {
        assert(rest[0] == line[k]);
        if m == 0 {
            assert(!text::not_space()(rest[0]));
        }
        assert(t[0] == rest[0]);
    }
}

/// What stands around a requirement changes nothing of it: the extras in brackets, the
/// marker behind a semicolon and the comment are dropped.
#[verifier::rlimit(40)]
#[verifier::spinoff_prover]
pub proof fn extras_markers_and_comments_are_dropped(
    r: RequirementView,
    extras: Seq<char>,
    marker: Seq<char>,
    comment: Seq<char>,
)
    requires
        plain_requirement(r),
        !extras.contains(']') && !extras.contains(';') && !extras.contains('@')
            && !extras.contains(':') && !extras.contains('#'),
        !marker.contains(':') && !marker.contains('#'),
        comment.len() > 0,
        !text::is_space(comment.last()),
    ensures
        requirement_spec(
            r.name + "["@ + extras + "]"@ + r.spec + ";"@ + marker + " #"@ + comment,
        ) == Some(r),
{
    reveal_strlit("[");
    reveal_strlit("]");
    reveal_strlit(";");
    reveal_strlit(" #");
    let head = r.name + "["@ + extras + "]"@ + r.spec;
    let body = head + ";"@ + marker;
    let line = body + " #"@ + comment;
    assert(line =~= r.name + "["@ + extras + "]"@ + r.spec + ";"@ + marker + " #"@ + comment);
    assert(line[0] == r.name[0]);
    assert(line.last() == comment.last());
    text::lemma_trimmed(line);
    lemma_bracketed_chars(r, extras);
    lemma_body_chars(head, marker);
    lemma_comment_found(body, comment);
    assert(line.take(body.len() as int) =~= body);
    assert(without_comment(line) == body);
    // The head ends at the semicolon.
    assert forall|i: int| 0 <= i < head.len() implies !text::eq_char(';')(#[trigger] body[i]) by {
        assert(body[i] == head[i]);
        assert(head.contains(head[i]));
    }
    assert(body[head.len() as int] == ';');
    text::lemma_first_index_is(body, text::eq_char(';'), head.len() as int);
    assert(body.take(head.len() as int) =~= head);
    reveal_strlit("://");
    lemma_not_found(body, "://"@);
    assert(body.take(r.name.len() as int) =~= r.name);
    lemma_bracketed_name(r, extras, body);
    lemma_bracketed_spec(r, extras);
}

/// A comment is found behind a text without a hash.
proof fn lemma_comment_found(body: Seq<char>, comment: Seq<char>)
    requires
        !body.contains('#'),
    ensures
        text::find_spec(body + " #"@ + comment, " #"@) == Some(body.len() as int),
    decreases body.len(),
{
    reveal_strlit(" #");
    let s = body + " #"@ + comment;
    if body.len() == 0 {
        assert(s.take(2) =~= " #"@);
    } else {
        if text::starts(s, " #"@) {
            assert(s.take(2)[1] == s[1]);
            if body.len() >= 2 {
                assert(s[1] == body[1]);
                assert(body.contains(body[1]));
            } else {
                assert(s[1] == ' ');
            }
        }
        let rest = body.drop_first();
        if rest.contains('#') {
            let k = choose|k: int| 0 <= k < rest.len() && rest[k] == '#';
            assert(body[k + 1] == '#');
        }
        lemma_comment_found(rest, comment);
        assert(s.drop_first() =~= rest + " #"@ + comment);
    }
}

proof fn lemma_bracketed_chars(r: RequirementView, extras: Seq<char>)
    requires
        plain_requirement(r),
        !extras.contains(']') && !extras.contains(';') && !extras.contains('@')
            && !extras.contains(':') && !extras.contains('#'),
    ensures
        forall|c: char|
            c == ';' || c == '@' || c == ':' || c == '#' ==> !#[trigger] (r.name + "["@ + extras
                + "]"@ + r.spec).contains(c),
{
    reveal_strlit("[");
    reveal_strlit("]");
    let head = r.name + "["@ + extras + "]"@ + r.spec;
    assert forall|c: char| c == ';' || c == '@' || c == ':' || c == '#' implies !#[trigger] (r.name
        + "["@ + extras + "]"@ + r.spec).contains(c) by {
        if head.contains(c) {
            let k = choose|k: int| 0 <= k < head.len() && head[k] == c;
            let n = r.name.len();
            let m = n + 1 + extras.len();
            if k < n {
                assert(is_name_char(r.name[k]));
            } else if n < k && k < m {
                assert(extras[k - n - 1] == c);
            } else if k > m {
                assert(is_spec_char(r.spec[k - m - 1]));
            }
        }
    }
}

proof fn lemma_body_chars(head: Seq<char>, marker: Seq<char>)
    requires
        !head.contains(':') && !head.contains('#'),
        !marker.contains(':') && !marker.contains('#'),
    ensures
        !(head + ";"@ + marker).contains(':'),
        !(head + ";"@ + marker).contains('#'),
{
    reveal_strlit(";");
    let body = head + ";"@ + marker;
    assert forall|c: char| c == ':' || c == '#' implies !#[trigger] body.contains(c) by {
        if body.contains(c) {
            let k = choose|k: int| 0 <= k < body.len() && body[k] == c;
            if k < head.len() {
                assert(head[k] == c);
            } else if k > head.len() {
                assert(marker[k - head.len() - 1] == c);
            }
        }
    }
}

proof fn lemma_bracketed_name(r: RequirementView, extras: Seq<char>, body: Seq<char>)
    requires
        plain_requirement(r),
        r.name.len() < body.len(),
        body.take(r.name.len() as int) == r.name,
        body[r.name.len() as int] == '[',
    ensures
        text::trim_spec(body.take(text::first_index(body, ends_name()))) == r.name,
        normalized(r.name) == r.name,
{
    let n = r.name.len() as int;
    assert forall|i: int| 0 <= i < n implies !ends_name()(#[trigger] body[i]) by {
        assert(body.take(n)[i] == body[i]);
        assert(is_name_char(r.name[i]));
    }
    text::lemma_first_index_is(body, ends_name(), n);
    assert(!text::is_space(r.name[0]) && !text::is_space(r.name[n - 1]));
    text::lemma_trimmed(r.name);
    canonical_names_are_left_alone(r.name);
}

proof fn lemma_bracketed_spec(r: RequirementView, extras: Seq<char>)
    requires
        plain_requirement(r),
        !extras.contains(']'),
    ensures
        ({
            let body = without_extras(r.name + "["@ + extras + "]"@ + r.spec);
            body.skip(text::first_index(body, starts_spec())).filter(solid()) == r.spec
        }),
{
    reveal_strlit("[");
    reveal_strlit("]");
    let head = r.name + "["@ + extras + "]"@ + r.spec;
    let n = r.name.len() as int;
    let close = n + 1 + extras.len();
    assert forall|i: int| 0 <= i < n implies !text::eq_char('[')(#[trigger] head[i])
        && !text::eq_char(']')(head[i]) by {
        assert(head[i] == r.name[i]);
    }
    assert(head[n] == '[');
    text::lemma_first_index_is(head, text::eq_char('['), n);
    assert forall|i: int| 0 <= i < close implies !text::eq_char(']')(#[trigger] head[i]) by {
        if n < i {
            assert(head[i] == extras[i - n - 1]);
            assert(extras.contains(extras[i - n - 1]));
        }
    }
    assert(head[close] == ']');
    text::lemma_first_index_is(head, text::eq_char(']'), close);
    let body = without_extras(head);
    assert(body =~= r.name + r.spec);
    assert forall|i: int| 0 <= i < n implies !starts_spec()(#[trigger] body[i]) by {
        assert(body[i] == r.name[i]);
        assert(is_name_char(r.name[i]));
    }
    if n < body.len() {
        assert(body[n] == r.spec[0]);
    }
    text::lemma_first_index_is(body, starts_spec(), n);
    assert(body.skip(n) =~= r.spec);
    assert forall|i: int| 0 <= i < r.spec.len() implies solid()(#[trigger] r.spec[i]) by {
        assert(is_spec_char(r.spec[i]));
    }
    lemma_all_solid(r.spec);
}

/// Names match however they are spelled: the case of a letter and which separator
/// stands between two of them do not matter.
pub proof fn names_match_however_they_are_spelled(a: Seq<char>, b: Seq<char>)
    requires
        a.len() == b.len(),
        text::all_ascii(a),
        text::all_ascii(b),
        a.len() > 0 ==> !text::is_space(a[0]) && !text::is_space(a.last()),
        b.len() > 0 ==> !text::is_space(b[0]) && !text::is_space(b.last()),
        forall|i: int|
            0 <= i < a.len() ==> text::lower_ascii_char(#[trigger] a[i]) == text::lower_ascii_char(
                b[i],
            ) || (a[i] == '-' || a[i] == '_' || a[i] == '.') && (b[i] == '-' || b[i] == '_' || b[i]
                == '.'),
    ensures
        normalized(a) == normalized(b),
{
    text::lemma_trimmed(a);
    text::lemma_trimmed(b);
    let x = text::lower_ascii_spec(a);
    let y = text::lower_ascii_spec(b);
    assert forall|i: int| 0 <= i < x.len() implies (#[trigger] x[i]) == y[i] || (is_separator(x[i])
        && is_separator(y[i])) by {
        assert(x[i] == text::lower_ascii_char(a[i]));
        assert(y[i] == text::lower_ascii_char(b[i]));
    }
    lemma_collapse_alike(x, y);
}

proof fn lemma_collapse_alike(x: Seq<char>, y: Seq<char>)
    requires
        x.len() == y.len(),
        forall|i: int|
            0 <= i < x.len() ==> (#[trigger] x[i]) == y[i] || (is_separator(x[i]) && is_separator(
                y[i],
            )),
    ensures
        collapse(x) == collapse(y),
    decreases x.len(),
{
    if x.len() > 0 {
        let a = x.drop_last();
        let b = y.drop_last();
        assert forall|i: int| 0 <= i < a.len() implies (#[trigger] a[i]) == b[i] || (is_separator(
            a[i],
        ) && is_separator(b[i])) by {
            assert(a[i] == x[i]);
        }
        lemma_collapse_alike(a, b);
        assert(x[x.len() - 1] == y[x.len() - 1] || is_separator(x[x.len() - 1]) && is_separator(
            y[x.len() - 1],
        ));
    }
}

/// A caret holds a version below the next major one, a tilde is a lower bound, and a
/// comparison stays as it is.
pub proof fn poetry_constraints_become_comparisons(release: Seq<u64>, spec: Seq<char>)
    requires
        release.len() > 0,
        release[0] <= u32::MAX,
        spec.len() > 0,
        spec[0] == '>' || spec[0] == '<' || spec[0] == '=' || spec[0] == '!',
        !text::is_space(spec.last()),
    ensures
        caret_spec("^"@ + release_text(release)) == ">="@ + release_text(release) + ",<"@
            + text::decimal_spec((release[0] + 1) as nat),
        caret_spec("~"@ + release_text(release)) == ">="@ + release_text(release),
        caret_spec(spec) == spec,
{
    reveal_strlit("^");
    reveal_strlit("~");
    let v = release_text(release);
    lemma_release_text(release);
    lemma_release_pieces(release);
    let c = "^"@ + v;
    let t = "~"@ + v;
    assert(c.last() == v.last() && t.last() == v.last());
    text::lemma_trimmed(c);
    text::lemma_trimmed(t);
    text::lemma_trimmed(spec);
    assert(c.take(1) =~= "^"@);
    assert(t.take(1) =~= "~"@);
    assert(t.take(1)[0] == '~');
    assert(c.skip(1) =~= v);
    assert(t.skip(1) =~= v);
    assert(spec.take(1)[0] == spec[0]);
    let first = text::decimal_spec(release[0] as nat);
    text::lemma_first_index(v, text::eq_char('.'));
    let pieces = text::split_spec(v, text::eq_char('.'));
    assert(pieces[0] == first);
    assert(before_char(v, '.') =~= first) by {
        let i = text::first_index(v, text::eq_char('.'));
        if i >= v.len() {
            assert(v.take(i) =~= v);
        } else {
            assert(pieces[0] == v.take(i));
        }
    }
    text::numbers_read_back(release[0] as nat, u32::MAX as nat);
}

/// Each dependency that a project lists is read.
pub proof fn listed_dependencies_are_read(
    doc: TreeView,
    items: Seq<TreeView>,
    i: int,
    line: Seq<char>,
)
    requires
        field_in(field_of(doc, "project"@), "dependencies"@) == Some(TreeView::List(items)),
        0 <= i < items.len(),
        items[i] == TreeView::Text(line),
        requirement_spec(line) is Some,
    ensures
        pyproject_requirements(doc).contains(requirement_spec(line)->0),
{
    let r = requirement_spec(line)->0;
    let project = field_of(doc, "project"@);
    let poetry = poetry_entries(doc);
    assert(item_requirement()(items[i]) == Some(r));
    text::lemma_filter_map_keeps(items, item_requirement(), i);
    lemma_joined_three(
        listed(field_in(project, "dependencies"@)),
        optional_listed(field_in(project, "optional-dependencies"@)),
        poetry_listed(poetry, poetry.len() as int),
        r,
    );
}

/// Each dependency of every optional group of a project is read.
pub proof fn optional_dependencies_are_read(
    doc: TreeView,
    groups: Seq<(Seq<char>, TreeView)>,
    k: int,
    items: Seq<TreeView>,
    i: int,
    line: Seq<char>,
)
    requires
        field_in(field_of(doc, "project"@), "optional-dependencies"@) == Some(
            TreeView::Table(groups),
        ),
        0 <= k < groups.len(),
        groups[k].1 == TreeView::List(items),
        0 <= i < items.len(),
        items[i] == TreeView::Text(line),
        requirement_spec(line) is Some,
    ensures
        pyproject_requirements(doc).contains(requirement_spec(line)->0),
{
    let r = requirement_spec(line)->0;
    let project = field_of(doc, "project"@);
    let poetry = poetry_entries(doc);
    assert(item_requirement()(items[i]) == Some(r));
    text::lemma_filter_map_keeps(items, item_requirement(), i);
    assert(listed(Some(groups[k].1)).contains(r));
    lemma_group_read(groups, groups.len() as int, k, r);
    lemma_joined_three(
        listed(field_in(project, "dependencies"@)),
        optional_listed(field_in(project, "optional-dependencies"@)),
        poetry_listed(poetry, poetry.len() as int),
        r,
    );
}

/// Each of Poetry's dependencies is read under its normalized name, but for the
/// interpreter, whose first constraint is the project's unless the project has one.
pub proof fn poetry_dependencies_are_read(
    doc: TreeView,
    entries: Seq<(Seq<char>, TreeView)>,
    k: int,
    spec: Seq<char>,
)
    requires
        field_in(field_in(field_of(doc, "tool"@), "poetry"@), "dependencies"@) == Some(
            TreeView::Table(entries),
        ),
        0 <= k < entries.len(),
        entries[k].1 == TreeView::Text(spec),
    ensures
        text::lower_ascii_spec(entries[k].0) != "python"@ ==> pyproject_requirements(doc).contains(
            RequirementView {
                name: normalized(entries[k].0),
                spec: if caret_spec(spec) == "*"@ {
                    seq![]
                } else {
                    caret_spec(spec)
                },
            },
        ),
        text::lower_ascii_spec(entries[k].0) == "python"@ && field_in(
            field_of(doc, "project"@),
            "requires-python"@,
        ) is None && (forall|j: int|
            0 <= j < k ==> text::lower_ascii_spec((#[trigger] entries[j]).0) != "python"@)
            ==> pyproject_python(doc) == Some(caret_spec(spec)),
{
    reveal_strlit("python");
    assert(text::lower_ascii_spec("python"@) =~= "python"@);
    let project = field_of(doc, "project"@);
    let n = entries.len() as int;
    assert(poetry_entries(doc) == entries);
    if text::lower_ascii_spec(entries[k].0) != "python"@ {
        lemma_poetry_read(entries, n, k);
        lemma_joined_three(
            listed(field_in(project, "dependencies"@)),
            optional_listed(field_in(project, "optional-dependencies"@)),
            poetry_listed(entries, n),
            poetry_requirement(entries[k]),
        );
    } else if forall|j: int|
        0 <= j < k ==> text::lower_ascii_spec((#[trigger] entries[j]).0) != "python"@ {
        lemma_poetry_python(entries, n, k);
    }
}

proof fn lemma_poetry_python(entries: Seq<(Seq<char>, TreeView)>, n: int, k: int)
    requires
        0 <= k < entries.len(),
        n <= entries.len(),
        forall|j: int| 0 <= j < k ==> !is_python_key((#[trigger] entries[j]).0),
        is_python_key(entries[k].0),
        entries[k].1 is Text,
    ensures
        n <= k ==> poetry_python(entries, n) is None,
        n > k ==> poetry_python(entries, n) == Some(caret_spec(entries[k].1->Text_0)),
    decreases n,
{
    if n > 0 {
        lemma_poetry_python(entries, n - 1, k);
        if n - 1 < k {
            assert(!is_python_key(entries[n - 1].0));
        }
    }
}

proof fn lemma_joined_three(
    a: Seq<RequirementView>,
    b: Seq<RequirementView>,
    c: Seq<RequirementView>,
    r: RequirementView,
)
    ensures
        a.contains(r) || b.contains(r) || c.contains(r) ==> (a + b + c).contains(r),
{
    let all = a + b + c;
    if a.contains(r) {
        let i = choose|i: int| 0 <= i < a.len() && a[i] == r;
        assert(all[i] == r);
    }
    if b.contains(r) {
        let i = choose|i: int| 0 <= i < b.len() && b[i] == r;
        assert(all[a.len() + i] == r);
    }
    if c.contains(r) {
        let i = choose|i: int| 0 <= i < c.len() && c[i] == r;
        assert(all[a.len() + b.len() + i] == r);
    }
}

proof fn lemma_group_read(
    groups: Seq<(Seq<char>, TreeView)>,
    n: int,
    k: int,
    r: RequirementView,
)
    requires
        0 <= k < n <= groups.len(),
        listed(Some(groups[k].1)).contains(r),
    ensures
        grouped(groups, n).contains(r),
    decreases n,
{
    let before = grouped(groups, n - 1);
    let last = listed(Some(groups[n - 1].1));
    if k < n - 1 {
        lemma_group_read(groups, n - 1, k, r);
        let i = choose|i: int| 0 <= i < before.len() && before[i] == r;
        assert((before + last)[i] == r);
    } else {
        let i = choose|i: int| 0 <= i < last.len() && last[i] == r;
        assert((before + last)[before.len() + i] == r);
    }
}

proof fn lemma_poetry_read(entries: Seq<(Seq<char>, TreeView)>, n: int, k: int)
    requires
        0 <= k < n <= entries.len(),
        !is_python_key(entries[k].0),
    ensures
        poetry_listed(entries, n).contains(poetry_requirement(entries[k])),
    decreases n,
{
    let r = poetry_requirement(entries[k]);
    let now = poetry_listed(entries, n);
    let before = poetry_listed(entries, n - 1);
    if k < n - 1 {
        lemma_poetry_read(entries, n - 1, k);
        let i = choose|i: int| 0 <= i < before.len() && before[i] == r;
        assert(now[i] == r);
    } else {
        assert(now[now.len() - 1] == r);
    }
}

/// The files that make a workspace a Python project are named: each manifest that is
/// there, and a bare source file where there is none.
pub proof fn manifests_are_named(files: WorkspaceFiles)
    ensures
        signal_files(files).contains("pyproject.toml"@) <==> files.pyproject is Some,
        signal_files(files).contains("requirements.txt"@) <==> files.requirements is Some,
        signal_files(files).contains("environment.yml"@) <==> files.has_environment_yml,
        signal_files(files).contains("*.py"@) <==> files.has_python_file && files.pyproject is None
            && files.requirements is None && !files.has_environment_yml,
        signal_files(files).len() == 0 <==> !files.has_python_file && files.pyproject is None
            && files.requirements is None && !files.has_environment_yml,
{
    reveal_strlit("pyproject.toml");
    reveal_strlit("requirements.txt");
    reveal_strlit("environment.yml");
    reveal_strlit("*.py");
    let all = signal_files(files);
    assert("pyproject.toml"@[0] == 'p' && "requirements.txt"@[0] == 'r' && "environment.yml"@[0]
        == 'e' && "*.py"@[0] == '*');
    if files.pyproject is Some {
        assert(all[0] == "pyproject.toml"@);
    }
    if files.requirements is Some {
        assert(all[if files.pyproject is Some {
            1int
        } else {
            0int
        }] == "requirements.txt"@);
    }
    if files.has_environment_yml {
        assert(all[all.len() - 1] == "environment.yml"@);
    } else if files.pyproject is None && files.requirements is None && files.has_python_file {
        assert(all[0] == "*.py"@);
    }
}

/// Leaving conda keeps every dependency: each stands in quotes in the new manifest, a
/// bare Python version becomes a lower bound, and a comparison is kept.
pub proof fn migrations_keep_every_dependency(
    reqs: Seq<RequirementView>,
    python: Option<Seq<char>>,
    directory: Seq<char>,
    i: int,
)
    requires
        0 <= i < reqs.len(),
    ensures
        exists|a: Seq<char>, b: Seq<char>|
            migrated(reqs, python, directory) == #[trigger] (a + ("\""@ + requirement_text(reqs[i])
                + "\""@) + b),
{
    reveal_strlit("\"");
    reveal_strlit("    \"");
    reveal_strlit("\",\n");
    let n = reqs.len() as int;
    let (x, y) = lemma_dependency_line(reqs, n, i);
    let quoted = "\""@ + requirement_text(reqs[i]) + "\""@;
    let head = "[project]\nname = \""@ + project_name_of(directory)
        + "\"\nversion = \"0.1.0\"\n"@;
    let middle = match python {
        Some(pin) => head + "requires-python = \""@ + requires_python_of(pin) + "\"\n"@,
        None => head,
    };
    let a = middle + "dependencies = [\n"@ + x;
    let b = y + "]\n"@;
    assert(migrated(reqs, python, directory) =~= a + quoted + b);
}

proof fn lemma_dependency_line(reqs: Seq<RequirementView>, n: int, i: int) -> (r: (
    Seq<char>,
    Seq<char>,
))
    requires
        0 <= i < n <= reqs.len(),
    ensures
        dependency_lines(reqs, n) == r.0 + ("\""@ + requirement_text(reqs[i]) + "\""@) + r.1,
    decreases n,
{
    reveal_strlit("\"");
    reveal_strlit("    \"");
    reveal_strlit("\",\n");
    let quoted = "\""@ + requirement_text(reqs[i]) + "\""@;
    let before = dependency_lines(reqs, n - 1);
    if i < n - 1 {
        let (x, y) = lemma_dependency_line(reqs, n - 1, i);
        let z = y + "    \""@ + requirement_text(reqs[n - 1]) + "\",\n"@;
        assert(dependency_lines(reqs, n) =~= x + quoted + z);
        (x, z)
    } else {
        let x = before + seq![' ', ' ', ' ', ' '];
        let y = seq![',', '\n'];
        assert(dependency_lines(reqs, n) =~= x + quoted + y);
        (x, y)
    }
}

/// A bare Python version that conda pins is a lower bound, and a comparison is kept.
pub proof fn bare_pins_are_lower_bounds(release: Seq<u64>, spec: Seq<char>)
    requires
        release.len() > 0,
        spec.len() > 0,
        spec[0] == '>' || spec[0] == '<' || spec[0] == '=' || spec[0] == '!' || spec[0] == '~',
        !text::is_space(spec.last()),
    ensures
        requires_python_of(release_text(release)) == ">="@ + release_text(release),
        requires_python_of(spec) == spec,
{
    lemma_release_text(release);
    text::lemma_trimmed(release_text(release));
    text::lemma_trimmed(spec);
}

proof fn lemma_block_stays_open(lines: Seq<Seq<char>>, d: int, k: int)
    requires
        0 <= d < k <= lines.len(),
        conda_lines(lines, d + 1).in_deps,
        forall|j: int| d < j < k ==> " "@.is_prefix_of(#[trigger] lines[j]),
    ensures
        conda_lines(lines, k).in_deps,
    decreases k,
{
    if k > d + 1 {
        lemma_block_stays_open(lines, d, k - 1);
        let raw = lines[k - 1];
        reveal_strlit(" ");
        assert(raw.take(1) =~= raw.subrange(0, 1));
    }
}

proof fn lemma_names_stay(lines: Seq<Seq<char>>, n: int, m: int, r: RequirementView)
    requires
        n <= m,
        conda_lines(lines, n).names.contains(r),
    ensures
        conda_lines(lines, m).names.contains(r),
    decreases m,
{
    if 0 < m && n < m {
        lemma_names_stay(lines, n, m - 1, r);
        let before = conda_lines(lines, m - 1).names;
        let now = conda_lines(lines, m).names;
        let i = choose|i: int| 0 <= i < before.len() && before[i] == r;
        assert(now[i] == r);
    }
}

/// A package listed in the dependency block of a conda environment is read under its
/// normalized name, with what it is pinned to.
pub proof fn conda_packages_are_read(
    lines: Seq<Seq<char>>,
    d: int,
    k: int,
    name: Seq<char>,
    pin: Seq<char>,
)
    requires
        0 <= d < k < lines.len(),
        forall|j: int| 0 <= j < lines.len() ==> text::is_line(#[trigger] lines[j]),
        lines.last().len() > 0,
        lines[d] == "dependencies:"@,
        forall|j: int| d < j < k ==> " "@.is_prefix_of(#[trigger] lines[j]),
        lines[k] == "  - "@ + name + pin,
        name.len() > 0,
        forall|i: int| 0 <= i < name.len() ==> is_package_char(#[trigger] name[i]),
        text::lower_ascii_spec(name) != "python"@,
        pin.len() > 0 ==> starts_spec()(pin[0]) && !text::is_space(pin.last()) && pin.last() != ':',
    ensures
        conda_env(text::join_spec(lines, "\n"@)).names.contains(
            RequirementView { name: normalized(name), spec: conda_spec(pin) },
        ),
{
    reveal_strlit("dependencies:");
    text::lines_read_back(lines);
    text::lemma_trimmed("dependencies:"@);
    assert("dependencies:"@.take(13) =~= "dependencies:"@);
    assert(conda_lines(lines, d + 1) == conda_line(conda_lines(lines, d), lines[d]));
    lemma_block_stays_open(lines, d, k);
    let st = conda_lines(lines, k);
    let r = RequirementView { name: normalized(name), spec: conda_spec(pin) };
    let item = name + pin;
    assert(is_package_char(name[0]) && is_package_char(name[name.len() - 1]));
    assert(item[0] == name[0]);
    assert(pin.len() == 0 ==> item =~= name);
    assert("  - "@ + name + pin =~= "  - "@ + item);
    lemma_conda_line(st, item);
    lemma_conda_item(st, name, pin);
    let now = conda_line(st, lines[k]).names;
    assert(now == st.names.push(r));
    assert(now[now.len() - 1] == r);
    assert(conda_lines(lines, k + 1).names.contains(r));
    lemma_names_stay(lines, k + 1, lines.len() as int, r);
}

/// A line of the dependency block is read as the item behind its dash.
proof fn lemma_conda_line(st: CondaView, item: Seq<char>)
    requires
        st.in_deps,
        item.len() > 0,
        !text::is_space(item[0]),
        !text::is_space(item.last()),
    ensures
        conda_line(st, "  - "@ + item) == conda_item(st, item),
{
    reveal_strlit("dependencies:");
    reveal_strlit("  - ");
    reveal_strlit(" ");
    reveal_strlit("-");
    let raw = "  - "@ + item;
    let line = seq!['-', ' '] + item;
    assert(line.last() == item.last());
    assert(raw =~= seq![' '] + (seq![' '] + line));
    text::lemma_trimmed(line);
    text::lemma_trim_ends(line, ' ');
    text::lemma_trim_ends(seq![' '] + line, ' ');
    assert(text::trim_spec(raw) == line);
    assert(line[0] == '-');
    if text::starts(line, "dependencies:"@) {
        assert(line.take(13)[0] == line[0]);
    }
    assert(line.take(1) =~= "-"@);
    assert(raw.take(1) =~= " "@);
    assert(line.skip(1) =~= seq![' '] + item);
    text::lemma_trimmed(item);
    text::lemma_trim_ends(item, ' ');
}

proof fn lemma_conda_item(st: CondaView, name: Seq<char>, pin: Seq<char>)
    requires
        name.len() > 0,
        forall|i: int| 0 <= i < name.len() ==> is_package_char(#[trigger] name[i]),
        text::lower_ascii_spec(name) != "python"@,
        pin.len() > 0 ==> starts_spec()(pin[0]) && !text::is_space(pin.last()) && pin.last() != ':',
    ensures
        conda_item(st, name + pin) == (CondaView {
            names: st.names.push(
                RequirementView { name: normalized(name), spec: conda_spec(pin) },
            ),
            ..st
        }),
{
    reveal_strlit(":");
    reveal_strlit("python");
    let item = name + pin;
    let n = name.len() as int;
    assert(is_package_char(name[0]) && is_package_char(name[n - 1]));
    assert forall|i: int| 0 <= i < n implies !ends_conda_name()(#[trigger] item[i]) by {
        assert(item[i] == name[i]);
        assert(is_package_char(name[i]));
    }
    if n < item.len() {
        assert(item[n] == pin[0]);
    }
    text::lemma_first_index_is(item, ends_conda_name(), n);
    assert(item.take(n) =~= name);
    text::lemma_trimmed(name);
    assert(item.skip(n) =~= pin);
    assert(item.last() != ':') by {
        if pin.len() == 0 {
            assert(item.last() == name[n - 1]);
        }
    }
    assert(item.skip(item.len() - 1)[0] == item.last());
    assert(text::lower_ascii_spec("python"@) =~= "python"@);
}

/// However often a dependency is mentioned, it is listed once. It is then held to a
/// specifier that one of its mentions gives, and is free only where none gives one.
pub proof fn every_dependency_is_listed_once(
    reqs: Seq<RequirementView>,
    out: Seq<RequirementView>,
    j: int,
)
    requires
        deduped(reqs, out),
        0 <= j < reqs.len(),
        reqs[j].name.len() > 0,
    ensures
        exists|i: int| 0 <= i < out.len() && (#[trigger] out[i]).name == reqs[j].name,
        forall|i: int|
            0 <= i < out.len() && (#[trigger] out[i]).name == reqs[j].name ==> (
            reqs[j].spec.len() > 0 ==> out[i].spec.len() > 0 && !text::lex_lt(
                reqs[j].spec,
                out[i].spec,
            )) && exists|k: int|
                0 <= k < reqs.len() && (#[trigger] reqs[k]).name == out[i].name && reqs[k].spec
                    == out[i].spec,
        forall|i: int, k: int|
            0 <= i < out.len() && 0 <= k < out.len() && (#[trigger] out[i]).name == (
            #[trigger] out[k]).name ==> i == k,
{
    assert(mentions(out, reqs[j].name));
    assert forall|i: int|
        0 <= i < out.len() && (#[trigger] out[i]).name == reqs[j].name implies (
    reqs[j].spec.len() > 0 ==> out[i].spec.len() > 0 && !text::lex_lt(reqs[j].spec, out[i].spec))
        && exists|k: int|
        0 <= k < reqs.len() && (#[trigger] reqs[k]).name == out[i].name && reqs[k].spec
            == out[i].spec by {
        assert(merged_spec(reqs, out[i].name, out[i].spec));
        if reqs[j].spec.len() > 0 {
            assert(constrained(reqs, out[i].name));
        }
        if out[i].spec.len() == 0 {
            assert(!constrained(reqs, out[i].name));
            assert(reqs[j].spec =~= out[i].spec);
            assert(reqs[j].name == out[i].name);
        }
    }
    assert forall|i: int, k: int|
        0 <= i < out.len() && 0 <= k < out.len() && (#[trigger] out[i]).name == (
        #[trigger] out[k]).name implies i == k by {
        text::lemma_lex_irreflexive(out[i].name);
    }
}

/// The Python a project declares comes before any other that its manifest names.
pub proof fn the_declared_python_comes_first(doc: TreeView, version: Seq<char>)
    requires
        field_in(field_of(doc, "project"@), "requires-python"@) == Some(TreeView::Text(version)),
    ensures
        pyproject_python(doc) == Some(version),
{
}

/// The Python pinned by the last line of a conda environment's dependency block is
/// the one the environment asks for, and is no package.
pub proof fn the_conda_python_is_read(
    lines: Seq<Seq<char>>,
    d: int,
    version: Seq<char>,
    build: Seq<char>,
)
    requires
        0 <= d < lines.len() - 1,
        forall|j: int| 0 <= j < lines.len() ==> text::is_line(#[trigger] lines[j]),
        lines[d] == "dependencies:"@,
        forall|j: int| d < j < lines.len() - 1 ==> " "@.is_prefix_of(#[trigger] lines[j]),
        lines.last() == "  - python="@ + version + build,
        version.len() > 0,
        forall|i: int| 0 <= i < version.len() ==> is_package_char(#[trigger] version[i]),
        build.len() > 0 ==> build[0] == '=' && !text::is_space(build.last()) && build.last()
            != ':',
    ensures
        conda_env(text::join_spec(lines, "\n"@)).python == Some(version),
        conda_env(text::join_spec(lines, "\n"@)).names == conda_lines(
            lines,
            lines.len() - 1,
        ).names,
{
    reveal_strlit("dependencies:");
    reveal_strlit("  - python=");
    reveal_strlit("  - ");
    reveal_strlit("python=");
    let k = lines.len() - 1;
    assert(lines[k].len() > 0);
    text::lines_read_back(lines);
    text::lemma_trimmed("dependencies:"@);
    assert("dependencies:"@.take(13) =~= "dependencies:"@);
    assert(conda_lines(lines, d + 1) == conda_line(conda_lines(lines, d), lines[d]));
    lemma_block_stays_open(lines, d, k);
    let st = conda_lines(lines, k);
    let item = "python="@ + version + build;
    assert(is_package_char(version[version.len() - 1]));
    assert(item.last() == if build.len() > 0 {
        build.last()
    } else {
        version[version.len() - 1]
    });
    assert(item[0] == 'p');
    assert("  - python="@ + version + build =~= "  - "@ + item);
    lemma_conda_line(st, item);
    lemma_conda_python(st, version, build);
    assert(conda_lines(lines, k + 1) == conda_line(st, lines[k]));
}

proof fn lemma_conda_python(st: CondaView, version: Seq<char>, build: Seq<char>)
    requires
        version.len() > 0,
        forall|i: int| 0 <= i < version.len() ==> is_package_char(#[trigger] version[i]),
        build.len() > 0 ==> build[0] == '=' && !text::is_space(build.last()) && build.last()
            != ':',
    ensures
        conda_item(st, "python="@ + version + build) == (CondaView { python: Some(version), ..st }),
{
    reveal_strlit(":");
    reveal_strlit("python");
    reveal_strlit("python=");
    let item = "python="@ + version + build;
    let p = text::eq_char('=');
    assert(is_package_char(version[0]) && is_package_char(version[version.len() - 1]));
    text::lemma_first_index_is(item, ends_conda_name(), 6);
    assert(item.take(6) =~= "python"@);
    text::lemma_trimmed("python"@);
    assert(item.skip(item.len() - 1)[0] == item.last());
    assert(item.last() != ':') by {
        if build.len() == 0 {
            assert(item.last() == version[version.len() - 1]);
        }
    }
    let rest = version + build;
    assert(item =~= "python"@ + seq!['='] + rest);
    text::lemma_split_at("python"@, '=', rest, p);
    text::lemma_split_none("python"@, p);
    assert forall|i: int| 0 <= i < version.len() implies !p(#[trigger] version[i]) by {
        assert(is_package_char(version[i]));
    }
    text::lemma_split_none(version, p);
    if build.len() > 0 {
        let after = build.skip(1);
        assert(rest =~= version + seq!['='] + after);
        text::lemma_split_at(version, '=', after, p);
    } else {
        assert(rest =~= version);
    }
    assert(text::split_spec(item, p)[1] == version);
    text::lemma_trimmed(version);
}

/// A conda environment names nothing outside its dependency block.
pub proof fn only_the_dependency_block_is_read(lines: Seq<Seq<char>>)
    requires
        lines.len() > 0,
        forall|j: int| 0 <= j < lines.len() ==> text::is_line(#[trigger] lines[j]),
        lines.last().len() > 0,
        forall|j: int|
            0 <= j < lines.len() ==> !"dependencies:"@.is_prefix_of(
                text::trim_spec(#[trigger] lines[j]),
            ),
    ensures
        conda_env(text::join_spec(lines, "\n"@)).names.len() == 0,
        conda_env(text::join_spec(lines, "\n"@)).python is None,
{
    text::lines_read_back(lines);
    lemma_no_block(lines, lines.len() as int);
}

proof fn lemma_no_block(lines: Seq<Seq<char>>, n: int)
    requires
        0 <= n <= lines.len(),
        forall|j: int|
            0 <= j < lines.len() ==> !"dependencies:"@.is_prefix_of(
                text::trim_spec(#[trigger] lines[j]),
            ),
    ensures
        conda_lines(lines, n).names.len() == 0,
        conda_lines(lines, n).python is None,
        !conda_lines(lines, n).in_deps,
    decreases n,
{
    if n > 0 {
        lemma_no_block(lines, n - 1);
        let line = text::trim_spec(lines[n - 1]);
        if text::starts(line, "dependencies:"@) {
            assert(line.take("dependencies:"@.len() as int) == "dependencies:"@);
            assert("dependencies:"@.is_prefix_of(line));
        }
    }
}

} // verus!
