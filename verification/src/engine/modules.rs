//! What an installed package actually provides.
//!
//! Packaging metadata answers "will this install". It says nothing about
//! whether the code you wrote will run against what got installed. mediapipe
//! 0.10.35 installs cleanly on any CPython 3.x and then fails at runtime with
//! `module 'mediapipe' has no attribute 'solutions'`, because that release
//! dropped the legacy API in favour of `tasks`.
//!
//! That is decidable without a curated table: look at the package on disk. A
//! top-level attribute is either a submodule sitting next to `__init__.py`, or
//! a name that `__init__.py` binds. If it is neither, the attribute access will
//! raise.
//!
//! The one thing that defeats this is PEP 562 lazy loading, where a module
//! defines `__getattr__` and materializes attributes on demand. Packages doing
//! that report [`AttrStatus::Unknown`] and are left alone, because guessing
//! there would produce false errors on correct code.

use vstd::prelude::*;

use crate::engine::imports::{is_word_char, leading_word, not_word, take_word, top_level};
use crate::names::{lemma_take_set, listing, NameSet};
use crate::text;

verus! {

/// Whether a package exposes a given top-level attribute.
#[derive(Debug, PartialEq, Eq)]
pub enum AttrStatus {
    /// Found as a submodule or as a name bound in `__init__.py`.
    Present,
    /// Neither, so accessing it raises. Carries what the package does provide,
    /// which is usually enough to point at the replacement API.
    Missing { available: Vec<String> },
    /// The package resolves attributes dynamically, so nothing can be inferred.
    Unknown,
}

/// What an entry of a package directory is.
#[derive(Debug, Clone, Copy, PartialEq, Eq, Structural)]
pub enum EntryKind {
    File,
    /// A directory with an `__init__.py` of its own.
    Package,
    /// Any other directory.
    Directory,
}

/// An entry of a package directory.
#[derive(Debug, PartialEq, Eq)]
pub struct Entry {
    pub name: String,
    pub kind: EntryKind,
}

/// An installed package as it is on disk.
#[derive(Debug, PartialEq, Eq)]
pub struct PackageDir {
    /// The text of `__init__.py`, unless it could not be read.
    pub init: Option<String>,
    pub entries: Vec<Entry>,
}

/// Locate an installed package among the `site-packages` directories of a venv.
///
/// Each comes with whether it holds `import_name` as a regular package, that is
/// a directory with an `__init__.py`. Single module distributions and namespace
/// packages are not found, which callers treat as "cannot inspect".
pub fn find_package(sites: &[(String, bool)], import_name: &str) -> (r: Option<String>)
    ensures
        match r {
            Some(path) => exists|i: int|
                0 <= i < sites@.len() && (#[trigger] sites@[i]).1 && path@ == sites@[i].0@ + "/"@
                    + import_name@ && forall|j: int| 0 <= j < i ==> !(#[trigger] sites@[j]).1,
            None => forall|i: int| 0 <= i < sites@.len() ==> !(#[trigger] sites@[i]).1,
        },
{
    let mut i: usize = 0;
    while i < sites.len()
        invariant
            i <= sites@.len(),
            forall|j: int| 0 <= j < i ==> !(#[trigger] sites@[j]).1,
        decreases sites@.len() - i,
    {
        if sites[i].1 {
            let mut path = sites[i].0.clone();
            path.append("/");
            path.append(import_name);
            proof {
                assert(sites@[i as int].1);
            }
            return Some(path);
        }
        i += 1;
    }
    None
}

// ---------------------------------------------------------------------------
// Submodules
// ---------------------------------------------------------------------------

/// Whether an entry is what Python would import as the submodule `name`: a
/// package, a source module or a compiled extension.
pub open spec fn provides(e: Entry, name: Seq<char>) -> bool {
    match e.kind {
        EntryKind::Package => e.name@ == name,
        EntryKind::File => e.name@ == name + ".py"@ || e.name@ == name + ".pyi"@ || e.name@ == name
            + ".pyd"@ || e.name@ == name + ".so"@,
        EntryKind::Directory => false,
    }
}

pub open spec fn has_submodule(entries: Seq<Entry>, name: Seq<char>) -> bool {
    exists|i: int| 0 <= i < entries.len() && provides(#[trigger] entries[i], name)
}

fn with_suffix(name: &str, suffix: &str) -> (r: String)
    ensures
        r@ == name@ + suffix@,
{
    let mut r = name.to_string();
    r.append(suffix);
    r
}

/// A sibling of `__init__.py` that Python would import as a submodule.
fn is_submodule(entries: &Vec<Entry>, name: &str) -> (r: bool)
    ensures
        r == has_submodule(entries@, name@),
{
    let py = with_suffix(name, ".py");
    let pyi = with_suffix(name, ".pyi");
    let pyd = with_suffix(name, ".pyd");
    let so = with_suffix(name, ".so");
    let mut i: usize = 0;
    while i < entries.len()
        invariant
            i <= entries@.len(),
            py@ == name@ + ".py"@,
            pyi@ == name@ + ".pyi"@,
            pyd@ == name@ + ".pyd"@,
            so@ == name@ + ".so"@,
            forall|j: int| 0 <= j < i ==> !provides(#[trigger] entries@[j], name@),
        decreases entries@.len() - i,
    {
        let entry = entries[i].name.as_str();
        let found = match entries[i].kind {
            EntryKind::Package => text::same(entry, name),
            EntryKind::File => text::same(entry, py.as_str()) || text::same(entry, pyi.as_str())
                || text::same(entry, pyd.as_str()) || text::same(entry, so.as_str()),
            EntryKind::Directory => false,
        };
        proof {
            assert(found == provides(entries@[i as int], name@));
        }
        if found {
            return true;
        }
        i += 1;
    }
    false
}

// ---------------------------------------------------------------------------
// Names bound by `__init__.py`
// ---------------------------------------------------------------------------

pub open spec fn getattr_line(line: Seq<char>) -> bool {
    let l = text::trim_start_spec(line);
    text::starts(l, "def __getattr__"@) || text::starts(l, "__getattr__ ="@)
}

/// Whether a module resolves attributes on access (PEP 562).
pub open spec fn is_dynamic(source: Seq<char>) -> bool {
    exists|i: int|
        0 <= i < text::lines_spec(source).len() && getattr_line(
            #[trigger] text::lines_spec(source)[i],
        )
}

/// Does the module define `__getattr__`, making attributes unknowable statically?
fn defines_dynamic_getattr(source: &str) -> (r: bool)
    ensures
        r == is_dynamic(source@),
{
    let lines = text::lines(source);
    let ghost all = text::lines_spec(source@);
    let mut i: usize = 0;
    while i < lines.len()
        invariant
            i <= lines@.len(),
            text::texts(lines@) == all,
            all == text::lines_spec(source@),
            forall|j: int| 0 <= j < i ==> !getattr_line(#[trigger] all[j]),
        decreases lines@.len() - i,
    {
        proof {
            assert(all[i as int] == lines@[i as int]@);
        }
        let l = text::trim_start(lines[i].as_str());
        if text::starts_with(l, "def __getattr__") || text::starts_with(l, "__getattr__ =") {
            proof {
                assert(getattr_line(text::lines_spec(source@)[i as int]));
            }
            return true;
        }
        i += 1;
    }
    false
}

pub open spec fn identifier(s: Seq<char>) -> bool {
    &&& s.len() > 0
    &&& forall|i: int| 0 <= i < s.len() ==> is_word_char(#[trigger] s[i])
    &&& !text::is_digit(s[0])
}

fn is_identifier(s: &str) -> (r: bool)
    ensures
        r == identifier(s@),
{
    let chars = text::chars_of(s);
    if chars.len() == 0 {
        return false;
    }
    let mut i: usize = 0;
    while i < chars.len()
        invariant
            i <= chars@.len(),
            chars@ == s@,
            forall|j: int| 0 <= j < i ==> is_word_char(#[trigger] chars@[j]),
        decreases chars@.len() - i,
    {
        if !(chars[i].is_alphanumeric() || chars[i] == '_') {
            proof {
                assert(!is_word_char(s@[i as int]));
            }
            return false;
        }
        i += 1;
    }
    !(chars[0] >= '0' && chars[0] <= '9')
}

pub open spec fn is_quote(c: char) -> bool {
    c == '"' || c == '\''
}

pub open spec fn quote() -> spec_fn(char) -> bool {
    |c: char| is_quote(c)
}

fn quote_char(c: char) -> (r: bool)
    ensures
        r == is_quote(c),
{
    c == '"' || c == '\''
}

/// The identifiers that stand in quotes.
pub open spec fn quoted(s: Seq<char>) -> Set<Seq<char>>
    decreases s.len(),
    via quoted_decreases
{
    let i = text::first_index(s, quote());
    if i >= s.len() {
        Set::empty()
    } else {
        let after = s.skip(i + 1);
        let j = text::first_index(after, text::eq_char(s[i]));
        if j >= after.len() {
            Set::empty()
        } else if identifier(after.take(j)) {
            quoted(after.skip(j + 1)).insert(after.take(j))
        } else {
            quoted(after.skip(j + 1))
        }
    }
}

#[via_fn]
proof fn quoted_decreases(s: Seq<char>) {
    text::lemma_first_index(s, quote());
    let i = text::first_index(s, quote());
    if i < s.len() {
        text::lemma_first_index(s.skip(i + 1), text::eq_char(s[i]));
    }
}

fn collect_quoted(line: &str, out: &mut NameSet)
    ensures
        final(out)@ == old(out)@.union(quoted(line@)),
{
    let ghost whole = out@.union(quoted(line@));
    let mut rest = line;
    loop
        invariant
            whole == old(out)@.union(quoted(line@)),
            out@.union(quoted(rest@)) == whole,
        decreases rest@.len(),
    {
        let open = text::index_where(
            rest,
            |c: char| -> (b: bool) ensures b == quote()(c) { quote_char(c) },
            Ghost(quote()),
        );
        proof {
            assert(out@.union(Set::empty()) =~= out@);
        }
        if open >= rest.unicode_len() {
            return;
        }
        let mark = rest.get_char(open);
        let after = text::after(rest, open + 1);
        let close = text::index_of(after, mark);
        if close >= after.unicode_len() {
            return;
        }
        let name = text::before(after, close);
        let ghost before = out@;
        let next = text::after(after, close + 1);
        if is_identifier(name) {
            out.insert(name);
            proof {
                assert(before.insert(name@).union(quoted(next@)) =~= before.union(
                    quoted(next@).insert(name@),
                ));
            }
        }
        rest = next;
    }
}

pub open spec fn not_paren() -> spec_fn(char) -> bool {
    |c: char| c != '(' && c != ')'
}

pub open spec fn not_open_paren() -> spec_fn(char) -> bool {
    |c: char| c != '('
}

fn outside_parens(c: char) -> (r: bool)
    ensures
        r == not_paren()(c),
{
    c != '(' && c != ')'
}

/// A text without the parentheses at either end.
pub open spec fn without_parens(s: Seq<char>) -> Seq<char> {
    let t = s.skip(text::first_index(s, not_paren()));
    t.take(text::last_index(t, not_paren()))
}

/// What a fragment of an import list binds: `a as b` binds b, a bare `a` binds
/// a, and a star nothing that is known.
pub open spec fn bound_by(fragment: Seq<char>) -> Option<Seq<char>> {
    let cleaned = without_parens(text::trim_spec(fragment));
    let token = text::trim_spec(
        match text::find_spec(cleaned, " as "@) {
            Some(i) => cleaned.skip(i + " as "@.len()),
            None => cleaned,
        },
    );
    if token.len() == 0 || token == "*"@ {
        None
    } else {
        Some(token)
    }
}

/// `a as b` binds b; a bare `a` binds a.
fn binding_of(fragment: &str) -> (r: Option<String>)
    ensures
        text::opt_text(r) == bound_by(fragment@),
{
    let trimmed = text::trim(fragment);
    let from = text::index_where(
        trimmed,
        |c: char| -> (b: bool) ensures b == not_paren()(c) { outside_parens(c) },
        Ghost(not_paren()),
    );
    let open = text::after(trimmed, from);
    let to = text::end_where(
        open,
        |c: char| -> (b: bool) ensures b == not_paren()(c) { outside_parens(c) },
        Ghost(not_paren()),
    );
    let cleaned = text::before(open, to);
    let token = text::trim(
        match text::find(cleaned, " as ") {
            Some(i) => text::after(cleaned, i + " as ".unicode_len()),
            None => cleaned,
        },
    );
    if token.unicode_len() == 0 || text::same(token, "*") {
        return None;
    }
    Some(token.to_string())
}

/// What the first `k` fragments of an import list bind; with `top`, the first
/// component of each name.
pub open spec fn bound_by_all(parts: Seq<Seq<char>>, top: bool, k: int) -> Set<Seq<char>>
    decreases k,
{
    if k <= 0 {
        Set::empty()
    } else {
        let before = bound_by_all(parts, top, k - 1);
        match bound_by(parts[k - 1]) {
            Some(name) => before.insert(
                if top {
                    top_level(name)
                } else {
                    name
                },
            ),
            None => before,
        }
    }
}

/// What an import list binds.
pub open spec fn bound_by_list(list: Seq<char>, top: bool) -> Set<Seq<char>> {
    let parts = text::split_spec(list, text::eq_char(','));
    bound_by_all(parts, top, parts.len() as int)
}

fn collect_bindings(list: &str, top: bool, out: &mut NameSet)
    ensures
        final(out)@ == old(out)@.union(bound_by_list(list@, top)),
{
    let parts = text::split(list, ',');
    let ghost first = out@;
    let ghost all = text::split_spec(list@, text::eq_char(','));
    let mut i: usize = 0;
    proof {
        assert(first.union(Set::empty()) =~= first);
    }
    while i < parts.len()
        invariant
            i <= parts@.len(),
            text::texts(parts@) == all,
            out@ == first.union(bound_by_all(all, top, i as int)),
        decreases parts@.len() - i,
    {
        proof {
            assert(all[i as int] == parts@[i as int]@);
        }
        let ghost before = bound_by_all(all, top, i as int);
        if let Some(name) = binding_of(parts[i].as_str()) {
            if top {
                let dot = text::index_of(name.as_str(), '.');
                out.insert(text::before(name.as_str(), dot));
                proof {
                    assert(first.union(before).insert(top_level(name@)) =~= first.union(
                        before.insert(top_level(name@)),
                    ));
                }
            } else {
                out.insert(name.as_str());
                proof {
                    assert(first.union(before).insert(name@) =~= first.union(before.insert(name@)));
                }
            }
        }
        i += 1;
    }
}

/// The name of a target of an assignment, without its annotation.
pub open spec fn target_name(target: Seq<char>) -> Seq<char> {
    text::trim_spec(target.take(text::first_index(target, text::eq_char(':'))))
}

/// The identifiers among the first `k` targets of an assignment.
pub open spec fn assigned(parts: Seq<Seq<char>>, k: int) -> Set<Seq<char>>
    decreases k,
{
    if k <= 0 {
        Set::empty()
    } else if identifier(target_name(parts[k - 1])) {
        assigned(parts, k - 1).insert(target_name(parts[k - 1]))
    } else {
        assigned(parts, k - 1)
    }
}

/// What ends the text before the `=` of a comparison or an augmented assignment.
pub open spec fn is_operator(c: char) -> bool {
    c == '!' || c == '<' || c == '>' || c == '+' || c == '-' || c == '*' || c == '/' || c == '%'
        || c == '|' || c == '&' || c == '^' || c == '@'
}

fn operator(c: char) -> (r: bool)
    ensures
        r == is_operator(c),
{
    c == '!' || c == '<' || c == '>' || c == '+' || c == '-' || c == '*' || c == '/' || c == '%'
        || c == '|' || c == '&' || c == '^' || c == '@'
}

/// What a module-level assignment binds; comparisons and augmented forms bind
/// nothing.
pub open spec fn bound_by_assignment(line: Seq<char>) -> Set<Seq<char>> {
    let i = text::first_index(line, text::eq_char('='));
    if i >= line.len() || (i > 0 && is_operator(line[i - 1])) || (i + 1 < line.len() && line[i + 1]
        == '=') {
        Set::empty()
    } else {
        let targets = text::split_spec(line.take(i), text::eq_char(','));
        assigned(targets, targets.len() as int)
    }
}

fn collect_assigned(line: &str, out: &mut NameSet)
    ensures
        final(out)@ == old(out)@.union(bound_by_assignment(line@)),
{
    let ghost first = out@;
    proof {
        assert(first.union(Set::empty()) =~= first);
    }
    let i = text::index_of(line, '=');
    let len = line.unicode_len();
    if i >= len || (i > 0 && operator(line.get_char(i - 1))) || (i < len - 1 && line.get_char(i + 1)
        == '=') {
        return;
    }
    let lhs = text::before(line, i);
    let parts = text::split(lhs, ',');
    let ghost all = text::split_spec(lhs@, text::eq_char(','));
    let mut k: usize = 0;
    while k < parts.len()
        invariant
            k <= parts@.len(),
            text::texts(parts@) == all,
            out@ == first.union(assigned(all, k as int)),
        decreases parts@.len() - k,
    {
        proof {
            assert(all[k as int] == parts@[k as int]@);
        }
        let ghost before = assigned(all, k as int);
        let target = parts[k].as_str();
        let colon = text::index_of(target, ':');
        let name = text::trim(text::before(target, colon));
        if is_identifier(name) {
            out.insert(name);
            proof {
                assert(first.union(before).insert(name@) =~= first.union(before.insert(name@)));
            }
        }
        k += 1;
    }
}

/// The name a definition gives.
pub open spec fn defined_by(line: Seq<char>, keyword: Seq<char>) -> Set<Seq<char>> {
    let name = leading_word(line.skip(keyword.len() as int));
    if text::starts(line, keyword) && name.len() > 0 {
        set![name]
    } else {
        Set::empty()
    }
}

fn collect_defined(line: &str, keyword: &str, out: &mut NameSet)
    ensures
        final(out)@ == old(out)@.union(defined_by(line@, keyword@)),
{
    let ghost first = out@;
    proof {
        assert(first.union(Set::empty()) =~= first);
    }
    if let Some(rest) = text::strip_prefix(line, keyword) {
        let name = take_word(rest);
        if name.unicode_len() > 0 {
            out.insert(name);
            proof {
                assert(first.union(set![name@]) =~= first.insert(name@));
            }
        }
    }
}

/// What is left open at the end of a line.
#[derive(Debug, Clone, Copy, PartialEq, Eq, Structural)]
pub enum Open {
    Nothing,
    /// An `__all__` list, until its bracket closes.
    Exports,
    /// A bracketed import list, until its bracket closes.
    Bracket,
    /// An import list that a backslash continues on the next line.
    Line,
}

/// The names bound so far, and what is still open.
#[verifier::ext_equal]
pub struct BoundView {
    pub names: Set<Seq<char>>,
    pub open: Open,
}

/// What a part of a bracketed import list binds: all up to the closing bracket.
pub open spec fn bound_in_bracket(part: Seq<char>) -> BoundView {
    BoundView {
        names: bound_by_list(part.take(text::first_index(part, text::eq_char(')'))), false),
        open: if part.contains(')') {
            Open::Nothing
        } else {
            Open::Bracket
        },
    }
}

/// What an import list binds, as far as it stands on one line.
pub open spec fn bound_by_import(list: Seq<char>) -> BoundView {
    let t = text::trim_spec(list);
    if text::starts(t, "("@) {
        bound_in_bracket(t.skip(text::first_index(t, not_open_paren())))
    } else if text::ends(t, "\\"@) {
        BoundView { names: bound_by_list(t.drop_last(), false), open: Open::Line }
    } else {
        BoundView { names: bound_by_list(t, false), open: Open::Nothing }
    }
}

/// The list of a `from` import, given what follows the keyword.
pub open spec fn imported_list(rest: Seq<char>) -> Option<Seq<char>> {
    match text::find_spec(rest, " import "@) {
        Some(i) => Some(rest.skip(i + " import "@.len())),
        None => match text::find_spec(rest, " import("@) {
            Some(i) => Some(rest.skip(i + " import"@.len())),
            None => None,
        },
    }
}

/// What a statement at column zero binds, other than `__all__`.
pub open spec fn bound_by_statement(line: Seq<char>) -> BoundView {
    if text::starts(line, "from "@) {
        match imported_list(line.skip("from "@.len() as int)) {
            Some(list) => bound_by_import(list),
            None => BoundView { names: Set::empty(), open: Open::Nothing },
        }
    } else if text::starts(line, "import "@) {
        BoundView {
            names: bound_by_list(line.skip("import "@.len() as int), true),
            open: Open::Nothing,
        }
    } else {
        BoundView {
            names: defined_by(line, "def "@).union(defined_by(line, "class "@)).union(
                defined_by(line, "async def "@),
            ).union(bound_by_assignment(line)),
            open: Open::Nothing,
        }
    }
}

fn collect_bracket(part: &str, out: &mut NameSet) -> (r: Open)
    ensures
        final(out)@ == old(out)@.union(bound_in_bracket(part@).names),
        r == bound_in_bracket(part@).open,
{
    collect_bindings(text::before(part, text::index_of(part, ')')), false, out);
    if text::has_char(part, ')') {
        Open::Nothing
    } else {
        Open::Bracket
    }
}

fn collect_import(list: &str, out: &mut NameSet) -> (r: Open)
    ensures
        final(out)@ == old(out)@.union(bound_by_import(list@).names),
        r == bound_by_import(list@).open,
{
    proof {
        reveal_strlit("\\");
    }
    let t = text::trim(list);
    if text::starts_with(t, "(") {
        let from = text::index_where(
            t,
            |c: char| -> (b: bool) ensures b == not_open_paren()(c) { c != '(' },
            Ghost(not_open_paren()),
        );
        collect_bracket(text::after(t, from), out)
    } else if text::ends_with(t, "\\") {
        let part = text::before(t, t.unicode_len() - 1);
        proof {
            assert(part@ =~= t@.drop_last());
        }
        collect_bindings(part, false, out);
        Open::Line
    } else {
        collect_bindings(t, false, out);
        Open::Nothing
    }
}

fn find_imported<'a>(rest: &'a str) -> (r: Option<&'a str>)
    ensures
        text::opt_str(r) == imported_list(rest@),
{
    proof {
        reveal_strlit(" import");
        reveal_strlit(" import(");
    }
    match text::find(rest, " import ") {
        Some(i) => Some(text::after(rest, i + " import ".unicode_len())),
        None => match text::find(rest, " import(") {
            Some(i) => Some(text::after(rest, i + " import".unicode_len())),
            None => None,
        },
    }
}

fn collect_statement(line: &str, out: &mut NameSet) -> (r: Open)
    ensures
        final(out)@ == old(out)@.union(bound_by_statement(line@).names),
        r == bound_by_statement(line@).open,
{
    let ghost first = out@;
    proof {
        assert(first.union(Set::empty()) =~= first);
    }
    if let Some(rest) = text::strip_prefix(line, "from ") {
        return match find_imported(rest) {
            Some(list) => collect_import(list, out),
            None => Open::Nothing,
        };
    }
    if let Some(rest) = text::strip_prefix(line, "import ") {
        collect_bindings(rest, true, out);
    } else {
        collect_defined(line, "def ", out);
        collect_defined(line, "class ", out);
        collect_defined(line, "async def ", out);
        collect_assigned(line, out);
        proof {
            assert(out@ =~= first.union(bound_by_statement(line@).names));
        }
    }
    Open::Nothing
}

/// What a line adds. `__all__` and import lists often span several lines and are
/// collected until they end; other indented code binds locals, not module
/// attributes.
pub open spec fn bound_line(st: BoundView, raw: Seq<char>) -> BoundView {
    let code = raw.take(text::first_index(raw, text::eq_char('#')));
    let line = text::trim_end_spec(code);
    let added = match st.open {
        Open::Exports => BoundView {
            names: quoted(raw),
            open: if raw.contains(']') {
                Open::Nothing
            } else {
                Open::Exports
            },
        },
        Open::Bracket => bound_in_bracket(code),
        Open::Line => bound_by_import(code),
        Open::Nothing => if code.len() == 0 || code[0] == ' ' || code[0] == '\t'
            || text::trim_spec(code).len() == 0 {
            BoundView { names: Set::empty(), open: Open::Nothing }
        } else if text::starts(line, "__all__"@) {
            BoundView {
                names: quoted(line),
                open: if line.contains(']') {
                    Open::Nothing
                } else {
                    Open::Exports
                },
            }
        } else {
            bound_by_statement(line)
        },
    };
    BoundView { names: st.names.union(added.names), open: added.open }
}

pub open spec fn bound_lines(lines: Seq<Seq<char>>, n: int) -> BoundView
    decreases n,
{
    if n <= 0 {
        BoundView { names: Set::empty(), open: Open::Nothing }
    } else {
        bound_line(bound_lines(lines, n - 1), lines[n - 1])
    }
}

/// The top-level names a module's source binds.
pub open spec fn names_bound(source: Seq<char>) -> Set<Seq<char>> {
    let lines = text::lines_spec(source);
    bound_lines(lines, lines.len() as int).names
}

/// Top-level names `__init__.py` binds.
///
/// A line scanner: imports, assignments, definitions, and `__all__` entries.
/// Only column-zero statements count, so a name bound inside a function body is
/// not mistaken for a module attribute.
pub fn bound_names(source: &str) -> (r: NameSet)
    ensures
        r@ == names_bound(source@),
{
    let lines = text::lines(source);
    let ghost all = text::lines_spec(source@);
    let mut names = NameSet::new();
    let mut open = Open::Nothing;
    let mut i: usize = 0;
    while i < lines.len()
        invariant
            i <= lines@.len(),
            text::texts(lines@) == all,
            bound_lines(all, i as int) == (BoundView { names: names@, open }),
        decreases lines@.len() - i,
    {
        let raw = lines[i].as_str();
        let ghost first = names@;
        proof {
            assert(all[i as int] == raw@);
            assert(first.union(Set::empty()) =~= first);
        }
        let code = text::before(raw, text::index_of(raw, '#'));
        match open {
            Open::Exports => {
                collect_quoted(raw, &mut names);
                if text::has_char(raw, ']') {
                    open = Open::Nothing;
                }
            },
            Open::Bracket => {
                open = collect_bracket(code, &mut names);
            },
            Open::Line => {
                open = collect_import(code, &mut names);
            },
            Open::Nothing => {
                if code.unicode_len() > 0 && code.get_char(0) != ' ' && code.get_char(0) != '\t'
                    && text::trim(code).unicode_len() > 0 {
                    let line = text::trim_end(code);
                    if text::starts_with(line, "__all__") {
                        collect_quoted(line, &mut names);
                        if !text::has_char(line, ']') {
                            open = Open::Exports;
                        }
                    } else {
                        open = collect_statement(line, &mut names);
                    }
                }
            },
        }
        i += 1;
    }
    names
}

// ---------------------------------------------------------------------------
// Everything a package exposes
// ---------------------------------------------------------------------------

pub open spec fn is_public(name: Seq<char>) -> bool {
    !(name.len() > 0 && name[0] == '_')
}

pub open spec fn public_name() -> spec_fn(Seq<char>) -> bool {
    |name: Seq<char>| is_public(name)
}

fn public(name: &str) -> (r: bool)
    ensures
        r == is_public(name@),
{
    name.unicode_len() == 0 || name.get_char(0) != '_'
}

/// The module an entry of a directory is: a package, or a source file by its stem.
pub open spec fn module_of(e: Entry) -> Option<Seq<char>> {
    match e.kind {
        EntryKind::Package => Some(e.name@),
        EntryKind::File => if text::ends(e.name@, ".py"@) && e.name@.len() > ".py"@.len() {
            Some(e.name@.take(e.name@.len() - ".py"@.len()))
        } else {
            None
        },
        EntryKind::Directory => None,
    }
}

/// The attribute an entry of a package directory gives.
pub open spec fn entry_attribute(e: Entry) -> Option<Seq<char>> {
    if is_public(e.name@) {
        module_of(e)
    } else {
        None
    }
}

/// The attributes the first `n` entries give.
pub open spec fn entry_attributes(entries: Seq<Entry>, n: int) -> Set<Seq<char>>
    decreases n,
{
    if n <= 0 {
        Set::empty()
    } else {
        match entry_attribute(entries[n - 1]) {
            Some(name) => entry_attributes(entries, n - 1).insert(name),
            None => entry_attributes(entries, n - 1),
        }
    }
}

/// Everything a package exposes: the public names it binds and its public
/// submodules.
pub open spec fn exposed(entries: Seq<Entry>, init: Seq<char>) -> Set<Seq<char>> {
    names_bound(init).filter(public_name()).union(
        entry_attributes(entries, entries.len() as int),
    )
}

/// The module `e` is, if it is one.
pub fn module_name(e: &Entry) -> (r: Option<String>)
    ensures
        text::opt_text(r) == module_of(*e),
{
    let name = e.name.as_str();
    match e.kind {
        EntryKind::Package => Some(name.to_string()),
        EntryKind::File => match text::strip_suffix(name, ".py") {
            Some(stem) => if stem.unicode_len() > 0 {
                Some(stem.to_string())
            } else {
                None
            },
            None => None,
        },
        EntryKind::Directory => None,
    }
}

fn attribute_of(e: &Entry) -> (r: Option<String>)
    ensures
        text::opt_text(r) == entry_attribute(*e),
{
    if public(e.name.as_str()) {
        module_name(e)
    } else {
        None
    }
}

/// Everything the package exposes, for the "did you mean" half of the message.
fn available_attributes(entries: &Vec<Entry>, init: &str) -> (r: Vec<String>)
    ensures
        text::texts(r@) == listing(exposed(entries@, init@)),
{
    let bound = bound_names(init);
    let list = bound.list();
    let ghost all = text::texts(list@);
    let mut names = NameSet::new();
    let mut i: usize = 0;
    proof {
        assert(all.take(0).to_set().filter(public_name()) =~= Set::<Seq<char>>::empty());
    }
    while i < list.len()
        invariant
            i <= list@.len(),
            all == text::texts(list@),
            names@ == all.take(i as int).to_set().filter(public_name()),
        decreases list@.len() - i,
    {
        proof {
            assert(all[i as int] == list@[i as int]@);
            lemma_take_set(all, i as int);
            let before = all.take(i as int).to_set();
            if is_public(all[i as int]) {
                assert(before.insert(all[i as int]).filter(public_name()) =~= before.filter(
                    public_name(),
                ).insert(all[i as int]));
            } else {
                assert(before.insert(all[i as int]).filter(public_name()) =~= before.filter(
                    public_name(),
                ));
            }
        }
        if public(list[i].as_str()) {
            names.insert(list[i].as_str());
        }
        i += 1;
    }
    let ghost first = names@;
    proof {
        assert(all.take(i as int) =~= all);
        assert(first.union(entry_attributes(entries@, 0)) =~= first);
    }
    let mut k: usize = 0;
    while k < entries.len()
        invariant
            k <= entries@.len(),
            names@ == first.union(entry_attributes(entries@, k as int)),
        decreases entries@.len() - k,
    {
        let ghost before = entry_attributes(entries@, k as int);
        if let Some(name) = attribute_of(&entries[k]) {
            names.insert(name.as_str());
            proof {
                assert(first.union(before).insert(name@) =~= first.union(before.insert(name@)));
            }
        }
        k += 1;
    }
    text::clone_all(names.list())
}

/// An attribute's status, mathematically.
#[verifier::ext_equal]
pub enum AttrStatusView {
    Present,
    Missing { available: Seq<Seq<char>> },
    Unknown,
}

impl View for AttrStatus {
    type V = AttrStatusView;

    open spec fn view(&self) -> AttrStatusView {
        match *self {
            AttrStatus::Present => AttrStatusView::Present,
            AttrStatus::Missing { available } => AttrStatusView::Missing {
                available: text::texts(available@),
            },
            AttrStatus::Unknown => AttrStatusView::Unknown,
        }
    }
}

/// Whether a package exposes an attribute, and what it exposes if it does not.
pub open spec fn status_of(package: PackageDir, attr: Seq<char>) -> AttrStatusView {
    if has_submodule(package.entries@, attr) {
        AttrStatusView::Present
    } else if package.init is None || is_dynamic(package.init->0@) {
        AttrStatusView::Unknown
    } else if names_bound(package.init->0@).contains(attr) {
        AttrStatusView::Present
    } else {
        AttrStatusView::Missing {
            available: listing(exposed(package.entries@, package.init->0@)),
        }
    }
}

/// Does the package expose `attr` as a top-level attribute?
pub fn attribute_status(package: &PackageDir, attr: &str) -> (r: AttrStatus)
    ensures
        r@ == status_of(*package, attr@),
{
    if is_submodule(&package.entries, attr) {
        return AttrStatus::Present;
    }
    let init = match &package.init {
        Some(init) => init.as_str(),
        None => return AttrStatus::Unknown,
    };
    if defines_dynamic_getattr(init) {
        return AttrStatus::Unknown;
    }
    if bound_names(init).contains(attr) {
        return AttrStatus::Present;
    }
    AttrStatus::Missing { available: available_attributes(&package.entries, init) }
}

/// An attribute is reported missing exactly where nothing gives it: the package's own
/// module is there to be read, resolves no attribute dynamically and binds no
/// such name, and no file beside it provides one.
pub proof fn only_what_nothing_binds_is_missing(package: PackageDir, attr: Seq<char>)
    ensures
        status_of(package, attr) is Missing <==> package.init is Some && !is_dynamic(
            package.init->0@,
        ) && !names_bound(package.init->0@).contains(attr) && !has_submodule(
            package.entries@,
            attr,
        ),
{
}

/// What is reported missing is never offered: a package that lacks an attribute
/// does not list it among what it exposes.
pub proof fn missing_is_never_offered(package: PackageDir, attr: Seq<char>)
    requires
        status_of(package, attr) is Missing,
    ensures
        !exposed(package.entries@, package.init->0@).contains(attr),
{
    let n = package.entries@.len() as int;
    if entry_attributes(package.entries@, n).contains(attr) {
        lemma_entries_provide(package.entries@, n, attr);
    }
}

proof fn lemma_entries_provide(entries: Seq<Entry>, n: int, attr: Seq<char>)
    requires
        0 <= n <= entries.len(),
        entry_attributes(entries, n).contains(attr),
    ensures
        has_submodule(entries, attr),
    decreases n,
{
    if n > 0 {
        let e = entries[n - 1];
        if entry_attribute(e) == Some(attr) {
            if e.kind is File {
                assert(e.name@ =~= attr + ".py"@) by {
                    assert(e.name@.skip(e.name@.len() - ".py"@.len()) == ".py"@);
                    assert(e.name@ =~= e.name@.take(e.name@.len() - ".py"@.len()) + e.name@.skip(
                        e.name@.len() - ".py"@.len(),
                    ));
                }
            }
            assert(provides(entries[n - 1], attr));
        } else {
            lemma_entries_provide(entries, n - 1, attr);
        }
    }
}

/// A piece of text in quotes: what stands before it, the quote, and what it holds.
pub struct Quotation {
    pub before: Seq<char>,
    pub mark: char,
    pub name: Seq<char>,
}

/// Whether a quotation is one: no quote stands before it, and it ends at the next
/// quote of its kind.
pub open spec fn well_quoted(q: Quotation) -> bool {
    &&& q.mark == '"' || q.mark == '\''
    &&& !q.before.contains('"') && !q.before.contains('\'')
    &&& !q.name.contains(q.mark)
}

/// Quotations one after another.
pub open spec fn spelled(items: Seq<Quotation>) -> Seq<char>
    decreases items.len(),
{
    if items.len() == 0 {
        seq![]
    } else {
        let q = items[0];
        q.before + seq![q.mark] + q.name + seq![q.mark] + spelled(items.drop_first())
    }
}

/// The identifiers among some quotations.
pub open spec fn identifiers_of(items: Seq<Quotation>) -> Set<Seq<char>> {
    Set::new(
        |n: Seq<char>|
            identifier(n) && exists|i: int| 0 <= i < items.len() && (#[trigger] items[i]).name == n,
    )
}

proof fn lemma_quoted_behind(pre: Seq<char>, s: Seq<char>)
    requires
        !pre.contains('"'),
        !pre.contains('\''),
    ensures
        quoted(pre + s) == quoted(s),
{
    let t = pre + s;
    let i = text::first_index(s, quote());
    text::lemma_first_index(s, quote());
    assert forall|j: int| 0 <= j < pre.len() + i implies !quote()(#[trigger] t[j]) by {
        if j < pre.len() {
            assert(t[j] == pre[j]);
            assert(pre.contains(pre[j]));
        } else {
            assert(t[j] == s[j - pre.len()]);
        }
    }
    if i < s.len() {
        assert(t[pre.len() + i] == s[i]);
        assert(t.skip(pre.len() + i + 1) =~= s.skip(i + 1));
    }
    text::lemma_first_index_is(t, quote(), pre.len() + i);
}

proof fn lemma_quoted_spelled(items: Seq<Quotation>, tail: Seq<char>)
    requires
        forall|i: int| 0 <= i < items.len() ==> well_quoted(#[trigger] items[i]),
        !tail.contains('"'),
        !tail.contains('\''),
    ensures
        quoted(spelled(items) + tail) == identifiers_of(items),
    decreases items.len(),
{
    if items.len() == 0 {
        assert(spelled(items) + tail =~= tail + Seq::<char>::empty());
        lemma_quoted_behind(tail, Seq::<char>::empty());
        assert(quoted(Seq::<char>::empty()) =~= Set::<Seq<char>>::empty());
        assert(identifiers_of(items) =~= Set::<Seq<char>>::empty());
    } else {
        let q = items[0];
        assert(well_quoted(items[0]));
        let rest = items.drop_first();
        assert forall|i: int| 0 <= i < rest.len() implies well_quoted(#[trigger] rest[i]) by {
            assert(rest[i] == items[i + 1]);
        }
        lemma_quoted_spelled(rest, tail);
        let s = seq![q.mark] + q.name + seq![q.mark] + spelled(rest) + tail;
        assert(spelled(items) + tail =~= q.before + s);
        lemma_quoted_behind(q.before, s);
        assert(s[0] == q.mark);
        text::lemma_first_index_is(s, quote(), 0);
        let after = s.skip(1);
        let n = q.name.len() as int;
        assert forall|j: int| 0 <= j < n implies !text::eq_char(q.mark)(#[trigger] after[j]) by {
            assert(after[j] == q.name[j]);
            assert(q.name.contains(q.name[j]));
        }
        assert(after[n] == q.mark);
        text::lemma_first_index_is(after, text::eq_char(q.mark), n);
        assert(after.take(n) =~= q.name);
        assert(after.skip(n + 1) =~= spelled(rest) + tail);
        assert forall|m: Seq<char>| identifiers_of(items).contains(m) <==> #[trigger] quoted(
            s,
        ).contains(m) by {
            if identifiers_of(items).contains(m) && m != q.name {
                let i = choose|i: int| 0 <= i < items.len() && (#[trigger] items[i]).name == m;
                assert(rest[i - 1] == items[i]);
            }
            if identifiers_of(rest).contains(m) {
                let i = choose|i: int| 0 <= i < rest.len() && (#[trigger] rest[i]).name == m;
                assert(items[i + 1] == rest[i]);
            }
        }
        assert(quoted(s) =~= identifiers_of(items));
    }
}

/// A trimmed line keeps what stands before its last solid character.
proof fn lemma_trim_end_keeps(s: Seq<char>, k: int)
    requires
        0 < k <= s.len(),
        !text::is_space(s[k - 1]),
    ensures
        exists|m: int| k <= m <= s.len() && text::trim_end_spec(s) == #[trigger] s.take(m),
{
    text::lemma_last_index(s, text::not_space());
    let m = text::last_index(s, text::not_space());
    if m < k {
        assert(!text::not_space()(s[k - 1]));
    }
    assert(text::trim_end_spec(s) == s.take(m));
}

proof fn lemma_spelled_ends(items: Seq<Quotation>)
    requires
        items.len() > 0,
        forall|i: int| 0 <= i < items.len() ==> well_quoted(#[trigger] items[i]),
    ensures
        spelled(items).len() > 0,
        is_quote(spelled(items).last()),
    decreases items.len(),
{
    assert(well_quoted(items[0]));
    let rest = items.drop_first();
    if rest.len() > 0 {
        assert forall|i: int| 0 <= i < rest.len() implies well_quoted(#[trigger] rest[i]) by {
            assert(rest[i] == items[i + 1]);
        }
        lemma_spelled_ends(rest);
        assert(spelled(items).last() == spelled(rest).last());
    } else {
        assert(spelled(rest) =~= Seq::<char>::empty());
        assert(spelled(items).last() == items[0].mark);
    }
}

/// What a line at column zero without a comment adds, where nothing is open.
proof fn lemma_closed_line(st: BoundView, raw: Seq<char>)
    requires
        st.open == Open::Nothing,
        raw.len() > 0,
        !raw.contains('#'),
        !text::is_space(raw[0]),
    ensures
        text::starts(text::trim_end_spec(raw), "__all__"@) ==> bound_line(st, raw).names
            == st.names.union(quoted(text::trim_end_spec(raw))) && (bound_line(st, raw).open
            == Open::Exports <==> !text::trim_end_spec(raw).contains(']')),
        !text::starts(text::trim_end_spec(raw), "__all__"@) ==> bound_line(st, raw).names
            == st.names.union(bound_by_statement(text::trim_end_spec(raw)).names) && bound_line(
            st,
            raw,
        ).open == bound_by_statement(text::trim_end_spec(raw)).open,
{
    assert forall|j: int| 0 <= j < raw.len() implies !text::eq_char('#')(#[trigger] raw[j]) by {
        assert(raw.contains(raw[j]));
    }
    text::lemma_first_index_is(raw, text::eq_char('#'), raw.len() as int);
    let code = raw.take(text::first_index(raw, text::eq_char('#')));
    assert(code =~= raw);
    text::lemma_first_index_is(raw, text::not_space(), 0);
    assert(raw.skip(0) =~= raw);
    lemma_trim_end_keeps(raw, 1);
    assert(text::trim_spec(code).len() > 0);
}

/// The names of a text of one line.
proof fn lemma_names_of_line(raw: Seq<char>)
    requires
        raw.len() > 0,
        !raw.contains('\n'),
    ensures
        names_bound(raw) == bound_line(
            BoundView { names: Set::empty(), open: Open::Nothing },
            raw,
        ).names,
{
    text::lemma_only_line(raw);
    let lines = text::lines_spec(raw);
    assert(lines.len() == 1 && lines[0] == raw);
    reveal_with_fuel(bound_lines, 2);
}

/// A text of one line that is code from end to end, at column zero.
proof fn lemma_code_line(raw: Seq<char>)
    requires
        raw.len() > 0,
        !raw.contains('#'),
        !raw.contains('\n'),
        !text::is_space(raw[0]),
    ensures
        names_bound(raw) == (if text::starts(text::trim_end_spec(raw), "__all__"@) {
            quoted(text::trim_end_spec(raw))
        } else {
            bound_by_statement(text::trim_end_spec(raw)).names
        }),
{
    let none = BoundView { names: Set::empty(), open: Open::Nothing };
    lemma_names_of_line(raw);
    lemma_closed_line(none, raw);
    let line = text::trim_end_spec(raw);
    assert(none.names.union(quoted(line)) =~= quoted(line));
    assert(none.names.union(bound_by_statement(line).names) =~= bound_by_statement(line).names);
}

/// An `__all__` list binds the identifiers it quotes, and nothing else, whether or
/// not it closes on its line.
pub proof fn exported_names_are_bound(items: Seq<Quotation>, tail: Seq<char>)
    requires
        forall|i: int| 0 <= i < items.len() ==> well_quoted(#[trigger] items[i]),
        !tail.contains('"'),
        !tail.contains('\''),
        !("__all__"@ + spelled(items) + tail).contains('#'),
        !("__all__"@ + spelled(items) + tail).contains('\n'),
    ensures
        names_bound("__all__"@ + spelled(items) + tail) == identifiers_of(items),
{
    reveal_strlit("__all__");
    let raw = "__all__"@ + spelled(items) + tail;
    let k = (7 + spelled(items).len()) as int;
    assert(raw[0] == '_');
    if items.len() > 0 {
        lemma_spelled_ends(items);
        assert(raw[k - 1] == spelled(items).last());
    } else {
        assert(raw[6] == "__all__"@[6]);
    }
    lemma_code_line(raw);
    lemma_trim_end_keeps(raw, k);
    let m = choose|m: int| k <= m <= raw.len() && text::trim_end_spec(raw) == #[trigger] raw.take(
        m,
    );
    let line = raw.take(m);
    let rest = tail.take(m - k);
    assert(line =~= "__all__"@ + (spelled(items) + rest));
    assert(line.take(7) =~= "__all__"@);
    lemma_part_holds(tail, rest, '"');
    lemma_part_holds(tail, rest, '\'');
    assert(!"__all__"@.contains('"') && !"__all__"@.contains('\''));
    lemma_quoted_behind("__all__"@, spelled(items) + rest);
    lemma_quoted_spelled(items, rest);
}

/// What the front of a text holds, the text holds.
proof fn lemma_part_holds(s: Seq<char>, part: Seq<char>, c: char)
    requires
        part.len() <= s.len(),
        part == s.take(part.len() as int),
        !s.contains(c),
    ensures
        !part.contains(c),
{
    if part.contains(c) {
        let k = choose|k: int| 0 <= k < part.len() && part[k] == c;
        assert(s[k] == c);
    }
}

proof fn lemma_bound_grows(lines: Seq<Seq<char>>, n: int, m: int)
    requires
        n <= m,
    ensures
        bound_lines(lines, n).names.subset_of(bound_lines(lines, m).names),
    decreases m,
{
    if 0 < m && n < m {
        lemma_bound_grows(lines, n, m - 1);
    }
}

/// An `__all__` list that does not close on its first line goes on until it does:
/// what a later line of it quotes is bound too.
pub proof fn exports_may_span_lines(
    lines: Seq<Seq<char>>,
    k: int,
    items: Seq<Quotation>,
    tail: Seq<char>,
    i: int,
)
    requires
        0 < k < lines.len(),
        forall|j: int| 0 <= j < lines.len() ==> text::is_line(#[trigger] lines[j]),
        lines.last().len() > 0,
        "__all__"@.is_prefix_of(lines[0]),
        !lines[0].contains('#'),
        forall|j: int| 0 <= j < k ==> !(#[trigger] lines[j]).contains(']'),
        lines[k] == spelled(items) + tail,
        forall|j: int| 0 <= j < items.len() ==> well_quoted(#[trigger] items[j]),
        !tail.contains('"'),
        !tail.contains('\''),
        0 <= i < items.len(),
        identifier(items[i].name),
    ensures
        names_bound(text::join_spec(lines, "\n"@)).contains(items[i].name),
{
    text::lines_read_back(lines);
    reveal_strlit("__all__");
    let raw = lines[0];
    assert(raw.subrange(0, 7) =~= "__all__"@);
    assert(raw[6] == raw.subrange(0, 7)[6]);
    assert(raw[0] == raw.subrange(0, 7)[0]);
    lemma_trim_end_keeps(raw, 7);
    let m = choose|m: int| 7 <= m <= raw.len() && text::trim_end_spec(raw) == #[trigger] raw.take(
        m,
    );
    let line = raw.take(m);
    assert(line.take(7) =~= "__all__"@);
    lemma_part_holds(raw, line, ']');
    let none = BoundView { names: Set::empty(), open: Open::Nothing };
    lemma_closed_line(none, raw);
    assert(bound_lines(lines, 0) == none);
    assert(bound_lines(lines, 1) == bound_line(none, raw));
    lemma_exports_stay_open(lines, k);
    lemma_quoted_spelled(items, tail);
    assert(bound_lines(lines, k + 1).names.contains(items[i].name));
    lemma_bound_grows(lines, k + 1, lines.len() as int);
}

proof fn lemma_exports_stay_open(lines: Seq<Seq<char>>, k: int)
    requires
        0 < k <= lines.len(),
        bound_lines(lines, 1).open == Open::Exports,
        forall|j: int| 0 <= j < k ==> !(#[trigger] lines[j]).contains(']'),
    ensures
        bound_lines(lines, k).open == Open::Exports,
    decreases k,
{
    if k > 1 {
        lemma_exports_stay_open(lines, k - 1);
        assert(!lines[k - 1].contains(']'));
    }
}

/// One name of an import list: what is imported, what it is called here, and the
/// blanks around it. The import is a root and, for a dotted path, what follows it.
pub struct Imported {
    pub before: Seq<char>,
    pub root: Seq<char>,
    pub path: Seq<char>,
    pub alias: Option<Seq<char>>,
    pub after: Seq<char>,
}

/// Blanks within a line.
pub open spec fn inner_blanks(s: Seq<char>) -> bool {
    forall|i: int| 0 <= i < s.len() ==> (#[trigger] s[i]) == ' ' || s[i] == '\t'
}

/// A name as Python has them, without blanks.
pub open spec fn plain_word(s: Seq<char>) -> bool {
    identifier(s) && forall|i: int| 0 <= i < s.len() ==> !text::is_space(#[trigger] s[i])
}

/// Whether a name of an import list is one.
pub open spec fn well_imported(x: Imported) -> bool {
    &&& inner_blanks(x.before)
    &&& inner_blanks(x.after)
    &&& plain_word(x.root)
    &&& forall|i: int|
        0 <= i < x.path.len() ==> (is_word_char(#[trigger] x.path[i]) || x.path[i] == '.')
            && !text::is_space(x.path[i])
    &&& x.path.len() > 0 ==> x.path[0] == '.'
    &&& x.alias matches Some(a) ==> plain_word(a)
}

/// A name of an import list as it is written.
pub open spec fn import_text() -> spec_fn(Imported) -> Seq<char> {
    |x: Imported|
        x.before + (match x.alias {
            Some(a) => x.root + x.path + " as "@ + a,
            None => x.root + x.path,
        }) + x.after
}

/// An import list as it is written.
pub open spec fn import_list(items: Seq<Imported>) -> Seq<char> {
    text::join_spec(items.map_values(import_text()), seq![','])
}

/// What an import list calls things: each by its alias where it has one. With
/// `top` a path without one is called by its root.
pub open spec fn called(items: Seq<Imported>, top: bool) -> Set<Seq<char>> {
    Set::new(
        |n: Seq<char>|
            exists|i: int|
                0 <= i < items.len() && n == (match (#[trigger] items[i]).alias {
                    Some(a) => a,
                    None => if top {
                        items[i].root
                    } else {
                        items[i].root + items[i].path
                    },
                }),
    )
}

/// The characters that mean something in an import list.
spec fn is_mark(c: char) -> bool {
    c == ',' || c == '(' || c == ')' || c == '#' || c == '\n' || c == '\\' || c == '*' || c == ' '
        || c == '\t' || c == '.'
}

proof fn lemma_marks_are_no_words(c: char)
    requires
        is_word_char(c),
    ensures
        !is_mark(c),
{
}

/// The written name itself, without the blanks around it.
spec fn bare_text(x: Imported) -> Seq<char> {
    match x.alias {
        Some(a) => x.root + x.path + " as "@ + a,
        None => x.root + x.path,
    }
}

proof fn lemma_bare(x: Imported)
    requires
        well_imported(x),
    ensures
        bare_text(x).len() > 0,
        is_word_char(bare_text(x)[0]),
        !text::is_space(bare_text(x)[0]),
        !text::is_space(bare_text(x).last()),
        bare_text(x)[0] != '(' && bare_text(x)[0] != ')',
        bare_text(x).last() != '(' && bare_text(x).last() != ')' && bare_text(x).last() != '\\',
        !bare_text(x).contains(','),
        !bare_text(x).contains(')'),
        !bare_text(x).contains('#'),
        !bare_text(x).contains('\n'),
        import_text()(x) == x.before + bare_text(x) + x.after,
{
    reveal_strlit(" as ");
    let t = bare_text(x);
    let full = x.root + x.path;
    assert(t[0] == x.root[0]);
    lemma_marks_are_no_words(t[0]);
    assert forall|i: int| 0 <= i < full.len() implies (is_word_char(#[trigger] full[i]) || full[i]
        == '.') && !text::is_space(full[i]) by {
        if i < x.root.len() {
            assert(full[i] == x.root[i]);
        } else {
            assert(full[i] == x.path[i - x.root.len()]);
        }
    }
    assert forall|i: int| 0 <= i < t.len() implies is_word_char(#[trigger] t[i]) || t[i] == '.'
        || t[i] == ' ' by {
        if i < full.len() {
            assert(t[i] == full[i]);
        } else if let Some(a) = x.alias {
            if i >= full.len() + 4 {
                assert(t[i] == a[i - full.len() - 4]);
            } else {
                assert(t[i] == " as "@[i - full.len()]);
            }
        }
    }
    match x.alias {
        Some(a) => {
            assert(t.last() == a.last());
            assert(a.last() == a[a.len() - 1]);
        },
        None => {
            assert(t.last() == full[full.len() - 1]);
        },
    }
    assert(is_word_char(t.last()) || t.last() == '.');
    if is_word_char(t.last()) {
        lemma_marks_are_no_words(t.last());
    }
}

proof fn lemma_blanks_trim(before: Seq<char>, t: Seq<char>, after: Seq<char>)
    requires
        inner_blanks(before),
        inner_blanks(after),
        t.len() > 0,
        !text::is_space(t[0]),
        !text::is_space(t.last()),
    ensures
        text::trim_spec(before + t + after) == t,
    decreases before.len() + after.len(),
{
    let s = before + t + after;
    if before.len() > 0 {
        let rest = before.drop_first();
        assert(inner_blanks(rest)) by {
            assert forall|i: int| 0 <= i < rest.len() implies (#[trigger] rest[i]) == ' ' || rest[i]
                == '\t' by {
                assert(rest[i] == before[i + 1]);
            }
        }
        lemma_blanks_trim(rest, t, after);
        text::lemma_trim_ends(rest + t + after, before[0]);
        assert(s =~= seq![before[0]] + (rest + t + after));
    } else if after.len() > 0 {
        let rest = after.drop_last();
        assert(inner_blanks(rest)) by {
            assert forall|i: int| 0 <= i < rest.len() implies (#[trigger] rest[i]) == ' ' || rest[i]
                == '\t' by {
                assert(rest[i] == after[i]);
            }
        }
        lemma_blanks_trim(before, t, rest);
        assert(after.last() == after[after.len() - 1]);
        text::lemma_trim_ends(before + t + rest, after.last());
        assert(s =~= (before + t + rest).push(after.last()));
    } else {
        assert(s =~= t);
        text::lemma_trimmed(t);
    }
}

/// One name of a list binds its alias, or what is imported.
proof fn lemma_bound_by(x: Imported)
    requires
        well_imported(x),
    ensures
        bound_by(import_text()(x)) == Some(
            match x.alias {
                Some(a) => a,
                None => x.root + x.path,
            },
        ),
{
    reveal_strlit(" as ");
    reveal_strlit("*");
    lemma_bare(x);
    let t = bare_text(x);
    lemma_blanks_trim(x.before, t, x.after);
    text::lemma_first_index_is(t, not_paren(), 0);
    assert(t.skip(0) =~= t);
    text::lemma_last_index_is(t, not_paren(), t.len() as int);
    assert(t.take(t.len() as int) =~= t);
    let full = x.root + x.path;
    assert forall|i: int| 0 <= i < full.len() implies !text::is_space(#[trigger] full[i]) by {
        if i < x.root.len() {
            assert(full[i] == x.root[i]);
        } else {
            assert(full[i] == x.path[i - x.root.len()]);
        }
    }
    if full.contains(' ') {
        let k = choose|k: int| 0 <= k < full.len() && full[k] == ' ';
        assert(!text::is_space(full[k]));
    }
    assert(full[0] == x.root[0]);
    lemma_marks_are_no_words(x.root[0]);
    match x.alias {
        Some(a) => {
            text::lemma_found_behind(full, " as "@, a);
            assert(t =~= full + " as "@ + a);
            assert(t.skip(full.len() as int + " as "@.len()) =~= a);
            assert(a.last() == a[a.len() - 1]);
            text::lemma_trimmed(a);
            lemma_marks_are_no_words(a[0]);
            if a == "*"@ {
                assert(a[0] == '*');
            }
        },
        None => {
            text::lemma_not_found(full, " as "@);
            assert(full.last() == full[full.len() - 1]);
            text::lemma_trimmed(full);
            if full == "*"@ {
                assert(full[0] == '*');
            }
        },
    }
}

/// The list has no comma but those between its names, and no bracket.
#[verifier::rlimit(80)]
#[verifier::spinoff_prover]
proof fn lemma_import_list(items: Seq<Imported>)
    requires
        items.len() > 0,
        forall|i: int| 0 <= i < items.len() ==> well_imported(#[trigger] items[i]),
    ensures
        text::split_spec(import_list(items), text::eq_char(',')) == items.map_values(import_text()),
        !import_list(items).contains(')'),
        !import_list(items).contains('#'),
        !import_list(items).contains('\n'),
        import_list(items).len() > 0,
        items[0].before.len() == 0 ==> is_word_char(import_list(items)[0]) && !text::is_space(
            import_list(items)[0],
        ),
        items.last().after.len() == 0 ==> !text::is_space(import_list(items).last())
            && import_list(items).last() != '\\',
    decreases items.len(),
{
    let parts = items.map_values(import_text());
    assert forall|i: int| 0 <= i < parts.len() implies !(#[trigger] parts[i]).contains(',') by {
        lemma_bare(items[i]);
        lemma_text_lacks(items[i], ',');
    }
    text::pieces_read_back(parts, ',');
    let x = items.last();
    assert(well_imported(items[items.len() - 1]));
    lemma_bare(x);
    lemma_text_lacks(x, ')');
    lemma_text_lacks(x, '#');
    lemma_text_lacks(x, '\n');
    let last = import_text()(x);
    let list = import_list(items);
    let before = items.drop_last();
    assert(parts.drop_last() =~= before.map_values(import_text()));
    assert(parts.last() == last);
    if items.len() == 1 {
        assert(list == last);
        assert(last =~= x.before + bare_text(x) + x.after);
    } else {
        assert forall|i: int| 0 <= i < before.len() implies well_imported(#[trigger] before[i]) by {
            assert(before[i] == items[i]);
        }
        lemma_import_list(before);
        let head = import_list(before);
        assert(list == head + seq![','] + last);
        assert(list[0] == head[0]);
        assert(before[0] == items[0]);
        assert(list.last() == last.last());
        lemma_joined_lacks(head, ',', last, ')');
        lemma_joined_lacks(head, ',', last, '#');
        lemma_joined_lacks(head, ',', last, '\n');
    }
    if x.after.len() == 0 {
        assert(last.last() == bare_text(x).last());
    }
}

proof fn lemma_joined_lacks(a: Seq<char>, m: char, b: Seq<char>, c: char)
    requires
        m != c,
        !a.contains(c),
        !b.contains(c),
    ensures
        !(a + seq![m] + b).contains(c),
{
    let s = a + seq![m] + b;
    if s.contains(c) {
        let k = choose|k: int| 0 <= k < s.len() && s[k] == c;
        if k < a.len() {
            assert(a[k] == c);
        } else if k > a.len() {
            assert(b[k - a.len() - 1] == c);
        }
    }
}

proof fn lemma_text_lacks(x: Imported, c: char)
    requires
        well_imported(x),
        !bare_text(x).contains(c),
        c != ' ' && c != '\t',
    ensures
        !import_text()(x).contains(c),
{
    lemma_bare(x);
    let s = x.before + bare_text(x) + x.after;
    if s.contains(c) {
        let k = choose|k: int| 0 <= k < s.len() && s[k] == c;
        let n = x.before.len();
        let m = n + bare_text(x).len();
        if k < n {
            assert(x.before[k] == c);
        } else if k < m {
            assert(bare_text(x)[k - n] == c);
        } else {
            assert(x.after[k - m] == c);
        }
    }
}

proof fn lemma_called(items: Seq<Imported>, top: bool, k: int)
    requires
        0 <= k <= items.len(),
        forall|i: int| 0 <= i < items.len() ==> well_imported(#[trigger] items[i]),
    ensures
        bound_by_all(items.map_values(import_text()), top, k) == called(items.take(k), top),
    decreases k,
{
    let parts = items.map_values(import_text());
    if k > 0 {
        lemma_called(items, top, k - 1);
        let x = items[k - 1];
        assert(well_imported(items[k - 1]));
        lemma_bound_by(x);
        assert(parts[k - 1] == import_text()(x));
        let full = x.root + x.path;
        assert forall|i: int| 0 <= i < x.root.len() implies !text::eq_char('.')(
            #[trigger] full[i],
        ) by {
            assert(full[i] == x.root[i]);
            lemma_marks_are_no_words(x.root[i]);
        }
        if x.path.len() > 0 {
            assert(full[x.root.len() as int] == '.');
        }
        text::lemma_first_index_is(full, text::eq_char('.'), x.root.len() as int);
        assert(full.take(x.root.len() as int) =~= x.root);
        if let Some(a) = x.alias {
            assert forall|i: int| 0 <= i < a.len() implies !text::eq_char('.')(
                #[trigger] a[i],
            ) by {
                lemma_marks_are_no_words(a[i]);
            }
            text::lemma_first_index_is(a, text::eq_char('.'), a.len() as int);
            assert(a.take(a.len() as int) =~= a);
        }
        let now = items.take(k);
        let before = items.take(k - 1);
        assert forall|n: Seq<char>| #[trigger] called(now, top).contains(n) <==> bound_by_all(
            parts,
            top,
            k,
        ).contains(n) by {
            if called(now, top).contains(n) {
                let i = choose|i: int|
                    0 <= i < now.len() && n == (match (#[trigger] now[i]).alias {
                        Some(a) => a,
                        None => if top {
                            now[i].root
                        } else {
                            now[i].root + now[i].path
                        },
                    });
                if i < k - 1 {
                    assert(before[i] == now[i]);
                    assert(called(before, top).contains(n));
                }
            }
            if called(before, top).contains(n) {
                let i = choose|i: int|
                    0 <= i < before.len() && n == (match (#[trigger] before[i]).alias {
                        Some(a) => a,
                        None => if top {
                            before[i].root
                        } else {
                            before[i].root + before[i].path
                        },
                    });
                assert(now[i] == before[i]);
            }
            assert(now[k - 1] == x);
        }
        assert(called(now, top) =~= bound_by_all(parts, top, k));
    } else {
        assert(called(items.take(0), top) =~= Set::<Seq<char>>::empty());
    }
}

proof fn lemma_list_binds(items: Seq<Imported>, top: bool)
    requires
        items.len() > 0,
        forall|i: int| 0 <= i < items.len() ==> well_imported(#[trigger] items[i]),
    ensures
        bound_by_list(import_list(items), top) == called(items, top),
{
    lemma_import_list(items);
    lemma_called(items, top, items.len() as int);
    assert(items.take(items.len() as int) =~= items);
}

/// A `from` import binds what it imports, each name by its alias where it has one,
/// and nothing else; brackets around the list change nothing.
pub proof fn from_imports_bind_what_they_import(module: Seq<char>, items: Seq<Imported>)
    requires
        !module.contains(' '),
        !module.contains('#'),
        !module.contains('\n'),
        items.len() > 0,
        forall|i: int| 0 <= i < items.len() ==> well_imported(#[trigger] items[i]),
        items[0].before.len() == 0,
        items.last().after.len() == 0,
    ensures
        names_bound("from "@ + module + " import "@ + import_list(items)) == called(items, false),
        names_bound("from "@ + module + " import ("@ + import_list(items) + ")"@) == called(
            items,
            false,
        ),
{
    reveal_strlit(" import ");
    reveal_strlit(" import (");
    reveal_strlit("(");
    reveal_strlit(")");
    let list = import_list(items);
    lemma_import_list(items);
    lemma_list_binds(items, false);
    lemma_from_line(module, list);
    lemma_bare_list(list);
    let wrapped = "("@ + list + ")"@;
    assert("from "@ + module + " import ("@ + list + ")"@ =~= "from "@ + module + " import "@
        + wrapped);
    lemma_wrapped_lacks(list, '#');
    lemma_wrapped_lacks(list, '\n');
    assert(wrapped[0] == '(' && wrapped.last() == ')');
    lemma_from_line(module, wrapped);
    lemma_wrapped_list(list);
}

/// What a `from` import of one line binds is what its list does.
proof fn lemma_from_line(module: Seq<char>, list: Seq<char>)
    requires
        !module.contains(' '),
        !module.contains('#'),
        !module.contains('\n'),
        list.len() > 0,
        !list.contains('#'),
        !list.contains('\n'),
        !text::is_space(list.last()),
    ensures
        names_bound("from "@ + module + " import "@ + list) == bound_by_import(list).names,
{
    reveal_strlit("from ");
    reveal_strlit(" import ");
    reveal_strlit("__all__");
    let raw = "from "@ + module + " import "@ + list;
    lemma_statement_lacks(module, list, '#');
    lemma_statement_lacks(module, list, '\n');
    assert(raw[0] == 'f');
    assert(raw.last() == list.last());
    text::lemma_trimmed(raw);
    lemma_code_line(raw);
    assert(raw.take(7)[0] == raw[0]);
    lemma_from_statement(module, list);
}

proof fn lemma_from_statement(module: Seq<char>, list: Seq<char>)
    requires
        !module.contains(' '),
    ensures
        bound_by_statement("from "@ + module + " import "@ + list) == bound_by_import(list),
{
    reveal_strlit("from ");
    reveal_strlit(" import ");
    let raw = "from "@ + module + " import "@ + list;
    let rest = raw.skip(5);
    assert(raw.take(5) =~= "from "@);
    assert(rest =~= module + " import "@ + list);
    text::lemma_found_behind(module, " import "@, list);
    assert(rest.skip(module.len() as int + " import "@.len()) =~= list);
}

proof fn lemma_bare_list(list: Seq<char>)
    requires
        list.len() > 0,
        is_word_char(list[0]),
        !text::is_space(list[0]),
        !text::is_space(list.last()),
        list.last() != '\\',
    ensures
        bound_by_import(list) == (BoundView {
            names: bound_by_list(list, false),
            open: Open::Nothing,
        }),
{
    reveal_strlit("(");
    reveal_strlit("\\");
    text::lemma_trimmed(list);
    assert(list.take(1)[0] == list[0]);
    lemma_marks_are_no_words(list[0]);
    assert(list.skip(list.len() - 1)[0] == list.last());
}

proof fn lemma_wrapped_list(list: Seq<char>)
    requires
        list.len() > 0,
        is_word_char(list[0]),
        !list.contains(')'),
    ensures
        bound_by_import("("@ + list + ")"@).names == bound_by_list(list, false),
{
    reveal_strlit("(");
    reveal_strlit(")");
    let wrapped = "("@ + list + ")"@;
    assert(wrapped[0] == '(' && wrapped.last() == ')');
    text::lemma_trimmed(wrapped);
    assert(wrapped.take(1) =~= "("@);
    assert(wrapped[1] == list[0]);
    lemma_marks_are_no_words(list[0]);
    text::lemma_first_index_is(wrapped, not_open_paren(), 1);
    let inner = wrapped.skip(1);
    assert(inner =~= list + ")"@);
    assert forall|j: int| 0 <= j < list.len() implies !text::eq_char(')')(#[trigger] inner[j]) by {
        assert(inner[j] == list[j]);
        assert(list.contains(list[j]));
    }
    assert(inner[list.len() as int] == ')');
    text::lemma_first_index_is(inner, text::eq_char(')'), list.len() as int);
    assert(inner.take(list.len() as int) =~= list);
}

proof fn lemma_statement_lacks(module: Seq<char>, list: Seq<char>, c: char)
    requires
        !module.contains(c),
        !list.contains(c),
        c == '#' || c == '\n',
    ensures
        !("from "@ + module + " import "@ + list).contains(c),
{
    reveal_strlit("from ");
    reveal_strlit(" import ");
    let s = "from "@ + module + " import "@ + list;
    if s.contains(c) {
        let k = choose|k: int| 0 <= k < s.len() && s[k] == c;
        let n = 5 + module.len();
        if k < 5 {
            assert("from "@[k] == c);
        } else if k < n {
            assert(module[k - 5] == c);
        } else if k < n + 8 {
            assert(" import "@[k - n] == c);
        } else {
            assert(list[k - n - 8] == c);
        }
    }
}

proof fn lemma_wrapped_lacks(list: Seq<char>, c: char)
    requires
        !list.contains(c),
        c == '#' || c == '\n',
    ensures
        !("("@ + list + ")"@).contains(c),
{
    reveal_strlit("(");
    reveal_strlit(")");
    let s = "("@ + list + ")"@;
    if s.contains(c) {
        let k = choose|k: int| 0 <= k < s.len() && s[k] == c;
        if 0 < k && k < list.len() + 1 {
            assert(list[k - 1] == c);
        }
    }
}

/// A plain `import` binds the root of each path it names, or the alias given, and
/// nothing else.
pub proof fn imports_bind_the_root_or_the_alias(items: Seq<Imported>)
    requires
        items.len() > 0,
        forall|i: int| 0 <= i < items.len() ==> well_imported(#[trigger] items[i]),
        items[0].before.len() == 0,
        items.last().after.len() == 0,
    ensures
        names_bound("import "@ + import_list(items)) == called(items, true),
{
    reveal_strlit("import ");
    reveal_strlit("from ");
    reveal_strlit("__all__");
    let list = import_list(items);
    lemma_import_list(items);
    lemma_list_binds(items, true);
    let raw = "import "@ + list;
    assert forall|c: char| c == '#' || c == '\n' implies !#[trigger] raw.contains(c) by {
        if raw.contains(c) {
            let k = choose|k: int| 0 <= k < raw.len() && raw[k] == c;
            if k < 7 {
                assert("import "@[k] == c);
            } else {
                assert(list[k - 7] == c);
            }
        }
    }
    assert(raw[0] == 'i');
    assert(raw.last() == list.last());
    text::lemma_trimmed(raw);
    lemma_code_line(raw);
    assert(raw.take(7)[0] == raw[0]);
    assert(raw.take(5)[0] == raw[0]);
    assert(raw.take(7) =~= "import "@);
    assert(raw.skip(7) =~= list);
}

/// A bracketed import list that goes on over several lines binds what each of them
/// names until the bracket closes.
pub proof fn bracketed_imports_may_span_lines(
    lines: Seq<Seq<char>>,
    k: int,
    module: Seq<char>,
    items: Seq<Imported>,
    comma: bool,
    name: Seq<char>,
)
    requires
        0 < k < lines.len(),
        forall|j: int| 0 <= j < lines.len() ==> text::is_line(#[trigger] lines[j]),
        lines.last().len() > 0,
        !module.contains(' '),
        !module.contains('#'),
        lines[0] == "from "@ + module + " import ("@,
        forall|j: int| 0 < j < k ==> !(#[trigger] lines[j]).contains(')'),
        items.len() > 0,
        forall|i: int| 0 <= i < items.len() ==> well_imported(#[trigger] items[i]),
        lines[k] == import_list(items) + (if comma {
            ","@
        } else {
            ""@
        }),
        called(items, false).contains(name),
    ensures
        names_bound(text::join_spec(lines, "\n"@)).contains(name),
{
    text::lines_read_back(lines);
    lemma_bracket_opens(module, lines[0]);
    assert(bound_lines(lines, 0) == (BoundView { names: Set::empty(), open: Open::Nothing }));
    assert(bound_lines(lines, 1) == bound_line(bound_lines(lines, 0), lines[0]));
    lemma_bracket_stays_open(lines, k);
    lemma_bracket_line(items, comma, lines[k]);
    lemma_lacking(lines[k], '#');
    assert(bound_lines(lines, k + 1).names.contains(name));
    lemma_bound_grows(lines, k + 1, lines.len() as int);
}

proof fn lemma_bracket_opens(module: Seq<char>, raw: Seq<char>)
    requires
        !module.contains(' '),
        !module.contains('#'),
        raw == "from "@ + module + " import ("@,
    ensures
        bound_line(BoundView { names: Set::empty(), open: Open::Nothing }, raw).open
            == Open::Bracket,
{
    reveal_strlit("from ");
    reveal_strlit(" import (");
    reveal_strlit(" import ");
    reveal_strlit("(");
    reveal_strlit("__all__");
    assert(raw[0] == 'f');
    assert(raw =~= "from "@ + module + " import "@ + "("@);
    lemma_statement_lacks(module, "("@, '#');
    assert(raw.last() == '(');
    text::lemma_trimmed(raw);
    lemma_closed_line(BoundView { names: Set::empty(), open: Open::Nothing }, raw);
    assert(raw.take(7)[0] == raw[0]);
    lemma_from_statement(module, "("@);
    text::lemma_trimmed("("@);
    assert("("@.take(1) =~= "("@);
    text::lemma_first_index_is("("@, not_open_paren(), 1);
    assert("("@.skip(1) =~= Seq::<char>::empty());
}

/// A line within the brackets of an import list binds what it names.
proof fn lemma_bracket_line(items: Seq<Imported>, comma: bool, line: Seq<char>)
    requires
        items.len() > 0,
        forall|i: int| 0 <= i < items.len() ==> well_imported(#[trigger] items[i]),
        line == import_list(items) + (if comma {
            ","@
        } else {
            ""@
        }),
    ensures
        !line.contains('#'),
        called(items, false).subset_of(bound_in_bracket(line).names),
{
    reveal_strlit(",");
    reveal_strlit("");
    let named = import_list(items);
    lemma_import_list(items);
    lemma_list_binds(items, false);
    assert forall|c: char| c == '#' || c == ')' implies !#[trigger] line.contains(c) by {
        if line.contains(c) {
            let i = choose|i: int| 0 <= i < line.len() && line[i] == c;
            if i < named.len() {
                assert(named[i] == c);
            }
        }
    }
    lemma_lacking(line, ')');
    if comma {
        let e = Seq::<char>::empty();
        assert(line =~= named + seq![','] + e);
        text::lemma_split_at(named, ',', e, text::eq_char(','));
        text::lemma_split_none(e, text::eq_char(','));
        let parts = items.map_values(import_text());
        let all = text::split_spec(line, text::eq_char(','));
        assert(all =~= parts.push(e));
        lemma_same_bindings(parts, all, false, parts.len() as int);
        lemma_called(items, false, items.len() as int);
        assert(items.take(items.len() as int) =~= items);
    } else {
        assert(line =~= named);
    }
}

/// A text that lacks a character is all before it.
proof fn lemma_lacking(s: Seq<char>, c: char)
    requires
        !s.contains(c),
    ensures
        s.take(text::first_index(s, text::eq_char(c))) == s,
{
    assert forall|j: int| 0 <= j < s.len() implies !text::eq_char(c)(#[trigger] s[j]) by {
        assert(s.contains(s[j]));
    }
    text::lemma_first_index_is(s, text::eq_char(c), s.len() as int);
    assert(s.take(s.len() as int) =~= s);
}

proof fn lemma_same_bindings(a: Seq<Seq<char>>, b: Seq<Seq<char>>, top: bool, k: int)
    requires
        0 <= k <= a.len() <= b.len(),
        forall|i: int| 0 <= i < a.len() ==> #[trigger] a[i] == b[i],
    ensures
        bound_by_all(a, top, k) == bound_by_all(b, top, k),
        bound_by_all(b, top, k).subset_of(bound_by_all(b, top, b.len() as int)),
    decreases k,
{
    if k > 0 {
        lemma_same_bindings(a, b, top, k - 1);
        assert(a[k - 1] == b[k - 1]);
    }
    lemma_bindings_grow(b, top, k, b.len() as int);
}

proof fn lemma_bindings_grow(b: Seq<Seq<char>>, top: bool, k: int, n: int)
    requires
        k <= n,
    ensures
        bound_by_all(b, top, k).subset_of(bound_by_all(b, top, n)),
    decreases n,
{
    if 0 < n && k < n {
        lemma_bindings_grow(b, top, k, n - 1);
    }
}

proof fn lemma_bracket_stays_open(lines: Seq<Seq<char>>, k: int)
    requires
        0 < k <= lines.len(),
        bound_lines(lines, 1).open == Open::Bracket,
        forall|j: int| 0 < j < k ==> !(#[trigger] lines[j]).contains(')'),
    ensures
        bound_lines(lines, k).open == Open::Bracket,
    decreases k,
{
    if k > 1 {
        lemma_bracket_stays_open(lines, k - 1);
        let raw = lines[k - 1];
        assert(!raw.contains(')'));
        text::lemma_first_index(raw, text::eq_char('#'));
        let code = raw.take(text::first_index(raw, text::eq_char('#')));
        lemma_part_holds(raw, code, ')');
    }
}

/// A definition at column zero binds the name it gives, and so does an assignment,
/// with or without an annotation.
pub proof fn definitions_bind_their_name(name: Seq<char>, rest: Seq<char>)
    requires
        plain_word(name),
        rest.len() > 0,
        !is_word_char(rest[0]),
        !rest.contains('#'),
        !rest.contains('\n'),
        !text::is_space(rest.last()),
    ensures
        names_bound("def "@ + name + rest).contains(name),
        names_bound("class "@ + name + rest).contains(name),
        names_bound("async def "@ + name + rest).contains(name),
{
    reveal_strlit("def ");
    reveal_strlit("class ");
    reveal_strlit("async def ");
    lemma_definition("def "@, name, rest);
    lemma_definition("class "@, name, rest);
    lemma_definition("async def "@, name, rest);
}

proof fn lemma_definition(keyword: Seq<char>, name: Seq<char>, rest: Seq<char>)
    requires
        keyword == "def "@ || keyword == "class "@ || keyword == "async def "@,
        plain_word(name),
        rest.len() > 0,
        !is_word_char(rest[0]),
        !rest.contains('#'),
        !rest.contains('\n'),
        !text::is_space(rest.last()),
    ensures
        names_bound(keyword + name + rest).contains(name),
{
    reveal_strlit("def ");
    reveal_strlit("class ");
    reveal_strlit("async def ");
    reveal_strlit("from ");
    reveal_strlit("import ");
    reveal_strlit("__all__");
    let raw = keyword + name + rest;
    let n = keyword.len() as int;
    assert forall|c: char| c == '#' || c == '\n' implies !#[trigger] raw.contains(c) by {
        if raw.contains(c) {
            let k = choose|k: int| 0 <= k < raw.len() && raw[k] == c;
            if k < n {
                assert(keyword[k] == c);
            } else if k < n + name.len() {
                assert(name[k - n] == c);
                assert(is_word_char(name[k - n]));
                lemma_marks_are_no_words(c);
            } else {
                assert(rest[k - n - name.len()] == c);
            }
        }
    }
    assert(raw[0] == keyword[0]);
    assert(raw.last() == rest.last());
    text::lemma_trimmed(raw);
    lemma_code_line(raw);
    assert(raw.take(n) =~= keyword);
    if raw.len() >= 7 {
        assert(raw.take(7)[0] == raw[0]);
    }
    assert(raw.take(5)[0] == raw[0]);
    let tail = raw.skip(n);
    assert(tail =~= name + rest);
    assert forall|j: int| 0 <= j < name.len() implies !not_word()(#[trigger] tail[j]) by {
        assert(tail[j] == name[j]);
    }
    assert(tail[name.len() as int] == rest[0]);
    text::lemma_first_index_is(tail, not_word(), name.len() as int);
    assert(tail.take(name.len() as int) =~= name);
    assert(defined_by(raw, keyword).contains(name));
}

/// A text that begins with a word that no blank or colon ends: the word is the
/// front of its first name.
proof fn lemma_first_name(name: Seq<char>, rest: Seq<char>, word: Seq<char>)
    requires
        rest.len() > 0,
        rest[0] == ' ' || rest[0] == ':',
        forall|i: int| 0 <= i < word.len() ==> (#[trigger] word[i]) != ' ' && word[i] != ':',
        text::starts(name + rest, word),
    ensures
        word.len() <= name.len(),
        name.take(word.len() as int) == word,
{
    let raw = name + rest;
    if word.len() > name.len() {
        assert(raw.take(word.len() as int)[name.len() as int] == raw[name.len() as int]);
        assert(word[name.len() as int] == rest[0]);
    }
    assert(name.take(word.len() as int) =~= raw.take(word.len() as int));
}

/// A statement that begins with a name other than a keyword is neither an import
/// nor an export.
proof fn lemma_no_keyword(name: Seq<char>, rest: Seq<char>)
    requires
        plain_word(name),
        rest.len() > 0,
        rest[0] == ' ' || rest[0] == ':',
        name != "from"@,
        name != "import"@,
        !"__all__"@.is_prefix_of(name),
    ensures
        !text::starts(name + rest, "from "@),
        !text::starts(name + rest, "import "@),
        !text::starts(name + rest, "__all__"@),
{
    reveal_strlit("from");
    reveal_strlit("from ");
    reveal_strlit("import");
    reveal_strlit("import ");
    reveal_strlit("__all__");
    let raw = name + rest;
    if text::starts(raw, "__all__"@) {
        lemma_first_name(name, rest, "__all__"@);
        assert(name.subrange(0, 7) =~= name.take(7));
    }
    if text::starts(raw, "from "@) {
        assert("from "@.take(4) =~= "from"@);
        assert(raw.take(4) =~= raw.take(5).take(4));
        lemma_first_name(name, rest, "from"@);
        assert(raw[4] == raw.take(5)[4]);
        if name.len() > 4 {
            assert(raw[4] == name[4]);
            assert(!text::is_space(name[4]));
        }
        assert(name =~= name.take(4));
    }
    if text::starts(raw, "import "@) {
        assert("import "@.take(6) =~= "import"@);
        assert(raw.take(6) =~= raw.take(7).take(6));
        lemma_first_name(name, rest, "import"@);
        assert(raw[6] == raw.take(7)[6]);
        if name.len() > 6 {
            assert(raw[6] == name[6]);
            assert(!text::is_space(name[6]));
        }
        assert(name =~= name.take(6));
    }
}

/// An assignment at column zero binds its target, with or without an annotation.
pub proof fn assignments_bind_their_target(name: Seq<char>, note: Seq<char>, value: Seq<char>)
    requires
        plain_word(name),
        note.len() > 0 ==> note[0] == ':',
        !note.contains('=') && !note.contains('#') && !note.contains('\n') && !note.contains(','),
        value.len() > 0,
        value[0] != '=',
        !value.contains('#'),
        !value.contains('\n'),
        !text::is_space(value.last()),
        name != "from"@,
        name != "import"@,
        !"__all__"@.is_prefix_of(name),
    ensures
        names_bound(name + note + " ="@ + value).contains(name),
{
    reveal_strlit(" =");
    let raw = name + note + " ="@ + value;
    let head = name + note + seq![' '];
    let rest = note + " ="@ + value;
    assert(raw =~= name + rest);
    assert(rest[0] == ' ' || rest[0] == ':');
    lemma_no_keyword(name, rest);
    assert forall|c: char| c == '#' || c == '\n' implies !#[trigger] raw.contains(c) by {
        if raw.contains(c) {
            let k = choose|k: int| 0 <= k < raw.len() && raw[k] == c;
            let n = name.len();
            let m = n + note.len();
            if k < n {
                assert(name[k] == c);
                assert(is_word_char(name[k]));
                lemma_marks_are_no_words(c);
            } else if k < m {
                assert(note[k - n] == c);
            } else if k >= m + 2 {
                assert(value[k - m - 2] == c);
            }
        }
    }
    assert(raw[0] == name[0]);
    assert(raw.last() == value.last());
    text::lemma_trimmed(raw);
    lemma_code_line(raw);
    let i = head.len() as int;
    assert forall|j: int| 0 <= j < i implies !text::eq_char('=')(#[trigger] raw[j]) by {
        if j < name.len() {
            assert(raw[j] == name[j]);
        } else if j < name.len() + note.len() {
            assert(raw[j] == note[j - name.len()]);
            assert(note.contains(note[j - name.len()]));
        }
    }
    assert(raw[i] == '=');
    text::lemma_first_index_is(raw, text::eq_char('='), i);
    assert(raw[i - 1] == ' ');
    assert(raw[i + 1] == value[0]);
    assert(raw.take(i) =~= head);
    assert forall|j: int| 0 <= j < head.len() implies !text::eq_char(',')(#[trigger] head[j]) by {
        if j < name.len() {
            assert(head[j] == name[j]);
            lemma_marks_are_no_words(name[j]);
        } else if j < name.len() + note.len() {
            assert(head[j] == note[j - name.len()]);
            assert(note.contains(note[j - name.len()]));
        }
    }
    text::lemma_split_none(head, text::eq_char(','));
    let targets = text::split_spec(head, text::eq_char(','));
    assert(targets.len() == 1 && targets[0] == head);
    // The target is what stands before the annotation.
    assert forall|j: int| 0 <= j < name.len() implies !text::eq_char(':')(#[trigger] head[j]) by {
        assert(head[j] == name[j]);
    }
    assert(name.last() == name[name.len() - 1]);
    text::lemma_trimmed(name);
    if note.len() > 0 {
        assert(head[name.len() as int] == ':');
        text::lemma_first_index_is(head, text::eq_char(':'), name.len() as int);
        assert(head.take(name.len() as int) =~= name);
    } else {
        assert(head =~= name.push(' '));
        text::lemma_first_index_is(head, text::eq_char(':'), head.len() as int);
        assert(head.take(head.len() as int) =~= head);
        text::lemma_trim_ends(name, ' ');
    }
    assert(target_name(targets[0]) == name);
    reveal_with_fuel(assigned, 2);
    assert(assigned(targets, 1).contains(name));
    assert(bound_by_assignment(raw).contains(name));
}

/// Code that is indented, comments and empty lines bind nothing: a name that a
/// function's body binds is no attribute of the module.
pub proof fn only_code_at_column_zero_binds(lines: Seq<Seq<char>>)
    requires
        forall|j: int| 0 <= j < lines.len() ==> text::is_line(#[trigger] lines[j]),
        lines.len() > 0 ==> lines.last().len() > 0,
        forall|j: int|
            0 <= j < lines.len() ==> (#[trigger] lines[j]).len() == 0 || lines[j][0] == ' '
                || lines[j][0] == '\t' || lines[j][0] == '#',
    ensures
        names_bound(text::join_spec(lines, "\n"@)) == Set::<Seq<char>>::empty(),
{
    text::lines_read_back(lines);
    lemma_nothing_bound(lines, lines.len() as int);
}

proof fn lemma_nothing_bound(lines: Seq<Seq<char>>, n: int)
    requires
        0 <= n <= lines.len(),
        forall|j: int|
            0 <= j < lines.len() ==> (#[trigger] lines[j]).len() == 0 || lines[j][0] == ' '
                || lines[j][0] == '\t' || lines[j][0] == '#',
    ensures
        bound_lines(lines, n) == (BoundView { names: Set::empty(), open: Open::Nothing }),
    decreases n,
{
    if n > 0 {
        lemma_nothing_bound(lines, n - 1);
        let raw = lines[n - 1];
        text::lemma_first_index(raw, text::eq_char('#'));
        if raw.len() > 0 && raw[0] == '#' {
            text::lemma_first_index_is(raw, text::eq_char('#'), 0);
        }
        assert(bound_lines(lines, n).names =~= Set::<Seq<char>>::empty());
    }
}

/// What a line binds by itself it binds wherever it stands, so long as no list is
/// left open before it.
pub proof fn statements_bind_wherever_they_stand(lines: Seq<Seq<char>>, k: int)
    requires
        0 <= k < lines.len(),
        forall|j: int| 0 <= j < lines.len() ==> text::is_line(#[trigger] lines[j]),
        lines.last().len() > 0,
        lines[k].len() > 0,
        forall|j: int|
            0 <= j < k ==> !(#[trigger] lines[j]).contains('(') && !lines[j].contains('\\')
                && !"__all__"@.is_prefix_of(lines[j]),
    ensures
        names_bound(lines[k]).subset_of(names_bound(text::join_spec(lines, "\n"@))),
{
    text::lines_read_back(lines);
    lemma_nothing_open(lines, k);
    assert(text::is_line(lines[k]));
    lemma_names_of_line(lines[k]);
    assert(bound_lines(lines, k + 1) == bound_line(bound_lines(lines, k), lines[k]));
    lemma_bound_grows(lines, k + 1, lines.len() as int);
}

proof fn lemma_nothing_open(lines: Seq<Seq<char>>, k: int)
    requires
        0 <= k <= lines.len(),
        forall|j: int|
            0 <= j < k ==> !(#[trigger] lines[j]).contains('(') && !lines[j].contains('\\')
                && !"__all__"@.is_prefix_of(lines[j]),
    ensures
        bound_lines(lines, k).open == Open::Nothing,
    decreases k,
{
    if k > 0 {
        lemma_nothing_open(lines, k - 1);
        lemma_line_stays_closed(bound_lines(lines, k - 1), lines[k - 1]);
    }
}

proof fn lemma_line_stays_closed(st: BoundView, raw: Seq<char>)
    requires
        st.open == Open::Nothing,
        !raw.contains('('),
        !raw.contains('\\'),
        !"__all__"@.is_prefix_of(raw),
    ensures
        bound_line(st, raw).open == Open::Nothing,
{
    reveal_strlit("__all__");
    reveal_strlit("(");
    reveal_strlit("\\");
    text::lemma_first_index(raw, text::eq_char('#'));
    let code = raw.take(text::first_index(raw, text::eq_char('#')));
    let line = text::trim_end_spec(code);
    text::lemma_last_index(code, text::not_space());
    assert(line == code.take(text::last_index(code, text::not_space())));
    assert(line =~= raw.take(line.len() as int));
    lemma_part_holds(raw, line, '(');
    lemma_part_holds(raw, line, '\\');
    if text::starts(line, "__all__"@) {
        assert(raw.subrange(0, 7) =~= line.take(7));
    }
    if text::starts(line, "from "@) {
        let rest = line.skip("from "@.len() as int);
        if let Some(list) = imported_list(rest) {
            lemma_list_is_an_end(line, rest, list);
            let t = text::trim_spec(list);
            lemma_trim_is_a_part(list);
            if text::starts(t, "("@) {
                assert(t.take(1)[0] == '(');
                lemma_inner_holds(list, t, '(');
            }
            if text::ends(t, "\\"@) {
                assert(t.skip(t.len() - 1)[0] == '\\');
                lemma_inner_holds(list, t, '\\');
            }
        }
    }
}

/// What a part of a text lacks when the text does.
proof fn lemma_inner_holds(s: Seq<char>, t: Seq<char>, c: char)
    requires
        !s.contains(c),
        exists|a: int, b: int| 0 <= a <= b <= s.len() && t == #[trigger] s.subrange(a, b),
    ensures
        !t.contains(c),
{
    let (a, b) = choose|a: int, b: int|
        0 <= a <= b <= s.len() && t == #[trigger] s.subrange(a, b);
    if t.contains(c) {
        let k = choose|k: int| 0 <= k < t.len() && t[k] == c;
        assert(s[a + k] == c);
    }
}

proof fn lemma_trim_is_a_part(s: Seq<char>)
    ensures
        exists|a: int, b: int|
            0 <= a <= b <= s.len() && text::trim_spec(s) == #[trigger] s.subrange(a, b),
{
    text::lemma_first_index(s, text::not_space());
    let a = text::first_index(s, text::not_space());
    let u = s.skip(a);
    text::lemma_last_index(u, text::not_space());
    let n = text::last_index(u, text::not_space());
    assert(text::trim_spec(s) =~= s.subrange(a, a + n));
}

proof fn lemma_list_is_an_end(line: Seq<char>, rest: Seq<char>, list: Seq<char>)
    requires
        text::starts(line, "from "@),
        rest == line.skip("from "@.len() as int),
        imported_list(rest) == Some(list),
        !line.contains('('),
        !line.contains('\\'),
    ensures
        !list.contains('('),
        !list.contains('\\'),
{
    reveal_strlit(" import ");
    reveal_strlit(" import(");
    reveal_strlit(" import");
    reveal_strlit("from ");
    text::the_first_occurrence_is_found(rest, " import "@);
    text::the_first_occurrence_is_found(rest, " import("@);
    assert forall|c: char| c == '(' || c == '\\' implies !#[trigger] list.contains(c) by {
        if list.contains(c) {
            let k = choose|k: int| 0 <= k < list.len() && list[k] == c;
            let d = rest.len() - list.len();
            assert(rest[d + k] == c);
            assert(line[5 + d + k] == c);
        }
    }
}

/// A module whose source defines `__getattr__`, at any indentation, is one whose
/// attributes cannot be told, and no other is.
pub proof fn modules_that_define_getattr_are_dynamic(lines: Seq<Seq<char>>)
    requires
        forall|j: int| 0 <= j < lines.len() ==> text::is_line(#[trigger] lines[j]),
        lines.len() > 0 ==> lines.last().len() > 0,
    ensures
        is_dynamic(text::join_spec(lines, "\n"@)) <==> exists|i: int, k: int|
            0 <= i < lines.len() && 0 <= k <= lines[i].len() && (forall|j: int|
                0 <= j < k ==> text::is_space(#[trigger] lines[i][j])) && (
            "def __getattr__"@.is_prefix_of(#[trigger] lines[i].skip(k))
                || "__getattr__ ="@.is_prefix_of(lines[i].skip(k))),
{
    reveal_strlit("def __getattr__");
    reveal_strlit("__getattr__ =");
    text::lines_read_back(lines);
    let source = text::join_spec(lines, "\n"@);
    if is_dynamic(source) {
        let i = choose|i: int|
            0 <= i < text::lines_spec(source).len() && getattr_line(
                #[trigger] text::lines_spec(source)[i],
            );
        let line = lines[i];
        text::lemma_first_index(line, text::not_space());
        let k = text::first_index(line, text::not_space());
        let l = line.skip(k);
        assert(l == text::trim_start_spec(line));
        if text::starts(l, "def __getattr__"@) {
            assert(l.subrange(0, 15) =~= l.take(15));
        } else {
            assert(l.subrange(0, 13) =~= l.take(13));
        }
        assert forall|j: int| 0 <= j < k implies text::is_space(#[trigger] lines[i][j]) by {
            assert(!text::not_space()(line[j]));
        }
    }
    assert forall|i: int, k: int|
        0 <= i < lines.len() && 0 <= k <= lines[i].len() && (forall|j: int|
            0 <= j < k ==> text::is_space(#[trigger] lines[i][j])) && (
        "def __getattr__"@.is_prefix_of(#[trigger] lines[i].skip(k))
            || "__getattr__ ="@.is_prefix_of(lines[i].skip(k))) implies is_dynamic(source) by {
        let line = lines[i];
        let l = line.skip(k);
        if "def __getattr__"@.is_prefix_of(l) {
            assert(l.subrange(0, 15)[0] == l[0]);
            assert(l.take(15) =~= l.subrange(0, 15));
        } else {
            assert(l.subrange(0, 13)[0] == l[0]);
            assert(l.take(13) =~= l.subrange(0, 13));
        }
        assert(line[k] == l[0]);
        text::lemma_first_index_is(line, text::not_space(), k);
        assert(getattr_line(text::lines_spec(source)[i]));
    }
}

/// A package has the submodules beside its own: each package and each source or
/// compiled file of that name, and a directory that is no package never is one.
pub proof fn submodules_are_found_beside_the_module(package: PackageDir, attr: Seq<char>)
    requires
        package.init is None,
    ensures
        status_of(package, attr) is Present <==> exists|i: int|
            0 <= i < package.entries@.len() && match (#[trigger] package.entries@[i]).kind {
                EntryKind::Package => package.entries@[i].name@ == attr,
                EntryKind::File => package.entries@[i].name@ == attr + ".py"@
                    || package.entries@[i].name@ == attr + ".pyi"@ || package.entries@[i].name@
                    == attr + ".pyd"@ || package.entries@[i].name@ == attr + ".so"@,
                EntryKind::Directory => false,
            },
        status_of(package, attr) is Present || status_of(package, attr) is Unknown,
{
    if exists|i: int|
        0 <= i < package.entries@.len() && match (#[trigger] package.entries@[i]).kind {
            EntryKind::Package => package.entries@[i].name@ == attr,
            EntryKind::File => package.entries@[i].name@ == attr + ".py"@
                || package.entries@[i].name@ == attr + ".pyi"@ || package.entries@[i].name@ == attr
                + ".pyd"@ || package.entries@[i].name@ == attr + ".so"@,
            EntryKind::Directory => false,
        } {
        let i = choose|i: int|
            0 <= i < package.entries@.len() && match (#[trigger] package.entries@[i]).kind {
                EntryKind::Package => package.entries@[i].name@ == attr,
                EntryKind::File => package.entries@[i].name@ == attr + ".py"@
                    || package.entries@[i].name@ == attr + ".pyi"@ || package.entries@[i].name@
                    == attr + ".pyd"@ || package.entries@[i].name@ == attr + ".so"@,
                EntryKind::Directory => false,
            };
        assert(provides(package.entries@[i], attr));
    }
}

/// What a package exposes, and so offers in place of a missing attribute: each public
/// name that the module binds, and each public package and source file beside it by
/// its stem.
pub proof fn packages_expose_their_public_names(
    entries: Seq<Entry>,
    init: Seq<char>,
    name: Seq<char>,
)
    requires
        name.len() > 0,
    ensures
        exposed(entries, init).contains(name) <==> name[0] != '_' && (names_bound(init).contains(
            name,
        ) || exists|i: int|
            0 <= i < entries.len() && ((#[trigger] entries[i]).kind == EntryKind::Package
                && entries[i].name@ == name || entries[i].kind == EntryKind::File
                && entries[i].name@ == name + ".py"@)),
{
    let n = entries.len() as int;
    if entry_attributes(entries, n).contains(name) {
        lemma_entry_gives(entries, n, name);
    }
    assert forall|i: int|
        name[0] != '_' && 0 <= i < n && ((#[trigger] entries[i]).kind == EntryKind::Package
            && entries[i].name@ == name || entries[i].kind == EntryKind::File && entries[i].name@
            == name + ".py"@) implies entry_attributes(entries, n).contains(name) by {
        lemma_entry_given(entries, n, i, name);
    }
}

proof fn lemma_entry_gives(entries: Seq<Entry>, n: int, name: Seq<char>)
    requires
        0 <= n <= entries.len(),
        entry_attributes(entries, n).contains(name),
    ensures
        exists|i: int|
            0 <= i < n && ((#[trigger] entries[i]).kind == EntryKind::Package && entries[i].name@
                == name || entries[i].kind == EntryKind::File && entries[i].name@ == name
                + ".py"@),
        name.len() > 0 ==> name[0] != '_',
    decreases n,
{
    if n > 0 {
        let e = entries[n - 1];
        if entry_attribute(e) == Some(name) {
            if e.kind is File {
                let k = e.name@.len() - ".py"@.len();
                assert(e.name@.skip(k) == ".py"@);
                assert(e.name@ =~= e.name@.take(k) + e.name@.skip(k));
            }
        } else {
            lemma_entry_gives(entries, n - 1, name);
        }
    }
}

proof fn lemma_entry_given(entries: Seq<Entry>, n: int, i: int, name: Seq<char>)
    requires
        0 <= i < n <= entries.len(),
        name.len() > 0,
        name[0] != '_',
        entries[i].kind == EntryKind::Package && entries[i].name@ == name || entries[i].kind
            == EntryKind::File && entries[i].name@ == name + ".py"@,
    ensures
        entry_attributes(entries, n).contains(name),
    decreases n,
{
    if i < n - 1 {
        lemma_entry_given(entries, n - 1, i, name);
    } else {
        let e = entries[i];
        assert(e.name@[0] == name[0]);
        if e.kind is File {
            assert(e.name@.skip(name.len() as int) =~= ".py"@);
            assert(e.name@.take(name.len() as int) =~= name);
        }
    }
}

/// An identifier, over ASCII: letters, digits and underscores, the first no digit.
pub proof fn identifiers_begin_with_no_digit(s: Seq<char>)
    requires
        forall|i: int| 0 <= i < s.len() ==> (#[trigger] s[i]) as u32 <= 127,
    ensures
        identifier(s) <==> s.len() > 0 && !('0' <= s[0] <= '9') && forall|i: int|
            0 <= i < s.len() ==> 'a' <= (#[trigger] s[i]) <= 'z' || 'A' <= s[i] <= 'Z' || '0'
                <= s[i] <= '9' || s[i] == '_',
{
    assert forall|i: int| 0 <= i < s.len() implies is_word_char(#[trigger] s[i]) == ('a' <= s[i]
        <= 'z' || 'A' <= s[i] <= 'Z' || '0' <= s[i] <= '9' || s[i] == '_') by {
        assert(text::is_ascii_char(s[i]));
    }
}

} // verus!
