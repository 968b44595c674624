//! Import extraction from Python source.
//!
//! Deliberately a line scanner rather than a parser: only the top-level module of
//! each import and its position in the buffer are needed, on every pause in
//! typing. String state is tracked, because an `import` inside a docstring is
//! not an import; comments are stripped the same way.

use vstd::prelude::*;

use crate::text;

verus! {

/// One imported module, with the buffer range covering the module path.
#[derive(Debug, PartialEq, Eq)]
pub struct ImportRef {
    /// Top-level module: `cv2` from `import cv2.aruco`, `os` from `from os.path import join`.
    pub module: String,
    /// The name the package root is bound to, if the statement binds it: `np`
    /// for `import numpy as np`, nothing for a `from` import.
    pub binding: Option<String>,
    /// Zero-based line number.
    pub line: u32,
    /// Zero-based character offsets covering the module path as written.
    pub start: u32,
    pub end: u32,
}

/// An import, mathematically.
#[verifier::ext_equal]
pub struct ImportRefView {
    pub module: Seq<char>,
    pub binding: Option<Seq<char>>,
    pub line: u32,
    pub start: u32,
    pub end: u32,
}

impl View for ImportRef {
    type V = ImportRefView;

    open spec fn view(&self) -> ImportRefView {
        ImportRefView {
            module: self.module@,
            binding: text::opt_text(self.binding),
            line: self.line,
            start: self.start,
            end: self.end,
        }
    }
}

impl Clone for ImportRef {
    fn clone(&self) -> (r: ImportRef)
        ensures
            r == *self,
    {
        ImportRef {
            module: self.module.clone(),
            binding: text::clone_opt(&self.binding),
            line: self.line,
            start: self.start,
            end: self.end,
        }
    }
}

pub open spec fn import_views(v: Seq<ImportRef>) -> Seq<ImportRefView> {
    Seq::new(v.len(), |i: int| v[i]@)
}

// ---------------------------------------------------------------------------
// Masking strings and comments
// ---------------------------------------------------------------------------

/// The triple-quote delimiter of an open string.
#[derive(Debug, Clone, Copy, PartialEq, Eq, Structural)]
pub enum Quote {
    Double,
    Single,
}

pub open spec fn quote_char(q: Quote) -> char {
    match q {
        Quote::Double => '"',
        Quote::Single => '\'',
    }
}

/// Whether the delimiter stands at position `i`.
pub open spec fn triple_at(s: Seq<char>, i: int, q: Quote) -> bool {
    0 <= i && i + 3 <= s.len() && s[i] == quote_char(q) && s[i + 1] == quote_char(q) && s[i + 2]
        == quote_char(q)
}

/// Where a one-line string ends whose contents start at `i`: behind the closing
/// quote, or at the end of the line. A backslash hides the next character.
pub open spec fn string_end(s: Seq<char>, i: int, quote: char) -> int
    decreases s.len() - i,
{
    if i >= s.len() {
        s.len() as int
    } else if s[i] == '\\' {
        if i + 1 < s.len() {
            string_end(s, i + 2, quote)
        } else {
            s.len() as int
        }
    } else if s[i] == quote {
        i + 1
    } else {
        string_end(s, i + 1, quote)
    }
}

pub open spec fn blanks(n: int) -> Seq<char> {
    Seq::new(
        if n < 0 {
            0
        } else {
            n as nat
        },
        |i: int| ' ',
    )
}

/// The line from position `i` on with strings blanked out and a comment cut off,
/// and the delimiter of the string still open at its end. `open` is the one open
/// at `i`.
pub open spec fn masked(s: Seq<char>, i: int, open: Option<Quote>) -> (Seq<char>, Option<Quote>)
    decreases s.len() - i,
    via masked_decreases
{
    if i >= s.len() {
        (seq![], open)
    } else if open is Some {
        if triple_at(s, i, open->0) {
            let rest = masked(s, i + 3, None);
            (blanks(3) + rest.0, rest.1)
        } else {
            let rest = masked(s, i + 1, open);
            (blanks(1) + rest.0, rest.1)
        }
    } else if triple_at(s, i, Quote::Double) {
        let rest = masked(s, i + 3, Some(Quote::Double));
        (blanks(3) + rest.0, rest.1)
    } else if triple_at(s, i, Quote::Single) {
        let rest = masked(s, i + 3, Some(Quote::Single));
        (blanks(3) + rest.0, rest.1)
    } else if s[i] == '"' || s[i] == '\'' {
        let j = string_end(s, i + 1, s[i]);
        let rest = masked(s, j, None);
        (blanks(j - i) + rest.0, rest.1)
    } else if s[i] == '#' {
        (seq![], None)
    } else {
        let rest = masked(s, i + 1, None);
        (seq![s[i]] + rest.0, rest.1)
    }
}

#[via_fn]
proof fn masked_decreases(s: Seq<char>, i: int, open: Option<Quote>) {
    if i < s.len() {
        lemma_string_end(s, i + 1, s[i]);
    }
}

proof fn lemma_string_end(s: Seq<char>, i: int, quote: char)
    ensures
        i <= s.len() ==> i <= string_end(s, i, quote) <= s.len(),
        i > s.len() ==> string_end(s, i, quote) == s.len(),
    decreases s.len() - i,
{
    if i < s.len() {
        if s[i] == '\\' {
            if i + 1 < s.len() {
                lemma_string_end(s, i + 2, quote);
            }
        } else if s[i] != quote {
            lemma_string_end(s, i + 1, quote);
        }
    }
}

/// Masking never moves code: what is left of a line is no longer than it was, and
/// each position holds what it held, or a blank.
pub proof fn masking_keeps_columns(s: Seq<char>, i: int, open: Option<Quote>)
    requires
        0 <= i <= s.len(),
    ensures
        i + masked(s, i, open).0.len() <= s.len(),
        forall|k: int|
            0 <= k < masked(s, i, open).0.len() ==> (#[trigger] masked(s, i, open).0[k]) == ' '
                || masked(s, i, open).0[k] == s[i + k],
    decreases s.len() - i,
{
    let out = masked(s, i, open).0;
    if i < s.len() {
        if open is Some {
            if triple_at(s, i, open->0) {
                masking_keeps_columns(s, i + 3, None);
                let rest = masked(s, i + 3, None).0;
                assert(forall|k: int| 3 <= k < out.len() ==> #[trigger] out[k] == rest[k - 3]);
            } else {
                masking_keeps_columns(s, i + 1, open);
                let rest = masked(s, i + 1, open).0;
                assert(forall|k: int| 1 <= k < out.len() ==> #[trigger] out[k] == rest[k - 1]);
            }
        } else if triple_at(s, i, Quote::Double) {
            masking_keeps_columns(s, i + 3, Some(Quote::Double));
            let rest = masked(s, i + 3, Some(Quote::Double)).0;
            assert(forall|k: int| 3 <= k < out.len() ==> #[trigger] out[k] == rest[k - 3]);
        } else if triple_at(s, i, Quote::Single) {
            masking_keeps_columns(s, i + 3, Some(Quote::Single));
            let rest = masked(s, i + 3, Some(Quote::Single)).0;
            assert(forall|k: int| 3 <= k < out.len() ==> #[trigger] out[k] == rest[k - 3]);
        } else if s[i] == '"' || s[i] == '\'' {
            lemma_string_end(s, i + 1, s[i]);
            let j = string_end(s, i + 1, s[i]);
            masking_keeps_columns(s, j, None);
            let rest = masked(s, j, None).0;
            assert(forall|k: int| j - i <= k < out.len() ==> #[trigger] out[k] == rest[k - (j - i)]);
        } else if s[i] != '#' {
            masking_keeps_columns(s, i + 1, None);
            let rest = masked(s, i + 1, None).0;
            assert(forall|k: int| 1 <= k < out.len() ==> #[trigger] out[k] == rest[k - 1]);
        }
    }
}

fn starts_with_at(chars: &Vec<char>, i: usize, q: Quote) -> (r: bool)
    requires
        i <= chars@.len(),
    ensures
        r == triple_at(chars@, i as int, q),
{
    let c = match q {
        Quote::Double => '"',
        Quote::Single => '\'',
    };
    chars.len() - i >= 3 && chars[i] == c && chars[i + 1] == c && chars[i + 2] == c
}

fn find_string_end(chars: &Vec<char>, start: usize, quote: char) -> (r: usize)
    requires
        start <= chars@.len(),
    ensures
        start <= r <= chars@.len(),
        r == string_end(chars@, start as int, quote),
{
    let mut i: usize = start;
    while i < chars.len()
        invariant
            start <= i <= chars@.len(),
            string_end(chars@, start as int, quote) == string_end(chars@, i as int, quote),
        decreases chars@.len() - i,
    {
        if chars[i] == '\\' {
            if i + 1 < chars.len() {
                i += 2;
            } else {
                return chars.len();
            }
        } else if chars[i] == quote {
            return i + 1;
        } else {
            i += 1;
        }
    }
    i
}

fn push_blanks(out: &mut String, n: usize)
    ensures
        final(out)@ == old(out)@ + blanks(n as int),
{
    let ghost before = out@;
    let mut k: usize = 0;
    proof {
        assert(before + blanks(0) =~= before);
    }
    while k < n
        invariant
            k <= n,
            out@ == before + blanks(k as int),
        decreases n - k,
    {
        proof {
            assert((before + blanks(k as int)).push(' ') =~= before + blanks(k as int + 1));
        }
        out.push(' ');
        k += 1;
    }
}

/// Blank out string literals and comments so their contents are never scanned.
///
/// Returns the masked line plus the triple-quote delimiter still open at the end
/// of it, if any. Masking preserves length so column positions stay correct.
pub fn strip_strings_and_comments(line: &str, open: Option<Quote>) -> (r: (String, Option<Quote>))
    ensures
        (r.0@, r.1) == masked(line@, 0, open),
{
    let chars = text::chars_of(line);
    let ghost s = line@;
    let ghost whole = masked(s, 0, open);
    let mut out = String::new();
    let mut open_delim = open;
    let mut i: usize = 0;
    proof {
        assert(out@ + whole.0 =~= whole.0);
    }
    while i < chars.len()
        invariant
            i <= chars@.len(),
            chars@ == s,
            s == line@,
            whole == masked(s, 0, open),
            out@ + masked(s, i as int, open_delim).0 == whole.0,
            masked(s, i as int, open_delim).1 == whole.1,
        decreases chars@.len() - i,
    {
        let ghost before = out@;
        if let Some(delim) = open_delim {
            if starts_with_at(&chars, i, delim) {
                push_blanks(&mut out, 3);
                proof {
                    let rest = masked(s, i as int + 3, None).0;
                    assert(before + (blanks(3) + rest) =~= out@ + rest);
                }
                open_delim = None;
                i += 3;
            } else {
                push_blanks(&mut out, 1);
                proof {
                    let rest = masked(s, i as int + 1, open_delim).0;
                    assert(before + (blanks(1) + rest) =~= out@ + rest);
                }
                i += 1;
            }
        } else if starts_with_at(&chars, i, Quote::Double) {
            push_blanks(&mut out, 3);
            proof {
                let rest = masked(s, i as int + 3, Some(Quote::Double)).0;
                assert(before + (blanks(3) + rest) =~= out@ + rest);
            }
            open_delim = Some(Quote::Double);
            i += 3;
        } else if starts_with_at(&chars, i, Quote::Single) {
            push_blanks(&mut out, 3);
            proof {
                let rest = masked(s, i as int + 3, Some(Quote::Single)).0;
                assert(before + (blanks(3) + rest) =~= out@ + rest);
            }
            open_delim = Some(Quote::Single);
            i += 3;
        } else if chars[i] == '"' || chars[i] == '\'' {
            let end = find_string_end(&chars, i + 1, chars[i]);
            push_blanks(&mut out, end - i);
            proof {
                let rest = masked(s, end as int, None).0;
                assert(before + (blanks(end - i) + rest) =~= out@ + rest);
            }
            i = end;
        } else if chars[i] == '#' {
            proof {
                assert(before + seq![] =~= before);
            }
            return (out, None);
        } else {
            out.push(chars[i]);
            proof {
                let rest = masked(s, i as int + 1, None).0;
                assert(before + (seq![s[i as int]] + rest) =~= out@ + rest);
            }
            i += 1;
        }
    }
    proof {
        assert(out@ + seq![] =~= out@);
    }
    (out, open_delim)
}

// ---------------------------------------------------------------------------
// Imports
// ---------------------------------------------------------------------------

pub open spec fn is_word_char(c: char) -> bool {
    text::is_alphanumeric(c) || c == '_'
}

pub open spec fn not_word() -> spec_fn(char) -> bool {
    |c: char| !is_word_char(c)
}

fn word_char(c: char) -> (r: bool)
    ensures
        r == is_word_char(c),
{
    c.is_alphanumeric() || c == '_'
}

/// The identifier characters a text starts with.
pub open spec fn leading_word(s: Seq<char>) -> Seq<char> {
    s.take(text::first_index(s, not_word()))
}

/// The identifier characters `s` starts with, possibly none.
pub fn take_word<'a>(s: &'a str) -> (r: &'a str)
    ensures
        r@ == leading_word(s@),
{
    let i = text::index_where(
        s,
        |c: char| -> (b: bool) ensures b == not_word()(c) { !word_char(c) },
        Ghost(not_word()),
    );
    text::before(s, i)
}

/// A dotted identifier path, and nothing else.
pub open spec fn dotted_name(s: Seq<char>) -> bool {
    &&& s.len() > 0
    &&& forall|i: int| 0 <= i < s.len() ==> is_word_char(#[trigger] s[i]) || s[i] == '.'
    &&& text::is_alphabetic(s[0]) || s[0] == '_'
}

fn is_module_path(s: &str) -> (r: bool)
    ensures
        r == dotted_name(s@),
{
    let chars = text::chars_of(s);
    if chars.len() == 0 {
        return false;
    }
    let mut i: usize = 0;
    while i < chars.len()
        invariant
            i <= chars@.len(),
            chars@ == s@,
            forall|j: int| 0 <= j < i ==> is_word_char(#[trigger] chars@[j]) || chars@[j] == '.',
        decreases chars@.len() - i,
    {
        if !word_char(chars[i]) && chars[i] != '.' {
            proof {
                assert(!is_word_char(s@[i as int]));
            }
            return false;
        }
        i += 1;
    }
    chars[0].is_alphabetic() || chars[0] == '_'
}

/// The first component of a dotted path.
pub open spec fn top_level(path: Seq<char>) -> Seq<char> {
    path.take(text::first_index(path, text::eq_char('.')))
}

pub open spec fn dotted(path: Seq<char>) -> bool {
    text::first_index(path, text::eq_char('.')) < path.len()
}

/// What one clause of an `import` statement binds the package root to.
///
/// `x` binds `x`, `x.y` binds `x`, `x as y` binds `y`; `x.y as z` binds the
/// submodule and not the root.
pub open spec fn root_binding(clause: Seq<char>) -> Option<Seq<char>> {
    let path = text::first_word_spec(clause);
    let rest = text::trim_start_spec(text::trim_start_spec(clause).skip(path.len() as int));
    if text::first_word_spec(rest) == "as"@ {
        let alias = leading_word(text::trim_start_spec(rest.skip("as"@.len() as int)));
        if dotted(path) || alias.len() == 0 {
            None
        } else {
            Some(alias)
        }
    } else {
        Some(top_level(path))
    }
}

proof fn lemma_word_fits(s: Seq<char>)
    ensures
        text::first_word_spec(s).len() <= text::trim_start_spec(s).len(),
        0 <= text::first_index(s, text::not_space()),
        text::first_index(s, text::not_space()) + text::trim_start_spec(s).len() == s.len(),
        text::trim_start_spec(s).take(text::first_word_spec(s).len() as int)
            == text::first_word_spec(s),
{
    text::lemma_first_index(s, text::not_space());
    let t = text::trim_start_spec(s);
    text::lemma_first_index(t, text::space());
    assert(t.take(text::first_word_spec(s).len() as int) =~= text::first_word_spec(s));
}

fn binding_of_clause(clause: &str) -> (r: Option<String>)
    ensures
        text::opt_text(r) == root_binding(clause@),
{
    let trimmed = text::trim_start(clause);
    let path = text::first_word(clause);
    proof {
        lemma_word_fits(clause@);
    }
    let rest = text::trim_start(text::after(trimmed, path.unicode_len()));
    let dot = text::index_of(path, '.');
    if text::same(text::first_word(rest), "as") {
        proof {
            lemma_word_fits(rest@);
            text::lemma_first_index(rest@, text::not_space());
            lemma_trim_start_again(text::trim_start_spec(clause@).skip(path@.len() as int));
        }
        let alias = take_word(text::trim_start(text::after(rest, "as".unicode_len())));
        if dot < path.unicode_len() || alias.unicode_len() == 0 {
            None
        } else {
            Some(alias.to_string())
        }
    } else {
        Some(text::before(path, dot).to_string())
    }
}

/// Trimming a trimmed text changes nothing.
proof fn lemma_trim_start_again(s: Seq<char>)
    ensures
        text::trim_start_spec(text::trim_start_spec(s)) == text::trim_start_spec(s),
{
    let t = text::trim_start_spec(s);
    text::lemma_first_index(s, text::not_space());
    if t.len() > 0 {
        assert(t[0] == s[text::first_index(s, text::not_space())]);
    }
    text::lemma_first_index_is(t, text::not_space(), 0);
    assert(t.skip(0) =~= t);
}

/// The import of `path`, written at column `start`.
pub open spec fn ref_spec(
    path: Seq<char>,
    binding: Option<Seq<char>>,
    line: int,
    start: int,
) -> ImportRefView {
    ImportRefView {
        module: top_level(path),
        binding,
        line: line as u32,
        start: start as u32,
        end: (start + path.len()) as u32,
    }
}

/// The import of one clause of an `import` list, which begins at column `offset`.
pub open spec fn clause_ref(clause: Seq<char>, line: int, offset: int) -> Option<ImportRefView> {
    let path = text::first_word_spec(clause);
    if dotted_name(path) && top_level(path).len() > 0 {
        Some(
            ref_spec(
                path,
                root_binding(clause),
                line,
                offset + text::first_index(clause, text::not_space()),
            ),
        )
    } else {
        None
    }
}

/// How far into the list the `k`th clause begins; one comma stands between two.
pub open spec fn clause_offset(clauses: Seq<Seq<char>>, k: int) -> int
    decreases k,
{
    if k <= 0 {
        0
    } else {
        clause_offset(clauses, k - 1) + clauses[k - 1].len() + 1
    }
}

/// The imports of the first `k` clauses.
pub open spec fn clause_refs(
    clauses: Seq<Seq<char>>,
    line: int,
    base: int,
    k: int,
) -> Seq<ImportRefView>
    decreases k,
{
    if k <= 0 {
        seq![]
    } else {
        let before = clause_refs(clauses, line, base, k - 1);
        match clause_ref(clauses[k - 1], line, base + clause_offset(clauses, k - 1)) {
            Some(r) => before.push(r),
            None => before,
        }
    }
}

/// The import of a `from` statement; relative ones have none.
pub open spec fn from_refs(rest: Seq<char>, line: int, base: int) -> Seq<ImportRefView> {
    let path = text::first_word_spec(rest);
    if dotted_name(path) && top_level(path).len() > 0 {
        seq![ref_spec(path, None, line, base + text::first_index(rest, text::not_space()))]
    } else {
        seq![]
    }
}

/// The imports on one line of masked code.
pub open spec fn line_refs(code: Seq<char>, line: int) -> Seq<ImportRefView> {
    let statement = text::trim_start_spec(code);
    if text::starts(statement, "import "@) {
        let rest = statement.skip("import "@.len() as int);
        let clauses = text::split_spec(rest, text::eq_char(','));
        clause_refs(clauses, line, code.len() - rest.len(), clauses.len() as int)
    } else if text::starts(statement, "from "@) {
        let rest = statement.skip("from "@.len() as int);
        from_refs(rest, line, code.len() - rest.len())
    } else {
        seq![]
    }
}

/// The delimiter open at the start of line `n`.
pub open spec fn open_at(lines: Seq<Seq<char>>, n: int) -> Option<Quote>
    decreases n,
{
    if n <= 0 {
        None
    } else {
        masked(lines[n - 1], 0, open_at(lines, n - 1)).1
    }
}

/// The code on line `n`, with what is no code blanked out.
pub open spec fn code_on(lines: Seq<Seq<char>>, n: int) -> Seq<char> {
    masked(lines[n], 0, open_at(lines, n)).0
}

/// The imports on the first `n` lines.
pub open spec fn refs_to(lines: Seq<Seq<char>>, n: int) -> Seq<ImportRefView>
    decreases n,
{
    if n <= 0 {
        seq![]
    } else {
        refs_to(lines, n - 1) + line_refs(code_on(lines, n - 1), n - 1)
    }
}

/// Every absolute import in a source text.
pub open spec fn imports_of(source: Seq<char>) -> Seq<ImportRefView> {
    let lines = text::lines_spec(source);
    refs_to(lines, lines.len() as int)
}

proof fn lemma_views_push(v: Seq<ImportRef>, r: ImportRef)
    ensures
        import_views(v.push(r)) == import_views(v).push(r@),
{
    assert(import_views(v.push(r)) =~= import_views(v).push(r@));
}

fn push_ref(path: &str, binding: Option<String>, line: usize, start: usize, out: &mut Vec<ImportRef>)
    requires
        start + path@.len() <= usize::MAX,
    ensures
        import_views(final(out)@) == if top_level(path@).len() > 0 {
            import_views(old(out)@).push(
                ref_spec(path@, text::opt_text(binding), line as int, start as int),
            )
        } else {
            import_views(old(out)@)
        },
{
    let top = text::before(path, text::index_of(path, '.'));
    if top.unicode_len() == 0 {
        return;
    }
    let found = ImportRef {
        module: top.to_string(),
        binding,
        line: #[verifier::truncate] (line as u32),
        start: #[verifier::truncate] (start as u32),
        end: #[verifier::truncate] ((start + path.unicode_len()) as u32),
    };
    proof {
        lemma_views_push(out@, found);
    }
    out.push(found);
}

/// The clauses of a list and the commas between them fit in it.
proof fn lemma_clauses_fit(s: Seq<char>, p: spec_fn(char) -> bool, k: int)
    requires
        0 <= k < text::split_spec(s, p).len(),
    ensures
        0 <= clause_offset(text::split_spec(s, p), k),
        clause_offset(text::split_spec(s, p), k) + text::split_spec(s, p)[k].len() <= s.len(),
    decreases s.len(),
{
    text::lemma_first_index(s, p);
    let i = text::first_index(s, p);
    let all = text::split_spec(s, p);
    if i < s.len() && k > 0 {
        let rest = text::split_spec(s.skip(i + 1), p);
        assert(all =~= seq![s.take(i)] + rest);
        lemma_clauses_fit(s.skip(i + 1), p, k - 1);
        assert(all.drop_first() =~= rest);
        lemma_offset_shift(all, rest, k);
        assert(all[k] == rest[k - 1]);
    }
}

proof fn lemma_offset_shift(all: Seq<Seq<char>>, rest: Seq<Seq<char>>, k: int)
    requires
        all.len() > 0,
        all.drop_first() == rest,
        0 < k <= all.len(),
    ensures
        clause_offset(all, k) == all[0].len() + 1 + clause_offset(rest, k - 1),
    decreases k,
{
    if k > 1 {
        lemma_offset_shift(all, rest, k - 1);
        assert(rest[k - 2] == all[k - 1]);
    } else {
        assert(clause_offset(all, 0) == 0);
    }
}

/// `import a.b as x, c` has imports for `a` and `c`.
fn collect_import_list(rest: &str, line: usize, base: usize, out: &mut Vec<ImportRef>)
    requires
        base + rest@.len() <= usize::MAX,
    ensures
        import_views(final(out)@) == import_views(old(out)@) + clause_refs(
            text::split_spec(rest@, text::eq_char(',')),
            line as int,
            base as int,
            text::split_spec(rest@, text::eq_char(',')).len() as int,
        ),
{
    let ghost first = import_views(out@);
    let parts = text::split(rest, ',');
    let ghost clauses = text::split_spec(rest@, text::eq_char(','));
    let mut offset: usize = base;
    let mut i: usize = 0;
    proof {
        assert(first + clause_refs(clauses, line as int, base as int, 0) =~= first);
    }
    while i < parts.len()
        invariant
            i <= parts@.len(),
            text::texts(parts@) == clauses,
            clauses == text::split_spec(rest@, text::eq_char(',')),
            base + rest@.len() <= usize::MAX,
            i < parts@.len() ==> offset == base + clause_offset(clauses, i as int),
            import_views(out@) == first + clause_refs(
                clauses,
                line as int,
                base as int,
                i as int,
            ),
        decreases parts@.len() - i,
    {
        let part = parts[i].as_str();
        proof {
            assert(part@ == clauses[i as int]);
            lemma_clauses_fit(rest@, text::eq_char(','), i as int);
            lemma_word_fits(part@);
            let before = clause_refs(clauses, line as int, base as int, i as int);
            let found = clause_ref(clauses[i as int], line as int, offset as int);
            assert(clause_refs(clauses, line as int, base as int, i as int + 1) == match found {
                Some(r) => before.push(r),
                None => before,
            });
            if found is Some {
                assert(first + before.push(found->0) =~= (first + before).push(found->0));
            }
        }
        let leading = part.unicode_len() - text::trim_start(part).unicode_len();
        let path = text::first_word(part);
        if is_module_path(path) {
            push_ref(path, binding_of_clause(part), line, offset + leading, out);
        }
        if i + 1 < parts.len() {
            proof {
                lemma_clauses_fit(rest@, text::eq_char(','), i as int + 1);
            }
            offset = offset + part.unicode_len() + 1;
        }
        i += 1;
    }
}

/// `from a.b import c` has an import for `a`. Relative imports are skipped.
fn collect_from(rest: &str, line: usize, base: usize, out: &mut Vec<ImportRef>)
    requires
        base + rest@.len() <= usize::MAX,
    ensures
        import_views(final(out)@) == import_views(old(out)@) + from_refs(
            rest@,
            line as int,
            base as int,
        ),
{
    let ghost first = import_views(out@);
    proof {
        lemma_word_fits(rest@);
        assert(first + Seq::<ImportRefView>::empty() =~= first);
    }
    let leading = rest.unicode_len() - text::trim_start(rest).unicode_len();
    let path = text::first_word(rest);
    if !is_module_path(path) {
        return;
    }
    push_ref(path, None, line, base + leading, out);
    proof {
        let r = from_refs(rest@, line as int, base as int);
        if r.len() > 0 {
            assert(first + r =~= first.push(r[0]));
        }
    }
}

/// Extract every absolute import in `source`.
///
/// Relative imports (`from . import x`) are skipped: they name modules inside
/// the project, never a PyPI distribution.
pub fn extract(source: &str) -> (r: Vec<ImportRef>)
    ensures
        import_views(r@) == imports_of(source@),
{
    let lines = text::lines(source);
    let ghost all = text::lines_spec(source@);
    let mut out: Vec<ImportRef> = Vec::new();
    let mut open_delim: Option<Quote> = None;
    let mut i: usize = 0;
    proof {
        assert(import_views(out@) =~= refs_to(all, 0));
    }
    while i < lines.len()
        invariant
            i <= lines@.len(),
            text::texts(lines@) == all,
            open_delim == open_at(all, i as int),
            import_views(out@) == refs_to(all, i as int),
        decreases lines@.len() - i,
    {
        proof {
            assert(all[i as int] == lines@[i as int]@);
        }
        let (code, next) = strip_strings_and_comments(lines[i].as_str(), open_delim);
        open_delim = next;
        let width = code.as_str().unicode_len();
        let statement = text::trim_start(code.as_str());
        proof {
            text::lemma_first_index(code@, text::not_space());
            assert(import_views(out@) + Seq::<ImportRefView>::empty() =~= import_views(out@));
        }
        if let Some(rest) = text::strip_prefix(statement, "import ") {
            collect_import_list(rest, i, width - rest.unicode_len(), &mut out);
        } else if let Some(rest) = text::strip_prefix(statement, "from ") {
            collect_from(rest, i, width - rest.unicode_len(), &mut out);
        }
        i += 1;
    }
    out
}

// ---------------------------------------------------------------------------
// Positions
// ---------------------------------------------------------------------------

/// Whether an import covers, on its line of code, the path whose first component
/// is the module.
pub open spec fn covers_path(code: Seq<char>, r: ImportRefView) -> bool {
    &&& r.start < r.end <= code.len()
    &&& dotted_name(code.subrange(r.start as int, r.end as int))
    &&& r.module == top_level(code.subrange(r.start as int, r.end as int))
}

/// The `k`th clause of a list stands where its offset says.
proof fn lemma_clause_place(rest: Seq<char>, k: int)
    requires
        0 <= k < text::split_spec(rest, text::eq_char(',')).len(),
    ensures
        ({
            let clauses = text::split_spec(rest, text::eq_char(','));
            let at = clause_offset(clauses, k);
            &&& 0 <= at
            &&& at + clauses[k].len() <= rest.len()
            &&& rest.subrange(at, at + clauses[k].len()) == clauses[k]
        }),
    decreases rest.len(),
{
    let p = text::eq_char(',');
    let clauses = text::split_spec(rest, p);
    text::lemma_first_index(rest, p);
    let i = text::first_index(rest, p);
    if i >= rest.len() {
        assert(clauses[0] == rest);
        assert(rest.subrange(0, rest.len() as int) =~= rest);
    } else {
        let first = rest.take(i);
        let after = rest.skip(i + 1);
        let tail = text::split_spec(after, p);
        assert(clauses == seq![first] + tail);
        if k == 0 {
            assert(rest.subrange(0, i) =~= first);
        } else {
            lemma_clause_place(after, k - 1);
            assert(clauses.drop_first() =~= tail);
            lemma_offset_shift(clauses, tail, k);
            assert(clauses[0] == first);
            assert(clauses[k] == tail[k - 1]);
            let at = clause_offset(tail, k - 1);
            assert(rest.subrange(i + 1 + at, i + 1 + at + tail[k - 1].len()) =~= after.subrange(
                at,
                at + tail[k - 1].len(),
            ));
        }
    }
}

/// A path found at the start of a piece of code stands in the code.
proof fn lemma_path_place(
    code: Seq<char>,
    base: int,
    piece: Seq<char>,
    line: int,
    binding: Option<Seq<char>>,
)
    requires
        0 <= base,
        base + piece.len() <= code.len(),
        code.len() <= u32::MAX,
        code.subrange(base, base + piece.len()) == piece,
        dotted_name(text::first_word_spec(piece)),
    ensures
        covers_path(
            code,
            ref_spec(
                text::first_word_spec(piece),
                binding,
                line,
                base + text::first_index(piece, text::not_space()),
            ),
        ),
{
    let path = text::first_word_spec(piece);
    lemma_word_fits(piece);
    let skip = text::first_index(piece, text::not_space());
    let start = base + skip;
    assert(start + path.len() <= code.len());
    assert(code.subrange(start, start + path.len()) =~= path) by {
        assert forall|j: int| 0 <= j < path.len() implies code.subrange(
            start,
            start + path.len(),
        )[j] == #[trigger] path[j] by {
            assert(text::trim_start_spec(piece).take(path.len() as int)[j] == path[j]);
            assert(text::trim_start_spec(piece)[j] == piece[skip + j]);
            assert(code.subrange(base, base + piece.len())[skip + j] == code[base + skip + j]);
        }
    }
}

proof fn lemma_clause_refs_cover(code: Seq<char>, rest: Seq<char>, line: int, k: int, n: int)
    requires
        rest.len() <= code.len(),
        code.len() <= u32::MAX,
        code.skip(code.len() - rest.len()) == rest,
        0 <= k <= text::split_spec(rest, text::eq_char(',')).len(),
        0 <= n < clause_refs(
            text::split_spec(rest, text::eq_char(',')),
            line,
            code.len() - rest.len(),
            k,
        ).len(),
    ensures
        covers_path(
            code,
            clause_refs(
                text::split_spec(rest, text::eq_char(',')),
                line,
                code.len() - rest.len(),
                k,
            )[n],
        ),
    decreases k,
{
    let clauses = text::split_spec(rest, text::eq_char(','));
    let base = code.len() - rest.len();
    if k > 0 {
        let before = clause_refs(clauses, line, base, k - 1);
        if n < before.len() {
            lemma_clause_refs_cover(code, rest, line, k - 1, n);
        } else {
            lemma_clause_place(rest, k - 1);
            let at = clause_offset(clauses, k - 1);
            let piece = clauses[k - 1];
            assert(code.subrange(base + at, base + at + piece.len()) =~= rest.subrange(
                at,
                at + piece.len(),
            )) by {
                assert forall|j: int| 0 <= j < piece.len() implies code.subrange(
                    base + at,
                    base + at + piece.len(),
                )[j] == #[trigger] rest.subrange(at, at + piece.len())[j] by {
                    assert(code.skip(base)[at + j] == rest[at + j]);
                }
            }
            lemma_path_place(code, base + at, piece, line, root_binding(piece));
        }
    }
}

/// Every import of a line of code covers its module path there.
proof fn lemma_line_refs_cover(code: Seq<char>, line: int, n: int)
    requires
        code.len() <= u32::MAX,
        0 <= n < line_refs(code, line).len(),
    ensures
        covers_path(code, line_refs(code, line)[n]),
{
    let statement = text::trim_start_spec(code);
    text::lemma_first_index(code, text::not_space());
    let indent = text::first_index(code, text::not_space());
    if text::starts(statement, "import "@) {
        let rest = statement.skip("import "@.len() as int);
        assert(code.skip(code.len() - rest.len()) =~= rest);
        let clauses = text::split_spec(rest, text::eq_char(','));
        lemma_clause_refs_cover(code, rest, line, clauses.len() as int, n);
    } else {
        let rest = statement.skip("from "@.len() as int);
        let base = code.len() - rest.len();
        assert(code.subrange(base, base + rest.len()) =~= rest);
        lemma_path_place(code, base, rest, line, None);
    }
}

/// Where an editor marks an import, the line as written holds its module path:
/// masking moves nothing, and what is covered is a dotted name that starts with
/// the module.
pub proof fn imports_are_marked_where_they_stand(
    line: Seq<char>,
    open: Option<Quote>,
    number: int,
    n: int,
)
    requires
        line.len() <= u32::MAX,
        0 <= n < line_refs(masked(line, 0, open).0, number).len(),
    ensures
        covers_path(line, line_refs(masked(line, 0, open).0, number)[n]),
{
    let code = masked(line, 0, open).0;
    masking_keeps_columns(line, 0, open);
    lemma_line_refs_cover(code, number, n);
    let r = line_refs(code, number)[n];
    let path = code.subrange(r.start as int, r.end as int);
    assert forall|j: int| 0 <= j < path.len() implies #[trigger] path[j] == line.subrange(
        r.start as int,
        r.end as int,
    )[j] by {
        assert(path[j] == code[r.start + j]);
        assert(is_word_char(path[j]) || path[j] == '.');
        assert(!is_word_char(' '));
        assert(code[r.start + j] == line[0 + (r.start + j)]);
    }
    assert(path =~= line.subrange(r.start as int, r.end as int));
}

// ---------------------------------------------------------------------------
// Attribute uses
// ---------------------------------------------------------------------------

/// One access to an attribute of an imported package, such as `mp.solutions`.
#[derive(Debug, PartialEq, Eq)]
pub struct AttrUse {
    pub attr: String,
    /// Zero-based line number.
    pub line: u32,
    /// Zero-based character offsets covering the access, name and attribute.
    pub start: u32,
    pub end: u32,
}

/// An attribute access, mathematically.
#[verifier::ext_equal]
pub struct AttrUseView {
    pub attr: Seq<char>,
    pub line: u32,
    pub start: u32,
    pub end: u32,
}

impl View for AttrUse {
    type V = AttrUseView;

    open spec fn view(&self) -> AttrUseView {
        AttrUseView { attr: self.attr@, line: self.line, start: self.start, end: self.end }
    }
}

pub open spec fn use_views(v: Seq<AttrUse>) -> Seq<AttrUseView> {
    Seq::new(v.len(), |i: int| v[i]@)
}

/// One past the identifier that begins at `i`.
pub open spec fn word_end(s: Seq<char>, i: int) -> int {
    i + text::first_index(s.skip(i), not_word())
}

/// Whether the identifier at `i` is one of `names`, and no attribute of
/// something else, and an attribute of it is named right behind it.
pub open spec fn accesses(s: Seq<char>, i: int, names: Seq<Seq<char>>) -> bool {
    let j = word_end(s, i);
    &&& names.contains(s.subrange(i, j))
    &&& i == 0 || s[i - 1] != '.'
    &&& j + 1 < s.len() && s[j] == '.'
    &&& is_word_char(s[j + 1]) && !text::is_digit(s[j + 1])
}

/// The accesses to attributes of `names` from position `i` of a line on.
pub open spec fn uses_from(
    s: Seq<char>,
    i: int,
    names: Seq<Seq<char>>,
    line: int,
) -> Seq<AttrUseView>
    decreases s.len() - i,
    via uses_decreases
{
    if i < 0 || i >= s.len() {
        seq![]
    } else if !is_word_char(s[i]) {
        uses_from(s, i + 1, names, line)
    } else if accesses(s, i, names) {
        let j = word_end(s, i);
        let k = word_end(s, j + 1);
        seq![
            AttrUseView {
                attr: s.subrange(j + 1, k),
                line: line as u32,
                start: i as u32,
                end: k as u32,
            },
        ] + uses_from(s, k, names, line)
    } else {
        uses_from(s, word_end(s, i), names, line)
    }
}

#[via_fn]
proof fn uses_decreases(s: Seq<char>, i: int, names: Seq<Seq<char>>, line: int) {
    if 0 <= i < s.len() && is_word_char(s[i]) {
        lemma_word_end(s, i);
        if accesses(s, i, names) {
            lemma_word_end(s, word_end(s, i) + 1);
        }
    }
}

proof fn lemma_word_end(s: Seq<char>, i: int)
    requires
        0 <= i < s.len(),
        is_word_char(s[i]),
    ensures
        i < word_end(s, i) <= s.len(),
{
    text::lemma_first_index(s.skip(i), not_word());
    assert(s.skip(i)[0] == s[i]);
}

/// The accesses on one line of masked code; import statements hold none.
pub open spec fn line_uses(code: Seq<char>, names: Seq<Seq<char>>, line: int) -> Seq<AttrUseView> {
    let statement = text::trim_start_spec(code);
    if text::starts(statement, "import "@) || text::starts(statement, "from "@) {
        seq![]
    } else {
        uses_from(code, 0, names, line)
    }
}

/// The accesses on the first `n` lines.
pub open spec fn uses_to(lines: Seq<Seq<char>>, names: Seq<Seq<char>>, n: int) -> Seq<AttrUseView>
    decreases n,
{
    if n <= 0 {
        seq![]
    } else {
        uses_to(lines, names, n - 1) + line_uses(code_on(lines, n - 1), names, n - 1)
    }
}

/// Every access to an attribute of one of `names` in a source text.
pub open spec fn attr_uses_of(source: Seq<char>, names: Seq<Seq<char>>) -> Seq<AttrUseView> {
    let lines = text::lines_spec(source);
    uses_to(lines, names, lines.len() as int)
}

fn end_of_word(chars: &Vec<char>, i: usize) -> (r: usize)
    requires
        i <= chars@.len(),
    ensures
        i <= r <= chars@.len(),
        r == word_end(chars@, i as int),
{
    text::index_from(
        chars,
        i,
        |c: char| -> (b: bool) ensures b == not_word()(c) { !word_char(c) },
        Ghost(not_word()),
    )
}

fn collect_uses(code: &str, names: &[String], line: usize, out: &mut Vec<AttrUse>)
    ensures
        use_views(final(out)@) == use_views(old(out)@) + uses_from(
            code@,
            0,
            text::texts(names@),
            line as int,
        ),
{
    let ghost known = text::texts(names@);
    let ghost whole = use_views(out@) + uses_from(code@, 0, known, line as int);
    let chars = text::chars_of(code);
    let mut i: usize = 0;
    while i < chars.len()
        invariant
            i <= chars@.len(),
            chars@ == code@,
            known == text::texts(names@),
            use_views(out@) + uses_from(code@, i as int, known, line as int) == whole,
        decreases chars@.len() - i,
    {
        if !word_char(chars[i]) {
            i += 1;
        } else {
            proof {
                lemma_word_end(code@, i as int);
            }
            let j = end_of_word(&chars, i);
            let word = code.substring_char(i, j);
            if text::among(names, word) && (i == 0 || chars[i - 1] != '.') && j < chars.len()
                && j + 1 < chars.len() && chars[j] == '.' && word_char(chars[j + 1]) && !(chars[j
                + 1] >= '0' && chars[j + 1] <= '9') {
                proof {
                    lemma_word_end(code@, j as int + 1);
                }
                let k = end_of_word(&chars, j + 1);
                let found = AttrUse {
                    attr: code.substring_char(j + 1, k).to_string(),
                    line: #[verifier::truncate] (line as u32),
                    start: #[verifier::truncate] (i as u32),
                    end: #[verifier::truncate] (k as u32),
                };
                proof {
                    let rest = uses_from(code@, k as int, known, line as int);
                    assert(uses_from(code@, i as int, known, line as int) == seq![found@] + rest);
                    assert(use_views(out@.push(found)) =~= use_views(out@).push(found@));
                    assert(use_views(out@).push(found@) + rest =~= use_views(out@) + (seq![found@]
                        + rest));
                }
                out.push(found);
                i = k;
            } else {
                i = j;
            }
        }
    }
    proof {
        assert(use_views(out@) + Seq::<AttrUseView>::empty() =~= use_views(out@));
    }
}

/// Every access to a top-level attribute of one of `bindings` in `source`.
///
/// `mp.solutions.hands` is an access to `solutions` of `mp`, and not one to
/// `hands` of anything. Strings, comments and import statements are passed over.
pub fn extract_attr_uses(source: &str, bindings: &[String]) -> (r: Vec<AttrUse>)
    ensures
        use_views(r@) == attr_uses_of(source@, text::texts(bindings@)),
{
    let lines = text::lines(source);
    let ghost all = text::lines_spec(source@);
    let ghost known = text::texts(bindings@);
    let mut out: Vec<AttrUse> = Vec::new();
    let mut open_delim: Option<Quote> = None;
    let mut i: usize = 0;
    proof {
        assert(use_views(out@) =~= uses_to(all, known, 0));
    }
    while i < lines.len()
        invariant
            i <= lines@.len(),
            text::texts(lines@) == all,
            known == text::texts(bindings@),
            open_delim == open_at(all, i as int),
            use_views(out@) == uses_to(all, known, i as int),
        decreases lines@.len() - i,
    {
        proof {
            assert(all[i as int] == lines@[i as int]@);
            assert(use_views(out@) + Seq::<AttrUseView>::empty() =~= use_views(out@));
        }
        let (code, next) = strip_strings_and_comments(lines[i].as_str(), open_delim);
        open_delim = next;
        let statement = text::trim_start(code.as_str());
        if !text::starts_with(statement, "import ") && !text::starts_with(statement, "from ") {
            collect_uses(code.as_str(), bindings, i, &mut out);
        }
        i += 1;
    }
    out
}

/// Whether a piece of a line is code throughout: no quote and no comment stands in it.
pub open spec fn plain_code(s: Seq<char>) -> bool {
    !s.contains('"') && !s.contains('\'') && !s.contains('#')
}

proof fn lemma_plain_masked(s: Seq<char>, t: Seq<char>, i: int)
    requires
        plain_code(s),
        0 <= i <= s.len(),
    ensures
        masked(s + t, i, None).0 == s.skip(i) + masked(s + t, s.len() as int, None).0,
        masked(s + t, i, None).1 == masked(s + t, s.len() as int, None).1,
    decreases s.len() - i,
{
    let all = s + t;
    if i < s.len() {
        assert(all[i] == s[i]);
        assert(s.contains(s[i]));
        lemma_plain_masked(s, t, i + 1);
        let rest = masked(all, i + 1, None);
        assert(masked(all, i, None) == (seq![s[i]] + rest.0, rest.1));
        assert(s.skip(i) =~= seq![s[i]] + s.skip(i + 1));
        assert(seq![s[i]] + (s.skip(i + 1) + masked(all, s.len() as int, None).0) =~= s.skip(i)
            + masked(all, s.len() as int, None).0);
    } else {
        assert(s.skip(i) =~= Seq::<char>::empty());
        assert(s.skip(i) + masked(all, s.len() as int, None).0 =~= masked(
            all,
            s.len() as int,
            None,
        ).0);
    }
}

/// Code is left as it is, and a comment behind it is dropped.
pub proof fn comments_are_dropped(code: Seq<char>, comment: Seq<char>)
    requires
        plain_code(code),
    ensures
        masked(code, 0, None) == (code, None::<Quote>),
        masked(code + seq!['#'] + comment, 0, None) == (code, None::<Quote>),
{
    let e = Seq::<char>::empty();
    lemma_plain_masked(code, e, 0);
    assert(code + e =~= code);
    assert(code.skip(0) =~= code);
    assert(code + e =~= code);
    let t = seq!['#'] + comment;
    let s = code + t;
    assert(code + seq!['#'] + comment =~= s);
    lemma_plain_masked(code, t, 0);
    let n = code.len() as int;
    assert(s[n] == '#');
    assert(masked(s, n, None) == (e, None::<Quote>));
}

/// A string on one line is blanked out, its quotes with it, and the code behind it is
/// read on.
pub proof fn strings_are_blanked(code: Seq<char>, mark: char, body: Seq<char>, rest: Seq<char>)
    requires
        plain_code(code),
        plain_code(rest),
        mark == '"' || mark == '\'',
        body.len() > 0,
        !body.contains(mark),
        !body.contains('\\'),
    ensures
        masked(code + seq![mark] + body + seq![mark] + rest, 0, None) == (code + blanks(
            body.len() as int + 2,
        ) + rest, None::<Quote>),
{
    let t = seq![mark] + body + seq![mark] + rest;
    let s = code + t;
    assert(code + seq![mark] + body + seq![mark] + rest =~= s);
    lemma_plain_masked(code, t, 0);
    let n = code.len() as int;
    let j = n + body.len() + 2;
    assert(s[n] == mark);
    assert(s[n + 1] == body[0]);
    assert(body.contains(body[0]));
    lemma_body_ends(s, n + 1, body, mark);
    assert(string_end(s, n + 1, mark) == j);
    assert(!triple_at(s, n, Quote::Double) && !triple_at(s, n, Quote::Single));
    assert(s.skip(j) =~= rest);
    lemma_tail_masked(s, rest, j);
    assert(masked(s, n, None) == (blanks(j - n) + rest, None::<Quote>));
    assert(code.skip(0) =~= code);
    assert(code + (blanks(j - n) + rest) =~= code + blanks(body.len() as int + 2) + rest);
}

proof fn lemma_body_ends(s: Seq<char>, i: int, body: Seq<char>, mark: char)
    requires
        0 <= i,
        i + body.len() < s.len(),
        forall|k: int| 0 <= k < body.len() ==> s[i + k] == #[trigger] body[k],
        s[i + body.len()] == mark,
        !body.contains(mark),
        !body.contains('\\'),
        mark != '\\',
    ensures
        string_end(s, i, mark) == i + body.len() + 1,
    decreases body.len(),
{
    if body.len() > 0 {
        assert(s[i + 0] == body[0]);
        assert(body.contains(body[0]));
        let rest = body.drop_first();
        assert forall|k: int| 0 <= k < rest.len() implies s[i + 1 + k] == #[trigger] rest[k] by {
            assert(s[i + (k + 1)] == body[k + 1]);
        }
        assert forall|c: char| c == mark || c == '\\' implies !#[trigger] rest.contains(c) by {
            if rest.contains(c) {
                let k = choose|k: int| 0 <= k < rest.len() && rest[k] == c;
                assert(body[k + 1] == c);
            }
        }
        lemma_body_ends(s, i + 1, rest, mark);
    }
}

/// The end of a line that is code throughout.
proof fn lemma_tail_masked(s: Seq<char>, rest: Seq<char>, i: int)
    requires
        plain_code(rest),
        0 <= i <= s.len(),
        s.skip(i) == rest,
    ensures
        masked(s, i, None) == (rest, None::<Quote>),
    decreases s.len() - i,
{
    if i < s.len() {
        assert(rest[0] == s[i]);
        assert(rest.contains(rest[0]));
        let next = rest.drop_first();
        assert forall|c: char| c == '"' || c == '\'' || c == '#' implies !#[trigger] next.contains(
            c,
        ) by {
            if next.contains(c) {
                let k = choose|k: int| 0 <= k < next.len() && next[k] == c;
                assert(rest[k + 1] == c);
            }
        }
        assert(s.skip(i + 1) =~= next);
        lemma_tail_masked(s, next, i + 1);
        assert(seq![s[i]] + next =~= rest);
    } else {
        assert(rest =~= Seq::<char>::empty());
    }
}

/// What stands in a triple-quoted string is blanked out, line by line, until the same
/// three quotes close it.
pub proof fn open_strings_hide_their_lines(line: Seq<char>, q: Quote, i: int)
    requires
        0 <= i <= line.len(),
        forall|k: int| 0 <= k < line.len() ==> (#[trigger] line[k]) != (if q == Quote::Double {
            '"'
        } else {
            '\''
        }),
    ensures
        masked(line, i, Some(q)) == (blanks(line.len() - i), Some(q)),
    decreases line.len() - i,
{
    if i < line.len() {
        assert(line[i] != quote_char(q));
        open_strings_hide_their_lines(line, q, i + 1);
        assert(blanks(1) + blanks(line.len() - i - 1) =~= blanks(line.len() - i));
    } else {
        assert(blanks(line.len() - i) =~= Seq::<char>::empty());
    }
}

/// A name as a module path has them: a letter or an underscore first, no blank, no dot.
pub open spec fn path_part(s: Seq<char>) -> bool {
    &&& s.len() > 0
    &&& text::is_alphabetic(s[0]) || s[0] == '_'
    &&& forall|i: int|
        0 <= i < s.len() ==> is_word_char(#[trigger] s[i]) && !text::is_space(s[i])
}

/// A dotted path: its root, and for a path of more parts what follows the root.
pub open spec fn well_formed_path(root: Seq<char>, rest: Seq<char>) -> bool {
    &&& path_part(root)
    &&& rest.len() > 0 ==> rest[0] == '.'
    &&& forall|i: int|
        0 <= i < rest.len() ==> (is_word_char(#[trigger] rest[i]) || rest[i] == '.')
            && !text::is_space(rest[i])
}

proof fn lemma_path(root: Seq<char>, rest: Seq<char>)
    requires
        well_formed_path(root, rest),
    ensures
        dotted_name(root + rest),
        top_level(root + rest) == root,
        dotted(root + rest) <==> rest.len() > 0,
        forall|i: int| 0 <= i < (root + rest).len() ==> !text::is_space(#[trigger] (root + rest)[i]),
{
    let path = root + rest;
    assert(path[0] == root[0]);
    assert forall|i: int| 0 <= i < path.len() implies (is_word_char(#[trigger] path[i]) || path[i]
        == '.') && !text::is_space(path[i]) by {
        if i < root.len() {
            assert(path[i] == root[i]);
        } else {
            assert(path[i] == rest[i - root.len()]);
        }
    }
    assert forall|i: int| 0 <= i < root.len() implies !text::eq_char('.')(#[trigger] path[i]) by {
        assert(path[i] == root[i]);
        assert(is_word_char(root[i]));
    }
    if rest.len() > 0 {
        assert(path[root.len() as int] == '.');
    }
    text::lemma_first_index_is(path, text::eq_char('.'), root.len() as int);
    assert(path.take(root.len() as int) =~= root);
}

/// The first word of a text that begins with it.
proof fn lemma_first_word(word: Seq<char>, rest: Seq<char>)
    requires
        word.len() > 0,
        forall|i: int| 0 <= i < word.len() ==> !text::is_space(#[trigger] word[i]),
        rest.len() > 0 ==> text::is_space(rest[0]),
    ensures
        text::first_word_spec(word + rest) == word,
        text::trim_start_spec(word + rest) == word + rest,
        text::first_index(word + rest, text::not_space()) == 0,
{
    let s = word + rest;
    assert(s[0] == word[0]);
    text::lemma_first_index_is(s, text::not_space(), 0);
    assert(s.skip(0) =~= s);
    assert forall|i: int| 0 <= i < word.len() implies !text::space()(#[trigger] s[i]) by {
        assert(s[i] == word[i]);
    }
    if rest.len() > 0 {
        assert(s[word.len() as int] == rest[0]);
    }
    text::lemma_first_index_is(s, text::space(), word.len() as int);
    assert(s.take(word.len() as int) =~= word);
}

/// The imports of a line of plain code are those of the source that holds it.
proof fn lemma_refs_kept(lines: Seq<Seq<char>>, k: int, n: int, r: ImportRefView)
    requires
        0 <= k < n <= lines.len(),
        line_refs(code_on(lines, k), k).contains(r),
    ensures
        refs_to(lines, n).contains(r),
    decreases n,
{
    let before = refs_to(lines, n - 1);
    let last = line_refs(code_on(lines, n - 1), n - 1);
    if k < n - 1 {
        lemma_refs_kept(lines, k, n - 1, r);
        let i = choose|i: int| 0 <= i < before.len() && before[i] == r;
        assert((before + last)[i] == r);
    } else {
        let i = choose|i: int| 0 <= i < last.len() && last[i] == r;
        assert((before + last)[before.len() + i] == r);
    }
}

proof fn lemma_nothing_open(lines: Seq<Seq<char>>, n: int)
    requires
        0 <= n <= lines.len(),
        forall|j: int| 0 <= j < n ==> plain_code(#[trigger] lines[j]),
    ensures
        open_at(lines, n) is None,
    decreases n,
{
    if n > 0 {
        lemma_nothing_open(lines, n - 1);
        comments_are_dropped(lines[n - 1], Seq::empty());
    }
}

/// A plain import is found wherever it stands, at any indentation: the root of its
/// path, bound to the root or to the alias, and marked where the path is written.
pub proof fn plain_imports_are_found(
    lines: Seq<Seq<char>>,
    k: int,
    indent: nat,
    root: Seq<char>,
    path: Seq<char>,
    alias: Option<Seq<char>>,
)
    requires
        0 <= k < lines.len() <= u32::MAX,
        forall|j: int| 0 <= j < lines.len() ==> text::is_line(#[trigger] lines[j]),
        lines.last().len() > 0,
        forall|j: int| 0 <= j <= k ==> plain_code(#[trigger] lines[j]),
        well_formed_path(root, path),
        alias matches Some(a) ==> path_part(a),
        lines[k] == blanks(indent as int) + "import "@ + root + path + (match alias {
            Some(a) => " as "@ + a,
            None => seq![],
        }),
        lines[k].len() <= u32::MAX,
    ensures
        imports_of(text::join_spec(lines, "\n"@)).contains(
            ImportRefView {
                module: root,
                binding: match alias {
                    Some(a) => if path.len() > 0 {
                        None
                    } else {
                        Some(a)
                    },
                    None => Some(root),
                },
                line: k as u32,
                start: (indent + 7) as u32,
                end: (indent + 7 + root.len() + path.len()) as u32,
            },
        ),
{
    text::lines_read_back(lines);
    lemma_nothing_open(lines, k);
    comments_are_dropped(lines[k], Seq::empty());
    let tail = match alias {
        Some(a) => " as "@ + a,
        None => seq![],
    };
    assert(lines[k] =~= blanks(indent as int) + ("import "@ + (root + path + tail)));
    lemma_plain_line(indent, root, path, alias, k);
    let found = line_refs(lines[k], k);
    assert(found.contains(found[0]));
    lemma_refs_kept(lines, k, lines.len() as int, found[0]);
}

proof fn lemma_plain_line(
    indent: nat,
    root: Seq<char>,
    path: Seq<char>,
    alias: Option<Seq<char>>,
    k: int,
)
    requires
        well_formed_path(root, path),
        alias matches Some(a) ==> path_part(a),
    ensures
        line_refs(
            blanks(indent as int) + ("import "@ + (root + path + (match alias {
                Some(a) => " as "@ + a,
                None => seq![],
            }))),
            k,
        ) == seq![
            ImportRefView {
                module: root,
                binding: match alias {
                    Some(a) => if path.len() > 0 {
                        None
                    } else {
                        Some(a)
                    },
                    None => Some(root),
                },
                line: k as u32,
                start: (indent + 7) as u32,
                end: (indent + 7 + root.len() + path.len()) as u32,
            },
        ],
{
    reveal_strlit("import ");
    let tail = match alias {
        Some(a) => " as "@ + a,
        None => seq![],
    };
    let clause = root + path + tail;
    let statement = "import "@ + clause;
    let code = blanks(indent as int) + statement;
    assert(statement[0] == 'i');
    lemma_indented(indent, statement);
    assert(statement.take(7) =~= "import "@);
    let rest = statement.skip(7);
    assert(rest =~= clause);
    let base = code.len() - rest.len();
    assert(base == indent + 7);
    lemma_clause_of(root, path, alias, k, base);
    lemma_path(root, path);
    let clauses = text::split_spec(rest, text::eq_char(','));
    assert(clauses == seq![clause]);
    assert(clause_offset(clauses, 0) == 0);
    assert(clause_refs(clauses, k, base, 0) =~= Seq::<ImportRefView>::empty());
    let r = clause_ref(clause, k, base)->0;
    assert(clause_refs(clauses, k, base, 1) =~= seq![r]);
    assert((root + path).len() == root.len() + path.len());
    assert(line_refs(code, k) =~= seq![r]);
}

proof fn lemma_indented(n: nat, statement: Seq<char>)
    requires
        statement.len() > 0,
        !text::is_space(statement[0]),
    ensures
        text::trim_start_spec(blanks(n as int) + statement) == statement,
{
    let code = blanks(n as int) + statement;
    assert(code[n as int] == statement[0]);
    text::lemma_first_index_is(code, text::not_space(), n as int);
    assert(code.skip(n as int) =~= statement);
}

proof fn lemma_clause_of(
    root: Seq<char>,
    path: Seq<char>,
    alias: Option<Seq<char>>,
    line: int,
    base: int,
)
    requires
        well_formed_path(root, path),
        alias matches Some(a) ==> path_part(a),
    ensures
        ({
            let clause = root + path + (match alias {
                Some(a) => " as "@ + a,
                None => seq![],
            });
            &&& text::split_spec(clause, text::eq_char(',')) == seq![clause]
            &&& clause_ref(clause, line, base) == Some(
                ref_spec(
                    root + path,
                    match alias {
                        Some(a) => if path.len() > 0 {
                            None
                        } else {
                            Some(a)
                        },
                        None => Some(root),
                    },
                    line,
                    base,
                ),
            )
        }),
{
    reveal_strlit(" as ");
    reveal_strlit("as");
    let full = root + path;
    let tail = match alias {
        Some(a) => " as "@ + a,
        None => seq![],
    };
    let clause = full + tail;
    assert(clause =~= root + path + tail);
    lemma_path(root, path);
    lemma_first_word(full, tail);
    assert forall|i: int| 0 <= i < clause.len() implies !text::eq_char(',')(#[trigger] clause[i]) by {
        if i < full.len() {
            assert(clause[i] == full[i]);
            assert(is_word_char(full[i]) || full[i] == '.');
        } else if let Some(a) = alias {
            assert(clause[i] == tail[i - full.len()]);
            if i >= full.len() + 4 {
                assert(tail[i - full.len()] == a[i - full.len() - 4]);
                assert(is_word_char(a[i - full.len() - 4]));
            }
        }
    }
    text::lemma_split_none(clause, text::eq_char(','));
    let after = clause.skip(full.len() as int);
    assert(after =~= tail);
    match alias {
        Some(a) => {
            let word = "as"@ + (seq![' '] + a);
            assert(tail =~= seq![' '] + word);
            assert(tail[1] == 'a');
            text::lemma_first_index_is(tail, text::not_space(), 1);
            assert(tail.skip(1) =~= word);
            lemma_first_word("as"@, seq![' '] + a);
            let rest = word.skip(2);
            assert(rest =~= seq![' '] + a);
            assert(rest[1] == a[0]);
            text::lemma_first_index_is(rest, text::not_space(), 1);
            assert(rest.skip(1) =~= a);
            assert forall|i: int| 0 <= i < a.len() implies !not_word()(#[trigger] a[i]) by {
                assert(is_word_char(a[i]));
            }
            text::lemma_first_index_is(a, not_word(), a.len() as int);
            assert(a.take(a.len() as int) =~= a);
        },
        None => {
            let e = Seq::<char>::empty();
            text::lemma_first_index(e, text::not_space());
            assert(text::trim_start_spec(tail) =~= e);
            text::lemma_first_index(e, text::space());
            assert(text::first_word_spec(e).len() == 0);
        },
    }
}

/// A `from` import is found wherever it stands: the root of the path behind the
/// keyword, bound to nothing.
pub proof fn from_imports_are_found(
    lines: Seq<Seq<char>>,
    k: int,
    indent: nat,
    root: Seq<char>,
    path: Seq<char>,
    rest: Seq<char>,
)
    requires
        0 <= k < lines.len() <= u32::MAX,
        forall|j: int| 0 <= j < lines.len() ==> text::is_line(#[trigger] lines[j]),
        lines.last().len() > 0,
        forall|j: int| 0 <= j <= k ==> plain_code(#[trigger] lines[j]),
        well_formed_path(root, path),
        rest.len() > 0 ==> rest[0] == ' ',
        lines[k] == blanks(indent as int) + "from "@ + root + path + rest,
        lines[k].len() <= u32::MAX,
    ensures
        imports_of(text::join_spec(lines, "\n"@)).contains(
            ImportRefView {
                module: root,
                binding: None,
                line: k as u32,
                start: (indent + 5) as u32,
                end: (indent + 5 + root.len() + path.len()) as u32,
            },
        ),
{
    text::lines_read_back(lines);
    lemma_nothing_open(lines, k);
    comments_are_dropped(lines[k], Seq::empty());
    assert(lines[k] =~= blanks(indent as int) + ("from "@ + (root + path + rest)));
    lemma_from_line(indent, root, path, rest, k);
    let found = line_refs(lines[k], k);
    assert(found.contains(found[0]));
    lemma_refs_kept(lines, k, lines.len() as int, found[0]);
}

proof fn lemma_from_line(
    indent: nat,
    root: Seq<char>,
    path: Seq<char>,
    rest: Seq<char>,
    k: int,
)
    requires
        well_formed_path(root, path),
        rest.len() > 0 ==> rest[0] == ' ',
    ensures
        line_refs(blanks(indent as int) + ("from "@ + (root + path + rest)), k) == seq![
            ImportRefView {
                module: root,
                binding: None,
                line: k as u32,
                start: (indent + 5) as u32,
                end: (indent + 5 + root.len() + path.len()) as u32,
            },
        ],
{
    reveal_strlit("import ");
    reveal_strlit("from ");
    let full = root + path;
    let statement = "from "@ + (full + rest);
    let code = blanks(indent as int) + statement;
    assert(statement[0] == 'f');
    lemma_indented(indent, statement);
    assert(statement.take(5) =~= "from "@);
    if statement.len() >= 7 {
        assert(statement.take(7)[0] == 'f');
    }
    assert(statement.skip(5) =~= full + rest);
    lemma_path(root, path);
    lemma_first_word(full, rest);
    let base = code.len() - (full + rest).len();
    assert(base == indent + 5);
    assert(full.len() == root.len() + path.len());
    assert(line_refs(code, k) =~= seq![ref_spec(full, None, k, base)]);
}

/// A relative import names no package.
pub proof fn relative_imports_are_passed_over(rest: Seq<char>, line: int)
    requires
        rest.len() > 0,
        rest[0] == '.',
    ensures
        line_refs("from "@ + rest, line) == Seq::<ImportRefView>::empty(),
{
    reveal_strlit("import ");
    reveal_strlit("from ");
    let s = "from "@ + rest;
    assert(s[0] == 'f');
    text::lemma_first_index_is(s, text::not_space(), 0);
    assert(s.skip(0) =~= s);
    assert(s.take(5) =~= "from "@);
    if s.len() >= 7 {
        assert(s.take(7)[0] == 'f');
    }
    assert(s.skip(5) =~= rest);
    text::lemma_first_index_is(rest, text::not_space(), 0);
    assert(rest.skip(0) =~= rest);
    text::lemma_first_index(rest, text::space());
    let word = text::first_word_spec(rest);
    assert(word =~= rest.take(text::first_index(rest, text::space())));
    if word.len() > 0 {
        assert(word[0] == rest[0]);
    }
}

/// Scanning on from an earlier place misses no access that begins a word.
proof fn lemma_scan_reaches(
    s: Seq<char>,
    i: int,
    p: int,
    names: Seq<Seq<char>>,
    line: int,
    u: AttrUseView,
)
    requires
        0 <= i <= p < s.len(),
        p > 0 ==> !is_word_char(s[p - 1]) && s[p - 1] != '.',
        uses_from(s, p, names, line).contains(u),
    ensures
        uses_from(s, i, names, line).contains(u),
    decreases p - i,
{
    if i < p {
        if !is_word_char(s[i]) {
            lemma_scan_reaches(s, i + 1, p, names, line, u);
        } else {
            lemma_word_stops(s, i, p);
            lemma_word_end(s, i);
            let j = word_end(s, i);
            if accesses(s, i, names) {
                assert(j < p) by {
                    if j == p {
                        assert(s[p] == '.');
                    }
                }
                lemma_word_end(s, j + 1);
                if j + 1 == p {
                    assert(s[p - 1] == '.');
                }
                lemma_word_stops(s, j + 1, p);
                let k = word_end(s, j + 1);
                lemma_scan_reaches(s, k, p, names, line, u);
                let rest = uses_from(s, k, names, line);
                let n = choose|n: int| 0 <= n < rest.len() && rest[n] == u;
                assert(uses_from(s, i, names, line)[n + 1] == u);
            } else {
                lemma_scan_reaches(s, j, p, names, line, u);
            }
        }
    }
}

proof fn lemma_word_stops(s: Seq<char>, i: int, p: int)
    requires
        0 <= i < p < s.len(),
        !is_word_char(s[p - 1]),
    ensures
        word_end(s, i) < p,
{
    let t = s.skip(i);
    text::lemma_first_index(t, not_word());
    let f = text::first_index(t, not_word());
    if i + f >= p {
        assert(t[p - 1 - i] == s[p - 1]);
        assert(!not_word()(t[p - 1 - i]));
    }
}

/// An access to an attribute of a bound name is found, wherever on a line of plain
/// code it stands.
pub proof fn attribute_uses_are_found(
    before: Seq<char>,
    name: Seq<char>,
    attr: Seq<char>,
    after: Seq<char>,
    names: Seq<Seq<char>>,
    line: int,
)
    requires
        before.len() > 0 ==> !is_word_char(before.last()) && before.last() != '.',
        path_part(name),
        path_part(attr),
        !text::is_digit(attr[0]),
        after.len() > 0 ==> !is_word_char(after[0]),
        names.contains(name),
    ensures
        uses_from(before + name + seq!['.'] + attr + after, 0, names, line).contains(
            AttrUseView {
                attr,
                line: line as u32,
                start: before.len() as u32,
                end: (before.len() + name.len() + 1 + attr.len()) as u32,
            },
        ),
{
    let s = before + name + seq!['.'] + attr + after;
    let p = before.len() as int;
    let j = p + name.len();
    let k = j + 1 + attr.len();
    assert(s[p] == name[0]);
    if p > 0 {
        assert(s[p - 1] == before.last());
    }
    lemma_word_is(s, p, name);
    assert(s[j] == '.');
    assert(s[j + 1] == attr[0]);
    lemma_word_is(s, j + 1, attr);
    assert(s.subrange(p, j) =~= name);
    assert(s.subrange(j + 1, k) =~= attr);
    assert(is_word_char(name[0]) && is_word_char(attr[0]));
    assert(accesses(s, p, names));
    let u = AttrUseView { attr, line: line as u32, start: p as u32, end: k as u32 };
    assert(uses_from(s, p, names, line)[0] == u);
    lemma_scan_reaches(s, 0, p, names, line, u);
}

proof fn lemma_word_is(s: Seq<char>, i: int, word: Seq<char>)
    requires
        0 <= i,
        i + word.len() <= s.len(),
        forall|k: int| 0 <= k < word.len() ==> s[i + k] == #[trigger] word[k],
        forall|k: int| 0 <= k < word.len() ==> is_word_char(#[trigger] word[k]),
        i + word.len() < s.len() ==> !is_word_char(s[i + word.len()]),
    ensures
        word_end(s, i) == i + word.len(),
{
    let t = s.skip(i);
    assert forall|k: int| 0 <= k < word.len() implies !not_word()(#[trigger] t[k]) by {
        assert(t[k] == s[i + k]);
        assert(s[i + k] == word[k]);
    }
    text::lemma_first_index_is(t, not_word(), word.len() as int);
}

/// An import list goes on behind a comma: what stood there before is found as before,
/// and the import that is added is found too, behind the rest.
pub proof fn every_import_of_a_list_is_found(
    first: Seq<char>,
    root: Seq<char>,
    path: Seq<char>,
    alias: Option<Seq<char>>,
    k: int,
)
    requires
        well_formed_path(root, path),
        alias matches Some(a) ==> path_part(a),
    ensures
        line_refs(
            "import "@ + first + ", "@ + root + path + (match alias {
                Some(a) => " as "@ + a,
                None => seq![],
            }),
            k,
        ) == line_refs("import "@ + first, k).push(
            ImportRefView {
                module: root,
                binding: match alias {
                    Some(a) => if path.len() > 0 {
                        None
                    } else {
                        Some(a)
                    },
                    None => Some(root),
                },
                line: k as u32,
                start: (7 + first.len() + 2) as u32,
                end: (7 + first.len() + 2 + root.len() + path.len()) as u32,
            },
        ),
{
    reveal_strlit("import ");
    reveal_strlit(", ");
    let p = text::eq_char(',');
    let tail = match alias {
        Some(a) => " as "@ + a,
        None => seq![],
    };
    let clause = root + path + tail;
    let spaced = seq![' '] + clause;
    let short = "import "@ + first;
    let rest = first + seq![','] + spaced;
    let long = "import "@ + first + ", "@ + root + path + tail;
    assert(long =~= "import "@ + rest);
    lemma_import_statement(first);
    lemma_import_statement(rest);
    text::lemma_split_at(first, ',', spaced, p);
    lemma_clause_of(root, path, alias, k, 7 + first.len() as int + 2);
    text::lemma_first_index(clause, p);
    assert forall|i: int| 0 <= i < spaced.len() implies !p(#[trigger] spaced[i]) by {
        if i > 0 {
            assert(spaced[i] == clause[i - 1]);
            lemma_one_clause(clause, i - 1);
        }
    }
    text::lemma_split_none(spaced, p);
    let clauses = text::split_spec(first, p);
    let all = text::split_spec(rest, p);
    let n = clauses.len() as int;
    assert(all =~= clauses.push(spaced));
    lemma_clauses_before(clauses, spaced, k, 7, n);
    lemma_clauses_fill(first, p);
    assert(clause_offset(all, n) == first.len() + 1);
    lemma_blank_before(clause, k, 7 + first.len() as int + 1);
    assert(all[n] == spaced);
    assert((root + path).len() == root.len() + path.len());
    lemma_path(root, path);
    assert(clause_refs(all, k, 7, n + 1) == clause_refs(all, k, 7, n).push(
        clause_ref(spaced, k, 7 + clause_offset(all, n))->0,
    ));
}

proof fn lemma_import_statement(rest: Seq<char>)
    ensures
        forall|k: int| #[trigger]
            line_refs("import "@ + rest, k) == clause_refs(
                text::split_spec(rest, text::eq_char(',')),
                k,
                7,
                text::split_spec(rest, text::eq_char(',')).len() as int,
            ),
{
    reveal_strlit("import ");
    let code = "import "@ + rest;
    assert(code[0] == 'i');
    text::lemma_first_index_is(code, text::not_space(), 0);
    assert(code.skip(0) =~= code);
    assert(code.take(7) =~= "import "@);
    assert(code.skip(7) =~= rest);
}

proof fn lemma_one_clause(clause: Seq<char>, i: int)
    requires
        text::split_spec(clause, text::eq_char(',')) == seq![clause],
        0 <= i < clause.len(),
    ensures
        clause[i] != ',',
{
    let p = text::eq_char(',');
    text::lemma_first_index(clause, p);
    let at = text::first_index(clause, p);
    if at < clause.len() {
        let parts = text::split_spec(clause, p);
        assert(parts[0] == clause.take(at));
        assert(clause.take(at).len() == at);
    }
}

/// Clauses are found alike whether or not another follows.
proof fn lemma_clauses_before(
    clauses: Seq<Seq<char>>,
    next: Seq<char>,
    line: int,
    base: int,
    n: int,
)
    requires
        0 <= n <= clauses.len(),
    ensures
        clause_offset(clauses.push(next), n) == clause_offset(clauses, n),
        clause_refs(clauses.push(next), line, base, n) == clause_refs(clauses, line, base, n),
    decreases n,
{
    if n > 0 {
        lemma_clauses_before(clauses, next, line, base, n - 1);
        assert(clauses.push(next)[n - 1] == clauses[n - 1]);
    }
}

/// The clauses of a list and the commas between them are all there is of it.
proof fn lemma_clauses_fill(s: Seq<char>, p: spec_fn(char) -> bool)
    ensures
        text::split_spec(s, p).len() > 0,
        clause_offset(text::split_spec(s, p), text::split_spec(s, p).len() as int) == s.len() + 1,
    decreases s.len(),
{
    text::lemma_first_index(s, p);
    let i = text::first_index(s, p);
    let all = text::split_spec(s, p);
    if i < s.len() {
        let rest = text::split_spec(s.skip(i + 1), p);
        assert(all =~= seq![s.take(i)] + rest);
        lemma_clauses_fill(s.skip(i + 1), p);
        assert(all.drop_first() =~= rest);
        lemma_offset_shift(all, rest, all.len() as int);
    } else {
        assert(s.take(i) =~= s);
        assert(all.len() == 1);
        assert(clause_offset(all, 0) == 0);
        assert(clause_offset(all, 1) == all[0].len() + 1);
    }
}

/// A blank before a clause moves it by one column and changes nothing else.
proof fn lemma_blank_before(clause: Seq<char>, line: int, offset: int)
    ensures
        clause_ref(seq![' '] + clause, line, offset) == clause_ref(clause, line, offset + 1),
{
    let s = seq![' '] + clause;
    text::lemma_first_index(clause, text::not_space());
    let i = text::first_index(clause, text::not_space());
    assert forall|j: int| 0 <= j < i + 1 implies !text::not_space()(#[trigger] s[j]) by {
        if j > 0 {
            assert(s[j] == clause[j - 1]);
        }
    }
    if i < clause.len() {
        assert(s[i + 1] == clause[i]);
    }
    text::lemma_first_index_is(s, text::not_space(), i + 1);
    assert(s.skip(i + 1) =~= clause.skip(i));
}

/// An access to an attribute of a bound name is found in a source wherever it stands
/// on a line of plain code that is no import.
pub proof fn attribute_uses_are_found_in_their_source(
    lines: Seq<Seq<char>>,
    k: int,
    before: Seq<char>,
    name: Seq<char>,
    attr: Seq<char>,
    after: Seq<char>,
    names: Seq<Seq<char>>,
)
    requires
        0 <= k < lines.len(),
        forall|j: int| 0 <= j < lines.len() ==> text::is_line(#[trigger] lines[j]),
        lines.last().len() > 0,
        forall|j: int| 0 <= j <= k ==> plain_code(#[trigger] lines[j]),
        lines[k] == before + name + seq!['.'] + attr + after,
        !"import "@.is_prefix_of(text::trim_start_spec(lines[k])),
        !"from "@.is_prefix_of(text::trim_start_spec(lines[k])),
        before.len() > 0 ==> !is_word_char(before.last()) && before.last() != '.',
        path_part(name),
        path_part(attr),
        !text::is_digit(attr[0]),
        after.len() > 0 ==> !is_word_char(after[0]),
        names.contains(name),
    ensures
        attr_uses_of(text::join_spec(lines, "\n"@), names).contains(
            AttrUseView {
                attr,
                line: k as u32,
                start: before.len() as u32,
                end: (before.len() + name.len() + 1 + attr.len()) as u32,
            },
        ),
{
    text::lines_read_back(lines);
    lemma_nothing_open(lines, k);
    comments_are_dropped(lines[k], Seq::empty());
    attribute_uses_are_found(before, name, attr, after, names, k);
    let statement = text::trim_start_spec(lines[k]);
    if text::starts(statement, "import "@) {
        assert("import "@.is_prefix_of(statement));
    }
    if text::starts(statement, "from "@) {
        assert("from "@.is_prefix_of(statement));
    }
    let found = AttrUseView {
        attr,
        line: k as u32,
        start: before.len() as u32,
        end: (before.len() + name.len() + 1 + attr.len()) as u32,
    };
    assert(line_uses(code_on(lines, k), names, k).contains(found));
    lemma_uses_kept(lines, names, k, lines.len() as int, found);
}

proof fn lemma_uses_kept(
    lines: Seq<Seq<char>>,
    names: Seq<Seq<char>>,
    k: int,
    n: int,
    r: AttrUseView,
)
    requires
        0 <= k < n <= lines.len(),
        line_uses(code_on(lines, k), names, k).contains(r),
    ensures
        uses_to(lines, names, n).contains(r),
    decreases n,
{
    let before = uses_to(lines, names, n - 1);
    let last = line_uses(code_on(lines, n - 1), names, n - 1);
    if k < n - 1 {
        lemma_uses_kept(lines, names, k, n - 1, r);
        let i = choose|i: int| 0 <= i < before.len() && before[i] == r;
        assert((before + last)[i] == r);
    } else {
        let i = choose|i: int| 0 <= i < last.len() && last[i] == r;
        assert((before + last)[before.len() + i] == r);
    }
}

/// Whatever is found as an access to an attribute is one: it is marked from the
/// beginning of one of the names to the end of the attribute, with the dot between,
/// and what stands before it is no part of it.
pub proof fn only_attribute_uses_are_found(
    s: Seq<char>,
    names: Seq<Seq<char>>,
    line: int,
    n: int,
)
    requires
        s.len() <= u32::MAX,
        0 <= n < uses_from(s, 0, names, line).len(),
    ensures
        ({
            let u = uses_from(s, 0, names, line)[n];
            &&& u.line == line as u32
            &&& u.start == 0 || (s[u.start - 1] != '.' && !is_word_char(s[u.start - 1]))
            &&& exists|j: int|
                u.start < j < u.end - 1 && u.end <= s.len() && names.contains(
                    #[trigger] s.subrange(u.start as int, j),
                ) && s[j] == '.' && u.attr == s.subrange(j + 1, u.end as int)
        }),
{
    lemma_uses_stand(s, 0, names, line, n);
}

proof fn lemma_uses_stand(s: Seq<char>, i: int, names: Seq<Seq<char>>, line: int, n: int)
    requires
        s.len() <= u32::MAX,
        0 <= i <= s.len(),
        i == 0 || i == s.len() || !is_word_char(s[i - 1]) || !is_word_char(s[i]),
        0 <= n < uses_from(s, i, names, line).len(),
    ensures
        ({
            let u = uses_from(s, i, names, line)[n];
            &&& u.line == line as u32
            &&& u.start == 0 || (s[u.start - 1] != '.' && !is_word_char(s[u.start - 1]))
            &&& exists|j: int|
                u.start < j < u.end - 1 && u.end <= s.len() && names.contains(
                    #[trigger] s.subrange(u.start as int, j),
                ) && s[j] == '.' && u.attr == s.subrange(j + 1, u.end as int)
        }),
    decreases s.len() - i,
{
    if i < s.len() {
        if !is_word_char(s[i]) {
            lemma_uses_stand(s, i + 1, names, line, n);
        } else {
            lemma_word_end(s, i);
            lemma_word_is_whole(s, i);
            let j = word_end(s, i);
            if accesses(s, i, names) {
                lemma_word_end(s, j + 1);
                lemma_word_is_whole(s, j + 1);
                let k = word_end(s, j + 1);
                let rest = uses_from(s, k, names, line);
                if n > 0 {
                    lemma_uses_stand(s, k, names, line, n - 1);
                    assert(uses_from(s, i, names, line)[n] == rest[n - 1]);
                } else {
                    let u = uses_from(s, i, names, line)[0];
                    assert(u.start == i && u.end == k);
                    assert(names.contains(s.subrange(u.start as int, j)));
                }
            } else {
                lemma_uses_stand(s, j, names, line, n);
            }
        }
    }
}

proof fn lemma_word_is_whole(s: Seq<char>, i: int)
    requires
        0 <= i < s.len(),
    ensures
        word_end(s, i) == s.len() || !is_word_char(s[word_end(s, i)]),
{
    text::lemma_first_index(s.skip(i), not_word());
    let f = text::first_index(s.skip(i), not_word());
    if f < s.skip(i).len() {
        assert(s.skip(i)[f] == s[i + f]);
    }
}

/// A line that begins with neither keyword imports nothing.
pub proof fn other_statements_import_nothing(code: Seq<char>, line: int)
    requires
        !"import "@.is_prefix_of(text::trim_start_spec(code)),
        !"from "@.is_prefix_of(text::trim_start_spec(code)),
    ensures
        line_refs(code, line) == Seq::<ImportRefView>::empty(),
{
    let statement = text::trim_start_spec(code);
    if text::starts(statement, "import "@) {
        assert("import "@.is_prefix_of(statement));
    }
    if text::starts(statement, "from "@) {
        assert("from "@.is_prefix_of(statement));
    }
}

} // verus!
