//! Text as sequences of characters: the searching, trimming and splitting that
//! every parser in the library is stated in terms of.
//!
//! Each executable function says what it returns over `s@`, the characters of
//! its argument. Character classes come from std; what std promises of them
//! outside ASCII is kept as a name.

use vstd::prelude::*;

verus! {

// ---------------------------------------------------------------------------
// Character classes
// ---------------------------------------------------------------------------

pub open spec fn is_ascii_char(c: char) -> bool {
    (c as u32) < 128
}

pub open spec fn is_digit(c: char) -> bool {
    '0' <= c && c <= '9'
}

pub open spec fn is_ascii_letter(c: char) -> bool {
    ('a' <= c && c <= 'z') || ('A' <= c && c <= 'Z')
}

/// Tab, line feed, vertical tab, form feed, carriage return and space.
pub open spec fn is_ascii_space(c: char) -> bool {
    c == ' ' || (9 <= c as u32 && c as u32 <= 13)
}

/// Whether a character outside ASCII has Unicode's `White_Space` property: the next
/// line control, the no-break spaces, the spaces of various widths and the line
/// and paragraph separators.
pub open spec fn unicode_white_space(c: char) -> bool {
    let n = c as u32;
    n == 0x85 || n == 0xa0 || n == 0x1680 || (0x2000 <= n && n <= 0x200a) || n == 0x2028 || n
        == 0x2029 || n == 0x202f || n == 0x205f || n == 0x3000
}

/// Whether a character outside ASCII is alphabetic or numeric in Unicode.
pub uninterp spec fn unicode_alphanumeric(c: char) -> bool;

/// `char::is_whitespace`: on ASCII the six blanks, elsewhere the characters that
/// have Unicode's `White_Space` property.
pub assume_specification[ char::is_whitespace ](c: char) -> (r: bool)
    ensures
        is_ascii_char(c) ==> r == is_ascii_space(c),
        !is_ascii_char(c) ==> r == unicode_white_space(c),
;

/// `char::is_alphanumeric`: on ASCII the letters and digits, elsewhere Unicode's
/// alphabetic and numeric characters.
pub assume_specification[ char::is_alphanumeric ](c: char) -> (r: bool)
    ensures
        is_ascii_char(c) ==> r == (is_ascii_letter(c) || is_digit(c)),
        !is_ascii_char(c) ==> r == unicode_alphanumeric(c),
;

/// Whether a character outside ASCII has Unicode's `Alphabetic` property.
pub uninterp spec fn unicode_alphabetic(c: char) -> bool;

/// `char::is_alphabetic`: on ASCII the letters, elsewhere Unicode's `Alphabetic`.
pub assume_specification[ char::is_alphabetic ](c: char) -> (r: bool)
    ensures
        is_ascii_char(c) ==> r == is_ascii_letter(c),
        !is_ascii_char(c) ==> r == unicode_alphabetic(c),
;

/// `String::push`: appends one character.
pub assume_specification[ String::push ](s: &mut String, c: char)
    ensures
        final(s)@ == old(s)@.push(c),
;

pub open spec fn is_space(c: char) -> bool {
    if is_ascii_char(c) {
        is_ascii_space(c)
    } else {
        unicode_white_space(c)
    }
}

pub open spec fn is_alphanumeric(c: char) -> bool {
    if is_ascii_char(c) {
        is_ascii_letter(c) || is_digit(c)
    } else {
        unicode_alphanumeric(c)
    }
}

pub open spec fn is_alphabetic(c: char) -> bool {
    if is_ascii_char(c) {
        is_ascii_letter(c)
    } else {
        unicode_alphabetic(c)
    }
}

/// The predicate "equals `c`".
pub open spec fn eq_char(c: char) -> spec_fn(char) -> bool {
    |x: char| x == c
}

pub open spec fn space() -> spec_fn(char) -> bool {
    |x: char| is_space(x)
}

pub open spec fn not_space() -> spec_fn(char) -> bool {
    |x: char| !is_space(x)
}

// ---------------------------------------------------------------------------
// Searching
// ---------------------------------------------------------------------------

/// The index of the first character satisfying `p`, or the length if none does.
pub open spec fn first_index(s: Seq<char>, p: spec_fn(char) -> bool) -> int
    decreases s.len(),
{
    if s.len() == 0 || p(s[0]) {
        0
    } else {
        1 + first_index(s.drop_first(), p)
    }
}

/// One past the last character satisfying `p`, or zero if none does.
pub open spec fn last_index(s: Seq<char>, p: spec_fn(char) -> bool) -> int
    decreases s.len(),
{
    if s.len() == 0 {
        0
    } else if p(s.last()) {
        s.len() as int
    } else {
        last_index(s.drop_last(), p)
    }
}

pub proof fn lemma_first_index(s: Seq<char>, p: spec_fn(char) -> bool)
    ensures
        0 <= first_index(s, p) <= s.len(),
        forall|j: int| 0 <= j < first_index(s, p) ==> !p(#[trigger] s[j]),
        first_index(s, p) < s.len() ==> p(s[first_index(s, p)]),
    decreases s.len(),
{
    if s.len() > 0 && !p(s[0]) {
        let t = s.drop_first();
        lemma_first_index(t, p);
        assert forall|j: int| 0 <= j < first_index(s, p) implies !p(#[trigger] s[j]) by {
            if j > 0 {
                assert(t[j - 1] == s[j]);
            }
        }
    }
}

/// The first index is determined by what it promises.
pub proof fn lemma_first_index_is(s: Seq<char>, p: spec_fn(char) -> bool, i: int)
    requires
        0 <= i <= s.len(),
        forall|j: int| 0 <= j < i ==> !p(#[trigger] s[j]),
        i < s.len() ==> p(s[i]),
    ensures
        first_index(s, p) == i,
{
    lemma_first_index(s, p);
    let k = first_index(s, p);
    if k < i {
        assert(!p(s[k]));
    } else if i < k {
        assert(!p(s[i]));
    }
}

pub proof fn lemma_last_index(s: Seq<char>, p: spec_fn(char) -> bool)
    ensures
        0 <= last_index(s, p) <= s.len(),
        forall|j: int| last_index(s, p) <= j < s.len() ==> !p(#[trigger] s[j]),
        0 < last_index(s, p) ==> p(s[last_index(s, p) - 1]),
    decreases s.len(),
{
    if s.len() > 0 && !p(s.last()) {
        let t = s.drop_last();
        lemma_last_index(t, p);
        assert forall|j: int| last_index(s, p) <= j < s.len() implies !p(#[trigger] s[j]) by {
            if j < t.len() {
                assert(t[j] == s[j]);
            }
        }
    }
}

/// One past the last index is determined by what it promises.
pub proof fn lemma_last_index_is(s: Seq<char>, p: spec_fn(char) -> bool, i: int)
    requires
        0 <= i <= s.len(),
        forall|j: int| i <= j < s.len() ==> !p(#[trigger] s[j]),
        0 < i ==> p(s[i - 1]),
    ensures
        last_index(s, p) == i,
{
    lemma_last_index(s, p);
    let k = last_index(s, p);
    if k < i {
        assert(!p(s[i - 1]));
    } else if i < k {
        assert(!p(s[k - 1]));
    }
}

/// The characters of a string, as a vector that can be indexed.
pub fn chars_of(s: &str) -> (r: Vec<char>)
    ensures
        r@ == s@,
{
    let mut out: Vec<char> = Vec::new();
    for c in it: s.chars()
        invariant
            out@ == s@.take(it.index() as int),
            it.seq() == s@,
    {
        proof {
            assert(s@.take(it.index() as int).push(c) =~= s@.take(it.index() as int + 1));
        }
        out.push(c);
    }
    proof {
        assert(s@.take(s@.len() as int) =~= s@);
    }
    out
}

/// The index of the first character of `chars` at or after `from` that
/// satisfies `f`, or the length.
pub fn index_from<F: Fn(char) -> bool>(
    chars: &Vec<char>,
    from: usize,
    f: F,
    Ghost(p): Ghost<spec_fn(char) -> bool>,
) -> (r: usize)
    requires
        from <= chars@.len(),
        forall|c: char| f.requires((c,)),
        forall|c: char, b: bool| f.ensures((c,), b) ==> b == p(c),
    ensures
        from <= r <= chars@.len(),
        r == from + first_index(chars@.skip(from as int), p),
        forall|j: int| from <= j < r ==> !p(#[trigger] chars@[j]),
        r < chars@.len() ==> p(chars@[r as int]),
{
    let mut i: usize = from;
    let ghost rest = chars@.skip(from as int);
    while i < chars.len()
        invariant
            from <= i <= chars@.len(),
            rest == chars@.skip(from as int),
            forall|j: int| from <= j < i ==> !p(#[trigger] chars@[j]),
            forall|c: char| f.requires((c,)),
            forall|c: char, b: bool| f.ensures((c,), b) ==> b == p(c),
        decreases chars@.len() - i,
    {
        if f(chars[i]) {
            proof {
                assert(rest[i - from] == chars@[i as int]);
                assert forall|j: int| 0 <= j < i - from implies !p(#[trigger] rest[j]) by {
                    assert(rest[j] == chars@[j + from]);
                }
                lemma_first_index_is(rest, p, i - from);
            }
            return i;
        }
        i += 1;
    }
    proof {
        assert forall|j: int| 0 <= j < i - from implies !p(#[trigger] rest[j]) by {
            assert(rest[j] == chars@[j + from]);
        }
        lemma_first_index_is(rest, p, i - from);
    }
    i
}

/// The index of the first character of `s` that satisfies `f`, or the length.
pub fn index_where<F: Fn(char) -> bool>(
    s: &str,
    f: F,
    Ghost(p): Ghost<spec_fn(char) -> bool>,
) -> (r: usize)
    requires
        forall|c: char| f.requires((c,)),
        forall|c: char, b: bool| f.ensures((c,), b) ==> b == p(c),
    ensures
        r == first_index(s@, p),
        r <= s@.len(),
{
    let chars = chars_of(s);
    proof {
        assert(chars@.skip(0) =~= s@);
    }
    index_from(&chars, 0, f, Ghost(p))
}

/// One past the index of the last character of `s` that satisfies `f`, or zero.
pub fn end_where<F: Fn(char) -> bool>(
    s: &str,
    f: F,
    Ghost(p): Ghost<spec_fn(char) -> bool>,
) -> (r: usize)
    requires
        forall|c: char| f.requires((c,)),
        forall|c: char, b: bool| f.ensures((c,), b) ==> b == p(c),
    ensures
        r == last_index(s@, p),
        r <= s@.len(),
{
    let chars = chars_of(s);
    let mut i: usize = chars.len();
    while i > 0
        invariant
            i <= chars@.len(),
            chars@ == s@,
            forall|j: int| i <= j < chars@.len() ==> !p(#[trigger] chars@[j]),
            forall|c: char| f.requires((c,)),
            forall|c: char, b: bool| f.ensures((c,), b) ==> b == p(c),
        decreases i,
    {
        if f(chars[i - 1]) {
            proof {
                lemma_last_index_is(chars@, p, i as int);
            }
            return i;
        }
        i -= 1;
    }
    proof {
        lemma_last_index_is(chars@, p, 0);
    }
    0
}

/// The index of the first `c` in `s`, or the length.
pub fn index_of(s: &str, c: char) -> (r: usize)
    ensures
        r == first_index(s@, eq_char(c)),
        r <= s@.len(),
        r < s@.len() ==> s@[r as int] == c,
        forall|j: int| 0 <= j < r ==> #[trigger] s@[j] != c,
{
    proof {
        lemma_first_index(s@, eq_char(c));
    }
    index_where(s, |x: char| -> (b: bool) ensures b == (x == c) { x == c }, Ghost(eq_char(c)))
}

/// Whether `c` occurs in `s`.
pub fn has_char(s: &str, c: char) -> (r: bool)
    ensures
        r == s@.contains(c),
{
    let i = index_of(s, c);
    let n = s.unicode_len();
    proof {
        if i < n {
            assert(s@[i as int] == c);
        }
    }
    i < n
}

/// Whether two strings hold the same characters.
pub fn same(a: &str, b: &str) -> (r: bool)
    ensures
        r == (a@ == b@),
{
    a.to_string() == b.to_string()
}

// ---------------------------------------------------------------------------
// Trimming
// ---------------------------------------------------------------------------

pub open spec fn trim_start_spec(s: Seq<char>) -> Seq<char> {
    s.skip(first_index(s, not_space()))
}

pub open spec fn trim_end_spec(s: Seq<char>) -> Seq<char> {
    s.take(last_index(s, not_space()))
}

/// `s` without the white space at either end.
pub open spec fn trim_spec(s: Seq<char>) -> Seq<char> {
    trim_end_spec(trim_start_spec(s))
}

pub fn trim_start<'a>(s: &'a str) -> (r: &'a str)
    ensures
        r@ == trim_start_spec(s@),
{
    let i = index_where(
        s,
        |x: char| -> (b: bool) ensures b == !is_space(x) { !x.is_whitespace() },
        Ghost(not_space()),
    );
    let n = s.unicode_len();
    s.substring_char(i, n)
}

pub fn trim_end<'a>(s: &'a str) -> (r: &'a str)
    ensures
        r@ == trim_end_spec(s@),
{
    let i = end_where(
        s,
        |x: char| -> (b: bool) ensures b == !is_space(x) { !x.is_whitespace() },
        Ghost(not_space()),
    );
    s.substring_char(0, i)
}

pub fn trim<'a>(s: &'a str) -> (r: &'a str)
    ensures
        r@ == trim_spec(s@),
{
    trim_end(trim_start(s))
}

// ---------------------------------------------------------------------------
// Prefixes, suffixes and substrings
// ---------------------------------------------------------------------------

pub open spec fn starts(s: Seq<char>, p: Seq<char>) -> bool {
    p.len() <= s.len() && s.take(p.len() as int) == p
}

pub open spec fn ends(s: Seq<char>, p: Seq<char>) -> bool {
    p.len() <= s.len() && s.skip(s.len() - p.len()) == p
}

pub fn starts_with(s: &str, p: &str) -> (r: bool)
    ensures
        r == starts(s@, p@),
{
    let n = p.unicode_len();
    n <= s.unicode_len() && same(s.substring_char(0, n), p)
}

pub fn ends_with(s: &str, p: &str) -> (r: bool)
    ensures
        r == ends(s@, p@),
{
    let n = p.unicode_len();
    let len = s.unicode_len();
    n <= len && same(s.substring_char(len - n, len), p)
}

/// What follows the first `n` characters.
pub fn after<'a>(s: &'a str, n: usize) -> (r: &'a str)
    requires
        n <= s@.len(),
    ensures
        r@ == s@.skip(n as int),
{
    let len = s.unicode_len();
    s.substring_char(n, len)
}

/// The first `n` characters.
pub fn before<'a>(s: &'a str, n: usize) -> (r: &'a str)
    requires
        n <= s@.len(),
    ensures
        r@ == s@.take(n as int),
{
    s.substring_char(0, n)
}

pub fn strip_prefix<'a>(s: &'a str, p: &str) -> (r: Option<&'a str>)
    ensures
        match r {
            Some(t) => starts(s@, p@) && t@ == s@.skip(p@.len() as int),
            None => !starts(s@, p@),
        },
{
    if starts_with(s, p) {
        let n = p.unicode_len();
        Some(after(s, n))
    } else {
        None
    }
}

pub fn strip_suffix<'a>(s: &'a str, p: &str) -> (r: Option<&'a str>)
    ensures
        match r {
            Some(t) => ends(s@, p@) && t@ == s@.take(s@.len() - p@.len()),
            None => !ends(s@, p@),
        },
{
    if ends_with(s, p) {
        let n = p.unicode_len();
        let len = s.unicode_len();
        Some(before(s, len - n))
    } else {
        None
    }
}

/// Where `t` first occurs in `s`.
pub open spec fn find_spec(s: Seq<char>, t: Seq<char>) -> Option<int>
    decreases s.len(),
{
    if starts(s, t) {
        Some(0)
    } else if s.len() == 0 {
        None
    } else {
        match find_spec(s.drop_first(), t) {
            Some(i) => Some(i + 1),
            None => None,
        }
    }
}

/// Whether `t` occurs somewhere in `s`.
pub open spec fn has(s: Seq<char>, t: Seq<char>) -> bool {
    find_spec(s, t) is Some
}

proof fn lemma_find_spec_bounds(s: Seq<char>, t: Seq<char>)
    ensures
        find_spec(s, t) matches Some(i) ==> 0 <= i && i + t.len() <= s.len(),
    decreases s.len(),
{
    if !starts(s, t) && s.len() > 0 {
        lemma_find_spec_bounds(s.drop_first(), t);
    }
}

/// Where `t` first occurs in `s`, in characters.
pub fn find(s: &str, t: &str) -> (r: Option<usize>)
    ensures
        match r {
            Some(i) => find_spec(s@, t@) == Some(i as int) && i + t@.len() <= s@.len()
                && i + t@.len() <= usize::MAX,
            None => find_spec(s@, t@) is None,
        },
{
    let n = s.unicode_len();
    let mut i: usize = 0;
    proof {
        assert(s@.skip(0) =~= s@);
        lemma_find_spec_bounds(s@, t@);
    }
    loop
        invariant
            i <= n,
            n == s@.len(),
            match find_spec(s@.skip(i as int), t@) {
                Some(k) => find_spec(s@, t@) == Some(i + k),
                None => find_spec(s@, t@) is None,
            },
            find_spec(s@, t@) matches Some(k) ==> 0 <= k && k + t@.len() <= s@.len(),
        decreases n - i,
    {
        let ghost rest = s@.skip(i as int);
        if starts_with(after(s, i), t) {
            return Some(i);
        }
        if i == n {
            return None;
        }
        proof {
            assert(rest.drop_first() =~= s@.skip(i as int + 1));
        }
        i += 1;
    }
}

pub fn contains(s: &str, t: &str) -> (r: bool)
    ensures
        r == has(s@, t@),
{
    find(s, t).is_some()
}

/// `s` with each occurrence of `from`, left to right, made `to`. A `from` that is
/// empty occurs nowhere.
pub open spec fn replace_spec(s: Seq<char>, from: Seq<char>, to: Seq<char>) -> Seq<char>
    decreases s.len(),
    via replace_decreases
{
    match find_spec(s, from) {
        Some(i) => if from.len() == 0 {
            s
        } else {
            s.take(i) + to + replace_spec(s.skip(i + from.len()), from, to)
        },
        None => s,
    }
}

#[via_fn]
proof fn replace_decreases(s: Seq<char>, from: Seq<char>, to: Seq<char>) {
    lemma_find_spec_bounds(s, from);
}

/// `s` with each occurrence of `from` made `to`.
pub fn replace(s: &str, from: &str, to: &str) -> (r: String)
    ensures
        r@ == replace_spec(s@, from@, to@),
{
    if from.is_empty() {
        return s.to_string();
    }
    let n = s.unicode_len();
    let step = from.unicode_len();
    let mut out = String::new();
    let mut start: usize = 0;
    proof {
        assert(s@.skip(0) =~= s@);
        assert(out@ + replace_spec(s@, from@, to@) =~= replace_spec(s@, from@, to@));
    }
    loop
        invariant
            start <= n,
            n == s@.len(),
            step == from@.len(),
            step > 0,
            out@ + replace_spec(s@.skip(start as int), from@, to@) == replace_spec(s@, from@, to@),
        decreases n - start,
    {
        let rest = after(s, start);
        match find(rest, from) {
            Some(i) => {
                let ghost before_text = out@;
                let ghost tail = replace_spec(rest@.skip(i + step), from@, to@);
                out.append(before(rest, i));
                out.append(to);
                proof {
                    assert(rest@.skip(i + step) =~= s@.skip(start + i + step));
                    assert(before_text + (rest@.take(i as int) + to@ + tail) =~= out@ + tail);
                }
                start = start + i + step;
            },
            None => {
                out.append(rest);
                return out;
            },
        }
    }
}

// ---------------------------------------------------------------------------
// Splitting and joining
// ---------------------------------------------------------------------------

/// The pieces of `s` between the characters satisfying `p`; never empty.
pub open spec fn split_spec(s: Seq<char>, p: spec_fn(char) -> bool) -> Seq<Seq<char>>
    decreases s.len(),
    via split_decreases
{
    let i = first_index(s, p);
    if i >= s.len() {
        seq![s]
    } else {
        seq![s.take(i)] + split_spec(s.skip(i + 1), p)
    }
}

#[via_fn]
proof fn split_decreases(s: Seq<char>, p: spec_fn(char) -> bool) {
    lemma_first_index(s, p);
}

/// A separator parts what stands before it from what follows.
pub proof fn lemma_split_at(a: Seq<char>, c: char, b: Seq<char>, p: spec_fn(char) -> bool)
    requires
        p(c),
    ensures
        split_spec(a + seq![c] + b, p) == split_spec(a, p) + split_spec(b, p),
    decreases a.len(),
{
    let s = a + seq![c] + b;
    let i = first_index(a, p);
    lemma_first_index(a, p);
    assert forall|j: int| 0 <= j < i implies !p(#[trigger] s[j]) by {
        assert(s[j] == a[j]);
    }
    if i < a.len() {
        assert(s[i] == a[i]);
        lemma_first_index_is(s, p, i);
        lemma_split_at(a.skip(i + 1), c, b, p);
        assert(s.take(i) =~= a.take(i));
        assert(s.skip(i + 1) =~= a.skip(i + 1) + seq![c] + b);
        assert(split_spec(s, p) =~= split_spec(a, p) + split_spec(b, p));
    } else {
        assert(s[i] == c);
        lemma_first_index_is(s, p, i);
        assert(s.take(i) =~= a);
        assert(s.skip(i + 1) =~= b);
    }
}

/// A character in front of a text that separates nothing joins its first piece.
pub proof fn lemma_split_front(c: char, s: Seq<char>, p: spec_fn(char) -> bool)
    requires
        !p(c),
    ensures
        split_spec(s, p).len() > 0,
        split_spec(seq![c] + s, p) == split_spec(s, p).update(0, seq![c] + split_spec(s, p)[0]),
{
    let t = seq![c] + s;
    let i = first_index(s, p);
    lemma_first_index(s, p);
    assert forall|j: int| 0 <= j < i + 1 implies !p(#[trigger] t[j]) by {
        if j > 0 {
            assert(t[j] == s[j - 1]);
        }
    }
    if i < s.len() {
        assert(t[i + 1] == s[i]);
        lemma_first_index_is(t, p, i + 1);
        assert(t.take(i + 1) =~= seq![c] + s.take(i));
        assert(t.skip(i + 2) =~= s.skip(i + 1));
    } else {
        lemma_first_index_is(t, p, i + 1);
    }
    assert(split_spec(t, p) =~= split_spec(s, p).update(0, seq![c] + split_spec(s, p)[0]));
}

/// A character behind a text that separates nothing joins its last piece.
pub proof fn lemma_split_back(s: Seq<char>, c: char, p: spec_fn(char) -> bool)
    requires
        !p(c),
    ensures
        split_spec(s, p).len() > 0,
        split_spec(s.push(c), p) == split_spec(s, p).drop_last().push(
            split_spec(s, p).last().push(c),
        ),
    decreases s.len(),
{
    let t = s.push(c);
    let i = first_index(s, p);
    lemma_first_index(s, p);
    assert forall|j: int| 0 <= j < i implies !p(#[trigger] t[j]) by {
        assert(t[j] == s[j]);
    }
    if i < s.len() {
        assert(t[i] == s[i]);
        lemma_first_index_is(t, p, i);
        assert(t.take(i) =~= s.take(i));
        assert(t.skip(i + 1) =~= s.skip(i + 1).push(c));
        lemma_split_back(s.skip(i + 1), c, p);
    } else {
        lemma_first_index_is(t, p, t.len() as int);
    }
    assert(split_spec(t, p) =~= split_spec(s, p).drop_last().push(
        split_spec(s, p).last().push(c),
    ));
}

/// A blank at either end of a text is trimmed away.
pub proof fn lemma_trim_ends(s: Seq<char>, c: char)
    requires
        is_space(c),
    ensures
        trim_spec(seq![c] + s) == trim_spec(s),
        trim_spec(s.push(c)) == trim_spec(s),
{
    let p = not_space();
    lemma_first_index(s, p);
    let i = first_index(s, p);
    let front = seq![c] + s;
    assert(front.drop_first() =~= s);
    assert(first_index(front, p) == i + 1);
    assert(front.skip(i + 1) =~= s.skip(i));
    let back = s.push(c);
    assert forall|j: int| 0 <= j < i implies !p(#[trigger] back[j]) by {
        assert(back[j] == s[j]);
    }
    if i < s.len() {
        assert(back[i] == s[i]);
        lemma_first_index_is(back, p, i);
        let rest = s.skip(i);
        assert(back.skip(i) =~= rest.push(c));
        assert(rest.push(c).drop_last() =~= rest);
        lemma_last_index(rest, p);
        assert(rest.push(c).take(last_index(rest, p)) =~= rest.take(last_index(rest, p)));
    } else {
        lemma_first_index_is(back, p, back.len() as int);
        assert(s.skip(i) =~= Seq::<char>::empty());
        assert(back.skip(back.len() as int) =~= Seq::<char>::empty());
    }
}

/// The views of a vector of strings.
pub open spec fn texts(v: Seq<String>) -> Seq<Seq<char>> {
    Seq::new(v.len(), |i: int| v[i]@)
}

/// The views of a list of string slices.
pub open spec fn str_texts(v: Seq<&str>) -> Seq<Seq<char>> {
    Seq::new(v.len(), |i: int| v[i]@)
}

/// Owned copies of a list of string slices.
pub fn strings(parts: &[&str]) -> (r: Vec<String>)
    ensures
        texts(r@) == str_texts(parts@),
{
    let mut out: Vec<String> = Vec::new();
    let mut i: usize = 0;
    while i < parts.len()
        invariant
            i <= parts@.len(),
            out@.len() == i,
            forall|j: int| 0 <= j < i ==> (#[trigger] out@[j])@ == parts@[j]@,
        decreases parts@.len() - i,
    {
        out.push(parts[i].to_string());
        i += 1;
    }
    proof {
        assert(texts(out@) =~= str_texts(parts@));
    }
    out
}

/// Copies of a list of strings.
pub fn clone_all(parts: &Vec<String>) -> (r: Vec<String>)
    ensures
        texts(r@) == texts(parts@),
{
    let mut out: Vec<String> = Vec::new();
    let mut i: usize = 0;
    while i < parts.len()
        invariant
            i <= parts@.len(),
            out@.len() == i,
            forall|j: int| 0 <= j < i ==> (#[trigger] out@[j])@ == parts@[j]@,
        decreases parts@.len() - i,
    {
        out.push(parts[i].clone());
        i += 1;
    }
    proof {
        assert(texts(out@) =~= texts(parts@));
    }
    out
}

/// Append copies of a list of strings.
pub fn extend(out: &mut Vec<String>, parts: &Vec<String>)
    ensures
        texts(final(out)@) == texts(old(out)@) + texts(parts@),
{
    let ghost before = texts(out@);
    let mut more = clone_all(parts);
    let ghost added = more@;
    let ghost first = out@;
    out.append(&mut more);
    proof {
        assert(texts(out@) =~= texts(first) + texts(added));
    }
}

/// Whether a list holds a text.
pub fn among(list: &[String], s: &str) -> (r: bool)
    ensures
        r == texts(list@).contains(s@),
{
    let mut i: usize = 0;
    while i < list.len()
        invariant
            i <= list@.len(),
            forall|j: int| 0 <= j < i ==> (#[trigger] texts(list@)[j]) != s@,
        decreases list@.len() - i,
    {
        if same(list[i].as_str(), s) {
            proof {
                assert(texts(list@)[i as int] == s@);
            }
            return true;
        }
        i += 1;
    }
    false
}

/// The first value `f` gives over a list.
pub open spec fn first_some<A, B>(s: Seq<A>, f: spec_fn(A) -> Option<B>) -> Option<B>
    decreases s.len(),
{
    if s.len() == 0 {
        None
    } else if f(s[0]) is Some {
        f(s[0])
    } else {
        first_some(s.drop_first(), f)
    }
}

/// The first value is that of the first item that gives one.
pub proof fn lemma_first_some_at<A, B>(s: Seq<A>, f: spec_fn(A) -> Option<B>, i: int)
    requires
        0 <= i <= s.len(),
        forall|j: int| 0 <= j < i ==> f(#[trigger] s[j]) is None,
        i < s.len() ==> f(s[i]) is Some,
    ensures
        first_some(s, f) == if i < s.len() {
            f(s[i])
        } else {
            None
        },
    decreases i,
{
    if i > 0 {
        assert(f(s[0]) is None);
        let rest = s.drop_first();
        assert forall|j: int| 0 <= j < i - 1 implies f(#[trigger] rest[j]) is None by {
            assert(rest[j] == s[j + 1]);
        }
        lemma_first_some_at(rest, f, i - 1);
    }
}

/// Every item of a filtered list comes from one of the list it was made of.
pub proof fn lemma_filter_map_source<A, B>(s: Seq<A>, f: spec_fn(A) -> Option<B>, i: int)
    requires
        0 <= i < s.filter_map(f).len(),
    ensures
        exists|j: int| 0 <= j < s.len() && f(#[trigger] s[j]) == Some(s.filter_map(f)[i]),
    decreases s.len(),
{
    reveal(Seq::filter_map);
    let before = s.drop_last();
    if i < before.filter_map(f).len() {
        lemma_filter_map_source(before, f, i);
        let j = choose|j: int|
            0 <= j < before.len() && f(#[trigger] before[j]) == Some(before.filter_map(f)[i]);
        assert(f(s[j]) == Some(s.filter_map(f)[i]));
    } else {
        assert(f(s[s.len() - 1]) == Some(s.filter_map(f)[i]));
    }
}

/// Every item that gives something is in the filtered list.
pub proof fn lemma_filter_map_keeps<A, B>(s: Seq<A>, f: spec_fn(A) -> Option<B>, j: int)
    requires
        0 <= j < s.len(),
        f(s[j]) is Some,
    ensures
        s.filter_map(f).contains(f(s[j])->0),
    decreases s.len(),
{
    reveal(Seq::filter_map);
    let before = s.drop_last();
    let all = s.filter_map(f);
    if j == s.len() - 1 {
        assert(all[all.len() - 1] == f(s[j])->0);
    } else {
        lemma_filter_map_keeps(before, f, j);
        let some = before.filter_map(f);
        assert(before[j] == s[j]);
        let i = choose|i: int| 0 <= i < some.len() && some[i] == f(s[j])->0;
        assert(all[i] == some[i]);
    }
}

/// The view of an optional string.
pub open spec fn opt_text(o: Option<String>) -> Option<Seq<char>> {
    match o {
        Some(s) => Some(s@),
        None => None,
    }
}

/// The view of an optional string slice.
pub open spec fn opt_str(o: Option<&str>) -> Option<Seq<char>> {
    match o {
        Some(s) => Some(s@),
        None => None,
    }
}

/// A copy of an optional string.
pub fn clone_opt(o: &Option<String>) -> (r: Option<String>)
    ensures
        r == *o,
{
    match o {
        Some(s) => Some(s.clone()),
        None => None,
    }
}

pub proof fn lemma_texts_push(v: Seq<String>, s: String)
    ensures
        texts(v.push(s)) == texts(v).push(s@),
{
    assert(texts(v.push(s)) =~= texts(v).push(s@));
}

/// The pieces of `s` between the characters satisfying `f`.
pub fn split_where<F: Fn(char) -> bool>(
    s: &str,
    f: F,
    Ghost(p): Ghost<spec_fn(char) -> bool>,
) -> (r: Vec<String>)
    requires
        forall|c: char| f.requires((c,)),
        forall|c: char, b: bool| f.ensures((c,), b) ==> b == p(c),
    ensures
        texts(r@) == split_spec(s@, p),
        r@.len() > 0,
{
    let chars = chars_of(s);
    let n = chars.len();
    let mut out: Vec<String> = Vec::new();
    let mut start: usize = 0;
    proof {
        assert(s@.skip(0) =~= s@);
        assert(texts(out@) + split_spec(s@, p) =~= split_spec(s@, p));
    }
    loop
        invariant
            start <= n,
            n == chars@.len(),
            chars@ == s@,
            texts(out@) + split_spec(s@.skip(start as int), p) == split_spec(s@, p),
            forall|c: char| f.requires((c,)),
            forall|c: char, b: bool| f.ensures((c,), b) ==> b == p(c),
        decreases n - start,
    {
        let i = index_from(&chars, start, |c: char| -> (b: bool)
            ensures b == p(c)
            { f(c) }, Ghost(p));
        let ghost rest = s@.skip(start as int);
        let piece = s.substring_char(start, i).to_string();
        let ghost before = texts(out@);
        proof {
            lemma_texts_push(out@, piece);
            assert(piece@ =~= rest.take(i - start));
        }
        out.push(piece);
        if i == n {
            proof {
                assert(piece@ =~= rest);
                assert(texts(out@) =~= before + seq![rest]);
            }
            return out;
        }
        proof {
            assert(rest.skip(i - start + 1) =~= s@.skip(i as int + 1));
            assert(texts(out@) + split_spec(s@.skip(i as int + 1), p) =~= before + split_spec(
                rest,
                p,
            ));
        }
        start = i + 1;
    }
}

/// The pieces of `s` between the `c`s.
pub fn split(s: &str, c: char) -> (r: Vec<String>)
    ensures
        texts(r@) == split_spec(s@, eq_char(c)),
        r@.len() > 0,
{
    split_where(s, |x: char| -> (b: bool) ensures b == (x == c) { x == c }, Ghost(eq_char(c)))
}

/// A line without the carriage return that ended it.
pub open spec fn strip_cr(s: Seq<char>) -> Seq<char> {
    if s.len() > 0 && s.last() == '\r' {
        s.drop_last()
    } else {
        s
    }
}

/// The lines of a text: a line feed, or a carriage return and a line feed, ends
/// each; the last line may lack its ending.
pub open spec fn lines_spec(s: Seq<char>) -> Seq<Seq<char>>
    decreases s.len(),
    via lines_decreases
{
    let i = first_index(s, eq_char('\n'));
    if s.len() == 0 {
        seq![]
    } else if i >= s.len() {
        seq![s]
    } else {
        seq![strip_cr(s.take(i))] + lines_spec(s.skip(i + 1))
    }
}

#[via_fn]
proof fn lines_decreases(s: Seq<char>) {
    lemma_first_index(s, eq_char('\n'));
}

/// The lines of a text.
pub fn lines(s: &str) -> (r: Vec<String>)
    ensures
        texts(r@) == lines_spec(s@),
{
    let chars = chars_of(s);
    let n = chars.len();
    let mut out: Vec<String> = Vec::new();
    let mut start: usize = 0;
    proof {
        assert(s@.skip(0) =~= s@);
        assert(texts(out@) + lines_spec(s@) =~= lines_spec(s@));
    }
    while start < n
        invariant
            start <= n,
            n == chars@.len(),
            chars@ == s@,
            texts(out@) + lines_spec(s@.skip(start as int)) == lines_spec(s@),
        decreases n - start,
    {
        let i = index_from(
            &chars,
            start,
            |x: char| -> (b: bool) ensures b == (x == '\n') { x == '\n' },
            Ghost(eq_char('\n')),
        );
        let ghost rest = s@.skip(start as int);
        let ghost before = texts(out@);
        if i == n {
            let piece = s.substring_char(start, n).to_string();
            proof {
                lemma_texts_push(out@, piece);
                assert(piece@ =~= rest);
            }
            out.push(piece);
            proof {
                assert(texts(out@) =~= before + seq![rest]);
            }
            return out;
        }
        let mut end: usize = i;
        if i > start && chars[i - 1] == '\r' {
            end = i - 1;
        }
        let piece = s.substring_char(start, end).to_string();
        proof {
            let full = rest.take(i - start);
            assert(i > start ==> full.last() == chars@[i - 1]);
            assert(piece@ =~= strip_cr(full));
            lemma_texts_push(out@, piece);
        }
        out.push(piece);
        proof {
            assert(rest.skip(i - start + 1) =~= s@.skip(i as int + 1));
            assert(texts(out@) + lines_spec(s@.skip(i as int + 1)) =~= before + lines_spec(rest));
        }
        start = i + 1;
    }
    proof {
        assert(s@.skip(start as int) =~= Seq::<char>::empty());
        assert(texts(out@) + lines_spec(s@.skip(start as int)) =~= texts(out@));
    }
    out
}

/// The pieces one after another, with `sep` between each two.
pub open spec fn join_spec(parts: Seq<Seq<char>>, sep: Seq<char>) -> Seq<char>
    decreases parts.len(),
{
    if parts.len() == 0 {
        seq![]
    } else if parts.len() == 1 {
        parts[0]
    } else {
        join_spec(parts.drop_last(), sep) + sep + parts.last()
    }
}

/// The strings one after another, with `sep` between each two.
pub fn join(parts: &Vec<String>, sep: &str) -> (r: String)
    ensures
        r@ == join_spec(texts(parts@), sep@),
{
    let mut out = String::new();
    let mut i: usize = 0;
    while i < parts.len()
        invariant
            i <= parts@.len(),
            out@ == join_spec(texts(parts@).take(i as int), sep@),
        decreases parts@.len() - i,
    {
        if i > 0 {
            out.append(sep);
        }
        out.append(parts[i].as_str());
        proof {
            let now = texts(parts@).take(i as int + 1);
            assert(now.drop_last() =~= texts(parts@).take(i as int));
            if i == 0 {
                assert(out@ =~= now[0]);
            }
        }
        i += 1;
    }
    proof {
        assert(texts(parts@).take(i as int) =~= texts(parts@));
    }
    out
}

/// The first run of characters that are not white space.
pub open spec fn first_word_spec(s: Seq<char>) -> Seq<char> {
    let t = trim_start_spec(s);
    t.take(first_index(t, space()))
}

/// The first word of `s`, empty when there is none.
pub fn first_word<'a>(s: &'a str) -> (r: &'a str)
    ensures
        r@ == first_word_spec(s@),
{
    let t = trim_start(s);
    let i = index_where(
        t,
        |x: char| -> (b: bool) ensures b == is_space(x) { x.is_whitespace() },
        Ghost(space()),
    );
    before(t, i)
}

// ---------------------------------------------------------------------------
// Case
// ---------------------------------------------------------------------------

pub open spec fn lower_ascii_char(c: char) -> char {
    if 'A' <= c && c <= 'Z' {
        (c as u32 + 32) as char
    } else {
        c
    }
}

/// `s` with the ASCII capitals made small.
pub open spec fn lower_ascii_spec(s: Seq<char>) -> Seq<char> {
    Seq::new(s.len(), |i: int| lower_ascii_char(s[i]))
}

/// `char::to_ascii_lowercase`: the capitals A to Z become small, all else stays.
pub assume_specification[ char::to_ascii_lowercase ](c: &char) -> (r: char)
    ensures
        r == lower_ascii_char(*c),
;

pub fn lower_ascii(s: &str) -> (r: String)
    ensures
        r@ == lower_ascii_spec(s@),
{
    let chars = chars_of(s);
    let mut out = String::new();
    let mut i: usize = 0;
    while i < chars.len()
        invariant
            i <= chars@.len(),
            chars@ == s@,
            out@ == lower_ascii_spec(s@).take(i as int),
        decreases chars@.len() - i,
    {
        let c = chars[i].to_ascii_lowercase();
        proof {
            assert(lower_ascii_spec(s@).take(i as int).push(c) =~= lower_ascii_spec(s@).take(
                i as int + 1,
            ));
        }
        out.push(c);
        i += 1;
    }
    proof {
        assert(lower_ascii_spec(s@).take(i as int) =~= lower_ascii_spec(s@));
    }
    out
}

pub open spec fn all_ascii(s: Seq<char>) -> bool {
    forall|i: int| 0 <= i < s.len() ==> is_ascii_char(#[trigger] s[i])
}

/// Unicode's lowercase mapping of a text that is not all ASCII.
pub uninterp spec fn unicode_lowercase(s: Seq<char>) -> Seq<char>;

/// The lowercase form of a text.
pub open spec fn lower_spec(s: Seq<char>) -> Seq<char> {
    if all_ascii(s) {
        lower_ascii_spec(s)
    } else {
        unicode_lowercase(s)
    }
}

/// `str::to_lowercase`: on an all-ASCII text each capital becomes small; on any
/// other text the result is Unicode's lowercase mapping, kept as a name.
pub assume_specification[ str::to_lowercase ](s: &str) -> (r: String)
    ensures
        all_ascii(s@) ==> r@ == lower_ascii_spec(s@),
        !all_ascii(s@) ==> r@ == unicode_lowercase(s@),
;

/// Whether two texts are the same up to ASCII case.
pub fn same_ignoring_case(a: &str, b: &str) -> (r: bool)
    ensures
        r == (lower_ascii_spec(a@) == lower_ascii_spec(b@)),
{
    same(lower_ascii(a).as_str(), lower_ascii(b).as_str())
}

// ---------------------------------------------------------------------------
// Numbers
// ---------------------------------------------------------------------------

pub open spec fn digit_value(c: char) -> nat {
    (c as u32 - '0' as u32) as nat
}

pub open spec fn digit_char(d: nat) -> char {
    ('0' as u32 + d) as char
}

pub open spec fn all_digits(s: Seq<char>) -> bool {
    forall|i: int| 0 <= i < s.len() ==> is_digit(#[trigger] s[i])
}

/// The number a run of decimal digits stands for.
pub open spec fn number(s: Seq<char>) -> nat
    decreases s.len(),
{
    if s.len() == 0 {
        0
    } else {
        number(s.drop_last()) * 10 + digit_value(s.last())
    }
}

/// An unsigned number as Rust reads one: an optional plus sign, at least one
/// digit, nothing else, and a value of at most `max`.
pub open spec fn parse_uint_spec(s: Seq<char>, max: nat) -> Option<nat> {
    let d = if s.len() > 0 && s[0] == '+' {
        s.skip(1)
    } else {
        s
    };
    if d.len() == 0 || !all_digits(d) || number(d) > max {
        None
    } else {
        Some(number(d))
    }
}

proof fn lemma_number_grows(s: Seq<char>, k: int)
    requires
        0 <= k <= s.len(),
        all_digits(s),
    ensures
        number(s.take(k)) <= number(s),
    decreases s.len(),
{
    if k < s.len() {
        let t = s.drop_last();
        assert forall|i: int| 0 <= i < t.len() implies is_digit(#[trigger] t[i]) by {
            assert(t[i] == s[i]);
        }
        lemma_number_grows(t, k);
        assert(t.take(k) =~= s.take(k));
    } else {
        assert(s.take(k) =~= s);
    }
}

pub fn parse_uint(s: &str, max: u64) -> (r: Option<u64>)
    ensures
        match r {
            Some(n) => parse_uint_spec(s@, max as nat) == Some(n as nat),
            None => parse_uint_spec(s@, max as nat) is None,
        },
{
    let chars = chars_of(s);
    let n = chars.len();
    let mut i: usize = 0;
    if n > 0 && chars[0] == '+' {
        i = 1;
    }
    let ghost d = s@.skip(i as int);
    let ghost from = i as int;
    proof {
        assert(s@.skip(0) =~= s@);
    }
    if i == n {
        return None;
    }
    let mut value: u64 = 0;
    proof {
        assert(d.take(0) =~= Seq::<char>::empty());
    }
    while i < n
        invariant
            0 <= from <= i <= n,
            n == chars@.len(),
            chars@ == s@,
            d == s@.skip(from),
            d.len() == n - from,
            d.len() > 0,
            parse_uint_spec(s@, max as nat) == (if !all_digits(d) || number(d) > max {
                None::<nat>
            } else {
                Some(number(d))
            }),
            all_digits(d.take(i - from)),
            value == number(d.take(i - from)),
            value <= max,
        decreases n - i,
    {
        let c = chars[i];
        let ghost k = i - from;
        if !('0' <= c && c <= '9') {
            proof {
                assert(d[k] == c);
            }
            return None;
        }
        let digit: u64 = c as u64 - 48;
        proof {
            let now = d.take(k + 1);
            assert(now.drop_last() =~= d.take(k));
            assert(now.last() == c);
            assert(number(now) == value * 10 + digit);
            assert forall|j: int| 0 <= j < now.len() implies is_digit(#[trigger] now[j]) by {
                if j < k {
                    assert(d.take(k)[j] == now[j]);
                }
            }
            if all_digits(d) {
                lemma_number_grows(d, k + 1);
            }
        }
        if value > (max - digit.min(max)) / 10 || value * 10 + digit > max {
            proof {
                assert(value * 10 + digit > max);
            }
            return None;
        }
        value = value * 10 + digit;
        i += 1;
    }
    proof {
        assert(d.take(n - from) =~= d);
    }
    Some(value)
}

/// The decimal numeral of `n`.
pub open spec fn decimal_spec(n: nat) -> Seq<char>
    decreases n,
{
    if n < 10 {
        seq![digit_char(n)]
    } else {
        decimal_spec(n / 10).push(digit_char(n % 10))
    }
}

/// The decimal numeral of `n`.
pub fn decimal(n: u64) -> (r: String)
    ensures
        r@ == decimal_spec(n as nat),
    decreases n,
{
    let d: u8 = (n % 10) as u8;
    let c: char = (48 + d) as char;
    if n < 10 {
        let mut out = String::new();
        out.push(c);
        proof {
            assert(out@ =~= seq![digit_char(n as nat)]);
        }
        out
    } else {
        let mut out = decimal(n / 10);
        out.push(c);
        out
    }
}

// ---------------------------------------------------------------------------
// Order
// ---------------------------------------------------------------------------

/// Dictionary order by code point, which is how strings compare.
pub open spec fn lex_lt(a: Seq<char>, b: Seq<char>) -> bool
    decreases a.len(),
{
    if b.len() == 0 {
        false
    } else if a.len() == 0 {
        true
    } else if a[0] != b[0] {
        a[0] < b[0]
    } else {
        lex_lt(a.drop_first(), b.drop_first())
    }
}

/// Of two different texts one comes first, and never both.
pub proof fn lemma_lex_total(a: Seq<char>, b: Seq<char>)
    ensures
        lex_lt(a, b) || lex_lt(b, a) || a == b,
        !(lex_lt(a, b) && lex_lt(b, a)),
        !lex_lt(a, a),
    decreases a.len(),
{
    if a.len() == 0 && b.len() == 0 {
        assert(a =~= b);
    } else if a.len() > 0 && b.len() > 0 && a[0] == b[0] {
        lemma_lex_total(a.drop_first(), b.drop_first());
        if a.drop_first() == b.drop_first() {
            assert(a =~= seq![a[0]] + a.drop_first());
            assert(b =~= seq![b[0]] + b.drop_first());
        }
    }
    if a.len() > 0 {
        lemma_lex_irreflexive(a);
    }
}

pub proof fn lemma_lex_irreflexive(a: Seq<char>)
    ensures
        !lex_lt(a, a),
    decreases a.len(),
{
    if a.len() > 0 {
        lemma_lex_irreflexive(a.drop_first());
    }
}

pub proof fn lemma_lex_transitive(a: Seq<char>, b: Seq<char>, c: Seq<char>)
    requires
        lex_lt(a, b),
        lex_lt(b, c),
    ensures
        lex_lt(a, c),
    decreases a.len(),
{
    if a.len() > 0 && a[0] == b[0] && b[0] == c[0] {
        lemma_lex_transitive(a.drop_first(), b.drop_first(), c.drop_first());
    }
}

/// Whether `a` comes before `b` in dictionary order.
pub fn less(a: &str, b: &str) -> (r: bool)
    ensures
        r == lex_lt(a@, b@),
{
    let x = chars_of(a);
    let y = chars_of(b);
    let mut i: usize = 0;
    proof {
        assert(x@.skip(0) =~= x@);
        assert(y@.skip(0) =~= y@);
    }
    loop
        invariant
            i <= x@.len(),
            i <= y@.len(),
            x@ == a@,
            y@ == b@,
            lex_lt(a@, b@) == lex_lt(x@.skip(i as int), y@.skip(i as int)),
        decreases x@.len() - i,
    {
        if i == y.len() {
            return false;
        }
        if i == x.len() {
            return true;
        }
        if x[i] != y[i] {
            return x[i] < y[i];
        }
        proof {
            assert(x@.skip(i as int).drop_first() =~= x@.skip(i as int + 1));
            assert(y@.skip(i as int).drop_first() =~= y@.skip(i as int + 1));
        }
        i += 1;
    }
}

// ---------------------------------------------------------------------------
// Laws
// ---------------------------------------------------------------------------

proof fn lemma_decimal(n: nat)
    ensures
        decimal_spec(n).len() > 0,
        all_digits(decimal_spec(n)),
        number(decimal_spec(n)) == n,
    decreases n,
{
    let s = decimal_spec(n);
    let d = n % 10;
    assert(s.last() == digit_char(d));
    assert(digit_value(digit_char(d)) == d);
    if n >= 10 {
        lemma_decimal(n / 10);
        assert(s.drop_last() =~= decimal_spec(n / 10));
        assert forall|i: int| 0 <= i < s.len() implies is_digit(#[trigger] s[i]) by {
            if i < s.len() - 1 {
                assert(s[i] == decimal_spec(n / 10)[i]);
            }
        }
    } else {
        assert(s.drop_last() =~= Seq::<char>::empty());
        assert(number(s.drop_last()) == 0);
    }
    assert(number(s) == number(s.drop_last()) * 10 + d);
}

/// A number written out reads back as it was, wherever it may be as large.
pub proof fn numbers_read_back(n: nat, max: nat)
    ensures
        decimal_spec(n).len() > 0,
        all_digits(decimal_spec(n)),
        parse_uint_spec(decimal_spec(n), max) == if n <= max {
            Some(n)
        } else {
            None
        },
{
    lemma_decimal(n);
    assert(is_digit(decimal_spec(n)[0]));
}

/// A text without a separator is one piece.
pub proof fn lemma_split_none(s: Seq<char>, p: spec_fn(char) -> bool)
    requires
        forall|i: int| 0 <= i < s.len() ==> !p(#[trigger] s[i]),
    ensures
        split_spec(s, p) == seq![s],
        first_index(s, p) == s.len(),
{
    lemma_first_index_is(s, p, s.len() as int);
}

/// A text with no blank at either end is its own trimmed form.
pub proof fn lemma_trimmed(s: Seq<char>)
    requires
        s.len() > 0 ==> !is_space(s[0]) && !is_space(s.last()),
    ensures
        trim_spec(s) == s,
        trim_start_spec(s) == s,
        trim_end_spec(s) == s,
{
    lemma_first_index_is(s, not_space(), 0);
    assert(s.skip(0) =~= s);
    lemma_last_index_is(s, not_space(), s.len() as int);
    assert(s.take(s.len() as int) =~= s);
}

/// A text is found behind one that does not hold its first character.
pub proof fn lemma_found_behind(a: Seq<char>, t: Seq<char>, b: Seq<char>)
    requires
        t.len() > 0,
        !a.contains(t[0]),
    ensures
        find_spec(a + t + b, t) == Some(a.len() as int),
    decreases a.len(),
{
    let s = a + t + b;
    if a.len() == 0 {
        assert(s.take(t.len() as int) =~= t);
    } else {
        assert(a.contains(a[0]));
        if starts(s, t) {
            assert(s.take(t.len() as int)[0] == s[0]);
        }
        let rest = a.drop_first();
        if rest.contains(t[0]) {
            let k = choose|k: int| 0 <= k < rest.len() && rest[k] == t[0];
            assert(a[k + 1] == t[0]);
        }
        lemma_found_behind(rest, t, b);
        assert(s.drop_first() =~= rest + t + b);
    }
}

/// A text that does not hold the first character of another does not hold it.
pub proof fn lemma_not_found(s: Seq<char>, t: Seq<char>)
    requires
        t.len() > 0,
        !s.contains(t[0]),
    ensures
        find_spec(s, t) is None,
    decreases s.len(),
{
    if starts(s, t) {
        assert(s.take(t.len() as int)[0] == s[0]);
        assert(s.contains(s[0]));
    }
    if s.len() > 0 {
        let rest = s.drop_first();
        if rest.contains(t[0]) {
            let k = choose|k: int| 0 <= k < rest.len() && rest[k] == t[0];
            assert(s[k + 1] == t[0]);
        }
        lemma_not_found(rest, t);
    }
}

/// A line: something without a line feed, and no carriage return at its end.
pub open spec fn is_line(s: Seq<char>) -> bool {
    !s.contains('\n') && (s.len() > 0 ==> s.last() != '\r')
}

/// A line feed parts a line from the lines that follow.
pub proof fn lemma_first_line(a: Seq<char>, b: Seq<char>)
    requires
        is_line(a),
    ensures
        lines_spec(a + seq!['\n'] + b) == seq![a] + lines_spec(b),
{
    let s = a + seq!['\n'] + b;
    let p = eq_char('\n');
    assert forall|j: int| 0 <= j < a.len() implies !p(#[trigger] s[j]) by {
        assert(s[j] == a[j]);
        assert(a.contains(a[j]));
    }
    assert(s[a.len() as int] == '\n');
    lemma_first_index_is(s, p, a.len() as int);
    assert(s.take(a.len() as int) =~= a);
    assert(s.skip(a.len() as int + 1) =~= b);
}

/// A text of one line.
pub proof fn lemma_only_line(a: Seq<char>)
    requires
        !a.contains('\n'),
        a.len() > 0,
    ensures
        lines_spec(a) == seq![a],
{
    let p = eq_char('\n');
    assert forall|j: int| 0 <= j < a.len() implies !p(#[trigger] a[j]) by {
        assert(a.contains(a[j]));
    }
    lemma_first_index_is(a, p, a.len() as int);
}

/// Lines written one below the other read back as they were.
pub proof fn lines_read_back(lines: Seq<Seq<char>>)
    requires
        forall|i: int| 0 <= i < lines.len() ==> is_line(#[trigger] lines[i]),
        lines.len() > 0 ==> lines.last().len() > 0,
    ensures
        lines_spec(join_spec(lines, "\n"@)) == lines,
    decreases lines.len(),
{
    reveal_strlit("\n");
    assert("\n"@ =~= seq!['\n']);
    if lines.len() == 0 {
        assert(lines_spec(join_spec(lines, "\n"@)) =~= lines);
    } else if lines.len() == 1 {
        assert(is_line(lines[0]));
        lemma_only_line(lines[0]);
        assert(lines =~= seq![lines[0]]);
    } else {
        assert(is_line(lines[0]));
        let rest = lines.drop_first();
        assert forall|i: int| 0 <= i < rest.len() implies is_line(#[trigger] rest[i]) by {
            assert(rest[i] == lines[i + 1]);
        }
        lines_read_back(rest);
        lemma_join_front(lines, "\n"@);
        lemma_first_line(lines[0], join_spec(rest, "\n"@));
        assert(seq![lines[0]] + rest =~= lines);
    }
}

/// Joining from the front.
pub proof fn lemma_join_front(parts: Seq<Seq<char>>, sep: Seq<char>)
    requires
        parts.len() >= 2,
    ensures
        join_spec(parts, sep) == parts[0] + sep + join_spec(parts.drop_first(), sep),
    decreases parts.len(),
{
    let rest = parts.drop_first();
    let before = parts.drop_last();
    if parts.len() == 2 {
        assert(join_spec(before, sep) == parts[0]);
        assert(join_spec(rest, sep) == parts[1]);
    } else {
        lemma_join_front(before, sep);
        assert(before.drop_first() =~= rest.drop_last());
        assert(rest.last() == parts.last());
        assert(join_spec(parts, sep) =~= parts[0] + sep + join_spec(rest, sep));
    }
}

/// Pieces without a separator come back from their join.
pub proof fn pieces_read_back(parts: Seq<Seq<char>>, c: char)
    requires
        parts.len() > 0,
        forall|i: int| 0 <= i < parts.len() ==> !(#[trigger] parts[i]).contains(c),
    ensures
        split_spec(join_spec(parts, seq![c]), eq_char(c)) == parts,
    decreases parts.len(),
{
    let p = eq_char(c);
    let first = parts[0];
    assert forall|j: int| 0 <= j < first.len() implies !p(#[trigger] first[j]) by {
        assert(first.contains(first[j]));
    }
    lemma_split_none(first, p);
    if parts.len() == 1 {
        assert(parts =~= seq![first]);
    } else {
        let rest = parts.drop_first();
        assert forall|i: int| 0 <= i < rest.len() implies !(#[trigger] rest[i]).contains(c) by {
            assert(rest[i] == parts[i + 1]);
        }
        pieces_read_back(rest, c);
        lemma_join_front(parts, seq![c]);
        lemma_split_at(first, c, join_spec(rest, seq![c]), p);
        assert(seq![first] + rest =~= parts);
    }
}

/// Where a text is found it stands, and it stands nowhere before.
pub proof fn the_first_occurrence_is_found(s: Seq<char>, t: Seq<char>)
    ensures
        match find_spec(s, t) {
            Some(i) => 0 <= i && i + t.len() <= s.len() && s.subrange(i, i + t.len()) == t
                && forall|j: int| 0 <= j < i ==> #[trigger] s.subrange(j, j + t.len()) != t,
            None => forall|j: int|
                0 <= j && j + t.len() <= s.len() ==> #[trigger] s.subrange(j, j + t.len()) != t,
        },
    decreases s.len(),
{
    let n = t.len() as int;
    if n <= s.len() {
        assert(s.take(n) =~= s.subrange(0, n));
    }
    if !starts(s, t) && s.len() > 0 {
        let rest = s.drop_first();
        the_first_occurrence_is_found(rest, t);
        assert forall|j: int| 0 <= j && j + n <= rest.len() implies s.subrange(j + 1, j + 1 + n)
            == #[trigger] rest.subrange(j, j + n) by {
            assert(s.subrange(j + 1, j + 1 + n) =~= rest.subrange(j, j + n));
        }
        match find_spec(rest, t) {
            Some(i) => {
                assert forall|j: int| 0 <= j < i + 1 implies #[trigger] s.subrange(j, j + n)
                    != t by {
                    if j > 0 {
                        assert(s.subrange(j, j + n) == rest.subrange(j - 1, j - 1 + n));
                    }
                }
                assert(s.subrange(i + 1, i + 1 + n) == rest.subrange(i, i + n));
            },
            None => {
                assert forall|j: int| 0 <= j && j + n <= s.len() implies #[trigger] s.subrange(
                    j,
                    j + n,
                ) != t by {
                    if j > 0 {
                        assert(s.subrange(j, j + n) == rest.subrange(j - 1, j - 1 + n));
                    }
                }
            },
        }
    }
}

/// Trimming drops blanks at the ends and nothing else, and leaves none there.
pub proof fn trimming_drops_only_blanks(s: Seq<char>)
    ensures
        exists|a: int, b: int|
            0 <= a <= b <= s.len() && #[trigger] s.subrange(a, b) == trim_spec(s) && (forall|i: int|
                0 <= i < a || b <= i < s.len() ==> is_space(#[trigger] s[i])),
        trim_spec(s).len() > 0 ==> !is_space(trim_spec(s)[0]) && !is_space(trim_spec(s).last()),
{
    lemma_first_index(s, not_space());
    let a = first_index(s, not_space());
    let t = s.skip(a);
    lemma_last_index(t, not_space());
    let k = last_index(t, not_space());
    let b = a + k;
    assert(s.subrange(a, b) =~= trim_spec(s));
    assert forall|i: int| 0 <= i < a || b <= i < s.len() implies is_space(#[trigger] s[i]) by {
        if i >= b {
            assert(t[i - a] == s[i]);
            assert(!not_space()(t[i - a]));
        } else {
            assert(!not_space()(s[i]));
        }
    }
    if trim_spec(s).len() > 0 {
        assert(trim_spec(s)[0] == t[0]);
        assert(t[0] == s[a]);
        assert(trim_spec(s).last() == t[k - 1]);
    }
}

/// Of two texts that are the same up to some place, the one that ends there, or that
/// has the smaller character there, comes first.
pub proof fn texts_are_ordered_by_their_first_difference(a: Seq<char>, b: Seq<char>, i: int)
    requires
        0 <= i <= a.len(),
        i < b.len(),
        a.take(i) == b.take(i),
        i == a.len() || a[i] < b[i],
    ensures
        lex_lt(a, b),
        !lex_lt(b, a),
        a != b,
    decreases i,
{
    if i > 0 {
        assert(a[0] == a.take(i)[0]);
        assert(b[0] == b.take(i)[0]);
        let x = a.drop_first();
        let y = b.drop_first();
        assert(x.take(i - 1) =~= a.take(i).drop_first());
        assert(y.take(i - 1) =~= b.take(i).drop_first());
        texts_are_ordered_by_their_first_difference(x, y, i - 1);
    }
    lemma_lex_total(a, b);
}

/// Making a text small changes its capitals, each to the letter that stands as far
/// behind `a` as it stands behind `A`, and nothing else; doing so again changes nothing.
pub proof fn only_capitals_are_made_small(s: Seq<char>)
    ensures
        lower_ascii_spec(s).len() == s.len(),
        forall|i: int|
            0 <= i < s.len() ==> if 65 <= #[trigger] s[i] as int && s[i] as int <= 90 {
                lower_ascii_spec(s)[i] as int - 97 == s[i] as int - 65
            } else {
                lower_ascii_spec(s)[i] == s[i]
            },
        lower_ascii_spec(lower_ascii_spec(s)) == lower_ascii_spec(s),
{
    assert(lower_ascii_spec(lower_ascii_spec(s)) =~= lower_ascii_spec(s));
}

/// Texts that are joined stand one behind the other, with what joins them between.
pub proof fn joined_texts_follow_each_other(
    before: Seq<Seq<char>>,
    after: Seq<Seq<char>>,
    sep: Seq<char>,
)
    requires
        before.len() > 0,
        after.len() > 0,
    ensures
        join_spec(before + after, sep) == join_spec(before, sep) + sep + join_spec(after, sep),
        join_spec(seq![after[0]], sep) == after[0],
    decreases after.len(),
{
    let all = before + after;
    if after.len() == 1 {
        assert(all.drop_last() =~= before);
        assert(all.last() == after[0]);
        assert(join_spec(after, sep) == after[0]);
    } else {
        joined_texts_follow_each_other(before, after.drop_last(), sep);
        assert(all.drop_last() =~= before + after.drop_last());
        assert(all.last() == after.last());
        assert(join_spec(all, sep) =~= join_spec(before, sep) + sep + join_spec(after, sep));
    }
}

/// The first word of a text is what stands before the first blank behind those it
/// begins with.
pub proof fn the_first_word_ends_at_a_blank(before: Seq<char>, word: Seq<char>, rest: Seq<char>)
    requires
        forall|i: int| 0 <= i < before.len() ==> is_space(#[trigger] before[i]),
        word.len() > 0,
        forall|i: int| 0 <= i < word.len() ==> !is_space(#[trigger] word[i]),
        rest.len() > 0 ==> is_space(rest[0]),
    ensures
        first_word_spec(before + word + rest) == word,
{
    let s = before + word + rest;
    assert(s[before.len() as int] == word[0]);
    lemma_first_index_is(s, not_space(), before.len() as int);
    let t = trim_start_spec(s);
    assert(t =~= word + rest);
    lemma_first_index_is(t, space(), word.len() as int);
    assert(t.take(word.len() as int) =~= word);
}

/// Replacing changes the first occurrence and goes on behind it, and leaves a text
/// alone that holds none.
pub proof fn occurrences_are_replaced_in_turn(
    a: Seq<char>,
    b: Seq<char>,
    from: Seq<char>,
    to: Seq<char>,
)
    requires
        from.len() > 0,
        !a.contains(from[0]),
    ensures
        replace_spec(a + from + b, from, to) == a + to + replace_spec(b, from, to),
        replace_spec(a, from, to) == a,
{
    let s = a + from + b;
    lemma_found_behind(a, from, b);
    assert(s.take(a.len() as int) =~= a);
    assert(s.skip(a.len() as int + from.len()) =~= b);
    lemma_not_found(a, from);
}

} // verus!
