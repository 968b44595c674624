//! Terminal output as data: lines of styled text, for whoever prints them.

use vstd::prelude::*;

use crate::text;

verus! {

/// How a piece of text is to be shown.
#[derive(Debug, Clone, Copy, PartialEq, Eq, Structural)]
pub enum Style {
    Plain,
    Bold,
    Dimmed,
    Cyan,
    CyanBold,
    BlueBold,
    Green,
    GreenBold,
    Yellow,
    YellowBold,
    RedBold,
}

/// A piece of text in one style.
#[derive(Debug, PartialEq, Eq)]
pub struct Span {
    pub text: String,
    pub style: Style,
}

/// A piece of text, mathematically.
#[verifier::ext_equal]
pub struct SpanView {
    pub text: Seq<char>,
    pub style: Style,
}

impl View for Span {
    type V = SpanView;

    open spec fn view(&self) -> SpanView {
        SpanView { text: self.text@, style: self.style }
    }
}

/// One line.
#[derive(Debug, PartialEq, Eq)]
pub struct Line {
    pub spans: Vec<Span>,
}

impl View for Line {
    type V = Seq<SpanView>;

    open spec fn view(&self) -> Seq<SpanView> {
        Seq::new(self.spans@.len(), |i: int| self.spans@[i]@)
    }
}

pub open spec fn styled(s: Seq<char>, style: Style) -> SpanView {
    SpanView { text: s, style }
}

pub open spec fn plain(s: Seq<char>) -> SpanView {
    SpanView { text: s, style: Style::Plain }
}

pub open spec fn no_spans() -> Seq<SpanView> {
    Seq::empty()
}

impl Line {
    pub fn new() -> (r: Line)
        ensures
            r@ == no_spans(),
    {
        let r = Line { spans: Vec::new() };
        proof {
            assert(r@ =~= no_spans());
        }
        r
    }

    /// The line with one more piece of text.
    pub fn with(self, s: &str, style: Style) -> (r: Line)
        ensures
            r@ == self@.push(styled(s@, style)),
    {
        let ghost before = self@;
        let mut spans = self.spans;
        spans.push(Span { text: s.to_string(), style });
        let r = Line { spans };
        proof {
            assert(r@ =~= before.push(styled(s@, style)));
        }
        r
    }

    /// The line with one more piece of unstyled text.
    pub fn plain(self, s: &str) -> (r: Line)
        ensures
            r@ == self@.push(plain(s@)),
    {
        self.with(s, Style::Plain)
    }

    /// The line without its styles.
    pub fn to_text(&self) -> (r: String)
        ensures
            r@ == unstyled(self@, self@.len() as int),
    {
        let mut out = String::new();
        let mut i: usize = 0;
        proof {
            assert(out@ =~= unstyled(self@, 0));
        }
        while i < self.spans.len()
            invariant
                i <= self.spans@.len(),
                out@ == unstyled(self@, i as int),
            decreases self.spans@.len() - i,
        {
            proof {
                assert(self@[i as int] == self.spans@[i as int]@);
            }
            out.append(self.spans[i].text.as_str());
            i += 1;
        }
        out
    }
}

/// The text of the first `n` pieces.
pub open spec fn unstyled(line: Seq<SpanView>, n: int) -> Seq<char>
    decreases n,
{
    if n <= 0 {
        seq![]
    } else {
        unstyled(line, n - 1) + line[n - 1].text
    }
}

/// Lines to be printed one below the other.
#[derive(Debug, PartialEq, Eq)]
pub struct Page {
    pub lines: Vec<Line>,
}

impl View for Page {
    type V = Seq<Seq<SpanView>>;

    open spec fn view(&self) -> Seq<Seq<SpanView>> {
        Seq::new(self.lines@.len(), |i: int| self.lines@[i]@)
    }
}

pub open spec fn no_lines() -> Seq<Seq<SpanView>> {
    Seq::empty()
}

impl Page {
    pub fn new() -> (r: Page)
        ensures
            r@ == no_lines(),
    {
        let r = Page { lines: Vec::new() };
        proof {
            assert(r@ =~= no_lines());
        }
        r
    }

    pub fn add(&mut self, line: Line)
        ensures
            final(self)@ == old(self)@.push(line@),
    {
        let ghost before = self@;
        let ghost shown = line@;
        self.lines.push(line);
        proof {
            assert(self@ =~= before.push(shown));
        }
    }
}

/// A text filled up with blanks to a width.
pub open spec fn padded(s: Seq<char>, width: nat) -> Seq<char> {
    if s.len() >= width {
        s
    } else {
        s + Seq::new((width - s.len()) as nat, |i: int| ' ')
    }
}

pub fn pad(s: &str, width: usize) -> (r: String)
    ensures
        r@ == padded(s@, width as nat),
{
    let mut out = s.to_string();
    let mut n: usize = s.unicode_len();
    proof {
        assert(out@ =~= padded(s@, n as nat));
    }
    while n < width
        invariant
            s@.len() <= n,
            n <= width || n == s@.len(),
            out@ == padded(s@, n as nat),
        decreases width - n,
    {
        out.push(' ');
        proof {
            assert(out@ =~= padded(s@, n as nat + 1));
        }
        n += 1;
    }
    out
}

/// At most `max` characters of a trimmed text, and a sign that there was more.
pub open spec fn truncated(s: Seq<char>, max: nat) -> Seq<char> {
    let t = text::trim_spec(s);
    if t.len() <= max {
        t
    } else {
        t.take(max as int) + "…"@
    }
}

pub fn truncate(s: &str, max: usize) -> (r: String)
    ensures
        r@ == truncated(s@, max as nat),
{
    let t = text::trim(s);
    if t.unicode_len() <= max {
        return t.to_string();
    }
    let mut out = text::before(t, max).to_string();
    out.append("…");
    out
}

/// A text is padded to its width with blanks behind it, and never cut.
pub proof fn padding_only_adds_blanks(s: Seq<char>, width: nat, i: int)
    ensures
        s.is_prefix_of(padded(s, width)),
        padded(s, width).len() == if s.len() >= width {
            s.len()
        } else {
            width
        },
        s.len() <= i < padded(s, width).len() ==> padded(s, width)[i] == ' ',
{
    assert(padded(s, width).subrange(0, s.len() as int) =~= s);
}

/// A text that fits is shown whole, and one that does not is cut where it must be, with a
/// mark behind it.
pub proof fn long_texts_are_cut_at_their_width(s: Seq<char>, max: nat)
    requires
        s.len() > 0,
        !text::is_space(s[0]),
        !text::is_space(s.last()),
    ensures
        s.len() <= max ==> truncated(s, max) == s,
        s.len() > max ==> truncated(s, max) == s.subrange(0, max as int) + "…"@,
{
    text::lemma_trimmed(s);
    if s.len() > max {
        assert(s.take(max as int) =~= s.subrange(0, max as int));
    }
}

/// The text of a line is that of its pieces, one behind the other, in any style.
pub proof fn lines_read_as_their_pieces(line: Seq<SpanView>, s: Seq<char>, style: Style)
    ensures
        unstyled(line.push(styled(s, style)), line.len() as int + 1) == unstyled(
            line,
            line.len() as int,
        ) + s,
        unstyled(no_spans(), 0) == Seq::<char>::empty(),
{
    let longer = line.push(styled(s, style));
    lemma_same_start(line, longer, line.len() as int);
    assert(longer[line.len() as int].text == s);
}

proof fn lemma_same_start(a: Seq<SpanView>, b: Seq<SpanView>, n: int)
    requires
        0 <= n <= a.len(),
        n <= b.len(),
        forall|i: int| 0 <= i < n ==> #[trigger] a[i] == b[i],
    ensures
        unstyled(a, n) == unstyled(b, n),
    decreases n,
{
    if n > 0 {
        lemma_same_start(a, b, n - 1);
        assert(a[n - 1] == b[n - 1]);
    }
}

} // verus!
