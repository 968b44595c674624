//! What running a process gave back.
//!
//! Every spawned process uses an explicit argument vector, never a shell string.

use vstd::prelude::*;

use crate::text;

verus! {

/// Captured result of running a process.
#[derive(Debug)]
pub struct Output {
    pub status: Option<i32>,
    pub stdout: String,
    pub stderr: String,
}

pub open spec fn solid_line() -> spec_fn(Seq<char>) -> Option<Seq<char>> {
    |line: Seq<char>|
        if text::trim_spec(line).len() > 0 {
            Some(text::trim_spec(line))
        } else {
            None
        }
}

/// The first line of a text that is not blank, trimmed.
pub open spec fn first_line(s: Seq<char>) -> Option<Seq<char>> {
    text::first_some(text::lines_spec(s), solid_line())
}

/// A program and its arguments.
#[derive(Debug, PartialEq, Eq)]
pub struct Invocation {
    pub program: String,
    pub args: Vec<String>,
}

/// An invocation, mathematically.
#[verifier::ext_equal]
pub struct InvocationView {
    pub program: Seq<char>,
    pub args: Seq<Seq<char>>,
}

impl View for Invocation {
    type V = InvocationView;

    open spec fn view(&self) -> InvocationView {
        InvocationView { program: self.program@, args: text::texts(self.args@) }
    }
}

impl Output {
    pub open spec fn succeeded(&self) -> bool {
        self.status == Some(0i32)
    }

    pub fn success(&self) -> (r: bool)
        ensures
            r == self.succeeded(),
    {
        match self.status {
            Some(code) => code == 0,
            None => false,
        }
    }

    /// First non-empty line of stdout, trimmed (handy for `--version` probes).
    pub fn first_stdout_line(&self) -> (r: Option<String>)
        ensures
            text::opt_text(r) == first_line(self.stdout@),
    {
        let lines = text::lines(self.stdout.as_str());
        let ghost views = text::texts(lines@);
        let mut i: usize = 0;
        while i < lines.len()
            invariant
                i <= lines@.len(),
                views == text::texts(lines@),
                views == text::lines_spec(self.stdout@),
                forall|j: int| 0 <= j < i ==> solid_line()(#[trigger] views[j]) is None,
            decreases lines@.len() - i,
        {
            let line = text::trim(lines[i].as_str());
            proof {
                assert(views[i as int] == lines@[i as int]@);
            }
            if !line.is_empty() {
                proof {
                    text::lemma_first_some_at(views, solid_line(), i as int);
                }
                return Some(line.to_string());
            }
            i += 1;
        }
        proof {
            text::lemma_first_some_at(views, solid_line(), i as int);
        }
        None
    }

    /// The trimmed first stdout line of a probe that ran well.
    pub fn probed_version(&self) -> (r: Option<String>)
        ensures
            text::opt_text(r) == (if self.succeeded() {
                first_line(self.stdout@)
            } else {
                None
            }),
    {
        if self.success() {
            self.first_stdout_line()
        } else {
            None
        }
    }
}

/// The first line that is not blank, where the text begins with it.
pub proof fn lemma_first_of_lines(line: Seq<char>, more: Seq<char>)
    requires
        text::is_line(line),
        line.len() > 0,
        !text::is_space(line[0]),
        !text::is_space(line.last()),
    ensures
        first_line(line + seq!['\n'] + more) == Some(line),
        first_line(line) == Some(line),
{
    text::lemma_first_line(line, more);
    text::lemma_only_line(line);
    text::lemma_trimmed(line);
    let a = text::lines_spec(line + seq!['\n'] + more);
    assert(a[0] == line);
    text::lemma_first_some_at(a, solid_line(), 0);
    let b = text::lines_spec(line);
    assert(b[0] == line);
    text::lemma_first_some_at(b, solid_line(), 0);
}

/// The first line of an output is its first that holds more than blanks, without the
/// blanks around it.
pub proof fn blank_lines_are_passed_over(lines: Seq<Seq<char>>, k: int, line: Seq<char>)
    requires
        0 <= k < lines.len(),
        forall|j: int| 0 <= j < lines.len() ==> text::is_line(#[trigger] lines[j]),
        lines.last().len() > 0,
        forall|j: int| 0 <= j < k ==> (#[trigger] lines[j]).len() == 0,
        lines[k] == line,
        line.len() > 0,
        !text::is_space(line[0]),
        !text::is_space(line.last()),
    ensures
        first_line(text::join_spec(lines, "\n"@)) == Some(line),
{
    text::lines_read_back(lines);
    text::lemma_trimmed(line);
    assert forall|j: int| 0 <= j < k implies solid_line()(#[trigger] lines[j]) is None by {
        text::lemma_trimmed(lines[j]);
    }
    text::lemma_first_some_at(lines, solid_line(), k);
}

} // verus!
