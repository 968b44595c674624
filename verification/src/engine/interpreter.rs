//! Interpreter discovery.
//!
//! The machine is probed for CPython interpreters by the conventional command
//! names; results are deduped by the interpreter's resolved path, so `python`
//! and `python3` pointing at the same binary count once.

use vstd::prelude::*;

use crate::engine::command::{first_line, lemma_first_of_lines, Output};
use crate::pypi::pyversion::{
    parse_version_spec, version_text, versions_read_back, PyVersion, MAX_MINOR, MIN_MINOR,
};
use crate::text;

verus! {

/// A Python interpreter found on the machine.
#[derive(Debug, PartialEq, Eq)]
pub struct Interpreter {
    /// The command name we found it under (e.g. "python3.12").
    pub command: String,
    /// Its resolved absolute path (`sys.executable`).
    pub path: String,
    pub version: PyVersion,
}

/// An interpreter, mathematically.
#[verifier::ext_equal]
pub struct InterpreterView {
    pub command: Seq<char>,
    pub path: Seq<char>,
    pub version: PyVersion,
}

impl View for Interpreter {
    type V = InterpreterView;

    open spec fn view(&self) -> InterpreterView {
        InterpreterView { command: self.command@, path: self.path@, version: self.version }
    }
}

impl Clone for Interpreter {
    fn clone(&self) -> (r: Interpreter)
        ensures
            r == *self,
    {
        Interpreter {
            command: self.command.clone(),
            path: self.path.clone(),
            version: self.version,
        }
    }
}

pub open spec fn interpreter_views(v: Seq<Interpreter>) -> Seq<InterpreterView> {
    Seq::new(v.len(), |i: int| v[i]@)
}

/// One-line Python program that prints "MAJOR.MINOR\t<executable path>".
pub const PROBE: &'static str =
    "import sys;print('%d.%d\t%s'%(sys.version_info[0],sys.version_info[1],sys.executable))";

/// The command names to probe: `python3`, `python`, then `python3.X` for each
/// minor below `m`.
pub open spec fn candidates_to(m: int) -> Seq<Seq<char>>
    decreases m - MIN_MINOR,
{
    if m <= MIN_MINOR {
        seq!["python3"@, "python"@]
    } else {
        candidates_to(m - 1).push("python3."@ + text::decimal_spec((m - 1) as nat))
    }
}

/// The command names to probe.
pub fn candidates() -> (r: Vec<String>)
    ensures
        text::texts(r@) == candidates_to(MAX_MINOR + 1),
{
    let mut out = text::strings(&["python3", "python"]);
    proof {
        assert(text::texts(out@) =~= seq!["python3"@, "python"@]);
    }
    let mut m: u8 = MIN_MINOR;
    while m <= MAX_MINOR
        invariant
            MIN_MINOR <= m <= MAX_MINOR + 1,
            text::texts(out@) == candidates_to(m as int),
        decreases MAX_MINOR + 1 - m,
    {
        let mut name = "python3.".to_string();
        name.append(text::decimal(m as u64).as_str());
        proof {
            text::lemma_texts_push(out@, name);
        }
        out.push(name);
        m += 1;
    }
    out
}

/// The interpreter behind a command, from what its probe printed: the version,
/// a tab, the path.
pub open spec fn probed(command: Seq<char>, succeeded: bool, stdout: Seq<char>) -> Option<
    InterpreterView,
> {
    match first_line(stdout) {
        Some(line) => {
            let tab = text::first_index(line, text::eq_char('\t'));
            if succeeded && tab < line.len() {
                match parse_version_spec(line.take(tab)) {
                    Some(version) => Some(
                        InterpreterView {
                            command,
                            path: text::trim_spec(line.skip(tab + 1)),
                            version,
                        },
                    ),
                    None => None,
                }
            } else {
                None
            }
        },
        None => None,
    }
}

/// The interpreter behind a command, from what its probe printed.
pub fn read_probe(command: &str, out: &Output) -> (r: Option<Interpreter>)
    ensures
        match r {
            Some(i) => probed(command@, out.succeeded(), out.stdout@) == Some(i@),
            None => probed(command@, out.succeeded(), out.stdout@) is None,
        },
{
    if !out.success() {
        return None;
    }
    let line = match out.first_stdout_line() {
        Some(line) => line,
        None => return None,
    };
    let line = line.as_str();
    let tab = text::index_of(line, '\t');
    if tab == line.unicode_len() {
        return None;
    }
    let version = match PyVersion::parse(text::before(line, tab)) {
        Some(v) => v,
        None => return None,
    };
    let path = text::trim(text::after(line, tab + 1)).to_string();
    Some(Interpreter { command: command.to_string(), path, version })
}

// ---------------------------------------------------------------------------
// One entry per interpreter
// ---------------------------------------------------------------------------

/// Newer first: by major, then by minor.
pub open spec fn newer(a: PyVersion, b: PyVersion) -> bool {
    a.major > b.major || (a.major == b.major && a.minor > b.minor)
}

/// Whether the found interpreter at `k` is the one to keep for its path: no
/// other found under a longer command name, nor an earlier under one as long.
pub open spec fn preferred(found: Seq<InterpreterView>, k: int) -> bool {
    forall|j: int|
        0 <= j < found.len() && (#[trigger] found[j]).path == found[k].path
            ==> found[j].command.len() < found[k].command.len() || (found[j].command.len()
            == found[k].command.len() && k <= j)
}

/// Whether `x` is one of `found`, and the one to keep for its path.
pub open spec fn kept(found: Seq<InterpreterView>, x: InterpreterView) -> bool {
    exists|k: int| 0 <= k < found.len() && found[k] == x && #[trigger] preferred(found, k)
}

pub open spec fn has_path(v: Seq<InterpreterView>, path: Seq<char>) -> bool {
    exists|i: int| 0 <= i < v.len() && (#[trigger] v[i]).path == path
}

/// Whether `out` keeps one of `found` per path, the one under the most specific
/// command, newest version first. Equal versions stand in any order.
pub open spec fn discovered(found: Seq<InterpreterView>, out: Seq<InterpreterView>) -> bool {
    &&& forall|i: int, j: int|
        0 <= i < j < out.len() ==> (#[trigger] out[i]).path != (#[trigger] out[j]).path && !newer(
            out[j].version,
            out[i].version,
        )
    &&& forall|i: int|
        0 <= i < out.len() ==> kept(found, #[trigger] out[i])
    &&& forall|k: int| 0 <= k < found.len() ==> has_path(out, (#[trigger] found[k]).path)
}

fn is_newer(a: PyVersion, b: PyVersion) -> (r: bool)
    ensures
        r == newer(a, b),
{
    a.major > b.major || (a.major == b.major && a.minor > b.minor)
}

/// Where to put a version in a list ordered newest first: behind all that are
/// at least as new.
fn place(out: &Vec<Interpreter>, version: PyVersion) -> (r: usize)
    requires
        forall|i: int, j: int|
            0 <= i < j < out@.len() ==> !newer(#[trigger] out@[j].version, #[trigger] out@[i].version),
    ensures
        r <= out@.len(),
        forall|i: int| 0 <= i < r ==> !newer(version, #[trigger] out@[i].version),
        forall|i: int| r <= i < out@.len() ==> newer(version, #[trigger] out@[i].version),
{
    let mut i: usize = 0;
    while i < out.len()
        invariant
            i <= out@.len(),
            forall|j: int| 0 <= j < i ==> !newer(version, #[trigger] out@[j].version),
            forall|i: int, j: int|
                0 <= i < j < out@.len() ==> !newer(
                    #[trigger] out@[j].version,
                    #[trigger] out@[i].version,
                ),
        decreases out@.len() - i,
    {
        if is_newer(version, out[i].version) {
            proof {
                assert forall|k: int| i <= k < out@.len() implies newer(
                    version,
                    #[trigger] out@[k].version,
                ) by {
                    if k > i {
                        assert(!newer(out@[k].version, out@[i as int].version));
                    }
                }
            }
            return i;
        }
        i += 1;
    }
    i
}

/// The position of the interpreter to keep for the path of the one at `k`.
fn keeper(found: &Vec<Interpreter>, k: usize) -> (r: usize)
    requires
        k < found@.len(),
    ensures
        r < found@.len(),
        found@[r as int]@.path == found@[k as int]@.path,
        preferred(interpreter_views(found@), r as int),
{
    let ghost views = interpreter_views(found@);
    let mut best: usize = k;
    let mut settled: bool = false;
    let mut j: usize = 0;
    while j < found.len()
        invariant
            j <= found@.len(),
            k < found@.len(),
            best < found@.len(),
            views == interpreter_views(found@),
            views[best as int].path == views[k as int].path,
            settled ==> best < j,
            !settled ==> best == k && forall|i: int|
                0 <= i < j ==> (#[trigger] views[i]).path != views[k as int].path,
            settled ==> forall|i: int|
                0 <= i < j && (#[trigger] views[i]).path == views[k as int].path
                    ==> views[i].command.len() < views[best as int].command.len() || (
                views[i].command.len() == views[best as int].command.len() && best <= i),
        decreases found@.len() - j,
    {
        proof {
            assert(views[j as int] == found@[j as int]@);
            assert(views[best as int] == found@[best as int]@);
            assert(views[k as int] == found@[k as int]@);
        }
        if text::same(found[j].path.as_str(), found[k].path.as_str()) {
            if !settled || found[j].command.as_str().unicode_len()
                > found[best].command.as_str().unicode_len() {
                best = j;
                settled = true;
            }
        }
        j += 1;
    }
    proof {
        if !settled {
            assert(views[k as int].path != views[k as int].path);
        }
    }
    best
}

fn lists_path(out: &Vec<Interpreter>, path: &str) -> (r: bool)
    ensures
        r == exists|i: int| 0 <= i < out@.len() && (#[trigger] out@[i])@.path == path@,
{
    let mut i: usize = 0;
    while i < out.len()
        invariant
            i <= out@.len(),
            forall|j: int| 0 <= j < i ==> (#[trigger] out@[j])@.path != path@,
        decreases out@.len() - i,
    {
        if text::same(out[i].path.as_str(), path) {
            return true;
        }
        i += 1;
    }
    false
}

/// Dedupe by resolved executable path, preferring the most specific command,
/// newest version first.
pub fn discover(found: &Vec<Interpreter>) -> (r: Vec<Interpreter>)
    ensures
        discovered(interpreter_views(found@), interpreter_views(r@)),
{
    let ghost views = interpreter_views(found@);
    let mut out: Vec<Interpreter> = Vec::new();
    let mut k: usize = 0;
    while k < found.len()
        invariant
            k <= found@.len(),
            views == interpreter_views(found@),
            forall|i: int, j: int|
                0 <= i < j < out@.len() ==> (#[trigger] out@[i])@.path != (#[trigger] out@[j])@.path
                    && !newer(out@[j]@.version, out@[i]@.version),
            forall|i: int|
                0 <= i < out@.len() ==> exists|m: int|
                    0 <= m < views.len() && views[m] == (#[trigger] out@[i])@
                        && #[trigger] preferred(views, m),
            forall|m: int|
                0 <= m < k ==> exists|i: int|
                    0 <= i < out@.len() && (#[trigger] out@[i])@.path == (#[trigger] views[m]).path,
        decreases found@.len() - k,
    {
        proof {
            assert(views[k as int] == found@[k as int]@);
        }
        if !lists_path(&out, found[k].path.as_str()) {
            let best = keeper(found, k);
            let ghost b = found@[best as int];
            let ghost before = out@;
            proof {
                assert(views[best as int] == b@);
            }
            let p = place(&out, found[best].version);
            out.insert(p, found[best].clone());
            proof {
                let after = out@;
                assert(after =~= before.insert(p as int, b));
                assert(after[p as int] == b);
                assert forall|i: int| 0 <= i < p implies #[trigger] after[i] == before[i] by {}
                assert forall|i: int| p < i < after.len() implies #[trigger] after[i] == before[i
                    - 1] by {}
                assert forall|i: int, j: int| 0 <= i < j < after.len() implies (
                #[trigger] after[i])@.path != (#[trigger] after[j])@.path && !newer(
                    after[j]@.version,
                    after[i]@.version,
                ) by {
                    if i < p && j == p {
                        assert(!newer(b.version, before[i].version));
                        assert(before[i]@.path != b@.path);
                    } else if i == p {
                        assert(newer(b.version, before[j - 1].version));
                        assert(before[j - 1]@.path != b@.path);
                    } else {
                        let x = if i < p {
                            i
                        } else {
                            i - 1
                        };
                        let y = if j < p {
                            j
                        } else {
                            j - 1
                        };
                        assert(after[i] == before[x]);
                        assert(after[j] == before[y]);
                        assert(before[x]@.path != before[y]@.path);
                    }
                }
                assert forall|i: int| 0 <= i < after.len() implies exists|m: int|
                    0 <= m < views.len() && views[m] == (#[trigger] after[i])@
                        && #[trigger] preferred(views, m) by {
                    if i == p {
                        assert(preferred(views, best as int));
                    } else {
                        let x = if i < p {
                            i
                        } else {
                            i - 1
                        };
                        assert(after[i] == before[x]);
                        assert(0 <= x < before.len());
                    }
                }
                assert forall|m: int| 0 <= m < k + 1 implies exists|i: int|
                    0 <= i < after.len() && (#[trigger] after[i])@.path == (
                    #[trigger] views[m]).path by {
                    if m < k {
                        let x = choose|x: int|
                            0 <= x < before.len() && (#[trigger] before[x])@.path == views[m].path;
                        if x < p {
                            assert(after[x]@.path == views[m].path);
                        } else {
                            assert(after[x + 1] == before[x]);
                            assert(after[x + 1]@.path == views[m].path);
                        }
                    } else {
                        assert(after[p as int]@.path == views[m].path);
                    }
                }
            }
        }
        k += 1;
    }
    proof {
        let outs = interpreter_views(out@);
        assert forall|i: int, j: int| 0 <= i < j < outs.len() implies (#[trigger] outs[i]).path != (
        #[trigger] outs[j]).path && !newer(outs[j].version, outs[i].version) by {
            assert(out@[i]@.path != out@[j]@.path);
        }
        assert forall|i: int| 0 <= i < outs.len() implies kept(views, #[trigger] outs[i]) by {
            assert(outs[i] == out@[i]@);
        }
        assert forall|m: int| 0 <= m < views.len() implies has_path(
            outs,
            (#[trigger] views[m]).path,
        ) by {
            let x = choose|x: int|
                0 <= x < out@.len() && (#[trigger] out@[x])@.path == views[m].path;
            assert(outs[x].path == views[m].path);
        }
    }
    out
}

/// Whether `i` is the first interpreter of a version.
pub open spec fn first_of(v: Seq<InterpreterView>, version: PyVersion, i: int) -> bool {
    0 <= i < v.len() && v[i].version == version && forall|j: int|
        0 <= j < i ==> (#[trigger] v[j]).version != version
}

/// Find an interpreter matching an exact minor version (for pip-mode venv creation).
pub fn find_version(interpreters: &[Interpreter], version: PyVersion) -> (r: Option<&Interpreter>)
    ensures
        match r {
            Some(found) => exists|i: int|
                first_of(interpreter_views(interpreters@), version, i) && *found
                    == #[trigger] interpreters@[i],
            None => forall|i: int|
                0 <= i < interpreters@.len() ==> (#[trigger] interpreters@[i]).version != version,
        },
{
    let ghost views = interpreter_views(interpreters@);
    let mut i: usize = 0;
    while i < interpreters.len()
        invariant
            i <= interpreters@.len(),
            views == interpreter_views(interpreters@),
            forall|j: int| 0 <= j < i ==> (#[trigger] interpreters@[j]).version != version,
        decreases interpreters@.len() - i,
    {
        if interpreters[i].version == version {
            proof {
                assert forall|j: int| 0 <= j < i implies (#[trigger] views[j]).version
                    != version by {
                    assert(interpreters@[j].version != version);
                }
                assert(first_of(views, version, i as int));
            }
            return Some(&interpreters[i]);
        }
        i += 1;
    }
    None
}

/// A probe that printed a version, a tab and a path found that interpreter, where the
/// version is in scope; one that failed found none.
pub proof fn probes_name_the_version_and_the_path(
    command: Seq<char>,
    v: PyVersion,
    path: Seq<char>,
)
    requires
        v.major == 3,
        path.len() > 0 && !text::is_space(path[0]) && !text::is_space(path.last()),
        !path.contains('\n'),
    ensures
        probed(command, true, version_text(v) + "\t"@ + path) == if 7 <= v.minor <= 14 {
            Some(InterpreterView { command, path, version: v })
        } else {
            None
        },
        probed(command, false, version_text(v) + "\t"@ + path) is None,
{
    reveal_strlit("\t");
    reveal_strlit(".");
    let t = version_text(v);
    let line = t + "\t"@ + path;
    let major = text::decimal_spec(3);
    let minor = text::decimal_spec(v.minor as nat);
    text::numbers_read_back(3, 3);
    text::numbers_read_back(v.minor as nat, u8::MAX as nat);
    assert(text::is_digit(major[0]));
    assert(t[0] == major[0]);
    assert forall|j: int| 0 <= j < t.len() implies text::is_digit(#[trigger] t[j]) || t[j]
        == '.' by {
        if j < major.len() {
            assert(t[j] == major[j]);
        } else if j > major.len() {
            assert(t[j] == minor[j - major.len() - 1]);
        }
    }
    assert(line[0] == t[0] && line.last() == path.last());
    assert(text::is_line(line)) by {
        if line.contains('\n') {
            let k = choose|k: int| 0 <= k < line.len() && line[k] == '\n';
            if k < t.len() {
                assert(t[k] == '\n');
            } else if k > t.len() {
                assert(path[k - t.len() - 1] == '\n');
            }
        }
    }
    lemma_first_of_lines(line, Seq::empty());
    let n = t.len() as int;
    assert forall|j: int| 0 <= j < n implies !text::eq_char('\t')(#[trigger] line[j]) by {
        assert(line[j] == t[j]);
    }
    assert(line[n] == '\t');
    text::lemma_first_index_is(line, text::eq_char('\t'), n);
    assert(line.take(n) =~= t);
    assert(line.skip(n + 1) =~= path);
    text::lemma_trimmed(path);
    versions_read_back(v, Seq::empty());
}

/// Every version in scope is looked for under its own command, besides the two that name
/// none.
pub proof fn every_version_is_looked_for(m: nat)
    requires
        7 <= m <= 14,
    ensures
        candidates_to(MAX_MINOR + 1).contains("python3."@ + text::decimal_spec(m)),
        candidates_to(MAX_MINOR + 1)[0] == "python3"@,
        candidates_to(MAX_MINOR + 1)[1] == "python"@,
        candidates_to(MAX_MINOR + 1).len() == 10,
{
    lemma_candidates(MAX_MINOR + 1, m);
}

proof fn lemma_candidates(n: int, m: nat)
    requires
        MIN_MINOR <= n,
        MIN_MINOR <= m,
    ensures
        candidates_to(n).len() == 2 + n - MIN_MINOR,
        candidates_to(n)[0] == "python3"@,
        candidates_to(n)[1] == "python"@,
        m < n ==> candidates_to(n)[2 + m - MIN_MINOR] == "python3."@ + text::decimal_spec(m),
    decreases n - MIN_MINOR,
{
    if n > MIN_MINOR {
        lemma_candidates(n - 1, m);
    }
}

/// Of what was found each interpreter is listed once, under the longest of the names
/// it was found by, and none is listed before a newer one.
pub proof fn interpreters_are_listed_newest_first(
    found: Seq<InterpreterView>,
    out: Seq<InterpreterView>,
    k: int,
)
    requires
        discovered(found, out),
        0 <= k < found.len(),
    ensures
        exists|i: int|
            0 <= i < out.len() && (#[trigger] out[i]).path == found[k].path
                && out[i].command.len() >= found[k].command.len(),
        forall|i: int, j: int|
            0 <= i < j < out.len() ==> (#[trigger] out[i]).path != (#[trigger] out[j]).path && (
            out[i].version.major > out[j].version.major || (out[i].version.major
                == out[j].version.major && out[i].version.minor >= out[j].version.minor)),
        forall|i: int| 0 <= i < out.len() ==> found.contains(#[trigger] out[i]),
{
    assert(has_path(out, found[k].path));
    let i = choose|i: int| 0 <= i < out.len() && (#[trigger] out[i]).path == found[k].path;
    assert(kept(found, out[i]));
    let j = choose|j: int|
        0 <= j < found.len() && found[j] == out[i] && #[trigger] preferred(found, j);
    assert(found[k].path == found[j].path);
    assert forall|i: int| 0 <= i < out.len() implies found.contains(#[trigger] out[i]) by {
        assert(kept(found, out[i]));
    }
}

} // verus!
