//! What probing the environment found: uv, the venv and its interpreter, and
//! the interpreters on the machine.

use vstd::prelude::*;

use crate::engine::interpreter::Interpreter;
use crate::engine::uv::UvInfo;
use crate::pypi::pyversion::{parse_version_spec, version_text, versions_read_back, PyVersion};
use crate::text;

verus! {

/// A discovered virtual environment.
#[derive(Debug, PartialEq, Eq)]
pub struct VenvInfo {
    pub path: String,
    /// Interpreter version recorded in `pyvenv.cfg`, if parseable.
    pub python: Option<PyVersion>,
}

/// Everything the fast probe phase learned about the environment.
#[derive(Debug)]
pub struct Probes {
    pub uv: Option<UvInfo>,
    pub venv: Option<VenvInfo>,
    pub interpreters: Vec<Interpreter>,
}

impl Default for Probes {
    fn default() -> (r: Probes)
        ensures
            r.uv is None,
            r.venv is None,
            r.interpreters@.len() == 0,
    {
        Probes { uv: None, venv: None, interpreters: Vec::new() }
    }
}

/// The directories a venv is looked for in, in order.
pub fn venv_names() -> (r: Vec<String>)
    ensures
        text::texts(r@) == seq![".venv"@, "venv"@, "env"@],
{
    let r = text::strings(&[".venv", "venv", "env"]);
    proof {
        assert(text::texts(r@) =~= seq![".venv"@, "venv"@, "env"@]);
    }
    r
}

/// The version a line of a `pyvenv.cfg` records.
pub open spec fn cfg_line_version() -> spec_fn(Seq<char>) -> Option<PyVersion> {
    |line: Seq<char>|
        {
            let parts = text::split_spec(text::trim_spec(line), text::eq_char('='));
            let key = text::trim_spec(parts[0]);
            if (key == "version"@ || key == "version_info"@) && parts.len() > 1 {
                parse_version_spec(text::trim_spec(parts[1]))
            } else {
                None
            }
        }
}

/// The version a `pyvenv.cfg` records: the first that can be read.
pub open spec fn cfg_version(s: Seq<char>) -> Option<PyVersion> {
    text::first_some(text::lines_spec(s), cfg_line_version())
}

fn line_version(line: &str) -> (r: Option<PyVersion>)
    ensures
        r == cfg_line_version()(line@),
{
    let parts = text::split(text::trim(line), '=');
    proof {
        assert(text::texts(parts@)[0] == parts@[0]@);
    }
    let key = text::trim(parts[0].as_str());
    if (text::same(key, "version") || text::same(key, "version_info")) && parts.len() > 1 {
        proof {
            assert(text::texts(parts@)[1] == parts@[1]@);
        }
        PyVersion::parse(text::trim(parts[1].as_str()))
    } else {
        None
    }
}

/// Parse `version = 3.12.1` (or `version_info`) out of a `pyvenv.cfg`.
pub fn parse_pyvenv_version(s: &str) -> (r: Option<PyVersion>)
    ensures
        r == cfg_version(s@),
{
    let lines = text::lines(s);
    let ghost views = text::texts(lines@);
    let mut i: usize = 0;
    while i < lines.len()
        invariant
            i <= lines@.len(),
            views == text::texts(lines@),
            views == text::lines_spec(s@),
            forall|j: int| 0 <= j < i ==> cfg_line_version()(#[trigger] views[j]) is None,
        decreases lines@.len() - i,
    {
        proof {
            assert(views[i as int] == lines@[i as int]@);
        }
        let found = line_version(lines[i].as_str());
        if found.is_some() {
            proof {
                text::lemma_first_some_at(views, cfg_line_version(), i as int);
            }
            return found;
        }
        i += 1;
    }
    proof {
        text::lemma_first_some_at(views, cfg_line_version(), i as int);
    }
    None
}

/// Pick the venv: the first of the candidate directories whose `pyvenv.cfg`
/// could be read, given each with what was read of it.
pub fn detect_venv(candidates: &Vec<(String, Option<String>)>) -> (r: Option<VenvInfo>)
    ensures
        match r {
            Some(venv) => exists|i: int|
                0 <= i < candidates@.len() && (#[trigger] candidates@[i]).1 is Some && venv.path@
                    == candidates@[i].0@ && venv.python == cfg_version(candidates@[i].1->0@)
                    && forall|j: int| 0 <= j < i ==> (#[trigger] candidates@[j]).1 is None,
            None => forall|i: int|
                0 <= i < candidates@.len() ==> (#[trigger] candidates@[i]).1 is None,
        },
{
    let mut i: usize = 0;
    while i < candidates.len()
        invariant
            i <= candidates@.len(),
            forall|j: int| 0 <= j < i ==> (#[trigger] candidates@[j]).1 is None,
        decreases candidates@.len() - i,
    {
        if let Some(cfg) = &candidates[i].1 {
            let venv = VenvInfo {
                path: candidates[i].0.clone(),
                python: parse_pyvenv_version(cfg.as_str()),
            };
            proof {
                assert(candidates@[i as int].1 is Some);
            }
            return Some(venv);
        }
        i += 1;
    }
    None
}

/// The version of an environment is what the first `version` entry of its configuration
/// says, whatever stands before it, and what follows the minor changes nothing.
pub proof fn environments_say_their_version(
    lines: Seq<Seq<char>>,
    k: int,
    key: Seq<char>,
    v: PyVersion,
    patch: nat,
)
    requires
        0 <= k < lines.len(),
        forall|j: int| 0 <= j < lines.len() ==> text::is_line(#[trigger] lines[j]),
        lines.last().len() > 0,
        forall|j: int| 0 <= j < k ==> !(#[trigger] lines[j]).contains('='),
        key == "version"@ || key == "version_info"@,
        lines[k] == key + " = "@ + version_text(v) + "."@ + text::decimal_spec(patch),
        v.major == 3,
        7 <= v.minor <= 14,
    ensures
        cfg_version(text::join_spec(lines, "\n"@)) == Some(v),
{
    text::lines_read_back(lines);
    let f = cfg_line_version();
    assert forall|j: int| 0 <= j < k implies f(#[trigger] lines[j]) is None by {
        let line = text::trim_spec(lines[j]);
        lemma_trim_lacks(lines[j], '=');
        assert forall|i: int| 0 <= i < line.len() implies !text::eq_char('=')(
            #[trigger] line[i],
        ) by {
            assert(line.contains(line[i]));
        }
        text::lemma_split_none(line, text::eq_char('='));
    }
    lemma_version_entry(key, v, patch);
    text::lemma_first_some_at(lines, f, k);
}

proof fn lemma_trim_lacks(s: Seq<char>, c: char)
    requires
        !s.contains(c),
    ensures
        !text::trim_spec(s).contains(c),
{
    text::lemma_first_index(s, text::not_space());
    let a = text::first_index(s, text::not_space());
    let u = s.skip(a);
    text::lemma_last_index(u, text::not_space());
    let t = text::trim_spec(s);
    if t.contains(c) {
        let k = choose|k: int| 0 <= k < t.len() && t[k] == c;
        assert(s[a + k] == c);
    }
}

proof fn lemma_version_entry(key: Seq<char>, v: PyVersion, patch: nat)
    requires
        key == "version"@ || key == "version_info"@,
        v.major == 3,
        7 <= v.minor <= 14,
    ensures
        cfg_line_version()(key + " = "@ + version_text(v) + "."@ + text::decimal_spec(patch))
            == Some(v),
{
    reveal_strlit("version");
    reveal_strlit("version_info");
    reveal_strlit(" = ");
    reveal_strlit(".");
    let digits = text::decimal_spec(patch);
    text::numbers_read_back(patch, patch);
    assert(text::is_digit(digits[digits.len() - 1]));
    let value = version_text(v) + "."@ + digits;
    let major = text::decimal_spec(3);
    let minor = text::decimal_spec(v.minor as nat);
    text::numbers_read_back(3, 3);
    text::numbers_read_back(v.minor as nat, u8::MAX as nat);
    assert(text::is_digit(major[0]));
    assert(value[0] == major[0]);
    let a = key.push(' ');
    let b = seq![' '] + value;
    let line = key + " = "@ + version_text(v) + "."@ + digits;
    assert(line =~= a + seq!['='] + b);
    assert(line[0] == key[0] && line.last() == digits[digits.len() - 1]);
    text::lemma_trimmed(line);
    let p = text::eq_char('=');
    assert forall|i: int| 0 <= i < a.len() implies !p(#[trigger] a[i]) by {
        if i < key.len() {
            assert(a[i] == key[i]);
        }
    }
    text::lemma_split_none(a, p);
    text::lemma_split_at(a, '=', b, p);
    let parts = text::split_spec(line, p);
    assert(parts[0] == a);
    assert forall|i: int| 0 <= i < b.len() implies !p(#[trigger] b[i]) by {
        if i > 0 {
            assert(b[i] == value[i - 1]);
            let t = version_text(v);
            if i - 1 < t.len() {
                if i - 1 < major.len() {
                    assert(value[i - 1] == major[i - 1]);
                    assert(text::is_digit(major[i - 1]));
                } else if i - 1 > major.len() {
                    assert(value[i - 1] == minor[i - 2 - major.len()]);
                    assert(text::is_digit(minor[i - 2 - major.len()]));
                }
            } else if i - 1 > t.len() {
                assert(value[i - 1] == digits[i - 2 - t.len()]);
                assert(text::is_digit(digits[i - 2 - t.len()]));
            }
        }
    }
    text::lemma_split_none(b, p);
    assert(parts[1] == b);
    assert(key.last() == key[key.len() - 1]);
    text::lemma_trimmed(key);
    text::lemma_trim_ends(key, ' ');
    assert(value.last() == digits[digits.len() - 1]);
    text::lemma_trimmed(value);
    text::lemma_trim_ends(value, ' ');
    versions_read_back(v, digits);
}

} // verus!
