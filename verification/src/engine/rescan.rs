//! The bridge from the command line to the editor.
//!
//! A task-spawned `pypilot doctor|setup` is a separate short-lived process; it
//! cannot draw editor toasts. The long-running server can. The command drops a
//! per-workspace request file in the cache directory, and the server polls that
//! file's time and re-runs the scan when it changes. The file lives outside the
//! workspace so repos are never dirtied.

use vstd::prelude::*;

use crate::text;

verus! {

/// What triggered the request.
#[derive(Debug, Clone, Copy, PartialEq, Eq, Structural)]
pub enum Kind {
    Doctor,
    Setup,
}

pub open spec fn kind_text(k: Kind) -> Seq<char> {
    match k {
        Kind::Doctor => "doctor"@,
        Kind::Setup => "setup"@,
    }
}

impl Kind {
    pub fn as_str(self) -> (r: &'static str)
        ensures
            r@ == kind_text(self),
    {
        match self {
            Kind::Doctor => "doctor",
            Kind::Setup => "setup",
        }
    }
}

/// What a request file holds.
pub fn request_text(kind: Kind, millis: u64) -> (r: String)
    ensures
        r@ == kind_text(kind) + " "@ + text::decimal_spec(millis as nat),
{
    let mut out = kind.as_str().to_string();
    out.append(" ");
    out.append(text::decimal(millis).as_str());
    out
}

pub open spec fn hex_digit(d: nat) -> char {
    if d < 10 {
        ('0' as u32 + d) as char
    } else {
        ('a' as u32 + (d - 10)) as char
    }
}

/// The last `k` hexadecimal digits of a number.
pub open spec fn hex(n: nat, k: nat) -> Seq<char>
    decreases k,
{
    if k == 0 {
        seq![]
    } else {
        hex(n / 16, (k - 1) as nat).push(hex_digit(n % 16))
    }
}

fn digit(d: u64) -> (r: char)
    requires
        d < 16,
    ensures
        r == hex_digit(d as nat),
{
    if d < 10 {
        (('0' as u8) + (d as u8)) as char
    } else {
        (('a' as u8) + ((d - 10) as u8)) as char
    }
}

fn hex_text(n: u64, k: u8) -> (r: String)
    ensures
        r@ == hex(n as nat, k as nat),
    decreases k,
{
    if k == 0 {
        let r = String::new();
        proof {
            assert(r@ =~= seq![]);
        }
        return r;
    }
    let mut out = hex_text(n / 16, k - 1);
    out.push(digit(n % 16));
    out
}

/// What a workspace is known by: its path without regard to case.
pub fn request_key(path: &str) -> (r: String)
    ensures
        r@ == text::lower_spec(path@),
{
    path.to_lowercase()
}

/// The name of the request file of a workspace, by the digest of its path.
pub fn request_file(digest: u64) -> (r: String)
    ensures
        r@ == hex(digest as nat, 16) + ".req"@,
{
    let mut out = hex_text(digest, 16);
    out.append(".req");
    out
}

/// Whether a request file has changed since it was last seen; one that is gone
/// has not.
pub fn is_new(current: Option<u64>, last_seen: Option<u64>) -> (r: bool)
    ensures
        r == (current is Some && current != last_seen),
{
    match (current, last_seen) {
        (Some(a), Some(b)) => a != b,
        (Some(_), None) => true,
        (None, _) => false,
    }
}

/// The number that a run of hexadecimal digits stands for.
pub open spec fn hex_value(s: Seq<char>) -> nat
    decreases s.len(),
{
    if s.len() == 0 {
        0
    } else {
        let c = s.last();
        hex_value(s.drop_last()) * 16 + (if '0' <= c <= '9' {
            (c as u32 - '0' as u32) as nat
        } else {
            (c as u32 - 'a' as u32 + 10) as nat
        })
    }
}

/// A digest reads back from its digits, as far as they go, so different workspaces have
/// different request files.
pub proof fn digests_read_back(n: nat, k: nat)
    ensures
        hex(n, k).len() == k,
        forall|i: int|
            0 <= i < k ==> '0' <= (#[trigger] hex(n, k)[i]) <= '9' || 'a' <= hex(n, k)[i] <= 'f',
        hex_value(hex(n, k)) <= n,
        k > 0 ==> hex_value(hex(n, k)) % 16 == n % 16,
        n < 16 && k > 0 ==> hex_value(hex(n, k)) == n,
    decreases k,
{
    if k > 0 {
        let rest = hex(n / 16, (k - 1) as nat);
        digests_read_back(n / 16, (k - 1) as nat);
        let s = hex(n, k);
        assert(s.drop_last() =~= rest);
        assert(s.last() == hex_digit(n % 16));
        if n < 16 && k > 1 {
            assert(n / 16 == 0);
        }
    }
}

/// Different digests give different request files.
pub proof fn different_digests_have_different_files(a: nat, b: nat, k: nat)
    requires
        hex(a, k) == hex(b, k),
        a < sixteens(k),
        b < sixteens(k),
    ensures
        a == b,
    decreases k,
{
    if k > 0 {
        let x = hex(a / 16, (k - 1) as nat);
        let y = hex(b / 16, (k - 1) as nat);
        assert(x =~= hex(a, k).drop_last());
        assert(y =~= hex(b, k).drop_last());
        assert(hex(a, k).last() == hex_digit(a % 16));
        assert(hex(b, k).last() == hex_digit(b % 16));
        different_digests_have_different_files(a / 16, b / 16, (k - 1) as nat);
    }
}

/// How many numbers have at most `k` hexadecimal digits.
pub open spec fn sixteens(k: nat) -> nat
    decreases k,
{
    if k == 0 {
        1
    } else {
        16 * sixteens((k - 1) as nat)
    }
}

} // verus!
