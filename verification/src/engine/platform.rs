//! The operating system and architecture: which wheels install here, and which
//! standalone archives to fetch.

use vstd::prelude::*;

use crate::text;

verus! {

#[derive(Debug, Clone, Copy, PartialEq, Eq, Structural)]
pub enum Os {
    Linux,
    Macos,
    Windows,
}

#[derive(Debug, Clone, Copy, PartialEq, Eq, Structural)]
pub enum Arch {
    X86_64,
    Aarch64,
}

#[derive(Debug, Clone, Copy, PartialEq, Eq, Structural)]
pub struct Platform {
    pub os: Os,
    pub arch: Arch,
}

/// Whether a wheel's platform tag runs on this platform. The version component
/// of a manylinux or macosx tag plays no part.
pub open spec fn tag_runs_on(p: Platform, tag: Seq<char>) -> bool {
    ||| tag == "any"@
    ||| match (p.os, p.arch) {
        (Os::Windows, Arch::X86_64) => tag == "win_amd64"@ || tag == "win32"@,
        (Os::Windows, Arch::Aarch64) => tag == "win_arm64"@,
        (Os::Macos, Arch::Aarch64) => text::starts(tag, "macosx"@) && (text::ends(tag, "arm64"@)
            || text::ends(tag, "universal2"@)),
        (Os::Macos, Arch::X86_64) => text::starts(tag, "macosx"@) && (text::ends(tag, "x86_64"@)
            || text::ends(tag, "universal2"@) || text::ends(tag, "intel"@)),
        (Os::Linux, Arch::X86_64) => (text::starts(tag, "manylinux"@) || text::starts(
            tag,
            "musllinux"@,
        )) && text::ends(tag, "x86_64"@),
        (Os::Linux, Arch::Aarch64) => (text::starts(tag, "manylinux"@) || text::starts(
            tag,
            "musllinux"@,
        )) && text::ends(tag, "aarch64"@),
    }
}

/// The target triple of each platform.
pub open spec fn triple(p: Platform) -> Seq<char> {
    match (p.os, p.arch) {
        (Os::Linux, Arch::X86_64) => "x86_64-unknown-linux-gnu"@,
        (Os::Linux, Arch::Aarch64) => "aarch64-unknown-linux-gnu"@,
        (Os::Macos, Arch::X86_64) => "x86_64-apple-darwin"@,
        (Os::Macos, Arch::Aarch64) => "aarch64-apple-darwin"@,
        (Os::Windows, Arch::X86_64) => "x86_64-pc-windows-msvc"@,
        (Os::Windows, Arch::Aarch64) => "aarch64-pc-windows-msvc"@,
    }
}

impl Platform {
    /// The platform with the given operating system and architecture names, as
    /// the compiler spells them. Anything else reads as Linux on x86-64.
    pub fn current(os: &str, arch: &str) -> (r: Platform)
        ensures
            r.os == (if os@ == "windows"@ {
                Os::Windows
            } else if os@ == "macos"@ {
                Os::Macos
            } else {
                Os::Linux
            }),
            r.arch == (if arch@ == "aarch64"@ {
                Arch::Aarch64
            } else {
                Arch::X86_64
            }),
    {
        let os = if text::same(os, "windows") {
            Os::Windows
        } else if text::same(os, "macos") {
            Os::Macos
        } else {
            Os::Linux
        };
        let arch = if text::same(arch, "aarch64") {
            Arch::Aarch64
        } else {
            Arch::X86_64
        };
        Platform { os, arch }
    }

    /// Does a single wheel platform tag run on this machine?
    ///
    /// `any` (pure-python) always matches. Otherwise the tag family and the
    /// architecture have to; the manylinux and macos version component does not.
    pub fn wheel_tag_matches(&self, tag: &str) -> (r: bool)
        ensures
            r == tag_runs_on(*self, tag@),
    {
        if text::same(tag, "any") {
            return true;
        }
        match self.os {
            Os::Windows => match self.arch {
                Arch::X86_64 => text::same(tag, "win_amd64") || text::same(tag, "win32"),
                Arch::Aarch64 => text::same(tag, "win_arm64"),
            },
            Os::Macos => {
                if !text::starts_with(tag, "macosx") {
                    return false;
                }
                match self.arch {
                    Arch::Aarch64 => text::ends_with(tag, "arm64") || text::ends_with(
                        tag,
                        "universal2",
                    ),
                    Arch::X86_64 => text::ends_with(tag, "x86_64") || text::ends_with(
                        tag,
                        "universal2",
                    ) || text::ends_with(tag, "intel"),
                }
            },
            Os::Linux => {
                if !text::starts_with(tag, "manylinux") && !text::starts_with(tag, "musllinux") {
                    return false;
                }
                match self.arch {
                    Arch::X86_64 => text::ends_with(tag, "x86_64"),
                    Arch::Aarch64 => text::ends_with(tag, "aarch64"),
                }
            },
        }
    }

    /// Target triple used by uv's standalone release asset names.
    pub fn uv_triple(&self) -> (r: &'static str)
        ensures
            r@ == triple(*self),
    {
        match (self.os, self.arch) {
            (Os::Linux, Arch::X86_64) => "x86_64-unknown-linux-gnu",
            (Os::Linux, Arch::Aarch64) => "aarch64-unknown-linux-gnu",
            (Os::Macos, Arch::X86_64) => "x86_64-apple-darwin",
            (Os::Macos, Arch::Aarch64) => "aarch64-apple-darwin",
            (Os::Windows, Arch::X86_64) => "x86_64-pc-windows-msvc",
            (Os::Windows, Arch::Aarch64) => "aarch64-pc-windows-msvc",
        }
    }
}

// ---------------------------------------------------------------------------
// Laws
// ---------------------------------------------------------------------------

/// How a tag opens tells its family, and how it closes its processor.
proof fn lemma_tag_ends(tag: Seq<char>)
    ensures
        text::starts(tag, "manylinux"@) ==> tag.len() >= 9 && tag[0] == 'm' && tag[2] == 'n',
        text::starts(tag, "musllinux"@) ==> tag.len() >= 9 && tag[0] == 'm' && tag[2] == 's',
        text::starts(tag, "macosx"@) ==> tag.len() >= 6 && tag[0] == 'm' && tag[2] == 'c',
        text::ends(tag, "x86_64"@) ==> tag.len() >= 6 && tag[tag.len() - 3] == '_' && tag.last()
            == '4',
        text::ends(tag, "aarch64"@) ==> tag.len() >= 7 && tag[tag.len() - 3] == 'h' && tag.last()
            == '4',
        text::ends(tag, "arm64"@) ==> tag.len() >= 5 && tag[tag.len() - 3] == 'm' && tag.last()
            == '4',
        text::ends(tag, "universal2"@) ==> tag.len() >= 10 && tag.last() == '2',
        text::ends(tag, "intel"@) ==> tag.len() >= 5 && tag.last() == 'l',
        "any"@.len() == 3 && "any"@[0] == 'a',
        "win_amd64"@.len() == 9 && "win_amd64"@[0] == 'w' && "win_amd64"@[6] == 'd',
        "win_arm64"@.len() == 9 && "win_arm64"@[0] == 'w' && "win_arm64"@[6] == 'm',
        "win32"@.len() == 5 && "win32"@[0] == 'w',
{
    reveal_strlit("any");
    reveal_strlit("win_amd64");
    reveal_strlit("win_arm64");
    reveal_strlit("win32");
    reveal_strlit("manylinux");
    reveal_strlit("musllinux");
    reveal_strlit("macosx");
    reveal_strlit("x86_64");
    reveal_strlit("aarch64");
    reveal_strlit("arm64");
    reveal_strlit("universal2");
    reveal_strlit("intel");
    let n = tag.len() as int;
    if n >= 9 {
        assert(tag.take(9)[0] == tag[0] && tag.take(9)[2] == tag[2]);
    }
    if n >= 6 {
        assert(tag.take(6)[0] == tag[0] && tag.take(6)[2] == tag[2]);
        assert(tag.skip(n - 6)[3] == tag[n - 3] && tag.skip(n - 6)[5] == tag[n - 1]);
    }
    if n >= 7 {
        assert(tag.skip(n - 7)[4] == tag[n - 3] && tag.skip(n - 7)[6] == tag[n - 1]);
    }
    if n >= 5 {
        assert(tag.skip(n - 5)[2] == tag[n - 3] && tag.skip(n - 5)[4] == tag[n - 1]);
    }
    if n >= 10 {
        assert(tag.skip(n - 10)[9] == tag[n - 1]);
    }
}

proof fn lemma_tag_parts(family: Seq<char>, version: Seq<char>, machine: Seq<char>)
    ensures
        text::starts(family + version + machine, family),
        text::ends(family + version + machine, machine),
{
    let tag = family + version + machine;
    assert(tag.take(family.len() as int) =~= family);
    assert(tag.skip(tag.len() - machine.len()) =~= machine);
    lemma_tag_ends(tag);
}

/// A wheel runs on the machine its tag names and on no other, whatever version
/// stands between family and processor: a Linux tag on its own processor, a macOS
/// tag on its own or, where it is universal, on both, a Windows tag on its own.
/// What is tagged `any` runs everywhere.
pub proof fn wheels_run_on_the_machine_they_name(p: Platform, version: Seq<char>)
    ensures
        tag_runs_on(p, "any"@),
        tag_runs_on(p, "manylinux"@ + version + "x86_64"@) <==> p.os == Os::Linux && p.arch
            == Arch::X86_64,
        tag_runs_on(p, "musllinux"@ + version + "x86_64"@) <==> p.os == Os::Linux && p.arch
            == Arch::X86_64,
        tag_runs_on(p, "manylinux"@ + version + "aarch64"@) <==> p.os == Os::Linux && p.arch
            == Arch::Aarch64,
        tag_runs_on(p, "musllinux"@ + version + "aarch64"@) <==> p.os == Os::Linux && p.arch
            == Arch::Aarch64,
        tag_runs_on(p, "macosx"@ + version + "arm64"@) <==> p.os == Os::Macos && p.arch
            == Arch::Aarch64,
        tag_runs_on(p, "macosx"@ + version + "x86_64"@) <==> p.os == Os::Macos && p.arch
            == Arch::X86_64,
        tag_runs_on(p, "macosx"@ + version + "intel"@) <==> p.os == Os::Macos && p.arch
            == Arch::X86_64,
        tag_runs_on(p, "macosx"@ + version + "universal2"@) <==> p.os == Os::Macos,
        tag_runs_on(p, "win_amd64"@) <==> p.os == Os::Windows && p.arch == Arch::X86_64,
        tag_runs_on(p, "win32"@) <==> p.os == Os::Windows && p.arch == Arch::X86_64,
        tag_runs_on(p, "win_arm64"@) <==> p.os == Os::Windows && p.arch == Arch::Aarch64,
{
    lemma_tag_parts("manylinux"@, version, "x86_64"@);
    lemma_tag_parts("musllinux"@, version, "x86_64"@);
    lemma_tag_parts("manylinux"@, version, "aarch64"@);
    lemma_tag_parts("musllinux"@, version, "aarch64"@);
    lemma_tag_parts("macosx"@, version, "arm64"@);
    lemma_tag_parts("macosx"@, version, "x86_64"@);
    lemma_tag_parts("macosx"@, version, "intel"@);
    lemma_tag_parts("macosx"@, version, "universal2"@);
    lemma_tag_ends("manylinux"@ + version + "x86_64"@);
    lemma_tag_ends("musllinux"@ + version + "x86_64"@);
    lemma_tag_ends("manylinux"@ + version + "aarch64"@);
    lemma_tag_ends("musllinux"@ + version + "aarch64"@);
    lemma_tag_ends("macosx"@ + version + "arm64"@);
    lemma_tag_ends("macosx"@ + version + "x86_64"@);
    lemma_tag_ends("macosx"@ + version + "intel"@);
    lemma_tag_ends("macosx"@ + version + "universal2"@);
    lemma_tag_ends("win_amd64"@);
    lemma_tag_ends("win_arm64"@);
    lemma_tag_ends("win32"@);
}

/// Two machines share a wheel only where it is tagged `any`, or is universal and
/// both are Macs.
pub proof fn machines_share_only_universal_wheels(p: Platform, q: Platform, tag: Seq<char>)
    requires
        p != q,
        tag != "any"@,
        tag_runs_on(p, tag),
        tag_runs_on(q, tag),
    ensures
        p.os == Os::Macos,
        q.os == Os::Macos,
        "macosx"@.is_prefix_of(tag),
        "universal2"@.is_suffix_of(tag),
{
    lemma_tag_ends(tag);
    reveal_strlit("universal2");
    reveal_strlit("macosx");
    assert("macosx"@ =~= tag.subrange(0, 6));
    assert("universal2"@ =~= tag.subrange(tag.len() - 10, tag.len() as int));
}

/// What runs here and is not `any` is of this system's families, and names this
/// processor.
pub proof fn foreign_families_never_run(p: Platform, tag: Seq<char>)
    requires
        tag_runs_on(p, tag),
        tag != "any"@,
    ensures
        p.os == Os::Linux ==> "manylinux"@.is_prefix_of(tag) || "musllinux"@.is_prefix_of(tag),
        p.os == Os::Linux && p.arch == Arch::X86_64 ==> "x86_64"@.is_suffix_of(tag),
        p.os == Os::Linux && p.arch == Arch::Aarch64 ==> "aarch64"@.is_suffix_of(tag),
        p.os == Os::Macos ==> "macosx"@.is_prefix_of(tag),
        p.os == Os::Macos && p.arch == Arch::X86_64 ==> "x86_64"@.is_suffix_of(tag)
            || "intel"@.is_suffix_of(tag) || "universal2"@.is_suffix_of(tag),
        p.os == Os::Macos && p.arch == Arch::Aarch64 ==> "arm64"@.is_suffix_of(tag)
            || "universal2"@.is_suffix_of(tag),
        p.os == Os::Windows ==> "win"@.is_prefix_of(tag),
{
    reveal_strlit("manylinux");
    reveal_strlit("musllinux");
    reveal_strlit("macosx");
    reveal_strlit("x86_64");
    reveal_strlit("aarch64");
    reveal_strlit("arm64");
    reveal_strlit("universal2");
    reveal_strlit("intel");
    reveal_strlit("win");
    reveal_strlit("win_amd64");
    reveal_strlit("win_arm64");
    reveal_strlit("win32");
    let n = tag.len() as int;
    if p.os == Os::Windows {
        assert("win"@ =~= tag.subrange(0, 3));
    }
    if n >= 9 {
        assert(tag.take(9) =~= tag.subrange(0, 9));
    }
    if n >= 6 {
        assert(tag.take(6) =~= tag.subrange(0, 6));
        assert(tag.skip(n - 6) =~= tag.subrange(n - 6, n));
    }
    if n >= 7 {
        assert(tag.skip(n - 7) =~= tag.subrange(n - 7, n));
    }
    if n >= 5 {
        assert(tag.skip(n - 5) =~= tag.subrange(n - 5, n));
    }
    if n >= 10 {
        assert(tag.skip(n - 10) =~= tag.subrange(n - 10, n));
    }
}

/// An archive is named for the processor and the system it is built for.
pub proof fn archives_are_named_for_their_machine(p: Platform)
    ensures
        "x86_64-"@.is_prefix_of(triple(p)) <==> p.arch == Arch::X86_64,
        "aarch64-"@.is_prefix_of(triple(p)) <==> p.arch == Arch::Aarch64,
        "-linux-gnu"@.is_suffix_of(triple(p)) <==> p.os == Os::Linux,
        "-apple-darwin"@.is_suffix_of(triple(p)) <==> p.os == Os::Macos,
        "-windows-msvc"@.is_suffix_of(triple(p)) <==> p.os == Os::Windows,
{
    reveal_strlit("x86_64-unknown-linux-gnu");
    reveal_strlit("aarch64-unknown-linux-gnu");
    reveal_strlit("x86_64-apple-darwin");
    reveal_strlit("aarch64-apple-darwin");
    reveal_strlit("x86_64-pc-windows-msvc");
    reveal_strlit("aarch64-pc-windows-msvc");
    reveal_strlit("x86_64-");
    reveal_strlit("aarch64-");
    reveal_strlit("-linux-gnu");
    reveal_strlit("-apple-darwin");
    reveal_strlit("-windows-msvc");
    let t = triple(p);
    let n = t.len() as int;
    assert(t.subrange(0, 7)[0] == t[0]);
    assert(t.subrange(0, 8)[0] == t[0]);
    assert(t.subrange(n - 10, n)[9] == t[n - 1]);
    assert(t.subrange(n - 13, n)[12] == t[n - 1]);
    if p.arch == Arch::X86_64 {
        assert("x86_64-"@ =~= t.subrange(0, 7));
    } else {
        assert("aarch64-"@ =~= t.subrange(0, 8));
    }
    match p.os {
        Os::Linux => {
            assert("-linux-gnu"@ =~= t.subrange(n - 10, n));
        },
        Os::Macos => {
            assert("-apple-darwin"@ =~= t.subrange(n - 13, n));
        },
        Os::Windows => {
            assert("-windows-msvc"@ =~= t.subrange(n - 13, n));
        },
    }
}

} // verus!
