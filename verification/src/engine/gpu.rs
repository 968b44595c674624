//! GPU detection.
//!
//! `nvidia-smi` is the only local, offline signal for the installed driver. The
//! probe result is cached with a 24h TTL. Apple Silicon is known from the
//! platform, not probed.

use vstd::prelude::*;

use crate::engine::command::{first_line, lemma_first_of_lines, Output};
use crate::engine::platform::{Arch, Os, Platform};
use crate::text;

verus! {

/// How long a cached probe result is good for, in seconds: 24 hours.
pub const CACHE_TTL_SECS: u64 = 86400;

/// What the machine can run ML frameworks on.
#[derive(Debug, PartialEq, Eq)]
pub enum Accelerator {
    /// An NVIDIA GPU with a readable driver version, e.g. "535.104.05".
    Nvidia { name: String, driver_version: String },
    /// Apple Silicon: MPS is available unconditionally.
    AppleSilicon,
    /// No accelerator this crate knows how to target. CPU wheels are correct.
    Absent,
}

/// An accelerator, mathematically.
#[verifier::ext_equal]
pub enum AcceleratorView {
    Nvidia { name: Seq<char>, driver_version: Seq<char> },
    AppleSilicon,
    Absent,
}

impl View for Accelerator {
    type V = AcceleratorView;

    open spec fn view(&self) -> AcceleratorView {
        match self {
            Accelerator::Nvidia { name, driver_version } => AcceleratorView::Nvidia {
                name: name@,
                driver_version: driver_version@,
            },
            Accelerator::AppleSilicon => AcceleratorView::AppleSilicon,
            Accelerator::Absent => AcceleratorView::Absent,
        }
    }
}

/// The arguments `nvidia-smi` is asked with.
pub fn nvidia_smi_args() -> (r: Vec<String>)
    ensures
        text::texts(r@) == seq!["--query-gpu=driver_version,name"@, "--format=csv,noheader"@],
{
    let r = text::strings(&["--query-gpu=driver_version,name", "--format=csv,noheader"]);
    proof {
        assert(text::texts(r@) =~= seq![
            "--query-gpu=driver_version,name"@,
            "--format=csv,noheader"@,
        ]);
    }
    r
}

/// Whether the platform alone says which accelerator there is.
pub open spec fn is_apple_silicon(p: Platform) -> bool {
    p.os == Os::Macos && p.arch == Arch::Aarch64
}

/// What a line of the probe reports: driver, comma, name.
pub open spec fn reported(line: Seq<char>) -> AcceleratorView {
    let comma = text::first_index(line, text::eq_char(','));
    let driver_version = text::trim_spec(line.take(comma));
    if comma < line.len() && driver_version.len() > 0 {
        AcceleratorView::Nvidia { name: text::trim_spec(line.skip(comma + 1)), driver_version }
    } else {
        AcceleratorView::Absent
    }
}

/// What the probe says: that of the first reporting GPU, or nothing where
/// `nvidia-smi` could not be run or failed.
pub open spec fn probe_result(succeeded: bool, stdout: Seq<char>) -> AcceleratorView {
    match first_line(stdout) {
        Some(line) => if succeeded {
            reported(line)
        } else {
            AcceleratorView::Absent
        },
        None => AcceleratorView::Absent,
    }
}

/// Read what `nvidia-smi` printed; `None` when it could not be run.
pub fn probe_nvidia_smi(out: Option<&Output>) -> (r: Accelerator)
    ensures
        r@ == (match out {
            Some(out) => probe_result(out.succeeded(), out.stdout@),
            None => AcceleratorView::Absent,
        }),
{
    let out = match out {
        Some(out) => out,
        None => return Accelerator::Absent,
    };
    if !out.success() {
        return Accelerator::Absent;
    }
    let line = match out.first_stdout_line() {
        Some(line) => line,
        None => return Accelerator::Absent,
    };
    let line = line.as_str();
    let comma = text::index_of(line, ',');
    if comma == line.unicode_len() {
        return Accelerator::Absent;
    }
    let driver_version = text::trim(text::before(line, comma));
    if driver_version.is_empty() {
        return Accelerator::Absent;
    }
    Accelerator::Nvidia {
        name: text::trim(text::after(line, comma + 1)).to_string(),
        driver_version: driver_version.to_string(),
    }
}

/// What to do to know the accelerator.
#[derive(Debug, PartialEq, Eq)]
pub enum Detection {
    Known(Accelerator),
    /// Ask `nvidia-smi`, then cache what it said.
    Probe,
}

/// Detect the accelerator: from the platform, else from a cached result that is
/// at most [`CACHE_TTL_SECS`] old, else by probing. `cached` is when it was
/// fetched and what it said.
pub fn detect(platform: Platform, now_unix: u64, cached: Option<(u64, Accelerator)>) -> (r: Detection)
    ensures
        match r {
            Detection::Known(a) => if is_apple_silicon(platform) {
                a@ == AcceleratorView::AppleSilicon
            } else {
                cached matches Some((fetched_at, accelerator)) && now_unix - fetched_at
                    <= CACHE_TTL_SECS && a == accelerator
            },
            Detection::Probe => !is_apple_silicon(platform) && (cached matches Some((fetched_at, _))
                ==> now_unix - fetched_at > CACHE_TTL_SECS),
        },
{
    if platform.os == Os::Macos && platform.arch == Arch::Aarch64 {
        return Detection::Known(Accelerator::AppleSilicon);
    }
    match cached {
        Some((fetched_at, accelerator)) => if now_unix < fetched_at || now_unix - fetched_at
            <= CACHE_TTL_SECS {
            Detection::Known(accelerator)
        } else {
            Detection::Probe
        },
        None => Detection::Probe,
    }
}

/// What `nvidia-smi` prints is read: the driver before the comma and the name behind it,
/// of the first line that is not blank. A probe that failed finds nothing.
pub proof fn reports_name_the_driver_and_the_card(
    driver: Seq<char>,
    name: Seq<char>,
    more: Seq<char>,
)
    requires
        driver.len() > 0 && !text::is_space(driver[0]) && !text::is_space(driver.last()),
        !driver.contains(',') && !driver.contains('\n'),
        name.len() > 0 && !text::is_space(name[0]) && !text::is_space(name.last()),
        !name.contains('\n'),
    ensures
        probe_result(true, driver + ", "@ + name + "\n"@ + more) == (AcceleratorView::Nvidia {
            name,
            driver_version: driver,
        }),
        probe_result(false, driver + ", "@ + name + "\n"@ + more) == AcceleratorView::Absent,
{
    reveal_strlit(", ");
    reveal_strlit("\n");
    let line = driver + ", "@ + name;
    assert(driver + ", "@ + name + "\n"@ + more =~= line + seq!['\n'] + more);
    assert(line[0] == driver[0] && line.last() == name.last());
    text::lemma_trimmed(line);
    assert(text::is_line(line)) by {
        if line.contains('\n') {
            let k = choose|k: int| 0 <= k < line.len() && line[k] == '\n';
            if k < driver.len() {
                assert(driver[k] == '\n');
            } else if k >= driver.len() + 2 {
                assert(name[k - driver.len() - 2] == '\n');
            }
        }
    }
    lemma_first_of_lines(line, more);
    let n = driver.len() as int;
    assert forall|j: int| 0 <= j < n implies !text::eq_char(',')(#[trigger] line[j]) by {
        assert(line[j] == driver[j]);
        assert(driver.contains(driver[j]));
    }
    assert(line[n] == ',');
    text::lemma_first_index_is(line, text::eq_char(','), n);
    assert(line.take(n) =~= driver);
    assert(line.skip(n + 1) =~= seq![' '] + name);
    text::lemma_trimmed(driver);
    text::lemma_trimmed(name);
    text::lemma_trim_ends(name, ' ');
}

/// A machine is Apple silicon exactly where it is a Mac with an ARM processor.
pub proof fn only_arm_macs_are_apple_silicon(p: Platform)
    ensures
        is_apple_silicon(p) <==> p == (Platform { os: Os::Macos, arch: Arch::Aarch64 }),
{
}

} // verus!
