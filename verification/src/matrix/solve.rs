//! Constraint solve: GPU + driver + framework release -> a concrete answer.
//!
//! The finding feeds the read-only report; the index URL makes an actual torch
//! install pull the wheel built for the driver that is really in the machine.

use vstd::prelude::*;

use crate::document::json_document;
use crate::engine::gpu::{Accelerator, AcceleratorView};
use crate::engine::platform::Os;
use crate::engine::project::{Requirement, RequirementView};
use crate::engine::{Finding, FindingView, FixKind, Severity};
use crate::matrix::frameworks::{
    build_views, framework_of, framework_table, latest_spec, release_spec, versions_spec, CudaBuild,
    CudaBuildView, Framework, FrameworkTable, FrameworkTableView, ReleaseInfo, ReleaseInfoView,
};
use crate::matrix::nvidia::{
    cuda_lt, cuda_text, driver_rows, support_spec, CudaVersion, DriverRowView, DriverSupport,
    DriverSupportView, DriverTable,
};
use crate::pypi::version::{select_spec, version_spec_of, VersionSpec};
use crate::text;

verus! {

/// What solving one framework dependency produced.
#[derive(Debug, PartialEq, Eq)]
pub struct FrameworkSolve {
    /// The release this was solved against: the pin's target, or the newest
    /// curated release when unpinned.
    pub resolved_version: Option<String>,
    /// Read-only guidance, `None` when there is nothing worth reporting.
    pub finding: Option<Finding>,
    /// `Some(url)` when the install should be pointed at a specific index: a
    /// CUDA build matched to the driver, or the smaller CPU-only index.
    pub index_url: Option<String>,
}

/// A solve, mathematically.
#[verifier::ext_equal]
pub struct FrameworkSolveView {
    pub resolved_version: Option<Seq<char>>,
    pub finding: Option<FindingView>,
    pub index_url: Option<Seq<char>>,
}

pub open spec fn opt_finding(o: Option<Finding>) -> Option<FindingView> {
    match o {
        Some(f) => Some(f@),
        None => None,
    }
}

impl View for FrameworkSolve {
    type V = FrameworkSolveView;

    open spec fn view(&self) -> FrameworkSolveView {
        FrameworkSolveView {
            resolved_version: text::opt_text(self.resolved_version),
            finding: opt_finding(self.finding),
            index_url: text::opt_text(self.index_url),
        }
    }
}

pub open spec fn nothing_to_say() -> FrameworkSolveView {
    FrameworkSolveView { resolved_version: None, finding: None, index_url: None }
}

impl Default for FrameworkSolve {
    fn default() -> (r: FrameworkSolve)
        ensures
            r@ == nothing_to_say(),
    {
        FrameworkSolve { resolved_version: None, finding: None, index_url: None }
    }
}

// ---------------------------------------------------------------------------
// The release to solve against
// ---------------------------------------------------------------------------

pub open spec fn not_pin_mark() -> spec_fn(char) -> bool {
    |c: char| !(c == '=' || c == '~' || c == '>' || c == '<' || c == '!' || c == ' ')
}

fn is_not_pin_mark(c: char) -> (r: bool)
    ensures
        r == not_pin_mark()(c),
{
    !(c == '=' || c == '~' || c == '>' || c == '<' || c == '!' || c == ' ')
}

pub open spec fn opt_requirement(o: Option<&Requirement>) -> Option<RequirementView> {
    match o {
        Some(r) => Some(r@),
        None => None,
    }
}

/// The version to evaluate: the newest curated release matching a pin, else what
/// the pin names; the newest curated release at all when unpinned.
pub open spec fn resolved_version_spec(
    t: FrameworkTableView,
    f: Framework,
    req: Option<RequirementView>,
) -> Option<Seq<char>> {
    match req {
        Some(req) => if req.spec.len() == 0 {
            latest_spec(t, f)
        } else {
            match select_spec(version_spec_of(req.spec), versions_spec(t, f)) {
                Some(v) => Some(v.raw),
                None => Some(req.spec.skip(text::first_index(req.spec, not_pin_mark()))),
            }
        },
        None => latest_spec(t, f),
    }
}

/// The version to evaluate.
pub fn resolve_version(
    table: &FrameworkTable,
    framework: Framework,
    requirement: Option<&Requirement>,
) -> (r: Option<String>)
    ensures
        text::opt_text(r) == resolved_version_spec(
            table@,
            framework,
            opt_requirement(requirement),
        ),
{
    if let Some(req) = requirement {
        if req.is_pinned() {
            let spec = VersionSpec::parse(req.spec.as_str());
            let versions = table.all_versions(framework);
            if let Some(picked) = spec.select_newest(versions.as_slice()) {
                return Some(picked.raw);
            }
            let start = text::index_where(
                req.spec.as_str(),
                |c: char| -> (b: bool) ensures b == not_pin_mark()(c) { is_not_pin_mark(c) },
                Ghost(not_pin_mark()),
            );
            return Some(text::after(req.spec.as_str(), start).to_string());
        }
    }
    match table.latest(framework) {
        Some(v) => Some(v.to_string()),
        None => None,
    }
}

// ---------------------------------------------------------------------------
// What each machine gets
// ---------------------------------------------------------------------------

pub open spec fn display_name(f: Framework) -> Seq<char> {
    match f {
        Framework::Torch => "torch"@,
        Framework::TensorFlow => "tensorflow"@,
    }
}

pub fn framework_display_name(f: Framework) -> (r: &'static str)
    ensures
        r@ == display_name(f),
{
    match f {
        Framework::Torch => "torch",
        Framework::TensorFlow => "tensorflow",
    }
}

pub open spec fn apple_spec(f: Framework, version: Seq<char>) -> FrameworkSolveView {
    let name = display_name(f);
    FrameworkSolveView {
        resolved_version: None,
        finding: Some(
            FindingView {
                severity: Severity::Info,
                title: name + " on Apple Silicon uses MPS"@,
                detail: "Apple Silicon detected. "@ + name + " "@ + version
                    + " accelerates through Metal (MPS), not CUDA. The default wheel is correct; no special index is needed."@,
                fix: FixKind::Manual,
            },
        ),
        index_url: None,
    }
}

pub fn apple_silicon(framework: Framework, version: &str) -> (r: FrameworkSolve)
    ensures
        r@ == apple_spec(framework, version@),
{
    let name = framework_display_name(framework);
    let mut title = name.to_string();
    title.append(" on Apple Silicon uses MPS");
    let mut detail = "Apple Silicon detected. ".to_string();
    detail.append(name);
    detail.append(" ");
    detail.append(version);
    detail.append(
        " accelerates through Metal (MPS), not CUDA. The default wheel is correct; no special index is needed.",
    );
    FrameworkSolve {
        resolved_version: None,
        finding: Some(Finding { severity: Severity::Info, title, detail, fix: FixKind::Manual }),
        index_url: None,
    }
}

/// Without a GPU torch comes from the CPU index, and nothing is reported.
pub open spec fn no_gpu_spec(release: ReleaseInfoView) -> FrameworkSolveView {
    FrameworkSolveView {
        resolved_version: None,
        finding: None,
        index_url: match release {
            ReleaseInfoView::Torch { cpu_index_url, .. } => Some(cpu_index_url),
            ReleaseInfoView::TensorFlow { .. } => None,
        },
    }
}

pub fn no_gpu(release: ReleaseInfo) -> (r: FrameworkSolve)
    ensures
        r@ == no_gpu_spec(release@),
{
    match release {
        ReleaseInfo::Torch { cpu_index_url, .. } => FrameworkSolve {
            resolved_version: None,
            finding: None,
            index_url: Some(cpu_index_url),
        },
        ReleaseInfo::TensorFlow { .. } => FrameworkSolve::default(),
    }
}

/// Of the first `n` builds the driver can run, the newest; of several equally
/// new, the last listed.
pub open spec fn best_build(builds: Seq<CudaBuildView>, max: CudaVersion, n: int) -> Option<int>
    decreases n,
{
    if n <= 0 {
        None
    } else {
        let best = best_build(builds, max, n - 1);
        if cuda_lt(max, builds[n - 1].cuda) {
            best
        } else {
            match best {
                Some(b) => if cuda_lt(builds[n - 1].cuda, builds[b].cuda) {
                    best
                } else {
                    Some(n - 1)
                },
                None => Some(n - 1),
            }
        }
    }
}

/// Of the first `n` builds, the oldest; of several equally old, the first listed.
pub open spec fn oldest_build(builds: Seq<CudaBuildView>, n: int) -> Option<int>
    decreases n,
{
    if n <= 0 {
        None
    } else {
        match oldest_build(builds, n - 1) {
            Some(b) => if cuda_lt(builds[n - 1].cuda, builds[b].cuda) {
                Some(n - 1)
            } else {
                Some(b)
            },
            None => Some(n - 1),
        }
    }
}

pub open spec fn driver_text(gpu: Seq<char>, driver: Seq<char>) -> Seq<char> {
    gpu + "'s driver ("@ + driver + ")"@
}

pub open spec fn torch_ancient(
    version: Seq<char>,
    gpu: Seq<char>,
    driver: Seq<char>,
    cpu_index_url: Seq<char>,
) -> FindingView {
    FindingView {
        severity: Severity::Error,
        title: "NVIDIA driver too old for any known CUDA build"@,
        detail: driver_text(gpu, driver)
            + " is older than every CUDA release PyPilot's data covers. Update the driver, or install the CPU build: pip install torch=="@
            + version + " --index-url "@ + cpu_index_url,
        fix: FixKind::Manual,
    }
}

pub open spec fn torch_too_old(
    version: Seq<char>,
    gpu: Seq<char>,
    driver: Seq<char>,
    max: CudaVersion,
    builds: Seq<CudaBuildView>,
) -> FindingView {
    let head = driver_text(gpu, driver) + " supports CUDA up to "@ + cuda_text(max) + ". torch "@
        + version + " needs at least "@;
    FindingView {
        severity: Severity::Error,
        title: "NVIDIA driver too old for this torch release"@,
        detail: match oldest_build(builds, builds.len() as int) {
            Some(b) => head + cuda_text(builds[b].cuda) + "."@
                + " Upgrade the driver, or install an older torch release matching CUDA "@
                + cuda_text(max) + "."@,
            None => head + "."@,
        },
        fix: FixKind::Manual,
    }
}

pub open spec fn torch_matched(
    version: Seq<char>,
    gpu: Seq<char>,
    driver: Seq<char>,
    support: DriverSupportView,
    build: CudaBuildView,
) -> FindingView {
    let note = if support.exceeds_known_table {
        " (your driver is newer than PyPilot's bundled table; this is a conservative floor, not a ceiling)"@
    } else {
        ""@
    };
    FindingView {
        severity: Severity::Info,
        title: "torch build matched to your driver: "@ + build.tag,
        detail: driver_text(gpu, driver) + " supports CUDA up to "@ + cuda_text(support.max_known)
            + note + ". Recommended: pip install torch=="@ + version + " --index-url "@
            + build.index_url,
        fix: FixKind::Manual,
    }
}

/// What torch gets on an NVIDIA machine: the newest build the driver can run,
/// and an error with the CPU index where there is none.
pub open spec fn torch_spec(
    version: Seq<char>,
    gpu: Seq<char>,
    driver: Seq<char>,
    support: Option<DriverSupportView>,
    cpu_index_url: Seq<char>,
    builds: Seq<CudaBuildView>,
) -> FrameworkSolveView {
    let (finding, url) = match support {
        None => (torch_ancient(version, gpu, driver, cpu_index_url), cpu_index_url),
        Some(support) => match best_build(builds, support.max_known, builds.len() as int) {
            None => (
                torch_too_old(version, gpu, driver, support.max_known, builds),
                cpu_index_url,
            ),
            Some(b) => (
                torch_matched(version, gpu, driver, support, builds[b]),
                builds[b].index_url,
            ),
        },
    };
    FrameworkSolveView { resolved_version: None, finding: Some(finding), index_url: Some(url) }
}

proof fn lemma_best_build(builds: Seq<CudaBuildView>, max: CudaVersion, n: int)
    requires
        0 <= n <= builds.len(),
    ensures
        match best_build(builds, max, n) {
            Some(b) => 0 <= b < n && !cuda_lt(max, builds[b].cuda) && forall|j: int|
                0 <= j < n && !cuda_lt(max, (#[trigger] builds[j]).cuda) ==> !cuda_lt(
                    builds[b].cuda,
                    builds[j].cuda,
                ),
            None => forall|j: int| 0 <= j < n ==> cuda_lt(max, (#[trigger] builds[j]).cuda),
        },
    decreases n,
{
    if n > 0 {
        lemma_best_build(builds, max, n - 1);
    }
}

/// The torch build that is chosen never needs a newer CUDA than the driver runs,
/// and no other build the driver runs is newer. Where the driver runs none, the
/// answer is the CPU build and an error.
pub proof fn builds_never_outrun_the_driver(
    version: Seq<char>,
    gpu: Seq<char>,
    driver: Seq<char>,
    support: DriverSupportView,
    cpu_index_url: Seq<char>,
    builds: Seq<CudaBuildView>,
)
    ensures
        ({
            let solved = torch_spec(version, gpu, driver, Some(support), cpu_index_url, builds);
            match best_build(builds, support.max_known, builds.len() as int) {
                Some(b) => {
                    &&& 0 <= b < builds.len()
                    &&& solved.index_url == Some(builds[b].index_url)
                    &&& !cuda_lt(support.max_known, builds[b].cuda)
                    &&& forall|j: int|
                        0 <= j < builds.len() && !cuda_lt(
                            support.max_known,
                            (#[trigger] builds[j]).cuda,
                        ) ==> !cuda_lt(builds[b].cuda, builds[j].cuda)
                },
                None => {
                    &&& solved.index_url == Some(cpu_index_url)
                    &&& solved.finding is Some
                    &&& solved.finding->0.severity == Severity::Error
                    &&& forall|j: int|
                        0 <= j < builds.len() ==> cuda_lt(
                            support.max_known,
                            (#[trigger] builds[j]).cuda,
                        )
                },
            }
        }),
{
    lemma_best_build(builds, support.max_known, builds.len() as int);
}

fn describe_driver(gpu: &str, driver: &str) -> (r: String)
    ensures
        r@ == driver_text(gpu@, driver@),
{
    let mut out = gpu.to_string();
    out.append("'s driver (");
    out.append(driver);
    out.append(")");
    out
}

fn pick_best(builds: &Vec<CudaBuild>, max: CudaVersion) -> (r: Option<usize>)
    ensures
        match r {
            Some(b) => b < builds@.len() && best_build(
                build_views(builds@),
                max,
                builds@.len() as int,
            ) == Some(b as int),
            None => best_build(build_views(builds@), max, builds@.len() as int) is None,
        },
{
    let ghost views = build_views(builds@);
    let mut best: Option<usize> = None;
    let mut i: usize = 0;
    while i < builds.len()
        invariant
            i <= builds@.len(),
            views == build_views(builds@),
            match best {
                Some(b) => b < i && best_build(views, max, i as int) == Some(b as int),
                None => best_build(views, max, i as int) is None,
            },
        decreases builds@.len() - i,
    {
        proof {
            assert(views[i as int] == builds@[i as int]@);
        }
        if !max.is_before(&builds[i].cuda) {
            match best {
                Some(b) => {
                    proof {
                        assert(views[b as int] == builds@[b as int]@);
                    }
                    if !builds[i].cuda.is_before(&builds[b].cuda) {
                        best = Some(i);
                    }
                },
                None => {
                    best = Some(i);
                },
            }
        }
        i += 1;
    }
    best
}

fn pick_oldest(builds: &Vec<CudaBuild>) -> (r: Option<usize>)
    ensures
        match r {
            Some(b) => b < builds@.len() && oldest_build(
                build_views(builds@),
                builds@.len() as int,
            ) == Some(b as int),
            None => oldest_build(build_views(builds@), builds@.len() as int) is None,
        },
{
    let ghost views = build_views(builds@);
    let mut best: Option<usize> = None;
    let mut i: usize = 0;
    while i < builds.len()
        invariant
            i <= builds@.len(),
            views == build_views(builds@),
            match best {
                Some(b) => b < i && oldest_build(views, i as int) == Some(b as int),
                None => oldest_build(views, i as int) is None,
            },
        decreases builds@.len() - i,
    {
        proof {
            assert(views[i as int] == builds@[i as int]@);
        }
        match best {
            Some(b) => {
                proof {
                    assert(views[b as int] == builds@[b as int]@);
                }
                if builds[i].cuda.is_before(&builds[b].cuda) {
                    best = Some(i);
                }
            },
            None => {
                best = Some(i);
            },
        }
        i += 1;
    }
    best
}

pub open spec fn opt_support(o: Option<DriverSupport>) -> Option<DriverSupportView> {
    match o {
        Some(s) => Some(s@),
        None => None,
    }
}

pub fn solve_torch(
    version: &str,
    gpu_name: &str,
    driver_version: &str,
    support: Option<DriverSupport>,
    cpu_index_url: String,
    cuda_builds: Vec<CudaBuild>,
) -> (r: FrameworkSolve)
    ensures
        r@ == torch_spec(
            version@,
            gpu_name@,
            driver_version@,
            opt_support(support),
            cpu_index_url@,
            build_views(cuda_builds@),
        ),
{
    let mut detail = describe_driver(gpu_name, driver_version);
    let support = match support {
        Some(support) => support,
        None => {
            detail.append(
                " is older than every CUDA release PyPilot's data covers. Update the driver, or install the CPU build: pip install torch==",
            );
            detail.append(version);
            detail.append(" --index-url ");
            detail.append(cpu_index_url.as_str());
            return FrameworkSolve {
                resolved_version: None,
                finding: Some(
                    Finding {
                        severity: Severity::Error,
                        title: "NVIDIA driver too old for any known CUDA build".to_string(),
                        detail,
                        fix: FixKind::Manual,
                    },
                ),
                index_url: Some(cpu_index_url),
            };
        },
    };
    detail.append(" supports CUDA up to ");
    detail.append(support.max_known.to_text().as_str());
    let best = match pick_best(&cuda_builds, support.max_known) {
        Some(b) => b,
        None => {
            detail.append(". torch ");
            detail.append(version);
            detail.append(" needs at least ");
            match pick_oldest(&cuda_builds) {
                Some(o) => {
                    detail.append(cuda_builds[o].cuda.to_text().as_str());
                    detail.append(".");
                    detail.append(
                        " Upgrade the driver, or install an older torch release matching CUDA ",
                    );
                    detail.append(support.max_known.to_text().as_str());
                    detail.append(".");
                },
                None => {
                    detail.append(".");
                },
            }
            return FrameworkSolve {
                resolved_version: None,
                finding: Some(
                    Finding {
                        severity: Severity::Error,
                        title: "NVIDIA driver too old for this torch release".to_string(),
                        detail,
                        fix: FixKind::Manual,
                    },
                ),
                index_url: Some(cpu_index_url),
            };
        },
    };
    if support.exceeds_known_table {
        detail.append(
            " (your driver is newer than PyPilot's bundled table; this is a conservative floor, not a ceiling)",
        );
    } else {
        detail.append("");
    }
    detail.append(". Recommended: pip install torch==");
    detail.append(version);
    detail.append(" --index-url ");
    detail.append(cuda_builds[best].index_url.as_str());
    let mut title = "torch build matched to your driver: ".to_string();
    title.append(cuda_builds[best].tag.as_str());
    FrameworkSolve {
        resolved_version: None,
        finding: Some(Finding { severity: Severity::Info, title, detail, fix: FixKind::Manual }),
        index_url: Some(cuda_builds[best].index_url.clone()),
    }
}

/// What tensorflow gets on an NVIDIA machine: nothing to say where the driver
/// runs the CUDA version it needs, else an error. It has no alternate index.
pub open spec fn tensorflow_spec(
    version: Seq<char>,
    gpu: Seq<char>,
    driver: Seq<char>,
    support: Option<DriverSupportView>,
    min_cuda: CudaVersion,
) -> FrameworkSolveView {
    FrameworkSolveView {
        resolved_version: None,
        finding: match support {
            None => Some(
                FindingView {
                    severity: Severity::Error,
                    title: "NVIDIA driver too old for any known CUDA build"@,
                    detail: driver_text(gpu, driver)
                        + " is older than every CUDA release PyPilot's data covers, and tensorflow "@
                        + version + " needs CUDA "@ + cuda_text(min_cuda)
                        + ". Update the driver."@,
                    fix: FixKind::Manual,
                },
            ),
            Some(support) => if !cuda_lt(support.max_known, min_cuda) {
                None
            } else {
                let note = if support.exceeds_known_table {
                    " (your driver is newer than PyPilot's bundled table; this is a conservative floor)"@
                } else {
                    ""@
                };
                Some(
                    FindingView {
                        severity: Severity::Error,
                        title: "NVIDIA driver too old for this tensorflow release"@,
                        detail: driver_text(gpu, driver) + " supports CUDA up to "@ + cuda_text(
                            support.max_known,
                        ) + note + ". tensorflow "@ + version + " needs CUDA "@ + cuda_text(
                            min_cuda,
                        ) + " or newer (minimum driver "@ + support.min_driver_for_max
                            + "). Update the driver, or pin an older tensorflow release."@,
                        fix: FixKind::Manual,
                    },
                )
            },
        },
        index_url: None,
    }
}

pub fn solve_tensorflow(
    version: &str,
    gpu_name: &str,
    driver_version: &str,
    support: Option<DriverSupport>,
    min_cuda: CudaVersion,
) -> (r: FrameworkSolve)
    ensures
        r@ == tensorflow_spec(
            version@,
            gpu_name@,
            driver_version@,
            opt_support(support),
            min_cuda,
        ),
{
    let mut detail = describe_driver(gpu_name, driver_version);
    let support = match support {
        Some(support) => support,
        None => {
            detail.append(
                " is older than every CUDA release PyPilot's data covers, and tensorflow ",
            );
            detail.append(version);
            detail.append(" needs CUDA ");
            detail.append(min_cuda.to_text().as_str());
            detail.append(". Update the driver.");
            return FrameworkSolve {
                resolved_version: None,
                finding: Some(
                    Finding {
                        severity: Severity::Error,
                        title: "NVIDIA driver too old for any known CUDA build".to_string(),
                        detail,
                        fix: FixKind::Manual,
                    },
                ),
                index_url: None,
            };
        },
    };
    if !support.max_known.is_before(&min_cuda) {
        return FrameworkSolve::default();
    }
    detail.append(" supports CUDA up to ");
    detail.append(support.max_known.to_text().as_str());
    if support.exceeds_known_table {
        detail.append(
            " (your driver is newer than PyPilot's bundled table; this is a conservative floor)",
        );
    } else {
        detail.append("");
    }
    detail.append(". tensorflow ");
    detail.append(version);
    detail.append(" needs CUDA ");
    detail.append(min_cuda.to_text().as_str());
    detail.append(" or newer (minimum driver ");
    detail.append(support.min_driver_for_max.as_str());
    detail.append("). Update the driver, or pin an older tensorflow release.");
    FrameworkSolve {
        resolved_version: None,
        finding: Some(
            Finding {
                severity: Severity::Error,
                title: "NVIDIA driver too old for this tensorflow release".to_string(),
                detail,
                fix: FixKind::Manual,
            },
        ),
        index_url: None,
    }
}

pub open spec fn nvidia_spec(
    release: ReleaseInfoView,
    gpu: Seq<char>,
    driver: Seq<char>,
    support: Option<DriverSupportView>,
) -> FrameworkSolveView {
    match release {
        ReleaseInfoView::Torch { version, cpu_index_url, cuda_builds } => torch_spec(
            version,
            gpu,
            driver,
            support,
            cpu_index_url,
            cuda_builds,
        ),
        ReleaseInfoView::TensorFlow { version, min_cuda } => tensorflow_spec(
            version,
            gpu,
            driver,
            support,
            min_cuda,
        ),
    }
}

pub fn with_nvidia(
    release: ReleaseInfo,
    gpu_name: &str,
    driver_version: &str,
    support: Option<DriverSupport>,
) -> (r: FrameworkSolve)
    ensures
        r@ == nvidia_spec(release@, gpu_name@, driver_version@, opt_support(support)),
{
    match release {
        ReleaseInfo::Torch { version, cpu_index_url, cuda_builds } => solve_torch(
            version.as_str(),
            gpu_name,
            driver_version,
            support,
            cpu_index_url,
            cuda_builds,
        ),
        ReleaseInfo::TensorFlow { version, min_cuda } => solve_tensorflow(
            version.as_str(),
            gpu_name,
            driver_version,
            support,
            min_cuda,
        ),
    }
}

pub open spec fn unknown_spec(f: Framework, version: Seq<char>) -> FrameworkSolveView {
    let subject = display_name(f) + " "@ + version;
    FrameworkSolveView {
        resolved_version: Some(version),
        finding: Some(
            FindingView {
                severity: Severity::Info,
                title: subject + " is not in PyPilot's bundled CUDA data"@,
                detail: subject
                    + " is newer than PyPilot's bundled matrix, so its driver compatibility could not be checked here. See pytorch.org/get-started/locally or tensorflow.org/install for the current index URL."@,
                fix: FixKind::Manual,
            },
        ),
        index_url: None,
    }
}

pub fn unknown_release(framework: Framework, version: &str) -> (r: FrameworkSolve)
    ensures
        r@ == unknown_spec(framework, version@),
{
    let mut subject = framework_display_name(framework).to_string();
    subject.append(" ");
    subject.append(version);
    let mut title = subject.clone();
    title.append(" is not in PyPilot's bundled CUDA data");
    let mut detail = subject;
    detail.append(
        " is newer than PyPilot's bundled matrix, so its driver compatibility could not be checked here. See pytorch.org/get-started/locally or tensorflow.org/install for the current index URL.",
    );
    FrameworkSolve {
        resolved_version: Some(version.to_string()),
        finding: Some(Finding { severity: Severity::Info, title, detail, fix: FixKind::Manual }),
        index_url: None,
    }
}

// ---------------------------------------------------------------------------
// The whole solve
// ---------------------------------------------------------------------------

/// The solve for a framework, given the tables and the machine.
pub open spec fn solve_spec(
    t: FrameworkTableView,
    rows: Option<Seq<DriverRowView>>,
    accelerator: AcceleratorView,
    os: Os,
    f: Framework,
    req: Option<RequirementView>,
) -> Option<FrameworkSolveView> {
    match resolved_version_spec(t, f, req) {
        None => None,
        Some(version) => match release_spec(t, f, version) {
            None => Some(unknown_spec(f, version)),
            Some(release) => {
                let solved = match accelerator {
                    AcceleratorView::AppleSilicon => apple_spec(f, version),
                    AcceleratorView::Absent => no_gpu_spec(release),
                    AcceleratorView::Nvidia { name, driver_version } => nvidia_spec(
                        release,
                        name,
                        driver_version,
                        match rows {
                            Some(rows) => support_spec(rows, driver_version, os),
                            None => None,
                        },
                    ),
                };
                Some(FrameworkSolveView { resolved_version: Some(version), ..solved })
            },
        },
    }
}

pub open spec fn opt_table(o: Option<&DriverTable>) -> Option<Seq<DriverRowView>> {
    match o {
        Some(t) => Some(t@),
        None => None,
    }
}

pub open spec fn opt_solve(o: Option<FrameworkSolve>) -> Option<FrameworkSolveView> {
    match o {
        Some(s) => Some(s@),
        None => None,
    }
}

/// Solve for a framework against the given tables and machine.
pub fn solve_with_tables(
    framework: Framework,
    requirement: Option<&Requirement>,
    table: &FrameworkTable,
    drivers: Option<&DriverTable>,
    accelerator: &Accelerator,
    os: Os,
) -> (r: Option<FrameworkSolve>)
    ensures
        opt_solve(r) == solve_spec(
            table@,
            opt_table(drivers),
            accelerator@,
            os,
            framework,
            opt_requirement(requirement),
        ),
{
    let version = match resolve_version(table, framework, requirement) {
        Some(version) => version,
        None => return None,
    };
    let release = match table.release(framework, version.as_str()) {
        Some(release) => release,
        None => return Some(unknown_release(framework, version.as_str())),
    };
    let mut solved = match accelerator {
        Accelerator::AppleSilicon => apple_silicon(framework, version.as_str()),
        Accelerator::Absent => no_gpu(release),
        Accelerator::Nvidia { name, driver_version } => {
            let support = match drivers {
                Some(t) => t.support_for(driver_version.as_str(), os),
                None => None,
            };
            with_nvidia(release, name.as_str(), driver_version.as_str(), support)
        },
    };
    solved.resolved_version = Some(version);
    Some(solved)
}

/// Solve for `package_name`, given its declared requirement (`None` when
/// unpinned), the dataset texts and the machine. `None` when the package is no
/// framework this module handles, or the framework dataset cannot be read.
pub fn solve_framework(
    package_name: &str,
    requirement: Option<&Requirement>,
    frameworks_json: &str,
    nvidia_json: &str,
    accelerator: &Accelerator,
    os: Os,
) -> (r: Option<FrameworkSolve>)
    ensures
        opt_solve(r) == (match (
            framework_of(package_name@),
            framework_table(json_document(frameworks_json@)),
        ) {
            (Some(f), Some(t)) => solve_spec(
                t,
                driver_rows(json_document(nvidia_json@)),
                accelerator@,
                os,
                f,
                opt_requirement(requirement),
            ),
            _ => None,
        }),
{
    let framework = match Framework::from_package_name(package_name) {
        Some(f) => f,
        None => return None,
    };
    let table = match FrameworkTable::load(frameworks_json) {
        Some(t) => t,
        None => return None,
    };
    let drivers = DriverTable::load(nvidia_json);
    match &drivers {
        Some(t) => solve_with_tables(framework, requirement, &table, Some(t), accelerator, os),
        None => solve_with_tables(framework, requirement, &table, None, accelerator, os),
    }
}

/// A machine without a GPU is left in peace: a release PyPilot knows raises no
/// finding, and torch comes from the smaller CPU index.
pub proof fn machines_without_a_gpu_are_left_in_peace(
    t: FrameworkTableView,
    rows: Option<Seq<DriverRowView>>,
    os: Os,
    f: Framework,
    req: Option<RequirementView>,
    version: Seq<char>,
)
    requires
        resolved_version_spec(t, f, req) == Some(version),
        release_spec(t, f, version) is Some,
    ensures
        ({
            let solved = solve_spec(t, rows, AcceleratorView::Absent, os, f, req);
            &&& solved is Some
            &&& solved->0.resolved_version == Some(version)
            &&& solved->0.finding is None
            &&& release_spec(t, f, version)->0 is Torch ==> solved->0.index_url == Some(
                release_spec(t, f, version)->0->Torch_cpu_index_url,
            )
        }),
{
}

/// Apple Silicon is told of its backend, as a note, and installs from the default
/// index.
pub proof fn apple_silicon_gets_a_note(
    t: FrameworkTableView,
    rows: Option<Seq<DriverRowView>>,
    os: Os,
    f: Framework,
    req: Option<RequirementView>,
)
    ensures
        ({
            let solved = solve_spec(t, rows, AcceleratorView::AppleSilicon, os, f, req);
            solved is Some ==> solved->0.index_url is None && solved->0.finding is Some
                && solved->0.finding->0.severity == Severity::Info
        }),
{
}

/// On an NVIDIA machine tensorflow is left in peace exactly where the driver runs
/// at least the CUDA version the release needs, the major compared first and then
/// the minor. Elsewhere, and where the driver is too old for any, it is an error.
/// It never gets an index of its own.
pub proof fn tensorflow_is_held_to_the_cuda_it_needs(
    version: Seq<char>,
    gpu: Seq<char>,
    driver: Seq<char>,
    support: Option<DriverSupportView>,
    min_cuda: CudaVersion,
)
    ensures
        ({
            let solved = tensorflow_spec(version, gpu, driver, support, min_cuda);
            &&& solved.index_url is None
            &&& solved.finding is None <==> support is Some && (support->0.max_known.major
                > min_cuda.major || (support->0.max_known.major == min_cuda.major
                && support->0.max_known.minor >= min_cuda.minor))
            &&& solved.finding matches Some(f) ==> f.severity == Severity::Error && f.fix
                == FixKind::Manual
        }),
{
}

/// An upgrade of the driver never turns a tensorflow release that ran into one
/// that does not.
pub proof fn newer_drivers_run_all_that_older_ones_do(
    version: Seq<char>,
    gpu: Seq<char>,
    driver: Seq<char>,
    older: DriverSupportView,
    newer: DriverSupportView,
    min_cuda: CudaVersion,
)
    requires
        older.max_known.major < newer.max_known.major || (older.max_known.major
            == newer.max_known.major && older.max_known.minor <= newer.max_known.minor),
        tensorflow_spec(version, gpu, driver, Some(older), min_cuda).finding is None,
    ensures
        tensorflow_spec(version, gpu, driver, Some(newer), min_cuda).finding is None,
{
}

/// The release that is evaluated: without a pin the table's last, and with one the newest
/// in the table that satisfies it.
pub proof fn pins_choose_the_release(
    t: FrameworkTableView,
    f: Framework,
    name: Seq<char>,
    spec: Seq<char>,
)
    requires
        versions_spec(t, f).len() > 0,
    ensures
        resolved_version_spec(t, f, None) == Some(versions_spec(t, f).last()),
        spec.len() == 0 ==> resolved_version_spec(t, f, Some(RequirementView { name, spec }))
            == Some(versions_spec(t, f).last()),
        spec.len() > 0 && select_spec(version_spec_of(spec), versions_spec(t, f)) is Some
            ==> resolved_version_spec(t, f, Some(RequirementView { name, spec })) == Some(
            select_spec(version_spec_of(spec), versions_spec(t, f))->0.raw,
        ),
{
}

/// Where the driver's CUDA is not known, torch is an error and comes from the CPU index.
pub proof fn unknown_drivers_are_an_error(
    version: Seq<char>,
    gpu: Seq<char>,
    driver: Seq<char>,
    cpu_index_url: Seq<char>,
    builds: Seq<CudaBuildView>,
)
    ensures
        torch_spec(version, gpu, driver, None, cpu_index_url, builds).index_url == Some(
            cpu_index_url,
        ),
        torch_spec(version, gpu, driver, None, cpu_index_url, builds).finding is Some,
        torch_spec(version, gpu, driver, None, cpu_index_url, builds).finding->0.severity
            == Severity::Error,
{
}

/// A build that the driver runs is a note, not an error: the recommendation names its tag
/// and its index.
pub proof fn runnable_builds_are_recommended(
    version: Seq<char>,
    gpu: Seq<char>,
    driver: Seq<char>,
    support: DriverSupportView,
    cpu_index_url: Seq<char>,
    builds: Seq<CudaBuildView>,
    k: int,
)
    requires
        0 <= k < builds.len(),
        builds[k].cuda.major < support.max_known.major || builds[k].cuda.major
            == support.max_known.major && builds[k].cuda.minor <= support.max_known.minor,
    ensures
        ({
            let solved = torch_spec(version, gpu, driver, Some(support), cpu_index_url, builds);
            &&& solved.finding is Some
            &&& solved.finding->0.severity == Severity::Info
            &&& exists|b: int|
                0 <= b < builds.len() && solved.index_url == Some(
                    (#[trigger] builds[b]).index_url,
                ) && (builds[b].cuda.major < support.max_known.major || builds[b].cuda.major
                    == support.max_known.major && builds[b].cuda.minor <= support.max_known.minor)
                    && (builds[k].cuda.major < builds[b].cuda.major || builds[k].cuda.major
                    == builds[b].cuda.major && builds[k].cuda.minor <= builds[b].cuda.minor)
                    && builds[b].tag.is_suffix_of(solved.finding->0.title)
        }),
{
    lemma_best_build(builds, support.max_known, builds.len() as int);
    let b = best_build(builds, support.max_known, builds.len() as int)->0;
    let title = "torch build matched to your driver: "@ + builds[b].tag;
    let n = title.len() as int;
    assert(title.subrange(n - builds[b].tag.len(), n) =~= builds[b].tag);
    assert(builds[b].tag.is_suffix_of(title));
    let solved = torch_spec(version, gpu, driver, Some(support), cpu_index_url, builds);
    assert(solved.index_url == Some(builds[b].index_url));
}

/// What is said of a framework names it and its version; on Apple silicon and for a
/// release without data that is a note, and neither changes where it comes from.
pub proof fn notes_name_the_framework_and_its_version(version: Seq<char>)
    ensures
        ("torch "@ + version).is_prefix_of(
            (unknown_spec(Framework::Torch, version).finding->0).title,
        ),
        ("tensorflow "@ + version).is_prefix_of(
            (unknown_spec(Framework::TensorFlow, version).finding->0).title,
        ),
        unknown_spec(Framework::Torch, version).index_url is None,
        unknown_spec(Framework::TensorFlow, version).index_url is None,
        unknown_spec(Framework::Torch, version).resolved_version == Some(version),
        unknown_spec(Framework::TensorFlow, version).resolved_version == Some(version),
        (unknown_spec(Framework::Torch, version).finding->0).severity == Severity::Info,
        (unknown_spec(Framework::TensorFlow, version).finding->0).severity == Severity::Info,
        ("Apple Silicon detected. torch "@ + version).is_prefix_of(
            (apple_spec(Framework::Torch, version).finding->0).detail,
        ),
        ("Apple Silicon detected. tensorflow "@ + version).is_prefix_of(
            (apple_spec(Framework::TensorFlow, version).finding->0).detail,
        ),
{
    reveal_strlit("torch");
    reveal_strlit("tensorflow");
    reveal_strlit(" ");
    reveal_strlit("torch ");
    reveal_strlit("tensorflow ");
    assert("torch"@ + " "@ =~= "torch "@);
    assert("tensorflow"@ + " "@ =~= "tensorflow "@);
    let t = (unknown_spec(Framework::Torch, version).finding->0).title;
    assert(t.take(("torch "@ + version).len() as int) =~= "torch "@ + version);
    let f = (unknown_spec(Framework::TensorFlow, version).finding->0).title;
    assert(f.take(("tensorflow "@ + version).len() as int) =~= "tensorflow "@ + version);
    reveal_strlit("Apple Silicon detected. ");
    reveal_strlit("Apple Silicon detected. torch ");
    reveal_strlit("Apple Silicon detected. tensorflow ");
    let a = "Apple Silicon detected. torch "@ + version;
    assert("Apple Silicon detected. "@ + "torch"@ + " "@ =~= "Apple Silicon detected. torch "@);
    let d = (apple_spec(Framework::Torch, version).finding->0).detail;
    assert(d.take(a.len() as int) =~= a);
    let b = "Apple Silicon detected. tensorflow "@ + version;
    assert("Apple Silicon detected. "@ + "tensorflow"@ + " "@
        =~= "Apple Silicon detected. tensorflow "@);
    let e = (apple_spec(Framework::TensorFlow, version).finding->0).detail;
    assert(e.take(b.len() as int) =~= b);
}

} // verus!
