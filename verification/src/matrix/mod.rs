//! Hardware / ML compatibility.
//!
//! For pip-installed frameworks the NVIDIA *driver* is what matters, not the
//! system CUDA toolkit. [`nvidia`] holds the driver -> max-CUDA lookup,
//! [`frameworks`] which CUDA build variants a torch/tensorflow release ships, and
//! [`solve`] ties them to the machine's actual GPU.

pub mod data;
pub mod frameworks;
pub mod nvidia;
pub mod refresh;
pub mod solve;

use vstd::prelude::*;

pub use data::{FRAMEWORKS_JSON, IMPORT_MAP_JSON, NVIDIA_JSON};

use crate::document::{
    json_document, lemma_table_view, part, part_of, read_json, table_views, Tree, TreeView,
};
use crate::engine::gpu::{Accelerator, AcceleratorView};
use crate::engine::platform::Os;
use crate::engine::project::{requirement_views, Requirement, RequirementView};
use crate::engine::{finding_views, Finding, FindingView};
use crate::text;
use frameworks::{framework_of, Framework, FrameworkTable, FrameworkTableView};
use nvidia::{DriverRowView, DriverTable};
use solve::{solve_spec, solve_with_tables};

verus! {

/// GPU / driver facts, for the report.
#[derive(Debug, PartialEq, Eq)]
pub struct GpuInfo {
    pub name: Option<String>,
    pub driver_version: Option<String>,
    pub apple_silicon: bool,
}

/// The hardware side of an assessment.
#[derive(Debug)]
pub struct HardwareReport {
    pub gpu: Option<GpuInfo>,
    pub findings: Vec<Finding>,
}

impl Default for HardwareReport {
    fn default() -> (r: HardwareReport)
        ensures
            r.gpu is None,
            r.findings@.len() == 0,
    {
        HardwareReport { gpu: None, findings: Vec::new() }
    }
}

/// GPU facts, mathematically.
#[verifier::ext_equal]
pub struct GpuInfoView {
    pub name: Option<Seq<char>>,
    pub driver_version: Option<Seq<char>>,
    pub apple_silicon: bool,
}

impl View for GpuInfo {
    type V = GpuInfoView;

    open spec fn view(&self) -> GpuInfoView {
        GpuInfoView {
            name: text::opt_text(self.name),
            driver_version: text::opt_text(self.driver_version),
            apple_silicon: self.apple_silicon,
        }
    }
}

pub open spec fn gpu_facts(a: AcceleratorView) -> GpuInfoView {
    match a {
        AcceleratorView::Nvidia { name, driver_version } => GpuInfoView {
            name: Some(name),
            driver_version: Some(driver_version),
            apple_silicon: false,
        },
        AcceleratorView::AppleSilicon => GpuInfoView {
            name: None,
            driver_version: None,
            apple_silicon: true,
        },
        AcceleratorView::Absent => GpuInfoView {
            name: None,
            driver_version: None,
            apple_silicon: false,
        },
    }
}

/// Whether a requirement is for a framework this module knows.
pub open spec fn is_framework() -> spec_fn(RequirementView) -> bool {
    |r: RequirementView| framework_of(r.name) is Some
}

/// Whether any dependency depends on the GPU, so that it is worth probing.
pub open spec fn any_framework(reqs: Seq<RequirementView>) -> bool {
    exists|i: int| 0 <= i < reqs.len() && framework_of((#[trigger] reqs[i]).name) is Some
}

/// The finding on one requirement, if it is a framework and there is one.
pub open spec fn hardware_finding(
    t: FrameworkTableView,
    rows: Option<Seq<DriverRowView>>,
    a: AcceleratorView,
    os: Os,
) -> spec_fn(RequirementView) -> Option<FindingView> {
    |r: RequirementView|
        match framework_of(r.name) {
            Some(f) => match solve_spec(t, rows, a, os, f, Some(r)) {
                Some(solved) => solved.finding,
                None => None,
            },
            None => None,
        }
}

/// Does any dependency depend on the GPU? When none does it is not even probed.
pub fn needs_gpu(packages: &Vec<Requirement>) -> (r: bool)
    ensures
        r == any_framework(requirement_views(packages@)),
{
    let ghost views = requirement_views(packages@);
    let mut i: usize = 0;
    while i < packages.len()
        invariant
            i <= packages@.len(),
            views == requirement_views(packages@),
            forall|j: int| 0 <= j < i ==> framework_of((#[trigger] views[j]).name) is None,
        decreases packages@.len() - i,
    {
        proof {
            assert(views[i as int] == packages@[i as int]@);
        }
        if Framework::from_package_name(packages[i].name.as_str()).is_some() {
            return true;
        }
        i += 1;
    }
    false
}

/// Run the hardware/ML compatibility check over a project's declared
/// dependencies, against the given tables and machine.
///
/// Silent by construction for everything except torch/tensorflow.
pub fn check(
    packages: &Vec<Requirement>,
    table: Option<&FrameworkTable>,
    drivers: Option<&DriverTable>,
    accelerator: &Accelerator,
    os: Os,
) -> (r: HardwareReport)
    ensures
        match r.gpu {
            Some(gpu) => any_framework(requirement_views(packages@)) && gpu@ == gpu_facts(
                accelerator@,
            ),
            None => !any_framework(requirement_views(packages@)),
        },
        finding_views(r.findings@) == (match table {
            Some(t) => requirement_views(packages@).filter_map(
                hardware_finding(t@, solve::opt_table(drivers), accelerator@, os),
            ),
            None => seq![],
        }),
{
    let ghost views = requirement_views(packages@);
    let mut findings: Vec<Finding> = Vec::new();
    let gpu = if needs_gpu(packages) {
        Some(
            match accelerator {
                Accelerator::Nvidia { name, driver_version } => GpuInfo {
                    name: Some(name.clone()),
                    driver_version: Some(driver_version.clone()),
                    apple_silicon: false,
                },
                Accelerator::AppleSilicon => GpuInfo {
                    name: None,
                    driver_version: None,
                    apple_silicon: true,
                },
                Accelerator::Absent => GpuInfo {
                    name: None,
                    driver_version: None,
                    apple_silicon: false,
                },
            },
        )
    } else {
        None
    };
    let table = match table {
        Some(table) => table,
        None => {
            proof {
                assert(finding_views(findings@) =~= seq![]);
            }
            return HardwareReport { gpu, findings };
        },
    };
    let ghost f = hardware_finding(table@, solve::opt_table(drivers), accelerator@, os);
    let mut i: usize = 0;
    proof {
        assert(finding_views(findings@) =~= views.take(0).filter_map(f));
    }
    while i < packages.len()
        invariant
            i <= packages@.len(),
            views == requirement_views(packages@),
            f == hardware_finding(table@, solve::opt_table(drivers), accelerator@, os),
            finding_views(findings@) == views.take(i as int).filter_map(f),
        decreases packages@.len() - i,
    {
        proof {
            views.lemma_filter_map_take_succ(f, i as int);
            assert(views[i as int] == packages@[i as int]@);
        }
        let req = &packages[i];
        if let Some(framework) = Framework::from_package_name(req.name.as_str()) {
            let solved = solve_with_tables(framework, Some(req), table, drivers, accelerator, os);
            if let Some(solved) = solved {
                if let Some(finding) = solved.finding {
                    let ghost before = findings@;
                    findings.push(finding);
                    proof {
                        assert(finding_views(findings@) =~= finding_views(before).push(finding@));
                    }
                }
            }
        }
        i += 1;
    }
    proof {
        assert(views.take(i as int) =~= views);
    }
    HardwareReport { gpu, findings }
}

// ---------------------------------------------------------------------------
// Bundled data
// ---------------------------------------------------------------------------

/// The bundled datasets.
#[derive(Debug)]
pub struct DataStore {
    pub nvidia: &'static str,
    pub frameworks: &'static str,
    pub import_map: &'static str,
}

impl DataStore {
    pub fn bundled() -> (r: DataStore)
        ensures
            r.nvidia == NVIDIA_JSON,
            r.frameworks == FRAMEWORKS_JSON,
            r.import_map == IMPORT_MAP_JSON,
    {
        DataStore {
            nvidia: NVIDIA_JSON,
            frameworks: FRAMEWORKS_JSON,
            import_map: IMPORT_MAP_JSON,
        }
    }
}

/// Import names and the distribution that provides each.
#[derive(Debug)]
pub struct ImportMap {
    pub entries: Vec<(String, String)>,
}

pub open spec fn entry_views(v: Seq<(String, String)>) -> Seq<(Seq<char>, Seq<char>)> {
    Seq::new(v.len(), |i: int| (v[i].0@, v[i].1@))
}

impl View for ImportMap {
    type V = Seq<(Seq<char>, Seq<char>)>;

    open spec fn view(&self) -> Seq<(Seq<char>, Seq<char>)> {
        entry_views(self.entries@)
    }
}

pub open spec fn provides(import_name: Seq<char>) -> spec_fn((Seq<char>, Seq<char>)) -> Option<
    Seq<char>,
> {
    |entry: (Seq<char>, Seq<char>)|
        if entry.0 == import_name {
            Some(entry.1)
        } else {
            None
        }
}

/// The distribution a map lists for an import.
pub open spec fn mapped(map: Seq<(Seq<char>, Seq<char>)>, import_name: Seq<char>) -> Option<
    Seq<char>,
> {
    text::first_some(map, provides(import_name))
}

/// The distribution that provides an import: the one listed, else its own name.
pub open spec fn package_of(map: Seq<(Seq<char>, Seq<char>)>, import_name: Seq<char>) -> Seq<char> {
    match mapped(map, import_name) {
        Some(package) => package,
        None => import_name,
    }
}

/// The first `n` entries of a table of texts; `None` if one is no text.
pub open spec fn text_entries(entries: Seq<(Seq<char>, TreeView)>, n: int) -> Option<
    Seq<(Seq<char>, Seq<char>)>,
>
    decreases n,
{
    if n <= 0 {
        Some(seq![])
    } else {
        match (text_entries(entries, n - 1), entries[n - 1].1) {
            (Some(v), TreeView::Text(s)) => Some(v.push((entries[n - 1].0, s))),
            _ => None,
        }
    }
}

/// The map a document holds; one that cannot be read maps nothing.
pub open spec fn import_map_spec(doc: Option<TreeView>) -> Seq<(Seq<char>, Seq<char>)> {
    match doc {
        Some(doc) => match part_of(doc, "map"@, 0, 1) {
            Some(TreeView::Table(entries)) => match text_entries(
                entries,
                entries.len() as int,
            ) {
                Some(v) => v,
                None => seq![],
            },
            _ => seq![],
        },
        None => seq![],
    }
}

impl ImportMap {
    fn of_entries(entries: &Vec<(String, Tree)>) -> (r: ImportMap)
        ensures
            r@ == (match text_entries(table_views(entries@), entries@.len() as int) {
                Some(v) => v,
                None => seq![],
            }),
    {
        let ghost views = table_views(entries@);
        let mut out: Vec<(String, String)> = Vec::new();
        let mut failed = false;
        let mut i: usize = 0;
        proof {
            assert(entry_views(out@) =~= seq![]);
        }
        while i < entries.len()
            invariant
                i <= entries@.len(),
                views == table_views(entries@),
                text_entries(views, i as int) == (if failed {
                    None
                } else {
                    Some(entry_views(out@))
                }),
            decreases entries@.len() - i,
        {
            proof {
                assert(views[i as int] == (entries@[i as int].0@, entries@[i as int].1@));
            }
            match &entries[i].1 {
                Tree::Text(s) => {
                    let ghost before = out@;
                    out.push((entries[i].0.clone(), s.clone()));
                    proof {
                        assert(entry_views(out@) =~= entry_views(before).push(
                            (entries@[i as int].0@, s@),
                        ));
                    }
                },
                _ => {
                    failed = true;
                },
            }
            i += 1;
        }
        if failed {
            let none: Vec<(String, String)> = Vec::new();
            proof {
                assert(entry_views(none@) =~= seq![]);
            }
            ImportMap { entries: none }
        } else {
            ImportMap { entries: out }
        }
    }

    /// The map a JSON text holds.
    pub fn load(json: &str) -> (r: ImportMap)
        ensures
            r@ == import_map_spec(json_document(json@)),
    {
        if let Some(doc) = read_json(json) {
            if let Some(Tree::Table(entries)) = part(&doc, "map", 0, 1) {
                proof {
                    lemma_table_view(*entries);
                }
                return ImportMap::of_entries(entries);
            }
        }
        let none: Vec<(String, String)> = Vec::new();
        proof {
            assert(entry_views(none@) =~= seq![]);
        }
        ImportMap { entries: none }
    }

    /// The distribution listed for an import.
    pub fn get(&self, import_name: &str) -> (r: Option<&str>)
        ensures
            text::opt_str(r) == mapped(self@, import_name@),
    {
        let ghost f = provides(import_name@);
        let mut i: usize = 0;
        while i < self.entries.len()
            invariant
                i <= self.entries@.len(),
                f == provides(import_name@),
                forall|j: int| 0 <= j < i ==> f(#[trigger] self@[j]) is None,
            decreases self.entries@.len() - i,
        {
            proof {
                assert(self@[i as int] == (
                    self.entries@[i as int].0@,
                    self.entries@[i as int].1@,
                ));
            }
            if text::same(self.entries[i].0.as_str(), import_name) {
                proof {
                    text::lemma_first_some_at(self@, f, i as int);
                }
                return Some(self.entries[i].1.as_str());
            }
            i += 1;
        }
        proof {
            text::lemma_first_some_at(self@, f, i as int);
        }
        None
    }

    /// The distribution that provides an import: the one listed, else its own name.
    pub fn resolve(&self, import_name: &str) -> (r: String)
        ensures
            r@ == package_of(self@, import_name@),
    {
        match self.get(import_name) {
            Some(package) => package.to_string(),
            None => import_name.to_string(),
        }
    }
}

/// The bundled import map.
pub fn import_map() -> (r: ImportMap)
    ensures
        r@ == import_map_spec(json_document(IMPORT_MAP_JSON@)),
{
    ImportMap::load(IMPORT_MAP_JSON)
}

/// Resolve an import name to the PyPI package that provides it.
///
/// Unlisted names resolve to themselves, which is usually right and occasionally
/// a typo. Callers must show the resolved name in any install prompt.
pub fn resolve_package(import_name: &str) -> (r: String)
    ensures
        r@ == package_of(import_map_spec(json_document(IMPORT_MAP_JSON@)), import_name@),
{
    import_map().resolve(import_name)
}

/// True when the name came from the bundled table rather than falling through.
pub fn is_mapped(import_name: &str) -> (r: bool)
    ensures
        r == (mapped(import_map_spec(json_document(IMPORT_MAP_JSON@)), import_name@) is Some),
{
    import_map().get(import_name).is_some()
}

// ---------------------------------------------------------------------------
// Laws
// ---------------------------------------------------------------------------

/// An import that a map does not list resolves to its own name, as written.
pub proof fn unlisted_names_resolve_to_themselves(
    map: Seq<(Seq<char>, Seq<char>)>,
    import_name: Seq<char>,
)
    requires
        mapped(map, import_name) is None,
    ensures
        package_of(map, import_name) == import_name,
{
}

proof fn lemma_text_entries(entries: Seq<(Seq<char>, TreeView)>, n: int)
    requires
        0 <= n <= entries.len(),
        forall|j: int| 0 <= j < entries.len() ==> (#[trigger] entries[j]).1 is Text,
    ensures
        text_entries(entries, n) is Some,
        text_entries(entries, n)->0.len() == n,
        forall|j: int|
            0 <= j < n ==> (#[trigger] text_entries(entries, n)->0[j]) == (
                entries[j].0,
                entries[j].1->Text_0,
            ),
    decreases n,
{
    if n > 0 {
        lemma_text_entries(entries, n - 1);
        assert(entries[n - 1].1 is Text);
    }
}

/// An import that a document's map lists resolves to the distribution listed.
pub proof fn listed_names_resolve_as_listed(
    doc: TreeView,
    entries: Seq<(Seq<char>, TreeView)>,
    i: int,
)
    requires
        part_of(doc, "map"@, 0, 1) == Some(TreeView::Table(entries)),
        forall|j: int| 0 <= j < entries.len() ==> (#[trigger] entries[j]).1 is Text,
        0 <= i < entries.len(),
        forall|j: int| 0 <= j < i ==> (#[trigger] entries[j]).0 != entries[i].0,
    ensures
        mapped(import_map_spec(Some(doc)), entries[i].0) == Some(entries[i].1->Text_0),
        package_of(import_map_spec(Some(doc)), entries[i].0) == entries[i].1->Text_0,
{
    lemma_text_entries(entries, entries.len() as int);
    let map = import_map_spec(Some(doc));
    let name = entries[i].0;
    assert(map[i] == (name, entries[i].1->Text_0));
    assert forall|j: int| 0 <= j < i implies provides(name)(#[trigger] map[j]) is None by {
        assert(map[j].0 == entries[j].0);
    }
    text::lemma_first_some_at(map, provides(name), i);
}

/// The hardware matters exactly to a project that depends on torch or tensorflow,
/// in capitals or not.
pub proof fn only_frameworks_need_the_gpu(reqs: Seq<RequirementView>)
    ensures
        any_framework(reqs) <==> exists|i: int|
            0 <= i < reqs.len() && (text::lower_ascii_spec((#[trigger] reqs[i]).name) == "torch"@
                || text::lower_ascii_spec(reqs[i].name) == "tensorflow"@),
{
    if any_framework(reqs) {
        let i = choose|i: int|
            0 <= i < reqs.len() && framework_of((#[trigger] reqs[i]).name) is Some;
        assert(text::lower_ascii_spec(reqs[i].name) == "torch"@ || text::lower_ascii_spec(
            reqs[i].name,
        ) == "tensorflow"@);
    }
    if exists|i: int|
        0 <= i < reqs.len() && (text::lower_ascii_spec((#[trigger] reqs[i]).name) == "torch"@
            || text::lower_ascii_spec(reqs[i].name) == "tensorflow"@) {
        let i = choose|i: int|
            0 <= i < reqs.len() && (text::lower_ascii_spec((#[trigger] reqs[i]).name) == "torch"@
                || text::lower_ascii_spec(reqs[i].name) == "tensorflow"@);
        assert(framework_of(reqs[i].name) is Some);
    }
}

/// What is known of the hardware is what was found: a card has its name and driver,
/// Apple silicon neither, and where nothing was found there is nothing to know.
pub proof fn the_hardware_is_told_as_found(name: Seq<char>, driver_version: Seq<char>)
    ensures
        ({
            let card = gpu_facts(AcceleratorView::Nvidia { name, driver_version });
            &&& card.name == Some(name)
            &&& card.driver_version == Some(driver_version)
            &&& !card.apple_silicon
        }),
        gpu_facts(AcceleratorView::AppleSilicon).apple_silicon,
        gpu_facts(AcceleratorView::AppleSilicon).name is None,
        gpu_facts(AcceleratorView::AppleSilicon).driver_version is None,
        !gpu_facts(AcceleratorView::Absent).apple_silicon,
        gpu_facts(AcceleratorView::Absent).name is None,
        gpu_facts(AcceleratorView::Absent).driver_version is None,
{
}

/// What there is to say about each framework of a project is among its findings, and
/// every finding is about a framework it has.
pub proof fn every_framework_is_checked(
    t: FrameworkTableView,
    rows: Option<Seq<DriverRowView>>,
    a: AcceleratorView,
    os: Os,
    reqs: Seq<RequirementView>,
    i: int,
    f: Framework,
)
    requires
        0 <= i < reqs.len(),
        framework_of(reqs[i].name) == Some(f),
        solve_spec(t, rows, a, os, f, Some(reqs[i])) is Some,
        (solve_spec(t, rows, a, os, f, Some(reqs[i]))->0).finding is Some,
    ensures
        reqs.filter_map(hardware_finding(t, rows, a, os)).contains(
            (solve_spec(t, rows, a, os, f, Some(reqs[i]))->0).finding->0,
        ),
        forall|k: int|
            0 <= k < reqs.filter_map(hardware_finding(t, rows, a, os)).len() ==> exists|j: int|
                0 <= j < reqs.len() && hardware_finding(t, rows, a, os)(#[trigger] reqs[j]) == Some(
                    #[trigger] reqs.filter_map(hardware_finding(t, rows, a, os))[k],
                ) && framework_of(reqs[j].name) is Some,
{
    let g = hardware_finding(t, rows, a, os);
    text::lemma_filter_map_keeps(reqs, g, i);
    assert forall|k: int| 0 <= k < reqs.filter_map(g).len() implies exists|j: int|
        0 <= j < reqs.len() && g(#[trigger] reqs[j]) == Some(#[trigger] reqs.filter_map(g)[k])
            && framework_of(reqs[j].name) is Some by {
        text::lemma_filter_map_source(reqs, g, k);
        let j = choose|j: int|
            0 <= j < reqs.len() && g(#[trigger] reqs[j]) == Some(reqs.filter_map(g)[k]);
        assert(framework_of(reqs[j].name) is Some);
    }
}

/// A map that holds anything but texts maps nothing, and so does a document that
/// cannot be read.
pub proof fn broken_maps_map_nothing(
    doc: TreeView,
    entries: Seq<(Seq<char>, TreeView)>,
    i: int,
    name: Seq<char>,
)
    requires
        part_of(doc, "map"@, 0, 1) == Some(TreeView::Table(entries)),
        0 <= i < entries.len(),
        !(entries[i].1 is Text),
    ensures
        package_of(import_map_spec(Some(doc)), name) == name,
        package_of(import_map_spec(None), name) == name,
{
    lemma_no_text_entries(entries, i, entries.len() as int);
    assert(import_map_spec(Some(doc)).len() == 0);
    assert(import_map_spec(None).len() == 0);
}

proof fn lemma_no_text_entries(entries: Seq<(Seq<char>, TreeView)>, i: int, n: int)
    requires
        0 <= i < n <= entries.len(),
        !(entries[i].1 is Text),
    ensures
        text_entries(entries, n) is None,
    decreases n,
{
    if i < n - 1 {
        lemma_no_text_entries(entries, i, n - 1);
    }
}

} // verus!
