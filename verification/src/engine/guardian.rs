//! The live import guardian.
//!
//! Given the text of a Python buffer, work out which imports will fail and why.
//! This runs on a debounce while the user types, so the ordering of the filters
//! matters: stdlib and local modules are rejected on string comparisons alone,
//! installed packages on a directory listing, and only what survives all three
//! reaches PyPI.

use vstd::prelude::*;

use crate::document::json_document;
use crate::engine::imports::{
    attr_uses_of, extract, extract_attr_uses, import_views, imports_of, use_views, AttrUseView,
    ImportRef, ImportRefView,
};
use crate::engine::installed::{recorded, Installed};
use crate::engine::modules::{
    attribute_status, module_name, module_of, status_of, AttrStatus, AttrStatusView, Entry,
    EntryKind, PackageDir,
};
use crate::engine::platform::Platform;
use crate::engine::project::normalized;
use crate::engine::stdlib::{in_stdlib, is_stdlib};
use crate::matrix::data::IMPORT_MAP_JSON;
use crate::matrix::{import_map_spec, is_mapped, mapped, package_of, resolve_package};
use crate::names::NameSet;
use crate::pypi::metadata::{analysis_of, PackageAnalysis, PackageAnalysisView};
use crate::pypi::pyversion::{highest, PyVersion, PyVersionSet};
use crate::pypi::{common_minors, MetadataSource};
use crate::text;

verus! {

/// Why an import will not work right now.
#[derive(Debug, PartialEq, Eq)]
pub enum Problem {
    /// The interpreter in use can run it; it just isn't installed.
    NotInstalled,
    /// A venv exists, but its Python has no wheel for this package.
    IncompatibleInterpreter {
        current: PyVersion,
        supported: PyVersionSet,
        target: Option<PyVersion>,
        /// Packages already in the venv, so the fix can be honest about scope.
        reinstall_count: usize,
    },
    /// No virtualenv yet. The target comes from every import in the file, so the
    /// first environment is built on a version that suits all of them.
    NoEnvironment { target: Option<PyVersion> },
    /// PyPI has no such project. Usually a typo, sometimes a private index.
    NotOnPyPi,
    /// The package is installed, but the attribute this file uses is not in it.
    ///
    /// This is the case metadata cannot see. mediapipe 0.10.35 installs on every
    /// CPython 3.x and then raises on `mp.solutions`, because that release
    /// dropped the legacy API. Reading the package on disk catches it at edit
    /// time rather than at run time.
    AttributeMissing {
        /// The attribute the buffer reaches for, e.g. `solutions`.
        attribute: String,
        /// Version of the package that is actually installed.
        installed_version: Option<String>,
        /// What the package does expose, to point at the replacement.
        available: Vec<String>,
    },
}

/// A problem, mathematically.
#[verifier::ext_equal]
pub enum ProblemView {
    NotInstalled,
    IncompatibleInterpreter {
        current: PyVersion,
        supported: Set<u8>,
        target: Option<PyVersion>,
        reinstall_count: nat,
    },
    NoEnvironment { target: Option<PyVersion> },
    NotOnPyPi,
    AttributeMissing {
        attribute: Seq<char>,
        installed_version: Option<Seq<char>>,
        available: Seq<Seq<char>>,
    },
}

impl View for Problem {
    type V = ProblemView;

    open spec fn view(&self) -> ProblemView {
        match *self {
            Problem::NotInstalled => ProblemView::NotInstalled,
            Problem::IncompatibleInterpreter { current, supported, target, reinstall_count } =>
                ProblemView::IncompatibleInterpreter {
                current,
                supported: supported@,
                target,
                reinstall_count: reinstall_count as nat,
            },
            Problem::NoEnvironment { target } => ProblemView::NoEnvironment { target },
            Problem::NotOnPyPi => ProblemView::NotOnPyPi,
            Problem::AttributeMissing { attribute, installed_version, available } =>
                ProblemView::AttributeMissing {
                attribute: attribute@,
                installed_version: text::opt_text(installed_version),
                available: text::texts(available@),
            },
        }
    }
}

/// One actionable import.
#[derive(Debug, PartialEq, Eq)]
pub struct Finding {
    pub import: ImportRef,
    /// The PyPI distribution that provides this import.
    pub package: String,
    /// True when the name came from the bundled table rather than the import
    /// itself. The UI says so, because a rename the user did not write is
    /// exactly the thing they should get to see before installing.
    pub renamed: bool,
    pub problem: Problem,
}

/// A finding, mathematically.
#[verifier::ext_equal]
pub struct FindingView {
    pub import: ImportRefView,
    pub package: Seq<char>,
    pub renamed: bool,
    pub problem: ProblemView,
}

impl View for Finding {
    type V = FindingView;

    open spec fn view(&self) -> FindingView {
        FindingView {
            import: self.import@,
            package: self.package@,
            renamed: self.renamed,
            problem: self.problem@,
        }
    }
}

pub open spec fn finding_views(v: Seq<Finding>) -> Seq<FindingView> {
    Seq::new(v.len(), |i: int| v[i]@)
}

/// Everything [`classify`] needs to know about the environment.
#[derive(Debug, Clone, Copy)]
pub struct BufferContext {
    /// Python version of the project venv, or `None` when there is no venv.
    pub venv_python: Option<PyVersion>,
    /// How many distributions are installed in that venv.
    pub installed_count: usize,
    /// Newest interpreter every unsatisfied import in this file agrees on.
    pub file_target: Option<PyVersion>,
}

impl Default for BufferContext {
    fn default() -> (r: BufferContext)
        ensures
            r.venv_python is None,
            r.installed_count == 0,
            r.file_target is None,
    {
        BufferContext { venv_python: None, installed_count: 0, file_target: None }
    }
}

/// The decision table.
pub open spec fn problem_of(
    analysis: Option<PackageAnalysisView>,
    venv_python: Option<PyVersion>,
    installed_count: nat,
    file_target: Option<PyVersion>,
) -> ProblemView {
    match (analysis, venv_python) {
        // Nothing on PyPI under that name. Never offer to install it.
        (None, _) => ProblemView::NotOnPyPi,
        // No venv yet: the fix builds one, sized for the whole file.
        (Some(_), None) => ProblemView::NoEnvironment { target: file_target },
        (Some(a), Some(current)) => if current.major == 3 && a.supported.contains(current.minor) {
            ProblemView::NotInstalled
        } else {
            ProblemView::IncompatibleInterpreter {
                current,
                supported: a.supported,
                target: highest(a.supported),
                reinstall_count: installed_count,
            }
        },
    }
}

pub open spec fn opt_analysis(a: Option<&PackageAnalysis>) -> Option<PackageAnalysisView> {
    match a {
        Some(a) => Some(a@),
        None => None,
    }
}

/// Apply the decision table to one import.
pub fn classify(
    import: ImportRef,
    package: String,
    renamed: bool,
    analysis: Option<&PackageAnalysis>,
    ctx: &BufferContext,
) -> (r: Finding)
    ensures
        r@ == (FindingView {
            import: import@,
            package: package@,
            renamed,
            problem: problem_of(
                opt_analysis(analysis),
                ctx.venv_python,
                ctx.installed_count as nat,
                ctx.file_target,
            ),
        }),
{
    let problem = match analysis {
        None => Problem::NotOnPyPi,
        Some(a) => match ctx.venv_python {
            None => Problem::NoEnvironment { target: ctx.file_target },
            Some(current) => if a.supported.contains(current) {
                Problem::NotInstalled
            } else {
                Problem::IncompatibleInterpreter {
                    current,
                    supported: a.supported.clone(),
                    target: a.supported.max(),
                    reinstall_count: ctx.installed_count,
                }
            },
        },
    };
    Finding { import, package, renamed, problem }
}

// ---------------------------------------------------------------------------
// The imports worth asking about
// ---------------------------------------------------------------------------

/// An import that is neither the interpreter's, nor the project's, nor installed.
#[derive(Debug, PartialEq, Eq)]
pub struct Candidate {
    pub import: ImportRef,
    pub package: String,
    pub renamed: bool,
}

/// A candidate, mathematically.
#[verifier::ext_equal]
pub struct CandidateView {
    pub import: ImportRefView,
    pub package: Seq<char>,
    pub renamed: bool,
}

impl View for Candidate {
    type V = CandidateView;

    open spec fn view(&self) -> CandidateView {
        CandidateView { import: self.import@, package: self.package@, renamed: self.renamed }
    }
}

pub open spec fn candidate_views(v: Seq<Candidate>) -> Seq<CandidateView> {
    Seq::new(v.len(), |i: int| v[i]@)
}

/// The distribution the bundled table gives for an import.
pub open spec fn package_for(module: Seq<char>) -> Seq<char> {
    package_of(import_map_spec(json_document(IMPORT_MAP_JSON@)), module)
}

/// Whether the bundled table renames an import.
pub open spec fn renames(module: Seq<char>) -> bool {
    mapped(import_map_spec(json_document(IMPORT_MAP_JSON@)), module) is Some
}

pub open spec fn candidate(
    local: Set<Seq<char>>,
    installed: Set<Seq<char>>,
) -> spec_fn(ImportRefView) -> Option<CandidateView> {
    |i: ImportRefView|
        if in_stdlib(i.module) || local.contains(i.module) || installed.contains(
            normalized(package_for(i.module)),
        ) {
            None
        } else {
            Some(
                CandidateView {
                    import: i,
                    package: package_for(i.module),
                    renamed: renames(i.module),
                },
            )
        }
}

/// The imports of a buffer that may need a package.
pub open spec fn candidates_of(
    source: Seq<char>,
    local: Set<Seq<char>>,
    installed: Set<Seq<char>>,
) -> Seq<CandidateView> {
    imports_of(source).filter_map(candidate(local, installed))
}

/// Every import of the buffer that is not the standard library's, not one of the
/// `local` modules, and not installed. Each occurrence is kept, for the squiggles.
pub fn candidates(source: &str, local: &NameSet, installed: &Installed) -> (r: Vec<Candidate>)
    ensures
        candidate_views(r@) == candidates_of(source@, local@, installed.packages@),
{
    let imports = extract(source);
    let ghost views = imports_of(source@);
    let ghost f = candidate(local@, installed.packages@);
    let mut out: Vec<Candidate> = Vec::new();
    let mut i: usize = 0;
    proof {
        assert(candidate_views(out@) =~= views.take(0).filter_map(f));
    }
    while i < imports.len()
        invariant
            i <= imports@.len(),
            views == import_views(imports@),
            f == candidate(local@, installed.packages@),
            candidate_views(out@) == views.take(i as int).filter_map(f),
        decreases imports@.len() - i,
    {
        let import = &imports[i];
        proof {
            views.lemma_filter_map_take_succ(f, i as int);
            assert(views[i as int] == import@);
        }
        let module = import.module.as_str();
        if !is_stdlib(module) && !local.contains(module) {
            let package = resolve_package(module);
            if !installed.contains(package.as_str()) {
                let found = Candidate {
                    import: import.clone(),
                    package,
                    renamed: is_mapped(module),
                };
                proof {
                    assert(candidate_views(out@.push(found)) =~= candidate_views(out@).push(
                        found@,
                    ));
                }
                out.push(found);
            }
        }
        i += 1;
    }
    proof {
        assert(views.take(i as int) =~= views);
    }
    out
}

/// The distributions the first `n` candidates need.
pub open spec fn packages_to(candidates: Seq<CandidateView>, n: int) -> Set<Seq<char>>
    decreases n,
{
    if n <= 0 {
        Set::empty()
    } else {
        packages_to(candidates, n - 1).insert(candidates[n - 1].package)
    }
}

/// The distributions to look up, each once.
pub fn packages_of(candidates: &Vec<Candidate>) -> (r: NameSet)
    ensures
        r@ == packages_to(candidate_views(candidates@), candidates@.len() as int),
{
    let ghost views = candidate_views(candidates@);
    let mut names = NameSet::new();
    let mut i: usize = 0;
    while i < candidates.len()
        invariant
            i <= candidates@.len(),
            views == candidate_views(candidates@),
            names@ == packages_to(views, i as int),
        decreases candidates@.len() - i,
    {
        proof {
            assert(views[i as int] == candidates@[i as int]@);
        }
        names.insert(candidates[i].package.as_str());
        i += 1;
    }
    names
}

proof fn lemma_packages(candidates: Seq<CandidateView>, n: int, i: int)
    requires
        0 <= i < n <= candidates.len(),
    ensures
        packages_to(candidates, n).contains(candidates[i].package),
    decreases n,
{
    if i < n - 1 {
        lemma_packages(candidates, n - 1, i);
    }
}

// ---------------------------------------------------------------------------
// Findings from what PyPI answered
// ---------------------------------------------------------------------------

/// What PyPI answered for a distribution: its analysis, or nothing.
pub type Answer = (String, Option<PackageAnalysis>);

/// An answer, mathematically.
pub open spec fn answer_view(a: Answer) -> (Seq<char>, Option<PackageAnalysisView>) {
    (
        a.0@,
        match a.1 {
            Some(a) => Some(a@),
            None => None,
        },
    )
}

pub open spec fn answer_views(v: Seq<Answer>) -> Seq<(Seq<char>, Option<PackageAnalysisView>)> {
    Seq::new(v.len(), |i: int| answer_view(v[i]))
}

/// The first answer under a name.
pub open spec fn answer_in(
    answers: Seq<(Seq<char>, Option<PackageAnalysisView>)>,
    name: Seq<char>,
) -> Option<PackageAnalysisView>
    decreases answers.len(),
{
    if answers.len() == 0 {
        None
    } else if answers[0].0 == name {
        answers[0].1
    } else {
        answer_in(answers.drop_first(), name)
    }
}

/// A list of answers as a function of the name.
pub open spec fn answering(
    answers: Seq<(Seq<char>, Option<PackageAnalysisView>)>,
) -> spec_fn(Seq<char>) -> Option<PackageAnalysisView> {
    |name: Seq<char>| answer_in(answers, name)
}

/// The analyses known for the first `n` candidates.
pub open spec fn known_to(
    candidates: Seq<CandidateView>,
    f: spec_fn(Seq<char>) -> Option<PackageAnalysisView>,
    n: int,
) -> Seq<PackageAnalysisView>
    decreases n,
{
    if n <= 0 {
        seq![]
    } else {
        match f(candidates[n - 1].package) {
            Some(a) => known_to(candidates, f, n - 1).push(a),
            None => known_to(candidates, f, n - 1),
        }
    }
}

/// The newest interpreter every package known agrees on.
pub open spec fn agreed_target(known: Seq<PackageAnalysisView>) -> Option<PyVersion> {
    if known.len() == 0 {
        None
    } else {
        highest(common_minors(known))
    }
}

/// The findings of a buffer, given its candidates and what is known of each
/// distribution.
pub open spec fn findings_of(
    candidates: Seq<CandidateView>,
    f: spec_fn(Seq<char>) -> Option<PackageAnalysisView>,
    venv_python: Option<PyVersion>,
    installed_count: nat,
) -> Seq<FindingView> {
    let target = agreed_target(known_to(candidates, f, candidates.len() as int));
    Seq::new(
        candidates.len(),
        |i: int|
            FindingView {
                import: candidates[i].import,
                package: candidates[i].package,
                renamed: candidates[i].renamed,
                problem: problem_of(
                    f(candidates[i].package),
                    venv_python,
                    installed_count,
                    target,
                ),
            },
    )
}

proof fn lemma_answer_at(
    answers: Seq<(Seq<char>, Option<PackageAnalysisView>)>,
    name: Seq<char>,
    i: int,
)
    requires
        0 <= i <= answers.len(),
        forall|j: int| 0 <= j < i ==> (#[trigger] answers[j]).0 != name,
        i < answers.len() ==> answers[i].0 == name,
    ensures
        answer_in(answers, name) == if i < answers.len() {
            answers[i].1
        } else {
            None
        },
    decreases i,
{
    if i > 0 {
        assert(answers[0].0 != name);
        let rest = answers.drop_first();
        assert forall|j: int| 0 <= j < i - 1 implies (#[trigger] rest[j]).0 != name by {
            assert(rest[j] == answers[j + 1]);
        }
        lemma_answer_at(rest, name, i - 1);
    }
}

fn answer_for<'a>(answers: &'a [Answer], name: &str) -> (r: Option<&'a PackageAnalysis>)
    ensures
        opt_analysis(r) == answer_in(answer_views(answers@), name@),
{
    let ghost views = answer_views(answers@);
    let mut i: usize = 0;
    while i < answers.len()
        invariant
            i <= answers@.len(),
            views == answer_views(answers@),
            forall|j: int| 0 <= j < i ==> (#[trigger] views[j]).0 != name@,
        decreases answers@.len() - i,
    {
        proof {
            assert(views[i as int] == answer_view(answers@[i as int]));
        }
        if text::same(answers[i].0.as_str(), name) {
            proof {
                lemma_answer_at(views, name@, i as int);
            }
            return match &answers[i].1 {
                Some(a) => Some(a),
                None => None,
            };
        }
        i += 1;
    }
    proof {
        lemma_answer_at(views, name@, i as int);
    }
    None
}

proof fn lemma_common_push(known: Seq<PackageAnalysisView>, a: PackageAnalysisView)
    ensures
        common_minors(known.push(a)) == common_minors(known).intersect(a.supported),
{
    let more = known.push(a);
    assert forall|m: u8| common_minors(more).contains(m) <==> common_minors(known).intersect(
        a.supported,
    ).contains(m) by {
        if common_minors(more).contains(m) {
            assert(more[known.len() as int].supported.contains(m));
            assert forall|i: int| 0 <= i < known.len() implies (
            #[trigger] known[i]).supported.contains(m) by {
                assert(more[i].supported.contains(m));
            }
        }
        if common_minors(known).contains(m) && a.supported.contains(m) {
            assert forall|i: int| 0 <= i < more.len() implies (
            #[trigger] more[i]).supported.contains(m) by {
                if i < known.len() {
                    assert(known[i].supported.contains(m));
                }
            }
        }
    }
    assert(common_minors(more) =~= common_minors(known).intersect(a.supported));
}

/// The newest interpreter every candidate PyPI knows agrees on.
///
/// With no venv, the first environment should suit every import in the file, so
/// they are all intersected rather than sizing for whichever one is on screen.
fn file_target(candidates: &Vec<Candidate>, answers: &[Answer]) -> (r: Option<PyVersion>)
    ensures
        r == agreed_target(
            known_to(
                candidate_views(candidates@),
                answering(answer_views(answers@)),
                candidates@.len() as int,
            ),
        ),
{
    let ghost views = candidate_views(candidates@);
    let ghost f = answering(answer_views(answers@));
    let mut common = PyVersionSet::universe();
    let mut any = false;
    let mut i: usize = 0;
    proof {
        assert(common@ =~= common_minors(known_to(views, f, 0)));
    }
    while i < candidates.len()
        invariant
            i <= candidates@.len(),
            views == candidate_views(candidates@),
            f == answering(answer_views(answers@)),
            any == (known_to(views, f, i as int).len() > 0),
            common@ == common_minors(known_to(views, f, i as int)),
        decreases candidates@.len() - i,
    {
        proof {
            assert(views[i as int] == candidates@[i as int]@);
        }
        if let Some(a) = answer_for(answers, candidates[i].package.as_str()) {
            proof {
                lemma_common_push(known_to(views, f, i as int), a@);
            }
            common = common.intersect(&a.supported);
            any = true;
        }
        i += 1;
    }
    if any {
        common.max()
    } else {
        None
    }
}

/// Turn what PyPI answered for each distribution into findings.
pub fn conclude(
    candidates: Vec<Candidate>,
    answers: &[Answer],
    venv_python: Option<PyVersion>,
    installed_count: usize,
) -> (r: Vec<Finding>)
    ensures
        finding_views(r@) == findings_of(
            candidate_views(candidates@),
            answering(answer_views(answers@)),
            venv_python,
            installed_count as nat,
        ),
{
    let ghost views = candidate_views(candidates@);
    let ghost f = answering(answer_views(answers@));
    let ctx = BufferContext {
        venv_python,
        installed_count,
        file_target: file_target(&candidates, answers),
    };
    let ghost all = findings_of(views, f, venv_python, installed_count as nat);
    let mut out: Vec<Finding> = Vec::new();
    let mut i: usize = 0;
    proof {
        assert(finding_views(out@) =~= all.take(0));
    }
    while i < candidates.len()
        invariant
            i <= candidates@.len(),
            views == candidate_views(candidates@),
            f == answering(answer_views(answers@)),
            all == findings_of(views, f, venv_python, installed_count as nat),
            ctx.venv_python == venv_python,
            ctx.installed_count == installed_count,
            ctx.file_target == agreed_target(known_to(views, f, candidates@.len() as int)),
            finding_views(out@) == all.take(i as int),
        decreases candidates@.len() - i,
    {
        let c = &candidates[i];
        let found = classify(
            c.import.clone(),
            c.package.clone(),
            c.renamed,
            answer_for(answers, c.package.as_str()),
            &ctx,
        );
        proof {
            assert(views[i as int] == c@);
            assert(all[i as int] == found@);
            assert(finding_views(out@.push(found)) =~= finding_views(out@).push(found@));
            assert(all.take(i as int).push(all[i as int]) =~= all.take(i as int + 1));
        }
        out.push(found);
        i += 1;
    }
    proof {
        assert(all.take(i as int) =~= all);
    }
    out
}

/// What a metadata source has to say of a distribution on a platform.
pub open spec fn analyses<S: MetadataSource>(
    metadata: &S,
    platform: Platform,
) -> spec_fn(Seq<char>) -> Option<PackageAnalysisView> {
    |name: Seq<char>|
        match metadata.answer(name) {
            Ok(meta) => Some(analysis_of(meta, platform)),
            Err(_) => None,
        }
}

/// Two sources of answers that agree on every candidate give the same findings.
proof fn lemma_same_answers(
    candidates: Seq<CandidateView>,
    f: spec_fn(Seq<char>) -> Option<PackageAnalysisView>,
    g: spec_fn(Seq<char>) -> Option<PackageAnalysisView>,
    n: int,
)
    requires
        0 <= n <= candidates.len(),
        forall|i: int|
            0 <= i < candidates.len() ==> f((#[trigger] candidates[i]).package) == g(
                candidates[i].package,
            ),
    ensures
        known_to(candidates, f, n) == known_to(candidates, g, n),
    decreases n,
{
    if n > 0 {
        lemma_same_answers(candidates, f, g, n - 1);
        assert(f(candidates[n - 1].package) == g(candidates[n - 1].package));
    }
}

/// Analyze a buffer and return everything worth a diagnostic.
///
/// `local` names the project's own modules, which must never be reported as
/// missing packages. `platform` decides which wheels count, and is a parameter
/// rather than a lookup so the answer is reproducible off the machine that
/// produced it.
pub fn analyze_buffer<S: MetadataSource>(
    source: &str,
    local: &NameSet,
    platform: Platform,
    venv_python: Option<PyVersion>,
    installed: &Installed,
    metadata: &S,
) -> (r: Vec<Finding>)
    ensures
        finding_views(r@) == findings_of(
            candidates_of(source@, local@, installed.packages@),
            analyses(metadata, platform),
            venv_python,
            installed.packages@.len(),
        ),
{
    let wanted = candidates(source, local, installed);
    let ghost views = candidate_views(wanted@);
    let names = packages_of(&wanted);
    let list = names.list();
    let ghost f = analyses(metadata, platform);
    let mut answers: Vec<Answer> = Vec::new();
    let mut i: usize = 0;
    while i < list.len()
        invariant
            i <= list@.len(),
            answers@.len() == i,
            f == analyses(metadata, platform),
            forall|j: int|
                0 <= j < i ==> (#[trigger] answer_views(answers@)[j]) == (
                    list@[j]@,
                    f(list@[j]@),
                ),
        decreases list@.len() - i,
    {
        let analysis = match metadata.fetch(list[i].as_str()) {
            Ok(meta) => Some(meta.analyze(&platform)),
            Err(_) => None,
        };
        let ghost before = answers@;
        answers.push((list[i].clone(), analysis));
        proof {
            assert forall|j: int| 0 <= j < i + 1 implies (#[trigger] answer_views(answers@)[j]) == (
                list@[j]@,
                f(list@[j]@),
            ) by {
                if j < i {
                    assert(answer_views(before)[j] == answer_views(answers@)[j]);
                }
            }
        }
        i += 1;
    }
    proof {
        let g = answering(answer_views(answers@));
        assert forall|k: int| 0 <= k < views.len() implies f((#[trigger] views[k]).package) == g(
            views[k].package,
        ) by {
            let name = views[k].package;
            lemma_packages(views, views.len() as int, k);
            assert(text::texts(list@).to_set().contains(name));
            assert(text::texts(list@).contains(name));
            let j = choose|j: int|
                0 <= j < text::texts(list@).len() && text::texts(list@)[j] == name;
            assert(answer_views(answers@)[j].0 == name);
            lemma_answered(answer_views(answers@), name, f);
        }
        lemma_same_answers(views, f, g, views.len() as int);
        assert(findings_of(views, f, venv_python, installed.packages@.len()) =~= findings_of(
            views,
            g,
            venv_python,
            installed.packages@.len(),
        ));
    }
    conclude(wanted, answers.as_slice(), venv_python, installed.count())
}

/// Where every answer is that of `f`, a name that is among them is answered by `f`.
proof fn lemma_answered(
    answers: Seq<(Seq<char>, Option<PackageAnalysisView>)>,
    name: Seq<char>,
    f: spec_fn(Seq<char>) -> Option<PackageAnalysisView>,
)
    requires
        forall|j: int| 0 <= j < answers.len() ==> (#[trigger] answers[j]).1 == f(answers[j].0),
        exists|j: int| 0 <= j < answers.len() && (#[trigger] answers[j]).0 == name,
    ensures
        answer_in(answers, name) == f(name),
    decreases answers.len(),
{
    if answers[0].0 == name {
        assert(answers[0].1 == f(answers[0].0));
    } else {
        let rest = answers.drop_first();
        let j = choose|j: int| 0 <= j < answers.len() && (#[trigger] answers[j]).0 == name;
        assert(rest[j - 1] == answers[j]);
        assert forall|k: int| 0 <= k < rest.len() implies (#[trigger] rest[k]).1 == f(
            rest[k].0,
        ) by {
            assert(rest[k] == answers[k + 1]);
        }
        lemma_answered(rest, name, f);
    }
}

// ---------------------------------------------------------------------------
// Attributes of installed packages
// ---------------------------------------------------------------------------

/// The directory of an imported package, among those that were found.
pub open spec fn directory_of(
    packages: Seq<(String, PackageDir)>,
    module: Seq<char>,
) -> Option<PackageDir>
    decreases packages.len(),
{
    if packages.len() == 0 {
        None
    } else if packages[0].0@ == module {
        Some(packages[0].1)
    } else {
        directory_of(packages.drop_first(), module)
    }
}

/// The attributes the first `n` uses reach for.
pub open spec fn attrs_to(uses: Seq<AttrUseView>, n: int) -> Set<Seq<char>>
    decreases n,
{
    if n <= 0 {
        Set::empty()
    } else {
        attrs_to(uses, n - 1).insert(uses[n - 1].attr)
    }
}

/// The finding for a use of an attribute the package lacks.
pub open spec fn missing_finding(
    import: ImportRefView,
    used: AttrUseView,
    version: Option<Seq<char>>,
    available: Seq<Seq<char>>,
) -> FindingView {
    FindingView {
        import: ImportRefView {
            module: import.module,
            binding: import.binding,
            line: used.line,
            start: used.start,
            end: used.end,
        },
        package: package_for(import.module),
        renamed: false,
        problem: ProblemView::AttributeMissing {
            attribute: used.attr,
            installed_version: version,
            available,
        },
    }
}

/// The findings of the first `n` uses of an import's attributes: one for each
/// attribute the package lacks, at its first use.
pub open spec fn use_findings(
    import: ImportRefView,
    package: PackageDir,
    version: Option<Seq<char>>,
    uses: Seq<AttrUseView>,
    n: int,
) -> Seq<FindingView>
    decreases n,
{
    if n <= 0 {
        seq![]
    } else {
        let before = use_findings(import, package, version, uses, n - 1);
        let used = uses[n - 1];
        if attrs_to(uses, n - 1).contains(used.attr) {
            before
        } else {
            match status_of(package, used.attr) {
                AttrStatusView::Missing { available } => before.push(
                    missing_finding(import, used, version, available),
                ),
                _ => before,
            }
        }
    }
}

/// The findings of one import: none unless it binds the root of a package that
/// is installed and was found.
pub open spec fn import_findings(
    source: Seq<char>,
    import: ImportRefView,
    packages: Seq<(String, PackageDir)>,
    installed: Installed,
) -> Seq<FindingView> {
    let name = normalized(package_for(import.module));
    match (import.binding, directory_of(packages, import.module)) {
        (Some(binding), Some(dir)) => if in_stdlib(import.module) || !installed.packages@.contains(
            name,
        ) {
            seq![]
        } else {
            let uses = attr_uses_of(source, seq![binding]);
            use_findings(import, dir, recorded(installed.versions@, name), uses, uses.len() as int)
        },
        _ => seq![],
    }
}

/// The findings of the first `n` imports.
pub open spec fn attribute_findings(
    source: Seq<char>,
    imports: Seq<ImportRefView>,
    packages: Seq<(String, PackageDir)>,
    installed: Installed,
    n: int,
) -> Seq<FindingView>
    decreases n,
{
    if n <= 0 {
        seq![]
    } else {
        attribute_findings(source, imports, packages, installed, n - 1) + import_findings(
            source,
            imports[n - 1],
            packages,
            installed,
        )
    }
}

proof fn lemma_directory_at(packages: Seq<(String, PackageDir)>, module: Seq<char>, i: int)
    requires
        0 <= i <= packages.len(),
        forall|j: int| 0 <= j < i ==> (#[trigger] packages[j]).0@ != module,
        i < packages.len() ==> packages[i].0@ == module,
    ensures
        directory_of(packages, module) == if i < packages.len() {
            Some(packages[i].1)
        } else {
            None
        },
    decreases i,
{
    if i > 0 {
        assert(packages[0].0@ != module);
        let rest = packages.drop_first();
        assert forall|j: int| 0 <= j < i - 1 implies (#[trigger] rest[j]).0@ != module by {
            assert(rest[j] == packages[j + 1]);
        }
        lemma_directory_at(rest, module, i - 1);
    }
}

fn find_directory<'a>(packages: &'a [(String, PackageDir)], module: &str) -> (r: Option<
    &'a PackageDir,
>)
    ensures
        match r {
            Some(dir) => directory_of(packages@, module@) == Some(*dir),
            None => directory_of(packages@, module@) is None,
        },
{
    let mut i: usize = 0;
    while i < packages.len()
        invariant
            i <= packages@.len(),
            forall|j: int| 0 <= j < i ==> (#[trigger] packages@[j]).0@ != module@,
        decreases packages@.len() - i,
    {
        if text::same(packages[i].0.as_str(), module) {
            proof {
                lemma_directory_at(packages@, module@, i as int);
            }
            return Some(&packages[i].1);
        }
        i += 1;
    }
    proof {
        lemma_directory_at(packages@, module@, i as int);
    }
    None
}

proof fn lemma_findings_push(v: Seq<Finding>, f: Finding)
    ensures
        finding_views(v.push(f)) == finding_views(v).push(f@),
{
    assert(finding_views(v.push(f)) =~= finding_views(v).push(f@));
}

fn check_import(
    source: &str,
    import: &ImportRef,
    packages: &[(String, PackageDir)],
    installed: &Installed,
    out: &mut Vec<Finding>,
)
    ensures
        finding_views(final(out)@) == finding_views(old(out)@) + import_findings(
            source@,
            import@,
            packages@,
            *installed,
        ),
{
    let ghost first = finding_views(out@);
    proof {
        assert(first + Seq::<FindingView>::empty() =~= first);
    }
    let module = import.module.as_str();
    // Only `import x` / `import x as y` bind the package root.
    let binding = match &import.binding {
        Some(binding) => binding.clone(),
        None => return,
    };
    let dir = match find_directory(packages, module) {
        Some(dir) => dir,
        None => return,
    };
    let package = resolve_package(module);
    if is_stdlib(module) || !installed.contains(package.as_str()) {
        return;
    }
    let version = installed.version_of(package.as_str());
    let bindings = vec![binding];
    let uses = extract_attr_uses(source, bindings.as_slice());
    let ghost views = use_views(uses@);
    let ghost found = text::opt_text(version);
    proof {
        assert(text::texts(bindings@) =~= seq![import@.binding->0]);
    }
    let mut reported = NameSet::new();
    let mut i: usize = 0;
    while i < uses.len()
        invariant
            i <= uses@.len(),
            views == use_views(uses@),
            found == text::opt_text(version),
            package@ == package_for(import@.module),
            reported@ == attrs_to(views, i as int),
            finding_views(out@) == first + use_findings(import@, *dir, found, views, i as int),
        decreases uses@.len() - i,
    {
        let used = &uses[i];
        let ghost before = use_findings(import@, *dir, found, views, i as int);
        proof {
            assert(views[i as int] == used@);
        }
        // One diagnostic per attribute, not per occurrence.
        if !reported.contains(used.attr.as_str()) {
            if let AttrStatus::Missing { available } = attribute_status(dir, used.attr.as_str()) {
                let finding = Finding {
                    import: ImportRef {
                        module: import.module.clone(),
                        binding: text::clone_opt(&import.binding),
                        line: used.line,
                        start: used.start,
                        end: used.end,
                    },
                    package: package.clone(),
                    renamed: false,
                    problem: Problem::AttributeMissing {
                        attribute: used.attr.clone(),
                        installed_version: text::clone_opt(&version),
                        available,
                    },
                };
                proof {
                    lemma_findings_push(out@, finding);
                    assert((first + before).push(finding@) =~= first + before.push(finding@));
                }
                out.push(finding);
            }
        }
        reported.insert(used.attr.as_str());
        i += 1;
    }
}

/// Check attribute accesses against what the installed packages actually expose.
///
/// `packages` holds, by import name, the package directories that were found in
/// the venv. Only imports that are installed are checked, since an uninstalled
/// package has nothing on disk to read.
pub fn check_attributes(
    source: &str,
    packages: &[(String, PackageDir)],
    installed: &Installed,
) -> (r: Vec<Finding>)
    ensures
        finding_views(r@) == attribute_findings(
            source@,
            imports_of(source@),
            packages@,
            *installed,
            imports_of(source@).len() as int,
        ),
{
    let imports = extract(source);
    let ghost views = imports_of(source@);
    let mut out: Vec<Finding> = Vec::new();
    let mut i: usize = 0;
    proof {
        assert(finding_views(out@) =~= seq![]);
    }
    while i < imports.len()
        invariant
            i <= imports@.len(),
            views == import_views(imports@),
            finding_views(out@) == attribute_findings(
                source@,
                views,
                packages@,
                *installed,
                i as int,
            ),
        decreases imports@.len() - i,
    {
        proof {
            assert(views[i as int] == imports@[i as int]@);
        }
        check_import(source, &imports[i], packages, installed, &mut out);
        i += 1;
    }
    out
}

// ---------------------------------------------------------------------------
// The project's own modules
// ---------------------------------------------------------------------------

/// The modules the first `n` entries of a directory are.
pub open spec fn modules_to(entries: Seq<Entry>, n: int) -> Set<Seq<char>>
    decreases n,
{
    if n <= 0 {
        Set::empty()
    } else {
        match module_of(entries[n - 1]) {
            Some(name) => modules_to(entries, n - 1).insert(name),
            None => modules_to(entries, n - 1),
        }
    }
}

fn collect_modules(entries: &[Entry], out: &mut NameSet)
    ensures
        final(out)@ == old(out)@.union(modules_to(entries@, entries@.len() as int)),
{
    let ghost first = out@;
    let mut i: usize = 0;
    proof {
        assert(first.union(modules_to(entries@, 0)) =~= first);
    }
    while i < entries.len()
        invariant
            i <= entries@.len(),
            out@ == first.union(modules_to(entries@, i as int)),
        decreases entries@.len() - i,
    {
        let ghost before = modules_to(entries@, i as int);
        if let Some(name) = module_name(&entries[i]) {
            out.insert(name.as_str());
            proof {
                assert(first.union(before).insert(name@) =~= first.union(before.insert(name@)));
            }
        }
        i += 1;
    }
}

/// Module names that belong to this project, so `import utils` next to
/// `utils.py` never gets reported as a missing PyPI package.
///
/// Given the entries of the workspace and of its `src` directory.
pub fn local_modules(root: &[Entry], src: &[Entry]) -> (r: NameSet)
    ensures
        r@ == modules_to(root@, root@.len() as int).union(modules_to(src@, src@.len() as int)),
{
    let mut names = NameSet::new();
    collect_modules(root, &mut names);
    collect_modules(src, &mut names);
    proof {
        assert(names@ =~= modules_to(root@, root@.len() as int).union(
            modules_to(src@, src@.len() as int),
        ));
    }
    names
}

// ---------------------------------------------------------------------------
// Laws
// ---------------------------------------------------------------------------

/// The standard library, the project's own modules and what is installed are
/// never reported, whatever PyPI knows of them.
pub proof fn only_unsatisfied_imports_are_reported(
    source: Seq<char>,
    local: Set<Seq<char>>,
    installed: Set<Seq<char>>,
    f: spec_fn(Seq<char>) -> Option<PackageAnalysisView>,
    venv_python: Option<PyVersion>,
    count: nat,
    i: int,
)
    requires
        0 <= i < findings_of(candidates_of(source, local, installed), f, venv_python, count).len(),
    ensures
        ({
            let finding = findings_of(
                candidates_of(source, local, installed),
                f,
                venv_python,
                count,
            )[i];
            &&& imports_of(source).contains(finding.import)
            &&& !in_stdlib(finding.import.module)
            &&& !local.contains(finding.import.module)
            &&& finding.package == package_for(finding.import.module)
            &&& !installed.contains(normalized(finding.package))
        }),
{
    let all = imports_of(source);
    let g = candidate(local, installed);
    text::lemma_filter_map_source(all, g, i);
}

/// A name PyPI does not know is flagged and never becomes an install offer: its
/// finding is `NotOnPyPi`, in every environment.
pub proof fn unknown_projects_are_never_offered(
    candidates: Seq<CandidateView>,
    f: spec_fn(Seq<char>) -> Option<PackageAnalysisView>,
    venv_python: Option<PyVersion>,
    count: nat,
    i: int,
)
    requires
        0 <= i < candidates.len(),
    ensures
        findings_of(candidates, f, venv_python, count)[i].problem is NotOnPyPi <==> f(
            candidates[i].package,
        ) is None,
{
}

/// The interpreter suggested for a fresh project suits every import of the file
/// that PyPI knows.
pub proof fn fresh_environments_suit_every_import(
    candidates: Seq<CandidateView>,
    f: spec_fn(Seq<char>) -> Option<PackageAnalysisView>,
    i: int,
)
    requires
        0 <= i < candidates.len(),
        f(candidates[i].package) is Some,
        agreed_target(known_to(candidates, f, candidates.len() as int)) is Some,
    ensures
        f(candidates[i].package)->0.supported.contains(
            agreed_target(known_to(candidates, f, candidates.len() as int))->0.minor,
        ),
{
    let known = known_to(candidates, f, candidates.len() as int);
    crate::pypi::pyversion::highest_is_the_newest_member(common_minors(known));
    lemma_known(candidates, f, candidates.len() as int, i);
    let k = choose|k: int| 0 <= k < known.len() && known[k] == f(candidates[i].package)->0;
    assert(known[k].supported.contains(agreed_target(known)->0.minor));
}

proof fn lemma_known(
    candidates: Seq<CandidateView>,
    f: spec_fn(Seq<char>) -> Option<PackageAnalysisView>,
    n: int,
    i: int,
)
    requires
        0 <= i < n <= candidates.len(),
        f(candidates[i].package) is Some,
    ensures
        known_to(candidates, f, n).contains(f(candidates[i].package)->0),
    decreases n,
{
    let known = known_to(candidates, f, n);
    let a = f(candidates[i].package)->0;
    if i == n - 1 {
        assert(known[known.len() - 1] == a);
    } else {
        lemma_known(candidates, f, n - 1, i);
        let before = known_to(candidates, f, n - 1);
        let k = choose|k: int| 0 <= k < before.len() && before[k] == a;
        assert(known[k] == a);
    }
}

/// Every import is reported that will not work, and each as often as it stands:
/// the findings are, in order, the imports of the buffer that are neither the
/// standard library's nor the project's own and whose distribution is not
/// installed, however they are written.
pub proof fn every_unsatisfied_import_is_reported(
    source: Seq<char>,
    local: Set<Seq<char>>,
    installed: Set<Seq<char>>,
    f: spec_fn(Seq<char>) -> Option<PackageAnalysisView>,
    venv_python: Option<PyVersion>,
    count: nat,
)
    ensures
        ({
            let findings = findings_of(
                candidates_of(source, local, installed),
                f,
                venv_python,
                count,
            );
            &&& findings.map_values(|x: FindingView| x.import) == imports_of(source).filter(
                |i: ImportRefView|
                    !in_stdlib(i.module) && !local.contains(i.module) && !installed.contains(
                        normalized(package_for(i.module)),
                    ),
            )
            &&& forall|k: int|
                0 <= k < imports_of(source).len() && !in_stdlib(
                    (#[trigger] imports_of(source)[k]).module,
                ) && !local.contains(imports_of(source)[k].module) && !installed.contains(
                    normalized(package_for(imports_of(source)[k].module)),
                ) ==> exists|j: int|
                    0 <= j < findings.len() && (#[trigger] findings[j]).import == imports_of(
                        source,
                    )[k] && findings[j].package == package_for(imports_of(source)[k].module)
                        && findings[j].renamed == renames(imports_of(source)[k].module)
        }),
{
    let all = imports_of(source);
    let g = candidate(local, installed);
    let found = candidates_of(source, local, installed);
    let findings = findings_of(found, f, venv_python, count);
    let wanted = |i: ImportRefView|
        !in_stdlib(i.module) && !local.contains(i.module) && !installed.contains(
            normalized(package_for(i.module)),
        );
    lemma_candidates_are_the_wanted(all, local, installed, wanted);
    assert(findings.map_values(|x: FindingView| x.import) =~= found.map_values(
        |c: CandidateView| c.import,
    ));
    assert forall|k: int|
        0 <= k < all.len() && !in_stdlib((#[trigger] all[k]).module) && !local.contains(
            all[k].module,
        ) && !installed.contains(normalized(package_for(all[k].module))) implies exists|j: int|
        0 <= j < findings.len() && (#[trigger] findings[j]).import == all[k]
            && findings[j].package == package_for(all[k].module) && findings[j].renamed == renames(
            all[k].module,
        ) by {
        text::lemma_filter_map_keeps(all, g, k);
        let j = choose|j: int| 0 <= j < found.len() && found[j] == g(all[k])->0;
        assert(findings[j].import == all[k]);
    }
}

proof fn lemma_candidates_are_the_wanted(
    all: Seq<ImportRefView>,
    local: Set<Seq<char>>,
    installed: Set<Seq<char>>,
    wanted: spec_fn(ImportRefView) -> bool,
)
    requires
        forall|i: ImportRefView| #[trigger]
            wanted(i) <==> !in_stdlib(i.module) && !local.contains(i.module)
                && !installed.contains(normalized(package_for(i.module))),
    ensures
        all.filter_map(candidate(local, installed)).map_values(|c: CandidateView| c.import)
            == all.filter(wanted),
    decreases all.len(),
{
    reveal(Seq::filter);
    let g = candidate(local, installed);
    let h = |c: CandidateView| c.import;
    if all.len() > 0 {
        let before = all.drop_last();
        lemma_candidates_are_the_wanted(before, local, installed, wanted);
        let last = all.last();
        if wanted(last) {
            assert(all.filter_map(g) =~= before.filter_map(g).push(g(last)->0));
            assert(all.filter_map(g).map_values(h) =~= before.filter_map(g).map_values(h).push(
                last,
            ));
        } else {
            assert(all.filter_map(g) =~= before.filter_map(g));
        }
    } else {
        assert(all.filter_map(g).map_values(h) =~= all.filter(wanted));
    }
}

/// What is wrong with an import follows from what PyPI knows of its distribution
/// and from the environment: without an environment one is missing; on a Python
/// that the distribution supports it is not installed; on any other the
/// interpreter is at fault, and the target is the newest one supported.
pub proof fn problems_tell_what_is_wrong(
    a: PackageAnalysisView,
    current: PyVersion,
    count: nat,
    file_target: Option<PyVersion>,
)
    requires
        a.supported.subset_of(crate::pypi::pyversion::universe_minors()),
        current.major == 3,
    ensures
        problem_of(Some(a), None, count, file_target) == (ProblemView::NoEnvironment {
            target: file_target,
        }),
        a.supported.contains(current.minor) ==> problem_of(
            Some(a),
            Some(current),
            count,
            file_target,
        ) == ProblemView::NotInstalled,
        !a.supported.contains(current.minor) ==> (problem_of(
            Some(a),
            Some(current),
            count,
            file_target,
        ) matches ProblemView::IncompatibleInterpreter {
            current: c,
            supported,
            target,
            reinstall_count,
        } && c == current && supported == a.supported && reinstall_count == count && (match target {
            Some(t) => t.major == 3 && a.supported.contains(t.minor) && forall|k: u8| #[trigger]
                a.supported.contains(k) ==> k <= t.minor,
            None => a.supported == Set::<u8>::empty(),
        })),
{
    crate::pypi::pyversion::highest_is_the_newest_member(a.supported);
}

/// Without an environment the target is the newest version that every
/// distribution PyPI knows supports, and there is one wherever they share any.
pub proof fn the_file_target_is_the_newest_shared_version(
    candidates: Seq<CandidateView>,
    f: spec_fn(Seq<char>) -> Option<PackageAnalysisView>,
    m: u8,
)
    requires
        crate::pypi::pyversion::universe_minors().contains(m),
        exists|i: int|
            0 <= i < candidates.len() && f((#[trigger] candidates[i]).package) is Some,
        forall|i: int|
            0 <= i < candidates.len() && f((#[trigger] candidates[i]).package) is Some ==> f(
                candidates[i].package,
            )->0.supported.contains(m),
    ensures
        ({
            let target = agreed_target(known_to(candidates, f, candidates.len() as int));
            target is Some && m <= target->0.minor
        }),
{
    let n = candidates.len() as int;
    let known = known_to(candidates, f, n);
    let i = choose|i: int|
        0 <= i < candidates.len() && f((#[trigger] candidates[i]).package) is Some;
    lemma_known(candidates, f, n, i);
    lemma_known_sources(candidates, f, n);
    assert forall|k: int| 0 <= k < known.len() implies (#[trigger] known[k]).supported.contains(
        m,
    ) by {
        let j = choose|j: int|
            0 <= j < n && f((#[trigger] candidates[j]).package) == Some(known[k]);
        assert(f(candidates[j].package) is Some);
    }
    assert(common_minors(known).contains(m));
    crate::pypi::pyversion::highest_is_the_newest_member(common_minors(known));
}

proof fn lemma_known_sources(
    candidates: Seq<CandidateView>,
    f: spec_fn(Seq<char>) -> Option<PackageAnalysisView>,
    n: int,
)
    requires
        0 <= n <= candidates.len(),
    ensures
        forall|k: int|
            0 <= k < known_to(candidates, f, n).len() ==> exists|j: int|
                0 <= j < n && f((#[trigger] candidates[j]).package) == Some(
                    #[trigger] known_to(candidates, f, n)[k],
                ),
    decreases n,
{
    if n > 0 {
        lemma_known_sources(candidates, f, n - 1);
        let before = known_to(candidates, f, n - 1);
        let now = known_to(candidates, f, n);
        assert forall|k: int| 0 <= k < now.len() implies exists|j: int|
            0 <= j < n && f((#[trigger] candidates[j]).package) == Some(#[trigger] now[k]) by {
            if k < before.len() {
                assert(now[k] == before[k]);
                let j = choose|j: int|
                    0 <= j < n - 1 && f((#[trigger] candidates[j]).package) == Some(before[k]);
                assert(f(candidates[j].package) == Some(now[k]));
            } else {
                assert(f(candidates[n - 1].package) == Some(now[k]));
            }
        }
    }
}

/// An attribute that an installed package lacks is reported where it is used: under the
/// import that binds the package, with the version installed and what the package
/// exposes in its place.
pub proof fn every_missing_attribute_is_reported(
    source: Seq<char>,
    packages: Seq<(String, PackageDir)>,
    installed: Installed,
    i: int,
    binding: Seq<char>,
    dir: PackageDir,
    k: int,
    available: Seq<Seq<char>>,
)
    requires
        0 <= i < imports_of(source).len(),
        imports_of(source)[i].binding == Some(binding),
        directory_of(packages, imports_of(source)[i].module) == Some(dir),
        !in_stdlib(imports_of(source)[i].module),
        installed.packages@.contains(normalized(package_for(imports_of(source)[i].module))),
        0 <= k < attr_uses_of(source, seq![binding]).len(),
        status_of(dir, attr_uses_of(source, seq![binding])[k].attr) == (AttrStatusView::Missing {
            available,
        }),
    ensures
        exists|n: int|
            0 <= n < attribute_findings(
                source,
                imports_of(source),
                packages,
                installed,
                imports_of(source).len() as int,
            ).len() && {
                let f = #[trigger] attribute_findings(
                    source,
                    imports_of(source),
                    packages,
                    installed,
                    imports_of(source).len() as int,
                )[n];
                &&& f.import.module == imports_of(source)[i].module
                &&& f.package == package_for(imports_of(source)[i].module)
                &&& f.problem == (ProblemView::AttributeMissing {
                    attribute: attr_uses_of(source, seq![binding])[k].attr,
                    installed_version: recorded(
                        installed.versions@,
                        normalized(package_for(imports_of(source)[i].module)),
                    ),
                    available,
                })
            },
{
    let imports = imports_of(source);
    let import = imports[i];
    let uses = attr_uses_of(source, seq![binding]);
    let version = recorded(installed.versions@, normalized(package_for(import.module)));
    let j = lemma_first_use(uses, k);
    lemma_use_reported(import, dir, version, uses, uses.len() as int, j, available);
    let f = missing_finding(import, uses[j], version, available);
    lemma_finding_kept(source, imports, packages, installed, imports.len() as int, i, f);
    let all = attribute_findings(source, imports, packages, installed, imports.len() as int);
    let n = choose|n: int| 0 <= n < all.len() && all[n] == f;
    assert(all[n] == f);
}

/// The first use of an attribute that is used.
proof fn lemma_first_use(uses: Seq<AttrUseView>, k: int) -> (j: int)
    requires
        0 <= k < uses.len(),
    ensures
        0 <= j <= k,
        uses[j].attr == uses[k].attr,
        !attrs_to(uses, j).contains(uses[k].attr),
    decreases k,
{
    if attrs_to(uses, k).contains(uses[k].attr) {
        let m = lemma_earlier_use(uses, k, uses[k].attr);
        lemma_first_use(uses, m)
    } else {
        k
    }
}

proof fn lemma_earlier_use(uses: Seq<AttrUseView>, n: int, attr: Seq<char>) -> (m: int)
    requires
        0 <= n <= uses.len(),
        attrs_to(uses, n).contains(attr),
    ensures
        0 <= m < n,
        uses[m].attr == attr,
    decreases n,
{
    if n > 0 && uses[n - 1].attr == attr {
        n - 1
    } else {
        lemma_earlier_use(uses, n - 1, attr)
    }
}

proof fn lemma_use_reported(
    import: ImportRefView,
    dir: PackageDir,
    version: Option<Seq<char>>,
    uses: Seq<AttrUseView>,
    n: int,
    j: int,
    available: Seq<Seq<char>>,
)
    requires
        0 <= j < n <= uses.len(),
        !attrs_to(uses, j).contains(uses[j].attr),
        status_of(dir, uses[j].attr) == (AttrStatusView::Missing { available }),
    ensures
        use_findings(import, dir, version, uses, n).contains(
            missing_finding(import, uses[j], version, available),
        ),
    decreases n,
{
    let f = missing_finding(import, uses[j], version, available);
    let now = use_findings(import, dir, version, uses, n);
    if j < n - 1 {
        lemma_use_reported(import, dir, version, uses, n - 1, j, available);
        let before = use_findings(import, dir, version, uses, n - 1);
        let m = choose|m: int| 0 <= m < before.len() && before[m] == f;
        assert(now[m] == f);
    } else {
        assert(now[now.len() - 1] == f);
    }
}

proof fn lemma_finding_kept(
    source: Seq<char>,
    imports: Seq<ImportRefView>,
    packages: Seq<(String, PackageDir)>,
    installed: Installed,
    n: int,
    i: int,
    f: FindingView,
)
    requires
        0 <= i < n <= imports.len(),
        import_findings(source, imports[i], packages, installed).contains(f),
    ensures
        attribute_findings(source, imports, packages, installed, n).contains(f),
    decreases n,
{
    let before = attribute_findings(source, imports, packages, installed, n - 1);
    let last = import_findings(source, imports[n - 1], packages, installed);
    if i < n - 1 {
        lemma_finding_kept(source, imports, packages, installed, n - 1, i, f);
        let m = choose|m: int| 0 <= m < before.len() && before[m] == f;
        assert((before + last)[m] == f);
    } else {
        let m = choose|m: int| 0 <= m < last.len() && last[m] == f;
        assert((before + last)[before.len() + m] == f);
    }
}

/// No attribute is reported that is not used, or that its package may have: each that is
/// is marked at a use of it, and the package on disk lacks it.
pub proof fn only_missing_attributes_are_reported(
    import: ImportRefView,
    dir: PackageDir,
    version: Option<Seq<char>>,
    uses: Seq<AttrUseView>,
    n: int,
    k: int,
)
    requires
        0 <= n <= uses.len(),
        0 <= k < use_findings(import, dir, version, uses, n).len(),
    ensures
        exists|j: int|
            0 <= j < n && {
                let f = use_findings(import, dir, version, uses, n)[k];
                &&& f.import.line == (#[trigger] uses[j]).line
                &&& f.import.start == uses[j].start
                &&& f.import.end == uses[j].end
                &&& f.problem is AttributeMissing
                &&& f.problem->attribute == uses[j].attr
                &&& status_of(dir, uses[j].attr) is Missing
            },
    decreases n,
{
    if n > 0 {
        let before = use_findings(import, dir, version, uses, n - 1);
        if k < before.len() {
            only_missing_attributes_are_reported(import, dir, version, uses, n - 1, k);
            assert(use_findings(import, dir, version, uses, n)[k] == before[k]);
        } else {
            assert(use_findings(import, dir, version, uses, n)[k].problem->attribute == uses[n
                - 1].attr);
        }
    }
}

/// The project's own modules are the packages and the source files of a directory, each
/// file by its stem.
pub proof fn local_modules_are_packages_and_files(entries: Seq<Entry>, n: int, name: Seq<char>)
    requires
        0 <= n <= entries.len(),
        name.len() > 0,
    ensures
        modules_to(entries, n).contains(name) <==> exists|i: int|
            0 <= i < n && ((#[trigger] entries[i]).kind == EntryKind::Package && entries[i].name@
                == name || entries[i].kind == EntryKind::File && entries[i].name@ == name
                + ".py"@),
    decreases n,
{
    if n > 0 {
        local_modules_are_packages_and_files(entries, n - 1, name);
        let e = entries[n - 1];
        reveal_strlit(".py");
        let k = e.name@.len() - 3;
        if e.kind is File && text::ends(e.name@, ".py"@) {
            assert(e.name@.skip(k) == ".py"@);
            assert(e.name@ =~= e.name@.take(k) + ".py"@);
        }
        if e.kind is File && e.name@ == name + ".py"@ {
            assert(e.name@.skip(k) =~= ".py"@);
            assert(e.name@.take(k) =~= name);
        }
        assert(module_of(e) == Some(name) <==> (e.kind == EntryKind::Package && e.name@ == name
            || e.kind == EntryKind::File && e.name@ == name + ".py"@));
        if modules_to(entries, n - 1).contains(name) {
            let i = choose|i: int|
                0 <= i < n - 1 && ((#[trigger] entries[i]).kind == EntryKind::Package
                    && entries[i].name@ == name || entries[i].kind == EntryKind::File
                    && entries[i].name@ == name + ".py"@);
            assert(entries[i].name@ == name || entries[i].name@ == name + ".py"@);
        }
        if exists|i: int|
            0 <= i < n && ((#[trigger] entries[i]).kind == EntryKind::Package && entries[i].name@
                == name || entries[i].kind == EntryKind::File && entries[i].name@ == name
                + ".py"@) {
            let i = choose|i: int|
                0 <= i < n && ((#[trigger] entries[i]).kind == EntryKind::Package
                    && entries[i].name@ == name || entries[i].kind == EntryKind::File
                    && entries[i].name@ == name + ".py"@);
            if i < n - 1 {
                assert(entries[i].name@ == name || entries[i].name@ == name + ".py"@);
            }
        }
    }
}

/// The distributions that are looked up are those of the candidates.
pub proof fn every_candidate_is_looked_up(candidates: Seq<CandidateView>, n: int, name: Seq<char>)
    requires
        0 <= n <= candidates.len(),
    ensures
        packages_to(candidates, n).contains(name) <==> exists|i: int|
            0 <= i < n && (#[trigger] candidates[i]).package == name,
    decreases n,
{
    if n > 0 {
        every_candidate_is_looked_up(candidates, n - 1, name);
        if candidates[n - 1].package == name {
            assert(candidates[n - 1].package == name);
        }
    }
}

} // verus!
