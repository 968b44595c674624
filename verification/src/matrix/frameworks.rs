//! Framework release -> CUDA build variants.
//!
//! Python-version support is deliberately not duplicated here: wheel-tag
//! analysis already answers it. This table only carries which CUDA runtime each
//! release's wheels target, since that is encoded in a download-server URL, not
//! in packaging metadata.

use vstd::prelude::*;

use crate::document::{
    as_text, item_views, json_document, lemma_list_view, part, part_in, part_of, read_json,
    text_of, Tree, TreeView,
};
use crate::matrix::nvidia::{cuda_spec, cuda_text, cuda_versions_read_back, CudaVersion};
use crate::text;

verus! {

/// One torch release and the tags of its CUDA builds.
#[derive(Debug, PartialEq, Eq)]
pub struct TorchReleaseRow {
    pub version: String,
    pub cuda_builds: Vec<String>,
}

/// One tensorflow release and the CUDA version it needs.
#[derive(Debug, PartialEq, Eq)]
pub struct TensorFlowReleaseRow {
    pub version: String,
    pub min_cuda: String,
}

/// The framework table.
#[derive(Debug)]
pub struct FrameworkTable {
    pub cpu_index_url: String,
    pub cuda_index_url_pattern: String,
    pub torch: Vec<TorchReleaseRow>,
    pub tensorflow: Vec<TensorFlowReleaseRow>,
}

/// The framework table, mathematically.
#[verifier::ext_equal]
pub struct FrameworkTableView {
    pub cpu_index_url: Seq<char>,
    pub cuda_index_url_pattern: Seq<char>,
    /// Version, then the tags of its CUDA builds.
    pub torch: Seq<(Seq<char>, Seq<Seq<char>>)>,
    /// Version, then the CUDA version it needs.
    pub tensorflow: Seq<(Seq<char>, Seq<char>)>,
}

pub open spec fn torch_views(v: Seq<TorchReleaseRow>) -> Seq<(Seq<char>, Seq<Seq<char>>)> {
    Seq::new(v.len(), |i: int| (v[i].version@, text::texts(v[i].cuda_builds@)))
}

pub open spec fn tensorflow_views(v: Seq<TensorFlowReleaseRow>) -> Seq<(Seq<char>, Seq<char>)> {
    Seq::new(v.len(), |i: int| (v[i].version@, v[i].min_cuda@))
}

impl View for FrameworkTable {
    type V = FrameworkTableView;

    open spec fn view(&self) -> FrameworkTableView {
        FrameworkTableView {
            cpu_index_url: self.cpu_index_url@,
            cuda_index_url_pattern: self.cuda_index_url_pattern@,
            torch: torch_views(self.torch@),
            tensorflow: tensorflow_views(self.tensorflow@),
        }
    }
}

/// One CUDA-specific torch wheel variant.
#[derive(Debug, PartialEq, Eq)]
pub struct CudaBuild {
    /// The tag as PyTorch names it, e.g. "cu121".
    pub tag: String,
    pub cuda: CudaVersion,
    pub index_url: String,
}

/// A CUDA build, mathematically.
#[verifier::ext_equal]
pub struct CudaBuildView {
    pub tag: Seq<char>,
    pub cuda: CudaVersion,
    pub index_url: Seq<char>,
}

impl View for CudaBuild {
    type V = CudaBuildView;

    open spec fn view(&self) -> CudaBuildView {
        CudaBuildView { tag: self.tag@, cuda: self.cuda, index_url: self.index_url@ }
    }
}

pub open spec fn build_views(v: Seq<CudaBuild>) -> Seq<CudaBuildView> {
    Seq::new(v.len(), |i: int| v[i]@)
}

/// What one release of a framework offers.
#[derive(Debug, PartialEq, Eq)]
pub enum ReleaseInfo {
    Torch { version: String, cpu_index_url: String, cuda_builds: Vec<CudaBuild> },
    /// The single published wheel needs a driver new enough for this CUDA version.
    TensorFlow { version: String, min_cuda: CudaVersion },
}

/// What one release offers, mathematically.
#[verifier::ext_equal]
pub enum ReleaseInfoView {
    Torch { version: Seq<char>, cpu_index_url: Seq<char>, cuda_builds: Seq<CudaBuildView> },
    TensorFlow { version: Seq<char>, min_cuda: CudaVersion },
}

impl View for ReleaseInfo {
    type V = ReleaseInfoView;

    open spec fn view(&self) -> ReleaseInfoView {
        match self {
            ReleaseInfo::Torch { version, cpu_index_url, cuda_builds } => ReleaseInfoView::Torch {
                version: version@,
                cpu_index_url: cpu_index_url@,
                cuda_builds: build_views(cuda_builds@),
            },
            ReleaseInfo::TensorFlow { version, min_cuda } => ReleaseInfoView::TensorFlow {
                version: version@,
                min_cuda: *min_cuda,
            },
        }
    }
}

impl ReleaseInfo {
    pub fn version(&self) -> (r: &str)
        ensures
            r@ == (match self@ {
                ReleaseInfoView::Torch { version, .. } => version,
                ReleaseInfoView::TensorFlow { version, .. } => version,
            }),
    {
        match self {
            ReleaseInfo::Torch { version, .. } => version.as_str(),
            ReleaseInfo::TensorFlow { version, .. } => version.as_str(),
        }
    }
}

/// Which framework a dependency name refers to. Matching is on the PyPI
/// distribution name, case-insensitively.
#[derive(Debug, Clone, Copy, PartialEq, Eq, Structural)]
pub enum Framework {
    Torch,
    TensorFlow,
}

pub open spec fn framework_of(name: Seq<char>) -> Option<Framework> {
    let lowered = text::lower_ascii_spec(name);
    if lowered == "torch"@ {
        Some(Framework::Torch)
    } else if lowered == "tensorflow"@ {
        Some(Framework::TensorFlow)
    } else {
        None
    }
}

impl Framework {
    pub fn from_package_name(name: &str) -> (r: Option<Framework>)
        ensures
            r == framework_of(name@),
    {
        let lowered = text::lower_ascii(name);
        if text::same(lowered.as_str(), "torch") {
            Some(Framework::Torch)
        } else if text::same(lowered.as_str(), "tensorflow") {
            Some(Framework::TensorFlow)
        } else {
            None
        }
    }
}

/// "cu121" names CUDA 12.1: two digits of major, the rest is the minor.
pub open spec fn cuda_tag_spec(tag: Seq<char>) -> Option<CudaVersion> {
    let digits = tag.skip(2);
    if !text::starts(tag, "cu"@) || digits.len() < 3 {
        None
    } else {
        match (
            text::parse_uint_spec(digits.take(2), u32::MAX as nat),
            text::parse_uint_spec(digits.skip(2), u32::MAX as nat),
        ) {
            (Some(major), Some(minor)) => Some(
                CudaVersion { major: major as u32, minor: minor as u32 },
            ),
            _ => None,
        }
    }
}

/// "cu121" -> CUDA 12.1.
pub fn parse_cuda_tag(tag: &str) -> (r: Option<CudaVersion>)
    ensures
        r == cuda_tag_spec(tag@),
{
    proof {
        reveal_strlit("cu");
    }
    let digits = match text::strip_prefix(tag, "cu") {
        Some(digits) => digits,
        None => return None,
    };
    if digits.unicode_len() < 3 {
        return None;
    }
    match (
        text::parse_uint(text::before(digits, 2), u32::MAX as u64),
        text::parse_uint(text::after(digits, 2), u32::MAX as u64),
    ) {
        (Some(major), Some(minor)) => Some(
            CudaVersion { major: major as u32, minor: minor as u32 },
        ),
        _ => None,
    }
}

/// The build of a tag whose CUDA version can be read.
pub open spec fn tag_build(pattern: Seq<char>) -> spec_fn(Seq<char>) -> Option<CudaBuildView> {
    |tag: Seq<char>|
        match cuda_tag_spec(tag) {
            Some(cuda) => Some(
                CudaBuildView { tag, cuda, index_url: text::replace_spec(pattern, "{tag}"@, tag) },
            ),
            None => None,
        }
}

pub open spec fn torch_release(t: FrameworkTableView, version: Seq<char>) -> spec_fn(
    (Seq<char>, Seq<Seq<char>>),
) -> Option<ReleaseInfoView> {
    |row: (Seq<char>, Seq<Seq<char>>)|
        if row.0 == version {
            Some(
                ReleaseInfoView::Torch {
                    version,
                    cpu_index_url: t.cpu_index_url,
                    cuda_builds: row.1.filter_map(tag_build(t.cuda_index_url_pattern)),
                },
            )
        } else {
            None
        }
}

pub open spec fn tensorflow_cuda(version: Seq<char>) -> spec_fn((Seq<char>, Seq<char>)) -> Option<
    Seq<char>,
> {
    |row: (Seq<char>, Seq<char>)|
        if row.0 == version {
            Some(row.1)
        } else {
            None
        }
}

/// Curated data for an exact release: that of the first row of the version.
pub open spec fn release_spec(t: FrameworkTableView, f: Framework, version: Seq<char>) -> Option<
    ReleaseInfoView,
> {
    match f {
        Framework::Torch => text::first_some(t.torch, torch_release(t, version)),
        Framework::TensorFlow => match text::first_some(t.tensorflow, tensorflow_cuda(version)) {
            Some(s) => match cuda_spec(s) {
                Some(min_cuda) => Some(ReleaseInfoView::TensorFlow { version, min_cuda }),
                None => None,
            },
            None => None,
        },
    }
}

/// Every version the table has data for, in its order.
pub open spec fn versions_spec(t: FrameworkTableView, f: Framework) -> Seq<Seq<char>> {
    match f {
        Framework::Torch => Seq::new(t.torch.len(), |i: int| t.torch[i].0),
        Framework::TensorFlow => Seq::new(t.tensorflow.len(), |i: int| t.tensorflow[i].0),
    }
}

/// The newest release the table has data for: the last.
pub open spec fn latest_spec(t: FrameworkTableView, f: Framework) -> Option<Seq<char>> {
    let versions = versions_spec(t, f);
    if versions.len() == 0 {
        None
    } else {
        Some(versions.last())
    }
}

fn builds_of(tags: &Vec<String>, pattern: &str) -> (r: Vec<CudaBuild>)
    ensures
        build_views(r@) == text::texts(tags@).filter_map(tag_build(pattern@)),
{
    let ghost views = text::texts(tags@);
    let mut out: Vec<CudaBuild> = Vec::new();
    let mut i: usize = 0;
    proof {
        assert(build_views(out@) =~= views.take(0).filter_map(tag_build(pattern@)));
    }
    while i < tags.len()
        invariant
            i <= tags@.len(),
            views == text::texts(tags@),
            build_views(out@) == views.take(i as int).filter_map(tag_build(pattern@)),
        decreases tags@.len() - i,
    {
        let tag = tags[i].as_str();
        proof {
            views.lemma_filter_map_take_succ(tag_build(pattern@), i as int);
            assert(views[i as int] == tag@);
        }
        if let Some(cuda) = parse_cuda_tag(tag) {
            let ghost before = out@;
            let build = CudaBuild {
                tag: tag.to_string(),
                cuda,
                index_url: text::replace(pattern, "{tag}", tag),
            };
            out.push(build);
            proof {
                assert(build_views(out@) =~= build_views(before).push(build@));
            }
        }
        i += 1;
    }
    proof {
        assert(views.take(i as int) =~= views);
    }
    out
}

impl FrameworkTable {
    /// The newest release PyPilot has curated CUDA-build data for. Used when a
    /// dependency is unpinned.
    pub fn latest(&self, framework: Framework) -> (r: Option<&str>)
        ensures
            text::opt_str(r) == latest_spec(self@, framework),
    {
        match framework {
            Framework::Torch => {
                let n = self.torch.len();
                if n == 0 {
                    None
                } else {
                    Some(self.torch[n - 1].version.as_str())
                }
            },
            Framework::TensorFlow => {
                let n = self.tensorflow.len();
                if n == 0 {
                    None
                } else {
                    Some(self.tensorflow[n - 1].version.as_str())
                }
            },
        }
    }

    /// Every version the bundled snapshot has data for.
    pub fn all_versions(&self, framework: Framework) -> (r: Vec<String>)
        ensures
            text::texts(r@) == versions_spec(self@, framework),
    {
        let mut out: Vec<String> = Vec::new();
        let mut i: usize = 0;
        match framework {
            Framework::Torch => {
                while i < self.torch.len()
                    invariant
                        i <= self.torch@.len(),
                        out@.len() == i,
                        forall|j: int|
                            0 <= j < i ==> (#[trigger] out@[j])@ == self.torch@[j].version@,
                    decreases self.torch@.len() - i,
                {
                    out.push(self.torch[i].version.clone());
                    i += 1;
                }
            },
            Framework::TensorFlow => {
                while i < self.tensorflow.len()
                    invariant
                        i <= self.tensorflow@.len(),
                        out@.len() == i,
                        forall|j: int|
                            0 <= j < i ==> (#[trigger] out@[j])@ == self.tensorflow@[j].version@,
                    decreases self.tensorflow@.len() - i,
                {
                    out.push(self.tensorflow[i].version.clone());
                    i += 1;
                }
            },
        }
        proof {
            assert(text::texts(out@) =~= versions_spec(self@, framework));
        }
        out
    }

    fn torch_row(&self, version: &str) -> (r: Option<ReleaseInfo>)
        ensures
            match r {
                Some(info) => text::first_some(self@.torch, torch_release(self@, version@))
                    == Some(info@),
                None => text::first_some(self@.torch, torch_release(self@, version@)) is None,
            },
    {
        let ghost f = torch_release(self@, version@);
        let mut i: usize = 0;
        while i < self.torch.len()
            invariant
                i <= self.torch@.len(),
                f == torch_release(self@, version@),
                forall|j: int| 0 <= j < i ==> f(#[trigger] self@.torch[j]) is None,
            decreases self.torch@.len() - i,
        {
            let row = &self.torch[i];
            proof {
                assert(self@.torch[i as int] == (row.version@, text::texts(row.cuda_builds@)));
            }
            if text::same(row.version.as_str(), version) {
                proof {
                    text::lemma_first_some_at(self@.torch, f, i as int);
                }
                return Some(
                    ReleaseInfo::Torch {
                        version: row.version.clone(),
                        cpu_index_url: self.cpu_index_url.clone(),
                        cuda_builds: builds_of(
                            &row.cuda_builds,
                            self.cuda_index_url_pattern.as_str(),
                        ),
                    },
                );
            }
            i += 1;
        }
        proof {
            text::lemma_first_some_at(self@.torch, f, i as int);
        }
        None
    }

    fn tensorflow_row(&self, version: &str) -> (r: Option<&str>)
        ensures
            text::opt_str(r) == text::first_some(self@.tensorflow, tensorflow_cuda(version@)),
    {
        let ghost f = tensorflow_cuda(version@);
        let mut i: usize = 0;
        while i < self.tensorflow.len()
            invariant
                i <= self.tensorflow@.len(),
                f == tensorflow_cuda(version@),
                forall|j: int| 0 <= j < i ==> f(#[trigger] self@.tensorflow[j]) is None,
            decreases self.tensorflow@.len() - i,
        {
            let row = &self.tensorflow[i];
            proof {
                assert(self@.tensorflow[i as int] == (row.version@, row.min_cuda@));
            }
            if text::same(row.version.as_str(), version) {
                proof {
                    text::lemma_first_some_at(self@.tensorflow, f, i as int);
                }
                return Some(row.min_cuda.as_str());
            }
            i += 1;
        }
        proof {
            text::lemma_first_some_at(self@.tensorflow, f, i as int);
        }
        None
    }

    /// Look up curated data for an exact release. `None` when the version is
    /// not in the bundled snapshot.
    pub fn release(&self, framework: Framework, version: &str) -> (r: Option<ReleaseInfo>)
        ensures
            match r {
                Some(info) => release_spec(self@, framework, version@) == Some(info@),
                None => release_spec(self@, framework, version@) is None,
            },
    {
        match framework {
            Framework::Torch => self.torch_row(version),
            Framework::TensorFlow => match self.tensorflow_row(version) {
                Some(s) => match CudaVersion::parse(s) {
                    Some(min_cuda) => Some(
                        ReleaseInfo::TensorFlow { version: version.to_string(), min_cuda },
                    ),
                    None => None,
                },
                None => None,
            },
        }
    }
}

// ---------------------------------------------------------------------------
// Reading the table
// ---------------------------------------------------------------------------

/// The texts of the first `n` items; `None` if one is no text.
pub open spec fn texts_of(items: Seq<TreeView>, n: int) -> Option<Seq<Seq<char>>>
    decreases n,
{
    if n <= 0 {
        Some(seq![])
    } else {
        match (texts_of(items, n - 1), items[n - 1]) {
            (Some(v), TreeView::Text(s)) => Some(v.push(s)),
            _ => None,
        }
    }
}

pub open spec fn torch_row_of(t: TreeView) -> Option<(Seq<char>, Seq<Seq<char>>)> {
    match (text_of(part_of(t, "version"@, 0, 2)), part_of(t, "cuda_builds"@, 1, 2)) {
        (Some(version), Some(TreeView::List(items))) => match texts_of(
            items,
            items.len() as int,
        ) {
            Some(builds) => Some((version, builds)),
            None => None,
        },
        _ => None,
    }
}

pub open spec fn tensorflow_row_of(t: TreeView) -> Option<(Seq<char>, Seq<char>)> {
    match (text_of(part_of(t, "version"@, 0, 2)), text_of(part_of(t, "min_cuda"@, 1, 2))) {
        (Some(version), Some(min_cuda)) => Some((version, min_cuda)),
        _ => None,
    }
}

pub open spec fn torch_rows_of(items: Seq<TreeView>, n: int) -> Option<
    Seq<(Seq<char>, Seq<Seq<char>>)>,
>
    decreases n,
{
    if n <= 0 {
        Some(seq![])
    } else {
        match (torch_rows_of(items, n - 1), torch_row_of(items[n - 1])) {
            (Some(rows), Some(row)) => Some(rows.push(row)),
            _ => None,
        }
    }
}

pub open spec fn tensorflow_rows_of(items: Seq<TreeView>, n: int) -> Option<Seq<(Seq<char>, Seq<char>)>>
    decreases n,
{
    if n <= 0 {
        Some(seq![])
    } else {
        match (tensorflow_rows_of(items, n - 1), tensorflow_row_of(items[n - 1])) {
            (Some(rows), Some(row)) => Some(rows.push(row)),
            _ => None,
        }
    }
}

/// The table a framework document holds; `None` where a part is missing or of
/// the wrong kind.
pub open spec fn framework_table(doc: Option<TreeView>) -> Option<FrameworkTableView> {
    let torch = part_in(doc, "torch"@, 0, 2);
    let tensorflow = part_in(doc, "tensorflow"@, 1, 2);
    match (
        text_of(part_in(torch, "cpu_index_url"@, 0, 3)),
        text_of(part_in(torch, "cuda_index_url_pattern"@, 1, 3)),
        part_in(torch, "releases"@, 2, 3),
        part_in(tensorflow, "releases"@, 0, 1),
    ) {
        (
            Some(cpu_index_url),
            Some(cuda_index_url_pattern),
            Some(TreeView::List(t)),
            Some(TreeView::List(f)),
        ) => match (
            torch_rows_of(t, t.len() as int),
            tensorflow_rows_of(f, f.len() as int),
        ) {
            (Some(torch), Some(tensorflow)) => Some(
                FrameworkTableView { cpu_index_url, cuda_index_url_pattern, torch, tensorflow },
            ),
            _ => None,
        },
        _ => None,
    }
}

fn read_texts(items: &Vec<Tree>) -> (r: Option<Vec<String>>)
    ensures
        match r {
            Some(v) => texts_of(item_views(items@), items@.len() as int) == Some(text::texts(v@)),
            None => texts_of(item_views(items@), items@.len() as int) is None,
        },
{
    let ghost views = item_views(items@);
    let mut out: Vec<String> = Vec::new();
    let mut failed = false;
    let mut i: usize = 0;
    proof {
        assert(text::texts(out@) =~= seq![]);
    }
    while i < items.len()
        invariant
            i <= items@.len(),
            views == item_views(items@),
            texts_of(views, i as int) == (if failed {
                None
            } else {
                Some(text::texts(out@))
            }),
        decreases items@.len() - i,
    {
        proof {
            assert(views[i as int] == items@[i as int]@);
        }
        match &items[i] {
            Tree::Text(s) => {
                proof {
                    text::lemma_texts_push(out@, *s);
                }
                out.push(s.clone());
            },
            _ => {
                failed = true;
            },
        }
        i += 1;
    }
    if failed {
        None
    } else {
        Some(out)
    }
}

fn read_torch_row(t: &Tree) -> (r: Option<TorchReleaseRow>)
    ensures
        match r {
            Some(row) => torch_row_of(t@) == Some((row.version@, text::texts(row.cuda_builds@))),
            None => torch_row_of(t@) is None,
        },
{
    match (as_text(part(t, "version", 0, 2)), part(t, "cuda_builds", 1, 2)) {
        (Some(version), Some(Tree::List(items))) => {
            proof {
                lemma_list_view(*items);
            }
            match read_texts(items) {
                Some(cuda_builds) => Some(
                    TorchReleaseRow { version: version.to_string(), cuda_builds },
                ),
                None => None,
            }
        },
        _ => None,
    }
}

fn read_tensorflow_row(t: &Tree) -> (r: Option<TensorFlowReleaseRow>)
    ensures
        match r {
            Some(row) => tensorflow_row_of(t@) == Some((row.version@, row.min_cuda@)),
            None => tensorflow_row_of(t@) is None,
        },
{
    match (as_text(part(t, "version", 0, 2)), as_text(part(t, "min_cuda", 1, 2))) {
        (Some(version), Some(min_cuda)) => Some(
            TensorFlowReleaseRow { version: version.to_string(), min_cuda: min_cuda.to_string() },
        ),
        _ => None,
    }
}

fn read_torch_rows(items: &Vec<Tree>) -> (r: Option<Vec<TorchReleaseRow>>)
    ensures
        match r {
            Some(v) => torch_rows_of(item_views(items@), items@.len() as int) == Some(torch_views(v@)),
            None => torch_rows_of(item_views(items@), items@.len() as int) is None,
        },
{
    let ghost views = item_views(items@);
    let mut out: Vec<TorchReleaseRow> = Vec::new();
    let mut failed = false;
    let mut i: usize = 0;
    proof {
        assert(torch_views(out@) =~= seq![]);
    }
    while i < items.len()
        invariant
            i <= items@.len(),
            views == item_views(items@),
            torch_rows_of(views, i as int) == (if failed {
                None
            } else {
                Some(torch_views(out@))
            }),
        decreases items@.len() - i,
    {
        proof {
            assert(views[i as int] == items@[i as int]@);
        }
        match read_torch_row(&items[i]) {
            Some(row) => {
                let ghost before = out@;
                out.push(row);
                proof {
                    assert(torch_views(out@) =~= torch_views(before).push(
                        (row.version@, text::texts(row.cuda_builds@)),
                    ));
                }
            },
            None => {
                failed = true;
            },
        }
        i += 1;
    }
    if failed {
        None
    } else {
        Some(out)
    }
}

fn read_tensorflow_rows(items: &Vec<Tree>) -> (r: Option<Vec<TensorFlowReleaseRow>>)
    ensures
        match r {
            Some(v) => tensorflow_rows_of(item_views(items@), items@.len() as int) == Some(
                tensorflow_views(v@),
            ),
            None => tensorflow_rows_of(item_views(items@), items@.len() as int) is None,
        },
{
    let ghost views = item_views(items@);
    let mut out: Vec<TensorFlowReleaseRow> = Vec::new();
    let mut failed = false;
    let mut i: usize = 0;
    proof {
        assert(tensorflow_views(out@) =~= seq![]);
    }
    while i < items.len()
        invariant
            i <= items@.len(),
            views == item_views(items@),
            tensorflow_rows_of(views, i as int) == (if failed {
                None
            } else {
                Some(tensorflow_views(out@))
            }),
        decreases items@.len() - i,
    {
        proof {
            assert(views[i as int] == items@[i as int]@);
        }
        match read_tensorflow_row(&items[i]) {
            Some(row) => {
                let ghost before = out@;
                out.push(row);
                proof {
                    assert(tensorflow_views(out@) =~= tensorflow_views(before).push(
                        (row.version@, row.min_cuda@),
                    ));
                }
            },
            None => {
                failed = true;
            },
        }
        i += 1;
    }
    if failed {
        None
    } else {
        Some(out)
    }
}

impl FrameworkTable {
    /// The table of a framework document.
    pub fn from_document(doc: &Tree) -> (r: Option<FrameworkTable>)
        ensures
            match r {
                Some(t) => framework_table(Some(doc@)) == Some(t@),
                None => framework_table(Some(doc@)) is None,
            },
    {
        let torch = match part(doc, "torch", 0, 2) {
            Some(t) => t,
            None => return None,
        };
        let tensorflow = match part(doc, "tensorflow", 1, 2) {
            Some(t) => t,
            None => return None,
        };
        match (
            as_text(part(torch, "cpu_index_url", 0, 3)),
            as_text(part(torch, "cuda_index_url_pattern", 1, 3)),
            part(torch, "releases", 2, 3),
            part(tensorflow, "releases", 0, 1),
        ) {
            (Some(cpu), Some(pattern), Some(Tree::List(t)), Some(Tree::List(f))) => {
                proof {
                    lemma_list_view(*t);
                    lemma_list_view(*f);
                }
                match (read_torch_rows(t), read_tensorflow_rows(f)) {
                    (Some(torch), Some(tensorflow)) => Some(
                        FrameworkTable {
                            cpu_index_url: cpu.to_string(),
                            cuda_index_url_pattern: pattern.to_string(),
                            torch,
                            tensorflow,
                        },
                    ),
                    _ => None,
                }
            },
            _ => None,
        }
    }

    /// The table a JSON text holds. Each record is an object or the array of its
    /// parts. A key that an object gives twice counts as its last mention, as
    /// `serde_json` reads it into a value.
    pub fn load(json: &str) -> (r: Option<FrameworkTable>)
        ensures
            match r {
                Some(t) => framework_table(json_document(json@)) == Some(t@),
                None => framework_table(json_document(json@)) is None,
            },
    {
        match read_json(json) {
            Some(doc) => FrameworkTable::from_document(&doc),
            None => None,
        }
    }
}

/// The tag of a CUDA build names its version: two digits of major, then the minor.
pub proof fn cuda_tags_name_their_version(major: nat, minor: nat)
    requires
        10 <= major <= 99,
        minor <= u32::MAX,
    ensures
        cuda_tag_spec("cu"@ + text::decimal_spec(major) + text::decimal_spec(minor)) == Some(
            CudaVersion { major: major as u32, minor: minor as u32 },
        ),
{
    reveal_strlit("cu");
    let a = text::decimal_spec(major);
    let b = text::decimal_spec(minor);
    text::numbers_read_back(major, u32::MAX as nat);
    text::numbers_read_back(minor, u32::MAX as nat);
    assert(a.len() == 2) by {
        reveal_with_fuel(text::decimal_spec, 3);
        assert(major / 10 < 10);
        assert(a == text::decimal_spec(major / 10).push(text::digit_char(major % 10)));
        assert(text::decimal_spec(major / 10) == seq![text::digit_char(major / 10)]);
    }
    let tag = "cu"@ + a + b;
    assert(tag.take(2) =~= "cu"@);
    let digits = tag.skip(2);
    assert(digits =~= a + b);
    assert(digits.take(2) =~= a);
    assert(digits.skip(2) =~= b);
}

/// The index of a CUDA build is the pattern with its tag put in.
pub proof fn index_urls_hold_the_tag(a: Seq<char>, b: Seq<char>, tag: Seq<char>)
    requires
        !a.contains('{'),
        !b.contains('{'),
        cuda_tag_spec(tag) is Some,
    ensures
        tag_build(a + "{tag}"@ + b)(tag) == Some(
            CudaBuildView { tag, cuda: cuda_tag_spec(tag)->0, index_url: a + tag + b },
        ),
{
    reveal_strlit("{tag}");
    let s = a + "{tag}"@ + b;
    text::lemma_found_behind(a, "{tag}"@, b);
    let n = a.len() as int;
    assert(s.take(n) =~= a);
    assert(s.skip(n + 5) =~= b);
    text::lemma_not_found(b, "{tag}"@);
    assert(text::replace_spec(b, "{tag}"@, tag) == b);
    assert(text::replace_spec(s, "{tag}"@, tag) == a + tag + b);
}

/// A curated torch release is found: the first row of its version, with a build for each
/// tag of the row that names one.
pub proof fn curated_torch_releases_are_found(
    t: FrameworkTableView,
    version: Seq<char>,
    i: int,
    k: int,
)
    requires
        0 <= i < t.torch.len(),
        t.torch[i].0 == version,
        forall|j: int| 0 <= j < i ==> (#[trigger] t.torch[j]).0 != version,
        0 <= k < t.torch[i].1.len(),
        cuda_tag_spec(t.torch[i].1[k]) is Some,
    ensures
        release_spec(t, Framework::Torch, version) is Some,
        ({
            let r = release_spec(t, Framework::Torch, version)->0;
            &&& r is Torch
            &&& r->Torch_version == version
            &&& r->Torch_cpu_index_url == t.cpu_index_url
            &&& exists|n: int|
                0 <= n < r->Torch_cuda_builds.len() && (#[trigger] r->Torch_cuda_builds[n]).tag
                    == t.torch[i].1[k] && r->Torch_cuda_builds[n].cuda == cuda_tag_spec(
                    t.torch[i].1[k],
                )->0
        }),
{
    let f = torch_release(t, version);
    assert forall|j: int| 0 <= j < i implies f(#[trigger] t.torch[j]) is None by {}
    text::lemma_first_some_at(t.torch, f, i);
    let g = tag_build(t.cuda_index_url_pattern);
    let tags = t.torch[i].1;
    text::lemma_filter_map_keeps(tags, g, k);
    let builds = tags.filter_map(g);
    let n = choose|n: int| 0 <= n < builds.len() && builds[n] == g(tags[k])->0;
    let r = release_spec(t, Framework::Torch, version)->0;
    assert(r == f(t.torch[i])->0);
    assert(r->Torch_cuda_builds == builds);
    assert(r->Torch_cuda_builds[n].tag == tags[k]);
}

/// A release the table has no row for is not found, and the latest one is that of the
/// last row.
pub proof fn only_curated_releases_are_found(t: FrameworkTableView, version: Seq<char>)
    ensures
        (forall|j: int| 0 <= j < t.torch.len() ==> (#[trigger] t.torch[j]).0 != version)
            ==> release_spec(t, Framework::Torch, version) is None,
        (forall|j: int| 0 <= j < t.tensorflow.len() ==> (#[trigger] t.tensorflow[j]).0 != version)
            ==> release_spec(t, Framework::TensorFlow, version) is None,
        t.torch.len() > 0 ==> latest_spec(t, Framework::Torch) == Some(t.torch.last().0),
        t.tensorflow.len() > 0 ==> latest_spec(t, Framework::TensorFlow) == Some(
            t.tensorflow.last().0,
        ),
{
    if forall|j: int| 0 <= j < t.torch.len() ==> (#[trigger] t.torch[j]).0 != version {
        let f = torch_release(t, version);
        assert forall|j: int| 0 <= j < t.torch.len() implies f(#[trigger] t.torch[j]) is None by {}
        text::lemma_first_some_at(t.torch, f, t.torch.len() as int);
    }
    if forall|j: int| 0 <= j < t.tensorflow.len() ==> (#[trigger] t.tensorflow[j]).0 != version {
        let f = tensorflow_cuda(version);
        assert forall|j: int| 0 <= j < t.tensorflow.len() implies f(
            #[trigger] t.tensorflow[j],
        ) is None by {}
        text::lemma_first_some_at(t.tensorflow, f, t.tensorflow.len() as int);
    }
}

/// A curated tensorflow release is found with the CUDA version that the first row of its
/// version asks for.
pub proof fn curated_tensorflow_releases_are_found(
    t: FrameworkTableView,
    version: Seq<char>,
    i: int,
    cuda: CudaVersion,
)
    requires
        0 <= i < t.tensorflow.len(),
        t.tensorflow[i].0 == version,
        t.tensorflow[i].1 == cuda_text(cuda),
        forall|j: int| 0 <= j < i ==> (#[trigger] t.tensorflow[j]).0 != version,
    ensures
        release_spec(t, Framework::TensorFlow, version) == Some(
            ReleaseInfoView::TensorFlow { version, min_cuda: cuda },
        ),
{
    let f = tensorflow_cuda(version);
    assert forall|j: int| 0 <= j < i implies f(#[trigger] t.tensorflow[j]) is None by {}
    text::lemma_first_some_at(t.tensorflow, f, i);
    cuda_versions_read_back(cuda);
}

/// The versions of a framework are those its table lists, in order, and the latest is
/// the last of them; a table that lists none has no latest.
pub proof fn the_latest_release_is_the_last_listed(t: FrameworkTableView)
    ensures
        versions_spec(t, Framework::Torch).len() == t.torch.len(),
        versions_spec(t, Framework::TensorFlow).len() == t.tensorflow.len(),
        forall|i: int|
            0 <= i < t.torch.len() ==> versions_spec(t, Framework::Torch)[i] == (
            #[trigger] t.torch[i]).0,
        forall|i: int|
            0 <= i < t.tensorflow.len() ==> versions_spec(t, Framework::TensorFlow)[i] == (
            #[trigger] t.tensorflow[i]).0,
        t.torch.len() > 0 ==> latest_spec(t, Framework::Torch) == Some(
            t.torch[t.torch.len() - 1].0,
        ),
        t.tensorflow.len() > 0 ==> latest_spec(t, Framework::TensorFlow) == Some(
            t.tensorflow[t.tensorflow.len() - 1].0,
        ),
        t.torch.len() == 0 ==> latest_spec(t, Framework::Torch) is None,
        t.tensorflow.len() == 0 ==> latest_spec(t, Framework::TensorFlow) is None,
{
}

} // verus!
