//! Driver -> max CUDA runtime lookup.
//!
//! For pip-installed frameworks the system CUDA toolkit is irrelevant; wheels
//! bundle their own CUDA runtime, and NVIDIA drivers are backwards compatible.
//! The only question that matters is whether the installed *driver* is new
//! enough for the CUDA runtime a given wheel was built against.

use vstd::prelude::*;

use crate::document::{
    as_text, item_views, json_document, lemma_list_view, part, part_of, read_json, text_of, Tree,
    TreeView,
};
use crate::engine::platform::Os;
use crate::pypi::pyversion::{
    compare_releases, lemma_release_pieces, release_order, release_text,
};
use crate::text;

verus! {

/// One row of the table: a CUDA release and the minimum driver for it.
#[derive(Debug, PartialEq, Eq)]
pub struct DriverRow {
    pub cuda: String,
    pub min_driver_linux: String,
    pub min_driver_windows: String,
}

/// A table row, mathematically.
#[verifier::ext_equal]
pub struct DriverRowView {
    pub cuda: Seq<char>,
    pub min_driver_linux: Seq<char>,
    pub min_driver_windows: Seq<char>,
}

impl View for DriverRow {
    type V = DriverRowView;

    open spec fn view(&self) -> DriverRowView {
        DriverRowView {
            cuda: self.cuda@,
            min_driver_linux: self.min_driver_linux@,
            min_driver_windows: self.min_driver_windows@,
        }
    }
}

pub open spec fn row_views(v: Seq<DriverRow>) -> Seq<DriverRowView> {
    Seq::new(v.len(), |i: int| v[i]@)
}

/// A CUDA runtime version, e.g. "12.4".
#[derive(Debug, Clone, Copy, PartialEq, Eq, PartialOrd, Ord, Structural)]
pub struct CudaVersion {
    pub major: u32,
    pub minor: u32,
}

/// Whether one CUDA version comes before another.
pub open spec fn cuda_lt(a: CudaVersion, b: CudaVersion) -> bool {
    a.major < b.major || (a.major == b.major && a.minor < b.minor)
}

/// The CUDA version a text names: two numbers around the first dot.
pub open spec fn cuda_spec(s: Seq<char>) -> Option<CudaVersion> {
    let dot = text::first_index(s, text::eq_char('.'));
    if dot >= s.len() {
        None
    } else {
        match (
            text::parse_uint_spec(s.take(dot), u32::MAX as nat),
            text::parse_uint_spec(s.skip(dot + 1), u32::MAX as nat),
        ) {
            (Some(major), Some(minor)) => Some(
                CudaVersion { major: major as u32, minor: minor as u32 },
            ),
            _ => None,
        }
    }
}

pub open spec fn cuda_text(v: CudaVersion) -> Seq<char> {
    text::decimal_spec(v.major as nat) + "."@ + text::decimal_spec(v.minor as nat)
}

impl CudaVersion {
    pub fn parse(s: &str) -> (r: Option<CudaVersion>)
        ensures
            r == cuda_spec(s@),
    {
        let dot = text::index_of(s, '.');
        if dot == s.unicode_len() {
            return None;
        }
        match (
            text::parse_uint(text::before(s, dot), u32::MAX as u64),
            text::parse_uint(text::after(s, dot + 1), u32::MAX as u64),
        ) {
            (Some(major), Some(minor)) => Some(
                CudaVersion { major: major as u32, minor: minor as u32 },
            ),
            _ => None,
        }
    }

    /// The version as shown to people, e.g. `12.4`.
    pub fn to_text(&self) -> (r: String)
        ensures
            r@ == cuda_text(*self),
    {
        let mut out = text::decimal(self.major as u64);
        out.append(".");
        out.append(text::decimal(self.minor as u64).as_str());
        out
    }

    /// Whether this version comes before `other`.
    pub fn is_before(&self, other: &CudaVersion) -> (r: bool)
        ensures
            r == cuda_lt(*self, *other),
    {
        self.major < other.major || (self.major == other.major && self.minor < other.minor)
    }
}

/// What a driver version supports, per the bundled table.
#[derive(Debug, PartialEq, Eq)]
pub struct DriverSupport {
    /// The newest CUDA runtime the table confirms this driver supports.
    pub max_known: CudaVersion,
    /// The driver version that floor came from, for messages that cite it.
    pub min_driver_for_max: String,
    /// True when the driver is at or above the newest row in the table:
    /// `max_known` is then a floor, not a ceiling.
    pub exceeds_known_table: bool,
}

/// What a driver supports, mathematically.
#[verifier::ext_equal]
pub struct DriverSupportView {
    pub max_known: CudaVersion,
    pub min_driver_for_max: Seq<char>,
    pub exceeds_known_table: bool,
}

impl View for DriverSupport {
    type V = DriverSupportView;

    open spec fn view(&self) -> DriverSupportView {
        DriverSupportView {
            max_known: self.max_known,
            min_driver_for_max: self.min_driver_for_max@,
            exceeds_known_table: self.exceeds_known_table,
        }
    }
}

// ---------------------------------------------------------------------------
// Ordering the rows
// ---------------------------------------------------------------------------

/// Whether one row's CUDA release comes before another's. A release that cannot
/// be read comes first.
pub open spec fn row_before(a: DriverRowView, b: DriverRowView) -> bool {
    match (cuda_spec(a.cuda), cuda_spec(b.cuda)) {
        (Some(x), Some(y)) => cuda_lt(x, y),
        (None, Some(_)) => true,
        (_, None) => false,
    }
}

/// `r` in its place among ordered rows: behind all that do not come after it.
pub open spec fn insert_row(rows: Seq<DriverRowView>, r: DriverRowView) -> Seq<DriverRowView>
    decreases rows.len(),
{
    if rows.len() == 0 {
        seq![r]
    } else if row_before(r, rows.last()) {
        insert_row(rows.drop_last(), r).push(rows.last())
    } else {
        rows.push(r)
    }
}

/// The rows, oldest CUDA first; rows of one release keep their order.
pub open spec fn sorted_rows(rows: Seq<DriverRowView>) -> Seq<DriverRowView>
    decreases rows.len(),
{
    if rows.len() == 0 {
        rows
    } else {
        insert_row(sorted_rows(rows.drop_last()), rows.last())
    }
}

/// Whether rows stand oldest CUDA first.
pub open spec fn rows_ordered(rows: Seq<DriverRowView>) -> bool {
    forall|i: int, j: int| 0 <= i < j < rows.len() ==> !row_before(#[trigger] rows[j], #[trigger] rows[i])
}

proof fn lemma_insert_row(rows: Seq<DriverRowView>, r: DriverRowView)
    requires
        rows_ordered(rows),
    ensures
        rows_ordered(insert_row(rows, r)),
        insert_row(rows, r).to_multiset() == rows.to_multiset().insert(r),
        insert_row(rows, r).len() == rows.len() + 1,
        forall|i: int|
            0 <= i < insert_row(rows, r).len() ==> (#[trigger] insert_row(rows, r)[i]) == r
                || rows.contains(insert_row(rows, r)[i]),
    decreases rows.len(),
{
    broadcast use vstd::seq_lib::group_to_multiset_ensures;

    let out = insert_row(rows, r);
    if rows.len() == 0 {
        assert(out =~= rows.push(r));
    } else if row_before(r, rows.last()) {
        let init = rows.drop_last();
        lemma_insert_row(init, r);
        let head = insert_row(init, r);
        assert(out == head.push(rows.last()));
        assert(rows =~= init.push(rows.last()));
        assert(out.to_multiset() =~= rows.to_multiset().insert(r));
        assert forall|i: int| 0 <= i < out.len() implies (#[trigger] out[i]) == r || rows.contains(
            out[i],
        ) by {
            if i < head.len() {
                assert(out[i] == head[i]);
                if head[i] != r {
                    let k = choose|k: int| 0 <= k < init.len() && init[k] == head[i];
                    assert(rows[k] == head[i]);
                }
            } else {
                assert(rows[rows.len() - 1] == out[i]);
            }
        }
        assert forall|i: int, j: int| 0 <= i < j < out.len() implies !row_before(
            #[trigger] out[j],
            #[trigger] out[i],
        ) by {
            assert(out[i] == head[i]);
            if j < head.len() {
                assert(out[j] == head[j]);
            } else if head[i] != r {
                let k = choose|k: int| 0 <= k < init.len() && init[k] == head[i];
                assert(rows[k] == head[i]);
                assert(!row_before(rows[rows.len() - 1], rows[k]));
            }
        }
    } else {
        assert(out == rows.push(r));
        assert forall|i: int| 0 <= i < out.len() implies (#[trigger] out[i]) == r || rows.contains(
            out[i],
        ) by {
            if i < rows.len() {
                assert(rows[i] == out[i]);
            }
        }
        assert forall|i: int, j: int| 0 <= i < j < out.len() implies !row_before(
            #[trigger] out[j],
            #[trigger] out[i],
        ) by {
            if j == rows.len() {
                if i < rows.len() - 1 {
                    assert(!row_before(rows[rows.len() - 1], rows[i]));
                }
            }
        }
    }
}

/// Sorting orders the rows and neither drops nor invents one.
pub proof fn sorting_orders_and_keeps_rows(rows: Seq<DriverRowView>)
    ensures
        rows_ordered(sorted_rows(rows)),
        sorted_rows(rows).to_multiset() == rows.to_multiset(),
        sorted_rows(rows).len() == rows.len(),
    decreases rows.len(),
{
    broadcast use vstd::seq_lib::group_to_multiset_ensures;

    if rows.len() > 0 {
        sorting_orders_and_keeps_rows(rows.drop_last());
        lemma_insert_row(sorted_rows(rows.drop_last()), rows.last());
        assert(rows =~= rows.drop_last().push(rows.last()));
    }
}

fn comes_before(a: &DriverRow, b: &DriverRow) -> (r: bool)
    ensures
        r == row_before(a@, b@),
{
    match (CudaVersion::parse(a.cuda.as_str()), CudaVersion::parse(b.cuda.as_str())) {
        (Some(x), Some(y)) => x.is_before(&y),
        (None, Some(_)) => true,
        (_, None) => false,
    }
}

fn place_row(out: &mut Vec<DriverRow>, r: DriverRow)
    ensures
        row_views(final(out)@) == insert_row(row_views(old(out)@), r@),
{
    let ghost before = row_views(out@);
    let mut p: usize = out.len();
    proof {
        assert(before.take(p as int) =~= before);
        assert(before.skip(p as int) =~= seq![]);
        assert(insert_row(before, r@) =~= insert_row(before.take(p as int), r@) + before.skip(
            p as int,
        ));
    }
    while p > 0 && comes_before(&r, &out[p - 1])
        invariant
            p <= out@.len(),
            before == row_views(out@),
            insert_row(before, r@) == insert_row(before.take(p as int), r@) + before.skip(p as int),
        decreases p,
    {
        proof {
            let now = before.take(p as int);
            assert(now.last() == out@[p - 1]@);
            assert(now.drop_last() =~= before.take(p - 1));
            assert(before.skip(p - 1) =~= seq![now.last()] + before.skip(p as int));
            assert(insert_row(before.take(p - 1), r@).push(now.last()) + before.skip(p as int)
                =~= insert_row(before.take(p - 1), r@) + before.skip(p - 1));
        }
        p -= 1;
    }
    proof {
        let now = before.take(p as int);
        if p > 0 {
            assert(now.last() == out@[p - 1]@);
        } else {
            assert(now =~= seq![]);
        }
        assert(insert_row(now, r@) =~= now.push(r@));
    }
    let ghost whole = out@;
    out.insert(p, r);
    proof {
        assert(row_views(out@) =~= before.take(p as int).push(r@) + before.skip(p as int));
    }
}

/// Rows ordered oldest to newest CUDA.
pub fn rows_sorted(rows: Vec<DriverRow>) -> (r: Vec<DriverRow>)
    ensures
        row_views(r@) == sorted_rows(row_views(rows@)),
{
    let ghost views = row_views(rows@);
    let mut rest = rows;
    let mut out: Vec<DriverRow> = Vec::new();
    let mut back: Vec<DriverRow> = Vec::new();
    let ghost n = views.len() as int;
    while rest.len() > 0
        invariant
            n == views.len(),
            rest@.len() + back@.len() == n,
            forall|i: int| 0 <= i < rest@.len() ==> (#[trigger] rest@[i])@ == views[i],
            forall|i: int| 0 <= i < back@.len() ==> (#[trigger] back@[i])@ == views[n - 1 - i],
        decreases rest@.len(),
    {
        if let Some(row) = rest.pop() {
            back.push(row);
        }
    }
    proof {
        assert(row_views(out@) =~= sorted_rows(views.take(0)));
    }
    while back.len() > 0
        invariant
            n == views.len(),
            back@.len() <= n,
            forall|i: int| 0 <= i < back@.len() ==> (#[trigger] back@[i])@ == views[n - 1 - i],
            row_views(out@) == sorted_rows(views.take(n - back@.len())),
        decreases back@.len(),
    {
        let ghost k = n - back@.len();
        proof {
            assert(back@[back@.len() - 1]@ == views[k]);
            let now = views.take(k + 1);
            assert(now.drop_last() =~= views.take(k));
            assert(now.last() == views[k]);
        }
        if let Some(row) = back.pop() {
            place_row(&mut out, row);
        }
    }
    proof {
        assert(views.take(n) =~= views);
    }
    out
}

// ---------------------------------------------------------------------------
// The table
// ---------------------------------------------------------------------------

pub open spec fn dotted_part() -> spec_fn(Seq<char>) -> Option<u64> {
    |p: Seq<char>|
        match text::parse_uint_spec(p, u32::MAX as nat) {
            Some(n) => Some(n as u64),
            None => None,
        }
}

/// The numbers of a dotted version; pieces that are no number are passed over.
pub open spec fn dotted_spec(s: Seq<char>) -> Option<Seq<u64>> {
    let parts = text::split_spec(s, text::eq_char('.')).filter_map(dotted_part());
    if parts.len() == 0 {
        None
    } else {
        Some(parts)
    }
}

/// The minimum driver of a row on an operating system.
pub open spec fn min_driver(row: DriverRowView, os: Os) -> Seq<char> {
    if os == Os::Windows {
        row.min_driver_windows
    } else {
        row.min_driver_linux
    }
}

/// Whether a driver meets a row's minimum.
pub open spec fn meets(driver: Seq<u64>, row: DriverRowView, os: Os) -> bool {
    dotted_spec(min_driver(row, os)) matches Some(min) && release_order(driver, min) >= 0
}

/// Of the first `n` rows that the driver meets, the first with the newest CUDA.
pub open spec fn best_row(rows: Seq<DriverRowView>, driver: Seq<u64>, os: Os, n: int) -> Option<int>
    decreases n,
{
    if n <= 0 {
        None
    } else {
        let best = best_row(rows, driver, os, n - 1);
        if !meets(driver, rows[n - 1], os) {
            best
        } else {
            match best {
                Some(b) => if row_before(rows[b], rows[n - 1]) {
                    Some(n - 1)
                } else {
                    best
                },
                None => Some(n - 1),
            }
        }
    }
}

/// Whether a row the driver meets names no readable CUDA release.
pub open spec fn unreadable(rows: Seq<DriverRowView>, driver: Seq<u64>, os: Os) -> bool {
    exists|i: int|
        0 <= i < rows.len() && meets(driver, #[trigger] rows[i], os) && cuda_spec(rows[i].cuda) is None
}

/// What a driver supports: the newest CUDA of the rows it meets. `None` when it
/// meets none, or where the table or the driver version cannot be read.
pub open spec fn support_spec(rows: Seq<DriverRowView>, driver: Seq<char>, os: Os) -> Option<
    DriverSupportView,
> {
    match dotted_spec(driver) {
        None => None,
        Some(d) => match best_row(rows, d, os, rows.len() as int) {
            None => None,
            Some(b) => match (cuda_spec(rows[b].cuda), dotted_spec(min_driver(rows.last(), os))) {
                (Some(max_known), Some(newest)) => if unreadable(rows, d, os) {
                    None
                } else {
                    Some(
                        DriverSupportView {
                            max_known,
                            min_driver_for_max: min_driver(rows[b], os),
                            exceeds_known_table: release_order(d, newest) >= 0,
                        },
                    )
                },
                _ => None,
            },
        },
    }
}

proof fn lemma_best_row(rows: Seq<DriverRowView>, driver: Seq<u64>, os: Os, n: int)
    requires
        0 <= n <= rows.len(),
        forall|i: int|
            0 <= i < n && meets(driver, #[trigger] rows[i], os) ==> cuda_spec(rows[i].cuda) is Some,
    ensures
        match best_row(rows, driver, os, n) {
            Some(b) => 0 <= b < n && meets(driver, rows[b], os) && forall|i: int|
                0 <= i < n && meets(driver, #[trigger] rows[i], os) ==> !cuda_lt(
                    cuda_spec(rows[b].cuda)->0,
                    cuda_spec(rows[i].cuda)->0,
                ),
            None => forall|i: int| 0 <= i < n ==> !meets(driver, #[trigger] rows[i], os),
        },
    decreases n,
{
    if n > 0 {
        lemma_best_row(rows, driver, os, n - 1);
    }
}

/// What a driver is said to support is the CUDA of a row it meets, and no row it
/// meets has a newer one.
pub proof fn drivers_get_the_newest_cuda_they_meet(
    rows: Seq<DriverRowView>,
    driver: Seq<char>,
    os: Os,
)
    requires
        support_spec(rows, driver, os) is Some,
    ensures
        dotted_spec(driver) is Some,
        exists|b: int|
            0 <= b < rows.len() && meets(dotted_spec(driver)->0, #[trigger] rows[b], os)
                && cuda_spec(rows[b].cuda) == Some(support_spec(rows, driver, os)->0.max_known),
        forall|i: int|
            0 <= i < rows.len() && meets(dotted_spec(driver)->0, #[trigger] rows[i], os)
                ==> cuda_spec(rows[i].cuda) is Some && !cuda_lt(
                support_spec(rows, driver, os)->0.max_known,
                cuda_spec(rows[i].cuda)->0,
            ),
{
    let d = dotted_spec(driver)->0;
    assert forall|i: int| 0 <= i < rows.len() && meets(d, #[trigger] rows[i], os) implies cuda_spec(
        rows[i].cuda,
    ) is Some by {
        if cuda_spec(rows[i].cuda) is None {
            assert(unreadable(rows, d, os));
        }
    }
    lemma_best_row(rows, d, os, rows.len() as int);
}

/// The row of one entry of the `drivers` list.
pub open spec fn row_of(t: TreeView) -> Option<DriverRowView> {
    match (
        text_of(part_of(t, "cuda"@, 0, 3)),
        text_of(part_of(t, "min_driver_linux"@, 1, 3)),
        text_of(part_of(t, "min_driver_windows"@, 2, 3)),
    ) {
        (Some(cuda), Some(min_driver_linux), Some(min_driver_windows)) => Some(
            DriverRowView { cuda, min_driver_linux, min_driver_windows },
        ),
        _ => None,
    }
}

/// The rows of the first `n` entries; `None` if one is no row.
pub open spec fn rows_of(items: Seq<TreeView>, n: int) -> Option<Seq<DriverRowView>>
    decreases n,
{
    if n <= 0 {
        Some(seq![])
    } else {
        match (rows_of(items, n - 1), row_of(items[n - 1])) {
            (Some(rows), Some(row)) => Some(rows.push(row)),
            _ => None,
        }
    }
}

/// The rows of a driver document, oldest CUDA first.
pub open spec fn driver_rows(doc: Option<TreeView>) -> Option<Seq<DriverRowView>> {
    match doc {
        Some(doc) => match part_of(doc, "drivers"@, 0, 1) {
            Some(TreeView::List(items)) => match rows_of(items, items.len() as int) {
                Some(rows) => Some(sorted_rows(rows)),
                None => None,
            },
            _ => None,
        },
        None => None,
    }
}

/// Parsed driver->CUDA table.
#[derive(Debug)]
pub struct DriverTable {
    rows: Vec<DriverRow>,
}

impl View for DriverTable {
    type V = Seq<DriverRowView>;

    closed spec fn view(&self) -> Seq<DriverRowView> {
        row_views(self.rows@)
    }
}

/// The numbers of a dotted version.
fn parse_dotted(s: &str) -> (r: Option<Vec<u64>>)
    ensures
        match r {
            Some(v) => dotted_spec(s@) == Some(v@),
            None => dotted_spec(s@) is None,
        },
{
    let parts = text::split(s, '.');
    let ghost pieces = text::texts(parts@);
    let mut out: Vec<u64> = Vec::new();
    let mut i: usize = 0;
    while i < parts.len()
        invariant
            i <= parts@.len(),
            pieces == text::texts(parts@),
            out@ == pieces.take(i as int).filter_map(dotted_part()),
        decreases parts@.len() - i,
    {
        proof {
            pieces.lemma_filter_map_take_succ(dotted_part(), i as int);
            assert(pieces[i as int] == parts@[i as int]@);
        }
        match text::parse_uint(parts[i].as_str(), u32::MAX as u64) {
            Some(n) => {
                out.push(n);
            },
            None => {},
        }
        i += 1;
    }
    proof {
        assert(pieces.take(i as int) =~= pieces);
    }
    if out.len() == 0 {
        None
    } else {
        Some(out)
    }
}

fn read_row(t: &Tree) -> (r: Option<DriverRow>)
    ensures
        match r {
            Some(row) => row_of(t@) == Some(row@),
            None => row_of(t@) is None,
        },
{
    match (
        as_text(part(t, "cuda", 0, 3)),
        as_text(part(t, "min_driver_linux", 1, 3)),
        as_text(part(t, "min_driver_windows", 2, 3)),
    ) {
        (Some(cuda), Some(linux), Some(windows)) => Some(
            DriverRow {
                cuda: cuda.to_string(),
                min_driver_linux: linux.to_string(),
                min_driver_windows: windows.to_string(),
            },
        ),
        _ => None,
    }
}

impl DriverTable {
    /// The table of the given rows.
    pub fn from_rows(rows: Vec<DriverRow>) -> (r: DriverTable)
        ensures
            r@ == sorted_rows(row_views(rows@)),
    {
        DriverTable { rows: rows_sorted(rows) }
    }

    /// The table of a driver document.
    pub fn from_document(doc: &Tree) -> (r: Option<DriverTable>)
        ensures
            match r {
                Some(t) => driver_rows(Some(doc@)) == Some(t@),
                None => driver_rows(Some(doc@)) is None,
            },
    {
        let items = match part(doc, "drivers", 0, 1) {
            Some(Tree::List(items)) => items,
            _ => return None,
        };
        let ghost views = item_views(items@);
        let mut rows: Vec<DriverRow> = Vec::new();
        let mut i: usize = 0;
        let mut failed = false;
        proof {
            lemma_list_view(*items);
            assert(row_views(rows@) =~= seq![]);
        }
        while i < items.len()
            invariant
                i <= items@.len(),
                views == item_views(items@),
                rows_of(views, i as int) == (if failed {
                    None
                } else {
                    Some(row_views(rows@))
                }),
            decreases items@.len() - i,
        {
            proof {
                assert(views[i as int] == items@[i as int]@);
            }
            match read_row(&items[i]) {
                Some(row) => {
                    let ghost before = rows@;
                    rows.push(row);
                    proof {
                        assert(row_views(rows@) =~= row_views(before).push(row@));
                    }
                },
                None => {
                    failed = true;
                },
            }
            i += 1;
        }
        if failed {
            return None;
        }
        Some(DriverTable::from_rows(rows))
    }

    /// The table a JSON text holds. Each record is an object or the array of its
    /// parts. A key that an object gives twice counts as its last mention, as
    /// `serde_json` reads it into a value.
    pub fn load(json: &str) -> (r: Option<DriverTable>)
        ensures
            match r {
                Some(t) => driver_rows(json_document(json@)) == Some(t@),
                None => driver_rows(json_document(json@)) is None,
            },
    {
        match read_json(json) {
            Some(doc) => DriverTable::from_document(&doc),
            None => None,
        }
    }

    fn minimum(&self, i: usize, os: Os) -> (r: &str)
        requires
            i < self@.len(),
        ensures
            r@ == min_driver(self@[i as int], os),
    {
        match os {
            Os::Windows => self.rows[i].min_driver_windows.as_str(),
            _ => self.rows[i].min_driver_linux.as_str(),
        }
    }

    /// What does `driver_version` support, on `os`? `None` when the driver is
    /// older than every row the table knows.
    pub fn support_for(&self, driver_version: &str, os: Os) -> (r: Option<DriverSupport>)
        ensures
            match r {
                Some(s) => support_spec(self@, driver_version@, os) == Some(s@),
                None => support_spec(self@, driver_version@, os) is None,
            },
    {
        let driver = match parse_dotted(driver_version) {
            Some(d) => d,
            None => return None,
        };
        let mut best: Option<usize> = None;
        let mut bad = false;
        let n = self.rows.len();
        let mut i: usize = 0;
        while i < n
            invariant
                i <= n,
                n == self.rows@.len(),
                n == self@.len(),
                match best {
                    Some(b) => b < i && best_row(self@, driver@, os, i as int) == Some(b as int),
                    None => best_row(self@, driver@, os, i as int) is None,
                },
                bad == exists|j: int|
                    0 <= j < i && meets(driver@, #[trigger] self@[j], os) && cuda_spec(self@[j].cuda) is None,
            decreases n - i,
        {
            proof {
                assert(self@[i as int] == self.rows@[i as int]@);
            }
            let met = match parse_dotted(self.minimum(i, os)) {
                Some(min) => compare_releases(driver.as_slice(), min.as_slice()) >= 0,
                None => false,
            };
            if met {
                if CudaVersion::parse(self.rows[i].cuda.as_str()).is_none() {
                    bad = true;
                }
                match best {
                    Some(b) => {
                        proof {
                            assert(self@[b as int] == self.rows@[b as int]@);
                        }
                        if comes_before(&self.rows[b], &self.rows[i]) {
                            best = Some(i);
                        }
                    },
                    None => {
                        best = Some(i);
                    },
                }
            }
            i += 1;
        }
        let b = match best {
            Some(b) => b,
            None => return None,
        };
        proof {
            assert(self@[b as int] == self.rows@[b as int]@);
            assert(self@.last() == self@[n - 1]);
        }
        if bad {
            return None;
        }
        let max_known = match CudaVersion::parse(self.rows[b].cuda.as_str()) {
            Some(v) => v,
            None => return None,
        };
        let newest = match parse_dotted(self.minimum(n - 1, os)) {
            Some(v) => v,
            None => return None,
        };
        Some(
            DriverSupport {
                max_known,
                min_driver_for_max: self.minimum(b, os).to_string(),
                exceeds_known_table: compare_releases(driver.as_slice(), newest.as_slice()) >= 0,
            },
        )
    }
}

/// CUDA versions are ordered by major, then by minor: raising the minor, or the
/// major whatever the minors, makes a version later, and no version is before
/// itself or before one that is before it.
pub proof fn cuda_versions_are_ordered_by_major_then_minor(
    major: u32,
    later: u32,
    minor: u32,
    other: u32,
)
    requires
        major < later,
    ensures
        cuda_lt(CudaVersion { major, minor }, CudaVersion { major: later, minor: other }),
        !cuda_lt(CudaVersion { major: later, minor: other }, CudaVersion { major, minor }),
        minor < other ==> cuda_lt(CudaVersion { major, minor }, CudaVersion { major, minor: other }),
        minor >= other ==> !cuda_lt(
            CudaVersion { major, minor },
            CudaVersion { major, minor: other },
        ),
{
}

/// A CUDA version reads back from the text shown for it.
pub proof fn cuda_versions_read_back(v: CudaVersion)
    ensures
        cuda_spec(cuda_text(v)) == Some(v),
{
    reveal_strlit(".");
    let major = text::decimal_spec(v.major as nat);
    let minor = text::decimal_spec(v.minor as nat);
    text::numbers_read_back(v.major as nat, u32::MAX as nat);
    text::numbers_read_back(v.minor as nat, u32::MAX as nat);
    let s = cuda_text(v);
    let n = major.len() as int;
    assert forall|j: int| 0 <= j < n implies !text::eq_char('.')(#[trigger] s[j]) by {
        assert(s[j] == major[j]);
        assert(text::is_digit(major[j]));
    }
    assert(s[n] == '.');
    text::lemma_first_index_is(s, text::eq_char('.'), n);
    assert(s.take(n) =~= major);
    assert(s.skip(n + 1) =~= minor);
}

proof fn lemma_dotted_numbers(release: Seq<u64>)
    requires
        forall|i: int| 0 <= i < release.len() ==> #[trigger] release[i] <= u32::MAX,
    ensures
        Seq::new(release.len(), |i: int| text::decimal_spec(release[i] as nat)).filter_map(
            dotted_part(),
        ) == release,
    decreases release.len(),
{
    let parts = Seq::new(release.len(), |i: int| text::decimal_spec(release[i] as nat));
    if release.len() == 0 {
        assert(parts.filter_map(dotted_part()) =~= release);
    } else {
        let before = release.drop_last();
        assert forall|i: int| 0 <= i < before.len() implies #[trigger] before[i] <= u32::MAX by {
            assert(before[i] == release[i]);
        }
        lemma_dotted_numbers(before);
        assert(parts.drop_last() =~= Seq::new(
            before.len(),
            |i: int| text::decimal_spec(before[i] as nat),
        ));
        assert(release[release.len() - 1] <= u32::MAX);
        text::numbers_read_back(release.last() as nat, u32::MAX as nat);
        assert(dotted_part()(parts.last()) == Some(release.last()));
        assert(before.push(release.last()) =~= release);
    }
}

/// A driver meets a row where it is no older than the minimum that the row has for the
/// operating system: Windows has its own, every other goes by that of Linux.
pub proof fn drivers_meet_the_minimum_of_their_system(
    driver: Seq<u64>,
    row: DriverRowView,
    linux: Seq<u64>,
    windows: Seq<u64>,
)
    requires
        linux.len() > 0,
        windows.len() > 0,
        forall|i: int| 0 <= i < linux.len() ==> #[trigger] linux[i] <= u32::MAX,
        forall|i: int| 0 <= i < windows.len() ==> #[trigger] windows[i] <= u32::MAX,
        row.min_driver_linux == release_text(linux),
        row.min_driver_windows == release_text(windows),
    ensures
        meets(driver, row, Os::Windows) <==> release_order(driver, windows) >= 0,
        meets(driver, row, Os::Linux) <==> release_order(driver, linux) >= 0,
        dotted_spec(release_text(linux)) == Some(linux),
{
    lemma_release_pieces(linux);
    lemma_dotted_numbers(linux);
    lemma_release_pieces(windows);
    lemma_dotted_numbers(windows);
}

/// A driver that meets some row has support, as long as the table can be read, and is
/// past the table exactly where it meets the newest row of all.
pub proof fn drivers_that_meet_a_row_have_support(
    rows: Seq<DriverRowView>,
    driver: Seq<char>,
    os: Os,
    i: int,
)
    requires
        dotted_spec(driver) is Some,
        0 <= i < rows.len(),
        meets(dotted_spec(driver)->0, rows[i], os),
        forall|j: int| 0 <= j < rows.len() ==> cuda_spec((#[trigger] rows[j]).cuda) is Some,
        forall|j: int|
            0 <= j < rows.len() ==> dotted_spec((#[trigger] rows[j]).min_driver_linux) is Some
                && dotted_spec(rows[j].min_driver_windows) is Some,
    ensures
        support_spec(rows, driver, os) is Some,
        support_spec(rows, driver, os)->0.exceeds_known_table <==> meets(
            dotted_spec(driver)->0,
            rows.last(),
            os,
        ),
{
    let d = dotted_spec(driver)->0;
    lemma_best_row(rows, d, os, rows.len() as int);
    assert(rows[rows.len() - 1] == rows.last());
    assert(dotted_spec(rows[rows.len() - 1].min_driver_linux) is Some);
}

/// A driver that meets no row has none.
pub proof fn drivers_that_meet_no_row_have_no_support(
    rows: Seq<DriverRowView>,
    driver: Seq<char>,
    os: Os,
)
    requires
        dotted_spec(driver) matches Some(d) ==> forall|i: int|
            0 <= i < rows.len() ==> !meets(d, #[trigger] rows[i], os),
    ensures
        support_spec(rows, driver, os) is None,
{
    if let Some(d) = dotted_spec(driver) {
        lemma_best_row(rows, d, os, rows.len() as int);
    }
}

/// A driver list is read whole and in order, or not at all.
pub proof fn driver_lists_are_read_whole(items: Seq<TreeView>, n: int)
    requires
        0 <= n <= items.len(),
    ensures
        match rows_of(items, n) {
            Some(rows) => rows.len() == n && forall|i: int|
                0 <= i < n ==> row_of(items[i]) == Some(#[trigger] rows[i]),
            None => exists|i: int| 0 <= i < n && row_of(#[trigger] items[i]) is None,
        },
    decreases n,
{
    if n > 0 {
        driver_lists_are_read_whole(items, n - 1);
        if rows_of(items, n) is None && rows_of(items, n - 1) is Some {
            assert(row_of(items[n - 1]) is None);
        }
    }
}

/// In a table each row stands behind every row of an older CUDA: by the major number,
/// and within one major by the minor.
pub proof fn tables_stand_oldest_first(
    rows: Seq<DriverRowView>,
    i: int,
    j: int,
    x: CudaVersion,
    y: CudaVersion,
)
    requires
        0 <= i < j < sorted_rows(rows).len(),
        cuda_spec(sorted_rows(rows)[i].cuda) == Some(x),
        cuda_spec(sorted_rows(rows)[j].cuda) == Some(y),
    ensures
        x.major < y.major || (x.major == y.major && x.minor <= y.minor),
        sorted_rows(rows).len() == rows.len(),
{
    sorting_orders_and_keeps_rows(rows);
    let sorted = sorted_rows(rows);
    assert(!row_before(sorted[j], sorted[i]));
}

} // verus!
