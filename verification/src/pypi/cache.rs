//! The disk cache for PyPI metadata: where documents are kept, and for how long.
//!
//! Two tiers, matching PyPI's immutability guarantees:
//!   * **Per-release** (`release/<name>-<version>.json`): the file list of a
//!     specific released version never changes, so this is kept forever.
//!   * **Latest pointer** (`latest/<name>.json`): "what is the newest version"
//!     changes over time, so this carries a fetch timestamp and a 24h TTL.

use vstd::prelude::*;

use crate::pypi::metadata::{PackageMetadata, PackageMetadataView};
use crate::text;

verus! {

/// 24 hours, in seconds: how long the answer to "what is the latest version" holds.
pub const LATEST_TTL_SECS: u64 = 86400;

/// Bumped whenever the shape of a cached document changes.
///
/// The version is part of the path, so entries written in another shape are
/// simply never read.
pub const SCHEMA: &'static str = "v2";

/// A document as the latest tier keeps it.
#[derive(Debug)]
pub struct CachedLatest {
    pub fetched_at_unix: u64,
    pub metadata: PackageMetadata,
}

/// Where the cache is, if there is one.
#[derive(Debug, PartialEq, Eq)]
pub struct Cache {
    root: Option<String>,
}

/// A cache, mathematically: its root directory.
impl View for Cache {
    type V = Option<Seq<char>>;

    closed spec fn view(&self) -> Option<Seq<char>> {
        text::opt_text(self.root)
    }
}

pub open spec fn is_file_char(c: char) -> bool {
    text::is_ascii_letter(c) || text::is_digit(c)
}

/// A package name as it is used in a file name: lowercase, everything but ASCII
/// letters and digits made a dash.
pub open spec fn file_name(name: Seq<char>) -> Seq<char> {
    let lower = text::lower_spec(name);
    Seq::new(
        lower.len(),
        |i: int|
            if is_file_char(lower[i]) {
                lower[i]
            } else {
                '-'
            },
    )
}

pub open spec fn latest_file(root: Seq<char>, name: Seq<char>) -> Seq<char> {
    root + "/latest/"@ + file_name(name) + ".json"@
}

pub open spec fn release_file(root: Seq<char>, name: Seq<char>, version: Seq<char>) -> Seq<char> {
    root + "/release/"@ + file_name(name) + "-"@ + version + ".json"@
}

/// Whether an answer fetched at one time still holds at another.
pub open spec fn is_fresh(fetched_at: u64, now: u64) -> bool {
    now <= fetched_at + LATEST_TTL_SECS
}

fn normalize(name: &str) -> (r: String)
    ensures
        r@ == file_name(name@),
{
    let lower = name.to_lowercase();
    let chars = text::chars_of(lower.as_str());
    let mut out = String::new();
    let mut i: usize = 0;
    proof {
        assert(out@ =~= file_name(name@).take(0));
    }
    while i < chars.len()
        invariant
            i <= chars@.len(),
            chars@ == text::lower_spec(name@),
            out@ == file_name(name@).take(i as int),
        decreases chars@.len() - i,
    {
        let c = chars[i];
        let kept = (c >= 'a' && c <= 'z') || (c >= 'A' && c <= 'Z') || (c >= '0' && c <= '9');
        let c = if kept {
            c
        } else {
            '-'
        };
        proof {
            assert(file_name(name@).take(i as int).push(c) =~= file_name(name@).take(i as int + 1));
        }
        out.push(c);
        i += 1;
    }
    proof {
        assert(file_name(name@).take(i as int) =~= file_name(name@));
    }
    out
}

/// One file to write: the document itself, or in the latest tier the document
/// with the time it was fetched.
#[derive(Debug, PartialEq, Eq)]
pub struct Write {
    pub path: String,
    /// Whether a file that is already there is replaced.
    pub overwrite: bool,
    pub fetched_at_unix: Option<u64>,
}

/// A write of a document, mathematically.
#[verifier::ext_equal]
pub struct WriteView {
    pub path: Seq<char>,
    pub overwrite: bool,
    pub fetched_at: Option<u64>,
}

impl View for Write {
    type V = WriteView;

    open spec fn view(&self) -> WriteView {
        WriteView {
            path: self.path@,
            overwrite: self.overwrite,
            fetched_at: self.fetched_at_unix,
        }
    }
}

pub open spec fn write_views(v: Seq<Write>) -> Seq<WriteView> {
    Seq::new(v.len(), |i: int| v[i]@)
}

/// Releases are immutable: one that is there is not written again.
pub open spec fn release_writes(
    root: Option<Seq<char>>,
    name: Seq<char>,
    version: Seq<char>,
) -> Seq<WriteView> {
    match root {
        Some(root) => seq![
            WriteView {
                path: release_file(root, name, version),
                overwrite: false,
                fetched_at: None,
            },
        ],
        None => seq![],
    }
}

pub open spec fn latest_writes(
    root: Option<Seq<char>>,
    name: Seq<char>,
    version: Seq<char>,
    now: u64,
) -> Seq<WriteView> {
    match root {
        Some(r) => release_writes(root, name, version).push(
            WriteView { path: latest_file(r, name), overwrite: true, fetched_at: Some(now) },
        ),
        None => seq![],
    }
}

impl Cache {
    /// The cache under the platform's cache directory.
    pub fn open(cache_dir: &str) -> (r: Cache)
        ensures
            r@ == Some(cache_dir@ + "/pypi/"@ + SCHEMA@),
    {
        let mut root = cache_dir.to_string();
        root.append("/pypi/");
        root.append(SCHEMA);
        Cache { root: Some(root) }
    }

    /// A cache that never reads or writes.
    pub fn disabled() -> (r: Cache)
        ensures
            r@ is None,
    {
        Cache { root: None }
    }

    /// A cache rooted at an explicit directory.
    pub fn at(root: &str) -> (r: Cache)
        ensures
            r@ == Some(root@),
    {
        Cache { root: Some(root.to_string()) }
    }

    pub fn latest_path(&self, name: &str) -> (r: Option<String>)
        ensures
            text::opt_text(r) == match self@ {
                Some(root) => Some(latest_file(root, name@)),
                None => None,
            },
    {
        match &self.root {
            Some(root) => {
                let mut path = root.clone();
                path.append("/latest/");
                path.append(normalize(name).as_str());
                path.append(".json");
                Some(path)
            },
            None => None,
        }
    }

    pub fn release_path(&self, name: &str, version: &str) -> (r: Option<String>)
        ensures
            text::opt_text(r) == match self@ {
                Some(root) => Some(release_file(root, name@, version@)),
                None => None,
            },
    {
        match &self.root {
            Some(root) => {
                let mut path = root.clone();
                path.append("/release/");
                path.append(normalize(name).as_str());
                path.append("-");
                path.append(version);
                path.append(".json");
                Some(path)
            },
            None => None,
        }
    }

    /// The latest metadata out of what the latest tier holds, if it is within the
    /// 24h TTL.
    pub fn get_latest(&self, cached: Option<CachedLatest>, now_unix: u64) -> (r: Option<
        PackageMetadata,
    >)
        ensures
            match r {
                Some(meta) => self@ is Some && cached is Some && is_fresh(
                    cached->0.fetched_at_unix,
                    now_unix,
                ) && meta == cached->0.metadata,
                None => self@ is None || cached is None || !is_fresh(
                    cached->0.fetched_at_unix,
                    now_unix,
                ),
            },
    {
        if self.root.is_none() {
            return None;
        }
        match cached {
            Some(cached) => {
                let age: u64 = if now_unix >= cached.fetched_at_unix {
                    now_unix - cached.fetched_at_unix
                } else {
                    0
                };
                if age <= LATEST_TTL_SECS {
                    Some(cached.metadata)
                } else {
                    None
                }
            },
            None => None,
        }
    }

    /// What it takes to persist freshly-fetched metadata into both tiers.
    pub fn put_latest(&self, name: &str, metadata: &PackageMetadata, now_unix: u64) -> (r: Vec<
        Write,
    >)
        ensures
            write_views(r@) == latest_writes(self@, name@, metadata@.version, now_unix),
    {
        let mut writes = self.put_release(name, metadata);
        if let Some(path) = self.latest_path(name) {
            let write = Write { path, overwrite: true, fetched_at_unix: Some(now_unix) };
            proof {
                assert(write_views(writes@.push(write)) =~= write_views(writes@).push(write@));
            }
            writes.push(write);
        }
        writes
    }

    /// What it takes to store one specific release, and only that.
    ///
    /// Deliberately leaves the latest pointer alone. Resolving a pin fetches an
    /// older release, and writing that document into the latest slot would make
    /// every later lookup for the package answer with the older release.
    pub fn put_release(&self, name: &str, metadata: &PackageMetadata) -> (r: Vec<Write>)
        ensures
            write_views(r@) == release_writes(self@, name@, metadata@.version),
    {
        let mut writes: Vec<Write> = Vec::new();
        if let Some(path) = self.release_path(name, metadata.info.version.as_str()) {
            writes.push(Write { path, overwrite: false, fetched_at_unix: None });
        }
        proof {
            assert(write_views(writes@) =~= release_writes(self@, name@, metadata@.version));
        }
        writes
    }
}

// ---------------------------------------------------------------------------
// Laws
// ---------------------------------------------------------------------------

/// A file of the cache: a document, and in the latest tier when it was fetched.
pub struct Kept {
    pub fetched_at: Option<u64>,
    pub metadata: PackageMetadataView,
}

/// The files after the first `n` writes of a document.
pub open spec fn files_after(
    files: Map<Seq<char>, Kept>,
    writes: Seq<WriteView>,
    metadata: PackageMetadataView,
    n: int,
) -> Map<Seq<char>, Kept>
    decreases n,
{
    if n <= 0 {
        files
    } else {
        let before = files_after(files, writes, metadata, n - 1);
        let w = writes[n - 1];
        if !w.overwrite && before.contains_key(w.path) {
            before
        } else {
            before.insert(w.path, Kept { fetched_at: w.fetched_at, metadata })
        }
    }
}

pub open spec fn stored(
    files: Map<Seq<char>, Kept>,
    writes: Seq<WriteView>,
    metadata: PackageMetadataView,
) -> Map<Seq<char>, Kept> {
    files_after(files, writes, metadata, writes.len() as int)
}

/// What the latest tier answers.
pub open spec fn latest_in(
    files: Map<Seq<char>, Kept>,
    root: Seq<char>,
    name: Seq<char>,
    now: u64,
) -> Option<PackageMetadataView> {
    let path = latest_file(root, name);
    if files.contains_key(path) && files[path].fetched_at is Some && is_fresh(
        files[path].fetched_at->0,
        now,
    ) {
        Some(files[path].metadata)
    } else {
        None
    }
}

/// What the release tier answers.
pub open spec fn release_in(
    files: Map<Seq<char>, Kept>,
    root: Seq<char>,
    name: Seq<char>,
    version: Seq<char>,
) -> Option<PackageMetadataView> {
    let path = release_file(root, name, version);
    if files.contains_key(path) {
        Some(files[path].metadata)
    } else {
        None
    }
}

/// The tiers are apart: no file is of both.
proof fn lemma_tiers_apart(root: Seq<char>, a: Seq<char>, b: Seq<char>, version: Seq<char>)
    ensures
        latest_file(root, a) != release_file(root, b, version),
{
    reveal_strlit("/latest/");
    reveal_strlit("/release/");
    let k = root.len() as int + 1;
    assert(latest_file(root, a)[k] == 'l');
    assert(release_file(root, b, version)[k] == 'r');
}

/// Storing a release, older or not, moves no package's latest pointer.
pub proof fn storing_a_release_leaves_the_latest_alone(
    files: Map<Seq<char>, Kept>,
    root: Seq<char>,
    name: Seq<char>,
    metadata: PackageMetadataView,
    other: Seq<char>,
    now: u64,
)
    ensures
        latest_in(
            stored(files, release_writes(Some(root), name, metadata.version), metadata),
            root,
            other,
            now,
        ) == latest_in(files, root, other, now),
{
    lemma_tiers_apart(root, other, name, metadata.version);
    reveal_with_fuel(files_after, 2);
}

/// What is stored as the latest is the latest until its day is over, and then
/// there is none.
pub proof fn the_latest_is_read_back_for_a_day(
    files: Map<Seq<char>, Kept>,
    root: Seq<char>,
    name: Seq<char>,
    metadata: PackageMetadataView,
    fetched_at: u64,
    now: u64,
)
    ensures
        latest_in(
            stored(
                files,
                latest_writes(Some(root), name, metadata.version, fetched_at),
                metadata,
            ),
            root,
            name,
            now,
        ) == if now <= fetched_at + LATEST_TTL_SECS {
            Some(metadata)
        } else {
            None
        },
{
    reveal_with_fuel(files_after, 3);
}

/// A release is stored once and kept as it was: storing it again, in either tier,
/// changes nothing of it.
pub proof fn releases_never_change(
    files: Map<Seq<char>, Kept>,
    root: Seq<char>,
    name: Seq<char>,
    metadata: PackageMetadataView,
    fetched_at: u64,
)
    ensures
        ({
            let kept = release_in(files, root, name, metadata.version);
            let expected = if kept is Some {
                kept
            } else {
                Some(metadata)
            };
            &&& release_in(
                stored(files, release_writes(Some(root), name, metadata.version), metadata),
                root,
                name,
                metadata.version,
            ) == expected
            &&& release_in(
                stored(
                    files,
                    latest_writes(Some(root), name, metadata.version, fetched_at),
                    metadata,
                ),
                root,
                name,
                metadata.version,
            ) == expected
        }),
{
    lemma_tiers_apart(root, name, name, metadata.version);
    reveal_with_fuel(files_after, 3);
}

/// Releases of one package are kept apart.
pub proof fn releases_are_kept_apart(root: Seq<char>, name: Seq<char>, a: Seq<char>, b: Seq<char>)
    requires
        release_file(root, name, a) == release_file(root, name, b),
    ensures
        a == b,
{
    reveal_strlit(".json");
    let x = release_file(root, name, a);
    let y = release_file(root, name, b);
    let n = (root + "/release/"@ + file_name(name) + "-"@).len() as int;
    assert(x.len() == n + a.len() + 5);
    assert(y.len() == n + b.len() + 5);
    assert(x.subrange(n, n + a.len()) =~= a);
    assert(y.subrange(n, n + b.len()) =~= b);
}

/// A name is kept in lower case, with every other character but a letter or a digit made a
/// dash, so that no name leaves the cache.
pub proof fn file_names_hold_letters_digits_and_dashes(name: Seq<char>, i: int)
    requires
        text::all_ascii(name),
        0 <= i < name.len(),
    ensures
        file_name(name).len() == name.len(),
        'a' <= name[i] <= 'z' || '0' <= name[i] <= '9' ==> file_name(name)[i] == name[i],
        'A' <= name[i] <= 'Z' ==> file_name(name)[i] as u32 == name[i] as u32 + 32,
        !('a' <= name[i] <= 'z' || '0' <= name[i] <= '9' || 'A' <= name[i] <= 'Z') ==> file_name(
            name,
        )[i] == '-',
{
    assert(text::is_ascii_char(name[i]));
    let lower = text::lower_ascii_spec(name);
    assert(lower[i] == text::lower_ascii_char(name[i]));
}

/// What is stored as the latest is read back until a day has passed, and no longer.
pub proof fn a_day_is_as_long_as_the_latest_lasts(
    files: Map<Seq<char>, Kept>,
    root: Seq<char>,
    name: Seq<char>,
    metadata: PackageMetadataView,
    fetched_at: u64,
    now: u64,
)
    ensures
        ({
            let after = stored(
                files,
                latest_writes(Some(root), name, metadata.version, fetched_at),
                metadata,
            );
            &&& now <= fetched_at + 24 * 60 * 60 ==> latest_in(after, root, name, now) == Some(
                metadata,
            )
            &&& now > fetched_at + 24 * 60 * 60 ==> latest_in(after, root, name, now) is None
        }),
{
    the_latest_is_read_back_for_a_day(files, root, name, metadata, fetched_at, now);
}

} // verus!
