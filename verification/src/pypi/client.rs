//! Where package metadata comes from.
//!
//! The engine is generic over [`MetadataSource`], so recorded documents serve as
//! well as the live index.

use vstd::prelude::*;

use crate::pypi::cache::{
    latest_file, latest_writes, release_file, release_writes, write_views, Cache, Write,
};
use crate::pypi::metadata::{PackageMetadata, PackageMetadataView};
use crate::text;

verus! {

/// Anything that can resolve a package name to metadata: a bare name to its
/// latest release, `name==version` to that one release.
pub trait MetadataSource {
    /// The document, or the error, that this source gives for a name.
    spec fn answer(&self, name: Seq<char>) -> Result<PackageMetadataView, Seq<char>>;

    fn fetch(&self, name: &str) -> (r: Result<PackageMetadata, String>)
        ensures
            match r {
                Ok(meta) => self.answer(name@) == Ok::<PackageMetadataView, Seq<char>>(meta@),
                Err(e) => self.answer(name@) == Err::<PackageMetadataView, Seq<char>>(e@),
            },
    ;
}

/// Recorded documents by name; no network, ever.
#[derive(Debug)]
pub struct FixtureSource {
    entries: Vec<(String, PackageMetadata)>,
}

/// The index of the entry under a key, or the length.
spec fn key_index(entries: Seq<(String, PackageMetadata)>, key: Seq<char>) -> int
    decreases entries.len(),
{
    if entries.len() == 0 || entries[0].0@ == key {
        0
    } else {
        1 + key_index(entries.drop_first(), key)
    }
}

proof fn lemma_key_index_is(entries: Seq<(String, PackageMetadata)>, key: Seq<char>, i: int)
    requires
        0 <= i <= entries.len(),
        forall|j: int| 0 <= j < i ==> (#[trigger] entries[j]).0@ != key,
        i < entries.len() ==> entries[i].0@ == key,
    ensures
        key_index(entries, key) == i,
    decreases entries.len(),
{
    if i > 0 {
        let rest = entries.drop_first();
        assert(entries[0].0@ != key);
        assert forall|j: int| 0 <= j < i - 1 implies (#[trigger] rest[j]).0@ != key by {
            assert(rest[j] == entries[j + 1]);
        }
        lemma_key_index_is(rest, key, i - 1);
    }
}

proof fn lemma_key_index(entries: Seq<(String, PackageMetadata)>, key: Seq<char>)
    ensures
        0 <= key_index(entries, key) <= entries.len(),
        forall|j: int| 0 <= j < key_index(entries, key) ==> (#[trigger] entries[j]).0@ != key,
        key_index(entries, key) < entries.len() ==> entries[key_index(entries, key)].0@ == key,
    decreases entries.len(),
{
    if entries.len() > 0 && entries[0].0@ != key {
        let rest = entries.drop_first();
        lemma_key_index(rest, key);
        assert forall|j: int| 0 <= j < key_index(entries, key) implies (#[trigger] entries[j]).0@
            != key by {
            if j > 0 {
                assert(rest[j - 1] == entries[j]);
            }
        }
    }
}

/// Why a name that was never registered has no document.
pub open spec fn missing_text(name: Seq<char>) -> Seq<char> {
    "no fixture registered for `"@ + name + "`"@
}

impl FixtureSource {
    /// The document registered under a key, if any.
    pub closed spec fn lookup(&self, key: Seq<char>) -> Option<PackageMetadataView> {
        let i = key_index(self.entries@, key);
        if i < self.entries@.len() {
            Some(self.entries@[i].1@)
        } else {
            None
        }
    }

    pub fn new() -> (r: FixtureSource)
        ensures
            forall|key: Seq<char>| #[trigger] r.lookup(key) is None,
    {
        FixtureSource { entries: Vec::new() }
    }

    fn position(&self, key: &str) -> (r: usize)
        ensures
            r == key_index(self.entries@, key@),
            r <= self.entries@.len(),
    {
        let mut i: usize = 0;
        while i < self.entries.len()
            invariant
                i <= self.entries@.len(),
                forall|j: int| 0 <= j < i ==> (#[trigger] self.entries@[j]).0@ != key@,
            decreases self.entries@.len() - i,
        {
            if text::same(self.entries[i].0.as_str(), key) {
                proof {
                    lemma_key_index_is(self.entries@, key@, i as int);
                }
                return i;
            }
            i += 1;
        }
        proof {
            lemma_key_index_is(self.entries@, key@, i as int);
        }
        i
    }

    /// Insert metadata under a name (normalized to lowercase).
    pub fn insert(&mut self, name: &str, meta: PackageMetadata)
        ensures
            forall|key: Seq<char>| #[trigger]
                final(self).lookup(key) == (if key == text::lower_spec(name@) {
                    Some(meta@)
                } else {
                    old(self).lookup(key)
                }),
    {
        let key = name.to_lowercase();
        let ghost before = self.entries@;
        proof {
            assert(key@ == text::lower_spec(name@));
        }
        let i = self.position(key.as_str());
        proof {
            lemma_key_index(before, key@);
        }
        if i < self.entries.len() {
            self.entries.set(i, (key, meta));
        } else {
            self.entries.push((key, meta));
        }
        proof {
            let after = self.entries@;
            assert forall|k: Seq<char>| #[trigger] self.lookup(k) == (if k == key@ {
                Some(meta@)
            } else {
                old(self).lookup(k)
            }) by {
                lemma_key_index(before, k);
                let at = key_index(before, k);
                if k == key@ {
                    assert forall|j: int| 0 <= j < i implies (#[trigger] after[j]).0@ != k by {
                        assert(after[j] == before[j]);
                    }
                    lemma_key_index_is(after, k, i as int);
                } else {
                    assert forall|j: int| 0 <= j < at implies (#[trigger] after[j]).0@ != k by {
                        if j != i {
                            assert(after[j] == before[j]);
                        }
                    }
                    if at < before.len() {
                        assert(at != i);
                        assert(after[at] == before[at]);
                        lemma_key_index_is(after, k, at);
                    } else {
                        assert forall|j: int| 0 <= j < after.len() implies (#[trigger] after[j]).0@
                            != k by {
                            if j < before.len() && j != i {
                                assert(after[j] == before[j]);
                            }
                        }
                        lemma_key_index_is(after, k, after.len() as int);
                    }
                }
            }
        }
    }
}

impl Default for FixtureSource {
    fn default() -> (r: FixtureSource)
        ensures
            forall|key: Seq<char>| #[trigger] r.lookup(key) is None,
    {
        FixtureSource::new()
    }
}

impl MetadataSource for FixtureSource {
    open spec fn answer(&self, name: Seq<char>) -> Result<PackageMetadataView, Seq<char>> {
        match self.lookup(text::lower_spec(name)) {
            Some(meta) => Ok(meta),
            None => Err(missing_text(name)),
        }
    }

    fn fetch(&self, name: &str) -> (r: Result<PackageMetadata, String>) {
        let key = name.to_lowercase();
        proof {
            assert(key@ == text::lower_spec(name@));
        }
        let i = self.position(key.as_str());
        if i < self.entries.len() {
            Ok(self.entries[i].1.clone())
        } else {
            let mut e = "no fixture registered for `".to_string();
            e.append(name);
            e.append("`");
            Err(e)
        }
    }
}

// ---------------------------------------------------------------------------
// The live index
// ---------------------------------------------------------------------------

/// Where the live index keeps its documents.
pub const BASE_URL: &'static str = "https://pypi.org/pypi";

/// What is asked of the index: a project's latest release, or one release of it.
#[derive(Debug, PartialEq, Eq)]
pub struct Query {
    pub project: String,
    pub version: Option<String>,
}

/// A query, mathematically.
#[verifier::ext_equal]
pub struct QueryView {
    pub project: Seq<char>,
    pub version: Option<Seq<char>>,
}

impl View for Query {
    type V = QueryView;

    open spec fn view(&self) -> QueryView {
        QueryView { project: self.project@, version: text::opt_text(self.version) }
    }
}

/// The query a name stands for: `name==version` for one release, else the latest.
pub open spec fn query_of(name: Seq<char>) -> QueryView {
    match text::find_spec(name, "=="@) {
        Some(i) => QueryView { project: name.take(i), version: Some(name.skip(i + 2)) },
        None => QueryView { project: name, version: None },
    }
}

/// The address of the document that answers a query.
pub open spec fn url_of(q: QueryView) -> Seq<char> {
    match q.version {
        Some(v) => BASE_URL@ + "/"@ + q.project + "/"@ + v + "/json"@,
        None => BASE_URL@ + "/"@ + q.project + "/json"@,
    }
}

/// What came of asking the index.
#[derive(Debug)]
pub enum Response {
    /// No answer at all.
    Unreachable,
    /// A status that is not a success.
    Refused(String),
    /// An answer that is no metadata document.
    Unreadable,
    Document(PackageMetadata),
}

/// What a fetch makes of a response.
pub open spec fn fetched(name: Seq<char>, response: Response) -> Result<
    PackageMetadataView,
    Seq<char>,
> {
    match response {
        Response::Unreachable => Err("requesting metadata for `"@ + name + "`"@),
        Response::Refused(status) => Err("PyPI returned "@ + status@ + " for `"@ + name + "`"@),
        Response::Unreadable => Err("parsing PyPI JSON for `"@ + name + "`"@),
        Response::Document(meta) => Ok(meta@),
    }
}

impl Query {
    /// Read a name into the query it stands for.
    pub fn parse(name: &str) -> (r: Query)
        ensures
            r@ == query_of(name@),
    {
        proof {
            reveal_strlit("==");
        }
        match text::find(name, "==") {
            Some(i) => Query {
                project: text::before(name, i).to_string(),
                version: Some(text::after(name, i + 2).to_string()),
            },
            None => Query { project: name.to_string(), version: None },
        }
    }

    /// The address to ask.
    pub fn url(&self) -> (r: String)
        ensures
            r@ == url_of(self@),
    {
        let mut out = BASE_URL.to_string();
        out.append("/");
        out.append(self.project.as_str());
        if let Some(v) = &self.version {
            out.append("/");
            out.append(v.as_str());
        }
        out.append("/json");
        out
    }

    /// Where the cache keeps the answer, if it keeps any.
    pub fn cache_path(&self, cache: &Cache) -> (r: Option<String>)
        ensures
            text::opt_text(r) == (match (cache@, self@.version) {
                (Some(root), Some(v)) => Some(release_file(root, self@.project, v)),
                (Some(root), None) => Some(latest_file(root, self@.project)),
                (None, _) => None,
            }),
    {
        match &self.version {
            Some(v) => cache.release_path(self.project.as_str(), v.as_str()),
            None => cache.latest_path(self.project.as_str()),
        }
    }

    /// What to keep of an answer: the latest release in both tiers, an older one
    /// in its own place alone.
    pub fn writes(&self, cache: &Cache, meta: &PackageMetadata, now_unix: u64) -> (r: Vec<Write>)
        ensures
            write_views(r@) == (match self@.version {
                Some(_) => release_writes(cache@, self@.project, meta@.version),
                None => latest_writes(cache@, self@.project, meta@.version, now_unix),
            }),
    {
        match &self.version {
            Some(_) => cache.put_release(self.project.as_str(), meta),
            None => cache.put_latest(self.project.as_str(), meta, now_unix),
        }
    }
}

/// Turn what came of asking for `name` into its metadata, or why there is none.
pub fn conclude(name: &str, response: Response) -> (r: Result<PackageMetadata, String>)
    ensures
        match r {
            Ok(meta) => fetched(name@, response) == Ok::<PackageMetadataView, Seq<char>>(meta@),
            Err(e) => fetched(name@, response) == Err::<PackageMetadataView, Seq<char>>(e@),
        },
{
    match response {
        Response::Unreachable => {
            let mut e = "requesting metadata for `".to_string();
            e.append(name);
            e.append("`");
            Err(e)
        },
        Response::Refused(status) => {
            let mut e = "PyPI returned ".to_string();
            e.append(status.as_str());
            e.append(" for `");
            e.append(name);
            e.append("`");
            Err(e)
        },
        Response::Unreadable => {
            let mut e = "parsing PyPI JSON for `".to_string();
            e.append(name);
            e.append("`");
            Err(e)
        },
        Response::Document(meta) => Ok(meta),
    }
}

/// The name the engine gives one release is read as that release.
pub proof fn releases_are_asked_for_by_name(project: Seq<char>, version: Seq<char>)
    requires
        !project.contains('='),
    ensures
        query_of(crate::pypi::release_key(project, version)) == (QueryView {
            project,
            version: Some(version),
        }),
{
    reveal_strlit("==");
    let name = crate::pypi::release_key(project, version);
    lemma_found_after(project, version);
    assert(name =~= project + "=="@ + version);
    assert(name.take(project.len() as int) =~= project);
    assert(name.skip(project.len() as int + 2) =~= version);
}

proof fn lemma_found_after(project: Seq<char>, version: Seq<char>)
    requires
        !project.contains('='),
    ensures
        text::find_spec(project + "=="@ + version, "=="@) == Some(project.len() as int),
    decreases project.len(),
{
    reveal_strlit("==");
    let s = project + "=="@ + version;
    if project.len() == 0 {
        assert(s.take(2) =~= "=="@);
    } else {
        let rest = project.drop_first();
        assert(project.contains(project[0]));
        assert forall|c: char| rest.contains(c) implies project.contains(c) by {
            let k = choose|k: int| 0 <= k < rest.len() && rest[k] == c;
            assert(project[k + 1] == c);
        }
        lemma_found_after(rest, version);
        assert(s.drop_first() =~= rest + "=="@ + version);
        assert(s[0] != '=');
        assert("=="@[0] == '=');
        assert(!text::starts(s, "=="@)) by {
            if text::starts(s, "=="@) {
                assert(s.take(2)[0] == s[0]);
            }
        }
    }
}

/// A bare name asks for the latest document of its project, at the index's address for it,
/// and one with a version for that release's.
pub proof fn documents_are_asked_for_at_their_address(project: Seq<char>, version: Seq<char>)
    requires
        !project.contains('='),
    ensures
        url_of(query_of(project)) == "https://pypi.org/pypi"@ + "/"@ + project + "/json"@,
        url_of(query_of(project + "=="@ + version)) == "https://pypi.org/pypi"@ + "/"@ + project
            + "/"@ + version + "/json"@,
{
    reveal_strlit("==");
    text::lemma_not_found(project, "=="@);
    let name = project + "=="@ + version;
    lemma_found_after(project, version);
    assert(name.take(project.len() as int) =~= project);
    assert(name.skip(project.len() as int + 2) =~= version);
}

/// Only a document that could be read is an answer.
pub proof fn only_documents_are_answers(name: Seq<char>, response: Response)
    ensures
        fetched(name, response) is Ok <==> response is Document,
{
}

} // verus!
