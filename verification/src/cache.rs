//! The frozen two-table lookup structure and its request-time resolution.
//!
//! A `Cache` maps normalized path keys to asset records, in two disjoint
//! tables: one for precompressed payloads, one for payloads stored as read.
//! After construction nothing mutates the tables; `get` resolves a request
//! path with single-page-application fallback semantics.

use vstd::prelude::*;
use ahash::AHashMap;

verus! {

/// One cached asset: its MIME type and the bytes to serve (already
/// compressed when the record lives in the compressed table).
pub struct FileInfo {
    pub content_type: String,
    pub data: Vec<u8>,
}

/// The mathematical content of a `FileInfo`.
pub struct FileInfoView {
    pub content_type: Seq<char>,
    pub data: Seq<u8>,
}

impl View for FileInfo {
    type V = FileInfoView;

    open spec fn view(&self) -> FileInfoView {
        FileInfoView { content_type: self.content_type@, data: self.data@ }
    }
}

#[verifier::external_type_specification]
#[verifier::external_body]
#[verifier::reject_recursive_types(K)]
#[verifier::reject_recursive_types(V)]
#[verifier::reject_recursive_types(S)]
pub struct ExAHashMap<K, V, S>(AHashMap<K, V, S>);

#[verifier::external_type_specification]
#[verifier::external_body]
pub struct ExRandomState(ahash::RandomState);

/// The entries a table holds, keyed by the key strings' characters.
pub uninterp spec fn table_contents(m: AHashMap<String, FileInfo>) -> Map<Seq<char>, FileInfoView>;

/// Relies on ahash::AHashMap::new: a newly created map has no entries.
#[verifier::external_body]
pub(crate) fn table_new() -> (r: AHashMap<String, FileInfo>)
    ensures
        table_contents(r).dom() == Set::<Seq<char>>::empty(),
{
    AHashMap::new()
}

/// Relies on ahash::AHashMap::insert (std HashMap semantics): the map now
/// holds the value under the key, and every other entry is unchanged.
#[verifier::external_body]
pub(crate) fn table_insert(m: &mut AHashMap<String, FileInfo>, key: String, value: FileInfo)
    ensures
        table_contents(*final(m)) == table_contents(*old(m)).insert(key@, value@),
{
    m.insert(key, value);
}

/// Relies on ahash::AHashMap::get (std HashMap semantics): exact-key
/// lookup, returning the entry stored under a key equal to the argument.
#[verifier::external_body]
pub(crate) fn table_get<'a>(m: &'a AHashMap<String, FileInfo>, key: &str) -> (r: Option<
    &'a FileInfo,
>)
    ensures
        match r {
            Some(info) => table_contents(*m).contains_key(key@) && info@ == table_contents(
                *m,
            )[key@],
            None => !table_contents(*m).contains_key(key@),
        },
{
    m.get(key)
}

/// The key served for any path that matches nothing else: the single-page
/// application's HTML shell.
pub open spec fn spec_fallback_key() -> Seq<char> {
    "/index.html"@
}

/// The frozen lookup structure: two tables with disjoint key sets. It is
/// built once, before serving begins, and only ever read afterwards:
/// `get` takes a shared borrow and no method mutates a finished cache, so
/// any number of concurrent readers see the same frozen records.
pub struct Cache {
    pub(crate) compressed_files: AHashMap<String, FileInfo>,
    pub(crate) files: AHashMap<String, FileInfo>,
}

impl Cache {
    /// The compressed table's entries.
    pub closed spec fn compressed(&self) -> Map<Seq<char>, FileInfoView> {
        table_contents(self.compressed_files)
    }

    /// The plain table's entries.
    pub closed spec fn plain(&self) -> Map<Seq<char>, FileInfoView> {
        table_contents(self.files)
    }

    /// A well-formed cache stores each key in at most one of the tables:
    /// an asset is compressed or kept as read, never both.
    pub open spec fn wf(&self) -> bool {
        self.compressed().dom().disjoint(self.plain().dom())
    }

    /// What `get` resolves a key to: the compressed table first, then the
    /// plain table, then the compressed fallback document, else nothing.
    pub open spec fn spec_get(&self, key: Seq<char>) -> Option<(FileInfoView, bool)> {
        if self.compressed().contains_key(key) {
            Some((self.compressed()[key], true))
        } else if self.plain().contains_key(key) {
            Some((self.plain()[key], false))
        } else if self.compressed().contains_key(spec_fallback_key()) {
            Some((self.compressed()[spec_fallback_key()], true))
        } else {
            None
        }
    }

    /// Assembles a cache from its two finished tables.
    pub(crate) fn from_tables(
        compressed_files: AHashMap<String, FileInfo>,
        files: AHashMap<String, FileInfo>,
    ) -> (r: Cache)
        ensures
            r.compressed() == table_contents(compressed_files),
            r.plain() == table_contents(files),
    {
        Cache { compressed_files, files }
    }

    /// Resolves a request path: an exact match in the compressed table
    /// wins, then an exact match in the plain table, then the fallback
    /// document from the compressed table; the flag says whether the
    /// returned payload is compressed. No I/O and no mutation.
    pub fn get<'a>(&'a self, key: &str) -> (r: Option<(&'a FileInfo, bool)>)
        ensures
            match r {
                Some((info, is_compressed)) => self.spec_get(key@) == Some(
                    (info@, is_compressed),
                ),
                None => self.spec_get(key@) is None,
            },
    {
        if let Some(file_info) = table_get(&self.compressed_files, key) {
            return Some((file_info, true));
        }
        if let Some(file_info) = table_get(&self.files, key) {
            return Some((file_info, false));
        }
        match table_get(&self.compressed_files, "/index.html") {
            Some(file_info) => Some((file_info, true)),
            None => None,
        }
    }
}

/// A key present in the plain table of a well-formed cache resolves to
/// its own record, marked uncompressed: the payload served is
/// byte-identical to the stored bytes.
pub proof fn lemma_get_plain(cache: Cache, key: Seq<char>)
    requires
        cache.wf(),
        cache.plain().contains_key(key),
    ensures
        cache.spec_get(key) == Some((cache.plain()[key], false)),
{
    assert(!cache.compressed().contains_key(key));
}

/// A key present in the compressed table resolves to its own record,
/// marked compressed.
pub proof fn lemma_get_compressed(cache: Cache, key: Seq<char>)
    requires
        cache.compressed().contains_key(key),
    ensures
        cache.spec_get(key) == Some((cache.compressed()[key], true)),
{
}

/// A key present in neither table resolves exactly as the fallback key
/// does when that key sits in the compressed table, and to not-found
/// otherwise.
pub proof fn lemma_spa_fallback(cache: Cache, key: Seq<char>)
    requires
        !cache.compressed().contains_key(key),
        !cache.plain().contains_key(key),
    ensures
        cache.compressed().contains_key(spec_fallback_key()) ==> cache.spec_get(key)
            == cache.spec_get(spec_fallback_key()),
        !cache.compressed().contains_key(spec_fallback_key()) ==> cache.spec_get(key) is None,
{
}

} // verus!
