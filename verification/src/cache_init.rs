//! Building the cache from the loaded asset files.
//!
//! The caller enumerates the regular files under the asset root and reads
//! each one; this module does everything after that: it derives the
//! normalized key of every file, classifies it by MIME type, compresses the
//! eligible payloads, and fills the two tables of the `Cache`, keeping
//! their key sets disjoint.

use vstd::prelude::*;
use vstd::string::StrSliceExecFns;

use crate::cache::{Cache, FileInfo, FileInfoView, table_contents, table_get, table_insert, table_new};
use crate::compression::{brotli_of, compress_if_needed, spec_should_compress, unbrotli_of};
use crate::startup_log::FileLoadStats;

verus! {

/// Relies on std's String::push: it appends the character.
pub assume_specification[ String::push ](s: &mut String, c: char)
    ensures
        final(s)@ == old(s)@.push(c),
;

/// The MIME type that the extension-based guesser assigns to a path,
/// `application/octet-stream` when the extension is unknown.
pub uninterp spec fn mime_of(path: Seq<char>) -> Seq<char>;

/// Relies on mime_guess::from_path and first_or_octet_stream: the MIME
/// type is a function of the path alone (a lookup of its extension in a
/// fixed table), defaulting to application/octet-stream.
#[verifier::external_body]
fn guess_mime(path: &str) -> (r: String)
    ensures
        r@ == mime_of(path@),
{
    mime_guess::from_path(path).first_or_octet_stream().to_string()
}

/// One enumerated asset: the path the caller found it under, and its bytes.
pub struct LoadedFile {
    pub path: String,
    pub data: Vec<u8>,
}

/// The path pair a `LoadedFile` contributes to the build: its characters
/// and its bytes.
pub open spec fn file_views(files: Seq<LoadedFile>) -> Seq<(Seq<char>, Seq<u8>)> {
    files.map_values(|f: LoadedFile| (f.path@, f.data@))
}

/// Key normalization of one character: the native separator becomes the
/// canonical one.
pub open spec fn normalize_char(c: char) -> char {
    if c == '\\' {
        '/'
    } else {
        c
    }
}

/// The cache key of a path: everything after the root prefix, with every
/// backslash replaced by a forward slash.
pub open spec fn spec_key(path: Seq<char>, root_len: int) -> Seq<char> {
    path.skip(root_len).map_values(|c: char| normalize_char(c))
}

/// No key ever contains a backslash, whatever separator the host
/// filesystem uses.
pub proof fn lemma_key_no_backslash(path: Seq<char>, root_len: int)
    ensures
        forall|j: int|
            0 <= j < spec_key(path, root_len).len() ==> spec_key(path, root_len)[j] != '\\',
{
}

/// Derives the cache key of a path found under the root directory:
/// the path with the first `root_len` characters stripped, and the
/// native separator replaced by `/`.
pub fn generate_key(path: &str, root_len: usize) -> (key: String)
    requires
        root_len <= path@.len(),
    ensures
        key@ == spec_key(path@, root_len as int),
        forall|j: int| 0 <= j < key@.len() ==> key@[j] != '\\',
{
    let n = path.unicode_len();
    let mut key = String::new();
    let mut i: usize = root_len;
    while i < n
        invariant
            n == path@.len(),
            root_len <= i <= n,
            key@ == path@.subrange(root_len as int, i as int).map_values(
                |c: char| normalize_char(c),
            ),
        decreases n - i,
    {
        let c = path.get_char(i);
        if c == '\\' {
            key.push('/');
        } else {
            key.push(c);
        }
        proof {
            assert(path@.subrange(root_len as int, i + 1) =~= path@.subrange(
                root_len as int,
                i as int,
            ).push(path@[i as int]));
            assert(path@.subrange(root_len as int, i + 1).map_values(
                |c: char| normalize_char(c),
            ) =~= path@.subrange(root_len as int, i as int).map_values(
                |c: char| normalize_char(c),
            ).push(normalize_char(path@[i as int])));
        }
        i = i + 1;
    }
    proof {
        assert(path@.subrange(root_len as int, n as int) =~= path@.skip(root_len as int));
        lemma_key_no_backslash(path@, root_len as int);
    }
    key
}

/// Whether a character separates path components on some supported host.
pub open spec fn is_separator(c: char) -> bool {
    c == '/' || c == '\\'
}

/// The last component of a path: everything after its final separator.
pub open spec fn spec_file_name(path: Seq<char>) -> Seq<char>
    decreases path.len(),
{
    if path.len() == 0 {
        Seq::empty()
    } else if is_separator(path.last()) {
        Seq::empty()
    } else {
        spec_file_name(path.drop_last()).push(path.last())
    }
}

/// Extracts the last component of a path, for the load report.
pub fn file_name(path: &str) -> (name: String)
    ensures
        name@ == spec_file_name(path@),
{
    let n = path.unicode_len();
    let mut name = String::new();
    let mut i: usize = 0;
    while i < n
        invariant
            n == path@.len(),
            0 <= i <= n,
            name@ == spec_file_name(path@.take(i as int)),
        decreases n - i,
    {
        let c = path.get_char(i);
        if c == '/' || c == '\\' {
            name = String::new();
        } else {
            name.push(c);
        }
        proof {
            assert(path@.take(i + 1).drop_last() =~= path@.take(i as int));
            assert(path@.take(i + 1).last() == path@[i as int]);
        }
        i = i + 1;
    }
    proof {
        assert(path@.take(n as int) =~= path@);
    }
    name
}

/// The record stored for a file: its MIME type, and its bytes compressed
/// exactly when the policy calls for that MIME type.
pub open spec fn spec_record(path: Seq<char>, data: Seq<u8>) -> FileInfoView {
    FileInfoView {
        content_type: mime_of(path),
        data: if spec_should_compress(mime_of(path)) {
            brotli_of(data)
        } else {
            data
        },
    }
}

/// The two tables that loading the given files builds, in order: the
/// compressed table and the plain table. Each file's record goes to the
/// table its MIME type selects; a file whose key already sits in the
/// other table is skipped, so the key sets stay disjoint; within one
/// table a later file overwrites an earlier one with the same key.
pub open spec fn spec_build(files: Seq<(Seq<char>, Seq<u8>)>, root_len: int) -> (
    Map<Seq<char>, FileInfoView>,
    Map<Seq<char>, FileInfoView>,
)
    decreases files.len(),
{
    if files.len() == 0 {
        (Map::empty(), Map::empty())
    } else {
        let prev = spec_build(files.drop_last(), root_len);
        let path = files.last().0;
        let data = files.last().1;
        let key = spec_key(path, root_len);
        if spec_should_compress(mime_of(path)) {
            if prev.1.contains_key(key) {
                prev
            } else {
                (prev.0.insert(key, spec_record(path, data)), prev.1)
            }
        } else {
            if prev.0.contains_key(key) {
                prev
            } else {
                (prev.0, prev.1.insert(key, spec_record(path, data)))
            }
        }
    }
}

/// The two tables a build produces never share a key: a file is stored
/// compressed or plain, never both.
pub proof fn lemma_build_disjoint(files: Seq<(Seq<char>, Seq<u8>)>, root_len: int)
    ensures
        spec_build(files, root_len).0.dom().disjoint(spec_build(files, root_len).1.dom()),
    decreases files.len(),
{
    if files.len() > 0 {
        lemma_build_disjoint(files.drop_last(), root_len);
    }
}

/// Every entry of the plain table comes from a source file: the entry's
/// key is the file's, the file's MIME type is not compressible, and the
/// payload is byte-identical to the file's bytes.
pub proof fn lemma_plain_from_source(files: Seq<(Seq<char>, Seq<u8>)>, root_len: int, key: Seq<char>)
    requires
        spec_build(files, root_len).1.contains_key(key),
    ensures
        exists|i: int|
            #![trigger files[i]]
            0 <= i < files.len() && spec_key(files[i].0, root_len) == key
                && !spec_should_compress(mime_of(files[i].0)) && spec_build(files, root_len).1[key]
                == spec_record(files[i].0, files[i].1) && spec_build(files, root_len).1[key].data
                == files[i].1,
    decreases files.len(),
{
    let built = spec_build(files, root_len);
    let prev = spec_build(files.drop_last(), root_len);
    let path = files.last().0;
    let k = spec_key(path, root_len);
    let last = files.len() - 1;
    if !spec_should_compress(mime_of(path)) && !prev.0.contains_key(k) && k == key {
        assert(files[last] == files.last());
        assert(0 <= last < files.len() && spec_key(files[last].0, root_len) == key
            && !spec_should_compress(mime_of(files[last].0)) && built.1[key] == spec_record(
            files[last].0,
            files[last].1,
        ) && built.1[key].data == files[last].1);
    } else {
        lemma_plain_from_source(files.drop_last(), root_len, key);
        let i = choose|i: int|
            #![trigger files.drop_last()[i]]
            0 <= i < files.drop_last().len() && spec_key(files.drop_last()[i].0, root_len) == key
                && !spec_should_compress(mime_of(files.drop_last()[i].0)) && prev.1[key]
                == spec_record(files.drop_last()[i].0, files.drop_last()[i].1) && prev.1[key].data
                == files.drop_last()[i].1;
        assert(files.drop_last()[i] == files[i]);
        assert(0 <= i < files.len() && spec_key(files[i].0, root_len) == key
            && !spec_should_compress(mime_of(files[i].0)) && built.1[key] == spec_record(
            files[i].0,
            files[i].1,
        ) && built.1[key].data == files[i].1);
    }
}

/// Every entry of the compressed table comes from a source file: the
/// entry's key is the file's, the file's MIME type is compressible, and
/// the payload is the brotli encoding of the file's bytes.
pub proof fn lemma_compressed_from_source(
    files: Seq<(Seq<char>, Seq<u8>)>,
    root_len: int,
    key: Seq<char>,
)
    requires
        spec_build(files, root_len).0.contains_key(key),
    ensures
        exists|i: int|
            #![trigger files[i]]
            0 <= i < files.len() && spec_key(files[i].0, root_len) == key && spec_should_compress(
                mime_of(files[i].0),
            ) && spec_build(files, root_len).0[key] == spec_record(files[i].0, files[i].1)
                && spec_build(files, root_len).0[key].data == brotli_of(files[i].1),
    decreases files.len(),
{
    let built = spec_build(files, root_len);
    let prev = spec_build(files.drop_last(), root_len);
    let path = files.last().0;
    let k = spec_key(path, root_len);
    let last = files.len() - 1;
    if spec_should_compress(mime_of(path)) && !prev.1.contains_key(k) && k == key {
        assert(files[last] == files.last());
        assert(0 <= last < files.len() && spec_key(files[last].0, root_len) == key
            && spec_should_compress(mime_of(files[last].0)) && built.0[key] == spec_record(
            files[last].0,
            files[last].1,
        ) && built.0[key].data == brotli_of(files[last].1));
    } else {
        lemma_compressed_from_source(files.drop_last(), root_len, key);
        let i = choose|i: int|
            #![trigger files.drop_last()[i]]
            0 <= i < files.drop_last().len() && spec_key(files.drop_last()[i].0, root_len) == key
                && spec_should_compress(mime_of(files.drop_last()[i].0)) && prev.0[key]
                == spec_record(files.drop_last()[i].0, files.drop_last()[i].1) && prev.0[key].data
                == brotli_of(files.drop_last()[i].1);
        assert(files.drop_last()[i] == files[i]);
        assert(0 <= i < files.len() && spec_key(files[i].0, root_len) == key
            && spec_should_compress(mime_of(files[i].0)) && built.0[key] == spec_record(
            files[i].0,
            files[i].1,
        ) && built.0[key].data == brotli_of(files[i].1));
    }
}

/// Every compressed payload decompresses to a byte-identical copy of its
/// source file, given the encoder's round trip on the build's inputs
/// (which `Cache::new` establishes for every file it processed).
pub proof fn lemma_compressed_round_trip(
    files: Seq<(Seq<char>, Seq<u8>)>,
    root_len: int,
    key: Seq<char>,
)
    requires
        spec_build(files, root_len).0.contains_key(key),
        forall|i: int|
            0 <= i < files.len() ==> unbrotli_of(#[trigger] brotli_of(files[i].1)) == Some(
                files[i].1,
            ),
    ensures
        exists|i: int|
            #![trigger files[i]]
            0 <= i < files.len() && spec_key(files[i].0, root_len) == key && unbrotli_of(
                spec_build(files, root_len).0[key].data,
            ) == Some(files[i].1),
{
    lemma_compressed_from_source(files, root_len, key);
    let built = spec_build(files, root_len);
    let i = choose|i: int|
        #![trigger files[i]]
        0 <= i < files.len() && spec_key(files[i].0, root_len) == key && spec_should_compress(
            mime_of(files[i].0),
        ) && built.0[key] == spec_record(files[i].0, files[i].1) && built.0[key].data == brotli_of(
            files[i].1,
        );
    assert(0 <= i < files.len() && spec_key(files[i].0, root_len) == key && unbrotli_of(
        built.0[key].data,
    ) == Some(files[i].1));
}

/// Loading no files at all leaves every lookup unanswered: each table is
/// empty, so any `get` resolves to not-found.
pub proof fn lemma_empty_root_not_found(
    files: Seq<(Seq<char>, Seq<u8>)>,
    root_len: int,
    cache: Cache,
    key: Seq<char>,
)
    requires
        files.len() == 0,
        cache.compressed() == spec_build(files, root_len).0,
        cache.plain() == spec_build(files, root_len).1,
    ensures
        cache.spec_get(key) is None,
{
}

/// Processes one loaded file: derives its key, guesses its MIME type,
/// compresses the payload when the policy calls for it, and reports the
/// sizes.
pub fn process_file(file: &LoadedFile, root_len: usize) -> (r: (String, FileInfo, FileLoadStats))
    requires
        root_len <= file.path@.len(),
    ensures
        r.0@ == spec_key(file.path@, root_len as int),
        r.1@ == spec_record(file.path@, file.data@),
        r.2.name@ == spec_file_name(file.path@),
        r.2.original_size == file.data@.len(),
        r.2.final_size == r.1@.data.len(),
        r.2.is_compressed == spec_should_compress(mime_of(file.path@)),
        spec_should_compress(mime_of(file.path@)) ==> unbrotli_of(brotli_of(file.data@)) == Some(
            file.data@,
        ),
{
    let mime_type = guess_mime(file.path.as_str());
    let compressed = compress_if_needed(file.data.as_slice(), mime_type.as_str());
    let key = generate_key(file.path.as_str(), root_len);
    let name = file_name(file.path.as_str());
    let original_size = file.data.len();
    let final_size = compressed.data.len();
    let is_compressed = compressed.is_compressed;
    let file_info = FileInfo { content_type: mime_type, data: compressed.data };
    let stat = FileLoadStats { name, original_size, final_size, is_compressed };
    (key, file_info, stat)
}

impl Cache {
    /// Builds the cache from the files the caller enumerated and read
    /// under the asset root, whose path is `root_len` characters long.
    /// The tables are exactly the build model's, their key sets are
    /// disjoint, and one statistic is reported per file, in order.
    pub fn new(files: Vec<LoadedFile>, root_len: usize) -> (r: (Cache, Vec<FileLoadStats>))
        requires
            forall|i: int| 0 <= i < files@.len() ==> root_len <= files@[i].path@.len(),
        ensures
            r.0.compressed() == spec_build(file_views(files@), root_len as int).0,
            r.0.plain() == spec_build(file_views(files@), root_len as int).1,
            r.0.wf(),
            r.1@.len() == files@.len(),
            forall|i: int|
                0 <= i < files@.len() ==> #[trigger] r.1@[i].name@ == spec_file_name(
                    files@[i].path@,
                ),
            forall|i: int|
                0 <= i < files@.len() ==> #[trigger] r.1@[i].original_size == files@[i].data@.len(),
            forall|i: int|
                0 <= i < files@.len() ==> #[trigger] r.1@[i].is_compressed == spec_should_compress(
                    mime_of(files@[i].path@),
                ),
            forall|i: int|
                0 <= i < files@.len() ==> #[trigger] r.1@[i].final_size as int == spec_record(
                    files@[i].path@,
                    files@[i].data@,
                ).data.len(),
            forall|i: int|
                0 <= i < files@.len() && spec_should_compress(mime_of(files@[i].path@))
                    ==> unbrotli_of(#[trigger] brotli_of(files@[i].data@)) == Some(files@[i].data@),
    {
        let mut compressed_files = table_new();
        let mut plain_files = table_new();
        let mut stats: Vec<FileLoadStats> = Vec::new();
        let n = files.len();
        let mut idx: usize = 0;
        proof {
            assert(file_views(files@).take(0) =~= Seq::<(Seq<char>, Seq<u8>)>::empty());
            assert(table_contents(compressed_files) =~= spec_build(
                file_views(files@).take(0),
                root_len as int,
            ).0);
            assert(table_contents(plain_files) =~= spec_build(
                file_views(files@).take(0),
                root_len as int,
            ).1);
        }
        while idx < n
            invariant
                n == files@.len(),
                0 <= idx <= n,
                forall|i: int| 0 <= i < files@.len() ==> root_len <= files@[i].path@.len(),
                table_contents(compressed_files) == spec_build(
                    file_views(files@).take(idx as int),
                    root_len as int,
                ).0,
                table_contents(plain_files) == spec_build(
                    file_views(files@).take(idx as int),
                    root_len as int,
                ).1,
                stats@.len() == idx,
                forall|i: int|
                    0 <= i < idx ==> #[trigger] stats@[i].name@ == spec_file_name(files@[i].path@),
                forall|i: int|
                    0 <= i < idx ==> #[trigger] stats@[i].original_size == files@[i].data@.len(),
                forall|i: int|
                    0 <= i < idx ==> #[trigger] stats@[i].is_compressed == spec_should_compress(
                        mime_of(files@[i].path@),
                    ),
                forall|i: int|
                    0 <= i < idx ==> #[trigger] stats@[i].final_size as int == spec_record(
                        files@[i].path@,
                        files@[i].data@,
                    ).data.len(),
                forall|i: int|
                    0 <= i < idx && spec_should_compress(mime_of(files@[i].path@)) ==> unbrotli_of(
                        #[trigger] brotli_of(files@[i].data@),
                    ) == Some(files@[i].data@),
            decreases n - idx,
        {
            let file = &files[idx];
            let (key, file_info, stat) = process_file(file, root_len);
            proof {
                assert(file_views(files@).take(idx + 1).drop_last() =~= file_views(files@).take(
                    idx as int,
                ));
                assert(file_views(files@).take(idx + 1).last() == (
                    files@[idx as int].path@,
                    files@[idx as int].data@,
                ));
            }
            if stat.is_compressed {
                if table_get(&plain_files, key.as_str()).is_none() {
                    table_insert(&mut compressed_files, key, file_info);
                }
            } else {
                if table_get(&compressed_files, key.as_str()).is_none() {
                    table_insert(&mut plain_files, key, file_info);
                }
            }
            stats.push(stat);
            idx = idx + 1;
        }
        proof {
            assert(file_views(files@).take(n as int) =~= file_views(files@));
            lemma_build_disjoint(file_views(files@), root_len as int);
        }
        (Cache::from_tables(compressed_files, plain_files), stats)
    }
}

} // verus!
