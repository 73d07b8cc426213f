//! The compression policy and the brotli adapter.
//!
//! `should_compress` is the pure eligibility decision: a fixed allow-list of
//! text-like MIME types. `compress_if_needed` applies it, running the brotli
//! encoder at its highest quality on eligible payloads and keeping the bytes
//! unchanged otherwise.

use vstd::prelude::*;
use vstd::string::StrSliceExecFns;

verus! {

/// The bytes the brotli encoder produces, at its best quality setting, for
/// the given input. The encoding is a function of the input bytes alone.
pub uninterp spec fn brotli_of(data: Seq<u8>) -> Seq<u8>;

/// The bytes the brotli decoder recovers from the given stream: `Some` of
/// the original input for a well-formed stream, `None` otherwise.
pub uninterp spec fn unbrotli_of(data: Seq<u8>) -> Option<Seq<u8>>;

/// A payload ready for the cache: the bytes to serve, and whether they are
/// a brotli stream (so the server must announce the content encoding).
pub struct CompressedData {
    pub data: Vec<u8>,
    pub is_compressed: bool,
}

/// The fixed allow-list of MIME types worth precompressing: text-like
/// formats with high compression ratios. Binary and media formats are
/// excluded because compressing them wastes CPU for negligible benefit.
pub open spec fn spec_should_compress(mime_type: Seq<char>) -> bool {
    ||| mime_type == "text/html"@
    ||| mime_type == "text/css"@
    ||| mime_type == "application/javascript"@
    ||| mime_type == "application/json"@
    ||| mime_type == "image/svg+xml"@
}

/// Character-for-character equality of two string slices.
pub(crate) fn str_eq(a: &str, b: &str) -> (r: bool)
    ensures
        r == (a@ == b@),
{
    let a_len = a.unicode_len();
    let b_len = b.unicode_len();
    if a_len != b_len {
        return false;
    }
    let mut i: usize = 0;
    while i < a_len
        invariant
            a_len == a@.len(),
            b_len == b@.len(),
            a_len == b_len,
            0 <= i <= a_len,
            forall|j: int| 0 <= j < i ==> a@[j] == b@[j],
        decreases a_len - i,
    {
        if a.get_char(i) != b.get_char(i) {
            return false;
        }
        i = i + 1;
    }
    proof {
        assert(a@ =~= b@);
    }
    true
}

/// Decides whether an asset of the given MIME type is precompressed.
pub fn should_compress(mime_type: &str) -> (r: bool)
    ensures
        r == spec_should_compress(mime_type@),
{
    str_eq(mime_type, "text/html") || str_eq(mime_type, "text/css") || str_eq(
        mime_type,
        "application/javascript",
    ) || str_eq(mime_type, "application/json") || str_eq(mime_type, "image/svg+xml")
}

/// Relies on brotli's `CompressorWriter` at quality 11 (the encoder's best
/// setting): writing the input and closing the writer yields a fully
/// terminated brotli stream, determined by the input bytes alone, whose
/// decoding is the input again. Writes go to an in-memory buffer and
/// cannot fail.
#[verifier::external_body]
fn compress_brotli(data: &[u8]) -> (r: Vec<u8>)
    ensures
        r@ == brotli_of(data@),
        unbrotli_of(r@) == Some(data@),
{
    let mut enc = brotli::CompressorWriter::new(Vec::with_capacity(data.len()), 4096, 11, 22);
    std::io::Write::write_all(&mut enc, data).unwrap();
    enc.into_inner()
}

/// Compresses the payload when the policy calls for it, and keeps the bytes
/// unchanged otherwise.
pub fn compress_if_needed(data: &[u8], mime_type: &str) -> (r: CompressedData)
    ensures
        r.is_compressed == spec_should_compress(mime_type@),
        spec_should_compress(mime_type@) ==> r.data@ == brotli_of(data@) && unbrotli_of(r.data@)
            == Some(data@),
        !spec_should_compress(mime_type@) ==> r.data@ == data@,
{
    if should_compress(mime_type) {
        CompressedData { data: compress_brotli(data), is_compressed: true }
    } else {
        CompressedData { data: vstd::slice::slice_to_vec(data), is_compressed: false }
    }
}

} // verus!
