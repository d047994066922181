//! Reconstruction: the download addresses of a file's chunks, in catalog order.

use vstd::prelude::*;
use vstd::string::StringExecFns;
use crate::ingest::{ChunkRecord, in_chunk_order};
use crate::split::{Chunk, is_split_of, lemma_split_shape, payloads_of};

verus! {

/// Why a file cannot be reconstructed from its catalog rows.
#[derive(Debug, Clone, Copy, PartialEq, Eq, Structural)]
pub enum ExportError {
    /// The rows are not the indices `0..k` in ascending order.
    CorruptCatalog,
}

/// The address at which the rewriting proxy serves the chunk stored at `url`.
pub open spec fn proxied(base: Seq<char>, url: Seq<char>) -> Seq<char> {
    base + seq!['/', '?'] + url
}

/// Rewrites a stored chunk URL into its address behind the proxy:
/// `proxy_base + "/?" + url`.
pub fn proxied_url(proxy_base: &str, url: &str) -> (r: String)
    ensures
        r@ == proxied(proxy_base@, url@),
{
    let mut s = String::from_str(proxy_base);
    proof {
        reveal_strlit("/?");
    }
    s.append("/?");
    s.append(url);
    s
}

/// The download addresses of a file's chunks, in the order in which their
/// bytes are to be written out. The rows must be the indices `0..k` in
/// ascending order, as the catalog keeps them; any gap, repetition or
/// disorder is refused, since it would yield a corrupt file.
pub fn download_urls(proxy_base: &str, rows: &Vec<ChunkRecord>) -> (r: Result<Vec<String>, ExportError>)
    ensures
        r is Ok <==> in_chunk_order(rows@),
        r is Ok ==> r->Ok_0@.len() == rows@.len() && forall|i: int|
            0 <= i < rows@.len() ==> (#[trigger] r->Ok_0@[i])@ == proxied(proxy_base@, rows@[i].url@),
{
    let mut urls: Vec<String> = Vec::new();
    let mut i: usize = 0;
    while i < rows.len()
        invariant
            i <= rows@.len(),
            urls@.len() == i,
            forall|k: int| 0 <= k < i ==> (#[trigger] rows@[k]).index == k,
            forall|k: int| 0 <= k < i ==> (#[trigger] urls@[k])@ == proxied(proxy_base@, rows@[k].url@),
        decreases rows@.len() - i,
    {
        if rows[i].index != i {
            return Err(ExportError::CorruptCatalog);
        }
        urls.push(proxied_url(proxy_base, rows[i].url.as_str()));
        i = i + 1;
    }
    Ok(urls)
}

/// Whether an output destination names the standard output stream (`"-"`)
/// rather than a file.
pub fn is_stdout_sentinel(out: &str) -> (r: bool)
    ensures
        r == (out@ == seq!['-']),
{
    let given = String::from_str(out);
    let dash = String::from_str("-");
    proof {
        reveal_strlit("-");
        assert(dash@ =~= seq!['-']);
    }
    given == dash
}

/// Round trip: when a file's bytes are split with chunk size `s`, catalogued
/// as rows in chunk order, and each row's download gives back the payload
/// uploaded under its index, writing the downloads out in catalog order
/// reproduces the file byte for byte.
pub proof fn lemma_round_trip(
    data: Seq<u8>,
    s: int,
    chunks: Seq<Chunk>,
    rows: Seq<ChunkRecord>,
    fetched: Seq<Seq<u8>>,
)
    requires
        s > 0,
        is_split_of(chunks, data, s),
        rows.len() == chunks.len(),
        in_chunk_order(rows),
        fetched.len() == rows.len(),
        forall|i: int| 0 <= i < rows.len() ==> #[trigger] fetched[i] == chunks[rows[i].index as int].payload@,
    ensures
        fetched.flatten() == data,
{
    assert(fetched =~= payloads_of(chunks));
    lemma_split_shape(chunks, data, s);
}

} // verus!
