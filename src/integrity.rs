//! Content digests of chunk payloads, and the comparison of stored digests
//! against recomputed ones.

use vstd::prelude::*;
use crate::ingest::ChunkRecord;
use crate::split::Chunk;

verus! {

/// The SHA-256 digest of `data`.
pub uninterp spec fn sha256_of(data: Seq<u8>) -> Seq<u8>;

/// Relies on sha2's `Sha256` through `Digest::digest`: the result is the
/// 32-byte SHA-256 digest, which depends on the input bytes alone.
#[verifier::external_body]
fn sha256(data: &[u8]) -> (r: Vec<u8>)
    ensures
        r@ == sha256_of(data@),
        r@.len() == 32,
{
    <sha2::Sha256 as sha2::Digest>::digest(data).to_vec()
}

/// The lowercase hexadecimal digit for `v < 16`.
pub open spec fn hex_digit(v: int) -> char {
    seq!['0', '1', '2', '3', '4', '5', '6', '7', '8', '9', 'a', 'b', 'c', 'd', 'e', 'f'][v]
}

/// Lowercase hexadecimal text of `bytes`: two digits per byte, high nibble first.
pub open spec fn hex_of(bytes: Seq<u8>) -> Seq<char> {
    Seq::new(
        2 * bytes.len(),
        |i: int|
            if i % 2 == 0 {
                hex_digit(bytes[i / 2] as int / 16)
            } else {
                hex_digit(bytes[i / 2] as int % 16)
            },
    )
}

/// Relies on `hex::encode`: each byte becomes two lowercase hexadecimal
/// digits, high nibble first, in the order of the bytes.
#[verifier::external_body]
fn to_hex(bytes: &[u8]) -> (r: String)
    ensures
        r@ == hex_of(bytes@),
{
    hex::encode(bytes)
}

/// The digest stored for a chunk payload: its SHA-256, hex-encoded.
pub open spec fn digest_of(payload: Seq<u8>) -> Seq<char> {
    hex_of(sha256_of(payload))
}

/// Computes the stored form of a payload's digest.
pub fn chunk_digest(payload: &Vec<u8>) -> (r: String)
    ensures
        r@ == digest_of(payload@),
        r@.len() == 64,
{
    let d = sha256(payload.as_slice());
    to_hex(d.as_slice())
}

/// The digest of each chunk's payload, in the order of `chunks`, computed
/// before upload so that it can be catalogued with the chunk's locator.
pub fn chunk_digests(chunks: &Vec<Chunk>) -> (r: Vec<String>)
    ensures
        r@.len() == chunks@.len(),
        forall|i: int| 0 <= i < chunks@.len() ==> (#[trigger] r@[i])@ == digest_of(chunks@[i].payload@),
{
    let mut out: Vec<String> = Vec::new();
    let mut i: usize = 0;
    while i < chunks.len()
        invariant
            i <= chunks@.len(),
            out@.len() == i,
            forall|k: int| 0 <= k < i ==> (#[trigger] out@[k])@ == digest_of(chunks@[k].payload@),
        decreases chunks@.len() - i,
    {
        out.push(chunk_digest(&chunks[i].payload));
        i = i + 1;
    }
    out
}

/// Among the first `n` chunks, the indices of those whose stored digest
/// differs from the recomputed one, in order.
pub open spec fn mismatches(indices: Seq<usize>, stored: Seq<Seq<char>>, computed: Seq<Seq<char>>, n: nat) -> Seq<usize>
    decreases n,
{
    if n == 0 {
        seq![]
    } else {
        let k = n - 1;
        let earlier = mismatches(indices, stored, computed, k as nat);
        if stored[k] != computed[k] {
            earlier.push(indices[k])
        } else {
            earlier
        }
    }
}

proof fn lemma_mismatches_prefix(
    indices: Seq<usize>,
    stored: Seq<Seq<char>>,
    computed: Seq<Seq<char>>,
    j: int,
    n: nat,
)
    requires
        n <= indices.len(),
        stored.len() == indices.len(),
        computed.len() == indices.len(),
        0 <= j < indices.len(),
        stored[j] != computed[j],
        forall|i: int| 0 <= i < indices.len() && i != j ==> stored[i] == computed[i],
    ensures
        mismatches(indices, stored, computed, n) == (if j < n {
            seq![indices[j]]
        } else {
            Seq::<usize>::empty()
        }),
    decreases n,
{
    if n > 0 {
        lemma_mismatches_prefix(indices, stored, computed, j, (n - 1) as nat);
        if j == n - 1 {
            assert(Seq::<usize>::empty().push(indices[j]) =~= seq![indices[j]]);
        }
    }
}

/// A single disagreement is reported alone: when the stored and recomputed
/// digests agree for every chunk but the one at position `j`, the report names
/// exactly that chunk's index.
pub proof fn lemma_single_mismatch(indices: Seq<usize>, stored: Seq<Seq<char>>, computed: Seq<Seq<char>>, j: int)
    requires
        stored.len() == indices.len(),
        computed.len() == indices.len(),
        0 <= j < indices.len(),
        stored[j] != computed[j],
        forall|i: int| 0 <= i < indices.len() && i != j ==> stored[i] == computed[i],
    ensures
        mismatches(indices, stored, computed, indices.len()) == seq![indices[j]],
{
    lemma_mismatches_prefix(indices, stored, computed, j, indices.len());
}

/// Tampering with one stored digest: if every chunk of a file verified, and
/// the digest stored at position `j` is then replaced by a different one, the
/// verifier reports exactly the chunk at position `j`, and every other chunk
/// as matching.
pub proof fn lemma_tampered_digest(
    indices: Seq<usize>,
    stored: Seq<Seq<char>>,
    computed: Seq<Seq<char>>,
    j: int,
    forged: Seq<char>,
)
    requires
        stored.len() == indices.len(),
        computed.len() == indices.len(),
        mismatches(indices, stored, computed, indices.len()) == Seq::<usize>::empty(),
        0 <= j < indices.len(),
        forged != stored[j],
    ensures
        mismatches(indices, stored.update(j, forged), computed, indices.len()) == seq![indices[j]],
{
    lemma_no_mismatch_means_equal(indices, stored, computed, indices.len());
    lemma_single_mismatch(indices, stored.update(j, forged), computed, j);
}

/// Tampering with one payload: if every chunk of a file verified, and the
/// payload at position `j` is then changed into one with a different digest
/// (any change, barring a SHA-256 collision), the verifier reports exactly the
/// chunk at position `j`.
pub proof fn lemma_tampered_payload(
    indices: Seq<usize>,
    stored: Seq<Seq<char>>,
    payloads: Seq<Seq<u8>>,
    j: int,
    altered: Seq<u8>,
)
    requires
        stored.len() == indices.len(),
        payloads.len() == indices.len(),
        mismatches(indices, stored, payloads.map_values(|p: Seq<u8>| digest_of(p)), indices.len())
            == Seq::<usize>::empty(),
        0 <= j < indices.len(),
        digest_of(altered) != digest_of(payloads[j]),
    ensures
        mismatches(
            indices,
            stored,
            payloads.update(j, altered).map_values(|p: Seq<u8>| digest_of(p)),
            indices.len(),
        ) == seq![indices[j]],
{
    let before = payloads.map_values(|p: Seq<u8>| digest_of(p));
    let after = payloads.update(j, altered).map_values(|p: Seq<u8>| digest_of(p));
    lemma_no_mismatch_means_equal(indices, stored, before, indices.len());
    assert(after =~= before.update(j, digest_of(altered)));
    lemma_single_mismatch(indices, stored, after, j);
}

proof fn lemma_no_mismatch_means_equal(
    indices: Seq<usize>,
    stored: Seq<Seq<char>>,
    computed: Seq<Seq<char>>,
    n: nat,
)
    requires
        n <= indices.len(),
        stored.len() == indices.len(),
        computed.len() == indices.len(),
        mismatches(indices, stored, computed, n) == Seq::<usize>::empty(),
    ensures
        forall|i: int| 0 <= i < n ==> stored[i] == computed[i],
    decreases n,
{
    if n > 0 {
        let k = n - 1;
        if stored[k] != computed[k] {
            assert(mismatches(indices, stored, computed, n).len() > 0);
        }
        lemma_no_mismatch_means_equal(indices, stored, computed, k as nat);
    }
}

/// The text of each string.
pub open spec fn texts(v: Seq<String>) -> Seq<Seq<char>> {
    v.map_values(|s: String| s@)
}

/// Lists, in order, the index of every chunk whose stored digest differs from
/// its recomputed digest.
pub fn report_mismatches(indices: &Vec<usize>, stored: &Vec<String>, computed: &Vec<String>) -> (r: Vec<usize>)
    requires
        stored@.len() == indices@.len(),
        computed@.len() == indices@.len(),
    ensures
        r@ == mismatches(indices@, texts(stored@), texts(computed@), indices@.len()),
{
    let mut out: Vec<usize> = Vec::new();
    let mut i: usize = 0;
    while i < indices.len()
        invariant
            i <= indices@.len(),
            stored@.len() == indices@.len(),
            computed@.len() == indices@.len(),
            out@ == mismatches(indices@, texts(stored@), texts(computed@), i as nat),
        decreases indices@.len() - i,
    {
        if stored[i] != computed[i] {
            out.push(indices[i]);
        }
        i = i + 1;
    }
    out
}

/// Outcome of checking the chunks of one file.
pub struct VerifyReport {
    /// Indices of the chunks whose digest does not match, ascending in catalog order.
    pub mismatched: Vec<usize>,
    /// True when every chunk matched.
    pub all_match: bool,
}

/// Recomputes the digest of each payload and compares it with the digest
/// stored in the catalog row at the same position. Every chunk is checked;
/// a mismatch does not stop the scan.
pub fn verify_chunks(rows: &Vec<ChunkRecord>, payloads: &Vec<Vec<u8>>) -> (r: VerifyReport)
    requires
        rows@.len() == payloads@.len(),
    ensures
        r.mismatched@ == mismatches(
            rows@.map_values(|c: ChunkRecord| c.index),
            rows@.map_values(|c: ChunkRecord| c.digest@),
            payloads@.map_values(|p: Vec<u8>| digest_of(p@)),
            rows@.len(),
        ),
        r.all_match == (r.mismatched@.len() == 0),
{
    let mut indices: Vec<usize> = Vec::new();
    let mut stored: Vec<String> = Vec::new();
    let mut computed: Vec<String> = Vec::new();
    let mut i: usize = 0;
    while i < rows.len()
        invariant
            i <= rows@.len(),
            rows@.len() == payloads@.len(),
            indices@ == rows@.map_values(|c: ChunkRecord| c.index).take(i as int),
            texts(stored@) == rows@.map_values(|c: ChunkRecord| c.digest@).take(i as int),
            texts(computed@) == payloads@.map_values(|p: Vec<u8>| digest_of(p@)).take(i as int),
        decreases rows@.len() - i,
    {
        let ghost s0 = stored@;
        let ghost c0 = computed@;
        indices.push(rows[i].index);
        stored.push(rows[i].digest.clone());
        let d = chunk_digest(&payloads[i]);
        computed.push(d);
        assert(texts(stored@) =~= texts(s0).push(rows@[i as int].digest@));
        assert(texts(computed@) =~= texts(c0).push(digest_of(payloads@[i as int]@)));
        assert(indices@ =~= rows@.map_values(|c: ChunkRecord| c.index).take(i + 1));
        assert(texts(stored@) =~= rows@.map_values(|c: ChunkRecord| c.digest@).take(i + 1));
        assert(texts(computed@) =~= payloads@.map_values(|p: Vec<u8>| digest_of(p@)).take(i + 1));
        i = i + 1;
    }
    let mismatched = report_mismatches(&indices, &stored, &computed);
    proof {
        let n = rows@.len();
        assert(indices@ =~= rows@.map_values(|c: ChunkRecord| c.index));
        assert(texts(stored@) =~= rows@.map_values(|c: ChunkRecord| c.digest@));
        assert(texts(computed@) =~= payloads@.map_values(|p: Vec<u8>| digest_of(p@)));
    }
    let all_match = mismatched.len() == 0;
    VerifyReport { mismatched, all_match }
}

} // verus!
