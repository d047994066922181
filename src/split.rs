//! Splitting a byte stream into fixed-size, ordered chunks, and joining them back.

use vstd::prelude::*;

verus! {

/// Chunk size used when the caller names none, in bytes.
pub const DEFAULT_CHUNK_SIZE: usize = 7000000;

/// One fragment of a file: its zero-based position and its bytes.
pub struct Chunk {
    pub index: usize,
    pub payload: Vec<u8>,
}

/// Why a byte stream could not be split.
#[derive(Debug, Clone, Copy, PartialEq, Eq, Structural)]
pub enum SplitError {
    /// The chunk size was zero.
    InvalidChunkSize,
}

/// Number of chunks of size `s` needed to cover `n` bytes: `ceil(n / s)`.
pub open spec fn chunk_count(n: int, s: int) -> int
    recommends
        s > 0,
{
    if n % s == 0 {
        n / s
    } else {
        n / s + 1
    }
}

/// First byte position past chunk `i` of `data`.
pub open spec fn chunk_end(len: int, s: int, i: int) -> int {
    if (i + 1) * s <= len {
        (i + 1) * s
    } else {
        len
    }
}

/// The bytes of chunk `i` when `data` is cut every `s` bytes.
pub open spec fn chunk_bytes(data: Seq<u8>, s: int, i: int) -> Seq<u8> {
    data.subrange(i * s, chunk_end(data.len() as int, s, i))
}

/// The payloads of `chunks`, in order.
pub open spec fn payloads_of(chunks: Seq<Chunk>) -> Seq<Seq<u8>> {
    chunks.map_values(|c: Chunk| c.payload@)
}

/// `chunks` is the split of `data` into pieces of `s` bytes: one chunk per
/// piece, indexed from zero without gaps, each holding its piece.
pub open spec fn is_split_of(chunks: Seq<Chunk>, data: Seq<u8>, s: int) -> bool {
    &&& chunks.len() == chunk_count(data.len() as int, s)
    &&& forall|i: int|
        0 <= i < chunks.len() ==> (#[trigger] chunks[i]).index == i && chunks[i].payload@
            == chunk_bytes(data, s, i)
}

proof fn lemma_chunk_count_bounds(n: int, s: int, k: int)
    requires
        n >= 0,
        s > 0,
        k >= 0,
    ensures
        k < chunk_count(n, s) <==> k * s < n,
        chunk_count(n, s) >= 0,
{
    assert(n == (n / s) * s + n % s) by (nonlinear_arith)
        requires s > 0;
    assert(0 <= n % s < s) by (nonlinear_arith)
        requires s > 0;
    if k < chunk_count(n, s) {
        if n % s == 0 {
            assert(k * s < n) by (nonlinear_arith)
                requires k < n / s, n == (n / s) * s, s > 0;
        } else {
            assert(k * s <= (n / s) * s) by (nonlinear_arith)
                requires k <= n / s, s > 0;
        }
    } else {
        if n % s == 0 {
            assert(k * s >= n) by (nonlinear_arith)
                requires k >= n / s, n == (n / s) * s, s > 0;
        } else {
            assert(k * s >= n) by (nonlinear_arith)
                requires k >= n / s + 1, n == (n / s) * s + n % s, n % s < s, s > 0;
        }
    }
    assert(n / s >= 0) by (nonlinear_arith)
        requires n >= 0, s > 0;
}

/// Cuts `data` into chunks of `chunk_size` bytes, the last one possibly shorter.
/// Fails exactly when `chunk_size` is zero.
pub fn split_into_chunks(data: &Vec<u8>, chunk_size: usize) -> (r: Result<Vec<Chunk>, SplitError>)
    ensures
        chunk_size == 0 <==> r is Err,
        r is Err ==> r == Err::<Vec<Chunk>, SplitError>(SplitError::InvalidChunkSize),
        r is Ok ==> is_split_of(r->Ok_0@, data@, chunk_size as int),
{
    if chunk_size == 0 {
        return Err(SplitError::InvalidChunkSize);
    }
    let len = data.len();
    let s = chunk_size;
    let mut chunks: Vec<Chunk> = Vec::new();
    let mut start: usize = 0;
    let mut index: usize = 0;
    while start < len
        invariant
            s > 0,
            len == data@.len(),
            start <= len,
            index <= len,
            start == (if index * s <= len { index * s } else { len as int }),
            index > 0 ==> (index - 1) * s < len,
            chunks@.len() == index,
            forall|i: int|
                0 <= i < index ==> (#[trigger] chunks@[i]).index == i && chunks@[i].payload@
                    == chunk_bytes(data@, s as int, i),
        decreases len - start,
    {
        let end: usize = if len - start >= s {
            start + s
        } else {
            len
        };
        assert(end == chunk_end(len as int, s as int, index as int)) by (nonlinear_arith)
            requires start == index * s, end == (if len - start >= s { start + s } else { len as int }),
        ;
        let payload = vstd::slice::slice_to_vec(&data.as_slice()[start..end]);
        chunks.push(Chunk { index, payload });
        proof {
            assert(start == index * s);
            assert((index + 1) * s == index * s + s) by (nonlinear_arith);
            assert(index <= index * s) by (nonlinear_arith)
                requires s > 0, index >= 0;
        }
        start = end;
        index = index + 1;
    }
    proof {
        lemma_chunk_count_bounds(len as int, s as int, index as int);
        if index > 0 {
            lemma_chunk_count_bounds(len as int, s as int, index - 1);
        }
    }
    Ok(chunks)
}

/// Position just past the first `k` chunks of a `len`-byte stream cut every `s` bytes.
pub open spec fn prefix_end(len: int, s: int, k: int) -> int {
    if k * s <= len {
        k * s
    } else {
        len
    }
}

proof fn lemma_split_prefix(chunks: Seq<Chunk>, data: Seq<u8>, s: int, k: int)
    requires
        s > 0,
        is_split_of(chunks, data, s),
        0 <= k <= chunks.len(),
    ensures
        payloads_of(chunks.take(k)).flatten() == data.subrange(0, prefix_end(data.len() as int, s, k)),
    decreases k,
{
    let n = data.len() as int;
    lemma_chunk_count_bounds(n, s, 0);
    if k == 0 {
        assert(payloads_of(chunks.take(0)) =~= Seq::<Seq<u8>>::empty());
        assert(data.subrange(0, 0) =~= Seq::<u8>::empty());
    } else {
        lemma_split_prefix(chunks, data, s, k - 1);
        lemma_chunk_count_bounds(n, s, k - 1);
        let before = payloads_of(chunks.take(k - 1));
        assert(payloads_of(chunks.take(k)) =~= before.push(chunks[k - 1].payload@));
        before.lemma_flatten_push(chunks[k - 1].payload@);
        assert((k - 1) * s + s == k * s) by (nonlinear_arith);
        assert(prefix_end(n, s, k - 1) == (k - 1) * s);
        assert(data.subrange(0, prefix_end(n, s, k)) =~= data.subrange(0, (k - 1) * s)
            + chunk_bytes(data, s, k - 1));
    }
}

/// Splitting law: with `s > 0`, a split of `n` bytes has `ceil(n / s)` chunks
/// indexed `0..ceil(n / s)`, every chunk but the last holds exactly `s` bytes,
/// the last holds `n mod s` bytes (or `s` when `s` divides `n`), and the
/// payloads concatenated in index order give back the original bytes.
pub proof fn lemma_split_shape(chunks: Seq<Chunk>, data: Seq<u8>, s: int)
    requires
        s > 0,
        is_split_of(chunks, data, s),
    ensures
        chunks.len() == chunk_count(data.len() as int, s),
        forall|i: int| 0 <= i < chunks.len() ==> (#[trigger] chunks[i]).index == i,
        forall|i: int| 0 <= i < chunks.len() - 1 ==> (#[trigger] chunks[i]).payload@.len() == s,
        chunks.len() > 0 ==> chunks.last().payload@.len() == (if data.len() as int % s == 0 {
            s
        } else {
            data.len() as int % s
        }),
        payloads_of(chunks).flatten() == data,
{
    let n = data.len() as int;
    assert forall|i: int| 0 <= i < chunks.len() - 1 implies (#[trigger] chunks[i]).payload@.len() == s by {
        lemma_chunk_count_bounds(n, s, i + 1);
        assert((i + 1) * s == i * s + s) by (nonlinear_arith);
    }
    if chunks.len() > 0 {
        let k = chunks.len() - 1;
        lemma_chunk_count_bounds(n, s, k);
        lemma_chunk_count_bounds(n, s, k + 1);
        assert(n == (n / s) * s + n % s) by (nonlinear_arith)
            requires s > 0;
        assert(0 <= n % s < s) by (nonlinear_arith)
            requires s > 0;
        assert((k + 1) * s == k * s + s) by (nonlinear_arith);
        if n % s == 0 {
            assert(k == n / s - 1);
            assert(k * s == n - s) by (nonlinear_arith)
                requires k == n / s - 1, n == (n / s) * s;
        } else {
            assert(k == n / s);
            assert(k * s == n - n % s) by (nonlinear_arith)
                requires k == n / s, n == (n / s) * s + n % s;
        }
    }
    lemma_split_prefix(chunks, data, s, chunks.len() as int);
    assert(chunks.take(chunks.len() as int) =~= chunks);
    if chunks.len() > 0 {
        lemma_chunk_count_bounds(n, s, chunks.len() as int);
    } else {
        lemma_chunk_count_bounds(n, s, 0);
    }
    assert(data.subrange(0, n) =~= data);
}

/// Concatenates the payloads of `chunks` in the order given.
pub fn join_chunks(chunks: &Vec<Chunk>) -> (r: Vec<u8>)
    ensures
        r@ == payloads_of(chunks@).flatten(),
{
    let mut out: Vec<u8> = Vec::new();
    let mut i: usize = 0;
    while i < chunks.len()
        invariant
            i <= chunks@.len(),
            out@ == payloads_of(chunks@.take(i as int)).flatten(),
        decreases chunks@.len() - i,
    {
        let ghost before = payloads_of(chunks@.take(i as int));
        out.extend_from_slice(chunks[i].payload.as_slice());
        proof {
            assert(payloads_of(chunks@.take(i + 1)) =~= before.push(chunks@[i as int].payload@));
            before.lemma_flatten_push(chunks@[i as int].payload@);
            assert(out@ =~= before.flatten() + chunks@[i as int].payload@);
        }
        i = i + 1;
    }
    assert(chunks@.take(chunks@.len() as int) =~= chunks@);
    out
}

} // verus!
