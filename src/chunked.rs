//! Chunked arrays and the row-selection planner of the chunked reader: which
//! chunks hold the requested rows, which byte ranges to read, and which rows to
//! take from each range.
use crate::compute::{search_sorted, sorted, strict_sorted, is_strict_sorted, subtract_scalar, SearchSortedSide};
use crate::dtype::DType;
use crate::error::VortexError;
use vstd::prelude::*;

verus! {

/// The positions `indices_start..indices_stop` of the requested rows that fall
/// in chunk `chunk_idx`.
#[derive(Clone, Copy, Debug, PartialEq, Eq, Structural)]
pub struct ChunkIndices {
    pub chunk_idx: u32,
    pub indices_start: u64,
    pub indices_stop: u64,
}

/// Row offsets of chunks: they start at zero and never decrease; chunk `c` holds
/// rows `offsets[c]..offsets[c + 1]`.
pub open spec fn offsets_wf(offsets: Seq<u64>) -> bool {
    &&& offsets.len() >= 1
    &&& offsets[0] == 0
    &&& sorted(offsets)
}

/// Row `v` lies in chunk `c`.
pub open spec fn in_chunk(offsets: Seq<u64>, c: int, v: u64) -> bool {
    0 <= c && c + 1 < offsets.len() && offsets[c] <= v < offsets[c + 1]
}

/// `groups` splits the positions of `indices` into consecutive non-empty runs, one
/// per chunk, by ascending chunk, each run holding exactly the positions whose row
/// lies in its chunk.
pub open spec fn groups_cover(groups: Seq<ChunkIndices>, offsets: Seq<u64>, indices: Seq<u64>) -> bool {
    &&& (groups.len() == 0 <==> indices.len() == 0)
    &&& groups.len() > 0 ==> groups[0].indices_start == 0
    &&& groups.len() > 0 ==> groups[groups.len() - 1].indices_stop == indices.len()
    &&& forall|k: int|
        0 <= k < groups.len() ==> (#[trigger] groups[k]).indices_start < groups[k].indices_stop
            <= indices.len()
    &&& forall|k: int|
        0 <= k < groups.len() - 1 ==> #[trigger] groups[k].indices_stop == groups[k + 1].indices_start
    &&& forall|k: int|
        0 <= k < groups.len() - 1 ==> #[trigger] groups[k].chunk_idx < groups[k + 1].chunk_idx
    &&& forall|k: int, p: int|
        0 <= k < groups.len() && groups[k].indices_start <= p < groups[k].indices_stop
            ==> in_chunk(offsets, (#[trigger] groups[k]).chunk_idx as int, #[trigger] indices[p])
}

/// The chunk that holds row `row`: the last whose first row is not after it.
pub fn find_chunk_idx(row_offsets: &[u64], row: u64) -> (r: usize)
    requires
        offsets_wf(row_offsets@),
        row < row_offsets@[row_offsets@.len() - 1],
    ensures
        in_chunk(row_offsets@, r as int, row),
{
    let p = search_sorted(row_offsets, row, SearchSortedSide::Right);
    assert(row_offsets@[0] <= row);
    assert(p < row_offsets@.len()) by {
        if p == row_offsets@.len() {
            assert(row_offsets@[row_offsets@.len() - 1] <= row);
        }
    }
    p - 1
}

/// Groups the positions of the strictly ascending `indices` by the chunk that
/// holds their row; a row past the last chunk is refused.
pub fn find_chunks(row_offsets: &[u64], indices: &[u64]) -> (r: Result<Vec<ChunkIndices>, VortexError>)
    requires
        offsets_wf(row_offsets@),
        row_offsets@.len() <= 0x1_0000_0000,
        strict_sorted(indices@),
    ensures
        (indices@.len() > 0 && indices@[indices@.len() - 1] >= row_offsets@[row_offsets@.len() - 1])
            <==> r is Err,
        r is Err ==> r->Err_0 == VortexError::OutOfBounds(
            indices@[indices@.len() - 1] as usize,
            row_offsets@[row_offsets@.len() - 1] as usize,
        ),
        r is Ok ==> groups_cover(r->Ok_0@, row_offsets@, indices@),
{
    let n = indices.len();
    let num_rows = row_offsets[row_offsets.len() - 1];
    if n > 0 && indices[n - 1] >= num_rows {
        return Err(VortexError::OutOfBounds(indices[n - 1] as usize, num_rows as usize));
    }
    let ghost offsets = row_offsets@;
    let mut out: Vec<ChunkIndices> = Vec::new();
    let mut pos: usize = 0;
    while pos < n
        invariant
            n == indices@.len(),
            offsets == row_offsets@,
            offsets_wf(offsets),
            offsets.len() <= 0x1_0000_0000,
            strict_sorted(indices@),
            n > 0 ==> indices@[n - 1] < offsets[offsets.len() - 1],
            pos <= n,
            groups_cover(out@, offsets, indices@.subrange(0, pos as int)),
            pos > 0 ==> out@.len() > 0 && in_chunk(offsets, out@[out@.len() - 1].chunk_idx as int, indices@[pos - 1]),
        decreases n - pos,
    {
        let v = indices[pos];
        assert(v < offsets[offsets.len() - 1]) by {
            assert(indices@[pos as int] <= indices@[n - 1]);
        }
        let c = find_chunk_idx(row_offsets, v);
        let ghost prev = out@;
        let ghost sub = indices@.subrange(0, pos as int);
        let ghost sub1 = indices@.subrange(0, pos + 1);
        if out.len() > 0 && out[out.len() - 1].chunk_idx as usize == c {
            let last = out.pop().unwrap();
            out.push(ChunkIndices { chunk_idx: last.chunk_idx, indices_start: last.indices_start, indices_stop: (pos + 1) as u64 });
            proof {
                let m = out@.len() - 1;
                assert forall|k: int, p: int|
                    0 <= k < out@.len() && out@[k].indices_start <= p < out@[k].indices_stop
                    implies in_chunk(offsets, (#[trigger] out@[k]).chunk_idx as int, #[trigger] sub1[p]) by {
                    if p < pos {
                        assert(sub1[p] == sub[p]);
                        assert(prev[k].indices_start <= p < prev[k].indices_stop);
                    }
                }
            }
        } else {
            if out.len() > 0 {
                let ghost lc = out@[out@.len() - 1].chunk_idx as int;
                assert(lc < c) by {
                    let u = indices@[pos - 1];
                    assert(u < v);
                    if c < lc {
                        assert(offsets[c + 1] <= offsets[lc]);
                    }
                }
            }
            out.push(ChunkIndices { chunk_idx: c as u32, indices_start: pos as u64, indices_stop: (pos + 1) as u64 });
            proof {
                assert forall|k: int, p: int|
                    0 <= k < out@.len() && out@[k].indices_start <= p < out@[k].indices_stop
                    implies in_chunk(offsets, (#[trigger] out@[k]).chunk_idx as int, #[trigger] sub1[p]) by {
                    if k < prev.len() {
                        assert(sub1[p] == sub[p]);
                        assert(prev[k] == out@[k]);
                    }
                }
            }
        }
        pos = pos + 1;
    }
    assert(indices@.subrange(0, n as int) =~= indices@);
    Ok(out)
}

/// Each selected chunk forms a read range of its own.
pub fn coalesce_chunks(chunk_idxs: &[ChunkIndices]) -> (r: Vec<Vec<ChunkIndices>>)
    ensures
        r@.len() == chunk_idxs@.len(),
        forall|k: int| 0 <= k < r@.len() ==> (#[trigger] r@[k])@ == seq![chunk_idxs@[k]],
{
    let mut out: Vec<Vec<ChunkIndices>> = Vec::new();
    let mut k: usize = 0;
    while k < chunk_idxs.len()
        invariant
            k <= chunk_idxs@.len(),
            out@.len() == k,
            forall|j: int| 0 <= j < k ==> (#[trigger] out@[j])@ == seq![chunk_idxs@[j]],
        decreases chunk_idxs@.len() - k,
    {
        let mut one: Vec<ChunkIndices> = Vec::new();
        one.push(chunk_idxs[k]);
        assert(one@ =~= seq![chunk_idxs@[k as int]]);
        out.push(one);
        k = k + 1;
    }
    out
}

/// One read of the chunks `start_chunk..stop_chunk`: the bytes to read, the rows
/// they hold, and the requested rows among them, counted from the range's first
/// row.
#[derive(Debug)]
pub struct RangeRead {
    pub start_chunk: usize,
    pub stop_chunk: usize,
    pub start_byte: u64,
    pub stop_byte: u64,
    pub start_row: u64,
    pub stop_row: u64,
    /// The positions `indices_start..indices_stop` of the requested rows in range.
    pub indices_start: usize,
    pub indices_stop: usize,
    pub relative_indices: Vec<u64>,
}

/// A read range agrees with the offsets, and its relative rows are the requested
/// rows of its positions less its first row, all inside the range.
pub open spec fn range_ok(r: RangeRead, rows: Seq<u64>, bytes: Seq<u64>, indices: Seq<u64>) -> bool {
    &&& r.start_chunk < r.stop_chunk < rows.len()
    &&& r.start_row == rows[r.start_chunk as int]
    &&& r.stop_row == rows[r.stop_chunk as int]
    &&& r.start_byte == bytes[r.start_chunk as int]
    &&& r.stop_byte == bytes[r.stop_chunk as int]
    &&& r.indices_start < r.indices_stop <= indices.len()
    &&& forall|p: int|
        r.indices_start <= p < r.indices_stop ==> r.start_row <= #[trigger] indices[p] < r.stop_row
    &&& r.relative_indices@ == indices.subrange(r.indices_start as int, r.indices_stop as int).map_values(
        |v: u64| (v - r.start_row) as u64,
    )
}

/// The read ranges cover the positions of the requested rows in order; each
/// reads one chunk, and the chunks they read strictly ascend.
#[verifier::opaque]
pub open spec fn plan_ok(plan: Seq<RangeRead>, rows: Seq<u64>, bytes: Seq<u64>, indices: Seq<u64>) -> bool {
    &&& (plan.len() == 0 <==> indices.len() == 0)
    &&& plan.len() > 0 ==> plan[0].indices_start == 0
    &&& plan.len() > 0 ==> plan[plan.len() - 1].indices_stop == indices.len()
    &&& forall|k: int| 0 <= k < plan.len() ==> range_ok(#[trigger] plan[k], rows, bytes, indices)
    &&& forall|k: int| 0 <= k < plan.len() ==> (#[trigger] plan[k]).stop_chunk == plan[k].start_chunk + 1
    &&& forall|k: int|
        0 <= k < plan.len() - 1 ==> (#[trigger] plan[k]).indices_stop == plan[k + 1].indices_start
            && plan[k].stop_chunk <= plan[k + 1].start_chunk
}

/// The read of the chunks `first.chunk_idx..=last.chunk_idx`, for the positions
/// `first.indices_start..last.indices_stop`.
fn plan_range(
    row_offsets: &[u64],
    byte_offsets: &[u64],
    indices: &[u64],
    first: ChunkIndices,
    last: ChunkIndices,
) -> (r: RangeRead)
    requires
        offsets_wf(row_offsets@),
        byte_offsets@.len() == row_offsets@.len(),
        first.chunk_idx <= last.chunk_idx,
        first.indices_start < last.indices_stop <= indices@.len(),
        in_chunk(row_offsets@, last.chunk_idx as int, indices@[last.indices_stop - 1]),
        forall|p: int|
            first.indices_start <= p < last.indices_stop ==> row_offsets@[first.chunk_idx as int]
                <= #[trigger] indices@[p] < row_offsets@[last.chunk_idx + 1],
    ensures
        range_ok(r, row_offsets@, byte_offsets@, indices@),
        r.indices_start == first.indices_start,
        r.indices_stop == last.indices_stop,
        r.start_chunk == first.chunk_idx,
        r.stop_chunk == last.chunk_idx + 1,
{
    let num_offsets = row_offsets.len();
    let num_indices = indices.len();
    assert(last.chunk_idx + 1 < num_offsets);
    let start_chunk = first.chunk_idx as usize;
    let stop_chunk = last.chunk_idx as usize + 1;
    let start_row = row_offsets[start_chunk];
    let stop_row = row_offsets[stop_chunk];
    let start_byte = byte_offsets[start_chunk];
    let stop_byte = byte_offsets[stop_chunk];
    let indices_start = first.indices_start as usize;
    let indices_stop = last.indices_stop as usize;
    let part = match crate::compute::slice(indices, indices_start, indices_stop) {
        Ok(p) => p,
        Err(_) => {
            assert(false);
            Vec::new()
        },
    };
    assert(forall|i: int| 0 <= i < part@.len() ==> #[trigger] part@[i] == indices@[indices_start + i]);
    let relative_indices = match subtract_scalar(part.as_slice(), start_row) {
        Ok(r) => r,
        Err(_) => {
            assert(false);
            Vec::new()
        },
    };
    RangeRead {
        start_chunk,
        stop_chunk,
        start_byte,
        stop_byte,
        start_row,
        stop_row,
        indices_start,
        indices_stop,
        relative_indices,
    }
}

/// Plans reading the rows `indices` from chunks with the given row and byte
/// offsets: unsorted indices are not handled, and a row past the end is refused.
pub fn plan_take_rows(row_offsets: &[u64], byte_offsets: &[u64], indices: &[u64]) -> (r: Result<
    Vec<RangeRead>,
    VortexError,
>)
    requires
        offsets_wf(row_offsets@),
        row_offsets@.len() <= 0x1_0000_0000,
        byte_offsets@.len() == row_offsets@.len(),
    ensures
        !strict_sorted(indices@) ==> r is Err && r->Err_0 is NotImplemented,
        strict_sorted(indices@) ==> ((indices@.len() > 0 && indices@[indices@.len() - 1]
            >= row_offsets@[row_offsets@.len() - 1]) <==> r is Err),
        strict_sorted(indices@) && r is Err ==> r->Err_0 == VortexError::OutOfBounds(
            indices@[indices@.len() - 1] as usize,
            row_offsets@[row_offsets@.len() - 1] as usize,
        ),
        r is Ok ==> plan_ok(r->Ok_0@, row_offsets@, byte_offsets@, indices@),
{
    if !is_strict_sorted(indices) {
        return Err(VortexError::NotImplemented("take_rows".to_owned(), "unsorted indices".to_owned()));
    }
    let groups = match find_chunks(row_offsets, indices) {
        Ok(g) => g,
        Err(e) => return Err(e),
    };
    let coalesced = coalesce_chunks(&groups);
    let ghost g = groups@;
    let mut plan: Vec<RangeRead> = Vec::new();
    let mut k: usize = 0;
    while k < coalesced.len()
        invariant
            groups_cover(g, row_offsets@, indices@),
            g == groups@,
            coalesced@.len() == g.len(),
            forall|j: int| 0 <= j < coalesced@.len() ==> (#[trigger] coalesced@[j])@ == seq![g[j]],
            byte_offsets@.len() == row_offsets@.len(),
            offsets_wf(row_offsets@),
            strict_sorted(indices@),
            k <= g.len(),
            plan@.len() == k,
            forall|j: int| 0 <= j < k ==> range_ok(#[trigger] plan@[j], row_offsets@, byte_offsets@, indices@),
            forall|j: int| 0 <= j < k ==> (#[trigger] plan@[j]).indices_start == g[j].indices_start
                && plan@[j].indices_stop == g[j].indices_stop
                && plan@[j].start_chunk == g[j].chunk_idx
                && plan@[j].stop_chunk == g[j].chunk_idx + 1,
        decreases g.len() - k,
    {
        let range = &coalesced[k];
        assert(range@ == seq![g[k as int]]);
        let first = range[0];
        let last = range[range.len() - 1];
        let ghost gk = g[k as int];
        assert(first == gk && last == gk);
        assert(gk.indices_start < gk.indices_stop <= indices@.len());
        assert forall|p: int| gk.indices_start <= p < gk.indices_stop implies in_chunk(
            row_offsets@,
            gk.chunk_idx as int,
            #[trigger] indices@[p],
        ) by {
            assert(in_chunk(row_offsets@, g[k as int].chunk_idx as int, indices@[p]));
        }
        let read = plan_range(row_offsets, byte_offsets, indices, first, last);
        plan.push(read);
        proof {
            assert(range_ok(plan@[k as int], row_offsets@, byte_offsets@, indices@));
        }
        k = k + 1;
    }
    proof {
        reveal(plan_ok);
        assert forall|j: int| 0 <= j < plan@.len() - 1 implies (#[trigger] plan@[j]).indices_stop
            == plan@[j + 1].indices_start && plan@[j].stop_chunk <= plan@[j + 1].start_chunk by {
            assert(g[j].chunk_idx < g[j + 1].chunk_idx);
        }
    }
    Ok(plan)
}

/// Reads rows of a chunked array at random: the offsets of its chunks and their
/// logical type.
#[derive(Debug)]
pub struct ChunkedArrayReader {
    row_offsets: Vec<u64>,
    byte_offsets: Vec<u64>,
    dtype: DType,
}

impl ChunkedArrayReader {
    pub closed spec fn wf(&self) -> bool {
        &&& offsets_wf(self.row_offsets@)
        &&& self.row_offsets@.len() <= 0x1_0000_0000
        &&& self.byte_offsets@.len() == self.row_offsets@.len()
        &&& sorted(self.byte_offsets@)
    }

    pub closed spec fn dtype_spec(&self) -> DType {
        self.dtype
    }

    pub closed spec fn row_offsets_spec(&self) -> Seq<u64> {
        self.row_offsets@
    }

    pub closed spec fn byte_offsets_spec(&self) -> Seq<u64> {
        self.byte_offsets@
    }

    /// A reader from its options; each is required, and the offsets must agree:
    /// as many row offsets as byte offsets, rows from zero, neither decreasing.
    pub fn try_new(
        row_offsets: Option<Vec<u64>>,
        byte_offsets: Option<Vec<u64>>,
        dtype: Option<DType>,
    ) -> (r: Result<ChunkedArrayReader, VortexError>)
        ensures
            row_offsets is None ==> r is Err && r->Err_0 is MissingOption,
            byte_offsets is None ==> r is Err && r->Err_0 is MissingOption,
            dtype is None ==> r is Err && r->Err_0 is MissingOption,
            (row_offsets is Some && byte_offsets is Some && dtype is Some) ==> ((r is Ok) <==> ({
                let rows = row_offsets->0@;
                let bytes = byte_offsets->0@;
                offsets_wf(rows) && rows.len() <= 0x1_0000_0000 && bytes.len() == rows.len()
                    && sorted(bytes)
            })),
            r is Ok ==> r->Ok_0.wf() && r->Ok_0.row_offsets_spec() == row_offsets->0@
                && r->Ok_0.byte_offsets_spec() == byte_offsets->0@,
    {
        let row_offsets = match row_offsets {
            Some(v) => v,
            None => return Err(VortexError::MissingOption("row_offsets".to_owned())),
        };
        let byte_offsets = match byte_offsets {
            Some(v) => v,
            None => return Err(VortexError::MissingOption("byte_offsets".to_owned())),
        };
        let dtype = match dtype {
            Some(d) => d,
            None => return Err(VortexError::MissingOption("dtype".to_owned())),
        };
        if row_offsets.len() == 0 || row_offsets[0] != 0 || row_offsets.len() as u64 > 0x1_0000_0000u64
            || byte_offsets.len() != row_offsets.len() || !is_sorted(&row_offsets) || !is_sorted(&byte_offsets) {
            return Err(VortexError::InvalidEncoding("malformed chunk offsets".to_owned()));
        }
        Ok(ChunkedArrayReader { row_offsets, byte_offsets, dtype })
    }

    pub fn dtype(&self) -> (r: &DType)
        ensures
            *r == self.dtype_spec(),
    {
        &self.dtype
    }

    /// Groups the selected chunks into read ranges: each chunk on its own.
    pub fn coalesce_chunks(&self, chunk_idxs: &[ChunkIndices]) -> (r: Vec<Vec<ChunkIndices>>)
        ensures
            r@.len() == chunk_idxs@.len(),
            forall|k: int| 0 <= k < r@.len() ==> (#[trigger] r@[k])@ == seq![chunk_idxs@[k]],
    {
        coalesce_chunks(chunk_idxs)
    }

    /// Plans reading the rows `indices`: which byte ranges to read, and which rows
    /// to take from each.
    pub fn plan_take_rows(&self, indices: &[u64]) -> (r: Result<Vec<RangeRead>, VortexError>)
        requires
            self.wf(),
        ensures
            !strict_sorted(indices@) ==> r is Err && r->Err_0 is NotImplemented,
            strict_sorted(indices@) ==> ((indices@.len() > 0 && indices@[indices@.len() - 1]
                >= self.row_offsets_spec()[self.row_offsets_spec().len() - 1]) <==> r is Err),
            strict_sorted(indices@) && r is Err ==> r->Err_0 == VortexError::OutOfBounds(
                indices@[indices@.len() - 1] as usize,
                self.row_offsets_spec()[self.row_offsets_spec().len() - 1] as usize,
            ),
            r is Ok ==> plan_ok(r->Ok_0@, self.row_offsets_spec(), self.byte_offsets_spec(), indices@),
    {
        plan_take_rows(self.row_offsets.as_slice(), self.byte_offsets.as_slice(), indices)
    }
}

/// Whether the values never decrease.
pub fn is_sorted(values: &Vec<u64>) -> (r: bool)
    ensures
        r == sorted(values@),
{
    let n = values.len();
    let mut i: usize = 1;
    if n == 0 {
        return true;
    }
    while i < n
        invariant
            n == values@.len(),
            1 <= i <= n,
            sorted(values@.subrange(0, i as int)),
        decreases n - i,
    {
        if values[i - 1] > values[i] {
            assert(values@[i - 1] > values@[i as int]);
            return false;
        }
        proof {
            let s = values@.subrange(0, i + 1);
            assert forall|a: int, b: int| 0 <= a <= b < s.len() implies #[trigger] s[a] <= #[trigger] s[b] by {
                if b < i {
                    assert(values@.subrange(0, i as int)[a] <= values@.subrange(0, i as int)[b]);
                } else if a < i {
                    assert(values@.subrange(0, i as int)[a] <= values@.subrange(0, i as int)[i - 1]);
                }
            }
        }
        i = i + 1;
    }
    assert(values@.subrange(0, n as int) =~= values@);
    true
}

} // verus!
