//! Where a writer put each array in its output: byte ranges and chunk offsets.
use crate::compute::strict_sorted;
use crate::error::VortexError;
use vstd::prelude::*;

verus! {

/// The rows of the first `i` chunks, whose row counts are `rows`.
pub open spec fn rows_upto(rows: Seq<u64>, i: int) -> int
    decreases i,
{
    if i <= 0 {
        0
    } else {
        rows_upto(rows, i - 1) + rows[i - 1]
    }
}

/// The running row counts never decrease.
proof fn lemma_rows_upto_monotone(rows: Seq<u64>, i: int, j: int)
    requires
        0 <= i <= j,
    ensures
        rows_upto(rows, i) <= rows_upto(rows, j),
    decreases j - i,
{
    if i < j {
        lemma_rows_upto_monotone(rows, i, j - 1);
    }
}

/// The bytes `begin..end` of the output.
#[derive(Clone, Copy, Debug, PartialEq, Eq, Structural)]
pub struct ByteRange {
    pub begin: u64,
    pub end: u64,
}

/// The byte offset and the first row of each chunk of an array, each list ending
/// with the offset and row count after the last chunk.
#[derive(Clone, Debug)]
pub struct ChunkLayout {
    pub byte_offsets: Vec<u64>,
    pub row_offsets: Vec<u64>,
}

/// Where an array's logical type and its chunks were written.
#[derive(Clone, Debug)]
pub struct ArrayLayout {
    pub dtype: ByteRange,
    pub chunks: ChunkLayout,
}

impl ChunkLayout {
    /// The layout before any chunk, whose first chunk starts at byte `start`.
    pub fn new(start: u64) -> (r: ChunkLayout)
        ensures
            r.byte_offsets@ == seq![start],
            r.row_offsets@ == seq![0u64],
    {
        let mut byte_offsets: Vec<u64> = Vec::new();
        byte_offsets.push(start);
        let mut row_offsets: Vec<u64> = Vec::new();
        row_offsets.push(0);
        ChunkLayout { byte_offsets, row_offsets }
    }

    /// Records a chunk of `rows` rows whose bytes end at `end`.
    pub fn push_chunk(&mut self, rows: u64, end: u64)
        requires
            old(self).row_offsets@.len() > 0,
            old(self).row_offsets@[old(self).row_offsets@.len() - 1] + rows <= u64::MAX,
        ensures
            final(self).row_offsets@ == old(self).row_offsets@.push(
                (old(self).row_offsets@[old(self).row_offsets@.len() - 1] + rows) as u64,
            ),
            final(self).byte_offsets@ == old(self).byte_offsets@.push(end),
    {
        let last = self.row_offsets[self.row_offsets.len() - 1];
        self.row_offsets.push(last + rows);
        self.byte_offsets.push(end);
    }
}

impl ChunkLayout {
    /// The layout of chunks written one after another from byte `start`: chunk `i`
    /// has `rows[i]` rows and its bytes end at `ends[i]`. A row count past `u64`
    /// is refused.
    pub fn from_chunks(start: u64, rows: &[u64], ends: &[u64]) -> (r: Result<ChunkLayout, VortexError>)
        requires
            rows@.len() == ends@.len(),
        ensures
            (rows_upto(rows@, rows@.len() as int) <= u64::MAX) <==> r is Ok,
            r is Err ==> r->Err_0 is ArithmeticOverflow,
            r is Ok ==> {
                let l = r->Ok_0;
                &&& l.byte_offsets@ == seq![start] + ends@
                &&& l.row_offsets@.len() == rows@.len() + 1
                &&& forall|i: int|
                    0 <= i <= rows@.len() ==> #[trigger] l.row_offsets@[i] == rows_upto(rows@, i)
            },
    {
        let mut layout = ChunkLayout::new(start);
        let mut i: usize = 0;
        while i < rows.len()
            invariant
                rows@.len() == ends@.len(),
                i <= rows@.len(),
                layout.byte_offsets@ == seq![start] + ends@.subrange(0, i as int),
                layout.row_offsets@.len() == i + 1,
                forall|k: int| 0 <= k <= i ==> #[trigger] layout.row_offsets@[k] == rows_upto(rows@, k),
            decreases rows@.len() - i,
        {
            let last = layout.row_offsets[i];
            if rows[i] > u64::MAX - last {
                proof {
                    lemma_rows_upto_monotone(rows@, i + 1, rows@.len() as int);
                }
                return Err(VortexError::ArithmeticOverflow);
            }
            layout.push_chunk(rows[i], ends[i]);
            proof {
                assert(ends@.subrange(0, i + 1) =~= ends@.subrange(0, i as int).push(ends@[i as int]));
                assert(seq![start] + ends@.subrange(0, i + 1) =~= (seq![start] + ends@.subrange(
                    0,
                    i as int,
                )).push(ends@[i as int]));
            }
            i = i + 1;
        }
        proof {
            assert(ends@.subrange(0, i as int) =~= ends@);
            assert(layout.row_offsets@[i as int] == rows_upto(rows@, i as int));
        }
        Ok(layout)
    }
}

/// Row offsets of a layout built chunk by chunk start at zero, step by each
/// chunk's rows, end at the total, and strictly increase when no chunk is empty.
pub proof fn lemma_layout_row_offsets(rows: Seq<u64>, offsets: Seq<u64>)
    requires
        offsets.len() == rows.len() + 1,
        forall|i: int| 0 <= i <= rows.len() ==> #[trigger] offsets[i] == rows_upto(rows, i),
    ensures
        offsets[0] == 0,
        offsets[rows.len() as int] == rows_upto(rows, rows.len() as int),
        forall|i: int| 0 <= i < rows.len() ==> #[trigger] offsets[i + 1] == offsets[i] + rows[i],
        (forall|i: int| 0 <= i < rows.len() ==> #[trigger] rows[i] > 0) ==> strict_sorted(offsets),
{
    assert forall|i: int| 0 <= i < rows.len() implies #[trigger] offsets[i + 1] == offsets[i] + rows[i] by {
        assert(offsets[i + 1] == rows_upto(rows, i + 1));
        assert(offsets[i] == rows_upto(rows, i));
    }
    if forall|i: int| 0 <= i < rows.len() ==> #[trigger] rows[i] > 0 {
        assert forall|a: int, b: int| 0 <= a < b < offsets.len() implies #[trigger] offsets[a] < #[trigger] offsets[b] by {
            lemma_rows_upto_monotone(rows, a + 1, b);
            assert(offsets[a + 1] == offsets[a] + rows[a]);
            assert(offsets[b] == rows_upto(rows, b));
            assert(offsets[a + 1] == rows_upto(rows, a + 1));
        }
    }
}

} // verus!
