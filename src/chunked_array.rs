//! Arrays held as a sequence of chunks, with the offsets of their first rows.
use crate::chunked::{find_chunk_idx, in_chunk, offsets_wf, plan_ok, plan_take_rows, range_ok, RangeRead};
use crate::compute::{sorted, strict_sorted};
use crate::error::VortexError;
use vstd::prelude::*;

verus! {

/// The values of each chunk.
pub open spec fn chunk_views<T>(chunks: Seq<Vec<T>>) -> Seq<Seq<T>> {
    chunks.map_values(|c: Vec<T>| c@)
}

/// All the values, chunk after chunk.
pub open spec fn flat<T>(chunks: Seq<Vec<T>>) -> Seq<T> {
    chunk_views(chunks).flatten_alt()
}

/// The number of rows in the first `c` chunks.
pub open spec fn rows_before<T>(chunks: Seq<Vec<T>>, c: int) -> int {
    flat(chunks.subrange(0, c)).len() as int
}

/// Flattening distributes over concatenation.
pub proof fn lemma_flatten_alt_concat<T>(a: Seq<Seq<T>>, b: Seq<Seq<T>>)
    ensures
        (a + b).flatten_alt() == a.flatten_alt() + b.flatten_alt(),
    decreases b.len(),
{
    if b.len() == 0 {
        assert(a + b =~= a);
        assert(a.flatten_alt() + b.flatten_alt() =~= a.flatten_alt());
    } else {
        assert((a + b).drop_last() =~= a + b.drop_last());
        lemma_flatten_alt_concat(a, b.drop_last());
        assert((a + b).flatten_alt() =~= a.flatten_alt() + b.flatten_alt());
    }
}

/// Element `k` of part `c` stands, in the flattening, after all the elements of
/// the parts before it.
pub proof fn lemma_flatten_alt_index<A>(parts: Seq<Seq<A>>, c: int, k: int)
    requires
        0 <= c < parts.len(),
        0 <= k < parts[c].len(),
    ensures
        parts.subrange(0, c).flatten_alt().len() + k < parts.flatten_alt().len(),
        parts.flatten_alt()[parts.subrange(0, c).flatten_alt().len() + k] == parts[c][k],
{
    let head = parts.subrange(0, c);
    let tail = parts.subrange(c + 1, parts.len() as int);
    assert(parts =~= head + seq![parts[c]] + tail);
    lemma_flatten_alt_concat(head + seq![parts[c]], tail);
    lemma_flatten_alt_concat(head, seq![parts[c]]);
    assert(seq![parts[c]].drop_last() =~= Seq::<Seq<A>>::empty());
    assert(Seq::<Seq<A>>::empty().flatten_alt() =~= Seq::<A>::empty());
    assert(seq![parts[c]].flatten_alt() == seq![parts[c]].drop_last().flatten_alt() + parts[c]);
    assert(seq![parts[c]].flatten_alt() =~= parts[c]);
}

/// The `k`-th value of chunk `c` stands after all the values of the chunks before.
pub proof fn lemma_flat_index<T>(chunks: Seq<Vec<T>>, c: int, k: int)
    requires
        0 <= c < chunks.len(),
        0 <= k < chunks[c]@.len(),
    ensures
        rows_before(chunks, c) + k < flat(chunks).len(),
        flat(chunks)[rows_before(chunks, c) + k] == chunks[c]@[k],
{
    let vs = chunk_views(chunks);
    assert(chunk_views(chunks.subrange(0, c)) =~= vs.subrange(0, c));
    lemma_flatten_alt_index(vs, c, k);
}

/// The rows of the first `c + 1` chunks are those of the first `c` and chunk `c`.
proof fn lemma_rows_step<T>(chunks: Seq<Vec<T>>, c: int)
    requires
        0 <= c < chunks.len(),
    ensures
        flat(chunks.subrange(0, c + 1)) == flat(chunks.subrange(0, c)) + chunks[c]@,
        rows_before(chunks, c + 1) == rows_before(chunks, c) + chunks[c]@.len(),
{
    assert(chunk_views(chunks.subrange(0, c + 1)).drop_last() =~= chunk_views(chunks.subrange(0, c)));
}

/// Flattening after appending a chunk appends its values.
proof fn lemma_flat_push<T>(chunks: Seq<Vec<T>>, v: Vec<T>)
    ensures
        flat(chunks.push(v)) == flat(chunks) + v@,
{
    assert(chunk_views(chunks.push(v)).drop_last() =~= chunk_views(chunks));
}

/// A sequence of same-typed chunks, and the offset of the first row of each.
#[derive(Debug)]
pub struct ChunkedArray<T> {
    chunks: Vec<Vec<T>>,
    row_offsets: Vec<u64>,
}

impl<T> ChunkedArray<T> {
    /// The offsets are the running row counts, and they fit a `u64`.
    pub closed spec fn wf(&self) -> bool {
        &&& self.row_offsets@.len() == self.chunks@.len() + 1
        &&& self.chunks@.len() < 0x1_0000_0000
        &&& forall|c: int|
            0 <= c <= self.chunks@.len() ==> #[trigger] self.row_offsets@[c] == rows_before(
                self.chunks@,
                c,
            )
        &&& flat(self.chunks@).len() <= u64::MAX
    }

    /// The values of the chunks.
    pub closed spec fn chunks_spec(&self) -> Seq<Seq<T>> {
        chunk_views(self.chunks@)
    }

    /// All the values, chunk after chunk.
    pub closed spec fn values(&self) -> Seq<T> {
        flat(self.chunks@)
    }

    pub closed spec fn row_offsets_spec(&self) -> Seq<u64> {
        self.row_offsets@
    }

    /// A chunked array of `chunks`; one with more rows than a `u64` counts, or
    /// with more chunks than a `u32` counts, is refused.
    pub fn try_new(chunks: Vec<Vec<T>>) -> (r: Result<ChunkedArray<T>, VortexError>)
        ensures
            (flat(chunks@).len() <= u64::MAX && chunks@.len() < 0x1_0000_0000) <==> r is Ok,
            r is Ok ==> r->Ok_0.wf() && r->Ok_0.chunks_spec() == chunk_views(chunks@)
                && r->Ok_0.values() == flat(chunks@),
            r is Err ==> r->Err_0 is ArithmeticOverflow,
    {
        let n = chunks.len();
        if n as u64 >= 0x1_0000_0000u64 {
            return Err(VortexError::ArithmeticOverflow);
        }
        let mut row_offsets: Vec<u64> = Vec::new();
        row_offsets.push(0);
        let mut total: u64 = 0;
        let mut c: usize = 0;
        proof {
            assert(flat(chunks@.subrange(0, 0)) =~= Seq::<T>::empty());
        }
        while c < n
            invariant
                n == chunks@.len(),
                c <= n,
                row_offsets@.len() == c + 1,
                total == rows_before(chunks@, c as int),
                forall|j: int| 0 <= j <= c ==> #[trigger] row_offsets@[j] == rows_before(chunks@, j),
            decreases n - c,
        {
            let len = chunks[c].len();
            proof {
                lemma_rows_step(chunks@, c as int);
            }
            if len as u64 > u64::MAX - total {
                proof {
                    lemma_rows_prefix_le(chunks@, c as int + 1);
                }
                return Err(VortexError::ArithmeticOverflow);
            }
            total = total + len as u64;
            row_offsets.push(total);
            c = c + 1;
        }
        proof {
            assert(chunks@.subrange(0, n as int) =~= chunks@);
        }
        Ok(ChunkedArray { chunks, row_offsets })
    }

    /// The number of rows.
    pub fn len(&self) -> (r: u64)
        requires
            self.wf(),
        ensures
            r == self.values().len(),
    {
        proof {
            assert(self.chunks@.subrange(0, self.chunks@.len() as int) =~= self.chunks@);
        }
        self.row_offsets[self.row_offsets.len() - 1]
    }

    /// The offset of each chunk's first row, and the row count last.
    pub fn row_offsets(&self) -> (r: &Vec<u64>)
        ensures
            r@ == self.row_offsets_spec(),
    {
        &self.row_offsets
    }

    /// The chunks, in order.
    pub fn chunks(&self) -> (r: &Vec<Vec<T>>)
        ensures
            chunk_views(r@) == self.chunks_spec(),
    {
        &self.chunks
    }

    /// The chunk that holds row `row`.
    pub fn find_chunk_idx(&self, row: u64) -> (r: usize)
        requires
            self.wf(),
            row < self.values().len(),
        ensures
            in_chunk(self.row_offsets_spec(), r as int, row),
    {
        proof {
            lemma_offsets_wf(*self);
        }
        find_chunk_idx(self.row_offsets.as_slice(), row)
    }
}

impl<T: Copy> ChunkedArray<T> {
    /// The value at row `row`.
    pub fn value_at(&self, row: u64) -> (r: T)
        requires
            self.wf(),
            row < self.values().len(),
        ensures
            r == self.values()[row as int],
    {
        let c = self.find_chunk_idx(row);
        let start = self.row_offsets[c];
        proof {
            lemma_rows_step(self.chunks@, c as int);
        }
        let chunk = &self.chunks[c];
        let clen = chunk.len();
        assert(self.row_offsets@[c as int] == rows_before(self.chunks@, c as int));
        assert(self.row_offsets@[c + 1] == rows_before(self.chunks@, c + 1));
        assert(row - start < clen);
        let k = (row - start) as usize;
        proof {
            lemma_flat_index(self.chunks@, c as int, k as int);
        }
        chunk[k]
    }

    /// All the values in one vector, chunk after chunk.
    pub fn flatten(&self) -> (r: Vec<T>)
        requires
            self.wf(),
        ensures
            r@ == self.values(),
    {
        let mut out: Vec<T> = Vec::new();
        let n = self.chunks.len();
        let mut c: usize = 0;
        proof {
            assert(flat(self.chunks@.subrange(0, 0)) =~= Seq::<T>::empty());
        }
        while c < n
            invariant
                n == self.chunks@.len(),
                c <= n,
                out@ == flat(self.chunks@.subrange(0, c as int)),
            decreases n - c,
        {
            let chunk = &self.chunks[c];
            let mut i: usize = 0;
            while i < chunk.len()
                invariant
                    c < n,
                    chunk == self.chunks@[c as int],
                    i <= chunk@.len(),
                    out@ == flat(self.chunks@.subrange(0, c as int)) + chunk@.subrange(0, i as int),
                decreases chunk@.len() - i,
            {
                out.push(chunk[i]);
                i = i + 1;
                assert(out@ =~= flat(self.chunks@.subrange(0, c as int)) + chunk@.subrange(0, i as int));
            }
            proof {
                lemma_rows_step(self.chunks@, c as int);
                assert(chunk@.subrange(0, i as int) =~= chunk@);
            }
            c = c + 1;
        }
        proof {
            assert(self.chunks@.subrange(0, n as int) =~= self.chunks@);
        }
        out
    }

    /// The rows that a read range asks for, in order.
    fn take_range(&self, range: &RangeRead, indices: Ghost<Seq<u64>>) -> (r: Vec<T>)
        requires
            self.wf(),
            range_ok(*range, self.row_offsets_spec(), self.row_offsets_spec(), indices@),
        ensures
            r@ == Seq::new(
                (range.indices_stop - range.indices_start) as nat,
                |q: int| self.values()[indices@[range.indices_start + q] as int],
            ),
    {
        proof {
            lemma_offsets_wf(*self);
        }
        let ghost vals = self.values();
        let ghost ro = self.row_offsets@;
        let ghost s = range.indices_start as int;
        let rel = &range.relative_indices;
        let mut rows: Vec<T> = Vec::new();
        let mut i: usize = 0;
        while i < rel.len()
            invariant
                self.wf(),
                vals == self.values(),
                ro == self.row_offsets@,
                ro[ro.len() - 1] == vals.len(),
                offsets_wf(ro),
                range_ok(*range, ro, ro, indices@),
                s == range.indices_start,
                rel == range.relative_indices,
                i <= rel@.len(),
                rows@ == Seq::new(i as nat, |q: int| vals[indices@[s + q] as int]),
            decreases rel@.len() - i,
        {
            let ghost p = s + i;
            assert(rel@[i as int] == (indices@[p] - range.start_row) as u64);
            assert(range.start_row <= indices@[p] < range.stop_row);
            assert(range.stop_row <= vals.len()) by {
                assert(ro[range.stop_chunk as int] <= ro[ro.len() - 1]);
            }
            let row = range.start_row + rel[i];
            rows.push(self.value_at(row));
            i = i + 1;
            assert(rows@ =~= Seq::new(i as nat, |q: int| vals[indices@[s + q] as int]));
        }
        rows
    }

    /// The rows of each range of a plan, range after range.
    #[verifier::rlimit(40)]
    fn read_plan(&self, plan: &Vec<RangeRead>, indices: &[u64]) -> (r: Vec<Vec<T>>)
        requires
            self.wf(),
            ({
                let pl = plan@;
                let ro = self.row_offsets_spec();
                &&& pl.len() > 0 ==> pl[pl.len() - 1].indices_stop == indices@.len()
                &&& pl.len() == 0 ==> indices@.len() == 0
                &&& forall|k: int| 0 <= k < pl.len() ==> range_ok(#[trigger] pl[k], ro, ro, indices@)
                &&& forall|k: int|
                    0 <= k < pl.len() - 1 ==> (#[trigger] pl[k]).indices_stop == pl[k + 1].indices_start
                        && pl[k].stop_chunk <= pl[k + 1].start_chunk
                &&& pl.len() > 0 ==> pl[0].indices_start == 0
            }),
        ensures
            flat(r@) == Seq::new(indices@.len(), |j: int| self.values()[indices@[j] as int]),
            r@.len() < 0x1_0000_0000,
    {
        proof {
            lemma_offsets_wf(*self);
        }
        let ghost vals = self.values();
        let ghost n = indices@.len();
        let ghost ro = self.row_offsets@;
        let ghost pl = plan@;
        let mut out: Vec<Vec<T>> = Vec::new();
        let mut k: usize = 0;
        proof {
            assert(flat(out@) =~= Seq::<T>::empty());
        }
        while k < plan.len()
            invariant
                self.wf(),
                vals == self.values(),
                ro == self.row_offsets@,
                offsets_wf(ro),
                ro[ro.len() - 1] == vals.len(),
                n == indices@.len(),
                pl == plan@,
                pl.len() > 0 ==> pl[pl.len() - 1].indices_stop == n,
                pl.len() == 0 ==> n == 0,
                forall|k: int| 0 <= k < pl.len() ==> range_ok(#[trigger] pl[k], ro, ro, indices@),
                forall|k: int|
                    0 <= k < pl.len() - 1 ==> (#[trigger] pl[k]).indices_stop == pl[k + 1].indices_start
                        && pl[k].stop_chunk <= pl[k + 1].start_chunk,
                pl.len() > 0 ==> pl[0].indices_start == 0,
                k <= plan@.len(),
                out@.len() == k,
                k > 0 ==> plan@[k - 1].stop_chunk >= k,
                flat(out@) == Seq::new(
                    (if k == 0 { 0 } else { plan@[k - 1].indices_stop as int }) as nat,
                    |j: int| vals[indices@[j] as int],
                ),
            decreases plan@.len() - k,
        {
            let range = &plan[k];
            assert(range_ok(*range, ro, ro, indices@));
            let ghost s = range.indices_start as int;
            let ghost prev_stop = if k == 0 { 0 } else { plan@[k - 1].indices_stop as int };
            assert(prev_stop == s) by {
                if k > 0 {
                    assert(plan@[k - 1].indices_stop == plan@[k as int].indices_start);
                }
            }
            assert(k > 0 ==> plan@[k - 1].stop_chunk <= plan@[k as int].start_chunk);
            let rows = self.take_range(range, Ghost(indices@));
            proof {
                lemma_flat_push(out@, rows);
                assert(flat(out@) + rows@ =~= Seq::new(
                    range.indices_stop as nat,
                    |j: int| vals[indices@[j] as int],
                ));
            }
            out.push(rows);
            k = k + 1;
        }
        proof {
            if plan@.len() == 0 {
                assert(n == 0);
            }
            if plan@.len() > 0 {
                assert(plan@[plan@.len() - 1].stop_chunk < ro.len());
            }
        }
        out
    }

    /// The rows at the strictly ascending `indices`, read range by range as the
    /// planner lays them out; unsorted indices are not handled, and a row past
    /// the end is refused.
    pub fn take_rows(&self, indices: &[u64]) -> (r: Result<ChunkedArray<T>, VortexError>)
        requires
            self.wf(),
        ensures
            !strict_sorted(indices@) ==> r is Err && r->Err_0 is NotImplemented,
            strict_sorted(indices@) ==> ((indices@.len() > 0 && indices@[indices@.len() - 1]
                >= self.values().len()) <==> r is Err),
            strict_sorted(indices@) && r is Err ==> r->Err_0 == VortexError::OutOfBounds(
                indices@[indices@.len() - 1] as usize,
                self.values().len() as usize,
            ),
            r is Ok ==> r->Ok_0.wf() && r->Ok_0.values() == Seq::new(
                indices@.len(),
                |j: int| self.values()[indices@[j] as int],
            ),
    {
        proof {
            lemma_offsets_wf(*self);
        }
        let ghost vals = self.values();
        let num_indices = indices.len();
        let ghost n = indices@.len();
        let plan = match plan_take_rows(self.row_offsets.as_slice(), self.row_offsets.as_slice(), indices) {
            Ok(p) => p,
            Err(e) => return Err(e),
        };
        let ghost ro = self.row_offsets@;
        let ghost pl = plan@;
        proof {
            lemma_plan_parts(pl, ro, indices@);
        }
        let out = self.read_plan(&plan, indices);
        match ChunkedArray::try_new(out) {
            Ok(a) => Ok(a),
            Err(e) => Err(e),
        }
    }
}

/// The parts of a well-formed plan that reading it relies on.
proof fn lemma_plan_parts(pl: Seq<RangeRead>, ro: Seq<u64>, indices: Seq<u64>)
    requires
        plan_ok(pl, ro, ro, indices),
    ensures
        pl.len() > 0 ==> pl[pl.len() - 1].indices_stop == indices.len(),
        pl.len() == 0 ==> indices.len() == 0,
        forall|k: int| 0 <= k < pl.len() ==> range_ok(#[trigger] pl[k], ro, ro, indices),
        forall|k: int|
            0 <= k < pl.len() - 1 ==> (#[trigger] pl[k]).indices_stop == pl[k + 1].indices_start
                && pl[k].stop_chunk <= pl[k + 1].start_chunk,
        pl.len() > 0 ==> pl[0].indices_start == 0,
{
    reveal(plan_ok);
}

/// The rows of a prefix of the chunks are no more than all the rows.
proof fn lemma_rows_prefix_le<T>(chunks: Seq<Vec<T>>, c: int)
    requires
        0 <= c <= chunks.len(),
    ensures
        rows_before(chunks, c) <= flat(chunks).len(),
    decreases chunks.len() - c,
{
    if c < chunks.len() {
        lemma_rows_step(chunks, c);
        lemma_rows_prefix_le(chunks, c + 1);
    } else {
        assert(chunks.subrange(0, c) =~= chunks);
    }
}

/// The row offsets of a chunked array start at zero, never decrease, and end at
/// its row count; they strictly increase when no chunk is empty.
pub proof fn lemma_offsets_wf<T>(a: ChunkedArray<T>)
    requires
        a.wf(),
    ensures
        offsets_wf(a.row_offsets_spec()),
        a.row_offsets_spec().len() == a.chunks_spec().len() + 1,
        a.row_offsets_spec()[a.chunks_spec().len() as int] == a.values().len(),
        (forall|c: int| 0 <= c < a.chunks_spec().len() ==> (#[trigger] a.chunks_spec()[c]).len() > 0)
            ==> strict_sorted(a.row_offsets_spec()),
{
    let ch = a.chunks@;
    let ro = a.row_offsets@;
    assert(ch.subrange(0, 0) =~= Seq::<Vec<T>>::empty());
    assert(flat(ch.subrange(0, 0)) =~= Seq::<T>::empty());
    assert(ch.subrange(0, ch.len() as int) =~= ch);
    assert(ro[ch.len() as int] == a.values().len());
    assert forall|i: int, j: int| 0 <= i <= j < ro.len() implies #[trigger] ro[i] <= #[trigger] ro[j] by {
        lemma_rows_monotone(ch, i, j);
    }
    if forall|c: int| 0 <= c < a.chunks_spec().len() ==> (#[trigger] a.chunks_spec()[c]).len() > 0 {
        assert forall|i: int, j: int| 0 <= i < j < ro.len() implies #[trigger] ro[i] < #[trigger] ro[j] by {
            lemma_rows_step(ch, i);
            assert(a.chunks_spec()[i] == ch[i]@);
            assert(a.chunks_spec()[i].len() > 0);
            lemma_rows_monotone(ch, i + 1, j);
        }
    }
}

/// The running row counts never decrease.
proof fn lemma_rows_monotone<T>(chunks: Seq<Vec<T>>, i: int, j: int)
    requires
        0 <= i <= j <= chunks.len(),
    ensures
        rows_before(chunks, i) <= rows_before(chunks, j),
    decreases j - i,
{
    if i < j {
        lemma_rows_step(chunks, i);
        lemma_rows_monotone(chunks, i + 1, j);
    }
}

} // verus!
