//! Static row-block partitioning of the grid among workers, and why any
//! such partition yields the same next field.
use vstd::prelude::*;
use vstd::arithmetic::div_mod::{lemma_fundamental_div_mod, lemma_mod_bound};
use crate::lattice::Q;
use crate::grid::{Grid, lemma_cells_fit};
use crate::stream::{field_ok, pulled};

verus! {

/// `blocks` cuts rows `0..h` into non-empty contiguous half-open ranges,
/// in order, with no gap and no overlap.
pub open spec fn blocks_ok(blocks: Seq<(usize, usize)>, h: int) -> bool {
    &&& blocks.len() > 0
    &&& blocks[0].0 == 0
    &&& blocks.last().1 == h
    &&& forall|j: int| 0 <= j < blocks.len() ==> #[trigger] blocks[j].0 < blocks[j].1
    &&& forall|j: int| 0 <= j < blocks.len() - 1 ==> #[trigger] blocks[j].1 == blocks[j + 1].0
}

/// The pieces laid end to end.
pub open spec fn concat<T>(parts: Seq<Seq<T>>) -> Seq<T>
    decreases parts.len(),
{
    if parts.len() == 0 {
        Seq::empty()
    } else {
        concat(parts.drop_last()) + parts.last()
    }
}

pub open spec fn min_usize(a: usize, b: usize) -> usize {
    if a < b {
        a
    } else {
        b
    }
}

/// Splits rows `0..height` into `min(workers, height)` contiguous blocks
/// whose sizes differ by at most one: the first `height % k` blocks hold
/// one row more than the others.
pub fn row_blocks(height: usize, workers: usize) -> (r: Vec<(usize, usize)>)
    requires
        height > 0,
        workers > 0,
    ensures
        blocks_ok(r@, height as int),
        r@.len() == min_usize(workers, height),
        forall|j: int|
            0 <= j < r@.len() ==> #[trigger] r@[j].1 - r@[j].0 == height as int / r@.len() as int + if j
                < height as int % r@.len() as int {
                1int
            } else {
                0int
            },
{
    let k = if workers < height {
        workers
    } else {
        height
    };
    let base = height / k;
    let extra = height % k;
    proof {
        lemma_fundamental_div_mod(height as int, k as int);
        lemma_mod_bound(height as int, k as int);
        assert(base >= 1) by {
            assert(k * base + extra == height);
            if base == 0 {
                assert(k * base == 0) by (nonlinear_arith)
                    requires
                        base == 0,
                ;
            }
        };
    }
    let mut blocks: Vec<(usize, usize)> = Vec::with_capacity(k);
    let mut start: usize = 0;
    let mut j: usize = 0;
    while j < k
        invariant
            k > 0,
            k <= height,
            base == height / k,
            base >= 1,
            extra == height % k,
            extra < k,
            k * base + extra == height,
            j <= k,
            start as int == j * base + if j < extra { j as int } else { extra as int },
            blocks@.len() == j,
            j > 0 ==> blocks@[0].0 == 0,
            j > 0 ==> blocks@.last().1 == start,
            forall|t: int| 0 <= t < j ==> #[trigger] blocks@[t].0 < blocks@[t].1,
            forall|t: int| 0 <= t < j - 1 ==> #[trigger] blocks@[t].1 == blocks@[t + 1].0,
            forall|t: int|
                0 <= t < j ==> #[trigger] blocks@[t].1 - blocks@[t].0 == base + if t < extra {
                    1int
                } else {
                    0int
                },
        decreases k - j,
    {
        proof {
            assert((j + 1) * base == j * base + base) by (nonlinear_arith);
            assert(j * base + base <= k * base) by (nonlinear_arith)
                requires
                    j < k,
                    base >= 0,
            ;
        }
        let size = if j < extra {
            base + 1
        } else {
            base
        };
        blocks.push((start, start + size));
        start = start + size;
        j += 1;
    }
    blocks
}

/// Pieces that are the consecutive slot ranges of a row partition's blocks
/// in a field lay end to end back into the field.
pub proof fn lemma_blocks_assemble<T>(field: Seq<T>, w: int, h: int, blocks: Seq<(usize, usize)>, parts: Seq<Seq<T>>)
    requires
        0 < w,
        field.len() == h * w * 9,
        blocks_ok(blocks, h),
        parts.len() == blocks.len(),
        forall|j: int|
            0 <= j < blocks.len() ==> #[trigger] parts[j] == field.subrange(
                blocks[j].0 * w * 9,
                blocks[j].1 * w * 9,
            ),
    ensures
        concat(parts) == field,
{
    lemma_prefix_assembles(field, w, h, blocks, parts, parts.len() as int);
    assert(parts.subrange(0, parts.len() as int) =~= parts);
    assert(field.subrange(0, h * w * 9) =~= field);
}

proof fn lemma_prefix_assembles<T>(
    field: Seq<T>,
    w: int,
    h: int,
    blocks: Seq<(usize, usize)>,
    parts: Seq<Seq<T>>,
    j: int,
)
    requires
        0 < w,
        field.len() == h * w * 9,
        blocks_ok(blocks, h),
        parts.len() == blocks.len(),
        forall|t: int|
            0 <= t < blocks.len() ==> #[trigger] parts[t] == field.subrange(
                blocks[t].0 * w * 9,
                blocks[t].1 * w * 9,
            ),
        1 <= j <= parts.len(),
    ensures
        concat(parts.subrange(0, j)) == field.subrange(0, blocks[j - 1].1 * w * 9),
        0 <= blocks[j - 1].1 <= h,
    decreases j,
{
    lemma_block_rows_bounded(blocks, h, j - 1);
    let pre = parts.subrange(0, j);
    assert(pre.drop_last() =~= parts.subrange(0, j - 1));
    let e = blocks[j - 1].1 * w * 9;
    let s = blocks[j - 1].0 * w * 9;
    assert(0 <= s <= e <= h * w * 9) by (nonlinear_arith)
        requires
            0 <= blocks[j - 1].0 <= blocks[j - 1].1 <= h,
            0 < w,
            s == blocks[j - 1].0 * w * 9,
            e == blocks[j - 1].1 * w * 9,
    ;
    if j == 1 {
        assert(parts.subrange(0, 0) =~= Seq::<Seq<T>>::empty());
        assert(concat(parts.subrange(0, 0)) =~= Seq::<T>::empty());
        assert(s == 0);
        assert(concat(pre) =~= field.subrange(0, e));
    } else {
        lemma_prefix_assembles(field, w, h, blocks, parts, j - 1);
        assert(blocks[j - 2].1 == blocks[j - 1].0);
        assert(concat(pre) =~= field.subrange(0, e));
    }
}

proof fn lemma_block_rows_bounded(blocks: Seq<(usize, usize)>, h: int, j: int)
    requires
        blocks_ok(blocks, h),
        0 <= j < blocks.len(),
    ensures
        0 <= blocks[j].0 < blocks[j].1 <= h,
    decreases blocks.len() - j,
{
    if j < blocks.len() - 1 {
        lemma_block_rows_bounded(blocks, h, j + 1);
        assert(blocks[j].1 == blocks[j + 1].0);
    }
}

/// However the rows are split among workers, streaming each block on its
/// own from the same current field and laying the blocks end to end gives
/// one and the same next field: the one the whole grid streamed at once
/// gives. So the result does not depend on the number of workers.
pub proof fn lemma_partition_invariance<T>(
    cur: Seq<T>,
    mask: Seq<bool>,
    w: int,
    h: int,
    blocks: Seq<(usize, usize)>,
    parts: Seq<Seq<T>>,
)
    requires
        field_ok(cur, mask, w, h),
        blocks_ok(blocks, h),
        parts.len() == blocks.len(),
        forall|j: int|
            0 <= j < blocks.len() ==> #[trigger] parts[j] == pulled(cur, mask, w, h).subrange(
                blocks[j].0 * w * 9,
                blocks[j].0 * w * 9 + (blocks[j].1 - blocks[j].0) * w * 9,
            ),
    ensures
        concat(parts) == pulled(cur, mask, w, h),
{
    let field = pulled(cur, mask, w, h);
    assert(h * w * 9 == w * h * 9) by (nonlinear_arith);
    assert forall|j: int| 0 <= j < blocks.len() implies #[trigger] parts[j] == field.subrange(
        blocks[j].0 * w * 9,
        blocks[j].1 * w * 9,
    ) by {
        assert(blocks[j].0 * w * 9 + (blocks[j].1 - blocks[j].0) * w * 9 == blocks[j].1 * w * 9)
            by (nonlinear_arith);
    }
    lemma_blocks_assemble(field, w, h, blocks, parts);
}

impl Grid {
    /// Index of the first slot of row `row`: `row * width * 9`.
    pub fn row_start(&self, row: usize) -> (r: usize)
        requires
            self.wf(),
            row <= self.height,
        ensures
            r == row * self.width * Q,
    {
        proof {
            lemma_cells_fit(self.width as int, self.height as int);
            assert(row * self.width * Q <= self.height * self.width * Q) by (nonlinear_arith)
                requires
                    row <= self.height,
            ;
            assert(self.height * self.width == self.width * self.height) by (nonlinear_arith);
        }
        row * self.width * Q
    }
}

} // verus!
