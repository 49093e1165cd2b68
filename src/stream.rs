//! Streaming with bounce-back on a periodic grid, in both formulations:
//! push (each fluid slot sends its population to the neighbour it moves
//! to) and pull (each fluid slot fetches the population that arrives at
//! it). Populations are opaque values: streaming only moves them.
//!
//! A distribution field holds nine slots per cell, cell-major: slot
//! `cell * 9 + i` is direction `i` of cell `cell`, and cells are numbered
//! in row-major order, so the rows of a block are one contiguous run.
use vstd::prelude::*;
use vstd::arithmetic::div_mod::*;
use crate::lattice::{Q, spec_dir_x, spec_dir_y, spec_opposite, dir_x, dir_y, opposite, lemma_lattice_invariants};
use crate::grid::{Grid, dims_ok, spec_neighbor, lemma_cells_fit, lemma_cell_coords, lemma_cell_index_bound};

verus! {

/// A field and a mask fit a `w` by `h` grid.
pub open spec fn field_ok<T>(cur: Seq<T>, mask: Seq<bool>, w: int, h: int) -> bool {
    &&& dims_ok(w, h)
    &&& cur.len() == w * h * 9
    &&& mask.len() == w * h
}

/// The slot whose population arrives at fluid slot `m` in one step: the
/// same direction of the upwind neighbour, or, where that neighbour is
/// solid, the opposite direction of `m`'s own cell (bounce-back).
pub open spec fn pull_source(mask: Seq<bool>, w: int, h: int, m: int) -> int {
    let c = m / 9;
    let i = m % 9;
    let p = spec_neighbor(w, h, c, -spec_dir_x(i), -spec_dir_y(i));
    if mask[p] {
        c * 9 + spec_opposite(i)
    } else {
        p * 9 + i
    }
}

/// The slot that the population of fluid slot `n` moves to in one step:
/// the same direction of the downwind neighbour, or, where that neighbour
/// is solid, the opposite direction of `n`'s own cell (bounce-back).
pub open spec fn push_target(mask: Seq<bool>, w: int, h: int, n: int) -> int {
    let c = n / 9;
    let i = n % 9;
    let q = spec_neighbor(w, h, c, spec_dir_x(i), spec_dir_y(i));
    if mask[q] {
        c * 9 + spec_opposite(i)
    } else {
        q * 9 + i
    }
}

/// Slot `n` belongs to a fluid (unmasked) cell.
pub open spec fn is_fluid(mask: Seq<bool>, n: int) -> bool {
    !mask[n / 9]
}

/// The field after one pull-model streaming step: a fluid slot takes the
/// population of its source; a solid slot keeps its own.
pub open spec fn pulled<T>(cur: Seq<T>, mask: Seq<bool>, w: int, h: int) -> Seq<T> {
    Seq::new(
        cur.len(),
        |m: int|
            if is_fluid(mask, m) {
                cur[pull_source(mask, w, h, m)]
            } else {
                cur[m]
            },
    )
}

/// The field after one push-model streaming step: a slot that some fluid
/// slot sends to holds what was sent; any other slot keeps its own.
pub open spec fn pushed<T>(cur: Seq<T>, mask: Seq<bool>, w: int, h: int) -> Seq<T> {
    Seq::new(
        cur.len(),
        |m: int|
            if exists|n: int| 0 <= n < cur.len() && is_fluid(mask, n) && push_target(mask, w, h, n) == m {
                cur[choose|n: int| 0 <= n < cur.len() && is_fluid(mask, n) && push_target(mask, w, h, n) == m]
            } else {
                cur[m]
            },
    )
}

proof fn lemma_mod_shift_back(x: int, d: int, m: int)
    requires
        0 <= x < m,
    ensures
        ((x + d) % m - d) % m == x,
{
    lemma_add_mod_noop(x + d, -d, m);
    lemma_add_mod_noop_right((x + d) % m, -d, m);
    lemma_small_mod(x as nat, m as nat);
}

/// Stepping to a neighbour and back returns to the starting cell.
pub proof fn lemma_neighbor_inverse(w: int, h: int, c: int, dx: int, dy: int)
    requires
        0 < w,
        0 < h,
        0 <= c < w * h,
    ensures
        0 <= spec_neighbor(w, h, c, dx, dy) < w * h,
        spec_neighbor(w, h, spec_neighbor(w, h, c, dx, dy), -dx, -dy) == c,
{
    lemma_cell_coords(w, h, c);
    let x = c % w;
    let y = c / w;
    let x1 = (x + dx) % w;
    let y1 = (y + dy) % h;
    lemma_mod_bound(x + dx, w);
    lemma_mod_bound(y + dy, h);
    lemma_cell_index_bound(w, h, x1, y1);
    lemma_mod_shift_back(x, dx, w);
    lemma_mod_shift_back(y, dy, h);
    assert(x1 + -dx == x1 - dx);
    assert(y1 + -dy == y1 - dy);
}

proof fn lemma_slot_split(c: int, i: int)
    requires
        0 <= i < 9,
    ensures
        (c * 9 + i) / 9 == c,
        (c * 9 + i) % 9 == i,
{
    lemma_fundamental_div_mod_converse(c * 9 + i, 9, c, i);
}

proof fn lemma_slot_of(n: int)
    requires
        0 <= n,
    ensures
        n == (n / 9) * 9 + n % 9,
        0 <= n % 9 < 9,
{
    lemma_fundamental_div_mod(n, 9);
}

/// Pull sources and push targets of fluid slots are fluid slots of the
/// field, and each undoes the other.
pub proof fn lemma_source_target(mask: Seq<bool>, w: int, h: int, m: int)
    requires
        dims_ok(w, h),
        mask.len() == w * h,
        0 <= m < w * h * 9,
        is_fluid(mask, m),
    ensures
        0 <= pull_source(mask, w, h, m) < w * h * 9,
        is_fluid(mask, pull_source(mask, w, h, m)),
        push_target(mask, w, h, pull_source(mask, w, h, m)) == m,
        0 <= push_target(mask, w, h, m) < w * h * 9,
        is_fluid(mask, push_target(mask, w, h, m)),
        pull_source(mask, w, h, push_target(mask, w, h, m)) == m,
{
    lemma_lattice_invariants();
    lemma_cells_fit(w, h);
    let c = m / 9;
    let i = m % 9;
    lemma_slot_of(m);
    assert(0 <= c < w * h);
    let dx = spec_dir_x(i);
    let dy = spec_dir_y(i);
    let oi = spec_opposite(i);
    assert(spec_opposite(oi) == i);
    assert(spec_dir_x(oi) == -dx && spec_dir_y(oi) == -dy);
    // pull side
    let p = spec_neighbor(w, h, c, -dx, -dy);
    lemma_neighbor_inverse(w, h, c, -dx, -dy);
    assert(--dx == dx && --dy == dy);
    lemma_slot_split(c, oi);
    lemma_slot_split(p, i);
    lemma_slot_split(c, i);
    assert(p * 9 + i < w * h * 9);
    assert(c * 9 + oi < w * h * 9);
    // push side
    let q = spec_neighbor(w, h, c, dx, dy);
    lemma_neighbor_inverse(w, h, c, dx, dy);
    lemma_slot_split(q, i);
    assert(q * 9 + i < w * h * 9);
}

/// Streaming moves the populations of fluid slots among fluid slots one
/// to one, and leaves solid slots alone: `pull_source` maps the fluid
/// slots onto the fluid slots with inverse `push_target`, so every fluid
/// population ends up in exactly one fluid slot and the total carried by
/// the fluid is conserved.
pub proof fn lemma_stream_permutes_fluid<T>(cur: Seq<T>, mask: Seq<bool>, w: int, h: int)
    requires
        field_ok(cur, mask, w, h),
    ensures
        forall|m: int|
            0 <= m < cur.len() && is_fluid(mask, m) ==> {
                &&& 0 <= #[trigger] pull_source(mask, w, h, m) < cur.len()
                &&& is_fluid(mask, pull_source(mask, w, h, m))
                &&& push_target(mask, w, h, pull_source(mask, w, h, m)) == m
            },
        forall|n: int|
            0 <= n < cur.len() && is_fluid(mask, n) ==> {
                &&& 0 <= #[trigger] push_target(mask, w, h, n) < cur.len()
                &&& is_fluid(mask, push_target(mask, w, h, n))
                &&& pull_source(mask, w, h, push_target(mask, w, h, n)) == n
            },
        forall|m: int|
            0 <= m < cur.len() && !is_fluid(mask, m) ==> #[trigger] pulled(cur, mask, w, h)[m] == cur[m],
        pulled(cur, mask, w, h).len() == cur.len(),
{
    assert forall|m: int| 0 <= m < cur.len() && is_fluid(mask, m) implies {
        &&& 0 <= #[trigger] pull_source(mask, w, h, m) < cur.len()
        &&& is_fluid(mask, pull_source(mask, w, h, m))
        &&& push_target(mask, w, h, pull_source(mask, w, h, m)) == m
    } by {
        lemma_source_target(mask, w, h, m);
    }
    assert forall|n: int| 0 <= n < cur.len() && is_fluid(mask, n) implies {
        &&& 0 <= #[trigger] push_target(mask, w, h, n) < cur.len()
        &&& is_fluid(mask, push_target(mask, w, h, n))
        &&& pull_source(mask, w, h, push_target(mask, w, h, n)) == n
    } by {
        lemma_source_target(mask, w, h, n);
    }
}

/// The field after `k` streaming steps.
pub open spec fn pulled_steps<T>(cur: Seq<T>, mask: Seq<bool>, w: int, h: int, k: nat) -> Seq<T>
    decreases k,
{
    if k == 0 {
        cur
    } else {
        pulled(pulled_steps(cur, mask, w, h, (k - 1) as nat), mask, w, h)
    }
}

/// Solid cells are never streamed into or out of: no fluid population
/// enters a solid slot in any step, and after any number of steps every
/// solid slot still holds the population it started with.
pub proof fn lemma_obstacle_invariance<T>(cur: Seq<T>, mask: Seq<bool>, w: int, h: int, k: nat)
    requires
        field_ok(cur, mask, w, h),
    ensures
        pulled_steps(cur, mask, w, h, k).len() == cur.len(),
        forall|m: int|
            0 <= m < cur.len() && !is_fluid(mask, m) ==> #[trigger] pulled_steps(cur, mask, w, h, k)[m] == cur[m],
        forall|n: int|
            0 <= n < cur.len() && is_fluid(mask, n) ==> is_fluid(mask, #[trigger] push_target(mask, w, h, n)),
    decreases k,
{
    lemma_stream_permutes_fluid(cur, mask, w, h);
    if k > 0 {
        let prev = pulled_steps(cur, mask, w, h, (k - 1) as nat);
        lemma_obstacle_invariance(cur, mask, w, h, (k - 1) as nat);
        lemma_stream_permutes_fluid(prev, mask, w, h);
    }
}

/// Push and pull streaming agree: scattering every fluid population to its
/// target gives, slot for slot, the field that gathering from the sources
/// gives.
pub proof fn lemma_push_equals_pull<T>(cur: Seq<T>, mask: Seq<bool>, w: int, h: int)
    requires
        field_ok(cur, mask, w, h),
    ensures
        pushed(cur, mask, w, h) == pulled(cur, mask, w, h),
{
    lemma_stream_permutes_fluid(cur, mask, w, h);
    let a = pushed(cur, mask, w, h);
    let b = pulled(cur, mask, w, h);
    assert forall|m: int| 0 <= m < cur.len() implies a[m] == b[m] by {
        let ex = exists|n: int| 0 <= n < cur.len() && is_fluid(mask, n) && push_target(mask, w, h, n) == m;
        if is_fluid(mask, m) {
            let s = pull_source(mask, w, h, m);
            assert(0 <= s < cur.len() && is_fluid(mask, s) && push_target(mask, w, h, s) == m);
            let n = choose|n: int| 0 <= n < cur.len() && is_fluid(mask, n) && push_target(mask, w, h, n) == m;
            assert(pull_source(mask, w, h, push_target(mask, w, h, n)) == n);
        } else {
            if ex {
                let n = choose|n: int| 0 <= n < cur.len() && is_fluid(mask, n) && push_target(mask, w, h, n) == m;
                assert(is_fluid(mask, push_target(mask, w, h, n)));
            }
        }
    }
    assert(a =~= b);
}

/// The field after `k` push-model streaming steps.
pub open spec fn pushed_steps<T>(cur: Seq<T>, mask: Seq<bool>, w: int, h: int, k: nat) -> Seq<T>
    decreases k,
{
    if k == 0 {
        cur
    } else {
        pushed(pushed_steps(cur, mask, w, h, (k - 1) as nat), mask, w, h)
    }
}

/// Runs of the same length from the same field agree whichever streaming
/// formulation each step uses: `k` push steps give the field that `k` pull
/// steps give.
pub proof fn lemma_push_pull_runs_agree<T>(cur: Seq<T>, mask: Seq<bool>, w: int, h: int, k: nat)
    requires
        field_ok(cur, mask, w, h),
    ensures
        pushed_steps(cur, mask, w, h, k) == pulled_steps(cur, mask, w, h, k),
    decreases k,
{
    if k > 0 {
        lemma_push_pull_runs_agree(cur, mask, w, h, (k - 1) as nat);
        lemma_obstacle_invariance(cur, mask, w, h, (k - 1) as nat);
        lemma_push_equals_pull(pulled_steps(cur, mask, w, h, (k - 1) as nat), mask, w, h);
    }
}

/// The population that one streaming step brings to slot `n`.
fn pull_slot<T: Copy>(cur: &Vec<T>, mask: &Vec<bool>, grid: Grid, n: usize) -> (r: T)
    requires
        grid.wf(),
        field_ok(cur@, mask@, grid.width as int, grid.height as int),
        n < cur@.len(),
    ensures
        r == pulled(cur@, mask@, grid.width as int, grid.height as int)[n as int],
{
    let ghost w = grid.width as int;
    let ghost h = grid.height as int;
    proof {
        lemma_cells_fit(w, h);
        lemma_slot_of(n as int);
    }
    let c = n / Q;
    let i = n % Q;
    if mask[c] {
        cur[n]
    } else {
        let p = grid.neighbor(c, -dir_x(i), -dir_y(i));
        proof {
            lemma_source_target(mask@, w, h, n as int);
        }
        if mask[p] {
            cur[c * Q + opposite(i)]
        } else {
            cur[p * Q + i]
        }
    }
}

/// Pull-model streaming of the rows from `first_row` on into `out`, which
/// holds the following `out.len()` slots of the next field. Reads only
/// `cur` and writes only `out`, so workers given disjoint row blocks of
/// the next field can run at once.
pub fn stream_pull_rows<T: Copy>(cur: &Vec<T>, mask: &Vec<bool>, grid: Grid, first_row: usize, out: &mut [T])
    requires
        grid.wf(),
        field_ok(cur@, mask@, grid.width as int, grid.height as int),
        first_row <= grid.height,
        first_row * grid.width * Q + old(out)@.len() <= cur@.len(),
    ensures
        final(out)@ == pulled(cur@, mask@, grid.width as int, grid.height as int).subrange(
            first_row * grid.width * Q,
            first_row * grid.width * Q + old(out)@.len(),
        ),
{
    let ghost w = grid.width as int;
    let ghost h = grid.height as int;
    let ghost full = pulled(cur@, mask@, w, h);
    let ghost len = out@.len();
    proof {
        lemma_cells_fit(w, h);
        assert(first_row * grid.width * Q <= grid.height * grid.width * Q) by (nonlinear_arith)
            requires
                first_row <= grid.height,
        ;
        assert(grid.height * grid.width == grid.width * grid.height) by (nonlinear_arith);
    }
    let start = first_row * grid.width * Q;
    let n = out.len();
    let mut k: usize = 0;
    while k < n
        invariant
            grid.wf(),
            field_ok(cur@, mask@, w, h),
            w == grid.width,
            h == grid.height,
            full == pulled(cur@, mask@, w, h),
            n == len,
            out@.len() == len,
            start + len <= cur@.len(),
            k <= n,
            forall|j: int| 0 <= j < k ==> out@[j] == full[start + j],
        decreases n - k,
    {
        let v = pull_slot(cur, mask, grid, start + k);
        out[k] = v;
        k += 1;
    }
    assert(out@ =~= full.subrange(start as int, start + len));
}

/// One push-model streaming step: a copy of `cur` into which every fluid
/// slot writes its population at its target.
pub fn stream_push<T: Copy>(cur: &Vec<T>, mask: &Vec<bool>, grid: Grid) -> (r: Vec<T>)
    requires
        grid.wf(),
        field_ok(cur@, mask@, grid.width as int, grid.height as int),
    ensures
        r@ == pushed(cur@, mask@, grid.width as int, grid.height as int),
        r@ == pulled(cur@, mask@, grid.width as int, grid.height as int),
{
    let ghost w = grid.width as int;
    let ghost h = grid.height as int;
    proof {
        lemma_cells_fit(w, h);
        lemma_stream_permutes_fluid(cur@, mask@, w, h);
        lemma_push_equals_pull(cur@, mask@, w, h);
    }
    let len = cur.len();
    let mut next: Vec<T> = Vec::with_capacity(len);
    let mut k: usize = 0;
    while k < len
        invariant
            len == cur@.len(),
            k <= len,
            next@ == cur@.subrange(0, k as int),
        decreases len - k,
    {
        next.push(cur[k]);
        k += 1;
    }
    assert(next@ =~= cur@);
    let mut n: usize = 0;
    while n < len
        invariant
            grid.wf(),
            field_ok(cur@, mask@, w, h),
            w == grid.width,
            h == grid.height,
            len == cur@.len(),
            next@.len() == len,
            n <= len,
            forall|m: int|
                0 <= m < cur@.len() && is_fluid(mask@, m) ==> {
                    &&& 0 <= #[trigger] pull_source(mask@, w, h, m) < cur@.len()
                    &&& is_fluid(mask@, pull_source(mask@, w, h, m))
                    &&& push_target(mask@, w, h, pull_source(mask@, w, h, m)) == m
                },
            forall|m: int|
                0 <= m < cur@.len() && is_fluid(mask@, m) ==> {
                    &&& 0 <= #[trigger] push_target(mask@, w, h, m) < cur@.len()
                    &&& is_fluid(mask@, push_target(mask@, w, h, m))
                    &&& pull_source(mask@, w, h, push_target(mask@, w, h, m)) == m
                },
            forall|m: int|
                0 <= m < len ==> #[trigger] next@[m] == if is_fluid(mask@, m) && pull_source(mask@, w, h, m) < n {
                    cur@[pull_source(mask@, w, h, m)]
                } else {
                    cur@[m]
                },
        decreases len - n,
    {
        proof {
            lemma_slot_of(n as int);
        }
        let c = n / Q;
        let i = n % Q;
        if !mask[c] {
            let q = grid.neighbor(c, dir_x(i), dir_y(i));
            let t = if mask[q] {
                c * Q + opposite(i)
            } else {
                q * Q + i
            };
            assert(t == push_target(mask@, w, h, n as int));
            next[t] = cur[n];
            proof {
                assert forall|m: int| 0 <= m < len implies #[trigger] next@[m] == if is_fluid(mask@, m) && pull_source(mask@, w, h, m) < n + 1 {
                    cur@[pull_source(mask@, w, h, m)]
                } else {
                    cur@[m]
                } by {
                    if m != t && is_fluid(mask@, m) {
                        assert(pull_source(mask@, w, h, m) != n);
                    }
                }
            }
        } else {
            proof {
                assert forall|m: int| 0 <= m < len implies #[trigger] next@[m] == if is_fluid(mask@, m) && pull_source(mask@, w, h, m) < n + 1 {
                    cur@[pull_source(mask@, w, h, m)]
                } else {
                    cur@[m]
                } by {
                    if is_fluid(mask@, m) {
                        assert(pull_source(mask@, w, h, m) != n);
                    }
                }
            }
        }
        n += 1;
    }
    assert(next@ =~= pulled(cur@, mask@, w, h));
    next
}

} // verus!
