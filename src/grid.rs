//! The rectangular periodic grid, its run configuration and the circular
//! obstacle embedded in it.
use vstd::prelude::*;
use vstd::arithmetic::div_mod::*;
use crate::lattice::Q;

verus! {

/// Dimensions of the periodic grid, in cells.
#[derive(Clone, Copy, Debug, PartialEq, Eq)]
pub struct Grid {
    pub width: usize,
    pub height: usize,
}

/// Why a run configuration was rejected.
#[derive(Clone, Copy, Debug, PartialEq, Eq)]
pub enum ConfigError {
    ZeroWorkers,
    ZeroWidth,
    ZeroHeight,
    /// The distribution field (nine values per cell) would not fit in memory.
    TooLarge,
}

/// A validated run: the number of workers, the grid and the number of steps.
#[derive(Clone, Copy, Debug, PartialEq, Eq)]
pub struct RunConfig {
    pub workers: usize,
    pub grid: Grid,
    pub iterations: usize,
}

/// A grid of these dimensions can be simulated: at least one cell each way,
/// and one slot per direction and cell addressable by `usize`.
pub open spec fn dims_ok(w: int, h: int) -> bool {
    &&& 0 < w
    &&& 0 < h
    &&& w * h * 9 <= usize::MAX as int
}

/// The cell one step `(dx, dy)` away from `cell`, wrapping round both axes.
pub open spec fn spec_neighbor(w: int, h: int, cell: int, dx: int, dy: int) -> int {
    ((cell / w + dy) % h) * w + (cell % w + dx) % w
}

/// Centre and radius of the obstacle: a quarter of the width across, half
/// the height up, radius a tenth of the height.
pub open spec fn obstacle_cx(w: int) -> int {
    w / 4
}

pub open spec fn obstacle_cy(h: int) -> int {
    h / 2
}

pub open spec fn obstacle_r(h: int) -> int {
    h / 10
}

/// Whether cell `(x, y)` lies in the closed disc of the obstacle.
pub open spec fn in_obstacle(w: int, h: int, x: int, y: int) -> bool {
    (x - obstacle_cx(w)) * (x - obstacle_cx(w)) + (y - obstacle_cy(h)) * (y - obstacle_cy(h))
        <= obstacle_r(h) * obstacle_r(h)
}

/// The obstacle mask in row-major cell order.
pub open spec fn spec_mask(w: int, h: int) -> Seq<bool> {
    Seq::new((w * h) as nat, |c: int| in_obstacle(w, h, c % w, c / w))
}

impl Grid {
    pub open spec fn wf(&self) -> bool {
        dims_ok(self.width as int, self.height as int)
    }

    /// Number of cells.
    pub fn cells(&self) -> (r: usize)
        requires
            self.wf(),
        ensures
            r == self.width * self.height,
    {
        proof {
            lemma_cells_fit(self.width as int, self.height as int);
        }
        self.width * self.height
    }

    /// Number of values of a distribution field: nine per cell.
    pub fn slots(&self) -> (r: usize)
        requires
            self.wf(),
        ensures
            r == self.width * self.height * Q,
    {
        self.width * self.height * Q
    }

    /// The cell one step `(dx, dy)` away from `cell`, with periodic wraparound.
    pub fn neighbor(&self, cell: usize, dx: i8, dy: i8) -> (r: usize)
        requires
            self.wf(),
            cell < self.width * self.height,
            -1 <= dx <= 1,
            -1 <= dy <= 1,
        ensures
            r as int == spec_neighbor(self.width as int, self.height as int, cell as int, dx as int, dy as int),
            r < self.width * self.height,
    {
        let w = self.width;
        let h = self.height;
        proof {
            lemma_cells_fit(w as int, h as int);
            lemma_cell_coords(w as int, h as int, cell as int);
        }
        let x = wrap_step(cell % w, dx, w);
        let y = wrap_step(cell / w, dy, h);
        proof {
            lemma_cell_index_bound(w as int, h as int, x as int, y as int);
        }
        y * w + x
    }

    /// The obstacle mask: one flag per cell in row-major order, set where the
    /// cell's squared distance to the obstacle centre is at most the squared
    /// radius.
    pub fn obstacle_mask(&self) -> (r: Vec<bool>)
        requires
            self.wf(),
        ensures
            r@ == spec_mask(self.width as int, self.height as int),
    {
        let w = self.width;
        let h = self.height;
        let n = self.cells();
        let mut mask: Vec<bool> = Vec::with_capacity(n);
        let mut c: usize = 0;
        while c < n
            invariant
                self.wf(),
                w == self.width,
                h == self.height,
                n == w * h,
                c <= n,
                mask@.len() == c,
                forall|k: int| 0 <= k < c ==> mask@[k] == in_obstacle(w as int, h as int, k % w as int, k / w as int),
            decreases n - c,
        {
            let b = cell_in_obstacle(w, h, c % w, c / w);
            mask.push(b);
            c += 1;
        }
        assert(mask@ =~= spec_mask(w as int, h as int));
        mask
    }
}

impl RunConfig {
    /// Validates a run: workers, width and height must be positive and the
    /// field must be addressable; otherwise the first failing condition, in
    /// that order, is reported.
    pub fn new(workers: usize, width: usize, height: usize, iterations: usize) -> (r: Result<RunConfig, ConfigError>)
        ensures
            workers == 0 ==> r == Err::<RunConfig, ConfigError>(ConfigError::ZeroWorkers),
            workers > 0 && width == 0 ==> r == Err::<RunConfig, ConfigError>(ConfigError::ZeroWidth),
            workers > 0 && width > 0 && height == 0 ==> r == Err::<RunConfig, ConfigError>(ConfigError::ZeroHeight),
            workers > 0 && width > 0 && height > 0 && !dims_ok(width as int, height as int) ==> r
                == Err::<RunConfig, ConfigError>(ConfigError::TooLarge),
            workers > 0 && dims_ok(width as int, height as int) ==> r == Ok::<RunConfig, ConfigError>(
                RunConfig { workers, grid: Grid { width, height }, iterations },
            ),
    {
        if workers == 0 {
            return Err(ConfigError::ZeroWorkers);
        }
        if width == 0 {
            return Err(ConfigError::ZeroWidth);
        }
        if height == 0 {
            return Err(ConfigError::ZeroHeight);
        }
        let cells = width.checked_mul(height);
        match cells {
            None => {
                proof {
                    lemma_mul_grows(width as int, height as int);
                }
                Err(ConfigError::TooLarge)
            },
            Some(c) => match c.checked_mul(Q) {
                None => Err(ConfigError::TooLarge),
                Some(_) => Ok(RunConfig { workers, grid: Grid { width, height }, iterations }),
            },
        }
    }

    pub open spec fn wf(&self) -> bool {
        self.workers > 0 && self.grid.wf()
    }

    /// A single worker takes the sequential push-model stepper; more take
    /// the row-block parallel pull-model stepper.
    pub fn is_sequential(&self) -> (r: bool)
        ensures
            r == (self.workers == 1),
    {
        self.workers == 1
    }
}

/// `(c + d) mod n` for a coordinate `c < n` and a step `d` of at most one.
pub fn wrap_step(c: usize, d: i8, n: usize) -> (r: usize)
    requires
        c < n,
        -1 <= d <= 1,
    ensures
        r as int == (c as int + d as int) % (n as int),
        r < n,
{
    proof {
        lemma_step_mod(c as int, d as int, n as int);
    }
    if d > 0 {
        if c + 1 == n {
            0
        } else {
            c + 1
        }
    } else if d < 0 {
        if c == 0 {
            n - 1
        } else {
            c - 1
        }
    } else {
        c
    }
}

/// Whether cell `(x, y)` of a `w` by `h` grid lies inside the obstacle.
pub fn cell_in_obstacle(w: usize, h: usize, x: usize, y: usize) -> (r: bool)
    ensures
        r == in_obstacle(w as int, h as int, x as int, y as int),
{
    let cx = w / 4;
    let cy = h / 2;
    let rad = h / 10;
    let dx: usize = if x >= cx { x - cx } else { cx - x };
    let dy: usize = if y >= cy { y - cy } else { cy - y };
    let ghost sx = x as int - cx as int;
    let ghost sy = y as int - cy as int;
    assert(sx * sx == dx * dx && sy * sy == dy * dy) by (nonlinear_arith)
        requires
            dx as int == sx || dx as int == -sx,
            dy as int == sy || dy as int == -sy,
    ;
    if dx > rad || dy > rad {
        assert(dx * dx + dy * dy > rad * rad) by (nonlinear_arith)
            requires
                dx > rad || dy > rad,
        ;
        false
    } else {
        assert(rad < 0x2000_0000_0000_0000) by {
            assert(h as int <= usize::MAX as int);
        };
        assert(dx * dx <= 0x2000_0000_0000_0000 * 0x2000_0000_0000_0000
            && dy * dy <= 0x2000_0000_0000_0000 * 0x2000_0000_0000_0000
            && rad * rad <= 0x2000_0000_0000_0000 * 0x2000_0000_0000_0000
            && dx * dx + dy * dy <= 2 * 0x2000_0000_0000_0000 * 0x2000_0000_0000_0000) by (nonlinear_arith)
            requires
                dx <= rad,
                dy <= rad,
                rad < 0x2000_0000_0000_0000,
        ;
        let dx2 = dx as u128 * dx as u128;
        let dy2 = dy as u128 * dy as u128;
        let r2 = rad as u128 * rad as u128;
        dx2 + dy2 <= r2
    }
}

proof fn lemma_mul_grows(a: int, b: int)
    requires
        a > 0,
        b > 0,
    ensures
        a * b * 9 >= a * b,
{
    assert(a * b * 9 >= a * b) by (nonlinear_arith)
        requires
            a > 0,
            b > 0,
    ;
}

/// `w * h` fits whenever the whole field does.
pub proof fn lemma_cells_fit(w: int, h: int)
    requires
        dims_ok(w, h),
    ensures
        0 < w * h,
        w * h * 9 <= usize::MAX as int,
        w * h <= usize::MAX as int,
{
    assert(0 < w * h) by (nonlinear_arith)
        requires
            0 < w,
            0 < h,
    ;
}

/// A cell index splits into its column and row.
pub proof fn lemma_cell_coords(w: int, h: int, c: int)
    requires
        0 < w,
        0 < h,
        0 <= c < w * h,
    ensures
        0 <= c % w < w,
        0 <= c / w < h,
        c == (c / w) * w + c % w,
{
    lemma_fundamental_div_mod(c, w);
    lemma_mod_pos_bound(c, w);
    lemma_div_pos_is_pos(c, w);
    assert(c / w < h) by {
        lemma_multiply_divide_lt(c, w, h);
        assert(h * w == w * h) by (nonlinear_arith);
        lemma_div_multiples_vanish(h, w);
    };
    assert(c == (c / w) * w + c % w) by (nonlinear_arith)
        requires
            c == w * (c / w) + c % w,
    ;
}

/// The cell at column `x` and row `y` has index `y * w + x`, below `w * h`,
/// and that index gives back `x` and `y`.
pub proof fn lemma_cell_index_bound(w: int, h: int, x: int, y: int)
    requires
        0 <= x < w,
        0 <= y < h,
    ensures
        0 <= y * w + x < w * h,
        (y * w + x) % w == x,
        (y * w + x) / w == y,
{
    assert(0 <= y * w + x < w * h) by (nonlinear_arith)
        requires
            0 <= x < w,
            0 <= y < h,
    ;
    lemma_fundamental_div_mod_converse(y * w + x, w, y, x);
}

proof fn lemma_step_mod(c: int, d: int, n: int)
    requires
        0 <= c < n,
        -1 <= d <= 1,
    ensures
        d > 0 && c + 1 == n ==> (c + d) % n == 0,
        d > 0 && c + 1 < n ==> (c + d) % n == c + 1,
        d < 0 && c == 0 ==> (c + d) % n == n - 1,
        d < 0 && c > 0 ==> (c + d) % n == c - 1,
        d == 0 ==> (c + d) % n == c,
{
    if d > 0 && c + 1 == n {
        lemma_mod_self_0(n);
    } else if d < 0 && c == 0 {
        lemma_fundamental_div_mod_converse(c + d, n, -1, n - 1);
    } else {
        lemma_small_mod((c + d) as nat, n as nat);
    }
}

} // verus!
