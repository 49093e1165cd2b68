//! The D2Q9 lattice: nine discrete velocities, their weights and the
//! table of opposite directions.
use vstd::prelude::*;

verus! {

/// Number of discrete velocity directions of the D2Q9 model.
pub const Q: usize = 9;

/// Common denominator of the lattice weights: weight `i` is `weight_36(i) / 36`.
pub const WEIGHT_DENOM: u8 = 36;

pub open spec fn spec_dir_x(i: int) -> int {
    if i == 1 || i == 5 || i == 8 {
        1
    } else if i == 3 || i == 6 || i == 7 {
        -1
    } else {
        0
    }
}

pub open spec fn spec_dir_y(i: int) -> int {
    if i == 2 || i == 5 || i == 6 {
        1
    } else if i == 4 || i == 7 || i == 8 {
        -1
    } else {
        0
    }
}

pub open spec fn spec_opposite(i: int) -> int {
    if i == 0 {
        0
    } else if i == 1 {
        3
    } else if i == 2 {
        4
    } else if i == 3 {
        1
    } else if i == 4 {
        2
    } else if i == 5 {
        7
    } else if i == 6 {
        8
    } else if i == 7 {
        5
    } else {
        6
    }
}

pub open spec fn spec_weight_36(i: int) -> int {
    if i == 0 {
        16
    } else if 1 <= i <= 4 {
        4
    } else {
        1
    }
}

/// x component of the velocity of direction `i`.
pub fn dir_x(i: usize) -> (r: i8)
    requires
        i < Q,
    ensures
        r as int == spec_dir_x(i as int),
{
    if i == 1 || i == 5 || i == 8 {
        1
    } else if i == 3 || i == 6 || i == 7 {
        -1
    } else {
        0
    }
}

/// y component of the velocity of direction `i`.
pub fn dir_y(i: usize) -> (r: i8)
    requires
        i < Q,
    ensures
        r as int == spec_dir_y(i as int),
{
    if i == 2 || i == 5 || i == 6 {
        1
    } else if i == 4 || i == 7 || i == 8 {
        -1
    } else {
        0
    }
}

/// The direction pointing the other way from `i`, used by bounce-back.
pub fn opposite(i: usize) -> (r: usize)
    requires
        i < Q,
    ensures
        r as int == spec_opposite(i as int),
        r < Q,
{
    if i == 0 {
        0
    } else if i == 1 {
        3
    } else if i == 2 {
        4
    } else if i == 3 {
        1
    } else if i == 4 {
        2
    } else if i == 5 {
        7
    } else if i == 6 {
        8
    } else if i == 7 {
        5
    } else {
        6
    }
}

/// Numerator of the weight of direction `i` over `WEIGHT_DENOM`:
/// 4/9 for the rest velocity, 1/9 for the axes, 1/36 for the diagonals.
pub fn weight_36(i: usize) -> (r: u8)
    requires
        i < Q,
    ensures
        r as int == spec_weight_36(i as int),
{
    if i == 0 {
        16
    } else if i <= 4 {
        4
    } else {
        1
    }
}

/// The lattice tables are consistent: the weights sum to one, direction 0
/// is the rest velocity, every velocity is a unit step on each axis, and
/// `opposite` is an involution that negates the velocity.
pub proof fn lemma_lattice_invariants()
    ensures
        spec_weight_36(0) + spec_weight_36(1) + spec_weight_36(2) + spec_weight_36(3)
            + spec_weight_36(4) + spec_weight_36(5) + spec_weight_36(6) + spec_weight_36(7)
            + spec_weight_36(8) == WEIGHT_DENOM as int,
        spec_dir_x(0) == 0 && spec_dir_y(0) == 0,
        forall|i: int|
            0 <= i < 9 ==> {
                &&& 0 <= #[trigger] spec_opposite(i) < 9
                &&& spec_opposite(spec_opposite(i)) == i
                &&& spec_dir_x(spec_opposite(i)) == -spec_dir_x(i)
                &&& spec_dir_y(spec_opposite(i)) == -spec_dir_y(i)
                &&& -1 <= spec_dir_x(i) <= 1
                &&& -1 <= spec_dir_y(i) <= 1
                &&& spec_weight_36(spec_opposite(i)) == spec_weight_36(i)
            },
{
}

} // verus!
