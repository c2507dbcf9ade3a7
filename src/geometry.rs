//! World-space positions in fixed point.
//!
//! One board tile is `UNITS_PER_TILE` units wide, so a position is held as
//! three whole numbers. Board cell `(file, rank)` has its centre at
//! `(file, 0, rank)` tiles.

use vstd::prelude::*;

verus! {

/// Number of files, and of ranks, on the board.
pub const BOARD_SIZE: u8 = 8;

/// Fixed-point units in one tile (one world unit).
pub const UNITS_PER_TILE: i64 = 1_000_000;

/// A point in world space, in units of `1 / UNITS_PER_TILE` tiles.
#[derive(Clone, Copy, Debug, PartialEq, Eq, Structural)]
pub struct Position {
    pub x: i64,
    pub y: i64,
    pub z: i64,
}

impl View for Position {
    type V = (int, int, int);

    open spec fn view(&self) -> (int, int, int) {
        (self.x as int, self.y as int, self.z as int)
    }
}

/// World position of the centre of board cell `(file, rank)`.
pub open spec fn world_position(file: int, rank: int) -> (int, int, int) {
    (file * UNITS_PER_TILE, 0, rank * UNITS_PER_TILE)
}

/// The centre of board cell `(file, rank)`: `(file, 0, rank)` tiles.
pub fn world_position_of(file: u8, rank: u8) -> (p: Position)
    ensures
        p@ == world_position(file as int, rank as int),
{
    Position { x: file as i64 * UNITS_PER_TILE, y: 0, z: rank as i64 * UNITS_PER_TILE }
}

/// Squared Euclidean distance between two points.
pub open spec fn dist_sq(a: (int, int, int), b: (int, int, int)) -> int {
    (b.0 - a.0) * (b.0 - a.0) + (b.1 - a.1) * (b.1 - a.1) + (b.2 - a.2) * (b.2 - a.2)
}

/// `r` is the integer square root of `q`, rounded down.
pub open spec fn is_floor_sqrt(q: int, r: int) -> bool {
    0 <= r && r * r <= q && q < (r + 1) * (r + 1)
}

/// The integer square root of `q`, rounded down.
pub open spec fn floor_sqrt(q: int) -> int {
    choose|r: int| #[trigger] is_floor_sqrt(q, r)
}

/// Squaring is monotone on non-negative integers.
pub proof fn lemma_square_le(a: int, b: int)
    requires
        0 <= a <= b,
    ensures
        a * a <= b * b,
{
    assert(a * a <= b * b) by (nonlinear_arith)
        requires
            0 <= a <= b,
    ;
}

/// At most one integer is the rounded-down square root of `q`.
proof fn lemma_floor_sqrt_unique(q: int, r1: int, r2: int)
    requires
        is_floor_sqrt(q, r1),
        is_floor_sqrt(q, r2),
    ensures
        r1 == r2,
{
    if r1 < r2 {
        lemma_square_le(r1 + 1, r2);
    } else if r2 < r1 {
        lemma_square_le(r2 + 1, r1);
    }
}

/// Every non-negative integer has a rounded-down square root.
proof fn lemma_floor_sqrt_exists(q: int)
    requires
        q >= 0,
    ensures
        exists|r: int| #[trigger] is_floor_sqrt(q, r),
    decreases q,
{
    if q == 0 {
        assert(is_floor_sqrt(0, 0));
    } else {
        lemma_floor_sqrt_exists(q - 1);
        let r = choose|r: int| #[trigger] is_floor_sqrt(q - 1, r);
        if (r + 1) * (r + 1) <= q {
            assert((r + 2) * (r + 2) == (r + 1) * (r + 1) + 2 * r + 3) by (nonlinear_arith);
            assert(is_floor_sqrt(q, r + 1));
        } else {
            assert(is_floor_sqrt(q, r));
        }
    }
}

/// `floor_sqrt` meets its defining property on every non-negative integer.
pub proof fn lemma_floor_sqrt(q: int)
    requires
        q >= 0,
    ensures
        is_floor_sqrt(q, floor_sqrt(q)),
{
    lemma_floor_sqrt_exists(q);
}

/// `floor_sqrt(q)` is the only integer with its defining property.
pub proof fn lemma_floor_sqrt_is(q: int, r: int)
    requires
        is_floor_sqrt(q, r),
    ensures
        floor_sqrt(q) == r,
{
    lemma_floor_sqrt_unique(q, r, floor_sqrt(q));
}

/// Integer square root of `q`, rounded down, by bisection.
pub fn isqrt(q: u64) -> (r: u64)
    ensures
        r == floor_sqrt(q as int),
{
    let mut lo: u64 = 0;
    let mut hi: u64 = 0x1_0000_0000;
    assert(0x1_0000_0000 * 0x1_0000_0000 == 0x1_0000_0000_0000_0000) by (nonlinear_arith);
    while hi - lo > 1
        invariant
            lo < hi <= 0x1_0000_0000,
            lo * lo <= q,
            q < hi * hi,
        decreases hi - lo,
    {
        let mid: u64 = lo + (hi - lo) / 2;
        assert(mid * mid <= 0x1_0000_0000_0000_0000) by (nonlinear_arith)
            requires
                mid <= 0x1_0000_0000,
        ;
        if (mid as u128) * (mid as u128) <= q as u128 {
            lo = mid;
        } else {
            hi = mid;
        }
    }
    proof {
        assert(hi == lo + 1);
        lemma_floor_sqrt_is(q as int, lo as int);
    }
    lo
}

} // verus!
