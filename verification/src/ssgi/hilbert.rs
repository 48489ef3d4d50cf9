//! The Hilbert curve over a square of 64 by 64 cells.
//!
//! The curve visits every cell of the square once. Cells that are close on
//! the curve are close in the square, which is what makes the position of a
//! pixel on the curve a good seed for the noise of that pixel.
use vstd::prelude::*;

verus! {

/// The side of the square.
pub const HILBERT_WIDTH: u16 = 64;

/// Where the curve comes by a quadrant of a square: it starts in the lower
/// left one, goes on to the upper left and the upper right, and ends in the
/// lower right.
pub open spec fn quadrant_rank(right: bool, upper: bool) -> nat {
    if upper {
        if right {
            2
        } else {
            1
        }
    } else {
        if right {
            3
        } else {
            0
        }
    }
}

/// The position on the curve of the cell `(x, y)` in a square whose side is
/// twice `half`.
///
/// The curve through the square is made of four curves through its
/// quadrants, taken in the order of [`quadrant_rank`]. The curve through the
/// upper quadrants runs as the whole does; in the lower left quadrant it is
/// mirrored at the diagonal, and in the lower right one at the other diagonal.
pub open spec fn hilbert(half: nat, x: nat, y: nat) -> nat
    decreases half,
{
    if half == 0 {
        0
    } else {
        let right = x >= half;
        let upper = y >= half;
        let (in_x, in_y) = (x % half, y % half);
        let (next_x, next_y) = if upper {
            (in_x, in_y)
        } else if right {
            ((half - 1 - in_y) as nat, (half - 1 - in_x) as nat)
        } else {
            (in_y, in_x)
        };
        quadrant_rank(right, upper) * (half * half) + hilbert(half / 2, next_x, next_y)
    }
}

/// Whether `level` is the half of a side that the curve is built from: a
/// power of two, up to half the side of the whole square.
pub open spec fn is_level(level: u16) -> bool {
    level == 1 || level == 2 || level == 4 || level == 8 || level == 16 || level == 32
}

/// A square holds as many positions as cells: the positions on the curve
/// through a square of side `2 * half` are below `4 * half * half`.
pub proof fn lemma_hilbert_in_range(half: nat, x: nat, y: nat)
    requires
        half > 0,
    ensures
        hilbert(half, x, y) < 4 * (half * half),
    decreases half,
{
    let right = x >= half;
    let upper = y >= half;
    let (in_x, in_y) = (x % half, y % half);
    let (next_x, next_y) = if upper {
        (in_x, in_y)
    } else if right {
        ((half - 1 - in_y) as nat, (half - 1 - in_x) as nat)
    } else {
        (in_y, in_x)
    };
    let rank = quadrant_rank(right, upper);
    let square = half * half;
    assert(hilbert(half, x, y) == rank * square + hilbert(half / 2, next_x, next_y));
    assert(rank * square <= 3 * square) by (nonlinear_arith)
        requires
            rank <= 3,
            square >= 0,
    ;
    if half / 2 > 0 {
        lemma_hilbert_in_range(half / 2, next_x, next_y);
        assert(4 * ((half / 2) * (half / 2)) <= half * half) by (nonlinear_arith);
    } else {
        assert(hilbert(0, next_x, next_y) == 0);
        assert(half * half >= 1) by (nonlinear_arith)
            requires
                half >= 1,
        ;
    }
}

/// Whether `half` is a power of two.
pub open spec fn is_power_of_two(half: nat) -> bool
    decreases half,
{
    half == 1 || (half > 1 && half % 2 == 0 && is_power_of_two(half / 2))
}

/// The curve visits no cell twice: in a square whose side is a power of two,
/// two cells with the same position on the curve are one cell.
pub proof fn lemma_hilbert_visits_once(half: nat, x: nat, y: nat, other_x: nat, other_y: nat)
    requires
        is_power_of_two(half),
        x < 2 * half,
        y < 2 * half,
        other_x < 2 * half,
        other_y < 2 * half,
        hilbert(half, x, y) == hilbert(half, other_x, other_y),
    ensures
        x == other_x,
        y == other_y,
    decreases half,
{
    let square = half * half;
    let (right, upper) = (x >= half, y >= half);
    let (in_x, in_y) = (x % half, y % half);
    let (next_x, next_y) = if upper {
        (in_x, in_y)
    } else if right {
        ((half - 1 - in_y) as nat, (half - 1 - in_x) as nat)
    } else {
        (in_y, in_x)
    };
    let (other_right, other_upper) = (other_x >= half, other_y >= half);
    let (other_in_x, other_in_y) = (other_x % half, other_y % half);
    let (other_next_x, other_next_y) = if other_upper {
        (other_in_x, other_in_y)
    } else if other_right {
        ((half - 1 - other_in_y) as nat, (half - 1 - other_in_x) as nat)
    } else {
        (other_in_y, other_in_x)
    };
    let rank = quadrant_rank(right, upper);
    let other_rank = quadrant_rank(other_right, other_upper);
    let rest = hilbert(half / 2, next_x, next_y);
    let other_rest = hilbert(half / 2, other_next_x, other_next_y);
    assert(hilbert(half, x, y) == rank * square + rest);
    assert(hilbert(half, other_x, other_y) == other_rank * square + other_rest);
    if half == 1 {
        assert(rest == 0 && other_rest == 0);
        assert(square == 1) by (nonlinear_arith)
            requires
                square == half * half,
                half == 1,
        ;
    } else {
        lemma_hilbert_in_range(half / 2, next_x, next_y);
        lemma_hilbert_in_range(half / 2, other_next_x, other_next_y);
        assert(4 * ((half / 2) * (half / 2)) == half * half) by (nonlinear_arith)
            requires
                half % 2 == 0,
        ;
    }
    assert(rank == other_rank && rest == other_rest) by (nonlinear_arith)
        requires
            rank * square + rest == other_rank * square + other_rest,
            0 <= rest < square,
            0 <= other_rest < square,
            0 <= rank,
            0 <= other_rank,
    ;
    assert(right == other_right && upper == other_upper);
    if half > 1 {
        lemma_hilbert_visits_once(half / 2, next_x, next_y, other_next_x, other_next_y);
    }
    assert(in_x == other_in_x && in_y == other_in_y);
    assert(x == in_x + (if right { half } else { 0 })) by (nonlinear_arith)
        requires
            x < 2 * half,
            right == (x >= half),
            in_x == x % half,
            half > 0,
    ;
    assert(other_x == other_in_x + (if other_right { half } else { 0 })) by (nonlinear_arith)
        requires
            other_x < 2 * half,
            other_right == (other_x >= half),
            other_in_x == other_x % half,
            half > 0,
    ;
    assert(y == in_y + (if upper { half } else { 0 })) by (nonlinear_arith)
        requires
            y < 2 * half,
            upper == (y >= half),
            in_y == y % half,
            half > 0,
    ;
    assert(other_y == other_in_y + (if other_upper { half } else { 0 })) by (nonlinear_arith)
        requires
            other_y < 2 * half,
            other_upper == (other_y >= half),
            other_in_y == other_y % half,
            half > 0,
    ;
}

/// The curve begins in the lower left corner of the square and ends in the
/// lower right one.
pub proof fn lemma_hilbert_ends(half: nat)
    requires
        is_power_of_two(half),
    ensures
        hilbert(half, 0, 0) == 0,
        hilbert(half, (2 * half - 1) as nat, 0) == 4 * (half * half) - 1,
    decreases half,
{
    let last = (2 * half - 1) as nat;
    assert(last % half == half - 1) by (nonlinear_arith)
        requires
            last == 2 * half - 1,
            half >= 1,
    ;
    assert(0nat % half == 0);
    assert(hilbert(half, 0, 0) == quadrant_rank(false, false) * (half * half) + hilbert(
        half / 2,
        0,
        0,
    ));
    assert(hilbert(half, last, 0) == quadrant_rank(true, false) * (half * half) + hilbert(
        half / 2,
        (half - 1) as nat,
        0,
    ));
    if half == 1 {
        assert(hilbert(0, 0, 0) == 0);
        assert(half * half == 1) by (nonlinear_arith)
            requires
                half == 1,
        ;
    } else {
        lemma_hilbert_ends(half / 2);
        assert(2 * (half / 2) == half);
        assert(4 * ((half / 2) * (half / 2)) == half * half) by (nonlinear_arith)
            requires
                half % 2 == 0,
        ;
    }
}

/// The distance between two cells, in steps along the axes.
pub open spec fn steps_between(x: nat, y: nat, other_x: nat, other_y: nat) -> int {
    (if x > other_x {
        x - other_x
    } else {
        other_x - x
    }) + (if y > other_y {
        y - other_y
    } else {
        other_y - y
    })
}

/// The curve moves from cell to neighbouring cell: two cells whose
/// positions on the curve follow one another lie side by side.
pub proof fn lemma_hilbert_steps(half: nat, x: nat, y: nat, other_x: nat, other_y: nat)
    requires
        is_power_of_two(half),
        x < 2 * half,
        y < 2 * half,
        other_x < 2 * half,
        other_y < 2 * half,
        hilbert(half, other_x, other_y) == hilbert(half, x, y) + 1,
    ensures
        steps_between(x, y, other_x, other_y) == 1,
    decreases half,
{
    let square = half * half;
    let (right, upper) = (x >= half, y >= half);
    let (in_x, in_y) = (x % half, y % half);
    let (next_x, next_y) = if upper {
        (in_x, in_y)
    } else if right {
        ((half - 1 - in_y) as nat, (half - 1 - in_x) as nat)
    } else {
        (in_y, in_x)
    };
    let (other_right, other_upper) = (other_x >= half, other_y >= half);
    let (other_in_x, other_in_y) = (other_x % half, other_y % half);
    let (other_next_x, other_next_y) = if other_upper {
        (other_in_x, other_in_y)
    } else if other_right {
        ((half - 1 - other_in_y) as nat, (half - 1 - other_in_x) as nat)
    } else {
        (other_in_y, other_in_x)
    };
    let rank = quadrant_rank(right, upper);
    let other_rank = quadrant_rank(other_right, other_upper);
    let rest = hilbert(half / 2, next_x, next_y);
    let other_rest = hilbert(half / 2, other_next_x, other_next_y);
    assert(hilbert(half, x, y) == rank * square + rest);
    assert(hilbert(half, other_x, other_y) == other_rank * square + other_rest);
    assert(x == in_x + (if right { half } else { 0 }) && in_x < half) by (nonlinear_arith)
        requires
            x < 2 * half,
            right == (x >= half),
            in_x == x % half,
            half > 0,
    ;
    assert(other_x == other_in_x + (if other_right { half } else { 0 }) && other_in_x < half)
        by (nonlinear_arith)
        requires
            other_x < 2 * half,
            other_right == (other_x >= half),
            other_in_x == other_x % half,
            half > 0,
    ;
    assert(y == in_y + (if upper { half } else { 0 }) && in_y < half) by (nonlinear_arith)
        requires
            y < 2 * half,
            upper == (y >= half),
            in_y == y % half,
            half > 0,
    ;
    assert(other_y == other_in_y + (if other_upper { half } else { 0 }) && other_in_y < half)
        by (nonlinear_arith)
        requires
            other_y < 2 * half,
            other_upper == (other_y >= half),
            other_in_y == other_y % half,
            half > 0,
    ;
    if half == 1 {
        assert(rest == 0 && other_rest == 0);
        assert(square == 1) by (nonlinear_arith)
            requires
                square == half * half,
                half == 1,
        ;
    } else {
        lemma_hilbert_in_range(half / 2, next_x, next_y);
        lemma_hilbert_in_range(half / 2, other_next_x, other_next_y);
        lemma_hilbert_ends(half / 2);
        assert(2 * (half / 2) == half);
        assert(4 * ((half / 2) * (half / 2)) == half * half) by (nonlinear_arith)
            requires
                half % 2 == 0,
        ;
    }
    assert((other_rank == rank && other_rest == rest + 1) || (other_rank == rank + 1 && rest
        == square - 1 && other_rest == 0)) by (nonlinear_arith)
        requires
            other_rank * square + other_rest == rank * square + rest + 1,
            0 <= rest < square,
            0 <= other_rest < square,
            0 <= rank,
            0 <= other_rank,
    ;
    if other_rank == rank {
        assert(right == other_right && upper == other_upper);
        assert(half > 1);
        lemma_hilbert_steps(half / 2, next_x, next_y, other_next_x, other_next_y);
    } else if half > 1 {
        lemma_hilbert_visits_once(half / 2, next_x, next_y, (half - 1) as nat, 0);
        lemma_hilbert_visits_once(half / 2, other_next_x, other_next_y, 0, 0);
    }
}

/// What is left to add to the position once the quadrants down to squares
/// of side `2 * level` have been accounted for.
spec fn remainder(level: u16, x: u16, y: u16) -> nat {
    if level == 0 {
        0
    } else {
        hilbert(level as nat, (x % (2 * level) as u16) as nat, (y % (2 * level) as u16) as nat)
    }
}

/// What the bits of a coordinate say about its place in a square of side
/// `2 * level`.
proof fn lemma_level_bits(x: u16, level: u16)
    requires
        x < 64,
        is_level(level),
    ensures
        (x & level > 0) == (x % (2 * level) as u16 >= level),
        (x % (2 * level) as u16) % level == x % level,
        (63 - x) as u16 % level == level - 1 - x % level,
        x % level < level,
{
    assert((x & level > 0) == (x % (2 * level) as u16 >= level) && (x % (2 * level) as u16) % level
        == x % level && (63 - x) as u16 % level == level - 1 - x % level && x % level
        < level) by (bit_vector)
        requires
            x < 64,
            level == 1 || level == 2 || level == 4 || level == 8 || level == 16 || level == 32,
    ;
}

/// The position of the cell `(x, y)` on the Hilbert curve through the square.
pub fn hilbert_index(x: u16, y: u16) -> (index: u16)
    requires
        x < HILBERT_WIDTH,
        y < HILBERT_WIDTH,
    ensures
        index == hilbert(32, x as nat, y as nat),
        index < HILBERT_WIDTH * HILBERT_WIDTH,
{
    let ghost whole = hilbert(32, x as nat, y as nat);
    let mut x = x;
    let mut y = y;
    let mut index: u16 = 0;
    let mut level: u16 = HILBERT_WIDTH / 2;
    proof {
        lemma_hilbert_in_range(32, x as nat, y as nat);
        assert(x % 64 == x && y % 64 == y);
    }
    while level > 0
        invariant
            x < 64,
            y < 64,
            level == 0 || is_level(level),
            whole < 4096,
            index + remainder(level, x, y) == whole,
        decreases level,
    {
        let ghost at_x = (x % (2 * level) as u16) as nat;
        let ghost at_y = (y % (2 * level) as u16) as nat;
        let ghost rest = hilbert(level as nat, at_x, at_y);
        let ghost before = (x, y);
        proof {
            lemma_level_bits(x, level);
            lemma_level_bits(y, level);
            lemma_hilbert_in_range(level as nat, at_x, at_y);
        }
        let region_x: u16 = if x & level > 0 {
            1
        } else {
            0
        };
        let region_y: u16 = if y & level > 0 {
            1
        } else {
            0
        };
        assert(((3 * region_x) as u16 ^ region_y) == quadrant_rank(region_x == 1, region_y == 1)) by {
            assert(0u16 ^ 0u16 == 0u16 && 0u16 ^ 1u16 == 1u16 && 3u16 ^ 0u16 == 3u16 && 3u16 ^ 1u16
                == 2u16) by (bit_vector);
        }
        let rank: u16 = (3 * region_x) ^ region_y;
        assert(level * level * rank == rank * (level * level) && level * level <= 1024 && level
            * level * rank <= rest) by (nonlinear_arith)
            requires
                level <= 32,
                rank <= 3,
                rest >= rank * (level * level),
        ;
        index += level * level * rank;

        if region_y == 0 {
            if region_x == 1 {
                x = HILBERT_WIDTH - 1 - x;
                y = HILBERT_WIDTH - 1 - y;
            }
            core::mem::swap(&mut x, &mut y);
        }
        proof {
            lemma_level_bits((63 - before.0) as u16, level);
            lemma_level_bits((63 - before.1) as u16, level);
            if level > 1 {
                assert(2 * (level / 2) == level);
            } else {
                assert(hilbert(0, 0, 0) == 0);
            }
        }
        level /= 2;
    }
    index
}

/// The positions on the curve of all cells of the square: the entry at
/// `[x][y]` is the position of the cell `(x, y)`.
pub fn generate_hilbert_index_lut() -> (lut: [[u16; 64]; 64])
    ensures
        forall|x: int, y: int|
            0 <= x < 64 && 0 <= y < 64 ==> (#[trigger] lut[x][y]) == hilbert(32, x as nat, y as nat),
{
    let mut lut: [[u16; 64]; 64] = [[0u16; 64]; 64];
    let mut x: u16 = 0;
    while x < HILBERT_WIDTH
        invariant
            x <= 64,
            forall|i: int, j: int|
                0 <= i < x && 0 <= j < 64 ==> (#[trigger] lut[i][j]) == hilbert(32, i as nat, j as nat),
        decreases 64 - x,
    {
        let mut row: [u16; 64] = [0u16; 64];
        let mut y: u16 = 0;
        while y < HILBERT_WIDTH
            invariant
                x < 64,
                y <= 64,
                forall|j: int| 0 <= j < y ==> (#[trigger] row[j]) == hilbert(32, x as nat, j as nat),
            decreases 64 - y,
        {
            row[y as usize] = hilbert_index(x, y);
            y += 1;
        }
        lut[x as usize] = row;
        x += 1;
    }
    lut
}

} // verus!
