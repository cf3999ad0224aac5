use vstd::prelude::*;

use crate::contour::triangle_in_range;
use crate::mesh::Triangle;

verus! {

/// The position of a triangle's mean value in the range `[lo, hi]`, as the fraction
/// `(sum - 3 * lo) / (3 * (hi - lo))` where `sum` adds the three node values; the
/// numerator and the (positive) denominator are returned. An empty range puts every
/// value at position 0.
pub open spec fn heat_fraction(sum: int, lo: int, hi: int) -> (int, int) {
    if hi <= lo {
        (0, 1)
    } else {
        let n = sum - 3 * lo;
        let d = 3 * (hi - lo);
        if n < 0 {
            (0, d)
        } else if n > d {
            (d, d)
        } else {
            (n, d)
        }
    }
}

/// The heat colour of a fraction `n / d` in [0, 1]: red `floor(255 * n / d)`, no
/// green, blue `floor(255 * (d - n) / d)`.
pub open spec fn heat_rgb(f: (int, int)) -> (u8, u8, u8) {
    ((255 * f.0 / f.1) as u8, 0, (255 * (f.1 - f.0) / f.1) as u8)
}

/// The sum of the field values at a triangle's three nodes.
pub open spec fn triangle_sum(field: Seq<i64>, t: Triangle) -> int {
    field[t.0 as int] as int + field[t.1 as int] as int + field[t.2 as int] as int
}

/// The heat colour of a triangle: its mean field value placed in `[lo, hi]` and clamped
/// there, then shaded from blue at `lo` to red at `hi`.
pub fn heat_color(field: &Vec<i64>, t: Triangle, lo: i64, hi: i64) -> (r: (u8, u8, u8))
    requires
        triangle_in_range(t, field@.len() as int),
    ensures
        r == heat_rgb(heat_fraction(triangle_sum(field@, t), lo as int, hi as int)),
{
    let sum = field[t.0] as i128 + field[t.1] as i128 + field[t.2] as i128;
    let (n, d): (u128, u128) = if hi <= lo {
        (0, 1)
    } else {
        let n = sum - 3 * (lo as i128);
        let d = 3 * ((hi as i128) - (lo as i128));
        if n < 0 {
            (0, d as u128)
        } else if n > d {
            (d as u128, d as u128)
        } else {
            (n as u128, d as u128)
        }
    };
    let ghost f = heat_fraction(sum as int, lo as int, hi as int);
    assert(n == f.0 && d == f.1);
    assert(0 <= n <= d && 0 < d);
    proof {
        let (a, b) = (n as int, d as int);
        assert(255 * a / b <= 255) by (nonlinear_arith)
            requires
                0 <= a <= b,
                0 < b,
        ;
        assert(255 * (b - a) / b <= 255) by (nonlinear_arith)
            requires
                0 <= a <= b,
                0 < b,
        ;
    }
    let red = (255 * n / d) as u8;
    let blue = (255 * (d - n) / d) as u8;
    (red, 0, blue)
}

} // verus!
