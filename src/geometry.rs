//! Fixed-point coordinates.
//!
//! A node's geometry is written as fractions of its parent's box: `UNIT`
//! stands for the whole extent of that box along one axis. The unit square
//! has its origin at the top left corner, with `y` growing downward; this
//! orientation is used for composition, rendering and hit testing alike.
use vstd::prelude::*;
use vstd::arithmetic::div_mod::{
    lemma_fundamental_div_mod, lemma_fundamental_div_mod_converse, lemma_mod_pos_bound,
};

verus! {

/// The extent of a whole parent box, in fixed-point units.
pub const UNIT: i64 = 10000;

/// The largest magnitude a stored coordinate may have.
pub const LIMIT: i64 = 1000000000;

/// A pair of stored coordinates, as integers.
pub open spec fn as_ints(p: (i64, i64)) -> (int, int) {
    (p.0 as int, p.1 as int)
}

/// A coordinate that a node may store.
pub open spec fn in_range(v: int) -> bool {
    -LIMIT <= v <= LIMIT
}

/// Both coordinates of a pair are in range.
pub open spec fn pair_in_range(p: (int, int)) -> bool {
    in_range(p.0) && in_range(p.1)
}

/// `v` fixed-point units of a box whose extent is `by` units, rounded down.
pub open spec fn scale(v: int, by: int) -> int {
    v * by / (UNIT as int)
}

/// A point given as fractions of the box at `pos` with extent `size`,
/// expressed in the coordinate space that box lives in.
pub open spec fn fold_point(p: (int, int), pos: (int, int), size: (int, int)) -> (int, int) {
    (pos.0 + scale(p.0, size.0), pos.1 + scale(p.1, size.1))
}

/// An extent given as fractions of a box of extent `size`.
pub open spec fn fold_extent(s: (int, int), size: (int, int)) -> (int, int) {
    (scale(s.0, size.0), scale(s.1, size.1))
}

/// The position that centers an extent `s` inside the unit box.
pub open spec fn centered(s: int) -> int {
    (UNIT - s) / 2
}

/// The pixel at which fixed-point coordinate `v` falls on a window
/// `extent` pixels wide.
pub open spec fn to_pixel(v: int, extent: int) -> int {
    v * extent / (UNIT as int)
}

/// `p` lies in the half-open box at `pos` with extent `size`.
pub open spec fn covers(pos: (int, int), size: (int, int), p: (int, int)) -> bool {
    &&& pos.0 <= p.0 < pos.0 + size.0
    &&& pos.1 <= p.1 < pos.1 + size.1
}

/// Division rounding toward negative infinity.
pub fn floor_div(a: i64, b: i64) -> (r: i64)
    requires
        0 < b <= 0x1_0000_0000,
        -0x4000_0000_0000_0000 <= a <= 0x4000_0000_0000_0000,
    ensures
        r == a as int / b as int,
        a >= 0 ==> 0 <= r <= a,
        a < 0 ==> a - b < r < 0,
{
    proof {
        lemma_div_bounds(a as int, b as int);
    }
    if a >= 0 {
        a / b
    } else {
        let n = -a;
        let t = (n + b - 1) / b;
        let q: i64 = -t;
        proof {
            let c = n + b - 1;
            lemma_fundamental_div_mod(c as int, b as int);
            lemma_mod_pos_bound(c as int, b as int);
            let u = c as int % b as int;
            let m = a - b * q;
            assert(0 <= m < b) by (nonlinear_arith)
                requires b * t + u == c, c == n + b - 1, 0 <= u < b, n == -a, q == -t, m == a - b * q;
            lemma_fundamental_div_mod_converse(a as int, b as int, q as int, m);
        }
        q
    }
}

proof fn lemma_div_bounds(a: int, b: int)
    requires
        0 < b,
    ensures
        a >= 0 ==> 0 <= a / b <= a,
        a < 0 ==> a - b < a / b < 0,
{
    lemma_fundamental_div_mod(a, b);
    lemma_mod_pos_bound_any(a, b);
    let q = a / b;
    let m = a % b;
    if a >= 0 {
        assert(0 <= q <= a) by (nonlinear_arith)
            requires a == b * q + m, 0 <= m < b, 0 < b, a >= 0;
    } else {
        assert(a - b < q < 0) by (nonlinear_arith)
            requires a == b * q + m, 0 <= m < b, 0 < b, a < 0;
    }
}

proof fn lemma_mod_pos_bound_any(a: int, b: int)
    requires
        0 < b,
    ensures
        0 <= a % b < b,
{
}

/// Scaling by a whole box changes nothing.
pub proof fn lemma_scale_unit(v: int)
    ensures
        scale(v, UNIT as int) == v,
{
    lemma_fundamental_div_mod_converse(v * UNIT, UNIT as int, v, 0);
}

/// `scale` on stored coordinates.
pub fn scale_exec(v: i64, by: i64) -> (r: i64)
    requires
        in_range(v as int),
        in_range(by as int),
    ensures
        r == scale(v as int, by as int),
        -2_000_000_000_000_000_000 <= r <= 2_000_000_000_000_000_000,
{
    assert(-1_000_000_000_000_000_000 <= v * by <= 1_000_000_000_000_000_000) by (nonlinear_arith)
        requires in_range(v as int), in_range(by as int);
    floor_div(v * by, UNIT)
}

/// `fold_point` on stored coordinates.
pub fn fold_point_exec(p: (i64, i64), pos: (i64, i64), size: (i64, i64)) -> (r: (i64, i64))
    requires
        pair_in_range(as_ints(p)),
        pair_in_range(as_ints(pos)),
        pair_in_range(as_ints(size)),
    ensures
        as_ints(r) == fold_point(as_ints(p), as_ints(pos), as_ints(size)),
{
    let x = scale_exec(p.0, size.0);
    let y = scale_exec(p.1, size.1);
    (pos.0 + x, pos.1 + y)
}

/// `fold_extent` on stored coordinates.
pub fn fold_extent_exec(s: (i64, i64), size: (i64, i64)) -> (r: (i64, i64))
    requires
        pair_in_range(as_ints(s)),
        pair_in_range(as_ints(size)),
    ensures
        as_ints(r) == fold_extent(as_ints(s), as_ints(size)),
{
    (scale_exec(s.0, size.0), scale_exec(s.1, size.1))
}

/// `centered` on a stored extent.
pub fn centered_exec(s: i64) -> (r: i64)
    requires
        in_range(s as int),
    ensures
        r == centered(s as int),
{
    floor_div(UNIT - s, 2)
}

/// `covers` on stored coordinates.
pub fn covers_exec(pos: (i64, i64), size: (i64, i64), p: (i64, i64)) -> (r: bool)
    requires
        pair_in_range(as_ints(pos)),
        pair_in_range(as_ints(size)),
    ensures
        r == covers(as_ints(pos), as_ints(size), as_ints(p)),
{
    pos.0 <= p.0 && p.0 < pos.0 + size.0 && pos.1 <= p.1 && p.1 < pos.1 + size.1
}

} // verus!
