use vstd::prelude::*;
use vstd::arithmetic::div_mod::lemma_fundamental_div_mod;
use vstd::arithmetic::div_mod::lemma_fundamental_div_mod_converse;
use crate::geometry::Position;
use crate::grid::{wall_at, TileMap, CELL_SIZE, GRID_DIM};

verus! {

/// Half a turn, in ten-thousandths of a radian.
pub const ANGLE_PI: i32 = 31415;

/// A full turn, in ten-thousandths of a radian.
pub const ANGLE_TWO_PI: i32 = 62830;

/// One unit in 16.16 fixed point.
pub const FIXED_ONE: i64 = 65536;

/// Most grid lines a ray crosses before it is declared a miss.
pub const MAX_STEPS: u32 = 8;

/// A ray to cast: where it starts, its heading (ten-thousandths of a radian)
/// and its inverse slope `-1 / tan(angle)` in 16.16 fixed point.
#[derive(Clone, Copy, Debug, PartialEq, Eq, Structural)]
pub struct Ray {
    pub origin: Position,
    pub angle: i32,
    pub inv_slope: i32,
}

/// The outcome of a cast: the end point, how many grid lines were stepped
/// past, and whether a wall stopped the ray.
#[derive(Clone, Copy, Debug, PartialEq, Eq, Structural)]
pub struct RayHit {
    pub end: Position,
    pub steps: u32,
    pub hit: bool,
}

/// A heading exactly along the horizontal never crosses a horizontal grid line.
pub open spec fn is_level(angle: int) -> bool {
    angle == 0 || angle == ANGLE_PI
}

/// Headings past half a turn point towards smaller y.
pub open spec fn looks_up(angle: int) -> bool {
    angle > ANGLE_PI
}

/// The index `n` of the k-th horizontal grid line crossed (the line `y = 64 n`).
pub open spec fn crossing_line(ray: Ray, k: int) -> int {
    let base = (ray.origin.y as int) / (CELL_SIZE as int);
    if looks_up(ray.angle as int) {
        base - k
    } else {
        base + 1 + k
    }
}

/// The y coordinate of the k-th crossing point, in 16.16 fixed point: on the
/// grid line when looking down; one fixed-point unit short of it, just inside
/// the tile above, when looking up.
pub open spec fn crossing_y_fixed(ray: Ray, k: int) -> int {
    crossing_line(ray, k) * (CELL_SIZE * FIXED_ONE) - if looks_up(ray.angle as int) {
        1int
    } else {
        0int
    }
}

/// The x coordinate of the k-th crossing point, in units of 2^-32 pixel:
/// `x = origin.x + (origin.y - y) * inv_slope`.
pub open spec fn crossing_x_fine(ray: Ray, k: int) -> int {
    ray.origin.x * (FIXED_ONE * FIXED_ONE) + (ray.origin.y * FIXED_ONE - crossing_y_fixed(ray, k)) * ray.inv_slope
}

/// Division rounding towards zero, as a cast from a fractional value to an integer does.
pub open spec fn trunc_div(a: int, d: int) -> int {
    if a >= 0 {
        a / d
    } else {
        -((-a) / d)
    }
}

/// The x coordinate of the k-th crossing point, truncated to an integer.
pub open spec fn crossing_px(ray: Ray, k: int) -> int {
    trunc_div(crossing_x_fine(ray, k), (FIXED_ONE * FIXED_ONE) as int)
}

/// The y coordinate of the k-th crossing point, truncated to an integer.
pub open spec fn crossing_py(ray: Ray, k: int) -> int {
    trunc_div(crossing_y_fixed(ray, k), FIXED_ONE as int)
}

/// The tile that holds the k-th crossing point, as a linear index (possibly
/// outside the map): the truncated coordinates divided by the tile size.
pub open spec fn crossing_index(ray: Ray, k: int) -> int {
    (crossing_py(ray, k) / CELL_SIZE as int) * GRID_DIM + crossing_px(ray, k) / CELL_SIZE as int
}

pub open spec fn crossing_blocked(cells: Seq<bool>, ray: Ray, k: int) -> bool {
    wall_at(cells, crossing_index(ray, k))
}

/// A coordinate truncated to a pixel: negatives become 0, overlarge values saturate.
pub open spec fn to_pixel(v: int) -> u32 {
    if v <= 0 {
        0
    } else if v > u32::MAX {
        u32::MAX
    } else {
        v as u32
    }
}

/// The point of the k-th crossing, truncated to pixels.
pub open spec fn crossing_point(ray: Ray, k: int) -> Position {
    Position { x: to_pixel(crossing_px(ray, k)), y: to_pixel(crossing_py(ray, k)) }
}

/// `r` is the outcome of casting `ray` over `cells`: a level ray misses at its
/// origin; any other ray stops at the first crossing that enters a wall, or
/// misses after `MAX_STEPS` crossings, ending at the last point computed.
pub open spec fn is_cast_of(cells: Seq<bool>, ray: Ray, r: RayHit) -> bool {
    if is_level(ray.angle as int) {
        r == (RayHit { end: ray.origin, steps: 0, hit: false })
    } else {
        &&& r.steps <= MAX_STEPS
        &&& r.hit == (r.steps < MAX_STEPS)
        &&& forall|j: int| 0 <= j < r.steps ==> !crossing_blocked(cells, ray, j)
        &&& r.hit ==> crossing_blocked(cells, ray, r.steps as int)
        &&& r.end == crossing_point(ray, r.steps as int)
    }
}

/// Floor division by a positive divisor.
pub(crate) fn floor_div(a: i128, d: i128) -> (q: i128)
    requires
        d > 0,
        a > i128::MIN,
    ensures
        q == a / d,
{
    if a >= 0 {
        ((a as u128) / (d as u128)) as i128
    } else {
        let b = (-a - 1) as u128;
        let q0 = b / (d as u128);
        proof {
            lemma_fundamental_div_mod(b as int, d as int);
            let r0 = (b as int) % (d as int);
            assert(a == (-(q0 as int) - 1) * d + (d - r0 - 1)) by (nonlinear_arith)
                requires
                    b as int == (d as int) * (q0 as int) + r0,
                    a == -(b as int) - 1,
            ;
            lemma_fundamental_div_mod_converse(a as int, d as int, -(q0 as int) - 1, d - r0 - 1);
        }
        -(q0 as i128) - 1
    }
}

/// Division by a positive divisor, rounding towards zero.
fn div_toward_zero(a: i128, d: i128) -> (q: i128)
    requires
        d > 0,
        a > i128::MIN,
    ensures
        q == trunc_div(a as int, d as int),
{
    if a >= 0 {
        ((a as u128) / (d as u128)) as i128
    } else {
        -((((-a) as u128) / (d as u128)) as i128)
    }
}

/// A coordinate truncated to a pixel, as `to_pixel` states.
pub(crate) fn pixel_of(v: i128) -> (r: u32)
    ensures
        r == to_pixel(v as int),
{
    if v <= 0 {
        0
    } else if v > u32::MAX as i128 {
        u32::MAX
    } else {
        v as u32
    }
}

/// A bound on a quotient by a positive divisor.
proof fn lemma_quotient_bound(a: int, d: int, m: int)
    requires
        d > 0,
        -m * d <= a <= m * d,
        m >= 0,
    ensures
        -m <= a / d <= m,
        -m <= trunc_div(a, d) <= m,
{
    lemma_fundamental_div_mod(a, d);
    lemma_fundamental_div_mod(-a, d);
    let q1 = a / d;
    let q2 = (-a) / d;
    assert(-m <= q1 <= m) by (nonlinear_arith)
        requires
            a == d * q1 + a % d,
            0 <= a % d < d,
            -m * d <= a <= m * d,
            d > 0,
    ;
    assert(-m <= q2 <= m) by (nonlinear_arith)
        requires
            -a == d * q2 + (-a) % d,
            0 <= (-a) % d < d,
            -m * d <= a <= m * d,
            d > 0,
    ;
}

/// How far from the origin the first `MAX_STEPS + 1` crossings lie.
proof fn lemma_crossing_bounds(ray: Ray, k: int)
    requires
        0 <= k <= MAX_STEPS,
    ensures
        -0x400_0000 <= ray.origin.y * FIXED_ONE - crossing_y_fixed(ray, k) <= 0x400_0000,
        -0x200_0000_0000_0000 <= (ray.origin.y * FIXED_ONE - crossing_y_fixed(ray, k)) * ray.inv_slope <= 0x200_0000_0000_0000,
        0 <= ray.origin.x * (FIXED_ONE * FIXED_ONE) <= 0x1_0000_0000_0000_0000,
        -0x2_0000_0000_0000_0000 <= crossing_x_fine(ray, k) <= 0x2_0000_0000_0000_0000,
        -0x2_0000_0000_0000_0000 <= crossing_y_fixed(ray, k) <= 0x2_0000_0000_0000_0000,
        -0x2_0000_0000 <= crossing_px(ray, k) <= 0x2_0000_0000,
        -0x2_0000_0000 <= crossing_py(ray, k) <= 0x2_0000_0000,
{
    let py = ray.origin.y as int;
    lemma_fundamental_div_mod(py, CELL_SIZE as int);
    let line = crossing_line(ray, k);
    let d = py * FIXED_ONE - crossing_y_fixed(ray, k);
    let s = ray.inv_slope as int;
    assert(-640 <= py - line * 64 <= 640);
    let e: int = if looks_up(ray.angle as int) { 1 } else { 0 };
    assert(crossing_y_fixed(ray, k) == line * 0x40_0000 - e);
    assert(d == (py - line * 64) * 0x1_0000 + e) by (nonlinear_arith)
        requires
            d == py * 0x1_0000 - (line * 0x40_0000 - e),
    ;
    assert(-0x400_0000 <= d <= 0x400_0000);
    assert(-0x200_0000_0000_0000 <= d * s <= 0x200_0000_0000_0000) by (nonlinear_arith)
        requires
            -0x400_0000 <= d <= 0x400_0000,
            -0x8000_0000 <= s < 0x8000_0000,
    ;
    assert(0 <= ray.origin.x * (FIXED_ONE * FIXED_ONE) <= 0x1_0000_0000_0000_0000) by (nonlinear_arith)
        requires
            0 <= ray.origin.x <= 0xffff_ffff,
            FIXED_ONE == 0x1_0000,
    ;
    lemma_quotient_bound(crossing_x_fine(ray, k), 0x1_0000_0000, 0x2_0000_0000);
    lemma_quotient_bound(crossing_y_fixed(ray, k), 0x1_0000, 0x2_0000_0000);
}

impl TileMap {
    /// Casts `ray` by stepping across horizontal grid lines until it enters a
    /// wall or `MAX_STEPS` lines have been passed. Tiles outside the map are open.
    pub fn raycast(&self, ray: &Ray) -> (r: RayHit)
        ensures
            is_cast_of(self@, *ray, r),
    {
        if ray.angle == 0 || ray.angle == ANGLE_PI {
            return RayHit { end: ray.origin, steps: 0, hit: false };
        }
        let up = ray.angle > ANGLE_PI;
        let one = FIXED_ONE as i128;
        let cell = CELL_SIZE as i128;
        let px = ray.origin.x as i128;
        let py = ray.origin.y as i128;
        let slope = ray.inv_slope as i128;
        let base = (ray.origin.y / (CELL_SIZE as u32)) as i128;
        let line: i128 = if up { base } else { base + 1 };
        let step_y: i128 = if up { -cell * one } else { cell * one };
        let mut y_fixed: i128 = line * (cell * one) - if up { 1 } else { 0 };
        proof {
            lemma_crossing_bounds(*ray, 0);
        }
        let mut x_fine: i128 = px * (one * one) + (py * one - y_fixed) * slope;
        assert(-0x40_0000_0000_0000 <= -step_y * slope <= 0x40_0000_0000_0000) by (nonlinear_arith)
            requires
                -0x40_0000 <= step_y <= 0x40_0000,
                -0x8000_0000 <= slope < 0x8000_0000,
        ;
        let step_x: i128 = -step_y * slope;
        let mut steps: u32 = 0;
        while steps < MAX_STEPS
            invariant
                steps <= MAX_STEPS,
                !is_level(ray.angle as int),
                up == looks_up(ray.angle as int),
                one == FIXED_ONE,
                cell == CELL_SIZE,
                py == ray.origin.y,
                slope == ray.inv_slope,
                step_y == (if up { -CELL_SIZE * FIXED_ONE } else { CELL_SIZE * FIXED_ONE as int }),
                step_x == -step_y * slope,
                y_fixed == crossing_y_fixed(*ray, steps as int),
                x_fine == crossing_x_fine(*ray, steps as int),
                forall|j: int| 0 <= j < steps ==> !crossing_blocked(self@, *ray, j),
            decreases MAX_STEPS - steps,
        {
            proof {
                lemma_crossing_bounds(*ray, steps as int);
                lemma_crossing_bounds(*ray, steps + 1);
            }
            let x = div_toward_zero(x_fine, one * one);
            let y = div_toward_zero(y_fixed, one);
            let row = floor_div(y, cell);
            let col = floor_div(x, cell);
            proof {
                lemma_quotient_bound(y as int, 64, 0x2_0000_0000);
                lemma_quotient_bound(x as int, 64, 0x2_0000_0000);
            }
            let index = (row * 8 + col) as i64;
            if self.is_wall_at_index(index) {
                let end = Position { x: pixel_of(x), y: pixel_of(y) };
                return RayHit { end, steps, hit: true };
            }
            proof {
                let ys = y_fixed as int;
                let s = slope as int;
                let p = py * FIXED_ONE;
                assert((p - (ys + step_y)) * s == (p - ys) * s + (-step_y) * s) by (nonlinear_arith);
            }
            y_fixed = y_fixed + step_y;
            x_fine = x_fine + step_x;
            steps = steps + 1;
        }
        proof {
            lemma_crossing_bounds(*ray, steps as int);
        }
        let end = Position { x: pixel_of(div_toward_zero(x_fine, one * one)), y: pixel_of(div_toward_zero(y_fixed, one)) };
        RayHit { end, steps, hit: false }
    }
}

} // verus!
