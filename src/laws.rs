//! Facts that hold of every cast, stated over the caster's contract.
use vstd::prelude::*;
use vstd::arithmetic::div_mod::lemma_basic_div;
use vstd::arithmetic::div_mod::lemma_div_is_ordered;
use vstd::arithmetic::div_mod::lemma_fundamental_div_mod;
use vstd::arithmetic::div_mod::lemma_fundamental_div_mod_converse;
use crate::geometry::Position;
use crate::grid::{reference_layout, wall_at, CELL_SIZE};
use crate::raycast::{
    crossing_blocked, crossing_index, crossing_line, crossing_px, crossing_y_fixed, is_cast_of, Ray, RayHit,
    ANGLE_PI, ANGLE_TWO_PI, FIXED_ONE, MAX_STEPS,
};

verus! {

/// The map row that a y coordinate falls in.
pub open spec fn row_of(y: u32) -> int {
    y as int / CELL_SIZE as int
}

/// A ray that looks up crosses at most `MAX_STEPS` lines and ends in the row
/// of its origin or a row above it.
pub proof fn lemma_up_cast_rises(cells: Seq<bool>, ray: Ray, r: RayHit)
    requires
        ANGLE_PI < ray.angle < ANGLE_TWO_PI,
        is_cast_of(cells, ray, r),
    ensures
        r.steps <= MAX_STEPS,
        row_of(r.end.y) <= row_of(ray.origin.y),
{
    let py = ray.origin.y as int;
    let line = crossing_line(ray, r.steps as int);
    let a = crossing_y_fixed(ray, r.steps as int);
    lemma_fundamental_div_mod(py, CELL_SIZE as int);
    if line >= 1 {
        // just inside the tile above line `line`: y truncates to 64 line - 1
        assert(a == line * 0x40_0000 - 1);
        assert(a == (line * 64 - 1) * 0x1_0000 + (0x1_0000 - 1)) by (nonlinear_arith)
            requires
                a == line * 0x40_0000 - 1,
        ;
        lemma_fundamental_div_mod_converse(a, FIXED_ONE as int, line * 64 - 1, FIXED_ONE - 1);
        lemma_fundamental_div_mod_converse(line * 64 - 1, CELL_SIZE as int, line - 1, 63);
    } else {
        lemma_fundamental_div_mod(-a, FIXED_ONE as int);
    }
}

/// A ray that looks down ends in the row of its origin or a row below it.
pub proof fn lemma_down_cast_falls(cells: Seq<bool>, ray: Ray, r: RayHit)
    requires
        0 < ray.angle < ANGLE_PI,
        is_cast_of(cells, ray, r),
    ensures
        r.steps <= MAX_STEPS,
        row_of(r.end.y) >= row_of(ray.origin.y),
{
    let py = ray.origin.y as int;
    let line = crossing_line(ray, r.steps as int);
    let y = line * 64;
    lemma_fundamental_div_mod(py, CELL_SIZE as int);
    lemma_fundamental_div_mod_converse(crossing_y_fixed(ray, r.steps as int), FIXED_ONE as int, y, 0);
    if y > u32::MAX {
        lemma_div_is_ordered(py, u32::MAX as int, CELL_SIZE as int);
    } else {
        lemma_fundamental_div_mod_converse(y, CELL_SIZE as int, line, 0);
    }
}

/// A ray at heading exactly 0 or exactly half a turn always misses, whatever
/// the map holds, and ends at its origin.
pub proof fn lemma_level_cast_misses(cells: Seq<bool>, ray: Ray, r: RayHit)
    requires
        ray.angle == 0 || ray.angle == ANGLE_PI,
        is_cast_of(cells, ray, r),
    ensures
        !r.hit,
        r.steps == 0,
        r.end == ray.origin,
{
}

/// Casting is a function of the map, the origin and the heading: two casts
/// of the same ray over the same map give the same outcome.
pub proof fn lemma_cast_deterministic(cells: Seq<bool>, ray: Ray, r1: RayHit, r2: RayHit)
    requires
        is_cast_of(cells, ray, r1),
        is_cast_of(cells, ray, r2),
    ensures
        r1 == r2,
{
    if r1.steps < r2.steps {
        assert(!wall_at(cells, crossing_index(ray, r1.steps as int)));
    } else if r2.steps < r1.steps {
        assert(!wall_at(cells, crossing_index(ray, r2.steps as int)));
    }
}

/// A cast only ever stops on a tile inside the map: indices outside it are
/// passed over as open.
pub proof fn lemma_hit_inside_map(cells: Seq<bool>, ray: Ray, r: RayHit)
    requires
        is_cast_of(cells, ray, r),
        r.hit,
    ensures
        0 <= crossing_index(ray, r.steps as int) < cells.len(),
        cells[crossing_index(ray, r.steps as int)],
{
}

/// On the built-in layout, a ray from (10, 10), inside the top-left wall tile,
/// that looks down and meets the line `y = 64` within the first column stops
/// there, at the first crossing.
pub proof fn lemma_corner_cast_stops_at_once(ray: Ray, r: RayHit)
    requires
        ray.origin == (Position { x: 10, y: 10 }),
        0 < ray.angle < ANGLE_PI,
        0 <= crossing_px(ray, 0) < CELL_SIZE,
        is_cast_of(reference_layout(), ray, r),
    ensures
        r.hit,
        r.steps == 0,
        r.end.y == 64,
{
    lemma_basic_div(10, CELL_SIZE as int);
    lemma_basic_div(crossing_px(ray, 0), CELL_SIZE as int);
    assert(crossing_line(ray, 0) == 1);
    lemma_fundamental_div_mod_converse(crossing_y_fixed(ray, 0), FIXED_ONE as int, 64, 0);
    lemma_fundamental_div_mod_converse(64, CELL_SIZE as int, 1, 0);
    assert(crossing_index(ray, 0) == 8);
    assert(reference_layout()[8]);
    if r.steps > 0 {
        assert(!crossing_blocked(reference_layout(), ray, 0));
    }
}

} // verus!
