use vstd::prelude::*;
use vstd::arithmetic::div_mod::lemma_fundamental_div_mod;
use vstd::arithmetic::div_mod::lemma_fundamental_div_mod_converse;
use crate::geometry::{Line, Position, Square};
use crate::raycast::{floor_div, pixel_of, to_pixel, Ray, ANGLE_TWO_PI, FIXED_ONE};

verus! {

/// Side of the square that marks the player on the map view.
pub const PLAYER_SIZE: u32 = 10;

/// How far ahead of the player the sight line reaches, in forward steps.
pub const SIGHT_STEPS: i64 = 10;

/// A heading brought into `[0, ANGLE_TWO_PI)` by whole turns.
pub open spec fn wrap_angle(a: int) -> int {
    a % (ANGLE_TWO_PI as int)
}

/// A coordinate moved by a fixed-point offset, truncated to a pixel
/// (clamped at 0 and at `u32::MAX`).
pub open spec fn moved(coord: u32, delta_fixed: int) -> u32 {
    to_pixel((coord * FIXED_ONE + delta_fixed) / (FIXED_ONE as int))
}

/// The camera: a position, a heading in ten-thousandths of a radian, and the
/// cached forward step `(pdx, pdy)` in 16.16 fixed point.
#[derive(Clone, Copy, Debug, PartialEq, Eq, Structural)]
pub struct Player {
    pub pos: Position,
    pub angle: i32,
    pub pdx: i32,
    pub pdy: i32,
}

impl Player {
    /// A player at `pos` with heading `angle` and no forward step yet.
    pub fn new(pos: Position, angle: i32) -> (r: Player)
        ensures
            r.pos == pos,
            r.angle == angle,
            r.pdx == 0,
            r.pdy == 0,
    {
        Player { pos, angle, pdx: 0, pdy: 0 }
    }

    /// Adds `delta` to the heading and wraps the result into `[0, ANGLE_TWO_PI)`.
    /// The forward step is left for the caller to recompute from the new heading.
    pub fn turn(&mut self, delta: i32)
        ensures
            final(self).angle == wrap_angle(old(self).angle + delta),
            0 <= final(self).angle < ANGLE_TWO_PI,
            final(self).pos == old(self).pos,
            final(self).pdx == old(self).pdx,
            final(self).pdy == old(self).pdy,
    {
        let sum: i64 = self.angle as i64 + delta as i64;
        let turn: i64 = ANGLE_TWO_PI as i64;
        if sum >= 0 {
            self.angle = ((sum as u64) % (turn as u64)) as i32;
        } else {
            let neg = (-sum) as u64;
            let m = neg % (turn as u64);
            proof {
                lemma_fundamental_div_mod(neg as int, turn as int);
                let q = (neg as int) / (turn as int);
                if m == 0 {
                    lemma_fundamental_div_mod_converse(sum as int, turn as int, -q, 0);
                } else {
                    assert(sum == (-q - 1) * turn + (turn - m)) by (nonlinear_arith)
                        requires
                            neg as int == turn * q + m,
                            sum == -(neg as int),
                    ;
                    lemma_fundamental_div_mod_converse(sum as int, turn as int, -q - 1, turn - m);
                }
            }
            if m == 0 {
                self.angle = 0;
            } else {
                self.angle = (turn - m as i64) as i32;
            }
        }
    }

    /// Replaces the cached forward step.
    pub fn set_direction(&mut self, pdx: i32, pdy: i32)
        ensures
            final(self).pdx == pdx,
            final(self).pdy == pdy,
            final(self).pos == old(self).pos,
            final(self).angle == old(self).angle,
    {
        self.pdx = pdx;
        self.pdy = pdy;
    }

    /// Moves one forward step (or one step back), truncating to whole pixels;
    /// a coordinate that would go below 0 stops at 0.
    pub fn advance(&mut self, forward: bool)
        ensures
            final(self).pos.x == moved(old(self).pos.x, if forward { old(self).pdx as int } else { -old(self).pdx }),
            final(self).pos.y == moved(old(self).pos.y, if forward { old(self).pdy as int } else { -old(self).pdy }),
            final(self).angle == old(self).angle,
            final(self).pdx == old(self).pdx,
            final(self).pdy == old(self).pdy,
    {
        let dx: i64 = if forward { self.pdx as i64 } else { -(self.pdx as i64) };
        let dy: i64 = if forward { self.pdy as i64 } else { -(self.pdy as i64) };
        let x = pixel_of(floor_div((self.pos.x as i64 * FIXED_ONE + dx) as i128, FIXED_ONE as i128));
        let y = pixel_of(floor_div((self.pos.y as i64 * FIXED_ONE + dy) as i128, FIXED_ONE as i128));
        self.pos = Position { x, y };
    }

    /// The square that marks the player on the map view.
    pub open spec fn marker_spec(&self) -> Square {
        Square { length: PLAYER_SIZE, height: PLAYER_SIZE, position: self.pos }
    }

    /// The square that marks the player on the map view.
    pub fn marker(&self) -> (r: Square)
        ensures
            r == self.marker_spec(),
    {
        Square::new(PLAYER_SIZE, PLAYER_SIZE, self.pos)
    }

    /// The sight line: from the centre of the marker to `SIGHT_STEPS` forward
    /// steps ahead of the position.
    pub fn vision_line(&self) -> (r: Line)
        ensures
            r.pos_1 == (Position { x: to_pixel(self.pos.x + PLAYER_SIZE / 2), y: to_pixel(self.pos.y + PLAYER_SIZE / 2) }),
            r.pos_2 == (Position { x: moved(self.pos.x, SIGHT_STEPS * self.pdx), y: moved(self.pos.y, SIGHT_STEPS * self.pdy) }),
    {
        let half = (PLAYER_SIZE / 2) as i64;
        let from = Position { x: pixel_of((self.pos.x as i64 + half) as i128), y: pixel_of((self.pos.y as i64 + half) as i128) };
        let x = pixel_of(floor_div((self.pos.x as i64 * FIXED_ONE + SIGHT_STEPS * self.pdx as i64) as i128, FIXED_ONE as i128));
        let y = pixel_of(floor_div((self.pos.y as i64 * FIXED_ONE + SIGHT_STEPS * self.pdy as i64) as i128, FIXED_ONE as i128));
        Line::new(from, Position { x, y })
    }

    /// The ray cast from the player's position along its heading; `inv_slope`
    /// is `-1 / tan(angle)` in 16.16 fixed point.
    pub fn ray(&self, inv_slope: i32) -> (r: Ray)
        ensures
            r == (Ray { origin: self.pos, angle: self.angle, inv_slope }),
    {
        Ray { origin: self.pos, angle: self.angle, inv_slope }
    }
}

} // verus!
