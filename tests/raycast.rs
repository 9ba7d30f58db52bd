use raycaster::camera::Player;
use raycaster::geometry::Position;
use raycaster::grid::TileMap;
use raycaster::raycast::{Ray, RayHit, ANGLE_PI};

fn inv_slope(angle: i32) -> i32 {
    let a = angle as f32 / 10000.0;
    (-1.0 / a.tan() * 65536.0) as i32
}

fn ray(x: u32, y: u32, angle: i32) -> Ray {
    Ray { origin: Position { x, y }, angle, inv_slope: inv_slope(angle) }
}

#[test]
fn reference_layout_walls() {
    let map = TileMap::reference();
    assert!(map.is_wall(0, 0));
    assert!(!map.is_wall(1, 1));
    assert!(map.is_wall(1, 2));
    assert!(map.is_wall(4, 5));
    assert!(map.is_wall(7, 3));
    assert!(!map.is_wall(6, 6));
}

#[test]
fn lookups_outside_the_map_are_open() {
    let map = TileMap::new([true; 64]);
    assert!(!map.is_wall(-1, 0));
    assert!(!map.is_wall(0, 8));
    assert!(!map.is_wall(8, 8));
    assert!(!map.is_wall_at_index(-1));
    assert!(!map.is_wall_at_index(64));
    assert!(map.is_wall_at_index(63));
    assert!(map.is_wall_at_index(0));
}

#[test]
fn from_codes_takes_only_one_as_wall() {
    let mut codes = [0u32; 64];
    codes[3] = 1;
    codes[4] = 2;
    let map = TileMap::from_codes(&codes);
    assert!(map.is_wall_at_index(3));
    assert!(!map.is_wall_at_index(4));
    assert!(!map.is_wall_at_index(5));
}

#[test]
fn looking_down_hits_bottom_wall() {
    let map = TileMap::reference();
    let r = map.raycast(&ray(80, 80, 15707));
    assert!(r.hit);
    assert_eq!(r.steps, 5);
    assert_eq!(r.end, Position { x: 80, y: 448 });
}

#[test]
fn looking_up_hits_top_wall() {
    let map = TileMap::reference();
    let r = map.raycast(&ray(80, 80, 47122));
    assert!(r.hit);
    assert_eq!(r.steps, 0);
    // just inside the wall row above the line y = 64
    assert_eq!(r.end.y, 63);
    assert_eq!(r.end.x / 64, 1);
}

#[test]
fn origin_in_corner_wall_hits_at_once() {
    let map = TileMap::reference();
    let r = map.raycast(&ray(10, 10, 15707));
    assert!(r.hit);
    assert_eq!(r.steps, 0);
    assert_eq!(r.end, Position { x: 10, y: 64 });
}

#[test]
fn level_headings_always_miss() {
    let map = TileMap::new([true; 64]);
    let origin = Position { x: 100, y: 100 };
    for angle in [0, ANGLE_PI] {
        let r = map.raycast(&Ray { origin, angle, inv_slope: 12345 });
        assert_eq!(r, RayHit { end: origin, steps: 0, hit: false });
    }
}

#[test]
fn casting_twice_gives_the_same_outcome() {
    let map = TileMap::reference();
    let q = ray(200, 300, 40000);
    let a = map.raycast(&q);
    let b = map.raycast(&q);
    assert_eq!(a, b);
}

#[test]
fn up_cast_never_ends_below_origin_row() {
    let map = TileMap::reference();
    for angle in [31416, 35000, 40000, 47122, 55000, 62829] {
        let r = map.raycast(&ray(300, 350, angle));
        assert!(r.steps <= 8);
        assert!(r.end.y / 64 <= 350 / 64);
    }
}

#[test]
fn down_cast_never_ends_above_origin_row() {
    let map = TileMap::reference();
    for angle in [1, 5000, 10000, 15707, 25000, 31414] {
        let r = map.raycast(&ray(300, 350, angle));
        assert!(r.steps <= 8);
        assert!(r.end.y / 64 >= 350 / 64);
    }
}

#[test]
fn out_of_range_tiles_are_passed_over() {
    let mut codes = [1u32; 64];
    for c in codes.iter_mut().take(8) {
        *c = 0;
    }
    let map = TileMap::from_codes(&codes);
    // Looking up from row 1 with row 0 open: every later crossing is above the map.
    let r = map.raycast(&Ray { origin: Position { x: 80, y: 100 }, angle: 47122, inv_slope: 0 });
    assert!(!r.hit);
    assert_eq!(r.steps, 8);
    assert_eq!(r.end, Position { x: 80, y: 0 });
    // Looking down from below the map.
    let map = TileMap::reference();
    let r = map.raycast(&Ray { origin: Position { x: 80, y: 600 }, angle: 15707, inv_slope: 0 });
    assert!(!r.hit);
    assert_eq!(r.end, Position { x: 80, y: 640 + 8 * 64 });
}

#[test]
fn looking_up_from_top_row_tests_that_row() {
    let map = TileMap::reference();
    // the first crossing lies a hair above y = 0 and truncates back into row 0
    let r = map.raycast(&Ray { origin: Position { x: 80, y: 30 }, angle: 47122, inv_slope: 0 });
    assert!(r.hit);
    assert_eq!(r.steps, 0);
    assert_eq!(r.end, Position { x: 80, y: 0 });
}

#[test]
fn miss_ends_at_last_crossing() {
    let map = TileMap::new([false; 64]);
    let r = map.raycast(&Ray { origin: Position { x: 100, y: 100 }, angle: 10000, inv_slope: 65536 });
    assert!(!r.hit);
    assert_eq!(r.steps, 8);
    // first line y = 128, eighth step past it y = 128 + 8 * 64 = 640;
    // x moves by -inv_slope per unit of y: 100 - (640 - 100) = -440, clamped to 0
    assert_eq!(r.end, Position { x: 0, y: 640 });
}

#[test]
fn slope_moves_crossing_sideways() {
    let map = TileMap::new([false; 64]);
    let r = map.raycast(&Ray { origin: Position { x: 100, y: 100 }, angle: 10000, inv_slope: -32768 });
    // x at y = 640 is 100 + 540 / 2 = 370
    assert_eq!(r.end, Position { x: 370, y: 640 });
}

#[test]
fn turn_left_wraps_below_zero() {
    let mut p = Player::new(Position { x: 80, y: 80 }, 500);
    p.turn(-1000);
    assert_eq!(p.angle, 62830 - 500);
}

#[test]
fn turn_right_wraps_past_full_turn() {
    let mut p = Player::new(Position { x: 80, y: 80 }, 62000);
    p.turn(1000);
    assert_eq!(p.angle, 170);
    let mut q = Player::new(Position { x: 80, y: 80 }, 300000);
    q.turn(0);
    assert_eq!(q.angle, 300000 - 4 * 62830);
}

#[test]
fn advance_moves_and_clamps() {
    let mut p = Player::new(Position { x: 80, y: 3 }, 0);
    p.set_direction(5 * 65536, -(2 * 65536 + 100));
    p.advance(true);
    assert_eq!(p.pos, Position { x: 85, y: 0 });
    p.advance(false);
    assert_eq!(p.pos, Position { x: 80, y: 2 });
}

#[test]
fn player_ray_and_lines() {
    let mut p = Player::new(Position { x: 80, y: 80 }, 15707);
    p.set_direction(0, 5 * 65536);
    let r = p.ray(-6);
    assert_eq!(r, Ray { origin: Position { x: 80, y: 80 }, angle: 15707, inv_slope: -6 });
    let l = p.vision_line();
    assert_eq!(l.pos_1, Position { x: 85, y: 85 });
    assert_eq!(l.pos_2, Position { x: 80, y: 130 });
    let m = p.marker();
    assert_eq!((m.length, m.height, m.position), (10, 10, Position { x: 80, y: 80 }));
}
