use raycaster::camera::Player;
use raycaster::geometry::{Line, Position, Square};
use raycaster::grid::TileMap;
use raycaster::render::{Color, Renderer};

fn at(r: &Renderer, x: u32, y: u32) -> u32 {
    r.buffer[(y * r.width + x) as usize]
}

#[test]
fn packed_colors() {
    assert_eq!(Color::White.packed(), 0xffffff);
    assert_eq!(Color::Black.packed(), 0);
    assert_eq!(Color::Red.packed(), 0xff0000);
    assert_eq!(Color::Green.packed(), 0x00ff00);
    assert_eq!(Color::Blue.packed(), 0x0000ff);
    assert_eq!(Color::DarkGrey.packed(), 0x202020);
}

#[test]
fn clear_fills_every_pixel() {
    let mut r = Renderer::new(7, 5);
    assert_eq!(r.buffer.len(), 35);
    r.clear(Color::DarkGrey);
    assert!(r.buffer.iter().all(|&p| p == 0x202020));
}

#[test]
fn draw_pixel_inside_and_outside() {
    let mut r = Renderer::new(4, 3);
    r.draw_pixel(Position { x: 3, y: 2 }, Color::Blue);
    assert_eq!(at(&r, 3, 2), 0x0000ff);
    r.draw_pixel(Position { x: 4, y: 0 }, Color::Red);
    r.draw_pixel(Position { x: 0, y: 3 }, Color::Red);
    assert_eq!(r.buffer.iter().filter(|&&p| p != 0).count(), 1);
}

#[test]
fn rect_is_clipped_to_frame() {
    let mut r = Renderer::new(10, 10);
    r.rect(&Square::new(5, 3, Position { x: 7, y: 8 }), Color::Green);
    for y in 0..10 {
        for x in 0..10 {
            let inside = x >= 7 && y >= 8;
            assert_eq!(at(&r, x, y), if inside { 0x00ff00 } else { 0 });
        }
    }
}

#[test]
fn line_follows_bresenham() {
    let mut r = Renderer::new(10, 10);
    r.line(&Line::new(Position { x: 0, y: 0 }, Position { x: 5, y: 6 }), Color::Green);
    let expected = [(0, 0), (0, 1), (1, 2), (2, 3), (3, 4), (4, 5), (5, 6)];
    for y in 0..10 {
        for x in 0..10 {
            let on = expected.contains(&(x, y));
            assert_eq!(at(&r, x, y), if on { 0x00ff00 } else { 0 });
        }
    }
}

#[test]
fn line_leaving_frame_is_clipped() {
    let mut r = Renderer::new(4, 4);
    r.line(&Line::new(Position { x: 1, y: 1 }, Position { x: 9, y: 1 }), Color::White);
    assert_eq!(at(&r, 0, 1), 0);
    for x in 1..4 {
        assert_eq!(at(&r, x, 1), 0xffffff);
    }
    r.line(&Line::new(Position { x: 0, y: 0 }, Position { x: 100_000, y: 0 }), Color::Red);
    for x in 0..4 {
        assert_eq!(at(&r, x, 0), 0xff0000);
    }
    assert_eq!(at(&r, 0, 2), 0);
}

#[test]
fn map_view_colors_tiles() {
    let map = TileMap::reference();
    let mut r = Renderer::new(1200, 600);
    r.clear(Color::DarkGrey);
    map.draw_map_2d(&mut r);
    // tiles are 75 pixels apart and 74 pixels wide
    assert_eq!(at(&r, 0, 0), 0xffffff);
    assert_eq!(at(&r, 73, 73), 0xffffff);
    assert_eq!(at(&r, 74, 10), 0x202020);
    assert_eq!(at(&r, 10, 74), 0x202020);
    assert_eq!(at(&r, 75 + 10, 75 + 10), 0);
    assert_eq!(at(&r, 2 * 75 + 5, 75 + 5), 0xffffff);
    assert_eq!(at(&r, 5 * 75 + 5, 4 * 75 + 5), 0xffffff);
    assert_eq!(at(&r, 600, 300), 0x202020);
    assert_eq!(at(&r, 7 * 75 + 73, 7 * 75 + 73), 0xffffff);
}

#[test]
fn player_marker_is_red() {
    let p = Player::new(Position { x: 20, y: 30 }, 0);
    let mut r = Renderer::new(100, 100);
    p.draw_player(&mut r);
    assert_eq!(at(&r, 20, 30), 0xff0000);
    assert_eq!(at(&r, 29, 39), 0xff0000);
    assert_eq!(at(&r, 30, 39), 0);
    assert_eq!(at(&r, 19, 30), 0);
}

#[test]
fn line_paints_both_ends() {
    let mut r = Renderer::new(10, 10);
    r.line(&Line::new(Position { x: 7, y: 1 }, Position { x: 2, y: 8 }), Color::Blue);
    assert_eq!(at(&r, 7, 1), 0x0000ff);
    assert_eq!(at(&r, 2, 8), 0x0000ff);
    assert_eq!(r.buffer.iter().filter(|&&p| p != 0).count(), 8);
}
