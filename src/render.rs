use vstd::prelude::*;
use vstd::arithmetic::div_mod::lemma_fundamental_div_mod;
use vstd::arithmetic::div_mod::lemma_fundamental_div_mod_converse;
use crate::camera::Player;
use crate::geometry::{Line, Position, Square};
use crate::grid::TileMap;

verus! {

/// The palette.
#[derive(Clone, Copy, Debug, PartialEq, Eq, Structural)]
pub enum Color {
    White,
    Black,
    Red,
    Green,
    Blue,
    DarkGrey,
}

/// The packed 0xRRGGBB value of a color.
pub open spec fn packed_of(c: Color) -> u32 {
    match c {
        Color::White => 0xffffff,
        Color::Black => 0x000000,
        Color::Red => 0xff0000,
        Color::Green => 0x00ff00,
        Color::Blue => 0x0000ff,
        Color::DarkGrey => 0x202020,
    }
}

impl Color {
    /// The packed 0xRRGGBB value used in the frame buffer.
    pub fn packed(self) -> (r: u32)
        ensures
            r == packed_of(self),
    {
        match self {
            Color::White => 0xffffff,
            Color::Black => 0x000000,
            Color::Red => 0xff0000,
            Color::Green => 0x00ff00,
            Color::Blue => 0x0000ff,
            Color::DarkGrey => 0x202020,
        }
    }
}

/// The pixel at column `x`, row `y` of a row-major buffer `width` pixels wide.
pub open spec fn pixel(buf: Seq<u32>, width: int, x: int, y: int) -> u32 {
    buf[y * width + x]
}

/// Whether (x, y) lies inside the rectangle `sq`.
pub open spec fn in_square(sq: Square, x: int, y: int) -> bool {
    sq.position.x <= x < sq.position.x + sq.length && sq.position.y <= y < sq.position.y + sq.height
}

/// The points that line_drawing's Bresenham walk yields from one end to the other.
pub uninterp spec fn bresenham_path(x0: i64, y0: i64, x1: i64, y1: i64) -> Seq<(i64, i64)>;

/// Relies on `line_drawing::Bresenham::new(start, end)` over `i64`: the points
/// of the rasterised segment, which include both `start` and `end`.
/// Coordinates are bounded so that the crate's differences and negations
/// cannot overflow.
#[verifier::external_body]
fn bresenham_points(x0: i64, y0: i64, x1: i64, y1: i64) -> (r: Vec<(i64, i64)>)
    requires
        0 <= x0 <= u32::MAX,
        0 <= y0 <= u32::MAX,
        0 <= x1 <= u32::MAX,
        0 <= y1 <= u32::MAX,
    ensures
        r@ == bresenham_path(x0, y0, x1, y1),
        r@.len() > 0,
        r@[0] == (x0, y0),
        r@.last() == (x1, y1),
{
    line_drawing::Bresenham::new((x0, y0), (x1, y1)).collect()
}

/// Whether one of the first `n` points of `path` is (x, y).
pub open spec fn painted_by(path: Seq<(i64, i64)>, n: int, x: int, y: int) -> bool {
    exists|k: int| 0 <= k < n && path[k].0 == x && path[k].1 == y
}

/// The rasterised points of `line`.
pub open spec fn line_path(line: Line) -> Seq<(i64, i64)> {
    bresenham_path(line.pos_1.x as i64, line.pos_1.y as i64, line.pos_2.x as i64, line.pos_2.y as i64)
}

/// Width of one map tile on screen: the map view takes the left half of the frame.
pub open spec fn tile_width(width: u32) -> int {
    width as int / 8 / 2
}

/// Height of one map tile on screen.
pub open spec fn tile_height(height: u32) -> int {
    height as int / 8
}

/// The rectangle drawn for the tile at (row, col): one pixel short of the
/// tile in each direction, so that a grid of gaps separates the tiles.
pub open spec fn tile_square(width: u32, height: u32, row: int, col: int) -> Square {
    let tw = tile_width(width);
    let th = tile_height(height);
    Square {
        length: if tw > 0 { (tw - 1) as u32 } else { 0 },
        height: if th > 0 { (th - 1) as u32 } else { 0 },
        position: Position { x: (col * tw) as u32, y: (row * th) as u32 },
    }
}

/// The tile (row, col) whose rectangle covers the pixel (x, y), if any.
pub open spec fn tile_at(width: u32, height: u32, x: int, y: int) -> Option<(int, int)> {
    let tw = tile_width(width);
    let th = tile_height(height);
    if tw > 0 && th > 0 && x / tw < 8 && y / th < 8 && x % tw < tw - 1 && y % th < th - 1 {
        Some((y / th, x / tw))
    } else {
        None
    }
}

/// The color a tile is drawn in.
pub open spec fn tile_color(wall: bool) -> Color {
    if wall {
        Color::White
    } else {
        Color::Black
    }
}

proof fn lemma_tile_axis(t: int, i: int, v: int)
    requires
        t > 0,
        0 <= i,
        0 <= v,
    ensures
        (i * t <= v < i * t + t - 1) == (v / t == i && v % t < t - 1),
{
    lemma_fundamental_div_mod(v, t);
    if i * t <= v < i * t + t - 1 {
        lemma_fundamental_div_mod_converse(v, t, i, v - i * t);
    }
    if v / t == i && v % t < t - 1 {
        assert(v == i * t + v % t) by (nonlinear_arith)
            requires
                v == t * (v / t) + v % t,
                v / t == i,
        ;
    }
}

/// A pixel lies in the rectangle of tile (row, col) exactly when `tile_at` names that tile.
proof fn lemma_tile_membership(width: u32, height: u32, row: int, col: int, x: int, y: int)
    requires
        0 <= row < 8,
        0 <= col < 8,
        0 <= x,
        0 <= y,
    ensures
        in_square(tile_square(width, height, row, col), x, y) == (tile_at(width, height, x, y) == Some((row, col))),
{
    let tw = tile_width(width);
    let th = tile_height(height);
    assert(0 <= col * tw <= 8 * tw <= width) by (nonlinear_arith)
        requires
            0 <= col < 8,
            tw == width as int / 8 / 2,
            tw >= 0,
    ;
    assert(0 <= row * th <= 8 * th <= height) by (nonlinear_arith)
        requires
            0 <= row < 8,
            th == height as int / 8,
            th >= 0,
    ;
    if tw > 0 && th > 0 {
        lemma_tile_axis(tw, col, x);
        lemma_tile_axis(th, row, y);
    }
}

proof fn lemma_index_in_frame(w: int, h: int, x: int, y: int)
    requires
        0 <= x < w,
        0 <= y < h,
    ensures
        0 <= y * w + x < w * h,
{
    assert(0 <= y * w + x < w * h) by (nonlinear_arith)
        requires
            0 <= x < w,
            0 <= y < h,
    ;
}

proof fn lemma_index_unique(w: int, x1: int, y1: int, x2: int, y2: int)
    requires
        0 <= x1 < w,
        0 <= x2 < w,
        0 <= y1,
        0 <= y2,
        y1 * w + x1 == y2 * w + x2,
    ensures
        x1 == x2,
        y1 == y2,
{
    if y1 < y2 {
        assert(y1 * w + w <= y2 * w) by (nonlinear_arith)
            requires
                y1 < y2,
                0 < w,
        ;
    } else if y2 < y1 {
        assert(y2 * w + w <= y1 * w) by (nonlinear_arith)
            requires
                y2 < y1,
                0 < w,
        ;
    }
}

/// A row-major frame buffer of packed colors, `width` by `height` pixels.
pub struct Renderer {
    pub buffer: Vec<u32>,
    pub width: u32,
    pub height: u32,
}

impl Renderer {
    pub open spec fn wf(&self) -> bool {
        self.buffer@.len() == self.width * self.height
    }

    /// The pixel at (x, y) as the buffer holds it.
    pub open spec fn at(&self, x: int, y: int) -> u32 {
        pixel(self.buffer@, self.width as int, x, y)
    }

    pub open spec fn in_frame(&self, x: int, y: int) -> bool {
        0 <= x < self.width && 0 <= y < self.height
    }

    /// A black frame of the given size.
    pub fn new(width: u32, height: u32) -> (r: Renderer)
        requires
            width * height <= usize::MAX,
        ensures
            r.wf(),
            r.width == width,
            r.height == height,
            forall|i: int| 0 <= i < r.buffer@.len() ==> r.buffer@[i] == 0,
    {
        let n = width as usize * height as usize;
        let mut buffer: Vec<u32> = Vec::new();
        let mut i: usize = 0;
        while i < n
            invariant
                i <= n,
                buffer@.len() == i,
                forall|j: int| 0 <= j < i ==> buffer@[j] == 0,
            decreases n - i,
        {
            buffer.push(0);
            i = i + 1;
        }
        Renderer { buffer, width, height }
    }

    /// Fills the whole frame with one color.
    pub fn clear(&mut self, color: Color)
        requires
            old(self).wf(),
        ensures
            final(self).wf(),
            final(self).width == old(self).width,
            final(self).height == old(self).height,
            forall|i: int| 0 <= i < final(self).buffer@.len() ==> final(self).buffer@[i] == packed_of(color),
    {
        let c = color.packed();
        let n = self.buffer.len();
        let mut i: usize = 0;
        while i < n
            invariant
                i <= n,
                n == self.buffer@.len(),
                self.wf(),
                self.width == old(self).width,
                self.height == old(self).height,
                forall|j: int| 0 <= j < i ==> self.buffer@[j] == c,
            decreases n - i,
        {
            self.buffer[i] = c;
            i = i + 1;
        }
    }

    /// Paints one pixel; a position outside the frame leaves the buffer as it is.
    pub fn draw_pixel(&mut self, position: Position, color: Color)
        requires
            old(self).wf(),
        ensures
            final(self).wf(),
            final(self).width == old(self).width,
            final(self).height == old(self).height,
            old(self).in_frame(position.x as int, position.y as int) ==> final(self).buffer@ == old(self).buffer@.update(
                position.y * old(self).width + position.x,
                packed_of(color),
            ),
            !old(self).in_frame(position.x as int, position.y as int) ==> final(self).buffer@ == old(self).buffer@,
    {
        let n = self.buffer.len();
        if position.x < self.width && position.y < self.height {
            proof {
                lemma_index_in_frame(self.width as int, self.height as int, position.x as int, position.y as int);
            }
            let index = position.y as usize * self.width as usize + position.x as usize;
            self.buffer[index] = color.packed();
        }
    }

    /// Fills the part of `square` that lies inside the frame; every other pixel keeps its color.
    pub fn rect(&mut self, square: &Square, color: Color)
        requires
            old(self).wf(),
        ensures
            final(self).wf(),
            final(self).width == old(self).width,
            final(self).height == old(self).height,
            forall|x: int, y: int|
                old(self).in_frame(x, y) ==> #[trigger] pixel(final(self).buffer@, old(self).width as int, x, y) == if in_square(*square, x, y) {
                    packed_of(color)
                } else {
                    pixel(old(self).buffer@, old(self).width as int, x, y)
                },
    {
        let ghost old_buf = self.buffer@;
        let ghost w = self.width as int;
        let c = color.packed();
        let n = self.buffer.len();
        let x0 = square.position.x as u64;
        let y0 = square.position.y as u64;
        let right = x0 + square.length as u64;
        let bottom = y0 + square.height as u64;
        let x_end: u64 = if right < self.width as u64 { right } else { self.width as u64 };
        let y_end: u64 = if bottom < self.height as u64 { bottom } else { self.height as u64 };
        let mut yy: u64 = y0;
        while yy < y_end
            invariant
                self.wf(),
                self.width == old(self).width,
                self.height == old(self).height,
                w == self.width,
                n == self.buffer@.len(),
                old_buf == old(self).buffer@,
                c == packed_of(color),
                x0 == square.position.x,
                y0 == square.position.y,
                right == x0 + square.length,
                bottom == y0 + square.height,
                x_end <= right,
                x_end <= self.width,
                x_end == right || x_end == self.width,
                y_end <= self.height,
                y_end <= bottom,
                y0 <= yy,
                forall|x: int, y: int|
                    self.in_frame(x, y) ==> #[trigger] pixel(self.buffer@, w, x, y) == if in_square(*square, x, y) && y < yy {
                        c
                    } else {
                        pixel(old_buf, w, x, y)
                    },
            decreases y_end - yy,
        {
            let mut xx: u64 = x0;
            while xx < x_end
                invariant
                    self.wf(),
                    self.width == old(self).width,
                    self.height == old(self).height,
                    w == self.width,
                    n == self.buffer@.len(),
                    c == packed_of(color),
                    x0 == square.position.x,
                    y0 == square.position.y,
                    right == x0 + square.length,
                    bottom == y0 + square.height,
                    x_end <= self.width,
                    x_end <= right,
                    y_end <= bottom,
                    y0 <= yy < y_end,
                    y_end <= self.height,
                    x0 <= xx,
                    forall|x: int, y: int|
                        self.in_frame(x, y) ==> #[trigger] pixel(self.buffer@, w, x, y) == if in_square(*square, x, y) && (y < yy || (y == yy && x < xx)) {
                            c
                        } else {
                            pixel(old_buf, w, x, y)
                        },
                decreases x_end - xx,
            {
                proof {
                    lemma_index_in_frame(w, self.height as int, xx as int, yy as int);
                }
                let ghost before = self.buffer@;
                let index = yy as usize * self.width as usize + xx as usize;
                self.buffer[index] = c;
                proof {
                    assert forall|x: int, y: int| self.in_frame(x, y) implies #[trigger] pixel(self.buffer@, w, x, y) == if in_square(*square, x, y) && (y < yy || (y == yy && x < xx + 1)) {
                        c
                    } else {
                        pixel(old_buf, w, x, y)
                    } by {
                        lemma_index_in_frame(w, self.height as int, x, y);
                        if x != xx || y != yy {
                            if y * w + x == yy * w + xx {
                                lemma_index_unique(w, x, y, xx as int, yy as int);
                            }
                            assert(pixel(self.buffer@, w, x, y) == pixel(before, w, x, y));
                        }
                    }
                }
                xx = xx + 1;
            }
            yy = yy + 1;
        }
    }

    /// Draws `line` as line_drawing's Bresenham walk rasterises it, skipping
    /// points outside the frame. Both ends are painted when they are in the frame.
    pub fn line(&mut self, line: &Line, color: Color)
        requires
            old(self).wf(),
        ensures
            final(self).wf(),
            final(self).width == old(self).width,
            final(self).height == old(self).height,
            forall|x: int, y: int|
                old(self).in_frame(x, y) ==> #[trigger] pixel(final(self).buffer@, old(self).width as int, x, y) == if painted_by(line_path(*line), line_path(*line).len() as int, x, y) {
                    packed_of(color)
                } else {
                    pixel(old(self).buffer@, old(self).width as int, x, y)
                },
            old(self).in_frame(line.pos_1.x as int, line.pos_1.y as int) ==> pixel(final(self).buffer@, old(self).width as int, line.pos_1.x as int, line.pos_1.y as int) == packed_of(color),
            old(self).in_frame(line.pos_2.x as int, line.pos_2.y as int) ==> pixel(final(self).buffer@, old(self).width as int, line.pos_2.x as int, line.pos_2.y as int) == packed_of(color),
    {
        let points = bresenham_points(line.pos_1.x as i64, line.pos_1.y as i64, line.pos_2.x as i64, line.pos_2.y as i64);
        let ghost path = points@;
        let ghost old_buf = self.buffer@;
        let ghost w = self.width as int;
        let n = points.len();
        let mut j: usize = 0;
        while j < n
            invariant
                self.wf(),
                self.width == old(self).width,
                self.height == old(self).height,
                w == self.width,
                old_buf == old(self).buffer@,
                path == points@,
                path == line_path(*line),
                n == path.len(),
                j <= n,
                forall|x: int, y: int|
                    self.in_frame(x, y) ==> #[trigger] pixel(self.buffer@, w, x, y) == if painted_by(path, j as int, x, y) {
                        packed_of(color)
                    } else {
                        pixel(old_buf, w, x, y)
                    },
            decreases n - j,
        {
            let (px, py) = points[j];
            let ghost before = self.buffer@;
            if 0 <= px && px <= u32::MAX as i64 && 0 <= py && py <= u32::MAX as i64 {
                self.draw_pixel(Position { x: px as u32, y: py as u32 }, color);
            }
            proof {
                assert forall|x: int, y: int| self.in_frame(x, y) implies #[trigger] pixel(self.buffer@, w, x, y) == if painted_by(path, j + 1, x, y) {
                    packed_of(color)
                } else {
                    pixel(old_buf, w, x, y)
                } by {
                    lemma_index_in_frame(w, self.height as int, x, y);
                    if x == px && y == py {
                        assert(path[j as int].0 == x && path[j as int].1 == y);
                        assert(painted_by(path, j + 1, x, y));
                    } else {
                        if 0 <= px < self.width && 0 <= py < self.height {
                            lemma_index_in_frame(w, self.height as int, px as int, py as int);
                            if y * w + x == py * w + px {
                                lemma_index_unique(w, x, y, px as int, py as int);
                            }
                        }
                        assert(pixel(self.buffer@, w, x, y) == pixel(before, w, x, y));
                        if painted_by(path, j + 1, x, y) {
                            let k = choose|k: int| 0 <= k < j + 1 && path[k].0 == x && path[k].1 == y;
                            assert(k < j);
                            assert(painted_by(path, j as int, x, y));
                        }
                    }
                }
            }
            j = j + 1;
        }
        proof {
            let l = path.len() - 1;
            assert(painted_by(path, n as int, line.pos_1.x as int, line.pos_1.y as int)) by {
                assert(path[0].0 == line.pos_1.x && path[0].1 == line.pos_1.y);
            }
            assert(painted_by(path, n as int, line.pos_2.x as int, line.pos_2.y as int)) by {
                assert(path[l].0 == line.pos_2.x && path[l].1 == line.pos_2.y);
            }
        }
    }
}

impl TileMap {
    /// Draws the map view: each tile as a white (wall) or black (open)
    /// rectangle in the left half of the frame. Pixels in the gaps between
    /// tiles, and beyond them, keep their color.
    pub fn draw_map_2d(&self, renderer: &mut Renderer)
        requires
            old(renderer).wf(),
        ensures
            final(renderer).wf(),
            final(renderer).width == old(renderer).width,
            final(renderer).height == old(renderer).height,
            forall|x: int, y: int|
                old(renderer).in_frame(x, y) ==> #[trigger] pixel(final(renderer).buffer@, old(renderer).width as int, x, y) == match tile_at(old(renderer).width, old(renderer).height, x, y) {
                    Some((r, c)) => packed_of(tile_color(self@[r * 8 + c])),
                    None => pixel(old(renderer).buffer@, old(renderer).width as int, x, y),
                },
    {
        let ghost old_buf = renderer.buffer@;
        let ghost w = renderer.width as int;
        let tw: u32 = renderer.width / 8 / 2;
        let th: u32 = renderer.height / 8;
        let length: u32 = if tw > 0 { tw - 1 } else { 0 };
        let height: u32 = if th > 0 { th - 1 } else { 0 };
        let mut row: u32 = 0;
        while row < 8
            invariant
                renderer.wf(),
                renderer.width == old(renderer).width,
                renderer.height == old(renderer).height,
                w == renderer.width,
                old_buf == old(renderer).buffer@,
                tw == tile_width(renderer.width),
                th == tile_height(renderer.height),
                length == (if tw > 0 { (tw - 1) as u32 } else { 0 }),
                height == (if th > 0 { (th - 1) as u32 } else { 0 }),
                row <= 8,
                forall|x: int, y: int|
                    renderer.in_frame(x, y) ==> #[trigger] pixel(renderer.buffer@, w, x, y) == match tile_at(renderer.width, renderer.height, x, y) {
                        Some((r, c)) => if r < row {
                            packed_of(tile_color(self@[r * 8 + c]))
                        } else {
                            pixel(old_buf, w, x, y)
                        },
                        None => pixel(old_buf, w, x, y),
                    },
            decreases 8 - row,
        {
            let mut col: u32 = 0;
            while col < 8
                invariant
                    renderer.wf(),
                    renderer.width == old(renderer).width,
                    renderer.height == old(renderer).height,
                    w == renderer.width,
                    tw == tile_width(renderer.width),
                    th == tile_height(renderer.height),
                    length == (if tw > 0 { (tw - 1) as u32 } else { 0 }),
                    height == (if th > 0 { (th - 1) as u32 } else { 0 }),
                    row < 8,
                    col <= 8,
                    forall|x: int, y: int|
                        renderer.in_frame(x, y) ==> #[trigger] pixel(renderer.buffer@, w, x, y) == match tile_at(renderer.width, renderer.height, x, y) {
                            Some((r, c)) => if r < row || (r == row && c < col) {
                                packed_of(tile_color(self@[r * 8 + c]))
                            } else {
                                pixel(old_buf, w, x, y)
                            },
                            None => pixel(old_buf, w, x, y),
                        },
                decreases 8 - col,
            {
                proof {
                    assert(col * tw <= 8 * tw <= renderer.width) by (nonlinear_arith)
                        requires
                            col < 8,
                            tw == renderer.width as int / 8 / 2,
                    ;
                    assert(row * th <= 8 * th <= renderer.height) by (nonlinear_arith)
                        requires
                            row < 8,
                            th == renderer.height as int / 8,
                    ;
                }
                let square = Square::new(length, height, Position { x: col * tw, y: row * th });
                assert(square == tile_square(renderer.width, renderer.height, row as int, col as int));
                let wall = self.map[(row * 8 + col) as usize];
                let color = if wall { Color::White } else { Color::Black };
                renderer.rect(&square, color);
                proof {
                    assert forall|x: int, y: int| renderer.in_frame(x, y) implies #[trigger] pixel(renderer.buffer@, w, x, y) == match tile_at(renderer.width, renderer.height, x, y) {
                        Some((r, c)) => if r < row || (r == row && c < col + 1) {
                            packed_of(tile_color(self@[r * 8 + c]))
                        } else {
                            pixel(old_buf, w, x, y)
                        },
                        None => pixel(old_buf, w, x, y),
                    } by {
                        lemma_tile_membership(renderer.width, renderer.height, row as int, col as int, x, y);
                    }
                }
                col = col + 1;
            }
            row = row + 1;
        }
    }
}

impl Player {
    /// Draws the player's marker square in red.
    pub fn draw_player(&self, renderer: &mut Renderer)
        requires
            old(renderer).wf(),
        ensures
            final(renderer).wf(),
            final(renderer).width == old(renderer).width,
            final(renderer).height == old(renderer).height,
            forall|x: int, y: int|
                old(renderer).in_frame(x, y) ==> #[trigger] pixel(final(renderer).buffer@, old(renderer).width as int, x, y) == if in_square(self.marker_spec(), x, y) {
                    packed_of(Color::Red)
                } else {
                    pixel(old(renderer).buffer@, old(renderer).width as int, x, y)
                },
    {
        let square = self.marker();
        renderer.rect(&square, Color::Red);
    }
}

} // verus!
