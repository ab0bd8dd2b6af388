use vstd::prelude::*;
use crate::cell::{Board, State};

verus! {

/// Width of the window, in pixels.
pub const WIDTH: u32 = 800;

/// Height of the window, in pixels.
pub const HEIGHT: u32 = 800;

/// Side of the square that shows one cell, in pixels.
pub const RES: u32 = 20;

/// A colour, one byte per channel.
#[derive(Clone, Copy, PartialEq, Eq, Structural, Debug)]
pub struct Rgba {
    pub r: u8,
    pub g: u8,
    pub b: u8,
    pub a: u8,
}

/// Where pixel (x, y) starts in a frame of `WIDTH * HEIGHT` pixels, four
/// bytes each.
pub open spec fn pixel_offset(x: int, y: int) -> int {
    (x + y * WIDTH) * 4
}

/// The byte stored for channel `c` of a pixel: blue, green, red, then alpha.
pub open spec fn channel(color: Rgba, c: int) -> u8 {
    if c == 0 {
        color.b
    } else if c == 1 {
        color.g
    } else if c == 2 {
        color.r
    } else {
        color.a
    }
}

/// Writes `color` into the four bytes of pixel (x, y), blue first.
pub fn put_pixel(x: u32, y: u32, color: Rgba, framedata: &mut Vec<u8>)
    requires
        pixel_offset(x as int, y as int) + 4 <= old(framedata)@.len(),
    ensures
        final(framedata)@ == old(framedata)@.update(pixel_offset(x as int, y as int), color.b).update(
            pixel_offset(x as int, y as int) + 1,
            color.g,
        ).update(pixel_offset(x as int, y as int) + 2, color.r).update(
            pixel_offset(x as int, y as int) + 3,
            color.a,
        ),
{
    let len = framedata.len();
    assert(len <= usize::MAX);
    let o: usize = (x as usize + y as usize * (WIDTH as usize)) * 4;
    framedata.set(o, color.b);
    framedata.set(o + 1, color.g);
    framedata.set(o + 2, color.r);
    framedata.set(o + 3, color.a);
}

/// Whether pixel (px, py) lies in the `w` by `h` rectangle whose top-left
/// corner is (x, y).
pub open spec fn in_rect(px: int, py: int, x: int, y: int, w: int, h: int) -> bool {
    x <= px < x + w && y <= py < y + h
}

/// Whether (px, py, c) names a byte of a full frame: a pixel on the window and
/// one of its four channels.
pub open spec fn frame_byte(px: int, py: int, c: int) -> bool {
    0 <= px < WIDTH && 0 <= py < HEIGHT && 0 <= c < 4
}

/// Distinct bytes of a frame sit at distinct offsets.
proof fn lemma_offset_unique(px: int, py: int, c: int, qx: int, qy: int, d: int)
    requires
        frame_byte(px, py, c),
        frame_byte(qx, qy, d),
        pixel_offset(px, py) + c == pixel_offset(qx, qy) + d,
    ensures
        px == qx,
        py == qy,
        c == d,
{
}

/// Fills the `w` by `h` rectangle whose top-left corner is pixel (x, y) with
/// `color`, and leaves every other pixel of the frame as it was.
pub fn draw_rect(x: u32, y: u32, w: u32, h: u32, color: Rgba, framedata: &mut Vec<u8>)
    requires
        x + w <= WIDTH,
        y + h <= HEIGHT,
        old(framedata)@.len() == WIDTH * HEIGHT * 4,
    ensures
        final(framedata)@.len() == old(framedata)@.len(),
        forall|px: int, py: int, c: int|
            #![trigger final(framedata)@[pixel_offset(px, py) + c]]
            frame_byte(px, py, c) ==> final(framedata)@[pixel_offset(px, py) + c] == if in_rect(
                px,
                py,
                x as int,
                y as int,
                w as int,
                h as int,
            ) {
                channel(color, c)
            } else {
                old(framedata)@[pixel_offset(px, py) + c]
            },
{
    let ghost before = framedata@;
    let mut i: u32 = 0;
    while i < h
        invariant
            x + w <= WIDTH,
            y + h <= HEIGHT,
            0 <= i <= h,
            framedata@.len() == before.len(),
            before.len() == WIDTH * HEIGHT * 4,
            forall|px: int, py: int, c: int|
                #![trigger framedata@[pixel_offset(px, py) + c]]
                frame_byte(px, py, c) ==> framedata@[pixel_offset(px, py) + c] == if in_rect(
                    px,
                    py,
                    x as int,
                    y as int,
                    w as int,
                    i as int,
                ) {
                    channel(color, c)
                } else {
                    before[pixel_offset(px, py) + c]
                },
        decreases h - i,
    {
        let mut j: u32 = 0;
        while j < w
            invariant
                x + w <= WIDTH,
                y + h <= HEIGHT,
                0 <= i < h,
                0 <= j <= w,
                framedata@.len() == before.len(),
                before.len() == WIDTH * HEIGHT * 4,
                forall|px: int, py: int, c: int|
                    #![trigger framedata@[pixel_offset(px, py) + c]]
                    frame_byte(px, py, c) ==> framedata@[pixel_offset(px, py) + c] == if in_rect(
                        px,
                        py,
                        x as int,
                        y as int,
                        w as int,
                        i as int,
                    ) || (py == y + i && x <= px < x + j) {
                        channel(color, c)
                    } else {
                        before[pixel_offset(px, py) + c]
                    },
            decreases w - j,
        {
            let ghost prev = framedata@;
            put_pixel(x + j, y + i, color, framedata);
            assert forall|px: int, py: int, c: int|
                #![trigger framedata@[pixel_offset(px, py) + c]]
                frame_byte(px, py, c) implies framedata@[pixel_offset(px, py) + c] == if in_rect(
                    px,
                    py,
                    x as int,
                    y as int,
                    w as int,
                    i as int,
                ) || (py == y + i && x <= px < x + j + 1) {
                    channel(color, c)
                } else {
                    before[pixel_offset(px, py) + c]
                } by {
                let k = pixel_offset(px, py) + c;
                let o = pixel_offset((x + j) as int, (y + i) as int);
                if o <= k < o + 4 {
                    lemma_offset_unique(px, py, c, (x + j) as int, (y + i) as int, k - o);
                } else {
                    assert(framedata@[k] == prev[k]);
                }
            }
            j = j + 1;
        }
        i = i + 1;
    }
}

/// The colour that each cell state is drawn in.
#[derive(Clone, Copy, PartialEq, Eq, Structural, Debug)]
pub struct Palette {
    pub empty: Rgba,
    pub head: Rgba,
    pub tail: Rgba,
    pub wire: Rgba,
}

impl Palette {
    /// The colour of state `s`.
    pub open spec fn spec_color(self, s: State) -> Rgba {
        match s {
            State::Empty => self.empty,
            State::Head => self.head,
            State::Tail => self.tail,
            State::Wire => self.wire,
        }
    }

    /// The colour of state `s`.
    pub fn color(&self, s: State) -> (r: Rgba)
        ensures
            r == self.spec_color(s),
    {
        match s {
            State::Empty => self.empty,
            State::Head => self.head,
            State::Tail => self.tail,
            State::Wire => self.wire,
        }
    }
}

/// Whether pixel (px, py) belongs to a cell's square rather than to the one
/// pixel wide gap after each column and each row of cells.
pub open spec fn in_cell_square(px: int, py: int) -> bool {
    px % (RES as int) < RES - 1 && py % (RES as int) < RES - 1
}

/// Whether pixel (px, py) shows a cell of `b`: it lies in a square whose cell
/// is on the board.
pub open spec fn shows_cell(b: Board, px: int, py: int) -> bool {
    in_cell_square(px, py) && b.in_bounds(px / (RES as int), py / (RES as int))
}

/// The square of cell `c` along one axis, gap excluded, is the run of pixels
/// whose quotient by `RES` is `c` and whose remainder is below `RES - 1`.
proof fn lemma_cell_square(p: int, c: int)
    requires
        0 <= p,
        0 <= c,
    ensures
        (c * RES <= p < c * RES + RES - 1) <==> (p / (RES as int) == c && p % (RES as int)
            < RES - 1),
{
    assert((c * 20 <= p < c * 20 + 19) <==> (p / 20 == c && p % 20 < 19)) by (nonlinear_arith)
        requires
            0 <= p,
            0 <= c,
    ;
}

/// Whether cell (cx, cy) comes before cell (x, y) in row order.
pub open spec fn drawn_before(cx: int, cy: int, x: int, y: int) -> bool {
    cy < y || (cy == y && cx < x)
}

/// Draws every cell of `board` that fits in the window as a square of
/// `RES - 1` pixels in its palette colour, cell (x, y) at pixel
/// (x * RES, y * RES). The gaps between squares, and pixels that show no cell
/// of the board, are left as they were.
pub fn draw_board(board: &Board, palette: &Palette, framedata: &mut Vec<u8>)
    requires
        old(framedata)@.len() == WIDTH * HEIGHT * 4,
    ensures
        final(framedata)@.len() == old(framedata)@.len(),
        forall|px: int, py: int, c: int|
            #![trigger final(framedata)@[pixel_offset(px, py) + c]]
            frame_byte(px, py, c) ==> final(framedata)@[pixel_offset(px, py) + c] == if shows_cell(
                *board,
                px,
                py,
            ) {
                channel(palette.spec_color(board.cell(px / (RES as int), py / (RES as int))), c)
            } else {
                old(framedata)@[pixel_offset(px, py) + c]
            },
{
    let ghost before = framedata@;
    let cols: usize = if board.width() < (WIDTH / RES) as usize {
        board.width()
    } else {
        (WIDTH / RES) as usize
    };
    let rows: usize = if board.height() < (HEIGHT / RES) as usize {
        board.height()
    } else {
        (HEIGHT / RES) as usize
    };
    let mut y: usize = 0;
    while y < rows
        invariant
            cols <= WIDTH / RES,
            rows <= HEIGHT / RES,
            cols == board.spec_width() || cols == WIDTH / RES,
            cols <= board.spec_width(),
            rows == board.spec_height() || rows == HEIGHT / RES,
            rows <= board.spec_height(),
            0 <= y <= rows,
            framedata@.len() == before.len(),
            before.len() == WIDTH * HEIGHT * 4,
            forall|px: int, py: int, c: int|
                #![trigger framedata@[pixel_offset(px, py) + c]]
                frame_byte(px, py, c) ==> framedata@[pixel_offset(px, py) + c] == if shows_cell(
                    *board,
                    px,
                    py,
                ) && drawn_before(px / (RES as int), py / (RES as int), 0, y as int) {
                    channel(palette.spec_color(board.cell(px / (RES as int), py / (RES as int))), c)
                } else {
                    before[pixel_offset(px, py) + c]
                },
        decreases rows - y,
    {
        let mut x: usize = 0;
        while x < cols
            invariant
                cols <= WIDTH / RES,
                rows <= HEIGHT / RES,
                cols <= board.spec_width(),
                rows <= board.spec_height(),
                0 <= y < rows,
                0 <= x <= cols,
                framedata@.len() == before.len(),
                before.len() == WIDTH * HEIGHT * 4,
                forall|px: int, py: int, c: int|
                    #![trigger framedata@[pixel_offset(px, py) + c]]
                    frame_byte(px, py, c) ==> framedata@[pixel_offset(px, py) + c] == if shows_cell(
                        *board,
                        px,
                        py,
                    ) && drawn_before(px / (RES as int), py / (RES as int), x as int, y as int) {
                        channel(palette.spec_color(board.cell(px / (RES as int), py / (RES as int))), c)
                    } else {
                        before[pixel_offset(px, py) + c]
                    },
            decreases cols - x,
        {
            let color = palette.color(board.get(x, y));
            let ghost prev = framedata@;
            draw_rect(x as u32 * RES, y as u32 * RES, RES - 1, RES - 1, color, framedata);
            assert forall|px: int, py: int, c: int|
                #![trigger framedata@[pixel_offset(px, py) + c]]
                frame_byte(px, py, c) implies framedata@[pixel_offset(px, py) + c] == if shows_cell(
                    *board,
                    px,
                    py,
                ) && drawn_before(px / (RES as int), py / (RES as int), x + 1, y as int) {
                    channel(palette.spec_color(board.cell(px / (RES as int), py / (RES as int))), c)
                } else {
                    before[pixel_offset(px, py) + c]
                } by {
                lemma_cell_square(px, x as int);
                lemma_cell_square(py, y as int);
            }
            x = x + 1;
        }
        y = y + 1;
    }
    assert forall|px: int, py: int, c: int|
        #![trigger framedata@[pixel_offset(px, py) + c]]
        frame_byte(px, py, c) implies framedata@[pixel_offset(px, py) + c] == if shows_cell(
            *board,
            px,
            py,
        ) {
            channel(palette.spec_color(board.cell(px / (RES as int), py / (RES as int))), c)
        } else {
            before[pixel_offset(px, py) + c]
        } by {
        if shows_cell(*board, px, py) {
            assert(drawn_before(px / (RES as int), py / (RES as int), 0, y as int));
        }
    }
}

/// Maps a pointer coordinate, in pixels, to the index of the cell under it.
pub open spec fn cell_coord(p: int) -> int {
    if p > RES {
        (p - RES) / (RES as int) + 1
    } else {
        0
    }
}

/// The cell (column, row) under the pointer at pixel (x, y). Each coordinate
/// is read as a `usize`, as Rust's `as` converts it.
pub fn grid_from_mouse(x: i32, y: i32) -> (r: (usize, usize))
    ensures
        r.0 == cell_coord((x as usize) as int),
        r.1 == cell_coord((y as usize) as int),
{
    let x = x as usize;
    let y = y as usize;
    let res = RES as usize;
    (if x > res {
        (x - res) / res + 1
    } else {
        0
    }, if y > res {
        (y - res) / res + 1
    } else {
        0
    })
}

} // verus!
