//! The glyph grid of a frame: every pixel of an RGBA8 buffer becomes two
//! equal neighbouring cells, so that the picture keeps its proportions in a
//! terminal whose cells are taller than wide.

use vstd::prelude::*;
use crate::glyph::{brightness, channel_sum, glyph_for_sum, glyph_of_sum};

verus! {

/// Pixels in one row of a frame.
pub const WIDTH: usize = 100;

/// Rows of a frame.
pub const HEIGHT: usize = 80;

/// Bytes that one pixel takes in the buffer: red, green, blue, alpha.
pub const BYTES_PER_PIXEL: usize = 4;

/// Pixels of a frame.
pub const PIXEL_COUNT: usize = WIDTH * HEIGHT;

/// Bytes of a frame's pixel buffer.
pub const BUFFER_LEN: usize = PIXEL_COUNT * BYTES_PER_PIXEL;

/// Cells in one row of the glyph grid.
pub const GRID_WIDTH: usize = 2 * WIDTH;

/// Cells of a frame's glyph grid.
pub const GRID_LEN: usize = GRID_WIDTH * HEIGHT;

/// The colour of pixel `i` of an RGBA8 buffer; the alpha byte is not read.
pub open spec fn pixel_color(pixels: Seq<u8>, i: int) -> (u8, u8, u8) {
    (pixels[4 * i], pixels[4 * i + 1], pixels[4 * i + 2])
}

/// The cell of a colour: the glyph of its brightness, and the colour itself.
pub open spec fn cell_of(color: (u8, u8, u8)) -> (Seq<char>, (u8, u8, u8)) {
    (seq![glyph_of_sum(brightness(color))], color)
}

/// The glyph grid of the first `n` pixels of a buffer: cells `2 * i` and
/// `2 * i + 1` both stand for pixel `i`.
pub open spec fn glyph_cells(pixels: Seq<u8>, n: nat) -> Seq<(Seq<char>, (u8, u8, u8))> {
    Seq::new(2 * n, |k: int| cell_of(pixel_color(pixels, k / 2)))
}

/// Allocates the pixel buffer of a frame, every byte zero.
pub fn new_pixel_buffer() -> (pixels: Vec<u8>)
    ensures
        pixels@.len() == WIDTH * HEIGHT * 4,
        forall|i: int| 0 <= i < pixels@.len() ==> pixels@[i] == 0,
{
    let mut pixels: Vec<u8> = Vec::with_capacity(BUFFER_LEN);
    let mut i: usize = 0;
    while i < BUFFER_LEN
        invariant
            i <= BUFFER_LEN,
            pixels@.len() == i,
            forall|k: int| 0 <= k < i ==> pixels@[k] == 0,
        decreases BUFFER_LEN - i,
    {
        pixels.push(0);
        i += 1;
    }
    pixels
}

/// Replaces the content of `grid` by the glyph grid of the frame in
/// `pixels`.
pub fn fill_grid(pixels: &[u8], grid: &mut Vec<(String, (u8, u8, u8))>)
    requires
        pixels@.len() == WIDTH * HEIGHT * 4,
    ensures
        final(grid).deep_view() == glyph_cells(pixels@, PIXEL_COUNT as nat),
        final(grid)@.len() == 2 * WIDTH * HEIGHT,
{
    grid.clear();
    let mut i: usize = 0;
    while i < PIXEL_COUNT
        invariant
            i <= PIXEL_COUNT,
            pixels@.len() == BUFFER_LEN,
            grid.deep_view() =~= glyph_cells(pixels@, i as nat),
        decreases PIXEL_COUNT - i,
    {
        let color = (pixels[i * 4], pixels[i * 4 + 1], pixels[i * 4 + 2]);
        let character = glyph_for_sum(channel_sum(color));
        let ghost before = grid.deep_view();
        grid.push((character.clone(), color));
        grid.push((character, color));
        proof {
            assert(color == pixel_color(pixels@, i as int));
            let cell = cell_of(color);
            assert(grid.deep_view() =~= before.push(cell).push(cell));
            assert forall|k: int| 0 <= k < 2 * (i + 1) implies #[trigger] grid.deep_view()[k]
                == glyph_cells(pixels@, (i + 1) as nat)[k] by {
                if k < 2 * i {
                    assert(grid.deep_view()[k] == glyph_cells(pixels@, i as nat)[k]);
                } else {
                    assert(k / 2 == i);
                }
            }
        }
        i += 1;
    }
}

} // verus!
