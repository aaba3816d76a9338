//! The line structure of rendered text: a grid whose length is a whole
//! number of rows renders as that many lines, each closed by one line break.

use vstd::prelude::*;
use vstd::arithmetic::div_mod::{
    lemma_fundamental_div_mod,
    lemma_fundamental_div_mod_converse_div,
    lemma_mod_multiples_vanish,
    lemma_small_mod,
};
use crate::grid::{cell_of, glyph_cells, pixel_color, GRID_LEN, GRID_WIDTH, HEIGHT, PIXEL_COUNT};
use crate::render::{color_prefix, color_reset, colorized, decimal, rendered};

verus! {

/// The cells of one row, colorized and joined, without a line break.
pub open spec fn rendered_row(cells: Seq<(Seq<char>, (u8, u8, u8))>) -> Seq<char>
    decreases cells.len(),
{
    if cells.len() == 0 {
        Seq::empty()
    } else {
        rendered_row(cells.drop_last()) + colorized(cells.last().0, cells.last().1)
    }
}

/// The first `lines` rows of `width` cells each, every row followed by one
/// line break.
pub open spec fn rendered_lines(
    cells: Seq<(Seq<char>, (u8, u8, u8))>,
    width: nat,
    lines: nat,
) -> Seq<char>
    decreases lines,
{
    if lines == 0 {
        Seq::empty()
    } else {
        rendered_lines(cells, width, (lines - 1) as nat) + rendered_row(
            cells.subrange(((lines - 1) * width) as int, (lines * width) as int),
        ) + seq!['\n']
    }
}

/// How many line breaks a text holds.
pub open spec fn newline_count(text: Seq<char>) -> nat
    decreases text.len(),
{
    if text.len() == 0 {
        0
    } else {
        newline_count(text.drop_last()) + if text.last() == '\n' {
            1nat
        } else {
            0nat
        }
    }
}

/// True when a text holds no line break.
pub open spec fn no_newline(text: Seq<char>) -> bool {
    forall|i: int| 0 <= i < text.len() ==> text[i] != '\n'
}

proof fn lemma_partial_row(cells: Seq<(Seq<char>, (u8, u8, u8))>, width: nat, row: nat, m: nat)
    requires
        width > 0,
        m < width,
        row * width + m <= cells.len(),
    ensures
        rendered(cells.take((row * width + m) as int), width) == rendered(
            cells.take((row * width) as int),
            width,
        ) + rendered_row(cells.subrange((row * width) as int, (row * width + m) as int)),
    decreases m,
{
    let start = (row * width) as int;
    if m == 0 {
        assert(cells.subrange(start, start) =~= Seq::empty());
        assert(rendered(cells.take(start), width) + Seq::<char>::empty() =~= rendered(
            cells.take(start),
            width,
        ));
    } else {
        let n = start + m;
        let shown = cells.take(n);
        let part = cells.subrange(start, n);
        lemma_partial_row(cells, width, row, (m - 1) as nat);
        assert(shown.drop_last() =~= cells.take(n - 1));
        assert(part.drop_last() =~= cells.subrange(start, n - 1));
        assert(shown.last() == part.last());
        assert(n % (width as int) != 0) by {
            assert(start == width * row) by (nonlinear_arith)
                requires
                    start == row * width,
            ;
            lemma_mod_multiples_vanish(row as int, m as int, width as int);
            lemma_small_mod(m, width);
        }
        assert(rendered(shown, width) =~= rendered(cells.take(start), width) + rendered_row(part));
    }
}

proof fn lemma_full_row(cells: Seq<(Seq<char>, (u8, u8, u8))>, width: nat, row: nat)
    requires
        width > 0,
        (row + 1) * width <= cells.len(),
    ensures
        rendered(cells.take(((row + 1) * width) as int), width) == rendered(
            cells.take((row * width) as int),
            width,
        ) + rendered_row(cells.subrange((row * width) as int, ((row + 1) * width) as int)) + seq!['\n'],
{
    let start = (row * width) as int;
    let n = start + width;
    assert((row + 1) * width == n) by (nonlinear_arith)
        requires
            start == row * width,
            n == start + width,
    ;
    let shown = cells.take(n);
    let part = cells.subrange(start, n);
    lemma_partial_row(cells, width, row, (width - 1) as nat);
    assert(shown.drop_last() =~= cells.take(n - 1));
    assert(part.drop_last() =~= cells.subrange(start, n - 1));
    assert(shown.last() == part.last());
    assert(n % (width as int) == 0) by {
        assert(n == width * (row + 1) + 0) by (nonlinear_arith)
            requires
                n == (row + 1) * width,
        ;
        lemma_mod_multiples_vanish((row + 1) as int, 0, width as int);
        lemma_small_mod(0, width);
    }
    assert(rendered(shown, width) =~= rendered(cells.take(start), width) + rendered_row(part)
        + seq!['\n']);
}

proof fn lemma_prefix_lines(cells: Seq<(Seq<char>, (u8, u8, u8))>, width: nat, lines: nat)
    requires
        width > 0,
        lines * width <= cells.len(),
    ensures
        rendered(cells.take((lines * width) as int), width) == rendered_lines(cells, width, lines),
    decreases lines,
{
    if lines == 0 {
        assert(lines * width == 0) by (nonlinear_arith)
            requires
                lines == 0,
        ;
        assert(cells.take(0) =~= Seq::empty());
    } else {
        let above = (lines - 1) as nat;
        assert(above * width <= lines * width && (above + 1) * width == lines * width)
            by (nonlinear_arith)
            requires
                above + 1 == lines,
        ;
        lemma_prefix_lines(cells, width, above);
        lemma_full_row(cells, width, above);
    }
}

/// A grid of `lines` rows of `width` cells renders as `lines` lines: each
/// is the `width` colorized cells of its row, and a line break follows each.
pub proof fn lemma_render_lines(cells: Seq<(Seq<char>, (u8, u8, u8))>, width: nat, lines: nat)
    requires
        width > 0,
        cells.len() == lines * width,
    ensures
        rendered(cells, width) == rendered_lines(cells, width, lines),
{
    lemma_prefix_lines(cells, width, lines);
    assert(cells.take((lines * width) as int) =~= cells);
}

/// The line breaks of two joined texts are those of the one and those of the
/// other.
pub proof fn lemma_newline_count_add(a: Seq<char>, b: Seq<char>)
    ensures
        newline_count(a + b) == newline_count(a) + newline_count(b),
    decreases b.len(),
{
    if b.len() == 0 {
        assert(a + b =~= a);
    } else {
        assert((a + b).drop_last() =~= a + b.drop_last());
        lemma_newline_count_add(a, b.drop_last());
    }
}

proof fn lemma_no_newline_count(text: Seq<char>)
    requires
        no_newline(text),
    ensures
        newline_count(text) == 0,
    decreases text.len(),
{
    if text.len() > 0 {
        lemma_no_newline_count(text.drop_last());
    }
}

proof fn lemma_decimal_no_newline(n: nat)
    ensures
        no_newline(decimal(n)),
    decreases n,
{
    if n >= 10 {
        lemma_decimal_no_newline(n / 10);
    }
}

/// Colouring a text adds no line break to it.
pub proof fn lemma_colorized_newlines(text: Seq<char>, color: (u8, u8, u8))
    ensures
        newline_count(colorized(text, color)) == newline_count(text),
{
    let r = decimal(color.0 as nat);
    let g = decimal(color.1 as nat);
    let b = decimal(color.2 as nat);
    let head = color_prefix() + r + seq![';'] + g + seq![';'] + b + seq!['m'];
    lemma_decimal_no_newline(color.0 as nat);
    lemma_decimal_no_newline(color.1 as nat);
    lemma_decimal_no_newline(color.2 as nat);
    assert(no_newline(head));
    assert(no_newline(color_reset()));
    lemma_no_newline_count(head);
    lemma_no_newline_count(color_reset());
    lemma_newline_count_add(head, text);
    lemma_newline_count_add(head + text, color_reset());
}

/// Where no cell's text holds a line break, the rendered grid holds one line
/// break for every full row of `width` cells, and no other.
pub proof fn lemma_render_newlines(cells: Seq<(Seq<char>, (u8, u8, u8))>, width: nat)
    requires
        width > 0,
        forall|i: int| 0 <= i < cells.len() ==> no_newline(#[trigger] cells[i].0),
    ensures
        newline_count(rendered(cells, width)) == cells.len() / width,
    decreases cells.len(),
{
    let n = cells.len() as int;
    let w = width as int;
    if n == 0 {
        assert(0int / w == 0) by {
            lemma_fundamental_div_mod_converse_div(0, w, 0, 0);
        }
    } else {
        let rest = cells.drop_last();
        assert forall|i: int| 0 <= i < rest.len() implies no_newline(#[trigger] rest[i].0) by {
            assert(rest[i] == cells[i]);
        }
        lemma_render_newlines(rest, width);
        let last = colorized(cells.last().0, cells.last().1);
        let tail: Seq<char> = if n % w == 0 {
            seq!['\n']
        } else {
            Seq::empty()
        };
        lemma_colorized_newlines(cells.last().0, cells.last().1);
        lemma_no_newline_count(cells.last().0);
        lemma_newline_count_add(rendered(rest, width), last);
        lemma_newline_count_add(rendered(rest, width) + last, tail);
        assert(newline_count(tail) == if n % w == 0 { 1nat } else { 0nat }) by {
            assert(newline_count(Seq::<char>::empty()) == 0);
            if n % w == 0 {
                assert(tail.drop_last() =~= Seq::<char>::empty());
            }
        }
        let q = n / w;
        let r = n % w;
        lemma_fundamental_div_mod(n, w);
        assert(w * q == q * w) by (nonlinear_arith);
        if r == 0 {
            assert(n - 1 == (q - 1) * w + (w - 1)) by (nonlinear_arith)
                requires
                    n == q * w,
            ;
            lemma_fundamental_div_mod_converse_div(n - 1, w, q - 1, w - 1);
        } else {
            lemma_fundamental_div_mod_converse_div(n - 1, w, q, r - 1);
        }
    }
}

/// The glyph grid of a frame renders as `HEIGHT` lines of `2 * WIDTH` cells
/// each, and its text holds `HEIGHT` line breaks.
pub proof fn lemma_frame_lines(pixels: Seq<u8>)
    ensures
        glyph_cells(pixels, PIXEL_COUNT as nat).len() == GRID_LEN,
        rendered(glyph_cells(pixels, PIXEL_COUNT as nat), GRID_WIDTH as nat) == rendered_lines(
            glyph_cells(pixels, PIXEL_COUNT as nat),
            GRID_WIDTH as nat,
            HEIGHT as nat,
        ),
        newline_count(rendered(glyph_cells(pixels, PIXEL_COUNT as nat), GRID_WIDTH as nat))
            == HEIGHT,
{
    let cells = glyph_cells(pixels, PIXEL_COUNT as nat);
    lemma_render_lines(cells, GRID_WIDTH as nat, HEIGHT as nat);
    assert forall|i: int| 0 <= i < cells.len() implies no_newline(#[trigger] cells[i].0) by {
        let color = pixel_color(pixels, i / 2);
        assert(cells[i] == cell_of(color));
        assert(cells[i].0[0] != '\n');
    }
    lemma_render_newlines(cells, GRID_WIDTH as nat);
}

} // verus!
