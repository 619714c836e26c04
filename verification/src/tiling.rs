//! Tiling a canvas with whole copies of an image.

use crate::canvas::{composite, Canvas, CanvasView, Pixel};
use crate::extensions::IteratorExtensions;
use crate::product::{lemma_grid_position, lemma_product_at, lemma_product_complete, product};
use crate::sequence::{span, Sequence, Span};
use vstd::arithmetic::div_mod::{lemma_fundamental_div_mod, lemma_fundamental_div_mod_converse};
use vstd::prelude::*;

verus! {

/// What tiling `base` with `tile` makes of the pixel in column `x` of row `y`.
///
/// As many columns and rows of whole tiles as fit are laid out from the top left corner. A
/// pixel under them shows the pixel of the tile above it, laid over the pixel of `base`; a
/// pixel in the remainder to the right of them or below them stays as it is.
pub open spec fn tiled_pixel(base: CanvasView, tile: CanvasView, x: int, y: int) -> Pixel {
    if x < (base.width / tile.width) * tile.width && y < (base.height / tile.height)
        * tile.height {
        composite(base.pixel(x, y), tile.pixel(x % (tile.width as int), y % (tile.height as int)))
    } else {
        base.pixel(x, y)
    }
}

/// What the pixel in column `x` of row `y` shows when the first `done` tiles are placed, the
/// tiles being counted column by column, `rows` tiles to the column.
spec fn partly_tiled_pixel(
    base: CanvasView,
    tile: CanvasView,
    x: int,
    y: int,
    rows: int,
    done: int,
) -> Pixel {
    let i = x / (tile.width as int);
    let j = y / (tile.height as int);
    if i < base.width / tile.width && j < rows && i * rows + j < done {
        composite(base.pixel(x, y), tile.pixel(x % (tile.width as int), y % (tile.height as int)))
    } else {
        base.pixel(x, y)
    }
}

/// A coordinate `a` lies in the tile `i` of tiles of size `d` exactly where it lies between
/// `i * d` and `i * d + d`; its place within its tile is `a % d`.
proof fn lemma_tile_of(a: int, d: int, i: int)
    requires
        0 <= a,
        0 < d,
        0 <= i,
    ensures
        0 <= a / d,
        a / d == i <==> i * d <= a < i * d + d,
        a % d == a - (a / d) * d,
        a / d == i ==> a % d == a - i * d,
{
    lemma_fundamental_div_mod(a, d);
    assert(d * (a / d) == (a / d) * d) by (nonlinear_arith);
    assert(0 <= a / d) by (nonlinear_arith)
        requires
            0 <= a,
            0 < d,
            a == d * (a / d) + a % d,
            0 <= a % d < d,
    ;
    if i * d <= a < i * d + d {
        lemma_fundamental_div_mod_converse(a, d, i, a - i * d);
    }
}

/// As many tiles of size `d` as fit into `length` end at or before `length`, and a coordinate
/// lies under one of them exactly where it lies before their end.
proof fn lemma_tiles_fit(length: int, d: int, a: int)
    requires
        0 <= length,
        0 < d,
        0 <= a,
    ensures
        0 <= length / d,
        (length / d) * d <= length,
        a / d < length / d <==> a < (length / d) * d,
{
    let count = length / d;
    lemma_fundamental_div_mod(length, d);
    lemma_fundamental_div_mod(a, d);
    assert(d * count == count * d) by (nonlinear_arith);
    assert(0 <= count) by (nonlinear_arith)
        requires
            0 <= length,
            0 < d,
            length == d * count + length % d,
            0 <= length % d < d,
    ;
    assert(a / d < count <==> a < count * d) by (nonlinear_arith)
        requires
            0 < d,
            a == d * (a / d) + a % d,
            0 <= a % d < d,
    ;
}

/// Repeats the image `repeated` across `base` as many times as it fits whole.
///
/// The copies are laid side by side from the top left corner, column by column. A copy that
/// would be cut off at the right or at the bottom edge is not laid: the pixels there stay as
/// they are.
pub fn repeat(base: &mut Canvas, repeated: &Canvas)
    requires
        repeated@.width > 0,
        repeated@.height > 0,
    ensures
        final(base)@.width == old(base)@.width,
        final(base)@.height == old(base)@.height,
        final(base)@.wf(),
        forall|x: int, y: int|
            old(base)@.contains(x, y) ==> #[trigger] final(base)@.pixel(x, y) == tiled_pixel(
                old(base)@,
                repeated@,
                x,
                y,
            ),
{
    let tile_width: u32 = repeated.width();
    let tile_height: u32 = repeated.height();
    // The number of horizontal repetitions of `repeated`.
    let horizontal: u32 = base.width() / tile_width;
    // The number of vertical repetitions of `repeated`.
    let vertical: u32 = base.height() / tile_height;

    let ghost start = base@;
    let ghost tile = repeated@;
    let ghost grid = product(span(0, horizontal as int), span(0, vertical as int));
    let ghost mut done: int = 0;
    let mut positions = Span::new(0, horizontal).mix(Span::new(0, vertical));
    proof {
        lemma_product_complete(span(0, horizontal as int), span(0, vertical as int));
        assert(positions@.forward() =~= grid.subrange(0, grid.len() as int));
    }
    // For each repetition position...
    loop
        invariant_except_break
            positions@.forward() == grid.subrange(done, grid.len() as int),
        invariant
            start == old(base)@,
            tile == repeated@,
            tile_width == tile.width,
            tile_height == tile.height,
            tile.width > 0,
            tile.height > 0,
            start.width <= u32::MAX,
            start.height <= u32::MAX,
            horizontal == start.width / tile.width,
            vertical == start.height / tile.height,
            grid == product(span(0, horizontal as int), span(0, vertical as int)),
            grid.len() == horizontal * vertical,
            0 <= done <= grid.len(),
            base@.width == start.width,
            base@.height == start.height,
            base@.wf(),
            forall|x: int, y: int|
                start.contains(x, y) ==> #[trigger] base@.pixel(x, y) == partly_tiled_pixel(
                    start,
                    tile,
                    x,
                    y,
                    vertical as int,
                    done,
                ),
        ensures
            done == grid.len(),
        decreases grid.len() - done,
    {
        let ghost before = base@;
        match positions.next() {
            Some((i, j)) => {
                proof {
                    assert(grid.subrange(done, grid.len() as int).len() > 0);
                    assert(grid.subrange(done, grid.len() as int).first() == grid[done]);
                    assert(grid.subrange(done, grid.len() as int).drop_first() =~= grid.subrange(
                        done + 1,
                        grid.len() as int,
                    ));
                    lemma_product_at(span(0, horizontal as int), span(0, vertical as int), done);
                    let w = tile.width as int;
                    let h = tile.height as int;
                    lemma_tiles_fit(start.width as int, w, 0);
                    lemma_tiles_fit(start.height as int, h, 0);
                    assert(0 <= i * w && (i + 1) * w <= horizontal * w && (i + 1) * w == i * w + w)
                        by (nonlinear_arith)
                        requires
                            0 <= i < horizontal,
                            0 < w,
                    ;
                    assert(0 <= j * h && (j + 1) * h <= vertical * h && (j + 1) * h == j * h + h)
                        by (nonlinear_arith)
                        requires
                            0 <= j < vertical,
                            0 < h,
                    ;
                    assert(horizontal * w <= start.width);
                    assert(vertical * h <= start.height);
                    assert(i * tile_width == i * w);
                    assert(j * tile_height == j * h);
                }
                let (x, y) = ((i * tile_width) as i64, (j * tile_height) as i64);

                // Overlay the repeated image.
                base.overlay(repeated, x, y);
                proof {
                    assert forall|column: int, row: int|
                        start.contains(column, row) implies #[trigger] base@.pixel(column, row)
                        == partly_tiled_pixel(
                        start,
                        tile,
                        column,
                        row,
                        vertical as int,
                        done + 1,
                    ) by {
                        assert(before.pixel(column, row) == partly_tiled_pixel(
                            start,
                            tile,
                            column,
                            row,
                            vertical as int,
                            done,
                        ));
                        lemma_tile_of(column, tile.width as int, i as int);
                        lemma_tile_of(row, tile.height as int, j as int);
                        let p = column / (tile.width as int);
                        let q = row / (tile.height as int);
                        if p < horizontal && q < vertical {
                            lemma_grid_position(p, q, horizontal as int, vertical as int);
                        }
                    }
                    done = done + 1;
                }
            },
            None => {
                proof {
                    assert(grid.subrange(done, grid.len() as int).len() == grid.len() - done);
                }
                break ;
            },
        }
    }
    proof {
        assert forall|x: int, y: int| start.contains(x, y) implies #[trigger] base@.pixel(x, y)
            == tiled_pixel(start, tile, x, y) by {
            assert(base@.pixel(x, y) == partly_tiled_pixel(
                start,
                tile,
                x,
                y,
                vertical as int,
                done,
            ));
            lemma_tiles_fit(start.width as int, tile.width as int, x);
            lemma_tiles_fit(start.height as int, tile.height as int, y);
            let p = x / (tile.width as int);
            let q = y / (tile.height as int);
            if p < horizontal && q < vertical {
                lemma_grid_position(p, q, horizontal as int, vertical as int);
            }
        }
    }
}

} // verus!
