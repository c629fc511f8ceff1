use vstd::prelude::*;

use vstd::arithmetic::div_mod::lemma_div_pos_is_pos;
use vstd::arithmetic::div_mod::lemma_fundamental_div_mod;
use vstd::arithmetic::div_mod::lemma_fundamental_div_mod_converse;
use vstd::arithmetic::div_mod::lemma_mod_division_less_than_divisor;
use vstd::arithmetic::div_mod::lemma_multiply_divide_lt;
use vstd::arithmetic::mul::lemma_mul_inequality;

use crate::tiles::count_ones;
use crate::tiles::lemma_count_ones_take_lt;
use crate::tiles::lemma_count_ones_take_step;
use crate::tiles::mask_ok;

verus! {

/// Column of the cell at row-major `index` in a grid `width` cells wide.
pub open spec fn spec_x(index: int, width: int) -> int
    recommends
        0 < width,
{
    index % width
}

/// Image-space row of the cell at row-major `index`: the tile stream is
/// row-major with row 0 on top, but the raster's vertical axis runs
/// bottom-up, so the row is flipped.
pub open spec fn spec_y(index: int, width: int, height: int) -> int
    recommends
        0 < width,
{
    height - 1 - index / width
}

/// Row-major position of cell `index` inside the bottom-up pixel grid.
pub open spec fn raster_pos(index: int, width: int, height: int) -> int
    recommends
        0 < width,
{
    spec_y(index, width, height) * width + spec_x(index, width)
}

/// Coordinate mapping loses nothing: the row-major index is recovered
/// from the image coordinates as `(height - 1 - y) * width + x`.
pub proof fn lemma_position_round_trip(index: int, width: int, height: int)
    requires
        0 < width,
        0 <= index < width * height,
    ensures
        0 <= spec_x(index, width) < width,
        0 <= spec_y(index, width, height) < height,
        (height - 1 - spec_y(index, width, height)) * width + spec_x(index, width) == index,
{
    lemma_fundamental_div_mod(index, width);
    lemma_mod_division_less_than_divisor(index, width);
    lemma_multiply_divide_lt(index, width, height);
    lemma_div_pos_is_pos(index, width);
    assert(width * (index / width) == (index / width) * width) by (nonlinear_arith);
}

/// A grid with at least one cell has a positive width and height.
proof fn lemma_dims_positive(w: int, h: int)
    requires
        w >= 0,
        h >= 0,
        w * h > 0,
    ensures
        w > 0,
        h > 0,
{
    if w == 0 {
        assert(w * h == 0) by (nonlinear_arith)
            requires
                w == 0,
        ;
    }
    if h == 0 {
        assert(w * h == 0) by (nonlinear_arith)
            requires
                h == 0,
        ;
    }
}

/// The coordinate mapping is an involution on the cell range: mapping
/// the mapped position again gives the original index back, so distinct
/// cells land on distinct pixels.
pub proof fn lemma_raster_pos_involution(index: int, width: int, height: int)
    requires
        0 < width,
        0 < height,
        0 <= index < width * height,
    ensures
        0 <= raster_pos(index, width, height) < width * height,
        raster_pos(raster_pos(index, width, height), width, height) == index,
{
    let q = index / width;
    let x = index % width;
    let y = height - 1 - q;
    lemma_fundamental_div_mod(index, width);
    lemma_mod_division_less_than_divisor(index, width);
    lemma_multiply_divide_lt(index, width, height);
    lemma_div_pos_is_pos(index, width);
    let p = raster_pos(index, width, height);
    assert(p == y * width + x);
    lemma_mul_inequality(y, height - 1, width);
    assert((height - 1) * width + x < width * height) by (nonlinear_arith)
        requires
            0 <= x < width,
            0 < height,
    ;
    assert(y * width >= 0) by (nonlinear_arith)
        requires
            y >= 0,
            width > 0,
    ;
    lemma_fundamental_div_mod_converse(p, width, y, x);
    assert(p / width == y && p % width == x);
    assert(raster_pos(p, width, height) == (height - 1 - y) * width + x);
    assert((height - 1 - y) * width == q * width);
    assert(q * width + x == index) by {
        lemma_fundamental_div_mod(index, width);
        assert(width * q == q * width) by (nonlinear_arith);
    }
}

/// Maps a row-major cell index to image coordinates: the column is
/// kept, the row is flipped top-to-bottom.
pub fn get_position(index: &usize, width: &u32, height: &u32) -> (r: (u32, u32))
    requires
        *index <= u32::MAX,
        (*index as int) < (*width as int) * (*height as int),
    ensures
        r.0 == spec_x(*index as int, *width as int),
        r.1 == spec_y(*index as int, *width as int, *height as int),
{
    proof {
        if *width == 0 {
            assert((*width as int) * (*height as int) == 0);
        }
        lemma_multiply_divide_lt(*index as int, *width as int, *height as int);
        lemma_div_pos_is_pos(*index as int, *width as int);
        lemma_mod_division_less_than_divisor(*index as int, *width as int);
    }
    let i: u32 = *index as u32;
    let x: u32 = i % *width;
    let y: u32 = *height - 1 - i / *width;
    (x, y)
}

/// The value cell `index` contributes to the pixel grid: the intensity
/// of its stored point where it is enabled, black where it is not.
pub open spec fn cell_pixel(mask: Seq<u8>, intensities: Seq<u8>, index: int) -> u8 {
    if mask[index] == 1 {
        intensities[count_ones(mask.take(index))]
    } else {
        0u8
    }
}

/// Rasterizes a decoded grid into one grayscale byte per cell.
///
/// Cell `index` of the row-major stream lands at
/// `raster_pos(index, width, height)` of the returned row-major pixel
/// grid. An enabled cell takes the intensity of its stored point, the
/// intensities being given in point (stream) order; a disabled cell
/// stays black (0).
#[verifier::loop_isolation(false)]
pub fn rasterize(width: u32, height: u32, enabled: &Vec<u8>, intensities: &Vec<u8>) -> (grid: Vec<
    u8,
>)
    requires
        enabled@.len() == width as int * height as int,
        mask_ok(enabled@),
        intensities@.len() == count_ones(enabled@),
    ensures
        grid@.len() == enabled@.len(),
        forall|index: int|
            0 <= index < enabled@.len() ==> #[trigger] grid@[raster_pos(
                index,
                width as int,
                height as int,
            )] == cell_pixel(enabled@, intensities@, index),
{
    let total: usize = enabled.len();
    let w: usize = width as usize;
    let h: usize = height as usize;
    let mut grid: Vec<u8> = vec![0u8; total];
    let ilen: usize = intensities.len();
    let mut offset: usize = 0;
    let mut i: usize = 0;
    proof {
        assert(intensities@.len() == ilen);
    }
    while i < total
        invariant
            i <= total,
            offset == count_ones(enabled@.take(i as int)),
            0 <= offset <= intensities@.len(),
            grid@.len() == total,
            forall|p: int|
                0 <= p < total ==> #[trigger] grid@[p] == (if 0 <= raster_pos(p, w as int, h as int)
                    < i && raster_pos(p, w as int, h as int) < total {
                    cell_pixel(enabled@, intensities@, raster_pos(p, w as int, h as int))
                } else {
                    0u8
                }),
        decreases total - i,
    {
        proof {
            lemma_dims_positive(w as int, h as int);
            lemma_raster_pos_involution(i as int, w as int, h as int);
            lemma_count_ones_take_step(enabled@, i as int);
        }
        if enabled[i] == 1 {
            proof {
                lemma_count_ones_take_lt(enabled@, i as int);
            }
            let row: usize = i / w;
            let x: usize = i % w;
            proof {
                lemma_multiply_divide_lt(i as int, w as int, h as int);
                lemma_div_pos_is_pos(i as int, w as int);
                lemma_mod_division_less_than_divisor(i as int, w as int);
            }
            let y: usize = h - 1 - row;
            proof {
                assert(y as int == spec_y(i as int, w as int, h as int));
                assert(x as int == spec_x(i as int, w as int));
                assert((y as int) * (w as int) == spec_y(i as int, w as int, h as int) * (
                w as int));
                assert((y as int) * (w as int) + (x as int) == raster_pos(
                    i as int,
                    w as int,
                    h as int,
                ));
                assert((y as int) * (w as int) + (x as int) < total as int);
            }
            let pos: usize = y * w + x;
            grid[pos] = intensities[offset];
            offset = offset + 1;
            proof {
                assert forall|p: int| 0 <= p < total implies #[trigger] grid@[p] == (if 0
                    <= raster_pos(p, w as int, h as int) < i + 1 && raster_pos(p, w as int, h as int)
                    < total {
                    cell_pixel(enabled@, intensities@, raster_pos(p, w as int, h as int))
                } else {
                    0u8
                }) by {
                    lemma_raster_pos_involution(p, w as int, h as int);
                }
            }
        } else {
            proof {
                assert forall|p: int| 0 <= p < total implies #[trigger] grid@[p] == (if 0
                    <= raster_pos(p, w as int, h as int) < i + 1 && raster_pos(p, w as int, h as int)
                    < total {
                    cell_pixel(enabled@, intensities@, raster_pos(p, w as int, h as int))
                } else {
                    0u8
                }) by {
                    lemma_raster_pos_involution(p, w as int, h as int);
                }
            }
        }
        i = i + 1;
    }
    proof {
        if total > 0 {
            lemma_dims_positive(w as int, h as int);
        }
        assert forall|index: int| 0 <= index < enabled@.len() implies #[trigger] grid@[raster_pos(
            index,
            width as int,
            height as int,
        )] == cell_pixel(enabled@, intensities@, index) by {
            lemma_raster_pos_involution(index, w as int, h as int);
        }
    }
    grid
}

} // verus!
