//! The tiles of a rectangle, written into a buffer of the size of the
//! rectangle, each at its place: what a consumer of the tiles ends up with,
//! and that it is the pixels that the tiles were cut from, however the
//! tiles were written on the wire.

use crate::error::Error;
use crate::protocol::PixelFormat;
use crate::rect::Rect;
use crate::zrle::laws::{cropped, lemma_grid_index, lemma_tiles_lie_on_grid};
use crate::zrle::{
    decoded_tiles, grid_index, in_range, pixel_size, tile_columns, tile_grid, tile_rect,
    tile_rows,
};
use vstd::arithmetic::div_mod::{lemma_fundamental_div_mod, lemma_fundamental_div_mod_converse};
use vstd::prelude::*;

verus! {

/// The buffer of the rectangle, row by row with `size` bytes to the pixel,
/// once every tile is written to its place: the byte `at` belongs to the
/// pixel in column `x` and row `y` of the rectangle, which is the pixel in
/// column `x % 64` and row `y % 64` of the tile in column `x / 64` and row
/// `y / 64` of the grid.
pub open spec fn assembled(rect: Rect, size: nat, tiles: Seq<(Rect, Seq<u8>)>) -> Seq<u8> {
    Seq::new(
        (rect.width * rect.height * size) as nat,
        |at: int|
            {
                let x = (at / size as int) % (rect.width as int);
                let y = (at / size as int) / (rect.width as int);
                let tile = tiles[grid_index(rect, x / 64, y / 64)];
                tile.1[((y % 64) * tile.0.width + x % 64) * size + at % (size as int)]
            },
    )
}

/// Whether the tiles are cut from the raw pixels `raw` of the rectangle:
/// each holds the pixels that `raw` has in its place.
pub open spec fn cut_from(rect: Rect, size: nat, raw: Seq<u8>, tiles: Seq<(Rect, Seq<u8>)>) -> bool {
    forall|i: int|
        0 <= i < tiles.len() ==> (#[trigger] tiles[i]).1 == cropped(raw, rect, tiles[i].0, size)
}

/// Where a byte of the buffer of a rectangle lies: in which tile of the
/// grid, and at which place among the bytes of that tile; and that the tile,
/// cut from raw pixels, holds the byte of those pixels there.
proof fn lemma_byte_in_tile(rect: Rect, size: nat, raw: Seq<u8>, at: int)
    requires
        in_range(rect),
        size > 0,
        0 <= at < rect.width * rect.height * size,
        raw.len() == rect.width * rect.height * size,
    ensures
        ({
            let x = (at / size as int) % (rect.width as int);
            let y = (at / size as int) / (rect.width as int);
            let tile = tile_rect(rect, (x / 64) as nat, (y / 64) as nat);
            let j = ((y % 64) * tile.width + x % 64) * size + at % (size as int);
            &&& 0 <= x / 64 < tile_columns(rect)
            &&& 0 <= y / 64 < tile_rows(rect)
            &&& 0 <= j < tile.width * tile.height * size
            &&& cropped(raw, rect, tile, size)[j] == raw[at]
        }),
{
    let w = rect.width as int;
    let h = rect.height as int;
    let s = size as int;
    assert(w > 0 && h > 0) by (nonlinear_arith)
        requires
            0 <= at < w * h * s,
            w >= 0,
            h >= 0,
            s > 0,
    ;
    let px = at / s;
    let b = at % s;
    lemma_fundamental_div_mod(at, s);
    assert(0 <= px < w * h) by (nonlinear_arith)
        requires
            at == s * px + b,
            0 <= b < s,
            0 <= at < w * h * s,
    ;
    let x = px % w;
    let y = px / w;
    lemma_fundamental_div_mod(px, w);
    assert(0 <= y < h) by (nonlinear_arith)
        requires
            px == w * y + x,
            0 <= x < w,
            0 <= px < w * h,
    ;
    let column = x / 64;
    let row = y / 64;
    let xi = x % 64;
    let yi = y % 64;
    let tile = tile_rect(rect, column as nat, row as nat);
    let tw = tile.width as int;
    let th = tile.height as int;
    assert(0 <= xi < tw && 0 <= yi < th);
    assert(tile.left - rect.left == 64 * column);
    assert(tile.top - rect.top == 64 * row);
    let inner = xi * s + b;
    let stride = tw * s;
    assert(0 <= inner < stride) by (nonlinear_arith)
        requires
            inner == xi * s + b,
            stride == tw * s,
            0 <= xi < tw,
            0 <= b < s,
    ;
    let j = (yi * tw + xi) * s + b;
    assert(j == stride * yi + inner) by (nonlinear_arith)
        requires
            j == (yi * tw + xi) * s + b,
            stride == tw * s,
            inner == xi * s + b,
    ;
    assert(0 <= j < tw * th * s) by (nonlinear_arith)
        requires
            j == stride * yi + inner,
            stride == tw * s,
            0 <= inner < stride,
            0 <= yi < th,
    ;
    lemma_fundamental_div_mod_converse(j, stride, yi, inner);
    assert(((64 * row + yi) * w + 64 * column) * s + inner == at) by (nonlinear_arith)
        requires
            inner == xi * s + b,
            x == 64 * column + xi,
            y == 64 * row + yi,
            px == w * y + x,
            at == s * px + b,
    ;
}

/// Tiles that are cut from the raw pixels of a rectangle, one for each
/// place of the grid, give those pixels back when each is written to its
/// place.
pub proof fn lemma_cut_tiles_assemble(
    rect: Rect,
    size: nat,
    raw: Seq<u8>,
    tiles: Seq<(Rect, Seq<u8>)>,
)
    requires
        in_range(rect),
        size > 0,
        raw.len() == rect.width * rect.height * size,
        tiles.len() == tile_grid(rect).len(),
        forall|i: int| 0 <= i < tiles.len() ==> (#[trigger] tiles[i]).0 == tile_grid(rect)[i],
        cut_from(rect, size, raw, tiles),
    ensures
        assembled(rect, size, tiles) == raw,
{
    let whole = assembled(rect, size, tiles);
    assert forall|at: int| 0 <= at < raw.len() implies whole[at] == raw[at] by {
        lemma_byte_in_tile(rect, size, raw, at);
        let x = (at / size as int) % (rect.width as int);
        let y = (at / size as int) / (rect.width as int);
        lemma_grid_index(rect, x / 64, y / 64);
        let i = grid_index(rect, x / 64, y / 64);
        assert(tiles[i].0 == tile_grid(rect)[i]);
        assert(tiles[i].1 == cropped(raw, rect, tiles[i].0, size));
    }
    assert(whole =~= raw);
}

/// A compressed rectangle that stands for the raw pixels `raw` gives them
/// back: whatever bytes `data` its payload decompresses to, and in
/// whichever way each of its tiles is written, if they decode to the tiles
/// that are cut from `raw`, then writing each decoded tile to its place in
/// a buffer of the rectangle yields exactly `raw`, the pixels of the same
/// rectangle sent raw.
pub proof fn lemma_rectangle_gives_the_raw_pixels(
    format: PixelFormat,
    rect: Rect,
    data: Seq<u8>,
    raw: Seq<u8>,
)
    requires
        pixel_size(format) > 0,
        raw.len() == rect.width * rect.height * pixel_size(format),
        decoded_tiles(format, rect, data) matches Ok(tiles) && cut_from(
            rect,
            pixel_size(format),
            raw,
            tiles,
        ),
    ensures
        assembled(rect, pixel_size(format), decoded_tiles(format, rect, data)->Ok_0) == raw,
{
    lemma_tiles_lie_on_grid(format, rect, data);
    lemma_cut_tiles_assemble(
        rect,
        pixel_size(format),
        raw,
        decoded_tiles(format, rect, data)->Ok_0,
    );
}

} // verus!
