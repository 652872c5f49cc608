//! The size of what is decoded: every tile comes with the bytes of all of
//! its pixels, however it was written.

use crate::protocol::PixelFormat;
use crate::rect::Rect;
use crate::zrle::laws::lemma_run_length_end;
use crate::zrle::{
    colours_from, concat, cpixel_at, cpixel_size, decode_tile, decoded_tiles, index_bits,
    packed_row, packed_rows_from, palette_rle_from, pixel_size, plain_rle_from, repeat,
    row_bytes, run_length_from, tile_columns, tile_rect, tile_rows, tiles_from,
};
use vstd::prelude::*;

verus! {

/// Whether each of the pixels takes `size` bytes.
pub open spec fn pixels_of_size(pixels: Seq<Seq<u8>>, size: nat) -> bool {
    forall|i: int| 0 <= i < pixels.len() ==> (#[trigger] pixels[i]).len() == size
}

/// A pixel that is read from the wire takes the bytes of a pixel of the
/// framebuffer.
pub proof fn lemma_cpixel_size(format: PixelFormat, data: Seq<u8>, at: int)
    requires
        0 <= at,
        at + cpixel_size(format) <= data.len(),
    ensures
        cpixel_at(format, data, at).len() == pixel_size(format),
{
}

/// Each of the pixels that are read one after the other takes the bytes of
/// a pixel of the framebuffer.
pub proof fn lemma_colours_size(format: PixelFormat, data: Seq<u8>, at: int, count: nat)
    requires
        0 <= at,
        colours_from(format, data, at, count) is Ok,
    ensures
        pixels_of_size(colours_from(format, data, at, count)->Ok_0.0, pixel_size(format)),
    decreases count,
{
    if count > 0 {
        let size = cpixel_size(format) as int;
        lemma_cpixel_size(format, data, at);
        lemma_colours_size(format, data, at + size, (count - 1) as nat);
        let rest = colours_from(format, data, at + size, (count - 1) as nat)->Ok_0.0;
        let all = colours_from(format, data, at, count)->Ok_0.0;
        assert(all == seq![cpixel_at(format, data, at)] + rest);
        assert forall|i: int| 0 <= i < all.len() implies (#[trigger] all[i]).len() == pixel_size(
            format,
        ) by {
            if i > 0 {
                assert(all[i] == rest[i - 1]);
            }
        }
    }
}

/// Pixels of one size, one after the other, take as many bytes as there are
/// pixels, times that size.
pub proof fn lemma_concat_size(pixels: Seq<Seq<u8>>, size: nat)
    requires
        pixels_of_size(pixels, size),
    ensures
        concat(pixels).len() == pixels.len() * size,
    decreases pixels.len(),
{
    if pixels.len() == 0 {
        assert(0 * size == 0) by (nonlinear_arith);
    } else {
        let n = pixels.len() as int;
        assert(pixels.last() == pixels[n - 1]);
        assert forall|i: int| 0 <= i < pixels.drop_last().len() implies (
        #[trigger] pixels.drop_last()[i]).len() == size by {
            assert(pixels.drop_last()[i] == pixels[i]);
        }
        lemma_concat_size(pixels.drop_last(), size);
        assert((n - 1) * size + size == n * size) by (nonlinear_arith);
    }
}

/// A pixel repeated takes its bytes as many times.
pub proof fn lemma_repeat_size(pixel: Seq<u8>, n: nat)
    ensures
        repeat(pixel, n).len() == n * pixel.len(),
    decreases n,
{
    let size = pixel.len() as int;
    if n == 0 {
        assert(0 * size == 0) by (nonlinear_arith);
    } else {
        lemma_repeat_size(pixel, (n - 1) as nat);
        assert((n - 1) * size + size == n * size) by (nonlinear_arith);
    }
}

/// Runs of pixels that fill `remaining` pixels take the bytes of as many.
pub proof fn lemma_plain_rle_size(format: PixelFormat, data: Seq<u8>, at: int, remaining: nat)
    requires
        0 <= at,
        plain_rle_from(format, data, at, remaining) is Ok,
    ensures
        plain_rle_from(format, data, at, remaining)->Ok_0.0.len() == remaining * pixel_size(
            format,
        ),
    decreases remaining,
{
    let size = pixel_size(format) as int;
    if remaining == 0 {
        assert(0 * size == 0) by (nonlinear_arith);
    } else {
        let start = at + cpixel_size(format);
        let (length, next) = run_length_from(data, start)->Ok_0;
        lemma_run_length_end(data, start);
        lemma_cpixel_size(format, data, at);
        lemma_repeat_size(cpixel_at(format, data, at), length);
        lemma_plain_rle_size(format, data, next, (remaining - length) as nat);
        assert(length * size + (remaining - length) * size == remaining * size)
            by (nonlinear_arith);
    }
}

/// Runs of pixels of a palette that fill `remaining` pixels take the bytes
/// of as many.
pub proof fn lemma_palette_rle_size(
    palette: Seq<Seq<u8>>,
    data: Seq<u8>,
    at: int,
    remaining: nat,
    size: nat,
)
    requires
        pixels_of_size(palette, size),
        palette_rle_from(palette, data, at, remaining) is Ok,
    ensures
        palette_rle_from(palette, data, at, remaining)->Ok_0.0.len() == remaining * size,
    decreases remaining,
{
    if remaining == 0 {
        assert(0 * size == 0) by (nonlinear_arith);
    } else {
        let (length, next) = if data[at] >= 128 {
            run_length_from(data, at + 1)->Ok_0
        } else {
            (1nat, at + 1)
        };
        let pixel = palette[(data[at] % 128) as int];
        lemma_repeat_size(pixel, length);
        lemma_palette_rle_size(palette, data, next, (remaining - length) as nat, size);
        assert(length * size + (remaining - length) * size == remaining * size)
            by (nonlinear_arith);
    }
}

/// The first pixels of a packed row take the bytes of as many.
pub proof fn lemma_packed_row_size(
    palette: Seq<Seq<u8>>,
    data: Seq<u8>,
    at: int,
    count: nat,
    bits: nat,
    size: nat,
)
    requires
        pixels_of_size(palette, size),
        packed_row(palette, data, at, count, bits) is Ok,
    ensures
        packed_row(palette, data, at, count, bits)->Ok_0.len() == count * size,
    decreases count,
{
    if count == 0 {
        assert(0 * size == 0) by (nonlinear_arith);
    } else {
        lemma_packed_row_size(palette, data, at, (count - 1) as nat, bits, size);
        assert((count - 1) * size + size == count * size) by (nonlinear_arith);
    }
}

/// Packed rows take the bytes of all their pixels.
pub proof fn lemma_packed_rows_size(
    palette: Seq<Seq<u8>>,
    data: Seq<u8>,
    at: int,
    width: nat,
    rows: nat,
    bits: nat,
    size: nat,
)
    requires
        pixels_of_size(palette, size),
        packed_rows_from(palette, data, at, width, rows, bits) is Ok,
    ensures
        packed_rows_from(palette, data, at, width, rows, bits)->Ok_0.0.len() == width * rows
            * size,
    decreases rows,
{
    if rows == 0 {
        assert(width * 0 * size == 0) by (nonlinear_arith);
    } else {
        lemma_packed_row_size(palette, data, at, width, bits, size);
        lemma_packed_rows_size(
            palette,
            data,
            at + row_bytes(width, bits),
            width,
            (rows - 1) as nat,
            bits,
            size,
        );
        assert(width * size + width * (rows - 1) * size == width * rows * size)
            by (nonlinear_arith);
    }
}

/// A tile that is decoded has the bytes of all of its pixels, in whichever
/// of the five ways it was written.
pub proof fn lemma_tile_size(format: PixelFormat, data: Seq<u8>, at: int, width: nat, height: nat)
    requires
        decode_tile(format, data, at, width, height) is Ok,
    ensures
        decode_tile(format, data, at, width, height)->Ok_0.0.len() == width * height * pixel_size(
            format,
        ),
{
    let size = pixel_size(format);
    let rle = data[at] >= 128;
    let palette_size = (data[at] % 128) as nat;
    let (palette, body) = colours_from(format, data, at + 1, palette_size)->Ok_0;
    lemma_colours_size(format, data, at + 1, palette_size);
    crate::zrle::laws::lemma_colours_end(format, data, at + 1, palette_size);
    assert(body >= 0) by (nonlinear_arith)
        requires
            body == at + 1 + palette_size * cpixel_size(format),
            at >= 0,
    ;
    if !rle && palette_size == 0 {
        let pixels = colours_from(format, data, body, width * height)->Ok_0.0;
        lemma_colours_size(format, data, body, width * height);
        crate::zrle::laws::lemma_colours_end(format, data, body, width * height);
        lemma_concat_size(pixels, size);
    } else if !rle && palette_size == 1 {
        lemma_repeat_size(palette[0], width * height);
    } else if !rle && palette_size <= 16 {
        lemma_packed_rows_size(
            palette,
            data,
            body,
            width,
            height,
            index_bits(palette_size),
            size,
        );
    } else if palette_size == 0 {
        lemma_plain_rle_size(format, data, body, width * height);
    } else {
        lemma_palette_rle_size(palette, data, body, width * height, size);
    }
}

/// Whether the tile has the bytes of all the pixels of its rectangle.
pub open spec fn is_full(format: PixelFormat, tile: (Rect, Seq<u8>)) -> bool {
    tile.1.len() == tile.0.width * tile.0.height * pixel_size(format)
}

/// Each of the tiles from a place of the grid on has the bytes of all of
/// its pixels.
pub proof fn lemma_tiles_from_size(
    format: PixelFormat,
    rect: Rect,
    data: Seq<u8>,
    at: int,
    column: nat,
    row: nat,
)
    requires
        tiles_from(format, rect, data, at, column, row) is Ok,
    ensures
        forall|i: int|
            0 <= i < tiles_from(format, rect, data, at, column, row)->Ok_0.0.len() ==> is_full(
                format,
                #[trigger] tiles_from(format, rect, data, at, column, row)->Ok_0.0[i],
            ),
    decreases tile_rows(rect) - row, tile_columns(rect) - column,
{
    if row >= tile_rows(rect) {
    } else if column >= tile_columns(rect) {
        lemma_tiles_from_size(format, rect, data, at, 0, row + 1);
    } else {
        let tile = tile_rect(rect, column, row);
        let decoded = decode_tile(format, data, at, tile.width as nat, tile.height as nat);
        let next = decoded->Ok_0.1;
        lemma_tile_size(format, data, at, tile.width as nat, tile.height as nat);
        lemma_tiles_from_size(format, rect, data, next, column + 1, row);
        let rest = tiles_from(format, rect, data, next, column + 1, row)->Ok_0.0;
        let tiles = tiles_from(format, rect, data, at, column, row)->Ok_0.0;
        assert(tiles == seq![(tile, decoded->Ok_0.0)] + rest);
        assert forall|i: int| 0 <= i < tiles.len() implies is_full(format, #[trigger] tiles[i]) by {
            if i > 0 {
                assert(tiles[i] == rest[i - 1]);
            }
        }
    }
}

/// Every tile of a decoded rectangle comes with the bytes of all of its
/// pixels: its width times its height times the bytes of a pixel of the
/// framebuffer.
pub proof fn lemma_tiles_are_full(format: PixelFormat, rect: Rect, data: Seq<u8>)
    requires
        decoded_tiles(format, rect, data) is Ok,
    ensures
        forall|i: int|
            0 <= i < decoded_tiles(format, rect, data)->Ok_0.len() ==> is_full(
                format,
                #[trigger] decoded_tiles(format, rect, data)->Ok_0[i],
            ),
{
    lemma_tiles_from_size(format, rect, data, 0, 0, 0);
}

} // verus!
