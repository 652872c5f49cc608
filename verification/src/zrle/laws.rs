//! What holds of every decoded rectangle: where its tiles lie, and that a
//! tile of plain pixels comes out as it went in.

use crate::error::Error;
use crate::protocol::PixelFormat;
use crate::rect::Rect;
use crate::zrle::{
    colours_from, concat, cpixel_at, cpixel_size, decode_tile, decoded_tiles, decoding_gives,
    grid_index, handing_gives, in_range, index_bits, is_compact, packed_rows_from, pad_first,
    palette_rle_from, payload_bound, pixel_size, plain_rle_from, row_bytes, run_length_from,
    tile_columns, tile_grid, tile_rect, tile_rows, tiles_from, was_handed, MAX_TILE_BYTES,
};
use vstd::arithmetic::div_mod::{
    lemma_fundamental_div_mod, lemma_fundamental_div_mod_converse, lemma_mod_bound,
};
use vstd::prelude::*;

verus! {

/// The place of a tile in the grid gives its column and its row back.
pub proof fn lemma_grid_index(rect: Rect, column: int, row: int)
    requires
        0 <= column < tile_columns(rect),
        0 <= row < tile_rows(rect),
    ensures
        0 <= grid_index(rect, column, row) < tile_columns(rect) * tile_rows(rect),
        grid_index(rect, column, row) % (tile_columns(rect) as int) == column,
        grid_index(rect, column, row) / (tile_columns(rect) as int) == row,
        tile_grid(rect)[grid_index(rect, column, row)] == tile_rect(rect, column as nat, row as nat),
{
    let columns = tile_columns(rect) as int;
    let rows = tile_rows(rect) as int;
    lemma_fundamental_div_mod_converse(grid_index(rect, column, row), columns, row, column);
    assert(row * columns + column < columns * rows) by (nonlinear_arith)
        requires
            0 <= column < columns,
            0 <= row < rows,
    ;
    assert(0 <= row * columns) by (nonlinear_arith)
        requires
            0 <= row,
            0 <= columns,
    ;
}

/// The tiles from a place of the grid on are those of the grid from there on.
proof fn lemma_tiles_from_grid(
    format: PixelFormat,
    rect: Rect,
    data: Seq<u8>,
    at: int,
    column: nat,
    row: nat,
)
    requires
        column <= tile_columns(rect),
        row <= tile_rows(rect),
        row == tile_rows(rect) ==> column == 0,
        tiles_from(format, rect, data, at, column, row) is Ok,
    ensures
        ({
            let tiles = tiles_from(format, rect, data, at, column, row)->Ok_0.0;
            let first = grid_index(rect, column as int, row as int);
            &&& tiles.len() == tile_grid(rect).len() - first
            &&& forall|j: int| 0 <= j < tiles.len() ==> (#[trigger] tiles[j]).0 == tile_grid(
                rect,
            )[first + j]
        }),
    decreases tile_rows(rect) - row, tile_columns(rect) - column,
{
    let columns = tile_columns(rect) as int;
    let rows = tile_rows(rect) as int;
    let first = grid_index(rect, column as int, row as int);
    if row >= tile_rows(rect) {
        assert(rows * columns == columns * rows) by (nonlinear_arith);
    } else if column >= tile_columns(rect) {
        lemma_tiles_from_grid(format, rect, data, at, 0, row + 1);
        assert((row + 1) * columns == row * columns + columns) by (nonlinear_arith);
    } else {
        let tile = tile_rect(rect, column, row);
        let decoded = decode_tile(format, data, at, tile.width as nat, tile.height as nat);
        let next = decoded->Ok_0.1;
        lemma_tiles_from_grid(format, rect, data, next, column + 1, row);
        lemma_grid_index(rect, column as int, row as int);
        let rest = tiles_from(format, rect, data, next, column + 1, row)->Ok_0.0;
        let tiles = tiles_from(format, rect, data, at, column, row)->Ok_0.0;
        assert(tiles == seq![(tile, decoded->Ok_0.0)] + rest);
        assert forall|j: int| 0 <= j < tiles.len() implies (#[trigger] tiles[j]).0 == tile_grid(
            rect,
        )[first + j] by {
            if j > 0 {
                assert(tiles[j] == rest[j - 1]);
            }
        }
    }
}

/// The tiles of a decoded rectangle lie on its grid: there is one tile for
/// each place of the grid, in the order of the grid, whatever the data holds.
pub proof fn lemma_tiles_lie_on_grid(format: PixelFormat, rect: Rect, data: Seq<u8>)
    requires
        decoded_tiles(format, rect, data) is Ok,
    ensures
        decoded_tiles(format, rect, data)->Ok_0.len() == tile_grid(rect).len(),
        forall|i: int|
            0 <= i < tile_grid(rect).len() ==> (#[trigger] decoded_tiles(
                format,
                rect,
                data,
            )->Ok_0[i]).0 == tile_grid(rect)[i],
{
    lemma_tiles_from_grid(format, rect, data, 0, 0, 0);
    assert(grid_index(rect, 0, 0) == 0) by (nonlinear_arith)
        requires
            grid_index(rect, 0, 0) == 0 * tile_columns(rect) + 0,
    ;
}

/// The tiles of the grid cover the rectangle, and no two of them overlap:
/// a pixel lies in the tile at a place of the grid if and only if it lies
/// in the rectangle and the place is the one that its coordinates give.
pub proof fn lemma_grid_partitions(rect: Rect, x: int, y: int, i: int)
    requires
        in_range(rect),
        0 <= i < tile_grid(rect).len(),
    ensures
        tile_grid(rect)[i].contains(x, y) <==> rect.contains(x, y) && i == grid_index(
            rect,
            (x - rect.left) / 64,
            (y - rect.top) / 64,
        ),
{
    let columns = tile_columns(rect) as int;
    let rows = tile_rows(rect) as int;
    assert(columns > 0 && rows > 0) by (nonlinear_arith)
        requires
            0 <= i < columns * rows,
            columns >= 0,
            rows >= 0,
    ;
    let column = i % columns;
    let row = i / columns;
    lemma_fundamental_div_mod(i, columns);
    lemma_mod_bound(i, columns);
    assert(0 <= row < rows) by (nonlinear_arith)
        requires
            i == columns * row + column,
            0 <= column < columns,
            0 <= i < columns * rows,
    ;
    assert(i == grid_index(rect, column, row)) by (nonlinear_arith)
        requires
            i == columns * row + column,
            grid_index(rect, column, row) == row * columns + column,
    ;
    let tile = tile_rect(rect, column as nat, row as nat);
    assert(tile_grid(rect)[i] == tile);
    if tile.contains(x, y) {
        assert(rect.contains(x, y));
        assert((x - rect.left) / 64 == column);
        assert((y - rect.top) / 64 == row);
    }
    if rect.contains(x, y) && i == grid_index(rect, (x - rect.left) / 64, (y - rect.top) / 64) {
        let c = (x - rect.left) / 64;
        let r = (y - rect.top) / 64;
        assert(0 <= c < columns);
        assert(0 <= r < rows);
        lemma_grid_index(rect, c, r);
        assert(column == c && row == r);
        assert(tile.contains(x, y));
    }
}

/// The pixels that are read from data in which they stand as they are (the
/// format leaves no byte out on the wire) are those bytes.
pub proof fn lemma_plain_pixels(format: PixelFormat, data: Seq<u8>, at: int, count: nat)
    requires
        !is_compact(format),
        0 <= at,
        at + count * pixel_size(format) <= data.len(),
    ensures
        colours_from(format, data, at, count) is Ok,
        colours_from(format, data, at, count)->Ok_0.1 == at + count * pixel_size(format),
        concat(colours_from(format, data, at, count)->Ok_0.0) == data.subrange(
            at,
            at + count * pixel_size(format),
        ),
    decreases count,
{
    let size = pixel_size(format) as int;
    if count == 0 {
        assert(0 * size == 0) by (nonlinear_arith);
        assert(concat(Seq::<Seq<u8>>::empty()) =~= data.subrange(at, at));
    } else {
        assert(count * size == size + (count - 1) * size) by (nonlinear_arith);
        assert((count - 1) * size >= 0) by (nonlinear_arith)
            requires
                count >= 1,
                size >= 0,
        ;
        lemma_plain_pixels(format, data, at + size, (count - 1) as nat);
        let rest = colours_from(format, data, at + size, (count - 1) as nat)->Ok_0.0;
        let first = cpixel_at(format, data, at);
        lemma_concat_front(first, rest);
        assert(first + data.subrange(at + size, at + count * size) =~= data.subrange(
            at,
            at + count * size,
        ));
    }
}

/// The bytes of a list of pixels are those of the first, then those of the rest.
pub proof fn lemma_concat_front(first: Seq<u8>, rest: Seq<Seq<u8>>)
    ensures
        concat(seq![first] + rest) == first + concat(rest),
    decreases rest.len(),
{
    let all = seq![first] + rest;
    if rest.len() == 0 {
        assert(all.drop_last() =~= Seq::<Seq<u8>>::empty());
        assert(concat(all.drop_last()) =~= Seq::<u8>::empty());
        assert(concat(all) =~= first);
        assert(first + concat(rest) =~= first);
    } else {
        assert(all.drop_last() =~= seq![first] + rest.drop_last());
        lemma_concat_front(first, rest.drop_last());
        assert(first + concat(rest.drop_last()) + rest.last() =~= first + (concat(rest.drop_last())
            + rest.last()));
    }
}

/// A tile whose pixels are written as they are decodes to those pixels,
/// wherever it stands in the data: what raw pixels would fill comes out with
/// the same bytes. (The format leaves no byte out on the wire.)
pub proof fn lemma_raw_tile(format: PixelFormat, data: Seq<u8>, at: int, width: nat, height: nat)
    requires
        !is_compact(format),
        0 <= at < data.len(),
        data[at] == 0,
        at + 1 + width * height * pixel_size(format) <= data.len(),
    ensures
        decode_tile(format, data, at, width, height) == Ok::<(Seq<u8>, int), Error>(
            (
                data.subrange(at + 1, at + 1 + width * height * pixel_size(format)),
                at + 1 + width * height * pixel_size(format),
            ),
        ),
{
    let count = (width * height) as nat;
    assert(count * pixel_size(format) == width * height * pixel_size(format)) by (nonlinear_arith)
        requires
            count == width * height,
    ;
    lemma_plain_pixels(format, data, at + 1, count);
    assert(colours_from(format, data, at + 1, 0) == Ok::<(Seq<Seq<u8>>, int), Error>(
        (Seq::empty(), at + 1),
    ));
}

/// A tile whose pixels are written as they are, in a format that leaves a
/// byte out on the wire, decodes to the raw pixels that were written,
/// wherever it stands in the data, where those hold zero in the byte left out.
pub proof fn lemma_compact_raw_tile(
    format: PixelFormat,
    raw: Seq<u8>,
    data: Seq<u8>,
    at: int,
    width: nat,
    height: nat,
)
    requires
        is_compact(format),
        raw.len() == width * height * 4,
        pads_are_zero(format, raw),
        0 <= at < data.len(),
        data[at] == 0,
        at + 1 + compacted(format, raw).len() <= data.len(),
        data.subrange(at + 1, at + 1 + compacted(format, raw).len()) == compacted(format, raw),
    ensures
        decode_tile(format, data, at, width, height) == Ok::<(Seq<u8>, int), Error>(
            (raw, at + 1 + compacted(format, raw).len()),
        ),
{
    assert(raw.len() / 4 == width * height);
    lemma_compact_pixels(format, raw, data, at + 1);
    assert(colours_from(format, data, at + 1, 0) == Ok::<(Seq<Seq<u8>>, int), Error>(
        (Seq::empty(), at + 1),
    ));
}

/// A rectangle of one tile whose pixels are written as they are decodes to
/// those pixels: the rectangle that raw pixels would fill comes out with the
/// same bytes. (The format leaves no byte out on the wire.)
pub proof fn lemma_raw_tile_is_identity(format: PixelFormat, rect: Rect, raw: Seq<u8>)
    requires
        in_range(rect),
        !is_compact(format),
        1 <= rect.width <= 64,
        1 <= rect.height <= 64,
        raw.len() == rect.width * rect.height * pixel_size(format),
    ensures
        decoded_tiles(format, rect, seq![0u8] + raw) == Ok::<Seq<(Rect, Seq<u8>)>, Error>(
            seq![(rect, raw)],
        ),
{
    let data = seq![0u8] + raw;
    assert(tile_columns(rect) == 1 && tile_rows(rect) == 1);
    assert(tile_rect(rect, 0, 0) == rect);
    lemma_raw_tile(format, data, 0, rect.width as nat, rect.height as nat);
    assert(data.subrange(1, 1 + raw.len() as int) =~= raw);
    lemma_one_tile(format, rect, data, raw);
}

/// The place in a pixel of four bytes of the byte that a compact format
/// leaves out on the wire.
pub open spec fn pad_place(format: PixelFormat) -> int {
    if pad_first(format) {
        0
    } else {
        3
    }
}

/// Whether raw pixels of four bytes hold zero in the byte that a compact
/// format leaves out: such pixels lose nothing on the wire.
pub open spec fn pads_are_zero(format: PixelFormat, raw: Seq<u8>) -> bool {
    forall|i: int| 0 <= i < raw.len() && i % 4 == pad_place(format) ==> raw[i] == 0
}

/// The wire bytes of raw pixels in a compact format: of each four bytes the
/// three that hold colour.
pub open spec fn compacted(format: PixelFormat, raw: Seq<u8>) -> Seq<u8> {
    Seq::new(
        3 * (raw.len() / 4),
        |k: int|
            if pad_first(format) {
                raw[4 * (k / 3) + k % 3 + 1]
            } else {
                raw[4 * (k / 3) + k % 3]
            },
    )
}

/// The pixels that are read from the wire bytes of raw pixels in a compact
/// format are the raw pixels, where those hold zero in the byte left out.
pub proof fn lemma_compact_pixels(format: PixelFormat, raw: Seq<u8>, data: Seq<u8>, at: int)
    requires
        is_compact(format),
        raw.len() % 4 == 0,
        pads_are_zero(format, raw),
        0 <= at,
        at + compacted(format, raw).len() <= data.len(),
        data.subrange(at, at + compacted(format, raw).len()) == compacted(format, raw),
    ensures
        colours_from(format, data, at, raw.len() / 4) is Ok,
        colours_from(format, data, at, raw.len() / 4)->Ok_0.1 == at + compacted(format, raw).len(),
        concat(colours_from(format, data, at, raw.len() / 4)->Ok_0.0) == raw,
    decreases raw.len(),
{
    let count = raw.len() / 4;
    let wire = compacted(format, raw);
    if count == 0 {
        assert(concat(Seq::<Seq<u8>>::empty()) =~= raw);
    } else {
        let later = raw.skip(4);
        assert(later.len() == raw.len() - 4);
        assert forall|i: int| 0 <= i < later.len() && i % 4 == pad_place(format) implies later[i]
            == 0 by {
            assert(later[i] == raw[i + 4]);
        }
        assert forall|k: int| 0 <= k < compacted(format, later).len() implies compacted(
            format,
            later,
        )[k] == wire[k + 3] by {
            assert((k + 3) / 3 == k / 3 + 1);
            assert((k + 3) % 3 == k % 3);
        }
        assert(data.subrange(at + 3, at + 3 + compacted(format, later).len()) =~= compacted(
            format,
            later,
        )) by {
            assert forall|k: int| 0 <= k < compacted(format, later).len() implies data[at + 3 + k]
                == compacted(format, later)[k] by {
                assert(data[at + 3 + k] == data.subrange(at, at + wire.len())[k + 3]);
            }
        }
        lemma_compact_pixels(format, later, data, at + 3);
        let rest = colours_from(format, data, at + 3, (count - 1) as nat)->Ok_0.0;
        let first = cpixel_at(format, data, at);
        lemma_concat_front(first, rest);
        assert(first =~= raw.subrange(0, 4)) by {
            let c = data.subrange(at, at + 3);
            assert(c[0] == data.subrange(at, at + wire.len())[0]);
            assert(c[1] == data.subrange(at, at + wire.len())[1]);
            assert(c[2] == data.subrange(at, at + wire.len())[2]);
            assert(raw[pad_place(format)] == 0);
        }
        assert(raw.subrange(0, 4) + later =~= raw);
    }
}

/// A rectangle of one tile whose pixels are written as they are, in a
/// format that leaves a byte out on the wire, decodes to the raw pixels that
/// were written, where those hold zero in the byte left out.
pub proof fn lemma_compact_raw_tile_is_identity(format: PixelFormat, rect: Rect, raw: Seq<u8>)
    requires
        in_range(rect),
        is_compact(format),
        1 <= rect.width <= 64,
        1 <= rect.height <= 64,
        raw.len() == rect.width * rect.height * 4,
        pads_are_zero(format, raw),
    ensures
        decoded_tiles(format, rect, seq![0u8] + compacted(format, raw)) == Ok::<
            Seq<(Rect, Seq<u8>)>,
            Error,
        >(seq![(rect, raw)]),
{
    let wire = compacted(format, raw);
    let data = seq![0u8] + wire;
    assert(tile_columns(rect) == 1 && tile_rows(rect) == 1);
    assert(tile_rect(rect, 0, 0) == rect);
    assert(data.subrange(1, 1 + wire.len() as int) =~= wire);
    lemma_compact_raw_tile(format, raw, data, 0, rect.width as nat, rect.height as nat);
    lemma_one_tile(format, rect, data, raw);
}

/// The bytes of the pixels of `tile` among the raw pixels of `rect`, which
/// stand row by row with `size` bytes to the pixel: the rows of the tile,
/// one after the other.
pub open spec fn cropped(raw: Seq<u8>, rect: Rect, tile: Rect, size: nat) -> Seq<u8> {
    Seq::new(
        (tile.width * tile.height * size) as nat,
        |j: int|
            raw[((tile.top - rect.top + j / (tile.width * size)) * rect.width + (tile.left
                - rect.left)) * size + j % (tile.width * size)],
    )
}

/// The payload that holds the raw pixels of a rectangle tile by tile, from
/// the tile in (`column`, `row`) on, every tile written pixel by pixel.
pub open spec fn plain_payload_from(
    format: PixelFormat,
    rect: Rect,
    raw: Seq<u8>,
    column: nat,
    row: nat,
) -> Seq<u8>
    decreases tile_rows(rect) - row, tile_columns(rect) - column,
{
    if row >= tile_rows(rect) {
        Seq::empty()
    } else if column >= tile_columns(rect) {
        plain_payload_from(format, rect, raw, 0, row + 1)
    } else {
        seq![0u8] + cropped(raw, rect, tile_rect(rect, column, row), pixel_size(format))
            + plain_payload_from(format, rect, raw, column + 1, row)
    }
}

/// The tiles of a rectangle from the one in (`column`, `row`) on, each with
/// its pixels among the raw pixels of the rectangle.
pub open spec fn cropped_tiles_from(
    format: PixelFormat,
    rect: Rect,
    raw: Seq<u8>,
    column: nat,
    row: nat,
) -> Seq<(Rect, Seq<u8>)>
    decreases tile_rows(rect) - row, tile_columns(rect) - column,
{
    if row >= tile_rows(rect) {
        Seq::empty()
    } else if column >= tile_columns(rect) {
        cropped_tiles_from(format, rect, raw, 0, row + 1)
    } else {
        seq![
            (
                tile_rect(rect, column, row),
                cropped(raw, rect, tile_rect(rect, column, row), pixel_size(format)),
            ),
        ] + cropped_tiles_from(format, rect, raw, column + 1, row)
    }
}

/// Tiles that are written pixel by pixel decode to their pixels, one tile
/// after the other.
proof fn lemma_plain_tiles_from(
    format: PixelFormat,
    rect: Rect,
    raw: Seq<u8>,
    data: Seq<u8>,
    at: int,
    column: nat,
    row: nat,
)
    requires
        !is_compact(format),
        0 <= at <= data.len(),
        data.skip(at) == plain_payload_from(format, rect, raw, column, row),
    ensures
        tiles_from(format, rect, data, at, column, row) == Ok::<
            (Seq<(Rect, Seq<u8>)>, int),
            Error,
        >((cropped_tiles_from(format, rect, raw, column, row), data.len() as int)),
    decreases tile_rows(rect) - row, tile_columns(rect) - column,
{
    if row >= tile_rows(rect) {
        assert(data.skip(at).len() == 0);
    } else if column >= tile_columns(rect) {
        lemma_plain_tiles_from(format, rect, raw, data, at, 0, row + 1);
    } else {
        let tile = tile_rect(rect, column, row);
        let pixels = cropped(raw, rect, tile, pixel_size(format));
        let later = plain_payload_from(format, rect, raw, column + 1, row);
        let here = data.skip(at);
        assert(here == seq![0u8] + pixels + later);
        assert(here.len() == 1 + pixels.len() + later.len());
        assert(data[at] == here[0]);
        let next = at + 1 + pixels.len();
        assert(pixels.len() == tile.width * tile.height * pixel_size(format));
        assert(data.subrange(at + 1, next) =~= pixels) by {
            assert forall|j: int| 0 <= j < pixels.len() implies data[at + 1 + j] == pixels[j] by {
                assert(data[at + 1 + j] == here[1 + j]);
            }
        }
        assert(data.skip(next) =~= later) by {
            assert forall|j: int| 0 <= j < later.len() implies data[next + j] == later[j] by {
                assert(data[next + j] == here[1 + pixels.len() + j]);
            }
        }
        lemma_raw_tile(format, data, at, tile.width as nat, tile.height as nat);
        lemma_plain_tiles_from(format, rect, raw, data, next, column + 1, row);
    }
}

/// A rectangle whose tiles are all written pixel by pixel decodes to the
/// pixels that raw pixels of the rectangle hold in the place of each tile:
/// what could be sent raw comes out with the same bytes. (The format leaves
/// no byte out on the wire.)
pub proof fn lemma_plain_rectangle_is_identity(format: PixelFormat, rect: Rect, raw: Seq<u8>)
    requires
        in_range(rect),
        !is_compact(format),
        raw.len() == rect.width * rect.height * pixel_size(format),
    ensures
        decoded_tiles(format, rect, plain_payload_from(format, rect, raw, 0, 0)) == Ok::<
            Seq<(Rect, Seq<u8>)>,
            Error,
        >(cropped_tiles_from(format, rect, raw, 0, 0)),
{
    let data = plain_payload_from(format, rect, raw, 0, 0);
    assert(data.skip(0) =~= data);
    lemma_plain_tiles_from(format, rect, raw, data, 0, 0, 0);
}

/// The payload that holds the raw pixels of a rectangle tile by tile, from
/// the tile in (`column`, `row`) on, every tile written pixel by pixel in a
/// format that leaves a byte out on the wire.
pub open spec fn compact_payload_from(
    format: PixelFormat,
    rect: Rect,
    raw: Seq<u8>,
    column: nat,
    row: nat,
) -> Seq<u8>
    decreases tile_rows(rect) - row, tile_columns(rect) - column,
{
    if row >= tile_rows(rect) {
        Seq::empty()
    } else if column >= tile_columns(rect) {
        compact_payload_from(format, rect, raw, 0, row + 1)
    } else {
        seq![0u8] + compacted(format, cropped(raw, rect, tile_rect(rect, column, row), 4))
            + compact_payload_from(format, rect, raw, column + 1, row)
    }
}

/// The pixels of a tile hold zero in the byte that the wire leaves out,
/// where the raw pixels of the rectangle do.
pub proof fn lemma_cropped_pads(format: PixelFormat, rect: Rect, raw: Seq<u8>, column: nat, row: nat)
    requires
        in_range(rect),
        column < tile_columns(rect),
        row < tile_rows(rect),
        raw.len() == rect.width * rect.height * 4,
        pads_are_zero(format, raw),
    ensures
        pads_are_zero(format, cropped(raw, rect, tile_rect(rect, column, row), 4)),
{
    let tile = tile_rect(rect, column, row);
    let pixels = cropped(raw, rect, tile, 4);
    let stride = tile.width * 4;
    assert forall|j: int| 0 <= j < pixels.len() && j % 4 == pad_place(format) implies pixels[j]
        == 0 by {
        let line = j / stride;
        let within = j % stride;
        let pixel = (tile.top - rect.top + line) * rect.width + (tile.left - rect.left);
        assert(stride > 0) by (nonlinear_arith)
            requires
                0 <= j < tile.width * tile.height * 4,
                stride == tile.width * 4,
        ;
        lemma_fundamental_div_mod(j, stride);
        lemma_mod_bound(j, stride);
        assert(0 <= line < tile.height) by (nonlinear_arith)
            requires
                j == stride * line + within,
                0 <= within < stride,
                0 <= j < tile.width * tile.height * 4,
                stride == tile.width * 4,
        ;
        assert(within % 4 == j % 4) by {
            assert(j == 4 * (tile.width * line) + within) by (nonlinear_arith)
                requires
                    j == stride * line + within,
                    stride == tile.width * 4,
            ;
            lemma_fundamental_div_mod_converse(
                j,
                4,
                tile.width * line + within / 4,
                within % 4,
            );
        }
        assert(0 <= pixel < rect.width * rect.height) by (nonlinear_arith)
            requires
                pixel == (tile.top - rect.top + line) * rect.width + (tile.left - rect.left),
                0 <= tile.top - rect.top + line < rect.height,
                0 <= tile.left - rect.left,
                tile.left - rect.left + tile.width <= rect.width,
                tile.width >= 1,
        ;
        let i = pixel * 4 + within;
        assert(within < 4 * tile.width);
        assert(i < raw.len()) by (nonlinear_arith)
            requires
                i == pixel * 4 + within,
                pixel == (tile.top - rect.top + line) * rect.width + (tile.left - rect.left),
                0 <= tile.top - rect.top + line < rect.height,
                0 <= tile.left - rect.left,
                tile.left - rect.left + tile.width <= rect.width,
                0 <= within < 4 * tile.width,
                raw.len() == rect.width * rect.height * 4,
        ;
        assert(i % 4 == within % 4) by {
            lemma_fundamental_div_mod_converse(i, 4, pixel + within / 4, within % 4);
        }
        assert(pixels[j] == raw[i]);
    }
}

/// Tiles that are written pixel by pixel in a format that leaves a byte out
/// on the wire decode to their pixels, one tile after the other.
proof fn lemma_compact_tiles_from(
    format: PixelFormat,
    rect: Rect,
    raw: Seq<u8>,
    data: Seq<u8>,
    at: int,
    column: nat,
    row: nat,
)
    requires
        in_range(rect),
        is_compact(format),
        raw.len() == rect.width * rect.height * 4,
        pads_are_zero(format, raw),
        0 <= at <= data.len(),
        data.skip(at) == compact_payload_from(format, rect, raw, column, row),
    ensures
        tiles_from(format, rect, data, at, column, row) == Ok::<
            (Seq<(Rect, Seq<u8>)>, int),
            Error,
        >((cropped_tiles_from(format, rect, raw, column, row), data.len() as int)),
    decreases tile_rows(rect) - row, tile_columns(rect) - column,
{
    if row >= tile_rows(rect) {
        assert(data.skip(at).len() == 0);
    } else if column >= tile_columns(rect) {
        lemma_compact_tiles_from(format, rect, raw, data, at, 0, row + 1);
    } else {
        let tile = tile_rect(rect, column, row);
        let pixels = cropped(raw, rect, tile, 4);
        let wire = compacted(format, pixels);
        let later = compact_payload_from(format, rect, raw, column + 1, row);
        let here = data.skip(at);
        assert(here == seq![0u8] + wire + later);
        assert(here.len() == 1 + wire.len() + later.len());
        assert(data[at] == here[0]);
        let next = at + 1 + wire.len();
        assert(data.subrange(at + 1, next) =~= wire) by {
            assert forall|j: int| 0 <= j < wire.len() implies data[at + 1 + j] == wire[j] by {
                assert(data[at + 1 + j] == here[1 + j]);
            }
        }
        assert(data.skip(next) =~= later) by {
            assert forall|j: int| 0 <= j < later.len() implies data[next + j] == later[j] by {
                assert(data[next + j] == here[1 + wire.len() + j]);
            }
        }
        lemma_cropped_pads(format, rect, raw, column, row);
        lemma_compact_raw_tile(format, pixels, data, at, tile.width as nat, tile.height as nat);
        lemma_compact_tiles_from(format, rect, raw, data, next, column + 1, row);
    }
}

/// A rectangle whose tiles are all written pixel by pixel, in a format that
/// leaves a byte out on the wire, decodes to the pixels that raw pixels of
/// the rectangle hold in the place of each tile, where those hold zero in
/// the byte left out.
pub proof fn lemma_compact_rectangle_is_identity(format: PixelFormat, rect: Rect, raw: Seq<u8>)
    requires
        in_range(rect),
        is_compact(format),
        raw.len() == rect.width * rect.height * 4,
        pads_are_zero(format, raw),
    ensures
        decoded_tiles(format, rect, compact_payload_from(format, rect, raw, 0, 0)) == Ok::<
            Seq<(Rect, Seq<u8>)>,
            Error,
        >(cropped_tiles_from(format, rect, raw, 0, 0)),
{
    let data = compact_payload_from(format, rect, raw, 0, 0);
    assert(data.skip(0) =~= data);
    lemma_compact_tiles_from(format, rect, raw, data, 0, 0, 0);
}

/// A rectangle of one tile decodes to that tile, where the data holds the
/// tile and nothing else.
proof fn lemma_one_tile(format: PixelFormat, rect: Rect, data: Seq<u8>, pixels: Seq<u8>)
    requires
        in_range(rect),
        1 <= rect.width <= 64,
        1 <= rect.height <= 64,
        decode_tile(format, data, 0, rect.width as nat, rect.height as nat) == Ok::<
            (Seq<u8>, int),
            Error,
        >((pixels, data.len() as int)),
    ensures
        decoded_tiles(format, rect, data) == Ok::<Seq<(Rect, Seq<u8>)>, Error>(
            seq![(rect, pixels)],
        ),
{
    assert(tile_columns(rect) == 1 && tile_rows(rect) == 1);
    assert(tile_rect(rect, 0, 0) == rect);
    assert(tiles_from(format, rect, data, data.len() as int, 0, 1) == Ok::<
        (Seq<(Rect, Seq<u8>)>, int),
        Error,
    >((Seq::empty(), data.len() as int)));
    assert(tiles_from(format, rect, data, data.len() as int, 1, 0) == tiles_from(
        format,
        rect,
        data,
        data.len() as int,
        0,
        1,
    ));
    assert(seq![(rect, pixels)] + Seq::<(Rect, Seq<u8>)>::empty() =~= seq![(rect, pixels)]);
    assert(tiles_from(format, rect, data, 0, 0, 0) == Ok::<(Seq<(Rect, Seq<u8>)>, int), Error>(
        (seq![(rect, pixels)], data.len() as int),
    ));
}

/// Pixels that are read take their bytes on the wire, one after the other.
pub proof fn lemma_colours_end(format: PixelFormat, data: Seq<u8>, at: int, count: nat)
    requires
        colours_from(format, data, at, count) is Ok,
    ensures
        colours_from(format, data, at, count)->Ok_0.1 == at + count * cpixel_size(format),
        colours_from(format, data, at, count)->Ok_0.0.len() == count,
    decreases count,
{
    let size = cpixel_size(format) as int;
    if count == 0 {
        assert(0 * size == 0) by (nonlinear_arith);
    } else {
        lemma_colours_end(format, data, at + size, (count - 1) as nat);
        assert(count * size == size + (count - 1) * size) by (nonlinear_arith);
    }
}

/// The length of a run takes no more bytes than the run has pixels.
pub proof fn lemma_run_length_end(data: Seq<u8>, at: int)
    requires
        run_length_from(data, at) is Ok,
    ensures
        at < run_length_from(data, at)->Ok_0.1 <= data.len(),
        run_length_from(data, at)->Ok_0.1 - at <= run_length_from(data, at)->Ok_0.0,
    decreases data.len() - at,
{
    if data[at] == 255 {
        lemma_run_length_end(data, at + 1);
    }
}

/// Runs of wire pixels take no more bytes than one pixel and one byte for each pixel.
pub proof fn lemma_plain_rle_end(format: PixelFormat, data: Seq<u8>, at: int, remaining: nat)
    requires
        plain_rle_from(format, data, at, remaining) is Ok,
    ensures
        plain_rle_from(format, data, at, remaining)->Ok_0.1 - at <= remaining * (cpixel_size(
            format,
        ) + 1),
    decreases remaining,
{
    let size = cpixel_size(format) as int;
    if remaining == 0 {
        assert(0 * (size + 1) == 0) by (nonlinear_arith);
    } else {
        let run = run_length_from(data, at + size);
        let length = run->Ok_0.0;
        let next = run->Ok_0.1;
        lemma_run_length_end(data, at + size);
        lemma_plain_rle_end(format, data, next, (remaining - length) as nat);
        assert(size + length + (remaining - length) * (size + 1) <= remaining * (size + 1))
            by (nonlinear_arith)
            requires
                1 <= length <= remaining,
                size >= 0,
        ;
    }
}

/// Runs of palette colours take no more than two bytes for each pixel.
pub proof fn lemma_palette_rle_end(palette: Seq<Seq<u8>>, data: Seq<u8>, at: int, remaining: nat)
    requires
        palette_rle_from(palette, data, at, remaining) is Ok,
    ensures
        palette_rle_from(palette, data, at, remaining)->Ok_0.1 - at <= 2 * remaining,
    decreases remaining,
{
    if remaining > 0 {
        if data[at] >= 128 {
            lemma_run_length_end(data, at + 1);
            let run = run_length_from(data, at + 1);
            lemma_palette_rle_end(palette, data, run->Ok_0.1, (remaining - run->Ok_0.0) as nat);
        } else {
            lemma_palette_rle_end(palette, data, at + 1, (remaining - 1) as nat);
        }
    }
}

/// Rows of packed indices take the bytes of each row, one row after the other.
pub proof fn lemma_packed_rows_end(
    palette: Seq<Seq<u8>>,
    data: Seq<u8>,
    at: int,
    width: nat,
    rows: nat,
    bits: nat,
)
    requires
        packed_rows_from(palette, data, at, width, rows, bits) is Ok,
    ensures
        packed_rows_from(palette, data, at, width, rows, bits)->Ok_0.1 - at == rows * row_bytes(
            width,
            bits,
        ),
    decreases rows,
{
    let stride = row_bytes(width, bits) as int;
    if rows == 0 {
        assert(0 * stride == 0) by (nonlinear_arith);
    } else {
        lemma_packed_rows_end(palette, data, at + stride, width, (rows - 1) as nat, bits);
        assert(rows * stride == stride + (rows - 1) * stride) by (nonlinear_arith);
    }
}

/// A tile takes no more than `MAX_TILE_BYTES` bytes.
pub proof fn lemma_tile_end(format: PixelFormat, data: Seq<u8>, at: int, width: nat, height: nat)
    requires
        decode_tile(format, data, at, width, height) is Ok,
        width <= 64,
        height <= 64,
    ensures
        decode_tile(format, data, at, width, height)->Ok_0.1 - at <= MAX_TILE_BYTES,
{
    let size = cpixel_size(format) as int;
    let count = width * height;
    let palette_size = (data[at] % 128) as nat;
    let rle = data[at] >= 128;
    assert(count <= 4096) by (nonlinear_arith)
        requires
            count == width * height,
            width <= 64,
            height <= 64,
    ;
    assert(0 <= size <= 31);
    lemma_colours_end(format, data, at + 1, palette_size);
    let body = at + 1 + palette_size * size;
    assert(palette_size * size <= 127 * 31) by (nonlinear_arith)
        requires
            palette_size <= 127,
            0 <= size <= 31,
    ;
    let palette = colours_from(format, data, at + 1, palette_size)->Ok_0.0;
    if !rle && palette_size == 0 {
        lemma_colours_end(format, data, body, count);
        assert(count * size <= 4096 * 31) by (nonlinear_arith)
            requires
                count <= 4096,
                0 <= size <= 31,
        ;
    } else if !rle && palette_size == 1 {
    } else if !rle && palette_size <= 16 {
        let bits = index_bits(palette_size);
        lemma_packed_rows_end(palette, data, body, width, height, bits);
        assert(row_bytes(width, bits) <= 64);
        assert(height * row_bytes(width, bits) <= 64 * 64) by (nonlinear_arith)
            requires
                height <= 64,
                row_bytes(width, bits) <= 64,
        ;
    } else if !rle {
    } else if palette_size == 0 {
        lemma_plain_rle_end(format, data, body, count);
        assert(count * (size + 1) <= 4096 * 32) by (nonlinear_arith)
            requires
                count <= 4096,
                0 <= size <= 31,
        ;
    } else {
        lemma_palette_rle_end(palette, data, body, count);
    }
}

/// The tiles from a place of the grid on take no more than `MAX_TILE_BYTES` each.
proof fn lemma_tiles_from_end(
    format: PixelFormat,
    rect: Rect,
    data: Seq<u8>,
    at: int,
    column: nat,
    row: nat,
)
    requires
        column <= tile_columns(rect),
        row <= tile_rows(rect),
        row == tile_rows(rect) ==> column == 0,
        tiles_from(format, rect, data, at, column, row) is Ok,
    ensures
        tiles_from(format, rect, data, at, column, row)->Ok_0.1 - at <= MAX_TILE_BYTES * (
        tile_grid(rect).len() - grid_index(rect, column as int, row as int)),
    decreases tile_rows(rect) - row, tile_columns(rect) - column,
{
    let columns = tile_columns(rect) as int;
    let rows = tile_rows(rect) as int;
    let first = grid_index(rect, column as int, row as int);
    if row >= tile_rows(rect) {
        assert(rows * columns == columns * rows) by (nonlinear_arith);
    } else if column >= tile_columns(rect) {
        lemma_tiles_from_end(format, rect, data, at, 0, row + 1);
        assert((row + 1) * columns == row * columns + columns) by (nonlinear_arith);
    } else {
        let tile = tile_rect(rect, column, row);
        let decoded = decode_tile(format, data, at, tile.width as nat, tile.height as nat);
        let next = decoded->Ok_0.1;
        lemma_tile_end(format, data, at, tile.width as nat, tile.height as nat);
        lemma_tiles_from_end(format, rect, data, next, column + 1, row);
        lemma_grid_index(rect, column as int, row as int);
        let left = tile_grid(rect).len() - first;
        assert(MAX_TILE_BYTES + MAX_TILE_BYTES * (left - 1) == MAX_TILE_BYTES * left)
            by (nonlinear_arith);
    }
}

/// Data that holds the tiles of a rectangle, and nothing else, is no longer
/// than `payload_bound` says: the decoder, which decompresses no more than
/// that and one byte, turns nothing away that is well formed.
pub proof fn lemma_payload_bound(format: PixelFormat, rect: Rect, data: Seq<u8>)
    requires
        decoded_tiles(format, rect, data) is Ok,
    ensures
        data.len() <= payload_bound(rect),
{
    lemma_tiles_from_end(format, rect, data, 0, 0, 0);
    assert(grid_index(rect, 0, 0) == 0) by (nonlinear_arith)
        requires
            grid_index(rect, 0, 0) == 0 * tile_columns(rect) + 0,
    ;
    assert(MAX_TILE_BYTES * (tile_columns(rect) * tile_rows(rect)) == tile_columns(rect)
        * tile_rows(rect) * MAX_TILE_BYTES) by (nonlinear_arith);
}

/// Where the sink was handed every tile from the one in (`column`, `row`)
/// on, the data hold those tiles and end behind the last, and each of them
/// is one that the sink took.
pub proof fn lemma_handed_tiles_from<F: Fn(Rect, Vec<u8>) -> Result<bool, Error>>(
    sink: F,
    format: PixelFormat,
    rect: Rect,
    data: Seq<u8>,
    at: int,
    column: nat,
    row: nat,
)
    requires
        handing_gives(sink, format, rect, data, at, column, row, Ok::<bool, Error>(true)),
    ensures
        tiles_from(format, rect, data, at, column, row) matches Ok((tiles, end)) && end
            == data.len() && forall|i: int|
            0 <= i < tiles.len() ==> was_handed(sink, #[trigger] tiles[i], true),
    decreases tile_rows(rect) - row, tile_columns(rect) - column,
{
    if row >= tile_rows(rect) {
    } else if column >= tile_columns(rect) {
        lemma_handed_tiles_from(sink, format, rect, data, at, 0, row + 1);
    } else {
        let area = tile_rect(rect, column, row);
        let (pixels, next) = decode_tile(
            format,
            data,
            at,
            area.width as nat,
            area.height as nat,
        )->Ok_0;
        lemma_handed_tiles_from(sink, format, rect, data, next, column + 1, row);
        let rest = tiles_from(format, rect, data, next, column + 1, row)->Ok_0.0;
        let tiles = seq![(area, pixels)] + rest;
        assert forall|i: int| 0 <= i < tiles.len() implies was_handed(
            sink,
            #[trigger] tiles[i],
            true,
        ) by {
            if i > 0 {
                assert(tiles[i] == rest[i - 1]);
            }
        }
    }
}

/// Where the sink has taken every tile of a rectangle, the tiles that it
/// was handed are those that `decoded_tiles` gives for the data, all of them.
pub proof fn lemma_sink_took_the_decoded_tiles<F: Fn(Rect, Vec<u8>) -> Result<bool, Error>>(
    sink: F,
    format: PixelFormat,
    rect: Rect,
    data: Seq<u8>,
)
    requires
        decoding_gives(sink, format, rect, data, Ok::<bool, Error>(true)),
    ensures
        decoded_tiles(format, rect, data) matches Ok(tiles) && forall|i: int|
            0 <= i < tiles.len() ==> was_handed(sink, #[trigger] tiles[i], true),
{
    lemma_handed_tiles_from(sink, format, rect, data, 0, 0, 0);
}

} // verus!
