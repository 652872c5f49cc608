//! The ZRLE encoding: a rectangle cut into tiles of at most 64 by 64 pixels,
//! each tile written in one of five ways, the whole compressed with zlib.
//!
//! `decode_tiles` turns the bytes that come out of the decompressor into
//! tiles, `hand_over` hands each tile to a sink as soon as it is decoded;
//! both are specified exactly. `Decoder` owns the decompressor, whose state
//! lives as long as the session: what it does before and after each call of
//! the decompressor, `first_step` and `next_step` say.

use crate::error::{Error, IoError};
use crate::protocol::{channel_bits, eof, place_channel, PixelFormat};
use crate::rect::Rect;
use crate::wire::put_bytes;
use flate2::{Decompress, DecompressError, FlushDecompress, Status};
use vstd::prelude::*;

pub mod assembly;
pub mod laws;
pub mod sizes;

verus! {

/// One decoded tile: where it lies in the framebuffer, and its pixels row by
/// row in the session's pixel format.
#[derive(Debug, PartialEq, Eq)]
pub struct Tile {
    pub rect: Rect,
    pub pixels: Vec<u8>,
}

impl View for Tile {
    type V = (Rect, Seq<u8>);

    open spec fn view(&self) -> (Rect, Seq<u8>) {
        (self.rect, self.pixels@)
    }
}

/// The number of bytes that one pixel takes in a pixel buffer.
pub open spec fn pixel_size(format: PixelFormat) -> nat {
    (format.bits_per_pixel / 8) as nat
}

/// Whether the three channels lie in the low 24 bits of the pixel.
pub open spec fn fits_low24(format: PixelFormat) -> bool {
    &&& channel_bits(format.red_max, format.red_shift) < 0x100_0000
    &&& channel_bits(format.green_max, format.green_shift) < 0x100_0000
    &&& channel_bits(format.blue_max, format.blue_shift) < 0x100_0000
}

/// Whether a channel lies in the high 24 bits of a 32-bit pixel.
pub open spec fn channel_in_high24(max: u16, shift: u8) -> bool {
    channel_bits(max, shift) % 0x100 == 0 && channel_bits(max, shift) < 0x1_0000_0000
}

/// Whether the three channels lie in the high 24 bits of the pixel.
pub open spec fn fits_high24(format: PixelFormat) -> bool {
    &&& channel_in_high24(format.red_max, format.red_shift)
    &&& channel_in_high24(format.green_max, format.green_shift)
    &&& channel_in_high24(format.blue_max, format.blue_shift)
}

/// Whether pixels travel as three bytes although they take four in the framebuffer.
pub open spec fn is_compact(format: PixelFormat) -> bool {
    format.bits_per_pixel == 32 && format.depth <= 24 && (fits_low24(format) || fits_high24(
        format,
    ))
}

/// The number of bytes of a pixel on the wire (of a CPIXEL).
pub open spec fn cpixel_size(format: PixelFormat) -> nat {
    if is_compact(format) {
        3
    } else {
        pixel_size(format)
    }
}

/// For a compact format, whether the byte that was left out is the first of
/// the four in the framebuffer.
pub open spec fn pad_first(format: PixelFormat) -> bool {
    if fits_low24(format) {
        format.big_endian
    } else {
        !format.big_endian
    }
}

/// The pixel of the framebuffer that the wire bytes `c` stand for.
pub open spec fn expand(format: PixelFormat, c: Seq<u8>) -> Seq<u8> {
    if !is_compact(format) {
        c
    } else if pad_first(format) {
        seq![0u8] + c
    } else {
        c + seq![0u8]
    }
}

/// The pixel whose wire bytes stand at `at` in `data`.
pub open spec fn cpixel_at(format: PixelFormat, data: Seq<u8>, at: int) -> Seq<u8> {
    expand(format, data.subrange(at, at + cpixel_size(format)))
}

/// Some pixels, one after the other.
pub open spec fn concat(pixels: Seq<Seq<u8>>) -> Seq<u8>
    decreases pixels.len(),
{
    if pixels.len() == 0 {
        Seq::empty()
    } else {
        concat(pixels.drop_last()) + pixels.last()
    }
}

/// The same pixel `n` times.
pub open spec fn repeat(pixel: Seq<u8>, n: nat) -> Seq<u8>
    decreases n,
{
    if n == 0 {
        Seq::empty()
    } else {
        repeat(pixel, (n - 1) as nat) + pixel
    }
}

/// The `count` pixels whose wire bytes start at `at`, and where they end.
pub open spec fn colours_from(format: PixelFormat, data: Seq<u8>, at: int, count: nat) -> Result<
    (Seq<Seq<u8>>, int),
    Error,
>
    decreases count,
{
    if count == 0 {
        Ok((Seq::empty(), at))
    } else if data.len() < at + cpixel_size(format) {
        eof()
    } else {
        match colours_from(format, data, at + cpixel_size(format), (count - 1) as nat) {
            Ok((rest, end)) => Ok((seq![cpixel_at(format, data, at)] + rest, end)),
            Err(e) => Err(e),
        }
    }
}

/// The length of the run whose length bytes start at `at`, and where they
/// end: every byte of 255 adds 255 and has a successor, the last byte adds
/// itself and one.
pub open spec fn run_length_from(data: Seq<u8>, at: int) -> Result<(nat, int), Error>
    decreases data.len() - at,
{
    if at < 0 || data.len() <= at {
        eof()
    } else if data[at] == 255 {
        match run_length_from(data, at + 1) {
            Ok((length, end)) => Ok((255 + length, end)),
            Err(e) => Err(e),
        }
    } else {
        Ok(((data[at] + 1) as nat, at + 1))
    }
}

/// The pixels of runs of wire pixels that start at `at` and fill `remaining` pixels.
pub open spec fn plain_rle_from(format: PixelFormat, data: Seq<u8>, at: int, remaining: nat) -> Result<
    (Seq<u8>, int),
    Error,
>
    decreases remaining,
{
    if remaining == 0 {
        Ok((Seq::empty(), at))
    } else if data.len() < at + cpixel_size(format) {
        eof()
    } else {
        match run_length_from(data, at + cpixel_size(format)) {
            Err(e) => Err(e),
            Ok((length, next)) => if length < 1 || length > remaining {
                Err(Error::Unexpected("zrle run length"))
            } else {
                match plain_rle_from(format, data, next, (remaining - length) as nat) {
                    Ok((rest, end)) => Ok((repeat(cpixel_at(format, data, at), length) + rest, end)),
                    Err(e) => Err(e),
                }
            },
        }
    }
}

/// The pixels of runs of palette colours that start at `at` and fill
/// `remaining` pixels. The low seven bits of a run's first byte choose the
/// colour; its high bit says that length bytes follow, else the run is one pixel.
pub open spec fn palette_rle_from(palette: Seq<Seq<u8>>, data: Seq<u8>, at: int, remaining: nat) -> Result<
    (Seq<u8>, int),
    Error,
>
    decreases remaining,
{
    if remaining == 0 {
        Ok((Seq::empty(), at))
    } else if at < 0 || data.len() <= at {
        eof()
    } else {
        let run = if data[at] >= 128 {
            run_length_from(data, at + 1)
        } else {
            Ok((1nat, at + 1))
        };
        match run {
            Err(e) => Err(e),
            Ok((length, next)) => if data[at] % 128 >= palette.len() {
                Err(Error::Unexpected("zrle palette index"))
            } else if length < 1 || length > remaining {
                Err(Error::Unexpected("zrle run length"))
            } else {
                match palette_rle_from(palette, data, next, (remaining - length) as nat) {
                    Ok((rest, end)) => Ok((repeat(palette[(data[at] % 128) as int], length) + rest, end)),
                    Err(e) => Err(e),
                }
            },
        }
    }
}

/// The number of bits of a packed palette index, for a palette of 2 to 16 colours.
pub open spec fn index_bits(palette_size: nat) -> nat {
    if palette_size <= 2 {
        1
    } else if palette_size <= 4 {
        2
    } else {
        4
    }
}

/// The bits that an index of `bits` bits leaves of a byte.
pub open spec fn index_mask(bits: nat) -> u8 {
    if bits == 1 {
        0x01
    } else if bits == 2 {
        0x03
    } else {
        0x0f
    }
}

/// The number of bytes of a row of `width` packed indices.
pub open spec fn row_bytes(width: nat, bits: nat) -> nat {
    (width * bits + 7) / 8
}

/// The index of the pixel `x` of the row that starts at `at`: indices are
/// packed from the high bits of each byte down.
pub open spec fn packed_index(data: Seq<u8>, at: int, x: nat, bits: nat) -> u8 {
    (data[at + (x * bits) / 8] >> ((8 - bits - (x * bits) % 8) as u8)) & index_mask(bits)
}

/// The first `count` pixels of the packed row that starts at `at`.
pub open spec fn packed_row(palette: Seq<Seq<u8>>, data: Seq<u8>, at: int, count: nat, bits: nat) -> Result<
    Seq<u8>,
    Error,
>
    decreases count,
{
    if count == 0 {
        Ok(Seq::empty())
    } else {
        match packed_row(palette, data, at, (count - 1) as nat, bits) {
            Err(e) => Err(e),
            Ok(before) => if packed_index(data, at, (count - 1) as nat, bits) >= palette.len() {
                Err(Error::Unexpected("zrle palette index"))
            } else {
                Ok(before + palette[packed_index(data, at, (count - 1) as nat, bits) as int])
            },
        }
    }
}

/// The pixels of `rows` packed rows of `width` pixels that start at `at`.
pub open spec fn packed_rows_from(
    palette: Seq<Seq<u8>>,
    data: Seq<u8>,
    at: int,
    width: nat,
    rows: nat,
    bits: nat,
) -> Result<(Seq<u8>, int), Error>
    decreases rows,
{
    if rows == 0 {
        Ok((Seq::empty(), at))
    } else if data.len() < at + row_bytes(width, bits) {
        eof()
    } else {
        match packed_row(palette, data, at, width, bits) {
            Err(e) => Err(e),
            Ok(row) => match packed_rows_from(
                palette,
                data,
                at + row_bytes(width, bits),
                width,
                (rows - 1) as nat,
                bits,
            ) {
                Ok((rest, end)) => Ok((row + rest, end)),
                Err(e) => Err(e),
            },
        }
    }
}

/// The pixels of the tile of `width` by `height` pixels whose bytes start at
/// `at`, and where its bytes end. The first byte says how the tile is
/// written: its high bit asks for runs, its low seven bits are the size of
/// the palette that follows it.
pub open spec fn decode_tile(format: PixelFormat, data: Seq<u8>, at: int, width: nat, height: nat) -> Result<
    (Seq<u8>, int),
    Error,
> {
    if at < 0 || data.len() <= at {
        eof()
    } else {
        let rle = data[at] >= 128;
        let palette_size = (data[at] % 128) as nat;
        match colours_from(format, data, at + 1, palette_size) {
            Err(e) => Err(e),
            Ok((palette, body)) => if !rle && palette_size == 0 {
                match colours_from(format, data, body, width * height) {
                    Ok((pixels, end)) => Ok((concat(pixels), end)),
                    Err(e) => Err(e),
                }
            } else if !rle && palette_size == 1 {
                Ok((repeat(palette[0], width * height), body))
            } else if !rle && palette_size <= 16 {
                packed_rows_from(palette, data, body, width, height, index_bits(palette_size))
            } else if !rle {
                Err(Error::Unexpected("zrle subencoding"))
            } else if palette_size == 0 {
                plain_rle_from(format, data, body, width * height)
            } else {
                palette_rle_from(palette, data, body, width * height)
            },
        }
    }
}

/// How a pixel format lays out pixels in the framebuffer and on the wire.
#[derive(Debug, Clone, Copy, PartialEq, Eq, Structural)]
pub struct Layout {
    /// Bytes of a pixel in the framebuffer.
    pub pixel: usize,
    /// Bytes of a pixel on the wire.
    pub cpixel: usize,
    /// Whether the wire leaves a byte out.
    pub compact: bool,
    /// Whether the byte left out is the first.
    pub pad_first: bool,
}

/// Whether a channel lies in the low 24 bits, and whether it lies in the high
/// 24 bits of a 32-bit pixel.
fn channel_fits(max: u16, shift: u8) -> (r: (bool, bool))
    ensures
        r.0 == (channel_bits(max, shift) < 0x100_0000),
        r.1 == channel_in_high24(max, shift),
{
    match place_channel(max, shift) {
        Some(bits) => (bits < 0x100_0000, bits % 0x100 == 0 && bits < 0x1_0000_0000),
        None => (false, false),
    }
}

impl Layout {
    /// Whether this is the layout of `format`.
    pub open spec fn is_of(self, format: PixelFormat) -> bool {
        &&& self.pixel == pixel_size(format)
        &&& self.cpixel == cpixel_size(format)
        &&& self.compact == is_compact(format)
        &&& self.compact ==> self.pad_first == pad_first(format)
        &&& self.pixel <= 31
        &&& self.cpixel <= 31
    }

    /// The layout of `format`.
    pub fn of(format: &PixelFormat) -> (layout: Layout)
        ensures
            layout.is_of(*format),
    {
        let pixel = (format.bits_per_pixel / 8) as usize;
        let red = channel_fits(format.red_max, format.red_shift);
        let green = channel_fits(format.green_max, format.green_shift);
        let blue = channel_fits(format.blue_max, format.blue_shift);
        let low = red.0 && green.0 && blue.0;
        let high = red.1 && green.1 && blue.1;
        if format.bits_per_pixel == 32 && format.depth <= 24 && (low || high) {
            Layout {
                pixel,
                cpixel: 3,
                compact: true,
                pad_first: if low {
                    format.big_endian
                } else {
                    !format.big_endian
                },
            }
        } else {
            Layout { pixel, cpixel: pixel, compact: false, pad_first: false }
        }
    }
}

/// Appending a pixel to a list appends its bytes to the bytes of the list.
pub proof fn lemma_concat_push(pixels: Seq<Seq<u8>>, pixel: Seq<u8>)
    ensures
        concat(pixels.push(pixel)) == concat(pixels) + pixel,
{
    assert(pixels.push(pixel).drop_last() =~= pixels);
}

/// The pixels that a palette holds, as a list.
pub open spec fn colours_view(palette: Vec<Vec<u8>>) -> Seq<Seq<u8>> {
    Seq::new(palette@.len(), |i: int| palette@[i]@)
}

/// The most pixels that a tile holds.
pub const TILE_PIXELS: usize = 4096;

/// Run lengths are counted up to this number; a longer run is longer than any tile.
pub const RUN_CAP: usize = 0x1_0000;

/// Appends to `out` the pixel whose wire bytes stand at `at`.
fn read_cpixel(
    layout: &Layout,
    Ghost(format): Ghost<PixelFormat>,
    data: &[u8],
    at: usize,
    out: &mut Vec<u8>,
)
    requires
        layout.is_of(format),
        at + layout.cpixel <= data@.len(),
    ensures
        final(out)@ == old(out)@ + cpixel_at(format, data@, at as int),
{
    if layout.compact && layout.pad_first {
        out.push(0u8);
    }
    assert(at + layout.cpixel <= data.len());
    put_bytes(out, vstd::slice::slice_subrange(data, at, at + layout.cpixel));
    if layout.compact && !layout.pad_first {
        out.push(0u8);
    }
    assert(out@ =~= old(out)@ + cpixel_at(format, data@, at as int));
}

/// Reads the `count` colours of a palette.
fn read_colours(
    layout: &Layout,
    Ghost(format): Ghost<PixelFormat>,
    data: &[u8],
    at: usize,
    count: usize,
) -> (r: Result<(Vec<Vec<u8>>, usize), Error>)
    requires
        layout.is_of(format),
        at <= data@.len(),
    ensures
        match colours_from(format, data@, at as int, count as nat) {
            Ok((colours, end)) => r matches Ok((palette, next)) && colours_view(palette) == colours
                && next == end && next <= data@.len(),
            Err(e) => r matches Err(e2) && e2 == e,
        },
{
    let mut palette: Vec<Vec<u8>> = Vec::new();
    let mut pos = at;
    let mut k: usize = 0;
    let ghost whole = colours_from(format, data@, at as int, count as nat);
    assert(colours_view(palette) =~= Seq::<Seq<u8>>::empty());
    assert(Seq::<Seq<u8>>::empty() + whole->Ok_0.0 =~= whole->Ok_0.0);
    while k < count
        invariant
            k <= count,
            pos <= data@.len(),
            layout.is_of(format),
            whole == colours_from(format, data@, at as int, count as nat),
            match colours_from(format, data@, pos as int, (count - k) as nat) {
                Ok((rest, end)) => whole == Ok::<(Seq<Seq<u8>>, int), Error>(
                    (colours_view(palette) + rest, end),
                ),
                Err(e) => whole == Err::<(Seq<Seq<u8>>, int), Error>(e),
            },
        decreases count - k,
    {
        if data.len() - pos < layout.cpixel {
            return Err(Error::Io(IoError::UnexpectedEof));
        }
        let mut colour: Vec<u8> = Vec::new();
        read_cpixel(layout, Ghost(format), data, pos, &mut colour);
        let ghost before = colours_view(palette);
        palette.push(colour);
        proof {
            assert(colours_view(palette) =~= before.push(colour@));
            let next = colours_from(
                format,
                data@,
                pos + layout.cpixel,
                (count - k - 1) as nat,
            );
            if next is Ok {
                assert(before + (seq![colour@] + next->Ok_0.0) =~= before.push(colour@)
                    + next->Ok_0.0);
            }
        }
        pos = pos + layout.cpixel;
        k = k + 1;
    }
    assert(colours_view(palette) + Seq::<Seq<u8>>::empty() =~= colours_view(palette));
    Ok((palette, pos))
}

/// Appends to `out` the `count` pixels of a tile that is written pixel by pixel.
fn read_raw(
    layout: &Layout,
    Ghost(format): Ghost<PixelFormat>,
    data: &[u8],
    at: usize,
    count: usize,
    out: &mut Vec<u8>,
) -> (r: Result<usize, Error>)
    requires
        layout.is_of(format),
        at <= data@.len(),
    ensures
        match colours_from(format, data@, at as int, count as nat) {
            Ok((pixels, end)) => (r matches Ok(next) && next == end) && end <= data@.len()
                && final(out)@ == old(out)@ + concat(pixels),
            Err(e) => r matches Err(e2) && e2 == e,
        },
{
    let mut pos = at;
    let mut k: usize = 0;
    let ghost whole = colours_from(format, data@, at as int, count as nat);
    let ghost mut done: Seq<Seq<u8>> = Seq::empty();
    assert(done + whole->Ok_0.0 =~= whole->Ok_0.0);
    assert(out@ =~= old(out)@ + concat(done));
    while k < count
        invariant
            k <= count,
            pos <= data@.len(),
            layout.is_of(format),
            whole == colours_from(format, data@, at as int, count as nat),
            out@ == old(out)@ + concat(done),
            match colours_from(format, data@, pos as int, (count - k) as nat) {
                Ok((rest, end)) => whole == Ok::<(Seq<Seq<u8>>, int), Error>((done + rest, end)),
                Err(e) => whole == Err::<(Seq<Seq<u8>>, int), Error>(e),
            },
        decreases count - k,
    {
        if data.len() - pos < layout.cpixel {
            return Err(Error::Io(IoError::UnexpectedEof));
        }
        read_cpixel(layout, Ghost(format), data, pos, out);
        proof {
            let pixel = cpixel_at(format, data@, pos as int);
            lemma_concat_push(done, pixel);
            let next = colours_from(
                format,
                data@,
                pos + layout.cpixel,
                (count - k - 1) as nat,
            );
            if next is Ok {
                assert(done + (seq![pixel] + next->Ok_0.0) =~= done.push(pixel) + next->Ok_0.0);
            }
            assert(out@ =~= old(out)@ + (concat(done) + pixel));
            done = done.push(pixel);
        }
        pos = pos + layout.cpixel;
        k = k + 1;
    }
    assert(done + Seq::<Seq<u8>>::empty() =~= done);
    Ok(pos)
}

/// Appends `pixel` to `out`, `n` times.
fn push_run(out: &mut Vec<u8>, pixel: &Vec<u8>, n: usize)
    ensures
        final(out)@ == old(out)@ + repeat(pixel@, n as nat),
{
    let mut i: usize = 0;
    assert(out@ =~= old(out)@ + repeat(pixel@, 0));
    while i < n
        invariant
            i <= n,
            out@ == old(out)@ + repeat(pixel@, i as nat),
        decreases n - i,
    {
        put_bytes(out, pixel.as_slice());
        i = i + 1;
        assert(out@ =~= old(out)@ + repeat(pixel@, i as nat));
    }
}

/// The smaller of a run's length and `RUN_CAP`.
pub open spec fn capped(length: nat) -> nat {
    if length < RUN_CAP {
        length
    } else {
        RUN_CAP as nat
    }
}

/// Reads the length of a run, counting no further than `RUN_CAP`.
fn read_run_length(data: &[u8], at: usize) -> (r: Result<(usize, usize), Error>)
    requires
        at <= data@.len(),
    ensures
        match run_length_from(data@, at as int) {
            Ok((length, end)) => (r matches Ok((counted, next)) && counted == capped(length)
                && next == end) && at < end <= data@.len() && length >= 1,
            Err(e) => r matches Err(e2) && e2 == e,
        },
{
    let mut pos = at;
    let mut sum: usize = 0;
    let ghost mut exact: nat = 0;
    let ghost whole = run_length_from(data@, at as int);
    loop
        invariant
            at <= pos <= data@.len(),
            sum == capped(exact),
            whole == run_length_from(data@, at as int),
            match run_length_from(data@, pos as int) {
                Ok((length, end)) => whole == Ok::<(nat, int), Error>((exact + length, end)),
                Err(e) => whole == Err::<(nat, int), Error>(e),
            },
        decreases data@.len() - pos,
    {
        if pos >= data.len() {
            return Err(Error::Io(IoError::UnexpectedEof));
        }
        let part = data[pos];
        if part != 255 {
            let total = if sum + (part as usize) + 1 > RUN_CAP {
                RUN_CAP
            } else {
                sum + (part as usize) + 1
            };
            return Ok((total, pos + 1));
        }
        sum = if sum + 255 > RUN_CAP {
            RUN_CAP
        } else {
            sum + 255
        };
        proof {
            exact = exact + 255;
        }
        pos = pos + 1;
    }
}

/// Appends to `out` the pixels of a tile written as runs of wire pixels.
fn read_plain_rle(
    layout: &Layout,
    Ghost(format): Ghost<PixelFormat>,
    data: &[u8],
    at: usize,
    count: usize,
    out: &mut Vec<u8>,
) -> (r: Result<usize, Error>)
    requires
        layout.is_of(format),
        at <= data@.len(),
        count <= TILE_PIXELS,
    ensures
        match plain_rle_from(format, data@, at as int, count as nat) {
            Ok((pixels, end)) => (r matches Ok(next) && next == end) && end <= data@.len()
                && final(out)@ == old(out)@ + pixels,
            Err(e) => r matches Err(e2) && e2 == e,
        },
{
    let mut pos = at;
    let mut remaining = count;
    let ghost whole = plain_rle_from(format, data@, at as int, count as nat);
    let ghost mut done: Seq<u8> = Seq::empty();
    assert(done + whole->Ok_0.0 =~= whole->Ok_0.0);
    assert(out@ =~= old(out)@ + done);
    while remaining > 0
        invariant
            remaining <= TILE_PIXELS,
            pos <= data@.len(),
            layout.is_of(format),
            whole == plain_rle_from(format, data@, at as int, count as nat),
            out@ == old(out)@ + done,
            match plain_rle_from(format, data@, pos as int, remaining as nat) {
                Ok((rest, end)) => whole == Ok::<(Seq<u8>, int), Error>((done + rest, end)),
                Err(e) => whole == Err::<(Seq<u8>, int), Error>(e),
            },
        decreases remaining,
    {
        if data.len() - pos < layout.cpixel {
            return Err(Error::Io(IoError::UnexpectedEof));
        }
        let mut pixel: Vec<u8> = Vec::new();
        read_cpixel(layout, Ghost(format), data, pos, &mut pixel);
        let (length, next) = read_run_length(data, pos + layout.cpixel)?;
        if length > remaining {
            return Err(Error::Unexpected("zrle run length"));
        }
        push_run(out, &pixel, length);
        proof {
            let tail = plain_rle_from(format, data@, next as int, (remaining - length) as nat);
            let run = repeat(pixel@, length as nat);
            if tail is Ok {
                assert(done + (run + tail->Ok_0.0) =~= (done + run) + tail->Ok_0.0);
            }
            assert(out@ =~= old(out)@ + (done + run));
            done = done + run;
        }
        pos = next;
        remaining = remaining - length;
    }
    assert(done + Seq::<u8>::empty() =~= done);
    Ok(pos)
}

/// Appends to `out` the pixels of a tile written as runs of palette colours.
fn read_palette_rle(palette: &Vec<Vec<u8>>, data: &[u8], at: usize, count: usize, out: &mut Vec<u8>) -> (r:
    Result<usize, Error>)
    requires
        at <= data@.len(),
        count <= TILE_PIXELS,
    ensures
        match palette_rle_from(colours_view(*palette), data@, at as int, count as nat) {
            Ok((pixels, end)) => (r matches Ok(next) && next == end) && end <= data@.len()
                && final(out)@ == old(out)@ + pixels,
            Err(e) => r matches Err(e2) && e2 == e,
        },
{
    let mut pos = at;
    let mut remaining = count;
    let ghost colours = colours_view(*palette);
    let ghost whole = palette_rle_from(colours, data@, at as int, count as nat);
    let ghost mut done: Seq<u8> = Seq::empty();
    assert(done + whole->Ok_0.0 =~= whole->Ok_0.0);
    assert(out@ =~= old(out)@ + done);
    while remaining > 0
        invariant
            remaining <= TILE_PIXELS,
            pos <= data@.len(),
            colours == colours_view(*palette),
            whole == palette_rle_from(colours, data@, at as int, count as nat),
            out@ == old(out)@ + done,
            match palette_rle_from(colours, data@, pos as int, remaining as nat) {
                Ok((rest, end)) => whole == Ok::<(Seq<u8>, int), Error>((done + rest, end)),
                Err(e) => whole == Err::<(Seq<u8>, int), Error>(e),
            },
        decreases remaining,
    {
        if pos >= data.len() {
            return Err(Error::Io(IoError::UnexpectedEof));
        }
        let first = data[pos];
        let index = (first % 128) as usize;
        let (length, next) = if first >= 128 {
            read_run_length(data, pos + 1)?
        } else {
            (1usize, pos + 1)
        };
        if index >= palette.len() {
            return Err(Error::Unexpected("zrle palette index"));
        }
        if length > remaining {
            return Err(Error::Unexpected("zrle run length"));
        }
        push_run(out, &palette[index], length);
        proof {
            let tail = palette_rle_from(colours, data@, next as int, (remaining - length) as nat);
            let run = repeat(colours[index as int], length as nat);
            if tail is Ok {
                assert(done + (run + tail->Ok_0.0) =~= (done + run) + tail->Ok_0.0);
            }
            assert(out@ =~= old(out)@ + (done + run));
            done = done + run;
        }
        pos = next;
        remaining = remaining - length;
    }
    assert(done + Seq::<u8>::empty() =~= done);
    Ok(pos)
}

/// An error in the first pixels of a packed row is the error of the whole row.
pub proof fn lemma_packed_row_error(
    palette: Seq<Seq<u8>>,
    data: Seq<u8>,
    at: int,
    bad: nat,
    count: nat,
    bits: nat,
)
    requires
        bad <= count,
        packed_row(palette, data, at, bad, bits) is Err,
    ensures
        packed_row(palette, data, at, count, bits) == packed_row(palette, data, at, bad, bits),
    decreases count,
{
    if bad < count {
        lemma_packed_row_error(palette, data, at, bad, (count - 1) as nat, bits);
    }
}

/// The palette index of the pixel `x` of the packed row that starts at `at`.
fn read_packed_index(data: &[u8], at: usize, x: usize, width: usize, bits: usize) -> (index: u8)
    requires
        x < width <= 64,
        bits == 1 || bits == 2 || bits == 4,
        at + row_bytes(width as nat, bits as nat) <= data@.len(),
    ensures
        index == packed_index(data@, at as int, x as nat, bits as nat),
{
    let mask: u8 = if bits == 1 {
        0x01
    } else if bits == 2 {
        0x03
    } else {
        0x0f
    };
    let bit: usize = if bits == 1 {
        x
    } else if bits == 2 {
        2 * x
    } else {
        4 * x
    };
    assert(bit == x * bits && width * bits >= bit + bits) by (nonlinear_arith)
        requires
            bits == 1 || bits == 2 || bits == 4,
            x < width,
            bit == (if bits == 1 {
                x as int
            } else if bits == 2 {
                2 * x
            } else {
                4 * x
            }),
    ;
    assert(data@.len() == data.len());
    let byte = data[at + bit / 8];
    let shift: usize = 8 - bits - bit % 8;
    (byte >> (shift as u8)) & mask
}

/// Appends to `out` the pixels of one row of packed palette indices.
fn read_packed_row(
    palette: &Vec<Vec<u8>>,
    data: &[u8],
    at: usize,
    width: usize,
    bits: usize,
    out: &mut Vec<u8>,
) -> (r: Result<(), Error>)
    requires
        width <= 64,
        bits == 1 || bits == 2 || bits == 4,
        at + row_bytes(width as nat, bits as nat) <= data@.len(),
    ensures
        match packed_row(colours_view(*palette), data@, at as int, width as nat, bits as nat) {
            Ok(row) => r is Ok && final(out)@ == old(out)@ + row,
            Err(e) => r matches Err(e2) && e2 == e,
        },
{
    let ghost colours = colours_view(*palette);
    let ghost mut done: Seq<u8> = Seq::empty();
    let mut x: usize = 0;
    assert(out@ =~= old(out)@ + done);
    while x < width
        invariant
            x <= width <= 64,
            bits == 1 || bits == 2 || bits == 4,
            at + row_bytes(width as nat, bits as nat) <= data@.len(),
            colours == colours_view(*palette),
            packed_row(colours, data@, at as int, x as nat, bits as nat) == Ok::<Seq<u8>, Error>(
                done,
            ),
            out@ == old(out)@ + done,
        decreases width - x,
    {
        let index = read_packed_index(data, at, x, width, bits);
        if index as usize >= palette.len() {
            proof {
                lemma_packed_row_error(
                    colours,
                    data@,
                    at as int,
                    (x + 1) as nat,
                    width as nat,
                    bits as nat,
                );
            }
            return Err(Error::Unexpected("zrle palette index"));
        }
        put_bytes(out, palette[index as usize].as_slice());
        proof {
            assert(out@ =~= old(out)@ + (done + colours[index as int]));
            done = done + colours[index as int];
        }
        x = x + 1;
    }
    Ok(())
}

/// Appends to `out` the pixels of a tile written as packed palette indices.
fn read_packed(
    palette: &Vec<Vec<u8>>,
    data: &[u8],
    at: usize,
    width: usize,
    height: usize,
    bits: usize,
    out: &mut Vec<u8>,
) -> (r: Result<usize, Error>)
    requires
        at <= data@.len(),
        width <= 64,
        height <= 64,
        bits == 1 || bits == 2 || bits == 4,
    ensures
        match packed_rows_from(
            colours_view(*palette),
            data@,
            at as int,
            width as nat,
            height as nat,
            bits as nat,
        ) {
            Ok((pixels, end)) => (r matches Ok(next) && next == end) && end <= data@.len()
                && final(out)@ == old(out)@ + pixels,
            Err(e) => r matches Err(e2) && e2 == e,
        },
{
    assert(width * bits <= 256) by (nonlinear_arith)
        requires
            width <= 64,
            bits <= 4,
    ;
    let stride: usize = (width * bits + 7) / 8;
    let ghost colours = colours_view(*palette);
    let ghost whole = packed_rows_from(
        colours,
        data@,
        at as int,
        width as nat,
        height as nat,
        bits as nat,
    );
    let ghost mut done: Seq<u8> = Seq::empty();
    let mut pos = at;
    let mut rows = height;
    assert(done + whole->Ok_0.0 =~= whole->Ok_0.0);
    assert(out@ =~= old(out)@ + done);
    while rows > 0
        invariant
            pos <= data@.len(),
            width <= 64,
            bits == 1 || bits == 2 || bits == 4,
            stride == row_bytes(width as nat, bits as nat),
            colours == colours_view(*palette),
            whole == packed_rows_from(
                colours,
                data@,
                at as int,
                width as nat,
                height as nat,
                bits as nat,
            ),
            out@ == old(out)@ + done,
            match packed_rows_from(
                colours,
                data@,
                pos as int,
                width as nat,
                rows as nat,
                bits as nat,
            ) {
                Ok((rest, end)) => whole == Ok::<(Seq<u8>, int), Error>((done + rest, end)),
                Err(e) => whole == Err::<(Seq<u8>, int), Error>(e),
            },
        decreases rows,
    {
        if data.len() - pos < stride {
            return Err(Error::Io(IoError::UnexpectedEof));
        }
        read_packed_row(palette, data, pos, width, bits, out)?;
        proof {
            let row = packed_row(colours, data@, pos as int, width as nat, bits as nat)->Ok_0;
            let tail = packed_rows_from(
                colours,
                data@,
                pos + stride,
                width as nat,
                (rows - 1) as nat,
                bits as nat,
            );
            if tail is Ok {
                assert(done + (row + tail->Ok_0.0) =~= (done + row) + tail->Ok_0.0);
            }
            assert(out@ =~= old(out)@ + (done + row));
            done = done + row;
        }
        pos = pos + stride;
        rows = rows - 1;
    }
    assert(done + Seq::<u8>::empty() =~= done);
    Ok(pos)
}

/// Decodes the tile of `width` by `height` pixels whose bytes start at `at`.
fn decode_tile_at(
    layout: &Layout,
    Ghost(format): Ghost<PixelFormat>,
    data: &[u8],
    at: usize,
    width: usize,
    height: usize,
) -> (r: Result<(Vec<u8>, usize), Error>)
    requires
        layout.is_of(format),
        at <= data@.len(),
        width <= 64,
        height <= 64,
    ensures
        match decode_tile(format, data@, at as int, width as nat, height as nat) {
            Ok((pixels, end)) => r matches Ok((v, next)) && v@ == pixels && next == end && next
                <= data@.len(),
            Err(e) => r matches Err(e2) && e2 == e,
        },
{
    if at >= data.len() {
        return Err(Error::Io(IoError::UnexpectedEof));
    }
    let subencoding = data[at];
    let rle = subencoding >= 128;
    let palette_size = (subencoding % 128) as usize;
    let (palette, body) = read_colours(layout, Ghost(format), data, at + 1, palette_size)?;
    assert(width * height <= 4096) by (nonlinear_arith)
        requires
            width <= 64,
            height <= 64,
    ;
    let count = width * height;
    let mut pixels: Vec<u8> = Vec::new();
    if !rle && palette_size == 0 {
        let end = read_raw(layout, Ghost(format), data, body, count, &mut pixels)?;
        Ok((pixels, end))
    } else if !rle && palette_size == 1 {
        push_run(&mut pixels, &palette[0], count);
        Ok((pixels, body))
    } else if !rle && palette_size <= 16 {
        let bits: usize = if palette_size <= 2 {
            1
        } else if palette_size <= 4 {
            2
        } else {
            4
        };
        let end = read_packed(&palette, data, body, width, height, bits, &mut pixels)?;
        Ok((pixels, end))
    } else if !rle {
        Err(Error::Unexpected("zrle subencoding"))
    } else if palette_size == 0 {
        let end = read_plain_rle(layout, Ghost(format), data, body, count, &mut pixels)?;
        Ok((pixels, end))
    } else {
        let end = read_palette_rle(&palette, data, body, count, &mut pixels)?;
        Ok((pixels, end))
    }
}

/// The number of tiles side by side that cover the width of `rect`.
pub open spec fn tile_columns(rect: Rect) -> nat {
    ((rect.width + 63) / 64) as nat
}

/// The number of tiles one below the other that cover the height of `rect`.
pub open spec fn tile_rows(rect: Rect) -> nat {
    ((rect.height + 63) / 64) as nat
}

/// The side of the tile `index` along an extent of `extent` pixels: 64, or what is left.
pub open spec fn tile_extent(extent: u16, index: nat) -> nat {
    if extent - 64 * index >= 64 {
        64
    } else {
        (extent - 64 * index) as nat
    }
}

/// The tile in column `column` and row `row` of the grid of tiles of `rect`.
pub open spec fn tile_rect(rect: Rect, column: nat, row: nat) -> Rect {
    Rect {
        left: (rect.left + 64 * column) as u16,
        top: (rect.top + 64 * row) as u16,
        width: tile_extent(rect.width, column) as u16,
        height: tile_extent(rect.height, row) as u16,
    }
}

/// The tiles from the one in (`column`, `row`) on, row by row and in each row
/// from left to right, read from `at` on; and where the bytes of the last end.
pub open spec fn tiles_from(
    format: PixelFormat,
    rect: Rect,
    data: Seq<u8>,
    at: int,
    column: nat,
    row: nat,
) -> Result<(Seq<(Rect, Seq<u8>)>, int), Error>
    decreases tile_rows(rect) - row, tile_columns(rect) - column,
{
    if row >= tile_rows(rect) {
        Ok((Seq::empty(), at))
    } else if column >= tile_columns(rect) {
        tiles_from(format, rect, data, at, 0, row + 1)
    } else {
        let tile = tile_rect(rect, column, row);
        match decode_tile(format, data, at, tile.width as nat, tile.height as nat) {
            Err(e) => Err(e),
            Ok((pixels, next)) => match tiles_from(format, rect, data, next, column + 1, row) {
                Ok((rest, end)) => Ok((seq![(tile, pixels)] + rest, end)),
                Err(e) => Err(e),
            },
        }
    }
}

/// The tiles of the grid that is laid over `rect`, row by row and in each
/// row from left to right.
pub open spec fn tile_grid(rect: Rect) -> Seq<Rect> {
    Seq::new(
        tile_columns(rect) * tile_rows(rect),
        |i: int|
            tile_rect(
                rect,
                (i % (tile_columns(rect) as int)) as nat,
                (i / (tile_columns(rect) as int)) as nat,
            ),
    )
}

/// The place in the grid of the tile in column `column` and row `row`.
pub open spec fn grid_index(rect: Rect, column: int, row: int) -> int {
    row * tile_columns(rect) + column
}

/// Whether a rectangle lies within the coordinates that sixteen bits can name.
pub open spec fn in_range(rect: Rect) -> bool {
    rect.left + rect.width <= 0x1_0000 && rect.top + rect.height <= 0x1_0000
}

/// The tiles that the decompressed bytes `data` hold for the rectangle
/// `rect`. The data must hold all the tiles and nothing after them.
pub open spec fn decoded_tiles(format: PixelFormat, rect: Rect, data: Seq<u8>) -> Result<
    Seq<(Rect, Seq<u8>)>,
    Error,
> {
    if !in_range(rect) {
        Err(Error::Unexpected("zrle rectangle"))
    } else {
        match tiles_from(format, rect, data, 0, 0, 0) {
            Err(e) => Err(e),
            Ok((tiles, end)) => if end == data.len() {
                Ok(tiles)
            } else {
                Err(Error::Unexpected("leftover ZRLE byte data"))
            },
        }
    }
}

/// The tiles of a vector, as a list of models.
pub open spec fn tiles_view(tiles: Vec<Tile>) -> Seq<(Rect, Seq<u8>)> {
    Seq::new(tiles@.len(), |i: int| tiles@[i]@)
}

/// Cuts the decompressed payload of a ZRLE rectangle into its tiles.
pub fn decode_tiles(format: &PixelFormat, rect: Rect, data: &[u8]) -> (r: Result<Vec<Tile>, Error>)
    ensures
        match decoded_tiles(*format, rect, data@) {
            Ok(tiles) => r matches Ok(v) && tiles_view(v) == tiles,
            Err(e) => r matches Err(e2) && e2 == e,
        },
{
    if rect.left as u32 + rect.width as u32 > 0x1_0000 || rect.top as u32 + rect.height as u32
        > 0x1_0000 {
        return Err(Error::Unexpected("zrle rectangle"));
    }
    let layout = Layout::of(format);
    let columns: u32 = (rect.width as u32 + 63) / 64;
    let rows: u32 = (rect.height as u32 + 63) / 64;
    let mut tiles: Vec<Tile> = Vec::new();
    let mut pos: usize = 0;
    let mut column: u32 = 0;
    let mut row: u32 = 0;
    let ghost whole = tiles_from(*format, rect, data@, 0, 0, 0);
    assert(tiles_view(tiles) =~= Seq::<(Rect, Seq<u8>)>::empty());
    assert(tiles_view(tiles) + whole->Ok_0.0 =~= whole->Ok_0.0);
    while row < rows
        invariant
            in_range(rect),
            layout.is_of(*format),
            columns == tile_columns(rect),
            rows == tile_rows(rect),
            column <= columns,
            row <= rows,
            pos <= data@.len(),
            whole == tiles_from(*format, rect, data@, 0, 0, 0),
            match tiles_from(*format, rect, data@, pos as int, column as nat, row as nat) {
                Ok((rest, end)) => whole == Ok::<(Seq<(Rect, Seq<u8>)>, int), Error>(
                    (tiles_view(tiles) + rest, end),
                ),
                Err(e) => whole == Err::<(Seq<(Rect, Seq<u8>)>, int), Error>(e),
            },
        decreases rows - row, columns - column,
    {
        if column >= columns {
            column = 0;
            row = row + 1;
        } else {
            let area = tile_area(rect, column, row);
            let (pixels, next) = decode_tile_at(
                &layout,
                Ghost(*format),
                data,
                pos,
                area.width as usize,
                area.height as usize,
            )?;
            let ghost before = tiles_view(tiles);
            let ghost model = (area, pixels@);
            tiles.push(Tile { rect: area, pixels });
            proof {
                assert(tiles_view(tiles) =~= before.push(model));
                let tail = tiles_from(
                    *format,
                    rect,
                    data@,
                    next as int,
                    (column + 1) as nat,
                    row as nat,
                );
                if tail is Ok {
                    assert(before + (seq![model] + tail->Ok_0.0) =~= before.push(model)
                        + tail->Ok_0.0);
                }
            }
            pos = next;
            column = column + 1;
        }
    }
    assert(tiles_view(tiles) + Seq::<(Rect, Seq<u8>)>::empty() =~= tiles_view(tiles));
    if pos != data.len() {
        return Err(Error::Unexpected("leftover ZRLE byte data"));
    }
    Ok(tiles)
}

/// The zlib decompressor of the `flate2` crate. What it holds cannot be seen from here.
#[verifier::external_type_specification]
#[verifier::external_body]
pub struct ExDecompress(Decompress);

/// The error with which the decompressor refuses a corrupt stream.
#[verifier::external_type_specification]
#[verifier::external_body]
pub struct ExDecompressError(DecompressError);

/// The number of compressed bytes that a decompressor has taken in since it
/// was made: what its `total_in` reports.
pub uninterp spec fn bytes_in(decompressor: Decompress) -> nat;

/// The number of bytes that a decompressor has given out since it was made:
/// what its `total_out` reports.
pub uninterp spec fn bytes_out(decompressor: Decompress) -> nat;

/// What the decompressor is told of the input that it is given: the modes
/// of `flate2::FlushDecompress`.
#[derive(Debug, Clone, Copy, PartialEq, Eq, Structural)]
pub enum Flush {
    /// More input may follow; the decompressor writes what it has.
    Unforced,
    /// As `Unforced` for a decompressor.
    Sync,
    /// The stream is to end with this input.
    Finish,
}

/// What a call of the decompressor achieved.
#[derive(Debug, Clone, Copy, PartialEq, Eq, Structural)]
pub enum InflateStatus {
    /// It went on; more input or more room may let it go further.
    Progress,
    /// It could not go on: the input is used up, or the output is full.
    Stalled,
    /// The compressed stream has ended.
    StreamEnd,
}

/// `flate2::Decompress::new`: a decompressor with both of its counters at
/// zero, for a stream with a zlib header or for a bare one, as
/// `zlib_header` says.
#[verifier::external_body]
fn new_decompress(zlib_header: bool) -> (decompressor: Decompress)
    ensures
        bytes_in(decompressor) == 0,
        bytes_out(decompressor) == 0,
{
    Decompress::new(zlib_header)
}

/// `flate2::Decompress::total_in`: the counter of the bytes taken in.
#[verifier::external_body]
fn total_in(decompressor: &Decompress) -> (n: u64)
    ensures
        n == bytes_in(*decompressor),
{
    decompressor.total_in()
}

/// `flate2::Decompress::total_out`: the counter of the bytes given out.
#[verifier::external_body]
fn total_out(decompressor: &Decompress) -> (n: u64)
    ensures
        n == bytes_out(*decompressor),
{
    decompressor.total_out()
}

/// `flate2::Decompress::decompress`: it takes bytes from the front of
/// `input` and writes bytes to the front of `output`, whose length stays as
/// it is. Each counter grows by what was taken or written, so by no more
/// than the length of the slice, whatever the flush mode. The requirement
/// keeps the counters, which are of 64 bits, from running over.
#[verifier::external_body]
fn decompress(decompressor: &mut Decompress, input: &[u8], output: &mut Vec<u8>, flush: Flush) -> (r:
    Result<InflateStatus, DecompressError>)
    requires
        bytes_in(*old(decompressor)) + input@.len() <= u64::MAX,
        bytes_out(*old(decompressor)) + old(output)@.len() <= u64::MAX,
    ensures
        final(output)@.len() == old(output)@.len(),
        bytes_in(*old(decompressor)) <= bytes_in(*final(decompressor)) <= bytes_in(
            *old(decompressor),
        ) + input@.len(),
        bytes_out(*old(decompressor)) <= bytes_out(*final(decompressor)) <= bytes_out(
            *old(decompressor),
        ) + old(output)@.len(),
{
    let mode = match flush {
        Flush::Unforced => FlushDecompress::None,
        Flush::Sync => FlushDecompress::Sync,
        Flush::Finish => FlushDecompress::Finish,
    };
    match decompressor.decompress(input, output.as_mut_slice(), mode) {
        Ok(Status::Ok) => Ok(InflateStatus::Progress),
        Ok(Status::BufError) => Ok(InflateStatus::Stalled),
        Ok(Status::StreamEnd) => Ok(InflateStatus::StreamEnd),
        Err(e) => Err(e),
    }
}

/// A vector of `n` zero bytes.
fn zeroed(n: usize) -> (v: Vec<u8>)
    ensures
        v@.len() == n,
{
    let mut v: Vec<u8> = Vec::new();
    let mut i: usize = 0;
    while i < n
        invariant
            i <= n,
            v@.len() == i,
        decreases n - i,
    {
        v.push(0u8);
        i = i + 1;
    }
    v
}

/// The most bytes that the decompressor is asked for in one call.
pub const INFLATE_CHUNK: usize = 0x1_0000;

/// A number of bytes that no tile exceeds on the wire: its first byte, a
/// palette of 127 colours, and for each of its 4096 pixels the bytes of a
/// pixel and one byte of run length.
pub const MAX_TILE_BYTES: usize = 135168;

/// A number of bytes that the decompressed payload of no rectangle exceeds.
pub open spec fn payload_bound(rect: Rect) -> nat {
    tile_columns(rect) * tile_rows(rect) * (MAX_TILE_BYTES as nat)
}

/// What the decoder does next with a payload that it decompresses.
#[derive(Debug)]
pub enum InflateStep {
    /// The decompressor is called, for the first time or once more.
    GoOn,
    /// The payload is decompressed: what came out so far is the result.
    Done,
    /// The decoding fails with this error.
    Fail(Error),
}

/// What is done before the decompressor is called, where it has taken
/// `taken_in` bytes and given `given_out` so far, `left` bytes are to be
/// decompressed and no more than `limit` may come out.
///
/// With a limit of zero the decompressor is not called: no input is done,
/// any input is left over. Else both counters of the decompressor, which
/// count up to `u64::MAX`, must have room for the whole of the input and for
/// as many bytes as the limit allows.
pub open spec fn first_step(taken_in: nat, given_out: nat, left: nat, limit: nat) -> InflateStep {
    if limit == 0 {
        if left == 0 {
            InflateStep::Done
        } else {
            InflateStep::Fail(Error::Unexpected("leftover ZRLE byte data"))
        }
    } else if taken_in + left > u64::MAX || given_out + limit > u64::MAX {
        InflateStep::Fail(Error::Io(IoError::InvalidData))
    } else {
        InflateStep::GoOn
    }
}

/// What is done after a call of the decompressor. `outcome` is what it
/// reported, `None` where it refused the stream; it took `taken` bytes and
/// gave `given`; after that `left` bytes of input remain, and `room` more
/// bytes may come out.
///
/// A stream that is refused, and one that ends, fails: the stream of a
/// session has no end. Where the decompressor neither took nor gave
/// anything, or no more may come out, the payload is done if no input
/// remains, and what remains is left over. Else the decompressor is called
/// once more.
pub open spec fn next_step(
    outcome: Option<InflateStatus>,
    taken: nat,
    given: nat,
    left: nat,
    room: nat,
) -> InflateStep {
    match outcome {
        None => InflateStep::Fail(Error::Io(IoError::InvalidData)),
        Some(InflateStatus::StreamEnd) => InflateStep::Fail(Error::Io(IoError::InvalidData)),
        Some(_) => if (taken == 0 && given == 0) || room == 0 {
            if left == 0 {
                InflateStep::Done
            } else {
                InflateStep::Fail(Error::Unexpected("leftover ZRLE byte data"))
            }
        } else {
            InflateStep::GoOn
        },
    }
}

/// Decides what is done before the decompressor is called.
pub fn plan_first_step(taken_in: u64, given_out: u64, left: usize, limit: usize) -> (step:
    InflateStep)
    ensures
        step == first_step(taken_in as nat, given_out as nat, left as nat, limit as nat),
{
    if limit == 0 {
        if left == 0 {
            InflateStep::Done
        } else {
            InflateStep::Fail(Error::Unexpected("leftover ZRLE byte data"))
        }
    } else if taken_in > u64::MAX - left as u64 || given_out > u64::MAX - limit as u64 {
        InflateStep::Fail(Error::Io(IoError::InvalidData))
    } else {
        InflateStep::GoOn
    }
}

/// Decides what is done after a call of the decompressor.
pub fn plan_next_step(
    outcome: Option<InflateStatus>,
    taken: usize,
    given: usize,
    left: usize,
    room: usize,
) -> (step: InflateStep)
    ensures
        step == next_step(outcome, taken as nat, given as nat, left as nat, room as nat),
{
    match outcome {
        None => InflateStep::Fail(Error::Io(IoError::InvalidData)),
        Some(InflateStatus::StreamEnd) => InflateStep::Fail(Error::Io(IoError::InvalidData)),
        Some(_) => if (taken == 0 && given == 0) || room == 0 {
            if left == 0 {
                InflateStep::Done
            } else {
                InflateStep::Fail(Error::Unexpected("leftover ZRLE byte data"))
            }
        } else {
            InflateStep::GoOn
        },
    }
}

/// The decoder of a session. Its decompressor carries its dictionary from
/// one rectangle to the next.
pub struct Decoder {
    decompressor: Decompress,
}

impl Decoder {
    /// The number of compressed bytes that the decoder has taken in so far.
    pub closed spec fn taken_in(&self) -> nat {
        bytes_in(self.decompressor)
    }

    /// The number of bytes that the decoder has decompressed so far.
    pub closed spec fn given_out(&self) -> nat {
        bytes_out(self.decompressor)
    }

    /// A decoder for a new session. The payloads of a session are one
    /// stream with a zlib header, which never ends: the decompressor is
    /// never told that its input is the last.
    pub fn new() -> (decoder: Decoder)
        ensures
            decoder.taken_in() == 0,
            decoder.given_out() == 0,
    {
        Decoder { decompressor: new_decompress(true) }
    }

    /// Decompresses the whole of `input`, giving up when more than `limit`
    /// bytes come out of it.
    ///
    /// What is done before the decompressor is called, `first_step` says:
    /// with a limit of zero nothing is decompressed, and where a counter of
    /// the decompressor could run over, the call fails; either way the
    /// decoder stays as it was. After each call `next_step` decides.
    ///
    /// The bytes that come out are those that the decompressor hands over:
    /// nothing is proved of what they hold. Where the call succeeds, the
    /// decompressor has taken all of `input` and given as many bytes as come
    /// back. A corrupt stream, and one that ends, is `Io(InvalidData)`;
    /// input that the decompressor leaves untouched is
    /// `Unexpected("leftover ZRLE byte data")`.
    pub fn inflate(&mut self, input: &[u8], limit: usize) -> (r: Result<Vec<u8>, Error>)
        ensures
            final(self).taken_in() <= old(self).taken_in() + input@.len(),
            final(self).given_out() <= old(self).given_out() + limit,
            r matches Ok(data) ==> {
                &&& data@.len() <= limit
                &&& final(self).taken_in() == old(self).taken_in() + input@.len()
                &&& final(self).given_out() == old(self).given_out() + data@.len()
            },
            r matches Err(e) ==> e == Error::Io(IoError::InvalidData) || e == Error::Unexpected(
                "leftover ZRLE byte data",
            ),
            r matches Err(Error::Unexpected(_)) ==> final(self).taken_in() < old(self).taken_in()
                + input@.len(),
            match first_step(old(self).taken_in(), old(self).given_out(), input@.len(), limit as nat) {
                InflateStep::Done => (r matches Ok(data) && data@.len() == 0) && *final(self)
                    == *old(self),
                InflateStep::Fail(e) => r == Err::<Vec<u8>, Error>(e) && *final(self) == *old(
                    self,
                ),
                InflateStep::GoOn => true,
            },
    {
        let mut out: Vec<u8> = Vec::new();
        let mut pos: usize = 0;
        assert(input@.len() == input.len());
        match plan_first_step(
            total_in(&self.decompressor),
            total_out(&self.decompressor),
            input.len(),
            limit,
        ) {
            InflateStep::Done => {
                return Ok(out);
            },
            InflateStep::Fail(e) => {
                return Err(e);
            },
            InflateStep::GoOn => {},
        }
        loop
            invariant
                pos <= input@.len(),
                out@.len() < limit,
                input@.len() <= usize::MAX,
                old(self).taken_in() + input@.len() <= u64::MAX,
                old(self).given_out() + limit <= u64::MAX,
                self.taken_in() == old(self).taken_in() + pos,
                self.given_out() == old(self).given_out() + out@.len(),
            decreases (input@.len() - pos) + (limit - out@.len()),
        {
            let room = if limit - out.len() > INFLATE_CHUNK {
                INFLATE_CHUNK
            } else {
                limit - out.len()
            };
            let in_before = total_in(&self.decompressor);
            let out_before = total_out(&self.decompressor);
            let mut buffer = zeroed(room);
            let outcome = match decompress(
                &mut self.decompressor,
                vstd::slice::slice_subrange(input, pos, input.len()),
                &mut buffer,
                Flush::Unforced,
            ) {
                Ok(status) => Some(status),
                Err(_) => None,
            };
            let consumed = (total_in(&self.decompressor) - in_before) as usize;
            let produced = (total_out(&self.decompressor) - out_before) as usize;
            put_bytes(&mut out, vstd::slice::slice_subrange(buffer.as_slice(), 0, produced));
            pos = pos + consumed;
            match plan_next_step(
                outcome,
                consumed,
                produced,
                input.len() - pos,
                limit - out.len(),
            ) {
                InflateStep::Done => {
                    return Ok(out);
                },
                InflateStep::Fail(e) => {
                    return Err(e);
                },
                InflateStep::GoOn => {},
            }
        }
    }

    /// Decodes the payload of one ZRLE rectangle into its tiles, in the
    /// order in which they are to be delivered.
    ///
    /// The decompressor is given the whole of `input`, and is asked for no
    /// more than `payload_bound` says and one byte. Where its counters
    /// could run over, the call fails before it is called, as `first_step`
    /// says. Where it fails, or leaves input untouched, so does the call,
    /// as `inflate` says. Else it
    /// took all of `input` and gave some bytes `data`, and what comes back
    /// is what `decoded_tiles` makes of `data`: its tiles, or its error.
    /// Whatever those bytes are, the tiles lie on the grid of the rectangle
    /// and each has the bytes of all of its pixels.
    pub fn decode_all(&mut self, format: PixelFormat, rect: Rect, input: &[u8]) -> (r: Result<
        Vec<Tile>,
        Error,
    >)
        ensures
            final(self).taken_in() <= old(self).taken_in() + input@.len(),
            final(self).given_out() <= old(self).given_out() + payload_bound(rect) + 1,
            first_step(
                old(self).taken_in(),
                old(self).given_out(),
                input@.len(),
                limit_for(rect),
            ) matches InflateStep::Fail(e) ==> r matches Err(e2) && e2 == e && *final(self) == *old(
                self,
            ),
            (r matches Err(e) && inflate_failed(*old(self), *final(self), input@, e))
                || exists|data: Seq<u8>|
                took_whole(*old(self), *final(self), input@, data) && decoded_as(
                    format,
                    rect,
                    data,
                    r,
                ),
            r matches Ok(tiles) ==> tiles@.len() == tile_grid(rect).len(),
            r matches Ok(tiles) ==> forall|i: int|
                0 <= i < tiles@.len() ==> (#[trigger] tiles@[i]).rect == tile_grid(rect)[i],
            r matches Ok(tiles) ==> forall|i: int|
                0 <= i < tiles@.len() ==> sizes::is_full(format, (#[trigger] tiles@[i])@),
    {
        let data = match self.inflate(input, payload_limit(rect)) {
            Ok(data) => data,
            Err(e) => {
                return Err(e);
            },
        };
        let r = decode_tiles(&format, rect, data.as_slice());
        proof {
            assert(took_whole(*old(self), *self, input@, data@));
            assert(decoded_as(format, rect, data@, r));
            if r is Ok {
                let tiles = r->Ok_0;
                laws::lemma_tiles_lie_on_grid(format, rect, data@);
                sizes::lemma_tiles_are_full(format, rect, data@);
                assert forall|i: int| 0 <= i < tiles@.len() implies (#[trigger] tiles@[i]).rect
                    == tile_grid(rect)[i] && sizes::is_full(format, tiles@[i]@) by {
                    assert(tiles_view(tiles)[i] == tiles@[i]@);
                }
            }
        }
        r
    }

    /// Decodes the payload of one ZRLE rectangle and hands each tile to
    /// `sink` as soon as it is decoded, in order, with its place and its
    /// pixels. The sink says whether to go on: where it says no, or fails,
    /// no further tile is decoded. `Ok(true)`: the sink has taken every tile.
    ///
    /// The decompressor is given the whole of `input`, as in `decode_all`.
    /// Where it gave the bytes `data`, the call ends as `decoding_gives`
    /// says of them.
    pub fn decode<F>(&mut self, format: PixelFormat, rect: Rect, input: &[u8], sink: F) -> (r: Result<
        bool,
        Error,
    >) where F: Fn(Rect, Vec<u8>) -> Result<bool, Error>
        requires
            forall|area: Rect, pixels: Vec<u8>| call_requires(sink, (area, pixels)),
        ensures
            final(self).taken_in() <= old(self).taken_in() + input@.len(),
            final(self).given_out() <= old(self).given_out() + payload_bound(rect) + 1,
            first_step(
                old(self).taken_in(),
                old(self).given_out(),
                input@.len(),
                limit_for(rect),
            ) matches InflateStep::Fail(e) ==> r matches Err(e2) && e2 == e && *final(self) == *old(
                self,
            ),
            (r matches Err(e) && inflate_failed(*old(self), *final(self), input@, e))
                || exists|data: Seq<u8>|
                took_whole(*old(self), *final(self), input@, data) && decoding_gives(
                    sink,
                    format,
                    rect,
                    data,
                    r,
                ),
    {
        let data = match self.inflate(input, payload_limit(rect)) {
            Ok(data) => data,
            Err(e) => {
                return Err(e);
            },
        };
        let r = hand_over(&format, rect, data.as_slice(), sink);
        assert(took_whole(*old(self), *self, input@, data@));
        r
    }
}

/// The most bytes that the decompressor is asked for a rectangle: one more
/// than its payload may hold, as far as the machine can count.
pub open spec fn limit_for(rect: Rect) -> nat {
    if payload_bound(rect) >= usize::MAX {
        usize::MAX as nat
    } else {
        payload_bound(rect) + 1
    }
}

/// Computes the most bytes that the decompressor is asked for a rectangle.
fn payload_limit(rect: Rect) -> (limit: usize)
    ensures
        limit == limit_for(rect),
        1 <= limit <= payload_bound(rect) + 1,
{
    let columns: u64 = (rect.width as u64 + 63) / 64;
    let rows: u64 = (rect.height as u64 + 63) / 64;
    assert(columns * rows <= 1024 * 1024) by (nonlinear_arith)
        requires
            columns <= 1024,
            rows <= 1024,
    ;
    let places: u64 = columns * rows;
    assert(places * MAX_TILE_BYTES <= 1024 * 1024 * MAX_TILE_BYTES) by (nonlinear_arith)
        requires
            places <= 1024 * 1024,
    ;
    let bound: u64 = places * (MAX_TILE_BYTES as u64);
    assert(bound == payload_bound(rect));
    if bound >= usize::MAX as u64 {
        usize::MAX
    } else {
        bound as usize + 1
    }
}

/// The tile in column `column` and row `row` of the grid of `rect`.
fn tile_area(rect: Rect, column: u32, row: u32) -> (area: Rect)
    requires
        in_range(rect),
        column < tile_columns(rect),
        row < tile_rows(rect),
    ensures
        area == tile_rect(rect, column as nat, row as nat),
        1 <= area.width <= 64,
        1 <= area.height <= 64,
{
    let x: u32 = 64 * column;
    let y: u32 = 64 * row;
    let width: u32 = if rect.width as u32 - x >= 64 {
        64
    } else {
        rect.width as u32 - x
    };
    let height: u32 = if rect.height as u32 - y >= 64 {
        64
    } else {
        rect.height as u32 - y
    };
    Rect {
        left: (rect.left as u32 + x) as u16,
        top: (rect.top as u32 + y) as u16,
        width: width as u16,
        height: height as u16,
    }
}

/// Cuts the decompressed payload of a ZRLE rectangle into its tiles and
/// hands each to `sink` as soon as it is decoded, until the sink says to
/// stop or fails. A tile that does not decode ends the call with its error,
/// after the tiles before it were handed over.
pub fn hand_over<F>(format: &PixelFormat, rect: Rect, data: &[u8], sink: F) -> (r: Result<
    bool,
    Error,
>) where F: Fn(Rect, Vec<u8>) -> Result<bool, Error>
    requires
        forall|area: Rect, pixels: Vec<u8>| call_requires(sink, (area, pixels)),
    ensures
        decoding_gives(sink, *format, rect, data@, r),
{
    if rect.left as u32 + rect.width as u32 > 0x1_0000 || rect.top as u32 + rect.height as u32
        > 0x1_0000 {
        return Err(Error::Unexpected("zrle rectangle"));
    }
    let layout = Layout::of(format);
    let columns: u32 = (rect.width as u32 + 63) / 64;
    let rows: u32 = (rect.height as u32 + 63) / 64;
    let mut pos: usize = 0;
    let mut column: u32 = 0;
    let mut row: u32 = 0;
    while row < rows
        invariant
            in_range(rect),
            layout.is_of(*format),
            columns == tile_columns(rect),
            rows == tile_rows(rect),
            column <= columns,
            row <= rows,
            pos <= data@.len(),
            forall|area: Rect, pixels: Vec<u8>| call_requires(sink, (area, pixels)),
            forall|r: Result<bool, Error>| #[trigger]
                handing_gives(sink, *format, rect, data@, pos as int, column as nat, row as nat, r)
                    ==> handing_gives(sink, *format, rect, data@, 0, 0, 0, r),
        decreases rows - row, columns - column,
    {
        if column >= columns {
            assert forall|r: Result<bool, Error>| #[trigger]
                handing_gives(
                    sink,
                    *format,
                    rect,
                    data@,
                    pos as int,
                    0,
                    (row + 1) as nat,
                    r,
                ) implies handing_gives(sink, *format, rect, data@, 0, 0, 0, r) by {
                assert(handing_gives(
                    sink,
                    *format,
                    rect,
                    data@,
                    pos as int,
                    column as nat,
                    row as nat,
                    r,
                ));
            }
            column = 0;
            row = row + 1;
        } else {
            let area = tile_area(rect, column, row);
            let (pixels, next) = match decode_tile_at(
                &layout,
                Ghost(*format),
                data,
                pos,
                area.width as usize,
                area.height as usize,
            ) {
                Ok(decoded) => decoded,
                Err(e) => {
                    let r: Result<bool, Error> = Err(e);
                    assert(handing_gives(
                        sink,
                        *format,
                        rect,
                        data@,
                        pos as int,
                        column as nat,
                        row as nat,
                        r,
                    ));
                    return r;
                },
            };
            let ghost tile = (area, pixels@);
            let ghost handed = pixels;
            let answer = sink(area, pixels);
            assert(handed@ == tile.1 && call_ensures(sink, (tile.0, handed), answer));
            match answer {
                Ok(true) => {
                    assert(was_handed(sink, tile, true));
                    assert forall|r: Result<bool, Error>| #[trigger]
                        handing_gives(
                            sink,
                            *format,
                            rect,
                            data@,
                            next as int,
                            (column + 1) as nat,
                            row as nat,
                            r,
                        ) implies handing_gives(sink, *format, rect, data@, 0, 0, 0, r) by {
                        assert(handing_gives(
                            sink,
                            *format,
                            rect,
                            data@,
                            pos as int,
                            column as nat,
                            row as nat,
                            r,
                        ));
                    }
                },
                Ok(false) => {
                    assert(was_handed(sink, tile, false));
                    let r: Result<bool, Error> = Ok(false);
                    assert(handing_gives(
                        sink,
                        *format,
                        rect,
                        data@,
                        pos as int,
                        column as nat,
                        row as nat,
                        r,
                    ));
                    return r;
                },
                Err(e) => {
                    assert(sink_failed(sink, tile, e));
                    let r: Result<bool, Error> = Err(e);
                    assert(handing_gives(
                        sink,
                        *format,
                        rect,
                        data@,
                        pos as int,
                        column as nat,
                        row as nat,
                        r,
                    ));
                    return r;
                },
            }
            pos = next;
            column = column + 1;
        }
    }
    let r: Result<bool, Error> = if pos != data.len() {
        Err(Error::Unexpected("leftover ZRLE byte data"))
    } else {
        Ok(true)
    };
    assert(handing_gives(sink, *format, rect, data@, pos as int, column as nat, row as nat, r));
    r
}

/// Whether `error` is one with which `Decoder::inflate` fails.
pub open spec fn is_inflate_failure(error: Error) -> bool {
    error == Error::Io(IoError::InvalidData) || error == Error::Unexpected(
        "leftover ZRLE byte data",
    )
}

/// Whether `error` is one with which `Decoder::inflate` fails on `input`,
/// with the decoder going from `before` to `after`: input is left over only
/// where the decompressor has not taken all of it.
pub open spec fn inflate_failed(before: Decoder, after: Decoder, input: Seq<u8>, error: Error) -> bool {
    ||| error == Error::Io(IoError::InvalidData)
    ||| error == Error::Unexpected("leftover ZRLE byte data") && after.taken_in()
        < before.taken_in() + input.len()
}

/// Whether the decoder, from `before` to `after`, took all of `input` and
/// gave as many bytes as `data` holds.
pub open spec fn took_whole(before: Decoder, after: Decoder, input: Seq<u8>, data: Seq<u8>) -> bool {
    &&& after.taken_in() == before.taken_in() + input.len()
    &&& after.given_out() == before.given_out() + data.len()
}

/// Whether `outcome` is what `decoded_tiles` makes of `data`: its tiles, or
/// its error.
pub open spec fn decoded_as(
    format: PixelFormat,
    rect: Rect,
    data: Seq<u8>,
    outcome: Result<Vec<Tile>, Error>,
) -> bool {
    match outcome {
        Ok(tiles) => decoded_tiles(format, rect, data) == Ok::<Seq<(Rect, Seq<u8>)>, Error>(
            tiles_view(tiles),
        ),
        Err(e) => decoded_tiles(format, rect, data) == Err::<Seq<(Rect, Seq<u8>)>, Error>(e),
    }
}

/// Whether `sink` was handed the tile `tile` and said `answer`.
pub open spec fn was_handed<F: Fn(Rect, Vec<u8>) -> Result<bool, Error>>(
    sink: F,
    tile: (Rect, Seq<u8>),
    answer: bool,
) -> bool {
    exists|pixels: Vec<u8>|
        pixels@ == tile.1 && #[trigger] call_ensures(
            sink,
            (tile.0, pixels),
            Ok::<bool, Error>(answer),
        )
}

/// Whether `sink` was handed the tile `tile` and failed with `error`.
pub open spec fn sink_failed<F: Fn(Rect, Vec<u8>) -> Result<bool, Error>>(
    sink: F,
    tile: (Rect, Seq<u8>),
    error: Error,
) -> bool {
    exists|pixels: Vec<u8>|
        pixels@ == tile.1 && #[trigger] call_ensures(
            sink,
            (tile.0, pixels),
            Err::<bool, Error>(error),
        )
}

/// Whether `r` is how the work can end that decodes the tiles from the one
/// in (`column`, `row`) on, read from `at` on, and hands each to `sink` as
/// soon as it is decoded.
///
/// A tile that does not decode ends it with the error of `decode_tile`.
/// One that does is handed to the sink: where the sink fails, its error
/// ends the work; where it says to stop, `Ok(false)` does; where it says to
/// go on, the work goes on with the next tile. Behind the last tile the
/// data must end: then the work is done, `Ok(true)`, else bytes are left
/// over.
pub open spec fn handing_gives<F: Fn(Rect, Vec<u8>) -> Result<bool, Error>>(
    sink: F,
    format: PixelFormat,
    rect: Rect,
    data: Seq<u8>,
    at: int,
    column: nat,
    row: nat,
    r: Result<bool, Error>,
) -> bool
    decreases tile_rows(rect) - row, tile_columns(rect) - column,
{
    if row >= tile_rows(rect) {
        if at == data.len() {
            r == Ok::<bool, Error>(true)
        } else {
            r == Err::<bool, Error>(Error::Unexpected("leftover ZRLE byte data"))
        }
    } else if column >= tile_columns(rect) {
        handing_gives(sink, format, rect, data, at, 0, row + 1, r)
    } else {
        let area = tile_rect(rect, column, row);
        match decode_tile(format, data, at, area.width as nat, area.height as nat) {
            Err(e) => r == Err::<bool, Error>(e),
            Ok((pixels, next)) => {
                ||| r matches Err(e) && sink_failed(sink, (area, pixels), e)
                ||| r == Ok::<bool, Error>(false) && was_handed(sink, (area, pixels), false)
                ||| was_handed(sink, (area, pixels), true) && handing_gives(
                    sink,
                    format,
                    rect,
                    data,
                    next,
                    column + 1,
                    row,
                    r,
                )
            },
        }
    }
}

/// Whether `r` is how decoding `data` for the rectangle and handing its
/// tiles to `sink`, each as soon as it is decoded, can end. A rectangle
/// that reaches beyond the coordinates of sixteen bits is refused before
/// the sink has seen a tile.
pub open spec fn decoding_gives<F: Fn(Rect, Vec<u8>) -> Result<bool, Error>>(
    sink: F,
    format: PixelFormat,
    rect: Rect,
    data: Seq<u8>,
    r: Result<bool, Error>,
) -> bool {
    if !in_range(rect) {
        r == Err::<bool, Error>(Error::Unexpected("zrle rectangle"))
    } else {
        handing_gives(sink, format, rect, data, 0, 0, 0, r)
    }
}

} // verus!
