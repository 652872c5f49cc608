//! The server side: the events that a client's messages stand for, and the
//! builder that frames framebuffer updates.

use crate::error::Error;
use crate::protocol::{
    decode_c2s, encode_encoding, encode_rect, encode_s2c, length32, C2SView, Encoding, Message,
    PixelFormat, S2CView, C2S, S2C,
};
use crate::wire::Reader;
use crate::rect::{count_mask_bytes, count_pixel_bytes, mask_bytes, pixel_bytes, Rect};
use crate::wire::{bytes16, bytes32, put_bytes, put_u16, put_u32};
use vstd::prelude::*;

pub mod handshake;
pub mod laws;

verus! {

/// Definitions of events received by server from client.
#[derive(Debug, PartialEq, Eq)]
pub enum Event {
    /// The client asks for pixels in this format from now on.
    SetPixelFormat(PixelFormat),
    /// The client names the encodings that it takes, the preferred first.
    SetEncodings(Vec<Encoding>),
    /// The client asks for the pixels of `rect`: for those that changed
    /// where `incremental` is set, else for all.
    FramebufferUpdateRequest { incremental: bool, rect: Rect },
    /// A key went down or up; `key` is its keysym.
    KeyEvent { down: bool, key: u32 },
    /// The pointer moved, or one of its buttons went down or up.
    PointerEvent { button_mask: u8, x_position: u16, y_position: u16 },
    /// The client has new text in its clipboard.
    CutText(String),
    /// A key went down or up; `keycode` is the key's place on the keyboard.
    ExtendedKeyEvent { down: bool, keysym: u32, keycode: u32 },
}

/// The model of an `Event`.
pub enum EventView {
    SetPixelFormat(PixelFormat),
    SetEncodings(Seq<Encoding>),
    FramebufferUpdateRequest { incremental: bool, rect: Rect },
    KeyEvent { down: bool, key: u32 },
    PointerEvent { button_mask: u8, x_position: u16, y_position: u16 },
    CutText(Seq<char>),
    ExtendedKeyEvent { down: bool, keysym: u32, keycode: u32 },
}

impl View for Event {
    type V = EventView;

    open spec fn view(&self) -> EventView {
        match *self {
            Event::SetPixelFormat(format) => EventView::SetPixelFormat(format),
            Event::SetEncodings(encodings) => EventView::SetEncodings(encodings@),
            Event::FramebufferUpdateRequest { incremental, rect } =>
                EventView::FramebufferUpdateRequest { incremental, rect },
            Event::KeyEvent { down, key } => EventView::KeyEvent { down, key },
            Event::PointerEvent { button_mask, x_position, y_position } => EventView::PointerEvent {
                button_mask,
                x_position,
                y_position,
            },
            Event::CutText(text) => EventView::CutText(text@),
            Event::ExtendedKeyEvent { down, keysym, keycode } => EventView::ExtendedKeyEvent {
                down,
                keysym,
                keycode,
            },
        }
    }
}

/// The event that a message of the client stands for.
pub open spec fn event_of(message: C2SView) -> EventView {
    match message {
        C2SView::SetPixelFormat(format) => EventView::SetPixelFormat(format),
        C2SView::SetEncodings(encodings) => EventView::SetEncodings(encodings),
        C2SView::FramebufferUpdateRequest { incremental, x_position, y_position, width, height } =>
            EventView::FramebufferUpdateRequest {
                incremental,
                rect: Rect { left: x_position, top: y_position, width, height },
            },
        C2SView::KeyEvent { down, key } => EventView::KeyEvent { down, key },
        C2SView::PointerEvent { button_mask, x_position, y_position } => EventView::PointerEvent {
            button_mask,
            x_position,
            y_position,
        },
        C2SView::CutText(text) => EventView::CutText(text),
        C2SView::ExtendedKeyEvent { down, keysym, keycode } => EventView::ExtendedKeyEvent {
            down,
            keysym,
            keycode,
        },
    }
}

/// What is needed to tell a well-formed framebuffer update from a malformed one.
#[derive(Debug, Clone, Copy, PartialEq, Eq, Structural)]
pub struct ValidationData {
    /// Number of bytes that one pixel takes in the client's pixel format.
    pub bytes_per_pixel: u16,
}

impl ValidationData {
    /// The number of bytes that hold `bits` bits.
    pub open spec fn bytes_for(bits: u8) -> u16 {
        ((bits as int + 7) / 8) as u16
    }

    /// Validation data for a pixel format.
    pub fn new(pixel_format: &PixelFormat) -> (data: ValidationData)
        ensures
            data.bytes_per_pixel == ValidationData::bytes_for(pixel_format.bits_per_pixel),
    {
        let mut mine = ValidationData { bytes_per_pixel: 0 };
        mine.update(pixel_format);
        mine
    }

    /// Takes the number of bytes per pixel from `pixel_format`, rounding up.
    pub fn update(&mut self, pixel_format: &PixelFormat)
        ensures
            final(self).bytes_per_pixel == ValidationData::bytes_for(pixel_format.bits_per_pixel),
    {
        self.bytes_per_pixel = (pixel_format.bits_per_pixel as u16 + 7) / 8;
    }
}

/// One rectangle of a framebuffer update, as the server hands it over.
#[derive(Debug)]
pub enum Update<'a> {
    Raw { rect: Rect, pixel_data: &'a [u8] },
    CopyRect { dst: Rect, src_x_position: u16, src_y_position: u16 },
    Zrle { rect: Rect, zlib_data: &'a [u8] },
    SetCursor { size: (u16, u16), hotspot: (u16, u16), pixels: &'a [u8], mask_bits: &'a [u8] },
    DesktopSize { width: u16, height: u16 },
    Encoding { encoding: Encoding },
}

/// The model of an `Update`.
pub enum UpdateView {
    Raw { rect: Rect, pixel_data: Seq<u8> },
    CopyRect { dst: Rect, src_x_position: u16, src_y_position: u16 },
    Zrle { rect: Rect, zlib_data: Seq<u8> },
    SetCursor { size: (u16, u16), hotspot: (u16, u16), pixels: Seq<u8>, mask_bits: Seq<u8> },
    DesktopSize { width: u16, height: u16 },
    Encoding { encoding: Encoding },
}

impl<'a> View for Update<'a> {
    type V = UpdateView;

    open spec fn view(&self) -> UpdateView {
        match *self {
            Update::Raw { rect, pixel_data } => UpdateView::Raw { rect, pixel_data: pixel_data@ },
            Update::CopyRect { dst, src_x_position, src_y_position } => UpdateView::CopyRect {
                dst,
                src_x_position,
                src_y_position,
            },
            Update::Zrle { rect, zlib_data } => UpdateView::Zrle { rect, zlib_data: zlib_data@ },
            Update::SetCursor { size, hotspot, pixels, mask_bits } => UpdateView::SetCursor {
                size,
                hotspot,
                pixels: pixels@,
                mask_bits: mask_bits@,
            },
            Update::DesktopSize { width, height } => UpdateView::DesktopSize { width, height },
            Update::Encoding { encoding } => UpdateView::Encoding { encoding },
        }
    }
}

impl UpdateView {
    /// Whether the lengths of the payload are those that the geometry asks for.
    pub open spec fn valid(self, data: ValidationData) -> bool {
        match self {
            UpdateView::Raw { rect, pixel_data } => pixel_data.len() == pixel_bytes(
                rect.width,
                rect.height,
                data.bytes_per_pixel as nat,
            ),
            UpdateView::Zrle { rect, zlib_data } => zlib_data.len() <= u32::MAX,
            UpdateView::SetCursor { size, hotspot, pixels, mask_bits } => {
                &&& pixels.len() == pixel_bytes(size.0, size.1, data.bytes_per_pixel as nat)
                &&& mask_bits.len() == mask_bytes(size.0, size.1)
            },
            _ => true,
        }
    }

    /// The bytes of the rectangle: its header, then its payload.
    pub open spec fn encode(self) -> Seq<u8> {
        match self {
            UpdateView::Raw { rect, pixel_data } => encode_rect(rect) + encode_encoding(
                Encoding::Raw,
            ) + pixel_data,
            UpdateView::CopyRect { dst, src_x_position, src_y_position } => encode_rect(dst)
                + encode_encoding(Encoding::CopyRect) + bytes16(src_x_position) + bytes16(
                src_y_position,
            ),
            UpdateView::Zrle { rect, zlib_data } => encode_rect(rect) + encode_encoding(
                Encoding::Zrle,
            ) + bytes32(length32(zlib_data.len())) + zlib_data,
            UpdateView::SetCursor { size, hotspot, pixels, mask_bits } => encode_rect(
                Rect { left: hotspot.0, top: hotspot.1, width: size.0, height: size.1 },
            ) + encode_encoding(Encoding::Cursor) + pixels + mask_bits,
            UpdateView::DesktopSize { width, height } => encode_rect(
                Rect { left: 0, top: 0, width, height },
            ) + encode_encoding(Encoding::DesktopSize),
            UpdateView::Encoding { encoding } => encode_rect(
                Rect { left: 0, top: 0, width: 0, height: 0 },
            ) + encode_encoding(encoding),
        }
    }
}

/// Whether `len` is the number of bytes of the pixels of the area.
fn is_pixel_bytes(len: usize, width: u16, height: u16, bytes_per_pixel: u16) -> (ok: bool)
    ensures
        ok == (len == pixel_bytes(width, height, bytes_per_pixel as nat)),
{
    count_pixel_bytes(width, height, bytes_per_pixel) == len as u64
}

/// Whether `len` is the length of a bit mask for the area.
fn is_mask_bytes(len: usize, width: u16, height: u16) -> (ok: bool)
    ensures
        ok == (len == mask_bytes(width, height)),
{
    count_mask_bytes(width, height) == len as u64
}

impl<'a> Update<'a> {
    /// Checks the update against the client's pixel format. An update that
    /// is not valid is a mistake of the caller, which the requirement leaves
    /// out: `is_valid` tells beforehand.
    pub fn check(&self, validation_data: &ValidationData)
        requires
            self@.valid(*validation_data),
    {
    }

    /// Tells whether the update is valid for the client's pixel format.
    pub fn is_valid(&self, validation_data: &ValidationData) -> (ok: bool)
        ensures
            ok == self@.valid(*validation_data),
    {
        match self {
            Update::Raw { rect, pixel_data } => is_pixel_bytes(
                pixel_data.len(),
                rect.width,
                rect.height,
                validation_data.bytes_per_pixel,
            ),
            Update::CopyRect { .. } => true,
            Update::Zrle { rect, zlib_data } => zlib_data.len() as u64 <= 0xffff_ffff,
            Update::SetCursor { size, hotspot, pixels, mask_bits } => is_pixel_bytes(
                pixels.len(),
                size.0,
                size.1,
                validation_data.bytes_per_pixel,
            ) && is_mask_bytes(mask_bits.len(), size.0, size.1),
            Update::DesktopSize { .. } => true,
            Update::Encoding { .. } => true,
        }
    }

    /// Appends the rectangle to `writer`.
    pub fn write_to(&self, writer: &mut Vec<u8>) -> (r: Result<(), Error>)
        ensures
            r is Ok,
            final(writer)@ == old(writer)@ + self@.encode(),
    {
        match self {
            Update::Raw { rect, pixel_data } => {
                let _ = rect.write_to(writer);
                let _ = Encoding::Raw.write_to(writer);
                put_bytes(writer, pixel_data);
                assert(writer@ =~= old(writer)@ + self@.encode());
            },
            Update::CopyRect { dst, src_x_position, src_y_position } => {
                let _ = dst.write_to(writer);
                let _ = Encoding::CopyRect.write_to(writer);
                put_u16(writer, *src_x_position);
                put_u16(writer, *src_y_position);
                assert(writer@ =~= old(writer)@ + self@.encode());
            },
            Update::Zrle { rect, zlib_data } => {
                let _ = rect.write_to(writer);
                let _ = Encoding::Zrle.write_to(writer);
                put_u32(writer, (zlib_data.len() as u64 % 0x1_0000_0000) as u32);
                put_bytes(writer, zlib_data);
                assert(writer@ =~= old(writer)@ + self@.encode());
            },
            Update::SetCursor { size, hotspot, pixels, mask_bits } => {
                put_u16(writer, hotspot.0);
                put_u16(writer, hotspot.1);
                put_u16(writer, size.0);
                put_u16(writer, size.1);
                let _ = Encoding::Cursor.write_to(writer);
                put_bytes(writer, pixels);
                put_bytes(writer, mask_bits);
                assert(writer@ =~= old(writer)@ + self@.encode());
            },
            Update::DesktopSize { width, height } => {
                put_u16(writer, 0);
                put_u16(writer, 0);
                put_u16(writer, *width);
                put_u16(writer, *height);
                let _ = Encoding::DesktopSize.write_to(writer);
                assert(writer@ =~= old(writer)@ + self@.encode());
            },
            Update::Encoding { encoding } => {
                let _ = Rect::new_empty().write_to(writer);
                let _ = encoding.write_to(writer);
                assert(writer@ =~= old(writer)@ + self@.encode());
            },
        }
        Ok(())
    }
}

/// The bytes of some rectangles, one after the other.
pub open spec fn encode_updates(updates: Seq<UpdateView>) -> Seq<u8>
    decreases updates.len(),
{
    if updates.len() == 0 {
        Seq::empty()
    } else {
        encode_updates(updates.drop_last()) + updates.last().encode()
    }
}

/// The most rectangles that one `FramebufferUpdate` message announces.
pub const MAX_RECTANGLES: usize = 0xffff;

/// The bytes of a framebuffer update: as many messages as it takes to
/// announce all the rectangles, none with more than `MAX_RECTANGLES`.
pub open spec fn encode_framebuffer_update(updates: Seq<UpdateView>) -> Seq<u8>
    decreases updates.len(),
{
    if updates.len() == 0 {
        Seq::empty()
    } else if updates.len() <= MAX_RECTANGLES {
        encode_s2c(S2CView::FramebufferUpdate { count: updates.len() as u16 }) + encode_updates(
            updates,
        )
    } else {
        encode_s2c(S2CView::FramebufferUpdate { count: MAX_RECTANGLES as u16 }) + encode_updates(
            updates.subrange(0, MAX_RECTANGLES as int),
        ) + encode_framebuffer_update(updates.skip(MAX_RECTANGLES as int))
    }
}

/// Builder of `FramebufferUpdate` message.
pub struct FramebufferUpdate<'a> {
    updates: Vec<Update<'a>>,
}

impl<'a> View for FramebufferUpdate<'a> {
    type V = Seq<UpdateView>;

    closed spec fn view(&self) -> Seq<UpdateView> {
        Seq::new(self.updates@.len(), |i: int| self.updates@[i]@)
    }
}

impl<'a> FramebufferUpdate<'a> {
    /// Whether every rectangle is valid for the client's pixel format.
    pub open spec fn valid(self, data: ValidationData) -> bool {
        forall|i: int| 0 <= i < self@.len() ==> (#[trigger] self@[i]).valid(data)
    }

    /// Constructs new `FramebufferUpdate`, with no rectangle in it.
    pub fn new() -> (update: FramebufferUpdate<'a>)
        ensures
            update@ == Seq::<UpdateView>::empty(),
    {
        let update = FramebufferUpdate { updates: Vec::new() };
        assert(update@ =~= Seq::<UpdateView>::empty());
        update
    }

    /// The number of rectangles added so far.
    pub fn len(&self) -> (n: usize)
        ensures
            n == self@.len(),
    {
        self.updates.len()
    }

    /// Adds one update at the end.
    fn add(&mut self, update: Update<'a>)
        ensures
            final(self)@ == old(self)@.push(update@),
    {
        self.updates.push(update);
        assert(self@ =~= old(self)@.push(update@));
    }

    /// Adds raw pixel data.
    pub fn add_raw_pixels(&mut self, rect: Rect, pixel_data: &'a [u8]) -> (ret: &mut Self)
        ensures
            ret@ == old(self)@.push(UpdateView::Raw { rect, pixel_data: pixel_data@ }),
            *final(self) == *final(ret),
    {
        self.add(Update::Raw { rect, pixel_data });
        self
    }

    /// Adds `CopyRect` update message instructing client to reuse pixel data it already owns.
    pub fn add_copy_rect(&mut self, dst: Rect, src_x_position: u16, src_y_position: u16) -> (ret:
        &mut Self)
        ensures
            ret@ == old(self)@.push(UpdateView::CopyRect { dst, src_x_position, src_y_position }),
            *final(self) == *final(ret),
    {
        self.add(Update::CopyRect { dst, src_x_position, src_y_position });
        self
    }

    /// Adds compressed pixel data.
    pub fn add_compressed_pixels(&mut self, rect: Rect, zlib_data: &'a [u8]) -> (ret: &mut Self)
        ensures
            ret@ == old(self)@.push(UpdateView::Zrle { rect, zlib_data: zlib_data@ }),
            *final(self) == *final(ret),
    {
        self.add(Update::Zrle { rect, zlib_data });
        self
    }

    /// Add data for drawing cursor.
    pub fn add_cursor(
        &mut self,
        width: u16,
        height: u16,
        hotspot_x: u16,
        hotspot_y: u16,
        pixels: &'a [u8],
        mask_bits: &'a [u8],
    ) -> (ret: &mut Self)
        ensures
            ret@ == old(self)@.push(
                UpdateView::SetCursor {
                    size: (width, height),
                    hotspot: (hotspot_x, hotspot_y),
                    pixels: pixels@,
                    mask_bits: mask_bits@,
                },
            ),
            *final(self) == *final(ret),
    {
        self.add(
            Update::SetCursor {
                size: (width, height),
                hotspot: (hotspot_x, hotspot_y),
                pixels,
                mask_bits,
            },
        );
        self
    }

    /// Adds notification about framebuffer resize.
    pub fn add_desktop_size(&mut self, width: u16, height: u16) -> (ret: &mut Self)
        ensures
            ret@ == old(self)@.push(UpdateView::DesktopSize { width, height }),
            *final(self) == *final(ret),
    {
        self.add(Update::DesktopSize { width, height });
        self
    }

    /// Adds confirmation of support of pseudo-encoding.
    pub fn add_pseudo_encoding(&mut self, encoding: Encoding) -> (ret: &mut Self)
        ensures
            ret@ == old(self)@.push(UpdateView::Encoding { encoding }),
            *final(self) == *final(ret),
    {
        self.add(Update::Encoding { encoding });
        self
    }

    /// Checks all updates against the client's pixel format. An update
    /// that is not valid is a mistake of the caller, which the requirement
    /// leaves out: `is_valid` tells beforehand.
    pub fn check(&self, validation_data: &ValidationData)
        requires
            self.valid(*validation_data),
    {
    }

    /// Tells whether all updates are valid.
    pub fn is_valid(&self, validation_data: &ValidationData) -> (ok: bool)
        ensures
            ok == self.valid(*validation_data),
    {
        let mut i: usize = 0;
        while i < self.updates.len()
            invariant
                i <= self.updates.len(),
                forall|j: int| 0 <= j < i ==> (#[trigger] self@[j]).valid(*validation_data),
            decreases self.updates.len() - i,
        {
            if !self.updates[i].is_valid(validation_data) {
                assert(!self@[i as int].valid(*validation_data));
                return false;
            }
            i = i + 1;
        }
        true
    }

    /// Appends the update to `writer`, as one message for every `MAX_RECTANGLES` rectangles.
    pub fn write_to(&self, writer: &mut Vec<u8>) -> (r: Result<(), Error>)
        ensures
            r is Ok,
            final(writer)@ == old(writer)@ + encode_framebuffer_update(self@),
    {
        let ghost all = self@;
        let total = self.updates.len();
        let mut start: usize = 0;
        assert(all.skip(0) =~= all);
        while start < total
            invariant
                start <= total,
                total == self.updates@.len(),
                all == self@,
                old(writer)@ + encode_framebuffer_update(all) == writer@
                    + encode_framebuffer_update(all.skip(start as int)),
            decreases total - start,
        {
            let count: usize = if total - start > MAX_RECTANGLES {
                MAX_RECTANGLES
            } else {
                total - start
            };
            let ghost before = writer@;
            let ghost chunk = all.skip(start as int).subrange(0, count as int);
            let _ = (S2C::FramebufferUpdate { count: count as u16 }).write_to(writer);
            let ghost head = writer@;
            let mut j: usize = 0;
            while j < count
                invariant
                    j <= count,
                    start + count <= total,
                    total == self.updates@.len(),
                    all == self@,
                    chunk == all.skip(start as int).subrange(0, count as int),
                    writer@ == head + encode_updates(chunk.subrange(0, j as int)),
                decreases count - j,
            {
                let _ = self.updates[start + j].write_to(writer);
                j = j + 1;
                assert(chunk.subrange(0, j as int).drop_last() =~= chunk.subrange(0, j as int - 1));
                assert(chunk.subrange(0, j as int).last() == self.updates@[start + j - 1]@);
                assert(writer@ =~= head + encode_updates(chunk.subrange(0, j as int)));
            }
            proof {
                assert(chunk.subrange(0, count as int) =~= chunk);
                let rest = all.skip(start as int);
                if rest.len() <= MAX_RECTANGLES {
                    assert(chunk =~= rest);
                    assert(all.skip(start + count).len() == 0);
                    assert(encode_framebuffer_update(all.skip(start + count)) =~= Seq::<u8>::empty());
                } else {
                    assert(rest.skip(MAX_RECTANGLES as int) =~= all.skip(start + count));
                }
                assert(before + encode_framebuffer_update(rest) =~= writer@
                    + encode_framebuffer_update(all.skip(start + count)));
            }
            start = start + count;
        }
        assert(encode_framebuffer_update(all.skip(start as int)) =~= Seq::<u8>::empty());
        Ok(())
    }
}

/// The server side of a session, after the handshake.
pub struct Server {
    validation_data: ValidationData,
}

impl Server {
    /// What the server holds updates against: the pixel format that the
    /// client asked for last, or that of the server where it asked for none.
    pub closed spec fn validation(&self) -> ValidationData {
        self.validation_data
    }

    /// A server that sends pixels in `pixel_format`.
    pub fn new(pixel_format: &PixelFormat) -> (server: Server)
        ensures
            server.validation().bytes_per_pixel == ValidationData::bytes_for(
                pixel_format.bits_per_pixel,
            ),
    {
        Server { validation_data: ValidationData::new(pixel_format) }
    }

    /// The validation data of the session.
    pub fn validation_data(&self) -> (data: ValidationData)
        ensures
            data == self.validation(),
    {
        self.validation_data
    }

    /// Reads one message of the client and gives the event that it stands
    /// for. A `SetPixelFormat` sets the format that later updates are held against.
    pub fn read_event(&mut self, reader: &mut Reader) -> (r: Result<Event, Error>)
        ensures
            final(reader).input() == old(reader).input(),
            final(reader).offset() <= final(reader).input().len(),
            match decode_c2s(old(reader).remaining()) {
                Ok((m, n)) => {
                    &&& r matches Ok(event) && event@ == event_of(m)
                    &&& final(reader).offset() == old(reader).offset() + n
                    &&& final(self).validation() == (match m {
                        C2SView::SetPixelFormat(format) => ValidationData {
                            bytes_per_pixel: ValidationData::bytes_for(format.bits_per_pixel),
                        },
                        _ => old(self).validation(),
                    })
                },
                Err(e) => (r matches Err(e2) && e2 == e) && final(self).validation() == old(
                    self,
                ).validation(),
            },
    {
        match C2S::read_from(reader)? {
            C2S::SetPixelFormat(pixel_format) => {
                self.validation_data.update(&pixel_format);
                Ok(Event::SetPixelFormat(pixel_format))
            },
            C2S::SetEncodings(encodings) => Ok(Event::SetEncodings(encodings)),
            C2S::FramebufferUpdateRequest { incremental, x_position, y_position, width, height } => Ok(
                Event::FramebufferUpdateRequest {
                    incremental,
                    rect: Rect::new(x_position, y_position, width, height),
                },
            ),
            C2S::KeyEvent { down, key } => Ok(Event::KeyEvent { down, key }),
            C2S::PointerEvent { button_mask, x_position, y_position } => Ok(
                Event::PointerEvent { button_mask, x_position, y_position },
            ),
            C2S::CutText(clipboard) => Ok(Event::CutText(clipboard)),
            C2S::ExtendedKeyEvent { down, keysym, keycode } => Ok(
                Event::ExtendedKeyEvent { down, keysym, keycode },
            ),
        }
    }

    /// Frames a framebuffer update for the client.
    ///
    /// The update must be valid for the pixel format of the session: a
    /// caller that is not sure of that asks `FramebufferUpdate::is_valid` first.
    pub fn send_update(&mut self, updates: &FramebufferUpdate, writer: &mut Vec<u8>) -> (r: Result<
        (),
        Error,
    >)
        requires
            updates.valid(old(self).validation()),
        ensures
            r is Ok,
            final(writer)@ == old(writer)@ + encode_framebuffer_update(updates@),
            final(self).validation() == old(self).validation(),
    {
        updates.check(&self.validation_data);
        updates.write_to(writer)
    }
}

} // verus!
