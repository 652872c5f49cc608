//! Rectangles of the framebuffer.

use vstd::prelude::*;

verus! {

/// A rectangle of the framebuffer, or the dimensions of an update.
#[derive(Debug, Clone, Copy, PartialEq, Eq, Structural)]
pub struct Rect {
    pub left: u16,
    pub top: u16,
    pub width: u16,
    pub height: u16,
}

impl Rect {
    /// Whether the pixel `(x, y)` lies inside the rectangle.
    pub open spec fn contains(self, x: int, y: int) -> bool {
        &&& self.left <= x < self.left + self.width
        &&& self.top <= y < self.top + self.height
    }

    /// The number of pixels in the rectangle.
    pub open spec fn area(self) -> nat {
        (self.width as nat) * (self.height as nat)
    }

    /// A rectangle with the given corner and size.
    pub fn new(left: u16, top: u16, width: u16, height: u16) -> (r: Rect)
        ensures
            r == (Rect { left, top, width, height }),
    {
        Rect { left, top, width, height }
    }

    /// The rectangle of no pixels at the origin.
    pub fn new_empty() -> (r: Rect)
        ensures
            r == (Rect { left: 0, top: 0, width: 0, height: 0 }),
    {
        Rect { left: 0, top: 0, width: 0, height: 0 }
    }
}

/// The number of bytes that the pixels of a `width` by `height` area take.
pub open spec fn pixel_bytes(width: u16, height: u16, bytes_per_pixel: nat) -> nat {
    (width as nat) * (height as nat) * bytes_per_pixel
}

/// The number of bytes that a mask of one bit per pixel takes, each row
/// starting on a byte.
pub open spec fn mask_bytes(width: u16, height: u16) -> nat {
    (((width as nat) + 7) / 8) * (height as nat)
}

/// The number of bytes that the pixels of a `width` by `height` area take.
pub fn count_pixel_bytes(width: u16, height: u16, bytes_per_pixel: u16) -> (n: u64)
    ensures
        n == pixel_bytes(width, height, bytes_per_pixel as nat),
        n <= 0xffff * 0xffff * 0xffff,
{
    assert((width as nat) * (height as nat) <= 0xffff * 0xffff) by (nonlinear_arith)
        requires
            width <= 0xffff,
            height <= 0xffff,
    ;
    let area: u64 = (width as u64) * (height as u64);
    assert((area as nat) * (bytes_per_pixel as nat) <= 0xffff * 0xffff * 0xffff)
        by (nonlinear_arith)
        requires
            area <= 0xffff * 0xffff,
            bytes_per_pixel <= 0xffff,
    ;
    area * (bytes_per_pixel as u64)
}

/// The number of bytes that a bit mask for a `width` by `height` area takes.
pub fn count_mask_bytes(width: u16, height: u16) -> (n: u64)
    ensures
        n == mask_bytes(width, height),
        n <= 0x2000 * 0xffff,
{
    let stride: u64 = (width as u64 + 7) / 8;
    assert((stride as nat) * (height as nat) <= 0x2000 * 0xffff) by (nonlinear_arith)
        requires
            stride <= 0x2000,
            height <= 0xffff,
    ;
    stride * (height as u64)
}

} // verus!
