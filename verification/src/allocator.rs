//! Common traits and types for buffer allocation.
//!
//! A buffer is described by its pixel size, a FourCC format code and, per
//! plane, a layout [`Modifier`].  Backends produce buffers through the
//! [`Allocator`] capability; anything buffer-like exposes its geometry and
//! format through the [`Buffer`] capability.

use vstd::prelude::*;

pub mod dmabuf;

verus! {

/// A four-character pixel-format code, stored as its 32-bit little-endian value.
#[derive(Clone, Copy, Debug, Hash, PartialEq, Eq, Structural)]
pub struct Fourcc(pub u32);

/// Layout modifier of a plane: a vendor-specific tiling or compression
/// scheme, or one of the two sentinels.
#[derive(Clone, Copy, Debug, PartialEq, Eq, Structural)]
pub enum Modifier {
    /// No modifier was supplied; the layout is driver-defined.
    Invalid,
    /// Plain linear (row-major) layout.
    Linear,
    /// A vendor-specific layout, identified by its 64-bit code.
    Vendor(u64),
}

/// A pixel format: a FourCC code together with the layout modifier shared by
/// all planes of the buffer.
#[derive(Clone, Copy, Debug, PartialEq, Eq, Structural)]
pub struct Format {
    /// The FourCC code.
    pub code: Fourcc,
    /// The modifier of the buffer's planes.
    pub modifier: Modifier,
}

/// A size in buffer-pixel coordinates.
#[derive(Clone, Copy, Debug, PartialEq, Eq, Structural)]
pub struct Size {
    /// Width in pixels.
    pub w: i32,
    /// Height in pixels.
    pub h: i32,
}

/// Common capability of all buffers: they have a size and a format.
pub trait Buffer {
    /// The size this buffer reports.
    spec fn spec_size(&self) -> Size;

    /// The format this buffer reports.
    spec fn spec_format(&self) -> Format;

    /// Returns the size of the buffer.
    fn size(&self) -> (s: Size)
        ensures
            s == self.spec_size(),
    ;

    /// Returns the format of the buffer.
    fn format(&self) -> (f: Format)
        ensures
            f == self.spec_format(),
    ;
}

/// Capability of a backend that can produce buffers of a given geometry and
/// format.
///
/// On which inputs allocation succeeds is the backend's own affair
/// (unsupported formats, resource exhaustion); no more is promised here.
pub trait Allocator {
    /// The buffer type the backend produces.
    type Buffer;

    /// The error type the backend reports.
    type Error;

    /// Try to create a buffer with the given dimensions and pixel format,
    /// laid out by one of the given modifiers (or a backend default if none
    /// fits).
    fn create_buffer(
        &mut self,
        width: u32,
        height: u32,
        fourcc: Fourcc,
        modifiers: &[Modifier],
    ) -> Result<Self::Buffer, Self::Error>;
}

} // verus!
