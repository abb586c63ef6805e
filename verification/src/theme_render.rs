//! Raster cards of the theme picker: their colours and pixel buffers. The
//! drawing itself, in floating point, belongs to the platform layer.
use vstd::prelude::*;

verus! {

/// Two logical pixels reserve the outer half of the selected 3px stroke.
pub const PAD_LOGICAL: u32 = 2;

#[derive(Clone, Copy, Debug, PartialEq, Eq)]
pub struct Colors {
    pub background: [u8; 3],
    pub foreground: [u8; 3],
    pub accent: [u8; 3],
}

#[derive(Debug)]
pub struct Frame {
    pub width: u32,
    pub height: u32,
    /// Premultiplied RGBA, including transparent antialiased edges.
    pub pixels: Vec<u8>,
}

impl Frame {
    /// Memory the frame's pixels take.
    pub fn bytes(&self) -> (n: usize)
        ensures
            n == self.pixels@.len(),
    {
        self.pixels.len()
    }
}

/// Card DPI the renderer accepts.
pub open spec fn supported_dpi(dpi: u32) -> bool {
    48 <= dpi <= 768
}

/// Whether a card can be drawn at `dpi`.
pub fn dpi_supported(dpi: u32) -> (r: bool)
    ensures
        r == supported_dpi(dpi),
{
    48 <= dpi && dpi <= 768
}

} // verus!
