//! Raw RGBA images.
use vstd::prelude::*;

verus! {

/// An image of 8-bit RGBA pixels, stored row by row.
pub struct Image {
    pub width: u32,
    pub height: u32,
    pub data: Vec<u8>,
}

/// Number of bytes of an RGBA image of the given dimensions.
pub open spec fn byte_len(width: int, height: int) -> int {
    4 * width * height
}

impl Image {
    /// The pixel data has exactly the length that the dimensions ask for.
    pub open spec fn wf(&self) -> bool {
        self.data@.len() == byte_len(self.width as int, self.height as int)
    }

    /// Checks that the pixel data has the length that the dimensions ask for.
    pub fn is_wf(&self) -> (ok: bool)
        ensures
            ok == self.wf(),
    {
        assert(0 <= self.width * self.height <= 0xffff_ffff * 0xffff_ffff) by (nonlinear_arith)
            requires
                0 <= self.width <= 0xffff_ffff,
                0 <= self.height <= 0xffff_ffff,
        ;
        let pixels: u64 = (self.width as u64) * (self.height as u64);
        assert(byte_len(self.width as int, self.height as int) == 4 * pixels) by (nonlinear_arith)
            requires
                pixels == self.width * self.height,
        ;
        let len: u64 = self.data.len() as u64;
        len % 4 == 0 && len / 4 == pixels
    }

    /// Builds an image from its dimensions and pixel data. Returns `None` if
    /// the data is not `4 * width * height` bytes long.
    pub fn new(width: u32, height: u32, data: Vec<u8>) -> (r: Option<Image>)
        ensures
            match r {
                Some(img) => img.wf() && img.width == width && img.height == height && img.data
                    == data,
                None => data@.len() != byte_len(width as int, height as int),
            },
    {
        assert(0 <= width * height <= 0xffff_ffff * 0xffff_ffff) by (nonlinear_arith)
            requires
                0 <= width <= 0xffff_ffff,
                0 <= height <= 0xffff_ffff,
        ;
        let pixels: u64 = (width as u64) * (height as u64);
        assert(byte_len(width as int, height as int) == 4 * pixels) by (nonlinear_arith)
            requires
                pixels == width * height,
        ;
        let len: u64 = data.len() as u64;
        if len % 4 == 0 && len / 4 == pixels {
            Some(Image { width, height, data })
        } else {
            None
        }
    }
}

} // verus!
