use vstd::prelude::*;

verus! {

/// Why a buffer could not be taken as an image.
#[derive(Debug, Clone, Copy, PartialEq, Eq, Structural)]
pub enum ImageError {
    /// The buffer's length is not `width * height * 4`.
    BufferMismatch,
}

/// A packed image: `height` rows of `width` pixels, four bytes per pixel in
/// blue, green, red, alpha order, top row first.
#[derive(Debug, Clone)]
pub struct Image {
    width: u32,
    height: u32,
    buffer: Vec<u8>,
}

impl Image {
    pub closed spec fn spec_width(&self) -> nat {
        self.width as nat
    }

    pub closed spec fn spec_height(&self) -> nat {
        self.height as nat
    }

    pub closed spec fn spec_buffer(&self) -> Seq<u8> {
        self.buffer@
    }

    /// The buffer holds exactly four bytes for each pixel.
    pub open spec fn wf(&self) -> bool {
        self.spec_buffer().len() == self.spec_width() * self.spec_height() * 4
    }

    /// Takes a packed BGRA buffer of `width * height` pixels.
    pub fn from_bgra(width: u32, height: u32, buffer: Vec<u8>) -> (r: Result<Image, ImageError>)
        ensures
            buffer@.len() == width * height * 4 <==> r is Ok,
            r matches Ok(img) ==> {
                &&& img.spec_width() == width
                &&& img.spec_height() == height
                &&& img.spec_buffer() == buffer@
                &&& img.wf()
            },
            r matches Err(e) ==> e == ImageError::BufferMismatch,
    {
        proof {
            assert(width * height <= 0xffff_ffffu32 as int * 0xffff_ffffu32 as int) by (nonlinear_arith)
                requires
                    width <= 0xffff_ffffu32,
                    height <= 0xffff_ffffu32,
            ;
        }
        let expected: u128 = width as u128 * height as u128 * 4;
        if buffer.len() as u128 != expected {
            return Err(ImageError::BufferMismatch);
        }
        Ok(Image { width, height, buffer })
    }

    pub fn width(&self) -> (r: u32)
        ensures
            r == self.spec_width(),
    {
        self.width
    }

    pub fn height(&self) -> (r: u32)
        ensures
            r == self.spec_height(),
    {
        self.height
    }

    /// The packed pixel bytes.
    pub fn buffer(&self) -> (r: &Vec<u8>)
        ensures
            r@ == self.spec_buffer(),
    {
        &self.buffer
    }
}

} // verus!
