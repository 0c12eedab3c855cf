//! A decoded texture image.
use vstd::prelude::*;

verus! {

/// An RGB image, three bytes per pixel, row by row.
pub struct WebP {
    data: Vec<u8>,
    width: u32,
    height: u32,
}

/// The number of bytes of an RGB image of the given size.
pub open spec fn rgb_len(width: u32, height: u32) -> int {
    3 * (width as int) * (height as int)
}

impl WebP {
    /// The image of `width` by `height` pixels held in `data`. None when `data`
    /// does not hold exactly three bytes per pixel.
    pub fn from_rgb(data: Vec<u8>, width: u32, height: u32) -> (r: Option<WebP>)
        ensures
            r is Some <==> data@.len() == rgb_len(width, height),
            r matches Some(img) ==> img.data()@ == data@ && img.width() == width && img.height()
                == height,
    {
        assert(width as int * height as int <= u64::MAX) by (nonlinear_arith)
            requires
                width <= u32::MAX,
                height <= u32::MAX,
        ;
        let pixels = width as u64 * height as u64;
        let len = data.len();
        assert(rgb_len(width, height) == 3 * (pixels as int)) by (nonlinear_arith)
            requires
                pixels as int == width as int * height as int,
        ;
        if pixels > (usize::MAX / 3) as u64 {
            assert(rgb_len(width, height) > len);
            return None;
        }
        if len != 3 * pixels as usize {
            return None;
        }
        Some(WebP { data, width, height })
    }

    /// The pixel bytes.
    pub closed spec fn data(&self) -> Vec<u8> {
        self.data
    }

    pub closed spec fn width(&self) -> u32 {
        self.width
    }

    pub closed spec fn height(&self) -> u32 {
        self.height
    }

    /// The pixel bytes, three per pixel.
    pub fn pixels(&self) -> (r: &[u8])
        ensures
            r@ == self.data()@,
    {
        self.data.as_slice()
    }

    /// The width in pixels.
    pub fn get_width(&self) -> (r: u32)
        ensures
            r == self.width(),
    {
        self.width
    }

    /// The height in pixels.
    pub fn get_height(&self) -> (r: u32)
        ensures
            r == self.height(),
    {
        self.height
    }
}

} // verus!
