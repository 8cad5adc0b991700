//! Images held in memory as rows of red, green and blue bytes.

use vstd::prelude::*;

verus! {

/// The colour that stands in for a pixel that is not there.
pub const MAGENTA: [u8; 3] = [255, 0, 255];

/// An image of `width` by `height` pixels, or the lack of one.
pub struct RtwImage {
    width: u32,
    height: u32,
    bdata: Option<Vec<u8>>,
}

impl RtwImage {
    /// The bytes are three for each pixel.
    #[verifier::type_invariant]
    spec fn well_formed(self) -> bool {
        match self.bdata {
            Some(data) => data@.len() == self.width as int * self.height as int * 3,
            None => true,
        }
    }

/// The width in pixels.
    pub closed spec fn width_spec(self) -> u32 {
        self.width
    }

/// The height in pixels.
    pub closed spec fn height_spec(self) -> u32 {
        self.height
    }

    /// The bytes of the image, row by row, if it has any.
    pub closed spec fn data_spec(self) -> Option<Seq<u8>> {
        match self.bdata {
            Some(data) => Some(data@),
            None => None,
        }
    }

    /// Where the pixel in column `x` of row `y` begins among the bytes.
    pub open spec fn offset_spec(self, x: u32, y: u32) -> int {
        (y as int * self.width_spec() as int + x as int) * 3
    }

    /// The three bytes of the pixel in column `x` of row `y`; magenta where
    /// the image has no data or the pixel lies outside it.
    pub open spec fn pixel_spec(self, x: u32, y: u32) -> Seq<u8> {
        match self.data_spec() {
            Some(data) => if x < self.width_spec() && y < self.height_spec() {
                data.subrange(self.offset_spec(x, y), self.offset_spec(x, y) + 3)
            } else {
                MAGENTA@
            },
            None => MAGENTA@,
        }
    }

    /// The image of the given size over `bdata`, or nothing where `bdata`
    /// does not hold three bytes for each pixel.
    pub fn from_raw(width: u32, height: u32, bdata: Vec<u8>) -> (image: Option<Self>)
        ensures
            image is Some <==> bdata@.len() == width as int * height as int * 3,
            image is Some ==> image->0.width_spec() == width && image->0.height_spec() == height
                && image->0.data_spec() == Some(bdata@),
    {
        assert(width as int * height as int <= 0xffff_ffff * 0xffff_ffff) by (nonlinear_arith)
            requires
                0 <= width <= 0xffff_ffff,
                0 <= height <= 0xffff_ffff,
        ;
        let pixels: u64 = width as u64 * height as u64;
        let bytes: u128 = pixels as u128 * 3;
        if bdata.len() as u128 == bytes {
            Some(RtwImage { width, height, bdata: Some(bdata) })
        } else {
            None
        }
    }

    /// The image without data, of no width and no height.
    pub fn missing() -> (image: Self)
        ensures
            image.width_spec() == 0,
            image.height_spec() == 0,
            image.data_spec() is None,
    {
        RtwImage { width: 0, height: 0, bdata: None }
    }

    pub fn width(&self) -> (w: u32)
        ensures
            w == self.width_spec(),
    {
        self.width
    }

    pub fn height(&self) -> (h: u32)
        ensures
            h == self.height_spec(),
    {
        self.height
    }

/// Whether the image has no data.
    pub fn no_data(&self) -> (r: bool)
        ensures
            r == self.data_spec() is None,
    {
        self.bdata.is_none()
    }

    /// The three bytes of the pixel at `x`, `y`; magenta where there is no
    /// such pixel.
    pub fn pixel_data(&self, x: u32, y: u32) -> (pixel: &[u8])
        ensures
            pixel@ == self.pixel_spec(x, y),
            pixel@.len() == 3,
    {
        proof {
            use_type_invariant(self);
        }
        if let Some(bdata) = &self.bdata {
            if x >= self.width || y >= self.height {
                return MAGENTA.as_slice();
            }
            assert((y * self.width + x) * 3 + 3 <= self.width * self.height * 3)
                by (nonlinear_arith)
                requires
                    x < self.width,
                    y < self.height,
            ;
            assert(y as int * self.width as int <= 0xffff_ffff * 0xffff_ffff) by (nonlinear_arith)
                requires
                    0 <= y <= 0xffff_ffff,
                    0 <= self.width <= 0xffff_ffff,
            ;
            let size: usize = bdata.len();
            assert((y * self.width + x) * 3 + 3 <= size);
            let row: u64 = y as u64 * self.width as u64;
            let index: usize = ((row + x as u64) * 3) as usize;
            vstd::slice::slice_subrange(bdata.as_slice(), index, index + 3)
        } else {
            MAGENTA.as_slice()
        }
    }
}

} // verus!
