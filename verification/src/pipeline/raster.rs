//! An owned RGBA pixel buffer with straight (non-premultiplied) alpha.

use vstd::prelude::*;

verus! {

/// The mathematical content of an [`RgbaImage`]: its dimensions and its
/// bytes, four per pixel in the order red, green, blue, alpha, row by row
/// from the top.
pub struct ImageView {
    pub width: u32,
    pub height: u32,
    pub pixels: Seq<u8>,
}

impl ImageView {
    /// The buffer holds exactly four bytes for every pixel.
    pub open spec fn wf(self) -> bool {
        self.pixels.len() == 4 * (self.width * self.height)
    }

    /// The index of the first byte of the pixel at column `x`, row `y`.
    pub open spec fn offset(self, x: int, y: int) -> int {
        4 * (y * self.width + x)
    }

    /// The four channels of the pixel at column `x`, row `y`.
    pub open spec fn pixel(self, x: int, y: int) -> Seq<u8> {
        self.pixels.subrange(self.offset(x, y), self.offset(x, y) + 4)
    }

    /// The alpha channel of the pixel at column `x`, row `y`.
    pub open spec fn alpha(self, x: int, y: int) -> u8 {
        self.pixels[self.offset(x, y) + 3]
    }

    /// Whether `(x, y)` names a pixel of the image.
    pub open spec fn contains(self, x: int, y: int) -> bool {
        0 <= x < self.width && 0 <= y < self.height
    }
}

/// Every pixel of a well-formed image lies inside its buffer.
pub proof fn lemma_offset_in_bounds(v: ImageView, x: int, y: int)
    requires
        v.wf(),
        v.contains(x, y),
    ensures
        0 <= y * v.width,
        y * v.width + x < v.width * v.height,
        0 <= v.offset(x, y),
        v.offset(x, y) + 4 <= v.pixels.len(),
        v.offset(x, y) == 4 * (y * v.width) + 4 * x,
{
    let w = v.width as int;
    let h = v.height as int;
    assert(y * w + x < w * h && 0 <= y * w) by (nonlinear_arith)
        requires
            0 <= x < w,
            0 <= y < h,
    ;
}

/// An RGBA image. The buffer always holds `4 * width * height` bytes.
#[derive(Debug)]
pub struct RgbaImage {
    width: u32,
    height: u32,
    data: Vec<u8>,
}

impl View for RgbaImage {
    type V = ImageView;

    closed spec fn view(&self) -> ImageView {
        ImageView { width: self.width, height: self.height, pixels: self.data@ }
    }
}

impl RgbaImage {
    #[verifier::type_invariant]
    spec fn inv(self) -> bool {
        self.data@.len() == 4 * (self.width * self.height)
    }

    /// A fully transparent black image.
    pub fn new(width: u32, height: u32) -> (img: RgbaImage)
        requires
            4 * (width * height) <= usize::MAX,
        ensures
            img@.width == width,
            img@.height == height,
            img@.wf(),
            forall|i: int| 0 <= i < img@.pixels.len() ==> img@.pixels[i] == 0,
    {
        assert(0 <= width * height) by (nonlinear_arith);
        let n: usize = (width as usize) * (height as usize);
        let data = vec![0u8; 4 * n];
        RgbaImage { width, height, data }
    }

    /// Wraps a raw buffer. Returns `None` unless the buffer holds exactly
    /// four bytes per pixel.
    pub fn from_raw(width: u32, height: u32, data: Vec<u8>) -> (r: Option<RgbaImage>)
        ensures
            r is Some <==> data@.len() == 4 * (width * height),
            r matches Some(img) ==> img@ == (ImageView { width, height, pixels: data@ }),
    {
        assert(0 <= width * height <= 0xffff_ffff * 0xffff_ffff) by (nonlinear_arith)
            requires
                0 <= width <= 0xffff_ffff,
                0 <= height <= 0xffff_ffff,
        ;
        let n: u128 = 4 * ((width as u128) * (height as u128));
        if data.len() as u128 == n {
            Some(RgbaImage { width, height, data })
        } else {
            None
        }
    }

    /// The number of columns.
    pub fn width(&self) -> (w: u32)
        ensures
            w == self@.width,
            self@.wf(),
    {
        proof {
            use_type_invariant(self);
        }
        self.width
    }

    /// The number of rows.
    pub fn height(&self) -> (h: u32)
        ensures
            h == self@.height,
            self@.wf(),
    {
        proof {
            use_type_invariant(self);
        }
        self.height
    }

    /// The underlying bytes, four per pixel.
    pub fn as_raw(&self) -> (raw: &Vec<u8>)
        ensures
            raw@ == self@.pixels,
            self@.wf(),
    {
        proof {
            use_type_invariant(self);
        }
        &self.data
    }

    /// Gives up the underlying bytes.
    pub fn into_raw(self) -> (raw: Vec<u8>)
        ensures
            raw@ == self@.pixels,
            self@.wf(),
    {
        proof {
            use_type_invariant(&self);
        }
        self.data
    }

    /// The index of the first byte of the pixel at column `x`, row `y`.
    fn index_of(&self, x: u32, y: u32) -> (at: usize)
        requires
            self@.contains(x as int, y as int),
        ensures
            at == self@.offset(x as int, y as int),
            at + 4 <= self.data@.len(),
            self@.wf(),
    {
        proof {
            use_type_invariant(self);
            lemma_offset_in_bounds(self@, x as int, y as int);
            assert(self.data@.len() == self.data.len());
        }
        4 * ((y as usize) * (self.width as usize) + (x as usize))
    }

    /// The pixel at column `x`, row `y`.
    pub fn get_pixel(&self, x: u32, y: u32) -> (p: [u8; 4])
        requires
            self@.contains(x as int, y as int),
        ensures
            p@ == self@.pixel(x as int, y as int),
            self@.wf(),
    {
        let at: usize = self.index_of(x, y);
        let p = [self.data[at], self.data[at + 1], self.data[at + 2], self.data[at + 3]];
        assert(p@ =~= self@.pixel(x as int, y as int));
        p
    }

    /// Overwrites the pixel at column `x`, row `y`.
    pub fn put_pixel(&mut self, x: u32, y: u32, p: [u8; 4])
        requires
            old(self)@.contains(x as int, y as int),
        ensures
            final(self)@.width == old(self)@.width,
            final(self)@.height == old(self)@.height,
            final(self)@.wf(),
            final(self)@.pixels == old(self)@.pixels.update(
                old(self)@.offset(x as int, y as int),
                p[0],
            ).update(old(self)@.offset(x as int, y as int) + 1, p[1]).update(
                old(self)@.offset(x as int, y as int) + 2,
                p[2],
            ).update(old(self)@.offset(x as int, y as int) + 3, p[3]),
    {
        proof {
            use_type_invariant(&*self);
        }
        let at: usize = self.index_of(x, y);
        self.data[at] = p[0];
        self.data[at + 1] = p[1];
        self.data[at + 2] = p[2];
        self.data[at + 3] = p[3];
    }

    /// Sets the alpha channel of the pixel at column `x`, row `y`.
    pub fn set_alpha(&mut self, x: u32, y: u32, a: u8)
        requires
            old(self)@.contains(x as int, y as int),
        ensures
            final(self)@.width == old(self)@.width,
            final(self)@.height == old(self)@.height,
            final(self)@.wf(),
            final(self)@.pixels == old(self)@.pixels.update(
                old(self)@.offset(x as int, y as int) + 3,
                a,
            ),
    {
        proof {
            use_type_invariant(&*self);
        }
        let at: usize = self.index_of(x, y);
        self.data[at + 3] = a;
    }

    /// An independent copy of the image.
    pub fn duplicate(&self) -> (img: RgbaImage)
        ensures
            img@ == self@,
            self@.wf(),
    {
        proof {
            use_type_invariant(self);
        }
        let data = self.data.clone();
        assert(data@ =~= self.data@);
        RgbaImage { width: self.width, height: self.height, data }
    }
}

impl Clone for RgbaImage {
    fn clone(&self) -> (img: RgbaImage)
        ensures
            img@ == self@,
    {
        self.duplicate()
    }
}

/// The encodings in which a cursor file can embed an image.
#[derive(Clone, Copy, Debug, PartialEq, Eq, Structural)]
pub enum PayloadFormat {
    Png,
    Bmp,
}

/// What the `image` crate decodes from `data` read as `format`, converted
/// to 8-bit RGBA: `None` where it rejects the data.
pub uninterp spec fn decoded_image(data: Seq<u8>, format: PayloadFormat) -> Option<ImageView>;

/// What the `image` crate writes for an image as a PNG file: `None` where
/// it refuses to encode it.
pub uninterp spec fn png_encoding(image: ImageView) -> Option<Seq<u8>>;

/// `image::load_from_memory_with_format` followed by
/// `DynamicImage::to_rgba8`: the decoded picture as 8-bit RGBA, or `None`
/// where the decoder reports an error. The contract only names the result.
#[verifier::external_body]
pub(crate) fn decode_image(data: &[u8], format: PayloadFormat) -> (r: Option<RgbaImage>)
    ensures
        r is Some <==> decoded_image(data@, format) is Some,
        r matches Some(img) ==> decoded_image(data@, format) == Some(img@),
{
    let kind = match format {
        PayloadFormat::Png => image::ImageFormat::Png,
        PayloadFormat::Bmp => image::ImageFormat::Bmp,
    };
    match image::load_from_memory_with_format(data, kind) {
        Ok(img) => {
            let rgba = img.to_rgba8();
            Some(RgbaImage { width: rgba.width(), height: rgba.height(), data: rgba.into_raw() })
        },
        Err(_) => None,
    }
}

/// `ImageBuffer::write_to` with `ImageFormat::Png` into a memory buffer:
/// the bytes of the PNG file, or `None` where the encoder reports an
/// error. The contract only names the result.
#[verifier::external_body]
pub(crate) fn encode_png(img: &RgbaImage) -> (r: Option<Vec<u8>>)
    ensures
        r is Some <==> png_encoding(img@) is Some,
        r matches Some(bytes) ==> png_encoding(img@) == Some(bytes@),
{
    let view = image::ImageBuffer::<image::Rgba<u8>, &[u8]>::from_raw(
        img.width,
        img.height,
        img.data.as_slice(),
    )?;
    let mut out = std::io::Cursor::new(Vec::new());
    match view.write_to(&mut out, image::ImageFormat::Png) {
        Ok(()) => Some(out.into_inner()),
        Err(_) => None,
    }
}

/// `image::imageops::resize` with the Lanczos filter of radius 3. The
/// result has the requested dimensions and four bytes per pixel. Its
/// pixels are computed in floating point and are not described, except
/// where the dimensions do not change: then the image is copied.
#[verifier::external_body]
pub(crate) fn resize_lanczos3(img: &RgbaImage, width: u32, height: u32) -> (r: RgbaImage)
    requires
        4 * (width * height) <= isize::MAX,
        16 * (img@.width * height) <= isize::MAX,
    ensures
        r@.width == width,
        r@.height == height,
        r@.wf(),
        width == img@.width && height == img@.height && width > 0 && height > 0 ==> r@ == img@,
{
    let view = image::ImageBuffer::<image::Rgba<u8>, &[u8]>::from_raw(
        img.width,
        img.height,
        img.data.as_slice(),
    ).unwrap();
    let out = image::imageops::resize(&view, width, height, image::imageops::FilterType::Lanczos3);
    RgbaImage { width: out.width(), height: out.height(), data: out.into_raw() }
}

} // verus!
