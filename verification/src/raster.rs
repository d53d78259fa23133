use vstd::prelude::*;

use crate::color::Rgba;
use image::{ColorType, ExtendedColorType, ImageEncoder, ImageError, ImageFormat, ImageReader};
use image::error::ImageFormatHint;
use std::io::Cursor;
use image::codecs::png::{PngEncoder, CompressionType, FilterType};

verus! {

/// The byte offset of pixel `(x, y)` in a row-major buffer of 4-byte pixels.
pub open spec fn pixel_offset(width: nat, x: nat, y: nat) -> nat {
    (y * width + x) * 4
}

/// An 8-bit RGBA image: `width * height` pixels, row by row from the top, each
/// pixel stored as red, green, blue, alpha.
pub struct RgbaImage {
    width: u32,
    height: u32,
    pixels: Vec<u8>,
}

impl RgbaImage {
    pub closed spec fn spec_width(&self) -> nat {
        self.width as nat
    }

    pub closed spec fn spec_height(&self) -> nat {
        self.height as nat
    }

    /// The raw bytes, 4 per pixel.
    pub closed spec fn bytes(&self) -> Seq<u8> {
        self.pixels@
    }

    /// The buffer holds exactly 4 bytes for each pixel.
    pub closed spec fn wf(&self) -> bool {
        self.pixels@.len() == self.width * self.height * 4
    }

    /// Byte `k` (0 red, 1 green, 2 blue, 3 alpha) of pixel `(x, y)`.
    pub open spec fn channel(&self, x: nat, y: nat, k: nat) -> u8 {
        self.bytes()[(pixel_offset(self.spec_width(), x, y) + k) as int]
    }

    /// The image of the given size over `buf`, when `buf` holds exactly 4 bytes for
    /// each pixel.
    pub fn from_raw(width: u32, height: u32, buf: Vec<u8>) -> (r: Option<RgbaImage>)
        ensures
            match r {
                Some(img) => {
                    &&& buf@.len() == width * height * 4
                    &&& img.wf()
                    &&& img.spec_width() == width
                    &&& img.spec_height() == height
                    &&& img.bytes() == buf@
                },
                None => buf@.len() != width * height * 4,
            },
    {
        let w = width as u64;
        let h = height as u64;
        assert(w * h <= u32::MAX * u32::MAX) by (nonlinear_arith)
            requires
                w <= u32::MAX,
                h <= u32::MAX,
        ;
        let wh = w * h;
        let n = buf.len();
        if wh > u64::MAX / 4 {
            return None;
        }
        if n as u64 == wh * 4 {
            Some(RgbaImage { width, height, pixels: buf })
        } else {
            None
        }
    }

    pub fn width(&self) -> (r: u32)
        ensures
            r == self.spec_width(),
    {
        self.width
    }

    pub fn height(&self) -> (r: u32)
        ensures
            r == self.spec_height(),
    {
        self.height
    }

    /// The raw bytes, 4 per pixel, row by row from the top.
    pub fn as_raw(&self) -> (r: &Vec<u8>)
        ensures
            r@ == self.bytes(),
    {
        &self.pixels
    }

    /// The raw bytes, 4 per pixel, row by row from the top.
    pub fn into_raw(self) -> (r: Vec<u8>)
        ensures
            r@ == self.bytes(),
    {
        self.pixels
    }

    /// The color of pixel `(x, y)`.
    pub fn get_pixel(&self, x: u32, y: u32) -> (c: Rgba)
        requires
            self.wf(),
            x < self.spec_width(),
            y < self.spec_height(),
        ensures
            c.red() == self.channel(x as nat, y as nat, 0),
            c.green() == self.channel(x as nat, y as nat, 1),
            c.blue() == self.channel(x as nat, y as nat, 2),
            c.alpha() == self.channel(x as nat, y as nat, 3),
    {
        let n = self.pixels.len();
        proof {
            lemma_pixel_in_bounds(self.width as nat, self.height as nat, x as nat, y as nat);
            assert(y * self.width <= y * self.width + x);
        }
        let o = ((y as usize) * (self.width as usize) + (x as usize)) * 4;
        let c = Rgba([self.pixels[o], self.pixels[o + 1], self.pixels[o + 2], self.pixels[o + 3]]);
        c
    }
}

/// A pixel of a `width` by `height` image lies inside its buffer.
pub proof fn lemma_pixel_in_bounds(width: nat, height: nat, x: nat, y: nat)
    requires
        x < width,
        y < height,
    ensures
        pixel_offset(width, x, y) + 4 <= width * height * 4,
        y * width + x < width * height,
{
    assert(y * width + x < width * height) by (nonlinear_arith)
        requires
            x < width,
            y < height,
    ;
    assert(y * width + x + 1 <= width * height);
    assert((y * width + x) * 4 + 4 <= width * height * 4) by (nonlinear_arith)
        requires
            y * width + x + 1 <= width * height,
    ;
}

#[verifier::external_type_specification]
#[verifier::external_body]
pub struct ExImageError(ImageError);

/// What a fast, unfiltered PNG encoding of an RGBA buffer gives: the PNG bytes, or
/// `None` when the encoder refuses the image.
pub uninterp spec fn png_fast_encoding(rgba: Seq<u8>, width: u32, height: u32) -> Option<Seq<u8>>;

/// Encodes RGBA pixels as PNG with `PngEncoder::new_with_quality(_, Fast, NoFilter)`
/// and `write_image(_, _, _, Rgba8)` into memory. Claimed: the result is the encoding
/// the name gives for these arguments; `write_image` panics unless the buffer holds
/// 4 bytes per pixel, so that is required.
#[verifier::external_body]
fn encode_png_fast(rgba: &[u8], width: u32, height: u32) -> (r: Result<Vec<u8>, ImageError>)
    requires
        rgba@.len() == width * height * 4,
    ensures
        match r {
            Ok(bytes) => png_fast_encoding(rgba@, width, height) == Some(bytes@),
            Err(_) => png_fast_encoding(rgba@, width, height) is None,
        },
{
    let mut out: Vec<u8> = Vec::new();
    PngEncoder::new_with_quality(&mut out, CompressionType::Fast, FilterType::NoFilter)
        .write_image(rgba, width, height, ExtendedColorType::Rgba8)?;
    Ok(out)
}

/// How the pixels of a decoded image are stored: which channels, and how many bits
/// each channel takes (the 32-bit layouts hold floating-point channels).
#[derive(Clone, Copy, Debug, PartialEq, Eq)]
pub enum PixelLayout {
    L8,
    La8,
    Rgb8,
    Rgba8,
    L16,
    La16,
    Rgb16,
    Rgba16,
    Rgb32Float,
    Rgba32Float,
}

/// The bytes that one pixel of a layout takes.
pub open spec fn layout_bytes(layout: PixelLayout) -> nat {
    match layout {
        PixelLayout::L8 => 1,
        PixelLayout::La8 => 2,
        PixelLayout::Rgb8 => 3,
        PixelLayout::Rgba8 => 4,
        PixelLayout::L16 => 2,
        PixelLayout::La16 => 4,
        PixelLayout::Rgb16 => 6,
        PixelLayout::Rgba16 => 8,
        PixelLayout::Rgb32Float => 12,
        PixelLayout::Rgba32Float => 16,
    }
}

/// The bytes that one pixel of a layout takes.
pub fn layout_bytes_per_pixel(layout: PixelLayout) -> (r: u32)
    ensures
        r == layout_bytes(layout),
        1 <= r <= 16,
{
    match layout {
        PixelLayout::L8 => 1,
        PixelLayout::La8 => 2,
        PixelLayout::Rgb8 => 3,
        PixelLayout::Rgba8 => 4,
        PixelLayout::L16 => 2,
        PixelLayout::La16 => 4,
        PixelLayout::Rgb16 => 6,
        PixelLayout::Rgba16 => 8,
        PixelLayout::Rgb32Float => 12,
        PixelLayout::Rgba32Float => 16,
    }
}

/// A decoded image in the layout its file holds: `width * height` pixels, row by
/// row from the top, each pixel's channels in native byte order.
pub struct Image {
    layout: PixelLayout,
    width: u32,
    height: u32,
    bytes: Vec<u8>,
}

impl Image {
    pub closed spec fn spec_layout(&self) -> PixelLayout {
        self.layout
    }

    pub closed spec fn spec_width(&self) -> nat {
        self.width as nat
    }

    pub closed spec fn spec_height(&self) -> nat {
        self.height as nat
    }

    pub closed spec fn bytes(&self) -> Seq<u8> {
        self.bytes@
    }

    /// The buffer holds exactly the bytes of every pixel.
    pub closed spec fn wf(&self) -> bool {
        self.bytes@.len() == self.width * self.height * layout_bytes(self.layout)
    }
}

/// What a PNG encoding of a buffer in the given layout, with the encoder's default
/// settings, gives: the PNG bytes, or `None` when the encoder refuses the image.
pub uninterp spec fn png_default_encoding(layout: PixelLayout, bytes: Seq<u8>, width: u32, height: u32) -> Option<Seq<u8>>;

/// What reading an image file whose name has the extension `extension` (empty for
/// none) and whose contents are `bytes` and converting it to 8-bit RGBA gives: its
/// width, height and pixel bytes, or `None` when it cannot be read.
pub uninterp spec fn decoded_rgba8(extension: Seq<char>, bytes: Seq<u8>) -> Option<(u32, u32, Seq<u8>)>;

/// What reading an image file whose name has the extension `extension` (empty for
/// none) and whose contents are `bytes` gives, in the layout the file holds: the
/// layout, width, height and pixel bytes, or `None` when it cannot be read.
pub uninterp spec fn decoded_image(extension: Seq<char>, bytes: Seq<u8>) -> Option<(PixelLayout, u32, u32, Seq<u8>)>;

/// Encodes pixels in the given layout as PNG with `PngEncoder::new` (default
/// settings) and `write_image` into memory, as `DynamicImage::save` does for a
/// `.png` path (the PNG encoder converts no layout first). Claimed: the result is
/// the encoding the name gives for these arguments; `write_image` panics unless the
/// buffer holds exactly the bytes of every pixel, so that is required.
#[verifier::external_body]
fn encode_png_default(layout: PixelLayout, bytes: &[u8], width: u32, height: u32) -> (r: Result<Vec<u8>, ImageError>)
    requires
        bytes@.len() == width * height * layout_bytes(layout),
    ensures
        match r {
            Ok(out) => png_default_encoding(layout, bytes@, width, height) == Some(out@),
            Err(_) => png_default_encoding(layout, bytes@, width, height) is None,
        },
{
    let color = match layout {
        PixelLayout::L8 => ColorType::L8, PixelLayout::La8 => ColorType::La8,
        PixelLayout::Rgb8 => ColorType::Rgb8, PixelLayout::Rgba8 => ColorType::Rgba8,
        PixelLayout::L16 => ColorType::L16, PixelLayout::La16 => ColorType::La16,
        PixelLayout::Rgb16 => ColorType::Rgb16, PixelLayout::Rgba16 => ColorType::Rgba16,
        PixelLayout::Rgb32Float => ColorType::Rgb32F, PixelLayout::Rgba32Float => ColorType::Rgba32F,
    };
    let mut out: Vec<u8> = Vec::new();
    PngEncoder::new(&mut out).write_image(bytes, width, height, color.into())?;
    Ok(out)
}

/// Reads an image file from memory as `image::open` reads it from disk and converts
/// it with `to_rgba8`: the format is the one `ImageFormat::from_extension` gives for
/// the file name's extension, and a name without a known extension is refused,
/// whatever the bytes hold (`ImageReader` with no format set). Claimed: the result
/// is what the name gives for these arguments, and the RGBA buffer holds 4 bytes per
/// pixel. (`image::open` also asks decoding hooks that a program registers; this
/// one registers none.)
#[verifier::external_body]
fn decode_rgba8(bytes: &[u8], extension: &str) -> (r: Result<RgbaImage, ImageError>)
    ensures
        match r {
            Ok(img) => img.wf() && decoded_rgba8(extension@, bytes@) == Some((img.width, img.height, img.pixels@)),
            Err(_) => decoded_rgba8(extension@, bytes@) is None,
        },
{
    let reader = match ImageFormat::from_extension(extension) {
        Some(format) => ImageReader::with_format(Cursor::new(bytes), format),
        None => ImageReader::new(Cursor::new(bytes)),
    };
    let img = reader.decode()?.to_rgba8();
    let (width, height) = img.dimensions();
    Ok(RgbaImage { width, height, pixels: img.into_raw() })
}

/// Reads an image file from memory as `image::open` reads it from disk, keeping the
/// layout it holds: the format comes from the extension as for `decode_rgba8`, and
/// the pixels are `DynamicImage::into_bytes` in the layout `color()` names. No
/// other layout exists in this version of the crate; one added later is refused.
/// Claimed: the result is what the name gives for these arguments, and the buffer
/// holds exactly the bytes of every pixel.
#[verifier::external_body]
fn decode_file(bytes: &[u8], extension: &str) -> (r: Result<Image, ImageError>)
    ensures
        match r {
            Ok(img) => img.wf() && decoded_image(extension@, bytes@) == Some((img.layout, img.width, img.height, img.bytes@)),
            Err(_) => decoded_image(extension@, bytes@) is None,
        },
{
    let reader = match ImageFormat::from_extension(extension) {
        Some(format) => ImageReader::with_format(Cursor::new(bytes), format),
        None => ImageReader::new(Cursor::new(bytes)),
    };
    let img = reader.decode()?;
    let layout = match img.color() {
        ColorType::L8 => PixelLayout::L8, ColorType::La8 => PixelLayout::La8,
        ColorType::Rgb8 => PixelLayout::Rgb8, ColorType::Rgba8 => PixelLayout::Rgba8,
        ColorType::L16 => PixelLayout::L16, ColorType::La16 => PixelLayout::La16,
        ColorType::Rgb16 => PixelLayout::Rgb16, ColorType::Rgba16 => PixelLayout::Rgba16,
        ColorType::Rgb32F => PixelLayout::Rgb32Float, ColorType::Rgba32F => PixelLayout::Rgba32Float,
        _ => return Err(ImageError::Unsupported(ImageFormatHint::Unknown.into())),
    };
    Ok(Image { layout, width: img.width(), height: img.height(), bytes: img.into_bytes() })
}

/// Why an image could not be read or written.
#[derive(Clone, Copy, Debug, PartialEq, Eq)]
pub enum ImageOpError {
    /// The bytes are not an image that can be read.
    Decode,
    /// The encoder refused the image.
    Encode,
}

/// `bgra` with the first and third byte of every whole 4-byte pixel swapped, as
/// swapping within `chunks_exact_mut(4)` does; trailing bytes stay.
pub open spec fn swapped_red_blue(bgra: Seq<u8>) -> Seq<u8> {
    Seq::new(
        bgra.len(),
        |i: int|
            if i < (bgra.len() / 4) * 4 {
                if i % 4 == 0 {
                    bgra[i + 2]
                } else if i % 4 == 2 {
                    bgra[i - 2]
                } else {
                    bgra[i]
                }
            } else {
                bgra[i]
            },
    )
}

/// Converts BGRA pixels to RGBA (or back) by swapping the first and third byte of
/// each pixel.
pub fn bgra_to_rgba(bgra: &[u8]) -> (r: Vec<u8>)
    ensures
        r@ == swapped_red_blue(bgra@),
{
    let n = bgra.len();
    let whole = (n / 4) * 4;
    let mut out: Vec<u8> = Vec::new();
    let mut i: usize = 0;
    while i < whole
        invariant
            n == bgra@.len(),
            whole == (n / 4) * 4,
            i <= whole,
            i % 4 == 0,
            out@ == swapped_red_blue(bgra@).take(i as int),
        decreases whole - i,
    {
        out.push(bgra[i + 2]);
        out.push(bgra[i + 1]);
        out.push(bgra[i]);
        out.push(bgra[i + 3]);
        proof {
            let t = swapped_red_blue(bgra@);
            assert((i + 1) % 4 == 1 && (i + 2) % 4 == 2 && (i + 3) % 4 == 3);
            assert(out@ =~= t.take(i + 4));
        }
        i = i + 4;
    }
    while i < n
        invariant
            n == bgra@.len(),
            whole == (n / 4) * 4,
            whole <= i <= n,
            out@ == swapped_red_blue(bgra@).take(i as int),
        decreases n - i,
    {
        out.push(bgra[i]);
        proof {
            assert(out@ =~= swapped_red_blue(bgra@).take(i + 1));
        }
        i = i + 1;
    }
    assert(swapped_red_blue(bgra@).take(n as int) =~= swapped_red_blue(bgra@));
    out
}

/// Encodes raw BGRA pixels as a PNG file's bytes, with fast compression and no
/// filtering: the pixels are turned into RGBA and handed to the encoder.
pub fn encode_capture_png(bgra: &[u8], width: u32, height: u32) -> (r: Result<Vec<u8>, ImageOpError>)
    requires
        bgra@.len() == width * height * 4,
    ensures
        match r {
            Ok(bytes) => png_fast_encoding(swapped_red_blue(bgra@), width, height) == Some(bytes@),
            Err(e) => e == ImageOpError::Encode && png_fast_encoding(swapped_red_blue(bgra@), width, height) is None,
        },
{
    let rgba = bgra_to_rgba(bgra);
    match encode_png_fast(rgba.as_slice(), width, height) {
        Ok(bytes) => Ok(bytes),
        Err(_) => Err(ImageOpError::Encode),
    }
}

/// The region that cropping `(x, y, width, height)` keeps of an `iw` by `ih` image,
/// as `crop_imm` clamps it: the corner is moved inside the image and the size cut
/// to what lies inside.
pub open spec fn crop_region(iw: nat, ih: nat, x: nat, y: nat, width: nat, height: nat) -> (nat, nat, nat, nat) {
    let cx = if x < iw { x } else { iw };
    let cy = if y < ih { y } else { ih };
    let cw = if width < iw - cx { width } else { (iw - cx) as nat };
    let ch = if height < ih - cy { height } else { (ih - cy) as nat };
    (cx, cy, cw, ch)
}

/// The bytes of the first `n` rows of the `cw`-pixel-wide window at `(cx, cy)` of an
/// image `iw` pixels wide whose pixels take `bpp` bytes each.
pub open spec fn window_bytes(bytes: Seq<u8>, iw: nat, bpp: nat, cx: nat, cy: nat, cw: nat, n: nat) -> Seq<u8>
    decreases n,
{
    if n == 0 {
        Seq::empty()
    } else {
        let row = (cy + n - 1) as nat;
        window_bytes(bytes, iw, bpp, cx, cy, cw, (n - 1) as nat) + bytes.subrange(
            ((row * iw + cx) * bpp) as int,
            ((row * iw + cx + cw) * bpp) as int,
        )
    }
}

/// The bytes of the first `n` rows of the `cw`-pixel-wide window at `(cx, cy)` of an
/// RGBA image.
pub open spec fn window_rows(bytes: Seq<u8>, iw: nat, cx: nat, cy: nat, cw: nat, n: nat) -> Seq<u8> {
    window_bytes(bytes, iw, 4, cx, cy, cw, n)
}

/// Cuts the region `(x, y, width, height)`, clamped as `crop_region` says, out of an
/// `iw` by `ih` image whose pixels take `bpp` bytes each; the bytes of the region
/// and its width and height.
fn crop_window(bytes: &Vec<u8>, iw: u32, ih: u32, bpp: u32, x: u32, y: u32, width: u32, height: u32) -> (r: (Vec<u8>, u32, u32))
    requires
        bytes@.len() == iw * ih * bpp,
        bpp >= 1,
    ensures
        ({
            let (cx, cy, cw, ch) = crop_region(iw as nat, ih as nat, x as nat, y as nat, width as nat, height as nat);
            &&& r.1 == cw
            &&& r.2 == ch
            &&& r.0@ == window_bytes(bytes@, iw as nat, bpp as nat, cx, cy, cw, ch)
            &&& r.0@.len() == cw * ch * bpp
        }),
{
    let cx = if x < iw { x } else { iw };
    let cy = if y < ih { y } else { ih };
    let cw = if width < iw - cx { width } else { iw - cx };
    let ch = if height < ih - cy { height } else { ih - cy };
    let n = bytes.len();
    let mut out: Vec<u8> = Vec::new();
    let mut j: u32 = 0;
    assert(out@ =~= window_bytes(bytes@, iw as nat, bpp as nat, cx as nat, cy as nat, cw as nat, 0));
    assert((0 * cw) * bpp == 0) by (nonlinear_arith);
    while j < ch
        invariant
            bpp >= 1,
            n == bytes@.len(),
            n == iw * ih * bpp,
            cx <= iw,
            cy <= ih,
            cx + cw <= iw,
            cy + ch <= ih,
            j <= ch,
            out@ == window_bytes(bytes@, iw as nat, bpp as nat, cx as nat, cy as nat, cw as nat, j as nat),
            out@.len() == (j * cw) * bpp,
        decreases ch - j,
    {
        let row = cy + j;
        proof {
            lemma_row_in_bounds(iw as nat, ih as nat, bpp as nat, cx as nat, cw as nat, row as nat);
        }
        let start = ((row as usize) * (iw as usize) + (cx as usize)) * (bpp as usize);
        let end = start + (cw as usize) * (bpp as usize);
        let ghost before = out@;
        let mut k = start;
        while k < end
            invariant
                start <= k <= end <= n,
                n == bytes@.len(),
                out@ == before + bytes@.subrange(start as int, k as int),
            decreases end - k,
        {
            out.push(bytes[k]);
            proof {
                assert(out@ =~= before + bytes@.subrange(start as int, k + 1));
            }
            k = k + 1;
        }
        proof {
            assert((j + 1) * cw * bpp == j * cw * bpp + cw * bpp) by (nonlinear_arith);
        }
        j = j + 1;
    }
    proof {
        assert(out@.len() == cw * ch * bpp) by (nonlinear_arith)
            requires
                out@.len() == (ch * cw) * bpp,
        ;
    }
    (out, cw, ch)
}

/// Cuts the region `(x, y, width, height)` out of an image, clamped to the image
/// as `crop_imm` does.
pub fn crop(img: &RgbaImage, x: u32, y: u32, width: u32, height: u32) -> (r: RgbaImage)
    requires
        img.wf(),
    ensures
        r.wf(),
        ({
            let (cx, cy, cw, ch) = crop_region(img.spec_width(), img.spec_height(), x as nat, y as nat,
                width as nat, height as nat);
            &&& r.spec_width() == cw
            &&& r.spec_height() == ch
            &&& r.bytes() == window_rows(img.bytes(), img.spec_width(), cx, cy, cw, ch)
        }),
{
    let (out, cw, ch) = crop_window(&img.pixels, img.width, img.height, 4, x, y, width, height);
    RgbaImage { width: cw, height: ch, pixels: out }
}

proof fn lemma_row_in_bounds(iw: nat, ih: nat, bpp: nat, cx: nat, cw: nat, row: nat)
    requires
        cx + cw <= iw,
        row < ih,
        bpp >= 1,
    ensures
        row * iw <= row * iw + cx <= (row * iw + cx) * bpp,
        (row * iw + cx) * bpp + cw * bpp <= iw * ih * bpp,
        (row * iw + cx + cw) * bpp == (row * iw + cx) * bpp + cw * bpp,
{
    assert(row * iw + cx + cw <= iw * ih) by (nonlinear_arith)
        requires
            cx + cw <= iw,
            row < ih,
    ;
    assert((row * iw + cx) * bpp + cw * bpp <= iw * ih * bpp) by (nonlinear_arith)
        requires
            row * iw + cx + cw <= iw * ih,
    ;
    assert((row * iw + cx + cw) * bpp == (row * iw + cx) * bpp + cw * bpp) by (nonlinear_arith);
    assert(row * iw + cx <= (row * iw + cx) * bpp) by (nonlinear_arith)
        requires
            bpp >= 1,
    ;
}

/// Cuts the region `(x, y, width, height)` out of an image file and encodes the
/// region as PNG with the encoder's default settings, in the layout the file holds,
/// as `image::open`, `crop_imm` and `save` to a `.png` path do. The file is read by
/// its extension `extension` (empty for none), and the region is clamped to the
/// image as `crop_imm` does.
pub fn crop_capture_png(png: &[u8], extension: &str, x: u32, y: u32, width: u32, height: u32) -> (r: Result<Vec<u8>, ImageOpError>)
    ensures
        match decoded_image(extension@, png@) {
            None => r == Err::<Vec<u8>, ImageOpError>(ImageOpError::Decode),
            Some((layout, iw, ih, pixels)) => {
                let (cx, cy, cw, ch) = crop_region(iw as nat, ih as nat, x as nat, y as nat,
                    width as nat, height as nat);
                let cut = window_bytes(pixels, iw as nat, layout_bytes(layout), cx, cy, cw, ch);
                match png_default_encoding(layout, cut, cw as u32, ch as u32) {
                    Some(out) => r matches Ok(bytes) && bytes@ == out,
                    None => r == Err::<Vec<u8>, ImageOpError>(ImageOpError::Encode),
                }
            },
        },
{
    let img = match decode_file(png, extension) {
        Ok(img) => img,
        Err(_) => {
            return Err(ImageOpError::Decode);
        },
    };
    let bpp = layout_bytes_per_pixel(img.layout);
    let (cut, cw, ch) = crop_window(&img.bytes, img.width, img.height, bpp, x, y, width, height);
    match encode_png_default(img.layout, cut.as_slice(), cw, ch) {
        Ok(bytes) => Ok(bytes),
        Err(_) => Err(ImageOpError::Encode),
    }
}

/// Reads an image file held in memory into RGBA pixels, as `image::open` and
/// `to_rgba8` do: the format is taken from the file name's extension `extension`
/// (empty for none).
pub fn decode_image(bytes: &[u8], extension: &str) -> (r: Result<RgbaImage, ImageOpError>)
    ensures
        match decoded_rgba8(extension@, bytes@) {
            None => r == Err::<RgbaImage, ImageOpError>(ImageOpError::Decode),
            Some((w, h, pixels)) => r matches Ok(img) && img.wf() && img.spec_width() == w
                && img.spec_height() == h && img.bytes() == pixels,
        },
{
    match decode_rgba8(bytes, extension) {
        Ok(img) => Ok(img),
        Err(_) => Err(ImageOpError::Decode),
    }
}

/// Swapping red and blue twice gives the pixels back.
pub proof fn lemma_swap_twice(bytes: Seq<u8>)
    ensures
        swapped_red_blue(swapped_red_blue(bytes)) == bytes,
{
    let once = swapped_red_blue(bytes);
    let twice = swapped_red_blue(once);
    assert forall|i: int| 0 <= i < bytes.len() implies #[trigger] twice[i] == bytes[i] by {
        if i < (bytes.len() / 4) * 4 {
            if i % 4 == 0 {
                assert(once[i + 2] == bytes[i]);
            } else if i % 4 == 2 {
                assert(once[i - 2] == bytes[i]);
            }
        }
    }
    assert(twice =~= bytes);
}

/// The rows of a window as wide as the image, from the top, are the image's first
/// bytes.
proof fn lemma_full_rows(bytes: Seq<u8>, iw: nat, n: nat)
    requires
        n * iw * 4 <= bytes.len(),
    ensures
        window_rows(bytes, iw, 0, 0, iw, n) == bytes.take((n * iw * 4) as int),
    decreases n,
{
    if n > 0 {
        let m = (n - 1) as nat;
        assert(m * iw * 4 + iw * 4 == n * iw * 4) by (nonlinear_arith)
            requires
                m + 1 == n,
        ;
        assert(m * iw * 4 <= n * iw * 4) by (nonlinear_arith)
            requires
                m + 1 == n,
        ;
        lemma_full_rows(bytes, iw, m);
        assert(pixel_offset(iw, 0, m) == (m * iw + 0) * 4);
        assert((m * iw + 0) * 4 == m * iw * 4) by (nonlinear_arith);
        assert(pixel_offset(iw, iw, m) == (m * iw + iw) * 4);
        assert((m * iw + iw) * 4 == n * iw * 4) by (nonlinear_arith)
            requires
                m + 1 == n,
        ;
        assert(bytes.take((m * iw * 4) as int) + bytes.subrange((m * iw * 4) as int, (n * iw * 4) as int)
            =~= bytes.take((n * iw * 4) as int));
        assert(window_rows(bytes, iw, 0, 0, iw, n) == window_rows(bytes, iw, 0, 0, iw, m) + bytes.subrange(
            pixel_offset(iw, 0, m) as int, pixel_offset(iw, iw, m) as int));
    } else {
        assert(n * iw * 4 == 0) by (nonlinear_arith)
            requires
                n == 0,
        ;
        assert(bytes.take(0) =~= Seq::<u8>::empty());
    }
}

/// Cropping the whole image gives the image back.
pub proof fn lemma_crop_whole(img: RgbaImage)
    requires
        img.wf(),
    ensures
        ({
            let (cx, cy, cw, ch) = crop_region(img.spec_width(), img.spec_height(), 0, 0, img.spec_width(), img.spec_height());
            &&& cx == 0 && cy == 0 && cw == img.spec_width() && ch == img.spec_height()
            &&& window_rows(img.bytes(), img.spec_width(), cx, cy, cw, ch) == img.bytes()
        }),
{
    let w = img.spec_width();
    let h = img.spec_height();
    assert(h * w * 4 == w * h * 4) by (nonlinear_arith);
    lemma_full_rows(img.bytes(), w, h);
    assert(img.bytes().take((h * w * 4) as int) =~= img.bytes());
}

} // verus!
