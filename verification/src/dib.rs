use vstd::prelude::*;

use crate::raster::RgbaImage;

verus! {

/// The size of a `BITMAPINFOHEADER`.
pub const DIB_HEADER_SIZE: usize = 40;

/// The bytes of one row of a 24-bit DIB: 3 per pixel, padded to a multiple of 4.
pub open spec fn dib_row_size(width: nat) -> nat {
    ((width * 3 + 3) / 4) * 4
}

/// `v` as 4 little-endian bytes.
pub open spec fn le_u32(v: nat) -> Seq<u8> {
    seq![(v % 256) as u8, ((v / 256) % 256) as u8, ((v / 65536) % 256) as u8, ((v / 16777216) % 256) as u8]
}

/// `v` as 2 little-endian bytes.
pub open spec fn le_u16(v: nat) -> Seq<u8> {
    seq![(v % 256) as u8, ((v / 256) % 256) as u8]
}

/// A `BITMAPINFOHEADER` for an uncompressed 24-bit bottom-up image: size 40, width,
/// height, 1 plane, 24 bits per pixel, `BI_RGB`, the size of the pixel data, and
/// zero resolution and palette fields. Width and height take their `i32` form, whose
/// bytes are those of the `u32`.
pub open spec fn dib_header(width: nat, height: nat, image_size: nat) -> Seq<u8> {
    le_u32(40) + le_u32(width) + le_u32(height) + le_u16(1) + le_u16(24) + le_u32(0) + le_u32(
        image_size,
    ) + le_u32(0) + le_u32(0) + le_u32(0) + le_u32(0)
}

/// Row `y` of the pixel data, counted from the bottom of the image: the pixels of
/// image row `height - 1 - y` as blue, green, red, then zero padding.
pub open spec fn dib_row(img: RgbaImage, y: nat) -> Seq<u8> {
    let w = img.spec_width();
    let h = img.spec_height();
    Seq::new(
        dib_row_size(w),
        |p: int|
            if p < 3 * w {
                img.channel((p / 3) as nat, (h - 1 - y) as nat, (2 - p % 3) as nat)
            } else {
                0u8
            },
    )
}

/// The first `n` rows of the pixel data.
pub open spec fn dib_rows(img: RgbaImage, n: nat) -> Seq<u8>
    decreases n,
{
    if n == 0 {
        Seq::empty()
    } else {
        dib_rows(img, (n - 1) as nat) + dib_row(img, (n - 1) as nat)
    }
}

/// A CF_DIB clipboard block for the image: header, then the rows bottom-up.
pub open spec fn dib_bytes(img: RgbaImage) -> Seq<u8> {
    let w = img.spec_width();
    let h = img.spec_height();
    dib_header(w, h, dib_row_size(w) * h) + dib_rows(img, h)
}

/// Whether the sizes that the conversion computes fit its `u32` and `usize` arithmetic.
pub open spec fn dib_fits(img: RgbaImage) -> bool {
    let w = img.spec_width();
    let h = img.spec_height();
    &&& w * 3 + 3 <= u32::MAX
    &&& dib_row_size(w) * h <= u32::MAX
    &&& 40 + dib_row_size(w) * h <= usize::MAX
}

fn push_le32(out: &mut Vec<u8>, v: u32)
    ensures
        final(out)@ == old(out)@ + le_u32(v as nat),
{
    out.push((v % 256) as u8);
    out.push(((v / 256) % 256) as u8);
    out.push(((v / 65536) % 256) as u8);
    out.push(((v / 16777216) % 256) as u8);
    assert(out@ =~= old(out)@ + le_u32(v as nat));
}

fn push_le16(out: &mut Vec<u8>, v: u16)
    ensures
        final(out)@ == old(out)@ + le_u16(v as nat),
{
    out.push((v % 256) as u8);
    out.push(((v / 256) % 256) as u8);
    assert(out@ =~= old(out)@ + le_u16(v as nat));
}

/// Converts an RGBA image to a CF_DIB block: a `BITMAPINFOHEADER`, then 24-bit
/// pixels, bottom row first, each row padded to a multiple of 4 bytes.
pub fn create_dib_from_image(img: &RgbaImage) -> (r: Vec<u8>)
    requires
        img.wf(),
        dib_fits(*img),
    ensures
        r@ == dib_bytes(*img),
        r@.len() == 40 + dib_row_size(img.spec_width()) * img.spec_height(),
{
    let width = img.width();
    let height = img.height();
    let row_size = ((width * 3 + 3) / 4) * 4;
    let data_size = row_size * height;
    let mut d: Vec<u8> = Vec::new();
    push_le32(&mut d, 40);
    push_le32(&mut d, width);
    push_le32(&mut d, height);
    push_le16(&mut d, 1);
    push_le16(&mut d, 24);
    push_le32(&mut d, 0);
    push_le32(&mut d, data_size);
    push_le32(&mut d, 0);
    push_le32(&mut d, 0);
    push_le32(&mut d, 0);
    push_le32(&mut d, 0);
    let ghost header = dib_header(width as nat, height as nat, data_size as nat);
    assert(d@ =~= header + dib_rows(*img, 0));
    let mut y: u32 = 0;
    while y < height
        invariant
            y <= height,
            width == img.spec_width(),
            height == img.spec_height(),
            row_size == dib_row_size(width as nat),
            img.wf(),
            header.len() == 40,
            d@ == header + dib_rows(*img, y as nat),
            d@.len() == 40 + row_size * y,
        decreases height - y,
    {
        let src_y = height - 1 - y;
        let ghost row = dib_row(*img, y as nat);
        let ghost before = d@;
        let mut x: u32 = 0;
        assert(row.take(0) =~= Seq::<u8>::empty());
        assert(before + row.take(0) =~= before);
        while x < width
            invariant
                x <= width,
                y < height,
                src_y == height - 1 - y,
                width == img.spec_width(),
                height == img.spec_height(),
                row_size == dib_row_size(width as nat),
                row == dib_row(*img, y as nat),
                img.wf(),
                d@ == before + row.take(3 * x),
            decreases width - x,
        {
            let px = img.get_pixel(x, src_y);
            d.push(px.0[2]);
            d.push(px.0[1]);
            d.push(px.0[0]);
            proof {
                let p = 3 * x as int;
                assert(p / 3 == x && (p + 1) / 3 == x && (p + 2) / 3 == x);
                assert(p % 3 == 0 && (p + 1) % 3 == 1 && (p + 2) % 3 == 2);
                assert(row.take(p + 3) =~= row.take(p).push(row[p]).push(row[p + 1]).push(row[p + 2]));
            }
            x = x + 1;
        }
        let mut p: u32 = width * 3;
        while p < row_size
            invariant
                width * 3 <= p <= row_size,
                row_size == dib_row_size(width as nat),
                row == dib_row(*img, y as nat),
                width == img.spec_width(),
                d@ == before + row.take(p as int),
            decreases row_size - p,
        {
            d.push(0u8);
            proof {
                assert(row.take(p + 1) =~= row.take(p as int).push(row[p as int]));
            }
            p = p + 1;
        }
        assert(row.take(row_size as int) =~= row);
        assert(header + dib_rows(*img, (y + 1) as nat) =~= header + dib_rows(*img, y as nat) + row);
        assert(row_size * (y + 1) == row_size * y + row_size) by (nonlinear_arith);
        y = y + 1;
    }
    d
}

/// Each DIB row holds the 3 bytes of every pixel and at most 3 bytes of padding, and
/// its length is a multiple of 4.
pub proof fn lemma_dib_row_padding(width: nat)
    ensures
        dib_row_size(width) % 4 == 0,
        3 * width <= dib_row_size(width) < 3 * width + 4,
{
}

} // verus!
