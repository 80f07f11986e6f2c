use vstd::prelude::*;
use vstd::arithmetic::div_mod::lemma_fundamental_div_mod;
use crate::framebuffer::{decode_image, Framebuffer};
use crate::image_decoder::{le_u32, read_le_u32, yuv_to_rgb, YUV420 as YUV420Pixel};
use crate::raster::{image_size, raster_wf, rgb_at, Raster};

verus! {

/// The two sample packings of the column layout.
#[derive(Clone, Copy, PartialEq, Eq, Structural)]
pub enum ColumnFormat {
    /// 8-bit samples, one byte each: 128 pixels a column.
    Nv12,
    /// 10-bit samples, three to a little-endian 32-bit word: 96 pixels a column.
    P030,
}

/// Pixels that one column holds across.
pub open spec fn column_pixels(format: ColumnFormat) -> int {
    match format {
        ColumnFormat::Nv12 => 128,
        ColumnFormat::P030 => 96,
    }
}

/// A frame whose luma and interleaved chroma rows are stored in 128-byte wide columns, each
/// `column_height` rows tall; the chroma rows of a column start `chroma_offset` bytes into it.
/// The frame is read every `scale`-th pixel each way.
#[derive(Clone, Copy)]
pub struct ColumnFramebuffer {
    pub format: ColumnFormat,
    pub size: (u32, u32),
    pub scale: u32,
    pub column_height: u32,
    pub chroma_offset: u32,
}

/// Bytes from one column to the next.
pub open spec fn column_stride(fb: ColumnFramebuffer) -> int {
    128 * fb.column_height
}

/// Byte offset of the 8-bit luma sample of pixel (x, y).
pub open spec fn nv12_luma_index(fb: ColumnFramebuffer, x: int, y: int) -> int {
    (x / 128) * column_stride(fb) + 128 * y + x % 128
}

/// Byte offset of the Cb sample for pixel (x, y); its Cr sample follows it.
pub open spec fn nv12_chroma_index(fb: ColumnFramebuffer, x: int, y: int) -> int {
    (x / 128) * column_stride(fb) + fb.chroma_offset + 128 * (y / 2) + 2 * ((x % 128) / 2)
}

/// The `k`-th (0, 1 or 2) 10-bit sample of the word at byte offset `o`.
pub open spec fn sample10(mapping: Seq<u8>, o: int, k: int) -> int {
    let d = if k == 0 {
        1int
    } else if k == 1 {
        1024int
    } else {
        1048576int
    };
    (le_u32(mapping, o) / d) % 1024
}

/// Byte offset of the word holding the `s`-th sample of row `row` of column `col`.
pub open spec fn p030_word(fb: ColumnFramebuffer, col: int, row_start: int, s: int) -> int {
    col * column_stride(fb) + row_start + 4 * (s / 3)
}

/// The luma of pixel (x, y), reduced to 8 bits.
pub open spec fn p030_luma(fb: ColumnFramebuffer, mapping: Seq<u8>, x: int, y: int) -> u8 {
    let s = x % 96;
    (sample10(mapping, p030_word(fb, x / 96, 128 * y, s), s % 3) / 4) as u8
}

/// The chroma sample `c` (0 for Cb, 1 for Cr) for pixel (x, y), reduced to 8 bits.
pub open spec fn p030_chroma(fb: ColumnFramebuffer, mapping: Seq<u8>, x: int, y: int, c: int) -> u8 {
    let s = 2 * ((x % 96) / 2) + c;
    (sample10(mapping, p030_word(fb, x / 96, fb.chroma_offset + 128 * (y / 2), s), s % 3) / 4) as u8
}

/// Colour of pixel (x, y) of the full frame.
pub open spec fn column_pixel(fb: ColumnFramebuffer, mapping: Seq<u8>, x: int, y: int) -> (u8, u8, u8) {
    match fb.format {
        ColumnFormat::Nv12 => yuv_to_rgb(
            mapping[nv12_luma_index(fb, x, y)],
            mapping[nv12_chroma_index(fb, x, y)],
            mapping[nv12_chroma_index(fb, x, y) + 1],
        ),
        ColumnFormat::P030 => yuv_to_rgb(
            p030_luma(fb, mapping, x, y),
            p030_chroma(fb, mapping, x, y, 0),
            p030_chroma(fb, mapping, x, y, 1),
        ),
    }
}

/// Columns needed to hold a frame `width` pixels wide.
pub open spec fn column_count(format: ColumnFormat, width: int) -> int {
    (width + column_pixels(format) - 1) / column_pixels(format)
}

/// Every column holds all luma and chroma rows of the frame, and the mapping holds every column.
pub open spec fn column_layout_fits(fb: ColumnFramebuffer, len: int) -> bool {
    &&& 1 <= fb.scale <= 4
    &&& fb.size.1 <= fb.column_height
    &&& fb.chroma_offset + 128 * ((fb.size.1 + 1) / 2) <= column_stride(fb)
    &&& column_count(fb.format, fb.size.0 as int) * column_stride(fb) <= len
}

proof fn lemma_column_base(fb: ColumnFramebuffer, len: int, x: int, per: int)
    requires
        column_layout_fits(fb, len),
        per == column_pixels(fb.format),
        0 <= x < fb.size.0,
    ensures
        0 <= (x / per) * column_stride(fb),
        (x / per) * column_stride(fb) + column_stride(fb) <= len,
        column_stride(fb) <= len,
{
    let n = column_count(fb.format, fb.size.0 as int);
    let c = x / per;
    assert(c < n);
    assert(0 <= c * column_stride(fb)) by (nonlinear_arith)
        requires 0 <= c, 0 <= column_stride(fb);
    assert(c * column_stride(fb) + column_stride(fb) <= n * column_stride(fb)) by (nonlinear_arith)
        requires c < n, 0 <= column_stride(fb);
}

impl Framebuffer for ColumnFramebuffer {
    open spec fn spec_size(&self) -> (u32, u32) {
        if self.scale == 0 {
            self.size
        } else {
            ((self.size.0 / self.scale) as u32, (self.size.1 / self.scale) as u32)
        }
    }

    open spec fn readable(&self, mapping: Seq<u8>) -> bool {
        column_layout_fits(*self, mapping.len() as int)
    }

    open spec fn spec_get(&self, mapping: Seq<u8>, x: int, y: int) -> (u8, u8, u8) {
        column_pixel(*self, mapping, self.scale * x, self.scale * y)
    }

    fn size(&self) -> (r: (u32, u32)) {
        if self.scale == 0 {
            self.size
        } else {
            (self.size.0 / self.scale, self.size.1 / self.scale)
        }
    }

    fn get(&self, mapping: &[u8], x: u32, y: u32) -> (r: (u8, u8, u8)) {
        proof {
            lemma_scaled(self.scale as int, self.size.0 as int, x as int);
            lemma_scaled(self.scale as int, self.size.1 as int, y as int);
        }
        let sx = self.scale * x;
        let sy = self.scale * y;
        match self.format {
            ColumnFormat::Nv12 => nv12_pixel(self, mapping, sx, sy),
            ColumnFormat::P030 => p030_pixel(self, mapping, sx, sy),
        }
    }
}

/// A pixel of the frame read every `scale`-th pixel lies within the full frame.
proof fn lemma_scaled(scale: int, size: int, x: int)
    requires
        scale >= 1,
        0 <= x < size / scale,
    ensures
        0 <= scale * x < size,
{
    lemma_fundamental_div_mod(size, scale);
    assert(0 <= scale * x < size) by (nonlinear_arith)
        requires
            scale >= 1,
            0 <= x,
            x < size / scale,
            size == scale * (size / scale) + size % scale,
            0 <= size % scale,
    ;
}

proof fn lemma_row_in_column(fb: ColumnFramebuffer, y: int)
    requires
        fb.size.1 <= fb.column_height,
        fb.chroma_offset + 128 * ((fb.size.1 + 1) / 2) <= column_stride(fb),
        0 <= y < fb.size.1,
    ensures
        128 * y + 128 <= column_stride(fb),
        fb.chroma_offset + 128 * (y / 2) + 128 <= column_stride(fb),
{
}

fn nv12_pixel(fb: &ColumnFramebuffer, mapping: &[u8], x: u32, y: u32) -> (r: (u8, u8, u8))
    requires
        column_layout_fits(*fb, mapping@.len() as int),
        fb.format == ColumnFormat::Nv12,
        x < fb.size.0,
        y < fb.size.1,
    ensures
        r == column_pixel(*fb, mapping@, x as int, y as int),
{
    proof {
        assert(mapping.len() == mapping@.len());
        lemma_column_base(*fb, mapping@.len() as int, x as int, 128);
        lemma_row_in_column(*fb, y as int);
    }
    let stride = 128 * fb.column_height as usize;
    let base = (x / 128) as usize * stride;
    let luma = mapping[base + 128 * y as usize + (x % 128) as usize];
    let c = base + fb.chroma_offset as usize + 128 * (y as usize / 2) + 2 * ((x % 128) / 2) as usize;
    YUV420Pixel::new(luma, mapping[c], mapping[c + 1]).rgb()
}

fn p030_pixel(fb: &ColumnFramebuffer, mapping: &[u8], x: u32, y: u32) -> (r: (u8, u8, u8))
    requires
        column_layout_fits(*fb, mapping@.len() as int),
        fb.format == ColumnFormat::P030,
        x < fb.size.0,
        y < fb.size.1,
    ensures
        r == column_pixel(*fb, mapping@, x as int, y as int),
{
    proof {
        assert(mapping.len() == mapping@.len());
        lemma_column_base(*fb, mapping@.len() as int, x as int, 96);
        lemma_row_in_column(*fb, y as int);
    }
    let stride = 128 * fb.column_height as usize;
    let base = (x / 96) as usize * stride;
    let s = x % 96;
    let luma = sample_byte(mapping, base + 128 * y as usize + 4 * (s / 3) as usize, s % 3);
    let rows_start = base + fb.chroma_offset as usize + 128 * (y as usize / 2);
    let cs = 2 * (s / 2);
    let cb = sample_byte(mapping, rows_start + 4 * (cs / 3) as usize, cs % 3);
    let cr = sample_byte(mapping, rows_start + 4 * ((cs + 1) / 3) as usize, (cs + 1) % 3);
    YUV420Pixel::new(luma, cb, cr).rgb()
}

/// The `k`-th 10-bit sample of the word at byte offset `o`, reduced to 8 bits.
fn sample_byte(mapping: &[u8], o: usize, k: u32) -> (r: u8)
    requires
        o + 4 <= mapping@.len(),
        k < 3,
    ensures
        r == (sample10(mapping@, o as int, k as int) / 4) as u8,
{
    let word = read_le_u32(mapping, o);
    let d: u32 = if k == 0 {
        1
    } else if k == 1 {
        1024
    } else {
        1048576
    };
    (word / d % 1024 / 4) as u8
}

/// Decodes a column-packed frame.
pub fn decode_column_image(mapping: &[u8], fb: &ColumnFramebuffer) -> (img: Raster)
    requires
        column_layout_fits(*fb, mapping@.len() as int),
        3 * (fb.size.0 / fb.scale) * (fb.size.1 / fb.scale) <= usize::MAX,
    ensures
        raster_wf(img),
        image_size(img) == fb.spec_size(),
        forall|x: int, y: int|
            0 <= x < fb.spec_size().0 && 0 <= y < fb.spec_size().1 ==> #[trigger] rgb_at(img, x, y)
                == column_pixel(*fb, mapping@, fb.scale * x, fb.scale * y),
{
    decode_image(fb, mapping)
}

} // verus!
