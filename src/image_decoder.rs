use vstd::prelude::*;
use vstd::arithmetic::div_mod::lemma_fundamental_div_mod;
use crate::framebuffer::{decode_image, Framebuffer};
use crate::raster::{blank_image, image_size, raster_wf, rgb_at, set_pixel, Raster};
use crate::tiling::{
    lemma_split, block_cell, lemma_block_cells_distinct, lemma_block_start, lemma_cell_block,
    tile_pixel_position, tile_position, tile_position_round_trip, tiled_offset,
    tiled_offset_round_trip,
};

verus! {

/// A pixel stored as four bytes blue, green, red, padding: its colour as (red, green, blue).
pub open spec fn xrgb_at(mapping: Seq<u8>, o: int) -> (u8, u8, u8) {
    (mapping[o + 2], mapping[o + 1], mapping[o])
}

/// The little-endian 32-bit word at byte offset `o`.
pub open spec fn le_u32(mapping: Seq<u8>, o: int) -> int {
    mapping[o] + 256 * mapping[o + 1] + 65536 * mapping[o + 2] + 16777216 * mapping[o + 3]
}

/// Red, green and blue of a packed `0x00RRGGBB` word.
pub open spec fn word_red(rgb: int) -> int {
    (rgb / 65536) % 256
}

pub open spec fn word_green(rgb: int) -> int {
    (rgb / 256) % 256
}

pub open spec fn word_blue(rgb: int) -> int {
    rgb % 256
}

/// The channels of a little-endian word are its bytes: blue, green, red.
proof fn lemma_word_bytes(mapping: Seq<u8>, o: int)
    requires
        0 <= o,
        o + 4 <= mapping.len(),
    ensures
        word_blue(le_u32(mapping, o)) == mapping[o],
        word_green(le_u32(mapping, o)) == mapping[o + 1],
        word_red(le_u32(mapping, o)) == mapping[o + 2],
{
    let (b0, b1, b2, b3) = (
        mapping[o] as int,
        mapping[o + 1] as int,
        mapping[o + 2] as int,
        mapping[o + 3] as int,
    );
    let v = le_u32(mapping, o);
    lemma_split(v, 256, b1 + 256 * b2 + 65536 * b3, b0);
    lemma_split(v, 65536, b2 + 256 * b3, b0 + 256 * b1);
    lemma_split(b1 + 256 * b2 + 65536 * b3, 256, b2 + 256 * b3, b1);
    lemma_split(b2 + 256 * b3, 256, b3, b2);
}

/// Reads the little-endian 32-bit word at byte offset `o`.
pub fn read_le_u32(mapping: &[u8], o: usize) -> (r: u32)
    requires
        o + 4 <= mapping@.len(),
    ensures
        r == le_u32(mapping@, o as int),
{
    mapping[o] as u32 + 256 * (mapping[o + 1] as u32) + 65536 * (mapping[o + 2] as u32) + 16777216
        * (mapping[o + 3] as u32)
}

/// Accumulates up to 257 packed `0x00RRGGBB` pixels; red and blue share one word, each
/// channel summed in 16 bits of its own.
pub struct PixelAverage {
    avg_rb: u32,
    avg_g: u32,
    samples: u32,
}

impl PixelAverage {
    pub closed spec fn samples_added(&self) -> nat {
        self.samples as nat
    }

    pub closed spec fn red_sum(&self) -> int {
        self.avg_rb as int / 65536
    }

    pub closed spec fn green_sum(&self) -> int {
        self.avg_g as int / 256
    }

    pub closed spec fn blue_sum(&self) -> int {
        self.avg_rb as int % 65536
    }

    pub closed spec fn wf(&self) -> bool {
        &&& self.samples <= 257
        &&& self.avg_g % 256 == 0
        &&& self.red_sum() <= 255 * self.samples
        &&& self.green_sum() <= 255 * self.samples
        &&& self.blue_sum() <= 255 * self.samples
    }

    pub fn new() -> (r: PixelAverage)
        ensures
            r.wf(),
            r.samples_added() == 0,
            r.red_sum() == 0,
            r.green_sum() == 0,
            r.blue_sum() == 0,
    {
        PixelAverage { avg_rb: 0, avg_g: 0, samples: 0 }
    }

    pub fn add(&mut self, rgb: u32)
        requires
            old(self).wf(),
            old(self).samples_added() < 257,
        ensures
            final(self).wf(),
            final(self).samples_added() == old(self).samples_added() + 1,
            final(self).red_sum() == old(self).red_sum() + word_red(rgb as int),
            final(self).green_sum() == old(self).green_sum() + word_green(rgb as int),
            final(self).blue_sum() == old(self).blue_sum() + word_blue(rgb as int),
    {
        let rb = rgb & 0x00FF00FF;
        let g = rgb & 0x0000FF00;
        proof {
            assert(rb == rgb % 256 + 65536 * ((rgb / 65536) % 256)) by (bit_vector)
                requires
                    rb == rgb & 0x00FF00FF,
            ;
            assert(g == 256 * ((rgb / 256) % 256)) by (bit_vector)
                requires
                    g == rgb & 0x0000FF00,
            ;
            let (r0, b0) = (self.avg_rb as int / 65536, self.avg_rb as int % 65536);
            lemma_split(self.avg_rb as int, 65536, r0, b0);
            lemma_split(
                self.avg_rb + rb,
                65536,
                r0 + (rgb as int / 65536) % 256,
                b0 + rgb as int % 256,
            );
            lemma_split(self.avg_g as int, 256, self.avg_g as int / 256, 0);
            lemma_split(self.avg_g + g, 256, self.avg_g as int / 256 + (rgb as int / 256) % 256, 0);
        }
        self.avg_rb = self.avg_rb + rb;
        self.avg_g = self.avg_g + g;
        self.samples = self.samples + 1;
    }

    /// The mean of sixteen samples, each channel rounded down.
    pub fn rgb(self) -> (r: (u8, u8, u8))
        requires
            self.wf(),
            self.samples_added() == 16,
        ensures
            r == ((self.red_sum() / 16) as u8, (self.green_sum() / 16) as u8, (self.blue_sum()
                / 16) as u8),
    {
        let rb = self.avg_rb / 16;
        let r = rb / 65536;
        let b = rb % 256;
        let g = self.avg_g / 16 / 256;
        proof {
            let big_r = self.avg_rb as int / 65536;
            let big_b = self.avg_rb as int % 65536;
            lemma_split(self.avg_rb as int, 65536, big_r, big_b);
            lemma_split(self.avg_rb as int, 16, 4096 * big_r + big_b / 16, big_b % 16);
            lemma_split(
                rb as int,
                65536,
                big_r / 16,
                4096 * (big_r % 16) + big_b / 16,
            );
            lemma_split(rb as int, 256, 16 * big_r, big_b / 16);
            let big_g = self.avg_g as int / 256;
            lemma_split(self.avg_g as int, 256, big_g, 0);
            lemma_split(self.avg_g as int, 16, 16 * big_g, 0);
            lemma_split(16 * big_g, 256, big_g / 16, 16 * (big_g % 16));
        }
        (r as u8, g as u8, b as u8)
    }
}

/// Clamps a colour channel into 0..=255.
pub open spec fn clamp_channel(v: int) -> u8 {
    if v < 0 {
        0
    } else if v > 255 {
        255
    } else {
        v as u8
    }
}

/// BT.601 limited-range conversion of (Y, Cb, Cr) into (red, green, blue).
pub open spec fn yuv_to_rgb(y: u8, cb: u8, cr: u8) -> (u8, u8, u8) {
    let c = y - 16;
    let d = cb - 128;
    let e = cr - 128;
    (
        clamp_channel((298 * c + 409 * e + 128) / 256),
        clamp_channel((298 * c - 100 * d - 208 * e + 128) / 256),
        clamp_channel((298 * c + 516 * d + 128) / 256),
    )
}

/// `v >> 8`, clamped into a byte.
fn clamp_shifted(v: i32) -> (r: u8)
    ensures
        r == clamp_channel(v as int / 256),
{
    if v < 0 {
        0
    } else if v >= 65536 {
        255
    } else {
        (v / 256) as u8
    }
}

/// One pixel in luma and chroma.
pub struct YUV420 {
    dat: [u8; 3],
}

impl YUV420 {
    pub closed spec fn luma(&self) -> u8 {
        self.dat[0]
    }

    pub closed spec fn blue_difference(&self) -> u8 {
        self.dat[1]
    }

    pub closed spec fn red_difference(&self) -> u8 {
        self.dat[2]
    }

    pub fn new(c: u8, d: u8, e: u8) -> (r: YUV420)
        ensures
            r.luma() == c,
            r.blue_difference() == d,
            r.red_difference() == e,
    {
        YUV420 { dat: [c, d, e] }
    }

    pub fn rgb(&self) -> (r: (u8, u8, u8))
        ensures
            r == yuv_to_rgb(self.luma(), self.blue_difference(), self.red_difference()),
    {
        let y = self.dat[0] as i32;
        let u = self.dat[1] as i32;
        let v = self.dat[2] as i32;
        let c = y - 16;
        let d = u - 128;
        let e = v - 128;
        let r = 298 * c + 409 * e + 128;
        let g = 298 * c - 100 * d - 208 * e + 128;
        let b = 298 * c + 516 * d + 128;
        (clamp_shifted(r), clamp_shifted(g), clamp_shifted(b))
    }
}

/// Pixel (x, y) of rows `pitch` bytes apart, `bpp` bytes a pixel, ends within `height` rows.
proof fn lemma_row_offset(x: int, y: int, width: int, height: int, pitch: int, bpp: int)
    requires
        0 <= x < width,
        0 <= y < height,
        0 < bpp,
        bpp * width <= pitch,
    ensures
        0 <= y * pitch + bpp * x,
        y * pitch + bpp * x + bpp <= height * pitch,
{
    assert(y * pitch + bpp * x + bpp <= height * pitch) by (nonlinear_arith)
        requires
            0 <= x < width,
            0 <= y < height,
            0 < bpp,
            bpp * width <= pitch,
    ;
    assert(0 <= y * pitch + bpp * x) by (nonlinear_arith)
        requires
            0 <= x,
            0 <= y,
            0 < bpp,
            0 <= pitch,
    ;
}

/// A linear raster of 32-bit pixels, bytes blue, green, red, padding.
pub struct LinearXrgb {
    pub size: (u32, u32),
    pub pitch: u32,
}

impl Framebuffer for LinearXrgb {
    open spec fn spec_size(&self) -> (u32, u32) {
        self.size
    }

    open spec fn readable(&self, mapping: Seq<u8>) -> bool {
        4 * self.size.0 <= self.pitch && self.size.1 * self.pitch <= mapping.len()
    }

    open spec fn spec_get(&self, mapping: Seq<u8>, x: int, y: int) -> (u8, u8, u8) {
        xrgb_at(mapping, y * self.pitch + 4 * x)
    }

    fn size(&self) -> (r: (u32, u32)) {
        self.size
    }

    fn get(&self, mapping: &[u8], x: u32, y: u32) -> (r: (u8, u8, u8)) {
        proof {
            assert(mapping.len() == mapping@.len());
            lemma_row_offset(
                x as int,
                y as int,
                self.size.0 as int,
                self.size.1 as int,
                self.pitch as int,
                4,
            );
        }
        let o = y as usize * self.pitch as usize + 4 * x as usize;
        (mapping[o + 2], mapping[o + 1], mapping[o])
    }
}

/// Decodes a linear 32-bit raster: pixel (x, y) is the bytes at `y * pitch + 4 * x`, read as
/// blue, green, red.
pub fn decode_linear_image(mapping: &[u8], size: (u32, u32), pitch: u32) -> (img: Raster)
    requires
        4 * size.0 <= pitch,
        size.1 * pitch <= mapping@.len(),
        3 * size.0 * size.1 <= usize::MAX,
    ensures
        raster_wf(img),
        image_size(img) == size,
        forall|x: int, y: int|
            0 <= x < size.0 && 0 <= y < size.1 ==> #[trigger] rgb_at(img, x, y) == xrgb_at(
                mapping@,
                y * pitch + 4 * x,
            ),
{
    let fb = LinearXrgb { size, pitch };
    decode_image(&fb, mapping)
}

/// A 5-bit channel widened to 8 bits by repeating its high bits.
pub open spec fn expand5(c: int) -> int {
    c * 8 + c / 4
}

/// A 6-bit channel widened to 8 bits by repeating its high bits.
pub open spec fn expand6(c: int) -> int {
    c * 4 + c / 16
}

/// The little-endian 5-6-5 pixel at byte offset `o`, as (red, green, blue).
pub open spec fn rgb565_at(mapping: Seq<u8>, o: int) -> (u8, u8, u8) {
    let v = mapping[o] + 256 * mapping[o + 1];
    (expand5(v / 2048) as u8, expand6((v / 32) % 64) as u8, expand5(v % 32) as u8)
}

/// A linear raster of 16-bit 5-6-5 pixels.
pub struct LinearRgb565 {
    pub size: (u32, u32),
    pub pitch: u32,
}

impl Framebuffer for LinearRgb565 {
    open spec fn spec_size(&self) -> (u32, u32) {
        self.size
    }

    open spec fn readable(&self, mapping: Seq<u8>) -> bool {
        2 * self.size.0 <= self.pitch && self.size.1 * self.pitch <= mapping.len()
    }

    open spec fn spec_get(&self, mapping: Seq<u8>, x: int, y: int) -> (u8, u8, u8) {
        rgb565_at(mapping, y * self.pitch + 2 * x)
    }

    fn size(&self) -> (r: (u32, u32)) {
        self.size
    }

    fn get(&self, mapping: &[u8], x: u32, y: u32) -> (r: (u8, u8, u8)) {
        proof {
            assert(mapping.len() == mapping@.len());
            lemma_row_offset(
                x as int,
                y as int,
                self.size.0 as int,
                self.size.1 as int,
                self.pitch as int,
                2,
            );
        }
        let o = y as usize * self.pitch as usize + 2 * x as usize;
        let v = mapping[o] as u32 + 256 * (mapping[o + 1] as u32);
        let r5 = v / 2048;
        let g6 = (v / 32) % 64;
        let b5 = v % 32;
        ((r5 * 8 + r5 / 4) as u8, (g6 * 4 + g6 / 16) as u8, (b5 * 8 + b5 / 4) as u8)
    }
}

/// Decodes a linear 16-bit 5-6-5 raster, each channel widened to 8 bits.
pub fn rgb565_to_rgb888(mapping: &[u8], pitch: u32, size: (u32, u32)) -> (img: Raster)
    requires
        2 * size.0 <= pitch,
        size.1 * pitch <= mapping@.len(),
        3 * size.0 * size.1 <= usize::MAX,
    ensures
        raster_wf(img),
        image_size(img) == size,
        forall|x: int, y: int|
            0 <= x < size.0 && 0 <= y < size.1 ==> #[trigger] rgb_at(img, x, y) == rgb565_at(
                mapping@,
                y * pitch + 2 * x,
            ),
{
    let fb = LinearRgb565 { size, pitch };
    decode_image(&fb, mapping)
}

/// A single 8-bit plane, one byte a pixel, rows `size.0` bytes apart, shown in grey.
pub struct GreyPlane {
    pub size: (u32, u32),
}

impl Framebuffer for GreyPlane {
    open spec fn spec_size(&self) -> (u32, u32) {
        self.size
    }

    open spec fn readable(&self, mapping: Seq<u8>) -> bool {
        self.size.1 * self.size.0 <= mapping.len()
    }

    open spec fn spec_get(&self, mapping: Seq<u8>, x: int, y: int) -> (u8, u8, u8) {
        let v = mapping[y * self.size.0 + x];
        (v, v, v)
    }

    fn size(&self) -> (r: (u32, u32)) {
        self.size
    }

    fn get(&self, mapping: &[u8], x: u32, y: u32) -> (r: (u8, u8, u8)) {
        proof {
            assert(mapping.len() == mapping@.len());
            lemma_row_offset(
                x as int,
                y as int,
                self.size.0 as int,
                self.size.1 as int,
                self.size.0 as int,
                1,
            );
        }
        let v = mapping[y as usize * self.size.0 as usize + x as usize];
        (v, v, v)
    }
}

/// Shows a luma plane of `size.0 * size.1` bytes as a grey image.
pub fn decode_small_image(mapping: &[u8], size: (u32, u32)) -> (img: Raster)
    requires
        size.1 * size.0 <= mapping@.len(),
        3 * size.0 * size.1 <= usize::MAX,
    ensures
        raster_wf(img),
        image_size(img) == size,
        forall|x: int, y: int|
            0 <= x < size.0 && 0 <= y < size.1 ==> #[trigger] rgb_at(img, x, y) == (
                mapping@[y * size.0 + x],
                mapping@[y * size.0 + x],
                mapping@[y * size.0 + x],
            ),
{
    let fb = GreyPlane { size };
    decode_image(&fb, mapping)
}

/// Sum of one channel (0 blue, 1 green, 2 red) over the first `n` 4-byte pixels from `o`.
pub open spec fn channel_sum(mapping: Seq<u8>, o: int, channel: int, n: nat) -> int
    decreases n,
{
    if n == 0 {
        0
    } else {
        channel_sum(mapping, o, channel, (n - 1) as nat) + mapping[o + 4 * (n - 1) + channel]
    }
}

/// Mean colour, each channel rounded down, of the sixteen 4-byte pixels from byte `o`.
pub open spec fn block_average(mapping: Seq<u8>, o: int) -> (u8, u8, u8) {
    (
        (channel_sum(mapping, o, 2, 16) / 16) as u8,
        (channel_sum(mapping, o, 1, 16) / 16) as u8,
        (channel_sum(mapping, o, 0, 16) / 16) as u8,
    )
}

/// Averages the sixteen pixels of the 4x4 block stored from byte `o`.
fn average_block(mapping: &[u8], o: usize) -> (r: (u8, u8, u8))
    requires
        o + 64 <= mapping@.len(),
    ensures
        r == block_average(mapping@, o as int),
{
    let mut avg = PixelAverage::new();
    let mut n: usize = 0;
    while n < 16
        invariant
            o + 64 <= mapping@.len(),
            n <= 16,
            avg.wf(),
            avg.samples_added() == n,
            avg.red_sum() == channel_sum(mapping@, o as int, 2, n as nat),
            avg.green_sum() == channel_sum(mapping@, o as int, 1, n as nat),
            avg.blue_sum() == channel_sum(mapping@, o as int, 0, n as nat),
        decreases 16 - n,
    {
        proof {
            assert(mapping.len() == mapping@.len());
        }
        let word = read_le_u32(mapping, o + 4 * n);
        proof {
            lemma_word_bytes(mapping@, o + 4 * n);
        }
        avg.add(word);
        n = n + 1;
    }
    avg.rgb()
}

proof fn lemma_tile_rows(cols: int, rows: int, t: int)
    requires
        cols > 0,
        0 <= t < cols * rows,
    ensures
        0 <= t / cols < rows,
{
    lemma_fundamental_div_mod(t, cols);
    assert(t / cols < rows) by (nonlinear_arith)
        requires
            t == cols * (t / cols) + t % cols,
            0 <= t % cols,
            t < cols * rows,
            cols > 0,
    ;
    assert(0 <= t / cols) by (nonlinear_arith)
        requires
            cols > 0,
            0 <= t,
    ;
}

/// Decodes a 32x32-tiled buffer of 4-byte pixels at a quarter of its resolution each way:
/// every output pixel is the mean of one 4x4 block of the tiled image.
pub fn decode_tiled_small_image(mapping: &[u8], tiles: (u32, u32)) -> (img: Raster)
    requires
        32 * tiles.0 <= u32::MAX,
        32 * tiles.1 <= u32::MAX,
        4096 * tiles.0 * tiles.1 <= mapping@.len(),
        3 * (8 * tiles.0) * (8 * tiles.1) <= usize::MAX,
    ensures
        raster_wf(img),
        image_size(img).0 == 8 * tiles.0,
        image_size(img).1 == 8 * tiles.1,
        forall|x: int, y: int|
            0 <= x < 8 * tiles.0 && 0 <= y < 8 * tiles.1 ==> #[trigger] rgb_at(img, x, y)
                == block_average(mapping@, 4 * tiled_offset(tiles.0 as int, 4 * x, 4 * y)),
{
    let (cols, rows) = tiles;
    if cols == 0 {
        return blank_image(0, 8 * rows);
    }
    proof {
        assert((cols as int) * (rows as int) <= u64::MAX) by (nonlinear_arith)
            requires 0 <= cols <= u32::MAX, 0 <= rows <= u32::MAX;
    }
    let total = cols as u64 * rows as u64;
    let mut img = blank_image(8 * cols, 8 * rows);
    let mut t: u64 = 0;
    while t < total
        invariant
            (cols, rows) == tiles,
            total == cols * rows,
            cols > 0,
            32 * cols <= u32::MAX,
            32 * rows <= u32::MAX,
            4096 * cols * rows <= mapping@.len(),
            t <= total,
            raster_wf(img),
            image_size(img).0 == 8 * cols && image_size(img).1 == 8 * rows,
            forall|g: int|
                0 <= g < 64 * t ==> rgb_at(img, #[trigger] block_cell(cols as int, g).0, block_cell(cols as int, g).1)
                    == block_average(mapping@, 64 * g),
        decreases total - t,
    {
        proof {
            lemma_tile_rows(cols as int, rows as int, t as int);
        }
        let mut j: u32 = 0;
        while j < 64
            invariant
                (cols, rows) == tiles,
                total == cols * rows,
                cols > 0,
                32 * cols <= u32::MAX,
                32 * rows <= u32::MAX,
                4096 * cols * rows <= mapping@.len(),
                t < total,
                0 <= (t as int) / (cols as int) < rows,
                j <= 64,
                raster_wf(img),
                image_size(img).0 == 8 * cols && image_size(img).1 == 8 * rows,
                forall|g: int|
                    0 <= g < 64 * t + j ==> rgb_at(img, #[trigger] block_cell(cols as int, g).0, block_cell(cols as int, g).1)
                        == block_average(mapping@, 64 * g),
            decreases 64 - j,
        {
            let g: Ghost<int> = Ghost(64 * t + j);
            let (x, y) = tile_pixel_position(cols, t, 16 * j);
            proof {
                lemma_split(g@, 64, t as int, j as int);
                lemma_block_start(cols as int, g@);
                assert(4 * cols * rows + 64 <= 4096 * cols * rows) by (nonlinear_arith)
                    requires t < cols * rows;
                assert(64 * g@ + 64 <= 4096 * cols * rows) by (nonlinear_arith)
                    requires g@ == 64 * t + j, j < 64, t + 1 <= cols * rows;
                assert(mapping.len() == mapping@.len());
            }
            let px = average_block(mapping, 4096 * t as usize + 64 * j as usize);
            let ghost before = img;
            set_pixel(&mut img, x / 4, y / 4, px);
            proof {
                assert forall|g2: int|
                    0 <= g2 < 64 * t + j + 1 implies rgb_at(img, #[trigger] block_cell(cols as int, g2).0, block_cell(cols as int, g2).1)
                        == block_average(mapping@, 64 * g2) by {
                    if g2 != g@ {
                        lemma_block_cells_distinct(cols as int, g2, g@);
                        lemma_block_start(cols as int, g2);
                        lemma_tile_rows(cols as int, rows as int, g2 / 64);
                        assert(8 * (g2 / 64 / cols as int) + 8 <= 8 * rows);
                    }
                }
            }
            j = j + 1;
        }
        t = t + 1;
    }
    proof {
        assert forall|x: int, y: int|
            0 <= x < 8 * cols && 0 <= y < 8 * rows implies #[trigger] rgb_at(img, x, y)
                == block_average(mapping@, 4 * tiled_offset(cols as int, 4 * x, 4 * y)) by {
            lemma_cell_block(cols as int, x, y);
            let o = tiled_offset(cols as int, 4 * x, 4 * y);
            let r = 4 * y / 32;
            lemma_split(4 * y, 32, y / 8, 4 * (y % 8));
            assert(r < rows);
            assert(64 * (cols * r + cols) <= 64 * (cols * rows)) by (nonlinear_arith)
                requires r < rows, cols > 0;
            let g = o / 16;
            assert(o == 16 * g);
            assert(0 <= g < 64 * t);
            assert(rgb_at(img, block_cell(cols as int, g).0, block_cell(cols as int, g).1)
                == block_average(mapping@, 64 * g));
        }
    }
    img
}

/// Raster position of the `s`-th pixel of a tiled buffer `cols` tiles wide.
pub open spec fn source_position(cols: int, s: int) -> (int, int) {
    tile_position(cols, s / 1024, s % 1024)
}

/// The first `n` pixels of the tiled buffer that fall inside `size` have been decoded.
pub open spec fn tiles_decoded(img: Raster, mapping: Seq<u8>, cols: int, size: (u32, u32), n: int) -> bool {
    forall|s: int|
        0 <= s < n && (#[trigger] source_position(cols, s)).0 < size.0 && source_position(cols, s).1
            < size.1 ==> rgb_at(img, source_position(cols, s).0, source_position(cols, s).1)
            == xrgb_at(mapping, 4 * s)
}

proof fn lemma_source_positions_distinct(cols: int, s1: int, s2: int)
    requires
        cols > 0,
        0 <= s1,
        0 <= s2,
        s1 != s2,
    ensures
        source_position(cols, s1) != source_position(cols, s2),
{
    tile_position_round_trip(cols, s1 / 1024, s1 % 1024);
    tile_position_round_trip(cols, s2 / 1024, s2 % 1024);
    lemma_fundamental_div_mod(s1, 1024);
    lemma_fundamental_div_mod(s2, 1024);
}

proof fn lemma_decoded_step(
    before: Raster,
    after: Raster,
    mapping: Seq<u8>,
    cols: int,
    size: (u32, u32),
    s: int,
)
    requires
        cols > 0,
        0 <= s,
        tiles_decoded(before, mapping, cols, size, s),
        image_size(after) == image_size(before),
        image_size(before) == size,
        source_position(cols, s).0 < size.0 && source_position(cols, s).1 < size.1 ==> rgb_at(
            after,
            source_position(cols, s).0,
            source_position(cols, s).1,
        ) == xrgb_at(mapping, 4 * s),
        forall|i: int, j: int|
            0 <= i < size.0 && 0 <= j < size.1 && (i, j) != source_position(cols, s)
                ==> #[trigger] rgb_at(after, i, j) == rgb_at(before, i, j),
    ensures
        tiles_decoded(after, mapping, cols, size, s + 1),
{
    assert forall|s2: int|
        0 <= s2 < s + 1 && (#[trigger] source_position(cols, s2)).0 < size.0 && source_position(
            cols,
            s2,
        ).1 < size.1 implies rgb_at(after, source_position(cols, s2).0, source_position(cols, s2).1)
        == xrgb_at(mapping, 4 * s2) by {
        if s2 != s {
            lemma_source_positions_distinct(cols, s2, s);
            tile_position_round_trip(cols, s2 / 1024, s2 % 1024);
        }
    }
}

/// Decodes the 1024 pixels of tile `t`.
fn copy_tile(mapping: &[u8], img: &mut Raster, cols: u32, rows: u32, t: u64, size: (u32, u32))
    requires
        cols > 0,
        32 * cols <= u32::MAX,
        32 * rows <= u32::MAX,
        t < cols * rows,
        4096 * (cols * rows) <= mapping@.len(),
        raster_wf(*old(img)),
        image_size(*old(img)) == size,
        tiles_decoded(*old(img), mapping@, cols as int, size, 1024 * t),
    ensures
        raster_wf(*final(img)),
        image_size(*final(img)) == size,
        tiles_decoded(*final(img), mapping@, cols as int, size, 1024 * t + 1024),
{
    proof {
        lemma_tile_rows(cols as int, rows as int, t as int);
        assert(mapping.len() == mapping@.len());
        assert(4096 * t + 4096 <= 4096 * (cols * rows));
    }
    let mut w: u32 = 0;
    while w < 1024
        invariant
            cols > 0,
            32 * cols <= u32::MAX,
            32 * rows <= u32::MAX,
            0 <= (t as int) / (cols as int) < rows,
            4096 * t + 4096 <= mapping@.len(),
            mapping.len() == mapping@.len(),
            w <= 1024,
            raster_wf(*img),
            image_size(*img) == size,
            tiles_decoded(*img, mapping@, cols as int, size, 1024 * t + w),
        decreases 1024 - w,
    {
        let s: Ghost<int> = Ghost(1024 * t + w);
        let (x, y) = tile_pixel_position(cols, t, w);
        proof {
            lemma_split(s@, 1024, t as int, w as int);
        }
        let ghost before = *img;
        if x < size.0 && y < size.1 {
            let o = 4096 * t as usize + 4 * w as usize;
            let px = (mapping[o + 2], mapping[o + 1], mapping[o]);
            set_pixel(img, x, y, px);
        }
        proof {
            lemma_decoded_step(before, *img, mapping@, cols as int, size, s@);
        }
        w = w + 1;
    }
}

/// Decodes a 32x32-tiled buffer of 4-byte pixels (bytes blue, green, red, padding) at full
/// resolution, keeping the top-left `size` of the tiled image.
pub fn to_image(mapping: &[u8], tiles: (u32, u32), size: (u32, u32)) -> (img: Raster)
    requires
        32 * tiles.0 <= u32::MAX,
        32 * tiles.1 <= u32::MAX,
        4096 * (tiles.0 * tiles.1) <= mapping@.len(),
        size.0 <= 32 * tiles.0,
        size.1 <= 32 * tiles.1,
        3 * size.0 * size.1 <= usize::MAX,
    ensures
        raster_wf(img),
        image_size(img) == size,
        forall|x: int, y: int|
            0 <= x < size.0 && 0 <= y < size.1 ==> #[trigger] rgb_at(img, x, y) == xrgb_at(
                mapping@,
                4 * tiled_offset(tiles.0 as int, x, y),
            ),
{
    let (cols, rows) = tiles;
    if cols == 0 {
        return blank_image(size.0, size.1);
    }
    proof {
        assert((cols as int) * (rows as int) <= u64::MAX) by (nonlinear_arith)
            requires 0 <= cols <= u32::MAX, 0 <= rows <= u32::MAX;
    }
    let total = cols as u64 * rows as u64;
    let mut img = blank_image(size.0, size.1);
    let mut t: u64 = 0;
    while t < total
        invariant
            (cols, rows) == tiles,
            total == cols * rows,
            cols > 0,
            32 * cols <= u32::MAX,
            32 * rows <= u32::MAX,
            4096 * (cols * rows) <= mapping@.len(),
            t <= total,
            raster_wf(img),
            image_size(img) == size,
            tiles_decoded(img, mapping@, cols as int, size, 1024 * t),
        decreases total - t,
    {
        copy_tile(mapping, &mut img, cols, rows, t, size);
        t = t + 1;
    }
    proof {
        assert forall|x: int, y: int|
            0 <= x < size.0 && 0 <= y < size.1 implies #[trigger] rgb_at(img, x, y) == xrgb_at(
                mapping@,
                4 * tiled_offset(cols as int, x, y),
            ) by {
            tiled_offset_round_trip(cols as int, x, y);
            let o = tiled_offset(cols as int, x, y);
            let r = y / 32;
            assert(r < rows);
            assert(1024 * (cols * r + cols) <= 1024 * (cols * rows)) by (nonlinear_arith)
                requires r < rows, cols > 0;
            assert(0 <= o < 1024 * t);
            assert(source_position(cols as int, o) == (x, y));
        }
    }
    img
}

proof fn lemma_uniform_sum(mapping: Seq<u8>, o: int, channel: int, n: nat, v: u8)
    requires
        0 <= o,
        0 <= channel < 4,
        o + 4 * n <= mapping.len(),
        forall|i: int| 0 <= i < n ==> #[trigger] mapping[o + 4 * i + channel] == v,
    ensures
        channel_sum(mapping, o, channel, n) == n * v,
    decreases n,
{
    if n > 0 {
        lemma_uniform_sum(mapping, o, channel, (n - 1) as nat, v);
        assert(mapping[o + 4 * (n - 1) + channel] == v);
        assert(channel_sum(mapping, o, channel, n) == channel_sum(mapping, o, channel, (n - 1) as nat)
            + mapping[o + 4 * (n - 1) + channel]);
        let m = (n - 1) as nat;
        assert(m * v + v == n * v) by (nonlinear_arith)
            requires m == n - 1;
    } else {
        assert(n * v == 0) by (nonlinear_arith)
            requires n == 0;
    }
}

/// Decimating a tiled image of one colour gives an image of that same colour: the mean of
/// sixteen equal samples is the sample.
pub proof fn decimation_preserves_uniform_color(
    mapping: Seq<u8>,
    tiles: (u32, u32),
    color: (u8, u8, u8),
)
    requires
        4096 * tiles.0 * tiles.1 <= mapping.len(),
        forall|i: int| 0 <= i < 1024 * tiles.0 * tiles.1 ==> #[trigger] xrgb_at(mapping, 4 * i) == color,
    ensures
        forall|x: int, y: int|
            0 <= x < 8 * tiles.0 && 0 <= y < 8 * tiles.1 ==> #[trigger] block_average(
                mapping,
                4 * tiled_offset(tiles.0 as int, 4 * x, 4 * y),
            ) == color,
{
    let (cols, rows) = (tiles.0 as int, tiles.1 as int);
    if cols > 0 {
        assert forall|x: int, y: int|
            0 <= x < 8 * cols && 0 <= y < 8 * rows implies #[trigger] block_average(
                mapping,
                4 * tiled_offset(cols, 4 * x, 4 * y),
            ) == color by {
            lemma_cell_block(cols, x, y);
            let o = tiled_offset(cols, 4 * x, 4 * y);
            let g = o / 16;
            let r = 4 * y / 32;
            lemma_split(4 * y, 32, y / 8, 4 * (y % 8));
            assert(64 * (cols * r + cols) <= 64 * (cols * rows)) by (nonlinear_arith)
                requires r < rows, cols > 0;
            assert(1024 * cols * rows == 1024 * (cols * rows)) by (nonlinear_arith);
            assert(o == 16 * g);
            assert(4096 * cols * rows == 4096 * (cols * rows)) by (nonlinear_arith);
            assert(4 * o + 64 <= mapping.len());
            assert forall|i: int| 0 <= i < 16 implies #[trigger] xrgb_at(mapping, 4 * (o + i)) == color by {}
            assert forall|i: int| 0 <= i < 16 implies #[trigger] mapping[4 * o + 4 * i + 0] == color.2 by {
                assert(xrgb_at(mapping, 4 * (o + i)) == color);
            }
            assert forall|i: int| 0 <= i < 16 implies #[trigger] mapping[4 * o + 4 * i + 1] == color.1 by {
                assert(xrgb_at(mapping, 4 * (o + i)) == color);
            }
            assert forall|i: int| 0 <= i < 16 implies #[trigger] mapping[4 * o + 4 * i + 2] == color.0 by {
                assert(xrgb_at(mapping, 4 * (o + i)) == color);
            }
            lemma_uniform_sum(mapping, 4 * o, 0, 16, color.2);
            lemma_uniform_sum(mapping, 4 * o, 1, 16, color.1);
            lemma_uniform_sum(mapping, 4 * o, 2, 16, color.0);
        }
    }
}

} // verus!
