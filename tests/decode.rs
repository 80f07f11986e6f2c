use drm_vc4_grabber::column::{decode_column_image, ColumnFormat, ColumnFramebuffer};
use drm_vc4_grabber::framebuffer::{
    decode_image_multichannel, decode_reduced_image_multichannel, decode_small_image_multichannel,
    FramebufferYUV420, YUV420Plane,
    YUV420 as Planes,
};
use drm_vc4_grabber::image_decoder::{
    decode_linear_image, decode_small_image, decode_tiled_small_image, read_le_u32,
    rgb565_to_rgb888, to_image, PixelAverage, YUV420,
};
use drm_vc4_grabber::raster::Raster;
use drm_vc4_grabber::tiling::tile_pixel_position;

fn parts(img: Raster) -> (u32, u32, Vec<u8>) {
    img.into_parts()
}

fn pixel(p: &(u32, u32, Vec<u8>), x: u32, y: u32) -> (u8, u8, u8) {
    let k = 3 * (y * p.0 + x) as usize;
    (p.2[k], p.2[k + 1], p.2[k + 2])
}

/// Raster positions of one even-row 32x32 tile, in the order the hardware stores them:
/// quadrants top-left, bottom-left, bottom-right, top-right; 4x4 blocks and their pixels in
/// raster order.
fn even_tile_order() -> Vec<(u32, u32)> {
    let mut order = Vec::new();
    for (qx, qy) in [(0, 0), (0, 16), (16, 16), (16, 0)] {
        for by in 0..4 {
            for bx in 0..4 {
                for py in 0..4 {
                    for px in 0..4 {
                        order.push((qx + 4 * bx + px, qy + 4 * by + py));
                    }
                }
            }
        }
    }
    order
}

#[test]
fn tiled_round_trip_places_every_index() {
    let order = even_tile_order();
    let mut src = vec![0u8; 4096];
    for (s, &(x, y)) in order.iter().enumerate() {
        let i = y * 32 + x;
        src[4 * s] = (i & 0xFF) as u8;
        src[4 * s + 1] = (i >> 8) as u8;
    }
    let p = parts(to_image(&src, (1, 1), (32, 32)));
    assert_eq!((p.0, p.1), (32, 32));
    for i in 0..1024u32 {
        let (r, g, b) = pixel(&p, i % 32, i / 32);
        assert_eq!(r, 0);
        assert_eq!((g as u32) << 8 | b as u32, i);
    }
}

#[test]
fn tile_positions_follow_the_quadrant_order() {
    let order = even_tile_order();
    for (s, &pos) in order.iter().enumerate() {
        assert_eq!(tile_pixel_position(1, 0, s as u32), pos);
    }
    // Odd tile rows visit the quadrants in reverse order.
    assert_eq!(tile_pixel_position(1, 1, 0), (16, 32));
    assert_eq!(tile_pixel_position(1, 1, 256), (16, 48));
    assert_eq!(tile_pixel_position(1, 1, 512), (0, 48));
    assert_eq!(tile_pixel_position(1, 1, 768), (0, 32));
    // Odd tile rows run right to left.
    assert_eq!(tile_pixel_position(2, 2, 0), (48, 32));
    assert_eq!(tile_pixel_position(2, 3, 0), (16, 32));
    assert_eq!(tile_pixel_position(2, 1, 0), (32, 0));
}

#[test]
fn to_image_crops_to_the_frame() {
    let src: Vec<u8> = (0..8192u32).map(|i| (i % 251) as u8).collect();
    let p = parts(to_image(&src, (2, 1), (40, 20)));
    assert_eq!((p.0, p.1), (40, 20));
    // Pixel (33, 0) is the second pixel of tile 1.
    assert_eq!(pixel(&p, 33, 0), (src[4096 + 6], src[4096 + 5], src[4096 + 4]));
}

#[test]
fn linear_decode_reads_blue_green_red() {
    let (w, h, pitch) = (3u32, 2u32, 16u32);
    let src: Vec<u8> = (0..(pitch * h)).map(|i| (i * 7 + 3) as u8).collect();
    let p = parts(decode_linear_image(&src, (w, h), pitch));
    assert_eq!((p.0, p.1), (w, h));
    for y in 0..h {
        for x in 0..w {
            let o = (y * pitch + 4 * x) as usize;
            assert_eq!(pixel(&p, x, y), (src[o + 2], src[o + 1], src[o]));
        }
    }
}

#[test]
fn yuv_conversion_boundaries() {
    assert_eq!(YUV420::new(235, 128, 128).rgb(), (255, 255, 255));
    assert_eq!(YUV420::new(16, 128, 128).rgb(), (0, 0, 0));
    assert_eq!(YUV420::new(81, 90, 240).rgb(), (255, 0, 0));
    assert_eq!(YUV420::new(126, 128, 128).rgb(), (128, 128, 128));
}

#[test]
fn decimated_tiles_have_a_quarter_of_the_size() {
    let src = vec![0u8; 4096 * 6];
    let p = parts(decode_tiled_small_image(&src, (3, 2)));
    assert_eq!((p.0, p.1), (24, 16));
}

#[test]
fn uniform_source_decimates_to_the_same_colour() {
    let mut src = vec![0u8; 4096 * 2];
    for i in 0..2048 {
        src[4 * i] = 10;
        src[4 * i + 1] = 20;
        src[4 * i + 2] = 30;
        src[4 * i + 3] = 0xFF;
    }
    let p = parts(decode_tiled_small_image(&src, (2, 1)));
    assert_eq!((p.0, p.1), (16, 8));
    for y in 0..8 {
        for x in 0..16 {
            assert_eq!(pixel(&p, x, y), (30, 20, 10));
        }
    }
}

#[test]
fn decimation_averages_each_block() {
    let mut src = vec![0u8; 4096];
    for s in 0..16u8 {
        src[4 * s as usize] = s;
        src[4 * s as usize + 1] = 2 * s;
        src[4 * s as usize + 2] = 3 * s;
    }
    let p = parts(decode_tiled_small_image(&src, (1, 1)));
    assert_eq!(pixel(&p, 0, 0), (22, 15, 7));
    assert_eq!(pixel(&p, 1, 0), (0, 0, 0));
}

#[test]
fn pixel_average_of_sixteen_words() {
    let mut avg = PixelAverage::new();
    for i in 0..16u32 {
        avg.add(((255 - i) << 16) | (i << 8) | (i * 16));
    }
    // Red sums to 3960, green to 120, blue to 1920.
    assert_eq!(avg.rgb(), (247, 7, 120));
}

#[test]
fn le_word_reads_little_endian() {
    assert_eq!(read_le_u32(&[1, 2, 3, 4, 5], 1), 0x0504_0302);
}

#[test]
fn rgb565_expands_each_channel() {
    let src = vec![0x00, 0xF8, 0xE0, 0x07, 0x1F, 0x00, 0x10, 0x84];
    let p = parts(rgb565_to_rgb888(&src, 8, (4, 1)));
    assert_eq!(pixel(&p, 0, 0), (255, 0, 0));
    assert_eq!(pixel(&p, 1, 0), (0, 255, 0));
    assert_eq!(pixel(&p, 2, 0), (0, 0, 255));
    assert_eq!(pixel(&p, 3, 0), (132, 130, 132));
}

#[test]
fn grey_plane_repeats_luma() {
    let src = vec![1, 2, 3, 4, 5, 6];
    let p = parts(decode_small_image(&src, (3, 2)));
    assert_eq!(pixel(&p, 2, 1), (6, 6, 6));
    assert_eq!(pixel(&p, 0, 1), (4, 4, 4));
}

fn planar_frame() -> (Planes, Vec<u8>) {
    // 4x4 luma at 0 (pitch 4), 2x2 Cb at 16 (pitch 2), 2x2 Cr at 20 (pitch 2).
    let layout = Planes {
        size: (4, 4),
        planes: [
            YUV420Plane { pitch: 4, size: (4, 4), offset: 0 },
            YUV420Plane { pitch: 2, size: (2, 2), offset: 16 },
            YUV420Plane { pitch: 2, size: (2, 2), offset: 20 },
        ],
    };
    let mut src = vec![16u8; 24];
    for i in 16..24 {
        src[i] = 128;
    }
    src[5] = 235; // luma of (1, 1)
    src[16 + 3] = 90; // Cb of the bottom-right 2x2 block
    src[20 + 3] = 240; // Cr of the bottom-right 2x2 block
    src[2 * 4 + 2] = 81; // luma of (2, 2)
    (layout, src)
}

#[test]
fn planar_yuv_decodes_each_pixel() {
    let (layout, src) = planar_frame();
    let p = parts(decode_image_multichannel(&src, &layout));
    assert_eq!((p.0, p.1), (4, 4));
    assert_eq!(pixel(&p, 1, 1), (255, 255, 255));
    assert_eq!(pixel(&p, 0, 0), (0, 0, 0));
    assert_eq!(pixel(&p, 2, 2), (255, 0, 0));
}

#[test]
fn planar_yuv_at_half_resolution() {
    let (layout, src) = planar_frame();
    let p = parts(decode_reduced_image_multichannel(&src, &layout));
    assert_eq!((p.0, p.1), (2, 2));
    assert_eq!(pixel(&p, 1, 1), (255, 0, 0));
    assert_eq!(pixel(&p, 0, 0), (0, 0, 0));
}

#[test]
fn plane_geometry() {
    let plane = YUV420Plane { pitch: 10, size: (10, 3), offset: 7 };
    assert_eq!(plane.len(), 30);
    assert_eq!(plane.end(), 37);
    assert_eq!(plane.offset(4, 2), 24);
    let fb = FramebufferYUV420 {
        size: (4, 4),
        scale: 1,
        planes: [
            YUV420Plane { pitch: 4, size: (4, 4), offset: 0 },
            YUV420Plane { pitch: 2, size: (2, 2), offset: 30 },
            YUV420Plane { pitch: 2, size: (2, 2), offset: 16 },
        ],
    };
    assert_eq!(fb.len(), 34);
}

#[test]
fn nv12_columns() {
    // Two columns' worth of width would need 256 pixels; one column of 4 rows suffices here.
    let fb = ColumnFramebuffer {
        format: ColumnFormat::Nv12,
        size: (4, 2),
        scale: 1,
        column_height: 4,
        chroma_offset: 256,
    };
    let mut src = vec![16u8; 512];
    for i in 256..384 {
        src[i] = 128;
    }
    src[128 + 3] = 235; // luma of (3, 1)
    src[256 + 2] = 90; // Cb for x 2..3, rows 0..1
    src[256 + 3] = 240; // Cr
    src[128 + 2] = 81; // luma of (2, 1)
    let p = parts(decode_column_image(&src, &fb));
    assert_eq!((p.0, p.1), (4, 2));
    assert_eq!(pixel(&p, 2, 1), (255, 0, 0));
    assert_eq!(pixel(&p, 0, 0), (0, 0, 0));
}

#[test]
fn nv12_second_column() {
    let fb = ColumnFramebuffer {
        format: ColumnFormat::Nv12,
        size: (130, 1),
        scale: 1,
        column_height: 2,
        chroma_offset: 128,
    };
    let mut src = vec![128u8; 512];
    src[256] = 235; // luma of (128, 0): first byte of the second column
    src[0] = 16;
    let p = parts(decode_column_image(&src, &fb));
    assert_eq!(pixel(&p, 128, 0), (255, 255, 255));
    assert_eq!(pixel(&p, 0, 0), (0, 0, 0));
}

#[test]
fn p030_columns() {
    let fb = ColumnFramebuffer {
        format: ColumnFormat::P030,
        size: (3, 1),
        scale: 1,
        column_height: 2,
        chroma_offset: 128,
    };
    let mut src = vec![0u8; 256];
    // Luma word: samples 64 (pixel 0), 940 (pixel 1), 512 (pixel 2), 10 bits each.
    let luma: u32 = 64 | (940 << 10) | (512 << 20);
    src[0..4].copy_from_slice(&luma.to_le_bytes());
    // Chroma samples Cb, Cr, Cb, Cr, all 512: three in the first word, one in the second.
    let chroma: u32 = 512 | (512 << 10) | (512 << 20);
    src[128..132].copy_from_slice(&chroma.to_le_bytes());
    src[132..136].copy_from_slice(&512u32.to_le_bytes());
    let p = parts(decode_column_image(&src, &fb));
    assert_eq!(pixel(&p, 0, 0), (0, 0, 0));
    assert_eq!(pixel(&p, 1, 0), (255, 255, 255));
    assert_eq!(pixel(&p, 2, 0), (130, 130, 130));
}

#[test]
fn tiled_decoders_without_columns() {
    let p = parts(decode_tiled_small_image(&[], (0, 3)));
    assert_eq!((p.0, p.1), (0, 24));
    let q = parts(to_image(&[], (0, 3), (0, 50)));
    assert_eq!((q.0, q.1), (0, 50));
    assert!(q.2.is_empty());
}

#[test]
fn pixel_average_takes_257_samples() {
    let mut avg = PixelAverage::new();
    for _ in 0..257 {
        avg.add(0xFFFF_FFFF);
    }
    let mut exact = PixelAverage::new();
    for _ in 0..16 {
        exact.add(0x00FF_FFFF);
    }
    assert_eq!(exact.rgb(), (255, 255, 255));
}

#[test]
fn wide_nv12_reads_every_fourth_pixel() {
    let fb = ColumnFramebuffer {
        format: ColumnFormat::Nv12,
        size: (8, 8),
        scale: 4,
        column_height: 12,
        chroma_offset: 128 * 8,
    };
    let mut src = vec![16u8; 128 * 12];
    for i in 128 * 8..128 * 12 {
        src[i] = 128;
    }
    src[128 * 4 + 4] = 235; // luma of (4, 4), output pixel (1, 1)
    src[128 * 4 + 3] = 235; // luma of (3, 4): skipped
    let p = parts(decode_column_image(&src, &fb));
    assert_eq!((p.0, p.1), (2, 2));
    assert_eq!(pixel(&p, 1, 1), (255, 255, 255));
    assert_eq!(pixel(&p, 0, 1), (0, 0, 0));
}

#[test]
fn packed_planes_decode_at_full_size() {
    // 4x2 luma, 2x1 chroma planes.
    let luma = [16, 235, 16, 81, 16, 16, 235, 16];
    let cb = [128, 90];
    let cr = [128, 240];
    let p = parts(decode_small_image_multichannel([&luma, &cb, &cr], (4, 2)));
    assert_eq!((p.0, p.1), (4, 2));
    assert_eq!(pixel(&p, 1, 0), (255, 255, 255));
    assert_eq!(pixel(&p, 0, 1), (0, 0, 0));
    assert_eq!(pixel(&p, 3, 0), (255, 0, 0));
    // (2, 1) has white luma but the red chroma of its 2x2 block.
    assert_eq!(pixel(&p, 2, 1), YUV420::new(235, 90, 240).rgb());
}
