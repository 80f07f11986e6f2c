use vstd::prelude::*;
use drm_fourcc::{DrmFourcc, DrmModifier};
use crate::column::{
    column_count, column_layout_fits, column_pixel, column_stride, decode_column_image,
    ColumnFormat, ColumnFramebuffer,
};
use crate::framebuffer::{
    decode_image_multichannel, decode_reduced_image_multichannel, plane_fits, plane_rows,
    yuv420_framebuffer, Framebuffer, FramebufferYUV420, FrameDescriptor, YUV420Plane, YUV420,
};
use crate::image_decoder::{
    block_average, decimation_preserves_uniform_color, decode_linear_image, decode_tiled_small_image, rgb565_at, rgb565_to_rgb888,
    xrgb_at,
};
use crate::raster::{image_size, raster_wf, rgb_at, Raster};
use crate::tiling::tiled_offset;

verus! {

/// Format codes of drm_fourcc's table that the decoder handles.
pub const XRGB8888: u32 = 875713112;

pub const ARGB8888: u32 = 875713089;

pub const RGB565: u32 = 909199186;

pub const YUV420_CODE: u32 = 842093913;

pub const NV12: u32 = 842094158;

/// The 10-bit column-packed format, "P030"; drm_fourcc's table does not list it.
pub const P030: u32 = 808661072;

/// Layout modifiers of drm_fourcc's table that the decoder handles.
pub const MOD_LINEAR: u64 = 0;

pub const MOD_VC4_T_TILED: u64 = 504403158265495553;

pub const MOD_SAND128: u64 = 504403158265495556;

/// Pixel formats that the decoder tells apart.
#[derive(Clone, Copy, PartialEq, Eq, Structural)]
pub enum PixelFormat {
    Xrgb8888,
    Argb8888,
    Rgb565,
    Yuv420,
    Nv12,
    Other,
}

/// Layout modifiers that the decoder tells apart.
#[derive(Clone, Copy, PartialEq, Eq, Structural)]
pub enum LayoutModifier {
    Linear,
    Vc4Tiled,
    Sand128,
    Other,
}

/// Relies on drm_fourcc's `DrmFourcc::try_from(u32)`: it gives the variant whose
/// `DRM_FOURCC_*` code equals the argument, and an error for a code outside its table.
#[verifier::external_body]
fn pixel_format_of(code: u32) -> (r: PixelFormat)
    ensures
        (r == PixelFormat::Xrgb8888) == (code == XRGB8888),
        (r == PixelFormat::Argb8888) == (code == ARGB8888),
        (r == PixelFormat::Rgb565) == (code == RGB565),
        (r == PixelFormat::Yuv420) == (code == YUV420_CODE),
        (r == PixelFormat::Nv12) == (code == NV12),
{
    match DrmFourcc::try_from(code) {
        Ok(DrmFourcc::Xrgb8888) => PixelFormat::Xrgb8888,
        Ok(DrmFourcc::Argb8888) => PixelFormat::Argb8888,
        Ok(DrmFourcc::Rgb565) => PixelFormat::Rgb565,
        Ok(DrmFourcc::Yuv420) => PixelFormat::Yuv420,
        Ok(DrmFourcc::Nv12) => PixelFormat::Nv12,
        _ => PixelFormat::Other,
    }
}

/// Relies on drm_fourcc's `DrmModifier::from(u64)`: it gives the variant whose
/// `DRM_FOURCC_*` value equals the argument, and `Unrecognized` for a value outside its table.
#[verifier::external_body]
fn layout_modifier_of(modifier: u64) -> (r: LayoutModifier)
    ensures
        (r == LayoutModifier::Linear) == (modifier == MOD_LINEAR),
        (r == LayoutModifier::Vc4Tiled) == (modifier == MOD_VC4_T_TILED),
        (r == LayoutModifier::Sand128) == (modifier == MOD_SAND128),
{
    match DrmModifier::from(modifier) {
        DrmModifier::Linear => LayoutModifier::Linear,
        DrmModifier::Broadcom_vc4_t_tiled => LayoutModifier::Vc4Tiled,
        DrmModifier::Broadcom_sand128 => LayoutModifier::Sand128,
        _ => LayoutModifier::Other,
    }
}

/// A column-packed modifier with its column height (bits 8 to 23) cleared.
pub open spec fn column_modifier_base(modifier: u64) -> u64 {
    modifier & 0xFFFF_FFFF_FF00_00FF
}

/// The column height, in rows, that a column-packed modifier carries in bits 8 to 23.
pub open spec fn column_height_of(modifier: u64) -> u32 {
    ((modifier >> 8u64) & 0xFFFF) as u32
}

/// Three-plane 4:2:0 frames wider than 640 pixels are read at half resolution each way.
pub open spec fn chroma_scale(width: u32) -> u32 {
    if width > 640 {
        2
    } else {
        1
    }
}

/// Column-packed frames wider than 640 pixels are read every fourth pixel (NV12) or every
/// third (P030, one sample in each three-sample word) each way.
pub open spec fn column_scale(format: ColumnFormat, width: u32) -> u32 {
    if width > 640 {
        match format {
            ColumnFormat::Nv12 => 4,
            ColumnFormat::P030 => 3,
        }
    } else {
        1
    }
}

/// The decode strategies, with what each needs to know of the frame.
#[derive(Clone, Copy)]
pub enum Strategy {
    /// 32-bit pixels in rows `pitch` bytes apart.
    Linear { size: (u32, u32), pitch: u32 },
    /// 16-bit 5-6-5 pixels in rows `pitch` bytes apart.
    Rgb565 { size: (u32, u32), pitch: u32 },
    /// 32-bit pixels in 32x32 tiles, decoded at a quarter of the resolution each way.
    Tiled { tiles: (u32, u32) },
    /// Three planes, 4:2:0, read every `scale`-th pixel.
    Planar { layout: YUV420, scale: u32 },
    /// Luma and chroma packed in 128-byte columns.
    Columns { fb: ColumnFramebuffer },
}

/// What a capture reads: how to decode it, and how many bytes of which buffer to map.
#[derive(Clone, Copy)]
pub struct CapturePlan {
    pub strategy: Strategy,
    pub handle: u32,
    pub length: usize,
}

/// Why a frame could not be captured.
#[derive(Clone, Copy, PartialEq, Eq, Structural)]
pub enum CaptureError {
    /// No decode strategy is registered for the frame's format and modifier.
    UnsupportedFormat,
    /// The strategy's geometry does not fit the frame's pitches, offsets or size.
    MalformedLayout,
    /// A kernel call failed.
    KernelIo(KernelIoError),
}

/// The kernel calls that a capture makes.
#[derive(Clone, Copy, PartialEq, Eq, Structural)]
pub enum OsOp {
    Advise,
    Export,
    QueryOffset,
    MapBuffer,
    Unmap,
    Close,
    Release,
}

/// A failed kernel call and the error number it returned.
#[derive(Clone, Copy, PartialEq, Eq, Structural)]
pub struct KernelIoError {
    pub op: OsOp,
    pub errno: i32,
}

/// The strategy registered for a format and first-plane modifier, if any.
pub enum StrategyKind {
    Linear,
    Rgb565,
    Tiled,
    Planar,
    Columns(ColumnFormat),
}

pub open spec fn strategy_kind(format: u32, modifier: u64) -> Option<StrategyKind> {
    if (format == XRGB8888 || format == ARGB8888) && modifier == MOD_LINEAR {
        Some(StrategyKind::Linear)
    } else if (format == XRGB8888 || format == ARGB8888) && modifier == MOD_VC4_T_TILED {
        Some(StrategyKind::Tiled)
    } else if format == RGB565 && modifier == MOD_LINEAR {
        Some(StrategyKind::Rgb565)
    } else if format == YUV420_CODE && modifier == MOD_LINEAR {
        Some(StrategyKind::Planar)
    } else if format == NV12 && column_modifier_base(modifier) == MOD_SAND128 {
        Some(StrategyKind::Columns(ColumnFormat::Nv12))
    } else if format == P030 && column_modifier_base(modifier) == MOD_SAND128 {
        Some(StrategyKind::Columns(ColumnFormat::P030))
    } else {
        None
    }
}

/// Plane `i` of a three-plane frame: its pitch, its offset, and rows scaled by pitch.
pub open spec fn plane_of(desc: FrameDescriptor, i: int) -> YUV420Plane {
    YUV420Plane {
        pitch: desc.planes[i].pitch,
        size: (
            desc.planes[i].pitch,
            plane_rows(desc.height, desc.planes[i].pitch, desc.planes[0].pitch) as u32,
        ),
        offset: desc.planes[i].offset,
    }
}

pub open spec fn plane_end(plane: YUV420Plane) -> int {
    plane.offset + plane.pitch * plane.size.1
}

/// Bytes from the start of the buffer to the end of the furthest of the three planes.
pub open spec fn planar_length(desc: FrameDescriptor) -> int {
    let (a, b, c) = (plane_end(plane_of(desc, 0)), plane_end(plane_of(desc, 1)), plane_end(plane_of(desc, 2)));
    if a >= b && a >= c {
        a
    } else if b >= c {
        b
    } else {
        c
    }
}

/// Tiles needed to cover `n` pixels.
pub open spec fn tile_count(n: u32) -> int {
    (n + 31) / 32
}

/// The column framebuffer that a column-packed frame is read through.
pub open spec fn column_framebuffer(desc: FrameDescriptor, format: ColumnFormat) -> ColumnFramebuffer {
    ColumnFramebuffer {
        format,
        size: (desc.width, desc.height),
        scale: column_scale(format, desc.width),
        column_height: column_height_of(desc.planes[0].modifier),
        chroma_offset: desc.planes[1].offset,
    }
}

/// Bytes that a column-packed frame spans.
pub open spec fn column_length(fb: ColumnFramebuffer) -> int {
    column_count(fb.format, fb.size.0 as int) * column_stride(fb)
}

/// The frame's geometry suits the strategy, and every size it implies fits the machine.
pub open spec fn geometry_ok(desc: FrameDescriptor, kind: StrategyKind) -> bool {
    let (w, h) = (desc.width, desc.height);
    let p0 = desc.planes[0];
    match kind {
        StrategyKind::Linear => 4 * w <= p0.pitch && p0.pitch * h <= usize::MAX && 3 * w * h
            <= usize::MAX,
        StrategyKind::Rgb565 => 2 * w <= p0.pitch && p0.pitch * h <= usize::MAX && 3 * w * h
            <= usize::MAX,
        StrategyKind::Tiled => {
            let (cols, rows) = (tile_count(w), tile_count(h));
            &&& 32 * cols <= u32::MAX
            &&& 32 * rows <= u32::MAX
            &&& 4096 * cols * rows <= usize::MAX
            &&& 3 * (8 * cols) * (8 * rows) <= usize::MAX
        },
        StrategyKind::Planar => {
            let s = chroma_scale(w);
            let len = planar_length(desc);
            &&& p0.pitch > 0
            &&& forall|i: int|
                0 <= i < 3 ==> plane_rows(h, #[trigger] desc.planes[i].pitch, p0.pitch) <= u32::MAX
            &&& len <= usize::MAX
            &&& plane_fits(plane_of(desc, 0), 1, (w, h), len)
            &&& plane_fits(plane_of(desc, 1), 2, (w, h), len)
            &&& plane_fits(plane_of(desc, 2), 2, (w, h), len)
            &&& 3 * (w / s) * (h / s) <= usize::MAX
        },
        StrategyKind::Columns(f) => {
            let fb = column_framebuffer(desc, f);
            let s = column_scale(f, w);
            &&& column_length(fb) <= usize::MAX
            &&& column_layout_fits(fb, column_length(fb))
            &&& 3 * (w / s) * (h / s) <= usize::MAX
        },
    }
}

/// The plan for a frame whose format is registered and whose geometry suits it.
pub open spec fn plan_for(desc: FrameDescriptor, kind: StrategyKind, p: CapturePlan) -> bool {
    let (w, h) = (desc.width, desc.height);
    let p0 = desc.planes[0];
    &&& p.handle == p0.handle
    &&& match kind {
        StrategyKind::Linear => p.strategy == Strategy::Linear { size: (w, h), pitch: p0.pitch }
            && p.length == p0.pitch * h,
        StrategyKind::Rgb565 => p.strategy == Strategy::Rgb565 { size: (w, h), pitch: p0.pitch }
            && p.length == p0.pitch * h,
        StrategyKind::Tiled => p.strategy == Strategy::Tiled {
            tiles: (tile_count(w) as u32, tile_count(h) as u32),
        } && p.length == 4096 * tile_count(w) * tile_count(h),
        StrategyKind::Planar => match p.strategy {
            Strategy::Planar { layout, scale } => {
                &&& layout.size == (w, h)
                &&& forall|i: int| 0 <= i < 3 ==> #[trigger] layout.planes[i] == plane_of(desc, i)
                &&& scale == chroma_scale(w)
                &&& p.length == planar_length(desc)
            },
            _ => false,
        },
        StrategyKind::Columns(f) => p.strategy == Strategy::Columns {
            fb: column_framebuffer(desc, f),
        } && p.length == column_length(column_framebuffer(desc, f)),
    }
}

/// What planning a capture of `desc` gives: `UnsupportedFormat` for a format and modifier
/// with no strategy, `MalformedLayout` for a geometry that does not suit its strategy, and
/// the strategy's plan otherwise.
pub open spec fn plan_matches(desc: FrameDescriptor, r: Result<CapturePlan, CaptureError>) -> bool {
    match strategy_kind(desc.pixel_format, desc.planes[0].modifier) {
        None => r == Err::<CapturePlan, CaptureError>(CaptureError::UnsupportedFormat),
        Some(kind) => match r {
            Ok(p) => geometry_ok(desc, kind) && plan_for(desc, kind, p),
            Err(e) => e == CaptureError::MalformedLayout && !geometry_ok(desc, kind),
        },
    }
}

/// The plan's strategy can decode a mapping of `length` bytes.
pub open spec fn plan_ready(p: CapturePlan) -> bool {
    let len = p.length as int;
    match p.strategy {
        Strategy::Linear { size, pitch } => 4 * size.0 <= pitch && size.1 * pitch <= len && 3
            * size.0 * size.1 <= usize::MAX,
        Strategy::Rgb565 { size, pitch } => 2 * size.0 <= pitch && size.1 * pitch <= len && 3
            * size.0 * size.1 <= usize::MAX,
        Strategy::Tiled { tiles } => {
            &&& 32 * tiles.0 <= u32::MAX
            &&& 32 * tiles.1 <= u32::MAX
            &&& 4096 * tiles.0 * tiles.1 <= len
            &&& 3 * (8 * tiles.0) * (8 * tiles.1) <= usize::MAX
        },
        Strategy::Planar { layout, scale } => {
            &&& scale == 1 || scale == 2
            &&& plane_fits(layout.planes[0], 1, layout.size, len)
            &&& plane_fits(layout.planes[1], 2, layout.size, len)
            &&& plane_fits(layout.planes[2], 2, layout.size, len)
            &&& 3 * (layout.size.0 / scale) * (layout.size.1 / scale) <= usize::MAX
        },
        Strategy::Columns { fb } => column_layout_fits(fb, len) && 3 * (fb.size.0 / fb.scale) * (
        fb.size.1 / fb.scale) <= usize::MAX,
    }
}

/// `img` is the decoding of `mapping` by the strategy.
pub open spec fn decoded(strategy: Strategy, mapping: Seq<u8>, img: Raster) -> bool {
    &&& raster_wf(img)
    &&& match strategy {
        Strategy::Linear { size, pitch } => image_size(img) == size && forall|x: int, y: int|
            0 <= x < size.0 && 0 <= y < size.1 ==> #[trigger] rgb_at(img, x, y) == xrgb_at(
                mapping,
                y * pitch + 4 * x,
            ),
        Strategy::Rgb565 { size, pitch } => image_size(img) == size && forall|x: int, y: int|
            0 <= x < size.0 && 0 <= y < size.1 ==> #[trigger] rgb_at(img, x, y) == rgb565_at(
                mapping,
                y * pitch + 2 * x,
            ),
        Strategy::Tiled { tiles } => image_size(img).0 == 8 * tiles.0 && image_size(img).1 == 8
            * tiles.1 && forall|x: int, y: int|
            0 <= x < 8 * tiles.0 && 0 <= y < 8 * tiles.1 ==> #[trigger] rgb_at(img, x, y)
                == block_average(mapping, 4 * tiled_offset(tiles.0 as int, 4 * x, 4 * y)),
        Strategy::Planar { layout, scale } => {
            let fb = yuv420_framebuffer(layout, scale);
            image_size(img) == fb.spec_size() && forall|x: int, y: int|
                0 <= x < fb.spec_size().0 && 0 <= y < fb.spec_size().1 ==> #[trigger] rgb_at(
                    img,
                    x,
                    y,
                ) == fb.spec_get(mapping, x, y)
        },
        Strategy::Columns { fb } => image_size(img) == fb.spec_size() && forall|x: int, y: int|
            0 <= x < fb.spec_size().0 && 0 <= y < fb.spec_size().1 ==> #[trigger] rgb_at(img, x, y)
                == column_pixel(fb, mapping, fb.scale * x, fb.scale * y),
    }
}

/// Decodes a mapped buffer by the plan's strategy.
pub fn decode_frame(plan: &CapturePlan, mapping: &[u8]) -> (img: Raster)
    requires
        plan_ready(*plan),
        mapping@.len() == plan.length,
    ensures
        decoded(plan.strategy, mapping@, img),
{
    match plan.strategy {
        Strategy::Linear { size, pitch } => decode_linear_image(mapping, size, pitch),
        Strategy::Rgb565 { size, pitch } => rgb565_to_rgb888(mapping, pitch, size),
        Strategy::Tiled { tiles } => decode_tiled_small_image(mapping, tiles),
        Strategy::Planar { layout, scale } => {
            if scale == 2 {
                decode_reduced_image_multichannel(mapping, &layout)
            } else {
                decode_image_multichannel(mapping, &layout)
            }
        },
        Strategy::Columns { fb } => decode_column_image(mapping, &fb),
    }
}

proof fn lemma_mul_bound(a: int, b: int, c: int, d: int)
    requires
        0 <= a <= c,
        0 <= b <= d,
    ensures
        0 <= a * b <= c * d,
{
    assert(0 <= a * b <= c * d) by (nonlinear_arith)
        requires 0 <= a <= c, 0 <= b <= d;
}

/// Plans a linear frame of `bpp`-byte pixels (4 or 2).
fn plan_linear(desc: &FrameDescriptor, bpp: u32) -> (r: Result<CapturePlan, CaptureError>)
    requires
        bpp == 4 || bpp == 2,
    ensures
        ({
            let kind = if bpp == 4 { StrategyKind::Linear } else { StrategyKind::Rgb565 };
            match r {
                Ok(p) => geometry_ok(*desc, kind) && plan_for(*desc, kind, p),
                Err(e) => e == CaptureError::MalformedLayout && !geometry_ok(*desc, kind),
            }
        }),
{
    let w = desc.width as u128;
    let h = desc.height as u128;
    let pitch = desc.planes[0].pitch as u128;
    proof {
        lemma_mul_bound(pitch as int, h as int, u32::MAX as int, u32::MAX as int);
        lemma_mul_bound(w as int, h as int, u32::MAX as int, u32::MAX as int);
        lemma_mul_bound(bpp as int, w as int, 4, u32::MAX as int);
    }
    if (bpp as u128) * w <= pitch && pitch * h <= usize::MAX as u128 && 3 * (w * h) <= usize::MAX as u128 {
        let size = (desc.width, desc.height);
        let strategy = if bpp == 4 {
            Strategy::Linear { size, pitch: desc.planes[0].pitch }
        } else {
            Strategy::Rgb565 { size, pitch: desc.planes[0].pitch }
        };
        assert(3 * (w * h) == 3 * w * h) by (nonlinear_arith);
        Ok(CapturePlan { strategy, handle: desc.planes[0].handle, length: (pitch * h) as usize })
    } else {
        assert(3 * (w * h) == 3 * w * h) by (nonlinear_arith);
        Err(CaptureError::MalformedLayout)
    }
}

/// Plans a tiled frame: whole 32x32 tiles cover it.
fn plan_tiled(desc: &FrameDescriptor) -> (r: Result<CapturePlan, CaptureError>)
    ensures
        match r {
            Ok(p) => geometry_ok(*desc, StrategyKind::Tiled) && plan_for(*desc, StrategyKind::Tiled, p),
            Err(e) => e == CaptureError::MalformedLayout && !geometry_ok(*desc, StrategyKind::Tiled),
        },
{
    let cols = (desc.width as u128 + 31) / 32;
    let rows = (desc.height as u128 + 31) / 32;
    proof {
        lemma_mul_bound(cols as int, rows as int, u32::MAX as int, u32::MAX as int);
    }
    if 32 * cols <= u32::MAX as u128 && 32 * rows <= u32::MAX as u128
        && 4096 * (cols * rows) <= usize::MAX as u128
        && 3 * (64 * (cols * rows)) <= usize::MAX as u128 {
        proof {
            assert(4096 * (cols * rows) == 4096 * cols * rows) by (nonlinear_arith);
            assert(3 * (64 * (cols * rows)) == 3 * (8 * cols) * (8 * rows)) by (nonlinear_arith);
        }
        let strategy = Strategy::Tiled { tiles: (cols as u32, rows as u32) };
        Ok(CapturePlan { strategy, handle: desc.planes[0].handle, length: (4096 * (cols * rows)) as usize })
    } else {
        proof {
            assert(4096 * (cols * rows) == 4096 * cols * rows) by (nonlinear_arith);
            assert(3 * (64 * (cols * rows)) == 3 * (8 * cols) * (8 * rows)) by (nonlinear_arith);
        }
        Err(CaptureError::MalformedLayout)
    }
}

/// Rows of plane `i`, or `None` when they do not fit in 32 bits.
fn checked_plane_rows(desc: &FrameDescriptor, i: usize) -> (r: Option<u32>)
    requires
        i < 3,
        desc.planes[0].pitch > 0,
    ensures
        r is Some <==> plane_rows(desc.height, desc.planes[i as int].pitch, desc.planes[0].pitch) <= u32::MAX,
        r is Some ==> r->0 == plane_rows(desc.height, desc.planes[i as int].pitch, desc.planes[0].pitch),
{
    proof {
        lemma_mul_bound(desc.height as int, desc.planes[i as int].pitch as int, u32::MAX as int, u32::MAX as int);
    }
    let rows = desc.height as u64 * desc.planes[i].pitch as u64 / desc.planes[0].pitch as u64;
    if rows <= u32::MAX as u64 {
        Some(rows as u32)
    } else {
        None
    }
}

/// The plane holds every sample of a frame subsampled `sub` times, within `len` bytes.
fn plane_fits_exec(plane: &YUV420Plane, sub: u32, size: (u32, u32), len: u128) -> (r: bool)
    requires
        sub == 1 || sub == 2,
    ensures
        r == plane_fits(*plane, sub as int, size, len as int),
{
    let w = (size.0 as u128 + sub as u128 - 1) / sub as u128;
    let h = (size.1 as u128 + sub as u128 - 1) / sub as u128;
    proof {
        lemma_mul_bound(plane.pitch as int, h as int, u32::MAX as int, u32::MAX as int);
    }
    w <= plane.pitch as u128 && plane.offset as u128 + plane.pitch as u128 * h <= len
}

/// Plans a three-plane YUV 4:2:0 frame.
fn plan_planar(desc: &FrameDescriptor) -> (r: Result<CapturePlan, CaptureError>)
    ensures
        match r {
            Ok(p) => geometry_ok(*desc, StrategyKind::Planar) && plan_for(*desc, StrategyKind::Planar, p),
            Err(e) => e == CaptureError::MalformedLayout && !geometry_ok(*desc, StrategyKind::Planar),
        },
{
    if desc.planes[0].pitch == 0 {
        return Err(CaptureError::MalformedLayout);
    }
    let r0 = checked_plane_rows(desc, 0);
    let r1 = checked_plane_rows(desc, 1);
    let r2 = checked_plane_rows(desc, 2);
    if r0.is_none() || r1.is_none() || r2.is_none() {
        proof {
            let i: int = if r0.is_none() { 0 } else if r1.is_none() { 1 } else { 2 };
            assert(plane_rows(desc.height, desc.planes[i].pitch, desc.planes[0].pitch) > u32::MAX);
        }
        return Err(CaptureError::MalformedLayout);
    }
    let layout = YUV420::from(desc);
    proof {
        assert(layout.planes[0] == plane_of(*desc, 0));
        assert(layout.planes[1] == plane_of(*desc, 1));
        assert(layout.planes[2] == plane_of(*desc, 2));
        assert forall|i: int| 0 <= i < 3 implies #[trigger] layout.planes[i] == plane_of(*desc, i) by {}
    }
    let mut ends: [u128; 3] = [0, 0, 0];
    let mut i: usize = 0;
    while i < 3
        invariant
            i <= 3,
            forall|k: int| 0 <= k < 3 ==> #[trigger] layout.planes[k] == plane_of(*desc, k),
            forall|k: int| 0 <= k < i ==> #[trigger] ends[k] == plane_end(plane_of(*desc, k)),
        decreases 3 - i,
    {
        let pl = layout.planes[i];
        proof {
            lemma_mul_bound(pl.pitch as int, pl.size.1 as int, u32::MAX as int, u32::MAX as int);
        }
        ends[i] = pl.offset as u128 + pl.pitch as u128 * pl.size.1 as u128;
        i = i + 1;
    }
    if ends[0] > usize::MAX as u128 || ends[1] > usize::MAX as u128 || ends[2] > usize::MAX as u128 {
        return Err(CaptureError::MalformedLayout);
    }
    let w = desc.width;
    let h = desc.height;
    let scale: u32 = if w > 640 { 2 } else { 1 };
    let fb = FramebufferYUV420 { size: layout.size, scale, planes: layout.planes };
    let len = fb.len();
    proof {
        assert(len == planar_length(*desc));
        lemma_mul_bound((w / scale) as int, (h / scale) as int, u32::MAX as int, u32::MAX as int);
    }
    let fits = plane_fits_exec(&layout.planes[0], 1, layout.size, len as u128)
        && plane_fits_exec(&layout.planes[1], 2, layout.size, len as u128)
        && plane_fits_exec(&layout.planes[2], 2, layout.size, len as u128);
    let out = (w / scale) as u128 * (h / scale) as u128;
    proof {
        assert(3 * out == 3 * (w / scale) * (h / scale)) by (nonlinear_arith)
            requires out == (w / scale) * (h / scale);
        assert(scale == chroma_scale(w));
    }
    if fits && 3 * out <= usize::MAX as u128 {
        Ok(CapturePlan { strategy: Strategy::Planar { layout, scale }, handle: desc.planes[0].handle, length: len })
    } else {
        Err(CaptureError::MalformedLayout)
    }
}

/// Plans a column-packed frame.
fn plan_columns(desc: &FrameDescriptor, format: ColumnFormat) -> (r: Result<CapturePlan, CaptureError>)
    ensures
        match r {
            Ok(p) => geometry_ok(*desc, StrategyKind::Columns(format)) && plan_for(
                *desc,
                StrategyKind::Columns(format),
                p,
            ),
            Err(e) => e == CaptureError::MalformedLayout && !geometry_ok(
                *desc,
                StrategyKind::Columns(format),
            ),
        },
{
    let w = desc.width;
    let h = desc.height;
    let modifier = desc.planes[0].modifier;
    let column_height = ((modifier >> 8u64) & 0xFFFF) as u32;
    let scale: u32 = if w <= 640 {
        1
    } else {
        match format {
            ColumnFormat::Nv12 => 4,
            ColumnFormat::P030 => 3,
        }
    };
    let fb = ColumnFramebuffer {
        format,
        size: (w, h),
        scale,
        column_height,
        chroma_offset: desc.planes[1].offset,
    };
    let per: u128 = match format {
        ColumnFormat::Nv12 => 128,
        ColumnFormat::P030 => 96,
    };
    let count = (w as u128 + per - 1) / per;
    let stride = 128 * column_height as u128;
    proof {
        assert(fb == column_framebuffer(*desc, format));
        lemma_mul_bound(count as int, stride as int, u32::MAX as int, 128 * u32::MAX as int);
        lemma_mul_bound((w / scale) as int, (h / scale) as int, u32::MAX as int, u32::MAX as int);
    }
    let len = count * stride;
    let out = (w / scale) as u128 * (h / scale) as u128;
    proof {
        assert(3 * out == 3 * (w / scale) * (h / scale)) by (nonlinear_arith)
            requires out == (w / scale) * (h / scale);
        assert(count == column_count(format, w as int));
        assert(stride == column_stride(fb));
        assert(len == column_length(fb));
    }
    if len <= usize::MAX as u128 && h <= column_height
        && desc.planes[1].offset as u128 + 128 * ((h as u128 + 1) / 2) <= stride
        && 3 * out <= usize::MAX as u128 {
        Ok(CapturePlan { strategy: Strategy::Columns { fb }, handle: desc.planes[0].handle, length: len as usize })
    } else {
        Err(CaptureError::MalformedLayout)
    }
}

/// Chooses the decode strategy for a frame and the length of buffer it reads.
pub fn plan_capture(desc: &FrameDescriptor) -> (r: Result<CapturePlan, CaptureError>)
    ensures
        plan_matches(*desc, r),
{
    let p0 = desc.planes[0];
    let format = pixel_format_of(desc.pixel_format);
    let layout = layout_modifier_of(p0.modifier);
    let rgb32 = format == PixelFormat::Xrgb8888 || format == PixelFormat::Argb8888;
    if rgb32 && layout == LayoutModifier::Linear {
        plan_linear(desc, 4)
    } else if rgb32 && layout == LayoutModifier::Vc4Tiled {
        plan_tiled(desc)
    } else if format == PixelFormat::Rgb565 && layout == LayoutModifier::Linear {
        plan_linear(desc, 2)
    } else if format == PixelFormat::Yuv420 && layout == LayoutModifier::Linear {
        plan_planar(desc)
    } else {
        let columns = layout_modifier_of(p0.modifier & 0xFFFF_FFFF_FF00_00FF) == LayoutModifier::Sand128;
        if format == PixelFormat::Nv12 && columns {
            plan_columns(desc, ColumnFormat::Nv12)
        } else if desc.pixel_format == P030 && columns {
            plan_columns(desc, ColumnFormat::P030)
        } else {
            Err(CaptureError::UnsupportedFormat)
        }
    }
}

/// A plan made for a frame can decode a mapping of the length it asks for.
pub proof fn lemma_plan_ready(desc: FrameDescriptor, p: CapturePlan)
    requires
        plan_matches(desc, Ok(p)),
    ensures
        plan_ready(p),
{
    let kind = strategy_kind(desc.pixel_format, desc.planes[0].modifier)->0;
    let (w, h) = (desc.width, desc.height);
    match kind {
        StrategyKind::Linear => {
            assert(h * desc.planes[0].pitch == desc.planes[0].pitch * h) by (nonlinear_arith);
        },
        StrategyKind::Rgb565 => {
            assert(h * desc.planes[0].pitch == desc.planes[0].pitch * h) by (nonlinear_arith);
        },
        StrategyKind::Planar => {
            if let Strategy::Planar { layout, scale } = p.strategy {
                assert(layout.planes[0] == plane_of(desc, 0));
                assert(layout.planes[1] == plane_of(desc, 1));
                assert(layout.planes[2] == plane_of(desc, 2));
            }
        },
        _ => {},
    }
}

/// A tiled frame decimated four times each way has `tiles.0 * 32 / 4` by `tiles.1 * 32 / 4`
/// pixels; when every pixel of the tiled buffer has one colour, so has every output pixel.
pub proof fn tiled_decimation_of_uniform_frame(
    mapping: Seq<u8>,
    tiles: (u32, u32),
    color: (u8, u8, u8),
    img: Raster,
)
    requires
        decoded(Strategy::Tiled { tiles }, mapping, img),
        4096 * tiles.0 * tiles.1 <= mapping.len(),
        forall|i: int| 0 <= i < 1024 * tiles.0 * tiles.1 ==> #[trigger] xrgb_at(mapping, 4 * i) == color,
    ensures
        image_size(img).0 == tiles.0 * 32 / 4,
        image_size(img).1 == tiles.1 * 32 / 4,
        forall|x: int, y: int|
            0 <= x < image_size(img).0 && 0 <= y < image_size(img).1 ==> #[trigger] rgb_at(img, x, y)
                == color,
{
    decimation_preserves_uniform_color(mapping, tiles, color);
}

} // verus!
