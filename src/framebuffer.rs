use vstd::prelude::*;
use crate::image_decoder::{yuv_to_rgb, YUV420 as YUV420Pixel};
use crate::raster::{blank_image, image_size, raster_wf, rgb_at, set_pixel, Raster};

verus! {

/// A mapped framebuffer that can be read one pixel at a time.
pub trait Framebuffer {
    /// Width and height of the decoded image.
    spec fn spec_size(&self) -> (u32, u32);

    /// The mapping holds every byte that a pixel of the image is read from.
    spec fn readable(&self, mapping: Seq<u8>) -> bool;

    /// The colour of pixel (x, y), read from the mapping.
    spec fn spec_get(&self, mapping: Seq<u8>, x: int, y: int) -> (u8, u8, u8);

    fn size(&self) -> (r: (u32, u32))
        ensures
            r == self.spec_size(),
    ;

    fn get(&self, mapping: &[u8], x: u32, y: u32) -> (r: (u8, u8, u8))
        requires
            self.readable(mapping@),
            x < self.spec_size().0,
            y < self.spec_size().1,
        ensures
            r == self.spec_get(mapping@, x as int, y as int),
    ;
}

/// Decodes every pixel of a framebuffer into a raster of its size.
pub fn decode_image<F: Framebuffer>(fb: &F, mapping: &[u8]) -> (img: Raster)
    requires
        fb.readable(mapping@),
        3 * fb.spec_size().0 * fb.spec_size().1 <= usize::MAX,
    ensures
        raster_wf(img),
        image_size(img) == fb.spec_size(),
        forall|x: int, y: int|
            0 <= x < fb.spec_size().0 && 0 <= y < fb.spec_size().1 ==> #[trigger] rgb_at(img, x, y)
                == fb.spec_get(mapping@, x, y),
{
    let (w, h) = fb.size();
    let mut img = blank_image(w, h);
    let mut y: u32 = 0;
    while y < h
        invariant
            (w, h) == fb.spec_size(),
            fb.readable(mapping@),
            y <= h,
            raster_wf(img),
            image_size(img) == (w, h),
            forall|i: int, j: int|
                0 <= i < w && 0 <= j < y ==> #[trigger] rgb_at(img, i, j) == fb.spec_get(
                    mapping@,
                    i,
                    j,
                ),
        decreases h - y,
    {
        let mut x: u32 = 0;
        while x < w
            invariant
                (w, h) == fb.spec_size(),
                fb.readable(mapping@),
                x <= w,
                y < h,
                raster_wf(img),
                image_size(img) == (w, h),
                forall|i: int, j: int|
                    0 <= i < w && 0 <= j < y ==> #[trigger] rgb_at(img, i, j) == fb.spec_get(
                        mapping@,
                        i,
                        j,
                    ),
                forall|i: int|
                    0 <= i < x ==> #[trigger] rgb_at(img, i, y as int) == fb.spec_get(
                        mapping@,
                        i,
                        y as int,
                    ),
            decreases w - x,
        {
            let px = fb.get(mapping, x, y);
            set_pixel(&mut img, x, y, px);
            x = x + 1;
        }
        y = y + 1;
    }
    img
}

/// One plane of a framebuffer: `size.1` rows of `pitch` bytes from byte `offset`.
#[derive(Clone, Copy)]
pub struct YUV420Plane {
    pub pitch: u32,
    pub size: (u32, u32),
    pub offset: u32,
}

impl YUV420Plane {
    /// Bytes the plane spans.
    pub fn len(&self) -> (r: usize)
        requires
            self.pitch * self.size.1 <= usize::MAX,
        ensures
            r == self.pitch * self.size.1,
    {
        self.pitch as usize * self.size.1 as usize
    }

    /// Byte just past the plane.
    pub fn end(&self) -> (r: usize)
        requires
            self.offset + self.pitch * self.size.1 <= usize::MAX,
        ensures
            r == self.offset + self.pitch * self.size.1,
    {
        self.offset as usize + self.len()
    }

    /// Index of sample (x, y) within the plane.
    pub fn offset(&self, x: usize, y: usize) -> (r: usize)
        requires
            self.pitch * y + x <= usize::MAX,
        ensures
            r == self.pitch * y + x,
    {
        self.pitch as usize * y + x
    }
}

/// The three planes of a YUV 4:2:0 framebuffer of `size` pixels.
#[derive(Clone, Copy)]
pub struct YUV420 {
    pub size: (u32, u32),
    pub planes: [YUV420Plane; 3],
}

/// Rows of a plane of the given pitch: the frame height scaled by its pitch over the luma pitch.
pub open spec fn plane_rows(height: u32, pitch: u32, luma_pitch: u32) -> int {
    height * pitch / luma_pitch as int
}

impl YUV420 {
    /// The plane geometry of a three-plane frame.
    pub fn from(desc: &FrameDescriptor) -> (r: YUV420)
        requires
            desc.planes[0].pitch > 0,
            forall|i: int| 0 <= i < 3 ==> plane_rows(desc.height, #[trigger] desc.planes[i].pitch, desc.planes[0].pitch) <= u32::MAX,
        ensures
            r.size == (desc.width, desc.height),
            forall|i: int|
                0 <= i < 3 ==> (#[trigger] r.planes[i]).pitch == desc.planes[i].pitch
                    && r.planes[i].offset == desc.planes[i].offset
                    && r.planes[i].size == (desc.planes[i].pitch, plane_rows(desc.height, desc.planes[i].pitch, desc.planes[0].pitch) as u32),
    {
        let p0 = plane_geometry(desc, 0);
        let p1 = plane_geometry(desc, 1);
        let p2 = plane_geometry(desc, 2);
        YUV420 { size: (desc.width, desc.height), planes: [p0, p1, p2] }
    }
}

fn plane_geometry(desc: &FrameDescriptor, i: usize) -> (r: YUV420Plane)
    requires
        i < 3,
        desc.planes[0].pitch > 0,
        plane_rows(desc.height, desc.planes[i as int].pitch, desc.planes[0].pitch) <= u32::MAX,
    ensures
        r.pitch == desc.planes[i as int].pitch,
        r.offset == desc.planes[i as int].offset,
        r.size == (desc.planes[i as int].pitch, plane_rows(desc.height, desc.planes[i as int].pitch, desc.planes[0].pitch) as u32),
{
    let pitch = desc.planes[i].pitch;
    proof {
        let (a, b) = (desc.height as int, pitch as int);
        assert(a * b <= u64::MAX) by (nonlinear_arith)
            requires 0 <= a <= u32::MAX, 0 <= b <= u32::MAX;
    }
    let rows = (desc.height as u64 * pitch as u64 / desc.planes[0].pitch as u64) as u32;
    YUV420Plane { pitch, size: (pitch, rows), offset: desc.planes[i].offset }
}

/// One plane as the capture source describes it.
#[derive(Clone, Copy)]
pub struct PlaneDescriptor {
    pub handle: u32,
    pub pitch: u32,
    pub offset: u32,
    pub modifier: u64,
}

/// A frame as the capture source describes it: size, pixel format code and up to four planes.
#[derive(Clone, Copy)]
pub struct FrameDescriptor {
    pub width: u32,
    pub height: u32,
    pub pixel_format: u32,
    pub planes: [PlaneDescriptor; 4],
}

/// Samples of a plane subsampled `sub` times each way, read at (x, y) of the frame.
pub open spec fn plane_index(plane: YUV420Plane, sub: int, x: int, y: int) -> int {
    plane.offset + plane.pitch * (y / sub) + x / sub
}

/// The plane holds every sample of a frame of `size` pixels subsampled `sub` times each way.
pub open spec fn plane_fits(plane: YUV420Plane, sub: int, size: (u32, u32), len: int) -> bool {
    &&& (size.0 + sub - 1) / sub <= plane.pitch
    &&& plane.offset + plane.pitch * ((size.1 + sub - 1) / sub) <= len
}

/// A YUV 4:2:0 framebuffer read every `scale`-th pixel each way.
pub struct FramebufferYUV420 {
    pub size: (u32, u32),
    pub scale: u32,
    pub planes: [YUV420Plane; 3],
}

impl FramebufferYUV420 {
    /// Bytes from the start of the buffer to the end of its furthest plane.
    pub fn len(&self) -> (r: usize)
        requires
            forall|i: int| 0 <= i < 3 ==> (#[trigger] self.planes[i]).offset + self.planes[i].pitch * self.planes[i].size.1 <= usize::MAX,
        ensures
            forall|i: int| 0 <= i < 3 ==> r >= (#[trigger] self.planes[i]).offset + self.planes[i].pitch * self.planes[i].size.1,
            exists|i: int| 0 <= i < 3 && r == (#[trigger] self.planes[i]).offset + self.planes[i].pitch * self.planes[i].size.1,
    {
        let mut res: usize = 0;
        let mut i: usize = 0;
        while i < 3
            invariant
                i <= 3,
                forall|k: int| 0 <= k < 3 ==> (#[trigger] self.planes[k]).offset + self.planes[k].pitch * self.planes[k].size.1 <= usize::MAX,
                forall|k: int| 0 <= k < i ==> res >= (#[trigger] self.planes[k]).offset + self.planes[k].pitch * self.planes[k].size.1,
                i == 0 ==> res == 0,
                i > 0 ==> exists|k: int| 0 <= k < i && res == (#[trigger] self.planes[k]).offset + self.planes[k].pitch * self.planes[k].size.1,
            decreases 3 - i,
        {
            let e = self.planes[i].end();
            if e > res {
                res = e;
            }
            i = i + 1;
        }
        res
    }
}

proof fn lemma_plane_sample(plane: YUV420Plane, sub: int, size: (u32, u32), len: int, x: int, y: int)
    requires
        sub == 1 || sub == 2,
        plane_fits(plane, sub, size, len),
        0 <= x < size.0,
        0 <= y < size.1,
    ensures
        0 <= plane_index(plane, sub, x, y) < len,
{
    let w = (size.0 + sub - 1) / sub;
    let h = (size.1 + sub - 1) / sub;
    assert(x / sub < w && y / sub < h && 0 <= x / sub && 0 <= y / sub);
    assert(plane.pitch * (y / sub) + x / sub + 1 <= plane.pitch * h) by (nonlinear_arith)
        requires
            x / sub < w,
            w <= plane.pitch,
            0 <= y / sub < h,
    ;
    assert(0 <= plane.pitch * (y / sub)) by (nonlinear_arith)
        requires 0 <= y / sub;
}

proof fn lemma_scaled(scale: int, size: int, x: int)
    requires
        scale == 1 || scale == 2,
        0 <= x < size / scale,
    ensures
        0 <= scale * x < size,
{
}

impl Framebuffer for FramebufferYUV420 {
    open spec fn spec_size(&self) -> (u32, u32) {
        if self.scale == 0 {
            self.size
        } else {
            ((self.size.0 / self.scale) as u32, (self.size.1 / self.scale) as u32)
        }
    }

    open spec fn readable(&self, mapping: Seq<u8>) -> bool {
        &&& self.scale == 1 || self.scale == 2
        &&& plane_fits(self.planes[0], 1, self.size, mapping.len() as int)
        &&& plane_fits(self.planes[1], 2, self.size, mapping.len() as int)
        &&& plane_fits(self.planes[2], 2, self.size, mapping.len() as int)
    }

    open spec fn spec_get(&self, mapping: Seq<u8>, x: int, y: int) -> (u8, u8, u8) {
        let sx = self.scale * x;
        let sy = self.scale * y;
        yuv_to_rgb(
            mapping[plane_index(self.planes[0], 1, sx, sy)],
            mapping[plane_index(self.planes[1], 2, sx, sy)],
            mapping[plane_index(self.planes[2], 2, sx, sy)],
        )
    }

    fn size(&self) -> (r: (u32, u32)) {
        if self.scale == 0 {
            self.size
        } else {
            (self.size.0 / self.scale, self.size.1 / self.scale)
        }
    }

    fn get(&self, mapping: &[u8], x: u32, y: u32) -> (r: (u8, u8, u8)) {
        proof {
            lemma_scaled(self.scale as int, self.size.0 as int, x as int);
            lemma_scaled(self.scale as int, self.size.1 as int, y as int);
        }
        let sx = self.scale as usize * x as usize;
        let sy = self.scale as usize * y as usize;
        proof {
            assert(mapping.len() == mapping@.len());
            lemma_plane_sample(self.planes[0], 1, self.size, mapping@.len() as int, sx as int, sy as int);
            lemma_plane_sample(self.planes[1], 2, self.size, mapping@.len() as int, sx as int, sy as int);
            lemma_plane_sample(self.planes[2], 2, self.size, mapping@.len() as int, sx as int, sy as int);
        }
        let luma = mapping[self.planes[0].offset as usize + self.planes[0].offset(sx, sy)];
        let cb = mapping[self.planes[1].offset as usize + self.planes[1].offset(sx / 2, sy / 2)];
        let cr = mapping[self.planes[2].offset as usize + self.planes[2].offset(sx / 2, sy / 2)];
        YUV420Pixel::new(luma, cb, cr).rgb()
    }
}

/// The framebuffer of a three-plane frame read every `scale`-th pixel.
pub open spec fn yuv420_framebuffer(layout: YUV420, scale: u32) -> FramebufferYUV420 {
    FramebufferYUV420 { size: layout.size, scale, planes: layout.planes }
}

/// Decodes a three-plane YUV 4:2:0 frame at full resolution.
pub fn decode_image_multichannel(mapping: &[u8], layout: &YUV420) -> (img: Raster)
    requires
        yuv420_framebuffer(*layout, 1).readable(mapping@),
        3 * layout.size.0 * layout.size.1 <= usize::MAX,
    ensures
        raster_wf(img),
        image_size(img) == layout.size,
        forall|x: int, y: int|
            0 <= x < layout.size.0 && 0 <= y < layout.size.1 ==> #[trigger] rgb_at(img, x, y)
                == yuv420_framebuffer(*layout, 1).spec_get(mapping@, x, y),
{
    let fb = FramebufferYUV420 { size: layout.size, scale: 1, planes: layout.planes };
    decode_image(&fb, mapping)
}

/// Decodes a three-plane YUV 4:2:0 frame at half its resolution each way, taking every other
/// pixel of every other row.
pub fn decode_reduced_image_multichannel(mapping: &[u8], layout: &YUV420) -> (img: Raster)
    requires
        yuv420_framebuffer(*layout, 2).readable(mapping@),
        3 * (layout.size.0 / 2) * (layout.size.1 / 2) <= usize::MAX,
    ensures
        raster_wf(img),
        image_size(img) == ((layout.size.0 / 2) as u32, (layout.size.1 / 2) as u32),
        forall|x: int, y: int|
            0 <= x < layout.size.0 / 2 && 0 <= y < layout.size.1 / 2 ==> #[trigger] rgb_at(img, x, y)
                == yuv420_framebuffer(*layout, 2).spec_get(mapping@, x, y),
{
    let fb = FramebufferYUV420 { size: layout.size, scale: 2, planes: layout.planes };
    decode_image(&fb, mapping)
}

/// Index, in a chroma plane whose rows are `width / 2` samples apart, of the sample for
/// pixel (x, y).
pub open spec fn packed_chroma_index(width: int, x: int, y: int) -> int {
    (y / 2) * (width / 2) + x / 2
}

/// The colour of pixel (x, y) of a frame held in three packed planes: luma rows `width`
/// samples apart, chroma rows `width / 2` samples apart.
pub open spec fn packed_planes_pixel(
    luma: Seq<u8>,
    cb: Seq<u8>,
    cr: Seq<u8>,
    width: int,
    x: int,
    y: int,
) -> (u8, u8, u8) {
    yuv_to_rgb(
        luma[y * width + x],
        cb[packed_chroma_index(width, x, y)],
        cr[packed_chroma_index(width, x, y)],
    )
}

/// The planes hold every sample of a `size` frame.
pub open spec fn packed_planes_fit(luma: Seq<u8>, cb: Seq<u8>, cr: Seq<u8>, size: (u32, u32)) -> bool {
    let (w, h) = (size.0 as int, size.1 as int);
    &&& w * h <= luma.len()
    &&& (w > 0 && h > 0) ==> packed_chroma_index(w, w - 1, h - 1) < cb.len()
    &&& (w > 0 && h > 0) ==> packed_chroma_index(w, w - 1, h - 1) < cr.len()
}

proof fn lemma_packed_indices(w: int, h: int, x: int, y: int)
    requires
        0 <= x < w,
        0 <= y < h,
    ensures
        0 <= y * w + x < w * h,
        0 <= packed_chroma_index(w, x, y) <= packed_chroma_index(w, w - 1, h - 1),
{
    assert(0 <= y * w + x < w * h) by (nonlinear_arith)
        requires 0 <= x < w, 0 <= y < h;
    let (a, b) = (y / 2, (h - 1) / 2);
    assert(0 <= a <= b);
    assert(0 <= a * (w / 2) <= b * (w / 2)) by (nonlinear_arith)
        requires 0 <= a <= b, 0 <= w / 2;
}

/// Decodes a YUV 4:2:0 frame held in three packed planes, at full size.
pub fn decode_small_image_multichannel(mappings: [&[u8]; 3], size: (u32, u32)) -> (img: Raster)
    requires
        packed_planes_fit(mappings[0]@, mappings[1]@, mappings[2]@, size),
        3 * size.0 * size.1 <= usize::MAX,
    ensures
        raster_wf(img),
        image_size(img) == size,
        forall|x: int, y: int|
            0 <= x < size.0 && 0 <= y < size.1 ==> #[trigger] rgb_at(img, x, y)
                == packed_planes_pixel(mappings[0]@, mappings[1]@, mappings[2]@, size.0 as int, x, y),
{
    let (w, h) = size;
    let luma = mappings[0];
    let cb = mappings[1];
    let cr = mappings[2];
    let mut img = blank_image(w, h);
    let mut y: u32 = 0;
    while y < h
        invariant
            (w, h) == size,
            luma@ == mappings[0]@,
            cb@ == mappings[1]@,
            cr@ == mappings[2]@,
            packed_planes_fit(luma@, cb@, cr@, size),
            y <= h,
            raster_wf(img),
            image_size(img) == size,
            forall|i: int, j: int|
                0 <= i < w && 0 <= j < y ==> #[trigger] rgb_at(img, i, j) == packed_planes_pixel(
                    luma@, cb@, cr@, w as int, i, j,
                ),
        decreases h - y,
    {
        let mut x: u32 = 0;
        while x < w
            invariant
                (w, h) == size,
                packed_planes_fit(luma@, cb@, cr@, size),
                x <= w,
                y < h,
                raster_wf(img),
                image_size(img) == size,
                forall|i: int, j: int|
                    0 <= i < w && 0 <= j < y ==> #[trigger] rgb_at(img, i, j) == packed_planes_pixel(
                        luma@, cb@, cr@, w as int, i, j,
                    ),
                forall|i: int|
                    0 <= i < x ==> #[trigger] rgb_at(img, i, y as int) == packed_planes_pixel(
                        luma@, cb@, cr@, w as int, i, y as int,
                    ),
            decreases w - x,
        {
            proof {
                lemma_packed_indices(w as int, h as int, x as int, y as int);
                assert(luma.len() == luma@.len());
                assert(cb.len() == cb@.len());
                assert(cr.len() == cr@.len());
            }
            let o = y as usize * w as usize + x as usize;
            let c = (y / 2) as usize * (w / 2) as usize + (x / 2) as usize;
            let px = YUV420Pixel::new(luma[o], cb[c], cr[c]).rgb();
            set_pixel(&mut img, x, y, px);
            x = x + 1;
        }
        y = y + 1;
    }
    img
}

} // verus!
