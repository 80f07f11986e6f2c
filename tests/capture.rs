use drm_vc4_grabber::capture::{CaptureAction, CaptureSession, OsReply};
use drm_vc4_grabber::drivers::{AnyDriver, DriverError, Madvise};
use drm_vc4_grabber::dump_image::{
    plan_capture, CaptureError, KernelIoError, OsOp, Strategy, ARGB8888, MOD_LINEAR,
    MOD_SAND128, MOD_VC4_T_TILED, NV12, P030, RGB565, XRGB8888, YUV420_CODE,
};
use drm_vc4_grabber::framebuffer::{FrameDescriptor, PlaneDescriptor, YUV420};

fn plane(handle: u32, pitch: u32, offset: u32, modifier: u64) -> PlaneDescriptor {
    PlaneDescriptor { handle, pitch, offset, modifier }
}

fn frame(width: u32, height: u32, pixel_format: u32, planes: [PlaneDescriptor; 4]) -> FrameDescriptor {
    FrameDescriptor { width, height, pixel_format, planes }
}

fn linear_frame(handle: u32) -> FrameDescriptor {
    let p = plane(handle, 8, 0, MOD_LINEAR);
    frame(2, 2, XRGB8888, [p, p, p, p])
}

/// Answers every call of a capture like a kernel would, and counts what it hands out.
struct FakeKernel {
    buffer: Vec<u8>,
    retained: bool,
    fail: Option<OsOp>,
    exports: u32,
    closes: u32,
    maps: u32,
    unmaps: u32,
    releases: u32,
    open_fds: i32,
    mapped: i32,
}

impl FakeKernel {
    fn new(buffer: Vec<u8>) -> FakeKernel {
        FakeKernel {
            buffer,
            retained: true,
            fail: None,
            exports: 0,
            closes: 0,
            maps: 0,
            unmaps: 0,
            releases: 0,
            open_fds: 0,
            mapped: 0,
        }
    }

    fn fails(&self, op: OsOp) -> bool {
        self.fail == Some(op)
    }

    fn answer(&mut self, action: CaptureAction) -> OsReply {
        match action {
            CaptureAction::Advise { advice, .. } => {
                assert_eq!(advice.code(), 0);
                if self.fails(OsOp::Advise) {
                    OsReply::Failed(22)
                } else {
                    OsReply::Retained(self.retained)
                }
            }
            CaptureAction::Export { .. } => {
                if self.fails(OsOp::Export) {
                    OsReply::Failed(24)
                } else {
                    self.exports += 1;
                    self.open_fds += 1;
                    OsReply::Descriptor(40)
                }
            }
            CaptureAction::QueryOffset { .. } => {
                if self.fails(OsOp::QueryOffset) {
                    OsReply::Failed(2)
                } else {
                    OsReply::Offset(0x1000)
                }
            }
            CaptureAction::MapExported { length, .. } | CaptureAction::MapDevice { length, .. } => {
                if self.fails(OsOp::MapBuffer) {
                    OsReply::Failed(12)
                } else {
                    self.maps += 1;
                    self.mapped += 1;
                    OsReply::Mapped(self.buffer[..length].to_vec())
                }
            }
            CaptureAction::Unmap { .. } => {
                self.unmaps += 1;
                self.mapped -= 1;
                if self.fails(OsOp::Unmap) {
                    OsReply::Failed(22)
                } else {
                    OsReply::Done
                }
            }
            CaptureAction::Close { fd } => {
                assert_eq!(fd, 40);
                self.closes += 1;
                self.open_fds -= 1;
                if self.fails(OsOp::Close) {
                    OsReply::Failed(9)
                } else {
                    OsReply::Done
                }
            }
            CaptureAction::Release { .. } => {
                self.releases += 1;
                if self.fails(OsOp::Release) {
                    OsReply::Failed(9)
                } else {
                    OsReply::Done
                }
            }
            CaptureAction::Finish => panic!("a finished capture asks for nothing"),
        }
    }
}

fn drive(session: &mut CaptureSession, kernel: &mut FakeKernel) {
    while !session.is_finished() {
        let reply = kernel.answer(session.action());
        assert!(session.accepts(&reply));
        session.on_reply(reply);
    }
    assert!(matches!(session.action(), CaptureAction::Finish));
}

fn buffer() -> Vec<u8> {
    (0..16u8).map(|i| i * 10).collect()
}

#[test]
fn exported_capture_closes_its_descriptor_once() {
    let mut kernel = FakeKernel::new(buffer());
    let mut session = CaptureSession::new(&linear_frame(7), AnyDriver::VC4);
    drive(&mut session, &mut kernel);
    let captured = session.into_result().ok().expect("capture succeeds");
    assert!(!captured.stale);
    let (w, h, samples) = captured.image.into_parts();
    assert_eq!((w, h), (2, 2));
    assert_eq!(&samples[0..3], &[20, 10, 0]);
    assert_eq!(&samples[9..12], &[140, 130, 120]);
    assert_eq!((kernel.exports, kernel.closes), (1, 1));
    assert_eq!((kernel.maps, kernel.unmaps), (1, 1));
    assert_eq!(kernel.releases, 1);
    assert_eq!((kernel.open_fds, kernel.mapped), (0, 0));
}

#[test]
fn failed_mapping_still_closes_the_descriptor() {
    let mut kernel = FakeKernel::new(buffer());
    kernel.fail = Some(OsOp::MapBuffer);
    let mut session = CaptureSession::new(&linear_frame(7), AnyDriver::VC4);
    drive(&mut session, &mut kernel);
    let r = session.into_result();
    assert!(matches!(
        r,
        Err(CaptureError::KernelIo(KernelIoError { op: OsOp::MapBuffer, errno: 12 }))
    ));
    assert_eq!((kernel.exports, kernel.closes), (1, 1));
    assert_eq!((kernel.maps, kernel.unmaps), (0, 0));
    assert_eq!(kernel.releases, 1);
    assert_eq!(kernel.open_fds, 0);
}

#[test]
fn failed_unmap_still_closes_and_releases() {
    let mut kernel = FakeKernel::new(buffer());
    kernel.fail = Some(OsOp::Unmap);
    let mut session = CaptureSession::new(&linear_frame(7), AnyDriver::VC4);
    drive(&mut session, &mut kernel);
    assert!(matches!(
        session.into_result(),
        Err(CaptureError::KernelIo(KernelIoError { op: OsOp::Unmap, .. }))
    ));
    assert_eq!((kernel.exports, kernel.closes, kernel.maps, kernel.unmaps, kernel.releases), (1, 1, 1, 1, 1));
}

#[test]
fn failed_export_opens_nothing() {
    let mut kernel = FakeKernel::new(buffer());
    kernel.fail = Some(OsOp::Export);
    let mut session = CaptureSession::new(&linear_frame(7), AnyDriver::VC4);
    drive(&mut session, &mut kernel);
    assert!(matches!(
        session.into_result(),
        Err(CaptureError::KernelIo(KernelIoError { op: OsOp::Export, errno: 24 }))
    ));
    assert_eq!((kernel.exports, kernel.closes, kernel.maps, kernel.releases), (0, 0, 0, 1));
}

#[test]
fn failed_advice_is_reported() {
    let mut kernel = FakeKernel::new(buffer());
    kernel.fail = Some(OsOp::Advise);
    let mut session = CaptureSession::new(&linear_frame(7), AnyDriver::VC4);
    drive(&mut session, &mut kernel);
    assert!(matches!(
        session.into_result(),
        Err(CaptureError::KernelIo(KernelIoError { op: OsOp::Advise, .. }))
    ));
    assert_eq!((kernel.exports, kernel.maps, kernel.releases), (0, 0, 1));
}

#[test]
fn purged_buffer_is_an_advisory() {
    let mut kernel = FakeKernel::new(buffer());
    kernel.retained = false;
    let mut session = CaptureSession::new(&linear_frame(7), AnyDriver::VC4);
    drive(&mut session, &mut kernel);
    let captured = session.into_result().ok().expect("capture succeeds");
    assert!(captured.stale);
}

#[test]
fn device_mapped_capture_exports_nothing() {
    let mut kernel = FakeKernel::new(buffer());
    let mut session = CaptureSession::new(&linear_frame(7), AnyDriver::V3D);
    assert!(matches!(session.action(), CaptureAction::QueryOffset { handle: 7 }));
    session.on_reply(OsReply::Offset(0x1000));
    assert!(matches!(session.action(), CaptureAction::MapDevice { offset: 0x1000, length: 16 }));
    drive(&mut session, &mut kernel);
    assert!(session.into_result().is_ok());
    assert_eq!((kernel.exports, kernel.closes, kernel.maps, kernel.unmaps, kernel.releases), (0, 0, 1, 1, 1));
}

#[test]
fn unsupported_format_releases_and_opens_nothing() {
    let mut kernel = FakeKernel::new(buffer());
    let p = plane(9, 8, 0, MOD_LINEAR);
    let desc = frame(2, 2, 0x2020_2020, [p, p, p, p]);
    let mut session = CaptureSession::new(&desc, AnyDriver::VC4);
    assert!(matches!(session.action(), CaptureAction::Release { handle: 9 }));
    drive(&mut session, &mut kernel);
    assert!(matches!(session.into_result(), Err(CaptureError::UnsupportedFormat)));
    assert_eq!((kernel.exports, kernel.maps, kernel.releases), (0, 0, 1));
}

#[test]
fn malformed_layout_releases_once() {
    let mut kernel = FakeKernel::new(buffer());
    let p = plane(9, 4, 0, MOD_LINEAR);
    let desc = frame(2, 2, XRGB8888, [p, p, p, p]);
    let mut session = CaptureSession::new(&desc, AnyDriver::V3D);
    drive(&mut session, &mut kernel);
    assert!(matches!(session.into_result(), Err(CaptureError::MalformedLayout)));
    assert_eq!((kernel.maps, kernel.releases), (0, 1));
}

#[test]
fn failed_release_is_reported_after_decoding() {
    let mut kernel = FakeKernel::new(buffer());
    kernel.fail = Some(OsOp::Release);
    let mut session = CaptureSession::new(&linear_frame(7), AnyDriver::VC4);
    drive(&mut session, &mut kernel);
    assert!(matches!(
        session.into_result(),
        Err(CaptureError::KernelIo(KernelIoError { op: OsOp::Release, errno: 9 }))
    ));
    assert_eq!(kernel.releases, 1);
}

#[test]
fn replies_must_answer_the_call() {
    let session = CaptureSession::new(&linear_frame(7), AnyDriver::VC4);
    assert!(session.accepts(&OsReply::Retained(true)));
    assert!(session.accepts(&OsReply::Failed(1)));
    assert!(!session.accepts(&OsReply::Done));
    assert!(!session.accepts(&OsReply::Descriptor(3)));
}

#[test]
fn plans_by_format_and_modifier() {
    let p = plane(1, 4096, 0, MOD_LINEAR);
    let linear = plan_capture(&frame(1024, 768, ARGB8888, [p, p, p, p])).ok().unwrap();
    assert!(matches!(linear.strategy, Strategy::Linear { size: (1024, 768), pitch: 4096 }));
    assert_eq!(linear.length, 4096 * 768);
    assert_eq!(linear.handle, 1);

    let t = plane(2, 4096, 0, MOD_VC4_T_TILED);
    let tiled = plan_capture(&frame(1000, 700, XRGB8888, [t, t, t, t])).ok().unwrap();
    assert!(matches!(tiled.strategy, Strategy::Tiled { tiles: (32, 22) }));
    assert_eq!(tiled.length, 4096 * 32 * 22);

    let q = plane(3, 2048, 0, MOD_LINEAR);
    let rgb565 = plan_capture(&frame(1024, 10, RGB565, [q, q, q, q])).ok().unwrap();
    assert!(matches!(rgb565.strategy, Strategy::Rgb565 { size: (1024, 10), pitch: 2048 }));
}

#[test]
fn planar_plan_scales_wide_frames() {
    let y = plane(4, 1920, 0, MOD_LINEAR);
    let u = plane(4, 960, 1920 * 1080, MOD_LINEAR);
    let v = plane(4, 960, 1920 * 1080 + 960 * 540, MOD_LINEAR);
    let wide = plan_capture(&frame(1920, 1080, YUV420_CODE, [y, u, v, y])).ok().unwrap();
    assert_eq!(wide.length, (1920 * 1080 + 2 * 960 * 540) as usize);
    assert!(matches!(wide.strategy, Strategy::Planar { scale: 2, .. }));

    let y = plane(4, 640, 0, MOD_LINEAR);
    let u = plane(4, 320, 640 * 480, MOD_LINEAR);
    let v = plane(4, 320, 640 * 480 + 320 * 240, MOD_LINEAR);
    let narrow = plan_capture(&frame(640, 480, YUV420_CODE, [y, u, v, y])).ok().unwrap();
    assert!(matches!(narrow.strategy, Strategy::Planar { scale: 1, .. }));
}

#[test]
fn column_plan_takes_height_from_modifier() {
    // Each column holds 1088 luma rows, then the chroma rows: 1632 rows in all.
    let modifier = MOD_SAND128 | (1632u64 << 8);
    let p0 = plane(5, 128, 0, modifier);
    let p1 = plane(5, 128, 128 * 1088, modifier);
    let plan = plan_capture(&frame(1920, 1080, NV12, [p0, p1, p0, p0])).ok().unwrap();
    match plan.strategy {
        Strategy::Columns { fb } => {
            assert_eq!(fb.column_height, 1632);
            assert_eq!(fb.chroma_offset, 128 * 1088);
            assert_eq!(fb.scale, 4);
        }
        _ => panic!("column strategy expected"),
    }
    assert_eq!(plan.length, 15 * 128 * 1632);
    let p030 = plan_capture(&frame(1920, 1080, P030, [p0, p1, p0, p0])).ok().unwrap();
    assert_eq!(p030.length, 20 * 128 * 1632);
    match p030.strategy {
        Strategy::Columns { fb } => assert_eq!(fb.scale, 3),
        _ => panic!("column strategy expected"),
    }
    let narrow = plan_capture(&frame(640, 480, NV12, [p0, p1, p0, p0])).ok().unwrap();
    match narrow.strategy {
        Strategy::Columns { fb } => assert_eq!(fb.scale, 1),
        _ => panic!("column strategy expected"),
    }
}

#[test]
fn unregistered_pairs_are_unsupported() {
    let p = plane(1, 4096, 0, MOD_VC4_T_TILED);
    assert!(matches!(plan_capture(&frame(8, 8, RGB565, [p, p, p, p])), Err(CaptureError::UnsupportedFormat)));
    let q = plane(1, 4096, 0, MOD_LINEAR);
    assert!(matches!(plan_capture(&frame(8, 8, NV12, [q, q, q, q])), Err(CaptureError::UnsupportedFormat)));
    assert!(matches!(plan_capture(&frame(8, 8, 0x3231_5659, [q, q, q, q])), Err(CaptureError::UnsupportedFormat)));
}

#[test]
fn malformed_geometry_is_reported() {
    let p = plane(1, 16, 0, MOD_LINEAR);
    assert!(matches!(plan_capture(&frame(8, 8, XRGB8888, [p, p, p, p])), Err(CaptureError::MalformedLayout)));
    let s = plane(1, 128, 0, MOD_SAND128 | (4u64 << 8));
    assert!(matches!(plan_capture(&frame(8, 8, NV12, [s, s, s, s])), Err(CaptureError::MalformedLayout)));
}

#[test]
fn driver_family_from_name() {
    assert!(matches!(AnyDriver::of("vc4"), Ok(AnyDriver::VC4)));
    assert!(matches!(AnyDriver::of("v3d"), Ok(AnyDriver::V3D)));
    match AnyDriver::of("i915") {
        Err(DriverError::UnknownDriver(name)) => assert_eq!(name, "i915"),
        _ => panic!("unknown driver expected"),
    }
}

#[test]
fn madvise_codes() {
    assert_eq!(Madvise::WillNeed.code(), 0);
    assert_eq!(Madvise::DontNeed.code(), 1);
}

#[test]
fn planes_of_a_three_plane_frame() {
    let y = plane(4, 640, 0, MOD_LINEAR);
    let u = plane(4, 320, 640 * 480, MOD_LINEAR);
    let v = plane(4, 320, 640 * 480 + 320 * 240, MOD_LINEAR);
    let layout = YUV420::from(&frame(640, 480, YUV420_CODE, [y, u, v, y]));
    assert_eq!(layout.size, (640, 480));
    assert_eq!(layout.planes[0].size, (640, 480));
    assert_eq!(layout.planes[1].size, (320, 240));
    assert_eq!(layout.planes[2].offset, 640 * 480 + 320 * 240);
    assert_eq!(layout.planes[2].end(), 640 * 480 + 2 * 320 * 240);
}

#[test]
fn wide_column_frames_decode_at_reduced_size() {
    // 1280x8 frames, one column-packed buffer each; chroma rows start after eight luma rows.
    let modifier = MOD_SAND128 | (12u64 << 8);
    let p0 = plane(6, 128, 0, modifier);
    let p1 = plane(6, 128, 128 * 8, modifier);
    for (format, columns, width) in [(NV12, 10usize, 320u32), (P030, 14usize, 426u32)] {
        let desc = frame(1280, 8, format, [p0, p1, p0, p0]);
        let plan = plan_capture(&desc).ok().unwrap();
        assert_eq!(plan.length, columns * 128 * 12);
        let mut kernel = FakeKernel::new(vec![128u8; plan.length]);
        let mut session = CaptureSession::new(&desc, AnyDriver::V3D);
        drive(&mut session, &mut kernel);
        let (w, h, _) = session.into_result().ok().unwrap().image.into_parts();
        assert_eq!(w, width);
        assert_eq!(h, 8 / if format == NV12 { 4 } else { 3 });
    }
}

#[test]
fn tiled_frame_without_columns_is_empty() {
    let p = plane(8, 0, 0, MOD_VC4_T_TILED);
    let desc = frame(0, 40, XRGB8888, [p, p, p, p]);
    let plan = plan_capture(&desc).ok().unwrap();
    assert!(matches!(plan.strategy, Strategy::Tiled { tiles: (0, 2) }));
    assert_eq!(plan.length, 0);
    let mut kernel = FakeKernel::new(Vec::new());
    let mut session = CaptureSession::new(&desc, AnyDriver::V3D);
    drive(&mut session, &mut kernel);
    let (w, h, samples) = session.into_result().ok().unwrap().image.into_parts();
    assert_eq!((w, h), (0, 16));
    assert!(samples.is_empty());
    assert_eq!(kernel.releases, 1);
}
