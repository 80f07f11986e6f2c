use vstd::prelude::*;
use crate::drivers::{AnyDriver, Madvise};
use crate::dump_image::{
    decode_frame, decoded, lemma_plan_ready, plan_capture, plan_matches, plan_ready,
    CaptureError, CapturePlan, KernelIoError, OsOp,
};
use crate::framebuffer::FrameDescriptor;
use crate::raster::Raster;

verus! {

/// Where a capture stands. The phases only ever move forward.
#[derive(Clone, Copy, PartialEq, Eq, Structural)]
pub enum Phase {
    /// Advise the kernel that the buffer must stay resident.
    Advise,
    /// Exchange the buffer handle for a descriptor of its own.
    Export,
    /// Ask the driver at which offset of the device the buffer can be mapped.
    QueryOffset,
    /// Map the buffer and copy it out.
    MapBuffer,
    /// Unmap the buffer.
    Unmap,
    /// Close the exported descriptor.
    Close,
    /// Release the buffer handle.
    Release,
    Finished,
}

pub open spec fn rank(p: Phase) -> int {
    match p {
        Phase::Advise => 0,
        Phase::Export => 1,
        Phase::QueryOffset => 2,
        Phase::MapBuffer => 3,
        Phase::Unmap => 4,
        Phase::Close => 5,
        Phase::Release => 6,
        Phase::Finished => 7,
    }
}

/// The next kernel call a capture asks its caller to make.
pub enum CaptureAction {
    Advise { handle: u32, advice: Madvise },
    Export { handle: u32 },
    QueryOffset { handle: u32 },
    MapExported { fd: i32, length: usize },
    MapDevice { offset: u64, length: usize },
    Unmap { length: usize },
    Close { fd: i32 },
    Release { handle: u32 },
    Finish,
}

/// What the kernel call returned.
pub enum OsReply {
    /// The call succeeded and returns nothing.
    Done,
    /// Residency advice was taken; `false` when the contents may have been purged.
    Retained(bool),
    /// The exported descriptor.
    Descriptor(i32),
    /// The offset at which the device maps the buffer.
    Offset(u64),
    /// The buffer was mapped; these are the bytes copied out of it.
    Mapped(Vec<u8>),
    /// The call failed with this error number.
    Failed(i32),
}

/// The resource-relevant state of a capture.
#[derive(Clone, Copy)]
pub struct CaptureControl {
    pub driver: AnyDriver,
    pub handle: u32,
    pub length: usize,
    pub phase: Phase,
    pub fd: Option<i32>,
    pub offset: u64,
    pub stale: bool,
    pub error: Option<CaptureError>,
}

/// The state a capture starts in, given what planning it gave.
pub open spec fn start_control(driver: AnyDriver, planned: Result<CapturePlan, CaptureError>, handle: u32) -> CaptureControl {
    match planned {
        Ok(p) => CaptureControl {
            driver,
            handle,
            length: p.length,
            phase: if driver == AnyDriver::VC4 { Phase::Advise } else { Phase::QueryOffset },
            fd: None,
            offset: 0,
            stale: false,
            error: None,
        },
        Err(e) => CaptureControl {
            driver,
            handle,
            length: 0,
            phase: Phase::Release,
            fd: None,
            offset: 0,
            stale: false,
            error: Some(e),
        },
    }
}

/// The call asked for in state `c`.
pub open spec fn action_of(c: CaptureControl) -> CaptureAction {
    match c.phase {
        Phase::Advise => CaptureAction::Advise { handle: c.handle, advice: Madvise::WillNeed },
        Phase::Export => CaptureAction::Export { handle: c.handle },
        Phase::QueryOffset => CaptureAction::QueryOffset { handle: c.handle },
        Phase::MapBuffer => match c.fd {
            Some(fd) => CaptureAction::MapExported { fd, length: c.length },
            None => CaptureAction::MapDevice { offset: c.offset, length: c.length },
        },
        Phase::Unmap => CaptureAction::Unmap { length: c.length },
        Phase::Close => CaptureAction::Close { fd: c.fd->0 },
        Phase::Release => CaptureAction::Release { handle: c.handle },
        Phase::Finished => CaptureAction::Finish,
    }
}

/// `r` answers the call asked for in state `c`.
pub open spec fn fits(c: CaptureControl, r: OsReply) -> bool {
    match c.phase {
        Phase::Advise => r is Retained || r is Failed,
        Phase::Export => r is Descriptor || r is Failed,
        Phase::QueryOffset => r is Offset || r is Failed,
        Phase::MapBuffer => (r matches OsReply::Mapped(b) && b@.len() == c.length) || r is Failed,
        Phase::Unmap | Phase::Close | Phase::Release => r is Done || r is Failed,
        Phase::Finished => false,
    }
}

/// The first error of a capture is the one it reports.
pub open spec fn keep_first(error: Option<CaptureError>, op: OsOp, errno: i32) -> Option<CaptureError> {
    match error {
        Some(e) => Some(e),
        None => Some(CaptureError::KernelIo(KernelIoError { op, errno })),
    }
}

/// Where a capture goes once the buffer is no longer mapped: close the exported descriptor
/// if there is one, else release the handle.
pub open spec fn after_mapping(c: CaptureControl) -> Phase {
    if c.fd is Some {
        Phase::Close
    } else {
        Phase::Release
    }
}

/// The state after reply `r` to the call asked for in state `c`.
pub open spec fn step(c: CaptureControl, r: OsReply) -> CaptureControl {
    match c.phase {
        Phase::Advise => match r {
            OsReply::Retained(kept) => CaptureControl { phase: Phase::Export, stale: !kept, ..c },
            OsReply::Failed(e) => CaptureControl { phase: Phase::Release, error: keep_first(c.error, OsOp::Advise, e), ..c },
            _ => c,
        },
        Phase::Export => match r {
            OsReply::Descriptor(fd) => CaptureControl { phase: Phase::MapBuffer, fd: Some(fd), ..c },
            OsReply::Failed(e) => CaptureControl { phase: Phase::Release, error: keep_first(c.error, OsOp::Export, e), ..c },
            _ => c,
        },
        Phase::QueryOffset => match r {
            OsReply::Offset(o) => CaptureControl { phase: Phase::MapBuffer, offset: o, ..c },
            OsReply::Failed(e) => CaptureControl { phase: Phase::Release, error: keep_first(c.error, OsOp::QueryOffset, e), ..c },
            _ => c,
        },
        Phase::MapBuffer => match r {
            OsReply::Mapped(_) => CaptureControl { phase: Phase::Unmap, ..c },
            OsReply::Failed(e) => CaptureControl { phase: after_mapping(c), error: keep_first(c.error, OsOp::MapBuffer, e), ..c },
            _ => c,
        },
        Phase::Unmap => match r {
            OsReply::Failed(e) => CaptureControl { phase: after_mapping(c), error: keep_first(c.error, OsOp::Unmap, e), ..c },
            _ => CaptureControl { phase: after_mapping(c), ..c },
        },
        Phase::Close => match r {
            OsReply::Failed(e) => CaptureControl { phase: Phase::Release, fd: None, error: keep_first(c.error, OsOp::Close, e), ..c },
            _ => CaptureControl { phase: Phase::Release, fd: None, ..c },
        },
        Phase::Release => match r {
            OsReply::Failed(e) => CaptureControl { phase: Phase::Finished, error: keep_first(c.error, OsOp::Release, e), ..c },
            _ => CaptureControl { phase: Phase::Finished, ..c },
        },
        Phase::Finished => c,
    }
}

/// The state after a sequence of replies.
pub open spec fn run(c: CaptureControl, replies: Seq<OsReply>) -> CaptureControl
    decreases replies.len(),
{
    if replies.len() == 0 {
        c
    } else {
        run(step(c, replies[0]), replies.drop_first())
    }
}

/// Every reply of the sequence answers the call asked for when it comes.
pub open spec fn replies_fit(c: CaptureControl, replies: Seq<OsReply>) -> bool
    decreases replies.len(),
{
    replies.len() == 0 || (fits(c, replies[0]) && replies_fit(step(c, replies[0]), replies.drop_first()))
}

/// How many times the calls asked for along the sequence satisfy `counted`.
pub open spec fn count_calls(
    c: CaptureControl,
    replies: Seq<OsReply>,
    counted: spec_fn(CaptureControl, OsReply) -> bool,
) -> nat
    decreases replies.len(),
{
    if replies.len() == 0 {
        0
    } else {
        (if counted(c, replies[0]) { 1nat } else { 0nat }) + count_calls(
            step(c, replies[0]),
            replies.drop_first(),
            counted,
        )
    }
}

/// An export that the kernel granted.
pub open spec fn export_granted(c: CaptureControl, r: OsReply) -> bool {
    c.phase == Phase::Export && r is Descriptor
}

/// A close of an exported descriptor.
pub open spec fn close_requested(c: CaptureControl, r: OsReply) -> bool {
    c.phase == Phase::Close
}

/// A mapping that the kernel granted.
pub open spec fn map_granted(c: CaptureControl, r: OsReply) -> bool {
    c.phase == Phase::MapBuffer && r is Mapped
}

/// An unmapping.
pub open spec fn unmap_requested(c: CaptureControl, r: OsReply) -> bool {
    c.phase == Phase::Unmap
}

/// A release of the buffer handle.
pub open spec fn release_requested(c: CaptureControl, r: OsReply) -> bool {
    c.phase == Phase::Release
}

/// The descriptor is open exactly while mapping, unmapping and closing, and only a
/// device-mapped capture maps without one.
pub open spec fn control_wf(c: CaptureControl) -> bool {
    &&& c.fd is Some ==> (c.phase == Phase::MapBuffer || c.phase == Phase::Unmap || c.phase == Phase::Close)
    &&& c.phase == Phase::Close ==> c.fd is Some
}

pub open spec fn open_fd(c: CaptureControl) -> nat {
    if c.fd is Some { 1 } else { 0 }
}

pub open spec fn open_map(c: CaptureControl) -> nat {
    if c.phase == Phase::Unmap { 1 } else { 0 }
}

pub open spec fn at_most(c: CaptureControl, r: int) -> nat {
    if rank(c.phase) <= r { 1 } else { 0 }
}

proof fn lemma_step(c: CaptureControl, r: OsReply)
    requires
        control_wf(c),
        fits(c, r),
    ensures
        control_wf(step(c, r)),
        rank(step(c, r).phase) > rank(c.phase),
        c.error is Some ==> step(c, r).error == c.error,
{
}

/// Counting along any fitting sequence of replies: what it opens it closes, calls happen at
/// most once, and a finished capture released its handle once.
proof fn lemma_counts(c: CaptureControl, replies: Seq<OsReply>)
    requires
        control_wf(c),
        replies_fit(c, replies),
    ensures
        control_wf(run(c, replies)),
        rank(run(c, replies).phase) >= rank(c.phase) + replies.len(),
        c.error is Some ==> run(c, replies).error == c.error,
        count_calls(c, replies, |c: CaptureControl, r: OsReply| export_granted(c, r)) + open_fd(c)
            == count_calls(c, replies, |c: CaptureControl, r: OsReply| close_requested(c, r)) + open_fd(run(c, replies)),
        count_calls(c, replies, |c: CaptureControl, r: OsReply| map_granted(c, r)) + open_map(c)
            == count_calls(c, replies, |c: CaptureControl, r: OsReply| unmap_requested(c, r)) + open_map(run(c, replies)),
        count_calls(c, replies, |c: CaptureControl, r: OsReply| export_granted(c, r)) <= at_most(c, 1),
        count_calls(c, replies, |c: CaptureControl, r: OsReply| close_requested(c, r)) <= at_most(c, 5),
        count_calls(c, replies, |c: CaptureControl, r: OsReply| map_granted(c, r)) <= at_most(c, 3),
        count_calls(c, replies, |c: CaptureControl, r: OsReply| release_requested(c, r)) <= at_most(c, 6),
        run(c, replies).phase == Phase::Finished && rank(c.phase) <= 6 ==> count_calls(
            c,
            replies,
            |c: CaptureControl, r: OsReply| release_requested(c, r),
        ) == 1,
    decreases replies.len(),
{
    if replies.len() > 0 {
        let c2 = step(c, replies[0]);
        lemma_step(c, replies[0]);
        lemma_counts(c2, replies.drop_first());
    }
}

/// Every descriptor that a finished capture exported it closed exactly once, and every
/// mapping it made it unmapped exactly once, whether the mapping, the decoding or any other
/// call failed or not; and it released the buffer handle exactly once.
pub proof fn capture_releases_what_it_acquires(
    driver: AnyDriver,
    planned: Result<CapturePlan, CaptureError>,
    handle: u32,
    replies: Seq<OsReply>,
)
    requires
        replies_fit(start_control(driver, planned, handle), replies),
        run(start_control(driver, planned, handle), replies).phase == Phase::Finished,
    ensures
        ({
            let c = start_control(driver, planned, handle);
            let exports = count_calls(c, replies, |c: CaptureControl, r: OsReply| export_granted(c, r));
            let closes = count_calls(c, replies, |c: CaptureControl, r: OsReply| close_requested(c, r));
            let maps = count_calls(c, replies, |c: CaptureControl, r: OsReply| map_granted(c, r));
            let unmaps = count_calls(c, replies, |c: CaptureControl, r: OsReply| unmap_requested(c, r));
            let releases = count_calls(c, replies, |c: CaptureControl, r: OsReply| release_requested(c, r));
            &&& exports == closes
            &&& exports <= 1
            &&& maps == unmaps
            &&& maps <= 1
            &&& releases == 1
        }),
{
    lemma_counts(start_control(driver, planned, handle), replies);
}

/// A capture whose format has no decode strategy exports nothing and maps nothing, and once
/// finished it has released the handle exactly once and reports `UnsupportedFormat`.
pub proof fn unsupported_capture_opens_nothing(
    driver: AnyDriver,
    handle: u32,
    replies: Seq<OsReply>,
)
    requires
        replies_fit(start_control(driver, Err(CaptureError::UnsupportedFormat), handle), replies),
    ensures
        ({
            let c = start_control(driver, Err(CaptureError::UnsupportedFormat), handle);
            let end = run(c, replies);
            &&& count_calls(c, replies, |c: CaptureControl, r: OsReply| export_granted(c, r)) == 0
            &&& count_calls(c, replies, |c: CaptureControl, r: OsReply| map_granted(c, r)) == 0
            &&& end.fd is None
            &&& end.phase != Phase::Unmap
            &&& end.phase == Phase::Finished ==> end.error == Some(CaptureError::UnsupportedFormat)
                && count_calls(c, replies, |c: CaptureControl, r: OsReply| release_requested(c, r)) == 1
        }),
{
    lemma_counts(start_control(driver, Err(CaptureError::UnsupportedFormat), handle), replies);
}

/// When mapping fails after the kernel granted an exported descriptor, the next call the
/// capture asks for closes that descriptor, and it reports the failed mapping unless an
/// earlier call had already failed.
pub proof fn failed_map_closes_export(c: CaptureControl, errno: i32)
    requires
        control_wf(c),
        c.phase == Phase::MapBuffer,
        c.fd is Some,
    ensures
        step(c, OsReply::Failed(errno)).phase == Phase::Close,
        action_of(step(c, OsReply::Failed(errno))) == (CaptureAction::Close { fd: c.fd->0 }),
        step(c, OsReply::Failed(errno)).error == keep_first(c.error, OsOp::MapBuffer, errno),
{
}

/// From the start of an exporting capture: advice taken, descriptor `fd` granted, mapping
/// failed. The capture then asks to close `fd` and reports the failed mapping; whatever the
/// kernel answers from there on, once finished it has closed that descriptor exactly once.
pub proof fn export_then_failed_map(
    plan: CapturePlan,
    handle: u32,
    kept: bool,
    fd: i32,
    errno: i32,
    rest: Seq<OsReply>,
)
    requires
        replies_fit(
            run(
                start_control(AnyDriver::VC4, Ok(plan), handle),
                seq![OsReply::Retained(kept), OsReply::Descriptor(fd), OsReply::Failed(errno)],
            ),
            rest,
        ),
        run(
            start_control(AnyDriver::VC4, Ok(plan), handle),
            seq![OsReply::Retained(kept), OsReply::Descriptor(fd), OsReply::Failed(errno)] + rest,
        ).phase == Phase::Finished,
    ensures
        ({
            let c = start_control(AnyDriver::VC4, Ok(plan), handle);
            let first = seq![OsReply::Retained(kept), OsReply::Descriptor(fd), OsReply::Failed(errno)];
            let all = first + rest;
            &&& action_of(run(c, first)) == (CaptureAction::Close { fd })
            &&& run(c, first).error == Some(
                CaptureError::KernelIo(KernelIoError { op: OsOp::MapBuffer, errno }),
            )
            &&& count_calls(c, all, |c: CaptureControl, r: OsReply| export_granted(c, r)) == 1
            &&& count_calls(c, all, |c: CaptureControl, r: OsReply| close_requested(c, r)) == 1
            &&& count_calls(c, all, |c: CaptureControl, r: OsReply| map_granted(c, r)) == 0
        }),
{
    let c = start_control(AnyDriver::VC4, Ok(plan), handle);
    let first = seq![OsReply::Retained(kept), OsReply::Descriptor(fd), OsReply::Failed(errno)];
    let all = first + rest;
    let c1 = step(c, OsReply::Retained(kept));
    let c2 = step(c1, OsReply::Descriptor(fd));
    let c3 = step(c2, OsReply::Failed(errno));
    let a1 = seq![OsReply::Descriptor(fd), OsReply::Failed(errno)] + rest;
    let a2 = seq![OsReply::Failed(errno)] + rest;
    assert(all[0] == OsReply::Retained(kept));
    assert(all.drop_first() =~= a1);
    assert(a1[0] == OsReply::Descriptor(fd));
    assert(a1.drop_first() =~= a2);
    assert(a2[0] == OsReply::Failed(errno));
    assert(a2.drop_first() =~= rest);
    assert(run(c2, a2) == run(c3, rest));
    assert(run(c1, a1) == run(c2, a2));
    assert(run(c, all) == run(c1, a1));
    let f1 = seq![OsReply::Descriptor(fd), OsReply::Failed(errno)];
    let f2 = seq![OsReply::Failed(errno)];
    assert(first.drop_first() =~= f1);
    assert(f1.drop_first() =~= f2);
    assert(f2.drop_first() =~= Seq::<OsReply>::empty());
    assert(run(c3, Seq::<OsReply>::empty()) == c3);
    assert(run(c2, f2) == c3);
    assert(run(c1, f1) == c3);
    assert(run(c, first) == c3);
    assert(replies_fit(c2, a2));
    assert(replies_fit(c1, a1));
    let e = |c: CaptureControl, r: OsReply| export_granted(c, r);
    let m = |c: CaptureControl, r: OsReply| map_granted(c, r);
    assert(count_calls(c2, a2, e) == count_calls(c3, rest, e));
    assert(count_calls(c1, a1, e) == 1 + count_calls(c2, a2, e));
    assert(count_calls(c, all, e) == count_calls(c1, a1, e));
    assert(count_calls(c2, a2, m) == count_calls(c3, rest, m));
    assert(count_calls(c1, a1, m) == count_calls(c2, a2, m));
    assert(count_calls(c, all, m) == count_calls(c1, a1, m));
    lemma_counts(c3, rest);
    assert(replies_fit(c, all));
    lemma_counts(c, all);
}

/// A capture never waits forever on its own logic: a failure can always answer the call it
/// asks for until it has finished, and it finishes after at most seven calls.
pub proof fn capture_always_finishes(
    driver: AnyDriver,
    planned: Result<CapturePlan, CaptureError>,
    handle: u32,
    replies: Seq<OsReply>,
    errno: i32,
)
    requires
        replies_fit(start_control(driver, planned, handle), replies),
    ensures
        replies.len() <= 7,
        ({
            let end = run(start_control(driver, planned, handle), replies);
            end.phase != Phase::Finished ==> fits(end, OsReply::Failed(errno))
        }),
{
    lemma_counts(start_control(driver, planned, handle), replies);
}

/// The state after the first `i` replies.
pub open spec fn state_at(c: CaptureControl, replies: Seq<OsReply>, i: int) -> CaptureControl {
    run(c, replies.take(i))
}

/// Along a fitting sequence, each reply answers the state it meets and moves it one phase on
/// at least.
proof fn lemma_trace(c: CaptureControl, replies: Seq<OsReply>, i: int)
    requires
        control_wf(c),
        replies_fit(c, replies),
        0 <= i <= replies.len(),
    ensures
        control_wf(state_at(c, replies, i)),
        rank(state_at(c, replies, i).phase) >= rank(c.phase) + i,
        i < replies.len() ==> fits(state_at(c, replies, i), replies[i]) && state_at(c, replies, i + 1)
            == step(state_at(c, replies, i), replies[i]),
    decreases i,
{
    if replies.len() > 0 {
        let c1 = step(c, replies[0]);
        let rest = replies.drop_first();
        lemma_step(c, replies[0]);
        assert(replies.take(0) =~= Seq::<OsReply>::empty());
        assert(replies.take(1).drop_first() =~= Seq::<OsReply>::empty());
        assert(run(c1, Seq::<OsReply>::empty()) == c1);
        assert(state_at(c, replies, 1) == c1);
        if i > 0 {
            lemma_trace(c1, rest, i - 1);
            assert(replies.take(i).drop_first() =~= rest.take(i - 1));
            assert(state_at(c, replies, i) == state_at(c1, rest, i - 1));
            if i < replies.len() {
                assert(replies.take(i + 1).drop_first() =~= rest.take(i));
                assert(state_at(c, replies, i + 1) == state_at(c1, rest, i));
                assert(rest[i - 1] == replies[i]);
            }
        }
    }
}

proof fn lemma_trace_rank(c: CaptureControl, replies: Seq<OsReply>, j: int, i: int)
    requires
        control_wf(c),
        replies_fit(c, replies),
        0 <= j <= i <= replies.len(),
    ensures
        rank(state_at(c, replies, i).phase) >= rank(state_at(c, replies, j).phase) + (i - j),
    decreases i - j,
{
    if j < i {
        lemma_trace_rank(c, replies, j, i - 1);
        lemma_trace(c, replies, i - 1);
        lemma_step(state_at(c, replies, i - 1), replies[i - 1]);
    }
}

proof fn lemma_descriptor_kept(c: CaptureControl, replies: Seq<OsReply>, k: int, i: int, d: i32)
    requires
        control_wf(c),
        replies_fit(c, replies),
        0 <= k < i <= replies.len(),
        state_at(c, replies, k).phase == Phase::Export,
        replies[k] == OsReply::Descriptor(d),
        rank(state_at(c, replies, i - 1).phase) < rank(Phase::Close),
    ensures
        state_at(c, replies, i).fd == Some(d),
    decreases i - k,
{
    lemma_trace(c, replies, k);
    if i > k + 1 {
        lemma_trace_rank(c, replies, i - 2, i - 1);
        lemma_descriptor_kept(c, replies, k, i - 1, d);
        lemma_trace(c, replies, i - 1);
        lemma_trace_rank(c, replies, k, i - 1);
    }
}

/// The descriptor that an exporting capture closes is the one the export returned, and it is
/// closed only after the buffer has been unmapped, if it ever was mapped.
pub proof fn exported_descriptor_closed_after_unmap(
    driver: AnyDriver,
    planned: Result<CapturePlan, CaptureError>,
    handle: u32,
    replies: Seq<OsReply>,
    k: int,
    i: int,
    d: i32,
)
    requires
        replies_fit(start_control(driver, planned, handle), replies),
        0 <= k < replies.len(),
        0 <= i < replies.len(),
        state_at(start_control(driver, planned, handle), replies, k).phase == Phase::Export,
        replies[k] == OsReply::Descriptor(d),
        state_at(start_control(driver, planned, handle), replies, i).phase == Phase::Close,
    ensures
        k < i,
        action_of(state_at(start_control(driver, planned, handle), replies, i))
            == (CaptureAction::Close { fd: d }),
        forall|j: int|
            0 <= j < replies.len() && (#[trigger] state_at(
                start_control(driver, planned, handle),
                replies,
                j,
            )).phase == Phase::Unmap ==> j < i,
{
    let c = start_control(driver, planned, handle);
    if i <= k {
        lemma_trace_rank(c, replies, i, k);
    }
    lemma_trace_rank(c, replies, i - 1, i);
    lemma_descriptor_kept(c, replies, k, i, d);
    assert forall|j: int|
        0 <= j < replies.len() && (#[trigger] state_at(c, replies, j)).phase == Phase::Unmap implies j < i by {
        if j >= i {
            lemma_trace_rank(c, replies, i, j);
        }
    }
}

proof fn lemma_nothing_exported(c: CaptureControl, replies: Seq<OsReply>)
    requires
        control_wf(c),
        replies_fit(c, replies),
        rank(c.phase) >= 2,
        c.fd is None,
    ensures
        count_calls(c, replies, |c: CaptureControl, r: OsReply| export_granted(c, r)) == 0,
        count_calls(c, replies, |c: CaptureControl, r: OsReply| close_requested(c, r)) == 0,
    decreases replies.len(),
{
    if replies.len() > 0 {
        lemma_step(c, replies[0]);
        lemma_nothing_exported(step(c, replies[0]), replies.drop_first());
    }
}

/// A capture that maps through the device exports no descriptor and closes none: the device's
/// own descriptor is never closed.
pub proof fn device_mapped_capture_closes_nothing(
    planned: Result<CapturePlan, CaptureError>,
    handle: u32,
    replies: Seq<OsReply>,
)
    requires
        replies_fit(start_control(AnyDriver::V3D, planned, handle), replies),
    ensures
        count_calls(
            start_control(AnyDriver::V3D, planned, handle),
            replies,
            |c: CaptureControl, r: OsReply| export_granted(c, r),
        ) == 0,
        count_calls(
            start_control(AnyDriver::V3D, planned, handle),
            replies,
            |c: CaptureControl, r: OsReply| close_requested(c, r),
        ) == 0,
{
    lemma_nothing_exported(start_control(AnyDriver::V3D, planned, handle), replies);
}

/// A finished capture: the decoded frame, and whether the kernel warned that the buffer's
/// contents may have been purged before they were read.
pub struct Captured {
    pub image: Raster,
    pub stale: bool,
}

/// One capture of a frame: it plans the decode, asks its caller for each kernel call in turn,
/// decodes the copied bytes, and always ends by releasing the buffer handle.
pub struct CaptureSession {
    control: CaptureControl,
    planned: Result<CapturePlan, CaptureError>,
    bytes: Vec<u8>,
    image: Option<Raster>,
}

impl CaptureSession {
    pub closed spec fn control(&self) -> CaptureControl {
        self.control
    }

    pub closed spec fn planned(&self) -> Result<CapturePlan, CaptureError> {
        self.planned
    }

    /// The bytes copied out of the mapped buffer.
    pub closed spec fn mapped_bytes(&self) -> Seq<u8> {
        self.bytes@
    }

    pub closed spec fn wf(&self) -> bool {
        let c = self.control;
        &&& control_wf(c)
        &&& match self.planned {
            Ok(p) => {
                &&& p.handle == c.handle
                &&& p.length == c.length
                &&& plan_ready(p)
                &&& c.error is None && rank(c.phase) >= 4 ==> self.bytes@.len() == p.length
                &&& c.error is None && rank(c.phase) >= 6 ==> (self.image matches Some(img)
                    && decoded(p.strategy, self.bytes@, img))
            },
            Err(e) => c.error == Some(e) && rank(c.phase) >= 6,
        }
    }

    /// Plans the capture of a frame through a driver of the given family.
    pub fn new(desc: &FrameDescriptor, driver: AnyDriver) -> (s: CaptureSession)
        ensures
            s.wf(),
            plan_matches(*desc, s.planned()),
            s.control() == start_control(driver, s.planned(), desc.planes[0].handle),
    {
        let planned = plan_capture(desc);
        let handle = desc.planes[0].handle;
        let control = match &planned {
            Ok(p) => {
                proof {
                    lemma_plan_ready(*desc, *p);
                }
                CaptureControl {
                    driver,
                    handle,
                    length: p.length,
                    phase: match driver {
                        AnyDriver::VC4 => Phase::Advise,
                        AnyDriver::V3D => Phase::QueryOffset,
                    },
                    fd: None,
                    offset: 0,
                    stale: false,
                    error: None,
                }
            },
            Err(e) => CaptureControl {
                driver,
                handle,
                length: 0,
                phase: Phase::Release,
                fd: None,
                offset: 0,
                stale: false,
                error: Some(*e),
            },
        };
        CaptureSession { control, planned, bytes: Vec::new(), image: None }
    }

    /// The kernel call to make next.
    pub fn action(&self) -> (r: CaptureAction)
        requires
            self.wf(),
        ensures
            r == action_of(self.control()),
    {
        let c = &self.control;
        match c.phase {
            Phase::Advise => CaptureAction::Advise { handle: c.handle, advice: Madvise::WillNeed },
            Phase::Export => CaptureAction::Export { handle: c.handle },
            Phase::QueryOffset => CaptureAction::QueryOffset { handle: c.handle },
            Phase::MapBuffer => match c.fd {
                Some(fd) => CaptureAction::MapExported { fd, length: c.length },
                None => CaptureAction::MapDevice { offset: c.offset, length: c.length },
            },
            Phase::Unmap => CaptureAction::Unmap { length: c.length },
            Phase::Close => match c.fd {
                Some(fd) => CaptureAction::Close { fd },
                None => {
                    proof {
                        assert(false);
                    }
                    CaptureAction::Finish
                },
            },
            Phase::Release => CaptureAction::Release { handle: c.handle },
            Phase::Finished => CaptureAction::Finish,
        }
    }

    /// Whether `reply` answers the call asked for.
    pub fn accepts(&self, reply: &OsReply) -> (r: bool)
        ensures
            r == fits(self.control(), *reply),
    {
        match self.control.phase {
            Phase::Advise => matches!(reply, OsReply::Retained(_) | OsReply::Failed(_)),
            Phase::Export => matches!(reply, OsReply::Descriptor(_) | OsReply::Failed(_)),
            Phase::QueryOffset => matches!(reply, OsReply::Offset(_) | OsReply::Failed(_)),
            Phase::MapBuffer => match reply {
                OsReply::Mapped(b) => b.len() == self.control.length,
                OsReply::Failed(_) => true,
                _ => false,
            },
            Phase::Unmap | Phase::Close | Phase::Release => matches!(reply, OsReply::Done | OsReply::Failed(_)),
            Phase::Finished => false,
        }
    }

    pub fn is_finished(&self) -> (r: bool)
        ensures
            r == (self.control().phase == Phase::Finished),
    {
        self.control.phase == Phase::Finished
    }

    /// Takes the reply to the call asked for; decodes the copied bytes once the buffer is no
    /// longer mapped and no call has failed.
    pub fn on_reply(&mut self, reply: OsReply)
        requires
            old(self).wf(),
            fits(old(self).control(), reply),
        ensures
            final(self).wf(),
            final(self).control() == step(old(self).control(), reply),
            final(self).planned() == old(self).planned(),
            reply matches OsReply::Mapped(b) ==> final(self).mapped_bytes() == b@,
            !(reply is Mapped) ==> final(self).mapped_bytes() == old(self).mapped_bytes(),
    {
        let ghost before = self.control;
        let c = self.control;
        let after_map = if c.fd.is_some() { Phase::Close } else { Phase::Release };
        let next = match reply {
            OsReply::Retained(kept) => CaptureControl { phase: Phase::Export, stale: !kept, ..c },
            OsReply::Descriptor(fd) => CaptureControl { phase: Phase::MapBuffer, fd: Some(fd), ..c },
            OsReply::Offset(o) => CaptureControl { phase: Phase::MapBuffer, offset: o, ..c },
            OsReply::Mapped(b) => {
                self.bytes = b;
                CaptureControl { phase: Phase::Unmap, ..c }
            },
            OsReply::Done => match c.phase {
                Phase::Unmap => CaptureControl { phase: after_map, ..c },
                Phase::Close => CaptureControl { phase: Phase::Release, fd: None, ..c },
                _ => CaptureControl { phase: Phase::Finished, ..c },
            },
            OsReply::Failed(errno) => {
                let op = match c.phase {
                    Phase::Advise => OsOp::Advise,
                    Phase::Export => OsOp::Export,
                    Phase::QueryOffset => OsOp::QueryOffset,
                    Phase::MapBuffer => OsOp::MapBuffer,
                    Phase::Unmap => OsOp::Unmap,
                    Phase::Close => OsOp::Close,
                    _ => OsOp::Release,
                };
                let error = match c.error {
                    Some(e) => Some(e),
                    None => Some(CaptureError::KernelIo(KernelIoError { op, errno })),
                };
                match c.phase {
                    Phase::MapBuffer | Phase::Unmap => CaptureControl { phase: after_map, error, ..c },
                    Phase::Close => CaptureControl { phase: Phase::Release, fd: None, error, ..c },
                    Phase::Release => CaptureControl { phase: Phase::Finished, error, ..c },
                    _ => CaptureControl { phase: Phase::Release, error, ..c },
                }
            },
        };
        proof {
            assert(next == step(before, reply));
        }
        if next.phase == Phase::Release && c.phase != Phase::Release && next.error.is_none() {
            match &self.planned {
                Ok(p) => {
                    self.image = Some(decode_frame(p, self.bytes.as_slice()));
                },
                Err(_) => {},
            }
        }
        self.control = next;
    }

    /// What a finished capture gives: its first error, or the decoded frame.
    pub fn into_result(self) -> (r: Result<Captured, CaptureError>)
        requires
            self.wf(),
            self.control().phase == Phase::Finished,
        ensures
            self.control().error matches Some(e) ==> r == Err::<Captured, CaptureError>(e),
            self.control().error is None ==> (r matches Ok(c) && self.planned() matches Ok(p)
                && decoded(p.strategy, self.mapped_bytes(), c.image) && c.stale
                == self.control().stale),
    {
        let CaptureSession { control, planned, bytes, image } = self;
        match control.error {
            Some(e) => Err(e),
            None => match image {
                Some(img) => Ok(Captured { image: img, stale: control.stale }),
                None => {
                    proof {
                        assert(false);
                    }
                    Err(CaptureError::MalformedLayout)
                },
            },
        }
    }
}

} // verus!
