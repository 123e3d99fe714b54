//! Frame scheduler: decides when an output surface renders next.
//!
//! Per surface there is at most one pending schedule; every new trigger
//! supersedes the previous one.  A vblank completion classifies the submit
//! result and, when scheduling continues, targets the next vblank and fires
//! the repaint after 60% of the frame interval, leaving the first part of
//! the interval to clients.  A cross-GPU surface fires immediately instead,
//! since damage-free short-circuiting is unreliable under a copy path.  A
//! no-damage render polls again one full frame interval later.

use vstd::prelude::*;
use crate::formats::Format;

verus! {

/// Latest accepted timestamp, in monotonic nanoseconds.  Bounding the clock
/// keeps every schedule computation inside `u64`.
pub const MAX_TIME_NS: u64 = 0x4000_0000_0000_0000;

/// Longest accepted frame interval: one full second, the interval of a
/// 1000 millihertz mode, the slowest a mode can report.
pub const MAX_FRAME_NS: u64 = 1_000_000_000_000;

/// Pending timer state of one output surface.
#[derive(Clone, Copy, Debug, PartialEq, Eq, Structural)]
pub enum FrameSchedule {
    Idle,
    PendingImmediate { frame_target_ns: u64 },
    PendingDelayed { fire_at_ns: u64, frame_target_ns: u64 },
}

/// A failed frame submit, as classified at the surface boundary.
#[derive(Clone, Copy, Debug, PartialEq, Eq, Structural)]
pub enum SubmitError {
    /// The frame had already been swapped; nothing was lost.
    AlreadySwapped,
    /// The device is inactive (session paused); resume re-triggers.
    DeviceInactive,
    /// The device denied access; display mastership is likely lost.
    AccessDenied,
    /// Another transient failure.
    OtherTemporary,
    /// The atomic test-commit failed: device state no longer matches.
    TestFailed,
    /// The rendering context is lost beyond recovery.
    ContextLost,
}

/// The failure taxonomy: transient errors are absorbed, a state mismatch
/// forces a defensive device reset, and context loss is fatal.
#[derive(Clone, Copy, Debug, PartialEq, Eq, Structural)]
pub enum FailureClass {
    Transient,
    StateMismatch,
    Fatal,
}

pub open spec fn spec_classify_failure(e: SubmitError) -> FailureClass {
    match e {
        SubmitError::AlreadySwapped => FailureClass::Transient,
        SubmitError::DeviceInactive => FailureClass::Transient,
        SubmitError::AccessDenied => FailureClass::Transient,
        SubmitError::OtherTemporary => FailureClass::Transient,
        SubmitError::TestFailed => FailureClass::StateMismatch,
        SubmitError::ContextLost => FailureClass::Fatal,
    }
}

/// Classify a submit failure.
pub fn classify_failure(e: SubmitError) -> (r: FailureClass)
    ensures
        r == spec_classify_failure(e),
{
    match e {
        SubmitError::AlreadySwapped => FailureClass::Transient,
        SubmitError::DeviceInactive => FailureClass::Transient,
        SubmitError::AccessDenied => FailureClass::Transient,
        SubmitError::OtherTemporary => FailureClass::Transient,
        SubmitError::TestFailed => FailureClass::StateMismatch,
        SubmitError::ContextLost => FailureClass::Fatal,
    }
}

/// The frame interval of a mode, in nanoseconds.
pub fn frame_duration_ns(refresh_mhz: u32) -> (r: u64)
    requires
        refresh_mhz >= 1,
    ensures
        r == MAX_FRAME_NS as int / refresh_mhz as int,
        1 <= r <= MAX_FRAME_NS,
{
    let r = MAX_FRAME_NS / (refresh_mhz as u64);
    proof {
        assert(1 <= MAX_FRAME_NS as int / refresh_mhz as int <= MAX_FRAME_NS as int)
            by (nonlinear_arith)
            requires
                1 <= refresh_mhz < 0x1_0000_0000,
        ;
    }
    r
}

/// The standard vblank-triggered schedule: target the next vblank; fire
/// after 60% of the frame interval, or immediately on a cross-GPU surface.
pub open spec fn standard_schedule(completion_ns: u64, frame_ns: u64, cross_gpu: bool) -> FrameSchedule
    recommends
        completion_ns <= MAX_TIME_NS,
        frame_ns <= MAX_FRAME_NS,
{
    if cross_gpu {
        FrameSchedule::PendingImmediate { frame_target_ns: (completion_ns + frame_ns) as u64 }
    } else {
        FrameSchedule::PendingDelayed {
            fire_at_ns: (completion_ns + frame_ns * 3 / 5) as u64,
            frame_target_ns: (completion_ns + frame_ns) as u64,
        }
    }
}

/// What a vblank completion reported for the submitted frame.
#[derive(Clone, Copy, Debug, PartialEq, Eq, Structural)]
pub enum VblankOutcome {
    /// The frame reached the display; a presentation-feedback record may be
    /// attached.
    Presented { has_feedback: bool },
    Failed(SubmitError),
}

/// The scheduler's reaction to a vblank completion.
#[derive(Clone, Copy, Debug, PartialEq, Eq, Structural)]
pub struct VblankResult {
    /// The surface's next schedule; supersedes whatever was pending.
    pub schedule: FrameSchedule,
    /// Dispatch the frame's presentation feedback.
    pub present_feedback: bool,
    /// Force a full device state reset before continuing.
    pub reset_device: bool,
    /// Unrecoverable context loss: the process must terminate.
    pub fatal: bool,
}

pub open spec fn spec_vblank_step(
    outcome: VblankOutcome,
    completion_ns: u64,
    frame_ns: u64,
    cross_gpu: bool,
) -> VblankResult {
    match outcome {
        VblankOutcome::Presented { has_feedback } => VblankResult {
            schedule: standard_schedule(completion_ns, frame_ns, cross_gpu),
            present_feedback: has_feedback,
            reset_device: false,
            fatal: false,
        },
        VblankOutcome::Failed(e) => match spec_classify_failure(e) {
            FailureClass::Transient => if e == SubmitError::AlreadySwapped {
                // Handled: the frame is on screen, keep the standard cadence.
                VblankResult {
                    schedule: standard_schedule(completion_ns, frame_ns, cross_gpu),
                    present_feedback: false,
                    reset_device: false,
                    fatal: false,
                }
            } else {
                // Device inactive, mastership lost or another transient
                // failure: stop until an explicit trigger.
                VblankResult {
                    schedule: FrameSchedule::Idle,
                    present_feedback: false,
                    reset_device: false,
                    fatal: false,
                }
            },
            FailureClass::StateMismatch => VblankResult {
                schedule: standard_schedule(completion_ns, frame_ns, cross_gpu),
                present_feedback: false,
                reset_device: true,
                fatal: false,
            },
            FailureClass::Fatal => VblankResult {
                schedule: FrameSchedule::Idle,
                present_feedback: false,
                reset_device: false,
                fatal: true,
            },
        },
    }
}

/// React to a vblank completion.
pub fn vblank_step(
    outcome: VblankOutcome,
    completion_ns: u64,
    frame_ns: u64,
    cross_gpu: bool,
) -> (r: VblankResult)
    requires
        completion_ns <= MAX_TIME_NS,
        frame_ns <= MAX_FRAME_NS,
    ensures
        r == spec_vblank_step(outcome, completion_ns, frame_ns, cross_gpu),
{
    let schedule = if cross_gpu {
        FrameSchedule::PendingImmediate { frame_target_ns: completion_ns + frame_ns }
    } else {
        FrameSchedule::PendingDelayed {
            fire_at_ns: completion_ns + frame_ns * 3 / 5,
            frame_target_ns: completion_ns + frame_ns,
        }
    };
    match outcome {
        VblankOutcome::Presented { has_feedback } => VblankResult {
            schedule,
            present_feedback: has_feedback,
            reset_device: false,
            fatal: false,
        },
        VblankOutcome::Failed(e) => match e {
            SubmitError::AlreadySwapped => VblankResult {
                schedule,
                present_feedback: false,
                reset_device: false,
                fatal: false,
            },
            SubmitError::TestFailed => VblankResult {
                schedule,
                present_feedback: false,
                reset_device: true,
                fatal: false,
            },
            SubmitError::ContextLost => VblankResult {
                schedule: FrameSchedule::Idle,
                present_feedback: false,
                reset_device: false,
                fatal: true,
            },
            _ => VblankResult {
                schedule: FrameSchedule::Idle,
                present_feedback: false,
                reset_device: false,
                fatal: false,
            },
        },
    }
}

/// What one render pass produced.
#[derive(Clone, Copy, Debug, PartialEq, Eq, Structural)]
pub enum RenderOutcome {
    /// Damage was flushed and a frame queued; the vblank closes the loop.
    RenderedDamage,
    /// Nothing changed on screen; no frame was queued.
    RenderedNoDamage,
    Failed(SubmitError),
}

/// The scheduler's reaction to a render pass.
#[derive(Clone, Copy, Debug, PartialEq, Eq, Structural)]
pub struct RenderStepResult {
    /// The surface's next schedule; supersedes whatever was pending.
    pub schedule: FrameSchedule,
    /// Force a full device state reset before continuing.
    pub reset_device: bool,
    /// Unrecoverable context loss: the process must terminate.
    pub fatal: bool,
}

/// The poll schedule after a frame that flushed no damage: try again one
/// full frame interval later rather than busy-polling.
pub open spec fn poll_schedule(frame_target_ns: u64, frame_ns: u64) -> FrameSchedule
    recommends
        frame_target_ns <= MAX_TIME_NS,
        frame_ns <= MAX_FRAME_NS,
{
    FrameSchedule::PendingDelayed {
        fire_at_ns: (frame_target_ns + frame_ns) as u64,
        frame_target_ns: (frame_target_ns + frame_ns) as u64,
    }
}

pub open spec fn spec_render_step(
    outcome: RenderOutcome,
    frame_target_ns: u64,
    frame_ns: u64,
) -> RenderStepResult {
    match outcome {
        // A queued frame waits for its vblank; nothing further is scheduled
        // here.
        RenderOutcome::RenderedDamage => RenderStepResult {
            schedule: FrameSchedule::Idle,
            reset_device: false,
            fatal: false,
        },
        RenderOutcome::RenderedNoDamage => RenderStepResult {
            schedule: poll_schedule(frame_target_ns, frame_ns),
            reset_device: false,
            fatal: false,
        },
        RenderOutcome::Failed(e) => match spec_classify_failure(e) {
            // Absorbed: already swapped means the vblank is still coming;
            // the other transient failures stop scheduling until an
            // explicit trigger (session resume, render request).
            FailureClass::Transient => RenderStepResult {
                schedule: FrameSchedule::Idle,
                reset_device: false,
                fatal: false,
            },
            FailureClass::StateMismatch => RenderStepResult {
                schedule: poll_schedule(frame_target_ns, frame_ns),
                reset_device: true,
                fatal: false,
            },
            FailureClass::Fatal => RenderStepResult {
                schedule: FrameSchedule::Idle,
                reset_device: false,
                fatal: true,
            },
        },
    }
}

/// React to the result of a render pass.
pub fn render_step(outcome: RenderOutcome, frame_target_ns: u64, frame_ns: u64) -> (r:
    RenderStepResult)
    requires
        frame_target_ns <= MAX_TIME_NS,
        frame_ns <= MAX_FRAME_NS,
    ensures
        r == spec_render_step(outcome, frame_target_ns, frame_ns),
{
    let poll = FrameSchedule::PendingDelayed {
        fire_at_ns: frame_target_ns + frame_ns,
        frame_target_ns: frame_target_ns + frame_ns,
    };
    match outcome {
        RenderOutcome::RenderedDamage => RenderStepResult {
            schedule: FrameSchedule::Idle,
            reset_device: false,
            fatal: false,
        },
        RenderOutcome::RenderedNoDamage => RenderStepResult {
            schedule: poll,
            reset_device: false,
            fatal: false,
        },
        RenderOutcome::Failed(e) => match e {
            SubmitError::TestFailed => RenderStepResult {
                schedule: poll,
                reset_device: true,
                fatal: false,
            },
            SubmitError::ContextLost => RenderStepResult {
                schedule: FrameSchedule::Idle,
                reset_device: false,
                fatal: true,
            },
            _ => RenderStepResult {
                schedule: FrameSchedule::Idle,
                reset_device: false,
                fatal: false,
            },
        },
    }
}

/// How an output surface's frame is produced: on the GPU that also scans it
/// out, or rendered on the primary GPU and copied in the surface's format.
#[derive(Clone, Copy, Debug, PartialEq, Eq, Structural)]
pub enum RenderPath {
    SameGpu,
    CrossGpuCopy { format: Format },
}

/// Resolve the render path of a surface once per frame.
pub fn select_render_path(primary_gpu: u64, render_node: u64, surface_format: Format) -> (r:
    RenderPath)
    ensures
        r == if primary_gpu == render_node {
            RenderPath::SameGpu
        } else {
            (RenderPath::CrossGpuCopy { format: surface_format })
        },
{
    if primary_gpu == render_node {
        RenderPath::SameGpu
    } else {
        RenderPath::CrossGpuCopy { format: surface_format }
    }
}

/// A damaging render schedules nothing by itself, and the AlreadySwapped
/// completion that follows it issues exactly the standard vblank-triggered
/// schedule and nothing else: no reset, no feedback, no fatal stop.
pub proof fn lemma_damaging_render_then_already_swapped(
    frame_target_ns: u64,
    completion_ns: u64,
    frame_ns: u64,
    cross_gpu: bool,
)
    ensures
        spec_render_step(RenderOutcome::RenderedDamage, frame_target_ns, frame_ns) == (RenderStepResult {
            schedule: FrameSchedule::Idle,
            reset_device: false,
            fatal: false,
        }),
        spec_vblank_step(
            VblankOutcome::Failed(SubmitError::AlreadySwapped),
            completion_ns,
            frame_ns,
            cross_gpu,
        ) == (VblankResult {
            schedule: standard_schedule(completion_ns, frame_ns, cross_gpu),
            present_feedback: false,
            reset_device: false,
            fatal: false,
        }),
        !(standard_schedule(completion_ns, frame_ns, cross_gpu) is Idle),
{
}

/// A DeviceInactive completion schedules nothing further; the surface sits
/// idle until an explicit resume triggers it again.
pub proof fn lemma_device_inactive_stops(completion_ns: u64, frame_ns: u64, cross_gpu: bool)
    ensures
        spec_vblank_step(
            VblankOutcome::Failed(SubmitError::DeviceInactive),
            completion_ns,
            frame_ns,
            cross_gpu,
        ) == (VblankResult {
            schedule: FrameSchedule::Idle,
            present_feedback: false,
            reset_device: false,
            fatal: false,
        }),
{
}

/// A no-damage render polls one full frame interval after the frame target:
/// not immediately, and later than the standard 60% repaint delay would
/// fire after a completion at the same instant.
pub proof fn lemma_no_damage_polls_full_frame(frame_target_ns: u64, frame_ns: u64)
    requires
        frame_target_ns <= MAX_TIME_NS,
        1 <= frame_ns <= MAX_FRAME_NS,
    ensures
        spec_render_step(
            RenderOutcome::RenderedNoDamage,
            frame_target_ns,
            frame_ns,
        ).schedule == (FrameSchedule::PendingDelayed {
            fire_at_ns: (frame_target_ns + frame_ns) as u64,
            frame_target_ns: (frame_target_ns + frame_ns) as u64,
        }),
        !(spec_render_step(RenderOutcome::RenderedNoDamage, frame_target_ns, frame_ns).schedule
            is PendingImmediate),
        frame_ns >= 3 ==> (frame_target_ns + frame_ns) as u64 > (frame_target_ns + frame_ns * 3
            / 5) as u64,
{
}

} // verus!
