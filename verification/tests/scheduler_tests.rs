use luxo_core::scheduler::FailureClass;
use luxo_core::scheduler::FrameSchedule;
use luxo_core::scheduler::RenderOutcome;
use luxo_core::scheduler::SubmitError;
use luxo_core::scheduler::VblankOutcome;
use luxo_core::scheduler::classify_failure;
use luxo_core::scheduler::frame_duration_ns;
use luxo_core::scheduler::render_step;
use luxo_core::scheduler::vblank_step;

// 60 Hz in millihertz, as the kernel reports it.
const HZ60: u32 = 60_000;

#[test]
fn sixty_hz_frame_interval_is_about_16_6_ms() {
    assert_eq!(frame_duration_ns(HZ60), 16_666_666);
}

#[test]
fn presented_frame_schedules_with_sixty_percent_delay() {
    let r = vblank_step(
        VblankOutcome::Presented { has_feedback: true },
        1_000_000_000,
        16_666_666,
        false,
    );
    assert!(r.present_feedback);
    assert!(!r.reset_device);
    assert!(!r.fatal);
    // Fires 60% of a frame after the completion; targets the next vblank.
    assert_eq!(
        r.schedule,
        FrameSchedule::PendingDelayed {
            fire_at_ns: 1_000_000_000 + 9_999_999,
            frame_target_ns: 1_000_000_000 + 16_666_666,
        }
    );
}

#[test]
fn cross_gpu_surface_schedules_immediately() {
    let r = vblank_step(VblankOutcome::Presented { has_feedback: false }, 0, 16_666_666, true);
    assert_eq!(r.schedule, FrameSchedule::PendingImmediate { frame_target_ns: 16_666_666 });
}

#[test]
fn damaging_render_then_already_swapped_issues_only_the_standard_schedule() {
    // The damaging render itself schedules nothing: the vblank closes the loop.
    let after_render = render_step(RenderOutcome::RenderedDamage, 0, 16_666_666);
    assert_eq!(after_render.schedule, FrameSchedule::Idle);
    assert!(!after_render.reset_device);
    assert!(!after_render.fatal);
    // The AlreadySwapped completion is handled and issues exactly the
    // standard vblank-triggered schedule, nothing extra.
    let after_vblank = vblank_step(
        VblankOutcome::Failed(SubmitError::AlreadySwapped),
        16_666_666,
        16_666_666,
        false,
    );
    assert_eq!(
        after_vblank.schedule,
        FrameSchedule::PendingDelayed {
            fire_at_ns: 16_666_666 + 9_999_999,
            frame_target_ns: 16_666_666 + 16_666_666,
        }
    );
    assert!(!after_vblank.present_feedback);
    assert!(!after_vblank.reset_device);
    assert!(!after_vblank.fatal);
}

#[test]
fn device_inactive_stops_scheduling() {
    let r = vblank_step(VblankOutcome::Failed(SubmitError::DeviceInactive), 0, 16_666_666, false);
    assert_eq!(r.schedule, FrameSchedule::Idle);
    assert!(!r.present_feedback);
    assert!(!r.reset_device);
    assert!(!r.fatal);
}

#[test]
fn access_denied_stops_scheduling() {
    let r = vblank_step(VblankOutcome::Failed(SubmitError::AccessDenied), 0, 16_666_666, false);
    assert_eq!(r.schedule, FrameSchedule::Idle);
}

#[test]
fn test_failed_resets_device_and_keeps_scheduling() {
    let r = vblank_step(VblankOutcome::Failed(SubmitError::TestFailed), 0, 16_666_666, false);
    assert!(r.reset_device);
    assert!(!r.fatal);
    assert!(!matches!(r.schedule, FrameSchedule::Idle));
    let rr = render_step(RenderOutcome::Failed(SubmitError::TestFailed), 0, 16_666_666);
    assert!(rr.reset_device);
    assert!(!matches!(rr.schedule, FrameSchedule::Idle));
}

#[test]
fn context_lost_is_fatal() {
    let r = vblank_step(VblankOutcome::Failed(SubmitError::ContextLost), 0, 16_666_666, false);
    assert!(r.fatal);
    assert_eq!(r.schedule, FrameSchedule::Idle);
    let rr = render_step(RenderOutcome::Failed(SubmitError::ContextLost), 0, 16_666_666);
    assert!(rr.fatal);
}

#[test]
fn no_damage_render_on_sixty_hz_repolls_one_full_frame_later() {
    // At 60 Hz the poll comes about 16.6 ms after the frame target:
    // neither immediately nor at the 60% repaint-delay value.
    let r = render_step(RenderOutcome::RenderedNoDamage, 100_000_000, 16_666_666);
    assert_eq!(
        r.schedule,
        FrameSchedule::PendingDelayed {
            fire_at_ns: 100_000_000 + 16_666_666,
            frame_target_ns: 100_000_000 + 16_666_666,
        }
    );
    assert!(!matches!(r.schedule, FrameSchedule::PendingImmediate { .. }));
    match r.schedule {
        FrameSchedule::PendingDelayed { fire_at_ns, .. } => {
            assert_ne!(fire_at_ns, 100_000_000 + 9_999_999);
        }
        _ => unreachable!(),
    }
}

#[test]
fn failure_taxonomy() {
    assert_eq!(classify_failure(SubmitError::AlreadySwapped), FailureClass::Transient);
    assert_eq!(classify_failure(SubmitError::DeviceInactive), FailureClass::Transient);
    assert_eq!(classify_failure(SubmitError::AccessDenied), FailureClass::Transient);
    assert_eq!(classify_failure(SubmitError::OtherTemporary), FailureClass::Transient);
    assert_eq!(classify_failure(SubmitError::TestFailed), FailureClass::StateMismatch);
    assert_eq!(classify_failure(SubmitError::ContextLost), FailureClass::Fatal);
}

#[test]
fn already_swapped_after_render_does_not_repoll() {
    let r = render_step(RenderOutcome::Failed(SubmitError::AlreadySwapped), 0, 16_666_666);
    assert_eq!(r.schedule, FrameSchedule::Idle);
    assert!(!r.reset_device);
    assert!(!r.fatal);
}
