use luxo_core::dispatch::CommitTimer;
use luxo_core::dispatch::SurfaceScanout;
use luxo_core::dispatch::WindowOnOutput;
use luxo_core::dispatch::fifo_barriers_to_signal;
use luxo_core::dispatch::pre_repaint;
use luxo_core::dispatch::presentation_flags;
use luxo_core::dispatch::take_presentation_feedback;
use luxo_core::dispatch::update_primary_scanout_output;

#[test]
fn hardware_timestamp_sets_all_timing_flags() {
    let f = presentation_flags(true);
    assert!(f.vsync && f.hw_clock && f.hw_completion);
    let f = presentation_flags(false);
    assert!(f.vsync && !f.hw_clock && !f.hw_completion);
}

#[test]
fn barriers_release_relative_to_the_frame_target() {
    let timers = vec![
        CommitTimer { surface: 1, client: 100, deadline_ns: 5_000 },
        CommitTimer { surface: 2, client: 100, deadline_ns: 20_000 },
        CommitTimer { surface: 3, client: 200, deadline_ns: 10_000 },
    ];
    // Barriers up to the targeted frame release, later ones stay; the
    // comparison is against the frame target, not any wall clock.
    let plan = pre_repaint(&timers, 10_000);
    assert_eq!(plan.released_surfaces, vec![1, 3]);
    // Each affected client is flushed once.
    assert_eq!(plan.clients, vec![100, 200]);
}

#[test]
fn no_barrier_past_target_releases() {
    let timers = vec![CommitTimer { surface: 1, client: 100, deadline_ns: 50 }];
    let plan = pre_repaint(&timers, 49);
    assert_eq!(plan.released_surfaces, Vec::<u64>::new());
    assert_eq!(plan.clients, Vec::<u64>::new());
}

#[test]
fn fifo_barriers_signal_for_this_output_or_undecided_surfaces() {
    let surfaces = vec![
        SurfaceScanout { client: 1, primary_scanout: Some(7), has_fifo_barrier: true, visible_in_frame: true },
        SurfaceScanout { client: 2, primary_scanout: Some(8), has_fifo_barrier: true, visible_in_frame: true },
        SurfaceScanout { client: 3, primary_scanout: None, has_fifo_barrier: true, visible_in_frame: false },
        SurfaceScanout { client: 4, primary_scanout: Some(7), has_fifo_barrier: false, visible_in_frame: true },
        SurfaceScanout { client: 1, primary_scanout: Some(7), has_fifo_barrier: true, visible_in_frame: true },
    ];
    let clients = fifo_barriers_to_signal(&surfaces, 7);
    // Client 2's surface is primarily on another output; client 4 has no
    // barrier; client 1 comes once.
    assert_eq!(clients, vec![1, 3]);
}

#[test]
fn feedback_record_holds_exactly_the_windows_shown_on_the_output() {
    let windows = vec![
        WindowOnOutput { window: 10, on_output: true },
        WindowOnOutput { window: 11, on_output: false },
        WindowOnOutput { window: 12, on_output: true },
    ];
    assert_eq!(take_presentation_feedback(&windows), vec![10, 12]);
}

#[test]
fn post_repaint_bundles_barriers_callbacks_and_feedback() {
    let surfaces = vec![
        SurfaceScanout { client: 1, primary_scanout: Some(7), has_fifo_barrier: true, visible_in_frame: true },
        SurfaceScanout { client: 2, primary_scanout: Some(8), has_fifo_barrier: true, visible_in_frame: false },
    ];
    let windows = vec![
        WindowOnOutput { window: 10, on_output: true },
        WindowOnOutput { window: 11, on_output: false },
    ];
    let plan = luxo_core::dispatch::post_repaint(&surfaces, &windows, 7, true);
    assert_eq!(plan.fifo_clients, vec![1]);
    assert_eq!(plan.frame_callback_windows, vec![10]);
    assert_eq!(plan.feedback_windows, vec![10]);
    // Without dmabuf feedback on the surface, none is offered.
    let plan = luxo_core::dispatch::post_repaint(&surfaces, &windows, 7, false);
    assert_eq!(plan.feedback_windows, Vec::<u64>::new());
    assert_eq!(plan.frame_callback_windows, vec![10]);
}

#[test]
fn visible_surfaces_adopt_the_rendered_output() {
    let surfaces = vec![
        SurfaceScanout { client: 1, primary_scanout: Some(3), has_fifo_barrier: false, visible_in_frame: true },
        SurfaceScanout { client: 2, primary_scanout: Some(3), has_fifo_barrier: false, visible_in_frame: false },
        SurfaceScanout { client: 3, primary_scanout: None, has_fifo_barrier: false, visible_in_frame: false },
    ];
    let updated = update_primary_scanout_output(surfaces, 7);
    assert_eq!(updated[0].primary_scanout, Some(7));
    assert_eq!(updated[1].primary_scanout, Some(3));
    assert_eq!(updated[2].primary_scanout, None);
}
