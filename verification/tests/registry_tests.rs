use luxo_core::assembler::FrameMode;
use luxo_core::formats::Format;
use luxo_core::outputs::Mode;
use luxo_core::quirks::Planes;
use luxo_core::registry::ConnectAction;
use luxo_core::registry::ConnectorInfo;
use luxo_core::registry::DeviceAddError;
use luxo_core::registry::DeviceProbe;
use luxo_core::registry::DisconnectAction;
use luxo_core::registry::LeaseRequest;
use luxo_core::registry::Registry;
use luxo_core::registry::SurfaceState;
use luxo_core::scanner::ConnectorProbe;
use luxo_core::scheduler::FrameSchedule;
use luxo_core::scheduler::RenderPath;
use luxo_core::scheduler::SubmitError;
use luxo_core::scheduler::VblankOutcome;

fn fmt(code: u32, modifier: u64) -> Format {
    Format { code, modifier }
}

fn mode_1080p() -> Mode {
    Mode { width: 1920, height: 1080, refresh_mhz: 60_000, preferred: true }
}

fn good_probe(node: u64, render_node: u64) -> DeviceProbe {
    DeviceProbe {
        node,
        open_ok: true,
        drm_ok: true,
        allocator_ok: true,
        render_node,
        bind_ok: true,
        render_formats: vec![fmt(1, 0), fmt(2, 0)],
        leasing_ok: true,
    }
}

fn desktop_info(connector: u32) -> ConnectorInfo {
    ConnectorInfo {
        connector,
        interface: String::from("HDMI-A"),
        interface_id: 1,
        non_desktop: false,
        make: None,
        model: None,
        phys_size_mm: Some((600, 340)),
        modes: vec![mode_1080p()],
        planes: Planes { primary: vec![10], cursor: vec![11], overlay: vec![] },
        plane_formats: vec![fmt(1, 0)],
        driver_name: b"i915".to_vec(),
        driver_desc: b"Intel Graphics".to_vec(),
    }
}

fn non_desktop_info(connector: u32) -> ConnectorInfo {
    let mut info = desktop_info(connector);
    info.interface = String::from("DP");
    info.interface_id = 2;
    info.non_desktop = true;
    info
}

fn kernel_state(pairs: &[(u32, u32)]) -> Vec<ConnectorProbe> {
    pairs
        .iter()
        .map(|&(connector, crtc)| ConnectorProbe { connector, connected: true, crtc: Some(crtc) })
        .collect()
}

#[test]
fn add_device_error_ladder() {
    let mut reg = Registry::new(1, vec![fmt(1, 0)], false);
    let mut p = good_probe(10, 1);
    p.open_ok = false;
    assert_eq!(reg.add_device(p), Err(DeviceAddError::DeviceOpenError));
    let mut p = good_probe(10, 1);
    p.drm_ok = false;
    assert_eq!(reg.add_device(p), Err(DeviceAddError::DrmInitError));
    let mut p = good_probe(10, 1);
    p.allocator_ok = false;
    assert_eq!(reg.add_device(p), Err(DeviceAddError::AllocatorInitError));
    let mut p = good_probe(10, 1);
    p.bind_ok = false;
    assert_eq!(reg.add_device(p), Err(DeviceAddError::RenderNodeBindError));
    assert_eq!(reg.add_device(good_probe(10, 1)), Ok(()));
    // One device per distinct render node at a time.
    assert_eq!(reg.add_device(good_probe(11, 1)), Err(DeviceAddError::RenderNodeBindError));
}

#[test]
fn desktop_and_non_desktop_hotplug_together() {
    // Connector A (desktop) and connector B (non-desktop) hotplug together:
    // one output surface for A; B yields zero outputs and one lease
    // registration.
    let mut reg = Registry::new(1, vec![fmt(1, 0)], false);
    reg.add_device(good_probe(10, 1)).unwrap();
    let events = reg.device_changed(10, &kernel_state(&[(1, 100), (2, 101)]));
    assert_eq!(events.len(), 2);
    let a = reg.connector_connected(10, 100, &desktop_info(1));
    assert!(matches!(a, ConnectAction::Output(_)));
    let b = reg.connector_connected(10, 101, &non_desktop_info(2));
    match b {
        ConnectAction::Lease { connector, crtc, name, description } => {
            assert_eq!(connector, 2);
            assert_eq!(crtc, 101);
            assert_eq!(name.as_str(), "DP-2");
            assert_eq!(description.as_str(), "Unknown Unknown");
        }
        _ => panic!("expected a lease registration"),
    }
    assert_eq!(reg.devices[0].surfaces.len(), 1);
    assert_eq!(reg.devices[0].non_desktop.len(), 1);
    assert_eq!(reg.devices[0].surfaces[0].connector, 1);
    assert_eq!(reg.devices[0].surfaces[0].name.as_str(), "HDMI-A-1");
    assert!(matches!(reg.devices[0].surfaces[0].state, SurfaceState::Initializing));
}

#[test]
fn output_count_tracks_connected_non_leased_connectors() {
    let mut reg = Registry::new(1, vec![fmt(1, 0)], false);
    reg.add_device(good_probe(10, 1)).unwrap();
    reg.device_changed(10, &kernel_state(&[(1, 100), (2, 101), (3, 102)]));
    reg.connector_connected(10, 100, &desktop_info(1));
    reg.connector_connected(10, 101, &non_desktop_info(2));
    reg.connector_connected(10, 102, &desktop_info(3));
    // Three connected CRTC-bound connectors, one leased: two surfaces.
    assert_eq!(reg.devices[0].surfaces.len(), 2);
    // Unplugging the leased connector and one desktop connector.
    let events = reg.device_changed(10, &kernel_state(&[(3, 102)]));
    assert_eq!(events.len(), 2);
    assert_eq!(
        reg.connector_disconnected(10, 1, 100),
        DisconnectAction::RemoveOutput { crtc: 100 }
    );
    assert_eq!(
        reg.connector_disconnected(10, 2, 101),
        DisconnectAction::WithdrawLease { connector: 2 }
    );
    assert_eq!(reg.devices[0].surfaces.len(), 1);
    assert_eq!(reg.devices[0].non_desktop.len(), 0);
    // Feeding the identical scan result again changes nothing.
    let events = reg.device_changed(10, &kernel_state(&[(3, 102)]));
    assert_eq!(events.len(), 0);
    assert_eq!(reg.devices[0].surfaces.len(), 1);
}

#[test]
fn new_output_is_placed_right_of_existing_outputs() {
    let mut reg = Registry::new(1, vec![fmt(1, 0)], false);
    reg.add_device(good_probe(10, 1)).unwrap();
    reg.device_changed(10, &kernel_state(&[(1, 100), (3, 102)]));
    let first = reg.connector_connected(10, 100, &desktop_info(1));
    match first {
        ConnectAction::Output(plan) => {
            assert_eq!(plan.position_x, 0);
            assert_eq!(plan.position_y, 0);
        }
        _ => panic!("expected an output plan"),
    }
    let second = reg.connector_connected(10, 102, &desktop_info(3));
    match second {
        ConnectAction::Output(plan) => {
            assert_eq!(plan.position_x, 1920);
            assert_eq!(plan.position_y, 0);
            assert_eq!(plan.mode, mode_1080p());
            assert_eq!(plan.phys_w, 600);
            assert_eq!(plan.phys_h, 340);
            assert_eq!(plan.make.as_str(), "Unknown");
        }
        _ => panic!("expected an output plan"),
    }
}

#[test]
fn nvidia_driver_loses_overlay_planes() {
    // An "nvidia"-identified driver with 3 overlay + 1 primary + 1 cursor
    // plane on a CRTC: the claimed set keeps primary and cursor, zero
    // overlays.
    let mut reg = Registry::new(1, vec![fmt(1, 0)], false);
    reg.add_device(good_probe(10, 1)).unwrap();
    reg.device_changed(10, &kernel_state(&[(1, 100)]));
    let mut info = desktop_info(1);
    info.planes = Planes { primary: vec![10], cursor: vec![11], overlay: vec![20, 21, 22] };
    info.driver_name = b"NVIDIA-drm".to_vec();
    info.driver_desc = b"whatever".to_vec();
    match reg.connector_connected(10, 100, &info) {
        ConnectAction::Output(plan) => {
            assert_eq!(plan.claimed_planes.primary, vec![10]);
            assert_eq!(plan.claimed_planes.cursor, vec![11]);
            assert_eq!(plan.claimed_planes.overlay, Vec::<u32>::new());
        }
        _ => panic!("expected an output plan"),
    }
}

#[test]
fn other_driver_keeps_overlay_planes() {
    let mut reg = Registry::new(1, vec![fmt(1, 0)], false);
    reg.add_device(good_probe(10, 1)).unwrap();
    reg.device_changed(10, &kernel_state(&[(1, 100)]));
    let mut info = desktop_info(1);
    info.planes = Planes { primary: vec![10], cursor: vec![11], overlay: vec![20, 21] };
    match reg.connector_connected(10, 100, &info) {
        ConnectAction::Output(plan) => {
            assert_eq!(plan.claimed_planes.overlay, vec![20, 21]);
        }
        _ => panic!("expected an output plan"),
    }
}

#[test]
fn stale_or_unusable_connect_events_are_ignored() {
    let mut reg = Registry::new(1, vec![fmt(1, 0)], false);
    // Unknown device.
    assert!(matches!(reg.connector_connected(10, 100, &desktop_info(1)), ConnectAction::Ignored));
    reg.add_device(good_probe(10, 1)).unwrap();
    // Pair never seen by the device's scan.
    assert!(matches!(reg.connector_connected(10, 100, &desktop_info(1)), ConnectAction::Ignored));
    reg.device_changed(10, &kernel_state(&[(1, 100)]));
    // No usable mode on the connector.
    let mut info = desktop_info(1);
    info.modes = vec![];
    assert!(matches!(reg.connector_connected(10, 100, &info), ConnectAction::Ignored));
    assert_eq!(reg.devices[0].surfaces.len(), 0);
}

#[test]
fn failed_initialization_aborts_the_output() {
    let mut reg = Registry::new(1, vec![fmt(1, 0)], false);
    reg.add_device(good_probe(10, 1)).unwrap();
    reg.device_changed(10, &kernel_state(&[(1, 100)]));
    reg.connector_connected(10, 100, &desktop_info(1));
    assert_eq!(reg.devices[0].surfaces.len(), 1);
    assert!(reg.output_init_result(10, 100, false, 0));
    assert_eq!(reg.devices[0].surfaces.len(), 0);
    // The device itself is unaffected.
    assert_eq!(reg.devices.len(), 1);
}

#[test]
fn successful_initialization_activates_and_kicks_off_rendering() {
    let mut reg = Registry::new(1, vec![fmt(1, 0)], false);
    reg.add_device(good_probe(10, 1)).unwrap();
    reg.device_changed(10, &kernel_state(&[(1, 100)]));
    reg.connector_connected(10, 100, &desktop_info(1));
    assert!(reg.output_init_result(10, 100, true, 5));
    assert!(matches!(reg.devices[0].surfaces[0].state, SurfaceState::Active));
    assert_eq!(
        reg.devices[0].surfaces[0].schedule,
        FrameSchedule::PendingImmediate { frame_target_ns: 5 }
    );
}

#[test]
fn device_inactive_then_resume_rerenders_each_surface_once() {
    // DeviceInactive during completion schedules nothing further; resume
    // triggers exactly one immediate re-render per owned output surface.
    let mut reg = Registry::new(1, vec![fmt(1, 0)], false);
    reg.add_device(good_probe(10, 1)).unwrap();
    reg.device_changed(10, &kernel_state(&[(1, 100), (3, 102)]));
    reg.connector_connected(10, 100, &desktop_info(1));
    reg.connector_connected(10, 102, &desktop_info(3));
    reg.output_init_result(10, 100, true, 0);
    reg.output_init_result(10, 102, true, 0);
    let r = reg
        .frame_finish(10, 100, VblankOutcome::Failed(SubmitError::DeviceInactive), 1_000)
        .unwrap();
    assert_eq!(r.schedule, FrameSchedule::Idle);
    assert_eq!(reg.devices[0].surfaces[0].schedule, FrameSchedule::Idle);
    reg.pause();
    for s in &reg.devices[0].surfaces {
        assert_eq!(s.schedule, FrameSchedule::Idle);
    }
    reg.resume(2_000);
    // One pending schedule per surface is structural: each surface holds
    // exactly one schedule slot, and resume fills each with one immediate.
    assert_eq!(reg.devices[0].surfaces.len(), 2);
    for s in &reg.devices[0].surfaces {
        assert_eq!(s.schedule, FrameSchedule::PendingImmediate { frame_target_ns: 2_000 });
    }
}

#[test]
fn vblank_completion_writes_the_standard_schedule() {
    let mut reg = Registry::new(1, vec![fmt(1, 0)], false);
    reg.add_device(good_probe(10, 1)).unwrap();
    reg.device_changed(10, &kernel_state(&[(1, 100)]));
    reg.connector_connected(10, 100, &desktop_info(1));
    reg.output_init_result(10, 100, true, 0);
    let r = reg
        .frame_finish(10, 100, VblankOutcome::Presented { has_feedback: true }, 1_000_000)
        .unwrap();
    assert!(r.present_feedback);
    assert_eq!(
        r.schedule,
        FrameSchedule::PendingDelayed {
            fire_at_ns: 1_000_000 + 9_999_999,
            frame_target_ns: 1_000_000 + 16_666_666,
        }
    );
    assert_eq!(reg.devices[0].surfaces[0].schedule, r.schedule);
    // Unknown CRTC: nothing happens.
    assert!(reg.frame_finish(10, 999, VblankOutcome::Presented { has_feedback: false }, 0).is_none());
}

#[test]
fn cross_gpu_surface_gets_immediate_schedule() {
    // Device 20 renders on node 2 while the primary GPU is node 1: its
    // surfaces need a cross-GPU copy and schedule immediately.
    let mut reg = Registry::new(1, vec![fmt(1, 0)], false);
    reg.add_device(good_probe(20, 2)).unwrap();
    reg.device_changed(20, &kernel_state(&[(1, 200)]));
    reg.connector_connected(20, 200, &desktop_info(1));
    reg.output_init_result(20, 200, true, 0);
    let r = reg
        .frame_finish(20, 200, VblankOutcome::Presented { has_feedback: false }, 0)
        .unwrap();
    assert_eq!(r.schedule, FrameSchedule::PendingImmediate { frame_target_ns: 16_666_666 });
}

#[test]
fn frame_plan_resolves_render_path_and_frame_mode() {
    // Primary GPU is node 1; device 10 renders on it, device 20 does not.
    let mut reg = Registry::new(1, vec![fmt(1, 0)], false);
    reg.add_device(good_probe(10, 1)).unwrap();
    reg.add_device(good_probe(20, 2)).unwrap();
    reg.device_changed(10, &kernel_state(&[(1, 100)]));
    reg.device_changed(20, &kernel_state(&[(1, 200)]));
    reg.connector_connected(10, 100, &desktop_info(1));
    reg.connector_connected(20, 200, &desktop_info(1));
    let plan = reg.frame_plan(10, 100, fmt(9, 0)).unwrap();
    assert_eq!(plan.render_path, RenderPath::SameGpu);
    assert_eq!(plan.frame_mode, FrameMode::AllPlanes);
    let plan = reg.frame_plan(20, 200, fmt(9, 0)).unwrap();
    assert_eq!(plan.render_path, RenderPath::CrossGpuCopy { format: fmt(9, 0) });
    assert!(reg.frame_plan(10, 999, fmt(9, 0)).is_none());
    // With direct scanout disabled by configuration, frames composite only.
    let mut reg = Registry::new(1, vec![fmt(1, 0)], true);
    reg.add_device(good_probe(10, 1)).unwrap();
    reg.device_changed(10, &kernel_state(&[(1, 100)]));
    reg.connector_connected(10, 100, &desktop_info(1));
    let plan = reg.frame_plan(10, 100, fmt(9, 0)).unwrap();
    assert_eq!(plan.frame_mode, FrameMode::CompositeOnly);
}

#[test]
fn device_removal_names_everything_to_tear_down() {
    let mut reg = Registry::new(1, vec![fmt(1, 0)], false);
    reg.add_device(good_probe(10, 1)).unwrap();
    reg.device_changed(10, &kernel_state(&[(1, 100), (2, 101)]));
    reg.connector_connected(10, 100, &desktop_info(1));
    reg.connector_connected(10, 101, &non_desktop_info(2));
    let removal = reg.device_removed(10).unwrap();
    assert_eq!(removal.render_node, 1);
    assert_eq!(removal.crtcs, vec![100]);
    assert_eq!(removal.lease_connectors, vec![2]);
    assert_eq!(reg.devices.len(), 0);
    assert!(reg.device_removed(10).is_none());
}

#[test]
fn lease_request_grants_only_non_desktop_connectors() {
    let mut reg = Registry::new(1, vec![fmt(1, 0)], false);
    reg.add_device(good_probe(10, 1)).unwrap();
    reg.device_changed(10, &kernel_state(&[(1, 100), (2, 101)]));
    reg.connector_connected(10, 100, &desktop_info(1));
    reg.connector_connected(10, 101, &non_desktop_info(2));
    let granted = reg
        .plan_lease(
            10,
            &vec![LeaseRequest { connector: 2, primary_planes: vec![30, 31], cursor_planes: vec![32] }],
        )
        .unwrap();
    assert_eq!(granted.len(), 1);
    assert_eq!(granted[0].connector, 2);
    assert_eq!(granted[0].crtc, 101);
    assert_eq!(granted[0].primary_plane, 30);
    assert_eq!(granted[0].cursor_plane, Some(32));
    // A desktop connector rejects the whole request.
    assert!(reg
        .plan_lease(
            10,
            &vec![LeaseRequest { connector: 1, primary_planes: vec![30], cursor_planes: vec![] }],
        )
        .is_err());
    // No claimable primary plane rejects too.
    assert!(reg
        .plan_lease(
            10,
            &vec![LeaseRequest { connector: 2, primary_planes: vec![], cursor_planes: vec![] }],
        )
        .is_err());
    assert!(reg.new_active_lease(10, 77));
    assert_eq!(reg.devices[0].active_leases, vec![77]);
    assert!(reg.lease_destroyed(10, 77));
    assert_eq!(reg.devices[0].active_leases, Vec::<u32>::new());
}

#[test]
fn pause_clears_active_leases() {
    let mut reg = Registry::new(1, vec![fmt(1, 0)], false);
    reg.add_device(good_probe(10, 1)).unwrap();
    reg.new_active_lease(10, 5);
    reg.pause();
    assert_eq!(reg.devices[0].active_leases.len(), 0);
}

#[test]
fn reset_buffers_validates_the_target() {
    let mut reg = Registry::new(1, vec![fmt(1, 0)], false);
    reg.add_device(good_probe(10, 1)).unwrap();
    reg.device_changed(10, &kernel_state(&[(1, 100)]));
    reg.connector_connected(10, 100, &desktop_info(1));
    assert!(reg.reset_buffers(10, 100));
    assert!(!reg.reset_buffers(10, 101));
    assert!(!reg.reset_buffers(11, 100));
}

#[test]
fn no_damage_render_result_repolls_one_frame_later() {
    let mut reg = Registry::new(1, vec![fmt(1, 0)], false);
    reg.add_device(good_probe(10, 1)).unwrap();
    reg.device_changed(10, &kernel_state(&[(1, 100)]));
    reg.connector_connected(10, 100, &desktop_info(1));
    reg.output_init_result(10, 100, true, 0);
    let r = reg
        .render_result(10, 100, luxo_core::scheduler::RenderOutcome::RenderedNoDamage, 50_000_000)
        .unwrap();
    assert_eq!(
        r.schedule,
        FrameSchedule::PendingDelayed {
            fire_at_ns: 50_000_000 + 16_666_666,
            frame_target_ns: 50_000_000 + 16_666_666,
        }
    );
    assert_eq!(reg.devices[0].surfaces[0].schedule, r.schedule);
}

#[test]
fn external_render_request_supersedes_pending_schedule() {
    let mut reg = Registry::new(1, vec![fmt(1, 0)], false);
    reg.add_device(good_probe(10, 1)).unwrap();
    reg.device_changed(10, &kernel_state(&[(1, 100)]));
    reg.connector_connected(10, 100, &desktop_info(1));
    reg.output_init_result(10, 100, true, 0);
    reg.render_result(10, 100, luxo_core::scheduler::RenderOutcome::RenderedNoDamage, 0);
    assert!(reg.trigger_render(10, 100, 123));
    assert_eq!(
        reg.devices[0].surfaces[0].schedule,
        FrameSchedule::PendingImmediate { frame_target_ns: 123 }
    );
}
