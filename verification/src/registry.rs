//! GPU/device registry: owns every `GpuDevice` and, through it, every
//! output surface and lease registration.
//!
//! Devices come and go with kernel hotplug.  Each device carries the
//! connector scanner that diffs its kernel state, the surfaces of its
//! desktop connectors and the lease bookkeeping of its non-desktop ones.
//! The registry is driven from a single event loop: the caller probes the
//! kernel, hands the observations in as plain values and carries the
//! returned decisions back to the hardware.
//!
//! The hotplug accounting — one output surface per connected, non-leased,
//! CRTC-bound connector, no leak and no duplicate — is stated by
//! `GpuDevice::outputs_consistent` and carried across a scan and its event
//! applications by the `scan_pending_ok` lemmas, ending in
//! `lemma_hotplug_preserves_output_accounting`.

use vstd::prelude::*;
use crate::assembler::FrameMode;
use crate::formats::Format;
use crate::formats::SurfaceDmabufFeedback;
use crate::formats::surface_dmabuf_feedback;
use crate::outputs::Mode;
use crate::outputs::name_or_unknown;
use crate::outputs::next_output_x;
use crate::outputs::output_name;
use crate::outputs::pick_mode;
use crate::outputs::spec_decimal;
use crate::outputs::spec_pick_mode;
use crate::outputs::spec_sum_widths;
use crate::quirks::Planes;
use crate::quirks::matches_nvidia;
use crate::quirks::quirks_for_driver;
use crate::scanner::ConnectorPair;
use crate::scanner::ConnectorProbe;
use crate::scanner::ConnectorScanner;
use crate::scanner::ScanEvent;
use crate::scanner::contains_pair;
use crate::scanner::probe_pairs;
use crate::scanner::scan_events;
use crate::scheduler::FrameSchedule;
use crate::scheduler::RenderOutcome;
use crate::scheduler::RenderPath;
use crate::scheduler::RenderStepResult;
use crate::scheduler::VblankOutcome;
use crate::scheduler::VblankResult;
use crate::scheduler::spec_render_step;
use crate::scheduler::spec_vblank_step;

verus! {

/// Most output surfaces a registry will hold at a time; far beyond any
/// hardware, and small enough that placement arithmetic stays in range.
pub const MAX_OUTPUTS: usize = 65536;

/// Why `add_device` failed, named after the setup step that failed.
#[derive(Clone, Copy, Debug, PartialEq, Eq, Structural)]
pub enum DeviceAddError {
    /// The permissioned open of the device path failed.
    DeviceOpenError,
    /// DRM device or event-source construction failed.
    DrmInitError,
    /// The buffer allocator could not be constructed.
    AllocatorInitError,
    /// Render-node resolution or renderer-pool registration failed.
    RenderNodeBindError,
}

/// The outcomes of the device setup steps, observed at the kernel boundary
/// and handed in for the registry to rule on.
pub struct DeviceProbe {
    /// Kernel device id of the DRM node.
    pub node: u64,
    /// The permissioned open succeeded.
    pub open_ok: bool,
    /// DRM device and event-source construction succeeded.
    pub drm_ok: bool,
    /// The buffer allocator was constructed.
    pub allocator_ok: bool,
    /// The resolved render node (the device itself when it has none).
    pub render_node: u64,
    /// The render node was registered with the renderer pool.
    pub bind_ok: bool,
    /// Formats the device's renderer can produce.
    pub render_formats: Vec<Format>,
    /// A lease global could be created for the device.
    pub leasing_ok: bool,
}

/// Lifecycle state of an output surface.  The terminal states
/// (disconnected, device removed) drop the surface from the registry.
#[derive(Clone, Copy, Debug, PartialEq, Eq, Structural)]
pub enum SurfaceState {
    /// Created for a connected connector; the atomic-commit initialization
    /// of its CRTC is still outstanding.
    Initializing,
    /// Initialized and rendering.
    Active,
}

/// Per-CRTC compositor state bound to one physical display.
pub struct OutputSurface {
    pub crtc: u32,
    pub connector: u32,
    pub state: SurfaceState,
    /// Output name derived from the connector ("HDMI-A-1").
    pub name: String,
    /// Tiling default: immediately right of all earlier outputs.
    pub position_x: u64,
    pub position_y: u64,
    pub mode: Mode,
    /// Planes claimed for the CRTC, quirks applied.
    pub claimed_planes: Planes,
    /// Dmabuf feedback advertised for this surface.
    pub feedback: SurfaceDmabufFeedback,
    /// Never scan client buffers out directly; always composite.
    pub disable_direct_scanout: bool,
    /// Pending frame schedule; at most one, by construction.
    pub schedule: FrameSchedule,
}

/// One GPU, keyed by its kernel node, owning its surfaces and leases.
pub struct GpuDevice {
    pub node: u64,
    pub render_node: u64,
    /// Formats this device's renderer can produce.
    pub render_formats: Vec<Format>,
    /// Previously observed connector/CRTC pairing.
    pub scanner: ConnectorScanner,
    pub surfaces: Vec<OutputSurface>,
    /// Lease-eligible (non-desktop) connectors and their CRTCs.
    pub non_desktop: Vec<ConnectorPair>,
    /// Ids of leases currently handed out.
    pub active_leases: Vec<u32>,
    /// The device advertises a lease global.
    pub leasing_enabled: bool,
}

impl GpuDevice {
    /// The connector/CRTC pairs the device's surfaces stand for.
    pub open spec fn surface_pairs(&self) -> Seq<ConnectorPair> {
        self.surfaces@.map_values(
            |s: OutputSurface| ConnectorPair { connector: s.connector, crtc: s.crtc },
        )
    }

    pub open spec fn has_surface(&self, crtc: u32) -> bool {
        exists|i: int| 0 <= i < self.surfaces@.len() && (#[trigger] self.surfaces@[i]).crtc == crtc
    }

    pub open spec fn has_non_desktop(&self, connector: u32) -> bool {
        exists|i: int|
            0 <= i < self.non_desktop@.len() && (#[trigger] self.non_desktop@[i]).connector
                == connector
    }

    pub open spec fn wf(&self) -> bool {
        &&& self.scanner.wf()
        &&& forall|i: int, j: int|
            0 <= i < self.surfaces@.len() && 0 <= j < self.surfaces@.len() && i != j ==> (
            #[trigger] self.surfaces@[i]).crtc != (#[trigger] self.surfaces@[j]).crtc
        &&& forall|i: int, j: int|
            0 <= i < self.non_desktop@.len() && 0 <= j < self.non_desktop@.len() && i != j ==> (
            #[trigger] self.non_desktop@[i]).connector != (#[trigger] self.non_desktop@[j]).connector
        &&& forall|i: int|
            0 <= i < self.surfaces@.len() ==> (#[trigger] self.surfaces@[i]).mode.refresh_mhz >= 1
    }

    /// The bookkeeping of a quiescent device: every connected CRTC-bound
    /// connector is either registered for leasing or carried by exactly one
    /// surface, and nothing is carried that is not connected.
    pub open spec fn outputs_consistent(&self) -> bool {
        &&& forall|i: int|
            0 <= i < self.scanner.pairs().len() ==> (self.non_desktop@.contains(
                #[trigger] self.scanner.pairs()[i],
            ) || self.surface_pairs().contains(self.scanner.pairs()[i]))
        &&& forall|i: int|
            0 <= i < self.surface_pairs().len() ==> (self.scanner.pairs().contains(
                #[trigger] self.surface_pairs()[i],
            ) && !self.non_desktop@.contains(self.surface_pairs()[i]))
        &&& forall|i: int|
            0 <= i < self.non_desktop@.len() ==> self.scanner.pairs().contains(
                #[trigger] self.non_desktop@[i],
            )
    }
}

/// The registry of all GPU devices, with the compositor-wide configuration
/// the devices' surfaces derive from.
pub struct Registry {
    /// Render node of the primary GPU; every client buffer is imported there.
    pub primary_gpu: u64,
    /// Formats the primary GPU's renderer can produce.
    pub primary_formats: Vec<Format>,
    /// Configuration: never scan client buffers out directly.
    pub disable_direct_scanout: bool,
    pub devices: Vec<GpuDevice>,
}

impl Registry {
    pub open spec fn spec_has_device(&self, node: u64) -> bool {
        exists|i: int| 0 <= i < self.devices@.len() && (#[trigger] self.devices@[i]).node == node
    }

    pub open spec fn spec_has_render_node(&self, render_node: u64) -> bool {
        exists|i: int|
            0 <= i < self.devices@.len() && (#[trigger] self.devices@[i]).render_node == render_node
    }

    /// Total output surfaces across all devices.
    pub open spec fn spec_surface_count(&self) -> int {
        spec_count_surfaces(self.devices@)
    }

    pub open spec fn wf(&self) -> bool {
        &&& forall|i: int, j: int|
            0 <= i < self.devices@.len() && 0 <= j < self.devices@.len() && i != j ==> (
            #[trigger] self.devices@[i]).node != (#[trigger] self.devices@[j]).node
        &&& forall|i: int, j: int|
            0 <= i < self.devices@.len() && 0 <= j < self.devices@.len() && i != j ==> (
            #[trigger] self.devices@[i]).render_node != (#[trigger] self.devices@[j]).render_node
        &&& forall|i: int| 0 <= i < self.devices@.len() ==> (#[trigger] self.devices@[i]).wf()
        &&& self.spec_surface_count() <= MAX_OUTPUTS as int
    }

    /// A fresh registry for the given primary GPU.
    pub fn new(primary_gpu: u64, primary_formats: Vec<Format>, disable_direct_scanout: bool) -> (r:
        Registry)
        ensures
            r.wf(),
            r.devices@.len() == 0,
            r.primary_gpu == primary_gpu,
            r.primary_formats == primary_formats,
            r.disable_direct_scanout == disable_direct_scanout,
    {
        Registry { primary_gpu, primary_formats, disable_direct_scanout, devices: Vec::new() }
    }

    /// Index of the device with the given node.
    fn find_device(&self, node: u64) -> (r: Option<usize>)
        ensures
            match r {
                Some(i) => i < self.devices@.len() && self.devices@[i as int].node == node,
                None => !self.spec_has_device(node),
            },
    {
        let mut i: usize = 0;
        while i < self.devices.len()
            invariant
                i <= self.devices.len(),
                forall|m: int| 0 <= m < i ==> (#[trigger] self.devices@[m]).node != node,
            decreases self.devices.len() - i,
        {
            if self.devices[i].node == node {
                return Some(i);
            }
            i = i + 1;
        }
        None
    }

    /// Whether a device with this node is registered.
    pub fn has_device(&self, node: u64) -> (r: bool)
        ensures
            r == self.spec_has_device(node),
    {
        match self.find_device(node) {
            Some(_) => true,
            None => false,
        }
    }

    fn has_render_node(&self, render_node: u64) -> (r: bool)
        ensures
            r == self.spec_has_render_node(render_node),
    {
        let mut i: usize = 0;
        while i < self.devices.len()
            invariant
                i <= self.devices.len(),
                forall|m: int| 0 <= m < i ==> (#[trigger] self.devices@[m]).render_node != render_node,
            decreases self.devices.len() - i,
        {
            if self.devices[i].render_node == render_node {
                return true;
            }
            i = i + 1;
        }
        false
    }

    /// What `add_device` rules for a probe: the error of the first failed
    /// setup step, in step order, or success.  Binding the render node also
    /// fails when another registered device already renders through it: one
    /// GPU device per distinct render node at a time.
    pub open spec fn spec_add_verdict(&self, probe: DeviceProbe) -> Result<(), DeviceAddError> {
        if !probe.open_ok {
            Err(DeviceAddError::DeviceOpenError)
        } else if !probe.drm_ok {
            Err(DeviceAddError::DrmInitError)
        } else if !probe.allocator_ok {
            Err(DeviceAddError::AllocatorInitError)
        } else if !probe.bind_ok || self.spec_has_render_node(probe.render_node) {
            Err(DeviceAddError::RenderNodeBindError)
        } else {
            Ok(())
        }
    }

    /// Rule on a device hotplug-add.  Each setup step the caller performed
    /// at the kernel boundary either succeeded or names the error; a fully
    /// set-up device is registered and the caller rescans its connectors.
    pub fn add_device(&mut self, probe: DeviceProbe) -> (r: Result<(), DeviceAddError>)
        requires
            old(self).wf(),
            !old(self).spec_has_device(probe.node),
        ensures
            final(self).wf(),
            r == old(self).spec_add_verdict(probe),
            r is Err ==> *final(self) == *old(self),
            r is Ok ==> {
                let fin = *final(self);
                &&& fin.devices@.len() == old(self).devices@.len() + 1
                &&& fin.devices@.subrange(0, old(self).devices@.len() as int) == old(self).devices@
                &&& fin.devices@.last().node == probe.node
                &&& fin.devices@.last().render_node == probe.render_node
                &&& fin.devices@.last().render_formats == probe.render_formats
                &&& fin.devices@.last().scanner.pairs().len() == 0
                &&& fin.devices@.last().surfaces@.len() == 0
                &&& fin.devices@.last().non_desktop@.len() == 0
                &&& fin.devices@.last().active_leases@.len() == 0
                &&& fin.devices@.last().leasing_enabled == probe.leasing_ok
            },
            final(self).primary_gpu == old(self).primary_gpu,
            final(self).primary_formats == old(self).primary_formats,
            final(self).disable_direct_scanout == old(self).disable_direct_scanout,
    {
        if !probe.open_ok {
            return Err(DeviceAddError::DeviceOpenError);
        }
        if !probe.drm_ok {
            return Err(DeviceAddError::DrmInitError);
        }
        if !probe.allocator_ok {
            return Err(DeviceAddError::AllocatorInitError);
        }
        if !probe.bind_ok || self.has_render_node(probe.render_node) {
            return Err(DeviceAddError::RenderNodeBindError);
        }
        let device = GpuDevice {
            node: probe.node,
            render_node: probe.render_node,
            render_formats: probe.render_formats,
            scanner: ConnectorScanner::new(),
            surfaces: Vec::new(),
            non_desktop: Vec::new(),
            active_leases: Vec::new(),
            leasing_enabled: probe.leasing_ok,
        };
        let ghost old_devices = self.devices@;
        self.devices.push(device);
        proof {
            assert(self.devices@.drop_last() =~= old_devices);
            lemma_count_surfaces_push(old_devices, self.devices@.last());
            assert forall|i: int, j: int|
                0 <= i < self.devices@.len() && 0 <= j < self.devices@.len() && i != j implies (
            #[trigger] self.devices@[i]).node != (#[trigger] self.devices@[j]).node by {
                if i < old_devices.len() && j < old_devices.len() {
                    assert(old_devices[i] == self.devices@[i]);
                }
            }
            assert(self.devices@.subrange(0, old_devices.len() as int) =~= old_devices);
        }
        Ok(())
    }

    /// Diff one device's kernel connector state against the previous scan.
    /// The record becomes the probe's pairing; the caller feeds the events
    /// back through `connector_connected` / `connector_disconnected`,
    /// disconnections first.  `lemma_scan_step` carries the hotplug
    /// accounting across the diff.
    pub fn device_changed(&mut self, node: u64, probes: &Vec<ConnectorProbe>) -> (events: Vec<
        ScanEvent,
    >)
        requires
            old(self).wf(),
            crate::scanner::unique_probe_connectors(probes@),
            crate::scanner::unique_probe_crtcs(probes@),
        ensures
            final(self).wf(),
            !old(self).spec_has_device(node) ==> *final(self) == *old(self) && events@.len() == 0,
            forall|i: int|
                0 <= i < old(self).devices@.len() && (#[trigger] old(self).devices@[i]).node == node
                    ==> {
                    &&& final(self).devices@[i].scanner.pairs() == probe_pairs(probes@)
                    &&& events@ == scan_events(
                        old(self).devices@[i].scanner.pairs(),
                        probe_pairs(probes@),
                    )
                    &&& same_but_scanner(old(self).devices@[i], final(self).devices@[i])
                },
            forall|i: int|
                0 <= i < old(self).devices@.len() && (#[trigger] old(self).devices@[i]).node != node
                    ==> final(self).devices@[i] == old(self).devices@[i],
            final(self).devices@.len() == old(self).devices@.len(),
            final(self).primary_gpu == old(self).primary_gpu,
            final(self).primary_formats == old(self).primary_formats,
            final(self).disable_direct_scanout == old(self).disable_direct_scanout,
    {
        let idx = match self.find_device(node) {
            Some(i) => i,
            None => {
                return Vec::new();
            },
        };
        let ghost old_devices = self.devices@;
        let mut device = self.devices.remove(idx);
        let events = device.scanner.scan(probes);
        self.devices.insert(idx, device);
        proof {
            assert(self.devices@ =~= old_devices.update(idx as int, self.devices@[idx as int]));
            lemma_count_surfaces_update(
                old_devices,
                idx as int,
                self.devices@[idx as int],
            );
        }
        events
    }

    /// The mode widths of every surface, in device order: their sum is the
    /// x coordinate of the next output, their number the surface count.
    fn collect_widths(&self) -> (w: Vec<u16>)
        ensures
            spec_sum_widths(w@) == spec_total_width(self.devices@),
            w@.len() == spec_count_surfaces(self.devices@),
    {
        let mut w: Vec<u16> = Vec::new();
        let mut i: usize = 0;
        while i < self.devices.len()
            invariant
                i <= self.devices.len(),
                spec_sum_widths(w@) == spec_total_width(self.devices@.subrange(0, i as int)),
                w@.len() == spec_count_surfaces(self.devices@.subrange(0, i as int)),
            decreases self.devices.len() - i,
        {
            let d = &self.devices[i];
            let ghost dev_prefix = self.devices@.subrange(0, i as int);
            let ghost w_start = w@;
            let mut j: usize = 0;
            while j < d.surfaces.len()
                invariant
                    j <= d.surfaces.len(),
                    d == &self.devices@[i as int],
                    spec_sum_widths(w@) == spec_total_width(dev_prefix) + spec_surfaces_width(
                        d.surfaces@.subrange(0, j as int),
                    ),
                    w@.len() == spec_count_surfaces(dev_prefix) + j,
                decreases d.surfaces.len() - j,
            {
                let ghost w_prev = w@;
                w.push(d.surfaces[j].mode.width);
                proof {
                    assert(w@.drop_last() =~= w_prev);
                    assert(d.surfaces@.subrange(0, j + 1 as int).drop_last() =~= d.surfaces@
                        .subrange(0, j as int));
                    assert(d.surfaces@.subrange(0, j + 1 as int).last() == d.surfaces@[j as int]);
                }
                j = j + 1;
            }
            proof {
                assert(d.surfaces@.subrange(0, d.surfaces@.len() as int) =~= d.surfaces@);
                assert(self.devices@.subrange(0, i + 1 as int).drop_last() =~= self.devices@
                    .subrange(0, i as int));
                assert(self.devices@.subrange(0, i + 1 as int).last() == self.devices@[i as int]);
            }
            i = i + 1;
        }
        proof {
            assert(self.devices@.subrange(0, self.devices@.len() as int) =~= self.devices@);
        }
        w
    }

    /// Rule on a connector that connected with a CRTC assigned.  A
    /// non-desktop connector is registered as lease-eligible and never
    /// becomes an output.  A desktop connector gets an output surface in
    /// `Initializing` state and an initialization plan: the kernel-preferred
    /// mode (or the first), a name derived from the connector, a position
    /// immediately right of all existing outputs, the candidate planes with
    /// driver quirks applied, and the surface's dmabuf feedback.  The
    /// device delta is `spec_connect_delta`; the connect-step lemmas carry
    /// the hotplug accounting across it.
    pub fn connector_connected(&mut self, node: u64, crtc: u32, info: &ConnectorInfo) -> (r:
        ConnectAction)
        requires
            old(self).wf(),
        ensures
            final(self).wf(),
            old(self).spec_connect_rejects(node, crtc, *info) ==> r is Ignored && *final(self)
                == *old(self),
            !old(self).spec_connect_rejects(node, crtc, *info) && info.non_desktop ==> {
                &&& (r matches ConnectAction::Lease { connector: lc, crtc: lt, name: ln, description: ld }
                    && lc == info.connector && lt == crtc && ln@ == spec_output_name(*info) && ld@
                    == spec_make(*info) + seq![' '] + spec_model(*info))
                &&& forall|i: int|
                    0 <= i < old(self).devices@.len() && (#[trigger] old(self).devices@[i]).node
                        == node ==> same_but_non_desktop(
                        old(self).devices@[i],
                        final(self).devices@[i],
                    ) && final(self).devices@[i].non_desktop@ == old(
                        self,
                    ).devices@[i].non_desktop@.push(
                        ConnectorPair { connector: info.connector, crtc },
                    )
            },
            !old(self).spec_connect_rejects(node, crtc, *info) && !info.non_desktop ==> {
                &&& (r matches ConnectAction::Output(plan) && spec_plan_ok(
                    plan,
                    *old(self),
                    old(self).devices@[old(self).spec_device_index(node)].render_formats@,
                    crtc,
                    *info,
                ))
                &&& forall|i: int|
                    0 <= i < old(self).devices@.len() && (#[trigger] old(self).devices@[i]).node
                        == node ==> same_but_surfaces(
                        old(self).devices@[i],
                        final(self).devices@[i],
                    ) && final(self).devices@[i].surfaces@.len() == old(
                        self,
                    ).devices@[i].surfaces@.len() + 1 && final(self).devices@[i].surfaces@.drop_last()
                        == old(self).devices@[i].surfaces@ && spec_new_surface_ok(
                        final(self).devices@[i].surfaces@.last(),
                        *old(self),
                        old(self).devices@[i].render_formats@,
                        crtc,
                        *info,
                    )
            },
            final(self).devices@.len() == old(self).devices@.len(),
            forall|i: int|
                0 <= i < old(self).devices@.len() && (#[trigger] old(self).devices@[i]).node != node
                    ==> final(self).devices@[i] == old(self).devices@[i],
            final(self).primary_gpu == old(self).primary_gpu,
            final(self).primary_formats == old(self).primary_formats,
            final(self).disable_direct_scanout == old(self).disable_direct_scanout,
    {
        let idx = match self.find_device(node) {
            Some(i) => i,
            None => {
                return ConnectAction::Ignored;
            },
        };
        let pair = ConnectorPair { connector: info.connector, crtc };
        let scan_pairs = self.devices[idx].scanner.current_pairs();
        if !contains_pair(&scan_pairs, pair) {
            return ConnectAction::Ignored;
        }
        if info.non_desktop {
            if device_has_non_desktop(&self.devices[idx], info.connector) {
                return ConnectAction::Ignored;
            }
            let name = output_name(info.interface.as_str(), info.interface_id);
            let make = name_or_unknown(clone_opt_string(&info.make));
            let model = name_or_unknown(clone_opt_string(&info.model));
            let ghost make_view = make@;
            let mut description = make;
            proof {
                reveal_strlit(" ");
            }
            description.append(" ");
            description.append(model.as_str());
            proof {
                assert(description@ =~= spec_make(*info) + seq![' '] + spec_model(*info));
            }
            let ghost old_devices = self.devices@;
            let mut device = self.devices.remove(idx);
            device.non_desktop.push(pair);
            self.devices.insert(idx, device);
            proof {
                assert(self.devices@ =~= old_devices.update(idx as int, self.devices@[idx as int]));
                lemma_count_surfaces_update(old_devices, idx as int, self.devices@[idx as int]);
                assert(self.devices@[idx as int].non_desktop@.drop_last() =~= old_devices[idx as int]
                    .non_desktop@);
            }
            return ConnectAction::Lease { connector: info.connector, crtc, name, description };
        }
        if device_has_surface(&self.devices[idx], crtc) {
            return ConnectAction::Ignored;
        }
        let mode = match pick_mode(&info.modes) {
            Some(m) => m,
            None => {
                return ConnectAction::Ignored;
            },
        };
        if mode.refresh_mhz < 1 {
            return ConnectAction::Ignored;
        }
        let widths = self.collect_widths();
        if widths.len() >= MAX_OUTPUTS {
            return ConnectAction::Ignored;
        }
        let position_x = next_output_x(&widths);
        let name = output_name(info.interface.as_str(), info.interface_id);
        let make = name_or_unknown(clone_opt_string(&info.make));
        let model = name_or_unknown(clone_opt_string(&info.model));
        let (phys_w, phys_h) = match info.phys_size_mm {
            Some(wh) => wh,
            None => (0, 0),
        };
        let quirks = quirks_for_driver(&info.driver_name, &info.driver_desc);
        let claimed = clone_planes(&info.planes).claim(quirks);
        let feedback_surface = surface_dmabuf_feedback(
            &self.primary_formats,
            &self.devices[idx].render_formats,
            &info.plane_formats,
        );
        let feedback_plan = surface_dmabuf_feedback(
            &self.primary_formats,
            &self.devices[idx].render_formats,
            &info.plane_formats,
        );
        let surface = OutputSurface {
            crtc,
            connector: info.connector,
            state: SurfaceState::Initializing,
            name: name.clone(),
            position_x,
            position_y: 0,
            mode,
            claimed_planes: clone_planes(&claimed),
            feedback: feedback_surface,
            disable_direct_scanout: self.disable_direct_scanout,
            schedule: FrameSchedule::Idle,
        };
        let plan = OutputPlan {
            crtc,
            connector: info.connector,
            name,
            make,
            model,
            phys_w,
            phys_h,
            mode,
            position_x,
            position_y: 0,
            claimed_planes: claimed,
            feedback: feedback_plan,
            disable_direct_scanout: self.disable_direct_scanout,
        };
        let ghost old_devices = self.devices@;
        let mut device = self.devices.remove(idx);
        device.surfaces.push(surface);
        self.devices.insert(idx, device);
        proof {
            assert(self.devices@ =~= old_devices.update(idx as int, self.devices@[idx as int]));
            lemma_count_surfaces_update(old_devices, idx as int, self.devices@[idx as int]);
            assert(self.devices@[idx as int].surfaces@.drop_last() =~= old_devices[idx as int]
                .surfaces@);
            lemma_count_surfaces_nonneg(old_devices);
        }
        ConnectAction::Output(plan)
    }

    /// Rule on a connector that disconnected.  A lease-eligible connector
    /// is withdrawn from the lease global; a desktop connector's surface is
    /// dropped and its output unmapped.  Stale events do nothing.  The
    /// device delta is `spec_disconnect_delta`; `lemma_disconnect_step`
    /// carries the hotplug accounting across it.
    pub fn connector_disconnected(&mut self, node: u64, connector: u32, crtc: u32) -> (r:
        DisconnectAction)
        requires
            old(self).wf(),
        ensures
            final(self).wf(),
            !old(self).spec_has_device(node) ==> r is Ignored && *final(self) == *old(self),
            forall|i: int|
                0 <= i < old(self).devices@.len() && (#[trigger] old(self).devices@[i]).node == node
                    ==> {
                    let d_old = old(self).devices@[i];
                    let d_new = final(self).devices@[i];
                    &&& d_old.has_non_desktop(connector) ==> r == (DisconnectAction::WithdrawLease {
                        connector,
                    }) && same_but_non_desktop(d_old, d_new) && exists|j: int|
                        0 <= j < d_old.non_desktop@.len() && (
                        #[trigger] d_old.non_desktop@[j]).connector == connector
                            && d_new.non_desktop@ == d_old.non_desktop@.remove(j)
                    &&& !d_old.has_non_desktop(connector) && d_old.has_surface(crtc) ==> r == (
                    DisconnectAction::RemoveOutput { crtc }) && same_but_surfaces(d_old, d_new)
                        && exists|j: int|
                        0 <= j < d_old.surfaces@.len() && (#[trigger] d_old.surfaces@[j]).crtc
                            == crtc && d_new.surfaces@ == d_old.surfaces@.remove(j)
                    &&& !d_old.has_non_desktop(connector) && !d_old.has_surface(crtc) ==> r
                        is Ignored && d_new == d_old
                },
            final(self).devices@.len() == old(self).devices@.len(),
            forall|i: int|
                0 <= i < old(self).devices@.len() && (#[trigger] old(self).devices@[i]).node != node
                    ==> final(self).devices@[i] == old(self).devices@[i],
            final(self).primary_gpu == old(self).primary_gpu,
            final(self).primary_formats == old(self).primary_formats,
            final(self).disable_direct_scanout == old(self).disable_direct_scanout,
    {
        let idx = match self.find_device(node) {
            Some(i) => i,
            None => {
                return DisconnectAction::Ignored;
            },
        };
        if let Some(j) = find_non_desktop(&self.devices[idx], connector) {
            let ghost old_devices = self.devices@;
            let ghost old_nd = self.devices@[idx as int].non_desktop@;
            let mut device = self.devices.remove(idx);
            let _ = device.non_desktop.remove(j);
            self.devices.insert(idx, device);
            proof {
                assert(self.devices@ =~= old_devices.update(idx as int, self.devices@[idx as int]));
                lemma_count_surfaces_update(old_devices, idx as int, self.devices@[idx as int]);
                old_nd.remove_ensures(j as int);
                let d_new = self.devices@[idx as int];
                assert forall|a: int, b: int|
                    0 <= a < d_new.non_desktop@.len() && 0 <= b < d_new.non_desktop@.len() && a != b
                        implies (#[trigger] d_new.non_desktop@[a]).connector != (
                #[trigger] d_new.non_desktop@[b]).connector by {
                    let a0 = if a < j as int {
                        a
                    } else {
                        a + 1
                    };
                    let b0 = if b < j as int {
                        b
                    } else {
                        b + 1
                    };
                    assert(d_new.non_desktop@[a] == old_nd[a0]);
                    assert(d_new.non_desktop@[b] == old_nd[b0]);
                }
            }
            return DisconnectAction::WithdrawLease { connector };
        }
        if let Some(j) = find_surface_idx(&self.devices[idx], crtc) {
            let ghost old_devices = self.devices@;
            let ghost old_ss = self.devices@[idx as int].surfaces@;
            let mut device = self.devices.remove(idx);
            let _ = device.surfaces.remove(j);
            self.devices.insert(idx, device);
            proof {
                assert(self.devices@ =~= old_devices.update(idx as int, self.devices@[idx as int]));
                lemma_count_surfaces_update(old_devices, idx as int, self.devices@[idx as int]);
                old_ss.remove_ensures(j as int);
                lemma_count_surfaces_nonneg(old_devices);
                let d_new = self.devices@[idx as int];
                assert forall|a: int, b: int|
                    0 <= a < d_new.surfaces@.len() && 0 <= b < d_new.surfaces@.len() && a != b
                        implies (#[trigger] d_new.surfaces@[a]).crtc != (
                #[trigger] d_new.surfaces@[b]).crtc by {
                    let a0 = if a < j as int {
                        a
                    } else {
                        a + 1
                    };
                    let b0 = if b < j as int {
                        b
                    } else {
                        b + 1
                    };
                    assert(d_new.surfaces@[a] == old_ss[a0]);
                    assert(d_new.surfaces@[b] == old_ss[b0]);
                }
                assert forall|a: int|
                    0 <= a < d_new.surfaces@.len() implies (
                #[trigger] d_new.surfaces@[a]).mode.refresh_mhz >= 1 by {
                    let a0 = if a < j as int {
                        a
                    } else {
                        a + 1
                    };
                    assert(d_new.surfaces@[a] == old_ss[a0]);
                }
            }
            return DisconnectAction::RemoveOutput { crtc };
        }
        DisconnectAction::Ignored
    }

    /// Record the outcome of a desktop output's atomic-commit
    /// initialization.  Success turns the surface active and schedules its
    /// first render immediately; failure aborts the output without
    /// affecting the device.  Returns whether anything was recorded.
    pub fn output_init_result(&mut self, node: u64, crtc: u32, ok: bool, now_ns: u64) -> (r: bool)
        requires
            old(self).wf(),
        ensures
            final(self).wf(),
            r == old(self).spec_has_initializing_surface(node, crtc),
            !r ==> *final(self) == *old(self),
            r ==> forall|i: int|
                0 <= i < old(self).devices@.len() && (#[trigger] old(self).devices@[i]).node == node
                    ==> {
                    let d_old = old(self).devices@[i];
                    let d_new = final(self).devices@[i];
                    &&& same_but_surfaces(d_old, d_new)
                    &&& forall|j: int|
                        0 <= j < d_old.surfaces@.len() && (#[trigger] d_old.surfaces@[j]).crtc
                            == crtc ==> if ok {
                            d_new.surfaces@ == d_old.surfaces@.update(
                                j,
                                d_new.surfaces@[j],
                            ) && same_but_state_schedule(
                                d_old.surfaces@[j],
                                d_new.surfaces@[j],
                                SurfaceState::Active,
                                FrameSchedule::PendingImmediate { frame_target_ns: now_ns },
                            )
                        } else {
                            d_new.surfaces@ == d_old.surfaces@.remove(j)
                        }
                },
            final(self).devices@.len() == old(self).devices@.len(),
            forall|i: int|
                0 <= i < old(self).devices@.len() && (#[trigger] old(self).devices@[i]).node != node
                    ==> final(self).devices@[i] == old(self).devices@[i],
            final(self).primary_gpu == old(self).primary_gpu,
            final(self).primary_formats == old(self).primary_formats,
            final(self).disable_direct_scanout == old(self).disable_direct_scanout,
    {
        let idx = match self.find_device(node) {
            Some(i) => i,
            None => {
                return false;
            },
        };
        let j = match find_surface_idx(&self.devices[idx], crtc) {
            Some(j) => j,
            None => {
                return false;
            },
        };
        let is_initializing = match self.devices[idx].surfaces[j].state {
            SurfaceState::Initializing => true,
            SurfaceState::Active => false,
        };
        if !is_initializing {
            return false;
        }
        let ghost old_devices = self.devices@;
        let ghost old_ss = self.devices@[idx as int].surfaces@;
        let mut device = self.devices.remove(idx);
        let mut surface = device.surfaces.remove(j);
        if ok {
            surface.state = SurfaceState::Active;
            surface.schedule = FrameSchedule::PendingImmediate { frame_target_ns: now_ns };
            device.surfaces.insert(j, surface);
        }
        self.devices.insert(idx, device);
        proof {
            assert(self.devices@ =~= old_devices.update(idx as int, self.devices@[idx as int]));
            lemma_count_surfaces_update(old_devices, idx as int, self.devices@[idx as int]);
            lemma_count_surfaces_nonneg(old_devices);
            old_ss.remove_ensures(j as int);
            let d_new = self.devices@[idx as int];
            if ok {
                assert(d_new.surfaces@ =~= old_ss.update(j as int, d_new.surfaces@[j as int]));
            } else {
                assert forall|a: int, b: int|
                    0 <= a < d_new.surfaces@.len() && 0 <= b < d_new.surfaces@.len() && a != b
                        implies (#[trigger] d_new.surfaces@[a]).crtc != (
                #[trigger] d_new.surfaces@[b]).crtc by {
                    let a0 = if a < j as int {
                        a
                    } else {
                        a + 1
                    };
                    let b0 = if b < j as int {
                        b
                    } else {
                        b + 1
                    };
                    assert(d_new.surfaces@[a] == old_ss[a0]);
                    assert(d_new.surfaces@[b] == old_ss[b0]);
                }
                assert forall|a: int|
                    0 <= a < d_new.surfaces@.len() implies (
                #[trigger] d_new.surfaces@[a]).mode.refresh_mhz >= 1 by {
                    let a0 = if a < j as int {
                        a
                    } else {
                        a + 1
                    };
                    assert(d_new.surfaces@[a] == old_ss[a0]);
                }
            }
        }
        true
    }

    /// There is a surface for this CRTC still awaiting its initialization
    /// outcome.
    pub open spec fn spec_has_initializing_surface(&self, node: u64, crtc: u32) -> bool {
        exists|i: int, j: int|
            {
                &&& 0 <= i < self.devices@.len()
                &&& (#[trigger] self.devices@[i]).node == node
                &&& 0 <= j < self.devices@[i].surfaces@.len()
                &&& (#[trigger] self.devices@[i].surfaces@[j]).crtc == crtc
                &&& self.devices@[i].surfaces@[j].state == SurfaceState::Initializing
            }
    }

    /// Rule on a device hotplug-remove: the device and everything it owns
    /// drop from the registry; the returned teardown names the render node
    /// to unregister, the outputs to release and the lease connectors to
    /// withdraw.
    pub fn device_removed(&mut self, node: u64) -> (r: Option<DeviceRemoval>)
        requires
            old(self).wf(),
        ensures
            final(self).wf(),
            r is None <==> !old(self).spec_has_device(node),
            r is None ==> *final(self) == *old(self),
            r is Some ==> exists|i: int|
                {
                    &&& 0 <= i < old(self).devices@.len()
                    &&& (#[trigger] old(self).devices@[i]).node == node
                    &&& final(self).devices@ == old(self).devices@.remove(i)
                    &&& r->0.render_node == old(self).devices@[i].render_node
                    &&& r->0.crtcs@ == old(self).devices@[i].surfaces@.map_values(
                        |s: OutputSurface| s.crtc,
                    )
                    &&& r->0.lease_connectors@ == old(self).devices@[i].non_desktop@.map_values(
                        |p: ConnectorPair| p.connector,
                    )
                },
            final(self).primary_gpu == old(self).primary_gpu,
            final(self).primary_formats == old(self).primary_formats,
            final(self).disable_direct_scanout == old(self).disable_direct_scanout,
    {
        let idx = match self.find_device(node) {
            Some(i) => i,
            None => {
                return None;
            },
        };
        let ghost old_devices = self.devices@;
        let device = self.devices.remove(idx);
        let mut crtcs: Vec<u32> = Vec::new();
        let mut j: usize = 0;
        while j < device.surfaces.len()
            invariant
                j <= device.surfaces.len(),
                crtcs@ =~= device.surfaces@.subrange(0, j as int).map_values(
                    |s: OutputSurface| s.crtc,
                ),
            decreases device.surfaces.len() - j,
        {
            crtcs.push(device.surfaces[j].crtc);
            assert(crtcs@ =~= device.surfaces@.subrange(0, j + 1 as int).map_values(
                |s: OutputSurface| s.crtc,
            ));
            j = j + 1;
        }
        assert(device.surfaces@.subrange(0, device.surfaces@.len() as int) =~= device.surfaces@);
        let mut lease_connectors: Vec<u32> = Vec::new();
        let mut k: usize = 0;
        while k < device.non_desktop.len()
            invariant
                k <= device.non_desktop.len(),
                lease_connectors@ =~= device.non_desktop@.subrange(0, k as int).map_values(
                    |p: ConnectorPair| p.connector,
                ),
            decreases device.non_desktop.len() - k,
        {
            lease_connectors.push(device.non_desktop[k].connector);
            assert(lease_connectors@ =~= device.non_desktop@.subrange(0, k + 1 as int).map_values(
                |p: ConnectorPair| p.connector,
            ));
            k = k + 1;
        }
        assert(device.non_desktop@.subrange(0, device.non_desktop@.len() as int) =~= device
            .non_desktop@);
        proof {
            old_devices.remove_ensures(idx as int);
            lemma_count_surfaces_remove(old_devices, idx as int);
            assert forall|a: int, b: int|
                0 <= a < self.devices@.len() && 0 <= b < self.devices@.len() && a != b implies (
            #[trigger] self.devices@[a]).node != (#[trigger] self.devices@[b]).node && (
            #[trigger] self.devices@[a]).render_node != (#[trigger] self.devices@[b]).render_node by {
                let a0 = if a < idx as int {
                    a
                } else {
                    a + 1
                };
                let b0 = if b < idx as int {
                    b
                } else {
                    b + 1
                };
                assert(self.devices@[a] == old_devices[a0]);
                assert(self.devices@[b] == old_devices[b0]);
            }
            assert forall|a: int| 0 <= a < self.devices@.len() implies (
            #[trigger] self.devices@[a]).wf() by {
                let a0 = if a < idx as int {
                    a
                } else {
                    a + 1
                };
                assert(self.devices@[a] == old_devices[a0]);
            }
        }
        Some(DeviceRemoval { render_node: device.render_node, crtcs, lease_connectors })
    }

    /// A surface exists for this device/CRTC key.
    pub open spec fn spec_has_surface_at(&self, node: u64, crtc: u32) -> bool {
        exists|i: int|
            0 <= i < self.devices@.len() && (#[trigger] self.devices@[i]).node == node
                && self.devices@[i].has_surface(crtc)
    }

    /// The frame interval of a surface's mode, in nanoseconds.
    pub open spec fn spec_frame_ns(m: Mode) -> u64 {
        (crate::scheduler::MAX_FRAME_NS as int / m.refresh_mhz as int) as u64
    }

    /// The surface renders on another GPU than the one that scans it out.
    pub open spec fn spec_cross_gpu(&self, d: GpuDevice) -> bool {
        d.render_node != self.primary_gpu
    }

    /// React to a vblank completion for one surface: classify the submit
    /// result and write the surface's next schedule.  The result also names
    /// the side effects the caller owes (dispatch feedback, reset the
    /// device, terminate on context loss).  Unknown keys do nothing.
    pub fn frame_finish(
        &mut self,
        node: u64,
        crtc: u32,
        outcome: VblankOutcome,
        completion_ns: u64,
    ) -> (r: Option<VblankResult>)
        requires
            old(self).wf(),
            completion_ns <= crate::scheduler::MAX_TIME_NS,
        ensures
            final(self).wf(),
            r is Some <==> old(self).spec_has_surface_at(node, crtc),
            r is None ==> *final(self) == *old(self),
            r is Some ==> forall|i: int|
                0 <= i < old(self).devices@.len() && (#[trigger] old(self).devices@[i]).node == node
                    ==> {
                    let d_old = old(self).devices@[i];
                    let d_new = final(self).devices@[i];
                    &&& same_but_surfaces(d_old, d_new)
                    &&& forall|j: int|
                        0 <= j < d_old.surfaces@.len() && (#[trigger] d_old.surfaces@[j]).crtc
                            == crtc ==> {
                            &&& r == Some(
                                spec_vblank_step(
                                    outcome,
                                    completion_ns,
                                    Self::spec_frame_ns(d_old.surfaces@[j].mode),
                                    old(self).spec_cross_gpu(d_old),
                                ),
                            )
                            &&& d_new.surfaces@ == d_old.surfaces@.update(j, d_new.surfaces@[j])
                            &&& same_but_schedule(
                                d_old.surfaces@[j],
                                d_new.surfaces@[j],
                                r->0.schedule,
                            )
                        }
                },
            final(self).devices@.len() == old(self).devices@.len(),
            forall|i: int|
                0 <= i < old(self).devices@.len() && (#[trigger] old(self).devices@[i]).node != node
                    ==> final(self).devices@[i] == old(self).devices@[i],
            final(self).primary_gpu == old(self).primary_gpu,
            final(self).primary_formats == old(self).primary_formats,
            final(self).disable_direct_scanout == old(self).disable_direct_scanout,
    {
        let idx = match self.find_device(node) {
            Some(i) => i,
            None => {
                return None;
            },
        };
        let j = match find_surface_idx(&self.devices[idx], crtc) {
            Some(j) => j,
            None => {
                return None;
            },
        };
        let refresh = self.devices[idx].surfaces[j].mode.refresh_mhz;
        assert(refresh >= 1);
        let frame_ns = crate::scheduler::frame_duration_ns(refresh);
        let cross_gpu = self.devices[idx].render_node != self.primary_gpu;
        let result = crate::scheduler::vblank_step(outcome, completion_ns, frame_ns, cross_gpu);
        let ghost old_devices = self.devices@;
        let ghost old_ss = self.devices@[idx as int].surfaces@;
        let mut device = self.devices.remove(idx);
        let mut surface = device.surfaces.remove(j);
        surface.schedule = result.schedule;
        device.surfaces.insert(j, surface);
        self.devices.insert(idx, device);
        proof {
            assert(self.devices@ =~= old_devices.update(idx as int, self.devices@[idx as int]));
            lemma_count_surfaces_update(old_devices, idx as int, self.devices@[idx as int]);
            assert(self.devices@[idx as int].surfaces@ =~= old_ss.update(
                j as int,
                self.devices@[idx as int].surfaces@[j as int],
            ));
        }
        Some(result)
    }

    /// React to the result of one surface's render pass: decide whether and
    /// when to repaint again and write the surface's next schedule.
    /// Unknown keys do nothing.
    pub fn render_result(
        &mut self,
        node: u64,
        crtc: u32,
        outcome: RenderOutcome,
        frame_target_ns: u64,
    ) -> (r: Option<RenderStepResult>)
        requires
            old(self).wf(),
            frame_target_ns <= crate::scheduler::MAX_TIME_NS,
        ensures
            final(self).wf(),
            r is Some <==> old(self).spec_has_surface_at(node, crtc),
            r is None ==> *final(self) == *old(self),
            r is Some ==> forall|i: int|
                0 <= i < old(self).devices@.len() && (#[trigger] old(self).devices@[i]).node == node
                    ==> {
                    let d_old = old(self).devices@[i];
                    let d_new = final(self).devices@[i];
                    &&& same_but_surfaces(d_old, d_new)
                    &&& forall|j: int|
                        0 <= j < d_old.surfaces@.len() && (#[trigger] d_old.surfaces@[j]).crtc
                            == crtc ==> {
                            &&& r == Some(
                                spec_render_step(
                                    outcome,
                                    frame_target_ns,
                                    Self::spec_frame_ns(d_old.surfaces@[j].mode),
                                ),
                            )
                            &&& d_new.surfaces@ == d_old.surfaces@.update(j, d_new.surfaces@[j])
                            &&& same_but_schedule(
                                d_old.surfaces@[j],
                                d_new.surfaces@[j],
                                r->0.schedule,
                            )
                        }
                },
            final(self).devices@.len() == old(self).devices@.len(),
            forall|i: int|
                0 <= i < old(self).devices@.len() && (#[trigger] old(self).devices@[i]).node != node
                    ==> final(self).devices@[i] == old(self).devices@[i],
            final(self).primary_gpu == old(self).primary_gpu,
            final(self).primary_formats == old(self).primary_formats,
            final(self).disable_direct_scanout == old(self).disable_direct_scanout,
    {
        let idx = match self.find_device(node) {
            Some(i) => i,
            None => {
                return None;
            },
        };
        let j = match find_surface_idx(&self.devices[idx], crtc) {
            Some(j) => j,
            None => {
                return None;
            },
        };
        let refresh = self.devices[idx].surfaces[j].mode.refresh_mhz;
        assert(refresh >= 1);
        let frame_ns = crate::scheduler::frame_duration_ns(refresh);
        let result = crate::scheduler::render_step(outcome, frame_target_ns, frame_ns);
        let ghost old_devices = self.devices@;
        let ghost old_ss = self.devices@[idx as int].surfaces@;
        let mut device = self.devices.remove(idx);
        let mut surface = device.surfaces.remove(j);
        surface.schedule = result.schedule;
        device.surfaces.insert(j, surface);
        self.devices.insert(idx, device);
        proof {
            assert(self.devices@ =~= old_devices.update(idx as int, self.devices@[idx as int]));
            lemma_count_surfaces_update(old_devices, idx as int, self.devices@[idx as int]);
            assert(self.devices@[idx as int].surfaces@ =~= old_ss.update(
                j as int,
                self.devices@[idx as int].surfaces@[j as int],
            ));
        }
        Some(result)
    }

    /// An external render-now request: schedule an immediate repaint,
    /// superseding whatever was pending.  Returns whether the surface
    /// exists.
    pub fn trigger_render(&mut self, node: u64, crtc: u32, now_ns: u64) -> (r: bool)
        requires
            old(self).wf(),
        ensures
            final(self).wf(),
            r == old(self).spec_has_surface_at(node, crtc),
            !r ==> *final(self) == *old(self),
            r ==> forall|i: int|
                0 <= i < old(self).devices@.len() && (#[trigger] old(self).devices@[i]).node == node
                    ==> {
                    let d_old = old(self).devices@[i];
                    let d_new = final(self).devices@[i];
                    &&& same_but_surfaces(d_old, d_new)
                    &&& forall|j: int|
                        0 <= j < d_old.surfaces@.len() && (#[trigger] d_old.surfaces@[j]).crtc
                            == crtc ==> d_new.surfaces@ == d_old.surfaces@.update(
                            j,
                            d_new.surfaces@[j],
                        ) && same_but_schedule(
                            d_old.surfaces@[j],
                            d_new.surfaces@[j],
                            FrameSchedule::PendingImmediate { frame_target_ns: now_ns },
                        )
                },
            final(self).devices@.len() == old(self).devices@.len(),
            forall|i: int|
                0 <= i < old(self).devices@.len() && (#[trigger] old(self).devices@[i]).node != node
                    ==> final(self).devices@[i] == old(self).devices@[i],
            final(self).primary_gpu == old(self).primary_gpu,
            final(self).primary_formats == old(self).primary_formats,
            final(self).disable_direct_scanout == old(self).disable_direct_scanout,
    {
        let idx = match self.find_device(node) {
            Some(i) => i,
            None => {
                return false;
            },
        };
        let j = match find_surface_idx(&self.devices[idx], crtc) {
            Some(j) => j,
            None => {
                return false;
            },
        };
        let ghost old_devices = self.devices@;
        let ghost old_ss = self.devices@[idx as int].surfaces@;
        let mut device = self.devices.remove(idx);
        let mut surface = device.surfaces.remove(j);
        surface.schedule = FrameSchedule::PendingImmediate { frame_target_ns: now_ns };
        device.surfaces.insert(j, surface);
        self.devices.insert(idx, device);
        proof {
            assert(self.devices@ =~= old_devices.update(idx as int, self.devices@[idx as int]));
            lemma_count_surfaces_update(old_devices, idx as int, self.devices@[idx as int]);
            assert(self.devices@[idx as int].surfaces@ =~= old_ss.update(
                j as int,
                self.devices@[idx as int].surfaces@[j as int],
            ));
        }
        true
    }

    /// Session pause: suspend every pending schedule and drop every active
    /// lease on every device.
    pub fn pause(&mut self)
        requires
            old(self).wf(),
        ensures
            final(self).wf(),
            final(self).devices@.len() == old(self).devices@.len(),
            forall|i: int|
                0 <= i < old(self).devices@.len() ==> schedules_written(
                    #[trigger] old(self).devices@[i],
                    final(self).devices@[i],
                    FrameSchedule::Idle,
                    true,
                ),
            final(self).primary_gpu == old(self).primary_gpu,
            final(self).primary_formats == old(self).primary_formats,
            final(self).disable_direct_scanout == old(self).disable_direct_scanout,
    {
        self.set_all_schedules(FrameSchedule::Idle, true);
    }

    /// Session resume: schedule exactly one immediate re-render for every
    /// owned output surface.
    pub fn resume(&mut self, now_ns: u64)
        requires
            old(self).wf(),
        ensures
            final(self).wf(),
            final(self).devices@.len() == old(self).devices@.len(),
            forall|i: int|
                0 <= i < old(self).devices@.len() ==> schedules_written(
                    #[trigger] old(self).devices@[i],
                    final(self).devices@[i],
                    FrameSchedule::PendingImmediate { frame_target_ns: now_ns },
                    false,
                ),
            final(self).primary_gpu == old(self).primary_gpu,
            final(self).primary_formats == old(self).primary_formats,
            final(self).disable_direct_scanout == old(self).disable_direct_scanout,
    {
        self.set_all_schedules(FrameSchedule::PendingImmediate { frame_target_ns: now_ns }, false);
    }

    /// Write one schedule into every surface; optionally drop every lease.
    fn set_all_schedules(&mut self, sched: FrameSchedule, clear_leases: bool)
        requires
            old(self).wf(),
        ensures
            final(self).wf(),
            final(self).devices@.len() == old(self).devices@.len(),
            forall|i: int|
                0 <= i < old(self).devices@.len() ==> schedules_written(
                    #[trigger] old(self).devices@[i],
                    final(self).devices@[i],
                    sched,
                    clear_leases,
                ),
            final(self).primary_gpu == old(self).primary_gpu,
            final(self).primary_formats == old(self).primary_formats,
            final(self).disable_direct_scanout == old(self).disable_direct_scanout,
    {
        let mut i: usize = 0;
        while i < self.devices.len()
            invariant
                i <= self.devices.len(),
                self.devices@.len() == old(self).devices@.len(),
                self.wf(),
                self.primary_gpu == old(self).primary_gpu,
                self.primary_formats == old(self).primary_formats,
                self.disable_direct_scanout == old(self).disable_direct_scanout,
                forall|m: int| i <= m < self.devices@.len() ==> #[trigger] self.devices@[m] == old(
                    self,
                ).devices@[m],
                forall|m: int|
                    0 <= m < i ==> schedules_written(
                        #[trigger] old(self).devices@[m],
                        self.devices@[m],
                        sched,
                        clear_leases,
                    ),
            decreases self.devices.len() - i,
        {
            let ghost devices_before = self.devices@;
            let mut device = self.devices.remove(i);
            if clear_leases {
                device.active_leases = Vec::new();
            }
            let ghost ss_old = device.surfaces@;
            let ghost dev0 = device;
            let mut j: usize = 0;
            while j < device.surfaces.len()
                invariant
                    j <= device.surfaces.len(),
                    same_but_surfaces(dev0, device),
                    device.surfaces@.len() == ss_old.len(),
                    forall|m: int| j <= m < ss_old.len() ==> #[trigger] device.surfaces@[m]
                        == ss_old[m],
                    forall|m: int|
                        0 <= m < j ==> same_but_schedule(
                            #[trigger] ss_old[m],
                            device.surfaces@[m],
                            sched,
                        ),
                decreases device.surfaces.len() - j,
            {
                let ghost ss_before = device.surfaces@;
                let mut surface = device.surfaces.remove(j);
                surface.schedule = sched;
                device.surfaces.insert(j, surface);
                proof {
                    assert(device.surfaces@ =~= ss_before.update(
                        j as int,
                        device.surfaces@[j as int],
                    ));
                }
                j = j + 1;
            }
            self.devices.insert(i, device);
            proof {
                assert(self.devices@ =~= devices_before.update(i as int, self.devices@[i as int]));
                lemma_count_surfaces_update(devices_before, i as int, self.devices@[i as int]);
                let d_old = devices_before[i as int];
                let d_new = self.devices@[i as int];
                assert(d_old == old(self).devices@[i as int]);
                assert(d_new.node == d_old.node);
                assert(d_new.render_node == d_old.render_node);
                assert(d_new.render_formats == d_old.render_formats);
                assert(d_new.scanner == d_old.scanner);
                assert(d_new.non_desktop == d_old.non_desktop);
                assert(d_new.leasing_enabled == d_old.leasing_enabled);
                if clear_leases {
                    assert(d_new.active_leases@ =~= Seq::<u32>::empty());
                } else {
                    assert(d_new.active_leases@ == d_old.active_leases@);
                }
                assert(d_new.surfaces@.len() == d_old.surfaces@.len());
                assert forall|j: int|
                    0 <= j < d_old.surfaces@.len() implies same_but_schedule(
                    #[trigger] d_old.surfaces@[j],
                    d_new.surfaces@[j],
                    sched,
                ) by {
                    assert(same_but_schedule(ss_old[j], d_new.surfaces@[j], sched));
                }
                assert forall|a: int, b: int|
                    0 <= a < d_new.surfaces@.len() && 0 <= b < d_new.surfaces@.len() && a != b
                        implies (#[trigger] d_new.surfaces@[a]).crtc != (
                #[trigger] d_new.surfaces@[b]).crtc by {
                    assert(same_but_schedule(d_old.surfaces@[a], d_new.surfaces@[a], sched));
                    assert(same_but_schedule(d_old.surfaces@[b], d_new.surfaces@[b], sched));
                }
                assert forall|a: int|
                    0 <= a < d_new.surfaces@.len() implies (
                #[trigger] d_new.surfaces@[a]).mode.refresh_mhz >= 1 by {
                    assert(same_but_schedule(d_old.surfaces@[a], d_new.surfaces@[a], sched));
                }
                assert(d_new.wf());
                assert(schedules_written(d_old, d_new, sched, clear_leases));
            }
            i = i + 1;
        }
    }

    /// Resolve one surface's frame dispatch, once per frame: which GPU
    /// renders it, and whether direct scanout is offered to the kernel.
    /// `scanout_format` is the format the surface scans out, used for the
    /// copy when the rendering GPU is not the primary one.
    pub fn frame_plan(&self, node: u64, crtc: u32, scanout_format: Format) -> (r: Option<FramePlan>)
        requires
            self.wf(),
        ensures
            r is Some <==> self.spec_has_surface_at(node, crtc),
            forall|i: int, j: int|
                0 <= i < self.devices@.len() && (#[trigger] self.devices@[i]).node == node && 0 <= j
                    < self.devices@[i].surfaces@.len() && (
                #[trigger] self.devices@[i].surfaces@[j]).crtc == crtc ==> r == Some(
                    FramePlan {
                        render_path: if self.primary_gpu == self.devices@[i].render_node {
                            RenderPath::SameGpu
                        } else {
                            RenderPath::CrossGpuCopy { format: scanout_format }
                        },
                        frame_mode: if self.devices@[i].surfaces@[j].disable_direct_scanout {
                            FrameMode::CompositeOnly
                        } else {
                            FrameMode::AllPlanes
                        },
                    },
                ),
    {
        let idx = match self.find_device(node) {
            Some(i) => i,
            None => {
                return None;
            },
        };
        let j = match find_surface_idx(&self.devices[idx], crtc) {
            Some(j) => j,
            None => {
                return None;
            },
        };
        let render_path = crate::scheduler::select_render_path(
            self.primary_gpu,
            self.devices[idx].render_node,
            scanout_format,
        );
        let frame_mode = crate::assembler::frame_mode(
            self.devices[idx].surfaces[j].disable_direct_scanout,
        );
        Some(FramePlan { render_path, frame_mode })
    }

    /// Validate a buffer-reset request: whether the surface whose cached
    /// buffer-age tracking must be invalidated (after a suspend/resume
    /// cycle, or when unfullscreening forces a clean repaint) is registered.
    /// The cache itself lives with the kernel commit state at the caller.
    pub fn reset_buffers(&self, node: u64, crtc: u32) -> (r: bool)
        requires
            self.wf(),
        ensures
            r == self.spec_has_surface_at(node, crtc),
    {
        let idx = match self.find_device(node) {
            Some(i) => i,
            None => {
                return false;
            },
        };
        match find_surface_idx(&self.devices[idx], crtc) {
            Some(_) => true,
            None => false,
        }
    }

    /// Every requested connector is lease-eligible here and has a claimable
    /// primary plane.
    pub open spec fn spec_lease_grantable(d: GpuDevice, reqs: Seq<LeaseRequest>) -> bool {
        forall|k: int|
            0 <= k < reqs.len() ==> d.has_non_desktop((#[trigger] reqs[k]).connector)
                && reqs[k].primary_planes@.len() >= 1
    }

    /// Rule on a lease request.  Granting binds each requested connector to
    /// its CRTC, its first claimable primary plane and, when one exists, a
    /// cursor plane.  A request naming a desktop connector, or one whose
    /// CRTC has no claimable primary plane, is rejected whole.
    pub fn plan_lease(&self, node: u64, requests: &Vec<LeaseRequest>) -> (r: Result<
        Vec<LeasePlanEntry>,
        LeaseRejected,
    >)
        requires
            self.wf(),
        ensures
            !self.spec_has_device(node) ==> r is Err,
            forall|i: int|
                0 <= i < self.devices@.len() && (#[trigger] self.devices@[i]).node == node ==> {
                    let d = self.devices@[i];
                    &&& (r is Ok <==> Self::spec_lease_grantable(d, requests@))
                    &&& r is Ok ==> {
                        &&& r->Ok_0@.len() == requests@.len()
                        &&& forall|k: int|
                            0 <= k < requests@.len() ==> {
                                let entry = #[trigger] r->Ok_0@[k];
                                &&& entry.connector == requests@[k].connector
                                &&& d.non_desktop@.contains(
                                    ConnectorPair {
                                        connector: requests@[k].connector,
                                        crtc: entry.crtc,
                                    },
                                )
                                &&& entry.primary_plane == requests@[k].primary_planes@[0]
                                &&& entry.cursor_plane == if requests@[k].cursor_planes@.len()
                                    >= 1 {
                                    Some(requests@[k].cursor_planes@[0])
                                } else {
                                    None::<u32>
                                }
                            }
                    }
                },
    {
        let idx = match self.find_device(node) {
            Some(i) => i,
            None => {
                return Err(LeaseRejected);
            },
        };
        let d = &self.devices[idx];
        let mut out: Vec<LeasePlanEntry> = Vec::new();
        let mut k: usize = 0;
        while k < requests.len()
            invariant
                k <= requests.len(),
                idx < self.devices@.len(),
                self.devices@[idx as int].node == node,
                d == &self.devices@[idx as int],
                self.wf(),
                out@.len() == k,
                forall|m: int|
                    0 <= m < k ==> {
                        let entry = #[trigger] out@[m];
                        &&& entry.connector == requests@[m].connector
                        &&& d.non_desktop@.contains(
                            ConnectorPair { connector: requests@[m].connector, crtc: entry.crtc },
                        )
                        &&& requests@[m].primary_planes@.len() >= 1
                        &&& entry.primary_plane == requests@[m].primary_planes@[0]
                        &&& entry.cursor_plane == if requests@[m].cursor_planes@.len() >= 1 {
                            Some(requests@[m].cursor_planes@[0])
                        } else {
                            None::<u32>
                        }
                    },
                forall|m: int|
                    0 <= m < k ==> d.has_non_desktop((#[trigger] requests@[m]).connector),
            decreases requests.len() - k,
        {
            let req = &requests[k];
            let j = match find_non_desktop(d, req.connector) {
                Some(j) => j,
                None => {
                    return Err(LeaseRejected);
                },
            };
            if req.primary_planes.len() < 1 {
                return Err(LeaseRejected);
            }
            let crtc = d.non_desktop[j].crtc;
            assert(d.non_desktop@.contains(ConnectorPair { connector: req.connector, crtc }));
            let cursor_plane = if req.cursor_planes.len() >= 1 {
                Some(req.cursor_planes[0])
            } else {
                None
            };
            out.push(
                LeasePlanEntry {
                    connector: req.connector,
                    crtc,
                    primary_plane: req.primary_planes[0],
                    cursor_plane,
                },
            );
            k = k + 1;
        }
        proof {
            assert forall|kk: int| 0 <= kk < requests@.len() implies d.has_non_desktop(
                (#[trigger] requests@[kk]).connector,
            ) && requests@[kk].primary_planes@.len() >= 1 by {
                assert(out@[kk].connector == requests@[kk].connector);
            }
        }
        Ok(out)
    }

    /// Record a lease that went active.  Returns whether the device exists.
    pub fn new_active_lease(&mut self, node: u64, lease_id: u32) -> (r: bool)
        requires
            old(self).wf(),
        ensures
            final(self).wf(),
            r == old(self).spec_has_device(node),
            !r ==> *final(self) == *old(self),
            r ==> forall|i: int|
                0 <= i < old(self).devices@.len() && (#[trigger] old(self).devices@[i]).node == node
                    ==> same_but_leases(old(self).devices@[i], final(self).devices@[i])
                    && final(self).devices@[i].active_leases@ == old(
                        self,
                    ).devices@[i].active_leases@.push(lease_id),
            final(self).devices@.len() == old(self).devices@.len(),
            forall|i: int|
                0 <= i < old(self).devices@.len() && (#[trigger] old(self).devices@[i]).node != node
                    ==> final(self).devices@[i] == old(self).devices@[i],
            final(self).primary_gpu == old(self).primary_gpu,
            final(self).primary_formats == old(self).primary_formats,
            final(self).disable_direct_scanout == old(self).disable_direct_scanout,
    {
        let idx = match self.find_device(node) {
            Some(i) => i,
            None => {
                return false;
            },
        };
        let ghost old_devices = self.devices@;
        let mut device = self.devices.remove(idx);
        device.active_leases.push(lease_id);
        self.devices.insert(idx, device);
        proof {
            assert(self.devices@ =~= old_devices.update(idx as int, self.devices@[idx as int]));
            lemma_count_surfaces_update(old_devices, idx as int, self.devices@[idx as int]);
        }
        true
    }

    /// Release a lease: drop every record of its id.  Returns whether the
    /// device exists.
    pub fn lease_destroyed(&mut self, node: u64, lease_id: u32) -> (r: bool)
        requires
            old(self).wf(),
        ensures
            final(self).wf(),
            r == old(self).spec_has_device(node),
            !r ==> *final(self) == *old(self),
            r ==> forall|i: int|
                0 <= i < old(self).devices@.len() && (#[trigger] old(self).devices@[i]).node == node
                    ==> same_but_leases(old(self).devices@[i], final(self).devices@[i])
                    && final(self).devices@[i].active_leases@ == spec_leases_without(
                        old(self).devices@[i].active_leases@,
                        lease_id,
                    ),
            final(self).devices@.len() == old(self).devices@.len(),
            forall|i: int|
                0 <= i < old(self).devices@.len() && (#[trigger] old(self).devices@[i]).node != node
                    ==> final(self).devices@[i] == old(self).devices@[i],
            final(self).primary_gpu == old(self).primary_gpu,
            final(self).primary_formats == old(self).primary_formats,
            final(self).disable_direct_scanout == old(self).disable_direct_scanout,
    {
        let idx = match self.find_device(node) {
            Some(i) => i,
            None => {
                return false;
            },
        };
        let ghost old_devices = self.devices@;
        let mut device = self.devices.remove(idx);
        let mut kept: Vec<u32> = Vec::new();
        let mut k: usize = 0;
        while k < device.active_leases.len()
            invariant
                k <= device.active_leases.len(),
                kept@ == spec_leases_without(
                    device.active_leases@.subrange(0, k as int),
                    lease_id,
                ),
            decreases device.active_leases.len() - k,
        {
            let id = device.active_leases[k];
            if id != lease_id {
                kept.push(id);
            }
            assert(device.active_leases@.subrange(0, k + 1 as int).drop_last() =~= device
                .active_leases@.subrange(0, k as int));
            assert(device.active_leases@.subrange(0, k + 1 as int).last() == device
                .active_leases@[k as int]);
            assert(kept@ =~= spec_leases_without(
                device.active_leases@.subrange(0, k + 1 as int),
                lease_id,
            ));
            k = k + 1;
        }
        assert(device.active_leases@.subrange(0, device.active_leases@.len() as int) =~= device
            .active_leases@);
        device.active_leases = kept;
        self.devices.insert(idx, device);
        proof {
            assert(self.devices@ =~= old_devices.update(idx as int, self.devices@[idx as int]));
            lemma_count_surfaces_update(old_devices, idx as int, self.devices@[idx as int]);
        }
        true
    }

    /// The index of the registered device with this node.
    pub open spec fn spec_device_index(&self, node: u64) -> int {
        choose|i: int| 0 <= i < self.devices@.len() && (#[trigger] self.devices@[i]).node == node
    }

    /// When `connector_connected` does nothing: the device is unknown, the
    /// pair was not seen by the device's last scan, a lease-eligible
    /// connector is already registered, the CRTC already has its surface,
    /// the connector offers no usable mode, or the registry is at capacity.
    pub open spec fn spec_connect_rejects(&self, node: u64, crtc: u32, info: ConnectorInfo) -> bool {
        if !self.spec_has_device(node) {
            true
        } else {
            let d = self.devices@[self.spec_device_index(node)];
            if !d.scanner.pairs().contains(ConnectorPair { connector: info.connector, crtc }) {
                true
            } else if info.non_desktop {
                d.has_non_desktop(info.connector)
            } else {
                ||| d.has_surface(crtc)
                ||| spec_pick_mode(info.modes@) is None
                ||| (spec_pick_mode(info.modes@)->0).refresh_mhz < 1
                ||| self.spec_surface_count() >= MAX_OUTPUTS as int
            }
        }
    }
}

/// Everything the caller gathered about one connector at connect time:
/// kernel properties, display identification, available modes, the CRTC's
/// candidate planes and their formats, and the device driver's identity.
pub struct ConnectorInfo {
    pub connector: u32,
    /// Interface name of the port ("HDMI-A", "DP").
    pub interface: String,
    pub interface_id: u32,
    /// The kernel flags the connector as not backing a desktop.
    pub non_desktop: bool,
    pub make: Option<String>,
    pub model: Option<String>,
    /// Physical size in millimetres, when the display reports one.
    pub phys_size_mm: Option<(u32, u32)>,
    pub modes: Vec<Mode>,
    pub planes: Planes,
    pub plane_formats: Vec<Format>,
    pub driver_name: Vec<u8>,
    pub driver_desc: Vec<u8>,
}

/// What the caller must do about a connector that connected.
pub enum ConnectAction {
    /// Advertise the connector for leasing; it never becomes an output.
    Lease { connector: u32, crtc: u32, name: String, description: String },
    /// Initialize the CRTC as a desktop output with this plan, then report
    /// the outcome through `output_init_result`.
    Output(OutputPlan),
    /// Nothing to do (unknown device, stale event, or no usable mode).
    Ignored,
}

/// Everything needed to initialize a desktop output at the kernel boundary.
pub struct OutputPlan {
    pub crtc: u32,
    pub connector: u32,
    pub name: String,
    pub make: String,
    pub model: String,
    pub phys_w: u32,
    pub phys_h: u32,
    pub mode: Mode,
    pub position_x: u64,
    pub position_y: u64,
    pub claimed_planes: Planes,
    pub feedback: SurfaceDmabufFeedback,
    pub disable_direct_scanout: bool,
}

/// The driver identity asks for the overlay-stripping quirk.
pub open spec fn spec_nvidia(info: ConnectorInfo) -> bool {
    matches_nvidia(info.driver_name@) || matches_nvidia(info.driver_desc@)
}

/// Display make, defaulted.
pub open spec fn spec_make(info: ConnectorInfo) -> Seq<char> {
    if info.make is Some {
        info.make->0@
    } else {
        "Unknown"@
    }
}

/// Display model, defaulted.
pub open spec fn spec_model(info: ConnectorInfo) -> Seq<char> {
    if info.model is Some {
        info.model->0@
    } else {
        "Unknown"@
    }
}

/// The output name derived from the connector.
pub open spec fn spec_output_name(info: ConnectorInfo) -> Seq<char> {
    info.interface@ + seq!['-'] + spec_decimal(info.interface_id as nat)
}

/// Fields untouched when only a device's surface list changes.
pub open spec fn same_but_surfaces(a: GpuDevice, b: GpuDevice) -> bool {
    &&& b.node == a.node
    &&& b.render_node == a.render_node
    &&& b.render_formats == a.render_formats
    &&& b.scanner == a.scanner
    &&& b.non_desktop == a.non_desktop
    &&& b.active_leases == a.active_leases
    &&& b.leasing_enabled == a.leasing_enabled
}

/// Fields untouched when only a device's lease-eligible list changes.
pub open spec fn same_but_non_desktop(a: GpuDevice, b: GpuDevice) -> bool {
    &&& b.node == a.node
    &&& b.render_node == a.render_node
    &&& b.render_formats == a.render_formats
    &&& b.scanner == a.scanner
    &&& b.surfaces == a.surfaces
    &&& b.active_leases == a.active_leases
    &&& b.leasing_enabled == a.leasing_enabled
}

/// The surface `connector_connected` creates for a desktop connector.
pub open spec fn spec_new_surface_ok(
    s: OutputSurface,
    reg: Registry,
    render_formats: Seq<Format>,
    crtc: u32,
    info: ConnectorInfo,
) -> bool {
    &&& s.crtc == crtc
    &&& s.connector == info.connector
    &&& s.state == SurfaceState::Initializing
    &&& s.name@ == spec_output_name(info)
    &&& s.position_x as int == spec_total_width(reg.devices@)
    &&& s.position_y == 0
    &&& Some(s.mode) == spec_pick_mode(info.modes@)
    &&& s.claimed_planes.primary@ == info.planes.primary@
    &&& s.claimed_planes.cursor@ == info.planes.cursor@
    &&& s.claimed_planes.overlay@ == if spec_nvidia(info) {
        Seq::<u32>::empty()
    } else {
        info.planes.overlay@
    }
    &&& s.feedback.wf_for(reg.primary_formats@, render_formats, info.plane_formats@)
    &&& s.disable_direct_scanout == reg.disable_direct_scanout
    &&& s.schedule is Idle
}

/// The plan handed out alongside such a surface.
pub open spec fn spec_plan_ok(
    plan: OutputPlan,
    reg: Registry,
    render_formats: Seq<Format>,
    crtc: u32,
    info: ConnectorInfo,
) -> bool {
    &&& plan.crtc == crtc
    &&& plan.connector == info.connector
    &&& plan.name@ == spec_output_name(info)
    &&& plan.make@ == spec_make(info)
    &&& plan.model@ == spec_model(info)
    &&& plan.phys_w == if info.phys_size_mm is Some {
        (info.phys_size_mm->0).0
    } else {
        0u32
    }
    &&& plan.phys_h == if info.phys_size_mm is Some {
        (info.phys_size_mm->0).1
    } else {
        0u32
    }
    &&& Some(plan.mode) == spec_pick_mode(info.modes@)
    &&& plan.position_x as int == spec_total_width(reg.devices@)
    &&& plan.position_y == 0
    &&& plan.claimed_planes.primary@ == info.planes.primary@
    &&& plan.claimed_planes.cursor@ == info.planes.cursor@
    &&& plan.claimed_planes.overlay@ == if spec_nvidia(info) {
        Seq::<u32>::empty()
    } else {
        info.planes.overlay@
    }
    &&& plan.feedback.wf_for(reg.primary_formats@, render_formats, info.plane_formats@)
    &&& plan.disable_direct_scanout == reg.disable_direct_scanout
}

/// What the caller must do about a connector that disconnected.
#[derive(Clone, Copy, Debug, PartialEq, Eq, Structural)]
pub enum DisconnectAction {
    /// Withdraw the connector from the lease global.
    WithdrawLease { connector: u32 },
    /// Unmap the output, release its display global and restore the
    /// device's modifiers.
    RemoveOutput { crtc: u32 },
    /// Nothing to do.
    Ignored,
}

/// What the caller must tear down after a device was removed.
pub struct DeviceRemoval {
    /// Unregister this render node from the renderer pool.
    pub render_node: u64,
    /// CRTCs whose outputs dropped; release their display globals.
    pub crtcs: Vec<u32>,
    /// Lease-eligible connectors to withdraw.
    pub lease_connectors: Vec<u32>,
}

/// Fields untouched when only a surface's lifecycle fields move.
pub open spec fn same_but_schedule(a: OutputSurface, b: OutputSurface, sched: FrameSchedule) -> bool {
    &&& b.crtc == a.crtc
    &&& b.connector == a.connector
    &&& b.state == a.state
    &&& b.name == a.name
    &&& b.position_x == a.position_x
    &&& b.position_y == a.position_y
    &&& b.mode == a.mode
    &&& b.claimed_planes == a.claimed_planes
    &&& b.feedback == a.feedback
    &&& b.disable_direct_scanout == a.disable_direct_scanout
    &&& b.schedule == sched
}

/// Fields untouched when a surface changes lifecycle state and schedule.
pub open spec fn same_but_state_schedule(
    a: OutputSurface,
    b: OutputSurface,
    state: SurfaceState,
    sched: FrameSchedule,
) -> bool {
    &&& b.crtc == a.crtc
    &&& b.connector == a.connector
    &&& b.state == state
    &&& b.name == a.name
    &&& b.position_x == a.position_x
    &&& b.position_y == a.position_y
    &&& b.mode == a.mode
    &&& b.claimed_planes == a.claimed_planes
    &&& b.feedback == a.feedback
    &&& b.disable_direct_scanout == a.disable_direct_scanout
    &&& b.schedule == sched
}

fn find_non_desktop(d: &GpuDevice, connector: u32) -> (r: Option<usize>)
    ensures
        match r {
            Some(j) => j < d.non_desktop@.len() && d.non_desktop@[j as int].connector == connector,
            None => !d.has_non_desktop(connector),
        },
{
    let mut i: usize = 0;
    while i < d.non_desktop.len()
        invariant
            i <= d.non_desktop.len(),
            forall|m: int| 0 <= m < i ==> (#[trigger] d.non_desktop@[m]).connector != connector,
        decreases d.non_desktop.len() - i,
    {
        if d.non_desktop[i].connector == connector {
            return Some(i);
        }
        i = i + 1;
    }
    None
}

fn find_surface_idx(d: &GpuDevice, crtc: u32) -> (r: Option<usize>)
    ensures
        match r {
            Some(j) => j < d.surfaces@.len() && d.surfaces@[j as int].crtc == crtc,
            None => !d.has_surface(crtc),
        },
{
    let mut i: usize = 0;
    while i < d.surfaces.len()
        invariant
            i <= d.surfaces.len(),
            forall|m: int| 0 <= m < i ==> (#[trigger] d.surfaces@[m]).crtc != crtc,
        decreases d.surfaces.len() - i,
    {
        if d.surfaces[i].crtc == crtc {
            return Some(i);
        }
        i = i + 1;
    }
    None
}

fn device_has_surface(d: &GpuDevice, crtc: u32) -> (r: bool)
    ensures
        r == d.has_surface(crtc),
{
    let mut i: usize = 0;
    while i < d.surfaces.len()
        invariant
            i <= d.surfaces.len(),
            forall|m: int| 0 <= m < i ==> (#[trigger] d.surfaces@[m]).crtc != crtc,
        decreases d.surfaces.len() - i,
    {
        if d.surfaces[i].crtc == crtc {
            return true;
        }
        i = i + 1;
    }
    false
}

fn device_has_non_desktop(d: &GpuDevice, connector: u32) -> (r: bool)
    ensures
        r == d.has_non_desktop(connector),
{
    let mut i: usize = 0;
    while i < d.non_desktop.len()
        invariant
            i <= d.non_desktop.len(),
            forall|m: int| 0 <= m < i ==> (#[trigger] d.non_desktop@[m]).connector != connector,
        decreases d.non_desktop.len() - i,
    {
        if d.non_desktop[i].connector == connector {
            return true;
        }
        i = i + 1;
    }
    false
}

/// One surface's per-frame dispatch, resolved once per frame rather than by
/// virtual dispatch.
#[derive(Clone, Copy, Debug, PartialEq, Eq, Structural)]
pub struct FramePlan {
    pub render_path: RenderPath,
    pub frame_mode: FrameMode,
}

/// A lease request was denied.
#[derive(Clone, Copy, Debug, PartialEq, Eq, Structural)]
pub struct LeaseRejected;

/// One connector of a lease request, with the claimable planes of its CRTC
/// as the kernel reports them.
pub struct LeaseRequest {
    pub connector: u32,
    pub primary_planes: Vec<u32>,
    pub cursor_planes: Vec<u32>,
}

/// What one granted lease connector binds.
#[derive(Clone, Copy, Debug, PartialEq, Eq, Structural)]
pub struct LeasePlanEntry {
    pub connector: u32,
    pub crtc: u32,
    pub primary_plane: u32,
    pub cursor_plane: Option<u32>,
}

/// Fields untouched when only a device's active leases change.
pub open spec fn same_but_leases(a: GpuDevice, b: GpuDevice) -> bool {
    &&& b.node == a.node
    &&& b.render_node == a.render_node
    &&& b.render_formats == a.render_formats
    &&& b.scanner == a.scanner
    &&& b.surfaces == a.surfaces
    &&& b.non_desktop == a.non_desktop
    &&& b.leasing_enabled == a.leasing_enabled
}

/// A lease list with every record of one id dropped.
pub open spec fn spec_leases_without(s: Seq<u32>, id: u32) -> Seq<u32>
    decreases s.len(),
{
    if s.len() == 0 {
        Seq::empty()
    } else {
        spec_leases_without(s.drop_last(), id) + if s.last() == id {
            Seq::empty()
        } else {
            seq![s.last()]
        }
    }
}

/// The pairs of `pairs` that `excluded` does not hold, in order.  Filters
/// the connected pairs down to those owed a desktop output, and a scan's
/// old pairing down to its stale pairs (or the new one down to its fresh
/// pairs).
pub open spec fn pairs_not_in(pairs: Seq<ConnectorPair>, excluded: Seq<ConnectorPair>) -> Seq<
    ConnectorPair,
>
    decreases pairs.len(),
{
    if pairs.len() == 0 {
        Seq::empty()
    } else {
        pairs_not_in(pairs.drop_last(), excluded) + if excluded.contains(pairs.last()) {
            Seq::empty()
        } else {
            seq![pairs.last()]
        }
    }
}

proof fn lemma_pairs_not_in_contains(pairs: Seq<ConnectorPair>, nd: Seq<ConnectorPair>, p: ConnectorPair)
    ensures
        pairs_not_in(pairs, nd).contains(p) <==> (pairs.contains(p) && !nd.contains(p)),
    decreases pairs.len(),
{
    broadcast use
        vstd::seq_lib::lemma_seq_contains_after_push,
        vstd::seq_lib::lemma_seq_concat_contains_all_elements,
        vstd::seq_lib::lemma_seq_empty_contains_nothing,
    ;

    if pairs.len() > 0 {
        lemma_pairs_not_in_contains(pairs.drop_last(), nd, p);
        assert(pairs =~= pairs.drop_last().push(pairs.last()));
        assert(pairs.contains(p) <==> (pairs.drop_last().contains(p) || pairs.last() == p));
        if !nd.contains(pairs.last()) {
            assert(seq![pairs.last()].contains(pairs.last()));
        }
    }
}

proof fn lemma_pairs_not_in_source(pairs: Seq<ConnectorPair>, nd: Seq<ConnectorPair>, p: ConnectorPair)
    requires
        pairs_not_in(pairs, nd).contains(p),
    ensures
        pairs.contains(p),
    decreases pairs.len(),
{
    broadcast use
        vstd::seq_lib::lemma_seq_concat_contains_all_elements,
        vstd::seq_lib::lemma_seq_empty_contains_nothing,
    ;

    if pairs.len() > 0 {
        if pairs_not_in(pairs.drop_last(), nd).contains(p) {
            lemma_pairs_not_in_source(pairs.drop_last(), nd, p);
            let i = choose|i: int|
                0 <= i < pairs.drop_last().len() && pairs.drop_last()[i] == p;
            assert(pairs[i] == p);
        } else {
            assert(pairs[pairs.len() - 1] == p);
        }
    }
}

proof fn lemma_pairs_not_in_unique(pairs: Seq<ConnectorPair>, nd: Seq<ConnectorPair>)
    requires
        crate::scanner::unique_connectors(pairs),
    ensures
        pairs_not_in(pairs, nd).no_duplicates(),
    decreases pairs.len(),
{
    broadcast use
        vstd::seq_lib::lemma_seq_concat_contains_all_elements,
        vstd::seq_lib::lemma_seq_empty_contains_nothing,
    ;

    if pairs.len() > 0 {
        lemma_pairs_not_in_unique(pairs.drop_last(), nd);
        let s = pairs_not_in(pairs, nd);
        let prefix = pairs_not_in(pairs.drop_last(), nd);
        assert forall|i: int, j: int|
            0 <= i < s.len() && 0 <= j < s.len() && i != j implies s[i] != s[j] by {
            if i >= prefix.len() || j >= prefix.len() {
                let k = if i >= prefix.len() {
                    j
                } else {
                    i
                };
                if k < prefix.len() {
                    assert(prefix.contains(prefix[k]));
                    lemma_pairs_not_in_source(pairs.drop_last(), nd, prefix[k]);
                    let m = choose|m: int|
                        0 <= m < pairs.drop_last().len() && pairs.drop_last()[m] == prefix[k];
                    assert(pairs[m] == prefix[k]);
                    assert(pairs[m].connector != pairs[pairs.len() - 1].connector);
                }
            }
        }
    }
}

/// No hotplug leak and no duplicate: on a well-formed, quiescent device the
/// number of output surfaces equals the number of connected, CRTC-bound
/// connectors that are not registered for leasing.
pub proof fn lemma_output_surface_accounting(d: GpuDevice)
    requires
        d.wf(),
        d.outputs_consistent(),
    ensures
        d.surfaces@.len() == pairs_not_in(d.scanner.pairs(), d.non_desktop@).len(),
{
    let sp = d.surface_pairs();
    let dp = pairs_not_in(d.scanner.pairs(), d.non_desktop@);
    assert(sp.len() == d.surfaces@.len());
    assert(sp.no_duplicates()) by {
        assert forall|i: int, j: int|
            0 <= i < sp.len() && 0 <= j < sp.len() && i != j implies sp[i] != sp[j] by {
            assert(sp[i].crtc == d.surfaces@[i].crtc);
            assert(sp[j].crtc == d.surfaces@[j].crtc);
        }
    }
    d.scanner.lemma_wf_unique();
    lemma_pairs_not_in_unique(d.scanner.pairs(), d.non_desktop@);
    assert forall|p: ConnectorPair| sp.contains(p) implies dp.contains(p) by {
        let i = choose|i: int| 0 <= i < sp.len() && sp[i] == p;
        lemma_pairs_not_in_contains(d.scanner.pairs(), d.non_desktop@, p);
    }
    assert forall|p: ConnectorPair| dp.contains(p) implies sp.contains(p) by {
        lemma_pairs_not_in_contains(d.scanner.pairs(), d.non_desktop@, p);
        let i = choose|i: int| 0 <= i < d.scanner.pairs().len() && d.scanner.pairs()[i] == p;
    }
    assert(sp.to_set() =~= dp.to_set());
    sp.unique_seq_to_set();
    dp.unique_seq_to_set();
}

/// One device after a schedule sweep: every surface carries the written
/// schedule, leases are kept or dropped whole, and nothing else moved.
pub open spec fn schedules_written(
    d_old: GpuDevice,
    d_new: GpuDevice,
    sched: FrameSchedule,
    clear_leases: bool,
) -> bool {
    &&& d_new.node == d_old.node
    &&& d_new.render_node == d_old.render_node
    &&& d_new.render_formats == d_old.render_formats
    &&& d_new.scanner == d_old.scanner
    &&& d_new.non_desktop == d_old.non_desktop
    &&& d_new.leasing_enabled == d_old.leasing_enabled
    &&& d_new.active_leases@ == if clear_leases {
        Seq::<u32>::empty()
    } else {
        d_old.active_leases@
    }
    &&& d_new.surfaces@.len() == d_old.surfaces@.len()
    &&& forall|j: int|
        0 <= j < d_old.surfaces@.len() ==> same_but_schedule(
            #[trigger] d_old.surfaces@[j],
            d_new.surfaces@[j],
            sched,
        )
}

/// Fields untouched when only a device's scanner advances.
pub open spec fn same_but_scanner(a: GpuDevice, b: GpuDevice) -> bool {
    &&& b.node == a.node
    &&& b.render_node == a.render_node
    &&& b.render_formats == a.render_formats
    &&& b.surfaces == a.surfaces
    &&& b.non_desktop == a.non_desktop
    &&& b.active_leases == a.active_leases
    &&& b.leasing_enabled == a.leasing_enabled
}

/// Total surfaces across a device list.
pub open spec fn spec_count_surfaces(ds: Seq<GpuDevice>) -> int
    decreases ds.len(),
{
    if ds.len() == 0 {
        0
    } else {
        spec_count_surfaces(ds.drop_last()) + ds.last().surfaces@.len()
    }
}

fn clone_opt_string(v: &Option<String>) -> (r: Option<String>)
    ensures
        r is Some <==> v is Some,
        r is Some ==> r->0@ == v->0@,
{
    match v {
        Some(s) => Some(s.clone()),
        None => None,
    }
}

fn clone_planes(p: &Planes) -> (r: Planes)
    ensures
        r.primary@ == p.primary@,
        r.cursor@ == p.cursor@,
        r.overlay@ == p.overlay@,
{
    Planes { primary: p.primary.clone(), cursor: p.cursor.clone(), overlay: p.overlay.clone() }
}

proof fn lemma_count_surfaces_push(ds: Seq<GpuDevice>, d: GpuDevice)
    ensures
        spec_count_surfaces(ds.push(d)) == spec_count_surfaces(ds) + d.surfaces@.len(),
{
    assert(ds.push(d).drop_last() =~= ds);
}

/// Sum of the mode widths of a surface list.
pub open spec fn spec_surfaces_width(ss: Seq<OutputSurface>) -> int
    decreases ss.len(),
{
    if ss.len() == 0 {
        0
    } else {
        spec_surfaces_width(ss.drop_last()) + ss.last().mode.width
    }
}

/// Sum of the mode widths of every surface of every device: the x
/// coordinate at which the next output is placed.
pub open spec fn spec_total_width(ds: Seq<GpuDevice>) -> int
    decreases ds.len(),
{
    if ds.len() == 0 {
        0
    } else {
        spec_total_width(ds.drop_last()) + spec_surfaces_width(ds.last().surfaces@)
    }
}

proof fn lemma_count_surfaces_nonneg(ds: Seq<GpuDevice>)
    ensures
        0 <= spec_count_surfaces(ds),
    decreases ds.len(),
{
    if ds.len() > 0 {
        lemma_count_surfaces_nonneg(ds.drop_last());
    }
}

/// Removing a device removes exactly its surfaces from the total.
proof fn lemma_count_surfaces_remove(ds: Seq<GpuDevice>, i: int)
    requires
        0 <= i < ds.len(),
    ensures
        spec_count_surfaces(ds.remove(i)) == spec_count_surfaces(ds) - ds[i].surfaces@.len(),
    decreases ds.len(),
{
    if i == ds.len() - 1 {
        assert(ds.remove(i) =~= ds.drop_last());
    } else {
        assert(ds.remove(i).drop_last() =~= ds.drop_last().remove(i));
        assert(ds.remove(i).last() == ds.last());
        lemma_count_surfaces_remove(ds.drop_last(), i);
    }
}

proof fn lemma_count_surfaces_update(ds: Seq<GpuDevice>, i: int, d: GpuDevice)
    requires
        0 <= i < ds.len(),
    ensures
        spec_count_surfaces(ds.update(i, d)) == spec_count_surfaces(ds) - ds[i].surfaces@.len()
            + d.surfaces@.len(),
    decreases ds.len(),
{
    if ds.len() > 0 {
        if i == ds.len() - 1 {
            assert(ds.update(i, d).drop_last() =~= ds.drop_last());
        } else {
            assert(ds.update(i, d).drop_last() =~= ds.drop_last().update(i, d));
            lemma_count_surfaces_update(ds.drop_last(), i, d);
        }
    }
}

/// The pair is carried by the device: registered for leasing or surfaced.
pub open spec fn spec_covered(d: GpuDevice, p: ConnectorPair) -> bool {
    d.non_desktop@.contains(p) || d.surface_pairs().contains(p)
}

/// The bookkeeping of a device mid-scan, between the scanner's diff and the
/// last of its events being applied.  `stale` are the pairs whose
/// disconnection is still to be applied, in event order; `fresh` those
/// whose connection is, applied after every disconnection.  With both empty
/// this is `outputs_consistent`; each scan event application reduces one
/// list by its head and keeps the predicate, so any full application of a
/// scan's events leaves the device consistent.
pub open spec fn scan_pending_ok(
    d: GpuDevice,
    stale: Seq<ConnectorPair>,
    fresh: Seq<ConnectorPair>,
) -> bool {
    // Every connected pair is carried, or its connection is still pending.
    &&& forall|i: int|
        0 <= i < d.scanner.pairs().len() ==> (spec_covered(d, #[trigger] d.scanner.pairs()[i])
            || fresh.contains(d.scanner.pairs()[i]))
    // Every surface stands for a connected, unleased pair, or its
    // disconnection is still pending.
    &&& forall|i: int|
        0 <= i < d.surface_pairs().len() ==> ((d.scanner.pairs().contains(
            #[trigger] d.surface_pairs()[i],
        ) && !d.non_desktop@.contains(d.surface_pairs()[i])) || stale.contains(
            d.surface_pairs()[i],
        ))
    // Every lease registration likewise.
    &&& forall|i: int|
        0 <= i < d.non_desktop@.len() ==> (d.scanner.pairs().contains(
            #[trigger] d.non_desktop@[i],
        ) || stale.contains(d.non_desktop@[i]))
    // Pending disconnections name pairs that are no longer connected.
    &&& forall|i: int| 0 <= i < stale.len() ==> !d.scanner.pairs().contains(#[trigger] stale[i])
    // Pending connections name connected pairs not carried yet.
    &&& forall|i: int|
        0 <= i < fresh.len() ==> (d.scanner.pairs().contains(#[trigger] fresh[i]) && !spec_covered(
            d,
            fresh[i],
        ))
    &&& crate::scanner::unique_connectors(stale)
    &&& crate::scanner::unique_crtcs(stale)
    &&& crate::scanner::unique_connectors(fresh)
    &&& crate::scanner::unique_crtcs(fresh)
    // A lease registration shares a connector with a pending disconnection
    // only as that exact pair, so withdrawing by connector hits the right
    // entry.
    &&& forall|i: int, j: int|
        0 <= i < d.non_desktop@.len() && 0 <= j < stale.len() && (
        #[trigger] d.non_desktop@[i]).connector == (#[trigger] stale[j]).connector
            ==> d.non_desktop@[i] == stale[j]
    // A surface shares a CRTC with a pending disconnection only as that
    // exact pair, so removing by CRTC hits the right surface.
    &&& forall|i: int, j: int|
        0 <= i < d.surface_pairs().len() && 0 <= j < stale.len() && (
        #[trigger] d.surface_pairs()[i]).crtc == (#[trigger] stale[j]).crtc
            ==> d.surface_pairs()[i] == stale[j]
    // No pair is both surfaced and registered for leasing.
    &&& forall|i: int|
        0 <= i < d.surface_pairs().len() ==> !d.non_desktop@.contains(
            #[trigger] d.surface_pairs()[i],
        )
}

proof fn lemma_pairs_not_in_unique_pairs(pairs: Seq<ConnectorPair>, excluded: Seq<ConnectorPair>)
    requires
        crate::scanner::unique_connectors(pairs),
        crate::scanner::unique_crtcs(pairs),
    ensures
        crate::scanner::unique_connectors(pairs_not_in(pairs, excluded)),
        crate::scanner::unique_crtcs(pairs_not_in(pairs, excluded)),
    decreases pairs.len(),
{
    broadcast use
        vstd::seq_lib::lemma_seq_concat_contains_all_elements,
        vstd::seq_lib::lemma_seq_empty_contains_nothing,
    ;

    if pairs.len() > 0 {
        lemma_pairs_not_in_unique_pairs(pairs.drop_last(), excluded);
        let s = pairs_not_in(pairs, excluded);
        let prefix = pairs_not_in(pairs.drop_last(), excluded);
        assert forall|i: int, j: int|
            0 <= i < s.len() && 0 <= j < s.len() && i != j implies s[i].connector != s[j].connector
            && s[i].crtc != s[j].crtc by {
            if i >= prefix.len() || j >= prefix.len() {
                let k = if i >= prefix.len() {
                    j
                } else {
                    i
                };
                if k < prefix.len() {
                    assert(prefix.contains(prefix[k]));
                    lemma_pairs_not_in_source(pairs.drop_last(), excluded, prefix[k]);
                    let m = choose|m: int|
                        0 <= m < pairs.drop_last().len() && pairs.drop_last()[m] == prefix[k];
                    assert(pairs[m] == prefix[k]);
                    assert(pairs[m].connector != pairs[pairs.len() - 1].connector);
                    assert(pairs[m].crtc != pairs[pairs.len() - 1].crtc);
                }
            }
        }
    }
}

proof fn lemma_remove_contains(s: Seq<ConnectorPair>, j: int, x: ConnectorPair)
    requires
        0 <= j < s.len(),
    ensures
        s.remove(j).contains(x) ==> s.contains(x),
        s.contains(x) && x != s[j] ==> s.remove(j).contains(x),
{
    s.remove_ensures(j);
    if s.remove(j).contains(x) {
        let i = choose|i: int| 0 <= i < s.remove(j).len() && s.remove(j)[i] == x;
        if i < j {
            assert(s[i] == x);
        } else {
            assert(s[i + 1] == x);
        }
    }
    if s.contains(x) && x != s[j] {
        let i = choose|i: int| 0 <= i < s.len() && s[i] == x;
        if i < j {
            assert(s.remove(j)[i] == x);
        } else {
            assert(s.remove(j)[i - 1] == x);
        }
    }
}

proof fn lemma_drop_first_contains(s: Seq<ConnectorPair>, x: ConnectorPair)
    requires
        s.len() > 0,
    ensures
        s.drop_first().contains(x) ==> s.contains(x),
        s.contains(x) && x != s[0] ==> s.drop_first().contains(x),
{
    if s.drop_first().contains(x) {
        let i = choose|i: int| 0 <= i < s.drop_first().len() && s.drop_first()[i] == x;
        assert(s[i + 1] == x);
    }
    if s.contains(x) && x != s[0] {
        let i = choose|i: int| 0 <= i < s.len() && s[i] == x;
        assert(s.drop_first()[i - 1] == x);
    }
}

/// A settled device — no scan event left to apply — is consistent.
pub proof fn lemma_scan_settled(d: GpuDevice)
    requires
        scan_pending_ok(d, Seq::<ConnectorPair>::empty(), Seq::<ConnectorPair>::empty()),
    ensures
        d.outputs_consistent(),
{
    broadcast use vstd::seq_lib::lemma_seq_empty_contains_nothing;

}

/// Replacing the scanner's record by a fresh scan leaves the device
/// pending-consistent: what the scan found stale awaits its disconnection,
/// what it found fresh awaits its connection, and nothing else changed.
pub proof fn lemma_scan_step(d: GpuDevice, d2: GpuDevice, news: Seq<ConnectorPair>)
    requires
        d.wf(),
        d.outputs_consistent(),
        d2.wf(),
        same_but_scanner(d, d2),
        d2.scanner.pairs() == news,
    ensures
        scan_pending_ok(
            d2,
            pairs_not_in(d.scanner.pairs(), news),
            pairs_not_in(news, d.scanner.pairs()),
        ),
{
    let olds = d.scanner.pairs();
    let stale = pairs_not_in(olds, news);
    let fresh = pairs_not_in(news, olds);
    d.scanner.lemma_wf_unique();
    d2.scanner.lemma_wf_unique();
    assert(d2.surface_pairs() =~= d.surface_pairs());
    // Connected pairs are covered or fresh.
    assert forall|i: int|
        0 <= i < news.len() implies (spec_covered(d2, #[trigger] news[i]) || fresh.contains(
        news[i],
    )) by {
        lemma_pairs_not_in_contains(news, olds, news[i]);
        assert(news.contains(news[i]));
        if olds.contains(news[i]) {
            let k = choose|k: int| 0 <= k < olds.len() && olds[k] == news[i];
            assert(spec_covered(d, olds[k]));
        }
    }
    // Surfaces are connected and unleased, or stale.
    assert forall|i: int|
        0 <= i < d2.surface_pairs().len() implies ((news.contains(#[trigger] d2.surface_pairs()[i])
        && !d2.non_desktop@.contains(d2.surface_pairs()[i])) || stale.contains(
        d2.surface_pairs()[i],
    )) by {
        let s = d2.surface_pairs()[i];
        assert(olds.contains(s) && !d.non_desktop@.contains(s));
        lemma_pairs_not_in_contains(olds, news, s);
    }
    // Lease registrations are connected or stale.
    assert forall|i: int|
        0 <= i < d2.non_desktop@.len() implies (news.contains(#[trigger] d2.non_desktop@[i])
        || stale.contains(d2.non_desktop@[i])) by {
        let e = d2.non_desktop@[i];
        assert(olds.contains(e));
        lemma_pairs_not_in_contains(olds, news, e);
    }
    // Stale pairs are gone; fresh pairs are connected and uncovered.
    assert forall|i: int| 0 <= i < stale.len() implies !news.contains(#[trigger] stale[i]) by {
        assert(stale.contains(stale[i]));
        lemma_pairs_not_in_contains(olds, news, stale[i]);
    }
    assert forall|i: int|
        0 <= i < fresh.len() implies (news.contains(#[trigger] fresh[i]) && !spec_covered(
        d2,
        fresh[i],
    )) by {
        assert(fresh.contains(fresh[i]));
        lemma_pairs_not_in_contains(news, olds, fresh[i]);
        if d2.non_desktop@.contains(fresh[i]) {
            let k = choose|k: int| 0 <= k < d.non_desktop@.len() && d.non_desktop@[k] == fresh[i];
            assert(olds.contains(d.non_desktop@[k]));
        }
        if d2.surface_pairs().contains(fresh[i]) {
            let k = choose|k: int|
                0 <= k < d.surface_pairs().len() && d.surface_pairs()[k] == fresh[i];
            assert(olds.contains(d.surface_pairs()[k]) && !d.non_desktop@.contains(
                d.surface_pairs()[k],
            ));
        }
    }
    lemma_pairs_not_in_unique_pairs(olds, news);
    lemma_pairs_not_in_unique_pairs(news, olds);
    // Shared connectors or CRTCs with a stale pair pin the exact pair.
    assert forall|i: int, j: int|
        0 <= i < d2.non_desktop@.len() && 0 <= j < stale.len() && (
    #[trigger] d2.non_desktop@[i]).connector == (#[trigger] stale[j]).connector implies d2
        .non_desktop@[i] == stale[j] by {
        let e = d2.non_desktop@[i];
        assert(olds.contains(e));
        assert(stale.contains(stale[j]));
        lemma_pairs_not_in_source(olds, news, stale[j]);
        let a = choose|a: int| 0 <= a < olds.len() && olds[a] == e;
        let b = choose|b: int| 0 <= b < olds.len() && olds[b] == stale[j];
        assert(a == b);
    }
    assert forall|i: int, j: int|
        0 <= i < d2.surface_pairs().len() && 0 <= j < stale.len() && (
    #[trigger] d2.surface_pairs()[i]).crtc == (#[trigger] stale[j]).crtc implies d2
        .surface_pairs()[i] == stale[j] by {
        let s = d2.surface_pairs()[i];
        assert(olds.contains(s));
        assert(stale.contains(stale[j]));
        lemma_pairs_not_in_source(olds, news, stale[j]);
        let a = choose|a: int| 0 <= a < olds.len() && olds[a] == s;
        let b = choose|b: int| 0 <= b < olds.len() && olds[b] == stale[j];
        assert(a == b);
    }
}

/// What `connector_disconnected` does to the one device it touches, as its
/// contract states it.
pub open spec fn spec_disconnect_delta(d: GpuDevice, d2: GpuDevice, connector: u32, crtc: u32) -> bool {
    if d.has_non_desktop(connector) {
        same_but_non_desktop(d, d2) && exists|j: int|
            0 <= j < d.non_desktop@.len() && (#[trigger] d.non_desktop@[j]).connector == connector
                && d2.non_desktop@ == d.non_desktop@.remove(j)
    } else if d.has_surface(crtc) {
        same_but_surfaces(d, d2) && exists|j: int|
            0 <= j < d.surfaces@.len() && (#[trigger] d.surfaces@[j]).crtc == crtc
                && d2.surfaces@ == d.surfaces@.remove(j)
    } else {
        d2 == d
    }
}

/// Applying the next pending disconnection keeps the device
/// pending-consistent and leaves one disconnection fewer pending.
pub proof fn lemma_disconnect_step(
    d: GpuDevice,
    d2: GpuDevice,
    stale: Seq<ConnectorPair>,
    fresh: Seq<ConnectorPair>,
)
    requires
        d.wf(),
        scan_pending_ok(d, stale, fresh),
        stale.len() > 0,
        spec_disconnect_delta(d, d2, stale[0].connector, stale[0].crtc),
    ensures
        scan_pending_ok(d2, stale.drop_first(), fresh),
{
    let p = stale[0];
    let stale2 = stale.drop_first();
    let sp = d.surface_pairs();
    assert(stale.contains(p));
    assert forall|i: int| 0 <= i < stale2.len() implies #[trigger] stale2[i] == stale[i + 1] by {}
    if d.has_non_desktop(p.connector) {
        let j = choose|j: int|
            0 <= j < d.non_desktop@.len() && (#[trigger] d.non_desktop@[j]).connector == p.connector
                && d2.non_desktop@ == d.non_desktop@.remove(j);
        assert(d.non_desktop@[j] == p);
        d.non_desktop@.remove_ensures(j);
        assert(d2.surface_pairs() =~= sp);
        assert(d2.scanner == d.scanner);
        // Every connected pair stays covered or fresh.
        assert forall|i: int|
            0 <= i < d2.scanner.pairs().len() implies (spec_covered(
            d2,
            #[trigger] d2.scanner.pairs()[i],
        ) || fresh.contains(d2.scanner.pairs()[i])) by {
            let q = d2.scanner.pairs()[i];
            if d.non_desktop@.contains(q) {
                assert(q != p);
                lemma_remove_contains(d.non_desktop@, j, q);
            }
        }
        // Surfaces keep their justification.
        assert forall|i: int|
            0 <= i < d2.surface_pairs().len() implies ((d2.scanner.pairs().contains(
            #[trigger] d2.surface_pairs()[i],
        ) && !d2.non_desktop@.contains(d2.surface_pairs()[i])) || stale2.contains(
            d2.surface_pairs()[i],
        )) by {
            let s = d2.surface_pairs()[i];
            assert(s == sp[i]);
            if d.scanner.pairs().contains(s) && !d.non_desktop@.contains(s) {
                lemma_remove_contains(d.non_desktop@, j, s);
            } else {
                assert(stale.contains(s));
                assert(!d.non_desktop@.contains(s));
                assert(s != p);
                lemma_drop_first_contains(stale, s);
            }
        }
        // Remaining lease registrations keep theirs.
        assert forall|i: int|
            0 <= i < d2.non_desktop@.len() implies (d2.scanner.pairs().contains(
            #[trigger] d2.non_desktop@[i],
        ) || stale2.contains(d2.non_desktop@[i])) by {
            let e = d2.non_desktop@[i];
            let a = if i < j {
                i
            } else {
                i + 1
            };
            assert(e == d.non_desktop@[a]);
            if !d.scanner.pairs().contains(e) {
                assert(stale.contains(e));
                assert(e.connector != p.connector);
                lemma_drop_first_contains(stale, e);
            }
        }
        // Fresh pairs stay uncovered.
        assert forall|i: int|
            0 <= i < fresh.len() implies (d2.scanner.pairs().contains(#[trigger] fresh[i])
            && !spec_covered(d2, fresh[i])) by {
            if d2.non_desktop@.contains(fresh[i]) {
                lemma_remove_contains(d.non_desktop@, j, fresh[i]);
            }
        }
        // Connector/CRTC pinning against the remaining disconnections.
        assert forall|i: int, k: int|
            0 <= i < d2.non_desktop@.len() && 0 <= k < stale2.len() && (
        #[trigger] d2.non_desktop@[i]).connector == (#[trigger] stale2[k]).connector implies d2
            .non_desktop@[i] == stale2[k] by {
            let a = if i < j {
                i
            } else {
                i + 1
            };
            assert(d2.non_desktop@[i] == d.non_desktop@[a]);
            assert(stale2[k] == stale[k + 1]);
        }
        assert forall|i: int|
            0 <= i < d2.surface_pairs().len() implies !d2.non_desktop@.contains(
            #[trigger] d2.surface_pairs()[i],
        ) by {
            if d2.non_desktop@.contains(d2.surface_pairs()[i]) {
                lemma_remove_contains(d.non_desktop@, j, d2.surface_pairs()[i]);
            }
        }
    } else if d.has_surface(p.crtc) {
        let j = choose|j: int|
            0 <= j < d.surfaces@.len() && (#[trigger] d.surfaces@[j]).crtc == p.crtc && d2.surfaces@
                == d.surfaces@.remove(j);
        assert(sp[j].crtc == p.crtc);
        assert(sp[j] == p);
        d.surfaces@.remove_ensures(j);
        sp.remove_ensures(j);
        assert(d2.surface_pairs() =~= sp.remove(j));
        let sp2 = d2.surface_pairs();
        assert(d2.scanner == d.scanner);
        assert(d2.non_desktop == d.non_desktop);
        // Every connected pair stays covered or fresh.
        assert forall|i: int|
            0 <= i < d2.scanner.pairs().len() implies (spec_covered(
            d2,
            #[trigger] d2.scanner.pairs()[i],
        ) || fresh.contains(d2.scanner.pairs()[i])) by {
            let q = d2.scanner.pairs()[i];
            if sp.contains(q) {
                assert(q != p);
                lemma_remove_contains(sp, j, q);
            }
        }
        // Remaining surfaces keep their justification.
        assert forall|i: int|
            0 <= i < sp2.len() implies ((d2.scanner.pairs().contains(#[trigger] sp2[i])
            && !d2.non_desktop@.contains(sp2[i])) || stale2.contains(sp2[i])) by {
            let a = if i < j {
                i
            } else {
                i + 1
            };
            assert(sp2[i] == sp[a]);
            if !(d.scanner.pairs().contains(sp[a]) && !d.non_desktop@.contains(sp[a])) {
                assert(stale.contains(sp[a]));
                assert(sp[a].crtc != sp[j].crtc);
                lemma_drop_first_contains(stale, sp[a]);
            }
        }
        // Lease registrations keep theirs.
        assert forall|i: int|
            0 <= i < d2.non_desktop@.len() implies (d2.scanner.pairs().contains(
            #[trigger] d2.non_desktop@[i],
        ) || stale2.contains(d2.non_desktop@[i])) by {
            let e = d2.non_desktop@[i];
            if !d.scanner.pairs().contains(e) {
                assert(stale.contains(e));
                assert(e != p) by {
                    if e == p {
                        assert(d.has_non_desktop(p.connector));
                    }
                }
                lemma_drop_first_contains(stale, e);
            }
        }
        // Fresh pairs stay uncovered.
        assert forall|i: int|
            0 <= i < fresh.len() implies (d2.scanner.pairs().contains(#[trigger] fresh[i])
            && !spec_covered(d2, fresh[i])) by {
            if sp2.contains(fresh[i]) {
                lemma_remove_contains(sp, j, fresh[i]);
            }
        }
        // CRTC pinning against the remaining disconnections.
        assert forall|i: int, k: int|
            0 <= i < sp2.len() && 0 <= k < stale2.len() && (#[trigger] sp2[i]).crtc == (
        #[trigger] stale2[k]).crtc implies sp2[i] == stale2[k] by {
            let a = if i < j {
                i
            } else {
                i + 1
            };
            assert(sp2[i] == sp[a]);
            assert(stale2[k] == stale[k + 1]);
        }
        assert forall|i: int|
            0 <= i < sp2.len() implies !d2.non_desktop@.contains(#[trigger] sp2[i]) by {
            let a = if i < j {
                i
            } else {
                i + 1
            };
            assert(sp2[i] == sp[a]);
        }
    } else {
        assert(d2 == d);
        // A stale pair that is neither leased nor surfaced leaves the state
        // as it stands.
        assert forall|i: int|
            0 <= i < d2.surface_pairs().len() implies ((d2.scanner.pairs().contains(
            #[trigger] d2.surface_pairs()[i],
        ) && !d2.non_desktop@.contains(d2.surface_pairs()[i])) || stale2.contains(
            d2.surface_pairs()[i],
        )) by {
            let s = d2.surface_pairs()[i];
            if !(d.scanner.pairs().contains(s) && !d.non_desktop@.contains(s)) {
                assert(stale.contains(s));
                assert(s != p) by {
                    if s == p {
                        assert(d.surfaces@[i].crtc == p.crtc);
                        assert(d.has_surface(p.crtc));
                    }
                }
                lemma_drop_first_contains(stale, s);
            }
        }
        assert forall|i: int|
            0 <= i < d2.non_desktop@.len() implies (d2.scanner.pairs().contains(
            #[trigger] d2.non_desktop@[i],
        ) || stale2.contains(d2.non_desktop@[i])) by {
            let e = d2.non_desktop@[i];
            if !d.scanner.pairs().contains(e) {
                assert(stale.contains(e));
                assert(e != p) by {
                    if e == p {
                        assert(d.has_non_desktop(p.connector));
                    }
                }
                lemma_drop_first_contains(stale, e);
            }
        }
    }
}

/// What `connector_connected` does to the one device it touches when it
/// does not reject: the connector is registered for leasing, or its CRTC is
/// given a surface.
pub open spec fn spec_connect_delta(d: GpuDevice, d2: GpuDevice, p: ConnectorPair) -> bool {
    ||| (same_but_non_desktop(d, d2) && d2.non_desktop@ == d.non_desktop@.push(p))
    ||| (same_but_surfaces(d, d2) && d2.surfaces@.len() == d.surfaces@.len() + 1 && d2.surfaces@
        .drop_last() == d.surfaces@ && d2.surfaces@.last().connector == p.connector
        && d2.surfaces@.last().crtc == p.crtc)
}

/// Applying every pending disconnection, in order, keeps the device
/// pending-consistent.  `chain` holds the device after each step.
proof fn lemma_disconnect_phase(
    chain: Seq<GpuDevice>,
    stale: Seq<ConnectorPair>,
    fresh: Seq<ConnectorPair>,
)
    requires
        chain.len() == stale.len() + 1,
        forall|i: int| 0 <= i < chain.len() ==> (#[trigger] chain[i]).wf(),
        scan_pending_ok(chain[0], stale, fresh),
        forall|i: int|
            0 <= i < stale.len() ==> spec_disconnect_delta(
                #[trigger] chain[i],
                chain[i + 1],
                stale[i].connector,
                stale[i].crtc,
            ),
    ensures
        scan_pending_ok(chain.last(), Seq::<ConnectorPair>::empty(), fresh),
    decreases stale.len(),
{
    if stale.len() == 0 {
        assert(stale =~= Seq::<ConnectorPair>::empty());
        assert(chain.last() == chain[0]);
    } else {
        lemma_disconnect_step(chain[0], chain[1], stale, fresh);
        let chain2 = chain.drop_first();
        let stale2 = stale.drop_first();
        assert forall|i: int| 0 <= i < chain2.len() implies (#[trigger] chain2[i]) == chain[i
            + 1] by {}
        assert forall|i: int| 0 <= i < stale2.len() implies (#[trigger] stale2[i]) == stale[i
            + 1] by {}
        assert forall|i: int|
            0 <= i < stale2.len() implies spec_disconnect_delta(
            #[trigger] chain2[i],
            chain2[i + 1],
            stale2[i].connector,
            stale2[i].crtc,
        ) by {
            assert(spec_disconnect_delta(
                chain[i + 1],
                chain[i + 2],
                stale[i + 1].connector,
                stale[i + 1].crtc,
            ));
        }
        lemma_disconnect_phase(chain2, stale2, fresh);
        assert(chain2.last() == chain.last());
    }
}

/// Applying every pending connection, in order, settles the device.
proof fn lemma_connect_phase(chain: Seq<GpuDevice>, fresh: Seq<ConnectorPair>)
    requires
        chain.len() == fresh.len() + 1,
        forall|i: int| 0 <= i < chain.len() ==> (#[trigger] chain[i]).wf(),
        scan_pending_ok(chain[0], Seq::<ConnectorPair>::empty(), fresh),
        forall|i: int|
            0 <= i < fresh.len() ==> spec_connect_delta(#[trigger] chain[i], chain[i + 1], fresh[i]),
    ensures
        scan_pending_ok(chain.last(), Seq::<ConnectorPair>::empty(), Seq::<ConnectorPair>::empty()),
    decreases fresh.len(),
{
    if fresh.len() == 0 {
        assert(fresh =~= Seq::<ConnectorPair>::empty());
        assert(chain.last() == chain[0]);
    } else {
        if same_but_non_desktop(chain[0], chain[1]) && chain[1].non_desktop@
            == chain[0].non_desktop@.push(fresh[0]) {
            lemma_connect_lease_step(chain[0], chain[1], fresh);
        } else {
            lemma_connect_output_step(chain[0], chain[1], fresh);
        }
        let chain2 = chain.drop_first();
        let fresh2 = fresh.drop_first();
        assert forall|i: int| 0 <= i < chain2.len() implies (#[trigger] chain2[i]) == chain[i
            + 1] by {}
        assert forall|i: int| 0 <= i < fresh2.len() implies (#[trigger] fresh2[i]) == fresh[i
            + 1] by {}
        assert forall|i: int|
            0 <= i < fresh2.len() implies spec_connect_delta(
            #[trigger] chain2[i],
            chain2[i + 1],
            fresh2[i],
        ) by {
            assert(spec_connect_delta(chain[i + 1], chain[i + 2], fresh[i + 1]));
        }
        lemma_connect_phase(chain2, fresh2);
        assert(chain2.last() == chain.last());
    }
}

/// The hotplug accounting theorem, over one full scan of one device.
///
/// Start from any well-formed, consistent device.  Replace its connector
/// record by a scan (`d1`); apply the scan's disconnections in order
/// (`dchain` holds the device after each, exactly as
/// `connector_disconnected` changes it); then apply its connections in
/// order (`cchain`, exactly as `connector_connected` changes it).  The
/// device ends consistent, and its output-surface count equals the count of
/// its connected, non-leased, CRTC-bound connectors: no leak, no duplicate.
pub proof fn lemma_hotplug_preserves_output_accounting(
    d0: GpuDevice,
    d1: GpuDevice,
    news: Seq<ConnectorPair>,
    dchain: Seq<GpuDevice>,
    cchain: Seq<GpuDevice>,
)
    requires
        d0.wf(),
        d0.outputs_consistent(),
        d1.wf(),
        same_but_scanner(d0, d1),
        d1.scanner.pairs() == news,
        dchain.len() == pairs_not_in(d0.scanner.pairs(), news).len() + 1,
        dchain[0] == d1,
        forall|i: int| 0 <= i < dchain.len() ==> (#[trigger] dchain[i]).wf(),
        forall|i: int|
            0 <= i < pairs_not_in(d0.scanner.pairs(), news).len() ==> spec_disconnect_delta(
                #[trigger] dchain[i],
                dchain[i + 1],
                pairs_not_in(d0.scanner.pairs(), news)[i].connector,
                pairs_not_in(d0.scanner.pairs(), news)[i].crtc,
            ),
        cchain.len() == pairs_not_in(news, d0.scanner.pairs()).len() + 1,
        cchain[0] == dchain.last(),
        forall|i: int| 0 <= i < cchain.len() ==> (#[trigger] cchain[i]).wf(),
        forall|i: int|
            0 <= i < pairs_not_in(news, d0.scanner.pairs()).len() ==> spec_connect_delta(
                #[trigger] cchain[i],
                cchain[i + 1],
                pairs_not_in(news, d0.scanner.pairs())[i],
            ),
    ensures
        cchain.last().outputs_consistent(),
        cchain.last().surfaces@.len() == pairs_not_in(
            cchain.last().scanner.pairs(),
            cchain.last().non_desktop@,
        ).len(),
{
    let stale = pairs_not_in(d0.scanner.pairs(), news);
    let fresh = pairs_not_in(news, d0.scanner.pairs());
    lemma_scan_step(d0, d1, news);
    lemma_disconnect_phase(dchain, stale, fresh);
    lemma_connect_phase(cchain, fresh);
    lemma_scan_settled(cchain.last());
    assert(cchain.last() == cchain[cchain.len() - 1]);
    lemma_output_surface_accounting(cchain.last());
}

/// Registering the next pending connection as lease-eligible keeps the
/// device pending-consistent and leaves one connection fewer pending.
/// Connections are applied only once every disconnection is.
pub proof fn lemma_connect_lease_step(d: GpuDevice, d2: GpuDevice, fresh: Seq<ConnectorPair>)
    requires
        d.wf(),
        scan_pending_ok(d, Seq::<ConnectorPair>::empty(), fresh),
        fresh.len() > 0,
        same_but_non_desktop(d, d2),
        d2.non_desktop@ == d.non_desktop@.push(fresh[0]),
    ensures
        scan_pending_ok(d2, Seq::<ConnectorPair>::empty(), fresh.drop_first()),
{
    broadcast use
        vstd::seq_lib::lemma_seq_contains_after_push,
        vstd::seq_lib::lemma_seq_empty_contains_nothing,
    ;

    let p = fresh[0];
    let fresh2 = fresh.drop_first();
    assert(fresh.contains(p));
    assert(d2.surface_pairs() =~= d.surface_pairs());
    assert forall|i: int| 0 <= i < fresh2.len() implies #[trigger] fresh2[i] == fresh[i + 1] by {}
    assert forall|i: int|
        0 <= i < d2.scanner.pairs().len() implies (spec_covered(
        d2,
        #[trigger] d2.scanner.pairs()[i],
    ) || fresh2.contains(d2.scanner.pairs()[i])) by {
        let q = d2.scanner.pairs()[i];
        if !spec_covered(d, q) && q != p {
            assert(fresh.contains(q));
            lemma_drop_first_contains(fresh, q);
        }
    }
    assert forall|i: int|
        0 <= i < fresh2.len() implies (d2.scanner.pairs().contains(#[trigger] fresh2[i])
        && !spec_covered(d2, fresh2[i])) by {
        assert(fresh2[i] == fresh[i + 1]);
        assert(fresh[i + 1].connector != p.connector);
    }
    assert forall|i: int|
        0 <= i < d2.surface_pairs().len() implies ((d2.scanner.pairs().contains(
        #[trigger] d2.surface_pairs()[i],
    ) && !d2.non_desktop@.contains(d2.surface_pairs()[i])) && !d2.non_desktop@.contains(
        d2.surface_pairs()[i],
    )) by {
        let s = d2.surface_pairs()[i];
        assert(s == d.surface_pairs()[i]);
        assert(s != p);
    }
}

/// Creating the surface of the next pending connection keeps the device
/// pending-consistent and leaves one connection fewer pending.
pub proof fn lemma_connect_output_step(d: GpuDevice, d2: GpuDevice, fresh: Seq<ConnectorPair>)
    requires
        d.wf(),
        scan_pending_ok(d, Seq::<ConnectorPair>::empty(), fresh),
        fresh.len() > 0,
        same_but_surfaces(d, d2),
        d2.surfaces@.len() == d.surfaces@.len() + 1,
        d2.surfaces@.drop_last() == d.surfaces@,
        d2.surfaces@.last().connector == fresh[0].connector,
        d2.surfaces@.last().crtc == fresh[0].crtc,
    ensures
        scan_pending_ok(d2, Seq::<ConnectorPair>::empty(), fresh.drop_first()),
{
    broadcast use
        vstd::seq_lib::lemma_seq_contains_after_push,
        vstd::seq_lib::lemma_seq_empty_contains_nothing,
    ;

    let p = fresh[0];
    let fresh2 = fresh.drop_first();
    let sp = d.surface_pairs();
    let sp2 = d2.surface_pairs();
    assert(fresh.contains(p));
    assert forall|i: int| 0 <= i < d.surfaces@.len() implies #[trigger] d2.surfaces@[i]
        == d.surfaces@[i] by {
        assert(d2.surfaces@.drop_last()[i] == d2.surfaces@[i]);
    }
    assert(sp2 =~= sp.push(p));
    assert forall|i: int| 0 <= i < fresh2.len() implies #[trigger] fresh2[i] == fresh[i + 1] by {}
    assert forall|i: int|
        0 <= i < d2.scanner.pairs().len() implies (spec_covered(
        d2,
        #[trigger] d2.scanner.pairs()[i],
    ) || fresh2.contains(d2.scanner.pairs()[i])) by {
        let q = d2.scanner.pairs()[i];
        if !spec_covered(d, q) && q != p {
            assert(fresh.contains(q));
            lemma_drop_first_contains(fresh, q);
        }
        if q == p {
            assert(sp2.contains(p));
        }
    }
    assert forall|i: int|
        0 <= i < sp2.len() implies ((d2.scanner.pairs().contains(#[trigger] sp2[i])
        && !d2.non_desktop@.contains(sp2[i])) && !d2.non_desktop@.contains(sp2[i])) by {
        if i < sp.len() {
            assert(sp2[i] == sp[i]);
        } else {
            assert(sp2[i] == p);
        }
    }
    assert forall|i: int|
        0 <= i < fresh2.len() implies (d2.scanner.pairs().contains(#[trigger] fresh2[i])
        && !spec_covered(d2, fresh2[i])) by {
        assert(fresh2[i] == fresh[i + 1]);
        assert(fresh[i + 1].connector != p.connector);
        if sp2.contains(fresh2[i]) {
            assert(sp.contains(fresh2[i]) || fresh2[i] == p);
        }
    }
}

} // verus!
