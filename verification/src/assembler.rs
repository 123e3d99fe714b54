//! Render element assembler: composes the ordered drawable stack for one
//! output and resolves the cursor's contribution.
//!
//! With a designated fullscreen window the list is the overlay elements
//! followed by that window at the origin, over a transparent clear color
//! (a safety net only; the window is expected to cover the output).
//! Otherwise it is the overlay elements followed by the stacked elements of
//! the space, top to bottom, over an opaque neutral clear color.

use vstd::prelude::*;

verus! {

/// Largest accepted logical coordinate; keeps cursor arithmetic in range.
pub const MAX_COORD: i64 = 0x1_0000_0000;

/// Largest accepted output scale factor.
pub const MAX_SCALE: i64 = 1024;

/// What the pointer currently shows, as the seat reports it.
#[derive(Clone, Copy, Debug, PartialEq, Eq, Structural)]
pub enum CursorStatus {
    /// The cursor is hidden and contributes nothing.
    Hidden,
    /// A named (themed) shape, drawn from the loaded theme buffer.
    Named,
    /// A client-provided cursor surface with its hotspot.
    Surface { surface: u64, hotspot_x: i64, hotspot_y: i64 },
}

/// The pointer's drawable state: a themed buffer, once loaded, and the
/// current cursor status.
#[derive(Clone, Copy, Debug, PartialEq, Eq, Structural)]
pub struct PointerElement {
    buffer: Option<u64>,
    status: CursorStatus,
}

/// What the pointer contributes to the element list.
#[derive(Clone, Copy, Debug, PartialEq, Eq, Structural)]
pub enum CursorRender {
    /// Nothing: hidden, or no theme buffer loaded yet.
    Nothing,
    /// The themed buffer.
    Buffer { buffer: u64 },
    /// The elements of a client cursor surface.
    Surface { surface: u64 },
}

impl PointerElement {
    pub closed spec fn spec_buffer(&self) -> Option<u64> {
        self.buffer
    }

    pub closed spec fn spec_status(&self) -> CursorStatus {
        self.status
    }

    pub fn set_status(&mut self, status: CursorStatus)
        ensures
            final(self).spec_status() == status,
            final(self).spec_buffer() == old(self).spec_buffer(),
    {
        self.status = status;
    }

    pub fn set_buffer(&mut self, buffer: u64)
        ensures
            final(self).spec_buffer() == Some(buffer),
            final(self).spec_status() == old(self).spec_status(),
    {
        self.buffer = Some(buffer);
    }

    /// Resolve the cursor's image source: nothing when hidden, the themed
    /// buffer for a named shape, the client surface otherwise.
    pub fn render_elements(&self) -> (r: CursorRender)
        ensures
            r == match self.spec_status() {
                CursorStatus::Hidden => CursorRender::Nothing,
                CursorStatus::Named => match self.spec_buffer() {
                    Some(b) => CursorRender::Buffer { buffer: b },
                    None => CursorRender::Nothing,
                },
                CursorStatus::Surface { surface, .. } => CursorRender::Surface { surface },
            },
    {
        match self.status {
            CursorStatus::Hidden => CursorRender::Nothing,
            CursorStatus::Named => match self.buffer {
                Some(b) => CursorRender::Buffer { buffer: b },
                None => CursorRender::Nothing,
            },
            CursorStatus::Surface { surface, .. } => CursorRender::Surface { surface },
        }
    }
}

impl Default for PointerElement {
    /// A fresh pointer: no theme buffer yet, named shape.
    fn default() -> (r: PointerElement)
        ensures
            r.spec_buffer() is None,
            r.spec_status() == CursorStatus::Named,
    {
        PointerElement { buffer: None, status: CursorStatus::Named }
    }
}

/// An output's rectangle in the logical space.
#[derive(Clone, Copy, Debug, PartialEq, Eq, Structural)]
pub struct OutputRect {
    pub x: i64,
    pub y: i64,
    pub w: i64,
    pub h: i64,
}

pub open spec fn rect_in_range(g: OutputRect) -> bool {
    &&& -MAX_COORD <= g.x <= MAX_COORD
    &&& -MAX_COORD <= g.y <= MAX_COORD
    &&& 0 <= g.w <= MAX_COORD
    &&& 0 <= g.h <= MAX_COORD
}

/// The pointer's logical position lies within the output's geometry: only
/// then does the cursor contribute an element to this output.
pub fn cursor_in_output(px: i64, py: i64, geo: OutputRect) -> (r: bool)
    requires
        -MAX_COORD <= px <= MAX_COORD,
        -MAX_COORD <= py <= MAX_COORD,
        rect_in_range(geo),
    ensures
        r == (geo.x <= px < geo.x + geo.w && geo.y <= py < geo.y + geo.h),
{
    geo.x <= px && px - geo.x < geo.w && geo.y <= py && py - geo.y < geo.h
}

/// The cursor's position on the output in physical pixels: relative to the
/// output's origin, shifted by the hotspot, scaled to the output.
pub fn cursor_physical_position(
    px: i64,
    py: i64,
    geo: OutputRect,
    hotspot_x: i64,
    hotspot_y: i64,
    scale: i64,
) -> (r: (i64, i64))
    requires
        -MAX_COORD <= px <= MAX_COORD,
        -MAX_COORD <= py <= MAX_COORD,
        rect_in_range(geo),
        -MAX_COORD <= hotspot_x <= MAX_COORD,
        -MAX_COORD <= hotspot_y <= MAX_COORD,
        1 <= scale <= MAX_SCALE,
    ensures
        r.0 == (px - geo.x - hotspot_x) * scale,
        r.1 == (py - geo.y - hotspot_y) * scale,
{
    let dx = px - geo.x - hotspot_x;
    let dy = py - geo.y - hotspot_y;
    proof {
        assert(-3 * MAX_COORD * MAX_SCALE <= dx * scale <= 3 * MAX_COORD * MAX_SCALE)
            by (nonlinear_arith)
            requires
                -3 * MAX_COORD <= dx <= 3 * MAX_COORD,
                1 <= scale <= MAX_SCALE,
        ;
        assert(-3 * MAX_COORD * MAX_SCALE <= dy * scale <= 3 * MAX_COORD * MAX_SCALE)
            by (nonlinear_arith)
            requires
                -3 * MAX_COORD <= dy <= 3 * MAX_COORD,
                1 <= scale <= MAX_SCALE,
        ;
    }
    (dx * scale, dy * scale)
}

/// The clear color behind the element list.
#[derive(Clone, Copy, Debug, PartialEq, Eq, Structural)]
pub enum ClearColor {
    /// Opaque neutral background for the normal stack.
    OpaqueNeutral,
    /// Transparent safety net under a fullscreen window.
    Transparent,
}

/// One entry of an output's drawable stack, topmost first.
#[derive(Clone, Copy, Debug, PartialEq, Eq, Structural)]
pub enum OutputElement {
    /// An overlay element (cursor and the like).
    Overlay { element: u64 },
    /// The designated fullscreen window, at the origin.
    Window { window: u64 },
    /// One window of the space's stack.
    Space { window: u64 },
}

/// The ordered element list of one output and its clear color.
pub struct ElementPlan {
    pub elements: Vec<OutputElement>,
    pub clear_color: ClearColor,
}

/// The element list output_elements builds.
pub open spec fn spec_output_elements(
    fullscreen: Option<u64>,
    overlay: Seq<u64>,
    stack: Seq<u64>,
) -> Seq<OutputElement> {
    overlay.map_values(|e: u64| OutputElement::Overlay { element: e }) + match fullscreen {
        Some(w) => seq![OutputElement::Window { window: w }],
        None => stack.map_values(|w: u64| OutputElement::Space { window: w }),
    }
}

/// Compose the drawable stack of one output: overlay elements first, then
/// either the designated fullscreen window alone over a transparent clear,
/// or the space's stack over an opaque neutral clear.
pub fn output_elements(fullscreen: Option<u64>, overlay: &Vec<u64>, stack: &Vec<u64>) -> (r:
    ElementPlan)
    ensures
        r.elements@ == spec_output_elements(fullscreen, overlay@, stack@),
        r.clear_color == if fullscreen is Some {
            ClearColor::Transparent
        } else {
            ClearColor::OpaqueNeutral
        },
{
    let mut elements: Vec<OutputElement> = Vec::new();
    let mut i: usize = 0;
    while i < overlay.len()
        invariant
            i <= overlay.len(),
            elements@ =~= overlay@.subrange(0, i as int).map_values(
                |e: u64| OutputElement::Overlay { element: e },
            ),
        decreases overlay.len() - i,
    {
        elements.push(OutputElement::Overlay { element: overlay[i] });
        assert(elements@ =~= overlay@.subrange(0, i + 1 as int).map_values(
            |e: u64| OutputElement::Overlay { element: e },
        ));
        i = i + 1;
    }
    assert(overlay@.subrange(0, overlay@.len() as int) =~= overlay@);
    match fullscreen {
        Some(w) => {
            elements.push(OutputElement::Window { window: w });
            proof {
                assert(elements@ =~= spec_output_elements(fullscreen, overlay@, stack@));
            }
            ElementPlan { elements, clear_color: ClearColor::Transparent }
        },
        None => {
            let ghost base = elements@;
            let mut j: usize = 0;
            while j < stack.len()
                invariant
                    j <= stack.len(),
                    elements@ =~= base + stack@.subrange(0, j as int).map_values(
                        |w: u64| OutputElement::Space { window: w },
                    ),
                decreases stack.len() - j,
            {
                elements.push(OutputElement::Space { window: stack[j] });
                assert(elements@ =~= base + stack@.subrange(0, j + 1 as int).map_values(
                    |w: u64| OutputElement::Space { window: w },
                ));
                j = j + 1;
            }
            assert(stack@.subrange(0, stack@.len() as int) =~= stack@);
            proof {
                assert(elements@ =~= spec_output_elements(fullscreen, overlay@, stack@));
            }
            ElementPlan { elements, clear_color: ClearColor::OpaqueNeutral }
        },
    }
}

/// How direct scanout is offered to the kernel for one frame: all planes
/// when allowed, composition only when disabled by configuration.
#[derive(Clone, Copy, Debug, PartialEq, Eq, Structural)]
pub enum FrameMode {
    AllPlanes,
    CompositeOnly,
}

/// Resolve the frame mode from the surface's scanout-disable flag.
pub fn frame_mode(disable_direct_scanout: bool) -> (r: FrameMode)
    ensures
        r == if disable_direct_scanout {
            FrameMode::CompositeOnly
        } else {
            FrameMode::AllPlanes
        },
{
    if disable_direct_scanout {
        FrameMode::CompositeOnly
    } else {
        FrameMode::AllPlanes
    }
}

} // verus!
