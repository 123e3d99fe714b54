use luxo_core::assembler::ClearColor;
use luxo_core::assembler::CursorRender;
use luxo_core::assembler::CursorStatus;
use luxo_core::assembler::FrameMode;
use luxo_core::assembler::OutputElement;
use luxo_core::assembler::OutputRect;
use luxo_core::assembler::PointerElement;
use luxo_core::assembler::cursor_in_output;
use luxo_core::assembler::cursor_physical_position;
use luxo_core::assembler::frame_mode;
use luxo_core::assembler::output_elements;

#[test]
fn fullscreen_window_replaces_the_stack_over_transparent_clear() {
    let plan = output_elements(Some(42), &vec![7], &vec![1, 2, 3]);
    assert_eq!(
        plan.elements,
        vec![OutputElement::Overlay { element: 7 }, OutputElement::Window { window: 42 }]
    );
    assert_eq!(plan.clear_color, ClearColor::Transparent);
}

#[test]
fn normal_stack_follows_overlays_over_opaque_clear() {
    let plan = output_elements(None, &vec![7, 8], &vec![1, 2]);
    assert_eq!(
        plan.elements,
        vec![
            OutputElement::Overlay { element: 7 },
            OutputElement::Overlay { element: 8 },
            OutputElement::Space { window: 1 },
            OutputElement::Space { window: 2 },
        ]
    );
    assert_eq!(plan.clear_color, ClearColor::OpaqueNeutral);
}

#[test]
fn cursor_contributes_only_inside_the_output() {
    let geo = OutputRect { x: 1920, y: 0, w: 1920, h: 1080 };
    assert!(cursor_in_output(2000, 500, geo));
    assert!(!cursor_in_output(1919, 500, geo));
    assert!(!cursor_in_output(3840, 500, geo));
    assert!(!cursor_in_output(2000, 1080, geo));
}

#[test]
fn cursor_position_is_output_relative_hotspot_shifted_and_scaled() {
    let geo = OutputRect { x: 1920, y: 0, w: 1920, h: 1080 };
    let (px, py) = cursor_physical_position(2000, 500, geo, 5, 3, 2);
    assert_eq!(px, (2000 - 1920 - 5) * 2);
    assert_eq!(py, (500 - 0 - 3) * 2);
}

#[test]
fn hidden_cursor_contributes_nothing() {
    let mut p = PointerElement::default();
    p.set_buffer(9);
    p.set_status(CursorStatus::Hidden);
    assert_eq!(p.render_elements(), CursorRender::Nothing);
}

#[test]
fn named_cursor_draws_the_theme_buffer_once_loaded() {
    let mut p = PointerElement::default();
    assert_eq!(p.render_elements(), CursorRender::Nothing);
    p.set_buffer(9);
    assert_eq!(p.render_elements(), CursorRender::Buffer { buffer: 9 });
}

#[test]
fn surface_cursor_draws_the_client_surface() {
    let mut p = PointerElement::default();
    p.set_status(CursorStatus::Surface { surface: 4, hotspot_x: 1, hotspot_y: 2 });
    assert_eq!(p.render_elements(), CursorRender::Surface { surface: 4 });
}

#[test]
fn scanout_disable_flag_forces_composition() {
    assert_eq!(frame_mode(true), FrameMode::CompositeOnly);
    assert_eq!(frame_mode(false), FrameMode::AllPlanes);
}
