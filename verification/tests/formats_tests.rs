use luxo_core::formats::Format;
use luxo_core::formats::allocator_color_codes;
use luxo_core::formats::format_intersection;
use luxo_core::formats::format_union;
use luxo_core::formats::surface_dmabuf_feedback;

fn fmt(code: u32, modifier: u64) -> Format {
    Format { code, modifier }
}

#[test]
fn union_and_intersection_behave_as_sets() {
    let a = vec![fmt(1, 0), fmt(2, 0), fmt(1, 0)];
    let b = vec![fmt(2, 0), fmt(3, 0)];
    let u = format_union(&a, &b);
    assert_eq!(u, vec![fmt(1, 0), fmt(2, 0), fmt(3, 0)]);
    let i = format_intersection(&a, &b);
    assert_eq!(i, vec![fmt(2, 0)]);
}

#[test]
fn modifiers_distinguish_formats() {
    // The same fourcc code under two layout modifiers is two formats.
    let a = vec![fmt(1, 0), fmt(1, 7)];
    let b = vec![fmt(1, 7)];
    assert_eq!(format_intersection(&a, &b), vec![fmt(1, 7)]);
}

#[test]
fn scanout_tranche_is_planes_intersected_with_render_capable_union() {
    let primary = vec![fmt(1, 0), fmt(2, 0)];
    let render = vec![fmt(2, 0), fmt(3, 0)];
    let planes = vec![fmt(2, 0), fmt(3, 0), fmt(4, 0)];
    let fb = surface_dmabuf_feedback(&primary, &render, &planes);
    assert_eq!(fb.render_feedback, render);
    // fmt 4 is scanout-capable but no GPU can render it: excluded, so a
    // render fallback always exists for every scanout format.
    assert_eq!(fb.scanout_feedback, vec![fmt(2, 0), fmt(3, 0)]);
    for f in &fb.scanout_feedback {
        assert!(fb.render_feedback.contains(f) || planes.contains(f));
        assert!(primary.contains(f) || render.contains(f));
    }
}

#[test]
fn empty_plane_set_gives_empty_scanout_tranche() {
    let fb = surface_dmabuf_feedback(&vec![fmt(1, 0)], &vec![fmt(1, 0)], &vec![]);
    assert_eq!(fb.scanout_feedback, Vec::<Format>::new());
}

#[test]
fn allocator_codes_follow_the_ten_bit_switch() {
    // "AB30", "AR30", "AB24", "AR24" as little-endian fourcc codes.
    let ab30 = u32::from_le_bytes(*b"AB30");
    let ar30 = u32::from_le_bytes(*b"AR30");
    let ab24 = u32::from_le_bytes(*b"AB24");
    let ar24 = u32::from_le_bytes(*b"AR24");
    assert_eq!(allocator_color_codes(true), vec![ab30, ar30, ab24, ar24]);
    assert_eq!(allocator_color_codes(false), vec![ab24, ar24]);
}
