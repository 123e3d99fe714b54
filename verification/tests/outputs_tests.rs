use luxo_core::outputs::FullscreenSurface;
use luxo_core::outputs::Mode;
use luxo_core::outputs::name_or_unknown;
use luxo_core::outputs::next_output_x;
use luxo_core::outputs::output_name;
use luxo_core::outputs::pick_mode;
use luxo_core::outputs::u32_decimal;

fn mode(width: u16, refresh_mhz: u32, preferred: bool) -> Mode {
    Mode { width, height: 1080, refresh_mhz, preferred }
}

#[test]
fn kernel_preferred_mode_wins() {
    let modes = vec![mode(1280, 60_000, false), mode(1920, 60_000, true), mode(3840, 30_000, true)];
    assert_eq!(pick_mode(&modes), Some(mode(1920, 60_000, true)));
}

#[test]
fn first_mode_is_the_fallback() {
    let modes = vec![mode(1280, 60_000, false), mode(1920, 60_000, false)];
    assert_eq!(pick_mode(&modes), Some(mode(1280, 60_000, false)));
    assert_eq!(pick_mode(&vec![]), None);
}

#[test]
fn decimal_spelling() {
    assert_eq!(u32_decimal(0).as_str(), "0");
    assert_eq!(u32_decimal(7).as_str(), "7");
    assert_eq!(u32_decimal(42).as_str(), "42");
    assert_eq!(u32_decimal(4294967295).as_str(), "4294967295");
}

#[test]
fn output_names_join_interface_and_index() {
    assert_eq!(output_name("HDMI-A", 1).as_str(), "HDMI-A-1");
    assert_eq!(output_name("DP", 12).as_str(), "DP-12");
}

#[test]
fn missing_display_identification_defaults_to_unknown() {
    assert_eq!(name_or_unknown(None).as_str(), "Unknown");
    assert_eq!(name_or_unknown(Some(String::from("ACME"))).as_str(), "ACME");
}

#[test]
fn placement_sums_existing_widths() {
    assert_eq!(next_output_x(&vec![]), 0);
    assert_eq!(next_output_x(&vec![1920, 2560]), 4480);
}

#[test]
fn fullscreen_designation_is_set_read_and_cleared() {
    let mut f = FullscreenSurface::default();
    assert_eq!(f.get(), None);
    f.set(5);
    assert_eq!(f.get(), Some(5));
    // A new designation supersedes the old one.
    f.set(6);
    assert_eq!(f.get(), Some(6));
    assert_eq!(f.clear(), Some(6));
    assert_eq!(f.get(), None);
    assert_eq!(f.clear(), None);
}
