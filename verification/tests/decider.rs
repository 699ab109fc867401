use braillify::binary32::{is_nan_bits, le_bits};
use braillify::dot::is_dot_on;

fn oklch_l_bits_of(r: u8, g: u8, b: u8) -> u32 {
    let lin = palette::Srgba::from([r, g, b, 255]).into_linear();
    let ok: palette::Oklcha = palette::IntoColor::into_color(lin);
    ok.l.to_bits()
}

#[test]
fn le_bits_agrees_with_hardware_comparison() {
    let samples: [f32; 12] = [
        0.0,
        -0.0,
        0.5,
        -0.5,
        1.0,
        -1.0,
        1.5e-42,
        -1.5e-42,
        f32::INFINITY,
        f32::NEG_INFINITY,
        f32::NAN,
        123456.75,
    ];
    for &a in samples.iter() {
        for &b in samples.iter() {
            assert_eq!(
                le_bits(a.to_bits(), b.to_bits()),
                a <= b,
                "le_bits disagreed on {} <= {}",
                a,
                b
            );
        }
    }
}

#[test]
fn nan_bits_recognized() {
    assert!(is_nan_bits(f32::NAN.to_bits()));
    assert!(!is_nan_bits(0.5f32.to_bits()));
    assert!(!is_nan_bits(f32::INFINITY.to_bits()));
}

#[test]
fn boundary_lightness_is_on_under_both_modes() {
    let l = oklch_l_bits_of(200, 100, 50);
    assert!(is_dot_on(l, l, false));
    assert!(is_dot_on(l, l, true));
}

#[test]
fn invert_flips_non_boundary_decisions() {
    let l = oklch_l_bits_of(200, 100, 50);
    let below = 0.01f32.to_bits();
    let above = 0.99f32.to_bits();
    for t in [below, above] {
        assert_eq!(is_dot_on(l, t, true), !is_dot_on(l, t, false));
    }
}

#[test]
fn white_is_lighter_than_half_threshold() {
    let l = oklch_l_bits_of(255, 255, 255);
    let t = 0.5f32.to_bits();
    assert!(is_dot_on(l, t, false));
    assert!(!is_dot_on(l, t, true));
    let dark = oklch_l_bits_of(0, 0, 0);
    assert!(!is_dot_on(dark, t, false));
    assert!(is_dot_on(dark, t, true));
}
