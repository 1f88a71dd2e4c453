use julia_set::palette::{map_color, Color, ColorScale, Rgba8};

fn px(r: u8, g: u8, b: u8, a: u8) -> Rgba8 {
    Rgba8 { r, g, b, a }
}

#[test]
fn soft_scale_exact_channels() {
    let pal = Color { r: 4, g: 1, b: 9 };
    // 5 * 4 * 250 / 50 = 100, 5 * 1 * 250 / 50 = 25, 5 * 9 * 250 / 50 = 225
    assert_eq!(map_color(5, &pal, 50, ColorScale::Soft), px(100, 25, 225, 250));
}

#[test]
fn full_scale_exact_channels() {
    let pal = Color { r: 4, g: 1, b: 9 };
    // 5 * 4 * 255 / 50 = 102, 1275 / 50 = 25, 11475 / 50 = 229
    assert_eq!(map_color(5, &pal, 50, ColorScale::Full), px(102, 25, 229, 255));
}

#[test]
fn channels_saturate_instead_of_wrapping() {
    let pal = Color { r: 4, g: 1, b: 9 };
    // 40 * 4 * 250 / 50 = 800 and 40 * 9 * 250 / 50 = 1800: both clamp to 255
    assert_eq!(map_color(40, &pal, 50, ColorScale::Soft), px(255, 200, 255, 250));
}

#[test]
fn huge_coefficients_do_not_overflow() {
    let pal = Color { r: u32::MAX, g: u32::MAX, b: 0 };
    assert_eq!(map_color(u32::MAX - 1, &pal, u32::MAX, ColorScale::Full), px(255, 255, 0, 255));
}

#[test]
fn max_iter_maps_to_inside_sentinel() {
    let pal = Color { r: 4, g: 1, b: 9 };
    assert_eq!(map_color(50, &pal, 50, ColorScale::Soft), px(0, 0, 0, 255));
    assert_eq!(map_color(50, &pal, 50, ColorScale::Full), px(0, 0, 0, 255));
}

#[test]
fn zero_count_is_dark_but_not_inside() {
    let pal = Color { r: 4, g: 1, b: 9 };
    assert_eq!(map_color(0, &pal, 50, ColorScale::Soft), px(0, 0, 0, 250));
}

#[test]
fn colors_never_darken_below_max_iter() {
    let pal = Color { r: 7, g: 3, b: 11 };
    let mut prev = map_color(0, &pal, 30, ColorScale::Full);
    for k in 1..30u32 {
        let cur = map_color(k, &pal, 30, ColorScale::Full);
        assert!(prev.r <= cur.r && prev.g <= cur.g && prev.b <= cur.b);
        assert_eq!(prev.a, cur.a);
        prev = cur;
    }
}

#[test]
fn scale_factors() {
    assert_eq!(ColorScale::Soft.factor(), 250);
    assert_eq!(ColorScale::Full.factor(), 255);
}
