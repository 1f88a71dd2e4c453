use julia_set::config::{ConfigError, RenderConfig};
use julia_set::palette::ColorScale;

#[test]
fn accepts_positive_sizes() {
    let c = RenderConfig::new(800, 600, 50, ColorScale::Soft).unwrap();
    assert_eq!(c.width, 800);
    assert_eq!(c.height, 600);
    assert_eq!(c.max_iter, 50);
    assert_eq!(c.cells(), 480_000);
}

#[test]
fn rejects_zero_width() {
    assert_eq!(RenderConfig::new(0, 0, 0, ColorScale::Soft), Err(ConfigError::ZeroWidth));
}

#[test]
fn rejects_zero_height() {
    assert_eq!(RenderConfig::new(4, 0, 0, ColorScale::Soft), Err(ConfigError::ZeroHeight));
}

#[test]
fn rejects_zero_max_iter() {
    assert_eq!(RenderConfig::new(4, 4, 0, ColorScale::Full), Err(ConfigError::ZeroMaxIter));
}

#[test]
fn rejects_raster_too_large() {
    let r = RenderConfig::new(u32::MAX, u32::MAX, 10, ColorScale::Full);
    if (usize::MAX / 4) as u128 >= (u32::MAX as u128) * (u32::MAX as u128) {
        assert!(r.is_ok());
    } else {
        assert_eq!(r, Err(ConfigError::RasterTooLarge));
    }
}
