use julia_set::config::RenderConfig;
use julia_set::palette::{map_color, Color, ColorScale, Rgba8};
use julia_set::raster::{render, Raster};
use julia_set::schedule::{paint_parts, partition, Span};

fn cfg(w: u32, h: u32, max_iter: u32) -> RenderConfig {
    RenderConfig::new(w, h, max_iter, ColorScale::Soft).unwrap()
}

fn field(n: usize, max_iter: u32) -> Vec<u32> {
    (0..n).map(|i| ((i * 7 + 3) % (max_iter as usize + 1)) as u32).collect()
}

fn parts_for(spans: &[Span], field: &[u32]) -> Vec<Vec<u32>> {
    spans.iter().map(|s| field[s.start..s.end].to_vec()).collect()
}

#[test]
fn blank_raster_is_all_zero() {
    let c = cfg(3, 2, 10);
    let r = Raster::blank(&c);
    assert_eq!(r.to_bytes(), vec![0u8; 24]);
    assert_eq!(r.pixel_at(2, 1), Rgba8 { r: 0, g: 0, b: 0, a: 0 });
}

#[test]
fn render_places_each_count_row_major() {
    let c = cfg(3, 2, 10);
    let pal = Color { r: 4, g: 1, b: 9 };
    let counts = vec![0, 1, 2, 3, 4, 10];
    let r = render(&c, &pal, &counts);
    for y in 0..2u32 {
        for x in 0..3u32 {
            let k = counts[(y * 3 + x) as usize];
            assert_eq!(r.pixel_at(x, y), map_color(k, &pal, 10, ColorScale::Soft));
        }
    }
    // cell (1, 0): 1 * 4 * 250 / 10 = 100, 25, 225
    assert_eq!(r.pixel_at(1, 0), Rgba8 { r: 100, g: 25, b: 225, a: 250 });
    assert_eq!(r.pixel_at(2, 1), Rgba8 { r: 0, g: 0, b: 0, a: 255 });
}

#[test]
fn bytes_follow_cells() {
    let c = cfg(2, 1, 10);
    let pal = Color { r: 4, g: 1, b: 9 };
    let r = render(&c, &pal, &vec![1, 10]);
    assert_eq!(r.to_bytes(), vec![100, 25, 225, 250, 0, 0, 0, 255]);
}

#[test]
fn paint_span_leaves_other_cells() {
    let c = cfg(4, 1, 10);
    let pal = Color { r: 4, g: 1, b: 9 };
    let mut r = Raster::blank(&c);
    r.paint_span(&c, &pal, 1, &vec![1, 10]);
    assert_eq!(r.to_bytes(), vec![0, 0, 0, 0, 100, 25, 225, 250, 0, 0, 0, 255, 0, 0, 0, 0]);
}

#[test]
fn partition_balances_spans() {
    let s = partition(10, 3);
    assert_eq!(
        s,
        vec![Span { start: 0, end: 4 }, Span { start: 4, end: 7 }, Span { start: 7, end: 10 }]
    );
    let s = partition(2, 4);
    assert_eq!(
        s,
        vec![
            Span { start: 0, end: 1 },
            Span { start: 1, end: 2 },
            Span { start: 2, end: 2 },
            Span { start: 2, end: 2 }
        ]
    );
    assert_eq!(partition(0, 1), vec![Span { start: 0, end: 0 }]);
}

#[test]
fn raster_is_identical_for_any_worker_count() {
    let c = cfg(5, 4, 12);
    let pal = Color { r: 3, g: 8, b: 5 };
    let f = field(20, 12);
    let whole = render(&c, &pal, &f).to_bytes();
    for workers in 1..=25usize {
        let spans = partition(20, workers);
        let parts = parts_for(&spans, &f);
        assert_eq!(paint_parts(&c, &pal, &spans, &parts).to_bytes(), whole);
        // the same spans painted in reverse order
        let rev_spans: Vec<Span> = spans.iter().rev().cloned().collect();
        let rev_parts = parts_for(&rev_spans, &f);
        assert_eq!(paint_parts(&c, &pal, &rev_spans, &rev_parts).to_bytes(), whole);
    }
}
