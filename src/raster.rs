//! The raster of one frame, held in an `image::RgbaImage`, and the
//! order-free painting of it span by span.

use crate::config::{cell_count, RenderConfig};
use crate::palette::{color_of, map_color, Color, ColorScale, Rgba8};
use image::RgbaImage;
use vstd::arithmetic::div_mod::{lemma_fundamental_div_mod, lemma_mod_pos_bound, lemma_multiply_divide_lt};
use vstd::arithmetic::mul::lemma_mul_is_commutative;
use vstd::prelude::*;

verus! {

/// Channels of one cell as stored in an image: red, green, blue, alpha.
pub type Cell = (u8, u8, u8, u8);

/// The raster of one frame. Its cells live in an `image::RgbaImage`, whose
/// buffer stores them row by row, four bytes each.
#[verifier::external_body]
pub struct Raster {
    image: RgbaImage,
}

/// Width and height of a raster.
pub uninterp spec fn raster_dims(r: Raster) -> (nat, nat);

/// The cells of a raster in row-major order: cell `(x, y)` at `y * width + x`.
pub uninterp spec fn raster_cells(r: Raster) -> Seq<(u8, u8, u8, u8)>;

pub open spec fn cell_of(p: Rgba8) -> Cell {
    (p.r, p.g, p.b, p.a)
}

/// Byte `c` (0 red, 1 green, 2 blue, 3 alpha) of a cell.
pub open spec fn channel_byte(cell: Cell, c: int) -> u8 {
    if c == 0 {
        cell.0
    } else if c == 1 {
        cell.1
    } else if c == 2 {
        cell.2
    } else {
        cell.3
    }
}

/// The cells laid out as bytes, four per cell.
pub open spec fn cells_bytes(cells: Seq<Cell>) -> Seq<u8> {
    Seq::new(4 * cells.len(), |j: int| channel_byte(cells[j / 4], j % 4))
}

/// Relies on `ImageBuffer::new`: a `width` by `height` image whose bytes are
/// all zero. It panics when the byte count overflows `usize`.
#[verifier::external_body]
fn new_image(width: u32, height: u32) -> (r: Raster)
    requires
        4 * cell_count(width as nat, height as nat) <= usize::MAX,
    ensures
        raster_dims(r) == (width as nat, height as nat),
        raster_cells(r) == Seq::new(
            cell_count(width as nat, height as nat),
            |i: int| (0u8, 0u8, 0u8, 0u8),
        ),
{
    Raster { image: RgbaImage::new(width, height) }
}

/// Relies on `ImageBuffer::put_pixel`: overwrites the cell at `(x, y)`,
/// stored at `y * width + x`. It panics outside the image.
#[verifier::external_body]
fn put_pixel(r: &mut Raster, x: u32, y: u32, p: Rgba8)
    requires
        (x as nat) < raster_dims(*old(r)).0,
        (y as nat) < raster_dims(*old(r)).1,
    ensures
        raster_dims(*final(r)) == raster_dims(*old(r)),
        raster_cells(*final(r)) == raster_cells(*old(r)).update(
            y * raster_dims(*old(r)).0 + x,
            cell_of(p),
        ),
{
    r.image.put_pixel(x, y, image::Rgba([p.r, p.g, p.b, p.a]))
}

/// Relies on `ImageBuffer::get_pixel`: the cell at `(x, y)`, stored at
/// `y * width + x`. It panics outside the image.
#[verifier::external_body]
fn get_pixel(r: &Raster, x: u32, y: u32) -> (p: Rgba8)
    requires
        (x as nat) < raster_dims(*r).0,
        (y as nat) < raster_dims(*r).1,
    ensures
        cell_of(p) == raster_cells(*r)[y * raster_dims(*r).0 + x],
{
    let q = r.image.get_pixel(x, y);
    Rgba8 { r: q.0[0], g: q.0[1], b: q.0[2], a: q.0[3] }
}

/// Relies on `ImageBuffer::as_raw`: the buffer, four bytes per cell in
/// row-major order.
#[verifier::external_body]
fn raw_bytes(r: &Raster) -> (b: Vec<u8>)
    ensures
        b@ == cells_bytes(raster_cells(*r)),
{
    r.image.as_raw().clone()
}

/// The color cell of iteration count `k`.
pub open spec fn count_cell(k: u32, palette: Color, max_iter: nat, scale: ColorScale) -> Cell {
    cell_of(color_of(k as nat, palette, max_iter, scale))
}

/// The cells of a whole field of iteration counts, one per cell.
pub open spec fn field_cells(field: Seq<u32>, palette: Color, max_iter: nat, scale: ColorScale) -> Seq<Cell> {
    Seq::new(field.len(), |i: int| count_cell(field[i], palette, max_iter, scale))
}

/// Whether cell `i` lies in the span that starts at `start` and holds `len`
/// cells.
pub open spec fn in_span(start: int, len: int, i: int) -> bool {
    start <= i < start + len
}

/// `cells` with the span from `start` on recolored from `counts`; cells
/// outside the span keep their value.
pub open spec fn paint(
    cells: Seq<Cell>,
    start: int,
    counts: Seq<u32>,
    palette: Color,
    max_iter: nat,
    scale: ColorScale,
) -> Seq<Cell> {
    Seq::new(
        cells.len(),
        |i: int|
            if in_span(start, counts.len() as int, i) {
                count_cell(counts[i - start], palette, max_iter, scale)
            } else {
                cells[i]
            },
    )
}

proof fn lemma_cell_coords(idx: int, w: int, h: int)
    requires
        0 <= idx < w * h,
        0 < w,
    ensures
        0 <= idx % w < w,
        0 <= idx / w < h,
        (idx / w) * w + idx % w == idx,
{
    lemma_fundamental_div_mod(idx, w);
    lemma_mod_pos_bound(idx, w);
    lemma_multiply_divide_lt(idx, w, h);
    lemma_mul_is_commutative(w, idx / w);
}

impl Raster {
    /// As many cells as the dimensions say.
    pub open spec fn wf(&self) -> bool {
        raster_cells(*self).len() == cell_count(raster_dims(*self).0, raster_dims(*self).1)
    }

    /// Well formed, with the dimensions of `cfg`.
    pub open spec fn fits(&self, cfg: RenderConfig) -> bool {
        &&& self.wf()
        &&& raster_dims(*self) == (cfg.width as nat, cfg.height as nat)
    }

    /// A raster of the configured size with every byte zero.
    pub fn blank(cfg: &RenderConfig) -> (r: Raster)
        requires
            cfg.wf(),
        ensures
            r.fits(*cfg),
            raster_cells(r) == Seq::new(
                cell_count(cfg.width as nat, cfg.height as nat),
                |i: int| (0u8, 0u8, 0u8, 0u8),
            ),
    {
        new_image(cfg.width, cfg.height)
    }

    /// The color at `(x, y)`.
    pub fn pixel_at(&self, x: u32, y: u32) -> (p: Rgba8)
        requires
            self.wf(),
            (x as nat) < raster_dims(*self).0,
            (y as nat) < raster_dims(*self).1,
        ensures
            cell_of(p) == raster_cells(*self)[y * raster_dims(*self).0 + x],
    {
        get_pixel(self, x, y)
    }

    /// The cells as bytes, red, green, blue and alpha for each, row by row.
    pub fn to_bytes(&self) -> (b: Vec<u8>)
        ensures
            b@ == cells_bytes(raster_cells(*self)),
    {
        raw_bytes(self)
    }

    /// Colors the `counts.len()` cells from index `start` on (row-major),
    /// cell `start + j` from `counts[j]`; every other cell is left as it was.
    pub fn paint_span(&mut self, cfg: &RenderConfig, palette: &Color, start: usize, counts: &Vec<u32>)
        requires
            cfg.wf(),
            old(self).fits(*cfg),
            start + counts.len() <= cell_count(cfg.width as nat, cfg.height as nat),
        ensures
            final(self).fits(*cfg),
            raster_cells(*final(self)) == paint(
                raster_cells(*old(self)),
                start as int,
                counts@,
                *palette,
                cfg.max_iter as nat,
                cfg.scale,
            ),
    {
        let ghost before = raster_cells(*self);
        let w = cfg.width as usize;
        let mut i: usize = 0;
        while i < counts.len()
            invariant
                cfg.wf(),
                self.fits(*cfg),
                w == cfg.width,
                start + counts.len() <= cell_count(cfg.width as nat, cfg.height as nat),
                i <= counts.len(),
                before.len() == cell_count(cfg.width as nat, cfg.height as nat),
                raster_cells(*self) == paint(
                    before,
                    start as int,
                    counts@.take(i as int),
                    *palette,
                    cfg.max_iter as nat,
                    cfg.scale,
                ),
            decreases counts.len() - i,
        {
            let idx = start + i;
            proof {
                lemma_cell_coords(idx as int, w as int, cfg.height as int);
            }
            let x = (idx % w) as u32;
            let y = (idx / w) as u32;
            let p = map_color(counts[i], palette, cfg.max_iter, cfg.scale);
            put_pixel(self, x, y, p);
            i = i + 1;
            proof {
                assert(raster_cells(*self) =~= paint(
                    before,
                    start as int,
                    counts@.take(i as int),
                    *palette,
                    cfg.max_iter as nat,
                    cfg.scale,
                ));
            }
        }
        proof {
            assert(counts@.take(counts.len() as int) =~= counts@);
        }
    }
}

/// The raster whose cell `i` (row-major) is colored from `counts[i]`.
pub fn render(cfg: &RenderConfig, palette: &Color, counts: &Vec<u32>) -> (r: Raster)
    requires
        cfg.wf(),
        counts.len() == cell_count(cfg.width as nat, cfg.height as nat),
    ensures
        r.fits(*cfg),
        raster_cells(r) == field_cells(counts@, *palette, cfg.max_iter as nat, cfg.scale),
{
    let mut r = Raster::blank(cfg);
    r.paint_span(cfg, palette, 0, counts);
    proof {
        assert(raster_cells(r) =~= field_cells(counts@, *palette, cfg.max_iter as nat, cfg.scale));
    }
    r
}

/// Paints the spans `(start, counts)` one after another, in sequence order.
pub open spec fn paint_all(
    cells: Seq<Cell>,
    spans: Seq<(int, Seq<u32>)>,
    palette: Color,
    max_iter: nat,
    scale: ColorScale,
) -> Seq<Cell>
    decreases spans.len(),
{
    if spans.len() == 0 {
        cells
    } else {
        paint(
            paint_all(cells, spans.drop_last(), palette, max_iter, scale),
            spans.last().0,
            spans.last().1,
            palette,
            max_iter,
            scale,
        )
    }
}

/// The counts of a span are those of `field` at the span's cells.
pub open spec fn span_agrees(span: (int, Seq<u32>), field: Seq<u32>) -> bool {
    &&& 0 <= span.0
    &&& span.0 + span.1.len() <= field.len()
    &&& forall|j: int| 0 <= j < span.1.len() ==> span.1[j] == field[span.0 + j]
}

/// Cell `i` lies in some span.
pub open spec fn covered(spans: Seq<(int, Seq<u32>)>, i: int) -> bool {
    exists|k: int| 0 <= k < spans.len() && #[trigger] in_span(spans[k].0, spans[k].1.len() as int, i)
}

/// Every cell below `n` lies in some span.
pub open spec fn spans_cover(spans: Seq<(int, Seq<u32>)>, n: nat) -> bool {
    forall|i: int| 0 <= i < n ==> #[trigger] covered(spans, i)
}

proof fn lemma_paint_all_covered(
    cells: Seq<Cell>,
    field: Seq<u32>,
    spans: Seq<(int, Seq<u32>)>,
    palette: Color,
    max_iter: nat,
    scale: ColorScale,
)
    requires
        cells.len() == field.len(),
        forall|k: int| 0 <= k < spans.len() ==> span_agrees(#[trigger] spans[k], field),
    ensures
        paint_all(cells, spans, palette, max_iter, scale).len() == cells.len(),
        forall|i: int, k: int|
            0 <= i < cells.len() && 0 <= k < spans.len() && #[trigger] in_span(
                spans[k].0,
                spans[k].1.len() as int,
                i,
            ) ==> paint_all(cells, spans, palette, max_iter, scale)[i] == count_cell(
                field[i],
                palette,
                max_iter,
                scale,
            ),
    decreases spans.len(),
{
    if spans.len() > 0 {
        let init = spans.drop_last();
        assert forall|k: int| 0 <= k < init.len() implies span_agrees(#[trigger] init[k], field) by {
            assert(init[k] == spans[k]);
        }
        lemma_paint_all_covered(cells, field, init, palette, max_iter, scale);
        let last = spans.last();
        assert(span_agrees(spans[spans.len() - 1], field));
        assert forall|i: int, k: int|
            0 <= i < cells.len() && 0 <= k < spans.len() && #[trigger] in_span(
                spans[k].0,
                spans[k].1.len() as int,
                i,
            ) implies paint_all(cells, spans, palette, max_iter, scale)[i] == count_cell(
            field[i],
            palette,
            max_iter,
            scale,
        ) by {
            if !in_span(last.0, last.1.len() as int, i) {
                assert(k != spans.len() - 1);
                assert(init[k] == spans[k]);
                assert(in_span(init[k].0, init[k].1.len() as int, i));
            }
        }
    }
}

/// Painting is independent of how the field is split and in which order
/// the parts are applied: any sequence of spans that each carry the field's
/// own counts and that together cover every cell paints the same cells as
/// the whole field at once, whatever the starting cells. So the raster does
/// not depend on the number of workers nor on the order they finish in.
pub proof fn lemma_paint_order_free(
    cells: Seq<Cell>,
    field: Seq<u32>,
    spans: Seq<(int, Seq<u32>)>,
    palette: Color,
    max_iter: nat,
    scale: ColorScale,
)
    requires
        cells.len() == field.len(),
        forall|k: int| 0 <= k < spans.len() ==> span_agrees(#[trigger] spans[k], field),
        spans_cover(spans, field.len()),
    ensures
        paint_all(cells, spans, palette, max_iter, scale) == field_cells(
            field,
            palette,
            max_iter,
            scale,
        ),
{
    lemma_paint_all_covered(cells, field, spans, palette, max_iter, scale);
    let painted = paint_all(cells, spans, palette, max_iter, scale);
    assert forall|i: int| 0 <= i < field.len() implies painted[i] == field_cells(
        field,
        palette,
        max_iter,
        scale,
    )[i] by {
        assert(covered(spans, i));
    }
    assert(painted =~= field_cells(field, palette, max_iter, scale));
}

} // verus!
