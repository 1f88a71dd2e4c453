//! Splitting a raster's cells into contiguous spans, one per worker, and
//! assembling the raster from the counts that the workers computed.

use crate::config::{cell_count, RenderConfig};
use crate::palette::Color;
use crate::palette::ColorScale;
use crate::raster::{
    covered, field_cells, in_span, lemma_paint_order_free, paint_all, raster_cells, span_agrees,
    Raster,
};
use vstd::arithmetic::div_mod::{lemma_fundamental_div_mod, lemma_mod_pos_bound};
use vstd::arithmetic::mul::{lemma_mul_inequality, lemma_mul_is_distributive_sub};
use vstd::prelude::*;

verus! {

/// The cells `start .. end` of a raster, in row-major order.
#[derive(Clone, Copy, Debug, PartialEq, Eq, Structural)]
pub struct Span {
    pub start: usize,
    pub end: usize,
}

/// Number of cells in span `i` when `total` cells are split into `parts`
/// spans: the quotient, plus one for each of the first `total % parts`.
pub open spec fn share(total: nat, parts: nat, i: nat) -> nat {
    total / parts + if i < total % parts {
        1nat
    } else {
        0nat
    }
}

/// Spans that follow each other from 0 to `total` without gap or overlap.
pub open spec fn contiguous(spans: Seq<Span>, total: nat) -> bool {
    &&& spans.len() > 0
    &&& spans[0].start == 0
    &&& spans.last().end == total
    &&& forall|k: int| 0 <= k < spans.len() ==> #[trigger] spans[k].start <= spans[k].end
    &&& forall|k: int| 0 <= k < spans.len() - 1 ==> #[trigger] spans[k].end == spans[k + 1].start
}

/// Splits `total` cells into `parts` contiguous spans whose sizes differ by
/// at most one, the larger ones first.
pub fn partition(total: usize, parts: usize) -> (r: Vec<Span>)
    requires
        parts > 0,
    ensures
        r.len() == parts,
        contiguous(r@, total as nat),
        forall|k: int|
            0 <= k < parts ==> #[trigger] r@[k].end - r@[k].start == share(
                total as nat,
                parts as nat,
                k as nat,
            ),
{
    let q = total / parts;
    let rem = total % parts;
    proof {
        lemma_fundamental_div_mod(total as int, parts as int);
        lemma_mod_pos_bound(total as int, parts as int);
        lemma_mul_inequality(1, parts as int, q as int);
    }
    let mut spans: Vec<Span> = Vec::new();
    let mut start: usize = 0;
    let mut i: usize = 0;
    while i < parts
        invariant
            parts > 0,
            q == total / parts,
            rem == total % parts,
            rem < parts,
            rem > 0 ==> q < total,
            i <= parts,
            spans.len() == i,
            start as int + (parts - i) * q + (rem - if i < rem {
                i as int
            } else {
                rem as int
            }) == total,
            i == 0 ==> start == 0,
            i > 0 ==> spans@.last().end == start,
            forall|k: int| 0 <= k < i ==> #[trigger] spans@[k].start <= spans@[k].end,
            forall|k: int| 0 <= k < i - 1 ==> #[trigger] spans@[k].end == spans@[k + 1].start,
            i > 0 ==> spans@[0].start == 0,
            forall|k: int|
                0 <= k < i ==> #[trigger] spans@[k].end - spans@[k].start == share(
                    total as nat,
                    parts as nat,
                    k as nat,
                ),
        decreases parts - i,
    {
        let size: usize = if i < rem {
            q + 1
        } else {
            q
        };
        proof {
            lemma_mul_inequality(1, (parts - i) as int, q as int);
            lemma_mul_is_distributive_sub(q as int, (parts - i) as int, 1);
            assert((parts - i) * q == (parts - (i + 1)) * q + q) by (nonlinear_arith);
        }
        let end = start + size;
        spans.push(Span { start, end });
        start = end;
        i = i + 1;
    }
    assert((parts - i) * q == 0) by (nonlinear_arith)
        requires
            i == parts,
    ;
    spans
}

/// Contiguous spans from 0 to `total` leave no cell below `total` out.
proof fn lemma_contiguous_covers(spans: Seq<Span>, total: nat, i: int) -> (k: int)
    requires
        contiguous(spans, total),
        0 <= i < total,
    ensures
        0 <= k < spans.len(),
        spans[k].start <= i < spans[k].end,
    decreases spans.len(),
{
    let n = spans.len();
    if n == 1 {
        0
    } else {
        let init = spans.drop_last();
        if i < init.last().end {
            assert(init[n - 2] == spans[n - 2]);
            assert forall|k: int| 0 <= k < init.len() implies #[trigger] init[k].start <= init[k].end by {
                assert(init[k] == spans[k]);
            }
            assert forall|k: int| 0 <= k < init.len() - 1 implies #[trigger] init[k].end == init[k + 1].start by {
                assert(init[k] == spans[k]);
                assert(init[k + 1] == spans[k + 1]);
            }
            lemma_contiguous_covers(init, init.last().end as nat, i)
        } else {
            assert(spans[n - 2].end == spans[n - 1].start);
            n - 1
        }
    }
}

/// The painting plan: span `k` starts at `spans[k].start` and carries the
/// counts `parts[k]`.
pub open spec fn plan(spans: Seq<Span>, parts: Seq<Vec<u32>>) -> Seq<(int, Seq<u32>)> {
    Seq::new(spans.len(), |k: int| (spans[k].start as int, parts[k]@))
}

/// Assembles a raster from the counts computed span by span: `parts[k]`
/// holds the counts of the cells of `spans[k]`. The spans are painted in
/// order onto a blank raster.
pub fn paint_parts(cfg: &RenderConfig, palette: &Color, spans: &Vec<Span>, parts: &Vec<Vec<u32>>) -> (r: Raster)
    requires
        cfg.wf(),
        spans.len() == parts.len(),
        forall|k: int|
            0 <= k < spans.len() ==> #[trigger] spans@[k].start <= spans@[k].end && spans@[k].end
                <= cell_count(cfg.width as nat, cfg.height as nat),
        forall|k: int|
            0 <= k < spans.len() ==> #[trigger] parts@[k]@.len() == spans@[k].end - spans@[k].start,
    ensures
        r.fits(*cfg),
        raster_cells(r) == paint_all(
            Seq::new(
                cell_count(cfg.width as nat, cfg.height as nat),
                |i: int| (0u8, 0u8, 0u8, 0u8),
            ),
            plan(spans@, parts@),
            *palette,
            cfg.max_iter as nat,
            cfg.scale,
        ),
{
    let mut r = Raster::blank(cfg);
    let ghost blank = raster_cells(r);
    let mut k: usize = 0;
    while k < spans.len()
        invariant
            cfg.wf(),
            r.fits(*cfg),
            k <= spans.len(),
            spans.len() == parts.len(),
            forall|j: int|
                0 <= j < spans.len() ==> #[trigger] spans@[j].start <= spans@[j].end
                    && spans@[j].end <= cell_count(cfg.width as nat, cfg.height as nat),
            forall|j: int|
                0 <= j < spans.len() ==> #[trigger] parts@[j]@.len() == spans@[j].end
                    - spans@[j].start,
            blank == Seq::new(
                cell_count(cfg.width as nat, cfg.height as nat),
                |i: int| (0u8, 0u8, 0u8, 0u8),
            ),
            raster_cells(r) == paint_all(
                blank,
                plan(spans@, parts@).take(k as int),
                *palette,
                cfg.max_iter as nat,
                cfg.scale,
            ),
        decreases spans.len() - k,
    {
        let s = spans[k];
        assert(parts@[k as int]@.len() == spans@[k as int].end - spans@[k as int].start);
        r.paint_span(cfg, palette, s.start, &parts[k]);
        proof {
            let p = plan(spans@, parts@);
            assert(p.take(k + 1).drop_last() =~= p.take(k as int));
        }
        k = k + 1;
    }
    proof {
        let p = plan(spans@, parts@);
        assert(p.take(spans.len() as int) =~= p);
    }
    r
}

/// Spans that tile the raster contiguously, each carrying the field's own
/// counts, form a plan that covers every cell; so by
/// `lemma_paint_order_free` the assembled raster is the raster of the whole
/// field, however many spans there are.
pub proof fn lemma_plan_covers(spans: Seq<Span>, parts: Seq<Vec<u32>>, total: nat)
    requires
        contiguous(spans, total),
        spans.len() == parts.len(),
        forall|k: int| 0 <= k < spans.len() ==> #[trigger] parts[k]@.len() == spans[k].end - spans[k].start,
    ensures
        crate::raster::spans_cover(plan(spans, parts), total),
{
    let p = plan(spans, parts);
    assert forall|i: int| 0 <= i < total implies #[trigger] covered(p, i) by {
        let k = lemma_contiguous_covers(spans, total, i);
        assert(parts[k]@.len() == spans[k].end - spans[k].start);
        assert(in_span(p[k].0, p[k].1.len() as int, i));
    }
}

/// Whatever the number of workers, assembling a raster from contiguous
/// spans whose counts are the field's own gives the raster of the whole
/// field: `paint_parts` on any such split agrees with `render`.
pub proof fn lemma_split_independent(
    spans: Seq<Span>,
    parts: Seq<Vec<u32>>,
    field: Seq<u32>,
    palette: Color,
    max_iter: nat,
    scale: ColorScale,
)
    requires
        contiguous(spans, field.len()),
        spans.len() == parts.len(),
        forall|k: int|
            0 <= k < spans.len() ==> #[trigger] parts[k]@ == field.subrange(
                spans[k].start as int,
                spans[k].end as int,
            ),
    ensures
        paint_all(
            Seq::new(field.len(), |i: int| (0u8, 0u8, 0u8, 0u8)),
            plan(spans, parts),
            palette,
            max_iter,
            scale,
        ) == field_cells(field, palette, max_iter, scale),
{
    let p = plan(spans, parts);
    assert forall|k: int| 0 <= k < spans.len() implies spans[k].end <= field.len() by {
        lemma_contiguous_end_bound(spans, field.len(), k);
    }
    assert forall|k: int| 0 <= k < spans.len() implies #[trigger] parts[k]@.len() == spans[k].end
        - spans[k].start by {
        lemma_contiguous_end_bound(spans, field.len(), k);
    }
    assert forall|k: int| 0 <= k < p.len() implies span_agrees(#[trigger] p[k], field) by {
        lemma_contiguous_end_bound(spans, field.len(), k);
    }
    lemma_plan_covers(spans, parts, field.len());
    lemma_paint_order_free(
        Seq::new(field.len(), |i: int| (0u8, 0u8, 0u8, 0u8)),
        field,
        p,
        palette,
        max_iter,
        scale,
    );
}

/// No span of a contiguous split ends past its total.
proof fn lemma_contiguous_end_bound(spans: Seq<Span>, total: nat, k: int)
    requires
        contiguous(spans, total),
        0 <= k < spans.len(),
    ensures
        spans[k].end <= total,
    decreases spans.len() - k,
{
    if k < spans.len() - 1 {
        assert(spans[k].end == spans[k + 1].start);
        lemma_contiguous_end_bound(spans, total, k + 1);
    }
}

} // verus!
