//! The per-frame pipeline: the shape phase, which resolves every dirty line
//! into shaped styled runs while reusing cached glyphs for unchanged runs,
//! and the paint phase, which composites one frame as an ordered list of
//! drawing commands.

use vstd::prelude::*;
use crate::ui_model::{Attrs, Cell, Line, StyledRun, GlyphPos, UiModel};
use crate::context::{FontContext, CellMetrics, RunDesc, desc_of, descs, items_of, item_valid,
    lemma_items_partition, lemma_items_content, shaped_glyphs};
use crate::color::{Color, ColorModel, Mode};

verus! {

/// No cell of `[start, start+len)` is dirty.
pub open spec fn spec_span_clean(cells: Seq<Cell>, start: int, len: int) -> bool {
    forall|c: int| start <= c < start + len ==> !(#[trigger] cells[c]).dirty
}

/// An already-shaped run that coincides with the described one.
pub open spec fn run_matches_desc(r: StyledRun, d: RunDesc) -> bool {
    desc_of(r) == d && r.glyphs is Some
}

/// The described run can reuse a cached glyph sequence: some shaped run of
/// the old line coincides with it and none of its cells changed.
pub open spec fn cached_ok(oldl: Line, d: RunDesc) -> bool {
    exists|j: int|
        0 <= j < oldl.runs@.len() && run_matches_desc(#[trigger] oldl.runs@[j], d)
            && spec_span_clean(oldl.cells@, d.start, d.len)
}

/// Characters and attributes agree position by position, and no new cell is
/// dirty.
pub open spec fn cell_content_kept(oldc: Seq<Cell>, newc: Seq<Cell>) -> bool {
    &&& newc.len() == oldc.len()
    &&& forall|i: int|
        0 <= i < newc.len() ==> (#[trigger] newc[i]).ch == oldc[i].ch && newc[i].attrs
            == oldc[i].attrs && !newc[i].dirty
}

/// The run index is exactly the inverse of run coverage: a column points at
/// the run covering it, and a column of no run points at nothing.
pub open spec fn item_line_matches(l: Line) -> bool {
    &&& forall|c: int|
        0 <= c < l.item_line@.len() && (#[trigger] l.item_line@[c]) is Some ==> l.item_line@[c]->0
            < l.runs@.len() && l.runs@[l.item_line@[c]->0 as int].covers(c)
    &&& forall|c: int, k: int|
        0 <= c < l.item_line@.len() && 0 <= k < l.runs@.len() && (#[trigger] l.runs@[k].covers(c))
            ==> l.item_line@[c] == Some(k as usize)
}

/// Every cached glyph sequence over clean cells is the shaping of its span:
/// the run index is never stale where no cell is dirty.
pub open spec fn line_glyphs_valid(l: Line, cw: int) -> bool {
    forall|j: int|
        0 <= j < l.runs@.len() && (#[trigger] l.runs@[j]).glyphs is Some && spec_span_clean(
            l.cells@,
            l.runs@[j].start as int,
            l.runs@[j].len as int,
        ) ==> l.runs@[j].glyphs->0@ == shaped_glyphs(
            l.cells@,
            l.runs@[j].start as int,
            l.runs@[j].len as int,
            cw,
        )
}

/// What one pass of the shape phase does to a dirty line: cell content is
/// kept but every dirty bit is cleared; the runs become exactly the line's
/// styled-run partition, each shaped; a run whose span did not change keeps
/// its previous glyph sequence unchanged, and every other run is shaped
/// afresh.
pub open spec fn shapes_line(oldl: Line, newl: Line, cw: int) -> bool {
    let items = items_of(oldl.cells@);
    &&& newl.wf()
    &&& cell_content_kept(oldl.cells@, newl.cells@)
    &&& !newl.dirty_line
    &&& descs(newl.runs@) == items
    &&& forall|k: int| 0 <= k < newl.runs@.len() ==> (#[trigger] newl.runs@[k]).glyphs is Some
    &&& item_line_matches(newl)
    &&& forall|k: int, j: int|
        0 <= k < items.len() && 0 <= j < oldl.runs@.len() && run_matches_desc(
            #[trigger] oldl.runs@[j],
            #[trigger] items[k],
        ) && spec_span_clean(oldl.cells@, items[k].start, items[k].len) ==> newl.runs@[k].glyphs->0@
            == oldl.runs@[j].glyphs->0@
    &&& forall|k: int|
        0 <= k < items.len() && !cached_ok(oldl, #[trigger] items[k]) ==> newl.runs@[k].glyphs->0@
            == shaped_glyphs(oldl.cells@, items[k].start, items[k].len, cw)
}

/// Whether every cell of the span is unchanged since the last shape pass.
fn is_span_clean(cells: &Vec<Cell>, start: usize, len: usize) -> (r: bool)
    requires
        start + len <= cells@.len(),
    ensures
        r == spec_span_clean(cells@, start as int, len as int),
{
    let total = cells.len();
    let mut c: usize = 0;
    while c < len
        invariant
            c <= len,
            total == cells@.len(),
            start + len <= total,
            forall|cc: int| start <= cc < start + c ==> !(#[trigger] cells@[cc]).dirty,
        decreases len - c,
    {
        if cells[start + c].dirty {
            return false;
        }
        c += 1;
    }
    true
}

/// Duplicate a glyph sequence.
fn copy_glyphs(v: &Vec<GlyphPos>) -> (r: Vec<GlyphPos>)
    ensures
        r@ == v@,
{
    let mut r: Vec<GlyphPos> = Vec::new();
    let mut i: usize = 0;
    while i < v.len()
        invariant
            i <= v@.len(),
            r@ == v@.take(i as int),
        decreases v@.len() - i,
    {
        r.push(v[i]);
        proof {
            assert(r@ =~= v@.take(i + 1));
        }
        i += 1;
    }
    proof {
        assert(v@.take(v@.len() as int) =~= v@);
    }
    r
}

/// Look up a cached glyph sequence for the described run: a shaped run of
/// the old arena with the same span and attributes, over clean cells.
fn find_cached(runs: &Vec<StyledRun>, cells: &Vec<Cell>, start: usize, len: usize, a: Attrs) -> (r:
    Option<Vec<GlyphPos>>)
    requires
        start + len <= cells@.len(),
    ensures
        r is Some ==> spec_span_clean(cells@, start as int, len as int) && exists|j: int|
            0 <= j < runs@.len() && run_matches_desc(
                #[trigger] runs@[j],
                RunDesc { start: start as int, len: len as int, attrs: a },
            ) && r->0@ == runs@[j].glyphs->0@,
        r is None ==> forall|j: int|
            0 <= j < runs@.len() ==> !(run_matches_desc(
                #[trigger] runs@[j],
                RunDesc { start: start as int, len: len as int, attrs: a },
            ) && spec_span_clean(cells@, start as int, len as int)),
{
    let ghost d = RunDesc { start: start as int, len: len as int, attrs: a };
    let mut j: usize = 0;
    while j < runs.len()
        invariant
            j <= runs@.len(),
            start + len <= cells@.len(),
            d == (RunDesc { start: start as int, len: len as int, attrs: a }),
            forall|jj: int|
                0 <= jj < j ==> !(run_matches_desc(#[trigger] runs@[jj], d) && spec_span_clean(
                    cells@,
                    start as int,
                    len as int,
                )),
        decreases runs@.len() - j,
    {
        if runs[j].start == start && runs[j].len == len && runs[j].attrs == a {
            match &runs[j].glyphs {
                Option::Some(g) => {
                    if is_span_clean(cells, start, len) {
                        let copied = copy_glyphs(g);
                        return Option::Some(copied);
                    }
                },
                Option::None => {},
            }
        }
        j += 1;
    }
    Option::None
}

/// Shape one dirty line: re-itemize it, reuse the cached glyph sequence of
/// every run whose cells did not change, shape the rest, rebuild the run
/// index, and clear all dirtiness.
pub fn shape_line(ctx: &mut FontContext, line: &mut Line)
    requires
        old(line).wf(),
        old(line).cells@.len() * old(ctx).metrics.char_width <= u64::MAX,
    ensures
        shapes_line(*old(line), *final(line), old(ctx).metrics.char_width as int),
        final(ctx).metrics == old(ctx).metrics,
        old(ctx).shape_calls <= final(ctx).shape_calls,
        (forall|k: int|
            0 <= k < items_of(old(line).cells@).len() ==> cached_ok(
                *old(line),
                #[trigger] items_of(old(line).cells@)[k],
            )) ==> final(ctx).shape_calls == old(ctx).shape_calls,
{
    let ghost oldl = *line;
    let ghost items = items_of(oldl.cells@);
    let ghost cw = ctx.metrics.char_width as int;
    proof {
        lemma_items_partition(oldl.cells@);
        assert forall|kk: int| 0 <= kk < items.len() implies item_valid(
            oldl.cells@,
            #[trigger] items[kk],
        ) by {
            assert(item_valid(oldl.cells@, items_of(oldl.cells@)[kk]));
        }
        assert forall|j: int, kk: int| 0 <= j < kk < items.len() implies (
        #[trigger] items[j]).start + items[j].len <= (#[trigger] items[kk]).start by {
            assert(items_of(oldl.cells@)[j] == items[j]);
            assert(items_of(oldl.cells@)[kk] == items[kk]);
        }
    }
    let new_items = ctx.itemize(&line.cells);
    proof {
        assert(descs(new_items@).len() == new_items@.len());
    }

    // Merge: keep the glyphs of every run that survives unchanged.
    let mut new_runs: Vec<StyledRun> = Vec::new();
    let mut k: usize = 0;
    while k < new_items.len()
        invariant
            *line == oldl,
            oldl.wf(),
            k <= new_items@.len(),
            descs(new_items@) == items,
            items == items_of(oldl.cells@),
            new_runs@.len() == k,
            items.len() == new_items@.len(),
            forall|kk: int|
                0 <= kk < items.len() ==> item_valid(oldl.cells@, #[trigger] items[kk]),
            forall|kk: int| 0 <= kk < k ==> desc_of(#[trigger] new_runs@[kk]) == items[kk],
            forall|kk: int|
                0 <= kk < k ==> (cached_ok(oldl, items[kk]) <==> (
                #[trigger] new_runs@[kk]).glyphs is Some),
            forall|kk: int, j: int|
                0 <= kk < k && 0 <= j < oldl.runs@.len() && run_matches_desc(
                    #[trigger] oldl.runs@[j],
                    #[trigger] items[kk],
                ) && spec_span_clean(oldl.cells@, items[kk].start, items[kk].len)
                    ==> new_runs@[kk].glyphs is Some && new_runs@[kk].glyphs->0@
                    == oldl.runs@[j].glyphs->0@,
        decreases new_items@.len() - k,
    {
        let start = new_items[k].start;
        let len = new_items[k].len;
        let a = new_items[k].attrs;
        proof {
            assert(desc_of(new_items@[k as int]) == items[k as int]);
            assert(item_valid(oldl.cells@, items[k as int]));
        }
        let cached = find_cached(&line.runs, &line.cells, start, len, a);
        let ghost was_cached = cached is Some;
        match cached {
            Option::Some(g) => {
                new_runs.push(StyledRun { start, len, attrs: a, glyphs: Option::Some(g) });
            },
            Option::None => {
                new_runs.push(StyledRun { start, len, attrs: a, glyphs: Option::None });
            },
        }
        proof {
            let d = items[k as int];
            if was_cached {
                assert(cached_ok(oldl, d));
            } else {
                assert(!cached_ok(oldl, d)) by {
                    if cached_ok(oldl, d) {
                        let j = choose|j: int|
                            0 <= j < oldl.runs@.len() && run_matches_desc(
                                #[trigger] oldl.runs@[j],
                                d,
                            ) && spec_span_clean(oldl.cells@, d.start, d.len);
                        assert(false);
                    }
                }
            }
            // at most one old run has this start, so any match is the found one
            assert forall|j: int|
                0 <= j < oldl.runs@.len() && run_matches_desc(#[trigger] oldl.runs@[j], d)
                    && spec_span_clean(oldl.cells@, d.start, d.len) implies new_runs@[k as int].glyphs
                is Some && new_runs@[k as int].glyphs->0@ == oldl.runs@[j].glyphs->0@ by {
                assert(cached_ok(oldl, d));
                let j0 = choose|j0: int|
                    0 <= j0 < oldl.runs@.len() && run_matches_desc(#[trigger] oldl.runs@[j0], d)
                        && new_runs@[k as int].glyphs->0@ == oldl.runs@[j0].glyphs->0@;
                assert(oldl.runs@[j].start == oldl.runs@[j0].start);
                assert(j == j0);
            }
        }
        k += 1;
    }

    line.runs = new_runs;

    // Rebuild the run index from the new partition.
    let cols = line.cells.len();
    let mut il: Vec<Option<usize>> = Vec::new();
    let mut c: usize = 0;
    while c < cols
        invariant
            c <= cols,
            il@.len() == c,
            forall|cc: int| 0 <= cc < c ==> (#[trigger] il@[cc]) is None,
        decreases cols - c,
    {
        il.push(Option::None);
        c += 1;
    }
    line.item_line = il;

    let ghost runs0 = line.runs@;
    proof {
        // the new runs are pairwise disjoint, from the ordering of the partition
        assert forall|kk1: int, kk2: int, cc: int|
            0 <= kk1 < runs0.len() && 0 <= kk2 < runs0.len() && kk1 != kk2 && (
            #[trigger] runs0[kk1]).covers(cc) implies !(#[trigger] runs0[kk2].covers(cc)) by {
            assert(desc_of(runs0[kk1]) == items[kk1]);
            assert(desc_of(runs0[kk2]) == items[kk2]);
            if kk1 < kk2 {
                assert(items[kk1].start + items[kk1].len <= items[kk2].start);
            } else {
                assert(items[kk2].start + items[kk2].len <= items[kk1].start);
            }
        }
    }
    let mut k2: usize = 0;
    while k2 < line.runs.len()
        invariant
            k2 <= runs0.len(),
            line.runs@ == runs0,
            line.cells == oldl.cells,
            line.dirty_line == oldl.dirty_line,
            oldl.wf(),
            cols == oldl.cells@.len(),
            line.item_line@.len() == cols,
            forall|kk: int| 0 <= kk < runs0.len() ==> desc_of(#[trigger] runs0[kk]) == items[kk],
            forall|kk: int| 0 <= kk < runs0.len() ==> item_valid(oldl.cells@, items[kk]),
            forall|kk1: int, kk2: int, cc: int|
                0 <= kk1 < runs0.len() && 0 <= kk2 < runs0.len() && kk1 != kk2 && (
                #[trigger] runs0[kk1]).covers(cc) ==> !(#[trigger] runs0[kk2].covers(cc)),
            forall|cc: int, kk: int|
                0 <= cc < cols && 0 <= kk < k2 && (#[trigger] runs0[kk].covers(cc))
                    ==> line.item_line@[cc] == Some(kk as usize),
            forall|cc: int|
                0 <= cc < cols && (#[trigger] line.item_line@[cc]) is Some ==> line.item_line@[cc]->0
                    < k2 && runs0[line.item_line@[cc]->0 as int].covers(cc),
        decreases runs0.len() - k2,
    {
        let start = line.runs[k2].start;
        let rl = line.runs[k2].len;
        proof {
            assert(desc_of(runs0[k2 as int]) == items[k2 as int]);
            assert(item_valid(oldl.cells@, items[k2 as int]));
        }
        let mut c2: usize = start;
        while c2 < start + rl
            invariant
                k2 < runs0.len(),
                start == runs0[k2 as int].start,
                rl == runs0[k2 as int].len,
                start <= c2 <= start + rl,
                start + rl <= cols,
                line.runs@ == runs0,
                line.cells == oldl.cells,
                line.dirty_line == oldl.dirty_line,
                line.item_line@.len() == cols,
                forall|kk1: int, kk2: int, cc: int|
                    0 <= kk1 < runs0.len() && 0 <= kk2 < runs0.len() && kk1 != kk2 && (
                    #[trigger] runs0[kk1]).covers(cc) ==> !(#[trigger] runs0[kk2].covers(cc)),
                forall|cc: int, kk: int|
                    0 <= cc < cols && 0 <= kk < k2 && (#[trigger] runs0[kk].covers(cc))
                        ==> line.item_line@[cc] == Some(kk as usize),
                forall|cc: int|
                    start <= cc < c2 ==> (#[trigger] line.item_line@[cc]) == Some(k2 as usize),
                forall|cc: int|
                    0 <= cc < cols && (#[trigger] line.item_line@[cc]) is Some ==> (
                    line.item_line@[cc]->0 < k2 && runs0[line.item_line@[cc]->0 as int].covers(cc))
                        || (line.item_line@[cc]->0 == k2 && start <= cc < c2),
            decreases start + rl - c2,
        {
            line.item_line[c2] = Option::Some(k2);
            c2 += 1;
        }
        k2 += 1;
    }

    // Shape every run that has no cached glyphs.
    let ghost il0 = line.item_line@;
    let total = line.cells.len();
    let mut k3: usize = 0;
    while k3 < line.runs.len()
        invariant
            k3 <= runs0.len(),
            line.runs@.len() == runs0.len(),
            line.cells == oldl.cells,
            line.item_line@ == il0,
            line.dirty_line == oldl.dirty_line,
            oldl.wf(),
            total == oldl.cells@.len(),
            total * ctx.metrics.char_width <= u64::MAX,
            ctx.metrics == old(ctx).metrics,
            cw == ctx.metrics.char_width as int,
            old(ctx).shape_calls <= ctx.shape_calls,
            forall|kk: int| 0 <= kk < runs0.len() ==> desc_of(#[trigger] runs0[kk]) == items[kk],
            forall|kk: int| 0 <= kk < runs0.len() ==> item_valid(oldl.cells@, items[kk]),
            forall|kk: int|
                k3 <= kk < runs0.len() ==> (#[trigger] line.runs@[kk]) == runs0[kk],
            forall|kk: int|
                0 <= kk < k3 ==> desc_of(#[trigger] line.runs@[kk]) == items[kk],
            forall|kk: int| 0 <= kk < k3 ==> (#[trigger] line.runs@[kk]).glyphs is Some,
            forall|kk: int|
                0 <= kk < k3 && runs0[kk].glyphs is Some ==> (#[trigger] line.runs@[kk]).glyphs
                    == runs0[kk].glyphs,
            forall|kk: int|
                0 <= kk < k3 && runs0[kk].glyphs is None ==> (
                #[trigger] line.runs@[kk]).glyphs->0@ == shaped_glyphs(
                    oldl.cells@,
                    items[kk].start,
                    items[kk].len,
                    cw,
                ),
            (forall|kk: int| 0 <= kk < k3 ==> (#[trigger] runs0[kk]).glyphs is Some)
                ==> ctx.shape_calls == old(ctx).shape_calls,
        decreases runs0.len() - k3,
    {
        let needs = line.runs[k3].glyphs.is_none();
        if needs {
            let start = line.runs[k3].start;
            let rl = line.runs[k3].len;
            proof {
                assert(desc_of(runs0[k3 as int]) == items[k3 as int]);
                assert(item_valid(oldl.cells@, items[k3 as int]));
                assert(rl * ctx.metrics.char_width <= total * ctx.metrics.char_width)
                    by (nonlinear_arith)
                    requires
                        0 <= rl <= total,
                        0 <= ctx.metrics.char_width,
                ;
            }
            let g = ctx.shape(&line.cells, start, rl);
            line.runs[k3].glyphs = Option::Some(g);
        }
        k3 += 1;
    }

    // Clear dirtiness: the painted frame now reflects every write.
    let ghost runs1 = line.runs@;
    let mut i: usize = 0;
    while i < total
        invariant
            i <= total,
            total == oldl.cells@.len(),
            line.cells@.len() == total,
            line.runs@ == runs1,
            line.item_line@ == il0,
            forall|ii: int|
                0 <= ii < i ==> (#[trigger] line.cells@[ii]).ch == oldl.cells@[ii].ch
                    && line.cells@[ii].attrs == oldl.cells@[ii].attrs && !line.cells@[ii].dirty,
            forall|ii: int| i <= ii < total ==> (#[trigger] line.cells@[ii]) == oldl.cells@[ii],
        decreases total - i,
    {
        let cl = line.cells[i];
        line.cells[i] = Cell { ch: cl.ch, attrs: cl.attrs, dirty: false };
        i += 1;
    }
    line.dirty_line = false;

    proof {
        assert(descs(line.runs@) =~= items);
        // well-formedness of the rebuilt line
        assert forall|kk: int| 0 <= kk < line.runs@.len() implies crate::ui_model::wf_run(
            #[trigger] line.runs@[kk],
            line.cells@.len() as int,
        ) by {
            assert(desc_of(line.runs@[kk]) == items[kk]);
            assert(item_valid(oldl.cells@, items[kk]));
        }
        assert forall|j: int, kk: int|
            0 <= j < line.runs@.len() && 0 <= kk < line.runs@.len() && j != kk implies (
        #[trigger] line.runs@[j]).start != (#[trigger] line.runs@[kk]).start by {
            assert(desc_of(line.runs@[j]) == items[j]);
            assert(desc_of(line.runs@[kk]) == items[kk]);
            if j < kk {
                assert(items[j].start + items[j].len <= items[kk].start);
            } else {
                assert(items[kk].start + items[kk].len <= items[j].start);
            }
        }
        // the rebuilt index matches the final runs: spans did not change
        assert forall|c: int|
            0 <= c < line.item_line@.len() && (#[trigger] line.item_line@[c]) is Some implies
            line.item_line@[c]->0 < line.runs@.len() && line.runs@[line.item_line@[c]->0 as int].covers(
                c,
            ) by {
            let idx = line.item_line@[c]->0 as int;
            assert(runs0[idx].covers(c));
            assert(desc_of(line.runs@[idx]) == items[idx]);
            assert(desc_of(runs0[idx]) == items[idx]);
        }
        assert forall|c: int, k: int|
            0 <= c < line.item_line@.len() && 0 <= k < line.runs@.len() && (
            #[trigger] line.runs@[k].covers(c)) implies line.item_line@[c] == Some(k as usize) by {
            assert(desc_of(line.runs@[k]) == items[k]);
            assert(desc_of(runs0[k]) == items[k]);
            assert(runs0[k].covers(c));
        }
        // cached runs kept their glyphs unchanged
        assert forall|k: int, j: int|
            0 <= k < items.len() && 0 <= j < oldl.runs@.len() && run_matches_desc(
                #[trigger] oldl.runs@[j],
                #[trigger] items[k],
            ) && spec_span_clean(oldl.cells@, items[k].start, items[k].len) implies
            line.runs@[k].glyphs->0@ == oldl.runs@[j].glyphs->0@ by {
            assert(runs0[k].glyphs is Some && runs0[k].glyphs->0@ == oldl.runs@[j].glyphs->0@);
            assert(line.runs@[k].glyphs == runs0[k].glyphs);
        }
        // uncached runs were shaped afresh
        assert forall|k: int|
            0 <= k < items.len() && !cached_ok(oldl, #[trigger] items[k]) implies
            line.runs@[k].glyphs->0@ == shaped_glyphs(
                oldl.cells@,
                items[k].start,
                items[k].len,
                cw,
            ) by {
            assert(runs0[k].glyphs is None);
        }
        if forall|k: int| 0 <= k < items.len() ==> cached_ok(oldl, #[trigger] items[k]) {
            assert forall|kk: int| 0 <= kk < runs0.len() implies (
            #[trigger] runs0[kk]).glyphs is Some by {
                assert(cached_ok(oldl, items[kk]));
            }
        }
        assert(shapes_line(oldl, *line, cw));
    }
}

/// The shape phase: resolve every dirty line. Lines that were not dirty are
/// untouched and cost nothing; afterwards no cell and no line is dirty.
pub fn shape_dirty(ctx: &mut FontContext, model: &mut UiModel)
    requires
        old(model).wf(),
        old(model).cols * old(ctx).metrics.char_width <= u64::MAX,
    ensures
        final(model).wf(),
        final(model).rows == old(model).rows,
        final(model).cols == old(model).cols,
        final(model).cur_row == old(model).cur_row,
        final(model).cur_col == old(model).cur_col,
        final(model).wr_row == old(model).wr_row,
        final(model).wr_col == old(model).wr_col,
        final(model).lines@.len() == old(model).lines@.len(),
        final(ctx).metrics == old(ctx).metrics,
        old(ctx).shape_calls <= final(ctx).shape_calls,
        forall|r: int|
            0 <= r < old(model).lines@.len() && !old(model).lines@[r].dirty_line ==> (
            #[trigger] final(model).lines@[r]) == old(model).lines@[r],
        forall|r: int|
            0 <= r < old(model).lines@.len() && old(model).lines@[r].dirty_line ==> shapes_line(
                old(model).lines@[r],
                #[trigger] final(model).lines@[r],
                old(ctx).metrics.char_width as int,
            ),
        // dirty convergence: after the pass nothing remains dirty
        forall|r: int|
            0 <= r < final(model).lines@.len() ==> !(#[trigger] final(model).lines@[r]).dirty_line,
        forall|r: int, i: int|
            0 <= r < final(model).lines@.len() && 0 <= i
                < final(model).lines@[r].cells@.len() ==> !(
            #[trigger] final(model).lines@[r].cells@[i]).dirty,
        // a frame over fully-cached lines performs no shaping work at all
        (forall|r: int, k: int|
            0 <= r < old(model).lines@.len() && old(model).lines@[r].dirty_line && 0 <= k
                < items_of(old(model).lines@[r].cells@).len() ==> cached_ok(
                old(model).lines@[r],
                #[trigger] items_of(old(model).lines@[r].cells@)[k],
            )) ==> final(ctx).shape_calls == old(ctx).shape_calls,
{
    let rows = model.rows;
    let mut r: usize = 0;
    while r < rows
        invariant
            r <= rows,
            old(model).wf(),
            model.rows == rows,
            model.cols == old(model).cols,
            model.cur_row == old(model).cur_row,
            model.cur_col == old(model).cur_col,
            model.wr_row == old(model).wr_row,
            model.wr_col == old(model).wr_col,
            model.lines@.len() == old(model).lines@.len(),
            rows == old(model).rows,
            model.wf(),
            ctx.metrics == old(ctx).metrics,
            old(ctx).shape_calls <= ctx.shape_calls,
            old(model).cols * old(ctx).metrics.char_width <= u64::MAX,
            forall|rr: int|
                r <= rr < model.lines@.len() ==> (#[trigger] model.lines@[rr]) == old(
                    model,
                ).lines@[rr],
            forall|rr: int|
                0 <= rr < r && !old(model).lines@[rr].dirty_line ==> (
                #[trigger] model.lines@[rr]) == old(model).lines@[rr],
            forall|rr: int|
                0 <= rr < r && old(model).lines@[rr].dirty_line ==> shapes_line(
                    old(model).lines@[rr],
                    #[trigger] model.lines@[rr],
                    old(ctx).metrics.char_width as int,
                ),
            (forall|rr: int, k: int|
                0 <= rr < r && old(model).lines@[rr].dirty_line && 0 <= k < items_of(
                    old(model).lines@[rr].cells@,
                ).len() ==> cached_ok(
                    old(model).lines@[rr],
                    #[trigger] items_of(old(model).lines@[rr].cells@)[k],
                )) ==> ctx.shape_calls == old(ctx).shape_calls,
        decreases rows - r,
    {
        if model.lines[r].dirty_line {
            shape_line(ctx, &mut model.lines[r]);
        }
        r += 1;
    }
}

/// One drawing command of a composited frame, executed in order by the
/// embedder against its drawing surface.
#[derive(PartialEq, Debug)]
pub enum DrawOp {
    /// Fill a rectangle with a solid color.
    FillRect { x: u64, y: u64, w: u64, h: u64, color: Color },
    /// Draw a shaped glyph sequence starting at a baseline position, with
    /// the face selected by the run's attributes.
    Glyphs { x: u64, y: u64, glyphs: Vec<GlyphPos>, attrs: Attrs, color: Color },
    /// The cursor overlay, always painted after the cell it sits on.
    Cursor { x: u64, y: u64, w: u64, h: u64, color: Color },
}

/// The mathematical image of a drawing command.
pub ghost enum DrawOpView {
    FillRect { x: int, y: int, w: int, h: int, color: Color },
    Glyphs { x: int, y: int, glyphs: Seq<GlyphPos>, attrs: Attrs, color: Color },
    Cursor { x: int, y: int, w: int, h: int, color: Color },
}

impl View for DrawOp {
    type V = DrawOpView;

    open spec fn view(&self) -> DrawOpView {
        match self {
            DrawOp::FillRect { x, y, w, h, color } => DrawOpView::FillRect {
                x: *x as int,
                y: *y as int,
                w: *w as int,
                h: *h as int,
                color: *color,
            },
            DrawOp::Glyphs { x, y, glyphs, attrs, color } => DrawOpView::Glyphs {
                x: *x as int,
                y: *y as int,
                glyphs: glyphs@,
                attrs: *attrs,
                color: *color,
            },
            DrawOp::Cursor { x, y, w, h, color } => DrawOpView::Cursor {
                x: *x as int,
                y: *y as int,
                w: *w as int,
                h: *h as int,
                color: *color,
            },
        }
    }
}

pub open spec fn op_views(s: Seq<DrawOp>) -> Seq<DrawOpView> {
    s.map_values(|op: DrawOp| op@)
}

/// The cursor overlay's width: a quarter-cell bar while inserting, a full
/// block otherwise.
pub open spec fn spec_cursor_w(mode: Mode, cw: int) -> int {
    if mode is Insert {
        if cw / 4 >= 1 {
            cw / 4
        } else {
            1
        }
    } else {
        cw
    }
}

/// The cursor overlay command for the current model state.
pub open spec fn spec_cursor_op(m: UiModel, cm: ColorModel, met: CellMetrics, mode: Mode) -> DrawOpView {
    DrawOpView::Cursor {
        x: m.cur_col * met.char_width,
        y: m.cur_row * met.line_height,
        w: spec_cursor_w(mode, met.char_width as int),
        h: met.line_height as int,
        color: cm.spec_resolved_bg(m.lines@[m.cur_row as int].cells@[m.cur_col as int].attrs),
    }
}

/// The content commands of one cell: a run's background fill and glyphs
/// where the column starts a run, a single-cell fill where no run covers it.
pub open spec fn spec_cell_base_ops(m: UiModel, cm: ColorModel, met: CellMetrics, r: int, c: int) -> Seq<
    DrawOpView,
> {
    let line = m.lines@[r];
    let cell = line.cells@[c];
    let x = c * met.char_width;
    let y = r * met.line_height;
    if line.item_line@[c] is Some && line.runs@[line.item_line@[c]->0 as int].start == c {
        let run = line.runs@[line.item_line@[c]->0 as int];
        (match cm.spec_cell_bg(cell.attrs) {
            Option::Some(bg) => seq![
                DrawOpView::FillRect {
                    x,
                    y,
                    w: run.len * met.char_width,
                    h: met.line_height as int,
                    color: bg,
                },
            ],
            Option::None => Seq::empty(),
        }) + (match run.glyphs {
            Option::Some(g) => seq![
                DrawOpView::Glyphs {
                    x,
                    y: y + met.ascent,
                    glyphs: g@,
                    attrs: run.attrs,
                    color: cm.spec_resolved_fg(cell.attrs),
                },
            ],
            Option::None => Seq::empty(),
        })
    } else if line.item_line@[c] is None {
        match cm.spec_cell_bg(cell.attrs) {
            Option::Some(bg) => seq![
                DrawOpView::FillRect {
                    x,
                    y,
                    w: met.char_width as int,
                    h: met.line_height as int,
                    color: bg,
                },
            ],
            Option::None => Seq::empty(),
        }
    } else {
        Seq::empty()
    }
}

/// All commands one cell contributes to the frame: its content, then the
/// cursor overlay when the cursor sits here — the overlay is always last, so
/// it paints on top of the cell's own background and glyphs.
pub open spec fn spec_cell_ops(m: UiModel, cm: ColorModel, met: CellMetrics, mode: Mode, r: int, c: int) -> Seq<
    DrawOpView,
> {
    let base = spec_cell_base_ops(m, cm, met, r, c);
    if r == m.cur_row && c == m.cur_col {
        base + seq![spec_cursor_op(m, cm, met, mode)]
    } else {
        base
    }
}

/// The commands of row `r`'s first `c` columns, left to right.
pub open spec fn spec_cells_ops(m: UiModel, cm: ColorModel, met: CellMetrics, mode: Mode, r: int, c: int) -> Seq<
    DrawOpView,
>
    decreases c,
{
    if c <= 0 {
        Seq::empty()
    } else {
        spec_cells_ops(m, cm, met, mode, r, c - 1) + spec_cell_ops(m, cm, met, mode, r, c - 1)
    }
}

/// The commands of the first `r` rows, top to bottom.
pub open spec fn spec_rows_ops(m: UiModel, cm: ColorModel, met: CellMetrics, mode: Mode, r: int) -> Seq<
    DrawOpView,
>
    decreases r,
{
    if r <= 0 {
        Seq::empty()
    } else {
        spec_rows_ops(m, cm, met, mode, r - 1) + spec_cells_ops(
            m,
            cm,
            met,
            mode,
            r - 1,
            m.cols as int,
        )
    }
}

/// A whole frame: a full-surface clear in the default background, then every
/// cell's commands in row-major order.
pub open spec fn spec_frame_ops(m: UiModel, cm: ColorModel, met: CellMetrics, mode: Mode) -> Seq<
    DrawOpView,
> {
    seq![
        DrawOpView::FillRect {
            x: 0,
            y: 0,
            w: m.cols * met.char_width,
            h: m.rows * met.line_height,
            color: cm.bg_color,
        },
    ] + spec_rows_ops(m, cm, met, mode, m.rows as int)
}

/// The paint phase: composite one frame from the grid, color and font state.
/// The grid is not mutated; the returned commands, executed in order, are
/// exactly the frame the current state describes.
pub fn render(model: &UiModel, cm: &ColorModel, ctx: &FontContext, mode: Mode) -> (ops: Vec<
    DrawOp,
>)
    requires
        model.wf(),
        ctx.metrics.wf(),
        model.cols * ctx.metrics.char_width <= u64::MAX,
        model.rows * ctx.metrics.line_height <= u64::MAX,
    ensures
        op_views(ops@) == spec_frame_ops(*model, *cm, ctx.metrics, mode),
{
    let met = ctx.cell_metrics();
    let cw = met.char_width;
    let lh = met.line_height;
    let ascent = met.ascent;
    let rows = model.get_rows();
    let cols = model.get_cols();
    let (cur_row, cur_col) = model.get_cursor();
    let ghost gm = *model;
    let ghost gcm = *cm;

    let mut ops: Vec<DrawOp> = Vec::new();
    let fw = (cols as u64) * cw;
    let fh = (rows as u64) * lh;
    ops.push(DrawOp::FillRect { x: 0, y: 0, w: fw, h: fh, color: cm.bg_color });
    let ghost clear_ops = op_views(ops@);
    proof {
        assert(clear_ops =~= seq![
            DrawOpView::FillRect {
                x: 0,
                y: 0,
                w: gm.cols * met.char_width,
                h: gm.rows * met.line_height,
                color: gcm.bg_color,
            },
        ]);
    }

    let mut r: usize = 0;
    while r < rows
        invariant
            r <= rows,
            model.wf(),
            met == ctx.metrics,
            met.wf(),
            cw == met.char_width,
            lh == met.line_height,
            ascent == met.ascent,
            rows == model.rows,
            cols == model.cols,
            cur_row == model.cur_row,
            cur_col == model.cur_col,
            gm == *model,
            gcm == *cm,
            gm.cols * met.char_width <= u64::MAX,
            gm.rows * met.line_height <= u64::MAX,
            op_views(ops@) == clear_ops + spec_rows_ops(gm, gcm, met, mode, r as int),
        decreases rows - r,
    {
        proof {
            assert(r * lh <= gm.rows * lh && r * lh + lh <= gm.rows * lh) by (nonlinear_arith)
                requires
                    0 <= r,
                    r + 1 <= gm.rows,
                    0 <= lh,
            ;
        }
        let y = (r as u64) * lh;
        let mut c: usize = 0;
        while c < cols
            invariant
                c <= cols,
                r < rows,
                model.wf(),
                met == ctx.metrics,
                met.wf(),
                cw == met.char_width,
                lh == met.line_height,
                ascent == met.ascent,
                rows == model.rows,
                cols == model.cols,
                cur_row == model.cur_row,
                cur_col == model.cur_col,
                gm == *model,
                gcm == *cm,
                gm.cols * met.char_width <= u64::MAX,
                gm.rows * met.line_height <= u64::MAX,
                y == r * lh,
                y + lh <= u64::MAX,
                op_views(ops@) == clear_ops + spec_rows_ops(gm, gcm, met, mode, r as int)
                    + spec_cells_ops(gm, gcm, met, mode, r as int, c as int),
            decreases cols - c,
        {
            proof {
                assert(c * cw <= gm.cols * cw) by (nonlinear_arith)
                    requires
                        0 <= c <= gm.cols,
                        0 <= cw,
                ;
                assert((c + 1) * cw <= gm.cols * cw) by (nonlinear_arith)
                    requires
                        0 <= c + 1 <= gm.cols,
                        0 <= cw,
                ;
            }
            let x = (c as u64) * cw;
            let ghost before = op_views(ops@);
            let line_ref = &model.lines[r];
            let cell = line_ref.cells[c];
            let item = line_ref.item_line[c];
            let ghost cell_ops = spec_cell_ops(gm, gcm, met, mode, r as int, c as int);
            match item {
                Option::Some(k) => {
                    if line_ref.runs[k].start == c {
                        let run_len = line_ref.runs[k].len;
                        let (bg, fg) = cm.cell_colors(&cell);
                        match bg {
                            Option::Some(bgc) => {
                                proof {
                                    assert(c + run_len <= gm.cols);
                                    assert(run_len * cw <= gm.cols * cw) by (nonlinear_arith)
                                        requires
                                            0 <= run_len <= gm.cols,
                                            0 <= cw,
                                    ;
                                }
                                let w = (run_len as u64) * cw;
                                ops.push(DrawOp::FillRect { x, y, w, h: lh, color: bgc });
                            },
                            Option::None => {},
                        }
                        match &line_ref.runs[k].glyphs {
                            Option::Some(g) => {
                                let gl = copy_glyphs(g);
                                ops.push(
                                    DrawOp::Glyphs {
                                        x,
                                        y: y + ascent,
                                        glyphs: gl,
                                        attrs: line_ref.runs[k].attrs,
                                        color: fg,
                                    },
                                );
                            },
                            Option::None => {},
                        }
                    }
                },
                Option::None => {
                    let bg = cm.cell_bg(&cell);
                    match bg {
                        Option::Some(bgc) => {
                            ops.push(DrawOp::FillRect { x, y, w: cw, h: lh, color: bgc });
                        },
                        Option::None => {},
                    }
                },
            }
            if r == cur_row && c == cur_col {
                let cursor_w = if matches!(mode, Mode::Insert) {
                    if cw / 4 >= 1 {
                        cw / 4
                    } else {
                        1
                    }
                } else {
                    cw
                };
                let cbg = cm.actual_cell_bg(&cell);
                ops.push(DrawOp::Cursor { x, y, w: cursor_w, h: lh, color: cbg });
            }
            proof {
                assert(op_views(ops@) =~= before + cell_ops);
                assert(spec_cells_ops(gm, gcm, met, mode, r as int, c + 1) == spec_cells_ops(
                    gm,
                    gcm,
                    met,
                    mode,
                    r as int,
                    c as int,
                ) + cell_ops);
                assert(op_views(ops@) =~= clear_ops + spec_rows_ops(gm, gcm, met, mode, r as int)
                    + spec_cells_ops(gm, gcm, met, mode, r as int, c + 1));
            }
            c += 1;
        }
        proof {
            assert(spec_rows_ops(gm, gcm, met, mode, r + 1) == spec_rows_ops(
                gm,
                gcm,
                met,
                mode,
                r as int,
            ) + spec_cells_ops(gm, gcm, met, mode, r as int, gm.cols as int));
            assert(op_views(ops@) =~= clear_ops + spec_rows_ops(gm, gcm, met, mode, r + 1));
        }
        r += 1;
    }
    proof {
        assert(op_views(ops@) =~= spec_frame_ops(gm, gcm, met, mode));
    }
    ops
}

/// How many commands of the sequence are cursor overlays.
pub open spec fn cursor_count(s: Seq<DrawOpView>) -> int
    decreases s.len(),
{
    if s.len() == 0 {
        0
    } else {
        cursor_count(s.drop_last()) + if s.last() is Cursor {
            1int
        } else {
            0int
        }
    }
}

proof fn lemma_cursor_count_add(a: Seq<DrawOpView>, b: Seq<DrawOpView>)
    ensures
        cursor_count(a + b) == cursor_count(a) + cursor_count(b),
    decreases b.len(),
{
    if b.len() == 0 {
        assert(a + b =~= a);
    } else {
        lemma_cursor_count_add(a, b.drop_last());
        assert((a + b).drop_last() =~= a + b.drop_last());
        assert((a + b).last() == b.last());
    }
}

proof fn lemma_cursor_count_one(op: DrawOpView)
    ensures
        cursor_count(seq![op]) == if op is Cursor {
            1int
        } else {
            0int
        },
{
    assert(seq![op].drop_last() =~= Seq::<DrawOpView>::empty());
    assert(cursor_count(Seq::<DrawOpView>::empty()) == 0);
    assert(seq![op].last() == op);
}

proof fn lemma_cell_base_no_cursor(m: UiModel, cm: ColorModel, met: CellMetrics, r: int, c: int)
    ensures
        cursor_count(spec_cell_base_ops(m, cm, met, r, c)) == 0,
{
    let line = m.lines@[r];
    let cell = line.cells@[c];
    let base = spec_cell_base_ops(m, cm, met, r, c);
    assert(cursor_count(Seq::<DrawOpView>::empty()) == 0);
    if line.item_line@[c] is Some && line.runs@[line.item_line@[c]->0 as int].start == c {
        let run = line.runs@[line.item_line@[c]->0 as int];
        let bgops = match cm.spec_cell_bg(cell.attrs) {
            Option::Some(bg) => seq![
                DrawOpView::FillRect {
                    x: c * met.char_width,
                    y: r * met.line_height,
                    w: run.len * met.char_width,
                    h: met.line_height as int,
                    color: bg,
                },
            ],
            Option::None => Seq::empty(),
        };
        let glops = match run.glyphs {
            Option::Some(g) => seq![
                DrawOpView::Glyphs {
                    x: c * met.char_width,
                    y: r * met.line_height + met.ascent,
                    glyphs: g@,
                    attrs: run.attrs,
                    color: cm.spec_resolved_fg(cell.attrs),
                },
            ],
            Option::None => Seq::empty(),
        };
        assert(base == bgops + glops);
        lemma_cursor_count_add(bgops, glops);
        if cm.spec_cell_bg(cell.attrs) is Some {
            lemma_cursor_count_one(bgops[0]);
            assert(bgops =~= seq![bgops[0]]);
        }
        if run.glyphs is Some {
            lemma_cursor_count_one(glops[0]);
            assert(glops =~= seq![glops[0]]);
        }
    } else if line.item_line@[c] is None {
        if cm.spec_cell_bg(cell.attrs) is Some {
            lemma_cursor_count_one(base[0]);
            assert(base =~= seq![base[0]]);
        }
    } else {
    }
}

proof fn lemma_cell_cursor(m: UiModel, cm: ColorModel, met: CellMetrics, mode: Mode, r: int, c: int)
    ensures
        cursor_count(spec_cell_ops(m, cm, met, mode, r, c)) == if r == m.cur_row && c
            == m.cur_col {
            1int
        } else {
            0int
        },
        r == m.cur_row && c == m.cur_col ==> spec_cell_ops(m, cm, met, mode, r, c).len() >= 1
            && spec_cell_ops(m, cm, met, mode, r, c).last() == spec_cursor_op(m, cm, met, mode),
{
    lemma_cell_base_no_cursor(m, cm, met, r, c);
    let base = spec_cell_base_ops(m, cm, met, r, c);
    if r == m.cur_row && c == m.cur_col {
        lemma_cursor_count_add(base, seq![spec_cursor_op(m, cm, met, mode)]);
        lemma_cursor_count_one(spec_cursor_op(m, cm, met, mode));
    }
}

proof fn lemma_cells_cursor(m: UiModel, cm: ColorModel, met: CellMetrics, mode: Mode, r: int, c: int)
    requires
        0 <= c,
    ensures
        cursor_count(spec_cells_ops(m, cm, met, mode, r, c)) == if r == m.cur_row && m.cur_col
            < c {
            1int
        } else {
            0int
        },
        (r == m.cur_row && m.cur_col < c) ==> spec_cells_ops(m, cm, met, mode, r, c).contains(
            spec_cursor_op(m, cm, met, mode),
        ),
    decreases c,
{
    if c <= 0 {
    } else {
        lemma_cells_cursor(m, cm, met, mode, r, c - 1);
        lemma_cell_cursor(m, cm, met, mode, r, c - 1);
        let a = spec_cells_ops(m, cm, met, mode, r, c - 1);
        let b = spec_cell_ops(m, cm, met, mode, r, c - 1);
        lemma_cursor_count_add(a, b);
        if r == m.cur_row && m.cur_col < c {
            let op = spec_cursor_op(m, cm, met, mode);
            if m.cur_col == c - 1 {
                assert((a + b)[a.len() + b.len() - 1] == b[b.len() - 1]);
                assert((a + b).contains(op));
            } else {
                let i = choose|i: int| 0 <= i < a.len() && a[i] == op;
                assert((a + b)[i] == op);
                assert((a + b).contains(op));
            }
        }
    }
}

proof fn lemma_rows_cursor(m: UiModel, cm: ColorModel, met: CellMetrics, mode: Mode, r: int)
    requires
        m.wf(),
        0 <= r <= m.rows,
    ensures
        cursor_count(spec_rows_ops(m, cm, met, mode, r)) == if m.cur_row < r {
            1int
        } else {
            0int
        },
        m.cur_row < r ==> spec_rows_ops(m, cm, met, mode, r).contains(
            spec_cursor_op(m, cm, met, mode),
        ),
    decreases r,
{
    if r <= 0 {
    } else {
        lemma_rows_cursor(m, cm, met, mode, r - 1);
        lemma_cells_cursor(m, cm, met, mode, r - 1, m.cols as int);
        let a = spec_rows_ops(m, cm, met, mode, r - 1);
        let b = spec_cells_ops(m, cm, met, mode, r - 1, m.cols as int);
        lemma_cursor_count_add(a, b);
        if m.cur_row < r {
            let op = spec_cursor_op(m, cm, met, mode);
            if m.cur_row == r - 1 {
                let i = choose|i: int| 0 <= i < b.len() && b[i] == op;
                assert((a + b)[a.len() + i] == op);
                assert((a + b).contains(op));
            } else {
                let i = choose|i: int| 0 <= i < a.len() && a[i] == op;
                assert((a + b)[i] == op);
                assert((a + b).contains(op));
            }
        }
    }
}

/// The cursor overlay is painted exactly once per frame: at the cursor
/// cell's pixel origin, with the cell's resolved background, and — by the
/// shape of each cell's command list — after that cell's own background and
/// glyph commands.
pub proof fn lemma_cursor_drawn_once(m: UiModel, cm: ColorModel, met: CellMetrics, mode: Mode)
    requires
        m.wf(),
    ensures
        cursor_count(spec_frame_ops(m, cm, met, mode)) == 1,
        spec_frame_ops(m, cm, met, mode).contains(spec_cursor_op(m, cm, met, mode)),
{
    lemma_rows_cursor(m, cm, met, mode, m.rows as int);
    let clear = seq![
        DrawOpView::FillRect {
            x: 0,
            y: 0,
            w: m.cols * met.char_width,
            h: m.rows * met.line_height,
            color: cm.bg_color,
        },
    ];
    let rest = spec_rows_ops(m, cm, met, mode, m.rows as int);
    lemma_cursor_count_add(clear, rest);
    lemma_cursor_count_one(clear[0]);
    assert(clear =~= seq![clear[0]]);
    let op = spec_cursor_op(m, cm, met, mode);
    let i = choose|i: int| 0 <= i < rest.len() && rest[i] == op;
    assert((clear + rest)[1 + i] == op);
    assert(spec_frame_ops(m, cm, met, mode).contains(op));
}

/// A line that one shape pass has already resolved — its runs are exactly
/// its partition, all shaped, over clean cells — can reuse every cached
/// glyph sequence: nothing in it needs shaping.
pub proof fn lemma_shaped_line_fully_cached(l: Line)
    requires
        descs(l.runs@) == items_of(l.cells@),
        forall|k: int| 0 <= k < l.runs@.len() ==> (#[trigger] l.runs@[k]).glyphs is Some,
        forall|i: int| 0 <= i < l.cells@.len() ==> !(#[trigger] l.cells@[i]).dirty,
    ensures
        forall|k: int|
            0 <= k < items_of(l.cells@).len() ==> cached_ok(l, #[trigger] items_of(l.cells@)[k]),
{
    assert forall|k: int| 0 <= k < items_of(l.cells@).len() implies cached_ok(
        l,
        #[trigger] items_of(l.cells@)[k],
    ) by {
        let d = items_of(l.cells@)[k];
        lemma_items_partition(l.cells@);
        assert(item_valid(l.cells@, items_of(l.cells@)[k]));
        assert(descs(l.runs@).len() == l.runs@.len());
        assert(descs(l.runs@)[k] == d);
        assert(desc_of(l.runs@[k]) == d);
        assert(l.runs@[k].glyphs is Some);
        assert(run_matches_desc(l.runs@[k], d));
        assert(spec_span_clean(l.cells@, d.start, d.len));
    }
}

/// After a shape pass the line is in resolved form: its runs are the
/// partition of its (unchanged) cell content, all shaped, nothing dirty — so
/// a second pass over it reuses every glyph sequence.
pub proof fn lemma_shapes_line_resolved(oldl: Line, newl: Line, cw: int)
    requires
        shapes_line(oldl, newl, cw),
    ensures
        descs(newl.runs@) == items_of(newl.cells@),
        forall|k: int| 0 <= k < newl.runs@.len() ==> (#[trigger] newl.runs@[k]).glyphs is Some,
        forall|i: int| 0 <= i < newl.cells@.len() ==> !(#[trigger] newl.cells@[i]).dirty,
        forall|k: int|
            0 <= k < items_of(newl.cells@).len() ==> cached_ok(
                newl,
                #[trigger] items_of(newl.cells@)[k],
            ),
{
    lemma_items_content(oldl.cells@, newl.cells@, 0);
    assert(items_of(newl.cells@) == items_of(oldl.cells@));
    lemma_shaped_line_fully_cached(newl);
}

/// A write never leaves a stale cached glyph sequence behind: it only
/// replaces cells it also marks dirty, so every cached run over cells that
/// are still clean still holds the shaping of its span.
pub proof fn lemma_write_keeps_glyphs_valid(oldl: Line, newl: Line, cw: int)
    requires
        oldl.wf(),
        newl.cells@.len() == oldl.cells@.len(),
        newl.runs@ == oldl.runs@,
        forall|i: int|
            0 <= i < newl.cells@.len() ==> (#[trigger] newl.cells@[i]) == oldl.cells@[i]
                || newl.cells@[i].dirty,
        line_glyphs_valid(oldl, cw),
    ensures
        line_glyphs_valid(newl, cw),
{
    assert forall|j: int|
        0 <= j < newl.runs@.len() && (#[trigger] newl.runs@[j]).glyphs is Some && spec_span_clean(
            newl.cells@,
            newl.runs@[j].start as int,
            newl.runs@[j].len as int,
        ) implies newl.runs@[j].glyphs->0@ == shaped_glyphs(
        newl.cells@,
        newl.runs@[j].start as int,
        newl.runs@[j].len as int,
        cw,
    ) by {
        let start = newl.runs@[j].start as int;
        let len = newl.runs@[j].len as int;
        assert(crate::ui_model::wf_run(oldl.runs@[j], oldl.cells@.len() as int));
        // a clean cell of the new line is an unchanged cell
        assert forall|c: int| start <= c < start + len implies (#[trigger] newl.cells@[c])
            == oldl.cells@[c] by {
            assert(!newl.cells@[c].dirty);
        }
        assert forall|c: int| start <= c < start + len implies !(
        #[trigger] oldl.cells@[c]).dirty by {
            assert(newl.cells@[c] == oldl.cells@[c]);
            assert(!newl.cells@[c].dirty);
        }
        assert(spec_span_clean(oldl.cells@, start, len));
        assert(oldl.runs@[j].glyphs->0@ == shaped_glyphs(oldl.cells@, start, len, cw));
        assert(shaped_glyphs(oldl.cells@, start, len, cw) =~= shaped_glyphs(
            newl.cells@,
            start,
            len,
            cw,
        ));
    }
}

/// The shape pass never leaves a stale glyph sequence: if every cached run
/// of the old line held the shaping of its span, then after the pass every
/// run holds exactly the shaping of its span in the resolved line.
pub proof fn lemma_shapes_line_valid(oldl: Line, newl: Line, cw: int)
    requires
        oldl.wf(),
        shapes_line(oldl, newl, cw),
        line_glyphs_valid(oldl, cw),
    ensures
        forall|k: int|
            0 <= k < newl.runs@.len() ==> (#[trigger] newl.runs@[k]).glyphs->0@ == shaped_glyphs(
                newl.cells@,
                newl.runs@[k].start as int,
                newl.runs@[k].len as int,
                cw,
            ),
        line_glyphs_valid(newl, cw),
{
    let items = items_of(oldl.cells@);
    lemma_items_partition(oldl.cells@);
    assert forall|k: int| 0 <= k < newl.runs@.len() implies (
    #[trigger] newl.runs@[k]).glyphs->0@ == shaped_glyphs(
        newl.cells@,
        newl.runs@[k].start as int,
        newl.runs@[k].len as int,
        cw,
    ) by {
        assert(descs(newl.runs@)[k] == items[k]);
        assert(desc_of(newl.runs@[k]) == items[k]);
        let d = items[k];
        assert(item_valid(oldl.cells@, items_of(oldl.cells@)[k]));
        if cached_ok(oldl, d) {
            let j = choose|j: int|
                0 <= j < oldl.runs@.len() && run_matches_desc(#[trigger] oldl.runs@[j], d)
                    && spec_span_clean(oldl.cells@, d.start, d.len);
            assert(newl.runs@[k].glyphs->0@ == oldl.runs@[j].glyphs->0@);
            assert(oldl.runs@[j].glyphs->0@ == shaped_glyphs(oldl.cells@, d.start, d.len, cw));
        } else {
            assert(newl.runs@[k].glyphs->0@ == shaped_glyphs(oldl.cells@, d.start, d.len, cw));
        }
        assert(shaped_glyphs(oldl.cells@, d.start, d.len, cw) =~= shaped_glyphs(
            newl.cells@,
            d.start,
            d.len,
            cw,
        ));
    }
}

} // verus!
