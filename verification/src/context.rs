//! The font/shaping context: fixed cell metrics, the run itemizer, and the
//! deterministic monospace shaper with its call counter.
//!
//! Itemization partitions a line into styled runs: maximal spans of adjacent
//! non-blank cells with identical attributes. Shaping turns one run's span
//! into a glyph sequence; it is a pure function of the span's characters and
//! the cell width, so shaped results can be cached and reused for runs whose
//! cells did not change.

use vstd::prelude::*;
use crate::ui_model::{Cell, StyledRun, GlyphPos, Attrs};

verus! {

/// Fixed per-cell pixel dimensions derived once from the active font.
#[derive(Clone, Copy, PartialEq, Eq, Structural, Debug)]
pub struct CellMetrics {
    pub char_width: u64,
    pub line_height: u64,
    pub ascent: u64,
}

impl CellMetrics {
    pub open spec fn wf(self) -> bool {
        &&& 1 <= self.char_width
        &&& 1 <= self.line_height
        &&& self.ascent <= self.line_height
    }
}

/// A run described by position and attributes alone, the ghost image of a
/// [`StyledRun`] without its glyphs.
pub ghost struct RunDesc {
    pub start: int,
    pub len: int,
    pub attrs: Attrs,
}

pub open spec fn desc_of(r: StyledRun) -> RunDesc {
    RunDesc { start: r.start as int, len: r.len as int, attrs: r.attrs }
}

pub open spec fn descs(runs: Seq<StyledRun>) -> Seq<RunDesc> {
    runs.map_values(|r: StyledRun| desc_of(r))
}

/// The end of the run that passes through position `i`: the first position
/// after `i` that is out of bounds, blank, or differently attributed.
pub open spec fn run_end(cells: Seq<Cell>, i: int) -> int
    decreases cells.len() - i,
{
    if i + 1 >= cells.len() {
        cells.len() as int
    } else if cells[i + 1].is_blank() || cells[i + 1].attrs != cells[i].attrs {
        i + 1
    } else {
        run_end(cells, i + 1)
    }
}

pub proof fn lemma_run_end_bounds(cells: Seq<Cell>, i: int)
    requires
        0 <= i < cells.len(),
    ensures
        i < run_end(cells, i) <= cells.len(),
    decreases cells.len() - i,
{
    if i + 1 >= cells.len() {
    } else if cells[i + 1].is_blank() || cells[i + 1].attrs != cells[i].attrs {
    } else {
        lemma_run_end_bounds(cells, i + 1);
    }
}

/// Within `[i, run_end(i))` every cell is non-blank and shares `cells[i]`'s
/// attributes, and the run is maximal to the right.
pub proof fn lemma_run_end_props(cells: Seq<Cell>, i: int)
    requires
        0 <= i < cells.len(),
        !cells[i].is_blank(),
    ensures
        forall|c: int|
            i <= c < run_end(cells, i) ==> !(#[trigger] cells[c]).is_blank() && cells[c].attrs
                == cells[i].attrs,
        run_end(cells, i) == cells.len() || cells[run_end(cells, i)].is_blank()
            || cells[run_end(cells, i)].attrs != cells[i].attrs,
    decreases cells.len() - i,
{
    lemma_run_end_bounds(cells, i);
    if i + 1 >= cells.len() {
    } else if cells[i + 1].is_blank() || cells[i + 1].attrs != cells[i].attrs {
    } else {
        lemma_run_end_props(cells, i + 1);
        assert forall|c: int| i <= c < run_end(cells, i) implies !(#[trigger] cells[c]).is_blank()
            && cells[c].attrs == cells[i].attrs by {
            if c != i {
                assert(i + 1 <= c < run_end(cells, i + 1));
            }
        }
    }
}

/// The ordered styled runs of the line suffix that starts at `i`.
pub open spec fn items_from(cells: Seq<Cell>, i: int) -> Seq<RunDesc>
    decreases cells.len() - i, 1int when 0 <= i via items_from_dec
{
    if i >= cells.len() {
        Seq::empty()
    } else if cells[i].is_blank() {
        items_from(cells, i + 1)
    } else {
        seq![RunDesc { start: i, len: run_end(cells, i) - i, attrs: cells[i].attrs }] + items_from(
            cells,
            run_end(cells, i),
        )
    }
}

#[via_fn]
proof fn items_from_dec(cells: Seq<Cell>, i: int) {
    if 0 <= i < cells.len() && !cells[i].is_blank() {
        lemma_run_end_bounds(cells, i);
    }
}

/// The styled runs of a whole line.
pub open spec fn items_of(cells: Seq<Cell>) -> Seq<RunDesc> {
    items_from(cells, 0)
}

/// A run description that fits `cells`: in bounds, non-empty, uniformly
/// attributed over non-blank cells, and maximal on both sides.
pub open spec fn item_valid(cells: Seq<Cell>, d: RunDesc) -> bool {
    &&& 1 <= d.len
    &&& 0 <= d.start
    &&& d.start + d.len <= cells.len()
    &&& forall|c: int|
        d.start <= c < d.start + d.len ==> !(#[trigger] cells[c]).is_blank() && cells[c].attrs
            == d.attrs
    &&& (d.start == 0 || cells[d.start - 1].is_blank() || cells[d.start - 1].attrs != d.attrs)
    &&& (d.start + d.len == cells.len() || cells[d.start + d.len].is_blank() || cells[d.start
        + d.len].attrs != d.attrs)
}

pub open spec fn covers_desc(d: RunDesc, c: int) -> bool {
    d.start <= c < d.start + d.len
}

/// A position where a run may begin: the line start, or just after a blank
/// or differently-attributed cell.
pub open spec fn at_boundary(cells: Seq<Cell>, i: int) -> bool {
    i == 0 || i >= cells.len() || cells[i - 1].is_blank() || cells[i].is_blank() || cells[i
        - 1].attrs != cells[i].attrs
}

proof fn lemma_items_from_props(cells: Seq<Cell>, i: int)
    requires
        0 <= i,
        at_boundary(cells, i),
    ensures
        forall|k: int|
            0 <= k < items_from(cells, i).len() ==> item_valid(
                cells,
                #[trigger] items_from(cells, i)[k],
            ) && items_from(cells, i)[k].start >= i,
        forall|j: int, k: int|
            0 <= j < k < items_from(cells, i).len() ==> (#[trigger] items_from(cells, i)[j]).start
                + items_from(cells, i)[j].len <= (#[trigger] items_from(cells, i)[k]).start,
        forall|c: int|
            i <= c < cells.len() && !cells[c].is_blank() ==> exists|k: int|
                0 <= k < items_from(cells, i).len() && covers_desc(
                    #[trigger] items_from(cells, i)[k],
                    c,
                ),
    decreases cells.len() - i,
{
    let items = items_from(cells, i);
    if i >= cells.len() {
    } else if cells[i].is_blank() {
        lemma_items_from_props(cells, i + 1);
        assert forall|c: int| i <= c < cells.len() && !cells[c].is_blank() implies exists|k: int|
            0 <= k < items.len() && covers_desc(#[trigger] items[k], c) by {
            assert(c != i);
        }
    } else {
        let e = run_end(cells, i);
        lemma_run_end_bounds(cells, i);
        lemma_run_end_props(cells, i);
        let first = RunDesc { start: i, len: e - i, attrs: cells[i].attrs };
        let rest = items_from(cells, e);
        assert(items == seq![first] + rest);
        assert(at_boundary(cells, e));
        lemma_items_from_props(cells, e);
        assert(item_valid(cells, first));
        assert forall|k: int| 0 <= k < items.len() implies item_valid(cells, #[trigger] items[k])
            && items[k].start >= i by {
            if k == 0 {
                assert(items[k] == first);
            } else {
                assert(items[k] == rest[k - 1]);
            }
        }
        assert forall|j: int, k: int| 0 <= j < k < items.len() implies (
        #[trigger] items[j]).start + items[j].len <= (#[trigger] items[k]).start by {
            if j == 0 {
                assert(items[k] == rest[k - 1]);
                assert(rest[k - 1].start >= e);
            } else {
                assert(items[j] == rest[j - 1]);
                assert(items[k] == rest[k - 1]);
            }
        }
        assert forall|c: int| i <= c < cells.len() && !cells[c].is_blank() implies exists|k: int|
            0 <= k < items.len() && covers_desc(#[trigger] items[k], c) by {
            if c < e {
                assert(covers_desc(items[0], c));
            } else {
                let k0 = choose|k0: int|
                    0 <= k0 < rest.len() && covers_desc(#[trigger] rest[k0], c);
                assert(items[k0 + 1] == rest[k0]);
                assert(covers_desc(items[k0 + 1], c));
            }
        }
    }
}

/// The run partition invariant: the styled runs of a line are non-empty,
/// contiguous spans of uniformly-attributed non-blank cells, maximal on both
/// sides, pairwise disjoint and ordered, and together they cover exactly the
/// non-blank columns.
pub proof fn lemma_items_partition(cells: Seq<Cell>)
    ensures
        forall|k: int|
            0 <= k < items_of(cells).len() ==> item_valid(cells, #[trigger] items_of(cells)[k]),
        forall|j: int, k: int|
            0 <= j < k < items_of(cells).len() ==> (#[trigger] items_of(cells)[j]).start
                + items_of(cells)[j].len <= (#[trigger] items_of(cells)[k]).start,
        forall|c: int|
            0 <= c < cells.len() && !cells[c].is_blank() ==> exists|k: int|
                0 <= k < items_of(cells).len() && covers_desc(#[trigger] items_of(cells)[k], c),
        forall|c: int, k: int|
            0 <= c < cells.len() && cells[c].is_blank() && 0 <= k < items_of(cells).len() ==> !(
            #[trigger] covers_desc(items_of(cells)[k], c)),
{
    lemma_items_from_props(cells, 0);
    assert forall|c: int| 0 <= c < cells.len() && !cells[c].is_blank() implies exists|k: int|
        0 <= k < items_of(cells).len() && covers_desc(#[trigger] items_of(cells)[k], c) by {
        let k0 = choose|k0: int|
            0 <= k0 < items_from(cells, 0).len() && covers_desc(
                #[trigger] items_from(cells, 0)[k0],
                c,
            );
        assert(covers_desc(items_of(cells)[k0], c));
    }
}

/// Itemization reads only characters and attributes: cell sequences that
/// agree on both have the same runs.
pub proof fn lemma_items_content(cells1: Seq<Cell>, cells2: Seq<Cell>, i: int)
    requires
        cells1.len() == cells2.len(),
        forall|c: int|
            0 <= c < cells1.len() ==> (#[trigger] cells1[c]).ch == cells2[c].ch && cells1[c].attrs
                == cells2[c].attrs,
        0 <= i,
    ensures
        items_from(cells1, i) == items_from(cells2, i),
    decreases cells1.len() - i,
{
    if i >= cells1.len() {
    } else {
        lemma_run_end_content(cells1, cells2, i);
        if cells1[i].is_blank() {
            lemma_items_content(cells1, cells2, i + 1);
        } else {
            lemma_run_end_bounds(cells1, i);
            lemma_items_content(cells1, cells2, run_end(cells1, i));
        }
    }
}

proof fn lemma_run_end_content(cells1: Seq<Cell>, cells2: Seq<Cell>, i: int)
    requires
        cells1.len() == cells2.len(),
        forall|c: int|
            0 <= c < cells1.len() ==> (#[trigger] cells1[c]).ch == cells2[c].ch && cells1[c].attrs
                == cells2[c].attrs,
        0 <= i < cells1.len(),
    ensures
        run_end(cells1, i) == run_end(cells2, i),
    decreases cells1.len() - i,
{
    if i + 1 >= cells1.len() {
    } else if cells1[i + 1].is_blank() || cells1[i + 1].attrs != cells1[i].attrs {
    } else {
        lemma_run_end_content(cells1, cells2, i + 1);
    }
}

/// The glyph sequence of one run span: one glyph per character, advancing one
/// cell width per column.
pub open spec fn shaped_glyphs(cells: Seq<Cell>, start: int, len: int, cw: int) -> Seq<GlyphPos> {
    Seq::new(
        len as nat,
        |i: int| GlyphPos { glyph: cells[start + i].ch as u32, x_off: #[verifier::truncate] ((i * cw) as u64) },
    )
}

/// The shaping context: cell metrics and a counter of shape calls, which
/// makes cache hits observable.
pub struct FontContext {
    pub metrics: CellMetrics,
    pub shape_calls: u64,
}

impl FontContext {
    pub fn new(char_width: u64, line_height: u64, ascent: u64) -> (ctx: FontContext)
        requires
            1 <= char_width,
            1 <= line_height,
            ascent <= line_height,
        ensures
            ctx.metrics == (CellMetrics { char_width, line_height, ascent }),
            ctx.metrics.wf(),
            ctx.shape_calls == 0,
    {
        FontContext { metrics: CellMetrics { char_width, line_height, ascent }, shape_calls: 0 }
    }

    pub fn cell_metrics(&self) -> (m: CellMetrics)
        ensures
            m == self.metrics,
    {
        self.metrics
    }

    pub fn get_shape_calls(&self) -> (n: u64)
        ensures
            n == self.shape_calls,
    {
        self.shape_calls
    }

    /// Partition a line into styled runs, none of them shaped yet.
    pub fn itemize(&self, cells: &Vec<Cell>) -> (runs: Vec<StyledRun>)
        ensures
            descs(runs@) == items_of(cells@),
            forall|k: int| 0 <= k < runs@.len() ==> (#[trigger] runs@[k]).glyphs is None,
    {
        let mut runs: Vec<StyledRun> = Vec::new();
        let mut i: usize = 0;
        while i < cells.len()
            invariant
                i <= cells@.len(),
                descs(runs@) + items_from(cells@, i as int) == items_of(cells@),
                forall|k: int| 0 <= k < runs@.len() ==> (#[trigger] runs@[k]).glyphs is None,
            decreases cells@.len() - i,
        {
            if cells[i].ch == ' ' {
                assert(items_from(cells@, i as int) == items_from(cells@, i + 1));
                i += 1;
            } else {
                let start = i;
                let a = cells[i].attrs;
                i += 1;
                while i < cells.len() && cells[i].ch != ' ' && cells[i].attrs == a
                    invariant
                        start < i <= cells@.len(),
                        start < cells@.len(),
                        a == cells@[start as int].attrs,
                        !cells@[start as int].is_blank(),
                        forall|j: int|
                            start <= j < i ==> !(#[trigger] cells@[j]).is_blank() && cells@[j].attrs
                                == a,
                        run_end(cells@, start as int) == run_end(cells@, i - 1),
                    decreases cells@.len() - i,
                {
                    assert(run_end(cells@, i - 1) == run_end(cells@, i as int));
                    i += 1;
                }
                proof {
                    assert(run_end(cells@, i - 1) == i);
                }
                let desc = Ghost(
                    RunDesc { start: start as int, len: i - start, attrs: a },
                );
                let ghost old_runs = runs@;
                runs.push(
                    StyledRun { start, len: i - start, attrs: a, glyphs: Option::None },
                );
                proof {
                    assert(items_from(cells@, start as int) == seq![desc@] + items_from(
                        cells@,
                        i as int,
                    ));
                    assert(descs(runs@) =~= descs(old_runs).push(desc@));
                    assert(descs(runs@) + items_from(cells@, i as int) =~= descs(old_runs) + (
                    seq![desc@] + items_from(cells@, i as int)));
                }
            }
        }
        proof {
            assert(items_from(cells@, cells@.len() as int) =~= Seq::<RunDesc>::empty());
            assert(descs(runs@) =~= descs(runs@) + items_from(cells@, cells@.len() as int));
        }
        runs
    }

    /// Shape one run's span: a pure function of the span's characters and the
    /// cell width. An empty span yields an empty glyph sequence. Each call
    /// bumps the shape counter.
    pub fn shape(&mut self, cells: &Vec<Cell>, start: usize, len: usize) -> (r: Vec<GlyphPos>)
        requires
            start + len <= cells@.len(),
            len * old(self).metrics.char_width <= u64::MAX,
        ensures
            r@ == shaped_glyphs(
                cells@,
                start as int,
                len as int,
                old(self).metrics.char_width as int,
            ),
            final(self).metrics == old(self).metrics,
            final(self).shape_calls == if old(self).shape_calls < u64::MAX {
                old(self).shape_calls + 1
            } else {
                old(self).shape_calls as int
            },
    {
        let cw = self.metrics.char_width;
        let total = cells.len();
        let mut r: Vec<GlyphPos> = Vec::new();
        let mut i: usize = 0;
        while i < len
            invariant
                i <= len,
                total == cells@.len(),
                start + len <= total,
                len * cw <= u64::MAX,
                cw == self.metrics.char_width,
                r@.len() == i,
                forall|j: int|
                    0 <= j < i ==> (#[trigger] r@[j]) == (GlyphPos {
                        glyph: cells@[start + j].ch as u32,
                        x_off: (j * cw) as u64,
                    }),
            decreases len - i,
        {
            proof {
                assert(i * cw <= len * cw) by (nonlinear_arith)
                    requires
                        0 <= i <= len,
                        0 <= cw,
                ;
            }
            let x_off = (i as u64) * cw;
            r.push(GlyphPos { glyph: cells[start + i].ch as u32, x_off });
            i += 1;
        }
        if self.shape_calls < u64::MAX {
            self.shape_calls = self.shape_calls + 1;
        }
        proof {
            assert(r@ =~= shaped_glyphs(
                cells@,
                start as int,
                len as int,
                old(self).metrics.char_width as int,
            ));
        }
        r
    }
}

} // verus!
