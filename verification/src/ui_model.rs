//! The grid model: cells, styled runs, lines, and the mutable 2-D buffer
//! together with its cursor state and per-line dirty tracking.

use vstd::prelude::*;
use crate::color::{Color, spec_split_color, split_color, spec_default_fg, spec_default_bg,
    default_fg, default_bg};

verus! {

/// Resolved display attributes of one cell. Reverse video is kept as a flag
/// and applied when colors are resolved, not by swapping the stored pair.
#[derive(Clone, Copy, PartialEq, Eq, Structural, Debug)]
pub struct Attrs {
    pub foreground: Color,
    pub background: Color,
    pub bold: bool,
    pub italic: bool,
    pub reverse: bool,
}

/// One incremental highlight change: recognized fields only; an absent field
/// leaves the default untouched.
#[derive(Clone, Copy, PartialEq, Eq, Structural, Debug)]
pub struct HighlightUpdate {
    pub foreground: Option<u64>,
    pub background: Option<u64>,
    pub reverse: bool,
    pub bold: bool,
    pub italic: bool,
}

impl Attrs {
    /// Plain text on the default colors.
    pub open spec fn spec_default() -> Attrs {
        Attrs {
            foreground: spec_default_fg(),
            background: spec_default_bg(),
            bold: false,
            italic: false,
            reverse: false,
        }
    }

    /// The attribute set a highlight update resolves to.
    pub open spec fn spec_from_update(u: HighlightUpdate) -> Attrs {
        Attrs {
            foreground: match u.foreground {
                Option::Some(p) => spec_split_color(p),
                Option::None => spec_default_fg(),
            },
            background: match u.background {
                Option::Some(p) => spec_split_color(p),
                Option::None => spec_default_bg(),
            },
            bold: u.bold,
            italic: u.italic,
            reverse: u.reverse,
        }
    }

    pub fn new() -> (a: Attrs)
        ensures
            a == Attrs::spec_default(),
    {
        Attrs {
            foreground: default_fg(),
            background: default_bg(),
            bold: false,
            italic: false,
            reverse: false,
        }
    }

    /// Build the pending attribute set from one highlight update.
    pub fn from_update(u: &HighlightUpdate) -> (a: Attrs)
        ensures
            a == Attrs::spec_from_update(*u),
    {
        let foreground = match u.foreground {
            Option::Some(p) => split_color(p),
            Option::None => default_fg(),
        };
        let background = match u.background {
            Option::Some(p) => split_color(p),
            Option::None => default_bg(),
        };
        Attrs { foreground, background, bold: u.bold, italic: u.italic, reverse: u.reverse }
    }
}

/// One character position of the grid.
#[derive(Clone, Copy, PartialEq, Eq, Structural, Debug)]
pub struct Cell {
    pub ch: char,
    pub attrs: Attrs,
    pub dirty: bool,
}

impl Cell {
    /// A blank cell as produced by `clear` and `resize`: dirty, so that the
    /// next shape pass rebuilds the line it sits in.
    pub open spec fn spec_blank() -> Cell {
        Cell { ch: ' ', attrs: Attrs::spec_default(), dirty: true }
    }

    /// Blank cells render as plain background and never join a styled run.
    pub open spec fn is_blank(self) -> bool {
        self.ch == ' '
    }

    pub fn new_blank() -> (c: Cell)
        ensures
            c == Cell::spec_blank(),
    {
        Cell { ch: ' ', attrs: Attrs::new(), dirty: true }
    }
}

/// One shaped glyph: a glyph identifier and its pixel offset from the start
/// of its run.
#[derive(Clone, Copy, PartialEq, Eq, Structural, Debug)]
pub struct GlyphPos {
    pub glyph: u32,
    pub x_off: u64,
}

/// A styled run: a maximal same-attribute span of non-blank columns, the unit
/// of shaping. `glyphs` is `None` until the shaping stage fills it in.
pub struct StyledRun {
    pub start: usize,
    pub len: usize,
    pub attrs: Attrs,
    pub glyphs: Option<Vec<GlyphPos>>,
}

impl StyledRun {
    pub open spec fn covers(self, c: int) -> bool {
        self.start <= c < self.start + self.len
    }
}

/// Bounds of one run within a line of `cols` columns.
pub open spec fn wf_run(r: StyledRun, cols: int) -> bool {
    1 <= r.len && r.start + r.len <= cols
}

/// One grid line: its cells, the per-column run index (`item_line`), the run
/// arena, and the line-level dirty flag.
pub struct Line {
    pub cells: Vec<Cell>,
    pub item_line: Vec<Option<usize>>,
    pub runs: Vec<StyledRun>,
    pub dirty_line: bool,
}

impl Line {
    /// Structural well-formedness: the run index is as long as the line, every
    /// run lies within the line, runs have distinct starts, and every index
    /// entry points into the run arena.
    pub open spec fn wf(self) -> bool {
        &&& self.item_line@.len() == self.cells@.len()
        &&& forall|k: int|
            0 <= k < self.runs@.len() ==> wf_run(#[trigger] self.runs@[k], self.cells@.len() as int)
        &&& forall|j: int, k: int|
            0 <= j < self.runs@.len() && 0 <= k < self.runs@.len() && j != k ==> (#[trigger] self.runs@[j]).start
                != (#[trigger] self.runs@[k]).start
        &&& forall|c: int|
            0 <= c < self.item_line@.len() && (#[trigger] self.item_line@[c]) is Some
                ==> self.item_line@[c]->0 < self.runs@.len()
        &&& forall|i: int|
            0 <= i < self.cells@.len() && (#[trigger] self.cells@[i]).dirty ==> self.dirty_line
    }
}

/// A freshly-blanked line: every cell blank and dirty, no runs, empty index,
/// line marked dirty.
pub open spec fn is_fresh_line(line: Line, cols: int) -> bool {
    &&& line.cells@.len() == cols
    &&& forall|i: int| 0 <= i < cols ==> (#[trigger] line.cells@[i]) == Cell::spec_blank()
    &&& line.item_line@.len() == cols
    &&& forall|i: int| 0 <= i < cols ==> (#[trigger] line.item_line@[i]) is None
    &&& line.runs@.len() == 0
    &&& line.dirty_line
}

/// Build one blank, all-dirty line.
pub fn new_fresh_line(cols: usize) -> (l: Line)
    ensures
        is_fresh_line(l, cols as int),
        l.wf(),
{
    let mut cells: Vec<Cell> = Vec::new();
    let mut item_line: Vec<Option<usize>> = Vec::new();
    let mut i: usize = 0;
    while i < cols
        invariant
            i <= cols,
            cells@.len() == i,
            item_line@.len() == i,
            forall|j: int| 0 <= j < i ==> (#[trigger] cells@[j]) == Cell::spec_blank(),
            forall|j: int| 0 <= j < i ==> (#[trigger] item_line@[j]) is None,
        decreases cols - i,
    {
        cells.push(Cell::new_blank());
        item_line.push(Option::None);
        i += 1;
    }
    Line { cells, item_line, runs: Vec::new(), dirty_line: true }
}

/// The attribute set a write uses: the supplied one, or the defaults.
pub open spec fn spec_effective_attrs(attrs: Option<Attrs>) -> Attrs {
    match attrs {
        Option::Some(a) => a,
        Option::None => Attrs::spec_default(),
    }
}

/// How many characters of a `put` land on the line: the text length,
/// truncated at the right edge.
pub open spec fn spec_put_count(text_len: int, cols: int, start: int) -> int {
    if text_len <= cols - start {
        text_len
    } else {
        cols - start
    }
}

/// The grid model: all lines, the display cursor, the write position, and the
/// fixed dimensions. Replaced wholesale on resize.
pub struct UiModel {
    pub rows: usize,
    pub cols: usize,
    pub lines: Vec<Line>,
    pub cur_row: usize,
    pub cur_col: usize,
    pub wr_row: usize,
    pub wr_col: usize,
}

impl UiModel {
    pub open spec fn wf(self) -> bool {
        &&& 1 <= self.rows
        &&& 1 <= self.cols
        &&& self.lines@.len() == self.rows
        &&& forall|r: int|
            0 <= r < self.lines@.len() ==> (#[trigger] self.lines@[r]).wf()
                && self.lines@[r].cells@.len() == self.cols
        &&& self.cur_row < self.rows
        &&& self.cur_col < self.cols
        &&& self.wr_row < self.rows
        &&& self.wr_col <= self.cols
    }

    /// A freshly-built model: every line fresh, both cursors at the origin.
    pub open spec fn is_fresh(self, rows: int, cols: int) -> bool {
        &&& self.rows == rows
        &&& self.cols == cols
        &&& self.lines@.len() == rows
        &&& forall|r: int| 0 <= r < rows ==> is_fresh_line(#[trigger] self.lines@[r], cols)
        &&& self.cur_row == 0
        &&& self.cur_col == 0
        &&& self.wr_row == 0
        &&& self.wr_col == 0
    }

    /// A blank grid of the given dimensions; all lines start dirty so the
    /// first shape pass visits everything.
    pub fn new(rows: usize, cols: usize) -> (m: UiModel)
        requires
            1 <= rows,
            1 <= cols,
        ensures
            m.wf(),
            m.is_fresh(rows as int, cols as int),
    {
        let mut lines: Vec<Line> = Vec::new();
        let mut r: usize = 0;
        while r < rows
            invariant
                r <= rows,
                lines@.len() == r,
                forall|j: int| 0 <= j < r ==> is_fresh_line(#[trigger] lines@[j], cols as int),
                forall|j: int| 0 <= j < r ==> (#[trigger] lines@[j]).wf(),
                forall|j: int| 0 <= j < r ==> (#[trigger] lines@[j]).cells@.len() == cols,
            decreases rows - r,
        {
            lines.push(new_fresh_line(cols));
            r += 1;
        }
        UiModel { rows, cols, lines, cur_row: 0, cur_col: 0, wr_row: 0, wr_col: 0 }
    }

    pub fn get_rows(&self) -> (r: usize)
        ensures
            r == self.rows,
    {
        self.rows
    }

    pub fn get_cols(&self) -> (c: usize)
        ensures
            c == self.cols,
    {
        self.cols
    }

    /// The display cursor, read by the paint phase.
    pub fn get_cursor(&self) -> (rc: (usize, usize))
        ensures
            rc.0 == self.cur_row,
            rc.1 == self.cur_col,
    {
        (self.cur_row, self.cur_col)
    }

    /// One cell, by position.
    pub fn get_cell(&self, row: usize, col: usize) -> (c: Cell)
        requires
            self.wf(),
            row < self.rows,
            col < self.cols,
        ensures
            c == self.lines@[row as int].cells@[col as int],
    {
        self.lines[row].cells[col]
    }

    /// Whether a line is marked dirty.
    pub fn line_dirty(&self, row: usize) -> (d: bool)
        requires
            self.wf(),
            row < self.rows,
        ensures
            d == self.lines@[row as int].dirty_line,
    {
        self.lines[row].dirty_line
    }

    /// Move the display cursor and the write position. Callers keep both
    /// within bounds; the event adapter rejects out-of-range protocol input
    /// before it gets here.
    pub fn set_cursor(&mut self, row: usize, col: usize)
        requires
            old(self).wf(),
            row < old(self).rows,
            col < old(self).cols,
        ensures
            final(self).wf(),
            *final(self) == (UiModel {
                cur_row: row,
                cur_col: col,
                wr_row: row,
                wr_col: col,
                ..*old(self)
            }),
    {
        self.cur_row = row;
        self.cur_col = col;
        self.wr_row = row;
        self.wr_col = col;
    }

    /// Blank every cell and mark every line dirty; dimensions and cursors
    /// stay.
    pub fn clear(&mut self)
        requires
            old(self).wf(),
        ensures
            final(self).wf(),
            final(self).rows == old(self).rows,
            final(self).cols == old(self).cols,
            final(self).cur_row == old(self).cur_row,
            final(self).cur_col == old(self).cur_col,
            final(self).wr_row == old(self).wr_row,
            final(self).wr_col == old(self).wr_col,
            final(self).lines@.len() == old(self).lines@.len(),
            forall|r: int|
                0 <= r < final(self).lines@.len() ==> is_fresh_line(
                    #[trigger] final(self).lines@[r],
                    old(self).cols as int,
                ),
    {
        let rows = self.rows;
        let cols = self.cols;
        let mut r: usize = 0;
        while r < rows
            invariant
                r <= rows,
                self.rows == rows,
                self.cols == cols,
                self.lines@.len() == rows,
                self.wf(),
                self.cur_row == old(self).cur_row,
                self.cur_col == old(self).cur_col,
                self.wr_row == old(self).wr_row,
                self.wr_col == old(self).wr_col,
                forall|j: int| 0 <= j < r ==> is_fresh_line(#[trigger] self.lines@[j], cols as int),
            decreases rows - r,
        {
            self.lines[r] = new_fresh_line(cols);
            r += 1;
        }
    }

    /// Write `text` at the write position with the supplied attributes (or
    /// the defaults), advancing the write position and marking the touched
    /// line dirty. Writing past the right edge truncates silently.
    pub fn put(&mut self, text: &Vec<char>, attrs: Option<Attrs>)
        requires
            old(self).wf(),
        ensures
            final(self).wf(),
            final(self).rows == old(self).rows,
            final(self).cols == old(self).cols,
            final(self).cur_row == old(self).cur_row,
            final(self).cur_col == old(self).cur_col,
            final(self).wr_row == old(self).wr_row,
            final(self).wr_col == old(self).wr_col + spec_put_count(
                text@.len() as int,
                old(self).cols as int,
                old(self).wr_col as int,
            ),
            final(self).lines@.len() == old(self).lines@.len(),
            forall|r: int|
                0 <= r < final(self).lines@.len() && r != old(self).wr_row ==> (
                #[trigger] final(self).lines@[r]) == old(self).lines@[r],
            ({
                let row = old(self).wr_row as int;
                let start = old(self).wr_col as int;
                let n = spec_put_count(text@.len() as int, old(self).cols as int, start);
                let eff = spec_effective_attrs(attrs);
                &&& final(self).lines@[row].cells@.len() == old(self).lines@[row].cells@.len()
                &&& forall|i: int|
                    start <= i < start + n ==> (#[trigger] final(self).lines@[row].cells@[i])
                        == (Cell { ch: text@[i - start], attrs: eff, dirty: true })
                &&& forall|i: int|
                    0 <= i < final(self).lines@[row].cells@.len() && !(start <= i < start + n)
                        ==> (#[trigger] final(self).lines@[row].cells@[i])
                        == old(self).lines@[row].cells@[i]
                &&& final(self).lines@[row].item_line == old(self).lines@[row].item_line
                &&& final(self).lines@[row].runs == old(self).lines@[row].runs
                &&& final(self).lines@[row].dirty_line == (n > 0 || old(
                    self,
                ).lines@[row].dirty_line)
            }),
    {
        let row = self.wr_row;
        let start = self.wr_col;
        let eff = match attrs {
            Option::Some(a) => a,
            Option::None => Attrs::new(),
        };
        let n = if text.len() <= self.cols - start {
            text.len()
        } else {
            self.cols - start
        };
        if n > 0 {
            self.lines[row].dirty_line = true;
        }
        let mut i: usize = 0;
        while i < n
            invariant
                old(self).wf(),
                i <= n,
                row == old(self).wr_row,
                start == old(self).wr_col,
                n == spec_put_count(text@.len() as int, old(self).cols as int, start as int),
                start + n <= old(self).cols,
                n <= text@.len(),
                eff == spec_effective_attrs(attrs),
                self.rows == old(self).rows,
                self.cols == old(self).cols,
                self.cur_row == old(self).cur_row,
                self.cur_col == old(self).cur_col,
                self.wr_row == old(self).wr_row,
                self.wr_col == old(self).wr_col,
                self.lines@.len() == old(self).lines@.len(),
                self.wf(),
                forall|r: int|
                    0 <= r < self.lines@.len() && r != row ==> (#[trigger] self.lines@[r]) == old(
                        self,
                    ).lines@[r],
                self.lines@[row as int].cells@.len() == old(
                    self,
                ).lines@[row as int].cells@.len(),
                forall|j: int|
                    start <= j < start + i ==> (#[trigger] self.lines@[row as int].cells@[j]) == (
                    Cell { ch: text@[j - start], attrs: eff, dirty: true }),
                forall|j: int|
                    0 <= j < self.lines@[row as int].cells@.len() && !(start <= j < start + i)
                        ==> (#[trigger] self.lines@[row as int].cells@[j]) == old(
                        self,
                    ).lines@[row as int].cells@[j],
                self.lines@[row as int].item_line == old(self).lines@[row as int].item_line,
                self.lines@[row as int].runs == old(self).lines@[row as int].runs,
                self.lines@[row as int].dirty_line == (n > 0 || old(
                    self,
                ).lines@[row as int].dirty_line),
            decreases n - i,
        {
            self.lines[row].cells[start + i] = Cell { ch: text[i], attrs: eff, dirty: true };
            i += 1;
        }
        self.wr_col = start + n;
    }
}

} // verus!
