//! The event adapter: an owned context holding the grid model and the
//! pending attribute set, mutated only through typed incremental update
//! events. Out-of-range protocol coordinates are rejected explicitly rather
//! than corrupting the grid.

use vstd::prelude::*;
use crate::ui_model::{UiModel, Attrs, HighlightUpdate, spec_effective_attrs, spec_put_count, Cell,
    is_fresh_line};

verus! {

/// The presentation state: the grid model and the attributes pending for the
/// next writes. One owner mutates it; there is no hidden global.
pub struct Ui {
    pub model: UiModel,
    pub cur_attrs: Option<Attrs>,
}

impl Ui {
    pub open spec fn wf(self) -> bool {
        self.model.wf()
    }

    /// A fresh context over a minimal one-cell grid; the first resize event
    /// replaces the model wholesale.
    pub fn new() -> (ui: Ui)
        ensures
            ui.wf(),
            ui.model.is_fresh(1, 1),
            ui.cur_attrs is None,
    {
        Ui { model: UiModel::new(1, 1), cur_attrs: Option::None }
    }

    /// Move the display cursor. Coordinates outside the grid are rejected:
    /// the result says whether the event was applied.
    pub fn on_cursor_goto(&mut self, row: usize, col: usize) -> (applied: bool)
        requires
            old(self).wf(),
        ensures
            final(self).wf(),
            applied == (row < old(self).model.rows && col < old(self).model.cols),
            applied ==> final(self).model == (UiModel {
                cur_row: row,
                cur_col: col,
                wr_row: row,
                wr_col: col,
                ..old(self).model
            }) && final(self).cur_attrs == old(self).cur_attrs,
            !applied ==> *final(self) == *old(self),
    {
        if row < self.model.rows && col < self.model.cols {
            self.model.set_cursor(row, col);
            true
        } else {
            false
        }
    }

    /// Write text at the write position with the pending attributes.
    pub fn on_put(&mut self, text: &Vec<char>)
        requires
            old(self).wf(),
        ensures
            final(self).wf(),
            final(self).cur_attrs == old(self).cur_attrs,
            final(self).model.wr_col == old(self).model.wr_col + spec_put_count(
                text@.len() as int,
                old(self).model.cols as int,
                old(self).model.wr_col as int,
            ),
            ({
                let row = old(self).model.wr_row as int;
                let start = old(self).model.wr_col as int;
                let n = spec_put_count(text@.len() as int, old(self).model.cols as int, start);
                let eff = spec_effective_attrs(old(self).cur_attrs);
                &&& forall|i: int|
                    start <= i < start + n ==> (#[trigger] final(self).model.lines@[row].cells@[i])
                        == (Cell { ch: text@[i - start], attrs: eff, dirty: true })
                &&& forall|r: int|
                    0 <= r < final(self).model.lines@.len() && r != row ==> (
                    #[trigger] final(self).model.lines@[r]) == old(self).model.lines@[r]
                &&& final(self).model.lines@[row].dirty_line == (n > 0 || old(
                    self,
                ).model.lines@[row].dirty_line)
                &&& final(self).model.rows == old(self).model.rows
                &&& final(self).model.cols == old(self).model.cols
                &&& final(self).model.cur_row == old(self).model.cur_row
                &&& final(self).model.cur_col == old(self).model.cur_col
            }),
    {
        self.model.put(text, self.cur_attrs);
    }

    /// Blank the whole grid and mark every line dirty.
    pub fn on_clear(&mut self)
        requires
            old(self).wf(),
        ensures
            final(self).wf(),
            final(self).cur_attrs == old(self).cur_attrs,
            final(self).model.rows == old(self).model.rows,
            final(self).model.cols == old(self).model.cols,
            final(self).model.cur_row == old(self).model.cur_row,
            final(self).model.cur_col == old(self).model.cur_col,
            final(self).model.lines@.len() == old(self).model.lines@.len(),
            forall|r: int|
                0 <= r < final(self).model.lines@.len() ==> is_fresh_line(
                    #[trigger] final(self).model.lines@[r],
                    old(self).model.cols as int,
                ),
    {
        self.model.clear();
    }

    /// Replace the grid wholesale with a blank one of the new dimensions:
    /// a resize is a reset, not a reflow. Zero dimensions are rejected.
    pub fn on_resize(&mut self, rows: usize, cols: usize) -> (applied: bool)
        requires
            old(self).wf(),
        ensures
            final(self).wf(),
            applied == (1 <= rows && 1 <= cols),
            applied ==> final(self).model.is_fresh(rows as int, cols as int),
            !applied ==> *final(self) == *old(self),
            final(self).cur_attrs == old(self).cur_attrs,
    {
        if 1 <= rows && 1 <= cols {
            self.model = UiModel::new(rows, cols);
            true
        } else {
            false
        }
    }

    /// Set the pending attributes from one highlight update.
    pub fn on_highlight_set(&mut self, update: &HighlightUpdate)
        requires
            old(self).wf(),
        ensures
            final(self).wf(),
            final(self).model == old(self).model,
            final(self).cur_attrs == Some(Attrs::spec_from_update(*update)),
    {
        self.cur_attrs = Option::Some(Attrs::from_update(update));
    }
}

/// Whether a key name carries the numeric-keypad prefix `KP_`.
pub open spec fn spec_has_kp_prefix(name: Seq<char>) -> bool {
    name.len() >= 3 && name[0] == 'K' && name[1] == 'P' && name[2] == '_'
}

/// Normalize a key name before it is forwarded to the editor process:
/// numeric-keypad names lose their `KP_` prefix, so a keypad key reports as
/// its base name; every other name passes through unchanged.
pub fn normalize_key_name(name: &Vec<char>) -> (r: Vec<char>)
    ensures
        spec_has_kp_prefix(name@) ==> r@ == name@.skip(3),
        !spec_has_kp_prefix(name@) ==> r@ == name@,
{
    let has_prefix = name.len() >= 3 && name[0] == 'K' && name[1] == 'P' && name[2] == '_';
    if has_prefix {
        let mut r: Vec<char> = Vec::new();
        let mut i: usize = 3;
        while i < name.len()
            invariant
                3 <= i <= name@.len(),
                r@ == name@.subrange(3, i as int),
            decreases name@.len() - i,
        {
            r.push(name[i]);
            proof {
                assert(r@ =~= name@.subrange(3, i + 1));
            }
            i += 1;
        }
        proof {
            assert(name@.subrange(3, name@.len() as int) =~= name@.skip(3));
        }
        r
    } else {
        let mut r: Vec<char> = Vec::new();
        let mut i: usize = 0;
        while i < name.len()
            invariant
                i <= name@.len(),
                r@ == name@.subrange(0, i as int),
            decreases name@.len() - i,
        {
            r.push(name[i]);
            proof {
                assert(r@ =~= name@.subrange(0, i + 1));
            }
            i += 1;
        }
        proof {
            assert(name@.subrange(0, name@.len() as int) =~= name@);
        }
        r
    }
}

} // verus!
