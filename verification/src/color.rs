//! Colors and the color-resolution policy.
//!
//! A [`Color`] carries three 8-bit channels; the display layer maps a channel
//! to the unit interval by dividing by 255. Resolution is a pure function of
//! the attribute set and the frame defaults: reverse video swaps foreground
//! and background at resolution time, and a background equal to the frame
//! default resolves to `None` so the compositor can skip a redundant fill.

use vstd::prelude::*;
use crate::ui_model::{Attrs, Cell};

verus! {

/// An RGB color with 8-bit channels.
#[derive(Clone, Copy, PartialEq, Eq, Structural, Debug)]
pub struct Color {
    pub r: u8,
    pub g: u8,
    pub b: u8,
}

/// The default foreground (white).
pub open spec fn spec_default_fg() -> Color {
    Color { r: 255, g: 255, b: 255 }
}

/// The default background (black).
pub open spec fn spec_default_bg() -> Color {
    Color { r: 0, g: 0, b: 0 }
}

pub fn default_fg() -> (c: Color)
    ensures
        c == spec_default_fg(),
{
    Color { r: 255, g: 255, b: 255 }
}

pub fn default_bg() -> (c: Color)
    ensures
        c == spec_default_bg(),
{
    Color { r: 0, g: 0, b: 0 }
}

/// The channels of a packed 24-bit color: bits 16..24 are red, 8..16 green,
/// 0..8 blue.
pub open spec fn spec_split_color(packed: u64) -> Color {
    Color {
        r: ((packed >> 16) & 0xff) as u8,
        g: ((packed >> 8) & 0xff) as u8,
        b: (packed & 0xff) as u8,
    }
}

/// Decompose a packed 24-bit color into its three 8-bit channels.
pub fn split_color(packed: u64) -> (c: Color)
    ensures
        c == spec_split_color(packed),
{
    Color {
        r: ((packed >> 16) & 0xff) as u8,
        g: ((packed >> 8) & 0xff) as u8,
        b: (packed & 0xff) as u8,
    }
}

/// Interaction mode of the editor; decides the cursor overlay's width.
#[derive(Clone, Copy, PartialEq, Eq, Structural, Debug)]
pub enum Mode {
    Normal,
    Insert,
    Visual,
}

/// Frame-wide default colors against which cell attributes are resolved.
#[derive(Clone, Copy, PartialEq, Eq, Structural, Debug)]
pub struct ColorModel {
    pub bg_color: Color,
    pub fg_color: Color,
}

impl ColorModel {
    /// The foreground a cell paints with: reverse video swaps the pair.
    pub open spec fn spec_resolved_fg(self, a: Attrs) -> Color {
        if a.reverse {
            a.background
        } else {
            a.foreground
        }
    }

    /// The background a cell sits on: reverse video swaps the pair.
    pub open spec fn spec_resolved_bg(self, a: Attrs) -> Color {
        if a.reverse {
            a.foreground
        } else {
            a.background
        }
    }

    /// Background resolution with the default-background optimization:
    /// `None` means the frame clear already painted this cell's background.
    pub open spec fn spec_cell_bg(self, a: Attrs) -> Option<Color> {
        if self.spec_resolved_bg(a) == self.bg_color {
            None
        } else {
            Some(self.spec_resolved_bg(a))
        }
    }

    pub fn new() -> (m: ColorModel)
        ensures
            m.bg_color == spec_default_bg(),
            m.fg_color == spec_default_fg(),
    {
        ColorModel { bg_color: default_bg(), fg_color: default_fg() }
    }

    /// Resolve the pair a shaped cell is drawn with. A pure function of the
    /// cell's attributes and the frame defaults: resolving twice for an
    /// unchanged cell yields identical output.
    pub fn cell_colors(&self, cell: &Cell) -> (r: (Option<Color>, Color))
        ensures
            r.0 == self.spec_cell_bg(cell.attrs),
            r.1 == self.spec_resolved_fg(cell.attrs),
    {
        (self.cell_bg(cell), if cell.attrs.reverse {
            cell.attrs.background
        } else {
            cell.attrs.foreground
        })
    }

    /// Background-only resolution, used for cells outside every styled run.
    pub fn cell_bg(&self, cell: &Cell) -> (r: Option<Color>)
        ensures
            r == self.spec_cell_bg(cell.attrs),
    {
        let bg = if cell.attrs.reverse {
            cell.attrs.foreground
        } else {
            cell.attrs.background
        };
        if bg == self.bg_color {
            None
        } else {
            Some(bg)
        }
    }

    /// The background under the cursor overlay, never elided: the cursor may
    /// invert it regardless of the default-background optimization.
    pub fn actual_cell_bg(&self, cell: &Cell) -> (r: Color)
        ensures
            r == self.spec_resolved_bg(cell.attrs),
    {
        if cell.attrs.reverse {
            cell.attrs.foreground
        } else {
            cell.attrs.background
        }
    }
}

} // verus!
