use nvim_ui::color::{split_color, Color, ColorModel, default_bg, default_fg};
use nvim_ui::ui::Ui;
use nvim_ui::ui_model::HighlightUpdate;

fn chars(s: &str) -> Vec<char> {
    s.chars().collect()
}

#[test]
fn split_color_decomposes_channels() {
    let c = split_color(0xFF8040);
    assert_eq!(c, Color { r: 255, g: 128, b: 64 });
    let c = split_color(0x000000);
    assert_eq!(c, Color { r: 0, g: 0, b: 0 });
    let c = split_color(0x0102FF);
    assert_eq!(c, Color { r: 1, g: 2, b: 255 });
    // only the low 24 bits carry color
    let c = split_color(0xAA_0102FF);
    assert_eq!(c, Color { r: 1, g: 2, b: 255 });
}

#[test]
fn default_cell_uses_default_background() {
    let cm = ColorModel::new();
    let mut ui = Ui::new();
    assert!(ui.on_resize(1, 2));
    ui.on_put(&chars("A"));
    let cell = ui.model.get_cell(0, 0);
    let (bg, fg) = cm.cell_colors(&cell);
    // the frame clear already painted the default background
    assert_eq!(bg, None);
    assert_eq!(fg, default_fg());
}

#[test]
fn reverse_video_swaps_resolved_pair() {
    let cm = ColorModel::new();
    let mut ui = Ui::new();
    assert!(ui.on_resize(1, 2));
    let update = HighlightUpdate {
        foreground: None,
        background: None,
        reverse: true,
        bold: false,
        italic: false,
    };
    ui.on_highlight_set(&update);
    ui.on_put(&chars("X"));
    let cell = ui.model.get_cell(0, 0);
    let (bg, fg) = cm.cell_colors(&cell);
    // the resolved pair is the swapped pair relative to the defaults
    assert_eq!(bg, Some(default_fg()));
    assert_eq!(fg, default_bg());
    // the stored attributes themselves are not mutated by resolution
    assert_eq!(cell.attrs.foreground, default_fg());
    assert_eq!(cell.attrs.background, default_bg());
    assert_eq!(cm.actual_cell_bg(&cell), default_fg());
}

#[test]
fn color_resolution_is_idempotent() {
    let cm = ColorModel::new();
    let mut ui = Ui::new();
    assert!(ui.on_resize(1, 2));
    let update = HighlightUpdate {
        foreground: Some(0x123456),
        background: Some(0x654321),
        reverse: false,
        bold: false,
        italic: true,
    };
    ui.on_highlight_set(&update);
    ui.on_put(&chars("Z"));
    let cell = ui.model.get_cell(0, 0);
    let first = cm.cell_colors(&cell);
    let second = cm.cell_colors(&cell);
    assert_eq!(first, second);
    assert_eq!(cm.cell_bg(&cell), cm.cell_bg(&cell));
    assert_eq!(cm.actual_cell_bg(&cell), cm.actual_cell_bg(&cell));
    // a non-default background is resolved explicitly
    assert_eq!(first.0, Some(Color { r: 0x65, g: 0x43, b: 0x21 }));
    assert_eq!(first.1, Color { r: 0x12, g: 0x34, b: 0x56 });
}

#[test]
fn unrecognized_fields_leave_defaults() {
    // an update that names no color keeps the default pair
    let mut ui = Ui::new();
    assert!(ui.on_resize(1, 1));
    let update = HighlightUpdate {
        foreground: None,
        background: None,
        reverse: false,
        bold: false,
        italic: false,
    };
    ui.on_highlight_set(&update);
    ui.on_put(&chars("A"));
    let cell = ui.model.get_cell(0, 0);
    assert_eq!(cell.attrs.foreground, default_fg());
    assert_eq!(cell.attrs.background, default_bg());
}
