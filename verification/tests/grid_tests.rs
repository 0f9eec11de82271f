use nvim_ui::ui::Ui;
use nvim_ui::ui_model::{Attrs, Cell, HighlightUpdate, UiModel};

fn chars(s: &str) -> Vec<char> {
    s.chars().collect()
}

#[test]
fn resize_resets() {
    let mut ui = Ui::new();
    assert!(ui.on_resize(3, 4));
    let m = &ui.model;
    assert_eq!(m.get_rows(), 3);
    assert_eq!(m.get_cols(), 4);
    assert_eq!(m.get_cursor(), (0, 0));
    for r in 0..3 {
        assert!(m.line_dirty(r));
        for c in 0..4 {
            let cell = m.get_cell(r, c);
            assert_eq!(cell.ch, ' ');
            assert!(cell.dirty);
            assert_eq!(cell.attrs, Attrs::new());
        }
    }
}

#[test]
fn resize_rejects_zero_dimensions() {
    let mut ui = Ui::new();
    assert!(ui.on_resize(2, 5));
    assert!(!ui.on_resize(0, 5));
    assert!(!ui.on_resize(2, 0));
    // the grid is untouched by the rejected events
    assert_eq!(ui.model.get_rows(), 2);
    assert_eq!(ui.model.get_cols(), 5);
}

#[test]
fn cursor_goto_bounds_checked() {
    let mut ui = Ui::new();
    assert!(ui.on_resize(3, 4));
    assert!(ui.on_cursor_goto(1, 2));
    assert_eq!(ui.model.get_cursor(), (1, 2));
    assert!(!ui.on_cursor_goto(3, 0));
    assert!(!ui.on_cursor_goto(0, 4));
    assert_eq!(ui.model.get_cursor(), (1, 2));
}

#[test]
fn put_writes_cells_and_marks_line_dirty() {
    let mut ctx = nvim_ui::context::FontContext::new(8, 16, 12);
    let mut model = UiModel::new(2, 5);
    model.clear();
    // settle: consume the initial dirtiness, then write
    nvim_ui::render::shape_dirty(&mut ctx, &mut model);
    model.put(&chars("AB"), None);
    let a = model.get_cell(0, 0);
    let b = model.get_cell(0, 1);
    assert_eq!(a.ch, 'A');
    assert_eq!(b.ch, 'B');
    assert_eq!(a.attrs, Attrs::new());
    assert!(a.dirty && b.dirty);
    assert!(model.line_dirty(0));
    assert!(!model.line_dirty(1));
    // the write position advanced; the display cursor did not move
    assert_eq!(model.get_cursor(), (0, 0));
}

#[test]
fn put_truncates_at_right_edge() {
    let mut model = UiModel::new(1, 3);
    model.set_cursor(0, 1);
    model.put(&chars("XYZ"), None);
    assert_eq!(model.get_cell(0, 0).ch, ' ');
    assert_eq!(model.get_cell(0, 1).ch, 'X');
    assert_eq!(model.get_cell(0, 2).ch, 'Y');
}

#[test]
fn put_uses_pending_attributes() {
    let mut ui = Ui::new();
    assert!(ui.on_resize(1, 4));
    let update = HighlightUpdate {
        foreground: Some(0xFF0000),
        background: None,
        reverse: false,
        bold: true,
        italic: false,
    };
    ui.on_highlight_set(&update);
    ui.on_put(&chars("Q"));
    let cell: Cell = ui.model.get_cell(0, 0);
    assert!(cell.attrs.bold);
    assert!(!cell.attrs.italic);
    assert_eq!(cell.attrs.foreground.r, 255);
    assert_eq!(cell.attrs.foreground.g, 0);
    assert_eq!(cell.attrs.foreground.b, 0);
}

#[test]
fn clear_blanks_everything_and_marks_dirty() {
    let mut ui = Ui::new();
    assert!(ui.on_resize(2, 3));
    ui.on_put(&chars("AB"));
    ui.on_clear();
    for r in 0..2 {
        assert!(ui.model.line_dirty(r));
        for c in 0..3 {
            assert_eq!(ui.model.get_cell(r, c).ch, ' ');
        }
    }
}

#[test]
fn keypad_prefix_is_stripped() {
    let r = nvim_ui::ui::normalize_key_name(&chars("KP_7"));
    assert_eq!(r, chars("7"));
    let r = nvim_ui::ui::normalize_key_name(&chars("KP_Add"));
    assert_eq!(r, chars("Add"));
    let r = nvim_ui::ui::normalize_key_name(&chars("Left"));
    assert_eq!(r, chars("Left"));
    let r = nvim_ui::ui::normalize_key_name(&chars("KP"));
    assert_eq!(r, chars("KP"));
}
