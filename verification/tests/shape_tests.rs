use nvim_ui::context::FontContext;
use nvim_ui::render::shape_dirty;
use nvim_ui::ui::Ui;
use nvim_ui::ui_model::{HighlightUpdate, UiModel};

fn chars(s: &str) -> Vec<char> {
    s.chars().collect()
}

fn bold() -> HighlightUpdate {
    HighlightUpdate { foreground: None, background: None, reverse: false, bold: true, italic: false }
}

#[test]
fn dirty_convergence() {
    let mut ctx = FontContext::new(8, 16, 12);
    let mut ui = Ui::new();
    assert!(ui.on_resize(3, 8));
    ui.on_put(&chars("one"));
    assert!(ui.on_cursor_goto(1, 2));
    ui.on_put(&chars("two"));
    shape_dirty(&mut ctx, &mut ui.model);
    for r in 0..3 {
        assert!(!ui.model.line_dirty(r));
        for c in 0..8 {
            assert!(!ui.model.get_cell(r, c).dirty);
        }
    }
}

#[test]
fn runs_partition_the_line() {
    let mut ctx = FontContext::new(8, 16, 12);
    let mut ui = Ui::new();
    assert!(ui.on_resize(1, 8));
    ui.on_put(&chars("AB"));
    ui.on_highlight_set(&bold());
    assert!(ui.on_cursor_goto(0, 3));
    ui.on_put(&chars("CD"));
    shape_dirty(&mut ctx, &mut ui.model);

    let line = &ui.model.lines[0];
    assert_eq!(line.runs.len(), 2);
    assert_eq!((line.runs[0].start, line.runs[0].len), (0, 2));
    assert_eq!((line.runs[1].start, line.runs[1].len), (3, 2));
    assert!(!line.runs[0].attrs.bold);
    assert!(line.runs[1].attrs.bold);
    // the run index covers exactly the runs' columns
    assert_eq!(line.item_line[0], Some(0));
    assert_eq!(line.item_line[1], Some(0));
    assert_eq!(line.item_line[2], None);
    assert_eq!(line.item_line[3], Some(1));
    assert_eq!(line.item_line[4], Some(1));
    for c in 5..8 {
        assert_eq!(line.item_line[c], None);
    }
}

#[test]
fn adjacent_same_attribute_cells_merge_into_one_run() {
    let mut ctx = FontContext::new(8, 16, 12);
    let mut model = UiModel::new(1, 6);
    model.put(&chars("hello"), None);
    shape_dirty(&mut ctx, &mut model);
    assert_eq!(model.lines[0].runs.len(), 1);
    assert_eq!(model.lines[0].runs[0].start, 0);
    assert_eq!(model.lines[0].runs[0].len, 5);
}

#[test]
fn shaping_is_deterministic_and_total() {
    let mut ctx = FontContext::new(8, 16, 12);
    let mut model = UiModel::new(1, 4);
    model.put(&chars("ok"), None);
    let cells = model.lines[0].cells.clone();
    let a = ctx.shape(&cells, 0, 2);
    let b = ctx.shape(&cells, 0, 2);
    assert_eq!(a, b);
    assert_eq!(a.len(), 2);
    assert_eq!(a[0].glyph, 'o' as u32);
    assert_eq!(a[1].glyph, 'k' as u32);
    assert_eq!(a[0].x_off, 0);
    assert_eq!(a[1].x_off, 8);
    // an empty span yields an empty glyph sequence, not an error
    let e = ctx.shape(&cells, 0, 0);
    assert!(e.is_empty());
    assert_eq!(ctx.get_shape_calls(), 3);
}

#[test]
fn unchanged_runs_keep_cached_glyphs() {
    let mut ctx = FontContext::new(8, 16, 12);
    let mut ui = Ui::new();
    assert!(ui.on_resize(1, 8));
    ui.on_put(&chars("AB"));
    ui.on_highlight_set(&bold());
    assert!(ui.on_cursor_goto(0, 4));
    ui.on_put(&chars("CD"));
    shape_dirty(&mut ctx, &mut ui.model);
    assert_eq!(ctx.get_shape_calls(), 2);
    let cached = ui.model.lines[0].runs[1].glyphs.clone().unwrap();

    // rewrite only the first run; the second run's cells do not change
    let plain = HighlightUpdate {
        foreground: None,
        background: None,
        reverse: false,
        bold: false,
        italic: false,
    };
    ui.on_highlight_set(&plain);
    assert!(ui.on_cursor_goto(0, 0));
    ui.on_put(&chars("AX"));
    shape_dirty(&mut ctx, &mut ui.model);
    // exactly one run was reshaped
    assert_eq!(ctx.get_shape_calls(), 3);
    // the untouched run's glyph sequence is byte-identical
    assert_eq!(ui.model.lines[0].runs[1].glyphs.clone().unwrap(), cached);
    assert_eq!(ui.model.lines[0].runs[0].glyphs.clone().unwrap()[1].glyph, 'X' as u32);
}

#[test]
fn static_frame_costs_no_shaping() {
    let mut ctx = FontContext::new(8, 16, 12);
    let mut ui = Ui::new();
    assert!(ui.on_resize(2, 6));
    ui.on_put(&chars("text"));
    shape_dirty(&mut ctx, &mut ui.model);
    let calls = ctx.get_shape_calls();
    let glyphs = ui.model.lines[0].runs[0].glyphs.clone().unwrap();
    // a second pass over fully static lines does nothing
    shape_dirty(&mut ctx, &mut ui.model);
    assert_eq!(ctx.get_shape_calls(), calls);
    assert_eq!(ui.model.lines[0].runs[0].glyphs.clone().unwrap(), glyphs);
}
