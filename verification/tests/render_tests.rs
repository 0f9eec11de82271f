use nvim_ui::color::{ColorModel, Mode};
use nvim_ui::context::FontContext;
use nvim_ui::render::{render, shape_dirty, DrawOp};
use nvim_ui::ui::Ui;
use nvim_ui::ui_model::HighlightUpdate;

fn chars(s: &str) -> Vec<char> {
    s.chars().collect()
}

#[test]
fn frame_starts_with_full_surface_clear() {
    let mut ctx = FontContext::new(8, 16, 12);
    let cm = ColorModel::new();
    let mut ui = Ui::new();
    assert!(ui.on_resize(3, 4));
    shape_dirty(&mut ctx, &mut ui.model);
    let ops = render(&ui.model, &cm, &ctx, Mode::Normal);
    match &ops[0] {
        DrawOp::FillRect { x, y, w, h, color } => {
            assert_eq!((*x, *y), (0, 0));
            assert_eq!(*w, 4 * 8);
            assert_eq!(*h, 3 * 16);
            assert_eq!(*color, cm.bg_color);
        },
        other => panic!("expected a frame clear, got {:?}", other),
    }
}

#[test]
fn cursor_overlay_drawn_exactly_once_at_cell_origin() {
    let mut ctx = FontContext::new(8, 16, 12);
    let cm = ColorModel::new();
    let mut ui = Ui::new();
    assert!(ui.on_resize(3, 4));
    assert!(ui.on_cursor_goto(1, 2));
    shape_dirty(&mut ctx, &mut ui.model);
    let ops = render(&ui.model, &cm, &ctx, Mode::Normal);
    let cursors: Vec<&DrawOp> = ops
        .iter()
        .filter(|op| matches!(op, DrawOp::Cursor { .. }))
        .collect();
    assert_eq!(cursors.len(), 1);
    match cursors[0] {
        DrawOp::Cursor { x, y, w, h, .. } => {
            assert_eq!(*x, 2 * 8);
            assert_eq!(*y, 1 * 16);
            assert_eq!((*w, *h), (8, 16));
        },
        _ => unreachable!(),
    }
}

#[test]
fn cursor_overlay_painted_after_cell_content() {
    let mut ctx = FontContext::new(8, 16, 12);
    let cm = ColorModel::new();
    let mut ui = Ui::new();
    assert!(ui.on_resize(2, 4));
    ui.on_put(&chars("AB"));
    assert!(ui.on_cursor_goto(0, 0));
    shape_dirty(&mut ctx, &mut ui.model);
    let ops = render(&ui.model, &cm, &ctx, Mode::Normal);
    let cursor_at = ops.iter().position(|op| matches!(op, DrawOp::Cursor { .. })).unwrap();
    let glyphs_at = ops
        .iter()
        .position(|op| matches!(op, DrawOp::Glyphs { x: 0, .. }))
        .unwrap();
    assert!(glyphs_at < cursor_at);
}

#[test]
fn glyph_run_drawn_at_baseline_with_resolved_colors() {
    let mut ctx = FontContext::new(8, 16, 12);
    let cm = ColorModel::new();
    let mut ui = Ui::new();
    assert!(ui.on_resize(2, 5));
    assert!(ui.on_cursor_goto(1, 0));
    ui.on_put(&chars("hi"));
    shape_dirty(&mut ctx, &mut ui.model);
    let ops = render(&ui.model, &cm, &ctx, Mode::Normal);
    let glyph_op = ops
        .iter()
        .find(|op| matches!(op, DrawOp::Glyphs { .. }))
        .expect("a glyph run is drawn");
    match glyph_op {
        DrawOp::Glyphs { x, y, glyphs, color, .. } => {
            assert_eq!(*x, 0);
            // baseline: the line's top plus the ascent
            assert_eq!(*y, 1 * 16 + 12);
            assert_eq!(glyphs.len(), 2);
            assert_eq!(glyphs[0].glyph, 'h' as u32);
            assert_eq!(glyphs[1].glyph, 'i' as u32);
            assert_eq!(glyphs[1].x_off, 8);
            assert_eq!(*color, cm.fg_color);
        },
        _ => unreachable!(),
    }
    // default background cells add no fill beyond the frame clear
    let fills = ops.iter().filter(|op| matches!(op, DrawOp::FillRect { .. })).count();
    assert_eq!(fills, 1);
}

#[test]
fn reversed_run_fills_its_whole_span() {
    let mut ctx = FontContext::new(8, 16, 12);
    let cm = ColorModel::new();
    let mut ui = Ui::new();
    assert!(ui.on_resize(1, 6));
    let update = HighlightUpdate {
        foreground: None,
        background: None,
        reverse: true,
        bold: false,
        italic: false,
    };
    ui.on_highlight_set(&update);
    ui.on_put(&chars("sel"));
    shape_dirty(&mut ctx, &mut ui.model);
    let ops = render(&ui.model, &cm, &ctx, Mode::Normal);
    // frame clear, then the run's background across three cells
    let run_fill = ops
        .iter()
        .skip(1)
        .find(|op| matches!(op, DrawOp::FillRect { .. }))
        .expect("the reversed run fills its background");
    match run_fill {
        DrawOp::FillRect { x, y, w, h, color } => {
            assert_eq!((*x, *y), (0, 0));
            assert_eq!(*w, 3 * 8);
            assert_eq!(*h, 16);
            assert_eq!(*color, cm.fg_color);
        },
        _ => unreachable!(),
    }
}

#[test]
fn insert_mode_narrows_the_cursor() {
    let mut ctx = FontContext::new(8, 16, 12);
    let cm = ColorModel::new();
    let mut ui = Ui::new();
    assert!(ui.on_resize(1, 2));
    shape_dirty(&mut ctx, &mut ui.model);
    let ops = render(&ui.model, &cm, &ctx, Mode::Insert);
    let cursor = ops.iter().find(|op| matches!(op, DrawOp::Cursor { .. })).unwrap();
    match cursor {
        DrawOp::Cursor { w, .. } => assert_eq!(*w, 2),
        _ => unreachable!(),
    }
}
