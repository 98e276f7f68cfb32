use schnellui_widgets::color::Color;
use schnellui_widgets::terminal::{
    background_runs, glyph_plans, BackgroundRun, GlyphPlan,
    color_with_alpha, effective_cell_colors, terminal_grid_hit_test, TerminalCell,
    TerminalCellWidth, TerminalCursor, TerminalCursorStyle, TerminalGridModel,
    TerminalGridPoint, TerminalSelection,
};

#[test]
fn point_mapping_and_wide_continuation_resolve_hyperlink() {
    let mut model = TerminalGridModel::new(3, 2);
    let mut owner = TerminalCell::new("界", Color::white(), Color::black());
    owner.width = TerminalCellWidth::Wide;
    owner.hyperlink = Some("https://example.test".to_string());
    assert!(model.set_cell(TerminalGridPoint::new(1, 1), owner));
    let mut continuation = model.cell(TerminalGridPoint::new(1, 2)).unwrap().clone();
    continuation.width = TerminalCellWidth::Continuation;
    assert!(model.set_cell(TerminalGridPoint::new(1, 2), continuation));
    let hit = terminal_grid_hit_test(&model, Some(TerminalGridPoint::new(1, 2))).unwrap();
    assert_eq!(hit.position, TerminalGridPoint::new(1, 2));
    assert_eq!(hit.hyperlink.as_deref(), Some("https://example.test"));
    assert_eq!(
        terminal_grid_hit_test(&model, Some(TerminalGridPoint::new(0, 3))),
        None,
        "right-side remainder is not a terminal cell"
    );
    assert_eq!(terminal_grid_hit_test(&model, None), None);
}

#[test]
fn set_cell_reads_back_and_rejects_points_outside_the_grid() {
    let mut model = TerminalGridModel::new(2, 2);
    let cell = TerminalCell::new("x", Color::rgb(1, 2, 3), Color::black());
    assert!(model.set_cell(TerminalGridPoint::new(1, 0), cell.clone()));
    assert_eq!(model.cell(TerminalGridPoint::new(1, 0)), Some(&cell));
    assert_eq!(model.index(TerminalGridPoint::new(1, 0)), Some(2));
    assert!(!model.set_cell(TerminalGridPoint::new(2, 0), cell.clone()));
    assert_eq!(model.index(TerminalGridPoint::new(0, 2)), None);
    assert_eq!(model.cell(TerminalGridPoint::new(0, 0)).unwrap().grapheme, "");
}

#[test]
fn plain_text_keeps_rows_blanks_and_skips_continuations() {
    let mut model = TerminalGridModel::new(3, 2);
    model.set_cell(TerminalGridPoint::new(0, 0), TerminalCell::new("a", Color::white(), Color::black()));
    let mut wide = TerminalCell::new("界", Color::white(), Color::black());
    wide.width = TerminalCellWidth::Wide;
    model.set_cell(TerminalGridPoint::new(1, 0), wide);
    let mut cont = TerminalCell::blank(Color::white(), Color::black());
    cont.width = TerminalCellWidth::Continuation;
    model.set_cell(TerminalGridPoint::new(1, 1), cont);
    assert_eq!(model.plain_text(), "a  \n界 ");
}

#[test]
fn paints_exact_backgrounds_selection_cursor_and_fixed_glyphs() {
    let mut model = TerminalGridModel::new(4, 1);
    let red = Color::rgb(255, 0, 0);
    let mut inverse = TerminalCell::new("i", Color::white(), red);
    inverse.attrs.inverse = true;
    model.set_cell(TerminalGridPoint::new(0, 0), inverse);
    let blue = Color::rgb(0, 0, 255);
    model.selection = Some(TerminalSelection {
        start: TerminalGridPoint::new(0, 2),
        end: TerminalGridPoint::new(0, 1),
        background: blue,
        foreground: None,
    });
    let green = Color::rgb(0, 255, 0);
    model.cursor = Some(TerminalCursor::new(TerminalGridPoint::new(0, 3), green));
    assert_eq!(
        effective_cell_colors(&model, TerminalGridPoint::new(0, 0)),
        (red, Color::white())
    );
    assert_eq!(
        effective_cell_colors(&model, TerminalGridPoint::new(0, 1)),
        (Color::white(), blue)
    );
    assert_eq!(
        effective_cell_colors(&model, TerminalGridPoint::new(0, 3)),
        (Color::white(), green)
    );
    let mut bar = TerminalCursor::new(TerminalGridPoint::new(0, 3), green);
    bar.style = TerminalCursorStyle::Bar;
    model.cursor = Some(bar);
    assert_eq!(
        effective_cell_colors(&model, TerminalGridPoint::new(0, 3)),
        (Color::white(), Color::black())
    );
}

#[test]
fn selection_contains_is_inclusive_and_order_free() {
    let selection = TerminalSelection {
        start: TerminalGridPoint::new(2, 1),
        end: TerminalGridPoint::new(0, 4),
        background: Color::black(),
        foreground: None,
    };
    assert!(selection.contains(TerminalGridPoint::new(0, 4)));
    assert!(selection.contains(TerminalGridPoint::new(1, 0)));
    assert!(selection.contains(TerminalGridPoint::new(2, 1)));
    assert!(!selection.contains(TerminalGridPoint::new(2, 2)));
    assert!(!selection.contains(TerminalGridPoint::new(0, 3)));
}

#[test]
fn blinking_cursor_paints_only_in_its_on_phase() {
    let mut cursor = TerminalCursor::new(TerminalGridPoint::new(0, 0), Color::white());
    assert!(cursor.paints());
    cursor.blinking = true;
    cursor.blink_on = false;
    assert!(!cursor.paints());
    cursor.visible = false;
    cursor.blink_on = true;
    assert!(!cursor.paints());
}

#[test]
fn alpha_scaling_divides_by_a_nonzero_denominator() {
    let c = Color::rgba(10, 20, 30, 200);
    assert_eq!(color_with_alpha(c, 1, 2), Color::rgba(10, 20, 30, 100));
    assert_eq!(color_with_alpha(c, 3, 0), Color::rgba(10, 20, 30, 88));
}

use schnellui_widgets::terminal::{apply_dynamic_model, plan_incremental_paint, PaintDirt};

fn clean(rows: usize) -> PaintDirt {
    PaintDirt {
        full_paint_dirty: false,
        dirty_rows: vec![false; rows],
        cursor_dirty: false,
        images_dirty: false,
    }
}

#[test]
fn one_cell_update_rebuilds_one_row() {
    let mounted = TerminalGridModel::new(3, 3);
    let mut current = mounted.clone();
    current.set_cell(TerminalGridPoint::new(1, 2), TerminalCell::new("x", Color::white(), Color::black()));
    let mut dirt = clean(3);
    let diff = plan_incremental_paint(&mut dirt, &mounted, &current, true);
    assert!(diff.text_changed && diff.visual_changed);
    assert_eq!(dirt.dirty_rows, vec![false, true, false]);
    assert!(!dirt.full_paint_dirty && !dirt.cursor_dirty && !dirt.images_dirty);
}

#[test]
fn colour_only_change_repaints_without_new_text() {
    let mounted = TerminalGridModel::new(2, 2);
    let mut current = mounted.clone();
    let mut cell = TerminalCell::blank(Color::white(), Color::rgb(9, 9, 9));
    cell.grapheme = String::new();
    current.set_cell(TerminalGridPoint::new(0, 0), cell);
    let mut dirt = clean(2);
    let diff = plan_incremental_paint(&mut dirt, &mounted, &current, true);
    assert!(!diff.text_changed && diff.visual_changed);
    assert_eq!(dirt.dirty_rows, vec![true, false]);
}

#[test]
fn background_change_asks_for_a_full_repaint() {
    let mounted = TerminalGridModel::new(2, 3);
    let mut current = mounted.clone();
    current.background = Color::rgb(1, 2, 3);
    let mut dirt = clean(1);
    let diff = plan_incremental_paint(&mut dirt, &mounted, &current, true);
    assert!(diff.visual_changed && !diff.text_changed);
    assert!(dirt.full_paint_dirty);
    assert_eq!(dirt.dirty_rows, vec![true, true, true]);
}

#[test]
fn cursor_move_rebuilds_one_row_and_cursor_fragment() {
    let mut mounted = TerminalGridModel::new(2, 3);
    mounted.cursor = Some(TerminalCursor::new(TerminalGridPoint::new(0, 0), Color::white()));
    let mut current = mounted.clone();
    current.cursor = Some(TerminalCursor::new(TerminalGridPoint::new(2, 1), Color::white()));
    let mut dirt = clean(3);
    let diff = plan_incremental_paint(&mut dirt, &mounted, &current, false);
    assert!(diff.visual_changed && !diff.text_changed);
    assert!(dirt.cursor_dirty && dirt.images_dirty);
    assert_eq!(dirt.dirty_rows, vec![true, false, true]);
}

#[test]
fn dynamic_dimension_change_is_the_only_terminal_layout_invalidation() {
    let mut mounted = TerminalGridModel::new(2, 1);
    let mut dirt = clean(1);
    let update = apply_dynamic_model(&mut dirt, &mut mounted, TerminalGridModel::new(3, 2), true);
    assert!(update.relayout && update.repaint);
    assert_eq!(update.a11y_text.as_deref(), Some("   \n   "));
    assert_eq!(dirt.dirty_rows, vec![true, true]);
    // the host painted: its bookkeeping is clean again
    let mut dirt = clean(2);
    let mut next = mounted.clone();
    next.set_cell(TerminalGridPoint::new(0, 0), TerminalCell::new("a", Color::white(), Color::black()));
    let update = apply_dynamic_model(&mut dirt, &mut mounted, next, true);
    assert_eq!(dirt.dirty_rows, vec![true, false]);
    assert!(!update.relayout && update.repaint);
    assert_eq!(update.a11y_text.as_deref(), Some("a  \n   "));
    let unchanged = mounted.clone();
    let update = apply_dynamic_model(&mut dirt, &mut mounted, unchanged, true);
    assert!(!update.relayout && !update.repaint && update.a11y_text.is_none());
}

#[test]
fn only_visible_in_grid_bar_and_underline_cursors_paint_as_overlays() {
    let mut model = TerminalGridModel::new(4, 2);
    assert_eq!(model.cursor_overlay(), None);
    let mut cursor = TerminalCursor::new(TerminalGridPoint::new(1, 2), Color::white());
    model.cursor = Some(cursor);
    // a block cursor recolours its cell instead
    assert_eq!(model.cursor_overlay(), None);
    cursor.style = TerminalCursorStyle::Bar;
    model.cursor = Some(cursor);
    assert_eq!(model.cursor_overlay(), Some(cursor));
    cursor.style = TerminalCursorStyle::Underline;
    model.cursor = Some(cursor);
    assert_eq!(model.cursor_overlay(), Some(cursor));
    // off the grid
    cursor.position = TerminalGridPoint::new(2, 0);
    model.cursor = Some(cursor);
    assert_eq!(model.cursor_overlay(), None);
    // in its off blink phase
    cursor.position = TerminalGridPoint::new(0, 0);
    cursor.blinking = true;
    cursor.blink_on = false;
    model.cursor = Some(cursor);
    assert_eq!(model.cursor_overlay(), None);
}

#[test]
fn background_runs_merge_equal_neighbours_and_skip_the_default() {
    let red = Color::rgb(200, 0, 0);
    let blue = Color::rgb(0, 0, 200);
    let green = Color::rgb(0, 200, 0);
    let mut model = TerminalGridModel::new(5, 2);
    assert_eq!(background_runs(&model, 0), vec![]);
    model.set_cell(TerminalGridPoint::new(0, 1), TerminalCell::new("a", Color::white(), red));
    model.set_cell(TerminalGridPoint::new(0, 2), TerminalCell::new("b", Color::white(), red));
    assert_eq!(background_runs(&model, 0), vec![BackgroundRun { start: 1, end: 3, color: red }]);
    // a selection repaints its cells' background
    model.selection = Some(TerminalSelection {
        start: TerminalGridPoint::new(0, 3),
        end: TerminalGridPoint::new(0, 4),
        background: blue,
        foreground: None,
    });
    assert_eq!(
        background_runs(&model, 0),
        vec![
            BackgroundRun { start: 1, end: 3, color: red },
            BackgroundRun { start: 3, end: 5, color: blue },
        ]
    );
    // a block cursor paints its cell in the cursor colour
    model.cursor = Some(TerminalCursor::new(TerminalGridPoint::new(0, 0), green));
    assert_eq!(background_runs(&model, 0)[0], BackgroundRun { start: 0, end: 1, color: green });
    assert_eq!(background_runs(&model, 1), vec![]);
}

#[test]
fn glyph_plans_skip_empty_and_continuation_cells_and_resolve_ink() {
    let white = Color::white();
    let black = Color::black();
    let sel_ink = Color::rgb(1, 2, 3);
    let mut model = TerminalGridModel::new(4, 1);
    let mut bold = TerminalCell::new("a", white, black);
    bold.attrs.bold = true;
    bold.attrs.underline = true;
    let mut wide = TerminalCell::new("界", white, black);
    wide.width = TerminalCellWidth::Wide;
    let mut rest = TerminalCell::new("", white, black);
    rest.width = TerminalCellWidth::Continuation;
    let mut faint = TerminalCell::new("z", Color::rgba(10, 20, 30, 200), black);
    faint.attrs.faint = true;
    model.set_cell(TerminalGridPoint::new(0, 0), bold);
    model.set_cell(TerminalGridPoint::new(0, 1), wide);
    model.set_cell(TerminalGridPoint::new(0, 2), rest);
    model.set_cell(TerminalGridPoint::new(0, 3), faint);
    assert_eq!(
        glyph_plans(&model, 0),
        vec![
            GlyphPlan { column: 0, foreground: white, bold: true, wide: false, underline: true, strike: false },
            GlyphPlan { column: 1, foreground: white, bold: false, wide: true, underline: false, strike: false },
            GlyphPlan { column: 3, foreground: Color::rgba(10, 20, 30, 100), bold: false, wide: false, underline: false, strike: false },
        ]
    );
    // a selection's ink and a block cursor's knockout
    model.selection = Some(TerminalSelection {
        start: TerminalGridPoint::new(0, 0),
        end: TerminalGridPoint::new(0, 0),
        background: white,
        foreground: Some(sel_ink),
    });
    model.cursor = Some(TerminalCursor::new(TerminalGridPoint::new(0, 1), white));
    let plans = glyph_plans(&model, 0);
    assert_eq!(plans[0].foreground, sel_ink);
    assert_eq!(plans[1].foreground, black);
}
