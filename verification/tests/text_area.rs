use schnellui_widgets::area::{
    dispatch_area_key, dispatch_area_paste, dispatch_area_pointer, dispatch_area_set_value, dispatch_area_vertical,
    gutter_reference_line, inherit_area_selection, selected_area_text, vertical_line, AreaState,
    LineNumbers, TextArea, MIN_ROWS,
};
use schnellui_widgets::color::Color;
use schnellui_widgets::semantics::{Callback, Role, WidgetKind};
use schnellui_widgets::edit::EditKey;
use schnellui_widgets::pointer::TextPointerAction;
use schnellui_widgets::selection::Change;
use schnellui_widgets::wrapped::{wrapped_caret, CaretPlacement, VisualLine};
use schnellui_widgets::highlight::{caret_line, selection_washes, LineWash};
use schnellui_widgets::small_vec::TextSelection;

fn area(value: &str) -> AreaState {
    AreaState::new(value.to_string(), String::new(), false)
}

fn pairs(state: &AreaState) -> Vec<(usize, usize)> {
    state
        .edit
        .all_selections()
        .into_iter()
        .map(|s| (s.caret, s.anchor))
        .collect()
}

#[test]
fn enter_splits_and_vertical_motion_keeps_goal_column() {
    let value = "abcd\nx\nlong";
    let mut state = area(value);
    // Up from the end of "long" lands on "x"; the host's layout clamps the
    // goal column to that line's end.
    let (start, end) = vertical_line(&state.edit.value, state.edit.caret, false);
    assert_eq!((start, end), (5, 6));
    assert_eq!(dispatch_area_vertical(&mut state, true, false, false, &[end]), Change::Caret);
    assert_eq!(state.edit.caret, "abcd\n".len() + 1, "clamped to 'x' end");
    let (start, end) = vertical_line(&state.edit.value, state.edit.caret, false);
    assert_eq!((start, end), (0, 4));
    dispatch_area_vertical(&mut state, true, false, false, &[4]);
    assert_eq!(state.edit.caret, 4, "goal column restored on 'abcd'");
    let (_, end) = vertical_line(&state.edit.value, state.edit.caret, true);
    dispatch_area_vertical(&mut state, true, true, false, &[end]);
    let (_, end) = vertical_line(&state.edit.value, state.edit.caret, true);
    dispatch_area_vertical(&mut state, true, true, false, &[end]);
    assert_eq!(state.edit.caret, value.len());
    // Down on the last line parks at the very end
    assert_eq!(vertical_line(&state.edit.value, state.edit.caret, true), (11, 11));
    assert_eq!(dispatch_area_key(&mut state, true, EditKey::Enter), Change::Text);
    assert_eq!(state.edit.value, "abcd\nx\nlong\n");
}

#[test]
fn home_end_are_line_scoped() {
    let mut state = area("one\ntwo");
    dispatch_area_key(&mut state, true, EditKey::Home { select: false });
    assert_eq!((state.edit.caret, state.edit.anchor), (4, 4));
    dispatch_area_key(&mut state, true, EditKey::End { select: true });
    assert_eq!((state.edit.caret, state.edit.anchor), (7, 4), "shift+End selects the line tail");
}

#[test]
fn read_only_areas_select_and_copy_without_accepting_mutations() {
    let mut state = AreaState::new("one\ntwo".to_string(), String::new(), true);
    assert_eq!(dispatch_area_key(&mut state, true, EditKey::SelectAll), Change::Caret);
    assert_eq!(selected_area_text(&state).as_deref(), Some("one\ntwo"));
    assert_eq!(dispatch_area_key(&mut state, true, EditKey::Insert("changed")), Change::Unchanged);
    assert_eq!(dispatch_area_key(&mut state, true, EditKey::Enter), Change::Unchanged);
    assert_eq!(dispatch_area_set_value(&mut state, true, "changed"), Change::Unchanged);
    assert_eq!(state.edit.value, "one\ntwo");
}

#[test]
fn typing_updates_value_a11y_and_fires_on_input() {
    let mut state = area("ab");
    assert_eq!(dispatch_area_key(&mut state, true, EditKey::Insert("c")), Change::Text);
    assert_eq!(state.edit.value, "abc");
    assert_eq!(dispatch_area_set_value(&mut state, true, "x\ny"), Change::Text);
    assert_eq!((state.edit.caret, state.edit.anchor), (3, 3));
}

#[test]
fn triple_click_selects_a_whole_line_including_its_newline() {
    let mut state = area("one\ntwo\nthree");
    assert_eq!(
        dispatch_area_pointer(&mut state, true, 4, 4, TextPointerAction::SelectLine),
        Change::Caret
    );
    assert_eq!((state.edit.caret, state.edit.anchor), (8, 4));
}

#[test]
fn additional_caret_edits_and_paints_on_another_line() {
    let mut state = area("one\ntwo");
    assert_eq!(
        dispatch_area_pointer(&mut state, true, 4, 4, TextPointerAction::AddCaret),
        Change::Caret
    );
    assert_eq!(pairs(&state), vec![(7, 7), (4, 4)]);
    assert_eq!(dispatch_area_key(&mut state, true, EditKey::Insert("!")), Change::Text);
    assert_eq!(state.edit.value, "one\n!two!");
    assert_eq!(pairs(&state), vec![(9, 9), (5, 5)]);
}

#[test]
fn vertical_motion_drops_a_caret_landing_on_the_primary() {
    let mut state = area("ab\ncd");
    dispatch_area_pointer(&mut state, true, 1, 1, TextPointerAction::AddCaret);
    assert_eq!(pairs(&state), vec![(5, 5), (1, 1)]);
    // both carets move up: the primary to column 1 of "ab", the other to the start
    assert_eq!(dispatch_area_vertical(&mut state, true, false, false, &[1, 0]), Change::Caret);
    assert_eq!(pairs(&state), vec![(1, 1), (0, 0)]);
    assert_eq!(dispatch_area_vertical(&mut state, true, false, false, &[0, 0]), Change::Caret);
    assert_eq!(pairs(&state), vec![(0, 0)]);
}

#[test]
fn remount_preserves_the_selection_when_the_value_matches() {
    let mut previous = area("abc");
    dispatch_area_key(&mut previous, true, EditKey::Home { select: true });
    let mut replacement = area("abc");
    assert!(inherit_area_selection(&mut replacement, &previous));
    assert_eq!((replacement.edit.caret, replacement.edit.anchor), (0, 3));
    let mut changed = area("abd");
    assert!(!inherit_area_selection(&mut changed, &previous));
}

fn vline(glyph_start: u32, glyph_count: u32) -> VisualLine {
    VisualLine { glyph_start, glyph_count }
}

fn placed(line: usize, line_offset: bool, glyphs_from: usize, glyphs_to: usize) -> CaretPlacement {
    CaretPlacement { line, line_offset, glyphs_from, glyphs_to }
}

#[test]
fn wrapped_caret_finds_the_visual_line_and_the_glyphs_before_it() {
    // "hello world" wrapped after "hello "
    let lines = [vline(0, 6), vline(6, 5)];
    let clusters: Vec<u32> = (0..11).collect();
    assert_eq!(wrapped_caret(&lines, &clusters, 3, 11), placed(0, true, 0, 3));
    // the wrap point belongs to the next visual line
    assert_eq!(wrapped_caret(&lines, &clusters, 6, 11), placed(1, true, 6, 6));
    assert_eq!(wrapped_caret(&lines, &clusters, 11, 11), placed(1, true, 6, 11));
}

#[test]
fn wrapped_caret_at_the_end_lands_on_an_empty_final_line() {
    let lines = [vline(0, 6), vline(6, 0)];
    let clusters: Vec<u32> = (0..6).collect();
    assert_eq!(wrapped_caret(&lines, &clusters, 6, 6), placed(1, false, 6, 6));
}

#[test]
fn wrapped_caret_edge_cases() {
    // an empty first line takes byte 0
    assert_eq!(wrapped_caret(&[vline(0, 0), vline(0, 3)], &[0, 1, 2], 0, 3), placed(0, false, 0, 0));
    // no lines at all
    assert_eq!(wrapped_caret(&[], &[], 4, 4), placed(0, false, 0, 0));
    // a byte before every line falls back to the end of the last line
    assert_eq!(wrapped_caret(&[vline(0, 3)], &[5, 6, 7], 2, 8), placed(0, true, 0, 3));
}

#[test]
fn select_all_washes_every_line_and_marks_the_newline() {
    // "one\ntwo" fully selected: one share per line, the first running past
    // its newline
    let all = [TextSelection { caret: 7, anchor: 0 }];
    assert_eq!(
        selection_washes("one\ntwo", &all),
        vec![
            LineWash { line: 0, from: 0, to: 3, past_newline: true },
            LineWash { line: 1, from: 0, to: 3, past_newline: false },
        ]
    );
}

#[test]
fn washes_cover_only_touched_lines_and_skip_carets() {
    let value = "ab\n\ncd\nef";
    let sels = [
        TextSelection { caret: 1, anchor: 1 },
        // from inside "ab" through the empty line into "cd"
        TextSelection { caret: 1, anchor: 5 },
        // exactly a newline: the empty line's own newline at byte 3
        TextSelection { caret: 3, anchor: 4 },
    ];
    assert_eq!(
        selection_washes(value, &sels),
        vec![
            LineWash { line: 0, from: 1, to: 2, past_newline: true },
            LineWash { line: 1, from: 0, to: 0, past_newline: true },
            LineWash { line: 2, from: 0, to: 1, past_newline: false },
            LineWash { line: 1, from: 0, to: 0, past_newline: true },
        ]
    );
    assert_eq!(selection_washes("", &[TextSelection { caret: 0, anchor: 0 }]), vec![]);
}

#[test]
fn caret_line_counts_newlines_before_the_caret() {
    assert_eq!(caret_line("one\ntwo", 4), (1, 0));
    assert_eq!(caret_line("one\ntwo", 6), (1, 2));
    assert_eq!(caret_line("one\ntwo", 3), (0, 3));
    assert_eq!(caret_line("a\n\nb", 3), (2, 0));
    assert_eq!(caret_line("", 0), (0, 0));
}

#[test]
fn text_area_builder_configures_the_mounted_editor() {
    let area = TextArea::new("fn main() {}")
        .placeholder("Source")
        .rows(0)
        .on_input(Callback { id: 7 })
        .line_numbers(1, 200, Color::rgb(90, 90, 90))
        .read_only();
    assert_eq!(area.role(), Role::MultilineTextInput);
    assert_eq!(area.kind(), WidgetKind::TextArea);
    assert_eq!(area.min_rows, 1);
    assert_eq!(TextArea::new("").min_rows, MIN_ROWS);
    assert_eq!(area.placeholder, "Source");
    assert_eq!(area.on_input, Some(Callback { id: 7 }));
    assert_eq!(area.line_numbers, Some(LineNumbers { start_line: 1, last_line: 200, color: Color::rgb(90, 90, 90) }));
    let state = area.state();
    assert!(state.read_only);
    assert_eq!(state.edit.value, "fn main() {}");
    assert_eq!((state.edit.caret, state.edit.anchor), (12, 12));
}

#[test]
fn gutter_reserves_the_widest_line_number() {
    let gray = Color::rgb(90, 90, 90);
    let windowed = LineNumbers { start_line: 98, last_line: 0, color: gray };
    assert_eq!(gutter_reference_line(&windowed, 5), 102);
    assert_eq!(gutter_reference_line(&windowed, 0), 98);
    let declared = LineNumbers { start_line: 1, last_line: 1000, color: gray };
    assert_eq!(gutter_reference_line(&declared, 5), 1000);
    let near_max = LineNumbers { start_line: usize::MAX - 1, last_line: 0, color: gray };
    assert_eq!(gutter_reference_line(&near_max, 10), usize::MAX);
}

#[test]
fn paste_into_a_text_area_turns_every_line_ending_into_lf() {
    let mut state = area("ab");
    assert_eq!(dispatch_area_paste(&mut state, true, "x\r\ny\rz\n"), Change::Text);
    assert_eq!(state.edit.value, "abx\ny\nz\n");
    assert_eq!(state.edit.caret, "abx\ny\nz\n".len());
}

#[test]
fn paste_into_a_read_only_or_disabled_text_area_changes_nothing() {
    let mut state = AreaState::new("ab".to_string(), String::new(), true);
    assert_eq!(dispatch_area_paste(&mut state, true, "x"), Change::Unchanged);
    assert_eq!(state.edit.value, "ab");
    let mut state = area("ab");
    assert_eq!(dispatch_area_paste(&mut state, false, "x"), Change::Unchanged);
    assert_eq!(state.edit.value, "ab");
}
