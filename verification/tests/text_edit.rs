use schnellui_widgets::clipboard::{normalize_paste, selection_text};
use schnellui_widgets::dispatch::{
    commit_change, delete_text_selection, dispatch_edit_key, dispatch_paste,
    dispatch_text_pointer, dispatch_text_pointer_action, selected_text, set_text_value, Commit,
};
use schnellui_widgets::display::{
    display_byte_for_value_byte, display_value, obscured_value, value_byte_for_display_byte,
    PASSWORD_GLYPH,
};
use schnellui_widgets::edit::{EditKey, EditState};
use schnellui_widgets::pointer::{word_range_at, TextPointerAction};
use schnellui_widgets::selection::{replace_selections, Change, ReplaceMode};
use schnellui_widgets::small_vec::{selections_from, selections_to_vec, TextSelection};
use schnellui_widgets::highlight::{input_highlight, label_floats};

fn input(value: &str) -> EditState {
    EditState::new(value.to_string(), String::new(), false)
}

fn pairs(state: &EditState) -> Vec<(usize, usize)> {
    state
        .all_selections()
        .into_iter()
        .map(|s| (s.caret, s.anchor))
        .collect()
}

const LEFT: EditKey<'static> = EditKey::Left {
    select: false,
    word: false,
};

#[test]
fn new_edit_state_puts_the_caret_at_the_end_of_the_value() {
    let state = EditState::new("hi".to_string(), "name".to_string(), false);
    assert_eq!(state.value, "hi");
    assert_eq!((state.caret, state.anchor), (2, 2));
    assert_eq!(state.placeholder, "name");
}

#[test]
fn typing_inserts_at_caret_updates_a11y_and_fires_on_input() {
    let mut state = input("ab");
    let mut seen: Vec<String> = Vec::new();
    let change = dispatch_edit_key(&mut state, true, EditKey::Insert("c"));
    assert_eq!(change, Change::Text);
    assert_eq!(state.value, "abc");
    match commit_change(&state, change) {
        Commit::Notify { a11y_value, value } => {
            assert_eq!(a11y_value, "abc");
            seen.push(value);
        }
        _ => panic!("a value change notifies"),
    }
    assert_eq!(dispatch_edit_key(&mut state, true, LEFT), Change::Caret);
    let change = dispatch_edit_key(&mut state, true, EditKey::Insert("X"));
    assert_eq!(change, Change::Text);
    assert_eq!(state.value, "abXc");
    if let Commit::Notify { value, .. } = commit_change(&state, change) {
        seen.push(value);
    }
    assert_eq!(seen, vec!["abc".to_string(), "abXc".to_string()]);
}

#[test]
fn selection_replace_and_backspace() {
    let mut state = input("hello");
    assert_eq!(dispatch_edit_key(&mut state, true, EditKey::SelectAll), Change::Caret);
    assert_eq!((state.caret, state.anchor), (5, 0));
    assert_eq!(dispatch_edit_key(&mut state, true, EditKey::Insert("x")), Change::Text);
    assert_eq!(state.value, "x");
    assert_eq!(dispatch_edit_key(&mut state, true, EditKey::Backspace), Change::Text);
    assert_eq!(state.value, "");
    assert_eq!(dispatch_edit_key(&mut state, true, EditKey::Backspace), Change::Unchanged);
}

#[test]
fn clipboard_text_uses_document_order_and_unicode_boundaries() {
    let value = "café tea";
    let secondary = [TextSelection {
        caret: 0,
        anchor: 5,
    }];
    assert_eq!(
        selection_text(value, value.len(), 6, &secondary).as_deref(),
        Some("café\ntea")
    );
    assert_eq!(selection_text(value, 0, 0, &[]), None);
}

#[test]
fn clipboard_text_lists_duplicate_ranges_once() {
    let value = "abcdef";
    let secondary = [
        TextSelection { caret: 4, anchor: 2 },
        TextSelection { caret: 0, anchor: 1 },
        TextSelection { caret: 5, anchor: 5 },
    ];
    assert_eq!(
        selection_text(value, 2, 4, &secondary).as_deref(),
        Some("a\ncd")
    );
}

#[test]
fn caret_motion_respects_char_boundaries() {
    let mut state = input("aé");
    assert_eq!((state.caret, state.anchor), (3, 3));
    dispatch_edit_key(&mut state, true, LEFT);
    assert_eq!((state.caret, state.anchor), (1, 1));
    dispatch_edit_key(&mut state, true, LEFT);
    assert_eq!((state.caret, state.anchor), (0, 0));
    assert_eq!(dispatch_edit_key(&mut state, true, LEFT), Change::Unchanged);
    dispatch_edit_key(
        &mut state,
        true,
        EditKey::Right {
            select: true,
            word: false,
        },
    );
    assert_eq!((state.caret, state.anchor), (1, 0));
    dispatch_edit_key(&mut state, true, EditKey::Backspace);
    assert_eq!(state.value, "é");
}

#[test]
fn word_motion_and_home_end() {
    let mut state = input("one two");
    dispatch_edit_key(&mut state, true, EditKey::Home { select: false });
    assert_eq!((state.caret, state.anchor), (0, 0));
    dispatch_edit_key(
        &mut state,
        true,
        EditKey::Right {
            select: false,
            word: true,
        },
    );
    assert_eq!(state.caret, 4, "past 'one' and the space");
    dispatch_edit_key(
        &mut state,
        true,
        EditKey::Left {
            select: false,
            word: true,
        },
    );
    assert_eq!(state.caret, 0);
    dispatch_edit_key(&mut state, true, EditKey::End { select: true });
    assert_eq!((state.caret, state.anchor), (7, 0), "shift+End selects to the end");
}

#[test]
fn single_line_input_ignores_vertical_keys_and_enter() {
    let mut state = input("ab");
    assert_eq!(dispatch_edit_key(&mut state, true, EditKey::Up { select: false }), Change::Unchanged);
    assert_eq!(dispatch_edit_key(&mut state, true, EditKey::Down { select: true }), Change::Unchanged);
    assert_eq!(dispatch_edit_key(&mut state, true, EditKey::Enter), Change::Unchanged);
    assert_eq!(state.value, "ab");
}

#[test]
fn disabled_input_ignores_every_edit() {
    let mut state = input("ab");
    assert_eq!(dispatch_edit_key(&mut state, false, EditKey::Insert("x")), Change::Unchanged);
    assert_eq!(set_text_value(&mut state, false, "zz"), Change::Unchanged);
    assert_eq!(dispatch_paste(&mut state, false, "q"), Change::Unchanged);
    assert_eq!(selected_text(&state, false), None);
    assert_eq!(state.value, "ab");
}

#[test]
fn pointer_places_caret_and_drag_selects() {
    let mut state = input("abc");
    assert_eq!(dispatch_text_pointer(&mut state, true, 0, false), Change::Caret);
    assert_eq!((state.caret, state.anchor), (0, 0));
    assert_eq!(dispatch_text_pointer(&mut state, true, 3, true), Change::Caret);
    assert_eq!((state.caret, state.anchor), (3, 0));
}

#[test]
fn unicode_word_ranges_keep_words_punctuation_and_space_distinct() {
    let value = "naïve, café";
    assert_eq!(word_range_at(value, 2), (0, 6));
    assert_eq!(word_range_at(value, 6), (6, 7));
    assert_eq!(word_range_at(value, 7), (7, 8));
    assert_eq!(word_range_at(value, 10), (8, 13));
    assert_eq!(word_range_at(value, value.len()), (13, 13));
}

#[test]
fn double_click_selects_word_and_word_drag_preserves_the_origin() {
    let value = "one two three";
    let mut state = input(value);
    assert_eq!(
        dispatch_text_pointer_action(&mut state, true, 7, 6, TextPointerAction::SelectWord),
        Change::Caret
    );
    assert_eq!((state.caret, state.anchor), (7, 4));
    dispatch_text_pointer_action(&mut state, true, 0, 0, TextPointerAction::Drag);
    assert_eq!((state.caret, state.anchor), (0, 7));
    dispatch_text_pointer_action(
        &mut state,
        true,
        value.len(),
        value.len(),
        TextPointerAction::Drag,
    );
    assert_eq!((state.caret, state.anchor), (value.len(), 4));
}

#[test]
fn triple_click_selects_the_whole_single_line() {
    let mut state = input("one two");
    dispatch_text_pointer(&mut state, true, 1, false);
    dispatch_text_pointer_action(&mut state, true, 2, 2, TextPointerAction::SelectLine);
    assert_eq!((state.caret, state.anchor), (7, 0));
}

#[test]
fn additional_carets_edit_navigate_paint_and_clear_together() {
    let mut state = input("abc");
    assert_eq!(
        dispatch_text_pointer_action(&mut state, true, 0, 0, TextPointerAction::AddCaret),
        Change::Caret
    );
    assert_eq!(pairs(&state), vec![(3, 3), (0, 0)]);
    assert_eq!(dispatch_edit_key(&mut state, true, EditKey::Insert("X")), Change::Text);
    assert_eq!(state.value, "XabcX");
    assert_eq!(pairs(&state), vec![(5, 5), (1, 1)]);
    assert_eq!(dispatch_edit_key(&mut state, true, LEFT), Change::Caret);
    assert_eq!(pairs(&state), vec![(4, 4), (0, 0)]);
    // A regular click exits multi-cursor mode.
    assert_eq!(dispatch_text_pointer(&mut state, true, 0, false), Change::Caret);
    assert_eq!(pairs(&state), vec![(0, 0)]);
}

#[test]
fn add_caret_on_an_existing_caret_removes_it_and_on_the_primary_promotes() {
    let mut state = input("abcd");
    dispatch_text_pointer_action(&mut state, true, 1, 1, TextPointerAction::AddCaret);
    dispatch_text_pointer_action(&mut state, true, 2, 2, TextPointerAction::AddCaret);
    assert_eq!(pairs(&state), vec![(4, 4), (1, 1), (2, 2)]);
    dispatch_text_pointer_action(&mut state, true, 1, 1, TextPointerAction::AddCaret);
    assert_eq!(pairs(&state), vec![(4, 4), (2, 2)]);
    dispatch_text_pointer_action(&mut state, true, 4, 4, TextPointerAction::AddCaret);
    assert_eq!(pairs(&state), vec![(2, 2)]);
    assert_eq!(
        dispatch_text_pointer_action(&mut state, true, 2, 2, TextPointerAction::AddCaret),
        Change::Unchanged
    );
}

#[test]
fn backspace_applies_to_every_caret_without_offset_drift() {
    let mut value = "abc".to_string();
    let mut caret = 3;
    let mut anchor = 3;
    let mut secondary = selections_from(&[TextSelection::collapsed(1)]);
    assert_eq!(
        replace_selections(
            &mut value,
            &mut caret,
            &mut anchor,
            &mut secondary,
            "",
            ReplaceMode::Backspace,
        ),
        Change::Text,
    );
    assert_eq!(value, "b");
    assert_eq!((caret, anchor), (1, 1));
    assert_eq!(selections_to_vec(&secondary), vec![TextSelection::collapsed(0)]);
}

#[test]
fn delete_at_overlapping_carets_merges_into_one_edit() {
    let mut value = "abcd".to_string();
    let mut caret = 1;
    let mut anchor = 1;
    let mut secondary = selections_from(&[TextSelection { caret: 3, anchor: 1 }]);
    assert_eq!(
        replace_selections(
            &mut value,
            &mut caret,
            &mut anchor,
            &mut secondary,
            "",
            ReplaceMode::Delete,
        ),
        Change::Text,
    );
    assert_eq!(value, "ad");
    assert_eq!((caret, anchor), (1, 1));
    assert!(selections_to_vec(&secondary).is_empty());
}

#[test]
fn set_text_value_replaces_and_notifies() {
    let mut state = input("old");
    assert_eq!(set_text_value(&mut state, true, "new"), Change::Text);
    assert_eq!(state.value, "new");
    assert_eq!((state.caret, state.anchor), (3, 3));
    assert_eq!(set_text_value(&mut state, true, "new"), Change::Unchanged);
}

#[test]
fn delete_text_selection_removes_only_selected_text() {
    let mut state = input("hello");
    assert_eq!(delete_text_selection(&mut state, true), Change::Unchanged);
    dispatch_edit_key(&mut state, true, EditKey::Left { select: true, word: false });
    dispatch_edit_key(&mut state, true, EditKey::Left { select: true, word: false });
    assert_eq!(selected_text(&state, true).as_deref(), Some("lo"));
    assert_eq!(delete_text_selection(&mut state, true), Change::Text);
    assert_eq!(state.value, "hel");
}

#[test]
fn paste_strips_line_breaks_in_a_single_line_field() {
    let mut state = input("");
    assert_eq!(dispatch_paste(&mut state, true, "a\r\nb\nc"), Change::Text);
    assert_eq!(state.value, "abc");
    assert_eq!(normalize_paste("a\r\nb\rc\n", true), "a\nb\nc\n");
    assert_eq!(normalize_paste("\r\r\n", true), "\n\n");
}

#[test]
fn password_display_mapping_tracks_graphemes_without_exposing_text() {
    let value = "a\u{301}🙂";
    assert_eq!(obscured_value(value), "••");
    assert_eq!(display_byte_for_value_byte(value, 0, true), 0);
    assert_eq!(
        display_byte_for_value_byte(value, "a\u{301}".len(), true),
        PASSWORD_GLYPH.len()
    );
    assert_eq!(
        value_byte_for_display_byte(value, PASSWORD_GLYPH.len(), true),
        "a\u{301}".len()
    );
    assert_eq!(
        value_byte_for_display_byte(value, 2 * PASSWORD_GLYPH.len(), true),
        value.len()
    );
    assert_eq!(display_value(value, false), value);
    assert_eq!(display_byte_for_value_byte(value, 5, false), 5);
}

#[test]
fn password_value_reaches_accessibility_obscured() {
    let mut state = EditState::new(String::new(), String::new(), true);
    let change = dispatch_edit_key(&mut state, true, EditKey::Insert("pw"));
    match commit_change(&state, change) {
        Commit::Notify { a11y_value, value } => {
            assert_eq!(a11y_value, "••");
            assert_eq!(value, "pw");
        }
        _ => panic!("a value change notifies"),
    }
    assert!(matches!(commit_change(&state, Change::Caret), Commit::Repaint));
    assert!(matches!(commit_change(&state, Change::Unchanged), Commit::Nothing));
}

#[test]
fn inherited_selection_requires_the_same_value() {
    let mut previous = input("abc");
    dispatch_edit_key(&mut previous, true, EditKey::SelectAll);
    let mut same = input("abc");
    assert!(same.inherit_selection(&previous));
    assert_eq!((same.caret, same.anchor), (3, 0));
    let mut other = input("xyz");
    assert!(!other.inherit_selection(&previous));
    assert_eq!((other.caret, other.anchor), (3, 3));
}

#[test]
fn labels_float_when_focused_or_populated() {
    assert!(!label_floats("Project name", "", false));
    assert!(label_floats("Project name", "", true));
    assert!(label_floats("Project name", "Schnell", false));
    assert!(!label_floats("", "Schnell", true));
}

#[test]
fn input_highlight_maps_selections_into_displayed_bytes() {
    // "é" takes two bytes; each bullet of a masked value takes three
    let sels = [TextSelection { caret: 3, anchor: 1 }, TextSelection { caret: 5, anchor: 5 }];
    assert_eq!(input_highlight("héllo", &sels, false), (vec![(1, 3)], vec![5]));
    assert_eq!(input_highlight("héllo", &sels, true), (vec![(3, 6)], vec![12]));
    assert_eq!(input_highlight("", &[], true), (vec![], vec![]));
}

#[test]
fn a_drag_after_typing_continues_from_the_press_gesture() {
    // double-click "hello", type over it, then keep dragging: the drag still
    // extends by whole words from the first press
    let mut state = input("hello world");
    dispatch_text_pointer_action(&mut state, true, 2, 2, TextPointerAction::SelectWord);
    assert_eq!(pairs(&state), vec![(5, 0)]);
    dispatch_edit_key(&mut state, true, EditKey::Insert("HELLO!!"));
    assert_eq!(state.value, "HELLO!! world");
    dispatch_text_pointer_action(&mut state, true, 10, 10, TextPointerAction::Drag);
    assert_eq!(pairs(&state), vec![(13, 0)]);
}
