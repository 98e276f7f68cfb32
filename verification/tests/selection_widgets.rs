use schnellui_widgets::combobox::refresh_combobox_filter;
use schnellui_widgets::navigation::{List, ListItem, Tab, TabBar};
use schnellui_widgets::picker::{ComboBox, Dropdown, DropdownOption};
use schnellui_widgets::semantics::{Callback, Role, WidgetKind};
use schnellui_widgets::tree::{
    dispatch_click_dropdown, first_tab_in_subtree, DropdownClick, dismiss_open_dropdowns, dispatch_click_selection, dispatch_focus, dispatch_pointer_focus,
    is_in_subtree, NodeFacts, SceneModel,
};

fn node(parent: Option<usize>, kind: WidgetKind, role: Role) -> NodeFacts {
    NodeFacts {
        parent,
        kind,
        role,
        selected: false,
        expanded: false,
        focused: false,
        focusable: false,
        disabled: false,
        has_click: false,
        clickable: false,
        sort_direction: None,
        has_sort: false,
    }
}

#[test]
fn every_selection_widget_reports_its_role_and_kind() {
    assert_eq!(TabBar::<u32>::new().role(), Role::TabList);
    assert_eq!(TabBar::<u32>::new().kind(), WidgetKind::TabBar);
    assert_eq!(Tab::new("x").role(), Role::Tab);
    assert_eq!(Tab::new("x").kind(), WidgetKind::Tab);
    assert_eq!(List::<u32>::new().role(), Role::List);
    assert_eq!(List::<u32>::new().kind(), WidgetKind::List);
    assert_eq!(ListItem::new("x").role(), Role::ListItem);
    assert_eq!(ListItem::new("x").kind(), WidgetKind::ListItem);
}

#[test]
fn tabbar_trailing_view_follows_tabs_but_stays_outside_the_tablist() {
    let bar = TabBar::new().child(1u32).child(2u32).action(9u32).wrap();
    assert_eq!(bar.child_count(), 2);
    assert!(bar.has_trailing());
    assert_eq!(bar.trailing, Some(9));
    assert!(bar.wrap);
    assert!(!TabBar::<u32>::new().has_trailing());
    let bar = bar.on_reorder(Callback { id: 4 });
    assert_eq!(bar.on_reorder, Some(Callback { id: 4 }));
}

#[test]
fn list_builds_list_role_with_item_children() {
    let list = List::new()
        .child(ListItem::new("inbox").selected(true))
        .child(ListItem::new("archive").on_select(Callback { id: 1 }));
    assert_eq!(list.child_count(), 2);
    assert!(list.children[0].selected);
    assert_eq!(list.children[1].label, "archive");
    assert_eq!(list.children[1].on_select, Some(Callback { id: 1 }));
}

/// A tab bar (0) holding tabs 1 and 2; tab 1 selected.
fn tab_bar() -> SceneModel {
    let mut bar = node(None, WidgetKind::TabBar, Role::TabList);
    bar.role = Role::TabList;
    let mut t0 = node(Some(0), WidgetKind::Tab, Role::Tab);
    t0.selected = true;
    t0.has_click = true;
    let mut t1 = node(Some(0), WidgetKind::Tab, Role::Tab);
    t1.has_click = true;
    SceneModel { nodes: vec![bar, t0, t1] }
}

#[test]
fn tab_click_is_exclusive_recolors_in_place_and_fires_handler() {
    let mut model = tab_bar();
    let (cleared, acted) = dispatch_click_selection(&mut model, 2, WidgetKind::Tab);
    assert!(acted);
    assert_eq!(cleared, vec![1]);
    assert!(!model.nodes[1].selected);
    assert!(model.nodes[2].selected);
}

#[test]
fn grouped_tabs_share_one_exclusive_scope() {
    // tab list 0 > group 1 > tab 2 (selected), tab list 0 > tab 3
    let list = node(None, WidgetKind::TabBar, Role::TabList);
    let group = node(Some(0), WidgetKind::Row, Role::Group);
    let mut nested = node(Some(1), WidgetKind::Tab, Role::Tab);
    nested.selected = true;
    let direct = node(Some(0), WidgetKind::Tab, Role::Tab);
    let mut model = SceneModel { nodes: vec![list, group, nested, direct] };
    let (cleared, acted) = dispatch_click_selection(&mut model, 3, WidgetKind::Tab);
    assert_eq!(cleared, vec![2]);
    assert!(acted);
    assert!(model.nodes[3].selected && !model.nodes[2].selected);
}

#[test]
fn list_item_click_is_exclusive_and_fires_handler() {
    let list = node(None, WidgetKind::List, Role::List);
    let mut i0 = node(Some(0), WidgetKind::ListItem, Role::ListItem);
    i0.selected = true;
    let mut i1 = node(Some(0), WidgetKind::ListItem, Role::ListItem);
    i1.has_click = true;
    let mut model = SceneModel { nodes: vec![list, i0, i1] };
    let (cleared, acted) = dispatch_click_selection(&mut model, 2, WidgetKind::ListItem);
    assert!(acted);
    assert_eq!(cleared, vec![1]);
    assert!(!model.nodes[1].selected && model.nodes[2].selected);
    // an already-selected item still fires its handler
    let (cleared, acted) = dispatch_click_selection(&mut model, 2, WidgetKind::ListItem);
    assert!(acted);
    assert!(cleared.is_empty());
}

#[test]
fn selected_tab_without_handler_reclick_is_a_no_op() {
    let bar = node(None, WidgetKind::TabBar, Role::TabList);
    let mut only = node(Some(0), WidgetKind::Tab, Role::Tab);
    only.selected = true;
    let mut model = SceneModel { nodes: vec![bar, only] };
    let (cleared, acted) = dispatch_click_selection(&mut model, 1, WidgetKind::Tab);
    assert!(!acted);
    assert!(cleared.is_empty());
}

/// column 0 > dropdown wrapper 1 > (trigger 2, popup 3 > option 4); column 0 > button 5
fn open_dropdown() -> SceneModel {
    let column = node(None, WidgetKind::Row, Role::Group);
    let wrapper = node(Some(0), WidgetKind::Row, Role::Group);
    let mut trigger = node(Some(1), WidgetKind::DropdownOption, Role::ComboBox);
    trigger.expanded = true;
    trigger.has_click = true;
    let popup = node(Some(1), WidgetKind::List, Role::List);
    let option = node(Some(3), WidgetKind::DropdownOption, Role::ListItem);
    let button = node(Some(0), WidgetKind::Row, Role::Button);
    SceneModel { nodes: vec![column, wrapper, trigger, popup, option, button] }
}

#[test]
fn outside_interaction_dismisses_open_dropdown() {
    let model = open_dropdown();
    assert_eq!(dismiss_open_dropdowns(&model, Some(5)), vec![2]);
}

#[test]
fn interactions_inside_open_dropdown_do_not_dismiss_it() {
    let model = open_dropdown();
    assert!(dismiss_open_dropdowns(&model, Some(2)).is_empty());
    assert!(dismiss_open_dropdowns(&model, Some(4)).is_empty());
    assert!(is_in_subtree(&model, 4, 1));
    assert!(!is_in_subtree(&model, 5, 1));
}

#[test]
fn blank_space_interaction_dismisses_open_dropdown() {
    let model = open_dropdown();
    assert_eq!(dismiss_open_dropdowns(&model, None), vec![2]);
}

#[test]
fn searchable_combobox_filters_options_and_offers_free_text() {
    let options = vec!["Apple".to_string(), "Grape".to_string(), "Banana".to_string()];
    let filter = refresh_combobox_filter("ap", &options);
    assert_eq!(filter.visible, vec![true, true, false]);
    assert!(filter.custom_visible);
    assert_eq!(filter.custom_label, "Use “ap”");
}

#[test]
fn exact_combobox_value_opens_the_complete_suggestion_list() {
    let options = vec!["Apple".to_string(), "Banana".to_string()];
    let filter = refresh_combobox_filter(" apple ", &options);
    assert_eq!(filter.visible, vec![true, true]);
    assert!(!filter.custom_visible);
    let blank = refresh_combobox_filter("  ", &options);
    assert_eq!(blank.visible, vec![true, true]);
    assert!(!blank.custom_visible);
}

/// root 0 > input 1, input 2, label 3 (not focusable)
fn two_inputs() -> SceneModel {
    let root = node(None, WidgetKind::Row, Role::Group);
    let mut a = node(Some(0), WidgetKind::TextInput, Role::TextInput);
    a.focusable = true;
    let mut b = node(Some(0), WidgetKind::TextInput, Role::TextInput);
    b.focusable = true;
    let label = node(Some(1), WidgetKind::Row, Role::Group);
    SceneModel { nodes: vec![root, a, b, label] }
}

#[test]
fn focus_is_exclusive_and_draws_caret() {
    let mut model = two_inputs();
    let moved = dispatch_focus(&mut model, Some(1), None, &[]);
    assert!(moved.moved);
    assert_eq!(moved.new, Some(1));
    assert!(model.nodes[1].focused);
    let moved = dispatch_focus(&mut model, Some(2), None, &[]);
    assert!(moved.moved && moved.old == Some(1));
    assert!(!model.nodes[1].focused && model.nodes[2].focused);
    assert!(dispatch_focus(&mut model, None, None, &[]).moved);
    assert!(model.nodes.iter().all(|n| !n.focused));
    assert!(!dispatch_focus(&mut model, None, None, &[]).moved);
}

#[test]
fn non_focusable_target_cannot_take_focus() {
    let mut model = two_inputs();
    let moved = dispatch_focus(&mut model, Some(3), None, &[]);
    assert!(!moved.moved);
    assert_eq!(moved.new, None);
    assert!(model.nodes.iter().all(|n| !n.focused));
}

#[test]
fn pointer_focus_shows_the_ring_only_on_editables_and_modals_keep_focus_inside() {
    let mut model = two_inputs();
    let moved = dispatch_pointer_focus(&mut model, Some(1), None, &[]);
    assert!(moved.indicator_visible);
    // a modal panel rooted at node 2 redirects a focus attempt outside it
    let moved = dispatch_focus(&mut model, Some(1), Some(2), &[1, 2]);
    assert_eq!(moved.new, Some(2));
    assert!(model.nodes[2].focused && !model.nodes[1].focused);
}

#[test]
fn option_click_is_exclusive_fires_handler_and_updates_trigger_value() {
    // wrapper 0 > (trigger 1, popup 2 > (apple 3, banana 4))
    let wrapper = node(None, WidgetKind::Row, Role::Group);
    let mut trigger = node(Some(0), WidgetKind::Dropdown, Role::ComboBox);
    trigger.has_click = true;
    let popup = node(Some(0), WidgetKind::List, Role::List);
    let mut apple = node(Some(2), WidgetKind::DropdownOption, Role::ListItem);
    apple.selected = true;
    let mut banana = node(Some(2), WidgetKind::DropdownOption, Role::ListItem);
    banana.has_click = true;
    let mut model = SceneModel { nodes: vec![wrapper, trigger, popup, apple, banana] };
    match dispatch_click_dropdown(&mut model, 4, WidgetKind::DropdownOption) {
        DropdownClick::Option { cleared, acted, trigger } => {
            assert_eq!(cleared, vec![3]);
            assert!(acted);
            assert_eq!(trigger, Some(1));
        }
        _ => panic!("an option click selects"),
    }
    assert!(!model.nodes[3].selected && model.nodes[4].selected);
    assert!(!model.nodes[1].selected, "the trigger never gains SELECTED");
    assert!(matches!(
        dispatch_click_dropdown(&mut model, 1, WidgetKind::Dropdown),
        DropdownClick::Toggle
    ));
}

#[test]
fn reorderable_bar_registers_the_first_tab_of_each_child() {

    // bar 0 > (group 1 > (tab 2, tab 3)), tab 4
    let bar = node(None, WidgetKind::TabBar, Role::TabList);
    let group = node(Some(0), WidgetKind::Row, Role::Group);
    let t2 = node(Some(1), WidgetKind::Tab, Role::Tab);
    let t3 = node(Some(1), WidgetKind::Tab, Role::Tab);
    let t4 = node(Some(0), WidgetKind::Tab, Role::Tab);
    let model = SceneModel { nodes: vec![bar, group, t2, t3, t4] };
    assert_eq!(first_tab_in_subtree(&model, 1), Some(2));
    assert_eq!(first_tab_in_subtree(&model, 4), Some(4));
    assert_eq!(first_tab_in_subtree(&model, 3), Some(3));
}

#[test]
fn every_dropdown_widget_reports_its_role_and_kind() {
    assert_eq!(Dropdown::new("x").role(), Role::ComboBox);
    assert_eq!(Dropdown::new("x").kind(), WidgetKind::Dropdown);
    assert_eq!(DropdownOption::new("x").role(), Role::ListBoxOption);
    assert_eq!(DropdownOption::new("x").kind(), WidgetKind::DropdownOption);
    assert_eq!(
        Dropdown::new("x")
            .option(DropdownOption::new("a"))
            .option(DropdownOption::new("b"))
            .option_count(),
        2
    );
}

#[test]
fn dropdown_trigger_shows_the_chosen_option_or_the_first() {
    let picker = Dropdown::new("Example")
        .option(DropdownOption::new("One"))
        .option(DropdownOption::new("Two").selected(true))
        .option(DropdownOption::new("Three").selected(true));
    assert_eq!(picker.trigger_value(), "Two");
    let unchosen = Dropdown::new("Example")
        .option(DropdownOption::new("One"))
        .option(DropdownOption::new("Two"));
    assert_eq!(unchosen.trigger_value(), "One");
    assert_eq!(Dropdown::new("Empty").trigger_value(), "");
    let opened = unchosen.open(true).on_toggle(Callback { id: 3 });
    assert!(opened.open);
    assert_eq!(opened.on_toggle, Some(Callback { id: 3 }));
}

#[test]
fn combobox_popup_filters_suggestions_and_offers_free_text() {
    let combo = ComboBox::new("ap")
        .label("Fruit")
        .open(true)
        .allow_free_text(true)
        .option(DropdownOption::new("Apple"))
        .option(DropdownOption::new("Grape"))
        .option(DropdownOption::new("Banana"));
    assert_eq!(combo.role(), Role::ComboBox);
    assert_eq!(combo.kind(), WidgetKind::TextInput);
    assert_eq!(combo.label, "Fruit");
    let popup = combo.popup().unwrap();
    assert_eq!(popup.visible, vec![true, true, false]);
    assert!(popup.custom_visible);
    assert_eq!(popup.custom_label, "Use \u{201c}ap\u{201d}");
}

#[test]
fn combobox_popup_mounts_only_while_open_and_free_text_needs_permission() {
    assert!(ComboBox::new("ap").option(DropdownOption::new("Apple")).popup().is_none());
    // an exact value shows every suggestion and no free-text row
    let exact = ComboBox::new("Apple")
        .open(true)
        .allow_free_text(true)
        .option(DropdownOption::new("Apple").selected(true))
        .option(DropdownOption::new("Banana"))
        .popup()
        .unwrap();
    assert_eq!(exact.visible, vec![true, true]);
    assert!(!exact.custom_visible);
    // without permission the free-text row never shows
    let strict = ComboBox::new("kiwi").open(true).option(DropdownOption::new("Apple")).popup().unwrap();
    assert_eq!(strict.visible, vec![false]);
    assert!(!strict.custom_visible);
    assert_eq!(ComboBox::new("x").option_count(), 0);
}

#[test]
fn closable_tab_names_its_close_button_after_the_tab() {
    let tab = Tab::new("report.rs").on_select(Callback { id: 1 });
    assert_eq!(tab.close_target_name(), None);
    let tab = tab.on_close(Callback { id: 2 }).selected(true);
    assert_eq!(tab.close_target_name(), Some("Close report.rs".to_string()));
    assert!(tab.selected);
    assert_eq!(tab.on_select, Some(Callback { id: 1 }));
    assert_eq!(tab.on_close, Some(Callback { id: 2 }));
}

#[test]
fn pointer_focus_moves_focus_as_keyboard_focus_does() {
    let mut keyboard = two_inputs();
    let mut pointer = two_inputs();
    dispatch_focus(&mut keyboard, Some(1), None, &[]);
    dispatch_pointer_focus(&mut pointer, Some(1), None, &[]);
    let a = dispatch_focus(&mut keyboard, Some(2), None, &[]);
    let b = dispatch_pointer_focus(&mut pointer, Some(2), None, &[]);
    assert_eq!((a.old, a.new, a.moved), (Some(1), Some(2), true));
    assert_eq!((b.old, b.new, b.moved), (Some(1), Some(2), true));
    let again = dispatch_pointer_focus(&mut pointer, Some(2), None, &[]);
    assert_eq!((again.old, again.new, again.moved), (Some(2), Some(2), false));
    // a target that cannot take focus clears it
    let cleared = dispatch_pointer_focus(&mut pointer, Some(3), None, &[]);
    assert_eq!((cleared.old, cleared.new, cleared.moved), (Some(2), None, true));
    assert!(pointer.nodes.iter().all(|n| !n.focused));
    assert!(!cleared.indicator_visible);
}

#[test]
fn a_blank_combobox_query_shows_every_option() {
    let options = vec!["Apple".to_string(), "Banana".to_string()];
    let filter = refresh_combobox_filter("   ", &options);
    assert_eq!(filter.visible, vec![true, true]);
    assert!(!filter.custom_visible);
}
