//! Navigation builders: a tab bar, a selectable list and its items. Children
//! are the host's view values of one type `V`.

use vstd::prelude::*;

use crate::semantics::{Callback, Role, WidgetKind};

verus! {

/// A row of tabs with an optional trailing view (such as a new-tab button)
/// kept outside the semantic tab list.
pub struct TabBar<V> {
    pub children: Vec<V>,
    pub trailing: Option<V>,
    pub on_reorder: Option<Callback>,
    /// Overflowing tabs wrap onto further lines instead of shrinking.
    pub wrap: bool,
}

impl<V> TabBar<V> {
    /// A new empty tab bar.
    pub fn new() -> (t: Self)
        ensures
            t.children@.len() == 0,
            t.trailing is None,
            t.on_reorder is None,
            !t.wrap,
    {
        TabBar { children: Vec::new(), trailing: None, on_reorder: None, wrap: false }
    }

    /// Appends a child (usually a tab).
    pub fn child(self, c: V) -> (t: Self)
        ensures
            t.children@ == self.children@.push(c),
            t.trailing == self.trailing,
            t.on_reorder == self.on_reorder,
            t.wrap == self.wrap,
    {
        let mut t = self;
        t.children.push(c);
        t
    }

    /// Places one independent view after the final tab.
    pub fn trailing(self, view: V) -> (t: Self)
        ensures
            t.children@ == self.children@,
            t.trailing == Some(view),
            t.on_reorder == self.on_reorder,
            t.wrap == self.wrap,
    {
        let mut t = self;
        t.trailing = Some(view);
        t
    }

    /// Alias for `trailing` when the final view is an action control.
    pub fn action(self, view: V) -> (t: Self)
        ensures
            t.children@ == self.children@,
            t.trailing == Some(view),
            t.on_reorder == self.on_reorder,
            t.wrap == self.wrap,
    {
        self.trailing(view)
    }

    /// Enables pointer reordering; the handler receives the dragged tab's old
    /// index and its new final index.
    pub fn on_reorder(self, handler: Callback) -> (t: Self)
        ensures
            t.children@ == self.children@,
            t.trailing == self.trailing,
            t.on_reorder == Some(handler),
            t.wrap == self.wrap,
    {
        let mut t = self;
        t.on_reorder = Some(handler);
        t
    }

    /// Lets overflowing tabs wrap onto additional lines.
    pub fn wrap(self) -> (t: Self)
        ensures
            t.children@ == self.children@,
            t.trailing == self.trailing,
            t.on_reorder == self.on_reorder,
            t.wrap,
    {
        let mut t = self;
        t.wrap = true;
        t
    }

    pub fn role(&self) -> (r: Role)
        ensures
            r == Role::TabList,
    {
        Role::TabList
    }

    pub fn kind(&self) -> (k: WidgetKind)
        ensures
            k == WidgetKind::TabBar,
    {
        WidgetKind::TabBar
    }

    /// Number of children configured.
    pub fn child_count(&self) -> (n: usize)
        ensures
            n == self.children@.len(),
    {
        self.children.len()
    }

    /// Whether a trailing view has been configured.
    pub fn has_trailing(&self) -> (r: bool)
        ensures
            r == self.trailing is Some,
    {
        self.trailing.is_some()
    }
}

/// A selectable list: a semantic column whose items select exclusively.
pub struct List<V> {
    pub children: Vec<V>,
}

impl<V> List<V> {
    /// A new empty list.
    pub fn new() -> (l: Self)
        ensures
            l.children@.len() == 0,
    {
        List { children: Vec::new() }
    }

    /// Appends a child (usually a list item).
    pub fn child(self, c: V) -> (l: Self)
        ensures
            l.children@ == self.children@.push(c),
    {
        let mut l = self;
        l.children.push(c);
        l
    }

    pub fn role(&self) -> (r: Role)
        ensures
            r == Role::List,
    {
        Role::List
    }

    pub fn kind(&self) -> (k: WidgetKind)
        ensures
            k == WidgetKind::List,
    {
        WidgetKind::List
    }

    /// Number of children configured.
    pub fn child_count(&self) -> (n: usize)
        ensures
            n == self.children@.len(),
    {
        self.children.len()
    }
}

/// One entry of a list; selecting it clears its siblings and fires `on_select`.
pub struct ListItem {
    pub label: String,
    pub selected: bool,
    pub on_select: Option<Callback>,
}

impl ListItem {
    /// A list item with a static label.
    pub fn new(label: &str) -> (i: Self)
        ensures
            i.label@ == label@,
            !i.selected,
            i.on_select is None,
    {
        ListItem { label: label.to_owned(), selected: false, on_select: None }
    }

    /// Marks this item as the initially selected one.
    pub fn selected(self, selected: bool) -> (i: Self)
        ensures
            i.label@ == self.label@,
            i.selected == selected,
            i.on_select == self.on_select,
    {
        let mut i = self;
        i.selected = selected;
        i
    }

    /// Sets the selection handler.
    pub fn on_select(self, handler: Callback) -> (i: Self)
        ensures
            i.label@ == self.label@,
            i.selected == self.selected,
            i.on_select == Some(handler),
    {
        let mut i = self;
        i.on_select = Some(handler);
        i
    }

    pub fn role(&self) -> (r: Role)
        ensures
            r == Role::ListItem,
    {
        Role::ListItem
    }

    pub fn kind(&self) -> (k: WidgetKind)
        ensures
            k == WidgetKind::ListItem,
    {
        WidgetKind::ListItem
    }
}

/// One tab of a tab bar; selecting it clears its sibling tabs and fires
/// `on_select`.
pub struct Tab {
    pub label: String,
    pub selected: bool,
    pub on_select: Option<Callback>,
    /// Makes the tab a pointer drag source; click-to-select still works.
    pub on_drag_start: Option<Callback>,
    /// Runs when a drag ends, told whether a drop target accepted it.
    pub on_drag_end: Option<Callback>,
    /// Accepts a dragged item.
    pub on_drop: Option<Callback>,
    /// Adds a trailing close button running this handler.
    pub on_close: Option<Callback>,
}

impl Tab {
    /// A tab with a static label.
    pub fn new(label: &str) -> (t: Self)
        ensures
            t.label@ == label@,
            !t.selected,
            t.on_select is None,
            t.on_drag_start is None,
            t.on_drag_end is None,
            t.on_drop is None,
            t.on_close is None,
    {
        Tab {
            label: label.to_owned(),
            selected: false,
            on_select: None,
            on_drag_start: None,
            on_drag_end: None,
            on_drop: None,
            on_close: None,
        }
    }

    /// Marks this tab as the initially selected one.
    pub fn selected(self, selected: bool) -> (t: Self)
        ensures
            t == (Tab { selected, ..self }),
    {
        let mut t = self;
        t.selected = selected;
        t
    }

    /// Sets the selection handler.
    pub fn on_select(self, handler: Callback) -> (t: Self)
        ensures
            t == (Tab { on_select: Some(handler), ..self }),
    {
        let mut t = self;
        t.on_select = Some(handler);
        t
    }

    /// Makes this tab a drag source.
    pub fn on_drag_start(self, handler: Callback) -> (t: Self)
        ensures
            t == (Tab { on_drag_start: Some(handler), ..self }),
    {
        let mut t = self;
        t.on_drag_start = Some(handler);
        t
    }

    /// Runs when a drag of this tab ends.
    pub fn on_drag_end(self, handler: Callback) -> (t: Self)
        ensures
            t == (Tab { on_drag_end: Some(handler), ..self }),
    {
        let mut t = self;
        t.on_drag_end = Some(handler);
        t
    }

    /// Accepts a dragged item on this tab.
    pub fn on_drop(self, handler: Callback) -> (t: Self)
        ensures
            t == (Tab { on_drop: Some(handler), ..self }),
    {
        let mut t = self;
        t.on_drop = Some(handler);
        t
    }

    /// Adds a trailing close button.
    pub fn on_close(self, handler: Callback) -> (t: Self)
        ensures
            t == (Tab { on_close: Some(handler), ..self }),
    {
        let mut t = self;
        t.on_close = Some(handler);
        t
    }

    pub fn role(&self) -> (r: Role)
        ensures
            r == Role::Tab,
    {
        Role::Tab
    }

    pub fn kind(&self) -> (k: WidgetKind)
        ensures
            k == WidgetKind::Tab,
    {
        WidgetKind::Tab
    }

    /// A closable tab mounts as a group holding the tab and a separate close
    /// button; this is that button's accessible name, `Close` and the label.
    pub fn close_target_name(&self) -> (r: Option<String>)
        ensures
            self.on_close is None ==> r is None,
            self.on_close is Some ==> (r matches Some(name) && name@ == seq!['C', 'l', 'o', 's', 'e', ' ']
                + self.label@),
    {
        if self.on_close.is_none() {
            return None;
        }
        let prefix = "Close ";
        proof {
            reveal_strlit("Close ");
        }
        let mut name = String::new();
        name.append(prefix);
        name.append(self.label.as_str());
        Some(name)
    }
}

} // verus!
