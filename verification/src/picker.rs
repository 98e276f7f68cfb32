//! Option pickers: a dropdown and its options, and an editable combo box whose
//! suggestions filter as its value changes. Handlers are host tokens.

use vstd::prelude::*;

use crate::combobox::{exact_match, option_visible, refresh_combobox_filter, trim_spec, ComboFilter};
use crate::semantics::{Callback, Role, WidgetKind};

verus! {

/// One option of a dropdown or combo box; choosing it clears its siblings and
/// fires `on_select`.
pub struct DropdownOption {
    pub label: String,
    pub selected: bool,
    pub on_select: Option<Callback>,
}

impl DropdownOption {
    /// An option with a static label.
    pub fn new(label: &str) -> (o: Self)
        ensures
            o.label@ == label@,
            !o.selected,
            o.on_select is None,
    {
        DropdownOption { label: label.to_owned(), selected: false, on_select: None }
    }

    /// Marks this option as the initially chosen one.
    pub fn selected(self, selected: bool) -> (o: Self)
        ensures
            o.label == self.label,
            o.selected == selected,
            o.on_select == self.on_select,
    {
        let mut o = self;
        o.selected = selected;
        o
    }

    /// Sets the selection handler.
    pub fn on_select(self, handler: Callback) -> (o: Self)
        ensures
            o.label == self.label,
            o.selected == self.selected,
            o.on_select == Some(handler),
    {
        let mut o = self;
        o.on_select = Some(handler);
        o
    }

    pub fn role(&self) -> (r: Role)
        ensures
            r == Role::ListBoxOption,
    {
        Role::ListBoxOption
    }

    pub fn kind(&self) -> (k: WidgetKind)
        ensures
            k == WidgetKind::DropdownOption,
    {
        WidgetKind::DropdownOption
    }
}

/// The index of the first chosen option from `i` on, or `options.len()`.
pub open spec fn chosen_from(options: Seq<DropdownOption>, i: int) -> int
    decreases options.len() - i,
{
    if i < 0 || i >= options.len() {
        options.len() as int
    } else if options[i].selected {
        i
    } else {
        chosen_from(options, i + 1)
    }
}

/// What a dropdown's trigger shows: the first chosen option's label, else the
/// first option's, else nothing.
pub open spec fn trigger_value_spec(options: Seq<DropdownOption>) -> Seq<char> {
    let k = chosen_from(options, 0);
    if k < options.len() {
        options[k].label@
    } else if options.len() > 0 {
        options[0].label@
    } else {
        Seq::empty()
    }
}

/// A single-choice picker: a trigger showing the chosen option and, while
/// open, a popup of its options.
pub struct Dropdown {
    /// What the control is, for assistive technology.
    pub label: String,
    pub options: Vec<DropdownOption>,
    /// Whether the option popup is mounted.
    pub open: bool,
    pub on_toggle: Option<Callback>,
}

impl Dropdown {
    /// A closed dropdown with an accessible label and no options.
    pub fn new(label: &str) -> (d: Self)
        ensures
            d.label@ == label@,
            d.options@.len() == 0,
            !d.open,
            d.on_toggle is None,
    {
        Dropdown { label: label.to_owned(), options: Vec::new(), open: false, on_toggle: None }
    }

    /// Appends one option.
    pub fn option(self, o: DropdownOption) -> (d: Self)
        ensures
            d.label == self.label,
            d.options@ == self.options@.push(o),
            d.open == self.open,
            d.on_toggle == self.on_toggle,
    {
        let mut d = self;
        d.options.push(o);
        d
    }

    /// Whether the option list is showing.
    pub fn open(self, open: bool) -> (d: Self)
        ensures
            d.label == self.label,
            d.options@ == self.options@,
            d.open == open,
            d.on_toggle == self.on_toggle,
    {
        let mut d = self;
        d.open = open;
        d
    }

    /// Sets the trigger's activation handler; the host flips `open`.
    pub fn on_toggle(self, handler: Callback) -> (d: Self)
        ensures
            d.label == self.label,
            d.options@ == self.options@,
            d.open == self.open,
            d.on_toggle == Some(handler),
    {
        let mut d = self;
        d.on_toggle = Some(handler);
        d
    }

    pub fn role(&self) -> (r: Role)
        ensures
            r == Role::ComboBox,
    {
        Role::ComboBox
    }

    pub fn kind(&self) -> (k: WidgetKind)
        ensures
            k == WidgetKind::Dropdown,
    {
        WidgetKind::Dropdown
    }

    /// Number of options configured.
    pub fn option_count(&self) -> (n: usize)
        ensures
            n == self.options@.len(),
    {
        self.options.len()
    }

    /// The trigger's text (see `trigger_value_spec`).
    pub fn trigger_value(&self) -> (v: String)
        ensures
            v@ == trigger_value_spec(self.options@),
    {
        let mut i: usize = 0;
        while i < self.options.len()
            invariant
                i <= self.options@.len(),
                chosen_from(self.options@, 0) == chosen_from(self.options@, i as int),
            decreases self.options@.len() - i,
        {
            if self.options[i].selected {
                return self.options[i].label.clone();
            }
            i = i + 1;
        }
        if self.options.len() > 0 {
            self.options[0].label.clone()
        } else {
            String::new()
        }
    }
}

/// The options' labels, in order.
pub open spec fn option_labels(options: Seq<DropdownOption>) -> Seq<String> {
    options.map_values(|o: DropdownOption| o.label)
}

/// An editable field with a popup of suggestions that filter as its value
/// changes, and optionally a row accepting the typed value itself.
pub struct ComboBox {
    pub value: String,
    /// The floating and accessible label.
    pub label: String,
    pub options: Vec<DropdownOption>,
    /// Whether the suggestion popup is mounted.
    pub open: bool,
    /// Whether a value outside the suggestions can be accepted.
    pub allow_free_text: bool,
    pub on_input: Option<Callback>,
    pub on_toggle: Option<Callback>,
    pub on_accept_free_text: Option<Callback>,
}

impl ComboBox {
    /// A closed combo box with its current value, no label and no options.
    pub fn new(value: &str) -> (c: Self)
        ensures
            c.value@ == value@,
            c.label@.len() == 0,
            c.options@.len() == 0,
            !c.open,
            !c.allow_free_text,
            c.on_input is None,
            c.on_toggle is None,
            c.on_accept_free_text is None,
    {
        ComboBox {
            value: value.to_owned(),
            label: String::new(),
            options: Vec::new(),
            open: false,
            allow_free_text: false,
            on_input: None,
            on_toggle: None,
            on_accept_free_text: None,
        }
    }

    /// Sets the floating and accessible label.
    pub fn label(self, label: &str) -> (c: Self)
        ensures
            c == (ComboBox { label: c.label, ..self }),
            c.label@ == label@,
    {
        let mut c = self;
        c.label = label.to_owned();
        c
    }

    /// Appends a suggestion.
    pub fn option(self, o: DropdownOption) -> (c: Self)
        ensures
            c == (ComboBox { options: c.options, ..self }),
            c.options@ == self.options@.push(o),
    {
        let mut c = self;
        c.options.push(o);
        c
    }

    /// Whether the suggestion popup is mounted.
    pub fn open(self, open: bool) -> (c: Self)
        ensures
            c == (ComboBox { open, ..self }),
    {
        let mut c = self;
        c.open = open;
        c
    }

    /// Allows a value outside the suggestions to be accepted.
    pub fn allow_free_text(self, allow: bool) -> (c: Self)
        ensures
            c == (ComboBox { allow_free_text: allow, ..self }),
    {
        let mut c = self;
        c.allow_free_text = allow;
        c
    }

    /// Fires whenever editing changes the search text.
    pub fn on_input(self, handler: Callback) -> (c: Self)
        ensures
            c == (ComboBox { on_input: Some(handler), ..self }),
    {
        let mut c = self;
        c.on_input = Some(handler);
        c
    }

    /// Fires when the collapsed field is activated or an open one dismissed.
    pub fn on_toggle(self, handler: Callback) -> (c: Self)
        ensures
            c == (ComboBox { on_toggle: Some(handler), ..self }),
    {
        let mut c = self;
        c.on_toggle = Some(handler);
        c
    }

    /// Fires when the row accepting the typed value is chosen.
    pub fn on_accept_free_text(self, handler: Callback) -> (c: Self)
        ensures
            c == (ComboBox { on_accept_free_text: Some(handler), ..self }),
    {
        let mut c = self;
        c.on_accept_free_text = Some(handler);
        c
    }

    pub fn role(&self) -> (r: Role)
        ensures
            r == Role::ComboBox,
    {
        Role::ComboBox
    }

    /// The editable field is a text input that announces itself as a combo box.
    pub fn kind(&self) -> (k: WidgetKind)
        ensures
            k == WidgetKind::TextInput,
    {
        WidgetKind::TextInput
    }

    pub fn option_count(&self) -> (n: usize)
        ensures
            n == self.options@.len(),
    {
        self.options.len()
    }

    /// The popup as it mounts: nothing while closed; while open, which
    /// suggestions show for the current value, and the free-text row, shown
    /// only when free text is allowed.
    pub fn popup(&self) -> (r: Option<ComboFilter>)
        ensures
            !self.open ==> r is None,
            self.open ==> (r matches Some(f) && {
                let labels = option_labels(self.options@);
                &&& f.visible@.len() == labels.len()
                &&& forall|k: int|
                    0 <= k < labels.len() ==> #[trigger] f.visible@[k] == option_visible(
                        self.value@,
                        labels,
                        labels[k]@,
                    )
                &&& f.custom_visible == (self.allow_free_text && trim_spec(self.value@).len() > 0
                    && !exact_match(self.value@, labels))
                &&& f.custom_label@ == seq!['U', 's', 'e', ' ', '\u{201c}'] + self.value@ + seq!['\u{201d}']
            }),
    {
        if !self.open {
            return None;
        }
        let mut labels: Vec<String> = Vec::new();
        let mut i: usize = 0;
        while i < self.options.len()
            invariant
                i <= self.options@.len(),
                labels@ == option_labels(self.options@).subrange(0, i as int),
            decreases self.options@.len() - i,
        {
            labels.push(self.options[i].label.clone());
            i = i + 1;
            assert(labels@ =~= option_labels(self.options@).subrange(0, i as int));
        }
        assert(labels@ =~= option_labels(self.options@));
        let f = refresh_combobox_filter(self.value.as_str(), labels.as_slice());
        let custom_visible = self.allow_free_text && f.custom_visible;
        Some(ComboFilter { visible: f.visible, custom_visible, custom_label: f.custom_label })
    }
}

} // verus!
