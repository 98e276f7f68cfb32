//! Accessibility roles, widget kinds, sort directions and handler tokens the
//! widget builders report.

use vstd::prelude::*;

verus! {

/// The accessibility role a widget announces.
#[derive(Clone, Copy, Debug, PartialEq, Eq, Structural)]
pub enum Role {
    Group,
    TabList,
    Tab,
    List,
    ListItem,
    Table,
    TableRow,
    Cell,
    ColumnHeader,
    Image,
    Button,
    ComboBox,
    ListBoxOption,
    TextInput,
    MultilineTextInput,
    ScrollView,
}

/// The retained kind of a widget node.
#[derive(Clone, Copy, Debug, PartialEq, Eq, Structural)]
pub enum WidgetKind {
    Row,
    TabBar,
    Tab,
    List,
    ListItem,
    Table,
    TableRow,
    TableCell,
    Image,
    TerminalGrid,
    TextInput,
    TextArea,
    Dropdown,
    DropdownOption,
}

/// A handler registered with the host, named by the id the host gave it.
/// The host keeps the closure; the builders only record which one to fire.
#[derive(Clone, Copy, Debug, PartialEq, Eq, Structural)]
pub struct Callback {
    pub id: u64,
}

/// A column's ordering.
#[derive(Clone, Copy, Debug, PartialEq, Eq, Structural)]
pub enum SortDirection {
    Ascending,
    Descending,
}

pub open spec fn toggled_spec(d: SortDirection) -> SortDirection {
    match d {
        SortDirection::Ascending => SortDirection::Descending,
        SortDirection::Descending => SortDirection::Ascending,
    }
}

impl SortDirection {
    /// The opposite direction.
    pub fn toggled(self) -> (r: SortDirection)
        ensures
            r == toggled_spec(self),
    {
        match self {
            SortDirection::Ascending => SortDirection::Descending,
            SortDirection::Descending => SortDirection::Ascending,
        }
    }
}

/// Toggling twice restores the direction, and toggling always changes it.
pub proof fn law_sort_toggle_twice_restores(d: SortDirection)
    ensures
        toggled_spec(toggled_spec(d)) == d,
        toggled_spec(d) != d,
{
}

} // verus!
