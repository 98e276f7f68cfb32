//! The table builder: a header row plus data rows of static cell labels, an
//! optional selected data row, and what each row and cell announces once
//! built. Header rows never count as data rows and are never selectable.

use vstd::prelude::*;

use crate::color::{rgba_spec, Color};
use crate::semantics::{toggled_spec, Callback, Role, SortDirection, WidgetKind};

verus! {

/// One cell of a row: its label and, for a column title, its sorting.
pub struct TableCell {
    pub label: String,
    pub sort_direction: Option<SortDirection>,
    pub on_sort: Option<Callback>,
}

/// A column title with optional sorting behaviour. Activating a sortable
/// title toggles ascending/descending; without a declared direction the first
/// activation requests ascending order.
pub struct TableColumn {
    pub label: String,
    pub sort_direction: Option<SortDirection>,
    pub on_sort: Option<Callback>,
}

impl TableColumn {
    pub fn new(label: &str) -> (c: Self)
        ensures
            c.label@ == label@,
            c.sort_direction is None,
            c.on_sort is None,
    {
        TableColumn { label: label.to_owned(), sort_direction: None, on_sort: None }
    }

    /// Declares the column's current ordering.
    pub fn sort(self, direction: SortDirection) -> (c: Self)
        ensures
            c.label@ == self.label@,
            c.sort_direction == Some(direction),
            c.on_sort == self.on_sort,
    {
        let mut c = self;
        c.sort_direction = Some(direction);
        c
    }

    /// Makes the title actionable; the handler receives each newly requested
    /// direction.
    pub fn on_sort(self, handler: Callback) -> (c: Self)
        ensures
            c.label@ == self.label@,
            c.sort_direction == self.sort_direction,
            c.on_sort == Some(handler),
    {
        let mut c = self;
        c.on_sort = Some(handler);
        c
    }
}

/// One row of a table: an ordered list of cells plus the header flag.
pub struct TableRow {
    pub cells: Vec<TableCell>,
    pub is_header: bool,
}

/// `c` is a plain cell labelled `label`.
pub open spec fn plain_cell(c: TableCell, label: Seq<char>) -> bool {
    c.label@ == label && c.sort_direction is None && c.on_sort is None
}

impl TableRow {
    pub fn new() -> (r: TableRow)
        ensures
            r.cells@.len() == 0,
            !r.is_header,
    {
        TableRow { cells: Vec::new(), is_header: false }
    }

    /// Appends one cell label.
    pub fn cell(self, label: &str) -> (r: TableRow)
        ensures
            r.is_header == self.is_header,
            r.cells@.len() == self.cells@.len() + 1,
            r.cells@.drop_last() == self.cells@,
            plain_cell(r.cells@.last(), label@),
    {
        let mut r = self;
        r.cells.push(TableCell { label: label.to_owned(), sort_direction: None, on_sort: None });
        r
    }

    /// Appends a configured column title (meant for header rows).
    pub fn column(self, column: TableColumn) -> (r: TableRow)
        ensures
            r.is_header == self.is_header,
            r.cells@.len() == self.cells@.len() + 1,
            r.cells@.drop_last() == self.cells@,
            r.cells@.last().label@ == column.label@,
            r.cells@.last().sort_direction == column.sort_direction,
            r.cells@.last().on_sort == column.on_sort,
    {
        let mut r = self;
        r.cells.push(
            TableCell {
                label: column.label,
                sort_direction: column.sort_direction,
                on_sort: column.on_sort,
            },
        );
        r
    }

    /// Marks this row as the header row.
    pub fn header(self) -> (r: TableRow)
        ensures
            r.is_header,
            r.cells@ == self.cells@,
    {
        let mut r = self;
        r.is_header = true;
        r
    }

    /// Number of cells configured.
    pub fn cell_count(&self) -> (n: usize)
        ensures
            n == self.cells@.len(),
    {
        self.cells.len()
    }
}

/// A data table. Rows become selectable when a row is pre-selected or a
/// selection handler is set; only then do data rows advertise actions.
pub struct Table {
    pub rows: Vec<TableRow>,
    pub selected: Option<usize>,
    pub on_select_row: Option<Callback>,
}

/// The rows of `rows` are the rows of `before` followed by `row` (labels and
/// flags compared by value).
pub open spec fn appended(before: Seq<TableRow>, rows: Seq<TableRow>, row: TableRow) -> bool {
    &&& rows.len() == before.len() + 1
    &&& rows.drop_last() == before
    &&& rows.last() == row
}

impl Table {
    pub fn new() -> (t: Table)
        ensures
            t.rows@.len() == 0,
            t.selected is None,
            t.on_select_row is None,
    {
        Table { rows: Vec::new(), selected: None, on_select_row: None }
    }

    /// Appends the header row of the given column labels.
    pub fn columns(self, labels: &[&str]) -> (t: Table)
        ensures
            t.rows@.len() == self.rows@.len() + 1,
            t.rows@.drop_last() == self.rows@,
            t.rows@.last().is_header,
            t.rows@.last().cells@.len() == labels@.len(),
            forall|k: int|
                0 <= k < labels@.len() ==> plain_cell(
                    #[trigger] t.rows@.last().cells@[k],
                    labels@[k]@,
                ),
            t.selected == self.selected,
            t.on_select_row == self.on_select_row,
    {
        let row = labelled_row(TableRow::new().header(), labels);
        let mut t = self;
        t.rows.push(row);
        t
    }

    /// Appends one data row of cell labels.
    pub fn row(self, labels: &[&str]) -> (t: Table)
        ensures
            t.rows@.len() == self.rows@.len() + 1,
            t.rows@.drop_last() == self.rows@,
            !t.rows@.last().is_header,
            t.rows@.last().cells@.len() == labels@.len(),
            forall|k: int|
                0 <= k < labels@.len() ==> plain_cell(
                    #[trigger] t.rows@.last().cells@[k],
                    labels@[k]@,
                ),
            t.selected == self.selected,
            t.on_select_row == self.on_select_row,
    {
        let row = labelled_row(TableRow::new(), labels);
        let mut t = self;
        t.rows.push(row);
        t
    }

    /// Appends an explicitly built row.
    pub fn push_row(self, row: TableRow) -> (t: Table)
        ensures
            appended(self.rows@, t.rows@, row),
            t.selected == self.selected,
            t.on_select_row == self.on_select_row,
    {
        let mut t = self;
        t.rows.push(row);
        assert(t.rows@.drop_last() =~= self.rows@);
        t
    }

    /// Pre-selects a data-row index (header rows don't count) and makes the
    /// rows selectable.
    pub fn selected_row(self, index: usize) -> (t: Table)
        ensures
            t.rows@ == self.rows@,
            t.selected == Some(index),
            t.on_select_row == self.on_select_row,
    {
        let mut t = self;
        t.selected = Some(index);
        t
    }

    /// Registers the row-selection handler, fired with the selected data-row
    /// index; makes the rows selectable.
    pub fn on_select_row(self, handler: Callback) -> (t: Table)
        ensures
            t.rows@ == self.rows@,
            t.selected == self.selected,
            t.on_select_row == Some(handler),
    {
        let mut t = self;
        t.on_select_row = Some(handler);
        t
    }

    pub open spec fn selectable_spec(&self) -> bool {
        self.selected is Some || self.on_select_row is Some
    }

    /// Whether rows carry selection state and actions.
    pub fn selectable(&self) -> (r: bool)
        ensures
            r == self.selectable_spec(),
    {
        self.selected.is_some() || self.on_select_row.is_some()
    }

    pub fn role(&self) -> (r: Role)
        ensures
            r == Role::Table,
    {
        Role::Table
    }

    pub fn kind(&self) -> (k: WidgetKind)
        ensures
            k == WidgetKind::Table,
    {
        WidgetKind::Table
    }

    /// Number of rows configured, header included.
    pub fn row_count(&self) -> (n: usize)
        ensures
            n == self.rows@.len(),
    {
        self.rows.len()
    }
}

/// `row` with one plain cell per label appended.
fn labelled_row(row: TableRow, labels: &[&str]) -> (r: TableRow)
    requires
        row.cells@.len() == 0,
    ensures
        r.is_header == row.is_header,
        r.cells@.len() == labels@.len(),
        forall|k: int| 0 <= k < labels@.len() ==> plain_cell(#[trigger] r.cells@[k], labels@[k]@),
{
    let mut r = row;
    let mut i: usize = 0;
    while i < labels.len()
        invariant
            i <= labels@.len(),
            r.is_header == row.is_header,
            r.cells@.len() == i,
            forall|k: int| 0 <= k < i ==> plain_cell(#[trigger] r.cells@[k], labels@[k]@),
        decreases labels@.len() - i,
    {
        r = r.cell(labels[i]);
        proof {
            assert forall|k: int| 0 <= k < i + 1 implies plain_cell(
                #[trigger] r.cells@[k],
                labels@[k]@,
            ) by {
                if k < i {
                    assert(r.cells@[k] == r.cells@.drop_last()[k]);
                }
            }
        }
        i = i + 1;
    }
    r
}

// ---------------------------------------------------------------------------
// what a built table announces
// ---------------------------------------------------------------------------

/// The number of data (non-header) rows among the first `r` rows: the data
/// index of row `r` when it is a data row.
pub open spec fn data_index_spec(rows: Seq<TableRow>, r: int) -> int
    decreases r,
{
    if r <= 0 {
        0
    } else {
        data_index_spec(rows, r - 1) + (if rows[r - 1].is_header {
            0int
        } else {
            1int
        })
    }
}

/// What one built row announces.
#[derive(Clone, Copy, Debug, PartialEq, Eq, Structural)]
pub struct RowPlan {
    pub header: bool,
    /// The data-row index (the count of data rows before it).
    pub data_index: usize,
    /// Carries the selected state.
    pub selected: bool,
    /// Advertises the click and focus actions.
    pub actionable: bool,
    /// The handler a click fires, with `data_index`.
    pub on_click: Option<Callback>,
}

pub open spec fn row_plan_spec(t: Table, r: int) -> RowPlan {
    let header = t.rows@[r].is_header;
    let d = data_index_spec(t.rows@, r);
    let actionable = !header && t.selectable_spec();
    RowPlan {
        header,
        data_index: d as usize,
        selected: actionable && (t.selected matches Some(s) && s == d),
        actionable,
        on_click: if actionable {
            t.on_select_row
        } else {
            None
        },
    }
}

/// What one built cell announces.
#[derive(Clone, Copy, Debug, PartialEq, Eq, Structural)]
pub struct CellPlan {
    pub role: Role,
    /// The direction a column header announces.
    pub sort_direction: Option<SortDirection>,
    /// A sortable column header advertises click and focus actions.
    pub sortable: bool,
    /// A header paints the up/down sort chevrons when it is sortable or
    /// declares a direction.
    pub sort_indicator: bool,
}

pub open spec fn cell_plan_spec(header: bool, c: TableCell) -> CellPlan {
    if header {
        CellPlan {
            role: Role::ColumnHeader,
            sort_direction: c.sort_direction,
            sortable: c.on_sort is Some,
            sort_indicator: c.on_sort is Some || c.sort_direction is Some,
        }
    } else {
        CellPlan { role: Role::Cell, sort_direction: None, sortable: false, sort_indicator: false }
    }
}

/// The widest row's cell count: ragged rows share the maximum column count.
pub open spec fn column_count_spec(rows: Seq<TableRow>, r: int) -> int
    decreases r,
{
    if r <= 0 {
        0
    } else {
        let prev = column_count_spec(rows, r - 1);
        let n = rows[r - 1].cells@.len() as int;
        if n > prev {
            n
        } else {
            prev
        }
    }
}

proof fn lemma_data_index_bound(rows: Seq<TableRow>, r: int)
    requires
        0 <= r <= rows.len(),
    ensures
        0 <= data_index_spec(rows, r) <= r,
    decreases r,
{
    if r > 0 {
        lemma_data_index_bound(rows, r - 1);
    }
}

proof fn lemma_data_index_monotone(rows: Seq<TableRow>, i: int, j: int)
    requires
        0 <= i < j <= rows.len(),
        !rows[i].is_header,
    ensures
        data_index_spec(rows, i) < data_index_spec(rows, j),
    decreases j - i,
{
    if j > i + 1 {
        lemma_data_index_monotone(rows, i, j - 1);
    }
}

/// At most one row of a built table is selected, and it is a data row.
pub proof fn law_at_most_one_selected_row(t: Table, i: int, j: int)
    requires
        0 <= i < t.rows@.len(),
        0 <= j < t.rows@.len(),
        row_plan_spec(t, i).selected,
        row_plan_spec(t, j).selected,
    ensures
        i == j,
        !t.rows@[i].is_header,
{
    lemma_data_index_bound(t.rows@, i);
    lemma_data_index_bound(t.rows@, j);
    if i < j {
        lemma_data_index_monotone(t.rows@, i, j);
    } else if j < i {
        lemma_data_index_monotone(t.rows@, j, i);
    }
}

impl Table {
    /// What every row announces once built, in order.
    pub fn row_plans(&self) -> (plans: Vec<RowPlan>)
        ensures
            plans@.len() == self.rows@.len(),
            forall|r: int| 0 <= r < plans@.len() ==> #[trigger] plans@[r] == row_plan_spec(*self, r),
    {
        let selectable = self.selectable();
        let mut plans: Vec<RowPlan> = Vec::new();
        let mut data_index: usize = 0;
        let mut r: usize = 0;
        while r < self.rows.len()
            invariant
                r <= self.rows@.len(),
                selectable == self.selectable_spec(),
                plans@.len() == r,
                data_index == data_index_spec(self.rows@, r as int),
                forall|k: int| 0 <= k < r ==> #[trigger] plans@[k] == row_plan_spec(*self, k),
            decreases self.rows@.len() - r,
        {
            proof {
                lemma_data_index_bound(self.rows@, r as int);
            }
            let header = self.rows[r].is_header;
            let actionable = !header && selectable;
            let selected = actionable && match self.selected {
                Some(s) => s == data_index,
                None => false,
            };
            plans.push(
                RowPlan {
                    header,
                    data_index,
                    selected,
                    actionable,
                    on_click: if actionable {
                        self.on_select_row
                    } else {
                        None
                    },
                },
            );
            if !header {
                data_index = data_index + 1;
            }
            r = r + 1;
        }
        plans
    }

    /// The number of columns: the widest row's cell count.
    pub fn column_count(&self) -> (n: usize)
        ensures
            n == column_count_spec(self.rows@, self.rows@.len() as int),
    {
        let mut n: usize = 0;
        let mut r: usize = 0;
        while r < self.rows.len()
            invariant
                r <= self.rows@.len(),
                n == column_count_spec(self.rows@, r as int),
            decreases self.rows@.len() - r,
        {
            let c = self.rows[r].cells.len();
            if c > n {
                n = c;
            }
            r = r + 1;
        }
        n
    }
}

/// What a cell of a header (or data) row announces.
pub fn cell_plan(header: bool, cell: &TableCell) -> (p: CellPlan)
    ensures
        p == cell_plan_spec(header, *cell),
{
    if header {
        CellPlan {
            role: Role::ColumnHeader,
            sort_direction: cell.sort_direction,
            sortable: cell.on_sort.is_some(),
            sort_indicator: cell.on_sort.is_some() || cell.sort_direction.is_some(),
        }
    } else {
        CellPlan { role: Role::Cell, sort_direction: None, sortable: false, sort_indicator: false }
    }
}

// ---------------------------------------------------------------------------
// clicks
// ---------------------------------------------------------------------------

/// The direction a sortable header requests when activated: the opposite of
/// its current one, or ascending when it announces none.
pub fn next_sort_direction(current: Option<SortDirection>) -> (d: SortDirection)
    ensures
        d == (match current {
            Some(c) => toggled_spec(c),
            None => SortDirection::Ascending,
        }),
{
    match current {
        Some(c) => c.toggled(),
        None => SortDirection::Ascending,
    }
}

/// The colours of a header's up and down sort chevrons: the active colour
/// on the chevron of the current direction (the other one transparent), or
/// the inactive colour on both when the column is unsorted.
pub fn sort_indicator_colors(direction: Option<SortDirection>, active: Color, inactive: Color) -> (r: (
    Color,
    Color,
))
    ensures
        r == (match direction {
            Some(SortDirection::Ascending) => (active, rgba_spec(0, 0, 0, 0)),
            Some(SortDirection::Descending) => (rgba_spec(0, 0, 0, 0), active),
            None => (inactive, inactive),
        }),
{
    match direction {
        Some(SortDirection::Ascending) => (active, Color::transparent()),
        Some(SortDirection::Descending) => (Color::transparent(), active),
        None => (inactive, inactive),
    }
}

} // verus!
