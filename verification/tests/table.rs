use schnellui_widgets::semantics::{Callback, Role, SortDirection, WidgetKind};
use schnellui_widgets::color::Color;
use schnellui_widgets::table::{cell_plan, next_sort_direction, sort_indicator_colors, Table, TableColumn, TableRow};
use schnellui_widgets::tree::{dispatch_click_table, NodeFacts, SceneModel, TableClick};

/// The tree a built table yields: the table node, then each row followed by
/// its cells, carrying what the row plans and cell plans announce.
fn built(table: &Table) -> (SceneModel, Vec<usize>) {
    let plain = NodeFacts {
        parent: None,
        kind: WidgetKind::Table,
        role: Role::Table,
        selected: false,
        expanded: false,
        focused: false,
        focusable: false,
        disabled: false,
        has_click: false,
        clickable: false,
        sort_direction: None,
        has_sort: false,
    };
    let mut nodes = vec![plain];
    let mut rows = Vec::new();
    for (row, plan) in table.rows.iter().zip(table.row_plans()) {
        let row_id = nodes.len();
        rows.push(row_id);
        nodes.push(NodeFacts {
            parent: Some(0),
            kind: WidgetKind::TableRow,
            role: Role::TableRow,
            selected: plan.selected,
            clickable: plan.actionable,
            focusable: plan.actionable,
            has_click: plan.on_click.is_some(),
            ..plain
        });
        for cell in &row.cells {
            let cp = cell_plan(row.is_header, cell);
            nodes.push(NodeFacts {
                parent: Some(row_id),
                kind: WidgetKind::TableCell,
                role: cp.role,
                clickable: cp.sortable,
                sort_direction: cp.sort_direction,
                has_sort: cell.on_sort.is_some(),
                ..plain
            });
        }
    }
    (SceneModel { nodes }, rows)
}

fn sample_table() -> Table {
    Table::new()
        .columns(&["Name", "Age"])
        .row(&["Ada Lovelace", "36"])
        .row(&["Grace Hopper", "85"])
        .row(&["Al", "7"])
}

#[test]
fn table_builds_semantic_rows_headers_and_cells() {
    let table = sample_table();
    assert_eq!(table.role(), Role::Table);
    assert_eq!(table.kind(), WidgetKind::Table);
    assert_eq!(table.row_count(), 4);
    assert!(table.rows[0].is_header);
    assert_eq!(table.rows[0].cell_count(), 2);
    assert_eq!(table.rows[0].cells[0].label, "Name");
    assert_eq!(cell_plan(true, &table.rows[0].cells[0]).role, Role::ColumnHeader);
    assert_eq!(table.rows[1].cells[0].label, "Ada Lovelace");
    assert_eq!(cell_plan(false, &table.rows[1].cells[0]).role, Role::Cell);
}

#[test]
fn built_table_derives_counts_and_indices() {
    let table = sample_table();
    assert_eq!(table.row_count(), 4);
    assert_eq!(table.column_count(), 2);
    let plans = table.row_plans();
    assert!(plans[0].header);
    assert_eq!(plans[1].data_index, 0);
    assert_eq!(plans[3].data_index, 2);
}

#[test]
fn non_selectable_table_rows_advertise_no_actions() {
    let table = sample_table();
    assert!(!table.selectable());
    for plan in table.row_plans() {
        assert!(!plan.actionable);
        assert!(!plan.selected);
    }
}

#[test]
fn selectable_table_data_rows_advertise_click_focus_header_stays_inert() {
    let table = sample_table().selected_row(1);
    assert!(table.selectable());
    let plans = table.row_plans();
    assert!(!plans[0].actionable);
    for plan in &plans[1..] {
        assert!(plan.actionable);
    }
    assert!(plans[2].selected);
    assert!(!plans[1].selected);
    assert!(!plans[3].selected);
}

#[test]
fn selection_handler_is_attached_to_data_rows_only() {
    let handler = Callback { id: 7 };
    let plans = sample_table().on_select_row(handler).row_plans();
    assert_eq!(plans[0].on_click, None);
    assert_eq!(plans[2].on_click, Some(handler));
    assert!(plans.iter().all(|plan| !plan.selected));
}

#[test]
fn sortable_column_header_exposes_direction_actions_and_toggles_in_place() {
    let table = Table::new()
        .push_row(
            TableRow::new()
                .header()
                .column(
                    TableColumn::new("Name")
                        .sort(SortDirection::Ascending)
                        .on_sort(Callback { id: 1 }),
                )
                .column(TableColumn::new("Age")),
        )
        .row(&["Ada", "36"]);
    let sortable = cell_plan(true, &table.rows[0].cells[0]);
    assert!(sortable.sortable);
    assert_eq!(sortable.sort_direction, Some(SortDirection::Ascending));
    let plain = cell_plan(true, &table.rows[0].cells[1]);
    assert!(!plain.sortable);
    assert_eq!(plain.sort_direction, None);
    let next = next_sort_direction(sortable.sort_direction);
    assert_eq!(next, SortDirection::Descending);
    assert_eq!(next_sort_direction(Some(next)), SortDirection::Ascending);
}

#[test]
fn sortable_column_without_declared_direction_requests_ascending_first() {
    let column = TableColumn::new("Name").on_sort(Callback { id: 2 });
    let row = TableRow::new().header().column(column);
    let plan = cell_plan(true, &row.cells[0]);
    assert_eq!(plan.sort_direction, None);
    assert_eq!(next_sort_direction(plan.sort_direction), SortDirection::Ascending);
}

#[test]
fn declared_sort_direction_without_action_is_read_only() {
    let row = TableRow::new()
        .header()
        .column(TableColumn::new("Name").sort(SortDirection::Descending));
    let plan = cell_plan(true, &row.cells[0]);
    assert!(!plan.sortable);
    assert_eq!(plan.sort_direction, Some(SortDirection::Descending));
}

#[test]
fn cell_click_bubbles_to_row_selects_exclusively_and_fires_index() {
    let table = sample_table().selected_row(0).on_select_row(Callback { id: 3 });
    let plans = table.row_plans();
    let (mut model, rows) = built(&table);
    // click a cell of data-row 2
    let cell = rows[3] + 1;
    match dispatch_click_table(&mut model, cell, WidgetKind::TableCell) {
        TableClick::Selected { row, cleared, acted } => {
            assert_eq!(row, rows[3]);
            assert_eq!(cleared, vec![rows[1]]);
            assert!(acted);
        }
        _ => panic!("a data-row click selects"),
    }
    assert_eq!(plans[3].data_index, 2, "handler sees the data-row index");
    assert!(!model.nodes[rows[1]].selected);
    assert!(model.nodes[rows[3]].selected);
}

#[test]
fn row_click_via_action_request_path_selects_too() {
    let table = sample_table().on_select_row(Callback { id: 3 });
    let (mut model, rows) = built(&table);
    assert!(matches!(
        dispatch_click_table(&mut model, rows[2], WidgetKind::TableRow),
        TableClick::Selected { acted: true, .. }
    ));
    assert!(model.nodes[rows[2]].selected);
}

#[test]
fn header_and_non_selectable_rows_are_inert() {
    let table = sample_table();
    let (mut model, rows) = built(&table);
    assert!(matches!(
        dispatch_click_table(&mut model, rows[0], WidgetKind::TableRow),
        TableClick::Ignored
    ));
    assert!(matches!(
        dispatch_click_table(&mut model, rows[1] + 1, WidgetKind::TableCell),
        TableClick::Ignored
    ));
    assert!(model.nodes.iter().all(|n| !n.selected));
    // a plain header cell is no sort target either
    assert!(matches!(
        dispatch_click_table(&mut model, rows[0] + 1, WidgetKind::TableCell),
        TableClick::Ignored
    ));
}

#[test]
fn already_selected_row_reclick_refires_without_re_dirty() {
    let table = sample_table().selected_row(1).on_select_row(Callback { id: 5 });
    let (mut model, rows) = built(&table);
    match dispatch_click_table(&mut model, rows[2], WidgetKind::TableRow) {
        TableClick::Selected { cleared, acted, .. } => {
            assert!(cleared.is_empty());
            assert!(acted, "the handler refires");
        }
        _ => panic!("a data-row click selects"),
    }
    let (mut quiet, rows) = built(&sample_table().selected_row(1));
    assert!(matches!(
        dispatch_click_table(&mut quiet, rows[2], WidgetKind::TableRow),
        TableClick::Selected { acted: false, .. }
    ));
}

#[test]
fn header_click_toggles_sort_in_place() {
    let table = Table::new()
        .push_row(
            TableRow::new()
                .header()
                .column(TableColumn::new("Name").sort(SortDirection::Ascending).on_sort(Callback { id: 1 })),
        )
        .row(&["Ada"]);
    let (mut model, rows) = built(&table);
    let header = rows[0] + 1;
    match dispatch_click_table(&mut model, header, WidgetKind::TableCell) {
        TableClick::Sorted { direction, fire } => {
            assert_eq!(direction, SortDirection::Descending);
            assert!(fire);
        }
        _ => panic!("a sortable header sorts"),
    }
    assert_eq!(model.nodes[header].sort_direction, Some(SortDirection::Descending));
    assert!(matches!(
        dispatch_click_table(&mut model, header, WidgetKind::TableCell),
        TableClick::Sorted { direction: SortDirection::Ascending, .. }
    ));
}

#[test]
fn ragged_rows_use_max_column_count() {
    let table = Table::new()
        .columns(&["A", "B", "C"])
        .row(&["1", "2"])
        .row(&["x", "y", "z"]);
    assert_eq!(table.row_count(), 3);
    assert_eq!(table.column_count(), 3);
    assert_eq!(table.rows[1].cell_count(), 2);
}

#[test]
fn sort_chevrons_light_the_current_direction_only() {
    let active = Color::rgb(10, 20, 30);
    let inactive = Color::rgb(200, 200, 200);
    let clear = Color::rgba(0, 0, 0, 0);
    assert_eq!(sort_indicator_colors(Some(SortDirection::Ascending), active, inactive), (active, clear));
    assert_eq!(sort_indicator_colors(Some(SortDirection::Descending), active, inactive), (clear, active));
    assert_eq!(sort_indicator_colors(None, active, inactive), (inactive, inactive));
}

#[test]
fn headers_paint_sort_chevrons_when_sortable_or_directed() {
    let row = TableRow::new()
        .header()
        .column(TableColumn::new("Name").on_sort(Callback { id: 5 }))
        .column(TableColumn::new("Age").sort(SortDirection::Descending))
        .column(TableColumn::new("City"));
    assert!(cell_plan(true, &row.cells[0]).sort_indicator);
    assert!(cell_plan(true, &row.cells[1]).sort_indicator);
    assert!(!cell_plan(true, &row.cells[2]).sort_indicator);
    // data cells never do
    assert!(!cell_plan(false, &row.cells[0]).sort_indicator);
}
