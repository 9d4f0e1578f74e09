use table_rs::engine::compute_view;
use table_rs::engine::toggle_sort;
use table_rs::types::Column;
use table_rs::types::Row;
use table_rs::types::SortOrder;
use table_rs::types::ViewResult;
use table_rs::types::ViewState;

fn row2(name: &str, email: &str) -> Row {
    Row {
        cells: vec![
            ("name".to_string(), name.to_string()),
            ("email".to_string(), email.to_string()),
        ],
    }
}

fn columns2() -> Vec<Column> {
    vec![
        Column {
            id: "name".to_string(),
            header: "Name".to_string(),
            sortable: true,
        },
        Column {
            id: "email".to_string(),
            header: "Email".to_string(),
            sortable: false,
        },
    ]
}

fn state(page: usize, sort_column: Option<&str>, sort_order: SortOrder, q: &str) -> ViewState {
    ViewState {
        page,
        sort_column: sort_column.map(|s| s.to_string()),
        sort_order,
        search_query: q.to_string(),
    }
}

fn names(result: &ViewResult) -> Vec<String> {
    result
        .visible_rows
        .iter()
        .map(|r| r.cells[0].1.clone())
        .collect()
}

#[test]
fn empty_query_returns_all_rows_in_order() {
    let rows = vec![row2("c", "1"), row2("a", "2"), row2("b", "3")];
    let cols = columns2();
    let st = state(0, None, SortOrder::Asc, "");
    let v = compute_view(&rows, &cols, 10, &st);
    assert_eq!(names(&v), vec!["c", "a", "b"]);
    assert_eq!(v.total_pages, 1);
    assert_eq!(v.clamped_page, 0);
}

#[test]
fn query_matches_any_column_case_insensitively() {
    let rows = vec![
        row2("Ferris", "ferris@x.org"),
        row2("Ferros", "ferros@x.org"),
    ];
    let cols = columns2();
    let both = compute_view(&rows, &cols, 10, &state(0, None, SortOrder::Asc, "ferr"));
    assert_eq!(names(&both), vec!["Ferris", "Ferros"]);
    let first = compute_view(&rows, &cols, 10, &state(0, None, SortOrder::Asc, "fERRIS"));
    assert_eq!(names(&first), vec!["Ferris"]);
}

#[test]
fn query_can_match_a_non_name_column() {
    let rows = vec![row2("a", "alice@x.org"), row2("b", "bob@y.org")];
    let cols = columns2();
    let v = compute_view(&rows, &cols, 10, &state(0, None, SortOrder::Asc, "y.org"));
    assert_eq!(names(&v), vec!["b"]);
}

#[test]
fn missing_column_value_does_not_match() {
    let mut rows = vec![row2("a", "match-me"), row2("b", "other")];
    rows.push(Row {
        cells: vec![("name".to_string(), "c".to_string())],
    });
    let cols = columns2();
    let v = compute_view(&rows, &cols, 10, &state(0, None, SortOrder::Asc, "match"));
    assert_eq!(names(&v), vec!["a"]);
}

#[test]
fn no_match_still_yields_one_page() {
    let rows = vec![row2("a", "1"), row2("b", "2")];
    let cols = columns2();
    let v = compute_view(&rows, &cols, 10, &state(0, None, SortOrder::Asc, "zzz"));
    assert_eq!(v.visible_rows.len(), 0);
    assert_eq!(v.total_pages, 1);
    assert_eq!(v.clamped_page, 0);
}

#[test]
fn sort_ascending_orders_by_column_value() {
    let rows = vec![row2("c", "1"), row2("a", "2"), row2("b", "3")];
    let cols = columns2();
    let v = compute_view(&rows, &cols, 10, &state(0, Some("name"), SortOrder::Asc, ""));
    assert_eq!(names(&v), vec!["a", "b", "c"]);
}

#[test]
fn sort_descending_reverses_distinct_values() {
    let rows = vec![row2("c", "1"), row2("a", "2"), row2("b", "3")];
    let cols = columns2();
    let v = compute_view(&rows, &cols, 10, &state(0, Some("name"), SortOrder::Desc, ""));
    assert_eq!(names(&v), vec!["c", "b", "a"]);
}

#[test]
fn sort_is_stable_for_tied_values() {
    // Tied names: the email tells the original order apart.
    let rows = vec![
        row2("same", "first"),
        row2("same", "second"),
        row2("aaa", "third"),
        row2("same", "fourth"),
    ];
    let cols = columns2();
    let emails = |v: &ViewResult| -> Vec<String> {
        v.visible_rows
            .iter()
            .map(|r| r.cells[1].1.clone())
            .collect::<Vec<String>>()
    };
    let asc = compute_view(&rows, &cols, 10, &state(0, Some("name"), SortOrder::Asc, ""));
    assert_eq!(emails(&asc), vec!["third", "first", "second", "fourth"]);
    // Descending reverses distinct values but keeps ties in original order.
    let desc = compute_view(&rows, &cols, 10, &state(0, Some("name"), SortOrder::Desc, ""));
    assert_eq!(emails(&desc), vec!["first", "second", "fourth", "third"]);
}

#[test]
fn row_missing_sort_column_sorts_as_empty_string() {
    let mut rows = vec![row2("b", "1"), row2("a", "2")];
    rows.push(Row {
        cells: vec![("email".to_string(), "no-name@x.org".to_string())],
    });
    let cols = columns2();
    let v = compute_view(&rows, &cols, 10, &state(0, Some("name"), SortOrder::Asc, ""));
    let emails: Vec<String> = v
        .visible_rows
        .iter()
        .map(|r| r.cells.last().unwrap().1.clone())
        .collect();
    // The empty value sorts first ascending.
    assert_eq!(emails, vec!["no-name@x.org", "2", "1"]);
}

#[test]
fn unknown_sort_column_is_ignored() {
    let rows = vec![row2("c", "1"), row2("a", "2")];
    let cols = columns2();
    let v = compute_view(&rows, &cols, 10, &state(0, Some("age"), SortOrder::Asc, ""));
    assert_eq!(names(&v), vec!["c", "a"]);
}

#[test]
fn filter_then_sort_compose() {
    let rows = vec![
        row2("delta", "ferris@x.org"),
        row2("bravo", "ferris@y.org"),
        row2("alpha", "other@z.org"),
        row2("charlie", "ferris@z.org"),
    ];
    let cols = columns2();
    let v = compute_view(
        &rows,
        &cols,
        10,
        &state(0, Some("name"), SortOrder::Asc, "ferris"),
    );
    assert_eq!(names(&v), vec!["bravo", "charlie", "delta"]);
}

#[test]
fn pagination_of_25_rows_by_10() {
    let rows: Vec<Row> = (0..25)
        .map(|i| row2(&format!("name{:02}", i), &format!("{}@x.org", i)))
        .collect();
    let cols = columns2();
    let page0 = compute_view(&rows, &cols, 10, &state(0, None, SortOrder::Asc, ""));
    assert_eq!(page0.total_pages, 3);
    assert_eq!(
        names(&page0),
        (0..10).map(|i| format!("name{:02}", i)).collect::<Vec<_>>()
    );
    let page2 = compute_view(&rows, &cols, 10, &state(2, None, SortOrder::Asc, ""));
    assert_eq!(page2.total_pages, 3);
    assert_eq!(
        names(&page2),
        (20..25).map(|i| format!("name{:02}", i)).collect::<Vec<_>>()
    );
}

#[test]
fn page_size_zero_acts_as_one() {
    let rows = vec![row2("a", "1"), row2("b", "2"), row2("c", "3")];
    let cols = columns2();
    let v = compute_view(&rows, &cols, 0, &state(1, None, SortOrder::Asc, ""));
    assert_eq!(v.total_pages, 3);
    assert_eq!(names(&v), vec!["b"]);
}

#[test]
fn empty_dataset_still_has_one_page() {
    let rows: Vec<Row> = Vec::new();
    let cols = columns2();
    let v = compute_view(&rows, &cols, 10, &state(0, None, SortOrder::Asc, ""));
    assert_eq!(v.total_pages, 1);
    assert_eq!(v.clamped_page, 0);
    assert_eq!(v.visible_rows.len(), 0);
}

#[test]
fn stale_page_index_is_clamped() {
    let rows = vec![row2("a", "1"), row2("b", "2"), row2("c", "3")];
    let cols = columns2();
    let v = compute_view(&rows, &cols, 2, &state(99, None, SortOrder::Asc, ""));
    assert_eq!(v.total_pages, 2);
    assert_eq!(v.clamped_page, 1);
    assert_eq!(names(&v), vec!["c"]);
}

#[test]
fn compute_view_is_deterministic() {
    let rows = vec![
        row2("Ferris", "ferris@x.org"),
        row2("Ferros", "ferros@x.org"),
        row2("Crab", "crab@x.org"),
    ];
    let cols = columns2();
    let st = state(0, Some("name"), SortOrder::Desc, "err");
    let first = compute_view(&rows, &cols, 2, &st);
    let second = compute_view(&rows, &cols, 2, &st);
    assert_eq!(first, second);
}

#[test]
fn toggle_same_column_flips_order() {
    let current = Some("name".to_string());
    let clicked = "name".to_string();
    let (col, ord) = toggle_sort(&current, SortOrder::Asc, &clicked);
    assert_eq!(col, Some("name".to_string()));
    assert_eq!(ord, SortOrder::Desc);
    let (col2, ord2) = toggle_sort(&current, SortOrder::Desc, &clicked);
    assert_eq!(col2, Some("name".to_string()));
    assert_eq!(ord2, SortOrder::Asc);
}

#[test]
fn toggle_new_column_resets_to_ascending() {
    let current = Some("name".to_string());
    let clicked = "email".to_string();
    let (col, ord) = toggle_sort(&current, SortOrder::Desc, &clicked);
    assert_eq!(col, Some("email".to_string()));
    assert_eq!(ord, SortOrder::Asc);
    let (col2, ord2) = toggle_sort(&None, SortOrder::Desc, &clicked);
    assert_eq!(col2, Some("email".to_string()));
    assert_eq!(ord2, SortOrder::Asc);
}
