use std::sync::Arc;

use arrow::array::{ArrayRef, Float64Array, Int64Array, RecordBatch, StringArray};
use parket::app::App;
use parket::table::Batch;
use parket::text::to_lowercase;
use parket::ui::{
    column_range, data_title, export_bar, filter_needle, highlighted, push_decimal, schema_rows,
    search_bar, select_range, shows_input_bar, status_line, tab_index, table_body_rows,
    to_uppercase, visible_columns,
};

fn sample_app() -> App {
    let b = RecordBatch::try_from_iter(vec![
        ("n", Arc::new(Int64Array::from(vec![10, 20, 30])) as ArrayRef),
        ("s", Arc::new(StringArray::from(vec![Some("Red"), None, Some("blue")])) as ArrayRef),
        ("x", Arc::new(Float64Array::from(vec![1.5, 2.0, -0.25])) as ArrayRef),
    ])
    .unwrap();
    let schema = b.schema();
    App::new("t.parquet".to_string(), schema, vec![Batch(b)])
}

fn strs(v: &[&str]) -> Vec<String> {
    v.iter().map(|s| s.to_string()).collect()
}

#[test]
fn decimal_matches_integer_formatting() {
    for n in [0u128, 7, 10, 42, 1000, 123456789, u64::MAX as u128, u128::MAX] {
        let mut s = String::from("#");
        push_decimal(&mut s, n);
        assert_eq!(s, format!("#{}", n));
    }
}

#[test]
fn status_line_in_the_data_view() {
    let mut app = sample_app();
    assert_eq!(
        status_line(&app),
        " Row 1/3 | 3 cols  g/G=first/last  PgUp/Dn=page  /=search  e=export  Esc=clear"
    );
    app.scroll_down(2);
    app.enter_search();
    app.search_push('r');
    app.apply_search();
    assert_eq!(
        status_line(&app),
        " Row 1/1 | 3 cols [filter: r] 1/1  g/G=first/last  PgUp/Dn=page  /=search  e=export  Esc=clear"
    );
    app.search_push('z');
    app.apply_search();
    assert_eq!(
        status_line(&app),
        " Row 0/0 | 3 cols [filter: rz] 0/0  g/G=first/last  PgUp/Dn=page  /=search  e=export  Esc=clear"
    );
}

#[test]
fn status_line_in_the_schema_view_and_with_a_message() {
    let mut app = sample_app();
    app.toggle_mode();
    assert_eq!(status_line(&app), " Schema | 3 columns");
    app.finish_export("out.csv", None);
    assert_eq!(status_line(&app), " Exported to out.csv");
}

#[test]
fn bars_and_titles() {
    let mut app = sample_app();
    assert!(!shows_input_bar(&app));
    assert_eq!(data_title(&app), "Data");
    app.enter_search();
    assert!(shows_input_bar(&app));
    app.search_push('b');
    assert_eq!(search_bar(&app), "/b");
    app.apply_search();
    assert_eq!(data_title(&app), "Data [filter: b]");
    app.enter_export();
    assert_eq!(
        export_bar(&app),
        " Export: [JSON]  jsonl  csv  \u{2190}/\u{2192} select  Enter=confirm  Esc=cancel"
    );
    app.export_prev();
    assert_eq!(
        export_bar(&app),
        " Export: json  jsonl  [CSV]  \u{2190}/\u{2192} select  Enter=confirm  Esc=cancel"
    );
    assert_eq!(tab_index(app.mode), 0);
    app.toggle_mode();
    assert_eq!(tab_index(app.mode), 1);
}

#[test]
fn column_window_fits_the_width() {
    assert_eq!(visible_columns(0), 1);
    assert_eq!(visible_columns(17), 1);
    assert_eq!(visible_columns(34), 2);
    assert_eq!(visible_columns(80), 4);
    assert_eq!(column_range(1, 4, 3), (1, 3));
    assert_eq!(column_range(0, 2, 3), (0, 2));
    assert_eq!(column_range(usize::MAX, 4, 3), (usize::MAX, 3));
    let items = strs(&["a", "b", "c", "d"]);
    assert_eq!(select_range(&items, 1, 3), strs(&["b", "c"]));
    assert_eq!(select_range(&items, 2, 10), strs(&["c", "d"]));
    assert!(select_range(&items, 3, 1).is_empty());
    assert!(select_range(&items, 7, 9).is_empty());
    assert_eq!(table_body_rows(10), 7);
    assert_eq!(table_body_rows(2), 0);
}

#[test]
fn highlighting_follows_the_filter() {
    let mut app = sample_app();
    assert!(filter_needle(&app).is_empty());
    assert!(!highlighted("Red", &filter_needle(&app)));
    app.enter_search();
    app.search_push('R');
    app.apply_search();
    let needle = filter_needle(&app);
    assert_eq!(needle, vec!['r']);
    assert!(highlighted("Red", &needle));
    assert!(highlighted("bRr", &needle));
    assert!(!highlighted("blue", &needle));
}

#[test]
fn schema_rows_list_name_type_and_nullability() {
    let mut app = sample_app();
    app.toggle_mode();
    assert_eq!(
        schema_rows(&app, 10),
        vec![
            strs(&["n", "Int64", "no"]),
            strs(&["s", "Utf8", "yes"]),
            strs(&["x", "Float64", "no"]),
        ]
    );
    app.scroll_down(1);
    assert_eq!(schema_rows(&app, 1), vec![strs(&["s", "Utf8", "yes"])]);
}

#[test]
fn case_conversion_keeps_emptiness_and_ascii() {
    assert_eq!(to_lowercase(""), "");
    for s in ["A", "İ", "ẞ", "Σ", "x"] {
        assert!(!to_lowercase(s).is_empty());
    }
    assert_eq!(to_uppercase("jsonl-1.z"), "JSONL-1.Z");
}
