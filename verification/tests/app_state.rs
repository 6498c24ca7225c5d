use std::sync::Arc;

use arrow::array::{ArrayRef, Date32Array, Int32Array, RecordBatch, StringArray};
use parket::app::{page_rows, Action, App, InputMode, Key, Mode};
use parket::data::{cell_to_string, column_names, rows_to_strings};
use parket::export::ExportFormat;
use parket::table::Batch;

fn batch_one() -> RecordBatch {
    RecordBatch::try_from_iter(vec![
        ("id", Arc::new(Int32Array::from(vec![Some(1), Some(2), None])) as ArrayRef),
        ("name", Arc::new(StringArray::from(vec!["Alpha", "beta", "Gamma"])) as ArrayRef),
        ("day", Arc::new(Date32Array::from(vec![0, 1, 18262])) as ArrayRef),
    ])
    .unwrap()
}

fn batch_two() -> RecordBatch {
    RecordBatch::try_from_iter(vec![
        ("id", Arc::new(Int32Array::from(vec![Some(4), Some(5)])) as ArrayRef),
        ("name", Arc::new(StringArray::from(vec!["ALPHABET", "delta"])) as ArrayRef),
        ("day", Arc::new(Date32Array::from(vec![2, 3])) as ArrayRef),
    ])
    .unwrap()
}

fn sample_app() -> App {
    let b1 = batch_one();
    let schema = b1.schema();
    App::new(
        "dir/sample.parquet".to_string(),
        schema,
        vec![Batch(b1), Batch(batch_two())],
    )
}

fn row(v: &[&str]) -> Vec<String> {
    v.iter().map(|s| s.to_string()).collect()
}

#[test]
fn new_app_shows_all_rows_from_the_top() {
    let app = sample_app();
    assert!(matches!(app.mode, Mode::Data));
    assert!(matches!(app.input_mode, InputMode::Normal));
    assert_eq!(app.total_rows(), 5);
    assert_eq!(app.field_total(), 3);
    assert_eq!(app.row_offset, 0);
    assert_eq!(app.col_offset, 0);
    assert_eq!(app.all_indices, vec![(0, 0), (0, 1), (0, 2), (1, 0), (1, 1)]);
    assert_eq!(app.filtered_indices, app.all_indices);
    assert_eq!(app.search_input, "");
    assert_eq!(app.active_filter, "");
    assert_eq!(app.status_msg, None);
    assert_eq!(app.export_selected, 0);
}

#[test]
fn new_app_of_no_batches_has_no_rows() {
    let schema = batch_one().schema();
    let app = App::new("x.parquet".to_string(), schema, vec![]);
    assert_eq!(app.total_rows(), 0);
    assert!(app.all_indices.is_empty());
}

#[test]
fn data_rows_show_display_texts() {
    let app = sample_app();
    let rows = app.data_rows(1, 3);
    assert_eq!(
        rows,
        vec![
            row(&["2", "beta", "1970-01-02"]),
            row(&["", "Gamma", "2020-01-01"]),
            row(&["4", "ALPHABET", "1970-01-03"]),
        ]
    );
    assert_eq!(app.data_rows(4, 10), vec![row(&["5", "delta", "1970-01-04"])]);
    assert!(app.data_rows(9, 2).is_empty());
    assert_eq!(app.data_rows(0, 5), app.all_filtered_rows());
    assert_eq!(app.data_rows(0, usize::MAX).len(), 5);
}

#[test]
fn scrolling_stays_within_the_rows() {
    let mut app = sample_app();
    app.scroll_down(2);
    assert_eq!(app.row_offset, 2);
    app.scroll_down(10);
    assert_eq!(app.row_offset, 4);
    app.scroll_down(usize::MAX);
    assert_eq!(app.row_offset, 4);
    app.scroll_up(1);
    assert_eq!(app.row_offset, 3);
    app.scroll_up(10);
    assert_eq!(app.row_offset, 0);
    app.goto_last(2);
    assert_eq!(app.row_offset, 3);
    app.goto_last(10);
    assert_eq!(app.row_offset, 0);
    app.goto_last(0);
    assert_eq!(app.row_offset, 5);
    app.goto_first();
    assert_eq!(app.row_offset, 0);
}

#[test]
fn columns_scroll_between_first_and_last() {
    let mut app = sample_app();
    app.scroll_left();
    assert_eq!(app.col_offset, 0);
    app.scroll_right();
    app.scroll_right();
    assert_eq!(app.col_offset, 2);
    app.scroll_right();
    assert_eq!(app.col_offset, 2);
    app.scroll_left();
    assert_eq!(app.col_offset, 1);
}

#[test]
fn toggle_mode_switches_views_and_resets_offsets() {
    let mut app = sample_app();
    app.scroll_down(3);
    app.scroll_right();
    app.toggle_mode();
    assert!(matches!(app.mode, Mode::Schema));
    assert_eq!((app.row_offset, app.col_offset), (0, 0));
    app.scroll_down(10);
    assert_eq!(app.row_offset, 2);
    app.toggle_mode();
    assert!(matches!(app.mode, Mode::Data));
    assert_eq!((app.row_offset, app.col_offset), (0, 0));
}

#[test]
fn search_filters_rows_ignoring_case() {
    let mut app = sample_app();
    app.enter_search();
    assert!(matches!(app.input_mode, InputMode::Search));
    for c in "ALPHA".chars() {
        app.search_push(c);
    }
    app.scroll_down(3);
    app.apply_search();
    assert!(matches!(app.input_mode, InputMode::Normal));
    assert_eq!(app.active_filter, "ALPHA");
    assert_eq!(app.filtered_indices, vec![(0, 0), (1, 0)]);
    assert_eq!(app.row_offset, 0);
    assert_eq!(
        app.all_filtered_rows(),
        vec![row(&["1", "Alpha", "1970-01-01"]), row(&["4", "ALPHABET", "1970-01-03"])]
    );
}

#[test]
fn search_matches_display_texts_of_any_column() {
    let mut app = sample_app();
    app.enter_search();
    for c in "2020".chars() {
        app.search_push(c);
    }
    app.apply_search();
    assert_eq!(app.filtered_indices, vec![(0, 2)]);
}

#[test]
fn search_pop_and_cancel_restore_the_search_text() {
    let mut app = sample_app();
    app.enter_search();
    app.search_push('x');
    app.search_push('y');
    app.search_pop();
    assert_eq!(app.search_input, "x");
    app.search_pop();
    app.search_pop();
    assert_eq!(app.search_input, "");
    app.search_push('q');
    app.cancel_search();
    assert_eq!(app.search_input, "");
    assert_eq!(app.total_rows(), 5);
}

#[test]
fn clear_filter_shows_every_row_again() {
    let mut app = sample_app();
    app.enter_search();
    app.search_push('z');
    app.apply_search();
    assert_eq!(app.total_rows(), 0);
    app.clear_filter();
    assert_eq!(app.active_filter, "");
    assert_eq!(app.search_input, "");
    assert_eq!(app.filtered_indices, app.all_indices);
}

#[test]
fn empty_search_keeps_every_row() {
    let mut app = sample_app();
    app.enter_search();
    app.apply_search();
    assert_eq!(app.total_rows(), 5);
}

#[test]
fn export_selection_cycles_both_ways() {
    let mut app = sample_app();
    app.enter_export();
    assert!(matches!(app.input_mode, InputMode::Export));
    assert_eq!(app.export_selected, 0);
    app.export_prev();
    assert_eq!(app.export_selected, 2);
    app.export_next();
    assert_eq!(app.export_selected, 0);
    app.export_next();
    app.export_next();
    app.export_next();
    assert_eq!(app.export_selected, 0);
    app.export_next();
    let fmt = app.confirm_export();
    assert_eq!(fmt, ExportFormat::Jsonl);
    assert!(matches!(app.input_mode, InputMode::Normal));
}

#[test]
fn cancel_export_closes_the_dialog() {
    let mut app = sample_app();
    app.status_msg = Some("old".to_string());
    app.enter_export();
    assert_eq!(app.status_msg, None);
    app.cancel_export();
    assert!(matches!(app.input_mode, InputMode::Normal));
}

#[test]
fn export_job_writes_the_filtered_rows_next_to_the_input() {
    let mut app = sample_app();
    app.enter_search();
    app.search_push('d');
    app.search_push('e');
    app.apply_search();
    let (path, doc) = app.export_job(ExportFormat::Csv);
    assert_eq!(path, "dir/sample.csv");
    assert_eq!(doc, "id,name,day\n5,delta,1970-01-04\n");
    let (path, doc) = app.export_job(ExportFormat::Jsonl);
    assert_eq!(path, "dir/sample.jsonl");
    assert_eq!(doc, "{\"id\": 5,\"name\": \"delta\",\"day\": \"1970-01-04\"}\n");
}

#[test]
fn finish_export_sets_the_status_message() {
    let mut app = sample_app();
    app.finish_export("dir/sample.json", None);
    assert_eq!(app.status_msg.as_deref(), Some("Exported to dir/sample.json"));
    app.finish_export("dir/sample.json", Some("disk full"));
    assert_eq!(app.status_msg.as_deref(), Some("Export error: disk full"));
}

#[test]
fn keys_drive_the_state() {
    let mut app = sample_app();
    assert_eq!(app.handle_key(Key::Down, 2), Action::Continue);
    assert_eq!(app.row_offset, 1);
    app.handle_key(Key::PageDown, 2);
    assert_eq!(app.row_offset, 3);
    app.handle_key(Key::PageUp, 2);
    assert_eq!(app.row_offset, 1);
    app.handle_key(Key::Char('G'), 2);
    assert_eq!(app.row_offset, 3);
    app.handle_key(Key::Char('g'), 2);
    assert_eq!(app.row_offset, 0);
    app.handle_key(Key::Right, 2);
    assert_eq!(app.col_offset, 1);
    app.handle_key(Key::Left, 2);
    assert_eq!(app.col_offset, 0);
    app.handle_key(Key::Char('/'), 2);
    app.handle_key(Key::Char('b'), 2);
    app.handle_key(Key::Char('x'), 2);
    app.handle_key(Key::Backspace, 2);
    app.handle_key(Key::Enter, 2);
    assert_eq!(app.active_filter, "b");
    assert_eq!(app.total_rows(), 2);
    app.status_msg = Some("note".to_string());
    app.handle_key(Key::Esc, 2);
    assert_eq!(app.total_rows(), 5);
    assert_eq!(app.status_msg, None);
    app.handle_key(Key::Tab, 2);
    assert!(matches!(app.mode, Mode::Schema));
    app.handle_key(Key::Char('e'), 2);
    app.handle_key(Key::Down, 2);
    app.handle_key(Key::Right, 2);
    app.handle_key(Key::Up, 2);
    assert_eq!(app.handle_key(Key::Enter, 2), Action::Export(ExportFormat::Jsonl));
    assert_eq!(app.handle_key(Key::Other, 2), Action::Continue);
    assert_eq!(app.handle_key(Key::Char('q'), 2), Action::Quit);
}

#[test]
fn page_rows_leaves_room_for_the_bars() {
    assert_eq!(page_rows(24), 20);
    assert_eq!(page_rows(3), 0);
}

#[test]
fn cell_to_string_spells_nulls_and_dates() {
    let b = Batch(batch_one());
    assert_eq!(cell_to_string(&b, 0, 0), "1");
    assert_eq!(cell_to_string(&b, 0, 2), "null");
    assert_eq!(cell_to_string(&b, 1, 1), "beta");
    assert_eq!(cell_to_string(&b, 2, 2), "2020-01-01");
}

#[test]
fn rows_to_strings_runs_over_all_batches() {
    let batches = vec![Batch(batch_one()), Batch(batch_two())];
    let rows = rows_to_strings(&batches);
    assert_eq!(rows.len(), 5);
    assert_eq!(rows[2], row(&["null", "Gamma", "2020-01-01"]));
    assert_eq!(rows[4], row(&["5", "delta", "1970-01-04"]));
}

#[test]
fn column_names_follow_the_schema() {
    let schema = batch_one().schema();
    assert_eq!(column_names(&schema), row(&["id", "name", "day"]));
}

#[test]
fn cell_text_at_checks_the_bounds() {
    let b = Batch(batch_one());
    assert_eq!(parket::data::cell_text_at(&b, 2, 0), Some("1970-01-01".to_string()));
    assert_eq!(parket::data::cell_text_at(&b, 0, 2), Some("null".to_string()));
    assert_eq!(parket::data::cell_text_at(&b, 3, 0), None);
    assert_eq!(parket::data::cell_text_at(&b, 0, 3), None);
}

#[test]
fn cancelling_a_search_keeps_the_filter() {
    let mut app = sample_app();
    app.enter_search();
    app.search_push('b');
    app.apply_search();
    let kept = app.filtered_indices.clone();
    app.enter_search();
    app.search_push('z');
    app.search_push('z');
    app.cancel_search();
    assert_eq!(app.active_filter, "b");
    assert_eq!(app.search_input, "b");
    assert_eq!(app.filtered_indices, kept);
}

#[test]
fn every_key_keeps_offsets_within_the_view() {
    let mut app = sample_app();
    let keys = [
        Key::PageDown, Key::Char('G'), Key::Tab, Key::Char('G'), Key::Right, Key::Right,
        Key::Right, Key::Tab, Key::Char('/'), Key::Char('a'), Key::Enter, Key::PageDown,
        Key::Esc, Key::Char('e'), Key::Left, Key::Left, Key::Esc, Key::Up,
    ];
    for k in keys {
        app.handle_key(k, 3);
        let total = match app.mode {
            Mode::Schema => app.field_total(),
            Mode::Data => app.total_rows(),
        };
        assert!(app.row_offset <= total);
        assert!(app.col_offset == 0 || app.col_offset < app.field_total());
        assert!(app.export_selected < 3);
    }
}

#[test]
fn applying_a_search_twice_changes_nothing() {
    let mut app = sample_app();
    app.enter_search();
    app.search_push('a');
    app.apply_search();
    let once = (app.filtered_indices.clone(), app.active_filter.clone(), app.row_offset);
    app.apply_search();
    assert_eq!((app.filtered_indices.clone(), app.active_filter.clone(), app.row_offset), once);
}

#[test]
fn a_longer_filter_keeps_a_subset_and_case_does_not_matter() {
    let kept = |text: &str| {
        let mut app = sample_app();
        app.enter_search();
        for c in text.chars() {
            app.search_push(c);
        }
        app.apply_search();
        app.filtered_indices.clone()
    };
    let a = kept("a");
    let al = kept("al");
    let alpha = kept("ALPHA");
    assert!(al.iter().all(|p| a.contains(p)));
    assert!(alpha.iter().all(|p| al.contains(p)));
    assert_eq!(kept("Alpha"), kept("aLPHa"));
    assert!(alpha.len() <= al.len() && al.len() <= a.len());
}
