use parket::export::{
    csv_field, json_string, json_value, output_path, output_path_from, write_csv, write_json,
    write_jsonl, write_to, ExportData, ExportFormat,
};

fn strings(v: &[&str]) -> Vec<String> {
    v.iter().map(|s| s.to_string()).collect()
}

fn sample_columns() -> Vec<String> {
    strings(&["id", "name", "score"])
}

fn sample_rows() -> Vec<Vec<String>> {
    vec![
        strings(&["1", "Ann", "3.5"]),
        strings(&["2", "Bo, \"the\" \\ man", "null"]),
    ]
}

#[test]
fn ext_gives_the_extension() {
    assert_eq!(ExportFormat::Json.ext(), "json");
    assert_eq!(ExportFormat::Jsonl.ext(), "jsonl");
    assert_eq!(ExportFormat::Csv.ext(), "csv");
}

#[test]
fn all_lists_the_formats_in_order() {
    assert_eq!(
        ExportFormat::all(),
        vec![ExportFormat::Json, ExportFormat::Jsonl, ExportFormat::Csv]
    );
    assert_eq!(ExportFormat::count(), 3);
    assert_eq!(ExportFormat::at(0), ExportFormat::Json);
    assert_eq!(ExportFormat::at(1), ExportFormat::Jsonl);
    assert_eq!(ExportFormat::at(2), ExportFormat::Csv);
}

#[test]
fn json_string_escapes_backslash_and_quote() {
    assert_eq!(json_string("plain"), "\"plain\"");
    assert_eq!(json_string("a\"b\\c"), "\"a\\\"b\\\\c\"");
    assert_eq!(json_string(""), "\"\"");
    assert_eq!(json_string("é ✓ /"), "\"é ✓ /\"");
}

#[test]
fn json_string_escapes_control_characters() {
    assert_eq!(json_string("line\nbreak"), "\"line\\nbreak\"");
    assert_eq!(json_string("\r\t\u{8}\u{c}"), "\"\\r\\t\\b\\f\"");
    assert_eq!(json_string("\u{0}\u{1}\u{1f}\u{1b}"), "\"\\u0000\\u0001\\u001f\\u001b\"");
    assert_eq!(json_string("\u{7f}\u{20}"), "\"\u{7f} \"");
}

#[test]
fn json_value_keeps_null_numbers_and_booleans() {
    for s in [
        "null", "true", "false", "0", "-0", "42", "-17", "3.25", "0.5", "-0.5e+3", "1e10",
        "2.5E-3", "99999999999999999999", "1E0",
    ] {
        assert_eq!(json_value(s), s, "for {:?}", s);
    }
}

#[test]
fn json_value_quotes_everything_else() {
    assert_eq!(json_value("abc"), "\"abc\"");
    assert_eq!(json_value(""), "\"\"");
    assert_eq!(json_value("12abc"), "\"12abc\"");
    assert_eq!(json_value("say \"hi\""), "\"say \\\"hi\\\"\"");
    for s in [
        "NaN", "nan", "inf", "-inf", "Infinity", "-Infinity", "+1", ".5", "1.", "007", "-", "1e",
        "1e+", "e5", ".", "1.2.3", " 1", "1 ", "True", "NULL", "0x10", "1_000", "--1", "-.5",
        "01.5", "1.e5",
    ] {
        assert_eq!(json_value(s), json_string(s), "for {:?}", s);
    }
}

#[test]
fn csv_field_quotes_only_when_needed() {
    assert_eq!(csv_field("plain"), "plain");
    assert_eq!(csv_field(""), "");
    assert_eq!(csv_field("a,b"), "\"a,b\"");
    assert_eq!(csv_field("say \"hi\""), "\"say \"\"hi\"\"\"");
    assert_eq!(csv_field("two\nlines"), "\"two\nlines\"");
    assert_eq!(csv_field("back\\slash"), "back\\slash");
}

#[test]
fn write_json_pretty_prints_an_array_of_objects() {
    let columns = sample_columns();
    let data = ExportData { columns: &columns, rows: sample_rows() };
    let mut out = String::new();
    write_json(&data, &mut out);
    let expected = "[\n  {\n    \"id\": 1,\n    \"name\": \"Ann\",\n    \"score\": 3.5\n  },\n  {\n    \"id\": 2,\n    \"name\": \"Bo, \\\"the\\\" \\\\ man\",\n    \"score\": null\n  }\n]\n";
    assert_eq!(out, expected);
}

#[test]
fn write_json_of_no_rows_is_an_empty_array() {
    let columns = sample_columns();
    let data = ExportData { columns: &columns, rows: vec![] };
    let mut out = String::new();
    write_json(&data, &mut out);
    assert_eq!(out, "[\n]\n");
}

#[test]
fn write_jsonl_writes_one_object_per_line() {
    let columns = sample_columns();
    let data = ExportData { columns: &columns, rows: sample_rows() };
    let mut out = String::new();
    write_jsonl(&data, &mut out);
    let expected = "{\"id\": 1,\"name\": \"Ann\",\"score\": 3.5}\n{\"id\": 2,\"name\": \"Bo, \\\"the\\\" \\\\ man\",\"score\": null}\n";
    assert_eq!(out, expected);
}

#[test]
fn json_pairs_stop_at_the_shorter_of_row_and_columns() {
    let columns = strings(&["a", "b"]);
    let data = ExportData {
        columns: &columns,
        rows: vec![strings(&["x"]), strings(&["1", "2", "3"])],
    };
    let mut out = String::new();
    write_jsonl(&data, &mut out);
    assert_eq!(out, "{\"a\": \"x\"}\n{\"a\": 1,\"b\": 2}\n");
}

#[test]
fn write_csv_writes_header_and_rows() {
    let columns = sample_columns();
    let data = ExportData { columns: &columns, rows: sample_rows() };
    let mut out = String::new();
    write_csv(&data, &mut out);
    let expected = "id,name,score\n1,Ann,3.5\n2,\"Bo, \"\"the\"\" \\ man\",null\n";
    assert_eq!(out, expected);
}

#[test]
fn write_csv_of_no_columns_and_rows_is_one_empty_line() {
    let columns: Vec<String> = vec![];
    let data = ExportData { columns: &columns, rows: vec![] };
    let mut out = String::new();
    write_csv(&data, &mut out);
    assert_eq!(out, "\n");
}

#[test]
fn write_to_appends_in_the_chosen_format() {
    let columns = strings(&["k"]);
    let data = ExportData { columns: &columns, rows: vec![strings(&["v"])] };
    let mut out = String::from("> ");
    write_to(ExportFormat::Csv, &data, &mut out);
    assert_eq!(out, "> k\nv\n");
    let mut out = String::new();
    write_to(ExportFormat::Jsonl, &data, &mut out);
    assert_eq!(out, "{\"k\": \"v\"}\n");
    let mut out = String::new();
    write_to(ExportFormat::Json, &data, &mut out);
    assert_eq!(out, "[\n  {\n    \"k\": \"v\"\n  }\n]\n");
}

#[test]
fn output_path_from_fills_in_defaults() {
    assert_eq!(output_path_from(Some("d"), Some("x"), "json"), "d/x.json");
    assert_eq!(output_path_from(None, Some("x"), "csv"), "./x.csv");
    assert_eq!(output_path_from(Some("d"), None, "jsonl"), "d/output.jsonl");
    assert_eq!(output_path_from(None, None, "json"), "./output.json");
}

#[test]
fn output_path_replaces_the_extension_next_to_the_input() {
    assert_eq!(output_path("data/sample1.parquet", "json"), "data/sample1.json");
    assert_eq!(output_path("/tmp/a.b.parquet", "csv"), "/tmp/a.b.csv");
    assert_eq!(output_path("sample1.parquet", "jsonl"), "/sample1.jsonl");
    assert_eq!(output_path("/", "json"), "./output.json");
}

#[test]
fn distinct_cells_stay_distinct_in_json_and_csv() {
    let samples = [
        "", "a", "\\", "\\\\", "\"", "\\\"", "\"\"", "a\"", "a\\\"", ",", "\",\"", "x\ny", "\"x\"",
        "\"\"\"", "q\"\"",
    ];
    for a in samples {
        for b in samples {
            if a != b {
                assert_ne!(json_string(a), json_string(b), "{:?} {:?}", a, b);
                assert_ne!(csv_field(a), csv_field(b), "{:?} {:?}", a, b);
            }
        }
    }
}

/// A small RFC 4180 reader for one line without its line break.
fn split_csv_line(line: &str) -> Vec<String> {
    let cs: Vec<char> = line.chars().collect();
    let mut fields = vec![];
    let mut i = 0;
    loop {
        let mut f = String::new();
        if i < cs.len() && cs[i] == '"' {
            i += 1;
            loop {
                if cs[i] == '"' {
                    if i + 1 < cs.len() && cs[i + 1] == '"' {
                        f.push('"');
                        i += 2;
                    } else {
                        i += 1;
                        break;
                    }
                } else {
                    f.push(cs[i]);
                    i += 1;
                }
            }
        } else {
            while i < cs.len() && cs[i] != ',' {
                f.push(cs[i]);
                i += 1;
            }
        }
        fields.push(f);
        if i == cs.len() {
            return fields;
        }
        assert_eq!(cs[i], ',');
        i += 1;
    }
}

/// A small JSON string reader for the inside of a literal.
fn read_json_string(lit: &str) -> String {
    let cs: Vec<char> = lit.chars().collect();
    assert!(cs.len() >= 2 && cs[0] == '"' && cs[cs.len() - 1] == '"');
    let mut out = String::new();
    let mut i = 1;
    while i < cs.len() - 1 {
        let c = cs[i];
        assert!(c != '"' && (c as u32) >= 0x20, "unescaped {:?} in {:?}", c, lit);
        if c == '\\' {
            let e = cs[i + 1];
            match e {
                'u' => {
                    let hex: String = cs[i + 2..i + 6].iter().collect();
                    out.push(char::from_u32(u32::from_str_radix(&hex, 16).unwrap()).unwrap());
                    i += 6;
                    continue;
                }
                'b' => out.push('\u{8}'),
                'f' => out.push('\u{c}'),
                'n' => out.push('\n'),
                'r' => out.push('\r'),
                't' => out.push('\t'),
                '"' | '\\' | '/' => out.push(e),
                _ => panic!("bad escape {:?}", e),
            }
            i += 2;
        } else {
            out.push(c);
            i += 1;
        }
    }
    out
}

#[test]
fn json_strings_read_back() {
    for s in ["", "plain", "a\"b\\c", "\n\r\t\u{8}\u{c}", "\u{0}\u{1f}\u{7f}x", "é\"\\/"] {
        assert_eq!(read_json_string(&json_string(s)), s);
    }
}

#[test]
fn csv_lines_read_back() {
    let fields = strings(&["plain", "", "a,b", "say \"hi\"", "two\nlines", "\"", ",", "x"]);
    let data = ExportData { columns: &fields, rows: vec![] };
    let mut out = String::new();
    write_csv(&data, &mut out);
    assert!(out.ends_with('\n'));
    assert_eq!(split_csv_line(&out[..out.len() - 1]), fields);
}
