//! What the terminal screen shows, as texts and ranges: the status bar, the
//! search and export bars, the table titles, the window of columns and
//! rows in view, and which cells are highlighted.

use vstd::prelude::*;
use vstd::string::StringExecFns;

use crate::app::{App, AppView, InputMode, Mode, minus, window_end, window_start};
use crate::export::{all_formats, format_ext, lemma_row_texts_push, lemma_texts_push, row_texts, texts, ExportFormat};
use crate::table::{field_name, field_nullable, field_type_text, schema_fields};
use crate::text::{chars_of, contains_chars, lowercase, occurs_in, push_char, to_lowercase};

verus! {

// ---------------------------------------------------------------------
// Numbers and case
// ---------------------------------------------------------------------

/// The decimal digit `d` as a character.
pub open spec fn digit_char(d: nat) -> char {
    ((d + 48) as u8) as char
}

/// `n` written in decimal, as `{}` formats an integer.
pub open spec fn decimal(n: nat) -> Seq<char>
    decreases n,
{
    if n < 10 {
        seq![digit_char(n)]
    } else {
        decimal(n / 10).push(digit_char(n % 10))
    }
}

/// Appends `n` in decimal.
pub fn push_decimal(out: &mut String, n: u128)
    ensures
        final(out)@ == old(out)@ + decimal(n as nat),
    decreases n,
{
    if n >= 10 {
        push_decimal(out, n / 10);
    }
    let d: u8 = (n % 10) as u8;
    push_char(out, (d + 48) as char);
}

/// What `str::to_uppercase` gives for a text (std's Unicode upper-casing).
pub uninterp spec fn uppercase(s: Seq<char>) -> Seq<char>;

/// A text of ASCII characters only.
pub open spec fn is_ascii_text(s: Seq<char>) -> bool {
    forall|i: int| 0 <= i < s.len() ==> (#[trigger] s[i] as u32) < 128
}

/// An ASCII character upper-cased: `a`..`z` to `A`..`Z`, others unchanged.
pub open spec fn ascii_upper_char(c: char) -> char {
    if 97 <= (c as u32) <= 122 {
        ((c as u32) - 32) as char
    } else {
        c
    }
}

/// Each character of a text upper-cased as ASCII.
pub open spec fn ascii_upper(s: Seq<char>) -> Seq<char> {
    s.map_values(|c: char| ascii_upper_char(c))
}

/// `str::to_uppercase` from std. The contract names its result `uppercase`,
/// and states that an ASCII text is upper-cased character by character as
/// ASCII (the Unicode upper-case mapping of an ASCII character);
/// std's Unicode case tables are not written out here.
#[verifier::external_body]
pub fn to_uppercase(s: &str) -> (r: String)
    ensures
        r@ == uppercase(s@),
        is_ascii_text(s@) ==> r@ == ascii_upper(s@),
{
    s.to_uppercase()
}

// ---------------------------------------------------------------------
// Bars and titles
// ---------------------------------------------------------------------

/// The key help at the end of the data view's status bar.
pub open spec fn data_help() -> Seq<char> {
    "  g/G=first/last  PgUp/Dn=page  /=search  e=export  Esc=clear"@
}

/// The status bar: the status message where there is one; otherwise the
/// field count in the schema view, or in the data view the current row
/// (1-based, 0 when there are none), the row and column counts, the active
/// filter and the key help.
pub open spec fn status_text(v: AppView) -> Seq<char> {
    match v.status {
        Some(m) => " "@ + m,
        None => {
            let total: nat = v.filtered.len();
            let hint = if v.filter.len() > 0 {
                " [filter: "@ + v.filter + "] "@ + decimal(total) + "/"@ + decimal(total)
            } else {
                Seq::empty()
            };
            match v.mode {
                Mode::Schema => " Schema | "@ + decimal(v.field_total()) + " columns"@,
                Mode::Data => " Row "@ + decimal(
                    if total == 0 {
                        0
                    } else {
                        v.row_offset + 1
                    },
                ) + "/"@ + decimal(total) + " | "@ + decimal(v.field_total()) + " cols"@ + hint
                    + data_help(),
            }
        },
    }
}

/// The status bar's text.
pub fn status_line(app: &App) -> (r: String)
    ensures
        r@ == status_text(app@),
{
    let mut r = String::new();
    match &app.status_msg {
        Some(m) => {
            r.append(" ");
            r.append(m);
            return r;
        },
        None => {},
    }
    let total: usize = app.total_rows();
    let fields: usize = app.field_total();
    match app.mode {
        Mode::Schema => {
            r.append(" Schema | ");
            push_decimal(&mut r, fields as u128);
            r.append(" columns");
        },
        Mode::Data => {
            r.append(" Row ");
            if total == 0 {
                push_decimal(&mut r, 0);
            } else {
                push_decimal(&mut r, app.row_offset as u128 + 1);
            }
            r.append("/");
            push_decimal(&mut r, total as u128);
            r.append(" | ");
            push_decimal(&mut r, fields as u128);
            r.append(" cols");
            if !app.active_filter.as_str().is_empty() {
                r.append(" [filter: ");
                r.append(&app.active_filter);
                r.append("] ");
                push_decimal(&mut r, total as u128);
                r.append("/");
                push_decimal(&mut r, total as u128);
            }
            r.append("  g/G=first/last  PgUp/Dn=page  /=search  e=export  Esc=clear");
        },
    }
    r
}

/// The search bar: `/` and the search text.
pub open spec fn search_bar_text(v: AppView) -> Seq<char> {
    "/"@ + v.search
}

/// The search bar's text.
pub fn search_bar(app: &App) -> (r: String)
    ensures
        r@ == search_bar_text(app@),
{
    let mut r = String::new();
    r.append("/");
    r.append(&app.search_input);
    r
}

/// A format's extension in capitals: `JSON`, `JSONL` or `CSV`.
pub open spec fn format_label(f: ExportFormat) -> Seq<char> {
    match f {
        ExportFormat::Json => "JSON"@,
        ExportFormat::Jsonl => "JSONL"@,
        ExportFormat::Csv => "CSV"@,
    }
}

/// A format's extension is ASCII, and upper-cased it is the format's label.
proof fn lemma_format_label(f: ExportFormat)
    ensures
        is_ascii_text(format_ext(f)),
        ascii_upper(format_ext(f)) == format_label(f),
{
    reveal_strlit("json");
    reveal_strlit("jsonl");
    reveal_strlit("csv");
    reveal_strlit("JSON");
    reveal_strlit("JSONL");
    reveal_strlit("CSV");
    assert(ascii_upper(format_ext(f)) =~= format_label(f));
}

/// One format in the export bar: the selected one upper-cased in brackets,
/// the others as their extension.
pub open spec fn export_choice_text(f: ExportFormat, selected: bool) -> Seq<char> {
    if selected {
        "["@ + format_label(f) + "]"@
    } else {
        format_ext(f)
    }
}

/// The export bar: the formats, two spaces apart, then the key help.
pub open spec fn export_bar_text(selected: nat) -> Seq<char> {
    " Export: "@ + export_choice_text(all_formats()[0], selected == 0) + "  "@
        + export_choice_text(all_formats()[1], selected == 1) + "  "@ + export_choice_text(
        all_formats()[2],
        selected == 2,
    ) + "  \u{2190}/\u{2192} select  Enter=confirm  Esc=cancel"@
}

/// The export bar's text.
pub fn export_bar(app: &App) -> (r: String)
    ensures
        r@ == export_bar_text(app@.export_selected),
{
    let mut r = String::new();
    r.append(" Export: ");
    let formats = ExportFormat::all();
    let ghost start = r@;
    let mut i: usize = 0;
    while i < formats.len()
        invariant
            i <= formats.len(),
            formats@ == all_formats(),
            start == " Export: "@,
            i == 0 ==> r@ == start,
            i == 1 ==> r@ == start + export_choice_text(all_formats()[0], app@.export_selected
                == 0),
            i == 2 ==> r@ == start + export_choice_text(all_formats()[0], app@.export_selected
                == 0) + "  "@ + export_choice_text(all_formats()[1], app@.export_selected == 1),
            i == 3 ==> r@ == start + export_choice_text(all_formats()[0], app@.export_selected
                == 0) + "  "@ + export_choice_text(all_formats()[1], app@.export_selected == 1)
                + "  "@ + export_choice_text(all_formats()[2], app@.export_selected == 2),
        decreases formats.len() - i,
    {
        if i > 0 {
            r.append("  ");
        }
        let f = formats[i];
        if i == app.export_selected {
            r.append("[");
            proof {
                lemma_format_label(f);
            }
            let up = to_uppercase(f.ext());
            r.append(&up);
            r.append("]");
        } else {
            r.append(f.ext());
        }
        i = i + 1;
    }
    r.append("  \u{2190}/\u{2192} select  Enter=confirm  Esc=cancel");
    r
}

/// The data table's title: `Data`, with the active filter where there is one.
pub open spec fn data_title_text(v: AppView) -> Seq<char> {
    if v.filter.len() > 0 {
        "Data [filter: "@ + v.filter + "]"@
    } else {
        "Data"@
    }
}

/// The data table's title.
pub fn data_title(app: &App) -> (r: String)
    ensures
        r@ == data_title_text(app@),
{
    let mut r = String::new();
    if !app.active_filter.as_str().is_empty() {
        r.append("Data [filter: ");
        r.append(&app.active_filter);
        r.append("]");
    } else {
        r.append("Data");
    }
    r
}

/// Which tab is selected: `Data` (0) or `Schema` (1).
pub fn tab_index(mode: Mode) -> (r: usize)
    ensures
        r == (match mode {
            Mode::Data => 0usize,
            Mode::Schema => 1usize,
        }),
{
    match mode {
        Mode::Data => 0,
        Mode::Schema => 1,
    }
}

/// Whether an input bar (search or export) is shown below the table.
pub fn shows_input_bar(app: &App) -> (r: bool)
    ensures
        r == (app@.input_mode != InputMode::Normal),
{
    match app.input_mode {
        InputMode::Normal => false,
        _ => true,
    }
}

// ---------------------------------------------------------------------
// Windows of rows and columns
// ---------------------------------------------------------------------

/// The number of table lines inside a bordered table `height` lines high
/// (borders and header take three).
pub fn table_body_rows(height: u16) -> (r: usize)
    ensures
        r == minus(height as nat, 3),
{
    height.saturating_sub(3) as usize
}

/// How many 16-wide columns fit in a bordered table `width` wide; at least one.
pub open spec fn visible_column_count(width: nat) -> nat {
    if minus(width, 2) / 16 == 0 {
        1
    } else {
        minus(width, 2) / 16
    }
}

/// How many 16-wide columns fit in a bordered table `width` wide; at least one.
pub fn visible_columns(width: u16) -> (r: usize)
    ensures
        r == visible_column_count(width as nat),
{
    let w: u16 = width.saturating_sub(2) / 16;
    if w == 0 {
        1
    } else {
        w as usize
    }
}

/// The columns in view: from `col_offset`, `visible` of them, but not past
/// the last of `num_cols`.
pub fn column_range(col_offset: usize, visible: usize, num_cols: usize) -> (r: (usize, usize))
    ensures
        r.0 == col_offset,
        r.1 == window_end(col_offset as nat, visible as nat, num_cols as nat),
{
    let end: usize = if col_offset <= num_cols && visible <= num_cols - col_offset {
        col_offset + visible
    } else {
        num_cols
    };
    (col_offset, end)
}

/// The items at positions `start <= i < end`, in order.
pub open spec fn in_range<T>(s: Seq<T>, start: nat, end: nat) -> Seq<T> {
    let lo: nat = if start <= s.len() {
        start
    } else {
        s.len()
    };
    let hi: nat = if end <= s.len() {
        end
    } else {
        s.len()
    };
    if lo <= hi {
        s.subrange(lo as int, hi as int)
    } else {
        Seq::empty()
    }
}

/// The strings at positions `start <= i < end`, in order.
pub fn select_range(items: &Vec<String>, start: usize, end: usize) -> (r: Vec<String>)
    ensures
        texts(r@) == in_range(texts(items@), start as nat, end as nat),
{
    let mut r: Vec<String> = Vec::new();
    let lo: usize = if start <= items.len() {
        start
    } else {
        items.len()
    };
    let hi: usize = if end <= items.len() {
        end
    } else {
        items.len()
    };
    if lo > hi {
        return r;
    }
    let ghost all = texts(items@);
    let mut i: usize = lo;
    while i < hi
        invariant
            lo <= i <= hi <= items.len(),
            all == texts(items@),
            texts(r@) == all.subrange(lo as int, i as int),
        decreases hi - i,
    {
        let s = items[i].clone();
        proof {
            lemma_texts_push(r@, s);
            assert(all.subrange(lo as int, i + 1) =~= all.subrange(lo as int, i as int).push(s@));
        }
        r.push(s);
        i = i + 1;
    }
    r
}

/// The search needle: the active filter, lower-cased.
pub fn filter_needle(app: &App) -> (r: Vec<char>)
    ensures
        r@ == lowercase(app@.filter),
{
    let low = to_lowercase(&app.active_filter);
    chars_of(&low)
}

/// A cell is highlighted when the needle is not empty and the cell's text,
/// lower-cased, contains it.
pub fn highlighted(cell: &str, needle: &Vec<char>) -> (r: bool)
    ensures
        r == (needle@.len() > 0 && occurs_in(lowercase(cell@), needle@)),
{
    if needle.len() == 0 {
        return false;
    }
    let low = to_lowercase(cell);
    contains_chars(&chars_of(&low), needle)
}

/// A schema field as the schema view shows it: name, data type, and `yes`
/// or `no` for nullable.
pub open spec fn schema_line(f: (Seq<char>, Seq<char>, bool)) -> Seq<Seq<char>> {
    seq![f.0, f.1, if f.2 { "yes"@ } else { "no"@ }]
}

/// The schema view's lines from `row_offset`, at most `visible` of them.
pub open spec fn schema_lines(v: AppView, visible: nat) -> Seq<Seq<Seq<char>>> {
    let fields = schema_fields(v.schema);
    fields.subrange(
        window_start(v.row_offset, fields.len()) as int,
        window_end(v.row_offset, visible, fields.len()) as int,
    ).map_values(|f: (Seq<char>, Seq<char>, bool)| schema_line(f))
}

/// The schema view's lines from the current line, at most `visible` of
/// them: name, data type, and `yes` or `no` for nullable.
pub fn schema_rows(app: &App, visible: usize) -> (r: Vec<Vec<String>>)
    ensures
        row_texts(r@) == schema_lines(app@, visible as nat),
{
    let n: usize = app.field_total();
    let start: usize = if app.row_offset <= n {
        app.row_offset
    } else {
        n
    };
    let end: usize = if visible <= n - start {
        start + visible
    } else {
        n
    };
    let ghost fields = schema_fields(app@.schema);
    let ghost lines = schema_lines(app@, visible as nat);
    assert(lines.len() == end - start);
    let mut r: Vec<Vec<String>> = Vec::new();
    let mut i: usize = start;
    while i < end
        invariant
            start <= i <= end <= n,
            n == fields.len(),
            fields == schema_fields(app@.schema),
            lines == schema_lines(app@, visible as nat),
            lines.len() == end - start,
            start == window_start(app@.row_offset, fields.len()),
            row_texts(r@) == lines.take(i - start),
        decreases end - i,
    {
        let mut line: Vec<String> = Vec::new();
        line.push(field_name(&app.schema, i));
        line.push(field_type_text(&app.schema, i));
        let mut yn = String::new();
        if field_nullable(&app.schema, i) {
            yn.append("yes");
        } else {
            yn.append("no");
        }
        line.push(yn);
        proof {
            assert(texts(line@) =~= schema_line(fields[i as int]));
            assert(lines[i - start] == schema_line(fields[i as int]));
            lemma_row_texts_push(r@, line);
            assert(lines.take(i + 1 - start) =~= lines.take(i - start).push(texts(line@)));
        }
        r.push(line);
        i = i + 1;
    }
    assert(lines.take(end - start) == lines);
    r
}

} // verus!
