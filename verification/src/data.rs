//! The texts of a loaded table: column names and cells as the exporter
//! writes them.

use arrow::datatypes::Schema;
use vstd::prelude::*;
use vstd::string::StringExecFns;

use crate::export::{lemma_row_texts_push, lemma_texts_push, row_texts, texts};
use crate::table::{
    batch_columns, batch_row_count, cell_at, cell_display, cell_is_null, cell_utf8, column_count,
    column_kind, field_count, field_name, is_temporal, num_columns, num_rows, schema_fields, Batch,
    ColumnKind,
};

verus! {

/// A cell as text for export: `null` for a null cell; for a date, time,
/// timestamp or duration column, its text after a cast to UTF-8 where that
/// gives one; otherwise its display text, or `?` where arrow cannot format
/// it.
pub open spec fn cell_text(b: Batch, col: int, row: int) -> Seq<char> {
    let cell = cell_at(b, col, row);
    if cell.0 {
        "null"@
    } else if is_temporal(batch_columns(b)[col].0) && cell.2 is Some {
        cell.2->0
    } else {
        match cell.1 {
            Some(t) => t,
            None => "?"@,
        }
    }
}

/// The export texts of one row of a batch, column by column.
pub open spec fn row_text(b: Batch, row: int) -> Seq<Seq<char>> {
    Seq::new(column_count(b), |c: int| cell_text(b, c, row))
}

/// The export texts of all rows of a batch.
pub open spec fn batch_rows_text(b: Batch) -> Seq<Seq<Seq<char>>> {
    Seq::new(batch_row_count(b), |r: int| row_text(b, r))
}

/// The export texts of all rows of the batches, batch after batch.
pub open spec fn all_rows_text(bs: Seq<Batch>) -> Seq<Seq<Seq<char>>>
    decreases bs.len(),
{
    if bs.len() == 0 {
        Seq::empty()
    } else {
        all_rows_text(bs.drop_last()) + batch_rows_text(bs.last())
    }
}

/// The field names of a schema.
pub open spec fn schema_names(s: Schema) -> Seq<Seq<char>> {
    schema_fields(s).map_values(|f: (Seq<char>, Seq<char>, bool)| f.0)
}

/// The cell of column `col` at row `row` as text for export: `null` for a
/// null cell; for a date, time, timestamp or duration column, its text
/// after a cast to UTF-8 where that gives one; otherwise its display text,
/// or `?` where arrow cannot format it.
pub fn cell_to_string(batch: &Batch, col: usize, row: usize) -> (r: String)
    requires
        col < column_count(*batch),
        row < batch_row_count(*batch),
    ensures
        r@ == cell_text(*batch, col as int, row as int),
{
    if cell_is_null(batch, col, row) {
        let mut r = String::new();
        r.append("null");
        return r;
    }
    let kind = column_kind(batch, col);
    if kind != ColumnKind::Other {
        if let Some(t) = cell_utf8(batch, col, row) {
            return t;
        }
    }
    match cell_display(batch, col, row) {
        Some(t) => t,
        None => {
            let mut r = String::new();
            r.append("?");
            r
        },
    }
}

/// A null cell exports as the text `null`, whatever the data type of its
/// column, dates, times, timestamps and durations included; so does its
/// place in the export texts of its row. A cell that is not null, of a
/// column that is none of those, exports as its display text where arrow
/// can format it.
pub proof fn law_null_cell_exports_null(b: Batch, col: int, row: int)
    ensures
        cell_at(b, col, row).0 ==> cell_text(b, col, row) == "null"@,
        cell_at(b, col, row).0 && 0 <= col < column_count(b) ==> row_text(b, row)[col]
            == "null"@,
        !cell_at(b, col, row).0 && batch_columns(b)[col].0 == ColumnKind::Other
            && cell_at(b, col, row).1 is Some ==> cell_text(b, col, row) == cell_at(
            b,
            col,
            row,
        ).1->0,
{
}

/// The cell of column `col` at row `row` as text for export, as
/// [`cell_to_string`] gives it, or `None` where the batch has no such cell.
pub fn cell_text_at(batch: &Batch, col: usize, row: usize) -> (r: Option<String>)
    ensures
        r is Some <==> (col < column_count(*batch) && row < batch_row_count(*batch)),
        r matches Some(t) ==> t@ == cell_text(*batch, col as int, row as int),
{
    if col < num_columns(batch) && row < num_rows(batch) {
        Some(cell_to_string(batch, col, row))
    } else {
        None
    }
}

/// The field names of a schema, in order.
pub fn column_names(schema: &Schema) -> (r: Vec<String>)
    ensures
        texts(r@) == schema_names(*schema),
{
    let n: usize = field_count(schema);
    let mut r: Vec<String> = Vec::new();
    let mut i: usize = 0;
    while i < n
        invariant
            i <= n,
            n == schema_fields(*schema).len(),
            texts(r@) == schema_names(*schema).take(i as int),
        decreases n - i,
    {
        let name = field_name(schema, i);
        proof {
            lemma_texts_push(r@, name);
            assert(schema_names(*schema).take(i + 1) =~= schema_names(*schema).take(i as int).push(
                name@,
            ));
        }
        r.push(name);
        i = i + 1;
    }
    assert(schema_names(*schema).take(i as int) == schema_names(*schema));
    r
}

/// The export texts of one row of a batch, column by column.
fn row_to_strings(batch: &Batch, row: usize) -> (r: Vec<String>)
    requires
        row < batch_row_count(*batch),
    ensures
        texts(r@) == row_text(*batch, row as int),
{
    let n: usize = num_columns(batch);
    let mut r: Vec<String> = Vec::new();
    let mut c: usize = 0;
    while c < n
        invariant
            c <= n,
            n == column_count(*batch),
            row < batch_row_count(*batch),
            texts(r@) == row_text(*batch, row as int).take(c as int),
        decreases n - c,
    {
        let t = cell_to_string(batch, c, row);
        proof {
            lemma_texts_push(r@, t);
            assert(row_text(*batch, row as int).take(c + 1) =~= row_text(*batch, row as int).take(
                c as int,
            ).push(t@));
        }
        r.push(t);
        c = c + 1;
    }
    assert(row_text(*batch, row as int).take(c as int) == row_text(*batch, row as int));
    r
}

/// The export texts of all rows of the batches, batch after batch and row
/// after row.
pub fn rows_to_strings(batches: &Vec<Batch>) -> (r: Vec<Vec<String>>)
    ensures
        row_texts(r@) == all_rows_text(batches@),
{
    let mut r: Vec<Vec<String>> = Vec::new();
    let mut i: usize = 0;
    while i < batches.len()
        invariant
            i <= batches.len(),
            row_texts(r@) == all_rows_text(
                batches@.take(i as int),
            ),
        decreases batches.len() - i,
    {
        let b = &batches[i];
        let n: usize = num_rows(b);
        let ghost before = row_texts(r@);
        let mut j: usize = 0;
        while j < n
            invariant
                j <= n,
                n == batch_row_count(*b),
                row_texts(r@) == before + batch_rows_text(
                    *b,
                ).take(j as int),
            decreases n - j,
        {
            let row = row_to_strings(b, j);
            proof {
                lemma_row_texts_push(r@, row);
                assert(batch_rows_text(*b).take(j + 1) =~= batch_rows_text(*b).take(j as int).push(
                    texts(row@),
                ));
            }
            r.push(row);
            j = j + 1;
        }
        assert(batch_rows_text(*b).take(j as int) == batch_rows_text(*b));
        assert(batches@.take(i + 1).drop_last() == batches@.take(i as int));
        i = i + 1;
    }
    assert(batches@.take(i as int) == batches@);
    r
}

} // verus!
