//! Arrow record batches and schemas, as the library reads them.
//!
//! A record batch is read cell by cell: whether a cell is null, its display
//! text, and its text after a cast to UTF-8; and column by column: the kind
//! of its data type. A schema is read field by field: name, type and
//! whether it is nullable.

use arrow::array::{Array, RecordBatch, StringArray};
use arrow::compute::cast;
use arrow::datatypes::{DataType, Schema};
use arrow::util::display::array_value_to_string;
use vstd::prelude::*;

use crate::text::opt_text;

verus! {

/// An arrow record batch, held opaque: the library reads it only through
/// the functions below, and states what it holds by `batch_columns` and
/// `batch_row_count`.
#[verifier::external_body]
pub struct Batch(pub RecordBatch);

/// Arrow's `Schema`, declared so that it can stand in signatures; it is
/// read only through the functions below.
#[verifier::external_type_specification]
#[verifier::external_body]
pub struct ExSchema(Schema);

/// The kinds of column data type that the library tells apart.
#[derive(Clone, Copy, PartialEq, Eq, Structural, Debug)]
pub enum ColumnKind {
    Timestamp,
    Date32,
    Date64,
    Time32,
    Time64,
    Duration,
    Other,
}

/// Dates, times, timestamps and durations.
pub open spec fn is_temporal(k: ColumnKind) -> bool {
    k != ColumnKind::Other
}

/// One cell as the library reads it: whether it is null, its display text
/// (`None` when arrow cannot format the column), and its text after a cast
/// of the column to UTF-8 (`None` when the cast fails or the cast value is
/// null).
pub type CellInfo = (bool, Option<Seq<char>>, Option<Seq<char>>);

/// What a record batch holds: for each column, the kind of its data type
/// and its cells, row by row.
pub uninterp spec fn batch_columns(b: Batch) -> Seq<(ColumnKind, Seq<CellInfo>)>;

/// The number of rows of a record batch.
pub uninterp spec fn batch_row_count(b: Batch) -> nat;

/// What a schema holds: for each field, its name, the display text of its
/// data type, and whether it is nullable.
pub uninterp spec fn schema_fields(s: Schema) -> Seq<(Seq<char>, Seq<char>, bool)>;

/// The cell of column `col` at row `row`.
pub open spec fn cell_at(b: Batch, col: int, row: int) -> CellInfo {
    batch_columns(b)[col].1[row]
}

/// The number of columns of a record batch.
pub open spec fn column_count(b: Batch) -> nat {
    batch_columns(b).len()
}

/// `RecordBatch::num_rows` from arrow: the batch's row count; every column
/// holds that many cells.
#[verifier::external_body]
pub(crate) fn num_rows(b: &Batch) -> (r: usize)
    ensures
        r == batch_row_count(*b),
        forall|c: int| 0 <= c < column_count(*b) ==> (#[trigger] batch_columns(*b)[c]).1.len() == r,
{
    b.0.num_rows()
}

/// `RecordBatch::num_columns` from arrow: the number of columns.
#[verifier::external_body]
pub(crate) fn num_columns(b: &Batch) -> (r: usize)
    ensures
        r == column_count(*b),
{
    b.0.num_columns()
}

/// `Array::data_type` of column `col` from arrow, told apart by kind.
#[verifier::external_body]
pub(crate) fn column_kind(b: &Batch, col: usize) -> (r: ColumnKind)
    requires
        col < column_count(*b),
    ensures
        r == batch_columns(*b)[col as int].0,
{
    match b.0.column(col).data_type() {
        DataType::Timestamp(_, _) => ColumnKind::Timestamp,
        DataType::Date32 => ColumnKind::Date32,
        DataType::Date64 => ColumnKind::Date64,
        DataType::Time32(_) => ColumnKind::Time32,
        DataType::Time64(_) => ColumnKind::Time64,
        DataType::Duration(_) => ColumnKind::Duration,
        _ => ColumnKind::Other,
    }
}

/// `Array::is_null` from arrow on column `col` at row `row`.
#[verifier::external_body]
pub(crate) fn cell_is_null(b: &Batch, col: usize, row: usize) -> (r: bool)
    requires
        col < column_count(*b),
        row < batch_row_count(*b),
    ensures
        r == cell_at(*b, col as int, row as int).0,
{
    b.0.column(col).is_null(row)
}

/// `arrow::util::display::array_value_to_string` on column `col` at row
/// `row`, with its error dropped to `None`.
#[verifier::external_body]
pub(crate) fn cell_display(b: &Batch, col: usize, row: usize) -> (r: Option<String>)
    requires
        col < column_count(*b),
        row < batch_row_count(*b),
    ensures
        opt_text(r) == cell_at(*b, col as int, row as int).1,
{
    match array_value_to_string(b.0.column(col), row) {
        Ok(s) => Some(s),
        Err(_) => None,
    }
}

/// `arrow::compute::cast` of column `col` to UTF-8, read back as a string
/// array at row `row`: `None` when the cast fails or the value is null.
#[verifier::external_body]
pub(crate) fn cell_utf8(b: &Batch, col: usize, row: usize) -> (r: Option<String>)
    requires
        col < column_count(*b),
        row < batch_row_count(*b),
    ensures
        opt_text(r) == cell_at(*b, col as int, row as int).2,
{
    match cast(b.0.column(col), &DataType::Utf8) {
        Ok(arr) => match arr.as_any().downcast_ref::<StringArray>() {
            Some(strings) => match strings.iter().nth(row) {
                Some(Some(v)) => Some(v.to_owned()),
                _ => None,
            },
            None => None,
        },
        Err(_) => None,
    }
}

/// The number of fields of a schema (`Schema::fields().len()` from arrow).
#[verifier::external_body]
pub(crate) fn field_count(s: &Schema) -> (r: usize)
    ensures
        r == schema_fields(*s).len(),
{
    s.fields().len()
}

/// `Field::name` of field `i` from arrow.
#[verifier::external_body]
pub(crate) fn field_name(s: &Schema, i: usize) -> (r: String)
    requires
        i < schema_fields(*s).len(),
    ensures
        r@ == schema_fields(*s)[i as int].0,
{
    s.field(i).name().clone()
}

/// The display text of `Field::data_type` of field `i` from arrow.
#[verifier::external_body]
pub(crate) fn field_type_text(s: &Schema, i: usize) -> (r: String)
    requires
        i < schema_fields(*s).len(),
    ensures
        r@ == schema_fields(*s)[i as int].1,
{
    s.field(i).data_type().to_string()
}

/// `Field::is_nullable` of field `i` from arrow.
#[verifier::external_body]
pub(crate) fn field_nullable(s: &Schema, i: usize) -> (r: bool)
    requires
        i < schema_fields(*s).len(),
    ensures
        r == schema_fields(*s)[i as int].2,
{
    s.field(i).is_nullable()
}

} // verus!
