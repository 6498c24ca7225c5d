//! The viewer's state: which view is shown, where it is scrolled to, the
//! search filter over the rows and the export dialog.
//!
//! The state is modelled by [`AppView`]; each operation is a spec function
//! from view to view, and each method of [`App`] is proved to move its view
//! by that function.

use arrow::datatypes::{Schema, SchemaRef};
use vstd::prelude::*;
use vstd::string::StringExecFns;

use crate::data::schema_names;
use crate::export::{
    all_formats, export_text, format_ext, output_path, output_path_text, path_file_stem,
    path_parent, texts, write_to, ExportData, ExportFormat, lemma_row_texts_push,
    lemma_texts_push, row_texts,
};
use crate::table::{
    batch_row_count, cell_at, cell_display, column_count, num_columns, num_rows, schema_fields,
    Batch,
};
use crate::text::{
    chars_of, contains_chars, lemma_lowercase_empty, lowercase, occurs_in, pop_char, push_char,
    to_lowercase,
};

verus! {

/// The two views: the schema's fields, or the data rows.
#[derive(Clone, Copy, PartialEq, Eq, Structural, Debug)]
pub enum Mode {
    Schema,
    Data,
}

/// What keys currently do: navigate, edit the search text, or pick an
/// export format.
#[derive(Clone, Copy, PartialEq, Eq, Structural, Debug)]
pub enum InputMode {
    Normal,
    Search,
    Export,
}

// ---------------------------------------------------------------------
// Rows and the search filter
// ---------------------------------------------------------------------

/// Every row of the batches, as (batch index, row index), batch after batch.
pub open spec fn all_rows_of(bs: Seq<Batch>) -> Seq<(usize, usize)>
    decreases bs.len(),
{
    if bs.len() == 0 {
        Seq::empty()
    } else {
        all_rows_of(bs.drop_last()) + Seq::new(
            batch_row_count(bs.last()),
            |r: int| ((bs.len() - 1) as usize, r as usize),
        )
    }
}

/// A (batch, row) pair that names a row of the batches.
pub open spec fn valid_index(bs: Seq<Batch>, p: (usize, usize)) -> bool {
    &&& (p.0 as int) < bs.len()
    &&& (p.1 as int) < batch_row_count(bs[p.0 as int])
}

/// A cell matches a lower-cased needle when its display text, lower-cased,
/// contains the needle.
pub open spec fn cell_matches(b: Batch, col: int, row: int, needle: Seq<char>) -> bool {
    match cell_at(b, col, row).1 {
        Some(t) => occurs_in(lowercase(t), needle),
        None => false,
    }
}

/// A row matches a lower-cased needle when one of its cells does.
pub open spec fn row_matches(b: Batch, row: int, needle: Seq<char>) -> bool {
    exists|c: int| 0 <= c < column_count(b) && #[trigger] cell_matches(b, c, row, needle)
}

/// The test that the search filter applies to a (batch, row) pair.
pub open spec fn row_pred(bs: Seq<Batch>, needle: Seq<char>) -> spec_fn((usize, usize)) -> bool {
    |p: (usize, usize)| row_matches(bs[p.0 as int], p.1 as int, needle)
}

/// The rows that a filter text keeps: all rows for an empty filter,
/// otherwise those with a cell whose lower-cased display text contains the
/// lower-cased filter, in their order.
pub open spec fn filter_rows(
    bs: Seq<Batch>,
    all: Seq<(usize, usize)>,
    filter: Seq<char>,
) -> Seq<(usize, usize)> {
    if filter.len() == 0 {
        all
    } else {
        all.filter(row_pred(bs, lowercase(filter)))
    }
}

// ---------------------------------------------------------------------
// The model of the state and its operations
// ---------------------------------------------------------------------

/// The viewer's state as values.
#[verifier::ext_equal]
pub struct AppView {
    pub path: Seq<char>,
    pub schema: Schema,
    pub batches: Seq<Batch>,
    pub mode: Mode,
    pub input_mode: InputMode,
    pub row_offset: nat,
    pub col_offset: nat,
    pub all_rows: Seq<(usize, usize)>,
    pub filtered: Seq<(usize, usize)>,
    pub search: Seq<char>,
    pub filter: Seq<char>,
    pub status: Option<Seq<char>>,
    pub export_selected: nat,
}

/// `n - 1`, or 0 for 0.
pub open spec fn minus_one(n: nat) -> nat {
    if n == 0 {
        0
    } else {
        (n - 1) as nat
    }
}

/// `a - b`, or 0 where `b` is larger.
pub open spec fn minus(a: nat, b: nat) -> nat {
    if a <= b {
        0
    } else {
        (a - b) as nat
    }
}

impl AppView {
    /// The number of fields of the schema.
    pub open spec fn field_total(self) -> nat {
        schema_fields(self.schema).len()
    }

    /// The number of lines of the current view: fields in the schema view,
    /// filtered rows in the data view.
    pub open spec fn mode_total(self) -> nat {
        match self.mode {
            Mode::Schema => self.field_total(),
            Mode::Data => self.filtered.len(),
        }
    }

    /// The row list is that of the batches, and every batch's row count
    /// fits in a `usize`.
    pub open spec fn rows_wf(self) -> bool {
        &&& self.all_rows == all_rows_of(self.batches)
        &&& forall|i: int|
            0 <= i < self.batches.len() ==> batch_row_count(#[trigger] self.batches[i])
                <= usize::MAX
    }

    /// What every state keeps: the row list is that of the batches, the
    /// filtered list is what the active filter keeps of it, the export
    /// selection names a format, and the offsets stay within the current
    /// view.
    pub open spec fn wf(self) -> bool {
        &&& self.rows_wf()
        &&& self.filtered == filter_rows(self.batches, self.all_rows, self.filter)
        &&& self.export_selected < all_formats().len()
        &&& self.row_offset <= self.mode_total()
        &&& self.col_offset == 0 || self.col_offset < self.field_total()
    }

    /// Switch between the schema and the data view, back at the top left.
    pub open spec fn toggled(self) -> AppView {
        AppView {
            mode: match self.mode {
                Mode::Schema => Mode::Data,
                Mode::Data => Mode::Schema,
            },
            row_offset: 0,
            col_offset: 0,
            ..self
        }
    }

    /// Move down `n` lines, but not past the last line of the view.
    pub open spec fn scrolled_down(self, n: nat) -> AppView {
        let max: nat = minus_one(self.mode_total());
        AppView {
            row_offset: if self.row_offset + n <= max {
                self.row_offset + n
            } else {
                max
            },
            ..self
        }
    }

    /// Move up `n` lines, but not above the first.
    pub open spec fn scrolled_up(self, n: nat) -> AppView {
        AppView { row_offset: minus(self.row_offset, n), ..self }
    }

    /// Go to the first line.
    pub open spec fn at_first(self) -> AppView {
        AppView { row_offset: 0, ..self }
    }

    /// Go to where the last `visible` lines of the view are shown.
    pub open spec fn at_last(self, visible: nat) -> AppView {
        AppView { row_offset: minus(self.mode_total(), visible), ..self }
    }

    /// Move one column right, unless at the last column.
    pub open spec fn scrolled_right(self) -> AppView {
        if self.col_offset < minus_one(self.field_total()) {
            AppView { col_offset: self.col_offset + 1, ..self }
        } else {
            self
        }
    }

    /// Move one column left, unless at the first column.
    pub open spec fn scrolled_left(self) -> AppView {
        if self.col_offset > 0 {
            AppView { col_offset: (self.col_offset - 1) as nat, ..self }
        } else {
            self
        }
    }

    /// Start editing the search text, from the active filter.
    pub open spec fn search_entered(self) -> AppView {
        AppView { input_mode: InputMode::Search, search: self.filter, ..self }
    }

    /// Type a character into the search text.
    pub open spec fn search_pushed(self, c: char) -> AppView {
        AppView { search: self.search.push(c), ..self }
    }

    /// Delete the last character of the search text, if any.
    pub open spec fn search_popped(self) -> AppView {
        AppView {
            search: if self.search.len() > 0 {
                self.search.drop_last()
            } else {
                self.search
            },
            ..self
        }
    }

    /// Make the search text the active filter, filter the rows by it and go
    /// back to the top.
    pub open spec fn search_applied(self) -> AppView {
        AppView {
            filter: self.search,
            input_mode: InputMode::Normal,
            filtered: filter_rows(self.batches, self.all_rows, self.search),
            row_offset: 0,
            ..self
        }
    }

    /// Stop editing; the search text goes back to the active filter.
    pub open spec fn search_cancelled(self) -> AppView {
        AppView { input_mode: InputMode::Normal, search: self.filter, ..self }
    }

    /// Drop the filter: all rows are shown again, from the top.
    pub open spec fn filter_cleared(self) -> AppView {
        AppView {
            filter: Seq::empty(),
            search: Seq::empty(),
            input_mode: InputMode::Normal,
            filtered: self.all_rows,
            row_offset: 0,
            ..self
        }
    }

    /// Open the export dialog on the first format, with no status message.
    pub open spec fn export_entered(self) -> AppView {
        AppView {
            input_mode: InputMode::Export,
            export_selected: 0,
            status: None,
            ..self
        }
    }

    /// Select the next format, from the last back to the first.
    pub open spec fn export_advanced(self) -> AppView {
        AppView {
            export_selected: ((self.export_selected + 1) % all_formats().len()) as nat,
            ..self
        }
    }

    /// Select the previous format, from the first on to the last.
    pub open spec fn export_retreated(self) -> AppView {
        AppView {
            export_selected: if self.export_selected == 0 {
                (all_formats().len() - 1) as nat
            } else {
                (self.export_selected - 1) as nat
            },
            ..self
        }
    }

    /// Leave the export dialog.
    pub open spec fn export_closed(self) -> AppView {
        AppView { input_mode: InputMode::Normal, ..self }
    }

    /// Record how an export to `out_path` ended: `None` for success, or the
    /// error's text.
    pub open spec fn export_finished(self, out_path: Seq<char>, error: Option<Seq<char>>) -> AppView {
        AppView {
            status: Some(
                match error {
                    None => "Exported to "@ + out_path,
                    Some(e) => "Export error: "@ + e,
                },
            ),
            ..self
        }
    }

    /// The search text after a sequence of edits: `Some(c)` types `c`,
    /// `None` deletes the last character.
    pub open spec fn search_edited(self, edits: Seq<Option<char>>) -> AppView
        decreases edits.len(),
    {
        if edits.len() == 0 {
            self
        } else {
            let w = self.search_edited(edits.drop_last());
            match edits.last() {
                Some(c) => w.search_pushed(c),
                None => w.search_popped(),
            }
        }
    }

    /// The data view's rows as texts, as the filter keeps them.
    pub open spec fn filtered_rows_text(self) -> Seq<Seq<Seq<char>>> {
        self.filtered.map_values(|p: (usize, usize)| view_row(self.batches[p.0 as int], p.1 as int))
    }
}

/// A cell as the data view shows it: its display text, or `?` where arrow
/// cannot format it.
pub open spec fn view_cell(b: Batch, col: int, row: int) -> Seq<char> {
    match cell_at(b, col, row).1 {
        Some(t) => t,
        None => "?"@,
    }
}

/// A row as the data view shows it, column by column.
pub open spec fn view_row(b: Batch, row: int) -> Seq<Seq<char>> {
    Seq::new(column_count(b), |c: int| view_cell(b, c, row))
}

// ---------------------------------------------------------------------
// Lemmas
// ---------------------------------------------------------------------

/// Every pair of the row list of batches names a row of them.
pub proof fn lemma_all_rows_valid(bs: Seq<Batch>)
    requires
        forall|i: int| 0 <= i < bs.len() ==> batch_row_count(#[trigger] bs[i]) <= usize::MAX,
        bs.len() <= usize::MAX,
    ensures
        forall|k: int|
            0 <= k < all_rows_of(bs).len() ==> valid_index(bs, #[trigger] all_rows_of(bs)[k]),
    decreases bs.len(),
{
    if bs.len() > 0 {
        let pre = bs.drop_last();
        assert forall|i: int| 0 <= i < pre.len() implies batch_row_count(#[trigger] pre[i])
            <= usize::MAX by {
            assert(pre[i] == bs[i]);
        }
        lemma_all_rows_valid(pre);
        assert(batch_row_count(bs[bs.len() - 1]) <= usize::MAX);
        assert forall|k: int| 0 <= k < all_rows_of(bs).len() implies valid_index(
            bs,
            #[trigger] all_rows_of(bs)[k],
        ) by {
            if k < all_rows_of(pre).len() {
                assert(all_rows_of(bs)[k] == all_rows_of(pre)[k]);
                let p = all_rows_of(pre)[k];
                assert(valid_index(pre, p));
                assert(pre[p.0 as int] == bs[p.0 as int]);
            }
        }
    }
}

/// Every pair that a filter keeps names a row of the batches.
pub proof fn lemma_filtered_valid(v: AppView)
    requires
        v.wf(),
        v.batches.len() <= usize::MAX,
    ensures
        forall|k: int| 0 <= k < v.all_rows.len() ==> valid_index(v.batches, #[trigger] v.all_rows[k]),
        forall|k: int| 0 <= k < v.filtered.len() ==> valid_index(v.batches, #[trigger] v.filtered[k]),
{
    lemma_all_rows_valid(v.batches);
    if v.filter.len() > 0 {
        broadcast use vstd::seq_lib::group_filter_ensures;

        let pred = row_pred(v.batches, lowercase(v.filter));
        assert forall|k: int| 0 <= k < v.filtered.len() implies valid_index(
            v.batches,
            #[trigger] v.filtered[k],
        ) by {
            let x = v.all_rows.filter(pred)[k];
            assert(v.all_rows.filter(pred).contains(x));
            v.all_rows.lemma_filter_contains_rev(pred, x);
            let j = choose|j: int| 0 <= j < v.all_rows.len() && v.all_rows[j] == x;
            assert(valid_index(v.batches, v.all_rows[j]));
        }
    }
}

/// Copies a list of (batch, row) pairs.
fn copy_pairs(v: &Vec<(usize, usize)>) -> (r: Vec<(usize, usize)>)
    ensures
        r@ == v@,
{
    let mut r: Vec<(usize, usize)> = Vec::new();
    let mut i: usize = 0;
    while i < v.len()
        invariant
            i <= v.len(),
            r@ == v@.take(i as int),
        decreases v.len() - i,
    {
        r.push(v[i]);
        assert(r@ == v@.take(i + 1));
        i = i + 1;
    }
    assert(v@.take(i as int) == v@);
    r
}

/// Whether row `row` of `b` has a cell whose display text, lower-cased,
/// contains `needle`.
fn batch_row_matches(b: &Batch, row: usize, needle: &Vec<char>) -> (r: bool)
    requires
        row < batch_row_count(*b),
    ensures
        r == row_matches(*b, row as int, needle@),
{
    let n: usize = num_columns(b);
    let mut c: usize = 0;
    while c < n
        invariant
            c <= n,
            n == column_count(*b),
            row < batch_row_count(*b),
            forall|k: int| 0 <= k < c ==> !#[trigger] cell_matches(*b, k, row as int, needle@),
        decreases n - c,
    {
        match cell_display(b, c, row) {
            Some(t) => {
                let low = to_lowercase(&t);
                if contains_chars(&chars_of(&low), needle) {
                    assert(cell_matches(*b, c as int, row as int, needle@));
                    return true;
                }
            },
            None => {},
        }
        c = c + 1;
    }
    false
}

// ---------------------------------------------------------------------
// The state
// ---------------------------------------------------------------------

/// The viewer's state.
pub struct App {
    pub path: String,
    pub schema: SchemaRef,
    pub batches: Vec<Batch>,
    pub mode: Mode,
    pub input_mode: InputMode,
    pub row_offset: usize,
    pub col_offset: usize,
    /// All rows flattened: (batch index, row index).
    pub all_indices: Vec<(usize, usize)>,
    /// The rows that the active filter keeps, in order.
    pub filtered_indices: Vec<(usize, usize)>,
    pub search_input: String,
    pub active_filter: String,
    pub status_msg: Option<String>,
    pub export_selected: usize,
}

impl View for App {
    type V = AppView;

    open spec fn view(&self) -> AppView {
        AppView {
            path: self.path@,
            schema: *self.schema,
            batches: self.batches@,
            mode: self.mode,
            input_mode: self.input_mode,
            row_offset: self.row_offset as nat,
            col_offset: self.col_offset as nat,
            all_rows: self.all_indices@,
            filtered: self.filtered_indices@,
            search: self.search_input@,
            filter: self.active_filter@,
            status: match self.status_msg {
                Some(m) => Some(m@),
                None => None,
            },
            export_selected: self.export_selected as nat,
        }
    }
}

impl App {
    /// The state of a freshly opened file: the data view at the top left,
    /// all rows shown, no search, no message, the first export format.
    pub fn new(path: String, schema: SchemaRef, batches: Vec<Batch>) -> (r: Self)
        ensures
            r@.wf(),
            r@.path == path@,
            r@.schema == *schema,
            r@.batches == batches@,
            r@.mode == Mode::Data,
            r@.input_mode == InputMode::Normal,
            r@.row_offset == 0,
            r@.col_offset == 0,
            r@.all_rows == all_rows_of(batches@),
            r@.filtered == all_rows_of(batches@),
            r@.search == Seq::<char>::empty(),
            r@.filter == Seq::<char>::empty(),
            r@.status is None,
            r@.export_selected == 0,
    {
        let mut all_indices: Vec<(usize, usize)> = Vec::new();
        let mut bi: usize = 0;
        while bi < batches.len()
            invariant
                bi <= batches.len(),
                all_indices@ == all_rows_of(batches@.take(bi as int)),
                forall|i: int|
                    0 <= i < bi ==> batch_row_count(#[trigger] batches@[i]) <= usize::MAX,
            decreases batches.len() - bi,
        {
            let n = num_rows(&batches[bi]);
            let ghost before = all_indices@;
            let mut ri: usize = 0;
            while ri < n
                invariant
                    ri <= n,
                    bi < batches.len(),
                    all_indices@ == before + Seq::new(ri as nat, |r: int| (bi, r as usize)),
                decreases n - ri,
            {
                all_indices.push((bi, ri));
                assert(all_indices@ =~= before + Seq::new((ri + 1) as nat, |r: int| (bi, r as usize)));
                ri = ri + 1;
            }
            let ghost pre = batches@.take(bi + 1);
            assert(pre.drop_last() == batches@.take(bi as int));
            assert(pre.last() == batches@[bi as int]);
            assert(Seq::new(ri as nat, |r: int| (bi, r as usize)) =~= Seq::new(
                batch_row_count(pre.last()),
                |r: int| ((pre.len() - 1) as usize, r as usize),
            ));
            bi = bi + 1;
        }
        assert(batches@.take(bi as int) == batches@);
        let filtered_indices = copy_pairs(&all_indices);
        let r = App {
            path,
            schema,
            batches,
            mode: Mode::Data,
            input_mode: InputMode::Normal,
            row_offset: 0,
            col_offset: 0,
            all_indices,
            filtered_indices,
            search_input: String::new(),
            active_filter: String::new(),
            status_msg: None,
            export_selected: 0,
        };
        r
    }

    /// The number of rows that the filter keeps.
    pub fn total_rows(&self) -> (r: usize)
        ensures
            r == self@.filtered.len(),
    {
        self.filtered_indices.len()
    }

    /// The number of fields of the schema.
    pub fn field_total(&self) -> (r: usize)
        ensures
            r == self@.field_total(),
    {
        crate::table::field_count(&self.schema)
    }

    /// The number of lines of the current view.
    fn mode_total(&self) -> (r: usize)
        ensures
            r == self@.mode_total(),
    {
        match self.mode {
            Mode::Schema => self.field_total(),
            Mode::Data => self.total_rows(),
        }
    }

    /// Switch between the schema and the data view, back at the top left.
    pub fn toggle_mode(&mut self)
        requires
            old(self)@.wf(),
        ensures
            final(self)@ == old(self)@.toggled(),
            final(self)@.wf(),
    {
        self.mode = match self.mode {
            Mode::Schema => Mode::Data,
            Mode::Data => Mode::Schema,
        };
        self.row_offset = 0;
        self.col_offset = 0;
    }

    /// Move down `n` lines, but not past the last line of the view.
    pub fn scroll_down(&mut self, n: usize)
        requires
            old(self)@.wf(),
        ensures
            final(self)@ == old(self)@.scrolled_down(n as nat),
            final(self)@.wf(),
    {
        let total: usize = self.mode_total();
        let max: usize = if total == 0 {
            0
        } else {
            total - 1
        };
        if self.row_offset <= max && n <= max - self.row_offset {
            self.row_offset = self.row_offset + n;
        } else {
            self.row_offset = max;
        }
    }

    /// Move up `n` lines, but not above the first.
    pub fn scroll_up(&mut self, n: usize)
        requires
            old(self)@.wf(),
        ensures
            final(self)@ == old(self)@.scrolled_up(n as nat),
            final(self)@.wf(),
    {
        self.row_offset = self.row_offset.saturating_sub(n);
    }

    /// Go to the first line.
    pub fn goto_first(&mut self)
        requires
            old(self)@.wf(),
        ensures
            final(self)@ == old(self)@.at_first(),
            final(self)@.wf(),
    {
        self.row_offset = 0;
    }

    /// Go to where the last `visible_rows` lines of the view are shown.
    pub fn goto_last(&mut self, visible_rows: usize)
        requires
            old(self)@.wf(),
        ensures
            final(self)@ == old(self)@.at_last(visible_rows as nat),
            final(self)@.wf(),
    {
        let total: usize = self.mode_total();
        self.row_offset = total.saturating_sub(visible_rows);
    }

    /// Move one column right, unless at the last column.
    pub fn scroll_right(&mut self)
        requires
            old(self)@.wf(),
        ensures
            final(self)@ == old(self)@.scrolled_right(),
            final(self)@.wf(),
    {
        let max: usize = self.field_total().saturating_sub(1);
        if self.col_offset < max {
            self.col_offset = self.col_offset + 1;
        }
    }

    /// Move one column left, unless at the first column.
    pub fn scroll_left(&mut self)
        requires
            old(self)@.wf(),
        ensures
            final(self)@ == old(self)@.scrolled_left(),
            final(self)@.wf(),
    {
        if self.col_offset > 0 {
            self.col_offset = self.col_offset - 1;
        }
    }

    /// Start editing the search text, from the active filter.
    pub fn enter_search(&mut self)
        requires
            old(self)@.wf(),
        ensures
            final(self)@ == old(self)@.search_entered(),
            final(self)@.wf(),
    {
        self.input_mode = InputMode::Search;
        self.search_input = self.active_filter.clone();
    }

    /// Type a character into the search text.
    pub fn search_push(&mut self, c: char)
        requires
            old(self)@.wf(),
        ensures
            final(self)@ == old(self)@.search_pushed(c),
            final(self)@.wf(),
    {
        push_char(&mut self.search_input, c);
    }

    /// Delete the last character of the search text, if any.
    pub fn search_pop(&mut self)
        requires
            old(self)@.wf(),
        ensures
            final(self)@ == old(self)@.search_popped(),
            final(self)@.wf(),
    {
        pop_char(&mut self.search_input);
    }

    /// The rows that `filter` keeps.
    fn filter_indices(&self, filter: &String) -> (r: Vec<(usize, usize)>)
        requires
            self@.rows_wf(),
        ensures
            r@ == filter_rows(self@.batches, self@.all_rows, filter@),
    {
        if filter.as_str().is_empty() {
            return copy_pairs(&self.all_indices);
        }
        let batch_count: usize = self.batches.len();
        proof {
            assert(self@.batches.len() == batch_count);
            lemma_all_rows_valid(self@.batches);
        }
        let low = to_lowercase(filter);
        let needle = chars_of(&low);
        let ghost pred = row_pred(self@.batches, needle@);
        let mut out: Vec<(usize, usize)> = Vec::new();
        let mut i: usize = 0;
        while i < self.all_indices.len()
            invariant
                i <= self.all_indices.len(),
                self@.rows_wf(),
                needle@ == lowercase(filter@),
                pred == row_pred(self@.batches, needle@),
                forall|k: int|
                    0 <= k < self@.all_rows.len() ==> valid_index(
                        self@.batches,
                        #[trigger] self@.all_rows[k],
                    ),
                out@ == self@.all_rows.take(i as int).filter(pred),
            decreases self.all_indices.len() - i,
        {
            let (bi, ri) = self.all_indices[i];
            assert(valid_index(self@.batches, self@.all_rows[i as int]));
            let keep = batch_row_matches(&self.batches[bi], ri, &needle);
            proof {
                let t = self@.all_rows.take(i + 1);
                assert(t.drop_last() == self@.all_rows.take(i as int));
                assert(t.last() == (bi, ri));
                reveal_with_fuel(Seq::<_>::filter, 1);
            }
            if keep {
                out.push((bi, ri));
            }
            i = i + 1;
        }
        assert(self@.all_rows.take(i as int) == self@.all_rows);
        out
    }

    /// Filter the rows by the active filter.
    fn rebuild_filter(&mut self)
        requires
            old(self)@.rows_wf(),
        ensures
            final(self)@ == (AppView {
                filtered: filter_rows(old(self)@.batches, old(self)@.all_rows, old(self)@.filter),
                ..old(self)@
            }),
    {
        let filtered = self.filter_indices(&self.active_filter);
        self.filtered_indices = filtered;
    }

    /// Make the search text the active filter, filter the rows by it and go
    /// back to the top.
    pub fn apply_search(&mut self)
        requires
            old(self)@.wf(),
        ensures
            final(self)@ == old(self)@.search_applied(),
            final(self)@.wf(),
    {
        self.active_filter = self.search_input.clone();
        self.input_mode = InputMode::Normal;
        self.rebuild_filter();
        self.row_offset = 0;
    }

    /// Stop editing; the search text goes back to the active filter.
    pub fn cancel_search(&mut self)
        requires
            old(self)@.wf(),
        ensures
            final(self)@ == old(self)@.search_cancelled(),
            final(self)@.wf(),
    {
        self.input_mode = InputMode::Normal;
        self.search_input = self.active_filter.clone();
    }

    /// Drop the filter: all rows are shown again, from the top.
    pub fn clear_filter(&mut self)
        requires
            old(self)@.wf(),
        ensures
            final(self)@ == old(self)@.filter_cleared(),
            final(self)@.wf(),
    {
        self.active_filter = String::new();
        self.search_input = String::new();
        self.input_mode = InputMode::Normal;
        self.filtered_indices = copy_pairs(&self.all_indices);
        self.row_offset = 0;
    }

    /// Open the export dialog on the first format, with no status message.
    pub fn enter_export(&mut self)
        requires
            old(self)@.wf(),
        ensures
            final(self)@ == old(self)@.export_entered(),
            final(self)@.wf(),
    {
        self.input_mode = InputMode::Export;
        self.export_selected = 0;
        self.status_msg = None;
    }

    /// Select the next format, from the last back to the first.
    pub fn export_next(&mut self)
        requires
            old(self)@.wf(),
        ensures
            final(self)@ == old(self)@.export_advanced(),
            final(self)@.wf(),
    {
        self.export_selected = (self.export_selected + 1) % ExportFormat::count();
    }

    /// Select the previous format, from the first on to the last.
    pub fn export_prev(&mut self)
        requires
            old(self)@.wf(),
        ensures
            final(self)@ == old(self)@.export_retreated(),
            final(self)@.wf(),
    {
        self.export_selected = if self.export_selected == 0 {
            ExportFormat::count() - 1
        } else {
            self.export_selected - 1
        };
    }

    /// Leave the export dialog with the selected format, which the caller
    /// then exports (see [`App::export_job`] and [`App::finish_export`]).
    pub fn confirm_export(&mut self) -> (r: ExportFormat)
        requires
            old(self)@.wf(),
        ensures
            r == all_formats()[old(self)@.export_selected as int],
            final(self)@ == old(self)@.export_closed(),
            final(self)@.wf(),
    {
        let fmt = ExportFormat::at(self.export_selected);
        self.input_mode = InputMode::Normal;
        fmt
    }

    /// Leave the export dialog without exporting.
    pub fn cancel_export(&mut self)
        requires
            old(self)@.wf(),
        ensures
            final(self)@ == old(self)@.export_closed(),
            final(self)@.wf(),
    {
        self.input_mode = InputMode::Normal;
    }

    /// The data view's rows as texts, as the filter keeps them: each cell's
    /// display text, or `?` where arrow cannot format it.
    pub fn all_filtered_rows(&self) -> (r: Vec<Vec<String>>)
        requires
            self@.wf(),
        ensures
            row_texts(r@) == self@.filtered_rows_text(),
    {
        let len: usize = self.filtered_indices.len();
        self.rows_between(0, len)
    }

    /// The rows `offset .. offset + count` of the data view (fewer at the
    /// end of the filtered rows), as texts.
    pub fn data_rows(&self, offset: usize, count: usize) -> (r: Vec<Vec<String>>)
        requires
            self@.wf(),
        ensures
            row_texts(r@) == self@.filtered_rows_text().subrange(
                window_start(offset as nat, self@.filtered.len()) as int,
                window_end(offset as nat, count as nat, self@.filtered.len()) as int,
            ),
    {
        let len: usize = self.filtered_indices.len();
        let start: usize = if offset <= len {
            offset
        } else {
            len
        };
        let end: usize = if count <= len - start {
            start + count
        } else {
            len
        };
        self.rows_between(start, end)
    }

    /// The filtered rows `lo .. hi` as texts.
    fn rows_between(&self, lo: usize, hi: usize) -> (r: Vec<Vec<String>>)
        requires
            self@.wf(),
            lo <= hi <= self@.filtered.len(),
        ensures
            row_texts(r@) == self@.filtered_rows_text().subrange(lo as int, hi as int),
    {
        let batch_count: usize = self.batches.len();
        proof {
            assert(self@.batches.len() == batch_count);
            lemma_filtered_valid(self@);
        }
        let ghost all_text = self@.filtered_rows_text();
        let mut r: Vec<Vec<String>> = Vec::new();
        let mut i: usize = lo;
        while i < hi
            invariant
                lo <= i <= hi <= self@.filtered.len(),
                self@.wf(),
                all_text == self@.filtered_rows_text(),
                forall|k: int|
                    0 <= k < self@.filtered.len() ==> valid_index(
                        self@.batches,
                        #[trigger] self@.filtered[k],
                    ),
                row_texts(r@) == all_text.subrange(lo as int, i as int),
            decreases hi - i,
        {
            let (bi, ri) = self.filtered_indices[i];
            assert(valid_index(self@.batches, self@.filtered[i as int]));
            let row = view_row_strings(&self.batches[bi], ri);
            proof {
                lemma_row_texts_push(r@, row);
                assert(all_text.subrange(lo as int, i + 1) =~= all_text.subrange(
                    lo as int,
                    i as int,
                ).push(texts(row@)));
            }
            r.push(row);
            i = i + 1;
        }
        r
    }

    /// The column names of the schema.
    pub fn column_names(&self) -> (r: Vec<String>)
        ensures
            texts(r@) == schema_names(self@.schema),
    {
        crate::data::column_names(&self.schema)
    }

    /// What an export in format `fmt` writes and where: the path next to
    /// the input file with the format's extension, and the document of the
    /// schema's column names and the filtered rows.
    pub fn export_job(&self, fmt: ExportFormat) -> (r: (String, String))
        requires
            self@.wf(),
        ensures
            r.0@ == output_path_text(
                path_parent(self@.path),
                path_file_stem(self@.path),
                format_ext(fmt),
            ),
            r.1@ == export_text(fmt, schema_names(self@.schema), self@.filtered_rows_text()),
    {
        let columns = self.column_names();
        let rows = self.all_filtered_rows();
        let data = ExportData { columns: columns.as_slice(), rows };
        let out_path = output_path(&self.path, fmt.ext());
        let mut doc = String::new();
        write_to(fmt, &data, &mut doc);
        (out_path, doc)
    }

    /// Record how the export to `out_path` ended: `None` for success, or
    /// the error's text.
    pub fn finish_export(&mut self, out_path: &str, error: Option<&str>)
        requires
            old(self)@.wf(),
        ensures
            final(self)@ == old(self)@.export_finished(
                out_path@,
                match error {
                    Some(e) => Some(e@),
                    None => None,
                },
            ),
            final(self)@.wf(),
    {
        let mut msg = String::new();
        match error {
            None => {
                msg.append("Exported to ");
                msg.append(out_path);
            },
            Some(e) => {
                msg.append("Export error: ");
                msg.append(e);
            },
        }
        self.status_msg = Some(msg);
    }
}

/// Where a window of rows starting at `offset` begins in a list of `len`.
pub open spec fn window_start(offset: nat, len: nat) -> nat {
    if offset <= len {
        offset
    } else {
        len
    }
}

/// Where a window of `count` rows starting at `offset` ends in a list of `len`.
pub open spec fn window_end(offset: nat, count: nat, len: nat) -> nat {
    if offset + count <= len {
        offset + count
    } else {
        len
    }
}

/// A row of a batch as the data view shows it.
fn view_row_strings(b: &Batch, row: usize) -> (r: Vec<String>)
    requires
        row < batch_row_count(*b),
    ensures
        texts(r@) == view_row(*b, row as int),
{
    let n: usize = num_columns(b);
    let mut r: Vec<String> = Vec::new();
    let mut c: usize = 0;
    while c < n
        invariant
            c <= n,
            n == column_count(*b),
            row < batch_row_count(*b),
            texts(r@) == view_row(*b, row as int).take(c as int),
        decreases n - c,
    {
        let t = match cell_display(b, c, row) {
            Some(t) => t,
            None => {
                let mut q = String::new();
                q.append("?");
                q
            },
        };
        proof {
            lemma_texts_push(r@, t);
            assert(view_row(*b, row as int).take(c + 1) =~= view_row(*b, row as int).take(
                c as int,
            ).push(t@));
        }
        r.push(t);
        c = c + 1;
    }
    assert(view_row(*b, row as int).take(c as int) == view_row(*b, row as int));
    r
}

// ---------------------------------------------------------------------
// Keys
// ---------------------------------------------------------------------

/// The keys that the viewer tells apart.
#[derive(Clone, Copy, PartialEq, Eq, Structural, Debug)]
pub enum Key {
    Enter,
    Esc,
    Backspace,
    Tab,
    Up,
    Down,
    Left,
    Right,
    PageUp,
    PageDown,
    Char(char),
    Other,
}

/// What the caller does after a key: go on, quit, or export in a format.
#[derive(Clone, Copy, PartialEq, Eq, Structural, Debug)]
pub enum Action {
    Continue,
    Quit,
    Export(ExportFormat),
}

/// The state after a key and what the caller is to do, with `visible`
/// lines on a page.
pub open spec fn key_step(v: AppView, key: Key, visible: nat) -> (AppView, Action) {
    match v.input_mode {
        InputMode::Search => match key {
            Key::Enter => (v.search_applied(), Action::Continue),
            Key::Esc => (v.search_cancelled(), Action::Continue),
            Key::Backspace => (v.search_popped(), Action::Continue),
            Key::Char(c) => (v.search_pushed(c), Action::Continue),
            _ => (v, Action::Continue),
        },
        InputMode::Export => match key {
            Key::Enter => (
                v.export_closed(),
                Action::Export(all_formats()[v.export_selected as int]),
            ),
            Key::Esc => (v.export_closed(), Action::Continue),
            Key::Right | Key::Down => (v.export_advanced(), Action::Continue),
            Key::Left | Key::Up => (v.export_retreated(), Action::Continue),
            _ => (v, Action::Continue),
        },
        InputMode::Normal => match key {
            Key::Char('q') => (v, Action::Quit),
            Key::Esc => (AppView { status: None, ..v.filter_cleared() }, Action::Continue),
            Key::Tab => (v.toggled(), Action::Continue),
            Key::Down => (v.scrolled_down(1), Action::Continue),
            Key::Up => (v.scrolled_up(1), Action::Continue),
            Key::PageDown => (v.scrolled_down(visible), Action::Continue),
            Key::PageUp => (v.scrolled_up(visible), Action::Continue),
            Key::Char('g') => (v.at_first(), Action::Continue),
            Key::Char('G') => (v.at_last(visible), Action::Continue),
            Key::Right => (v.scrolled_right(), Action::Continue),
            Key::Left => (v.scrolled_left(), Action::Continue),
            Key::Char('/') => (v.search_entered(), Action::Continue),
            Key::Char('e') => (v.export_entered(), Action::Continue),
            _ => (v, Action::Continue),
        },
    }
}

/// The number of data lines on a page for a terminal `height` lines high.
pub fn page_rows(height: u16) -> (r: usize)
    ensures
        r == minus(height as nat, 4),
{
    height.saturating_sub(4) as usize
}

impl App {
    /// Handle one key press with `visible_rows` lines on a page: update the
    /// state and say what the caller is to do.
    pub fn handle_key(&mut self, key: Key, visible_rows: usize) -> (r: Action)
        requires
            old(self)@.wf(),
        ensures
            (final(self)@, r) == key_step(old(self)@, key, visible_rows as nat),
            final(self)@.wf(),
    {
        match self.input_mode {
            InputMode::Search => {
                match key {
                    Key::Enter => self.apply_search(),
                    Key::Esc => self.cancel_search(),
                    Key::Backspace => self.search_pop(),
                    Key::Char(c) => self.search_push(c),
                    _ => {},
                }
                Action::Continue
            },
            InputMode::Export => {
                match key {
                    Key::Enter => {
                        let fmt = self.confirm_export();
                        return Action::Export(fmt);
                    },
                    Key::Esc => self.cancel_export(),
                    Key::Right | Key::Down => self.export_next(),
                    Key::Left | Key::Up => self.export_prev(),
                    _ => {},
                }
                Action::Continue
            },
            InputMode::Normal => {
                match key {
                    Key::Char('q') => {
                        return Action::Quit;
                    },
                    Key::Esc => {
                        self.clear_filter();
                        self.status_msg = None;
                    },
                    Key::Tab => self.toggle_mode(),
                    Key::Down => self.scroll_down(1),
                    Key::Up => self.scroll_up(1),
                    Key::PageDown => self.scroll_down(visible_rows),
                    Key::PageUp => self.scroll_up(visible_rows),
                    Key::Char('g') => self.goto_first(),
                    Key::Char('G') => self.goto_last(visible_rows),
                    Key::Right => self.scroll_right(),
                    Key::Left => self.scroll_left(),
                    Key::Char('/') => self.enter_search(),
                    Key::Char('e') => self.enter_export(),
                    _ => {},
                }
                Action::Continue
            },
        }
    }
}

// ---------------------------------------------------------------------
// Laws of the state
// ---------------------------------------------------------------------

/// Every key keeps the state's invariant.
pub proof fn law_key_step_keeps_wf(v: AppView, key: Key, visible: nat)
    requires
        v.wf(),
    ensures
        key_step(v, key, visible).0.wf(),
{
}

/// In navigation, the arrow keys move exactly one line or column and the
/// page keys exactly `visible` lines, whatever the page size, never above
/// the first line nor past the last line (or column) of the view; `g` goes
/// to the first line and `G` to where the last `visible` lines show. Only
/// the offset moves; everything else stays as it was, and the viewer goes
/// on.
pub proof fn law_navigation_keys(v: AppView, visible: nat)
    requires
        v.wf(),
        v.input_mode == InputMode::Normal,
    ensures
        key_step(v, Key::Up, visible) == (
            AppView { row_offset: if v.row_offset >= 1 { (v.row_offset - 1) as nat } else { 0 }, ..v },
            Action::Continue,
        ),
        key_step(v, Key::Down, visible) == (
            AppView {
                row_offset: if v.row_offset + 1 < v.mode_total() {
                    v.row_offset + 1
                } else if v.mode_total() == 0 {
                    0
                } else {
                    (v.mode_total() - 1) as nat
                },
                ..v
            },
            Action::Continue,
        ),
        key_step(v, Key::PageUp, visible) == (
            AppView {
                row_offset: if v.row_offset >= visible {
                    (v.row_offset - visible) as nat
                } else {
                    0
                },
                ..v
            },
            Action::Continue,
        ),
        key_step(v, Key::PageDown, visible) == (
            AppView {
                row_offset: if v.row_offset + visible < v.mode_total() {
                    v.row_offset + visible
                } else if v.mode_total() == 0 {
                    0
                } else {
                    (v.mode_total() - 1) as nat
                },
                ..v
            },
            Action::Continue,
        ),
        key_step(v, Key::Char('g'), visible) == (AppView { row_offset: 0, ..v }, Action::Continue),
        key_step(v, Key::Char('G'), visible) == (
            AppView {
                row_offset: if v.mode_total() >= visible {
                    (v.mode_total() - visible) as nat
                } else {
                    0
                },
                ..v
            },
            Action::Continue,
        ),
        key_step(v, Key::Right, visible) == (
            AppView {
                col_offset: if v.col_offset + 1 < v.field_total() {
                    v.col_offset + 1
                } else {
                    v.col_offset
                },
                ..v
            },
            Action::Continue,
        ),
        key_step(v, Key::Left, visible) == (
            AppView {
                col_offset: if v.col_offset >= 1 { (v.col_offset - 1) as nat } else { 0 },
                ..v
            },
            Action::Continue,
        ),
{
    assert(key_step(v, Key::Up, visible).0 =~= AppView {
        row_offset: if v.row_offset >= 1 { (v.row_offset - 1) as nat } else { 0 },
        ..v
    });
    assert(key_step(v, Key::Char('g'), visible).0 =~= AppView { row_offset: 0, ..v });
    assert(key_step(v, Key::Right, visible).0 =~= AppView {
        col_offset: if v.col_offset + 1 < v.field_total() {
            v.col_offset + 1
        } else {
            v.col_offset
        },
        ..v
    });
    assert(key_step(v, Key::Left, visible).0 =~= AppView {
        col_offset: if v.col_offset >= 1 { (v.col_offset - 1) as nat } else { 0 },
        ..v
    });
}

/// Selecting the previous export format undoes selecting the next one, and
/// the other way round.
pub proof fn law_export_next_prev_inverse(v: AppView)
    requires
        v.wf(),
    ensures
        v.export_advanced().export_retreated() == v,
        v.export_retreated().export_advanced() == v,
{
    assert(all_formats().len() == 3);
    assert(v.export_advanced().export_retreated() =~= v);
    assert(v.export_retreated().export_advanced() =~= v);
}

/// Three steps to the next export format come back to the same format.
pub proof fn law_export_next_cycles(v: AppView)
    requires
        v.wf(),
    ensures
        v.export_advanced().export_advanced().export_advanced() == v,
{
    assert(all_formats().len() == 3);
    assert(v.export_advanced().export_advanced().export_advanced() =~= v);
}

/// Switching views twice comes back to the same view, at the top left.
pub proof fn law_toggle_twice(v: AppView)
    ensures
        v.toggled().toggled() == (AppView { row_offset: 0, col_offset: 0, ..v }),
{
    assert(v.toggled().toggled() =~= (AppView { row_offset: 0, col_offset: 0, ..v }));
}

/// Deleting a character just typed into the search text restores the state.
pub proof fn law_search_push_pop(v: AppView, c: char)
    ensures
        v.search_pushed(c).search_popped() == v,
{
    assert(v.search_pushed(c).search_popped() =~= v);
}

/// Editing the search text changes nothing but the search text.
proof fn lemma_search_edited_only_search(v: AppView, edits: Seq<Option<char>>)
    ensures
        v.search_edited(edits) == (AppView { search: v.search_edited(edits).search, ..v }),
    decreases edits.len(),
{
    if edits.len() > 0 {
        lemma_search_edited_only_search(v, edits.drop_last());
        let w = v.search_edited(edits.drop_last());
        match edits.last() {
            Some(c) => assert(w.search_pushed(c) =~= (AppView { search: w.search.push(c), ..v })),
            None => assert(w.search_popped() =~= (AppView {
                search: w.search_popped().search,
                ..v
            })),
        }
    }
}

/// Cancelling a search after any sequence of edits drops the edits: the
/// state is as before the search began, with the search text equal to the
/// active filter and keys back to navigation. From a state where keys
/// navigate and the search text is the filter (as after every search), the
/// state is exactly the one before.
pub proof fn law_cancel_search_restores(v: AppView, edits: Seq<Option<char>>)
    ensures
        v.search_entered().search_edited(edits).search_cancelled() == (AppView {
            input_mode: InputMode::Normal,
            search: v.filter,
            ..v
        }),
        v.input_mode == InputMode::Normal && v.search == v.filter ==> v.search_entered().search_edited(
            edits,
        ).search_cancelled() == v,
{
    lemma_search_edited_only_search(v.search_entered(), edits);
    assert(v.search_entered().search_edited(edits).search_cancelled() =~= (AppView {
        input_mode: InputMode::Normal,
        search: v.filter,
        ..v
    }));
}

/// Applying the same search again changes nothing.
pub proof fn law_apply_search_idempotent(v: AppView)
    ensures
        v.search_applied().search_applied() == v.search_applied(),
{
    assert(v.search_applied().search_applied() =~= v.search_applied());
}

/// After clearing the filter every row is shown.
pub proof fn law_clear_filter_shows_all(v: AppView)
    requires
        v.wf(),
    ensures
        v.filter_cleared().filtered == all_rows_of(v.batches),
        v.filter_cleared().wf(),
{
}

/// A non-empty filter keeps exactly the rows with a cell whose lower-cased
/// display text contains the lower-cased filter.
pub proof fn law_filter_exact(v: AppView)
    requires
        v.wf(),
        v.filter.len() > 0,
    ensures
        forall|k: int|
            0 <= k < v.filtered.len() ==> row_matches(
                v.batches[(#[trigger] v.filtered[k]).0 as int],
                v.filtered[k].1 as int,
                lowercase(v.filter),
            ),
        forall|k: int|
            0 <= k < v.all_rows.len() && row_matches(
                v.batches[(#[trigger] v.all_rows[k]).0 as int],
                v.all_rows[k].1 as int,
                lowercase(v.filter),
            ) ==> v.filtered.contains(v.all_rows[k]),
{
    broadcast use vstd::seq_lib::group_filter_ensures;

    let pred = row_pred(v.batches, lowercase(v.filter));
    assert forall|k: int| 0 <= k < v.filtered.len() implies row_matches(
        v.batches[(#[trigger] v.filtered[k]).0 as int],
        v.filtered[k].1 as int,
        lowercase(v.filter),
    ) by {
        assert(pred(v.all_rows.filter(pred)[k]));
    }
    assert forall|k: int|
        0 <= k < v.all_rows.len() && row_matches(
            v.batches[(#[trigger] v.all_rows[k]).0 as int],
            v.all_rows[k].1 as int,
            lowercase(v.filter),
        ) implies v.filtered.contains(v.all_rows[k]) by {
        assert(pred(v.all_rows[k]));
        v.all_rows.lemma_filter_contains(pred, k);
    }
}

/// Filtering twice by predicates where the second implies the first is
/// filtering by the second.
proof fn lemma_filter_twice<A>(s: Seq<A>, p1: spec_fn(A) -> bool, p2: spec_fn(A) -> bool)
    requires
        forall|x: A| #[trigger] p2(x) ==> p1(x),
    ensures
        s.filter(p1).filter(p2) == s.filter(p2),
    decreases s.len(),
{
    reveal(Seq::filter);
    if s.len() > 0 {
        let pre = s.drop_last();
        let x = s.last();
        lemma_filter_twice(pre, p1, p2);
        if p1(x) {
            let a = pre.filter(p1);
            assert(a.push(x).drop_last() == a);
            assert(a.push(x).last() == x);
        }
    }
}

/// A text that holds `b` holds everything that `b` holds.
pub proof fn lemma_occurs_in_trans(a: Seq<char>, b: Seq<char>, c: Seq<char>)
    requires
        occurs_in(a, b),
        occurs_in(b, c),
    ensures
        occurs_in(a, c),
{
    let i = choose|i: int|
        0 <= i && i + b.len() <= a.len() && #[trigger] a.subrange(i, i + b.len()) == b;
    let j = choose|j: int|
        0 <= j && j + c.len() <= b.len() && #[trigger] b.subrange(j, j + c.len()) == c;
    assert forall|k: int| 0 <= k < c.len() implies a.subrange(i + j, i + j + c.len())[k] == c[k] by {
        assert(a.subrange(i, i + b.len())[j + k] == a[i + j + k]);
        assert(b.subrange(j, j + c.len())[k] == b[j + k]);
    }
    assert(a.subrange(i + j, i + j + c.len()) =~= c);
}

/// A filter whose lower-cased text holds that of another keeps a subset of
/// the rows the other keeps, in the same order: exactly those of them that
/// it matches (and when it is empty, so is the other, and both keep every
/// row). So typing more never brings rows back.
pub proof fn law_longer_filter_keeps_fewer(
    bs: Seq<Batch>,
    all: Seq<(usize, usize)>,
    f1: Seq<char>,
    f2: Seq<char>,
)
    requires
        occurs_in(lowercase(f2), lowercase(f1)),
    ensures
        filter_rows(bs, all, f2) == (if f2.len() == 0 {
            filter_rows(bs, all, f1)
        } else {
            filter_rows(bs, all, f1).filter(row_pred(bs, lowercase(f2)))
        }),
        filter_rows(bs, all, f2).len() <= filter_rows(bs, all, f1).len(),
{
    broadcast use vstd::seq_lib::group_filter_ensures;

    lemma_lowercase_empty(f1);
    lemma_lowercase_empty(f2);
    if f2.len() == 0 {
        assert(lowercase(f1).len() == 0);
    } else if f1.len() > 0 {
        let n1 = lowercase(f1);
        let n2 = lowercase(f2);
        let p1 = row_pred(bs, n1);
        let p2 = row_pred(bs, n2);
        assert forall|x: (usize, usize)| #[trigger] p2(x) implies p1(x) by {
            let b = bs[x.0 as int];
            let r = x.1 as int;
            let c = choose|c: int| 0 <= c < column_count(b) && #[trigger] cell_matches(b, c, r, n2);
            if let Some(t) = cell_at(b, c, r).1 {
                lemma_occurs_in_trans(lowercase(t), n2, n1);
            }
            assert(cell_matches(b, c, r, n1));
        }
        lemma_filter_twice(all, p1, p2);
    }
}

/// Filters that are the same text up to case keep the same rows.
pub proof fn law_filter_ignores_case(
    bs: Seq<Batch>,
    all: Seq<(usize, usize)>,
    f1: Seq<char>,
    f2: Seq<char>,
)
    requires
        lowercase(f1) == lowercase(f2),
    ensures
        filter_rows(bs, all, f1) == filter_rows(bs, all, f2),
{
    lemma_lowercase_empty(f1);
    lemma_lowercase_empty(f2);
}

/// For a non-empty filter the rows kept are, in their order, exactly those
/// with a cell, in any column from the first to the last, whose display
/// text, lower-cased, contains the lower-cased filter: where in the row the
/// matching cell stands does not matter.
pub proof fn law_search_matches_any_column(
    bs: Seq<Batch>,
    all: Seq<(usize, usize)>,
    f: Seq<char>,
)
    requires
        f.len() > 0,
    ensures
        filter_rows(bs, all, f) == all.filter(
            (|p: (usize, usize)|
                exists|c: int|
                    0 <= c < column_count(bs[p.0 as int]) && match #[trigger] cell_at(
                        bs[p.0 as int],
                        c,
                        p.1 as int,
                    ).1 {
                        Some(t) => occurs_in(lowercase(t), lowercase(f)),
                        None => false,
                    }),
        ),
        forall|p: (usize, usize), c: int, t: Seq<char>|
            all.contains(p) && 0 <= c < column_count(bs[p.0 as int]) && #[trigger] cell_at(
                bs[p.0 as int],
                c,
                p.1 as int,
            ).1 == Some(t) && #[trigger] occurs_in(lowercase(t), lowercase(f)) ==> filter_rows(
                bs,
                all,
                f,
            ).contains(p),
{
    broadcast use vstd::seq_lib::group_filter_ensures;

    let spelled = |p: (usize, usize)|
        exists|c: int|
            0 <= c < column_count(bs[p.0 as int]) && match #[trigger] cell_at(
                bs[p.0 as int],
                c,
                p.1 as int,
            ).1 {
                Some(t) => occurs_in(lowercase(t), lowercase(f)),
                None => false,
            };
    let pred = row_pred(bs, lowercase(f));
    assert forall|p: (usize, usize)| #[trigger] pred(p) == spelled(p) by {
        if pred(p) {
            let c = choose|c: int|
                0 <= c < column_count(bs[p.0 as int]) && #[trigger] cell_matches(
                    bs[p.0 as int],
                    c,
                    p.1 as int,
                    lowercase(f),
                );
            assert(cell_matches(bs[p.0 as int], c, p.1 as int, lowercase(f)));
        }
        if spelled(p) {
            let c = choose|c: int|
                0 <= c < column_count(bs[p.0 as int]) && match #[trigger] cell_at(
                    bs[p.0 as int],
                    c,
                    p.1 as int,
                ).1 {
                    Some(t) => occurs_in(lowercase(t), lowercase(f)),
                    None => false,
                };
            assert(cell_matches(bs[p.0 as int], c, p.1 as int, lowercase(f)));
        }
    }
    assert(pred =~= spelled);
    assert forall|p: (usize, usize), c: int, t: Seq<char>|
        all.contains(p) && 0 <= c < column_count(bs[p.0 as int]) && #[trigger] cell_at(
            bs[p.0 as int],
            c,
            p.1 as int,
        ).1 == Some(t) && #[trigger] occurs_in(lowercase(t), lowercase(f)) implies filter_rows(
        bs,
        all,
        f,
    ).contains(p) by {
        assert(cell_matches(bs[p.0 as int], c, p.1 as int, lowercase(f)));
        assert(pred(p));
    }
}

/// Applying an empty search shows every row.
pub proof fn law_empty_search_shows_all(v: AppView)
    requires
        v.wf(),
        v.search.len() == 0,
    ensures
        v.search_applied().filtered == v.all_rows,
{
}

/// The rows that the data view shows from line `offset`, `count` of them,
/// are the filtered rows from there on, cut after `count`; from any line up
/// to the end they are all the filtered rows from that line, and from the
/// top to the end they are all of them.
pub proof fn law_data_rows_window(v: AppView, offset: nat, count: nat)
    ensures
        v.filtered_rows_text().subrange(
            window_start(offset, v.filtered.len()) as int,
            window_end(offset, count, v.filtered.len()) as int,
        ) == v.filtered_rows_text().skip(window_start(offset, v.filtered.len()) as int).take(
            (window_end(offset, count, v.filtered.len()) - window_start(
                offset,
                v.filtered.len(),
            )) as int,
        ),
        offset <= v.filtered.len() ==> v.filtered_rows_text().subrange(
            window_start(offset, v.filtered.len()) as int,
            window_end(offset, (v.filtered.len() - offset) as nat, v.filtered.len()) as int,
        ) == v.filtered_rows_text().skip(offset as int),
        v.filtered_rows_text().subrange(
            window_start(0, v.filtered.len()) as int,
            window_end(0, v.filtered.len(), v.filtered.len()) as int,
        ) == v.filtered_rows_text(),
{
    let t = v.filtered_rows_text();
    let lo = window_start(offset, v.filtered.len());
    let hi = window_end(offset, count, v.filtered.len());
    assert(t.subrange(lo as int, hi as int) =~= t.skip(lo as int).take((hi - lo) as int));
    if offset <= v.filtered.len() {
        assert(t.subrange(offset as int, v.filtered.len() as int) =~= t.skip(offset as int));
    }
    assert(t.subrange(0, v.filtered.len() as int) =~= t);
}

} // verus!
