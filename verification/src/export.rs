//! Export of a table of strings as JSON, JSON Lines or CSV text.
//!
//! The writers append the whole document to a `String`; where it goes (a
//! file, standard output) is the caller's business.

use vstd::prelude::*;
use vstd::string::StringExecFns;

use crate::text::{chars_eq, chars_of, join, opt_text, push_char, string_of};
use std::path::Path;

verus! {

/// The three export formats.
#[derive(Clone, Copy, PartialEq, Eq, Structural, Debug)]
pub enum ExportFormat {
    Json,
    Jsonl,
    Csv,
}

/// The file extension of a format.
pub open spec fn format_ext(f: ExportFormat) -> Seq<char> {
    match f {
        ExportFormat::Json => "json"@,
        ExportFormat::Jsonl => "jsonl"@,
        ExportFormat::Csv => "csv"@,
    }
}

/// The formats in the order in which they are offered.
pub open spec fn all_formats() -> Seq<ExportFormat> {
    seq![ExportFormat::Json, ExportFormat::Jsonl, ExportFormat::Csv]
}

impl ExportFormat {
    /// The number of formats.
    pub fn count() -> (r: usize)
        ensures
            r == all_formats().len(),
    {
        3
    }

    /// The formats in the order in which they are offered: JSON, JSON Lines, CSV.
    pub fn all() -> (r: Vec<ExportFormat>)
        ensures
            r@ == all_formats(),
    {
        let r = vec![ExportFormat::Json, ExportFormat::Jsonl, ExportFormat::Csv];
        assert(r@ == all_formats());
        r
    }

    /// The format at position `i` of [`ExportFormat::all`].
    pub fn at(i: usize) -> (r: ExportFormat)
        requires
            i < all_formats().len(),
        ensures
            r == all_formats()[i as int],
    {
        if i == 0 {
            ExportFormat::Json
        } else if i == 1 {
            ExportFormat::Jsonl
        } else {
            ExportFormat::Csv
        }
    }

    /// The file extension of the format: "json", "jsonl" or "csv".
    pub fn ext(self) -> (r: &'static str)
        ensures
            r@ == format_ext(self),
    {
        match self {
            ExportFormat::Json => "json",
            ExportFormat::Jsonl => "jsonl",
            ExportFormat::Csv => "csv",
        }
    }
}

/// A table to export: the column names and the rows of cell texts.
pub struct ExportData<'a> {
    pub columns: &'a [String],
    pub rows: Vec<Vec<String>>,
}

/// The texts of a sequence of strings.
pub open spec fn texts(s: Seq<String>) -> Seq<Seq<char>> {
    s.map_values(|x: String| x@)
}

/// The texts of a sequence of rows of strings.
pub open spec fn row_texts(rows: Seq<Vec<String>>) -> Seq<Seq<Seq<char>>> {
    rows.map_values(|r: Vec<String>| texts(r@))
}

/// Pushing a string pushes its text.
pub proof fn lemma_texts_push(s: Seq<String>, x: String)
    ensures
        texts(s.push(x)) == texts(s).push(x@),
{
    assert(texts(s.push(x)) =~= texts(s).push(x@));
}

/// Pushing a row pushes its texts.
pub proof fn lemma_row_texts_push(rows: Seq<Vec<String>>, row: Vec<String>)
    ensures
        row_texts(rows.push(row)) == row_texts(rows).push(texts(row@)),
{
    assert(row_texts(rows.push(row)) =~= row_texts(rows).push(texts(row@)));
}

impl<'a> ExportData<'a> {
    /// The column names as texts.
    pub open spec fn column_texts(&self) -> Seq<Seq<char>> {
        texts(self.columns@)
    }

    /// The rows as texts.
    pub open spec fn rows_texts(&self) -> Seq<Seq<Seq<char>>> {
        row_texts(self.rows@)
    }
}

// ---------------------------------------------------------------------
// JSON strings and values
// ---------------------------------------------------------------------

/// The hexadecimal digit `d` (below 16), in lower case.
pub open spec fn hex_digit(d: nat) -> char {
    if d < 10 {
        ((d + 48) as u8) as char
    } else {
        ((d + 87) as u8) as char
    }
}

/// A control character: below U+0020.
pub open spec fn is_control(c: char) -> bool {
    (c as u32) < 32
}

/// One character as it stands inside a JSON string literal: a double quote
/// and a backslash after a backslash; backspace, form feed, newline,
/// carriage return and tab as `\b`, `\f`, `\n`, `\r`, `\t`; the other
/// control characters as `\u00XX`; anything else as itself.
pub open spec fn json_escape_char(c: char) -> Seq<char> {
    if c == '"' {
        seq!['\\', '"']
    } else if c == '\\' {
        seq!['\\', '\\']
    } else if c == '\x08' {
        seq!['\\', 'b']
    } else if c == '\x0c' {
        seq!['\\', 'f']
    } else if c == '\n' {
        seq!['\\', 'n']
    } else if c == '\r' {
        seq!['\\', 'r']
    } else if c == '\t' {
        seq!['\\', 't']
    } else if is_control(c) {
        seq![
            '\\',
            'u',
            '0',
            '0',
            hex_digit(((c as u32) / 16) as nat),
            hex_digit(((c as u32) % 16) as nat),
        ]
    } else {
        seq![c]
    }
}

/// A string's characters, each as it stands inside a JSON string literal.
pub open spec fn json_escaped(s: Seq<char>) -> Seq<char>
    decreases s.len(),
{
    if s.len() == 0 {
        Seq::empty()
    } else {
        json_escaped(s.drop_last()) + json_escape_char(s.last())
    }
}

/// A string as a JSON string literal: in double quotes, with double
/// quotes, backslashes and control characters escaped.
pub open spec fn json_string_text(s: Seq<char>) -> Seq<char> {
    seq!['"'] + json_escaped(s) + seq!['"']
}

pub open spec fn is_digit(c: char) -> bool {
    48 <= (c as u32) <= 57
}

pub open spec fn is_sign(c: char) -> bool {
    c == '+' || c == '-'
}

/// `s` without one leading sign character, if it has one.
pub open spec fn without_sign(s: Seq<char>) -> Seq<char> {
    if s.len() > 0 && is_sign(s[0]) {
        s.skip(1)
    } else {
        s
    }
}

pub open spec fn digits_only(s: Seq<char>) -> bool {
    forall|i: int| 0 <= i < s.len() ==> is_digit(#[trigger] s[i])
}

/// The integer part of a JSON number: `0`, or a digit other than `0`
/// followed by digits.
pub open spec fn is_json_int(t: Seq<char>) -> bool {
    &&& t.len() > 0
    &&& digits_only(t)
    &&& (t[0] == '0' ==> t.len() == 1)
}

/// The optional fraction of a JSON number: nothing, or `.` and one or more
/// digits.
pub open spec fn is_json_frac(t: Seq<char>) -> bool {
    t.len() == 0 || (t[0] == '.' && t.len() >= 2 && digits_only(t.skip(1)))
}

/// The optional exponent of a JSON number: nothing, or `e` / `E`, an
/// optional sign and one or more digits.
pub open spec fn is_json_exp(t: Seq<char>) -> bool {
    let u = without_sign(t.skip(1));
    t.len() == 0 || ((t[0] == 'e' || t[0] == 'E') && u.len() > 0 && digits_only(u))
}

/// `s` without one leading minus sign, if it has one.
pub open spec fn without_minus(s: Seq<char>) -> Seq<char> {
    if s.len() > 0 && s[0] == '-' {
        s.skip(1)
    } else {
        s
    }
}

/// A number in JSON syntax (RFC 8259):
/// `-? (0 | [1-9][0-9]*) (.[0-9]+)? ([eE][+-]?[0-9]+)?`.
pub open spec fn is_json_number(s: Seq<char>) -> bool {
    let t = without_minus(s);
    exists|i: int, j: int|
        0 <= i <= j <= t.len() && #[trigger] is_json_int(t.take(i)) && is_json_frac(
            t.subrange(i, j),
        ) && #[trigger] is_json_exp(t.skip(j))
}

/// A cell as a JSON value: `null`, `true`, `false` and numbers in JSON
/// syntax as they stand, anything else as a JSON string.
pub open spec fn json_value_text(s: Seq<char>) -> Seq<char> {
    if s == "null"@ || s == "true"@ || s == "false"@ || is_json_number(s) {
        s
    } else {
        json_string_text(s)
    }
}

/// The hexadecimal digit `d` (below 16), in lower case.
fn hex_char(d: u32) -> (r: char)
    requires
        d < 16,
    ensures
        r == hex_digit(d as nat),
{
    if d < 10 {
        ((d as u8) + 48) as char
    } else {
        ((d as u8) + 87) as char
    }
}

/// Appends `s` as a JSON string literal.
fn push_json_string(out: &mut String, s: &str)
    ensures
        final(out)@ == old(out)@ + json_string_text(s@),
{
    let cs = chars_of(s);
    let ghost start = out@;
    push_char(out, '"');
    let mut i: usize = 0;
    while i < cs.len()
        invariant
            i <= cs.len(),
            out@ == start + seq!['"'] + json_escaped(cs@.take(i as int)),
        decreases cs.len() - i,
    {
        let c = cs[i];
        let ghost before = out@;
        if c == '"' {
            push_char(out, '\\');
            push_char(out, '"');
        } else if c == '\\' {
            push_char(out, '\\');
            push_char(out, '\\');
        } else if c == '\x08' {
            push_char(out, '\\');
            push_char(out, 'b');
        } else if c == '\x0c' {
            push_char(out, '\\');
            push_char(out, 'f');
        } else if c == '\n' {
            push_char(out, '\\');
            push_char(out, 'n');
        } else if c == '\r' {
            push_char(out, '\\');
            push_char(out, 'r');
        } else if c == '\t' {
            push_char(out, '\\');
            push_char(out, 't');
        } else if (c as u32) < 32 {
            let v = c as u32;
            push_char(out, '\\');
            push_char(out, 'u');
            push_char(out, '0');
            push_char(out, '0');
            push_char(out, hex_char(v / 16));
            push_char(out, hex_char(v % 16));
        } else {
            push_char(out, c);
        }
        assert(out@ == before + json_escape_char(c));
        assert(cs@.take(i + 1).drop_last() == cs@.take(i as int));
        i = i + 1;
    }
    assert(cs@.take(i as int) == cs@);
    push_char(out, '"');
}

/// `s` as a JSON string literal: in double quotes, with double quotes and
/// backslashes escaped by a backslash, and control characters escaped as
/// `\b`, `\f`, `\n`, `\r`, `\t` or `\u00XX`.
pub fn json_string(s: &str) -> (r: String)
    ensures
        r@ == json_string_text(s@),
{
    let mut r = String::new();
    push_json_string(&mut r, s);
    r
}

fn is_digit_char(c: char) -> (r: bool)
    ensures
        r == is_digit(c),
{
    48 <= (c as u32) && (c as u32) <= 57
}

/// The end of the run of digits that starts at `from`.
fn digit_run_end(cs: &Vec<char>, from: usize) -> (k: usize)
    requires
        from <= cs.len(),
    ensures
        from <= k <= cs.len(),
        forall|i: int| from <= i < k ==> is_digit(#[trigger] cs@[i]),
        k < cs.len() ==> !is_digit(cs@[k as int]),
{
    let mut k: usize = from;
    while k < cs.len()
        invariant
            from <= k <= cs.len(),
            forall|i: int| from <= i < k ==> is_digit(#[trigger] cs@[i]),
        decreases cs.len() - k,
    {
        if !is_digit_char(cs[k]) {
            return k;
        }
        k = k + 1;
    }
    k
}

/// Whether `cs[from..]` is the exponent of a JSON number.
fn json_exp_at(cs: &Vec<char>, from: usize) -> (r: bool)
    requires
        from <= cs.len(),
    ensures
        r == is_json_exp(cs@.skip(from as int)),
{
    let ghost e = cs@.skip(from as int);
    if from == cs.len() {
        return true;
    }
    if !(cs[from] == 'e' || cs[from] == 'E') {
        return false;
    }
    let mut j: usize = from + 1;
    if j < cs.len() && (cs[j] == '+' || cs[j] == '-') {
        j = j + 1;
    }
    assert(without_sign(e.skip(1)) == cs@.skip(j as int));
    if j == cs.len() {
        return false;
    }
    let k = digit_run_end(cs, j);
    if k < cs.len() {
        assert(!is_digit(cs@.skip(j as int)[k - j]));
        return false;
    }
    assert(digits_only(cs@.skip(j as int)));
    true
}

/// The split of a JSON number into integer part, fraction and exponent is
/// the one that takes the longest runs of digits.
proof fn lemma_json_number_split(t: Seq<char>, i: int, j: int)
    requires
        0 <= i <= j <= t.len(),
        forall|k: int| 0 <= k < i ==> is_digit(#[trigger] t[k]),
        i < t.len() ==> !is_digit(t[i]),
        i < t.len() && t[i] == '.' ==> i < j && forall|k: int|
            i < k < j ==> is_digit(#[trigger] t[k]),
        i < t.len() && t[i] == '.' && j < t.len() ==> !is_digit(t[j]),
        !(i < t.len() && t[i] == '.') ==> j == i,
    ensures
        (exists|a: int, b: int|
            0 <= a <= b <= t.len() && #[trigger] is_json_int(t.take(a)) && is_json_frac(
                t.subrange(a, b),
            ) && #[trigger] is_json_exp(t.skip(b))) == (is_json_int(t.take(i)) && is_json_frac(
            t.subrange(i, j),
        ) && is_json_exp(t.skip(j))),
{
    if exists|a: int, b: int|
        0 <= a <= b <= t.len() && #[trigger] is_json_int(t.take(a)) && is_json_frac(
            t.subrange(a, b),
        ) && #[trigger] is_json_exp(t.skip(b)) {
        let (a, b) = choose|a: int, b: int|
            0 <= a <= b <= t.len() && #[trigger] is_json_int(t.take(a)) && is_json_frac(
                t.subrange(a, b),
            ) && #[trigger] is_json_exp(t.skip(b));
        if a > i {
            assert(is_digit(t.take(a)[i]));
        }
        if a < i {
            assert(is_digit(t[a]));
            if b > a {
                assert(t.subrange(a, b)[0] == t[a]);
            } else {
                assert(t.skip(b)[0] == t[a]);
            }
        }
        assert(a == i);
        if i < t.len() && t[i] == '.' {
            if b == i {
                assert(t.skip(b)[0] == t[i]);
            }
            if b < j {
                assert(is_digit(t[b]));
                assert(t.skip(b)[0] == t[b]);
            }
            if b > j {
                assert(t.subrange(a, b).skip(1)[j - a - 1] == t[j]);
            }
            assert(b == j);
        } else {
            if b > a {
                assert(t.subrange(a, b)[0] == t[a]);
            }
            assert(b == j);
        }
    }
}

/// Whether `cs` is a number in JSON syntax.
fn is_json_number_chars(cs: &Vec<char>) -> (r: bool)
    ensures
        r == is_json_number(cs@),
{
    let start: usize = if cs.len() > 0 && cs[0] == '-' {
        1
    } else {
        0
    };
    let ghost t = without_minus(cs@);
    assert(t == cs@.skip(start as int));
    let i = digit_run_end(cs, start);
    let j: usize = if i < cs.len() && cs[i] == '.' {
        digit_run_end(cs, i + 1)
    } else {
        i
    };
    proof {
        let ti = (i - start) as int;
        let tj = (j - start) as int;
        assert forall|k: int| 0 <= k < ti implies is_digit(#[trigger] t[k]) by {
            assert(t[k] == cs@[k + start]);
        }
        if ti < t.len() {
            assert(t[ti] == cs@[i as int]);
        }
        if ti < t.len() && t[ti] == '.' {
            assert forall|k: int| ti < k < tj implies is_digit(#[trigger] t[k]) by {
                assert(t[k] == cs@[k + start]);
            }
            if tj < t.len() {
                assert(t[tj] == cs@[j as int]);
            }
        }
        lemma_json_number_split(t, ti, tj);
        assert(t.take(ti) == cs@.subrange(start as int, i as int));
        assert(t.subrange(ti, tj) == cs@.subrange(i as int, j as int));
        assert(t.skip(tj) == cs@.skip(j as int));
    }
    // integer part
    if i == start {
        return false;
    }
    assert(is_digit(cs@[start as int]));
    if cs[start] == '0' && i - start != 1 {
        assert(cs@.subrange(start as int, i as int)[0] == '0');
        return false;
    }
    assert(digits_only(cs@.subrange(start as int, i as int)));
    // fraction
    if j != i {
        if j == i + 1 {
            return false;
        }
        assert(digits_only(cs@.subrange(i as int, j as int).skip(1)));
    }
    json_exp_at(cs, j)
}

/// `s` as a JSON value: `null`, `true`, `false` and numbers in JSON syntax
/// are written as they stand; anything else as a JSON string.
pub fn json_value(s: &str) -> (r: String)
    ensures
        r@ == json_value_text(s@),
{
    let cs = chars_of(s);
    if chars_eq(&cs, &chars_of("null")) || chars_eq(&cs, &chars_of("true")) || chars_eq(
        &cs,
        &chars_of("false"),
    ) || is_json_number_chars(&cs) {
        return string_of(&cs);
    }
    json_string(s)
}

// ---------------------------------------------------------------------
// CSV fields
// ---------------------------------------------------------------------

/// A string's characters with each double quote doubled.
pub open spec fn quotes_doubled(s: Seq<char>) -> Seq<char>
    decreases s.len(),
{
    if s.len() == 0 {
        Seq::empty()
    } else {
        quotes_doubled(s.drop_last()) + (if s.last() == '"' {
            seq!['"', '"']
        } else {
            seq![s.last()]
        })
    }
}

/// A field needs quoting when it holds a comma, a double quote or a newline.
pub open spec fn needs_quotes(s: Seq<char>) -> bool {
    s.contains(',') || s.contains('"') || s.contains('\n')
}

/// A string as a CSV field: as it stands, or, when it holds a comma, a
/// double quote or a newline, in double quotes with its double quotes doubled.
pub open spec fn csv_field_text(s: Seq<char>) -> Seq<char> {
    if needs_quotes(s) {
        seq!['"'] + quotes_doubled(s) + seq!['"']
    } else {
        s
    }
}

/// `s` as a CSV field: as it stands, or, when it holds a comma, a double
/// quote or a newline, in double quotes with its double quotes doubled.
pub fn csv_field(s: &str) -> (r: String)
    ensures
        r@ == csv_field_text(s@),
{
    let cs = chars_of(s);
    let mut special = false;
    let mut i: usize = 0;
    while i < cs.len()
        invariant
            i <= cs.len(),
            special == exists|k: int|
                0 <= k < i && (#[trigger] cs@[k] == ',' || cs@[k] == '"' || cs@[k] == '\n'),
        decreases cs.len() - i,
    {
        let c = cs[i];
        if c == ',' || c == '"' || c == '\n' {
            special = true;
        }
        i = i + 1;
    }
    proof {
        if special {
            let k = choose|k: int|
                0 <= k < i && (#[trigger] cs@[k] == ',' || cs@[k] == '"' || cs@[k] == '\n');
            assert(cs@.contains(cs@[k]));
        } else {
            assert(!cs@.contains(','));
            assert(!cs@.contains('"'));
            assert(!cs@.contains('\n'));
        }
    }
    if !special {
        return string_of(&cs);
    }
    let mut r = String::new();
    push_char(&mut r, '"');
    let mut i: usize = 0;
    while i < cs.len()
        invariant
            i <= cs.len(),
            r@ == seq!['"'] + quotes_doubled(cs@.take(i as int)),
        decreases cs.len() - i,
    {
        let c = cs[i];
        if c == '"' {
            push_char(&mut r, '"');
            push_char(&mut r, '"');
        } else {
            push_char(&mut r, c);
        }
        assert(cs@.take(i + 1).drop_last() == cs@.take(i as int));
        i = i + 1;
    }
    assert(cs@.take(i as int) == cs@);
    push_char(&mut r, '"');
    r
}


// ---------------------------------------------------------------------
// Laws of the cell encodings
// ---------------------------------------------------------------------

/// The escapes `\X` of a JSON string other than `\u`.
pub open spec fn is_simple_escape(e: char) -> bool {
    e == '"' || e == '\\' || e == '/' || e == 'b' || e == 'f' || e == 'n' || e == 'r' || e == 't'
}

/// The character that a simple escape `\X` stands for.
pub open spec fn simple_unescape(e: char) -> char {
    if e == 'b' {
        '\x08'
    } else if e == 'f' {
        '\x0c'
    } else if e == 'n' {
        '\n'
    } else if e == 'r' {
        '\r'
    } else if e == 't' {
        '\t'
    } else {
        e
    }
}

pub open spec fn is_hex(c: char) -> bool {
    is_digit(c) || (97 <= (c as u32) <= 102) || (65 <= (c as u32) <= 70)
}

/// The value of a hexadecimal digit.
pub open spec fn hex_value(c: char) -> int {
    if is_digit(c) {
        (c as u32) - 48
    } else if 97 <= (c as u32) <= 102 {
        (c as u32) - 87
    } else {
        (c as u32) - 55
    }
}

/// The character that `\uXXXX` stands for, from its four hex digits.
pub open spec fn unicode_escape_char(t: Seq<char>) -> char {
    ((hex_value(t[0]) * 4096 + hex_value(t[1]) * 256 + hex_value(t[2]) * 16 + hex_value(
        t[3],
    )) as u32) as char
}

/// The inside of a JSON string literal, as RFC 8259 allows it: no
/// unescaped double quote or control character, and each backslash
/// starting a valid escape.
pub open spec fn json_string_body_ok(t: Seq<char>) -> bool
    decreases t.len(),
{
    if t.len() == 0 {
        true
    } else if t[0] == '"' || is_control(t[0]) {
        false
    } else if t[0] == '\\' {
        if t.len() >= 2 && is_simple_escape(t[1]) {
            json_string_body_ok(t.skip(2))
        } else if t.len() >= 6 && t[1] == 'u' && is_hex(t[2]) && is_hex(t[3]) && is_hex(t[4])
            && is_hex(t[5]) {
            json_string_body_ok(t.skip(6))
        } else {
            false
        }
    } else {
        json_string_body_ok(t.skip(1))
    }
}

/// What a JSON reader makes of the inside of a string literal: each escape
/// replaced by the character it stands for.
pub open spec fn json_unescaped(t: Seq<char>) -> Seq<char>
    decreases t.len(),
{
    if t.len() == 0 {
        Seq::empty()
    } else if t[0] == '\\' && t.len() >= 6 && t[1] == 'u' {
        seq![unicode_escape_char(t.subrange(2, 6))] + json_unescaped(t.skip(6))
    } else if t[0] == '\\' && t.len() >= 2 {
        seq![simple_unescape(t[1])] + json_unescaped(t.skip(2))
    } else {
        seq![t[0]] + json_unescaped(t.skip(1))
    }
}

/// Escaping distributes over concatenation.
proof fn lemma_json_escaped_concat(a: Seq<char>, b: Seq<char>)
    ensures
        json_escaped(a + b) == json_escaped(a) + json_escaped(b),
    decreases b.len(),
{
    if b.len() == 0 {
        assert(a + b == a);
    } else {
        assert((a + b).drop_last() == a + b.drop_last());
        lemma_json_escaped_concat(a, b.drop_last());
    }
}

proof fn lemma_hex_digit(d: nat)
    requires
        d < 16,
    ensures
        is_hex(hex_digit(d)),
        hex_value(hex_digit(d)) == d,
        !is_control(hex_digit(d)),
        hex_digit(d) != '"',
        hex_digit(d) != '\\',
{
}

/// A reader takes back one escaped character, and the escape is allowed.
proof fn lemma_json_escape_char_read(c: char, rest: Seq<char>)
    ensures
        json_unescaped(json_escape_char(c) + rest) == seq![c] + json_unescaped(rest),
        json_string_body_ok(json_escape_char(c) + rest) == json_string_body_ok(rest),
{
    let x = json_escape_char(c) + rest;
    let e = json_escape_char(c);
    if e.len() == 1 {
        assert(x[0] == c);
        assert(x.skip(1) == rest);
    } else if e.len() == 2 {
        assert(x[0] == '\\' && x[1] == e[1]);
        assert(x.skip(2) == rest);
        assert(e[1] != 'u');
    } else {
        let v = c as u32;
        lemma_hex_digit((v / 16) as nat);
        lemma_hex_digit((v % 16) as nat);
        assert(x[0] == '\\' && x[1] == 'u');
        assert(x.subrange(2, 6) == e.subrange(2, 6));
        assert(x.skip(6) == rest);
        assert(x[2] == '0' && x[3] == '0');
        assert(hex_value(x[2]) == 0 && hex_value(x[3]) == 0);
        assert(unicode_escape_char(x.subrange(2, 6)) == c);
    }
}

/// A reader takes back every escaped string, and every escaped string is a
/// well-formed inside of a JSON string literal.
proof fn lemma_json_escaped_read(s: Seq<char>)
    ensures
        json_string_body_ok(json_escaped(s)),
        json_unescaped(json_escaped(s)) == s,
    decreases s.len(),
{
    if s.len() > 0 {
        let c = s[0];
        let rest = s.skip(1);
        assert(s == seq![c] + rest);
        lemma_json_escaped_concat(seq![c], rest);
        assert(seq![c].drop_last() == Seq::<char>::empty());
        assert(json_escaped(Seq::<char>::empty()) == Seq::<char>::empty());
        assert(seq![c].last() == c);
        assert(Seq::<char>::empty() + json_escape_char(c) == json_escape_char(c));
        assert(json_escaped(seq![c]) == json_escape_char(c));
        lemma_json_escaped_read(rest);
        lemma_json_escape_char_read(c, json_escaped(rest));
    }
}

/// A cell written as a JSON string is a valid JSON string literal (RFC
/// 8259), and a JSON reader gets the cell back from it.
pub proof fn law_json_string_roundtrip(s: Seq<char>)
    ensures
        json_string_text(s).len() >= 2,
        json_string_text(s)[0] == '"',
        json_string_text(s).last() == '"',
        json_string_body_ok(json_string_text(s).subrange(1, json_string_text(s).len() - 1)),
        json_unescaped(json_string_text(s).subrange(1, json_string_text(s).len() - 1)) == s,
{
    let lit = json_string_text(s);
    assert(lit.subrange(1, lit.len() - 1) == json_escaped(s));
    lemma_json_escaped_read(s);
}

/// Different cells are written as different JSON strings: `json_string`
/// loses nothing.
pub proof fn law_json_string_injective(a: Seq<char>, b: Seq<char>)
    requires
        json_string_text(a) == json_string_text(b),
    ensures
        a == b,
{
    law_json_string_roundtrip(a);
    law_json_string_roundtrip(b);
}

/// The doubled form of a non-empty string ends with the string's last
/// character, and is made of the doubled form of the rest and that
/// character, doubled if it is a quote.
proof fn lemma_quotes_doubled_last(s: Seq<char>)
    requires
        s.len() > 0,
    ensures
        quotes_doubled(s).len() > 0,
        quotes_doubled(s).last() == s.last(),
        quotes_doubled(s.drop_last()) == quotes_doubled(s).subrange(
            0,
            quotes_doubled(s).len() - (if s.last() == '"' {
                2int
            } else {
                1int
            }),
        ),
{
    let e = quotes_doubled(s);
    let pre = quotes_doubled(s.drop_last());
    assert(pre == e.subrange(0, pre.len() as int));
}

/// Two strings with the same doubled form are the same string.
proof fn lemma_quotes_doubled_injective(a: Seq<char>, b: Seq<char>)
    requires
        quotes_doubled(a) == quotes_doubled(b),
    ensures
        a == b,
    decreases a.len(),
{
    if a.len() == 0 {
        if b.len() > 0 {
            lemma_quotes_doubled_last(b);
        }
        assert(b.len() == 0);
    } else {
        if b.len() == 0 {
            lemma_quotes_doubled_last(a);
        }
        lemma_quotes_doubled_last(a);
        lemma_quotes_doubled_last(b);
        lemma_quotes_doubled_injective(a.drop_last(), b.drop_last());
        assert(a == a.drop_last().push(a.last()));
        assert(b == b.drop_last().push(b.last()));
    }
}

/// The inside of a quoted CSV field as RFC 4180 allows it: every double
/// quote doubled.
pub open spec fn csv_quoted_body_ok(t: Seq<char>) -> bool
    decreases t.len(),
{
    if t.len() == 0 {
        true
    } else if t[0] == '"' {
        t.len() >= 2 && t[1] == '"' && csv_quoted_body_ok(t.skip(2))
    } else {
        csv_quoted_body_ok(t.skip(1))
    }
}

/// What an RFC 4180 reader makes of the inside of a quoted field: each
/// doubled double quote read as one.
pub open spec fn csv_unquoted(t: Seq<char>) -> Seq<char>
    decreases t.len(),
{
    if t.len() == 0 {
        Seq::empty()
    } else if t[0] == '"' && t.len() >= 2 {
        seq!['"'] + csv_unquoted(t.skip(2))
    } else {
        seq![t[0]] + csv_unquoted(t.skip(1))
    }
}

/// One CSV field as an RFC 4180 reader reads it: a quoted field as its
/// inside with doubled quotes undone; an unquoted field, which holds no
/// comma, double quote, line feed or carriage return, as it stands;
/// anything else is no field (`None`).
pub open spec fn csv_read_field(f: Seq<char>) -> Option<Seq<char>> {
    if f.len() >= 2 && f[0] == '"' && f.last() == '"' && csv_quoted_body_ok(
        f.subrange(1, f.len() - 1),
    ) {
        Some(csv_unquoted(f.subrange(1, f.len() - 1)))
    } else if !f.contains(',') && !f.contains('"') && !f.contains('\n') && !f.contains('\r') {
        Some(f)
    } else {
        None
    }
}

/// Doubling quotes distributes over concatenation.
proof fn lemma_quotes_doubled_concat(a: Seq<char>, b: Seq<char>)
    ensures
        quotes_doubled(a + b) == quotes_doubled(a) + quotes_doubled(b),
    decreases b.len(),
{
    if b.len() == 0 {
        assert(a + b == a);
    } else {
        assert((a + b).drop_last() == a + b.drop_last());
        lemma_quotes_doubled_concat(a, b.drop_last());
    }
}

/// A reader takes back every string with its quotes doubled, and that is a
/// well-formed inside of a quoted field.
proof fn lemma_quotes_doubled_read(s: Seq<char>)
    ensures
        csv_quoted_body_ok(quotes_doubled(s)),
        csv_unquoted(quotes_doubled(s)) == s,
    decreases s.len(),
{
    if s.len() > 0 {
        let c = s[0];
        let rest = s.skip(1);
        assert(s == seq![c] + rest);
        lemma_quotes_doubled_concat(seq![c], rest);
        assert(seq![c].drop_last() == Seq::<char>::empty());
        assert(quotes_doubled(Seq::<char>::empty()) == Seq::<char>::empty());
        assert(seq![c].last() == c);
        let e = if c == '"' {
            seq!['"', '"']
        } else {
            seq![c]
        };
        assert(Seq::<char>::empty() + e == e);
        assert(quotes_doubled(seq![c]) == e);
        lemma_quotes_doubled_read(rest);
        let x = e + quotes_doubled(rest);
        if c == '"' {
            assert(x[0] == '"' && x[1] == '"');
            assert(x.skip(2) == quotes_doubled(rest));
        } else {
            assert(x[0] == c);
            assert(x.skip(1) == quotes_doubled(rest));
        }
    }
}

/// A cell without a carriage return, written as a CSV field, is read back
/// as the same cell by an RFC 4180 reader; a field that holds a comma, a
/// double quote or a line feed is quoted with its inner quotes doubled, so
/// no comma or line feed of it stands outside quotes.
pub proof fn law_csv_field_roundtrip(s: Seq<char>)
    requires
        !s.contains('\r'),
    ensures
        csv_read_field(csv_field_text(s)) == Some(s),
        !needs_quotes(s) ==> csv_field_text(s) == s,
        needs_quotes(s) ==> csv_field_text(s) == seq!['"'] + quotes_doubled(s) + seq!['"']
            && csv_quoted_body_ok(quotes_doubled(s)),
{
    lemma_quotes_doubled_read(s);
    let f = csv_field_text(s);
    if needs_quotes(s) {
        assert(f.subrange(1, f.len() - 1) == quotes_doubled(s));
    } else {
        if f.len() >= 2 && f[0] == '"' {
            assert(s.contains('"'));
        }
    }
}

/// Different cells are written as different CSV fields: `csv_field` loses
/// nothing.
pub proof fn law_csv_field_injective(a: Seq<char>, b: Seq<char>)
    requires
        csv_field_text(a) == csv_field_text(b),
    ensures
        a == b,
{
    let f = csv_field_text(a);
    if needs_quotes(a) && needs_quotes(b) {
        assert(quotes_doubled(a) == f.subrange(1, f.len() - 1));
        assert(quotes_doubled(b) == f.subrange(1, f.len() - 1));
        lemma_quotes_doubled_injective(a, b);
    } else if needs_quotes(a) {
        assert(f[0] == '"');
        assert(b.contains('"'));
    } else if needs_quotes(b) {
        assert(f[0] == '"');
        assert(a.contains('"'));
    }
}

// ---------------------------------------------------------------------
// Documents
// ---------------------------------------------------------------------

/// How many `name: value` pairs a row gives: as many as it has cells and
/// there are columns, whichever is fewer.
pub open spec fn member_count(cols: Seq<Seq<char>>, row: Seq<Seq<char>>) -> nat {
    if cols.len() <= row.len() {
        cols.len()
    } else {
        row.len()
    }
}

/// The first `n` members of a JSON object for one row: each is `lead`, the
/// column name as a JSON string, `": "` and the cell as a JSON value; the
/// members are separated by commas.
pub open spec fn json_members(
    cols: Seq<Seq<char>>,
    row: Seq<Seq<char>>,
    lead: Seq<char>,
    n: nat,
) -> Seq<char>
    decreases n,
{
    if n == 0 {
        Seq::empty()
    } else {
        json_members(cols, row, lead, (n - 1) as nat) + (if n > 1 {
            ","@
        } else {
            Seq::empty()
        }) + lead + json_string_text(cols[n - 1]) + ": "@ + json_value_text(row[n - 1])
    }
}

/// All members of the JSON object for one row.
pub open spec fn json_object_members(
    cols: Seq<Seq<char>>,
    row: Seq<Seq<char>>,
    lead: Seq<char>,
) -> Seq<char> {
    json_members(cols, row, lead, member_count(cols, row))
}

/// The objects of a JSON array document, one per row, separated by commas.
pub open spec fn json_rows(cols: Seq<Seq<char>>, rows: Seq<Seq<Seq<char>>>) -> Seq<char>
    decreases rows.len(),
{
    if rows.len() == 0 {
        Seq::empty()
    } else {
        json_rows(cols, rows.drop_last()) + (if rows.len() > 1 {
            ","@
        } else {
            Seq::empty()
        }) + "\n  {"@ + json_object_members(cols, rows.last(), "\n    "@) + "\n  }"@
    }
}

/// A table as a pretty-printed JSON array of objects.
pub open spec fn json_document(cols: Seq<Seq<char>>, rows: Seq<Seq<Seq<char>>>) -> Seq<char> {
    "["@ + json_rows(cols, rows) + "\n]\n"@
}

/// A table as JSON Lines: one object per row, each on a line of its own.
pub open spec fn jsonl_document(cols: Seq<Seq<char>>, rows: Seq<Seq<Seq<char>>>) -> Seq<char>
    decreases rows.len(),
{
    if rows.len() == 0 {
        Seq::empty()
    } else {
        jsonl_document(cols, rows.drop_last()) + "{"@ + json_object_members(
            cols,
            rows.last(),
            Seq::empty(),
        ) + "}\n"@
    }
}

/// Each of the strings as a CSV field.
pub open spec fn csv_fields(fields: Seq<Seq<char>>) -> Seq<Seq<char>> {
    fields.map_values(|f: Seq<char>| csv_field_text(f))
}

/// One CSV line: the fields as CSV fields, joined by commas, and a newline.
pub open spec fn csv_record(fields: Seq<Seq<char>>) -> Seq<char> {
    join(csv_fields(fields), ","@) + "\n"@
}

/// The CSV lines of the rows, in order.
pub open spec fn csv_records(rows: Seq<Seq<Seq<char>>>) -> Seq<char>
    decreases rows.len(),
{
    if rows.len() == 0 {
        Seq::empty()
    } else {
        csv_records(rows.drop_last()) + csv_record(rows.last())
    }
}

/// A table as CSV: a header line of the column names, then one line per row.
pub open spec fn csv_document(cols: Seq<Seq<char>>, rows: Seq<Seq<Seq<char>>>) -> Seq<char> {
    csv_record(cols) + csv_records(rows)
}

/// A table in the given format.
pub open spec fn export_text(
    format: ExportFormat,
    cols: Seq<Seq<char>>,
    rows: Seq<Seq<Seq<char>>>,
) -> Seq<char> {
    match format {
        ExportFormat::Json => json_document(cols, rows),
        ExportFormat::Jsonl => jsonl_document(cols, rows),
        ExportFormat::Csv => csv_document(cols, rows),
    }
}

/// Appends the members of the JSON object for `row`.
fn push_json_members(out: &mut String, columns: &[String], row: &Vec<String>, lead: &str)
    ensures
        final(out)@ == old(out)@ + json_object_members(texts(columns@), texts(row@), lead@),
{
    let ghost cols = texts(columns@);
    let ghost cells = texts(row@);
    let n: usize = if columns.len() <= row.len() {
        columns.len()
    } else {
        row.len()
    };
    let ghost start = out@;
    let mut j: usize = 0;
    while j < n
        invariant
            j <= n,
            n == member_count(cols, cells),
            n <= columns.len(),
            n <= row.len(),
            cols == texts(columns@),
            cells == texts(row@),
            out@ == start + json_members(cols, cells, lead@, j as nat),
        decreases n - j,
    {
        if j > 0 {
            out.append(",");
        }
        out.append(lead);
        push_json_string(out, &columns[j]);
        out.append(": ");
        let v = json_value(&row[j]);
        out.append(&v);
        j = j + 1;
    }
}

/// Appends the table as a pretty-printed JSON array of objects: `[`, then
/// for each row an object whose members are the column names paired with
/// the row's cells as JSON values, then `]` and a newline.
pub fn write_json(data: &ExportData, out: &mut String)
    ensures
        final(out)@ == old(out)@ + json_document(data.column_texts(), data.rows_texts()),
{
    let ghost cols = data.column_texts();
    let ghost rows = data.rows_texts();
    let ghost start = out@;
    out.append("[");
    let mut i: usize = 0;
    while i < data.rows.len()
        invariant
            i <= data.rows.len(),
            cols == data.column_texts(),
            rows == data.rows_texts(),
            out@ == start + "["@ + json_rows(cols, rows.take(i as int)),
        decreases data.rows.len() - i,
    {
        if i > 0 {
            out.append(",");
        }
        out.append("\n  {");
        push_json_members(out, data.columns, &data.rows[i], "\n    ");
        out.append("\n  }");
        assert(rows.take(i + 1).drop_last() == rows.take(i as int));
        i = i + 1;
    }
    assert(rows.take(i as int) == rows);
    out.append("\n]\n");
}

/// Appends the table as JSON Lines: for each row, an object whose members
/// are the column names paired with the row's cells as JSON values, and a
/// newline.
pub fn write_jsonl(data: &ExportData, out: &mut String)
    ensures
        final(out)@ == old(out)@ + jsonl_document(data.column_texts(), data.rows_texts()),
{
    let ghost cols = data.column_texts();
    let ghost rows = data.rows_texts();
    let ghost start = out@;
    let mut i: usize = 0;
    while i < data.rows.len()
        invariant
            i <= data.rows.len(),
            cols == data.column_texts(),
            rows == data.rows_texts(),
            out@ == start + jsonl_document(cols, rows.take(i as int)),
        decreases data.rows.len() - i,
    {
        out.append("{");
        proof {
            reveal_strlit("");
            assert(""@ =~= Seq::<char>::empty());
        }
        push_json_members(out, data.columns, &data.rows[i], "");
        out.append("}\n");
        assert(rows.take(i + 1).drop_last() == rows.take(i as int));
        i = i + 1;
    }
    assert(rows.take(i as int) == rows);
}

/// Appends one CSV line: the fields as CSV fields joined by commas, and a
/// newline.
fn push_csv_record(out: &mut String, fields: &[String])
    ensures
        final(out)@ == old(out)@ + csv_record(texts(fields@)),
{
    let ghost fs = texts(fields@);
    let ghost start = out@;
    let mut line = String::new();
    let mut i: usize = 0;
    while i < fields.len()
        invariant
            i <= fields.len(),
            fs == texts(fields@),
            line@ == join(csv_fields(fs.take(i as int)), ","@),
        decreases fields.len() - i,
    {
        assert(csv_fields(fs.take(i + 1)).drop_last() == csv_fields(fs.take(i as int)));
        if i > 0 {
            line.append(",");
        }
        let f = csv_field(&fields[i]);
        line.append(&f);
        i = i + 1;
    }
    assert(fs.take(i as int) == fs);
    out.append(&line);
    out.append("\n");
}

/// Appends the table as CSV: a header line of the column names, then one
/// line per row; each line holds its fields as CSV fields joined by commas.
pub fn write_csv(data: &ExportData, out: &mut String)
    ensures
        final(out)@ == old(out)@ + csv_document(data.column_texts(), data.rows_texts()),
{
    let ghost rows = data.rows_texts();
    let ghost start = out@;
    push_csv_record(out, data.columns);
    let mut i: usize = 0;
    while i < data.rows.len()
        invariant
            i <= data.rows.len(),
            rows == data.rows_texts(),
            out@ == start + csv_record(data.column_texts()) + csv_records(rows.take(i as int)),
        decreases data.rows.len() - i,
    {
        push_csv_record(out, data.rows[i].as_slice());
        assert(rows.take(i + 1).drop_last() == rows.take(i as int));
        i = i + 1;
    }
    assert(rows.take(i as int) == rows);
}

/// Appends the table in the given format.
pub fn write_to(format: ExportFormat, data: &ExportData, out: &mut String)
    ensures
        final(out)@ == old(out)@ + export_text(format, data.column_texts(), data.rows_texts()),
{
    match format {
        ExportFormat::Json => write_json(data, out),
        ExportFormat::Jsonl => write_jsonl(data, out),
        ExportFormat::Csv => write_csv(data, out),
    }
}

// ---------------------------------------------------------------------
// The shape of the documents
// ---------------------------------------------------------------------

/// The members of a row's JSON object are the `name: value` pairs of its
/// first `member_count` cells, each led by `lead`, joined by commas.
proof fn lemma_json_members_join(
    cols: Seq<Seq<char>>,
    row: Seq<Seq<char>>,
    lead: Seq<char>,
    n: nat,
)
    requires
        n <= cols.len(),
        n <= row.len(),
    ensures
        json_members(cols, row, lead, n) == join(
            Seq::new(
                n,
                (|i: int| lead + json_string_text(cols[i]) + ": "@ + json_value_text(row[i])),
            ),
            ","@,
        ),
    decreases n,
{
    let items = Seq::new(
        n,
        |i: int| lead + json_string_text(cols[i]) + ": "@ + json_value_text(row[i]),
    );
    if n == 1 {
        assert(json_members(cols, row, lead, 0) == Seq::<char>::empty());
        assert(json_members(cols, row, lead, 1) =~= items[0]);
    } else if n > 1 {
        let m = (n - 1) as nat;
        lemma_json_members_join(cols, row, lead, m);
        let before = Seq::new(
            m,
            |i: int| lead + json_string_text(cols[i]) + ": "@ + json_value_text(row[i]),
        );
        assert(items.drop_last() =~= before);
        assert(json_members(cols, row, lead, n) =~= join(before, ","@) + ","@ + items.last());
    }
}

/// The objects of a JSON array document are the rows' objects, joined by
/// commas.
proof fn lemma_json_rows_join(cols: Seq<Seq<char>>, rows: Seq<Seq<Seq<char>>>)
    ensures
        json_rows(cols, rows) == join(
            Seq::new(
                rows.len(),
                (|k: int| "\n  {"@ + json_object_members(cols, rows[k], "\n    "@) + "\n  }"@),
            ),
            ","@,
        ),
    decreases rows.len(),
{
    let objs = Seq::new(
        rows.len(),
        |k: int| "\n  {"@ + json_object_members(cols, rows[k], "\n    "@) + "\n  }"@,
    );
    if rows.len() == 1 {
        assert(json_rows(cols, rows.drop_last()) == Seq::<char>::empty());
        assert(json_rows(cols, rows) =~= objs[0]);
    } else if rows.len() > 1 {
        let front = rows.drop_last();
        lemma_json_rows_join(cols, front);
        let before = Seq::new(
            front.len(),
            |k: int| "\n  {"@ + json_object_members(cols, front[k], "\n    "@) + "\n  }"@,
        );
        assert(objs.drop_last() =~= before);
        assert(json_rows(cols, rows) =~= join(before, ","@) + ","@ + objs.last());
    }
}

/// A JSON export is `[`, then one object per row, in order, with exactly
/// one comma between every two neighbouring objects, then `]` and a
/// newline. The object of a row holds one `"name": value` member per column
/// that the row has a cell for, in column order, with exactly one comma
/// between every two neighbouring members.
pub proof fn law_json_document_objects(cols: Seq<Seq<char>>, rows: Seq<Seq<Seq<char>>>)
    ensures
        json_document(cols, rows) == "["@ + join(
            Seq::new(
                rows.len(),
                (|k: int|
                    "\n  {"@ + join(
                        Seq::new(
                            member_count(cols, rows[k]),
                            (|i: int|
                                "\n    "@ + json_string_text(cols[i]) + ": "@ + json_value_text(
                                    rows[k][i],
                                )),
                        ),
                        ","@,
                    ) + "\n  }"@),
            ),
            ","@,
        ) + "\n]\n"@,
{
    lemma_json_rows_join(cols, rows);
    let objs = Seq::new(
        rows.len(),
        |k: int| "\n  {"@ + json_object_members(cols, rows[k], "\n    "@) + "\n  }"@,
    );
    let spelled = Seq::new(
        rows.len(),
        |k: int|
            "\n  {"@ + join(
                Seq::new(
                    member_count(cols, rows[k]),
                    |i: int|
                        "\n    "@ + json_string_text(cols[i]) + ": "@ + json_value_text(rows[k][i]),
                ),
                ","@,
            ) + "\n  }"@,
    );
    assert forall|k: int| 0 <= k < rows.len() implies objs[k] == spelled[k] by {
        lemma_json_members_join(cols, rows[k], "\n    "@, member_count(cols, rows[k]));
    }
    assert(objs =~= spelled);
}

/// The JSON Lines of the first rows, then those of the last.
proof fn lemma_jsonl_flatten(cols: Seq<Seq<char>>, rows: Seq<Seq<Seq<char>>>)
    ensures
        jsonl_document(cols, rows) == Seq::new(
            rows.len(),
            (|k: int| "{"@ + json_object_members(cols, rows[k], Seq::empty()) + "}\n"@),
        ).flatten_alt(),
    decreases rows.len(),
{
    let lines = Seq::new(
        rows.len(),
        |k: int| "{"@ + json_object_members(cols, rows[k], Seq::empty()) + "}\n"@,
    );
    if rows.len() > 0 {
        let front = rows.drop_last();
        lemma_jsonl_flatten(cols, front);
        let before = Seq::new(
            front.len(),
            |k: int| "{"@ + json_object_members(cols, front[k], Seq::empty()) + "}\n"@,
        );
        assert(lines.drop_last() =~= before);
        assert(jsonl_document(cols, rows) =~= before.flatten_alt() + lines.last());
    }
}

/// A JSON Lines export is one line per row, in order: the row's object,
/// whose `"name":value` members, one per column that the row has a cell
/// for, are joined by exactly one comma each, and a newline.
pub proof fn law_jsonl_document_lines(cols: Seq<Seq<char>>, rows: Seq<Seq<Seq<char>>>)
    ensures
        jsonl_document(cols, rows) == Seq::new(
            rows.len(),
            (|k: int|
                "{"@ + join(
                    Seq::new(
                        member_count(cols, rows[k]),
                        (|i: int| json_string_text(cols[i]) + ": "@ + json_value_text(rows[k][i])),
                    ),
                    ","@,
                ) + "}\n"@),
        ).flatten(),
{
    lemma_jsonl_flatten(cols, rows);
    let lines = Seq::new(
        rows.len(),
        |k: int| "{"@ + json_object_members(cols, rows[k], Seq::empty()) + "}\n"@,
    );
    let spelled = Seq::new(
        rows.len(),
        |k: int|
            "{"@ + join(
                Seq::new(
                    member_count(cols, rows[k]),
                    |i: int| json_string_text(cols[i]) + ": "@ + json_value_text(rows[k][i]),
                ),
                ","@,
            ) + "}\n"@,
    );
    assert forall|k: int| 0 <= k < rows.len() implies lines[k] == spelled[k] by {
        let row = rows[k];
        let n = member_count(cols, row);
        lemma_json_members_join(cols, row, Seq::empty(), n);
        assert(Seq::new(
            n,
            |i: int| Seq::<char>::empty() + json_string_text(cols[i]) + ": "@ + json_value_text(row[i]),
        ) =~= Seq::new(n, |i: int| json_string_text(cols[i]) + ": "@ + json_value_text(row[i])));
    }
    assert(lines =~= spelled);
    lines.lemma_flatten_and_flatten_alt_are_equivalent();
}

/// The CSV lines of the first rows, then that of the last.
proof fn lemma_csv_records_flatten(rows: Seq<Seq<Seq<char>>>)
    ensures
        csv_records(rows) == Seq::new(rows.len(), (|k: int| csv_record(rows[k]))).flatten_alt(),
    decreases rows.len(),
{
    let lines = Seq::new(rows.len(), |k: int| csv_record(rows[k]));
    if rows.len() > 0 {
        let front = rows.drop_last();
        lemma_csv_records_flatten(front);
        assert(lines.drop_last() =~= Seq::new(front.len(), |k: int| csv_record(front[k])));
    }
}

/// A CSV export is the header line of the column names, then one line per
/// row, in order, every row of the table included; each line is its fields
/// as CSV fields joined by commas, and a line feed. An RFC 4180 reader
/// splits the header line back into the column names and the line of each
/// row back into its cells, wherever they are not empty and hold no
/// carriage return.
pub proof fn law_csv_document_lines(cols: Seq<Seq<char>>, rows: Seq<Seq<Seq<char>>>)
    ensures
        csv_document(cols, rows) == csv_record(cols) + Seq::new(
            rows.len(),
            (|k: int| join(csv_fields(rows[k]), ","@) + "\n"@),
        ).flatten(),
        csv_record(cols) == join(csv_fields(cols), ","@) + "\n"@,
        cols.len() > 0 && (forall|i: int| 0 <= i < cols.len() ==> !(#[trigger] cols[i]).contains('\r'))
            ==> csv_split(join(csv_fields(cols), ","@)) == Some(cols),
        forall|k: int|
            0 <= k < rows.len() && rows[k].len() > 0 && (forall|i: int|
                0 <= i < rows[k].len() ==> !(#[trigger] rows[k][i]).contains('\r'))
                ==> csv_split(join(csv_fields(#[trigger] rows[k]), ","@)) == Some(rows[k]),
{
    reveal_strlit(",");
    assert(","@ == seq![',']);
    if cols.len() > 0 && (forall|i: int| 0 <= i < cols.len() ==> !(#[trigger] cols[i]).contains('\r')) {
        lemma_split_fields(cols);
    }
    assert forall|k: int|
        0 <= k < rows.len() && rows[k].len() > 0 && (forall|i: int|
            0 <= i < rows[k].len() ==> !(#[trigger] rows[k][i]).contains('\r')) implies csv_split(
        join(csv_fields(#[trigger] rows[k]), ","@),
    ) == Some(rows[k]) by {
        lemma_split_fields(rows[k]);
    }
    lemma_csv_records_flatten(rows);
    let lines = Seq::new(rows.len(), |k: int| csv_record(rows[k]));
    assert(lines =~= Seq::new(rows.len(), |k: int| join(csv_fields(rows[k]), ","@) + "\n"@));
    lines.lemma_flatten_and_flatten_alt_are_equivalent();
}

// ---------------------------------------------------------------------
// Reading CSV lines back
// ---------------------------------------------------------------------

/// Reads the inside of a quoted field up to its closing quote, undoing
/// doubled quotes: the field and what follows the closing quote, or `None`
/// when the quote is never closed.
pub open spec fn csv_read_quoted(t: Seq<char>) -> Option<(Seq<char>, Seq<char>)>
    decreases t.len(),
{
    if t.len() == 0 {
        None
    } else if t[0] == '"' {
        if t.len() >= 2 && t[1] == '"' {
            match csv_read_quoted(t.skip(2)) {
                Some((v, rest)) => Some((seq!['"'] + v, rest)),
                None => None,
            }
        } else {
            Some((Seq::empty(), t.skip(1)))
        }
    } else {
        match csv_read_quoted(t.skip(1)) {
            Some((v, rest)) => Some((seq![t[0]] + v, rest)),
            None => None,
        }
    }
}

/// Reads an unquoted field: everything up to the first comma or the end.
pub open spec fn csv_read_plain(t: Seq<char>) -> (Seq<char>, Seq<char>)
    decreases t.len(),
{
    if t.len() == 0 {
        (Seq::empty(), Seq::empty())
    } else if t[0] == ',' {
        (Seq::empty(), t)
    } else {
        let (v, rest) = csv_read_plain(t.skip(1));
        (seq![t[0]] + v, rest)
    }
}

/// Reads the field at the start of a line: quoted when it starts with a
/// double quote, unquoted otherwise; an unquoted field may not hold a
/// double quote, a line feed or a carriage return.
pub open spec fn csv_read_one(t: Seq<char>) -> Option<(Seq<char>, Seq<char>)> {
    if t.len() > 0 && t[0] == '"' {
        csv_read_quoted(t.skip(1))
    } else {
        let (f, rest) = csv_read_plain(t);
        if f.contains('"') || f.contains('\n') || f.contains('\r') {
            None
        } else {
            Some((f, rest))
        }
    }
}

/// Splits a CSV line (without its line break) into its fields, as an RFC
/// 4180 reader does: fields separated by commas; `None` where the line is
/// malformed.
pub open spec fn csv_split(t: Seq<char>) -> Option<Seq<Seq<char>>>
    decreases t.len(),
{
    match csv_read_one(t) {
        None => None,
        Some((f, rest)) => if rest.len() == 0 {
            Some(seq![f])
        } else if rest[0] == ',' && rest.len() <= t.len() {
            match csv_split(rest.skip(1)) {
                Some(fs) => Some(seq![f] + fs),
                None => None,
            }
        } else {
            None
        },
    }
}

/// What may follow a field on a line: nothing, or a comma and more.
pub open spec fn field_end(r: Seq<char>) -> bool {
    r.len() == 0 || r[0] == ','
}

/// A quoted field's inside reads back up to its closing quote.
proof fn lemma_read_quoted(s: Seq<char>, r: Seq<char>)
    requires
        field_end(r),
    ensures
        csv_read_quoted(quotes_doubled(s) + seq!['"'] + r) == Some((s, r)),
    decreases s.len(),
{
    let t = quotes_doubled(s) + seq!['"'] + r;
    if s.len() == 0 {
        assert(quotes_doubled(s) == Seq::<char>::empty());
        assert(t == seq!['"'] + r);
        assert(t[0] == '"');
        if t.len() >= 2 {
            assert(t[1] == r[0]);
        }
        assert(t.skip(1) == r);
    } else {
        let c = s[0];
        let rest = s.skip(1);
        assert(s == seq![c] + rest);
        lemma_quotes_doubled_concat(seq![c], rest);
        assert(seq![c].drop_last() == Seq::<char>::empty());
        assert(quotes_doubled(Seq::<char>::empty()) == Seq::<char>::empty());
        assert(seq![c].last() == c);
        let e = if c == '"' {
            seq!['"', '"']
        } else {
            seq![c]
        };
        assert(Seq::<char>::empty() + e == e);
        assert(quotes_doubled(seq![c]) == e);
        lemma_read_quoted(rest, r);
        let u = quotes_doubled(rest) + seq!['"'] + r;
        assert(t == e + u);
        if c == '"' {
            assert(t[0] == '"' && t[1] == '"');
            assert(t.skip(2) == u);
            assert(seq!['"'] + rest == s);
        } else {
            assert(t[0] == c);
            assert(t.skip(1) == u);
            assert(seq![c] + rest == s);
        }
    }
}

/// An unquoted field without commas reads back up to what follows it.
proof fn lemma_read_plain(s: Seq<char>, r: Seq<char>)
    requires
        !s.contains(','),
        field_end(r),
    ensures
        csv_read_plain(s + r) == (s, r),
    decreases s.len(),
{
    let t = s + r;
    if s.len() == 0 {
        assert(t == r);
        if r.len() > 0 {
            assert(t[0] == ',');
        }
    } else {
        assert(t[0] == s[0]);
        assert(s[0] != ',') by {
            if s[0] == ',' {
                assert(s.contains(s[0]));
            }
        }
        assert(t.skip(1) == s.skip(1) + r);
        assert(!s.skip(1).contains(',')) by {
            if s.skip(1).contains(',') {
                let k = choose|k: int| 0 <= k < s.skip(1).len() && s.skip(1)[k] == ',';
                assert(s[k + 1] == ',');
            }
        }
        lemma_read_plain(s.skip(1), r);
        assert(seq![s[0]] + s.skip(1) == s);
    }
}

/// A cell written as a CSV field reads back, up to what follows it.
proof fn lemma_read_field(s: Seq<char>, r: Seq<char>)
    requires
        field_end(r),
        !s.contains('\r'),
    ensures
        csv_read_one(csv_field_text(s) + r) == Some((s, r)),
{
    let t = csv_field_text(s) + r;
    if needs_quotes(s) {
        assert(t[0] == '"');
        assert(t.skip(1) == quotes_doubled(s) + seq!['"'] + r);
        lemma_read_quoted(s, r);
    } else {
        assert(t == s + r);
        if t.len() > 0 && t[0] == '"' {
            if s.len() > 0 {
                assert(s.contains(s[0]));
            } else {
                assert(r[0] == ',');
            }
        }
        lemma_read_plain(s, r);
    }
}

/// Joining with a separator, seen from the front.
proof fn lemma_join_front(a: Seq<char>, rest: Seq<Seq<char>>, sep: Seq<char>)
    requires
        rest.len() > 0,
    ensures
        join(seq![a] + rest, sep) == a + sep + join(rest, sep),
    decreases rest.len(),
{
    let l = seq![a] + rest;
    if rest.len() == 1 {
        assert(l.drop_last() == seq![a]);
        assert(l.last() == rest[0]);
        assert(join(seq![a], sep) == a);
        assert(join(rest, sep) == rest[0]);
        assert(join(l, sep) == join(l.drop_last(), sep) + sep + l.last());
    } else {
        assert(l.drop_last() == seq![a] + rest.drop_last());
        lemma_join_front(a, rest.drop_last(), sep);
        assert(l.last() == rest.last());
        assert(join(l, sep) == join(l.drop_last(), sep) + sep + l.last());
        assert(join(rest, sep) == join(rest.drop_last(), sep) + sep + rest.last());
        assert(a + sep + join(rest.drop_last(), sep) + sep + rest.last() =~= a + sep + (join(
            rest.drop_last(),
            sep,
        ) + sep + rest.last()));
    }
}

/// The fields of a line written from `fs` read back as `fs`.
proof fn lemma_split_fields(fs: Seq<Seq<char>>)
    requires
        fs.len() > 0,
        forall|i: int| 0 <= i < fs.len() ==> !(#[trigger] fs[i]).contains('\r'),
    ensures
        csv_split(join(csv_fields(fs), seq![','])) == Some(fs),
    decreases fs.len(),
{
    let line = join(csv_fields(fs), seq![',']);
    let f = fs[0];
    let rest = fs.skip(1);
    assert(fs == seq![f] + rest);
    assert(!fs[0].contains('\r'));
    if rest.len() == 0 {
        assert(csv_fields(fs) == seq![csv_field_text(f)]);
        assert(line == csv_field_text(f));
        lemma_read_field(f, Seq::empty());
        assert(csv_field_text(f) + Seq::<char>::empty() == csv_field_text(f));
    } else {
        assert(csv_fields(fs) == seq![csv_field_text(f)] + csv_fields(rest));
        lemma_join_front(csv_field_text(f), csv_fields(rest), seq![',']);
        let tail = join(csv_fields(rest), seq![',']);
        let r = seq![','] + tail;
        assert(line == csv_field_text(f) + r);
        lemma_read_field(f, r);
        assert(r.skip(1) == tail);
        assert forall|i: int| 0 <= i < rest.len() implies !(#[trigger] rest[i]).contains('\r') by {
            assert(rest[i] == fs[i + 1]);
        }
        lemma_split_fields(rest);
    }
}

/// A CSV line written from cells without carriage returns ends with a line
/// feed, and an RFC 4180 reader splits what comes before it back into the
/// same cells.
pub proof fn law_csv_record_roundtrip(fs: Seq<Seq<char>>)
    requires
        fs.len() > 0,
        forall|i: int| 0 <= i < fs.len() ==> !(#[trigger] fs[i]).contains('\r'),
    ensures
        csv_record(fs).last() == '\n',
        csv_split(csv_record(fs).drop_last()) == Some(fs),
{
    reveal_strlit(",");
    reveal_strlit("\n");
    assert(","@ == seq![',']);
    assert("\n"@ == seq!['\n']);
    let line = join(csv_fields(fs), seq![',']);
    assert(csv_record(fs) == line + seq!['\n']);
    assert(csv_record(fs).drop_last() == line);
    lemma_split_fields(fs);
}

// ---------------------------------------------------------------------
// Output path
// ---------------------------------------------------------------------

/// What `Path::file_stem` gives for a path, as text.
pub uninterp spec fn path_file_stem(path: Seq<char>) -> Option<Seq<char>>;

/// What `Path::parent` gives for a path, as text.
pub uninterp spec fn path_parent(path: Seq<char>) -> Option<Seq<char>>;

/// `Path::file_stem` from std, with the stem taken back to text. The
/// contract names its result `path_file_stem`; std's rules for splitting a
/// path into components are not written out here.
#[verifier::external_body]
fn file_stem(path: &str) -> (r: Option<String>)
    ensures
        opt_text(r) == path_file_stem(path@),
{
    match Path::new(path).file_stem() {
        Some(stem) => match stem.to_str() {
            Some(t) => Some(t.to_owned()),
            None => None,
        },
        None => None,
    }
}

/// `Path::parent` from std, with the parent taken back to text. The
/// contract names its result `path_parent`; std's rules for splitting a
/// path into components are not written out here.
#[verifier::external_body]
fn parent(path: &str) -> (r: Option<String>)
    ensures
        opt_text(r) == path_parent(path@),
{
    match Path::new(path).parent() {
        Some(dir) => match dir.to_str() {
            Some(t) => Some(t.to_owned()),
            None => None,
        },
        None => None,
    }
}

/// The text of an optional string slice.
pub open spec fn opt_str_text(o: Option<&str>) -> Option<Seq<char>> {
    match o {
        Some(s) => Some(s@),
        None => None,
    }
}

/// `dir/stem.ext`, where a missing directory is `.` and a missing stem is
/// `output`.
pub open spec fn output_path_text(
    dir: Option<Seq<char>>,
    stem: Option<Seq<char>>,
    ext: Seq<char>,
) -> Seq<char> {
    let d = match dir {
        Some(d) => d,
        None => "."@,
    };
    let s = match stem {
        Some(s) => s,
        None => "output"@,
    };
    d + "/"@ + s + "."@ + ext
}

/// The export path built from the input file's directory and stem:
/// `dir/stem.ext`, where a missing directory is `.` and a missing stem is
/// `output`.
pub fn output_path_from(dir: Option<&str>, stem: Option<&str>, ext: &str) -> (r: String)
    ensures
        r@ == output_path_text(opt_str_text(dir), opt_str_text(stem), ext@),
{
    let mut r = String::new();
    match dir {
        Some(d) => r.append(d),
        None => r.append("."),
    }
    r.append("/");
    match stem {
        Some(s) => r.append(s),
        None => r.append("output"),
    }
    r.append(".");
    r.append(ext);
    r
}

/// The path to export `parquet_path` to with extension `ext`: the input's
/// directory and file stem, as `Path` splits them, joined as `dir/stem.ext`.
pub fn output_path(parquet_path: &str, ext: &str) -> (r: String)
    ensures
        r@ == output_path_text(path_parent(parquet_path@), path_file_stem(parquet_path@), ext@),
{
    let stem = file_stem(parquet_path);
    let dir = parent(parquet_path);
    let d: Option<&str> = match &dir {
        Some(d) => Some(d.as_str()),
        None => None,
    };
    let s: Option<&str> = match &stem {
        Some(s) => Some(s.as_str()),
        None => None,
    };
    output_path_from(d, s, ext)
}

} // verus!
