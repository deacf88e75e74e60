//! Comma-separated tables: splitting text into header and cells, and
//! inferring one type per column.

use vstd::prelude::*;
use vstd::utf8::encode_utf8;
use vstd::string::StringSliceAdditionalSpecFns;
use crate::text::{
    append_chars, join_chars, join_with, slice_chars, chars_of, lemma_map_push, lines, lines_of, lower_chars,
    lower_seq, split_by, split_char, split_str, string_of, trim, trim_chars, chars_eq,
};
use crate::numbers::{float_literal, is_float_literal, nat_text, parse_i64, parse_i64_spec, u64_text};

verus! {

#[derive(Debug, Clone, Copy, PartialEq, Eq, Structural)]
pub enum ColumnType {
    Empty,
    Boolean,
    Integer,
    Float,
    String,
}

pub open spec fn bool_word(l: Seq<char>) -> bool {
    ||| l == seq!['t', 'r', 'u', 'e']
    ||| l == seq!['f', 'a', 'l', 's', 'e']
    ||| l == seq!['y', 'e', 's']
    ||| l == seq!['n', 'o']
    ||| l == seq!['t']
    ||| l == seq!['f']
}

/// The type of one cell: blank is `Empty`; true/false/yes/no/t/f in any case
/// is `Boolean`; what parses as an `i64` is `Integer`, as an `f64` is
/// `Float`; anything else is `String`.
pub open spec fn classify_spec(v: Seq<char>) -> ColumnType {
    let t = trim(v);
    if t.len() == 0 {
        ColumnType::Empty
    } else if bool_word(lower_seq(t)) {
        ColumnType::Boolean
    } else if parse_i64_spec(t) is Some {
        ColumnType::Integer
    } else if float_literal(t) {
        ColumnType::Float
    } else {
        ColumnType::String
    }
}

/// The type of a column holding values of both types: `Empty` adds nothing,
/// integers and floats make floats, any other mix makes strings.
pub open spec fn merge_spec(l: ColumnType, r: ColumnType) -> ColumnType {
    if l == ColumnType::Empty {
        r
    } else if r == ColumnType::Empty {
        l
    } else if l == r {
        l
    } else if (l == ColumnType::Integer && r == ColumnType::Float) || (l == ColumnType::Float && r
        == ColumnType::Integer) {
        ColumnType::Float
    } else {
        ColumnType::String
    }
}

/// The type of the cell at `idx`, `Empty` past the end of the cells.
pub open spec fn cell_type(cells: Seq<Seq<char>>, idx: int) -> ColumnType {
    if 0 <= idx < cells.len() {
        classify_spec(cells[idx])
    } else {
        ColumnType::Empty
    }
}

/// The type of column `c` over the first `r` rows of `cols` cells each.
pub open spec fn column_type(cells: Seq<Seq<char>>, cols: nat, c: nat, r: nat) -> ColumnType
    decreases r,
{
    if r == 0 {
        ColumnType::Empty
    } else {
        merge_spec(
            column_type(cells, cols, c, (r - 1) as nat),
            cell_type(cells, (r - 1) * cols + c),
        )
    }
}

/// The inferred type of every column.
pub open spec fn column_types(cells: Seq<Seq<char>>, cols: nat, rows: nat) -> Seq<ColumnType> {
    Seq::new(cols, |c: int| column_type(cells, cols, c as nat, rows))
}

pub open spec fn strings(v: Seq<String>) -> Seq<Seq<char>> {
    v.map_values(|s: String| s@)
}

pub struct CSV {
    pub fp: String,
    pub delim: String,
    pub row_length: u32,
    pub num_rows: u32,
    pub has_header: bool,
    pub headers: Option<Vec<String>>,
    pub data: Vec<String>,
    pub column_types: Vec<ColumnType>,
}

/// The trimmed fields of one line.
pub open spec fn line_fields(line: Seq<char>, d: Seq<char>) -> Seq<Seq<char>> {
    split_str(line, d).map_values(|f: Seq<char>| trim(f))
}

/// The fields of every line of a text.
pub open spec fn table_rows(contents: Seq<char>, d: Seq<char>) -> Seq<Seq<Seq<char>>> {
    lines_of(contents).map_values(|l: Seq<char>| line_fields(l, d))
}

/// The rows that hold data: all rows, or all but the first when the first is
/// a header.
pub open spec fn body_rows(rows: Seq<Seq<Seq<char>>>, has_header: bool) -> Seq<Seq<Seq<char>>> {
    if has_header && rows.len() > 0 {
        rows.skip(1)
    } else {
        rows
    }
}

impl CSV {
    pub fn classify_value(value: &str) -> (r: ColumnType)
        ensures
            r == classify_spec(value@),
    {
        let v = chars_of(value);
        classify_chars(&v)
    }

    pub fn merge_types(left: ColumnType, right: ColumnType) -> (r: ColumnType)
        ensures
            r == merge_spec(left, right),
    {
        match (left, right) {
            (ColumnType::Empty, t) => t,
            (t, ColumnType::Empty) => t,
            (ColumnType::Boolean, ColumnType::Boolean) => ColumnType::Boolean,
            (ColumnType::Integer, ColumnType::Integer) => ColumnType::Integer,
            (ColumnType::Float, ColumnType::Float) => ColumnType::Float,
            (ColumnType::String, ColumnType::String) => ColumnType::String,
            (ColumnType::Integer, ColumnType::Float) | (ColumnType::Float, ColumnType::Integer) =>
                ColumnType::Float,
            _ => ColumnType::String,
        }
    }

    /// Sets `column_types` to the type of each of the `row_length` columns
    /// over the `num_rows` rows of `data`; cells missing from `data` count as
    /// empty.
    pub fn infer_column_types(&mut self)
        ensures
            final(self).column_types@ == column_types(
                strings(old(self).data@),
                old(self).row_length as nat,
                old(self).num_rows as nat,
            ),
            final(self).fp == old(self).fp,
            final(self).delim == old(self).delim,
            final(self).row_length == old(self).row_length,
            final(self).num_rows == old(self).num_rows,
            final(self).has_header == old(self).has_header,
            final(self).headers == old(self).headers,
            final(self).data == old(self).data,
    {
        let cols = self.row_length as usize;
        let ghost cells = strings(self.data@);
        let ghost ncols = self.row_length as nat;
        if cols == 0 {
            self.column_types.clear();
            assert(self.column_types@ =~= column_types(cells, 0, self.num_rows as nat));
            return;
        }
        let mut inferred: Vec<ColumnType> = Vec::new();
        let mut c: usize = 0;
        while c < cols
            invariant
                c <= cols,
                cols == ncols,
                inferred@.len() == c,
                forall|k: int| 0 <= k < c ==> inferred@[k] == ColumnType::Empty,
            decreases cols - c,
        {
            inferred.push(ColumnType::Empty);
            c = c + 1;
        }
        let rows = self.num_rows;
        let mut row: u32 = 0;
        while row < rows
            invariant
                row <= rows,
                cols == ncols,
                ncols == self.row_length,
                cells == strings(self.data@),
                inferred@.len() == cols,
                forall|k: int|
                    0 <= k < cols ==> inferred@[k] == column_type(cells, ncols, k as nat, row as nat),
            decreases rows - row,
        {
            let mut col: usize = 0;
            while col < cols
                invariant
                    col <= cols,
                    row < rows,
                    cols == ncols,
                    ncols == self.row_length,
                    cells == strings(self.data@),
                    inferred@.len() == cols,
                    forall|k: int|
                        0 <= k < col ==> inferred@[k] == column_type(
                            cells,
                            ncols,
                            k as nat,
                            (row + 1) as nat,
                        ),
                    forall|k: int|
                        col <= k < cols ==> inferred@[k] == column_type(
                            cells,
                            ncols,
                            k as nat,
                            row as nat,
                        ),
                decreases cols - col,
            {
                proof {
                    assert((row as u64) * (cols as u64) <= 0xffff_fffe_0000_0001u64) by (nonlinear_arith)
                        requires
                            row <= 0xffff_ffffu64,
                            cols <= 0xffff_ffffu64,
                    ;
                }
                let index: u64 = (row as u64) * (cols as u64) + (col as u64);
                let ghost before = inferred@[col as int];
                let cell = if index < self.data.len() as u64 {
                    let t = CSV::classify_value(self.data[index as usize].as_str());
                    t
                } else {
                    ColumnType::Empty
                };
                assert(cell == cell_type(cells, row * ncols + col));
                let merged = CSV::merge_types(inferred[col], cell);
                inferred.set(col, merged);
                col = col + 1;
            }
            row = row + 1;
        }
        self.column_types = inferred;
        assert(self.column_types@ =~= column_types(cells, ncols, rows as nat));
    }

    /// A table read from the text of a file: lines split at `delim` (',' by
    /// default), each field trimmed; the first line gives the row length and,
    /// when `has_header`, is the header rather than data.
    pub fn parse(fp: String, contents: &str, delim: Option<String>, has_header: bool) -> (r: CSV)
        requires
            lines_of(contents@).len() <= u32::MAX,
        ensures
            ({
                let d = match delim {
                    Some(d) => d@,
                    None => seq![','],
                };
                let rows = table_rows(contents@, d);
                let body = body_rows(rows, has_header);
                &&& r.fp == fp
                &&& r.delim@ == d
                &&& r.has_header == has_header
                &&& r.row_length == (if rows.len() > 0 {
                    rows[0].len() as u32
                } else {
                    0u32
                })
                &&& r.headers.is_some() == (has_header && rows.len() > 0)
                &&& (r.headers matches Some(h) ==> strings(h@) == rows[0])
                &&& r.num_rows == body.len()
                &&& strings(r.data@) == body.flatten()
                &&& r.column_types@ == column_types(body.flatten(), r.row_length as nat, r.num_rows as nat)
            }),
    {
        let actual_delim = match delim {
            Some(d) => d,
            None => {
                let comma = vec![','];
                assert(comma@ == seq![',']);
                string_of(&comma)
            },
        };
        let d = chars_of(actual_delim.as_str());
        let text = chars_of(contents);
        let ls = lines(&text);
        let ghost rows = table_rows(contents@, d@);
        let mut data: Vec<String> = Vec::new();
        let mut num_rows: u32 = 0;
        let mut row_length: u32 = 0;
        let mut headers: Option<Vec<String>> = None;
        let mut i: usize = 0;
        while i < ls.len()
            invariant
                i <= ls.len(),
                ls.len() <= u32::MAX,
                ls@.map_values(|v: Vec<char>| v@) == lines_of(contents@),
                rows == table_rows(contents@, d@),
                rows.len() == ls.len(),
                num_rows <= i,
                row_length == (if i > 0 && rows.len() > 0 {
                    rows[0].len() as u32
                } else {
                    0u32
                }),
                headers.is_some() == (has_header && i > 0),
                headers matches Some(h) ==> strings(h@) == rows[0],
                num_rows == body_rows(rows.take(i as int), has_header).len(),
                strings(data@) == body_rows(rows.take(i as int), has_header).flatten(),
            decreases ls.len() - i,
        {
            let pieces = split_by(&ls[i], &d);
            let mut fields: Vec<String> = Vec::new();
            let mut j: usize = 0;
            while j < pieces.len()
                invariant
                    j <= pieces.len(),
                    strings(fields@) == pieces@.take(j as int).map_values(|v: Vec<char>| v@).map_values(
                        |f: Seq<char>| trim(f),
                    ),
                decreases pieces.len() - j,
            {
                let ghost before = fields@;
                let f = string_of(&trim_chars(&pieces[j]));
                fields.push(f);
                j = j + 1;
                proof {
                    lemma_map_push(before, f, |s: String| s@);
                    assert(pieces@.take(j as int) =~= pieces@.take(j - 1).push(pieces@[j - 1]));
                    lemma_map_push(pieces@.take(j - 1), pieces@[j - 1], |v: Vec<char>| v@);
                    lemma_map_push(
                        pieces@.take(j - 1).map_values(|v: Vec<char>| v@),
                        pieces@[j - 1]@,
                        |f: Seq<char>| trim(f),
                    );
                }
            }
            proof {
                assert(pieces@.take(j as int) =~= pieces@);
                assert(lines_of(contents@)[i as int] == ls@[i as int]@);
                assert(strings(fields@) == rows[i as int]);
                assert(rows.take(i + 1) =~= rows.take(i as int).push(rows[i as int]));
            }
            if i == 0 {
                row_length = fields.len() as u32;
                if has_header {
                    headers = Some(fields);
                    i = i + 1;
                    proof {
                        assert(rows.take(1).skip(1) =~= Seq::<Seq<Seq<char>>>::empty());
                        assert(rows.take(0) =~= Seq::<Seq<Seq<char>>>::empty());
                        assert(body_rows(rows.take(0), has_header) =~= Seq::<Seq<Seq<char>>>::empty());
                        assert(Seq::<Seq<Seq<char>>>::empty().flatten() =~= Seq::<Seq<char>>::empty());
                    }
                    continue ;
                }
            }
            let ghost before = data@;
            let ghost body_before = body_rows(rows.take(i as int), has_header);
            proof {
                if has_header && i > 0 {
                    assert(rows.take(i + 1).skip(1) =~= rows.take(i as int).skip(1).push(rows[i as int]));
                }
                assert(body_rows(rows.take(i + 1), has_header) =~= body_before.push(rows[i as int]));
                lemma_flatten_push(body_before, rows[i as int]);
            }
            let mut k: usize = 0;
            while k < fields.len()
                invariant
                    k <= fields.len(),
                    strings(data@) == strings(before) + strings(fields@).take(k as int),
                decreases fields.len() - k,
            {
                let ghost b2 = data@;
                let f = fields[k].clone();
                data.push(f);
                k = k + 1;
                proof {
                    lemma_map_push(b2, f, |s: String| s@);
                    assert(strings(fields@).take(k as int) =~= strings(fields@).take(k - 1).push(
                        fields@[k - 1]@,
                    ));
                    assert(strings(data@) =~= strings(before) + strings(fields@).take(k as int));
                }
            }
            proof {
                assert(strings(fields@).take(k as int) =~= strings(fields@));
            }
            num_rows = num_rows + 1;
            i = i + 1;
        }
        assert(rows.take(i as int) =~= rows);
        let mut csv = CSV {
            fp,
            delim: actual_delim,
            row_length,
            num_rows,
            has_header,
            headers,
            data,
            column_types: Vec::new(),
        };
        csv.infer_column_types();
        csv
    }

    /// The width of each column when printed: the longest byte length among
    /// its header and cells.
    pub fn column_widths(&self) -> (r: Vec<usize>)
        ensures
            r@.len() == self.row_length,
            forall|c: int|
                0 <= c < self.row_length ==> r@[c] == column_width(
                    self.headers,
                    self.data@,
                    self.row_length as nat,
                    self.num_rows as nat,
                    c,
                    self.num_rows as nat,
                ),
    {
        let cols = self.row_length as usize;
        let mut widths: Vec<usize> = Vec::new();
        let mut c: usize = 0;
        while c < cols
            invariant
                c <= cols,
                cols == self.row_length,
                widths@.len() == c,
                forall|k: int|
                    0 <= k < c ==> widths@[k] == column_width(
                        self.headers,
                        self.data@,
                        cols as nat,
                        self.num_rows as nat,
                        k,
                        0,
                    ),
            decreases cols - c,
        {
            let w = match &self.headers {
                Some(h) => if c < h.len() {
                    let hs = h[c].as_str();
                    assert(hs@ == h@[c as int]@);
                    assert(hs.spec_bytes() == encode_utf8(hs@));
                    hs.len()
                } else {
                    0
                },
                None => 0,
            };
            widths.push(w);
            c = c + 1;
        }
        let mut row: u32 = 0;
        while row < self.num_rows
            invariant
                row <= self.num_rows,
                cols == self.row_length,
                widths@.len() == cols,
                forall|k: int|
                    0 <= k < cols ==> widths@[k] == column_width(
                        self.headers,
                        self.data@,
                        cols as nat,
                        self.num_rows as nat,
                        k,
                        row as nat,
                    ),
            decreases self.num_rows - row,
        {
            let mut col: usize = 0;
            while col < cols
                invariant
                    col <= cols,
                    row < self.num_rows,
                    cols == self.row_length,
                    widths@.len() == cols,
                    forall|k: int|
                        0 <= k < col ==> widths@[k] == column_width(
                            self.headers,
                            self.data@,
                            cols as nat,
                            self.num_rows as nat,
                            k,
                            (row + 1) as nat,
                        ),
                    forall|k: int|
                        col <= k < cols ==> widths@[k] == column_width(
                            self.headers,
                            self.data@,
                            cols as nat,
                            self.num_rows as nat,
                            k,
                            row as nat,
                        ),
                decreases cols - col,
            {
                proof {
                    assert((row as u64) * (cols as u64) <= 0xffff_fffe_0000_0001u64) by (nonlinear_arith)
                        requires
                            row <= 0xffff_ffffu64,
                            cols <= 0xffff_ffffu64,
                    ;
                }
                let index: u64 = (row as u64) * (cols as u64) + (col as u64);
                if index < self.data.len() as u64 {
                    let ds = self.data[index as usize].as_str();
                    assert(ds.spec_bytes() == encode_utf8(ds@));
                    let len = ds.len();
                    if len > widths[col] {
                        widths.set(col, len);
                    }
                }
                col = col + 1;
            }
            row = row + 1;
        }
        widths
    }
}

/// The printed width of column `c` over its header and the first `r` rows:
/// the largest UTF-8 byte length.
pub open spec fn column_width(
    headers: Option<Vec<String>>,
    data: Seq<String>,
    cols: nat,
    rows: nat,
    c: int,
    r: nat,
) -> nat
    decreases r,
{
    if r == 0 {
        match headers {
            Some(h) => if 0 <= c < h@.len() {
                byte_len(h@[c])
            } else {
                0
            },
            None => 0,
        }
    } else {
        let prev = column_width(headers, data, cols, rows, c, (r - 1) as nat);
        let idx = (r - 1) * cols + c;
        if idx < data.len() && byte_len(data[idx]) > prev {
            byte_len(data[idx])
        } else {
            prev
        }
    }
}

/// The UTF-8 length of a string.
pub open spec fn byte_len(s: String) -> nat {
    (encode_utf8(s@).len() as usize) as nat
}

fn classify_chars(v: &Vec<char>) -> (r: ColumnType)
    ensures
        r == classify_spec(v@),
{
    let t = trim_chars(v);
    if t.len() == 0 {
        return ColumnType::Empty;
    }
    let l = lower_chars(&t);
    let words: Vec<Vec<char>> = vec![
        vec!['t', 'r', 'u', 'e'],
        vec!['f', 'a', 'l', 's', 'e'],
        vec!['y', 'e', 's'],
        vec!['n', 'o'],
        vec!['t'],
        vec!['f'],
    ];
    assert(words@[0]@ == seq!['t', 'r', 'u', 'e']);
    assert(words@[1]@ == seq!['f', 'a', 'l', 's', 'e']);
    assert(words@[2]@ == seq!['y', 'e', 's']);
    assert(words@[3]@ == seq!['n', 'o']);
    assert(words@[4]@ == seq!['t']);
    assert(words@[5]@ == seq!['f']);
    let mut i: usize = 0;
    while i < words.len()
        invariant
            i <= words.len() == 6,
            t@ == trim(v@),
            t@.len() > 0,
            l@ == lower_seq(t@),
            forall|k: int| 0 <= k < i ==> l@ != words@[k]@,
            words@[0]@ == seq!['t', 'r', 'u', 'e'],
            words@[1]@ == seq!['f', 'a', 'l', 's', 'e'],
            words@[2]@ == seq!['y', 'e', 's'],
            words@[3]@ == seq!['n', 'o'],
            words@[4]@ == seq!['t'],
            words@[5]@ == seq!['f'],
        decreases words.len() - i,
    {
        if chars_eq(&l, &words[i]) {
            proof {
                assert(l@ == words@[i as int]@);
                if i == 0 {
                } else if i == 1 {
                } else if i == 2 {
                } else if i == 3 {
                } else if i == 4 {
                } else {
                }
                assert(bool_word(lower_seq(t@)));
            }
            return ColumnType::Boolean;
        }
        i = i + 1;
    }
    if parse_i64(&t).is_some() {
        return ColumnType::Integer;
    }
    if is_float_literal(&t) {
        return ColumnType::Float;
    }
    ColumnType::String
}

proof fn lemma_flatten_push(rows: Seq<Seq<Seq<char>>>, row: Seq<Seq<char>>)
    ensures
        rows.push(row).flatten() == rows.flatten() + row,
{
    rows.lemma_flatten_push(row);
}

/// The byte length of the cell of column `c` in row `row`, or 0 when the
/// row is short of that cell.
pub open spec fn cell_bytes(data: Seq<String>, cols: nat, row: int, c: int) -> nat {
    let idx = row * cols + c;
    if 0 <= idx < data.len() {
        byte_len(data[idx])
    } else {
        0
    }
}

/// The byte length of the header of column `c`, or 0 when there is none.
pub open spec fn header_bytes(headers: Option<Vec<String>>, c: int) -> nat {
    match headers {
        Some(h) => if 0 <= c < h@.len() {
            byte_len(h@[c])
        } else {
            0
        },
        None => 0,
    }
}

/// A column's printed width is at least the byte length of its header and
/// of its cell in every row counted, and is one of those lengths (or 0):
/// the widest of them.
pub proof fn law_column_width_is_widest(headers: Option<Vec<String>>, data: Seq<String>, cols: nat, rows: nat, c: int, r: nat)
    requires
        0 <= c,
    ensures
        forall|row: int| 0 <= row < r ==> #[trigger] cell_bytes(data, cols, row, c) <= column_width(headers, data, cols, rows, c, r),
        header_bytes(headers, c) <= column_width(headers, data, cols, rows, c, r),
        column_width(headers, data, cols, rows, c, r) == header_bytes(headers, c)
            || exists|row: int| 0 <= row < r && #[trigger] cell_bytes(data, cols, row, c) == column_width(headers, data, cols, rows, c, r),
    decreases r,
{
    if r > 0 {
        law_column_width_is_widest(headers, data, cols, rows, c, (r - 1) as nat);
        let w = column_width(headers, data, cols, rows, c, r);
        let prev = column_width(headers, data, cols, rows, c, (r - 1) as nat);
        assert(cell_bytes(data, cols, r - 1, c) <= w);
        assert forall|row: int| 0 <= row < r implies #[trigger] cell_bytes(data, cols, row, c) <= w by {
            if row < r - 1 {
                assert(cell_bytes(data, cols, row, c) <= prev);
            }
        }
        if w != prev {
            assert(cell_bytes(data, cols, r - 1, c) == w);
        } else if prev != header_bytes(headers, c) {
            let row = choose|row: int| 0 <= row < r - 1 && #[trigger] cell_bytes(data, cols, row, c) == prev;
            assert(cell_bytes(data, cols, row, c) == w);
        }
    }
}

/// Merging column types is commutative.
pub proof fn law_merge_commutative(a: ColumnType, b: ColumnType)
    ensures
        merge_spec(a, b) == merge_spec(b, a),
{
}

/// Merging column types is associative.
pub proof fn law_merge_associative(a: ColumnType, b: ColumnType, c: ColumnType)
    ensures
        merge_spec(merge_spec(a, b), c) == merge_spec(a, merge_spec(b, c)),
{
}

/// `Empty` is neutral and merging a type with itself changes nothing.
pub proof fn law_merge_identity(a: ColumnType)
    ensures
        merge_spec(ColumnType::Empty, a) == a,
        merge_spec(a, ColumnType::Empty) == a,
        merge_spec(a, a) == a,
{
}

/// A column's type accounts for every one of its cells: merging any cell's
/// type into it leaves it unchanged.
pub proof fn law_column_type_covers_cells(cells: Seq<Seq<char>>, cols: nat, c: nat, r: nat, row: nat)
    requires
        row < r,
    ensures
        merge_spec(column_type(cells, cols, c, r), cell_type(cells, (row * cols + c) as int))
            == column_type(cells, cols, c, r),
    decreases r,
{
    if row < r - 1 {
        law_column_type_covers_cells(cells, cols, c, (r - 1) as nat, row);
    }
}

/* The table as printed. */

/// `s` padded with spaces on the right to `w` characters (`{:<w$}`).
pub open spec fn padded(s: Seq<char>, w: nat) -> Seq<char> {
    if s.len() >= w {
        s
    } else {
        s + Seq::new((w - s.len()) as nat, |i: int| ' ')
    }
}

/// `w` dashes.
pub open spec fn dashes(w: nat) -> Seq<char> {
    Seq::new(w, |i: int| '-')
}

/// Cell `i` of a row of texts, or the empty text past its end.
pub open spec fn cell_at(cells: Seq<String>, i: int) -> Seq<char> {
    if 0 <= i < cells.len() {
        cells[i]@
    } else {
        Seq::empty()
    }
}

/// One printed row: each cell padded to its column's width, the cells
/// separated by `sep`.
pub open spec fn row_line(cells: Seq<Seq<char>>, widths: Seq<nat>, sep: Seq<char>) -> Seq<char> {
    join_with(Seq::new(cells.len(), |c: int| padded(cells[c], widths[c])), sep)
}

pub open spec fn table_widths(csv: CSV) -> Seq<nat> {
    Seq::new(
        csv.row_length as nat,
        |c: int| column_width(csv.headers, csv.data@, csv.row_length as nat, csv.num_rows as nat, c, csv.num_rows as nat),
    )
}

/// The header row and a rule of dashes under it, when there is a header.
pub open spec fn table_head(headers: Option<Vec<String>>, cols: nat, w: Seq<nat>, sep: Seq<char>) -> Seq<Seq<char>> {
    match headers {
        Some(h) => seq![
            row_line(Seq::new(cols, |c: int| cell_at(h@, c)), w, sep),
            join_with(Seq::new(cols, |c: int| dashes(w[c])), "-+-"@),
        ],
        None => Seq::empty(),
    }
}

/// The lines that show the table: `[empty csv]` when rows have no fields;
/// else, when there is a header, the header row and a rule of dashes, then
/// every data row.
pub open spec fn table_lines_spec(csv: CSV) -> Seq<Seq<char>> {
    let cols = csv.row_length as nat;
    let w = table_widths(csv);
    let sep = seq![' '] + csv.delim@ + seq![' '];
    if cols == 0 {
        seq!["[empty csv]"@]
    } else {
        table_head(csv.headers, cols, w, sep) + Seq::new(
            csv.num_rows as nat,
            |r: int| row_line(Seq::new(cols, |c: int| cell_at(csv.data@, r * cols + c)), w, sep),
        )
    }
}

fn padded_chars(s: &Vec<char>, w: usize) -> (r: Vec<char>)
    ensures
        r@ == padded(s@, w as nat),
{
    let mut r = slice_chars(s, 0, s.len());
    assert(r@ =~= s@);
    if s.len() >= w {
        return r;
    }
    let mut i: usize = s.len();
    while i < w
        invariant
            s.len() <= i <= w,
            r@ == s@ + Seq::new((i - s.len()) as nat, |j: int| ' '),
        decreases w - i,
    {
        r.push(' ');
        i = i + 1;
        assert(r@ =~= s@ + Seq::new((i - s.len()) as nat, |j: int| ' '));
    }
    r
}

fn dash_chars(w: usize) -> (r: Vec<char>)
    ensures
        r@ == dashes(w as nat),
{
    let mut r: Vec<char> = Vec::new();
    let mut i: usize = 0;
    while i < w
        invariant
            i <= w,
            r@ == dashes(i as nat),
        decreases w - i,
    {
        r.push('-');
        i = i + 1;
        assert(r@ =~= dashes(i as nat));
    }
    r
}

pub open spec fn nat_widths(w: Seq<usize>) -> Seq<nat> {
    w.map_values(|x: usize| x as nat)
}

pub open spec fn texts(v: Seq<Vec<char>>) -> Seq<Seq<char>> {
    v.map_values(|x: Vec<char>| x@)
}

fn row_chars(cells: &Vec<Vec<char>>, widths: &Vec<usize>, sep: &Vec<char>) -> (r: Vec<char>)
    requires
        cells.len() == widths.len(),
    ensures
        r@ == row_line(texts(cells@), nat_widths(widths@), sep@),
{
    let ghost cs = texts(cells@);
    let ghost ws = nat_widths(widths@);
    let mut parts: Vec<Vec<char>> = Vec::new();
    let mut i: usize = 0;
    while i < cells.len()
        invariant
            i <= cells.len() == widths.len(),
            cs == texts(cells@),
            ws == nat_widths(widths@),
            texts(parts@) == Seq::new(i as nat, |c: int| padded(cs[c], ws[c])),
        decreases cells.len() - i,
    {
        let ghost before = parts@;
        let p = padded_chars(&cells[i], widths[i]);
        parts.push(p);
        proof {
            lemma_map_push(before, p, |x: Vec<char>| x@);
            assert(cs[i as int] == cells@[i as int]@);
            assert(ws[i as int] == widths@[i as int] as nat);
        }
        i = i + 1;
        assert(texts(parts@) =~= Seq::new(i as nat, |c: int| padded(cs[c], ws[c])));
    }
    assert(Seq::new(i as nat, |c: int| padded(cs[c], ws[c])) =~= Seq::new(cs.len(), |c: int| padded(cs[c], ws[c])));
    join_chars(&parts, sep)
}

impl CSV {
    /// The lines that show the table (see `table_lines_spec`); the summary
    /// above them is `summary_lines`.
    pub fn table_lines(&self) -> (r: Vec<String>)
        ensures
            r@.map_values(|s: String| s@) == table_lines_spec(*self),
    {
        if self.row_length == 0 {
            let r = vec![string_of(&chars_of("[empty csv]"))];
            assert(r@.map_values(|s: String| s@) =~= seq!["[empty csv]"@]);
            return r;
        }
        let cols = self.row_length as usize;
        let w = self.column_widths();
        let ghost ws = table_widths(*self);
        assert(nat_widths(w@) =~= ws);
        let mut sep = vec![' '];
        append_chars(&mut sep, &chars_of(self.delim.as_str()));
        sep.push(' ');
        assert(sep@ =~= seq![' '] + self.delim@ + seq![' ']);
        let mut out: Vec<String> = Vec::new();
        let ghost head: Seq<Seq<char>> = table_head(self.headers, cols as nat, ws, sep@);
        match &self.headers {
            Some(h) => {
                let mut cells: Vec<Vec<char>> = Vec::new();
                let mut rule: Vec<Vec<char>> = Vec::new();
                let mut c: usize = 0;
                while c < cols
                    invariant
                        c <= cols == w.len(),
                        texts(cells@) == Seq::new(c as nat, |k: int| cell_at(h@, k)),
                        texts(rule@) == Seq::new(c as nat, |k: int| dashes(nat_widths(w@)[k])),
                    decreases cols - c,
                {
                    let cell = if c < h.len() {
                        chars_of(h[c].as_str())
                    } else {
                        Vec::new()
                    };
                    let ghost b1 = cells@;
                    let ghost b2 = rule@;
                    cells.push(cell);
                    let d = dash_chars(w[c]);
                    rule.push(d);
                    proof {
                        lemma_map_push(b1, cell, |x: Vec<char>| x@);
                        lemma_map_push(b2, d, |x: Vec<char>| x@);
                    }
                    c = c + 1;
                    assert(texts(cells@) =~= Seq::new(c as nat, |k: int| cell_at(h@, k)));
                    assert(texts(rule@) =~= Seq::new(c as nat, |k: int| dashes(nat_widths(w@)[k])));
                }
                let line = row_chars(&cells, &w, &sep);
                let rule_sep = chars_of("-+-");
                let rule_line = join_chars(&rule, &rule_sep);
                out.push(string_of(&line));
                out.push(string_of(&rule_line));
                assert(Seq::new(cols as nat, |k: int| dashes(nat_widths(w@)[k])) =~= Seq::new(cols as nat, |k: int| dashes(ws[k])));
                assert(out@.map_values(|s: String| s@) =~= head);
            },
            None => {
                assert(out@.map_values(|s: String| s@) =~= head);
            },
        }
        let rows = self.num_rows;
        let mut r: u32 = 0;
        while r < rows
            invariant
                r <= rows == self.num_rows,
                cols == self.row_length,
                cols > 0,
                w.len() == cols,
                nat_widths(w@) == ws,
                ws == table_widths(*self),
                sep@ == seq![' '] + self.delim@ + seq![' '],
                out@.map_values(|s: String| s@) == head + Seq::new(
                    r as nat,
                    |i: int| row_line(Seq::new(cols as nat, |c: int| cell_at(self.data@, i * cols + c)), ws, sep@),
                ),
            decreases rows - r,
        {
            let mut cells: Vec<Vec<char>> = Vec::new();
            let mut c: usize = 0;
            while c < cols
                invariant
                    c <= cols,
                    cols == self.row_length,
                    r < rows == self.num_rows,
                    texts(cells@) == Seq::new(c as nat, |k: int| cell_at(self.data@, r * cols + k)),
                decreases cols - c,
            {
                proof {
                    assert((r as u64) * (cols as u64) <= 0xffff_fffe_0000_0001u64) by (nonlinear_arith)
                        requires
                            r <= 0xffff_ffffu64,
                            cols <= 0xffff_ffffu64,
                    ;
                }
                let index: u64 = (r as u64) * (cols as u64) + (c as u64);
                let cell = if index < self.data.len() as u64 {
                    chars_of(self.data[index as usize].as_str())
                } else {
                    Vec::new()
                };
                let ghost b1 = cells@;
                cells.push(cell);
                proof {
                    lemma_map_push(b1, cell, |x: Vec<char>| x@);
                }
                c = c + 1;
                assert(texts(cells@) =~= Seq::new(c as nat, |k: int| cell_at(self.data@, r * cols + k)));
            }
            let line = row_chars(&cells, &w, &sep);
            let ghost before = out@;
            let ls = string_of(&line);
            out.push(ls);
            proof {
                lemma_map_push(before, ls, |s: String| s@);
            }
            r = r + 1;
            assert(out@.map_values(|s: String| s@) =~= head + Seq::new(
                r as nat,
                |i: int| row_line(Seq::new(cols as nat, |c: int| cell_at(self.data@, i * cols + c)), ws, sep@),
            ));
        }
        out
    }
}

/* The summary printed above the table. */

/// The text `format!("{:?}", s)` gives for a string: the string in double
/// quotes with the characters that `char::escape_debug` escapes escaped.
pub uninterp spec fn str_debug(s: Seq<char>) -> Seq<char>;

/// Calls `<str as Debug>::fmt` through `format!("{:?}", s)`; the result is
/// named `str_debug`, a function of the text only.
#[verifier::external_body]
fn debug_text(s: &str) -> (r: String)
    ensures
        r@ == str_debug(s@),
{
    format!("{:?}", s)
}

/// The variant name of a column type, as `{:?}` prints it.
pub open spec fn column_type_name(t: ColumnType) -> Seq<char> {
    match t {
        ColumnType::Empty => "Empty"@,
        ColumnType::Boolean => "Boolean"@,
        ColumnType::Integer => "Integer"@,
        ColumnType::Float => "Float"@,
        ColumnType::String => "String"@,
    }
}

/// `{:?}` of a list of column types: `[Integer, String]`.
pub open spec fn column_types_debug(ts: Seq<ColumnType>) -> Seq<char> {
    "["@ + join_with(ts.map_values(|t: ColumnType| column_type_name(t)), ", "@) + "]"@
}

/// The summary lines above the table: the file path, the delimiter as
/// `{:?}` shows it, the numbers of rows, fields per row and cells, whether
/// there is a header, the column types, and two blank lines.
pub open spec fn summary_lines_spec(csv: CSV) -> Seq<Seq<char>> {
    seq![
        "Filepath   : "@ + csv.fp@,
        "Delimiter  : "@ + str_debug(csv.delim@),
        "Rows       : "@ + nat_text(csv.num_rows as nat),
        "Row length : "@ + nat_text(csv.row_length as nat),
        "Has header : "@ + (if csv.has_header { "true"@ } else { "false"@ }),
        "Cells      : "@ + nat_text(csv.data@.len()),
        "Col types  : "@ + column_types_debug(csv.column_types@),
        Seq::<char>::empty(),
        Seq::<char>::empty(),
    ]
}

impl ColumnType {
    /// The variant name, as `{:?}` prints it.
    pub fn debug_name(&self) -> (r: &'static str)
        ensures
            r@ == column_type_name(*self),
    {
        match self {
            ColumnType::Empty => "Empty",
            ColumnType::Boolean => "Boolean",
            ColumnType::Integer => "Integer",
            ColumnType::Float => "Float",
            ColumnType::String => "String",
        }
    }
}

fn labelled(label: &str, value: &Vec<char>) -> (r: String)
    ensures
        r@ == label@ + value@,
{
    let mut t = chars_of(label);
    append_chars(&mut t, value);
    string_of(&t)
}

impl CSV {
    /// The summary lines above the table (see `summary_lines_spec`).
    pub fn summary_lines(&self) -> (r: Vec<String>)
        ensures
            r@.map_values(|s: String| s@) == summary_lines_spec(*self),
    {
        let mut names: Vec<Vec<char>> = Vec::new();
        let mut i: usize = 0;
        while i < self.column_types.len()
            invariant
                i <= self.column_types.len(),
                names@.map_values(|v: Vec<char>| v@) == self.column_types@.take(i as int).map_values(
                    |t: ColumnType| column_type_name(t),
                ),
            decreases self.column_types.len() - i,
        {
            let ghost before = names@;
            let n = chars_of(self.column_types[i].debug_name());
            names.push(n);
            i = i + 1;
            proof {
                lemma_map_push(before, n, |v: Vec<char>| v@);
                assert(self.column_types@.take(i as int) =~= self.column_types@.take(i - 1).push(
                    self.column_types@[i - 1],
                ));
                lemma_map_push(self.column_types@.take(i - 1), self.column_types@[i - 1], |t: ColumnType| column_type_name(t));
            }
        }
        assert(self.column_types@.take(i as int) =~= self.column_types@);
        let mut types = chars_of("[");
        append_chars(&mut types, &join_chars(&names, &chars_of(", ")));
        append_chars(&mut types, &chars_of("]"));
        let flag = if self.has_header { chars_of("true") } else { chars_of("false") };
        let r = vec![
            labelled("Filepath   : ", &chars_of(self.fp.as_str())),
            labelled("Delimiter  : ", &chars_of(debug_text(self.delim.as_str()).as_str())),
            labelled("Rows       : ", &u64_text(self.num_rows as u64)),
            labelled("Row length : ", &u64_text(self.row_length as u64)),
            labelled("Has header : ", &flag),
            labelled("Cells      : ", &u64_text(self.data.len() as u64)),
            labelled("Col types  : ", &types),
            String::new(),
            String::new(),
        ];
        assert(r@.map_values(|s: String| s@) =~= summary_lines_spec(*self));
        r
    }

    /// Everything printed for the table: the summary lines, then the table
    /// lines.
    pub fn printed_lines(&self) -> (r: Vec<String>)
        ensures
            r@.map_values(|s: String| s@) == summary_lines_spec(*self) + table_lines_spec(*self),
    {
        let mut r = self.summary_lines();
        let t = self.table_lines();
        let ghost a = r@;
        let mut i: usize = 0;
        while i < t.len()
            invariant
                i <= t.len(),
                r@.map_values(|s: String| s@) == a.map_values(|s: String| s@) + t@.take(i as int).map_values(|s: String| s@),
            decreases t.len() - i,
        {
            let ghost before = r@;
            let line = t[i].clone();
            r.push(line);
            i = i + 1;
            proof {
                lemma_map_push(before, line, |s: String| s@);
                assert(t@.take(i as int) =~= t@.take(i - 1).push(t@[i - 1]));
                lemma_map_push(t@.take(i - 1), t@[i - 1], |s: String| s@);
                assert(r@.map_values(|s: String| s@) =~= a.map_values(|s: String| s@) + t@.take(i as int).map_values(|s: String| s@));
            }
        }
        assert(t@.take(i as int) =~= t@);
        r
    }
}

} // verus!
