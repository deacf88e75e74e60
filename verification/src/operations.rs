//! Operations on values and tables: guessing the type of a literal, and
//! adding an unsigned integer to every cell of a numeric column.

use vstd::prelude::*;
use crate::csv::{strings, CSV};
use crate::environment::{infer_type_spec, Type};
use crate::text::{append_chars, chars_of, lemma_map_push, string_of, trim, trim_chars};
use crate::numbers::{
    float_literal, i64_text, int_text, is_float_literal, nat_text, parse_i64, parse_i64_spec,
    u64_text,
};
use crate::binary64::{
    f64_bits_of, f64_bits_to_i64, f64_of_int, f64_to_i64, lemma_rounded_magnitude_bound,
    lemma_small_int_exact, round_magnitude, rounded_magnitude,
};

verus! {

/// The type of a literal (see `Type::infer_type`).
pub fn guess_type(s: String) -> (r: Type)
    ensures
        r == infer_type_spec(s@),
{
    Type::infer_type(s.as_str())
}

/// Whether the trimmed text parses as an `i64`.
pub fn is_integer_string(s: &str) -> (r: bool)
    ensures
        r == (parse_i64_spec(trim(s@)) is Some),
{
    let t = trim_chars(&chars_of(s));
    parse_i64(&t).is_some()
}

/// Why a cell is not a number: it is blank, or the trimmed text does not
/// parse as an `f64`.
pub open spec fn number_error(s: Seq<char>) -> Option<Seq<char>> {
    let t = trim(s);
    if t.len() == 0 {
        Some("input is empty"@)
    } else if !float_literal(t) {
        Some("could not parse '"@ + t + "' as a number"@)
    } else {
        None
    }
}

/// Checks that a cell holds a number (`parse_number` succeeds on it).
pub fn check_number(s: &Vec<char>) -> (r: Option<Vec<char>>)
    ensures
        r matches Some(e) ==> number_error(s@) == Some(e@),
        r is None ==> number_error(s@) is None,
{
    let t = trim_chars(s);
    if t.len() == 0 {
        return Some(chars_of("input is empty"));
    }
    if !is_float_literal(&t) {
        let mut e = chars_of("could not parse '");
        append_chars(&mut e, &t);
        append_chars(&mut e, &chars_of("' as a number"));
        return Some(e);
    }
    None
}

/// The first problem that stops `add_uint` from touching column `col`, when
/// rows `r..rows` are checked in order.
pub open spec fn add_uint_error_from(
    cells: Seq<Seq<char>>,
    cols: nat,
    col: nat,
    r: nat,
    rows: nat,
) -> Option<Seq<char>>
    decreases rows - r,
{
    if r >= rows {
        None
    } else {
        let idx = r * cols + col;
        if idx >= cells.len() {
            Some("error: row "@ + nat_text(r + 1) + " is missing column "@ + nat_text(col))
        } else if number_error(cells[idx as int]) is Some {
            Some("error: row "@ + nat_text(r + 1) + " column "@ + nat_text(col) + ": "@
                + number_error(cells[idx as int])->0)
        } else {
            add_uint_error_from(cells, cols, col, r + 1, rows)
        }
    }
}

/// The first problem that stops `add_uint`.
pub open spec fn add_uint_error(cells: Seq<Seq<char>>, cols: nat, col: nat, rows: nat) -> Option<
    Seq<char>,
> {
    if col >= cols {
        Some("error: invalid column index"@)
    } else {
        add_uint_error_from(cells, cols, col, 0, rows)
    }
}

/// The signed value of `i as f64`.
pub open spec fn int_as_f64(i: int) -> int {
    if i < 0 {
        -(rounded_magnitude((-i) as nat) as int)
    } else if i == 0 {
        0
    } else {
        rounded_magnitude(i as nat) as int
    }
}

/// The text an integer cell `i` becomes after adding `val`: the sum of the
/// two as binary64 values, printed as `i64`.
pub open spec fn integer_cell_plus(i: int, val: nat) -> Seq<char> {
    int_text(f64_to_i64(f64_of_int(int_as_f64(i) + val)))
}

/// The cell after `add_uint`: an integer cell gets its new text; any other
/// number is left for float arithmetic.
pub open spec fn cell_after_add(cell: Seq<char>, val: nat) -> Seq<char> {
    match parse_i64_spec(trim(cell)) {
        Some(i) => integer_cell_plus(i, val),
        None => cell,
    }
}

/// The indices of the cells of column `col`, row by row from row `r`, that
/// are numbers but not integers (those need float arithmetic).
pub open spec fn float_cells_from(cells: Seq<Seq<char>>, cols: nat, col: nat, r: nat, rows: nat) -> Seq<usize>
    decreases rows - r,
{
    if r >= rows {
        Seq::empty()
    } else {
        let idx = r * cols + col;
        let rest = float_cells_from(cells, cols, col, r + 1, rows);
        if 0 <= idx < cells.len() && parse_i64_spec(trim(cells[idx as int])) is None {
            seq![idx as usize] + rest
        } else {
            rest
        }
    }
}

/// Whether `idx` is the cell of column `col` in one of the first `rows` rows.
pub open spec fn in_column(idx: int, cols: nat, col: nat, rows: nat) -> bool {
    exists|r: int| 0 <= r < rows && idx == #[trigger] row_index(r, cols, col)
}

/// The index of the cell of column `col` in row `r`.
pub open spec fn row_index(r: int, cols: nat, col: nat) -> int {
    r * cols + col
}

/// Adds `val` to every cell of column `col`. Fails, changing nothing, when
/// the column does not exist, a row lacks the cell, or a cell is not a
/// number (the first such row is reported). Otherwise every integer cell
/// holds the sum, written as an integer, and the indices of the other cells
/// of the column are returned in row order: their new value is the float
/// sum, which float arithmetic gives.
pub fn add_uint(file: &mut CSV, val: u32, col: usize) -> (r: Result<Vec<usize>, String>)
    ensures
        ({
            let cells = strings(old(file).data@);
            let cols = old(file).row_length as nat;
            let rows = old(file).num_rows as nat;
            &&& r is Err <==> add_uint_error(cells, cols, col as nat, rows) is Some
            &&& r matches Err(e) ==> add_uint_error(cells, cols, col as nat, rows) == Some(e@)
                && final(file).data@ == old(file).data@
            &&& r matches Ok(p) ==> {
                &&& p@ == float_cells_from(cells, cols, col as nat, 0, rows)
                &&& strings(final(file).data@).len() == cells.len()
                &&& forall|k: int|
                    0 <= k < cells.len() ==> strings(final(file).data@)[k] == if in_column(
                        k,
                        cols,
                        col as nat,
                        rows,
                    ) {
                        cell_after_add(cells[k], val as nat)
                    } else {
                        cells[k]
                    }
            }
            &&& final(file).row_length == old(file).row_length
            &&& final(file).num_rows == old(file).num_rows
            &&& final(file).headers == old(file).headers
            &&& final(file).column_types == old(file).column_types
            &&& final(file).fp == old(file).fp
            &&& final(file).delim == old(file).delim
            &&& final(file).has_header == old(file).has_header
            &&& r is Err ==> *final(file) == *old(file)
        }),
{
    let ghost cells = strings(file.data@);
    let ghost cols = file.row_length as nat;
    let ghost rows = file.num_rows as nat;
    if col >= file.row_length as usize {
        return Err(string_of(&chars_of("error: invalid column index")));
    }
    // validation pass
    let mut row: u32 = 0;
    while row < file.num_rows
        invariant
            *file == *old(file),
            row <= file.num_rows,
            col < file.row_length,
            cells == strings(file.data@),
            cols == file.row_length,
            rows == file.num_rows,
            add_uint_error(cells, cols, col as nat, rows) == add_uint_error_from(
                cells,
                cols,
                col as nat,
                row as nat,
                rows,
            ),
        decreases file.num_rows - row,
    {
        proof {
            assert((row as u64) * (file.row_length as u64) <= 0xffff_fffe_0000_0001u64)
                by (nonlinear_arith)
                requires
                    row <= 0xffff_ffffu64,
                    file.row_length <= 0xffff_ffffu64,
            ;
        }
        let index: u64 = (row as u64) * (file.row_length as u64) + (col as u64);
        if index >= file.data.len() as u64 {
            let mut e = chars_of("error: row ");
            append_chars(&mut e, &u64_text(row as u64 + 1));
            append_chars(&mut e, &chars_of(" is missing column "));
            append_chars(&mut e, &u64_text(col as u64));
            return Err(string_of(&e));
        }
        let cell = chars_of(file.data[index as usize].as_str());
        match check_number(&cell) {
            Some(why) => {
                let mut e = chars_of("error: row ");
                append_chars(&mut e, &u64_text(row as u64 + 1));
                append_chars(&mut e, &chars_of(" column "));
                append_chars(&mut e, &u64_text(col as u64));
                append_chars(&mut e, &chars_of(": "));
                append_chars(&mut e, &why);
                return Err(string_of(&e));
            },
            None => {},
        }
        row = row + 1;
    }
    // mutation pass
    let mut pending: Vec<usize> = Vec::new();
    let mut row: u32 = 0;
    while row < file.num_rows
        invariant
            file.row_length == old(file).row_length,
            file.num_rows == old(file).num_rows,
            file.headers == old(file).headers,
            file.column_types == old(file).column_types,
            file.fp == old(file).fp,
            file.delim == old(file).delim,
            file.has_header == old(file).has_header,
            row <= file.num_rows,
            col < file.row_length,
            cells.len() == file.data@.len(),
            cols == file.row_length,
            rows == file.num_rows,
            add_uint_error_from(cells, cols, col as nat, 0, rows) is None,
            pending@ + float_cells_from(cells, cols, col as nat, row as nat, rows)
                == float_cells_from(cells, cols, col as nat, 0, rows),
            forall|k: int|
                0 <= k < cells.len() ==> strings(file.data@)[k] == if in_column(
                    k,
                    cols,
                    col as nat,
                    row as nat,
                ) {
                    cell_after_add(cells[k], val as nat)
                } else {
                    cells[k]
                },
        decreases file.num_rows - row,
    {
        proof {
            assert((row as u64) * (file.row_length as u64) <= 0xffff_fffe_0000_0001u64)
                by (nonlinear_arith)
                requires
                    row <= 0xffff_ffffu64,
                    file.row_length <= 0xffff_ffffu64,
            ;
            lemma_valid_rows(cells, cols, col as nat, 0, rows, row as nat);
        }
        let index: u64 = (row as u64) * (file.row_length as u64) + (col as u64);
        assert(index == row * cols + col);
        assert(index < file.data.len());
        let ix = index as usize;
        let ghost before = strings(file.data@);
        let ghost old_pending = pending@;
        let cell = chars_of(file.data[ix].as_str());
        let t = trim_chars(&cell);
        let ghost before = strings(file.data@);
        assert(before[ix as int] == cells[ix as int]) by {
            lemma_not_in_column(cols, col as nat, row as nat);
            assert(ix == row * cols + col);
        }
        match parse_i64(&t) {
            Some(i) => {
                let text = integer_plus(i, val);
                let st = string_of(&text);
                file.data.set(ix, st);
                proof {
                    assert(strings(file.data@) =~= before.update(ix as int, cell_after_add(cells[ix as int], val as nat)));
                    assert(parse_i64_spec(trim(cells[ix as int])) is Some);
                    assert(pending@ == old_pending);
                }
            },
            None => {
                pending.push(ix);
                proof {
                    assert(strings(file.data@) =~= before);
                    assert(parse_i64_spec(trim(cells[ix as int])) is None);
                    assert(pending@ == old_pending.push(ix));
                }
            },
        }
        proof {
            assert forall|k: int| 0 <= k < cells.len() implies strings(file.data@)[k] == if in_column(
                k,
                cols,
                col as nat,
                (row + 1) as nat,
            ) {
                cell_after_add(cells[k], val as nat)
            } else {
                cells[k]
            } by {
                if k == ix {
                    assert(k == row_index(row as int, cols, col as nat));
                    assert(in_column(k, cols, col as nat, (row + 1) as nat));
                    lemma_not_in_column(cols, col as nat, row as nat);
                    assert(!in_column(k, cols, col as nat, row as nat));
                } else {
                    lemma_in_column_step(k, cols, col as nat, row as nat);
                }
            }
            let rest = float_cells_from(cells, cols, col as nat, (row + 1) as nat, rows);
            assert(float_cells_from(cells, cols, col as nat, row as nat, rows) == if parse_i64_spec(
                trim(cells[ix as int]),
            ) is None {
                seq![ix] + rest
            } else {
                rest
            });
            if parse_i64_spec(trim(cells[ix as int])) is None {
                assert(old_pending + (seq![ix] + rest) =~= old_pending.push(ix) + rest);
            }
        }
        row = row + 1;
    }
    proof {
        assert(float_cells_from(cells, cols, col as nat, row as nat, rows) =~= Seq::<usize>::empty());
        assert(pending@ + Seq::<usize>::empty() =~= pending@);
    }
    Ok(pending)
}

/// The text of `(i as f64 + val as f64) as i64`.
fn integer_plus(i: i64, val: u32) -> (r: Vec<char>)
    ensures
        r@ == integer_cell_plus(i as int, val as nat),
{
    let x: i128 = if i == 0 {
        0
    } else if i < 0 {
        let a: u64 = if i == i64::MIN {
            0x8000_0000_0000_0000u64
        } else {
            (-i) as u64
        };
        proof {
            lemma_rounded_magnitude_bound(a as nat);
        }
        -(round_magnitude(a) as i128)
    } else {
        proof {
            lemma_rounded_magnitude_bound(i as nat);
        }
        round_magnitude(i as u64) as i128
    };
    let s: i128 = x + (val as i128);
    let neg = s < 0;
    let mag: u64 = if neg {
        (-s) as u64
    } else {
        s as u64
    };
    let bits = f64_bits_of(neg, mag);
    i64_text(f64_bits_to_i64(bits))
}

proof fn lemma_not_in_column(cols: nat, col: nat, row: nat)
    requires
        col < cols,
    ensures
        !in_column((row * cols + col) as int, cols, col, row),
{
    if in_column((row * cols + col) as int, cols, col, row) {
        let r = choose|r: int| 0 <= r < row && row * cols + col == #[trigger] row_index(r, cols, col);
        assert(r * cols < row * cols) by (nonlinear_arith)
            requires
                0 <= r < row,
                cols > 0,
        ;
    }
}

proof fn lemma_in_column_step(k: int, cols: nat, col: nat, row: nat)
    requires
        k != row * cols + col,
    ensures
        in_column(k, cols, col, row + 1) == in_column(k, cols, col, row),
{
    if in_column(k, cols, col, row + 1) {
        let r = choose|r: int| 0 <= r < row + 1 && k == #[trigger] row_index(r, cols, col);
        assert(r != row);
        assert(in_column(k, cols, col, row));
    }
    if in_column(k, cols, col, row) {
        let r = choose|r: int| 0 <= r < row && k == #[trigger] row_index(r, cols, col);
        assert(0 <= r < row + 1 && k == row_index(r, cols, col));
    }
}

/// When no row from `r` on has a problem, each of those rows holds a number
/// in column `col`.
proof fn lemma_valid_rows(cells: Seq<Seq<char>>, cols: nat, col: nat, r: nat, rows: nat, row: nat)
    requires
        add_uint_error_from(cells, cols, col, r, rows) is None,
        r <= row < rows,
    ensures
        row * cols + col < cells.len(),
        number_error(cells[(row * cols + col) as int]) is None,
    decreases row - r,
{
    if r < row {
        lemma_valid_rows(cells, cols, col, r + 1, rows, row);
    }
}

/// Adding to a small integer cell gives the exact integer sum.
pub proof fn law_add_uint_exact(i: int, val: nat)
    requires
        -0x20_0000_0000_0000 < i < 0x20_0000_0000_0000,
        -0x20_0000_0000_0000 < i + val < 0x20_0000_0000_0000,
    ensures
        integer_cell_plus(i, val) == int_text(i + val),
{
    crate::binary64::lemma_two_pow_values();
    crate::binary64::lemma_bit_length_at_most((if i < 0 { -i } else { i }) as nat, 53);
    assert(int_as_f64(i) == i);
    lemma_small_int_exact(i + val);
}

} // verus!
