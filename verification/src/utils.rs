//! Token predicates: keyword tests and the numeric-literal test used by the
//! evaluator's type check.

use vstd::prelude::*;
use vstd::string::StrSliceExecFns;

use crate::errors::SqlError;
use crate::register::Register;
use crate::table::Table;
use crate::text::{join_comma, join_with_commas, str_eq};

verus! {

/// The comma-separated lines the rows form under a column order, when every
/// row has every column; the generic evaluation error otherwise.
pub open spec fn rows_csv(regs: Seq<Register>, cols: Seq<Seq<char>>) -> Result<
    Seq<Seq<char>>,
    SqlError,
>
    decreases regs.len(),
{
    if regs.len() == 0 {
        Ok(Seq::empty())
    } else {
        match rows_csv(regs.drop_last(), cols) {
            Ok(rest) => match regs.last().spec_to_csv(cols) {
                Ok(line) => Ok(rest.push(line)),
                Err(e) => Err(e),
            },
            Err(e) => Err(e),
        }
    }
}

/// The conversion's only error is the generic one.
proof fn lemma_rows_csv_err_is_error(regs: Seq<Register>, cols: Seq<Seq<char>>)
    ensures
        rows_csv(regs, cols) is Err ==> rows_csv(regs, cols) == Err::<Seq<Seq<char>>, SqlError>(
            SqlError::Error,
        ),
    decreases regs.len(),
{
    if regs.len() > 0 {
        lemma_rows_csv_err_is_error(regs.drop_last(), cols);
    }
}

/// One row that is missing a column makes the whole conversion fail.
proof fn lemma_rows_csv_err(regs: Seq<Register>, cols: Seq<Seq<char>>, i: int)
    requires
        0 <= i < regs.len(),
        regs[i].spec_to_csv(cols) is Err,
    ensures
        rows_csv(regs, cols) == Err::<Seq<Seq<char>>, SqlError>(SqlError::Error),
    decreases regs.len(),
{
    if i < regs.len() - 1 {
        assert(regs.drop_last()[i] == regs[i]);
        lemma_rows_csv_err(regs.drop_last(), cols, i);
    } else {
        lemma_rows_csv_err_is_error(regs.drop_last(), cols);
    }
}

/// The table's lines under a column order: the column names first, then one
/// line per row; the generic error when a row is missing a column.
pub open spec fn spec_table_to_csv(t: Table, cols: Seq<Seq<char>>) -> Result<
    Seq<Seq<char>>,
    SqlError,
> {
    match rows_csv(t.registers@, cols) {
        Ok(lines) => Ok(seq![join_comma(cols)] + lines),
        Err(e) => Err(e),
    }
}

/// Transforms a table into csv lines: the first line holds the column names
/// in the given order, the following lines hold the registers.
pub fn table_to_csv(table: &Table, column_order: &Vec<String>) -> (r: Result<Vec<String>, SqlError>)
    requires
        forall|i: int| 0 <= i < table.registers@.len() ==> (#[trigger] table.registers@[i]).wf(),
    ensures
        match (r, spec_table_to_csv(*table, column_order.deep_view())) {
            (Ok(lines), Ok(expected)) => lines.deep_view() == expected,
            (Err(e1), Err(e2)) => e1 == e2,
            _ => false,
        },
{
    let ghost cols = column_order.deep_view();
    let mut result: Vec<String> = Vec::new();
    result.push(join_with_commas(column_order));
    proof {
        assert(table.registers@.take(0) =~= Seq::<Register>::empty());
        assert(result.deep_view().skip(1) =~= Seq::<Seq<char>>::empty());
    }
    let n = table.registers.len();
    let mut i: usize = 0;
    while i < n
        invariant
            i <= n,
            n == table.registers@.len(),
            cols == column_order.deep_view(),
            forall|k: int| 0 <= k < n ==> (#[trigger] table.registers@[k]).wf(),
            result.deep_view().len() == i + 1,
            result.deep_view()[0] == join_comma(cols),
            rows_csv(table.registers@.take(i as int), cols) == Ok::<Seq<Seq<char>>, SqlError>(
                result.deep_view().skip(1),
            ),
        decreases n - i,
    {
        let register = &table.registers[i];
        match register.to_csv(column_order) {
            Ok(line) => {
                result.push(line);
                proof {
                    let prefix = table.registers@.take(i + 1);
                    assert(prefix.drop_last() =~= table.registers@.take(i as int));
                    assert(prefix.last() == table.registers@[i as int]);
                    assert(result.deep_view().skip(1) =~= rows_csv(
                        table.registers@.take(i as int),
                        cols,
                    )->Ok_0.push(line@));
                }
            },
            Err(e) => {
                proof {
                    lemma_rows_csv_err(table.registers@, cols, i as int);
                }
                return Err(e);
            },
        }
        i = i + 1;
    }
    proof {
        assert(table.registers@.take(n as int) =~= table.registers@);
        assert(result.deep_view() =~= seq![join_comma(cols)] + result.deep_view().skip(1));
    }
    Ok(result)
}

/// Whether a character is an ASCII decimal digit.
pub open spec fn dec_digit(c: char) -> bool {
    48 <= c as u32 <= 57
}

/// The numeric value of an ASCII decimal digit.
pub open spec fn dec_digit_val(c: char) -> int {
    c as u32 - 48
}

/// Whether every character of the sequence is an ASCII decimal digit.
pub open spec fn all_dec_digits(s: Seq<char>) -> bool {
    forall|i: int| 0 <= i < s.len() ==> dec_digit(s[i])
}

/// The integer a sequence of ASCII decimal digits denotes, most significant
/// digit first.
pub open spec fn digits_value(s: Seq<char>) -> int
    decreases s.len(),
{
    if s.len() == 0 {
        0
    } else {
        digits_value(s.drop_last()) * 10 + dec_digit_val(s.last())
    }
}

/// Whether a token parses as a 32-bit signed integer: an optional single
/// `+` or `-` sign, then at least one ASCII decimal digit, denoting a value
/// within the type's range.
pub open spec fn spec_is_number(s: Seq<char>) -> bool {
    let signed = s.len() > 0 && (s[0] == '+' || s[0] == '-');
    let body = if signed {
        s.drop_first()
    } else {
        s
    };
    &&& body.len() > 0
    &&& all_dec_digits(body)
    &&& if s.len() > 0 && s[0] == '-' {
        digits_value(body) <= 0x8000_0000
    } else {
        digits_value(body) < 0x8000_0000
    }
}

proof fn lemma_digits_value_nonneg(s: Seq<char>)
    requires
        all_dec_digits(s),
    ensures
        digits_value(s) >= 0,
    decreases s.len(),
{
    if s.len() > 0 {
        assert(all_dec_digits(s.drop_last()));
        lemma_digits_value_nonneg(s.drop_last());
        assert(digits_value(s.drop_last()) * 10 >= 0) by (nonlinear_arith)
            requires
                digits_value(s.drop_last()) >= 0,
        ;
    }
}

proof fn lemma_digits_value_grows(v: int, d: int)
    requires
        v >= 0,
        0 <= d,
    ensures
        v * 10 + d >= v,
{
    assert(v * 10 >= v) by (nonlinear_arith)
        requires
            v >= 0,
    ;
}

/// Returns true if the token can be read as an `i32` value.
pub fn is_number(token: &str) -> (r: bool)
    ensures
        r == spec_is_number(token@),
{
    let n = token.unicode_len();
    if n == 0 {
        return false;
    }
    let first = token.get_char(0);
    let neg = first == '-';
    let start: usize = if first == '+' || first == '-' {
        1
    } else {
        0
    };
    if n == start {
        return false;
    }
    let ghost body = if start == 1 {
        token@.drop_first()
    } else {
        token@
    };
    proof {
        assert(body =~= token@.subrange(start as int, n as int));
    }
    // `acc` tracks the value of the digits read so far, saturated at one more
    // than the largest magnitude an `i32` can hold.
    let cap: u64 = 0x8000_0001;
    let mut acc: u64 = 0;
    let mut i: usize = start;
    while i < n
        invariant
            start <= i <= n,
            n == token@.len(),
            n > start,
            start == 0 || start == 1,
            (start == 1) == (token@[0] == '+' || token@[0] == '-'),
            neg == (token@[0] == '-'),
            body == token@.subrange(start as int, n as int),
            all_dec_digits(token@.subrange(start as int, i as int)),
            cap == 0x8000_0001,
            ({
                let v = digits_value(token@.subrange(start as int, i as int));
                acc == if v > cap { cap as int } else { v }
            }),
        decreases n - i,
    {
        let c = token.get_char(i);
        let cu: u32 = c as u32;
        if cu < 48 || cu > 57 {
            proof {
                assert(!dec_digit(token@[i as int]));
                assert(body[i - start] == token@[i as int]);
                assert(!all_dec_digits(body));
            }
            return false;
        }
        let d: u64 = (cu - 48) as u64;
        let ghost prefix = token@.subrange(start as int, i as int);
        let ghost v = digits_value(prefix);
        proof {
            assert(all_dec_digits(prefix));
            lemma_digits_value_nonneg(prefix);
        }
        let t: u64 = acc * 10 + d;
        let new_acc: u64 = if t > cap {
            cap
        } else {
            t
        };
        proof {
            let longer = token@.subrange(start as int, i + 1);
            assert(longer.drop_last() =~= prefix);
            assert(longer.last() == token@[i as int]);
            assert(digits_value(longer) == v * 10 + dec_digit_val(token@[i as int]));
            if v > cap {
                lemma_digits_value_grows(v, dec_digit_val(token@[i as int]));
                assert(digits_value(longer) >= v);
            }
            assert(all_dec_digits(longer));
        }
        acc = new_acc;
        i = i + 1;
    }
    proof {
        assert(token@.subrange(start as int, n as int) =~= body);
    }
    if neg {
        acc <= 0x8000_0000
    } else {
        acc < 0x8000_0000
    }
}

/// Returns true if the token is exactly `AND`.
pub fn is_and(token: &str) -> (r: bool)
    ensures
        r == (token@ == "AND"@),
{
    str_eq(token, "AND")
}

/// Returns true if the token is exactly `OR`.
pub fn is_or(token: &str) -> (r: bool)
    ensures
        r == (token@ == "OR"@),
{
    str_eq(token, "OR")
}

/// Returns true if the token is exactly `NOT`.
pub fn is_not(token: &str) -> (r: bool)
    ensures
        r == (token@ == "NOT"@),
{
    str_eq(token, "NOT")
}

/// Returns true if the token is exactly `(`.
pub fn is_left_paren(token: &str) -> (r: bool)
    ensures
        r == (token@ == "("@),
{
    str_eq(token, "(")
}

/// Returns true if the token is exactly `)`.
pub fn is_right_paren(token: &str) -> (r: bool)
    ensures
        r == (token@ == ")"@),
{
    str_eq(token, ")")
}

/// Returns true if the token is exactly `WHERE`.
pub fn is_where(token: &str) -> (r: bool)
    ensures
        r == (token@ == "WHERE"@),
{
    str_eq(token, "WHERE")
}

/// Returns true if the token is exactly `SELECT`.
pub fn is_select(token: &str) -> (r: bool)
    ensures
        r == (token@ == "SELECT"@),
{
    str_eq(token, "SELECT")
}

/// Returns true if the token is exactly `UPDATE`.
pub fn is_update(token: &str) -> (r: bool)
    ensures
        r == (token@ == "UPDATE"@),
{
    str_eq(token, "UPDATE")
}

/// Returns true if the token is exactly `INSERT`.
pub fn is_insert(token: &str) -> (r: bool)
    ensures
        r == (token@ == "INSERT"@),
{
    str_eq(token, "INSERT")
}

/// Returns true if the token is exactly `INTO`.
pub fn is_into(token: &str) -> (r: bool)
    ensures
        r == (token@ == "INTO"@),
{
    str_eq(token, "INTO")
}

/// Returns true if the token is exactly `FROM`.
pub fn is_from(token: &str) -> (r: bool)
    ensures
        r == (token@ == "FROM"@),
{
    str_eq(token, "FROM")
}

/// Returns true if the token is exactly `ORDER`.
pub fn is_order(token1: &str) -> (r: bool)
    ensures
        r == (token1@ == "ORDER"@),
{
    str_eq(token1, "ORDER")
}

/// Returns true if the token is exactly `BY`.
pub fn is_by(token1: &str) -> (r: bool)
    ensures
        r == (token1@ == "BY"@),
{
    str_eq(token1, "BY")
}

/// Returns true if the token is exactly `DELETE`.
pub fn is_delete(token: &str) -> (r: bool)
    ensures
        r == (token@ == "DELETE"@),
{
    str_eq(token, "DELETE")
}

/// Returns true if the token is exactly `SET`.
pub fn is_set(token: &str) -> (r: bool)
    ensures
        r == (token@ == "SET"@),
{
    str_eq(token, "SET")
}

/// Returns true if the token is exactly `VALUES`.
pub fn is_values(token: &str) -> (r: bool)
    ensures
        r == (token@ == "VALUES"@),
{
    str_eq(token, "VALUES")
}

} // verus!
