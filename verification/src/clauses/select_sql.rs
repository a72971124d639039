//! The `SELECT` clause: picks columns from a table's rows, filtered by an
//! optional `WHERE` condition and sorted by an optional `ORDER BY` clause.

use vstd::prelude::*;

use crate::clauses::condition::{eval_cond, ConditionView};
use crate::clauses::orderby_sql::{spec_orderby_from_tokens, OrderBy};
use crate::clauses::where_sql::{spec_where_from_tokens, Where};
use crate::errors::SqlError;
use crate::register::{copy_columns, Register};
use crate::text::{
    lemma_prefix_len, lemma_prefix_len_props, prefix_len, split_commas, split_commas_spec, str_eq,
};
use crate::utils::{is_by, is_from, is_order, is_select, is_where};

verus! {

/// The `SELECT` SQL clause: the table, the columns to keep (`*` keeps all),
/// and the optional filtering and sorting clauses.
#[derive(Debug, PartialEq)]
pub struct Select {
    pub table_name: String,
    pub columns: Vec<String>,
    pub where_clause: Option<Where>,
    pub orderby_clause: Option<OrderBy>,
}

/// What parsing the selected columns at `i0` yields: the tokens after the
/// `SELECT` keyword up to the first `FROM`, and the cursor at that `FROM`.
pub open spec fn spec_parse_columns(toks: Seq<Seq<char>>, i0: int) -> (Result<
    Seq<Seq<char>>,
    SqlError,
>, int) {
    if !(0 <= i0 < toks.len()) || toks[i0] != "SELECT"@ {
        (Err(SqlError::InvalidSyntax), i0)
    } else {
        let stop = i0 + 1 + prefix_len(toks.skip(i0 + 1), |t: Seq<char>| t != "FROM"@);
        (Ok(toks.subrange(i0 + 1, stop as int)), stop as int)
    }
}

/// Consumes `SELECT` and the column tokens up to the first `FROM`; leaves the
/// cursor at that `FROM`.
pub fn parse_columns(tokens: &[String], i: &mut usize) -> (r: Result<Vec<String>, SqlError>)
    requires
        *old(i) < tokens@.len(),
        tokens.deep_view()[(*old(i) as int)] == "SELECT"@ ==> exists|j: int|
            *old(i) < j < tokens@.len() && tokens.deep_view()[j] == "FROM"@,
    ensures
        ({
            let (res, ni) = spec_parse_columns(tokens.deep_view(), (*old(i) as int));
            &&& *final(i) == ni
            &&& match (r, res) {
                (Ok(v), Ok(cs)) => v.deep_view() == cs,
                (Err(e1), Err(e2)) => e1 == e2,
                _ => false,
            }
        }),
{
    let ghost toks = tokens.deep_view();
    proof {
        assert(toks[(*i as int)] == tokens@[(*i as int)]@);
    }
    if !is_select(tokens[*i].as_str()) {
        return Err(SqlError::InvalidSyntax);
    }
    *i += 1;
    let ghost start = (*i as int);
    let mut columns: Vec<String> = Vec::new();
    loop
        invariant
            0 <= start <= (*i as int) <= tokens@.len(),
            toks == tokens.deep_view(),
            columns.deep_view() == toks.subrange(start, (*i as int)),
            forall|j: int| start <= j < (*i as int) ==> toks[j] != "FROM"@,
            exists|j: int| start <= j < toks.len() && toks[j] == "FROM"@,
        ensures
            start <= (*i as int) <= tokens@.len(),
            (*i as int) < toks.len(),
            toks == tokens.deep_view(),
            columns.deep_view() == toks.subrange(start, (*i as int)),
            forall|j: int| start <= j < (*i as int) ==> toks[j] != "FROM"@,
            toks[(*i as int)] == "FROM"@,
        decreases tokens@.len() - *i,
    {
        proof {
            if (*i as int) >= toks.len() {
                let j = choose|j: int| start <= j < toks.len() && toks[j] == "FROM"@;
                assert(false);
            }
            assert(toks[(*i as int)] == tokens@[(*i as int)]@);
        }
        if is_from(tokens[*i].as_str()) {
            break ;
        }
        columns.push(tokens[*i].clone());
        proof {
            assert(toks.subrange(start, *i + 1) =~= toks.subrange(start, (*i as int)).push(
                toks[(*i as int)],
            ));
        }
        *i += 1;
    }
    proof {
        assert(forall|j: int|
            0 <= j < (*i as int) - start ==> toks.skip(start)[j] == toks[j + start]);
        lemma_prefix_len(toks.skip(start), |t: Seq<char>| t != "FROM"@, (*i as int) - start);
    }
    Ok(columns)
}

/// What parsing the table name at `i0` yields: the token after the `FROM`,
/// and the cursor past it.
pub open spec fn spec_parse_table_name(toks: Seq<Seq<char>>, i0: int) -> (Result<
    Seq<char>,
    SqlError,
>, int) {
    if 0 <= i0 < toks.len() && toks[i0] == "FROM"@ {
        (Ok(toks[i0 + 1]), i0 + 2)
    } else {
        (Err(SqlError::InvalidSyntax), i0)
    }
}

/// Consumes `FROM` and the table-name token after it.
pub fn parse_table_name(tokens: &[String], i: &mut usize) -> (r: Result<String, SqlError>)
    requires
        (*old(i) < tokens@.len() && tokens.deep_view()[(*old(i) as int)] == "FROM"@) ==> *old(i) + 1
            < tokens@.len(),
    ensures
        ({
            let (res, ni) = spec_parse_table_name(tokens.deep_view(), (*old(i) as int));
            &&& *final(i) == ni
            &&& match (r, res) {
                (Ok(name), Ok(n)) => name@ == n,
                (Err(e1), Err(e2)) => e1 == e2,
                _ => false,
            }
        }),
{
    let ghost toks = tokens.deep_view();
    if *i < tokens.len() {
        proof {
            assert(toks[(*i as int)] == tokens@[(*i as int)]@);
        }
        if is_from(tokens[*i].as_str()) {
            *i += 1;
            let table_name = tokens[*i].clone();
            *i += 1;
            proof {
                assert(toks[*i - 1] == tokens@[*i - 1]@);
            }
            return Ok(table_name);
        }
    }
    Err(SqlError::InvalidSyntax)
}

/// What splitting the trailing tokens into the `WHERE` part and the
/// `ORDER BY` part yields: the `WHERE` tokens run to the first `ORDER`; the
/// `ORDER BY` tokens run from there to the end when `BY` follows `ORDER`, and
/// hold `ORDER` alone otherwise.
pub open spec fn spec_parse_where_orderby(toks: Seq<Seq<char>>, i0: int) -> (Seq<Seq<char>>, Seq<
    Seq<char>,
>, int) {
    let first = if 0 <= i0 < toks.len() && toks[i0] == "WHERE"@ {
        let stop = i0 + prefix_len(toks.skip(i0), |t: Seq<char>| t != "ORDER"@);
        (toks.subrange(i0, stop as int), stop as int)
    } else {
        (Seq::<Seq<char>>::empty(), i0)
    };
    let w = first.0;
    let i1 = first.1;
    if 0 <= i1 < toks.len() && toks[i1] == "ORDER"@ {
        if i1 + 1 < toks.len() && toks[i1 + 1] == "BY"@ {
            (w, toks.subrange(i1, toks.len() as int), toks.len() as int)
        } else {
            (w, seq![toks[i1]], i1 + 1)
        }
    } else {
        (w, Seq::<Seq<char>>::empty(), i1)
    }
}

/// Splits the tokens after the table name into the `WHERE` tokens and the
/// `ORDER BY` tokens.
pub fn parse_where_and_orderby<'a>(tokens: &'a [String], i: &mut usize) -> (r: Result<
    (Vec<&'a str>, Vec<&'a str>),
    SqlError,
>)
    ensures
        ({
            let (w, o, ni) = spec_parse_where_orderby(tokens.deep_view(), (*old(i) as int));
            &&& *final(i) == ni
            &&& match r {
                Ok((wv, ov)) => wv.deep_view() == w && ov.deep_view() == o,
                Err(_) => false,
            }
        }),
{
    let ghost toks = tokens.deep_view();
    let ghost i0 = (*i as int);
    let mut where_tokens: Vec<&str> = Vec::new();
    let mut orderby_tokens: Vec<&str> = Vec::new();
    let n = tokens.len();
    if *i < n {
        proof {
            assert(toks[(*i as int)] == tokens@[(*i as int)]@);
        }
        if is_where(tokens[*i].as_str()) {
            loop
                invariant
                    0 <= i0 <= (*i as int) <= toks.len(),
                    toks == tokens.deep_view(),
                    n == tokens@.len(),
                    where_tokens.deep_view() == toks.subrange(i0, (*i as int)),
                    forall|j: int| i0 <= j < (*i as int) ==> toks[j] != "ORDER"@,
                ensures
                    i0 <= (*i as int) <= toks.len(),
                    toks == tokens.deep_view(),
                    where_tokens.deep_view() == toks.subrange(i0, (*i as int)),
                    forall|j: int| i0 <= j < (*i as int) ==> toks[j] != "ORDER"@,
                    (*i as int) < toks.len() ==> toks[(*i as int)] == "ORDER"@,
                decreases n - *i,
            {
                if *i >= n {
                    break ;
                }
                proof {
                    assert(toks[(*i as int)] == tokens@[(*i as int)]@);
                }
                if is_order(tokens[*i].as_str()) {
                    break ;
                }
                where_tokens.push(tokens[*i].as_str());
                proof {
                    assert(toks.subrange(i0, *i + 1) =~= toks.subrange(i0, (*i as int)).push(
                        toks[(*i as int)],
                    ));
                }
                *i += 1;
            }
            proof {
                assert(forall|j: int|
                    0 <= j < (*i as int) - i0 ==> toks.skip(i0)[j] == toks[j + i0]);
                lemma_prefix_len(toks.skip(i0), |t: Seq<char>| t != "ORDER"@, (*i as int) - i0);
            }
        }
    }
    let ghost i1 = (*i as int);
    if *i < n {
        proof {
            assert(toks[(*i as int)] == tokens@[(*i as int)]@);
        }
        if is_order(tokens[*i].as_str()) {
            orderby_tokens.push(tokens[*i].as_str());
            *i += 1;
            if *i < n {
                proof {
                    assert(toks[(*i as int)] == tokens@[(*i as int)]@);
                }
                if is_by(tokens[*i].as_str()) {
                    loop
                        invariant
                            0 <= i1 < (*i as int) <= toks.len(),
                            toks == tokens.deep_view(),
                            n == tokens@.len(),
                            orderby_tokens.deep_view() == toks.subrange(i1, (*i as int)),
                        ensures
                            toks == tokens.deep_view(),
                            (*i as int) == toks.len(),
                            orderby_tokens.deep_view() == toks.subrange(i1, (*i as int)),
                        decreases n - *i,
                    {
                        if *i >= n {
                            break ;
                        }
                        orderby_tokens.push(tokens[*i].as_str());
                        proof {
                            assert(toks[(*i as int)] == tokens@[(*i as int)]@);
                            assert(toks.subrange(i1, *i + 1) =~= toks.subrange(i1, (*i as int)).push(
                                toks[(*i as int)],
                            ));
                        }
                        *i += 1;
                    }
                    proof {
                        assert(toks.subrange(i1, toks.len() as int) == orderby_tokens.deep_view());
                    }
                } else {
                    proof {
                        assert(orderby_tokens.deep_view() =~= seq![toks[i1]]);
                    }
                }
            } else {
                proof {
                    assert(orderby_tokens.deep_view() =~= seq![toks[i1]]);
                }
            }
        }
    }
    Ok((where_tokens, orderby_tokens))
}

/// The row a csv line denotes under a column order: the k-th column maps to
/// the line's k-th comma-separated value.
pub open spec fn line_register(cols: Seq<Seq<char>>, vals: Seq<Seq<char>>) -> Map<
    Seq<char>,
    Seq<char>,
>
    decreases cols.len(),
{
    if cols.len() == 0 {
        Map::empty()
    } else {
        line_register(cols.drop_last(), vals).insert(cols.last(), vals[cols.len() - 1])
    }
}

/// Converts one csv line into a register under the given column order.
pub fn convert_line_to_register(line: String, columns: &[String]) -> (r: Register)
    requires
        split_commas_spec(line@).len() >= columns.deep_view().len(),
    ensures
        r.wf(),
        r@ == line_register(columns.deep_view(), split_commas_spec(line@)),
{
    let attributes = split_commas(line.as_str());
    let mut original = Register::new();
    let n = columns.len();
    let mut idx: usize = 0;
    while idx < n
        invariant
            idx <= n,
            n == columns@.len(),
            attributes.deep_view() == split_commas_spec(line@),
            attributes@.len() >= n,
            original.wf(),
            original@ == line_register(
                columns.deep_view().take(idx as int),
                split_commas_spec(line@),
            ),
        decreases n - idx,
    {
        proof {
            assert(columns.deep_view()[idx as int] == columns@[idx as int]@);
            assert(attributes.deep_view()[idx as int] == attributes@[idx as int]@);
        }
        original.insert(columns[idx].clone(), attributes[idx].clone());
        proof {
            assert(columns.deep_view().take(idx + 1).drop_last() =~= columns.deep_view().take(
                idx as int,
            ));
        }
        idx = idx + 1;
    }
    proof {
        assert(columns.deep_view().take(n as int) =~= columns.deep_view());
    }
    original
}

/// What building a `SELECT` clause from its tokens yields: the columns, the
/// table name, and the optional `WHERE` and `ORDER BY` clauses.
pub open spec fn spec_select_from_tokens(toks: Seq<Seq<char>>) -> Result<
    (Seq<Seq<char>>, Seq<char>, Option<ConditionView>, Option<(Seq<Seq<char>>, Seq<char>)>),
    SqlError,
> {
    if toks.len() < 4 {
        Err(SqlError::InvalidSyntax)
    } else {
        let (cres, i1) = spec_parse_columns(toks, 0);
        match cres {
            Err(e) => Err(e),
            Ok(cols) => {
                let (tres, i2) = spec_parse_table_name(toks, i1);
                match tres {
                    Err(e) => Err(e),
                    Ok(name) => {
                        if cols.len() == 0 || name.len() == 0 {
                            Err(SqlError::InvalidSyntax)
                        } else {
                            let (w, o, _i3) = spec_parse_where_orderby(toks, i2);
                            let wres = if w.len() > 0 {
                                match spec_where_from_tokens(w) {
                                    Ok(c) => Ok(Some(c)),
                                    Err(e) => Err(e),
                                }
                            } else {
                                Ok(None)
                            };
                            match wres {
                                Err(e) => Err(e),
                                Ok(wc) => {
                                    let ores = if o.len() > 0 {
                                        match spec_orderby_from_tokens(o) {
                                            Ok(x) => Ok(Some(x)),
                                            Err(e) => Err(e),
                                        }
                                    } else {
                                        Ok(None)
                                    };
                                    match ores {
                                        Err(e) => Err(e),
                                        Ok(oc) => Ok((cols, name, wc, oc)),
                                    }
                                },
                            }
                        }
                    },
                }
            },
        }
    }
}

impl Select {
    /// Creates a new `Select` from tokens of the shape `SELECT`, `columns`,
    /// `FROM`, `table_name`, then optionally the `WHERE` and `ORDER BY`
    /// tokens.
    pub fn new_from_tokens(tokens: Vec<String>) -> (r: Result<Select, SqlError>)
        requires
            (tokens@.len() >= 4 && tokens.deep_view()[0] == "SELECT"@) ==> 1 + prefix_len(
                tokens.deep_view().skip(1),
                |t: Seq<char>| t != "FROM"@,
            ) < tokens@.len() - 1,
        ensures
            match (r, spec_select_from_tokens(tokens.deep_view())) {
                (Ok(sel), Ok((cols, name, wc, oc))) => {
                    &&& sel.columns.deep_view() == cols
                    &&& sel.table_name@ == name
                    &&& match (sel.where_clause, wc) {
                        (Some(w), Some(c)) => w.condition@ == c,
                        (None, None) => true,
                        _ => false,
                    }
                    &&& match (sel.orderby_clause, oc) {
                        (Some(ob), Some((ocols, oord))) => ob.columns.deep_view() == ocols
                            && ob.order@ == oord,
                        (None, None) => true,
                        _ => false,
                    }
                },
                (Err(e1), Err(e2)) => e1 == e2,
                _ => false,
            },
    {
        let ghost toks = tokens.deep_view();
        if tokens.len() < 4 {
            return Err(SqlError::InvalidSyntax);
        }
        let slice = tokens.as_slice();
        proof {
            assert(slice.deep_view() =~= toks);
            if toks[0] == "SELECT"@ {
                let p = prefix_len(toks.skip(1), |t: Seq<char>| t != "FROM"@);
                lemma_prefix_len_props(toks.skip(1), |t: Seq<char>| t != "FROM"@);
                assert(toks.skip(1)[p as int] == toks[(1 + p) as int]);
                assert(toks[(1 + p) as int] == "FROM"@);
            }
        }
        let mut i: usize = 0;
        let columns = parse_columns(slice, &mut i)?;
        let table_name = parse_table_name(slice, &mut i)?;

        if columns.is_empty() || table_name.as_str().is_empty() {
            return Err(SqlError::InvalidSyntax);
        }
        proof {
            assert(columns.deep_view().len() == columns@.len());
        }

        let wo = parse_where_and_orderby(slice, &mut i)?;
        let where_tokens = wo.0;
        let orderby_tokens = wo.1;

        let where_clause = if !where_tokens.is_empty() {
            Some(Where::new_from_tokens(where_tokens)?)
        } else {
            None
        };

        let orderby_clause = if !orderby_tokens.is_empty() {
            Some(OrderBy::new_from_tokens(orderby_tokens)?)
        } else {
            None
        };

        Ok(Select { table_name, columns, where_clause, orderby_clause })
    }

    /// The columns a result row keeps: every table column when the selection
    /// is `*`, the selected columns otherwise.
    pub open spec fn spec_selected(&self, columns: Seq<Seq<char>>) -> Seq<Seq<char>> {
        if self.columns.deep_view()[0] == "*"@ {
            columns
        } else {
            self.columns.deep_view()
        }
    }

    /// Keeps, in each register, only the entries whose column is selected.
    pub fn filter_columns(&self, columns: &Vec<String>, registers: Vec<Register>) -> (r: Vec<
        Register,
    >)
        requires
            self.columns@.len() >= 1,
            forall|k: int| 0 <= k < registers@.len() ==> (#[trigger] registers@[k]).wf(),
        ensures
            r@.len() == registers@.len(),
            forall|k: int|
                0 <= k < r@.len() ==> (#[trigger] r@[k]).wf() && r@[k]@ == registers@[k]@.restrict(
                    self.spec_selected(columns.deep_view()).to_set(),
                ),
    {
        let ghost sel = self.spec_selected(columns.deep_view());
        proof {
            assert(self.columns.deep_view()[0] == self.columns@[0]@);
        }
        let mut cols_selected: Vec<String> = Vec::new();
        if str_eq(self.columns[0].as_str(), "*") {
            let n = columns.len();
            let mut k: usize = 0;
            while k < n
                invariant
                    k <= n,
                    n == columns@.len(),
                    cols_selected.deep_view() == columns.deep_view().take(k as int),
                decreases n - k,
            {
                cols_selected.push(columns[k].clone());
                proof {
                    assert(columns.deep_view().take(k + 1) =~= columns.deep_view().take(
                        k as int,
                    ).push(columns.deep_view()[k as int]));
                    assert(columns.deep_view()[k as int] == columns@[k as int]@);
                }
                k = k + 1;
            }
            proof {
                assert(columns.deep_view().take(n as int) =~= columns.deep_view());
            }
        } else {
            let n = self.columns.len();
            let mut k: usize = 0;
            while k < n
                invariant
                    k <= n,
                    n == self.columns@.len(),
                    cols_selected.deep_view() == self.columns.deep_view().take(k as int),
                decreases n - k,
            {
                cols_selected.push(self.columns[k].clone());
                proof {
                    assert(self.columns.deep_view().take(k + 1) =~= self.columns.deep_view().take(
                        k as int,
                    ).push(self.columns.deep_view()[k as int]));
                    assert(self.columns.deep_view()[k as int] == self.columns@[k as int]@);
                }
                k = k + 1;
            }
            proof {
                assert(self.columns.deep_view().take(n as int) =~= self.columns.deep_view());
            }
        }
        proof {
            assert(cols_selected.deep_view() == sel);
        }

        let mut filtered_registers: Vec<Register> = Vec::new();
        let total = registers.len();
        let mut k: usize = 0;
        while k < total
            invariant
                k <= total,
                total == registers@.len(),
                cols_selected.deep_view() == sel,
                forall|j: int| 0 <= j < total ==> (#[trigger] registers@[j]).wf(),
                filtered_registers@.len() == k,
                forall|j: int|
                    0 <= j < k ==> (#[trigger] filtered_registers@[j]).wf()
                        && filtered_registers@[j]@ == registers@[j]@.restrict(sel.to_set()),
            decreases total - k,
        {
            let filtered = registers[k].restrict_columns(&cols_selected);
            filtered_registers.push(filtered);
            k = k + 1;
        }
        filtered_registers
    }

    /// What filtering one csv line yields: the line's row when it passes the
    /// `WHERE` clause (or there is none), the empty row when it does not, the
    /// column error when a selected column is unknown, and the condition's
    /// error when evaluation fails.
    pub open spec fn spec_execute(&self, line: Seq<char>, columns: Seq<Seq<char>>) -> Result<
        Map<Seq<char>, Seq<char>>,
        SqlError,
    > {
        if !(forall|j: int|
            0 <= j < self.columns.deep_view().len() ==> columns.contains(
                #[trigger] self.columns.deep_view()[j],
            )) && self.columns.deep_view()[0] != "*"@ {
            Err(SqlError::InvalidColumn)
        } else {
            let original = line_register(columns, split_commas_spec(line));
            match self.where_clause {
                Some(w) => match eval_cond(w.condition@, original) {
                    Ok(true) => Ok(copy_columns(original, columns)),
                    Ok(false) => Ok(Map::empty()),
                    Err(e) => Err(e),
                },
                None => Ok(copy_columns(original, columns)),
            }
        }
    }

    /// Converts one csv line to a row and keeps it if it passes the `WHERE`
    /// clause; a row that does not pass comes back empty.
    pub fn execute(&self, line: String, columns: &Vec<String>) -> (r: Result<Register, SqlError>)
        requires
            self.columns@.len() >= 1,
            split_commas_spec(line@).len() >= columns@.len(),
        ensures
            match (r, self.spec_execute(line@, columns.deep_view())) {
                (Ok(reg), Ok(m)) => reg.wf() && reg@ == m,
                (Err(e1), Err(e2)) => e1 == e2,
                _ => false,
            },
    {
        let ghost toks = columns.deep_view();
        let mut all_known = true;
        let n = self.columns.len();
        let mut j: usize = 0;
        while j < n
            invariant
                j <= n,
                n == self.columns@.len(),
                all_known == (forall|q: int|
                    0 <= q < j ==> toks.contains(#[trigger] self.columns.deep_view()[q])),
                toks == columns.deep_view(),
            decreases n - j,
        {
            proof {
                assert(self.columns.deep_view()[j as int] == self.columns@[j as int]@);
            }
            if !crate::text::contains_str(columns, self.columns[j].as_str()) {
                all_known = false;
            }
            j = j + 1;
        }
        proof {
            assert(self.columns.deep_view()[0] == self.columns@[0]@);
        }
        if !all_known && !str_eq(self.columns[0].as_str(), "*") {
            return Err(SqlError::InvalidColumn);
        }

        let colslice = columns.as_slice();
        proof {
            assert(colslice.deep_view() =~= toks);
        }
        let original = convert_line_to_register(line, colslice);

        if let Some(where_clause) = &self.where_clause {
            let op_result = where_clause.execute(&original)?;
            if op_result {
                Ok(original.project_columns(columns))
            } else {
                Ok(Register::new())
            }
        } else {
            Ok(original.project_columns(columns))
        }
    }
}

} // verus!
