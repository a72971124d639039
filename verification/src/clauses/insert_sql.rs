//! The `INSERT` clause: new values for a table, paired with an `INTO` clause
//! naming the table and its columns.

use vstd::prelude::*;

use crate::clauses::into_sql::{spec_into_from_tokens, Into};
use crate::errors::SqlError;
use crate::text::{
    lemma_prefix_len, position_str, prefix_len, split_trim_commas, split_commas_spec, strip_quotes,
    strip_quotes_spec, trim_spec,
};
use crate::utils::{is_insert, is_values};

verus! {

/// The `INSERT` SQL clause: the values to insert and the `INTO` clause that
/// names the table and the columns they belong to.
#[derive(Debug, PartialEq)]
pub struct Insert {
    pub values: Vec<String>,
    pub into_clause: Into,
}

/// Where the `VALUES` keyword stands among the tokens.
pub open spec fn values_index(toks: Seq<Seq<char>>) -> int {
    1 + prefix_len(toks.skip(1), |t: Seq<char>| t != "VALUES"@) as int
}

/// What building an `INSERT` clause from its tokens yields: `INSERT`, the
/// `INTO` tokens, `VALUES`, then one token holding the comma-separated
/// values (quotes stripped, each value trimmed).
pub open spec fn spec_insert_from_tokens(toks: Seq<Seq<char>>) -> Result<
    (Seq<Seq<char>>, (Seq<char>, Seq<Seq<char>>)),
    SqlError,
> {
    if toks.len() < 6 {
        Err(SqlError::InvalidSyntax)
    } else if toks[0] != "INSERT"@ {
        Err(SqlError::InvalidSyntax)
    } else {
        let jv = values_index(toks);
        let into_toks = toks.subrange(1, jv);
        let values = split_commas_spec(strip_quotes_spec(toks[jv + 1])).map_values(
            |t: Seq<char>| trim_spec(t),
        );
        if into_toks.len() == 0 {
            Err(SqlError::InvalidSyntax)
        } else {
            match spec_into_from_tokens(into_toks) {
                Ok(it) => Ok((values, it)),
                Err(e) => Err(e),
            }
        }
    }
}

/// The value that lands in a column after reordering: the value named for it,
/// or the empty string when the `INTO` clause does not name the column.
pub open spec fn reordered_value(
    values: Seq<Seq<char>>,
    into_cols: Seq<Seq<char>>,
    col: Seq<char>,
) -> Seq<char> {
    let p = prefix_len(into_cols, |t: Seq<char>| t != col);
    if p < into_cols.len() {
        values[p as int]
    } else {
        Seq::empty()
    }
}

impl Insert {
    /// Creates a new `Insert` from tokens of the shape `INSERT`, `INTO`,
    /// `table_name`, `columns`, `VALUES`, `values` — the columns and values
    /// comma-separated, one token each.
    pub fn new_from_tokens(tokens: Vec<String>) -> (r: Result<Insert, SqlError>)
        requires
            (tokens@.len() >= 6 && tokens.deep_view()[0] == "INSERT"@) ==> values_index(
                tokens.deep_view(),
            ) < tokens@.len() - 1,
        ensures
            match (r, spec_insert_from_tokens(tokens.deep_view())) {
                (Ok(ins), Ok((values, (name, cols)))) => {
                    &&& ins.values.deep_view() == values
                    &&& ins.into_clause.table_name@ == name
                    &&& ins.into_clause.columns.deep_view() == cols
                },
                (Err(e1), Err(e2)) => e1 == e2,
                _ => false,
            },
    {
        let ghost toks = tokens.deep_view();
        if tokens.len() < 6 {
            return Err(SqlError::InvalidSyntax);
        }
        proof {
            assert(toks[0] == tokens@[0]@);
        }
        if !is_insert(tokens[0].as_str()) {
            return Err(SqlError::InvalidSyntax);
        }
        let n = tokens.len();
        let mut into_tokens: Vec<&str> = Vec::new();
        let mut i: usize = 1;
        loop
            invariant
                1 <= i <= n,
                n == tokens@.len(),
                toks == tokens.deep_view(),
                (toks.len() >= 6 && toks[0] == "INSERT"@) ==> values_index(toks) < toks.len() - 1,
                toks.len() >= 6,
                toks[0] == "INSERT"@,
                into_tokens.deep_view() == toks.subrange(1, i as int),
                forall|j: int| 1 <= j < i ==> toks[j] != "VALUES"@,
            ensures
                1 <= i < n,
                toks == tokens.deep_view(),
                into_tokens.deep_view() == toks.subrange(1, i as int),
                forall|j: int| 1 <= j < i ==> toks[j] != "VALUES"@,
                toks[i as int] == "VALUES"@,
            decreases n - i,
        {
            proof {
                if i as int >= toks.len() {
                    let p = prefix_len(toks.skip(1), |t: Seq<char>| t != "VALUES"@);
                    crate::text::lemma_prefix_len_props(toks.skip(1), |t: Seq<char>| t != "VALUES"@);
                    assert(toks.skip(1)[p as int] == toks[(1 + p) as int]);
                    assert(toks[(1 + p) as int] == "VALUES"@);
                    assert(false);
                }
                assert(toks[i as int] == tokens@[i as int]@);
            }
            if is_values(tokens[i].as_str()) {
                break ;
            }
            into_tokens.push(tokens[i].as_str());
            proof {
                assert(toks.subrange(1, i + 1) =~= toks.subrange(1, i as int).push(toks[i as int]));
            }
            i = i + 1;
        }
        proof {
            assert(forall|j: int| 0 <= j < i - 1 ==> toks.skip(1)[j] == toks[j + 1]);
            lemma_prefix_len(toks.skip(1), |t: Seq<char>| t != "VALUES"@, i - 1);
            assert(values_index(toks) == i as int);
            assert(toks[i + 1] == tokens@[i + 1]@);
        }
        let cleaned = strip_quotes(tokens[i + 1].as_str());
        let values = split_trim_commas(cleaned.as_str());
        proof {
            assert(values.deep_view().len() > 0) by {
                crate::text::lemma_prefix_len_props(
                    strip_quotes_spec(toks[i + 1]),
                    |c: char| c != ',',
                );
            }
        }

        if into_tokens.is_empty() {
            return Err(SqlError::InvalidSyntax);
        }

        let into_clause = Into::new_from_tokens(into_tokens)?;

        Ok(Insert { values, into_clause })
    }

    /// Reorders the values to follow the table's column order: a table column
    /// the `INTO` clause names gets its value; any other gets the empty
    /// string. The `INTO` columns become the table columns.
    pub fn reorder_values(&mut self, columns: Vec<String>)
        requires
            forall|j: int| #![trigger columns.deep_view()[j]]
                0 <= j < columns.deep_view().len() ==> {
                    let p = prefix_len(
                        old(self).into_clause.columns.deep_view(),
                        |t: Seq<char>| t != columns.deep_view()[j],
                    );
                    p < old(self).into_clause.columns.deep_view().len() ==> p < old(
                        self,
                    ).values.deep_view().len()
                },
        ensures
            final(self).into_clause.table_name == old(self).into_clause.table_name,
            final(self).into_clause.columns.deep_view() == columns.deep_view(),
            final(self).values.deep_view() == columns.deep_view().map_values(
                |col: Seq<char>| reordered_value(
                    old(self).values.deep_view(),
                    old(self).into_clause.columns.deep_view(),
                    col,
                ),
            ),
    {
        let ghost vals0 = self.values.deep_view();
        let ghost cols0 = self.into_clause.columns.deep_view();
        let ghost f = |col: Seq<char>| reordered_value(vals0, cols0, col);
        let mut reordered_values: Vec<String> = Vec::new();
        let mut reordered_cols: Vec<String> = Vec::new();
        let n = columns.len();
        let mut k: usize = 0;
        while k < n
            invariant
                k <= n,
                n == columns@.len(),
                vals0 == self.values.deep_view(),
                cols0 == self.into_clause.columns.deep_view(),
                *self == *old(self),
                f == (|col: Seq<char>| reordered_value(vals0, cols0, col)),
                forall|j: int| #![trigger columns.deep_view()[j]]
                    0 <= j < columns.deep_view().len() ==> {
                        let p = prefix_len(cols0, |t: Seq<char>| t != columns.deep_view()[j]);
                        p < cols0.len() ==> p < vals0.len()
                    },
                reordered_cols.deep_view() == columns.deep_view().take(k as int),
                reordered_values.deep_view() == columns.deep_view().take(k as int).map_values(f),
            decreases n - k,
        {
            proof {
                assert(columns.deep_view()[k as int] == columns@[k as int]@);
            }
            match position_str(&self.into_clause.columns, columns[k].as_str()) {
                Some(index) => {
                    reordered_values.push(self.values[index].clone());
                },
                None => {
                    reordered_values.push(String::new());
                },
            }
            reordered_cols.push(columns[k].clone());
            proof {
                let cd = columns.deep_view();
                assert(cd.take(k + 1) =~= cd.take(k as int).push(cd[k as int]));
                assert(cd.take(k + 1).map_values(f) =~= cd.take(k as int).map_values(f).push(
                    f(cd[k as int]),
                ));
            }
            k = k + 1;
        }
        proof {
            assert(columns.deep_view().take(n as int) =~= columns.deep_view());
        }
        self.into_clause.columns = reordered_cols;
        self.values = reordered_values;
    }
}

} // verus!
