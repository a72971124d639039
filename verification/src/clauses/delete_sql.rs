//! The `DELETE` clause: removes from a table the records that meet a
//! condition — or every record, when there is no condition.

use vstd::prelude::*;

use crate::clauses::condition::{eval_cond, ConditionView};
use crate::clauses::select_sql::{convert_line_to_register, line_register};
use crate::clauses::where_sql::{spec_where_from_tokens, Where};
use crate::errors::SqlError;
use crate::register::{copy_columns, Register};
use crate::text::split_commas_spec;
use crate::utils::{is_delete, is_from, is_where};

verus! {

/// The `DELETE` SQL clause: the table to delete from, and the condition the
/// deleted records must meet (`None` deletes every record).
#[derive(PartialEq, Debug)]
pub struct Delete {
    pub table_name: String,
    pub where_clause: Option<Where>,
}

/// What building a `DELETE` clause from its tokens yields: `DELETE`, `FROM`,
/// a non-empty table name, then optionally `WHERE` and a condition.
pub open spec fn spec_delete_from_tokens(toks: Seq<Seq<char>>) -> Result<
    (Seq<char>, Option<ConditionView>),
    SqlError,
> {
    if toks.len() < 3 {
        Err(SqlError::InvalidSyntax)
    } else if toks[0] != "DELETE"@ || toks[1] != "FROM"@ {
        Err(SqlError::InvalidSyntax)
    } else if toks[2].len() == 0 {
        Err(SqlError::InvalidSyntax)
    } else if toks.len() > 3 && toks[3] == "WHERE"@ {
        match spec_where_from_tokens(toks.skip(3)) {
            Ok(c) => Ok((toks[2], Some(c))),
            Err(e) => Err(e),
        }
    } else {
        Ok((toks[2], None))
    }
}

impl Delete {
    /// Creates a new `Delete` from tokens of the shape `DELETE`, `FROM`,
    /// `table_name`, then optionally `WHERE` and the condition's tokens.
    pub fn new_from_tokens(tokens: Vec<String>) -> (r: Result<Delete, SqlError>)
        ensures
            match (r, spec_delete_from_tokens(tokens.deep_view())) {
                (Ok(d), Ok((name, cond))) => d.table_name@ == name && match (
                    &d.where_clause,
                    cond,
                ) {
                    (Some(w), Some(c)) => w.condition@ == c,
                    (None, None) => true,
                    _ => false,
                },
                (Err(e1), Err(e2)) => e1 == e2,
                _ => false,
            },
    {
        let ghost toks = tokens.deep_view();
        if tokens.len() < 3 {
            return Err(SqlError::InvalidSyntax);
        }
        proof {
            assert(toks[0] == tokens@[0]@);
            assert(toks[1] == tokens@[1]@);
            assert(toks[2] == tokens@[2]@);
        }
        if !is_delete(tokens[0].as_str()) || !is_from(tokens[1].as_str()) {
            return Err(SqlError::InvalidSyntax);
        }
        let table_name = tokens[2].clone();
        if table_name.as_str().is_empty() {
            return Err(SqlError::InvalidSyntax);
        }
        let mut where_clause: Option<Where> = None;
        if tokens.len() > 3 {
            proof {
                assert(toks[3] == tokens@[3]@);
            }
            if is_where(tokens[3].as_str()) {
                let n = tokens.len();
                let mut where_tokens: Vec<&str> = Vec::new();
                let mut k: usize = 3;
                while k < n
                    invariant
                        3 <= k <= n,
                        n == tokens@.len(),
                        toks == tokens.deep_view(),
                        where_tokens.deep_view() == toks.subrange(3, k as int),
                    decreases n - k,
                {
                    where_tokens.push(tokens[k].as_str());
                    proof {
                        assert(toks[k as int] == tokens@[k as int]@);
                        assert(toks.subrange(3, k + 1) =~= toks.subrange(3, k as int).push(
                            toks[k as int],
                        ));
                    }
                    k = k + 1;
                }
                proof {
                    assert(toks.subrange(3, n as int) =~= toks.skip(3));
                }
                where_clause = Some(Where::new_from_tokens(where_tokens)?);
            }
        }
        Ok(Delete { table_name, where_clause })
    }

    /// What filtering one csv line yields: the line's row when it does not
    /// meet the condition (and so survives), the empty row when it meets the
    /// condition or when there is no condition, and the condition's error
    /// when evaluation fails.
    pub open spec fn spec_execute(&self, line: Seq<char>, columns: Seq<Seq<char>>) -> Result<
        Map<Seq<char>, Seq<char>>,
        SqlError,
    > {
        let original = line_register(columns, split_commas_spec(line));
        match self.where_clause {
            Some(w) => match eval_cond(w.condition@, original) {
                Ok(true) => Ok(Map::empty()),
                Ok(false) => Ok(copy_columns(original, columns)),
                Err(e) => Err(e),
            },
            None => Ok(Map::empty()),
        }
    }

    /// Converts one csv line to a row and keeps it if it does not meet the
    /// condition; a deleted row comes back empty.
    pub fn execute(&self, line: String, columns: &Vec<String>) -> (r: Result<Register, SqlError>)
        requires
            split_commas_spec(line@).len() >= columns@.len(),
        ensures
            match (r, self.spec_execute(line@, columns.deep_view())) {
                (Ok(reg), Ok(m)) => reg.wf() && reg@ == m,
                (Err(e1), Err(e2)) => e1 == e2,
                _ => false,
            },
    {
        let colslice = columns.as_slice();
        proof {
            assert(colslice.deep_view() =~= columns.deep_view());
        }
        let register = convert_line_to_register(line, colslice);
        let mut result = Register::new();
        if let Some(where_clause) = &self.where_clause {
            let op_result = where_clause.execute(&register)?;
            if !op_result {
                result = register.project_columns(columns);
            }
        }
        Ok(result)
    }
}

} // verus!
