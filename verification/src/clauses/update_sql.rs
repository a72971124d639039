//! The `UPDATE` clause: rewrites, in a table's records, the columns a `SET`
//! clause names — in every record, or only in those meeting a condition.

use vstd::prelude::*;

use crate::clauses::condition::{eval_cond, ConditionView};
use crate::clauses::select_sql::{convert_line_to_register, line_register};
use crate::clauses::set_sql::{spec_set_from_tokens, SetClause};
use crate::clauses::where_sql::{spec_where_from_tokens, Where};
use crate::errors::SqlError;
use crate::register::Register;
use crate::text::{lemma_prefix_len, prefix_len, split_commas_spec};
use crate::utils::{is_set, is_update, is_where};

verus! {

/// The `UPDATE` SQL clause: the table to update, the new values, and the
/// condition the updated records must meet (`None` updates every record).
#[derive(PartialEq, Debug)]
pub struct Update {
    pub table_name: String,
    pub set_clause: SetClause,
    pub where_clause: Option<Where>,
}

/// What building an `UPDATE` clause from its tokens yields: `UPDATE`, a
/// non-empty table name, `SET`, the assignment tokens up to an optional
/// `WHERE`, and the condition after it.
pub open spec fn spec_update_from_tokens(toks: Seq<Seq<char>>) -> Result<
    (Seq<char>, Seq<(Seq<char>, Seq<char>)>, Option<ConditionView>),
    SqlError,
> {
    if toks.len() < 6 {
        Err(SqlError::InvalidSyntax)
    } else if toks[0] != "UPDATE"@ || toks[2] != "SET"@ {
        Err(SqlError::InvalidSyntax)
    } else if toks[1].len() == 0 {
        Err(SqlError::InvalidSyntax)
    } else {
        let stop = 2 + prefix_len(toks.skip(2), |t: Seq<char>| t != "WHERE"@);
        let set_toks = toks.subrange(2, stop as int);
        let wres: Result<Option<ConditionView>, SqlError> = if stop < toks.len() {
            match spec_where_from_tokens(toks.skip(stop as int)) {
                Ok(c) => Ok(Some(c)),
                Err(e) => Err(e),
            }
        } else {
            Ok(None)
        };
        match wres {
            Ok(w) => match spec_set_from_tokens(set_toks) {
                Ok(pairs) => Ok((toks[1], pairs, w)),
                Err(e) => Err(e),
            },
            Err(e) => Err(e),
        }
    }
}

impl Update {
    /// Creates a new `Update` from tokens of the shape `UPDATE`, `table`,
    /// `SET`, the assignments, then optionally `WHERE` and the condition's
    /// tokens.
    pub fn new_from_tokens(tokens: Vec<String>) -> (r: Result<Update, SqlError>)
        ensures
            match (r, spec_update_from_tokens(tokens.deep_view())) {
                (Ok(u), Ok((name, pairs, cond))) => {
                    &&& u.table_name@ == name
                    &&& u.set_clause.0.deep_view() == pairs
                    &&& match (&u.where_clause, cond) {
                        (Some(w), Some(c)) => w.condition@ == c,
                        (None, None) => true,
                        _ => false,
                    }
                },
                (Err(e1), Err(e2)) => e1 == e2,
                _ => false,
            },
    {
        let ghost toks = tokens.deep_view();
        if tokens.len() < 6 {
            return Err(SqlError::InvalidSyntax);
        }
        proof {
            assert(toks[0] == tokens@[0]@);
            assert(toks[1] == tokens@[1]@);
            assert(toks[2] == tokens@[2]@);
        }
        if !is_update(tokens[0].as_str()) || !is_set(tokens[2].as_str()) {
            return Err(SqlError::InvalidSyntax);
        }
        let table_name = tokens[1].clone();
        if table_name.as_str().is_empty() {
            return Err(SqlError::InvalidSyntax);
        }

        let n = tokens.len();
        let mut set_tokens: Vec<&str> = Vec::new();
        let mut i: usize = 2;
        loop
            invariant
                2 <= i <= n,
                n == tokens@.len(),
                toks == tokens.deep_view(),
                set_tokens.deep_view() == toks.subrange(2, i as int),
                forall|j: int| 2 <= j < i ==> toks[j] != "WHERE"@,
            ensures
                2 <= i <= n,
                toks == tokens.deep_view(),
                set_tokens.deep_view() == toks.subrange(2, i as int),
                forall|j: int| 2 <= j < i ==> toks[j] != "WHERE"@,
                i < n ==> toks[i as int] == "WHERE"@,
            decreases n - i,
        {
            if i >= n {
                break ;
            }
            proof {
                assert(toks[i as int] == tokens@[i as int]@);
            }
            if is_where(tokens[i].as_str()) {
                break ;
            }
            set_tokens.push(tokens[i].as_str());
            proof {
                assert(toks.subrange(2, i + 1) =~= toks.subrange(2, i as int).push(toks[i as int]));
            }
            i = i + 1;
        }
        proof {
            assert(forall|j: int| 0 <= j < i - 2 ==> toks.skip(2)[j] == toks[j + 2]);
            lemma_prefix_len(toks.skip(2), |t: Seq<char>| t != "WHERE"@, i - 2);
        }

        let mut where_clause: Option<Where> = None;
        if i < n {
            let mut where_tokens: Vec<&str> = Vec::new();
            let mut k: usize = i;
            while k < n
                invariant
                    i <= k <= n,
                    n == tokens@.len(),
                    toks == tokens.deep_view(),
                    where_tokens.deep_view() == toks.subrange(i as int, k as int),
                decreases n - k,
            {
                where_tokens.push(tokens[k].as_str());
                proof {
                    assert(toks[k as int] == tokens@[k as int]@);
                    assert(toks.subrange(i as int, k + 1) =~= toks.subrange(i as int, k as int).push(
                        toks[k as int],
                    ));
                }
                k = k + 1;
            }
            proof {
                assert(toks.subrange(i as int, n as int) =~= toks.skip(i as int));
            }
            where_clause = Some(Where::new_from_tokens(where_tokens)?);
        }

        proof {
            reveal_strlit("SET");
            reveal_strlit("WHERE");
            assert("SET"@.len() == 3 && "WHERE"@.len() == 5);
            assert(i > 2);
        }
        let set_clause = SetClause::new_from_tokens(set_tokens)?;

        Ok(Update { table_name, where_clause, set_clause })
    }

    /// The mapping with each assignment applied, first to last.
    pub open spec fn apply_set(m: Map<Seq<char>, Seq<char>>, pairs: Seq<(Seq<char>, Seq<char>)>) -> Map<
        Seq<char>,
        Seq<char>,
    >
        decreases pairs.len(),
    {
        if pairs.len() == 0 {
            m
        } else {
            Self::apply_set(m, pairs.drop_last()).insert(pairs.last().0, pairs.last().1)
        }
    }

    /// What updating one csv line yields: the row with the assignments
    /// applied when it meets the condition (or there is none), the row
    /// unchanged when it does not, and the condition's error when evaluation
    /// fails.
    pub open spec fn spec_execute(&self, line: Seq<char>, columns: Seq<Seq<char>>) -> Result<
        Map<Seq<char>, Seq<char>>,
        SqlError,
    > {
        let original = line_register(columns, split_commas_spec(line));
        let pairs = self.set_clause.0.deep_view();
        match self.where_clause {
            Some(w) => match eval_cond(w.condition@, original) {
                Ok(true) => Ok(Self::apply_set(original, pairs)),
                Ok(false) => Ok(original),
                Err(e) => Err(e),
            },
            None => Ok(Self::apply_set(original, pairs)),
        }
    }

    /// Converts one csv line to a row and applies the `SET` assignments to it
    /// if it meets the condition.
    pub fn execute(&self, line: String, columns: &[String]) -> (r: Result<Register, SqlError>)
        requires
            split_commas_spec(line@).len() >= columns.deep_view().len(),
        ensures
            match (r, self.spec_execute(line@, columns.deep_view())) {
                (Ok(reg), Ok(m)) => reg.wf() && reg@ == m,
                (Err(e1), Err(e2)) => e1 == e2,
                _ => false,
            },
    {
        let mut register = convert_line_to_register(line, columns);
        let apply = if let Some(where_clause) = &self.where_clause {
            where_clause.execute(&register)?
        } else {
            true
        };
        if apply {
            let pairs = &self.set_clause.0;
            let ghost pv = pairs.deep_view();
            let ghost m0 = register@;
            let n = pairs.len();
            let mut k: usize = 0;
            while k < n
                invariant
                    k <= n,
                    n == pairs@.len(),
                    pv == pairs.deep_view(),
                    register.wf(),
                    register@ == Self::apply_set(m0, pv.take(k as int)),
                decreases n - k,
            {
                proof {
                    assert(pv[k as int] == (pairs@[k as int].0@, pairs@[k as int].1@));
                    assert(pv.take(k + 1).drop_last() =~= pv.take(k as int));
                }
                register.insert(pairs[k].0.clone(), pairs[k].1.clone());
                k = k + 1;
            }
            proof {
                assert(pv.take(n as int) =~= pv);
            }
        }
        Ok(register)
    }
}

} // verus!
