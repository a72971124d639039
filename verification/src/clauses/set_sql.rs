//! The `SET` clause of an `UPDATE` statement: the columns to change and
//! their new values.

use vstd::prelude::*;

use crate::errors::SqlError;
use crate::text::str_eq;
use crate::utils::is_set;

verus! {

/// The `SET` SQL clause: pairs of column name and new value.
#[derive(PartialEq, Debug)]
pub struct SetClause(pub Vec<(String, String)>);

/// The column/value pairs the tokens from position `i` on contribute: every
/// `=` token pairs its left neighbour with its right neighbour.
pub open spec fn set_pairs(toks: Seq<Seq<char>>, i: int) -> Seq<(Seq<char>, Seq<char>)>
    decreases toks.len() - i,
{
    if i < 1 || i >= toks.len() {
        Seq::empty()
    } else {
        let rest = set_pairs(toks, i + 1);
        if toks[i] == "="@ && i + 1 < toks.len() {
            seq![(toks[i - 1], toks[i + 1])] + rest
        } else {
            rest
        }
    }
}

/// What building a `SET` clause from its tokens yields: the tokens must start
/// with the keyword and contain at least one `=`.
pub open spec fn spec_set_from_tokens(toks: Seq<Seq<char>>) -> Result<
    Seq<(Seq<char>, Seq<char>)>,
    SqlError,
> {
    if toks[0] != "SET"@ || !toks.contains("="@) {
        Err(SqlError::InvalidSyntax)
    } else {
        Ok(set_pairs(toks, 1))
    }
}

impl SetClause {
    /// Creates a new `SetClause` from tokens of the shape `SET`, `column`, `=`,
    /// `value`, possibly repeated.
    pub fn new_from_tokens(tokens: Vec<&str>) -> (r: Result<SetClause, SqlError>)
        requires
            tokens@.len() >= 1,
        ensures
            match (r, spec_set_from_tokens(tokens.deep_view())) {
                (Ok(s), Ok(pairs)) => s.0.deep_view() == pairs,
                (Err(e1), Err(e2)) => e1 == e2,
                _ => false,
            },
    {
        let ghost toks = tokens.deep_view();
        let n = tokens.len();
        let mut has_eq = false;
        let mut k: usize = 0;
        while k < n
            invariant
                k <= n,
                n == tokens@.len(),
                toks == tokens.deep_view(),
                has_eq == exists|j: int| 0 <= j < k && toks[j] == "="@,
            decreases n - k,
        {
            proof {
                assert(toks[k as int] == tokens@[k as int]@);
            }
            if str_eq(tokens[k], "=") {
                has_eq = true;
            }
            k = k + 1;
        }
        proof {
            assert(toks[0] == tokens@[0]@);
            assert(has_eq == toks.contains("="@));
        }
        if !is_set(tokens[0]) || !has_eq {
            return Err(SqlError::InvalidSyntax);
        }
        let mut set: Vec<(String, String)> = Vec::new();
        let mut i: usize = 1;
        while i < n
            invariant
                1 <= i <= n,
                n == tokens@.len(),
                toks == tokens.deep_view(),
                set.deep_view() + set_pairs(toks, i as int) == set_pairs(toks, 1),
            decreases n - i,
        {
            proof {
                assert(toks[i as int] == tokens@[i as int]@);
            }
            if str_eq(tokens[i], "=") && i + 1 < n {
                let pair = (tokens[i - 1].to_owned(), tokens[i + 1].to_owned());
                let ghost pv = (toks[i - 1], toks[i + 1]);
                set.push(pair);
                proof {
                    assert(set.deep_view() =~= set.deep_view().take(set.deep_view().len() - 1).push(
                        pv,
                    ));
                    assert(set.deep_view().take(set.deep_view().len() - 1).push(pv) + set_pairs(
                        toks,
                        i + 1,
                    ) =~= set.deep_view().take(set.deep_view().len() - 1) + (seq![pv] + set_pairs(
                        toks,
                        i + 1,
                    )));
                }
            }
            i = i + 1;
        }
        proof {
            assert(set.deep_view() + Seq::<(Seq<char>, Seq<char>)>::empty() =~= set.deep_view());
        }
        Ok(SetClause(set))
    }
}

} // verus!
