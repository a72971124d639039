//! The `WHERE` clause: a parsed condition, evaluated once per candidate row.

use vstd::prelude::*;

use crate::clauses::condition::{eval_cond, Condition, ConditionView};
use crate::clauses::recursive_parser::{parse_condition, spec_parse_or};
use crate::errors::SqlError;
use crate::register::Register;

verus! {

/// The `WHERE` SQL clause: filters records that match a condition.
#[derive(Debug, PartialEq)]
pub struct Where {
    pub condition: Condition,
}

/// What building a `WHERE` clause from its tokens yields: the leading keyword
/// token is skipped and the condition is parsed from the second token on;
/// fewer than four tokens cannot hold a condition.
pub open spec fn spec_where_from_tokens(toks: Seq<Seq<char>>) -> Result<ConditionView, SqlError> {
    if toks.len() < 4 {
        Err(SqlError::InvalidSyntax)
    } else {
        spec_parse_or(toks, 1).0
    }
}

impl Where {
    /// Creates a new `Where` from tokens of the shape `WHERE`, then the
    /// condition's tokens.
    pub fn new_from_tokens(tokens: Vec<&str>) -> (r: Result<Where, SqlError>)
        ensures
            match (r, spec_where_from_tokens(tokens.deep_view())) {
                (Ok(w), Ok(c)) => w.condition@ == c,
                (Err(e1), Err(e2)) => e1 == e2,
                _ => false,
            },
    {
        if tokens.len() < 4 {
            return Err(SqlError::InvalidSyntax);
        }
        let mut pos: usize = 1;
        let slice = tokens.as_slice();
        proof {
            assert(slice.deep_view() =~= tokens.deep_view());
        }
        let condition = parse_condition(slice, &mut pos)?;
        Ok(Where { condition })
    }

    /// Evaluates the clause's condition against the given register.
    pub fn execute(&self, register: &Register) -> (r: Result<bool, SqlError>)
        requires
            register.wf(),
        ensures
            r == eval_cond(self.condition@, register@),
    {
        self.condition.execute(register)
    }
}

} // verus!
