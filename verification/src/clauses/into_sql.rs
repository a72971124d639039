//! The `INTO` clause of an `INSERT` statement: the table name and the
//! columns to insert into.

use vstd::prelude::*;

use crate::errors::SqlError;
use crate::text::{split_commas_spec, split_trim_commas, trim_spec};
use crate::utils::is_into;

verus! {

/// The `INTO` SQL clause: the table to insert into and its columns.
#[derive(Debug, PartialEq)]
pub struct Into {
    pub table_name: String,
    pub columns: Vec<String>,
}

/// What building an `INTO` clause from its tokens yields: the keyword, then
/// the table name, then one token holding the comma-separated column names.
pub open spec fn spec_into_from_tokens(toks: Seq<Seq<char>>) -> Result<
    (Seq<char>, Seq<Seq<char>>),
    SqlError,
> {
    if toks.len() < 3 {
        Err(SqlError::InvalidSyntax)
    } else if toks[0] == "INTO"@ {
        Ok((toks[1], split_commas_spec(toks[2]).map_values(|t: Seq<char>| trim_spec(t))))
    } else {
        Err(SqlError::InvalidSyntax)
    }
}

impl Into {
    /// Creates a new `Into` from tokens of the shape `INTO`, `table_name`,
    /// `columns`, the columns comma-separated in one token.
    pub fn new_from_tokens(tokens: Vec<&str>) -> (r: Result<Into, SqlError>)
        ensures
            match (r, spec_into_from_tokens(tokens.deep_view())) {
                (Ok(into), Ok((name, cols))) => into.table_name@ == name && into.columns.deep_view()
                    == cols,
                (Err(e1), Err(e2)) => e1 == e2,
                _ => false,
            },
    {
        if tokens.len() < 3 {
            return Err(SqlError::InvalidSyntax);
        }
        proof {
            assert(tokens.deep_view()[0] == tokens@[0]@);
            assert(tokens.deep_view()[1] == tokens@[1]@);
            assert(tokens.deep_view()[2] == tokens@[2]@);
        }
        if is_into(tokens[0]) {
            let table_name = tokens[1].to_owned();
            let columns = split_trim_commas(tokens[2]);
            Ok(Into { table_name, columns })
        } else {
            Err(SqlError::InvalidSyntax)
        }
    }
}

} // verus!
