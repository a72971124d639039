//! A small SQL-like query engine: a tokenizer for statements, a
//! recursive-descent parser for `WHERE` conditions, an evaluator that applies
//! a condition tree to one row of named string values, and the clause
//! builders (`SELECT`, `INSERT`, `UPDATE`, `DELETE`, `ORDER BY`, `SET`,
//! `INTO`, `WHERE`) that consume token sequences.

pub mod clauses;
pub mod errors;
pub mod logical_operator;
pub mod operator;
pub mod register;
pub mod table;
pub mod tokens;
pub mod text;
pub mod utils;

use vstd::prelude::*;

verus! {

} // verus!
