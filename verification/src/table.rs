//! A table held in memory: its column names and its rows.

use vstd::prelude::*;

use crate::register::Register;

verus! {

/// A table: the column names, in order, and the rows.
#[derive(Debug)]
pub struct Table {
    pub columns: Vec<String>,
    pub registers: Vec<Register>,
}

impl Table {
    /// Creates a new table with no columns and no registers.
    pub fn new() -> (t: Table)
        ensures
            t.columns@.len() == 0,
            t.registers@.len() == 0,
    {
        Table { columns: Vec::new(), registers: Vec::new() }
    }
}

} // verus!
