use vstd::prelude::*;

verus! {

/// The logical operators used in complex conditions.
/// - `And`: both subtrees must hold.
/// - `Or`: at least one subtree must hold.
/// - `Not`: the (single, right) subtree must not hold.
#[derive(Debug, PartialEq, Eq, Structural, Clone, Copy)]
pub enum LogicalOperator {
    And,
    Or,
    Not,
}

} // verus!
