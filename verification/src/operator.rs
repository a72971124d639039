use vstd::prelude::*;

verus! {

/// The comparison operators used in simple conditions.
/// - `Equal`: the two sides are the same string.
/// - `Greater`: the left side is lexicographically greater.
/// - `Lesser`: the left side is lexicographically lesser.
#[derive(Debug, PartialEq, Eq, Structural, Clone, Copy)]
pub enum Operator {
    Equal,
    Greater,
    Lesser,
}

} // verus!
