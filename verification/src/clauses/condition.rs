//! The condition trees evaluated by the `WHERE` clause.

use vstd::prelude::*;

use crate::errors::SqlError;
use crate::logical_operator::LogicalOperator;
use crate::operator::Operator;
use crate::register::Register;
use crate::text::{lex_lt, str_eq, str_lt};
use crate::utils::{is_number, spec_is_number};

verus! {

/// A condition used in the `WHERE` clause.
///
/// - `Simple`: one field compared against one literal value.
/// - `Complex`: a logical combination; `left` is present for `And`/`Or` and
///   absent for `Not`.
#[derive(Debug, PartialEq)]
pub enum Condition {
    Simple { field: String, operator: Operator, value: String },
    Complex { left: Option<Box<Condition>>, operator: LogicalOperator, right: Box<Condition> },
}

/// The mathematical shape of a condition tree: the same structure with each
/// string replaced by its character sequence.
pub enum ConditionView {
    Simple { field: Seq<char>, operator: Operator, value: Seq<char> },
    Complex {
        left: Option<Box<ConditionView>>,
        operator: LogicalOperator,
        right: Box<ConditionView>,
    },
}

pub open spec fn cond_view(c: Condition) -> ConditionView
    decreases c,
{
    match c {
        Condition::Simple { field, operator, value } => ConditionView::Simple {
            field: field@,
            operator,
            value: value@,
        },
        Condition::Complex { left, operator, right } => ConditionView::Complex {
            left: match left {
                Some(l) => Some(Box::new(cond_view(*l))),
                None => None,
            },
            operator,
            right: Box::new(cond_view(*right)),
        },
    }
}

impl View for Condition {
    type V = ConditionView;

    open spec fn view(&self) -> ConditionView {
        cond_view(*self)
    }
}

/// What evaluating a condition tree against a row yields.
///
/// - A simple leaf looks its field up: a missing field is the generic
///   evaluation error; a comparison whose sides do not agree on being numeric
///   is the syntax error; otherwise the two strings are compared
///   lexicographically under the leaf's operator.
/// - `Not` negates its right subtree.
/// - `And`/`Or` require the left subtree (else the generic error), evaluate
///   both sides, left first, and combine the results.
pub open spec fn eval_cond(c: ConditionView, row: Map<Seq<char>, Seq<char>>) -> Result<
    bool,
    SqlError,
>
    decreases c,
{
    match c {
        ConditionView::Simple { field, operator, value } => {
            if row.contains_key(field) {
                let x = row[field];
                if spec_is_number(value) != spec_is_number(x) {
                    Err(SqlError::InvalidSyntax)
                } else {
                    Ok(
                        match operator {
                            Operator::Lesser => lex_lt(x, value),
                            Operator::Greater => lex_lt(value, x),
                            Operator::Equal => x == value,
                        },
                    )
                }
            } else {
                Err(SqlError::Error)
            }
        },
        ConditionView::Complex { left, operator, right } => match operator {
            LogicalOperator::Not => match eval_cond(*right, row) {
                Ok(b) => Ok(!b),
                Err(e) => Err(e),
            },
            LogicalOperator::Or => match left {
                Some(l) => match eval_cond(*l, row) {
                    Ok(lb) => match eval_cond(*right, row) {
                        Ok(rb) => Ok(lb || rb),
                        Err(e) => Err(e),
                    },
                    Err(e) => Err(e),
                },
                None => Err(SqlError::Error),
            },
            LogicalOperator::And => match left {
                Some(l) => match eval_cond(*l, row) {
                    Ok(lb) => match eval_cond(*right, row) {
                        Ok(rb) => Ok(lb && rb),
                        Err(e) => Err(e),
                    },
                    Err(e) => Err(e),
                },
                None => Err(SqlError::Error),
            },
        },
    }
}

/// The result of building a condition, seen at the view level.
pub open spec fn res_view(r: Result<Condition, SqlError>) -> Result<ConditionView, SqlError> {
    match r {
        Ok(c) => Ok(c@),
        Err(e) => Err(e),
    }
}

/// The comparison operator a token denotes, if any.
pub open spec fn op_of_token(t: Seq<char>) -> Option<Operator> {
    if t == "="@ {
        Some(Operator::Equal)
    } else if t == ">"@ {
        Some(Operator::Greater)
    } else if t == "<"@ {
        Some(Operator::Lesser)
    } else {
        None
    }
}

/// What building a simple condition from one field, operator and value token
/// yields.
pub open spec fn spec_new_simple(field: Seq<char>, operator: Seq<char>, value: Seq<char>) -> Result<
    ConditionView,
    SqlError,
> {
    match op_of_token(operator) {
        Some(op) => Ok(ConditionView::Simple { field, operator: op, value }),
        None => Err(SqlError::InvalidSyntax),
    }
}

/// What consuming three tokens for a simple condition yields, together with
/// the cursor position after the consumed tokens (on failure, the position at
/// the point of failure).
pub open spec fn spec_simple_from_tokens(toks: Seq<Seq<char>>, pos: int) -> (Result<
    ConditionView,
    SqlError,
>, int) {
    if pos < toks.len() {
        if pos + 1 < toks.len() {
            if pos + 2 < toks.len() {
                (spec_new_simple(toks[pos], toks[pos + 1], toks[pos + 2]), pos + 3)
            } else {
                (Err(SqlError::InvalidSyntax), pos + 2)
            }
        } else {
            (Err(SqlError::InvalidSyntax), pos + 1)
        }
    } else {
        (Err(SqlError::InvalidSyntax), pos)
    }
}

impl Condition {
    /// Creates a new simple `Condition` from the three tokens at `pos`:
    /// `field`, `operator`, `value`. Advances `pos` past the consumed tokens;
    /// fails with the syntax error when fewer than three tokens remain or the
    /// operator token is not one of `=`, `>`, `<`.
    pub fn new_simple_from_tokens(tokens: &[&str], pos: &mut usize) -> (r: Result<
        Condition,
        SqlError,
    >)
        ensures
            ({
                let (res, np) = spec_simple_from_tokens(tokens.deep_view(), *old(pos) as int);
                &&& *final(pos) == np
                &&& res_view(r) == res
            }),
    {
        if let Some(field) = tokens.get(*pos) {
            *pos += 1;
            if let Some(operator) = tokens.get(*pos) {
                *pos += 1;
                if let Some(value) = tokens.get(*pos) {
                    *pos += 1;
                    Condition::new_simple(field, operator, value)
                } else {
                    Err(SqlError::InvalidSyntax)
                }
            } else {
                Err(SqlError::InvalidSyntax)
            }
        } else {
            Err(SqlError::InvalidSyntax)
        }
    }

    /// Creates a new simple `Condition` from a field, an operator token and a
    /// value; fails with the syntax error when the operator token is not one
    /// of `=`, `>`, `<`.
    pub fn new_simple(field: &str, operator: &str, value: &str) -> (r: Result<Condition, SqlError>)
        ensures
            res_view(r) == spec_new_simple(field@, operator@, value@),
    {
        let op = if str_eq(operator, "=") {
            Operator::Equal
        } else if str_eq(operator, ">") {
            Operator::Greater
        } else if str_eq(operator, "<") {
            Operator::Lesser
        } else {
            return Err(SqlError::InvalidSyntax);
        };
        Ok(Condition::Simple { field: field.to_owned(), operator: op, value: value.to_owned() })
    }

    /// Creates a new complex `Condition` from an optional left subtree, a
    /// logical operator and a right subtree.
    pub fn new_complex(left: Option<Condition>, operator: LogicalOperator, right: Condition) -> (r:
        Condition)
        ensures
            r@ == (ConditionView::Complex {
                left: match left {
                    Some(l) => Some(Box::new(l@)),
                    None => None,
                },
                operator,
                right: Box::new(right@),
            }),
    {
        Condition::Complex {
            left: match left {
                Some(l) => Some(Box::new(l)),
                None => None,
            },
            operator,
            right: Box::new(right),
        }
    }

    /// Evaluates the condition on the given register. Returns the boolean the
    /// tree denotes for that row, or the error [`eval_cond`] assigns.
    pub fn execute(&self, register: &Register) -> (r: Result<bool, SqlError>)
        requires
            register.wf(),
        ensures
            r == eval_cond(self@, register@),
        decreases *self,
    {
        match self {
            Condition::Simple { field, operator, value } => {
                if let Some(x) = register.get(field.as_str()) {
                    let y_num = is_number(value.as_str());
                    let x_num = is_number(x.as_str());
                    if y_num && !x_num || !y_num && x_num {
                        return Err(SqlError::InvalidSyntax);
                    }
                    match operator {
                        Operator::Lesser => Ok(str_lt(x.as_str(), value.as_str())),
                        Operator::Greater => Ok(str_lt(value.as_str(), x.as_str())),
                        Operator::Equal => Ok(str_eq(x.as_str(), value.as_str())),
                    }
                } else {
                    Err(SqlError::Error)
                }
            },
            Condition::Complex { left, operator, right } => match operator {
                LogicalOperator::Not => {
                    let result = right.execute(register)?;
                    Ok(!result)
                },
                LogicalOperator::Or => {
                    if let Some(l) = left {
                        let left_result = l.execute(register)?;
                        let right_result = right.execute(register)?;
                        Ok(left_result || right_result)
                    } else {
                        Err(SqlError::Error)
                    }
                },
                LogicalOperator::And => {
                    if let Some(l) = left {
                        let left_result = l.execute(register)?;
                        let right_result = right.execute(register)?;
                        Ok(left_result && right_result)
                    } else {
                        Err(SqlError::Error)
                    }
                },
            },
        }
    }
}

/// Negation law: a `Not` node evaluates to the negation of its right subtree
/// and passes the subtree's error through unchanged, for every row and
/// subtree.
pub proof fn lemma_eval_not(right: ConditionView, row: Map<Seq<char>, Seq<char>>)
    ensures
        eval_cond(
            (ConditionView::Complex {
                left: None,
                operator: LogicalOperator::Not,
                right: Box::new(right),
            }),
            row,
        ) == (match eval_cond(right, row) {
            Ok(b) => Ok::<bool, SqlError>(!b),
            Err(e) => Err(e),
        }),
{
}

/// Conjunction law: an `And` node with both subtrees evaluates to the
/// conjunction of their results, the left side's error taking precedence,
/// for every row and pair of subtrees.
pub proof fn lemma_eval_and(left: ConditionView, right: ConditionView, row: Map<Seq<char>, Seq<char>>)
    ensures
        eval_cond(
            (ConditionView::Complex {
                left: Some(Box::new(left)),
                operator: LogicalOperator::And,
                right: Box::new(right),
            }),
            row,
        ) == (match eval_cond(left, row) {
            Ok(lb) => match eval_cond(right, row) {
                Ok(rb) => Ok::<bool, SqlError>(lb && rb),
                Err(e) => Err(e),
            },
            Err(e) => Err(e),
        }),
{
}

/// Disjunction law: an `Or` node with both subtrees evaluates to the
/// disjunction of their results, the left side's error taking precedence,
/// for every row and pair of subtrees.
pub proof fn lemma_eval_or(left: ConditionView, right: ConditionView, row: Map<Seq<char>, Seq<char>>)
    ensures
        eval_cond(
            (ConditionView::Complex {
                left: Some(Box::new(left)),
                operator: LogicalOperator::Or,
                right: Box::new(right),
            }),
            row,
        ) == (match eval_cond(left, row) {
            Ok(lb) => match eval_cond(right, row) {
                Ok(rb) => Ok::<bool, SqlError>(lb || rb),
                Err(e) => Err(e),
            },
            Err(e) => Err(e),
        }),
{
}

/// A comparison whose two sides do not agree on being numeric fails with the
/// syntax error, for every row, leaf and operator.
pub proof fn lemma_eval_mixed_type_fails(
    field: Seq<char>,
    operator: Operator,
    value: Seq<char>,
    row: Map<Seq<char>, Seq<char>>,
)
    requires
        row.contains_key(field),
        spec_is_number(row[field]) != spec_is_number(value),
    ensures
        eval_cond((ConditionView::Simple { field, operator, value }), row) == Err::<
            bool,
            SqlError,
        >(SqlError::InvalidSyntax),
{
}

/// A leaf whose field is absent from the row fails with the generic
/// evaluation error — never a default result — for every row, leaf and
/// operator.
pub proof fn lemma_eval_missing_field(
    field: Seq<char>,
    operator: Operator,
    value: Seq<char>,
    row: Map<Seq<char>, Seq<char>>,
)
    requires
        !row.contains_key(field),
    ensures
        eval_cond((ConditionView::Simple { field, operator, value }), row) == Err::<
            bool,
            SqlError,
        >(SqlError::Error),
{
}

/// An `And`/`Or` node without its left operand fails with the generic
/// evaluation error, for every row and right subtree.
pub proof fn lemma_eval_missing_operand(
    operator: LogicalOperator,
    right: ConditionView,
    row: Map<Seq<char>, Seq<char>>,
)
    requires
        operator != LogicalOperator::Not,
    ensures
        eval_cond(
            (ConditionView::Complex { left: None, operator, right: Box::new(right) }),
            row,
        ) == Err::<bool, SqlError>(SqlError::Error),
{
}

} // verus!
