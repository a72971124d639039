//! A recursive-descent parser that turns a flat token sequence into a
//! condition tree.
//!
//! The grammar, loosest binding first:
//!
//! ```text
//! expr    := and_expr ( "OR" and_expr )*     -- left-associative
//! and_expr:= unary ( "AND" unary )*          -- left-associative
//! unary   := "NOT" unary | primary
//! primary := "(" expr ")" | field op value   -- op is one of "=", ">", "<"
//! ```
//!
//! Grouping is written with single `(` and `)` tokens. Every structural
//! problem — too few tokens, an unknown operator, an unmatched group — fails
//! with the syntax error and leaves the cursor at the point of failure.

use vstd::math::max;
use vstd::prelude::*;

use crate::clauses::condition::{
    eval_cond, res_view, spec_new_simple, spec_simple_from_tokens, Condition, ConditionView,
};
use crate::errors::SqlError;
use crate::logical_operator::LogicalOperator;
use crate::utils::{is_and, is_left_paren, is_not, is_or, is_right_paren, spec_is_number};

verus! {

/// How many tokens are left at a cursor position; zero past the end, and one
/// more than the whole sequence for a position before the start (so that
/// moving to position zero still decreases it).
pub open spec fn remaining(toks: Seq<Seq<char>>, pos: int) -> nat {
    if pos < 0 {
        toks.len() + 1
    } else if pos <= toks.len() {
        (toks.len() - pos) as nat
    } else {
        0
    }
}

/// A cursor position forced into the closed interval `[lo, hi]`.
pub open spec fn clamp_pos(np: int, lo: int, hi: int) -> int {
    if np < lo {
        lo
    } else if np > hi {
        hi
    } else {
        np
    }
}

/// What parsing a `primary` at `pos` yields: the tree and the position after
/// it, or the error and the position of the failure.
pub open spec fn spec_parse_primary(toks: Seq<Seq<char>>, pos: int) -> (Result<
    ConditionView,
    SqlError,
>, int)
    decreases remaining(toks, pos), 4int,
{
    if 0 <= pos < toks.len() && toks[pos] == "("@ {
        let (res, np) = spec_parse_or(toks, pos + 1);
        match res {
            Ok(c) => {
                if 0 <= np < toks.len() && toks[np] == ")"@ {
                    (Ok(c), np + 1)
                } else {
                    (Err(SqlError::InvalidSyntax), np)
                }
            },
            Err(e) => (Err(e), np),
        }
    } else {
        spec_simple_from_tokens(toks, pos)
    }
}

/// What parsing a `unary` at `pos` yields.
pub open spec fn spec_parse_unary(toks: Seq<Seq<char>>, pos: int) -> (Result<
    ConditionView,
    SqlError,
>, int)
    decreases remaining(toks, pos), 5int,
{
    if 0 <= pos < toks.len() && toks[pos] == "NOT"@ {
        let (res, np) = spec_parse_unary(toks, pos + 1);
        match res {
            Ok(c) => (
                Ok(
                    ConditionView::Complex {
                        left: None,
                        operator: LogicalOperator::Not,
                        right: Box::new(c),
                    },
                ),
                np,
            ),
            Err(e) => (Err(e), np),
        }
    } else {
        spec_parse_primary(toks, pos)
    }
}

/// What folding `( "AND" unary )*` onto an already parsed left subtree
/// yields: each further operand extends the tree to the left.
pub open spec fn spec_parse_and_chain(toks: Seq<Seq<char>>, left: ConditionView, pos: int) -> (Result<
    ConditionView,
    SqlError,
>, int)
    decreases remaining(toks, pos), 0int,
{
    if 0 <= pos < toks.len() && toks[pos] == "AND"@ {
        let (res, np) = spec_parse_unary(toks, pos + 1);
        match res {
            Ok(right) => spec_parse_and_chain(
                toks,
                ConditionView::Complex {
                    left: Some(Box::new(left)),
                    operator: LogicalOperator::And,
                    right: Box::new(right),
                },
                clamp_pos(np, pos + 1, toks.len() as int),
            ),
            Err(e) => (Err(e), np),
        }
    } else {
        (Ok(left), pos)
    }
}

/// What parsing an `and_expr` at `pos` yields.
pub open spec fn spec_parse_and(toks: Seq<Seq<char>>, pos: int) -> (Result<
    ConditionView,
    SqlError,
>, int)
    decreases remaining(toks, pos), 6int,
{
    let (res, np) = spec_parse_unary(toks, pos);
    match res {
        Ok(left) => spec_parse_and_chain(toks, left, clamp_pos(np, pos, toks.len() as int)),
        Err(e) => (Err(e), np),
    }
}

/// What folding `( "OR" and_expr )*` onto an already parsed left subtree
/// yields.
pub open spec fn spec_parse_or_chain(toks: Seq<Seq<char>>, left: ConditionView, pos: int) -> (Result<
    ConditionView,
    SqlError,
>, int)
    decreases remaining(toks, pos), 1int,
{
    if 0 <= pos < toks.len() && toks[pos] == "OR"@ {
        let (res, np) = spec_parse_and(toks, pos + 1);
        match res {
            Ok(right) => spec_parse_or_chain(
                toks,
                ConditionView::Complex {
                    left: Some(Box::new(left)),
                    operator: LogicalOperator::Or,
                    right: Box::new(right),
                },
                clamp_pos(np, pos + 1, toks.len() as int),
            ),
            Err(e) => (Err(e), np),
        }
    } else {
        (Ok(left), pos)
    }
}

/// What parsing a whole condition expression (an `expr`) at `pos` yields.
pub open spec fn spec_parse_or(toks: Seq<Seq<char>>, pos: int) -> (Result<
    ConditionView,
    SqlError,
>, int)
    decreases remaining(toks, pos), 7int,
{
    let (res, np) = spec_parse_and(toks, pos);
    match res {
        Ok(left) => spec_parse_or_chain(toks, left, clamp_pos(np, pos, toks.len() as int)),
        Err(e) => (Err(e), np),
    }
}

/// The parser's cursor never moves backwards and never runs past the end of
/// the tokens; a success always ends within them.
pub proof fn lemma_parse_primary_pos(toks: Seq<Seq<char>>, pos: int)
    requires
        0 <= pos,
    ensures
        ({
            let (res, np) = spec_parse_primary(toks, pos);
            &&& pos <= np <= max(pos, toks.len() as int)
            &&& res is Ok ==> np <= toks.len()
        }),
    decreases remaining(toks, pos), 4int,
{
    if 0 <= pos < toks.len() && toks[pos] == "("@ {
        lemma_parse_or_pos(toks, pos + 1);
    }
}

/// See [`lemma_parse_primary_pos`].
pub proof fn lemma_parse_unary_pos(toks: Seq<Seq<char>>, pos: int)
    requires
        0 <= pos,
    ensures
        ({
            let (res, np) = spec_parse_unary(toks, pos);
            &&& pos <= np <= max(pos, toks.len() as int)
            &&& res is Ok ==> np <= toks.len()
        }),
    decreases remaining(toks, pos), 5int,
{
    if 0 <= pos < toks.len() && toks[pos] == "NOT"@ {
        lemma_parse_unary_pos(toks, pos + 1);
    } else {
        lemma_parse_primary_pos(toks, pos);
    }
}

/// See [`lemma_parse_primary_pos`].
pub proof fn lemma_parse_and_chain_pos(toks: Seq<Seq<char>>, left: ConditionView, pos: int)
    requires
        0 <= pos,
    ensures
        ({
            let (res, np) = spec_parse_and_chain(toks, left, pos);
            &&& pos <= np <= max(pos, toks.len() as int)
        }),
    decreases remaining(toks, pos), 0int,
{
    if 0 <= pos < toks.len() && toks[pos] == "AND"@ {
        lemma_parse_unary_pos(toks, pos + 1);
        let (res, np) = spec_parse_unary(toks, pos + 1);
        match res {
            Ok(right) => {
                lemma_parse_and_chain_pos(
                    toks,
                    ConditionView::Complex {
                        left: Some(Box::new(left)),
                        operator: LogicalOperator::And,
                        right: Box::new(right),
                    },
                    clamp_pos(np, pos + 1, toks.len() as int),
                );
            },
            Err(_) => {},
        }
    }
}

/// See [`lemma_parse_primary_pos`].
pub proof fn lemma_parse_and_pos(toks: Seq<Seq<char>>, pos: int)
    requires
        0 <= pos,
    ensures
        ({
            let (res, np) = spec_parse_and(toks, pos);
            &&& pos <= np <= max(pos, toks.len() as int)
            &&& res is Ok ==> np <= toks.len()
        }),
    decreases remaining(toks, pos), 6int,
{
    lemma_parse_unary_pos(toks, pos);
    let (res, np) = spec_parse_unary(toks, pos);
    match res {
        Ok(left) => {
            lemma_parse_and_chain_pos(toks, left, clamp_pos(np, pos, toks.len() as int));
        },
        Err(_) => {},
    }
}

/// See [`lemma_parse_primary_pos`].
pub proof fn lemma_parse_or_chain_pos(toks: Seq<Seq<char>>, left: ConditionView, pos: int)
    requires
        0 <= pos,
    ensures
        ({
            let (res, np) = spec_parse_or_chain(toks, left, pos);
            &&& pos <= np <= max(pos, toks.len() as int)
        }),
    decreases remaining(toks, pos), 1int,
{
    if 0 <= pos < toks.len() && toks[pos] == "OR"@ {
        lemma_parse_and_pos(toks, pos + 1);
        let (res, np) = spec_parse_and(toks, pos + 1);
        match res {
            Ok(right) => {
                lemma_parse_or_chain_pos(
                    toks,
                    ConditionView::Complex {
                        left: Some(Box::new(left)),
                        operator: LogicalOperator::Or,
                        right: Box::new(right),
                    },
                    clamp_pos(np, pos + 1, toks.len() as int),
                );
            },
            Err(_) => {},
        }
    }
}

/// See [`lemma_parse_primary_pos`].
pub proof fn lemma_parse_or_pos(toks: Seq<Seq<char>>, pos: int)
    requires
        0 <= pos,
    ensures
        ({
            let (res, np) = spec_parse_or(toks, pos);
            &&& pos <= np <= max(pos, toks.len() as int)
            &&& res is Ok ==> np <= toks.len()
        }),
    decreases remaining(toks, pos), 7int,
{
    lemma_parse_and_pos(toks, pos);
    let (res, np) = spec_parse_and(toks, pos);
    match res {
        Ok(left) => {
            lemma_parse_or_chain_pos(toks, left, clamp_pos(np, pos, toks.len() as int));
        },
        Err(_) => {},
    }
}

/// Parse-then-evaluate law: a three-token sequence `field`, `op`, `value`
/// whose operator is one of `=`, `>`, `<` and whose field is not itself a
/// grammar keyword parses completely into a simple leaf; evaluating that leaf
/// against a row that has the field, with both sides agreeing on being
/// numeric, yields a boolean and never an error.
pub proof fn lemma_parse_then_eval_simple(
    field: Seq<char>,
    op: Seq<char>,
    value: Seq<char>,
    row: Map<Seq<char>, Seq<char>>,
)
    requires
        op == "="@ || op == ">"@ || op == "<"@,
        field != "NOT"@,
        field != "("@,
        row.contains_key(field),
        spec_is_number(row[field]) == spec_is_number(value),
    ensures
        ({
            let (res, np) = spec_parse_or(seq![field, op, value], 0);
            &&& np == 3
            &&& res is Ok
            &&& eval_cond(res->Ok_0, row) is Ok
        }),
{
    let toks = seq![field, op, value];
    assert(toks.len() == 3 && toks[0] == field && toks[1] == op && toks[2] == value);
    let res0 = spec_new_simple(field, op, value);
    assert(res0 is Ok);
    let sc = res0->Ok_0;
    assert(sc == (ConditionView::Simple {
        field,
        operator: sc->Simple_operator,
        value,
    }));
    assert(spec_simple_from_tokens(toks, 0) == (Ok::<ConditionView, SqlError>(sc), 3int));
    assert(spec_parse_primary(toks, 0) == (Ok::<ConditionView, SqlError>(sc), 3int));
    assert(spec_parse_unary(toks, 0) == (Ok::<ConditionView, SqlError>(sc), 3int));
    assert(spec_parse_and_chain(toks, sc, 3) == (Ok::<ConditionView, SqlError>(sc), 3int));
    assert(spec_parse_and(toks, 0) == (Ok::<ConditionView, SqlError>(sc), 3int));
    assert(spec_parse_or_chain(toks, sc, 3) == (Ok::<ConditionView, SqlError>(sc), 3int));
    assert(spec_parse_or(toks, 0) == (Ok::<ConditionView, SqlError>(sc), 3int));
    assert(eval_cond(sc, row) is Ok);
}

/// Parses a whole condition expression starting at `pos`, advancing `pos`
/// past the consumed tokens. Any structural problem fails with the syntax
/// error and leaves `pos` at the point of failure.
pub fn parse_condition(tokens: &[&str], pos: &mut usize) -> (r: Result<Condition, SqlError>)
    ensures
        ({
            let (res, np) = spec_parse_or(tokens.deep_view(), *old(pos) as int);
            &&& *final(pos) == np
            &&& res_view(r) == res
        }),
    decreases remaining(tokens.deep_view(), *old(pos) as int), 7int,
{
    let ghost toks = tokens.deep_view();
    let ghost pos0 = *pos as int;
    let first = parse_and_expr(tokens, pos);
    match first {
        Ok(mut left) => {
            proof {
                lemma_parse_and_pos(toks, pos0);
            }
            loop
                invariant
                    toks == tokens.deep_view(),
                    pos0 == *old(pos) as int,
                    pos0 <= *pos as int,
                    *pos <= tokens@.len(),
                    spec_parse_or(toks, pos0) == spec_parse_or_chain(toks, left@, *pos as int),
                decreases tokens@.len() - *pos,
            {
                if *pos < tokens.len() {
                    proof {
                        assert(toks[*pos as int] == tokens@[*pos as int]@);
                    }
                    if is_or(tokens[*pos]) {
                        *pos += 1;
                        let ghost p = *pos as int;
                        let next = parse_and_expr(tokens, pos);
                        proof {
                            lemma_parse_and_pos(toks, p);
                        }
                        match next {
                            Ok(right) => {
                                left = Condition::Complex {
                                    left: Some(Box::new(left)),
                                    operator: LogicalOperator::Or,
                                    right: Box::new(right),
                                };
                            },
                            Err(e) => {
                                return Err(e);
                            },
                        }
                    } else {
                        return Ok(left);
                    }
                } else {
                    return Ok(left);
                }
            }
        },
        Err(e) => Err(e),
    }
}

/// Parses an `and_expr` starting at `pos`: a chain of `unary` operands
/// joined by `AND`, folded into a left-leaning tree.
pub fn parse_and_expr(tokens: &[&str], pos: &mut usize) -> (r: Result<Condition, SqlError>)
    ensures
        ({
            let (res, np) = spec_parse_and(tokens.deep_view(), *old(pos) as int);
            &&& *final(pos) == np
            &&& res_view(r) == res
        }),
    decreases remaining(tokens.deep_view(), *old(pos) as int), 6int,
{
    let ghost toks = tokens.deep_view();
    let ghost pos0 = *pos as int;
    let first = parse_unary(tokens, pos);
    match first {
        Ok(mut left) => {
            proof {
                lemma_parse_unary_pos(toks, pos0);
            }
            loop
                invariant
                    toks == tokens.deep_view(),
                    pos0 == *old(pos) as int,
                    pos0 <= *pos as int,
                    *pos <= tokens@.len(),
                    spec_parse_and(toks, pos0) == spec_parse_and_chain(toks, left@, *pos as int),
                decreases tokens@.len() - *pos,
            {
                if *pos < tokens.len() {
                    proof {
                        assert(toks[*pos as int] == tokens@[*pos as int]@);
                    }
                    if is_and(tokens[*pos]) {
                        *pos += 1;
                        let ghost p = *pos as int;
                        let next = parse_unary(tokens, pos);
                        proof {
                            lemma_parse_unary_pos(toks, p);
                        }
                        match next {
                            Ok(right) => {
                                left = Condition::Complex {
                                    left: Some(Box::new(left)),
                                    operator: LogicalOperator::And,
                                    right: Box::new(right),
                                };
                            },
                            Err(e) => {
                                return Err(e);
                            },
                        }
                    } else {
                        return Ok(left);
                    }
                } else {
                    return Ok(left);
                }
            }
        },
        Err(e) => Err(e),
    }
}

/// Parses a `unary` starting at `pos`: any number of leading `NOT` tokens,
/// then a `primary`.
pub fn parse_unary(tokens: &[&str], pos: &mut usize) -> (r: Result<Condition, SqlError>)
    ensures
        ({
            let (res, np) = spec_parse_unary(tokens.deep_view(), *old(pos) as int);
            &&& *final(pos) == np
            &&& res_view(r) == res
        }),
    decreases remaining(tokens.deep_view(), *old(pos) as int), 5int,
{
    if *pos < tokens.len() {
        proof {
            assert(tokens.deep_view()[*pos as int] == tokens@[*pos as int]@);
        }
        if is_not(tokens[*pos]) {
            *pos += 1;
            let right = parse_unary(tokens, pos)?;
            return Ok(
                Condition::Complex {
                    left: None,
                    operator: LogicalOperator::Not,
                    right: Box::new(right),
                },
            );
        }
    }
    parse_primary(tokens, pos)
}

/// Parses a `primary` starting at `pos`: a parenthesized expression, or the
/// three tokens of a simple condition.
pub fn parse_primary(tokens: &[&str], pos: &mut usize) -> (r: Result<Condition, SqlError>)
    ensures
        ({
            let (res, np) = spec_parse_primary(tokens.deep_view(), *old(pos) as int);
            &&& *final(pos) == np
            &&& res_view(r) == res
        }),
    decreases remaining(tokens.deep_view(), *old(pos) as int), 4int,
{
    let ghost toks = tokens.deep_view();
    if *pos < tokens.len() {
        proof {
            assert(toks[*pos as int] == tokens@[*pos as int]@);
        }
        if is_left_paren(tokens[*pos]) {
            *pos += 1;
            let ghost p = *pos as int;
            let inner = parse_condition(tokens, pos)?;
            proof {
                lemma_parse_or_pos(toks, p);
            }
            if *pos < tokens.len() {
                proof {
                    assert(toks[*pos as int] == tokens@[*pos as int]@);
                }
                if is_right_paren(tokens[*pos]) {
                    *pos += 1;
                    return Ok(inner);
                }
            }
            return Err(SqlError::InvalidSyntax);
        }
    }
    Condition::new_simple_from_tokens(tokens, pos)
}

} // verus!
