use rustic_sql::clauses::condition::Condition;
use rustic_sql::errors::SqlError;
use rustic_sql::logical_operator::LogicalOperator;
use rustic_sql::operator::Operator;
use rustic_sql::register::Register;

fn register_from(pairs: &[(&str, &str)]) -> Register {
    let mut register = Register::new();
    for (key, value) in pairs {
        register.insert(String::from(*key), String::from(*value));
    }
    register
}

#[test]
fn create_simple() {
    let condition = Condition::new_simple("age", ">", "18").unwrap();
    assert_eq!(
        condition,
        Condition::Simple {
            field: String::from("age"),
            operator: Operator::Greater,
            value: String::from("18")
        }
    )
}

#[test]
fn create_simple_from_tokens() {
    let tokens = vec!["age", ">", "18"];
    let mut pos = 0;
    let condition = Condition::new_simple_from_tokens(&tokens, &mut pos).unwrap();

    assert_eq!(
        condition,
        Condition::Simple {
            field: String::from("age"),
            operator: Operator::Greater,
            value: String::from("18")
        }
    )
}

#[test]
fn create_complex_with_left() {
    let left = Condition::Simple {
        field: String::from("age"),
        operator: Operator::Greater,
        value: String::from("18"),
    };

    let right = Condition::Simple {
        field: String::from("city"),
        operator: Operator::Equal,
        value: String::from("Gaiman"),
    };

    let complex = Condition::new_complex(Some(left), LogicalOperator::And, right);

    assert_eq!(
        complex,
        Condition::Complex {
            left: Some(Box::new(Condition::Simple {
                field: String::from("age"),
                operator: Operator::Greater,
                value: String::from("18"),
            })),
            operator: LogicalOperator::And,
            right: Box::new(Condition::Simple {
                field: String::from("city"),
                operator: Operator::Equal,
                value: String::from("Gaiman"),
            })
        }
    )
}

#[test]
fn create_complex_without_left() {
    let right = Condition::Simple {
        field: String::from("name"),
        operator: Operator::Equal,
        value: String::from("Alen"),
    };

    let complex = Condition::new_complex(None, LogicalOperator::Not, right);

    assert_eq!(
        complex,
        Condition::Complex {
            left: None,
            operator: LogicalOperator::Not,
            right: Box::new(Condition::Simple {
                field: String::from("name"),
                operator: Operator::Equal,
                value: String::from("Alen"),
            })
        }
    )
}

#[test]
fn execute_simple() {
    let register = register_from(&[("name", "Alen"), ("lastname", "Davies"), ("age", "24")]);

    let condition_true = Condition::Simple {
        field: String::from("age"),
        operator: Operator::Greater,
        value: String::from("18"),
    };

    let condition_false = Condition::Simple {
        field: String::from("age"),
        operator: Operator::Greater,
        value: String::from("40"),
    };

    let result_true = condition_true.execute(&register).unwrap();
    let result_false = condition_false.execute(&register).unwrap();

    assert_eq!(result_true, true);

    assert_eq!(result_false, false);
}

#[test]
fn execute_and() {
    let register = register_from(&[("name", "Alen"), ("lastname", "Davies"), ("age", "24")]);

    let left = Condition::Simple {
        field: String::from("age"),
        operator: Operator::Greater,
        value: String::from("18"),
    };
    let right = Condition::Simple {
        field: String::from("name"),
        operator: Operator::Equal,
        value: String::from("Alen"),
    };

    let condition = Condition::Complex {
        left: Some(Box::new(left)),
        operator: LogicalOperator::And,
        right: Box::new(right),
    };

    let result = condition.execute(&register).unwrap();

    assert_eq!(result, true)
}

#[test]
fn execute_or() {
    let register = register_from(&[("name", "Alen"), ("lastname", "Davies"), ("age", "24")]);

    let left = Condition::Simple {
        field: String::from("age"),
        operator: Operator::Greater,
        value: String::from("40"),
    };
    let right = Condition::Simple {
        field: String::from("name"),
        operator: Operator::Equal,
        value: String::from("Emily"),
    };

    let condition = Condition::Complex {
        left: Some(Box::new(left)),
        operator: LogicalOperator::Or,
        right: Box::new(right),
    };

    let result = condition.execute(&register).unwrap();

    assert_eq!(result, false)
}

#[test]
fn execute_not() {
    let register = register_from(&[("name", "Alen"), ("lastname", "Davies"), ("age", "24")]);

    let right = Condition::Simple {
        field: String::from("name"),
        operator: Operator::Equal,
        value: String::from("Emily"),
    };

    let condition = Condition::Complex {
        left: None,
        operator: LogicalOperator::Not,
        right: Box::new(right),
    };

    let result = condition.execute(&register).unwrap();

    assert_eq!(result, true)
}

#[test]
fn execute_and_or() {
    let register = register_from(&[
        ("name", "Alen"),
        ("lastname", "Davies"),
        ("age", "24"),
        ("city", "Gaiman"),
    ]);

    let left = Condition::Simple {
        field: String::from("age"),
        operator: Operator::Greater,
        value: String::from("40"),
    };
    let right1 = Condition::Simple {
        field: String::from("name"),
        operator: Operator::Equal,
        value: String::from("Alen"),
    };

    let or = Condition::Complex {
        left: Some(Box::new(left)),
        operator: LogicalOperator::Or,
        right: Box::new(right1),
    };

    let right2 = Condition::Simple {
        field: String::from("city"),
        operator: Operator::Equal,
        value: String::from("Trelew"),
    };

    let and = Condition::Complex {
        left: Some(Box::new(or)),
        operator: LogicalOperator::And,
        right: Box::new(right2),
    };

    let result = and.execute(&register).unwrap();

    assert_eq!(result, false)
}

#[test]
fn execute_not_and() {
    let register = register_from(&[
        ("name", "Alen"),
        ("lastname", "Davies"),
        ("age", "24"),
        ("city", "Gaiman"),
    ]);

    let right1 = Condition::Simple {
        field: String::from("age"),
        operator: Operator::Greater,
        value: String::from("40"),
    };

    let not = Condition::Complex {
        left: None,
        operator: LogicalOperator::Not,
        right: Box::new(right1),
    };

    let right2 = Condition::Simple {
        field: String::from("city"),
        operator: Operator::Equal,
        value: String::from("Gaiman"),
    };

    let and = Condition::Complex {
        left: Some(Box::new(not)),
        operator: LogicalOperator::And,
        right: Box::new(right2),
    };

    let result = and.execute(&register).unwrap();

    assert_eq!(result, true)
}

#[test]
fn execute_not_and_or_with_paren() {
    let register = register_from(&[
        ("name", "Alen"),
        ("lastname", "Davies"),
        ("age", "24"),
        ("city", "Gaiman"),
    ]);

    // NOT (city = Gaiman AND (age > 18 OR lastname = Davies))

    let condition = Condition::Complex {
        left: None,
        operator: LogicalOperator::Not,
        right: Box::new(Condition::Complex {
            left: Some(Box::new(Condition::Simple {
                field: String::from("city"),
                operator: Operator::Equal,
                value: String::from("Gaiman"),
            })),
            operator: LogicalOperator::And,
            right: Box::new(Condition::Complex {
                left: Some(Box::new(Condition::Simple {
                    field: String::from("age"),
                    operator: Operator::Greater,
                    value: String::from("18"),
                })),
                operator: LogicalOperator::Or,
                right: Box::new(Condition::Simple {
                    field: String::from("lastname"),
                    operator: Operator::Equal,
                    value: String::from("Davies"),
                }),
            }),
        }),
    };

    let result = condition.execute(&register).unwrap();

    assert_eq!(result, false)
}

#[test]
fn execute_and_or_with_paren2() {
    let register = register_from(&[
        ("name", "Alen"),
        ("lastname", "Davies"),
        ("age", "24"),
        ("city", "Gaiman"),
    ]);

    // city = Gaiman AND (age > 30 OR lastname = Davies)

    let condition = Condition::Complex {
        left: Some(Box::new(Condition::Simple {
            field: String::from("city"),
            operator: Operator::Equal,
            value: String::from("Gaiman"),
        })),
        operator: LogicalOperator::And,
        right: Box::new(Condition::Complex {
            left: Some(Box::new(Condition::Simple {
                field: String::from("age"),
                operator: Operator::Greater,
                value: String::from("30"),
            })),
            operator: LogicalOperator::Or,
            right: Box::new(Condition::Simple {
                field: String::from("lastname"),
                operator: Operator::Equal,
                value: String::from("Davies"),
            }),
        }),
    };

    let result = condition.execute(&register).unwrap();

    assert_eq!(result, true);
}

#[test]
fn execute_missing_field_is_error() {
    let register = register_from(&[("name", "Alen")]);

    let condition = Condition::Simple {
        field: String::from("age"),
        operator: Operator::Greater,
        value: String::from("18"),
    };

    assert_eq!(condition.execute(&register), Err(SqlError::Error));
}

#[test]
fn execute_mixed_types_is_invalid_syntax() {
    let register = register_from(&[("field", "abc")]);

    let condition = Condition::Simple {
        field: String::from("field"),
        operator: Operator::Greater,
        value: String::from("18"),
    };

    assert_eq!(condition.execute(&register), Err(SqlError::InvalidSyntax));
}

#[test]
fn execute_missing_left_operand_is_error() {
    let register = register_from(&[("age", "24")]);

    let condition = Condition::Complex {
        left: None,
        operator: LogicalOperator::And,
        right: Box::new(Condition::Simple {
            field: String::from("age"),
            operator: Operator::Greater,
            value: String::from("18"),
        }),
    };

    assert_eq!(condition.execute(&register), Err(SqlError::Error));
}

#[test]
fn execute_compares_numbers_as_strings() {
    // the comparison is lexicographic even when both sides look numeric
    let register = register_from(&[("age", "9")]);

    let condition = Condition::Simple {
        field: String::from("age"),
        operator: Operator::Greater,
        value: String::from("10"),
    };

    assert_eq!(condition.execute(&register), Ok(true));
}

#[test]
fn new_simple_unknown_operator() {
    assert_eq!(
        Condition::new_simple("age", "!", "18"),
        Err(SqlError::InvalidSyntax)
    );
}

#[test]
fn new_simple_from_tokens_too_few() {
    let tokens = vec!["age", ">"];
    let mut pos = 0;
    let condition = Condition::new_simple_from_tokens(&tokens, &mut pos);
    assert_eq!(condition, Err(SqlError::InvalidSyntax));
    assert_eq!(pos, 2);
}
