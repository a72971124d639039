use rustic_sql::clauses::condition::Condition;
use rustic_sql::clauses::orderby_sql::OrderBy;
use rustic_sql::clauses::recursive_parser::parse_condition;
use rustic_sql::clauses::select_sql::{convert_line_to_register, Select};
use rustic_sql::clauses::set_sql::SetClause;
use rustic_sql::clauses::update_sql::Update;
use rustic_sql::clauses::where_sql::Where;
use rustic_sql::clauses::delete_sql::Delete;
use rustic_sql::errors::SqlError;
use rustic_sql::logical_operator::LogicalOperator;
use rustic_sql::operator::Operator;
use rustic_sql::register::Register;
use rustic_sql::table::Table;
use rustic_sql::tokens::tokens_from_query;
use rustic_sql::utils::{
    is_and, is_by, is_delete, is_from, is_insert, is_into, is_left_paren, is_not, is_number,
    is_or, is_order, is_right_paren, is_select, is_set, is_update, is_values, is_where,
    table_to_csv,
};

fn register_from(pairs: &[(&str, &str)]) -> Register {
    let mut register = Register::new();
    for (key, value) in pairs {
        register.insert(String::from(*key), String::from(*value));
    }
    register
}

#[test]
fn tokenize_select_statement() {
    let string = "SELECT * FROM table WHERE column = 'value';";
    let tokens = tokens_from_query(string);
    assert_eq!(
        tokens,
        vec!["SELECT", "*", "FROM", "table", "WHERE", "column", "=", "value"]
    );
}

#[test]
fn tokenize_insert_statement() {
    let string = "INSERT INTO table (name, age) VALUES ('Alen', 25);";
    let tokens = tokens_from_query(string);
    assert_eq!(
        tokens,
        vec!["INSERT", "INTO", "table", "name, age", "VALUES", "'Alen', 25"]
    );
}

#[test]
fn tokenize_strips_every_semicolon() {
    assert_eq!(tokens_from_query("a;b"), vec!["ab"]);
}

#[test]
fn tokenize_splits_runs_by_class() {
    assert_eq!(tokens_from_query("abc123"), vec!["abc", "123"]);
    assert_eq!(tokens_from_query("edad>18"), vec!["edad", ">", "18"]);
    assert_eq!(tokens_from_query("a_b c"), vec!["a_b", "c"]);
}

#[test]
fn tokenize_unterminated_quote_runs_to_end() {
    assert_eq!(tokens_from_query("'abc"), vec!["abc"]);
}

#[test]
fn tokenize_discards_empty_tokens() {
    assert_eq!(tokens_from_query("'' x"), vec!["x"]);
    let empty: Vec<String> = Vec::new();
    assert_eq!(tokens_from_query(""), empty);
    assert_eq!(tokens_from_query("  ,  "), empty);
}

#[test]
fn tokenize_other_runs_stick_together() {
    assert_eq!(tokens_from_query("a>=b"), vec!["a", ">=", "b"]);
}

#[test]
fn tokenize_then_parse_then_evaluate() {
    let tokens = tokens_from_query("WHERE age > 18 AND name = 'Alen'");
    assert_eq!(tokens, vec!["WHERE", "age", ">", "18", "AND", "name", "=", "Alen"]);
    let refs: Vec<&str> = tokens.iter().map(|s| s.as_str()).collect();
    let where_clause = Where::new_from_tokens(refs).unwrap();

    let matching = register_from(&[("age", "24"), ("name", "Alen")]);
    assert_eq!(where_clause.execute(&matching), Ok(true));

    let other = register_from(&[("age", "24"), ("name", "Emily")]);
    assert_eq!(where_clause.execute(&other), Ok(false));
}

#[test]
fn is_number_accepts_i32_values() {
    assert_eq!(is_number("123"), true);
    assert_eq!(is_number("0"), true);
    assert_eq!(is_number("+12"), true);
    assert_eq!(is_number("-5"), true);
    assert_eq!(is_number("2147483647"), true);
    assert_eq!(is_number("-2147483648"), true);
    assert_eq!(is_number("0000000001"), true);
}

#[test]
fn is_number_rejects_everything_else() {
    assert_eq!(is_number("hola"), false);
    assert_eq!(is_number(""), false);
    assert_eq!(is_number("+"), false);
    assert_eq!(is_number("-"), false);
    assert_eq!(is_number("12a"), false);
    assert_eq!(is_number(" 1"), false);
    assert_eq!(is_number("2147483648"), false);
    assert_eq!(is_number("-2147483649"), false);
    assert_eq!(is_number("99999999999999999999"), false);
}

#[test]
fn keyword_predicates() {
    assert!(is_and("AND") && !is_and("and"));
    assert!(is_or("OR") && !is_or("O"));
    assert!(is_not("NOT"));
    assert!(is_left_paren("(") && !is_left_paren(")"));
    assert!(is_right_paren(")"));
    assert!(is_where("WHERE"));
    assert!(is_select("SELECT"));
    assert!(is_update("UPDATE"));
    assert!(is_insert("INSERT"));
    assert!(is_into("INTO"));
    assert!(is_from("FROM"));
    assert!(is_order("ORDER"));
    assert!(is_by("BY"));
    assert!(is_delete("DELETE"));
    assert!(is_set("SET"));
    assert!(is_values("VALUES"));
}

#[test]
fn parse_simple_condition() {
    let tokens = vec!["age", ">", "18"];
    let mut pos = 0;
    let condition = parse_condition(&tokens, &mut pos).unwrap();
    assert_eq!(pos, 3);
    assert_eq!(
        condition,
        Condition::Simple {
            field: String::from("age"),
            operator: Operator::Greater,
            value: String::from("18"),
        }
    );
}

#[test]
fn parse_condition_precedence() {
    // a = b OR c = d AND NOT e = f parses as a = b OR ((c = d) AND (NOT e = f))
    let tokens = vec![
        "a", "=", "b", "OR", "c", "=", "d", "AND", "NOT", "e", "=", "f",
    ];
    let mut pos = 0;
    let condition = parse_condition(&tokens, &mut pos).unwrap();
    assert_eq!(pos, 12);

    let simple = |f: &str, v: &str| Condition::Simple {
        field: String::from(f),
        operator: Operator::Equal,
        value: String::from(v),
    };
    let expected = Condition::Complex {
        left: Some(Box::new(simple("a", "b"))),
        operator: LogicalOperator::Or,
        right: Box::new(Condition::Complex {
            left: Some(Box::new(simple("c", "d"))),
            operator: LogicalOperator::And,
            right: Box::new(Condition::Complex {
                left: None,
                operator: LogicalOperator::Not,
                right: Box::new(simple("e", "f")),
            }),
        }),
    };
    assert_eq!(condition, expected);
}

#[test]
fn parse_condition_left_associative() {
    let tokens = vec!["a", "=", "b", "AND", "c", "=", "d", "AND", "e", "=", "f"];
    let mut pos = 0;
    let condition = parse_condition(&tokens, &mut pos).unwrap();

    let simple = |f: &str, v: &str| Condition::Simple {
        field: String::from(f),
        operator: Operator::Equal,
        value: String::from(v),
    };
    let expected = Condition::Complex {
        left: Some(Box::new(Condition::Complex {
            left: Some(Box::new(simple("a", "b"))),
            operator: LogicalOperator::And,
            right: Box::new(simple("c", "d")),
        })),
        operator: LogicalOperator::And,
        right: Box::new(simple("e", "f")),
    };
    assert_eq!(condition, expected);
}

#[test]
fn parse_condition_grouping_overrides_precedence() {
    // NOT (city = Gaiman AND (age > 18 OR lastname = Davies))
    let tokens = vec![
        "NOT", "(", "city", "=", "Gaiman", "AND", "(", "age", ">", "18", "OR", "lastname", "=",
        "Davies", ")", ")",
    ];
    let mut pos = 0;
    let condition = parse_condition(&tokens, &mut pos).unwrap();
    assert_eq!(pos, 16);

    let register = register_from(&[
        ("name", "Alen"),
        ("lastname", "Davies"),
        ("age", "24"),
        ("city", "Gaiman"),
    ]);
    assert_eq!(condition.execute(&register), Ok(false));
}

#[test]
fn parse_condition_grouped_or_then_and() {
    // (age > 40 OR name = Alen) AND city = Trelew
    let tokens = vec![
        "(", "age", ">", "40", "OR", "name", "=", "Alen", ")", "AND", "city", "=", "Trelew",
    ];
    let mut pos = 0;
    let condition = parse_condition(&tokens, &mut pos).unwrap();

    let register = register_from(&[("age", "24"), ("name", "Alen"), ("city", "Gaiman")]);
    assert_eq!(condition.execute(&register), Ok(false));
}

#[test]
fn parse_condition_unmatched_group() {
    let tokens = vec!["(", "age", ">", "18"];
    let mut pos = 0;
    assert_eq!(
        parse_condition(&tokens, &mut pos),
        Err(SqlError::InvalidSyntax)
    );
}

#[test]
fn parse_then_execute_never_syntax_error_on_matching_types() {
    let tokens = vec!["age", ">", "18"];
    let mut pos = 0;
    let condition = parse_condition(&tokens, &mut pos).unwrap();
    let register = register_from(&[("age", "24"), ("name", "Alen"), ("lastname", "Davies")]);
    let result = condition.execute(&register);
    assert!(result.is_ok());
    assert_eq!(result, Ok(true));

    let tokens = vec!["age", ">", "40"];
    let mut pos = 0;
    let condition = parse_condition(&tokens, &mut pos).unwrap();
    assert_eq!(condition.execute(&register), Ok(false));
}

#[test]
fn register_get_and_insert() {
    let mut register = Register::new();
    register.insert(String::from("id"), String::from("1"));
    register.insert(String::from("name"), String::from("Alen"));
    assert_eq!(register.get("id"), Some(&String::from("1")));
    assert_eq!(register.get("name"), Some(&String::from("Alen")));
    assert_eq!(register.get("age"), None);

    register.insert(String::from("name"), String::from("Emily"));
    assert_eq!(register.get("name"), Some(&String::from("Emily")));
    assert!(!register.is_empty());
    assert!(Register::new().is_empty());
}

#[test]
fn register_to_csv_orders_by_columns() {
    let register = register_from(&[("id", "1"), ("name", "Alen"), ("age", "25")]);
    let columns = vec![
        String::from("id"),
        String::from("name"),
        String::from("age"),
    ];
    assert_eq!(register.to_csv(&columns), Ok(String::from("1,Alen,25")));
}

#[test]
fn register_to_csv_missing_column_is_error() {
    let register = Register::new();
    let columns = vec![
        String::from("id"),
        String::from("name"),
        String::from("age"),
    ];
    assert_eq!(register.to_csv(&columns), Err(SqlError::Error));
}

#[test]
fn table_to_csv_lines() {
    let columns = vec![
        String::from("id"),
        String::from("name"),
        String::from("age"),
    ];
    let table = Table {
        columns: columns.clone(),
        registers: vec![
            register_from(&[("id", "1"), ("name", "Alen"), ("age", "30")]),
            register_from(&[("id", "2"), ("name", "Emily"), ("age", "25")]),
        ],
    };
    let result = table_to_csv(&table, &columns).unwrap();
    assert_eq!(result, vec!["id,name,age", "1,Alen,30", "2,Emily,25"]);
}

#[test]
fn orderby_execute_sorts_ascending() {
    let orderby = OrderBy {
        columns: vec![String::from("edad")],
        order: String::new(),
    };
    let mut registers = vec![
        register_from(&[("nombre", "Juan"), ("edad", "30")]),
        register_from(&[("nombre", "Ana"), ("edad", "18")]),
        register_from(&[("nombre", "Carlos"), ("edad", "40")]),
    ];
    orderby.execute(&mut registers);
    assert_eq!(registers[0].get("edad"), Some(&String::from("18")));
    assert_eq!(registers[1].get("edad"), Some(&String::from("30")));
    assert_eq!(registers[2].get("edad"), Some(&String::from("40")));
}

#[test]
fn orderby_execute_sorts_descending() {
    let orderby = OrderBy {
        columns: vec![String::from("edad")],
        order: String::from("DESC"),
    };
    let mut registers = vec![
        register_from(&[("nombre", "Juan"), ("edad", "30")]),
        register_from(&[("nombre", "Ana"), ("edad", "18")]),
        register_from(&[("nombre", "Carlos"), ("edad", "40")]),
    ];
    orderby.execute(&mut registers);
    assert_eq!(registers[0].get("edad"), Some(&String::from("40")));
    assert_eq!(registers[1].get("edad"), Some(&String::from("30")));
    assert_eq!(registers[2].get("edad"), Some(&String::from("18")));
}

#[test]
fn orderby_execute_breaks_ties_with_later_columns() {
    let orderby = OrderBy {
        columns: vec![String::from("apellido"), String::from("nombre")],
        order: String::new(),
    };
    let mut registers = vec![
        register_from(&[("nombre", "Zoe"), ("apellido", "Davies")]),
        register_from(&[("nombre", "Alen"), ("apellido", "Davies")]),
    ];
    orderby.execute(&mut registers);
    assert_eq!(registers[0].get("nombre"), Some(&String::from("Alen")));
    assert_eq!(registers[1].get("nombre"), Some(&String::from("Zoe")));
}

#[test]
fn convert_line_to_register_maps_columns() {
    let columns = vec![String::from("nombre"), String::from("edad")];
    let register = convert_line_to_register(String::from("Ana,18"), &columns);
    assert_eq!(register.get("nombre"), Some(&String::from("Ana")));
    assert_eq!(register.get("edad"), Some(&String::from("18")));
}

#[test]
fn select_execute_keeps_matching_line() {
    let select = Select {
        table_name: String::from("testing"),
        columns: vec![String::from("*")],
        where_clause: Some(Where {
            condition: Condition::Simple {
                field: String::from("edad"),
                operator: Operator::Greater,
                value: String::from("18"),
            },
        }),
        orderby_clause: None,
    };
    let columns = vec![String::from("nombre"), String::from("edad")];

    let kept = select
        .execute(String::from("Juan,30"), &columns)
        .unwrap();
    assert_eq!(kept.get("nombre"), Some(&String::from("Juan")));

    let dropped = select
        .execute(String::from("Ana,18"), &columns)
        .unwrap();
    assert!(dropped.is_empty());
}

#[test]
fn select_execute_unknown_column_is_invalid_column() {
    let select = Select {
        table_name: String::from("testing"),
        columns: vec![String::from("email")],
        where_clause: None,
        orderby_clause: None,
    };
    let columns = vec![String::from("nombre"), String::from("edad")];
    assert_eq!(
        select.execute(String::from("Juan,30"), &columns),
        Err(SqlError::InvalidColumn)
    );
}

#[test]
fn select_filter_columns_restricts_registers() {
    let select = Select {
        table_name: String::from("testing"),
        columns: vec![String::from("nombre")],
        where_clause: None,
        orderby_clause: None,
    };
    let columns = vec![String::from("nombre"), String::from("edad")];
    let registers = vec![register_from(&[("nombre", "Juan"), ("edad", "30")])];
    let filtered = select.filter_columns(&columns, registers);
    assert_eq!(filtered.len(), 1);
    assert_eq!(filtered[0].get("nombre"), Some(&String::from("Juan")));
    assert_eq!(filtered[0].get("edad"), None);
}

#[test]
fn delete_execute_keeps_only_surviving_lines() {
    let delete = Delete {
        table_name: String::from("testing"),
        where_clause: Some(Where {
            condition: Condition::Simple {
                field: String::from("edad"),
                operator: Operator::Greater,
                value: String::from("18"),
            },
        }),
    };
    let columns = vec![String::from("nombre"), String::from("edad")];

    let survives = delete.execute(String::from("Ana,18"), &columns).unwrap();
    assert_eq!(survives.get("nombre"), Some(&String::from("Ana")));

    let deleted = delete.execute(String::from("Juan,30"), &columns).unwrap();
    assert!(deleted.is_empty());
}

#[test]
fn delete_execute_without_where_deletes_all() {
    let delete = Delete {
        table_name: String::from("testing"),
        where_clause: None,
    };
    let columns = vec![String::from("nombre"), String::from("edad")];
    let result = delete.execute(String::from("Ana,18"), &columns).unwrap();
    assert!(result.is_empty());
}

#[test]
fn update_execute_applies_set_to_matching_lines() {
    let update = Update {
        table_name: String::from("testing"),
        set_clause: SetClause(vec![(String::from("nombre"), String::from("Alen"))]),
        where_clause: Some(Where {
            condition: Condition::Simple {
                field: String::from("edad"),
                operator: Operator::Greater,
                value: String::from("20"),
            },
        }),
    };
    let columns = vec![String::from("nombre"), String::from("edad")];

    let updated = update.execute(String::from("Juan,30"), &columns).unwrap();
    assert_eq!(updated.get("nombre"), Some(&String::from("Alen")));
    assert_eq!(updated.get("edad"), Some(&String::from("30")));

    let unchanged = update.execute(String::from("Ana,18"), &columns).unwrap();
    assert_eq!(unchanged.get("nombre"), Some(&String::from("Ana")));
}

#[test]
fn sql_error_descriptions() {
    assert_eq!(
        SqlError::InvalidSyntax.describe(),
        "[InvalidSyntax]: [Error to process query]"
    );
    assert_eq!(
        SqlError::InvalidTable.describe(),
        "[InvalidTable]: [Error to process table]"
    );
    assert_eq!(
        SqlError::InvalidColumn.describe(),
        "[InvalidColumn]: [Error to process column]"
    );
    assert_eq!(SqlError::Error.describe(), "[Error]: [An error occurred]");
}
