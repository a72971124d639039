use rustic_sql::clauses::condition::Condition;
use rustic_sql::clauses::delete_sql::Delete;
use rustic_sql::clauses::insert_sql::Insert;
use rustic_sql::clauses::into_sql::Into;
use rustic_sql::clauses::orderby_sql::OrderBy;
use rustic_sql::clauses::select_sql::Select;
use rustic_sql::clauses::set_sql::SetClause;
use rustic_sql::clauses::update_sql::Update;
use rustic_sql::clauses::where_sql::Where;
use rustic_sql::errors::SqlError;
use rustic_sql::operator::Operator;

#[test]
fn delete_sql_new_1_token() {
    let tokens = vec![String::from("DELETE")];
    let delete = Delete::new_from_tokens(tokens);
    assert_eq!(delete, Err(SqlError::InvalidSyntax));
}

#[test]
fn new_2_token() {
    let tokens = vec![String::from("DELETE"), String::from("FROM")];
    let delete = Delete::new_from_tokens(tokens);
    assert_eq!(delete, Err(SqlError::InvalidSyntax));
}

#[test]
fn delete_sql_new_without_where() {
    let tokens = vec![
        String::from("DELETE"),
        String::from("FROM"),
        String::from("table"),
    ];
    let delete = Delete::new_from_tokens(tokens).unwrap();
    assert_eq!(
        delete,
        Delete {
            table_name: String::from("table"),
            where_clause: None
        }
    );
}

#[test]
fn delete_sql_new_4_tokens() {
    let tokens = vec![
        String::from("DELETE"),
        String::from("FROM"),
        String::from("table"),
        String::from("WHERE"),
    ];
    let delete = Delete::new_from_tokens(tokens);
    assert_eq!(delete, Err(SqlError::InvalidSyntax));
}

#[test]
fn delete_sql_new_with_where() {
    let tokens = vec![
        String::from("DELETE"),
        String::from("FROM"),
        String::from("table"),
        String::from("WHERE"),
        String::from("cantidad"),
        String::from(">"),
        String::from("1"),
    ];
    let delete = Delete::new_from_tokens(tokens).unwrap();
    assert_eq!(
        delete,
        Delete {
            table_name: String::from("table"),
            where_clause: Some(Where {
                condition: Condition::Simple {
                    field: String::from("cantidad"),
                    operator: Operator::Greater,
                    value: String::from("1")
                }
            }),
        }
    );
}

#[test]
fn insert_sql_new_1_token() {
    let tokens = vec![String::from("INSERT")];
    let result = Insert::new_from_tokens(tokens);
    assert_eq!(result, Err(SqlError::InvalidSyntax));
}

#[test]
fn insert_sql_new_3_tokens() {
    let tokens = vec![
        String::from("INSERT"),
        String::from("INTO"),
        String::from("table"),
    ];

    let result = Insert::new_from_tokens(tokens);
    assert_eq!(result, Err(SqlError::InvalidSyntax));
}

#[test]
fn new_6_tokens() {
    let tokens = vec![
        String::from("INSERT"),
        String::from("INTO"),
        String::from("table"),
        String::from("name"),
        String::from("VALUES"),
        String::from("Alen"),
    ];
    let result = Insert::new_from_tokens(tokens).unwrap();
    assert_eq!(
        result,
        Insert {
            values: vec![String::from("Alen")],
            into_clause: Into {
                table_name: String::from("table"),
                columns: vec![String::from("name")]
            }
        }
    );
}

#[test]
fn new_more_values() {
    let tokens = vec![
        String::from("INSERT"),
        String::from("INTO"),
        String::from("table"),
        String::from("name, age"),
        String::from("VALUES"),
        String::from("Alen, 25"),
    ];
    let result = Insert::new_from_tokens(tokens).unwrap();
    assert_eq!(
        result,
        Insert {
            values: vec![String::from("Alen"), String::from("25")],
            into_clause: Into {
                table_name: String::from("table"),
                columns: vec![String::from("name"), String::from("age")]
            }
        }
    );
}

#[test]
fn new_1_tokens() {
    let tokens = vec![String::from("SELECT")];
    let select = Select::new_from_tokens(tokens);
    assert_eq!(select, Err(SqlError::InvalidSyntax));
}

#[test]
fn new_2_tokens() {
    let tokens = vec![String::from("SELECT"), String::from("col")];
    let select = Select::new_from_tokens(tokens);
    assert_eq!(select, Err(SqlError::InvalidSyntax));
}

#[test]
fn select_sql_new_3_tokens() {
    let tokens = vec![
        String::from("SELECT"),
        String::from("col"),
        String::from("FROM"),
    ];
    let select = Select::new_from_tokens(tokens);
    assert_eq!(select, Err(SqlError::InvalidSyntax));
}

#[test]
fn select_sql_new_4_tokens() {
    let tokens = vec![
        String::from("SELECT"),
        String::from("col"),
        String::from("FROM"),
        String::from("table"),
    ];
    let select = Select::new_from_tokens(tokens).unwrap();
    assert_eq!(select.columns, ["col"]);
    assert_eq!(select.table_name, "table");
    assert_eq!(select.where_clause, None);
    assert_eq!(select.orderby_clause, None);
}

#[test]
fn select_sql_new_with_where() {
    let tokens = vec![
        String::from("SELECT"),
        String::from("col"),
        String::from("FROM"),
        String::from("table"),
        String::from("WHERE"),
        String::from("cantidad"),
        String::from(">"),
        String::from("1"),
    ];
    let select = Select::new_from_tokens(tokens).unwrap();
    assert_eq!(select.columns, ["col"]);
    assert_eq!(select.table_name, "table");
    let where_clause = select.where_clause.unwrap();
    assert_eq!(
        where_clause.condition,
        Condition::Simple {
            field: String::from("cantidad"),
            operator: Operator::Greater,
            value: String::from("1"),
        }
    );
    assert_eq!(select.orderby_clause, None);
}

#[test]
fn new_with_orderby() {
    let tokens = vec![
        String::from("SELECT"),
        String::from("col"),
        String::from("FROM"),
        String::from("table"),
        String::from("ORDER"),
        String::from("BY"),
        String::from("cantidad"),
        String::from("DESC"),
    ];
    let select = Select::new_from_tokens(tokens).unwrap();
    assert_eq!(select.columns, ["col"]);
    assert_eq!(select.table_name, "table");
    let orderby_clause = select.orderby_clause.unwrap();
    assert_eq!(
        orderby_clause,
        OrderBy {
            columns: vec![String::from("cantidad")],
            order: String::from("DESC")
        }
    );
    assert_eq!(select.where_clause, None);
}

#[test]
fn new_with_where_orderby() {
    let tokens = vec![
        String::from("SELECT"),
        String::from("col"),
        String::from("FROM"),
        String::from("table"),
        String::from("WHERE"),
        String::from("cantidad"),
        String::from(">"),
        String::from("1"),
        String::from("ORDER"),
        String::from("BY"),
        String::from("email"),
    ];
    let select = Select::new_from_tokens(tokens).unwrap();
    assert_eq!(select.columns, ["col"]);
    assert_eq!(select.table_name, "table");
    let where_clause = select.where_clause.unwrap();
    assert_eq!(
        where_clause.condition,
        Condition::Simple {
            field: String::from("cantidad"),
            operator: Operator::Greater,
            value: String::from("1"),
        }
    );
    let orderby_clause = select.orderby_clause.unwrap();
    let mut columns = Vec::new();
    columns.push(String::from("email"));
    assert_eq!(
        orderby_clause,
        OrderBy {
            columns,
            order: String::new()
        }
    );
}

#[test]
fn update_sql_new_1_token() {
    let tokens = vec![String::from("UPDATE")];
    let update = Update::new_from_tokens(tokens);
    assert_eq!(update, Err(SqlError::InvalidSyntax));
}

#[test]
fn update_sql_new_3_tokens() {
    let tokens = vec![
        String::from("UPDATE"),
        String::from("table"),
        String::from("SET"),
    ];
    let update = Update::new_from_tokens(tokens);
    assert_eq!(update, Err(SqlError::InvalidSyntax));
}

#[test]
fn update_sql_new_without_where() {
    let tokens = vec![
        String::from("UPDATE"),
        String::from("table"),
        String::from("SET"),
        String::from("nombre"),
        String::from("="),
        String::from("Alen"),
    ];
    let update = Update::new_from_tokens(tokens).unwrap();
    assert_eq!(
        update,
        Update {
            table_name: String::from("table"),
            set_clause: SetClause(vec![(String::from("nombre"), String::from("Alen"))]),
            where_clause: None
        }
    );
}

#[test]
fn update_sql_new_with_where() {
    let tokens = vec![
        String::from("UPDATE"),
        String::from("table"),
        String::from("SET"),
        String::from("nombre"),
        String::from("="),
        String::from("Alen"),
        String::from("WHERE"),
        String::from("edad"),
        String::from("<"),
        String::from("30"),
    ];
    let update = Update::new_from_tokens(tokens).unwrap();
    assert_eq!(
        update,
        Update {
            table_name: String::from("table"),
            set_clause: SetClause(vec![(String::from("nombre"), String::from("Alen"))]),
            where_clause: Some(Where {
                condition: Condition::Simple {
                    field: String::from("edad"),
                    operator: Operator::Lesser,
                    value: String::from("30"),
                },
            }),
        }
    );
}

#[test]
fn into_new_from_tokens_splits_and_trims() {
    let tokens = vec!["INTO", "table", "name, age"];
    let into = Into::new_from_tokens(tokens).unwrap();
    assert_eq!(into.table_name, "table");
    assert_eq!(into.columns, vec![String::from("name"), String::from("age")]);
}

#[test]
fn into_new_from_tokens_wrong_keyword() {
    let tokens = vec!["ONTO", "table", "name"];
    assert_eq!(Into::new_from_tokens(tokens), Err(SqlError::InvalidSyntax));
}

#[test]
fn set_new_from_tokens_pairs() {
    let tokens = vec!["SET", "age", "=", "18", "name", "=", "Alen"];
    let set = SetClause::new_from_tokens(tokens).unwrap();
    assert_eq!(
        set,
        SetClause(vec![
            (String::from("age"), String::from("18")),
            (String::from("name"), String::from("Alen")),
        ])
    );
}

#[test]
fn set_new_from_tokens_without_equals() {
    let tokens = vec!["SET", "age", "18"];
    assert_eq!(
        SetClause::new_from_tokens(tokens),
        Err(SqlError::InvalidSyntax)
    );
}

#[test]
fn orderby_new_from_tokens_desc() {
    let tokens = vec!["ORDER", "BY", "name", "DESC"];
    let order_by = OrderBy::new_from_tokens(tokens).unwrap();
    assert_eq!(
        order_by,
        OrderBy {
            columns: vec![String::from("name")],
            order: String::from("DESC")
        }
    );
}

#[test]
fn orderby_new_from_tokens_too_few() {
    let tokens = vec!["ORDER", "BY"];
    assert_eq!(
        OrderBy::new_from_tokens(tokens),
        Err(SqlError::InvalidSyntax)
    );
}

#[test]
fn where_new_from_tokens_simple() {
    let tokens = vec!["WHERE", "age", ">", "18"];
    let where_from_tokens = Where::new_from_tokens(tokens).unwrap();
    let where_clause = Where {
        condition: Condition::Simple {
            field: String::from("age"),
            operator: Operator::Greater,
            value: String::from("18"),
        },
    };

    assert_eq!(where_from_tokens, where_clause);
}

#[test]
fn where_new_from_tokens_too_few() {
    let tokens = vec!["WHERE", "age", ">"];
    assert_eq!(Where::new_from_tokens(tokens), Err(SqlError::InvalidSyntax));
}

#[test]
fn insert_reorder_values_fills_missing_columns() {
    let mut insert = Insert {
        values: vec![
            String::from("Davies"),
            String::from("25"),
            String::from("Alen"),
        ],
        into_clause: Into {
            table_name: String::from("table"),
            columns: vec![
                String::from("apellido"),
                String::from("edad"),
                String::from("nombre"),
            ],
        },
    };

    let table_columns = vec![
        String::from("nombre"),
        String::from("apellido"),
        String::from("edad"),
        String::from("ciudad"),
    ];
    insert.reorder_values(table_columns.clone());

    assert_eq!(insert.into_clause.columns, table_columns);
    assert_eq!(
        insert.values,
        vec![
            String::from("Alen"),
            String::from("Davies"),
            String::from("25"),
            String::from(""),
        ]
    );
}
