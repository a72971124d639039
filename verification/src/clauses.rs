//! The clause builders and the condition sub-language.

pub mod condition;
pub mod delete_sql;
pub mod insert_sql;
pub mod into_sql;
pub mod orderby_sql;
pub mod recursive_parser;
pub mod select_sql;
pub mod set_sql;
pub mod update_sql;
pub mod where_sql;
