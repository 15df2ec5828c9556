use filestore::filter::{Condition, Conditions, FilterOperators, WhereBuilder};

fn cond(field: &str, op: FilterOperators, value: &str) -> Condition {
    Condition { field: field.to_string(), operator: op, value: value.to_string() }
}

#[test]
fn no_filter_compiles_to_true() {
    let mut b = WhereBuilder::new("files".to_string(), None);
    let (sql, params) = b.build_where_clause(None);
    assert_eq!(sql, "TRUE");
    assert!(params.is_empty());
}

#[test]
fn empty_branches_compile_to_false() {
    let mut b = WhereBuilder::new("files".to_string(), None);
    let filters = Conditions { and: Some(vec![]), or: Some(vec![]) };
    let (sql, params) = b.build_where_clause(Some(filters));
    assert_eq!(sql, "FALSE");
    assert!(params.is_empty());
}

#[test]
fn absent_branches_compile_to_false() {
    let mut b = WhereBuilder::new("files".to_string(), None);
    let filters = Conditions { and: None, or: None };
    let (sql, params) = b.build_where_clause(Some(filters));
    assert_eq!(sql, "FALSE");
    assert!(params.is_empty());
}

#[test]
fn and_with_or_numbering_continues_from_start_index() {
    let mut b = WhereBuilder::new("files".to_string(), Some(2));
    let filters = Conditions {
        and: Some(vec![cond("createdAt", FilterOperators::Gte, "2024-01-01")]),
        or: Some(vec![cond("title", FilterOperators::ILike, "%report%")]),
    };
    let (sql, params) = b.build_where_clause(Some(filters));
    assert_eq!(sql, "(files.created_at >= $3) AND (files.title ILIKE $4)");
    assert_eq!(params, vec!["2024-01-01".to_string(), "%report%".to_string()]);
}

#[test]
fn values_never_appear_in_the_sql_text() {
    let mut b = WhereBuilder::new("files".to_string(), None);
    let filters = Conditions {
        and: Some(vec![cond("title", FilterOperators::Eq, "secret-literal")]),
        or: None,
    };
    let (sql, params) = b.build_where_clause(Some(filters));
    assert_eq!(sql, "(files.title = $1)");
    assert!(!sql.contains("secret-literal"));
    assert_eq!(params, vec!["secret-literal".to_string()]);
}

#[test]
fn is_null_consumes_no_placeholder() {
    let mut b = WhereBuilder::new("files".to_string(), None);
    let filters = Conditions {
        and: Some(vec![
            cond("deletedAt", FilterOperators::Is, "null"),
            cond("size", FilterOperators::Gt, "10"),
        ]),
        or: None,
    };
    let (sql, params) = b.build_where_clause(Some(filters));
    assert_eq!(
        sql,
        "((files.deleted_at IS NOT DISTINCT FROM NULL) AND (files.size > $1))"
    );
    assert_eq!(params, vec!["10".to_string()]);
}

#[test]
fn is_not_with_value_binds_normally() {
    let mut b = WhereBuilder::new("files".to_string(), None);
    let filters = Conditions {
        and: Some(vec![cond("kind", FilterOperators::IsNot, "x")]),
        or: None,
    };
    let (sql, params) = b.build_where_clause(Some(filters));
    assert_eq!(sql, "(files.kind IS DISTINCT FROM $1)");
    assert_eq!(params, vec!["x".to_string()]);
}

#[test]
fn in_and_not_in_use_any_and_all() {
    let mut b = WhereBuilder::new("files".to_string(), None);
    let filters = Conditions {
        and: Some(vec![
            cond("id", FilterOperators::In, "[1,2]"),
            cond("kind", FilterOperators::NotIn, "[\"a\"]"),
        ]),
        or: None,
    };
    let (sql, params) = b.build_where_clause(Some(filters));
    assert_eq!(sql, "((files.id = ANY($1)) AND (files.kind != ALL($2)))");
    assert_eq!(params, vec!["[1,2]".to_string(), "[\"a\"]".to_string()]);
}

#[test]
fn or_branch_joins_with_or() {
    let mut b = WhereBuilder::new("files".to_string(), None);
    let filters = Conditions {
        and: None,
        or: Some(vec![
            cond("title", FilterOperators::Like, "%a%"),
            cond("title", FilterOperators::Like, "%b%"),
        ]),
    };
    let (sql, params) = b.build_where_clause(Some(filters));
    assert_eq!(sql, "((files.title LIKE $1) OR (files.title LIKE $2))");
    assert_eq!(params, vec!["%a%".to_string(), "%b%".to_string()]);
}

#[test]
fn operator_labels_parse() {
    assert_eq!(FilterOperators::from_str("eq"), Some(FilterOperators::Eq));
    assert_eq!(FilterOperators::from_str("is not"), Some(FilterOperators::IsNot));
    assert_eq!(FilterOperators::from_str("not in"), Some(FilterOperators::NotIn));
    assert_eq!(FilterOperators::from_str("bogus"), None);
}

#[test]
fn operator_symbols_match_the_table() {
    assert_eq!(FilterOperators::Eq.sql_symbol(), "=");
    assert_eq!(FilterOperators::Neq.sql_symbol(), "!=");
    assert_eq!(FilterOperators::Gte.sql_symbol(), ">=");
    assert_eq!(FilterOperators::Is.sql_symbol(), "IS NOT DISTINCT FROM");
    assert_eq!(FilterOperators::In.sql_symbol(), "=");
    assert_eq!(FilterOperators::NotIn.sql_symbol(), "!=");
}

#[test]
fn builder_accumulates_across_calls() {
    let mut b = WhereBuilder::new("files".to_string(), None);
    let f1 = Conditions {
        and: Some(vec![cond("a", FilterOperators::Eq, "1")]),
        or: None,
    };
    let (_, p1) = b.build_where_clause(Some(f1));
    assert_eq!(p1.len(), 1);
    let f2 = Conditions {
        and: Some(vec![cond("b", FilterOperators::Eq, "2")]),
        or: None,
    };
    let (sql2, p2) = b.build_where_clause(Some(f2));
    assert_eq!(sql2, "(files.b = $2)");
    assert_eq!(p2, vec!["1".to_string(), "2".to_string()]);
}
