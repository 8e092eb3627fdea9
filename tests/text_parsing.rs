use pg_admin::llm::{clean_json, reply_to_json};
use pg_admin::conversation::LlmResponse;
use pg_admin::oracle::{
    extract_quoted_names, extract_table_from_clarification, format_table_columns,
    format_table_list, join, parse_columns_from_db_response, parse_request, OracleRequest,
};
use pg_admin::sql::{extract_tables_from_sql, tables_in_lowered};
use std::collections::HashSet;

fn set(v: Vec<String>) -> HashSet<String> {
    v.into_iter().collect()
}

#[test]
fn extract_tables_strips_schema_and_folds_case() {
    let t = extract_tables_from_sql("SELECT a.x FROM schema1.orders o JOIN customers c ON o.id = c.id");
    let expected: HashSet<String> = ["orders", "customers"].iter().map(|s| s.to_string()).collect();
    assert_eq!(set(t.clone()), expected);
    assert_eq!(t.len(), 2);
}

#[test]
fn extract_tables_lowercases() {
    assert_eq!(extract_tables_from_sql("SELECT * FROM Orders"), vec!["orders"]);
    assert_eq!(extract_tables_from_sql("select * from \"Public\".\"Users\";"), vec!["users"]);
}

#[test]
fn extract_tables_trims_punctuation_and_dedups() {
    let t = tables_in_lowered("select * from a, b join c; select 1 from a) join 'd'");
    assert_eq!(t, vec!["a", "c", "d"]);
    assert!(tables_in_lowered("select 1").is_empty());
    assert!(tables_in_lowered("select 1 from").is_empty());
    assert!(tables_in_lowered("").is_empty());
}

#[test]
fn extract_tables_across_lines() {
    let t = tables_in_lowered("select *\nfrom\tx\n join y on x.id=y.id");
    assert_eq!(t, vec!["x", "y"]);
}

#[test]
fn clarification_table() {
    assert_eq!(
        extract_table_from_clarification("What are the columns in 'branch_heads'?"),
        Some("branch_heads".to_string())
    );
    assert_eq!(extract_table_from_clarification("columns in ' users ' please"), Some("users".into()));
    assert_eq!(extract_table_from_clarification("no quotes"), None);
    assert_eq!(extract_table_from_clarification("empty '  ' quotes"), None);
    assert_eq!(extract_table_from_clarification("open 'ended"), Some("ended".into()));
}

#[test]
fn quoted_names_all_extracted() {
    assert_eq!(
        extract_quoted_names("What are the columns in 'a' and 'b'?"),
        vec!["a", "b"]
    );
    assert!(extract_quoted_names("none").is_empty());
}

#[test]
fn request_shapes() {
    assert!(matches!(parse_request("List All Available Tables"), OracleRequest::ListTables));
    match parse_request("What are the columns in 'books' and 'reviews'?") {
        OracleRequest::ColumnsFor(v) => assert_eq!(v, vec!["books", "reviews"]),
        _ => panic!("expected a columns request"),
    }
    match parse_request("list all tables") {
        OracleRequest::Unrecognized(t) => assert_eq!(t, "list all tables"),
        _ => panic!("expected an unrecognized request"),
    }
}

#[test]
fn oracle_answers_formatted() {
    let tables: Vec<String> = vec!["users".into(), "orders".into()];
    assert_eq!(format_table_list(&tables), "Available tables: [\"users\", \"orders\"]");
    assert_eq!(format_table_list(&vec![]), "Available tables: []");
    let cols = vec![("title".to_string(), "text".to_string()), ("price".to_string(), "numeric".to_string())];
    assert_eq!(
        format_table_columns("books", &cols),
        "Table books has columns: [\"title:text\", \"price:numeric\"]"
    );
    assert_eq!(join(&vec!["a".into(), "b".into(), "c".into()], ", "), "a, b, c");
}

#[test]
fn columns_from_bracketed_list() {
    let cols = parse_columns_from_db_response("Table books has columns: [\"title:text\", 'price:numeric', ]");
    assert_eq!(cols, vec!["title:text", "price:numeric"]);
    assert!(parse_columns_from_db_response("Table t has columns: []").is_empty());
}

#[test]
fn columns_after_colon() {
    let cols = parse_columns_from_db_response("The columns are: id integer, \"name\" text,  , total");
    assert_eq!(cols, vec!["id", "name", "total"]);
    assert_eq!(parse_columns_from_db_response("unclosed [a, b: c"), vec!["c"]);
    assert!(parse_columns_from_db_response("no list at all").is_empty());
}

#[test]
fn fences_stripped() {
    assert_eq!(clean_json("  ```json\n{\"sql\":\"\"}\n```  "), "{\"sql\":\"\"}");
    assert_eq!(clean_json("```{}```"), "{}");
    assert_eq!(clean_json("{}"), "{}");
}

#[test]
fn reply_json_escapes() {
    let r = LlmResponse {
        clarification: "a\nb".into(),
        sql: "SELECT 'x'".into(),
        explanation: String::new(),
    };
    assert_eq!(
        reply_to_json(&r),
        "{\"clarification\":\"a\\nb\",\"sql\":\"SELECT 'x'\",\"explanation\":\"\"}"
    );
}
