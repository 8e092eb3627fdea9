use pg_admin::schema::{group_rows, schema_summary, text_less};

fn rows(v: &[(&str, &str, &str)]) -> Vec<(String, String, String)> {
    v.iter().map(|(a, b, c)| (a.to_string(), b.to_string(), c.to_string())).collect()
}

#[test]
fn summary_groups_tables_in_name_order() {
    let r = rows(&[
        ("users", "id", "integer"),
        ("books", "title", "text"),
        ("users", "email", "text"),
        ("books", "price", "numeric"),
    ]);
    assert_eq!(
        schema_summary(&r),
        "books(title text, price numeric)\nusers(id integer, email text)\n"
    );
}

#[test]
fn summary_of_nothing_is_empty() {
    assert_eq!(schema_summary(&vec![]), "");
}

#[test]
fn groups_keep_row_order_within_a_table() {
    let g = group_rows(&rows(&[("t", "b", "x"), ("s", "a", "y"), ("t", "a", "z")]));
    assert_eq!(g.len(), 2);
    assert_eq!(g[0].table, "s");
    assert_eq!(g[1].table, "t");
    assert_eq!(g[1].columns, vec![("b".to_string(), "x".to_string()), ("a".to_string(), "z".to_string())]);
}

#[test]
fn name_order_is_string_order() {
    assert!(text_less("Zeta", "alpha"));
    assert!(text_less("ab", "abc"));
    assert!(!text_less("abc", "abc"));
    assert!(!text_less("b", "a"));
    assert_eq!(text_less("é", "z"), "é" < "z");
    let g = group_rows(&rows(&[("b_t", "c", "t"), ("B", "c", "t"), ("a", "c", "t")]));
    let names: Vec<&str> = g.iter().map(|x| x.table.as_str()).collect();
    assert_eq!(names, vec!["B", "a", "b_t"]);
}
