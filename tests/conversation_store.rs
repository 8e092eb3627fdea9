use pg_admin::conversation::Conversation;

fn strings(v: &[&str]) -> Vec<String> {
    v.iter().map(|s| s.to_string()).collect()
}

#[test]
fn remember_columns_is_a_union() {
    let mut c = Conversation::new();
    c.remember_table_columns("orders", strings(&["id", "name"]));
    c.remember_table_columns("orders", strings(&["name", "total"]));
    let cols = c.columns_of("orders").unwrap();
    assert_eq!(cols, strings(&["id", "name", "total"]));
}

#[test]
fn remember_dedups_within_one_call() {
    let mut c = Conversation::new();
    c.remember_table_columns("t", strings(&["a", "a", "b"]));
    assert_eq!(c.columns_of("t").unwrap(), strings(&["a", "b"]));
    c.remember_table_columns("t", vec![]);
    assert_eq!(c.columns_of("t").unwrap(), strings(&["a", "b"]));
    assert!(c.columns_of("u").is_none());
}

#[test]
fn has_columns_for_checks_every_column() {
    let mut c = Conversation::new();
    c.remember_table_columns("users", strings(&["id", "email"]));
    assert!(c.has_columns_for("users", &strings(&["email"])));
    assert!(c.has_columns_for("users", &[]));
    assert!(!c.has_columns_for("users", &strings(&["id", "name"])));
    assert!(!c.has_columns_for("books", &[]));
}

#[test]
fn messages_keep_order_and_roles() {
    let mut c = Conversation::new();
    c.add_system("s");
    c.add_user("u");
    c.add_assistant("a");
    let snap = c.snapshot();
    let roles: Vec<&str> = snap.iter().map(|m| m.role.as_str()).collect();
    assert_eq!(roles, vec!["system", "user", "assistant"]);
    let contents: Vec<&str> = snap.iter().map(|m| m.content.as_str()).collect();
    assert_eq!(contents, vec!["s", "u", "a"]);
    assert!(!c.knows_table("s"));
}
