use pg_admin::agent::{
    AgentError, Negotiation, Step, BOTH_EMPTY, MAX_ATTEMPTS, SCHEMA_HINT, SYSTEM_PROMPT,
};
use pg_admin::conversation::{Conversation, LlmResponse};
use pg_admin::oracle::{format_table_columns, format_table_list};

fn reply(sql: &str, clarification: &str) -> LlmResponse {
    LlmResponse {
        clarification: clarification.to_string(),
        sql: sql.to_string(),
        explanation: String::new(),
    }
}

fn columns(pairs: &[(&str, &str)]) -> Vec<(String, String)> {
    pairs.iter().map(|(c, t)| (c.to_string(), t.to_string())).collect()
}

fn started(query: &str) -> Negotiation {
    let (n, step) = Negotiation::start(Conversation::new(), query, true);
    assert!(matches!(step, Step::AskResponder));
    n
}

fn last_message(n: &Negotiation) -> String {
    n.conversation.messages.last().unwrap().content.clone()
}

fn confirm_table(n: &mut Negotiation, table: &str, cols: &[(&str, &str)]) {
    let clar = format!("What are the columns in '{}'?", table);
    match n.on_reply(Ok(reply("", &clar))) {
        Step::AskOracle(q) => assert_eq!(q, clar),
        _ => panic!("expected a request to the oracle"),
    }
    let answer = format_table_columns(table, &columns(cols));
    assert!(matches!(n.on_oracle(Ok(answer)), Step::AskResponder));
    assert!(n.conversation.knows_table(table));
}

#[test]
fn start_records_prompt_and_query() {
    let n = started("Show me all versions");
    let msgs = &n.conversation.messages;
    assert_eq!(msgs.len(), 2);
    assert_eq!(msgs[0].role, "system");
    assert_eq!(msgs[0].content, SYSTEM_PROMPT);
    assert_eq!(msgs[1].role, "user");
    assert_eq!(msgs[1].content, "Show me all versions");
    assert_eq!(n.attempts, 1);
}

#[test]
fn start_without_database_fails() {
    let (n, step) = Negotiation::start(Conversation::new(), "anything", false);
    assert!(matches!(step, Step::Fail(AgentError::NotConfigured)));
    assert!(n.conversation.messages.is_empty());
}

#[test]
fn versions_scenario_accepts_grounded_sql() {
    let mut n = started("Show me all versions");
    let clar = "What are the columns in 'versions'?";
    match n.on_reply(Ok(reply("", clar))) {
        Step::AskOracle(q) => assert_eq!(q, clar),
        _ => panic!("expected a request to the oracle"),
    }
    let answer = format_table_columns(
        "versions",
        &columns(&[("id", "integer"), ("name", "text"), ("created_at", "timestamp")]),
    );
    assert!(matches!(n.on_oracle(Ok(answer)), Step::AskResponder));
    let cols = n.conversation.columns_of("versions").unwrap();
    assert_eq!(cols, vec!["id:integer", "name:text", "created_at:timestamp"]);
    let n_msgs = n.conversation.messages.len();
    assert_eq!(n.conversation.messages[n_msgs - 2].content,
        "Table 'versions' has columns: [id:integer, name:text, created_at:timestamp]. Now that you have the schema, please retry and produce the SQL.");
    assert_eq!(n.conversation.messages[n_msgs - 1].content, SCHEMA_HINT);
    let sql = "SELECT id, name, created_at FROM versions;";
    match n.on_reply(Ok(reply(sql, ""))) {
        Step::Accept(s) => assert_eq!(s, sql),
        _ => panic!("expected the SQL to be accepted"),
    }
}

#[test]
fn list_then_two_tables_accepts_only_when_both_known() {
    let mut n = started("Show me orders with their customer name");
    match n.on_reply(Ok(reply("", "list all available tables"))) {
        Step::AskOracle(q) => assert_eq!(q, "list all available tables"),
        _ => panic!("expected a request to the oracle"),
    }
    let tables: Vec<String> = vec!["orders".into(), "customers".into(), "products".into()];
    assert!(matches!(n.on_oracle(Ok(format_table_list(&tables))), Step::AskResponder));
    assert!(last_message(&n).starts_with(
        "Available tables: Available tables: [\"orders\", \"customers\", \"products\"]. Based on these"
    ));
    confirm_table(&mut n, "orders", &[("id", "integer"), ("customer_id", "integer")]);
    let sql = "SELECT o.id, c.name FROM orders o JOIN customers c ON o.customer_id = c.id;";
    assert!(matches!(n.on_reply(Ok(reply(sql, ""))), Step::AskResponder));
    assert_eq!(last_message(&n), "What are the columns in 'customers'?");
    confirm_table(&mut n, "customers", &[("id", "integer"), ("name", "text")]);
    match n.on_reply(Ok(reply(sql, ""))) {
        Step::Accept(s) => assert_eq!(s, sql),
        _ => panic!("expected the SQL to be accepted"),
    }
}

#[test]
fn tables_confirmed_in_separate_rounds_then_join_accepted() {
    let mut n = started("Show me orders with their customer name");
    n.on_reply(Ok(reply("", "list all available tables")));
    let tables: Vec<String> = vec!["orders".into(), "customers".into(), "products".into()];
    n.on_oracle(Ok(format_table_list(&tables)));
    assert!(!n.conversation.knows_table("orders"));
    confirm_table(&mut n, "orders", &[("id", "integer"), ("customer_id", "integer")]);
    assert!(!n.conversation.knows_table("customers"));
    confirm_table(&mut n, "customers", &[("id", "integer"), ("name", "text")]);
    let sql = "SELECT o.id, c.name FROM orders o JOIN customers c ON o.customer_id = c.id;";
    match n.on_reply(Ok(reply(sql, ""))) {
        Step::Accept(s) => assert_eq!(s, sql),
        _ => panic!("expected the SQL to be accepted"),
    }
    assert!(n.conversation.knows_table("orders"));
}

#[test]
fn unconfirmed_table_is_asked_for() {
    let mut n = started("Show all reviews");
    let step = n.on_reply(Ok(reply("SELECT comment FROM reviews;", "")));
    assert!(!matches!(step, Step::Accept(_)));
    assert!(matches!(step, Step::AskResponder));
    assert_eq!(last_message(&n), "What are the columns in 'reviews'?");
    assert_eq!(n.conversation.messages[2].role, "assistant");
}

#[test]
fn sql_wins_over_clarification() {
    let mut n = started("Show all reviews");
    confirm_table(&mut n, "reviews", &[("id", "integer")]);
    match n.on_reply(Ok(reply("select id from REVIEWS", "What are the columns in 'users'?"))) {
        Step::Accept(s) => assert_eq!(s, "select id from REVIEWS"),
        _ => panic!("expected the SQL to be accepted"),
    }
}

#[test]
fn first_missing_table_in_order_of_mention() {
    let mut n = started("q");
    confirm_table(&mut n, "b", &[("id", "integer")]);
    let step = n.on_reply(Ok(reply("SELECT * FROM b JOIN c ON 1=1 JOIN a ON 1=1", "")));
    assert!(matches!(step, Step::AskResponder));
    assert_eq!(last_message(&n), "What are the columns in 'c'?");
}

#[test]
fn empty_replies_exhaust_after_max_attempts() {
    let mut n = started("Show me all versions");
    for round in 1..=MAX_ATTEMPTS {
        let before = n.conversation.messages.len();
        let step = n.on_reply(Ok(reply("  ", "")));
        assert_eq!(n.conversation.messages.len(), before + 2);
        assert_eq!(last_message(&n), BOTH_EMPTY);
        if round < MAX_ATTEMPTS {
            assert!(matches!(step, Step::AskResponder), "round {}", round);
        } else {
            assert!(matches!(step, Step::Fail(AgentError::NotConverged)));
        }
    }
    assert_eq!(MAX_ATTEMPTS, 12);
}

#[test]
fn gateway_error_is_reported_and_retried() {
    let mut n = started("q");
    let step = n.on_reply(Err("connection refused".to_string()));
    assert!(matches!(step, Step::AskResponder));
    assert_eq!(last_message(&n), "encountered error: connection refused");
    assert_eq!(n.attempts, 2);
}

#[test]
fn reply_is_recorded_as_json() {
    let mut n = started("q");
    let mut r = reply("", "list all available tables");
    r.explanation = "say \"hi\"".to_string();
    n.on_reply(Ok(r));
    assert_eq!(
        last_message(&n),
        "{\"clarification\":\"list all available tables\",\"sql\":\"\",\"explanation\":\"say \\\"hi\\\"\"}"
    );
}

#[test]
fn oracle_failures_are_reported() {
    let mut n = started("q");
    n.on_reply(Ok(reply("", "LIST ALL AVAILABLE TABLES")));
    assert!(matches!(n.on_oracle(Err("down".into())), Step::AskResponder));
    assert_eq!(
        last_message(&n),
        "Unable to fetch list of tables from the DB; try again or check DB connection."
    );
    n.on_reply(Ok(reply("", "What are the columns in 'x'?")));
    n.on_oracle(Err("down".into()));
    let k = n.conversation.messages.len();
    assert_eq!(
        n.conversation.messages[k - 2].content,
        "Unable to fetch columns from DB for that table. Ensure the table exists and try again."
    );
    n.on_reply(Ok(reply("", "Which column marks active users?")));
    n.on_oracle(Err("I cannot resolve".into()));
    assert!(last_message(&n).starts_with("I couldn't satisfy that clarification. The ONLY"));
    n.on_reply(Ok(reply("", "Which one?")));
    n.on_oracle(Ok("42".into()));
    assert_eq!(last_message(&n), "DB response: 42. Now please continue.");
    assert!(!n.conversation.knows_table("x"));
}

#[test]
fn unparsable_columns_are_not_remembered() {
    let mut n = started("q");
    n.on_reply(Ok(reply("", "What are the columns in 'Books'?")));
    n.on_oracle(Ok("nothing here".into()));
    let k = n.conversation.messages.len();
    assert_eq!(
        n.conversation.messages[k - 2].content,
        "DB returned: nothing here. I couldn't parse columns from that response for 'Books'."
    );
    assert!(!n.conversation.knows_table("books"));
}

#[test]
fn confirmed_table_is_stored_case_folded() {
    let mut n = started("q");
    n.on_reply(Ok(reply("", "What are the columns in 'Books'?")));
    n.on_oracle(Ok("Table Books has columns: [\"title:text\"]".into()));
    assert!(n.conversation.knows_table("books"));
    assert!(!n.conversation.knows_table("Books"));
    match n.on_reply(Ok(reply("SELECT title FROM BOOKS", ""))) {
        Step::Accept(s) => assert_eq!(s, "SELECT title FROM BOOKS"),
        _ => panic!("expected the SQL to be accepted"),
    }
}

#[test]
fn knowledge_survives_later_rounds() {
    let mut n = started("q");
    confirm_table(&mut n, "orders", &[("id", "integer")]);
    n.on_reply(Ok(reply("", "")));
    n.on_reply(Err("timeout".into()));
    n.on_reply(Ok(reply("", "What are the columns in 'orders'?")));
    n.on_oracle(Ok("Table orders has columns: [\"total:numeric\"]".into()));
    let cols = n.conversation.columns_of("orders").unwrap();
    assert_eq!(cols, vec!["id:integer", "total:numeric"]);
}

/// Runs a negotiation to its end, answering each step with the given
/// responder and oracle; hands back the outcome and the final state.
fn drive(
    query: &str,
    mut responder: impl FnMut(usize) -> LlmResponse,
    mut oracle: impl FnMut(&str) -> Result<String, String>,
) -> (Result<String, AgentError>, Negotiation, usize) {
    let (mut n, mut step) = Negotiation::start(Conversation::new(), query, true);
    let mut calls = 0usize;
    loop {
        step = match step {
            Step::AskResponder => {
                let r = responder(calls);
                calls += 1;
                n.on_reply(Ok(r))
            }
            Step::AskOracle(q) => {
                let a = oracle(&q);
                n.on_oracle(a)
            }
            Step::Accept(sql) => return (Ok(sql), n, calls),
            Step::Fail(e) => return (Err(e), n, calls),
        };
    }
}

#[test]
fn versions_run_calls_each_side_as_expected() {
    let sql = "SELECT id, name, created_at FROM versions;";
    let mut asked: Vec<String> = Vec::new();
    let (result, n, calls) = drive(
        "Show me all versions",
        |k| if k == 0 { reply("", "What are the columns in 'versions'?") } else { reply(sql, "") },
        |q| {
            asked.push(q.to_string());
            Ok("Table versions has columns: [id, name, created_at]".to_string())
        },
    );
    assert_eq!(result, Ok(sql.to_string()));
    assert_eq!(calls, 2);
    assert_eq!(asked, vec!["What are the columns in 'versions'?"]);
    assert_eq!(n.conversation.known_tables.len(), 1);
    assert_eq!(n.conversation.columns_of("versions").unwrap(), vec!["id", "name", "created_at"]);
}

#[test]
fn orders_customers_run_calls_each_side_as_expected() {
    let sql = "SELECT o.id, c.name FROM orders o JOIN customers c ON o.customer_id = c.id;";
    let mut asked: Vec<String> = Vec::new();
    let (result, n, calls) = drive(
        "Show me orders with their customer name",
        |k| match k {
            0 => reply("", "list all available tables"),
            1 => reply("", "What are the columns in 'orders'?"),
            2 => reply("", "What are the columns in 'customers'?"),
            _ => reply(sql, ""),
        },
        |q| {
            asked.push(q.to_string());
            let tables: Vec<String> = vec!["orders".into(), "customers".into(), "products".into()];
            Ok(if q == "list all available tables" {
                format_table_list(&tables)
            } else if q.contains("'orders'") {
                format_table_columns("orders", &columns(&[("id", "integer"), ("customer_id", "integer")]))
            } else {
                format_table_columns("customers", &columns(&[("id", "integer"), ("name", "text")]))
            })
        },
    );
    assert_eq!(result, Ok(sql.to_string()));
    assert_eq!(calls, 4);
    assert_eq!(
        asked,
        vec![
            "list all available tables",
            "What are the columns in 'orders'?",
            "What are the columns in 'customers'?"
        ]
    );
    let mut names: Vec<String> = n.conversation.known_tables.iter().map(|t| t.table.clone()).collect();
    names.sort();
    assert_eq!(names, vec!["customers", "orders"]);
}

#[test]
fn ungrounded_sql_every_round_exhausts_attempts() {
    let mut oracle_calls = 0usize;
    let (result, n, calls) = drive(
        "Show all reviews",
        |_| reply("SELECT * FROM reviews", ""),
        |_| {
            oracle_calls += 1;
            Err("unused".to_string())
        },
    );
    assert_eq!(result, Err(AgentError::NotConverged));
    assert_eq!(calls, MAX_ATTEMPTS);
    assert_eq!(oracle_calls, 0);
    assert!(n.conversation.known_tables.is_empty());
    let msgs = &n.conversation.messages;
    assert_eq!(msgs.len(), 2 + 2 * MAX_ATTEMPTS);
    for k in 0..MAX_ATTEMPTS {
        assert_eq!(msgs[2 + 2 * k].role, "assistant");
        assert_eq!(msgs[3 + 2 * k].role, "user");
        assert_eq!(msgs[3 + 2 * k].content, "What are the columns in 'reviews'?");
    }
}
