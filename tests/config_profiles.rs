use pg_admin::config::{LlmConfig, PostgresConfig, Setting};

fn pg(host: &str, port: u16) -> PostgresConfig {
    PostgresConfig {
        host: host.to_string(),
        port,
        user: "postgres".to_string(),
        password: "password".to_string(),
        dbname: "postgres".to_string(),
    }
}

#[test]
fn connection_string() {
    assert_eq!(
        pg("localhost", 5432).as_str(),
        "host=localhost user=postgres password=password dbname=postgres port=5432"
    );
    assert!(pg("h", 0).as_str().ends_with(" port=0"));
    assert!(pg("h", 65535).as_str().ends_with(" port=65535"));
}

#[test]
fn active_profiles() {
    let s = Setting {
        postgres_profiles: vec![("local".into(), pg("localhost", 5432)), ("remote".into(), pg("db", 6543))],
        llm_profiles: vec![("default".into(), LlmConfig { api_url: "http://x".into(), model: "m".into() })],
        active_postgres: "remote".into(),
        active_llm: "other".into(),
    };
    assert_eq!(s.active_postgres().unwrap().host, "db");
    assert!(s.active_llm().is_none());
}

#[test]
fn profile_names_must_be_unique() {
    let mut s = Setting {
        postgres_profiles: vec![("local".into(), pg("a", 1)), ("remote".into(), pg("b", 2))],
        llm_profiles: vec![],
        active_postgres: "local".into(),
        active_llm: String::new(),
    };
    assert!(s.has_unique_names());
    s.postgres_profiles.push(("local".into(), pg("c", 3)));
    assert!(!s.has_unique_names());
    assert_eq!(s.active_postgres().unwrap().host, "a");
}
