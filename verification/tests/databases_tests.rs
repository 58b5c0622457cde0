use db_helpers::databases::{get_database_urls_from_env, local_database_url, DatabaseType};
use db_helpers::DATABASE_URL;
use std::str::FromStr;

fn var(name: &str, value: &str) -> (String, String) {
    (name.to_string(), value.to_string())
}

#[test]
fn extract_database_type() {
    let db_type = DatabaseType::from_str("postgres://one:one/onex").unwrap();
    assert_eq!(db_type, DatabaseType::Postgres);
}

#[test]
fn sqlite_urls_name_sqlite() {
    assert_eq!(
        DatabaseType::from_str("sqlite://data.db"),
        Ok(DatabaseType::Sqlite)
    );
    assert_eq!(
        DatabaseType::from_str("sqlite::memory:"),
        Ok(DatabaseType::Sqlite)
    );
}

#[test]
fn the_case_of_the_url_does_not_matter() {
    assert_eq!(
        DatabaseType::from_str("POSTGRES://one:one/onex"),
        Ok(DatabaseType::Postgres)
    );
    assert_eq!(
        DatabaseType::from_str("PostgreSQL://host/db"),
        Ok(DatabaseType::Postgres)
    );
    assert_eq!(
        DatabaseType::from_str("SQLite:file.db"),
        Ok(DatabaseType::Sqlite)
    );
}

#[test]
fn other_urls_are_refused_with_the_url_as_given() {
    assert_eq!(
        DatabaseType::from_str("MySQL://host/db"),
        Err("Unsupported database type: MySQL://host/db".to_string())
    );
    assert_eq!(
        DatabaseType::from_str(""),
        Err("Unsupported database type: ".to_string())
    );
    assert_eq!(
        DatabaseType::from_str(" postgres://host"),
        Err("Unsupported database type:  postgres://host".to_string())
    );
}

#[test]
fn classify_decides_on_the_lowered_text_and_quotes_the_given_one() {
    assert_eq!(
        DatabaseType::classify("postgres://x", "POSTGRES://x"),
        Ok(DatabaseType::Postgres)
    );
    assert_eq!(
        DatabaseType::classify("sqlite", "whatever"),
        Ok(DatabaseType::Sqlite)
    );
    assert_eq!(
        DatabaseType::classify("POSTGRES://x", "postgres://x"),
        Err("Unsupported database type: postgres://x".to_string())
    );
    assert_eq!(
        DatabaseType::classify("postgre", "postgre"),
        Err("Unsupported database type: postgre".to_string())
    );
}

#[test]
fn the_name_of_the_default_variable() {
    assert_eq!(DATABASE_URL, "DATABASE_URL");
}

#[test]
fn extract_codes_from_env() {
    let vars = vec![var("DATABASE_URL", "onex"), var("DATABASE_GTRA_URL", "tw_gtra")];
    let (default, teliways) = get_database_urls_from_env(vars);

    assert_eq!(default, Some("onex".to_string()));
    assert_eq!(teliways[0], ("gtra".to_string(), "tw_gtra".to_string()));
}

#[test]
fn variables_of_another_shape_are_passed_over() {
    let vars = vec![
        var("PATH", "/bin"),
        var("DATABASE_", "a"),
        var("DATABASE_X", "b"),
        var("DATABASE_X_URI", "c"),
        var("XDATABASE_X_URL", "d"),
        var("database_x_url", "e"),
        var("DATABASE_URL_", "f"),
    ];
    let (default, teliways) = get_database_urls_from_env(vars);
    assert_eq!(default, None);
    assert!(teliways.is_empty());
}

#[test]
fn codes_come_in_the_order_of_the_variables_and_in_lower_case() {
    let vars = vec![
        var("DATABASE_ZED_URL", "z"),
        var("HOME", "/root"),
        var("DATABASE_Alpha_Beta_URL", "ab"),
        var("DATABASE__URL", "empty"),
        var("DATABASE_URL_URL", "url"),
        var("DATABASE_ZED_URL", "z2"),
    ];
    let (default, teliways) = get_database_urls_from_env(vars);
    assert_eq!(default, None);
    assert_eq!(
        teliways,
        vec![
            var("zed", "z"),
            var("alpha_beta", "ab"),
            var("", "empty"),
            var("url", "url"),
            var("zed", "z2"),
        ]
    );
}

#[test]
fn the_last_default_url_counts() {
    let vars = vec![
        var("DATABASE_URL", "first"),
        var("DATABASE_A_URL", "a"),
        var("DATABASE_URL", "second"),
    ];
    let (default, teliways) = get_database_urls_from_env(vars);
    assert_eq!(default, Some("second".to_string()));
    assert_eq!(teliways, vec![var("a", "a")]);
}

#[test]
fn no_variables_no_urls() {
    let (default, teliways) = get_database_urls_from_env(vec![]);
    assert_eq!(default, None);
    assert!(teliways.is_empty());
}

#[test]
fn local_url_is_given_for_the_kind_it_names() {
    let vars = || {
        vec![
            var("DATABASE_GTRA_URL", "mysql://gtra"),
            var("DATABASE_URL", "Postgres://one:one/onex"),
        ]
    };
    assert_eq!(
        local_database_url(vars(), DatabaseType::Postgres),
        Some("Postgres://one:one/onex".to_string())
    );
    assert_eq!(local_database_url(vars(), DatabaseType::Sqlite), None);
}

#[test]
fn local_url_of_sqlite() {
    let vars = || vec![var("DATABASE_URL", "sqlite://onex.db")];
    assert_eq!(
        local_database_url(vars(), DatabaseType::Sqlite),
        Some("sqlite://onex.db".to_string())
    );
    assert_eq!(local_database_url(vars(), DatabaseType::Postgres), None);
}

#[test]
fn no_local_url_without_the_variable_or_with_an_unknown_kind() {
    assert_eq!(
        local_database_url(
            vec![var("DATABASE_GTRA_URL", "postgres://gtra")],
            DatabaseType::Postgres
        ),
        None
    );
    assert_eq!(
        local_database_url(
            vec![var("DATABASE_URL", "mysql://onex")],
            DatabaseType::Postgres
        ),
        None
    );
    assert_eq!(
        local_database_url(
            vec![var("DATABASE_URL", "mysql://onex")],
            DatabaseType::Sqlite
        ),
        None
    );
}
