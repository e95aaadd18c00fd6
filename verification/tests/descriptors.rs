use layered_config::secret::Secret;
use layered_config::settings::PostgresSettings;
use layered_config::settings::RedisSettings;
use layered_config::settings::SslMode;

fn postgres(require_ssl: bool) -> PostgresSettings {
    PostgresSettings {
        username: "app".to_string(),
        password: Secret::new("pg-secret".to_string()),
        port: 5432,
        host: "db.internal".to_string(),
        database_name: "newsletter".to_string(),
        require_ssl,
    }
}

#[test]
fn without_db_never_names_a_database() {
    let d = postgres(false).without_db();
    assert!(d.database_name.is_none());
    assert_eq!(d.username, "app");
    assert_eq!(d.password, "pg-secret");
    assert_eq!(d.port, 5432);
    assert_eq!(d.host, "db.internal");
}

#[test]
fn with_db_always_names_the_database() {
    let d = postgres(false).with_db();
    assert_eq!(d.database_name.as_deref(), Some("newsletter"));
    assert_eq!(d.username, "app");
    assert_eq!(d.port, 5432);
}

#[test]
fn require_ssl_selects_require_mode() {
    assert_eq!(postgres(true).without_db().ssl_mode, SslMode::Require);
    assert_eq!(postgres(true).with_db().ssl_mode, SslMode::Require);
}

#[test]
fn no_require_ssl_selects_prefer_mode_never_disabled() {
    assert_eq!(postgres(false).without_db().ssl_mode, SslMode::Prefer);
    assert_eq!(postgres(false).with_db().ssl_mode, SslMode::Prefer);
}

#[test]
fn redis_descriptor_uses_logical_database_zero() {
    let settings = RedisSettings {
        port: 6379,
        host: "cache.internal".to_string(),
        username: None,
        password: None,
    };
    let d = settings.with_db();
    assert_eq!(d.db, 0);
    assert_eq!(d.host, "cache.internal");
    assert_eq!(d.port, 6379);
    assert!(d.username.is_none());
    assert!(d.password.is_none());
}

#[test]
fn redis_descriptor_carries_credentials_through() {
    let settings = RedisSettings {
        port: 6380,
        host: "cache.internal".to_string(),
        username: Some("cache-user".to_string()),
        password: Some(Secret::new("cache-pass".to_string())),
    };
    let d = settings.with_db();
    assert_eq!(d.username.as_deref(), Some("cache-user"));
    assert_eq!(d.password.as_deref(), Some("cache-pass"));
}

#[test]
fn secret_reveals_only_through_expose_secret() {
    let secret = Secret::new("swordfish".to_string());
    assert_eq!(secret.expose_secret(), "swordfish");
}

#[test]
fn secret_redaction_never_shows_the_plaintext() {
    let secret = Secret::new("swordfish".to_string());
    let shown = secret.redacted();
    assert_eq!(shown, "[REDACTED]");
    assert!(!shown.contains("swordfish"));
    // the redacted form is the same whatever the secret holds
    let other = Secret::new("completely-different".to_string());
    assert_eq!(other.redacted(), shown);
}
