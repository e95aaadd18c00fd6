use layered_config::document::Value;
use layered_config::error::ConfigError;
use layered_config::loader::resolve_settings;

fn table(entries: Vec<(&str, Value)>) -> Value {
    Value::Table(
        entries
            .into_iter()
            .map(|(k, v)| (k.to_string(), v))
            .collect(),
    )
}

fn s(v: &str) -> Value {
    Value::Str(v.to_string())
}

fn base_doc() -> Value {
    table(vec![
        (
            "postgres",
            table(vec![
                ("username", s("app")),
                ("password", s("base-password")),
                ("port", s("5432")),
                ("host", s("127.0.0.1")),
                ("database_name", s("newsletter")),
                ("require_ssl", Value::Bool(false)),
            ]),
        ),
        (
            "redis",
            table(vec![("port", Value::Int(6379)), ("host", s("127.0.0.1"))]),
        ),
        (
            "application",
            table(vec![
                ("host", s("0.0.0.0")),
                ("port", Value::Int(8000)),
                ("visit_duration", Value::Int(86400)),
            ]),
        ),
    ])
}

fn env_doc() -> Value {
    table(vec![(
        "postgres",
        table(vec![("require_ssl", Value::Bool(true))]),
    )])
}

#[test]
fn environment_layer_overrides_base_keywise() {
    let settings = resolve_settings(Some(base_doc()), Some(env_doc()), &vec![]).unwrap();
    // port survives from the base layer, numerically coerced from "5432"
    assert_eq!(settings.postgres.port, 5432);
    // require_ssl is overridden by the environment layer
    assert!(settings.postgres.require_ssl);
    // untouched keys keep their base values
    assert_eq!(settings.postgres.username, "app");
    assert_eq!(settings.postgres.host, "127.0.0.1");
    assert_eq!(settings.application.visit_duration, 86400);
    assert_eq!(settings.redis.port, 6379);
    assert!(settings.redis.username.is_none());
    assert!(settings.redis.password.is_none());
}

#[test]
fn overlay_variable_overrides_both_file_layers() {
    let vars = vec![(
        "APP_POSTGRES__PASSWORD".to_string(),
        "overlay-password".to_string(),
    )];
    let settings = resolve_settings(Some(base_doc()), Some(env_doc()), &vars).unwrap();
    assert_eq!(settings.postgres.password.expose_secret(), "overlay-password");
    // untouched keys still come from the file layers
    assert_eq!(settings.postgres.username, "app");
}

#[test]
fn overlay_coerces_numeric_strings() {
    let vars = vec![("APP_APPLICATION__PORT".to_string(), "9999".to_string())];
    let settings = resolve_settings(Some(base_doc()), Some(env_doc()), &vars).unwrap();
    assert_eq!(settings.application.port, 9999);
}

#[test]
fn overlay_coerces_boolean_strings() {
    let vars = vec![("APP_POSTGRES__REQUIRE_SSL".to_string(), "false".to_string())];
    let settings = resolve_settings(Some(base_doc()), Some(env_doc()), &vars).unwrap();
    assert!(!settings.postgres.require_ssl);
}

#[test]
fn unprefixed_variables_are_ignored() {
    let vars = vec![
        ("PATH".to_string(), "/usr/bin".to_string()),
        ("POSTGRES__PASSWORD".to_string(), "not-ours".to_string()),
    ];
    let settings = resolve_settings(Some(base_doc()), Some(env_doc()), &vars).unwrap();
    assert_eq!(settings.postgres.password.expose_secret(), "base-password");
}

#[test]
fn later_overlay_variables_win() {
    let vars = vec![
        ("APP_POSTGRES__PASSWORD".to_string(), "first".to_string()),
        ("APP_POSTGRES__PASSWORD".to_string(), "second".to_string()),
    ];
    let settings = resolve_settings(Some(base_doc()), Some(env_doc()), &vars).unwrap();
    assert_eq!(settings.postgres.password.expose_secret(), "second");
}

#[test]
fn missing_base_is_source_missing_even_with_good_overrides() {
    let vars = vec![(
        "APP_POSTGRES__PASSWORD".to_string(),
        "overlay-password".to_string(),
    )];
    let r = resolve_settings(None, Some(env_doc()), &vars);
    match r {
        Err(ConfigError::SourceMissing(which)) => assert_eq!(which, "base"),
        _ => panic!("a missing base layer must fail with SourceMissing"),
    }
}

#[test]
fn missing_environment_document_is_source_missing() {
    let r = resolve_settings(Some(base_doc()), None, &vec![]);
    match r {
        Err(ConfigError::SourceMissing(which)) => assert_eq!(which, "environment"),
        _ => panic!("a missing environment layer must fail with SourceMissing"),
    }
}

#[test]
fn unparsable_port_is_a_deserialize_error() {
    let mut base = base_doc();
    if let Value::Table(ref mut top) = base {
        if let Value::Table(ref mut pg) = top[0].1 {
            pg[2].1 = Value::Str("abc".to_string());
        }
    }
    let r = resolve_settings(Some(base), Some(env_doc()), &vec![]);
    match r {
        Err(ConfigError::Deserialize(path)) => assert_eq!(path, "postgres.port"),
        _ => panic!("an unparsable port must fail with Deserialize"),
    }
}

#[test]
fn out_of_range_port_is_a_deserialize_error() {
    let mut base = base_doc();
    if let Value::Table(ref mut top) = base {
        if let Value::Table(ref mut pg) = top[0].1 {
            pg[2].1 = Value::Str("65536".to_string());
        }
    }
    let r = resolve_settings(Some(base), Some(env_doc()), &vec![]);
    assert!(matches!(r, Err(ConfigError::Deserialize(_))));
}

#[test]
fn missing_required_field_is_a_deserialize_error() {
    let mut base = base_doc();
    if let Value::Table(ref mut top) = base {
        if let Value::Table(ref mut pg) = top[0].1 {
            pg.remove(3); // drop postgres.host
        }
    }
    let r = resolve_settings(Some(base), Some(env_doc()), &vec![]);
    match r {
        Err(ConfigError::Deserialize(path)) => assert_eq!(path, "postgres.host"),
        _ => panic!("a missing field must fail with Deserialize"),
    }
}

#[test]
fn empty_overlay_path_segment_is_rejected() {
    let vars = vec![(
        "APP_POSTGRES____PASSWORD".to_string(),
        "oops".to_string(),
    )];
    let r = resolve_settings(Some(base_doc()), Some(env_doc()), &vars);
    match r {
        Err(ConfigError::EnvOverlayParse(name)) => {
            assert_eq!(name, "APP_POSTGRES____PASSWORD")
        }
        _ => panic!("an empty path segment must fail with EnvOverlayParse"),
    }
}

#[test]
fn bare_prefix_variable_is_rejected() {
    let vars = vec![("APP_".to_string(), "oops".to_string())];
    let r = resolve_settings(Some(base_doc()), Some(env_doc()), &vars);
    assert!(matches!(r, Err(ConfigError::EnvOverlayParse(_))));
}

#[test]
fn optional_redis_credentials_carry_through() {
    let mut base = base_doc();
    if let Value::Table(ref mut top) = base {
        if let Value::Table(ref mut redis) = top[1].1 {
            redis.push(("username".to_string(), s("cache-user")));
            redis.push(("password".to_string(), s("cache-pass")));
        }
    }
    let settings = resolve_settings(Some(base), Some(env_doc()), &vec![]).unwrap();
    assert_eq!(settings.redis.username.as_deref(), Some("cache-user"));
    assert_eq!(
        settings
            .redis
            .password
            .as_ref()
            .map(|p| p.expose_secret().as_str()),
        Some("cache-pass")
    );
}

#[test]
fn plus_signed_numeric_string_is_accepted() {
    let vars = vec![("APP_APPLICATION__PORT".to_string(), "+8080".to_string())];
    let settings = resolve_settings(Some(base_doc()), Some(env_doc()), &vars).unwrap();
    assert_eq!(settings.application.port, 8080);
}

#[test]
fn visit_duration_accepts_numeric_string_override() {
    let vars = vec![(
        "APP_APPLICATION__VISIT_DURATION".to_string(),
        "3600".to_string(),
    )];
    let settings = resolve_settings(Some(base_doc()), Some(env_doc()), &vars).unwrap();
    assert_eq!(settings.application.visit_duration, 3600);
}
