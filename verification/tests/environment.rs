use layered_config::environment::Environment;
use layered_config::error::ConfigError;

#[test]
fn parse_local_ignores_ascii_case() {
    assert!(matches!(Environment::try_from("local"), Ok(Environment::Local)));
    assert!(matches!(Environment::try_from("Local"), Ok(Environment::Local)));
    assert!(matches!(Environment::try_from("LOCAL"), Ok(Environment::Local)));
    assert!(matches!(Environment::try_from("lOcAl"), Ok(Environment::Local)));
}

#[test]
fn parse_production_ignores_ascii_case() {
    assert!(matches!(
        Environment::try_from("production"),
        Ok(Environment::Production)
    ));
    assert!(matches!(
        Environment::try_from("PRODUCTION"),
        Ok(Environment::Production)
    ));
    assert!(matches!(
        Environment::try_from("Production"),
        Ok(Environment::Production)
    ));
}

#[test]
fn parse_rejects_other_tokens() {
    for bad in ["staging", "", "prod", "local ", "développement"] {
        let r = Environment::try_from(bad);
        match r {
            Err(ConfigError::InvalidEnvironment(msg)) => {
                assert!(msg.contains(bad), "message must quote the token: {msg}");
                assert!(msg.contains("`local` or `production`"));
            }
            _ => panic!("token {bad:?} must be rejected with InvalidEnvironment"),
        }
    }
}

#[test]
fn as_str_gives_canonical_lowercase_names() {
    assert_eq!(Environment::Local.as_str(), "local");
    assert_eq!(Environment::Production.as_str(), "production");
}

#[test]
fn as_str_inverts_parsing() {
    for name in ["local", "production"] {
        let env = Environment::try_from(name).unwrap();
        assert_eq!(env.as_str(), name);
    }
}
