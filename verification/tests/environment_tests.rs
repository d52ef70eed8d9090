use confres::ConfigError;
use confres::Environment;

#[test]
fn default_is_local() {
    let e = Environment::resolve(None).unwrap();
    assert_eq!(e.as_str(), "local");
}

#[test]
fn lowercase_names_accepted() {
    assert_eq!(Environment::resolve(Some("local")).unwrap().as_str(), "local");
    assert_eq!(
        Environment::resolve(Some("production")).unwrap().as_str(),
        "production"
    );
}

#[test]
fn case_variants_accepted() {
    assert_eq!(Environment::resolve(Some("Local")).unwrap().as_str(), "local");
    assert_eq!(Environment::resolve(Some("LOCAL")).unwrap().as_str(), "local");
    assert_eq!(Environment::resolve(Some("LoCaL")).unwrap().as_str(), "local");
    assert_eq!(
        Environment::resolve(Some("PRODUCTION")).unwrap().as_str(),
        "production"
    );
    assert_eq!(
        Environment::resolve(Some("Production")).unwrap().as_str(),
        "production"
    );
}

#[test]
fn unknown_environment_rejected() {
    let r = Environment::resolve(Some("staging"));
    match r {
        Err(ConfigError::UnsupportedEnvironment(v)) => assert_eq!(v, "staging"),
        _ => panic!("staging must be rejected"),
    }
}

#[test]
fn empty_string_rejected() {
    let r = Environment::resolve(Some(""));
    match r {
        Err(ConfigError::UnsupportedEnvironment(v)) => assert_eq!(v, ""),
        _ => panic!("the empty string must be rejected"),
    }
}

#[test]
fn try_from_matches_resolve() {
    assert!(matches!(Environment::try_from("local"), Ok(Environment::Local)));
    assert!(matches!(
        Environment::try_from("production"),
        Ok(Environment::Production)
    ));
    assert!(Environment::try_from("dev").is_err());
}

#[test]
fn file_names() {
    assert_eq!(Environment::Local.file_name(), "local.yaml");
    assert_eq!(Environment::Production.file_name(), "production.yaml");
}
