use cyu_calendar::config::{default_save_credentials, Config, Env};
use cyu_calendar::Error;

#[test]
fn credentials_are_not_saved_by_default() {
    assert_eq!(default_save_credentials(), false);
    let config = Config::new(None, "config.toml".to_string());
    assert_eq!(config.save_credentials(), false);
}

#[test]
fn configured_value_wins() {
    let config = Config::new(Some(true), "config.toml".to_string());
    assert!(config.save_credentials());
}

#[test]
fn setting_changes_the_value_and_the_text() {
    let mut config = Config::new(None, "config.toml".to_string());
    config.set_save_credentials(true);
    assert!(config.save_credentials());
    assert_eq!(config.to_toml_text(), "save_credentials = true\n");
    config.set_save_credentials(false);
    assert_eq!(config.to_toml_text(), "save_credentials = false\n");
    assert_eq!(config.file_path(), "config.toml");
}

#[test]
fn env_holds_the_two_keys() {
    let env = Env { ics_auth_key: "a2V5LWJ5dGVz".to_string(), database_url: "sqlite://db".to_string() };
    assert_eq!(env.database_url, "sqlite://db");
    assert!(!env.ics_auth_key.is_empty());
}

#[test]
fn error_messages_name_the_kind() {
    assert_eq!(Error::Remote.message(), "Remote");
    assert_eq!(Error::Unauthorized.message(), "Unauthorized");
}
