use anylist_notify::config::{
    default_log_level, default_priority, low_priority, AnyListConfig, CacheConfig, Config,
    ConfigError, LoggingConfig, NotificationsConfig, NtfyConfig, NtfyPriorities, NtfyTags,
};

fn config_with(email: &str, password: &str, topic: &str) -> Config {
    Config {
        anylist: AnyListConfig {
            email: email.to_string(),
            password: password.to_string(),
        },
        cache: CacheConfig {
            database_path: "./anylist.db".to_string(),
        },
        ntfy: NtfyConfig {
            base_url: "https://ntfy.sh".to_string(),
            topic: topic.to_string(),
            priorities: NtfyPriorities::default(),
            tags: NtfyTags::default(),
        },
        notifications: NotificationsConfig {
            filter_own_changes: true,
        },
        logging: LoggingConfig {
            level: default_log_level(),
        },
    }
}

#[test]
fn test_default_priorities() {
    let priorities = NtfyPriorities::default();
    assert_eq!(priorities.item_added, "default");
    assert_eq!(priorities.item_checked, "low");
}

#[test]
fn test_default_tags() {
    let tags = NtfyTags::default();
    assert_eq!(tags.item_added, "heavy_plus_sign,shopping_cart");
    assert_eq!(tags.item_checked, "white_check_mark");
}

#[test]
fn test_default_values() {
    assert_eq!(default_priority(), "default");
    assert_eq!(low_priority(), "low");
    assert_eq!(default_log_level(), "info");
    let priorities = NtfyPriorities::default();
    assert_eq!(priorities.item_unchecked, "default");
    assert_eq!(priorities.item_removed, "default");
    assert_eq!(priorities.item_modified, "default");
    let tags = NtfyTags::default();
    assert_eq!(tags.item_unchecked, "arrow_backward");
    assert_eq!(tags.item_removed, "x,shopping_cart");
    assert_eq!(tags.item_modified, "pencil2");
}

#[test]
fn test_validate_accepts_complete_config() {
    let config = config_with("a@b.c", "secret", "topic");
    assert!(config.validate().is_ok());
}

#[test]
fn test_validate_rejects_missing_email() {
    let config = config_with("", "secret", "topic");
    assert_eq!(config.validate(), Err(ConfigError::MissingEmail));
    assert_eq!(
        ConfigError::MissingEmail.message(),
        "AnyList email is required"
    );
}

#[test]
fn test_validate_rejects_missing_password() {
    let config = config_with("a@b.c", "", "topic");
    assert_eq!(config.validate(), Err(ConfigError::MissingPassword));
    assert_eq!(
        ConfigError::MissingPassword.message(),
        "AnyList password is required"
    );
}

#[test]
fn test_validate_rejects_missing_topic() {
    let config = config_with("a@b.c", "secret", "");
    assert_eq!(config.validate(), Err(ConfigError::MissingTopic));
    assert_eq!(ConfigError::MissingTopic.message(), "ntfy topic is required");
}

#[test]
fn test_validate_reports_email_first() {
    let config = config_with("", "", "");
    assert_eq!(config.validate(), Err(ConfigError::MissingEmail));
}
