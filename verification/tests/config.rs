use ianvs::config::{
    default_associations_file, default_discord_channel_capacity,
    default_persistence_interval_secs, default_scan_interval_secs, optional_channel_id,
    trimmed_nonempty, Config, ConfigError,
};

fn config(common: Option<u64>, users: Option<u64>, inquiry: Option<u64>) -> Config {
    Config {
        discord_token: "token".to_string(),
        discord_channel_id: common,
        discord_user_notification_channel_id: users,
        discord_mac_inquiry_channel_id: inquiry,
        discord_channel_capacity: default_discord_channel_capacity(),
        associations_file: default_associations_file(),
        scan_interval_secs: default_scan_interval_secs(),
        persistence_interval_secs: default_persistence_interval_secs(),
    }
}

#[test]
fn defaults() {
    assert_eq!(default_associations_file(), "associations.json");
    assert_eq!(default_discord_channel_capacity(), 100);
    assert_eq!(default_scan_interval_secs(), 600);
    assert_eq!(default_persistence_interval_secs(), 60);
}

#[test]
fn validation_needs_a_channel_for_each_kind_of_message() {
    assert_eq!(config(None, None, None).validate(), Err(ConfigError::NoChannelConfigured));
    assert_eq!(config(Some(1), None, None).validate(), Ok(()));
    assert_eq!(config(None, Some(2), None).validate(), Err(ConfigError::NoChannelConfigured));
    assert_eq!(config(None, None, Some(3)).validate(), Err(ConfigError::NoChannelConfigured));
    assert_eq!(config(None, Some(2), Some(3)).validate(), Ok(()));
    assert_eq!(config(Some(1), Some(2), None).validate(), Ok(()));
}

#[test]
fn dedicated_channels_take_precedence() {
    let c = config(Some(1), Some(2), Some(3));
    assert_eq!(c.get_user_notification_channel_id(), 2);
    assert_eq!(c.get_mac_inquiry_channel_id(), 3);
    let c = config(Some(1), None, None);
    assert_eq!(c.get_user_notification_channel_id(), 1);
    assert_eq!(c.get_mac_inquiry_channel_id(), 1);
}

#[test]
fn token_is_trimmed_and_must_not_be_empty() {
    assert_eq!(trimmed_nonempty("  abc \n"), Ok("abc".to_string()));
    assert_eq!(trimmed_nonempty("a b"), Ok("a b".to_string()));
    assert_eq!(trimmed_nonempty(" \t\u{3000} "), Err(ConfigError::EmptyValue));
    assert_eq!(trimmed_nonempty(""), Err(ConfigError::EmptyValue));
}

#[test]
fn channel_ids() {
    assert_eq!(optional_channel_id(None), Ok(None));
    assert_eq!(optional_channel_id(Some("   ")), Ok(None));
    assert_eq!(optional_channel_id(Some("")), Ok(None));
    assert_eq!(optional_channel_id(Some("123456789012345678")), Ok(Some(123456789012345678)));
    assert_eq!(optional_channel_id(Some("+42")), Ok(Some(42)));
    assert_eq!(optional_channel_id(Some("18446744073709551615")), Ok(Some(u64::MAX)));
    assert_eq!(optional_channel_id(Some("18446744073709551616")), Err(ConfigError::InvalidChannelId));
    assert_eq!(optional_channel_id(Some(" 42")), Err(ConfigError::InvalidChannelId));
    assert_eq!(optional_channel_id(Some("4x2")), Err(ConfigError::InvalidChannelId));
    assert_eq!(optional_channel_id(Some("-1")), Err(ConfigError::InvalidChannelId));
}
