//! The configuration: its values, their defaults, how the raw values are read, and which
//! Discord channel each kind of message goes to.
use vstd::prelude::*;

use crate::text::{chars_of, parse_unsigned, parse_unsigned_spec, string_of, trim_chars, trim_spec};

verus! {

/// The configuration of the monitor. Channel ids are Discord snowflakes.
pub struct Config {
    pub discord_token: String,
    pub discord_channel_id: Option<u64>,
    pub discord_user_notification_channel_id: Option<u64>,
    pub discord_mac_inquiry_channel_id: Option<u64>,
    pub discord_channel_capacity: usize,
    pub associations_file: String,
    pub scan_interval_secs: u16,
    pub persistence_interval_secs: u16,
}

/// Why a configuration value was refused.
#[derive(Debug, Clone, Copy, PartialEq, Eq, Structural)]
pub enum ConfigError {
    /// A value that must not be empty is empty (or only white space).
    EmptyValue,
    /// A channel id is not a valid `u64`.
    InvalidChannelId,
    /// Some kind of message has no Discord channel: neither the common channel nor both of
    /// the dedicated channels are configured.
    NoChannelConfigured,
}

/// The channel for user arrival and departure notices: the dedicated one, else the common one.
pub open spec fn user_notification_channel_spec(c: Config) -> Option<u64> {
    match c.discord_user_notification_channel_id {
        Some(id) => Some(id),
        None => c.discord_channel_id,
    }
}

/// The channel for questions about unknown devices: the dedicated one, else the common one.
pub open spec fn mac_inquiry_channel_spec(c: Config) -> Option<u64> {
    match c.discord_mac_inquiry_channel_id {
        Some(id) => Some(id),
        None => c.discord_channel_id,
    }
}

impl Config {
    /// Accepts a configuration in which every kind of message has a channel: the common
    /// channel is set, or both the notification channel and the inquiry channel are.
    pub fn validate(&self) -> (r: Result<(), ConfigError>)
        ensures
            r is Ok <==> (self.discord_channel_id is Some || (
            self.discord_user_notification_channel_id is Some
                && self.discord_mac_inquiry_channel_id is Some)),
            r is Err ==> r == Err::<(), ConfigError>(ConfigError::NoChannelConfigured),
    {
        if self.discord_channel_id.is_none() && (self.discord_user_notification_channel_id.is_none()
            || self.discord_mac_inquiry_channel_id.is_none()) {
            return Err(ConfigError::NoChannelConfigured);
        }
        Ok(())
    }

    /// The channel id for user entry/exit notifications.
    pub fn get_user_notification_channel_id(&self) -> (r: u64)
        requires
            user_notification_channel_spec(*self) is Some,
        ensures
            Some(r) == user_notification_channel_spec(*self),
    {
        match self.discord_user_notification_channel_id {
            Some(id) => id,
            None => self.discord_channel_id.unwrap(),
        }
    }

    /// The channel id for MAC address inquiry messages.
    pub fn get_mac_inquiry_channel_id(&self) -> (r: u64)
        requires
            mac_inquiry_channel_spec(*self) is Some,
        ensures
            Some(r) == mac_inquiry_channel_spec(*self),
    {
        match self.discord_mac_inquiry_channel_id {
            Some(id) => id,
            None => self.discord_channel_id.unwrap(),
        }
    }
}

/// A configuration that `validate` accepts has a channel for each kind of message, so both
/// channel getters can be called.
pub proof fn lemma_valid_config_has_both_channels(c: Config)
    requires
        c.discord_channel_id is Some || (c.discord_user_notification_channel_id is Some
            && c.discord_mac_inquiry_channel_id is Some),
    ensures
        user_notification_channel_spec(c) is Some,
        mac_inquiry_channel_spec(c) is Some,
{
}

/// Each kind of notice goes to its dedicated channel when that one is set, whatever the
/// other settings are, and to the shared channel otherwise.
pub proof fn lemma_dedicated_channel_first(c: Config)
    ensures
        c.discord_user_notification_channel_id is Some ==> user_notification_channel_spec(c)
            == c.discord_user_notification_channel_id,
        c.discord_user_notification_channel_id is None ==> user_notification_channel_spec(c)
            == c.discord_channel_id,
        c.discord_mac_inquiry_channel_id is Some ==> mac_inquiry_channel_spec(c)
            == c.discord_mac_inquiry_channel_id,
        c.discord_mac_inquiry_channel_id is None ==> mac_inquiry_channel_spec(c)
            == c.discord_channel_id,
{
}

/// The associations file when none is configured.
pub fn default_associations_file() -> (r: String)
    ensures
        r@ == "associations.json"@,
{
    "associations.json".to_owned()
}

/// The capacity of the queue of Discord requests when none is configured.
pub fn default_discord_channel_capacity() -> (r: usize)
    ensures
        r == 100,
{
    100
}

/// The time between network scans, in seconds, when none is configured.
pub fn default_scan_interval_secs() -> (r: u16)
    ensures
        r == 600,
{
    600
}

/// The time between persistence runs, in seconds, when none is configured.
pub fn default_persistence_interval_secs() -> (r: u16)
    ensures
        r == 60,
{
    60
}

/// A value that must not be empty: the value without surrounding white space, refused when
/// nothing is left.
pub fn trimmed_nonempty(value: &str) -> (r: Result<String, ConfigError>)
    ensures
        match r {
            Ok(s) => s@ == trim_spec(value@) && s@.len() > 0,
            Err(e) => e == ConfigError::EmptyValue && trim_spec(value@).len() == 0,
        },
{
    let chars = chars_of(value);
    let trimmed = trim_chars(&chars);
    if trimmed.len() == 0 {
        return Err(ConfigError::EmptyValue);
    }
    Ok(string_of(&trimmed))
}

/// An optional channel id: absent, or only white space, is no channel; otherwise the value
/// (as it is, not trimmed) must read as a decimal `u64`, as `str::parse::<u64>` reads it.
pub fn optional_channel_id(value: Option<&str>) -> (r: Result<Option<u64>, ConfigError>)
    ensures
        match value {
            Some(s) => if trim_spec(s@).len() > 0 {
                match parse_unsigned_spec(s@, 10, u64::MAX as nat) {
                    Some(v) => r == Ok::<Option<u64>, ConfigError>(Some(v as u64)),
                    None => r == Err::<Option<u64>, ConfigError>(ConfigError::InvalidChannelId),
                }
            } else {
                r == Ok::<Option<u64>, ConfigError>(None)
            },
            None => r == Ok::<Option<u64>, ConfigError>(None),
        },
{
    match value {
        Some(s) => {
            let chars = chars_of(s);
            let trimmed = trim_chars(&chars);
            if trimmed.len() == 0 {
                return Ok(None);
            }
            match parse_unsigned(&chars, 10, u64::MAX) {
                Some(v) => Ok(Some(v)),
                None => Err(ConfigError::InvalidChannelId),
            }
        },
        None => Ok(None),
    }
}

} // verus!
