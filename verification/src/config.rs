//! Configuration surface of the service: connection settings, per-event-kind
//! notification priorities and tag strings, and the toggle for filtering
//! self-originated changes.
//!
//! Loading this configuration from files and environment variables is I/O and
//! lives outside the library; validation and the default values are here.

use vstd::prelude::*;

verus! {

/// Complete service configuration.
#[derive(Debug)]
pub struct Config {
    pub anylist: AnyListConfig,
    pub cache: CacheConfig,
    pub ntfy: NtfyConfig,
    pub notifications: NotificationsConfig,
    pub logging: LoggingConfig,
}

/// Credentials for the remote list provider.
#[derive(Debug)]
pub struct AnyListConfig {
    pub email: String,
    pub password: String,
}

/// Where the mirror is persisted.
#[derive(Debug)]
pub struct CacheConfig {
    pub database_path: String,
}

/// Where and how notifications are delivered.
#[derive(Debug)]
pub struct NtfyConfig {
    pub base_url: String,
    pub topic: String,
    pub priorities: NtfyPriorities,
    pub tags: NtfyTags,
}

/// The delivery priority configured for each event kind.
#[derive(Debug)]
pub struct NtfyPriorities {
    pub item_added: String,
    pub item_checked: String,
    pub item_unchecked: String,
    pub item_removed: String,
    pub item_modified: String,
}

/// The comma-separated tag string configured for each event kind.
#[derive(Debug)]
pub struct NtfyTags {
    pub item_added: String,
    pub item_checked: String,
    pub item_unchecked: String,
    pub item_removed: String,
    pub item_modified: String,
}

/// Behaviour toggles for notification dispatch.
#[derive(Debug)]
pub struct NotificationsConfig {
    /// When set, events attributed to the authenticated user are dropped.
    pub filter_own_changes: bool,
}

/// Log verbosity.
#[derive(Debug)]
pub struct LoggingConfig {
    pub level: String,
}

/// The reason a configuration was rejected.
#[derive(Debug, PartialEq, Eq, Structural, Clone, Copy)]
pub enum ConfigError {
    /// The remote-provider email is empty.
    MissingEmail,
    /// The remote-provider password is empty.
    MissingPassword,
    /// The delivery topic is empty.
    MissingTopic,
}

impl ConfigError {
    /// A human-readable description of the rejection.
    pub fn message(&self) -> (r: String)
        ensures
            *self == ConfigError::MissingEmail ==> r@ == "AnyList email is required"@,
            *self == ConfigError::MissingPassword ==> r@ == "AnyList password is required"@,
            *self == ConfigError::MissingTopic ==> r@ == "ntfy topic is required"@,
    {
        match self {
            ConfigError::MissingEmail => "AnyList email is required".to_owned(),
            ConfigError::MissingPassword => "AnyList password is required".to_owned(),
            ConfigError::MissingTopic => "ntfy topic is required".to_owned(),
        }
    }
}

/// The priority used for most event kinds unless configured otherwise.
pub fn default_priority() -> (r: String)
    ensures
        r@ == "default"@,
{
    "default".to_owned()
}

/// The quieter priority used for checked-off items unless configured.
pub fn low_priority() -> (r: String)
    ensures
        r@ == "low"@,
{
    "low".to_owned()
}

/// Default tags for added items.
pub fn default_added_tags() -> (r: String)
    ensures
        r@ == "heavy_plus_sign,shopping_cart"@,
{
    "heavy_plus_sign,shopping_cart".to_owned()
}

/// Default tags for checked-off items.
pub fn default_checked_tags() -> (r: String)
    ensures
        r@ == "white_check_mark"@,
{
    "white_check_mark".to_owned()
}

/// Default tags for unchecked items.
pub fn default_unchecked_tags() -> (r: String)
    ensures
        r@ == "arrow_backward"@,
{
    "arrow_backward".to_owned()
}

/// Default tags for removed items.
pub fn default_removed_tags() -> (r: String)
    ensures
        r@ == "x,shopping_cart"@,
{
    "x,shopping_cart".to_owned()
}

/// Default tags for modified items.
pub fn default_modified_tags() -> (r: String)
    ensures
        r@ == "pencil2"@,
{
    "pencil2".to_owned()
}

/// Default log level.
pub fn default_log_level() -> (r: String)
    ensures
        r@ == "info"@,
{
    "info".to_owned()
}

impl Default for NtfyPriorities {
    /// The priorities used when none are configured.
    fn default() -> (r: Self)
        ensures
            r.item_added@ == "default"@,
            r.item_checked@ == "low"@,
            r.item_unchecked@ == "default"@,
            r.item_removed@ == "default"@,
            r.item_modified@ == "default"@,
    {
        Self {
            item_added: default_priority(),
            item_checked: low_priority(),
            item_unchecked: default_priority(),
            item_removed: default_priority(),
            item_modified: default_priority(),
        }
    }
}

impl Default for NtfyTags {
    /// The tag strings used when none are configured.
    fn default() -> (r: Self)
        ensures
            r.item_added@ == "heavy_plus_sign,shopping_cart"@,
            r.item_checked@ == "white_check_mark"@,
            r.item_unchecked@ == "arrow_backward"@,
            r.item_removed@ == "x,shopping_cart"@,
            r.item_modified@ == "pencil2"@,
    {
        Self {
            item_added: default_added_tags(),
            item_checked: default_checked_tags(),
            item_unchecked: default_unchecked_tags(),
            item_removed: default_removed_tags(),
            item_modified: default_modified_tags(),
        }
    }
}

impl Config {
    /// Whether the required fields are present; the first missing one, in
    /// the order email, password, topic, is reported.
    pub fn validate(&self) -> (r: Result<(), ConfigError>)
        ensures
            r is Ok <==> {
                &&& self.anylist.email@.len() > 0
                &&& self.anylist.password@.len() > 0
                &&& self.ntfy.topic@.len() > 0
            },
            self.anylist.email@.len() == 0 ==> r == Err::<(), ConfigError>(
                ConfigError::MissingEmail,
            ),
            self.anylist.email@.len() > 0 && self.anylist.password@.len() == 0 ==> r == Err::<
                (),
                ConfigError,
            >(ConfigError::MissingPassword),
            self.anylist.email@.len() > 0 && self.anylist.password@.len() > 0
                && self.ntfy.topic@.len() == 0 ==> r == Err::<(), ConfigError>(
                ConfigError::MissingTopic,
            ),
    {
        if self.anylist.email.as_str().is_empty() {
            return Err(ConfigError::MissingEmail);
        }
        if self.anylist.password.as_str().is_empty() {
            return Err(ConfigError::MissingPassword);
        }
        if self.ntfy.topic.as_str().is_empty() {
            return Err(ConfigError::MissingTopic);
        }
        Ok(())
    }
}

impl Clone for AnyListConfig {
    fn clone(&self) -> (r: Self)
        ensures
            r == *self,
    {
        Self { email: self.email.clone(), password: self.password.clone() }
    }
}

impl Clone for CacheConfig {
    fn clone(&self) -> (r: Self)
        ensures
            r == *self,
    {
        Self { database_path: self.database_path.clone() }
    }
}

impl Clone for NtfyPriorities {
    fn clone(&self) -> (r: Self)
        ensures
            r == *self,
    {
        Self {
            item_added: self.item_added.clone(),
            item_checked: self.item_checked.clone(),
            item_unchecked: self.item_unchecked.clone(),
            item_removed: self.item_removed.clone(),
            item_modified: self.item_modified.clone(),
        }
    }
}

impl Clone for NtfyTags {
    fn clone(&self) -> (r: Self)
        ensures
            r == *self,
    {
        Self {
            item_added: self.item_added.clone(),
            item_checked: self.item_checked.clone(),
            item_unchecked: self.item_unchecked.clone(),
            item_removed: self.item_removed.clone(),
            item_modified: self.item_modified.clone(),
        }
    }
}

impl Clone for NtfyConfig {
    fn clone(&self) -> (r: Self)
        ensures
            r == *self,
    {
        Self {
            base_url: self.base_url.clone(),
            topic: self.topic.clone(),
            priorities: self.priorities.clone(),
            tags: self.tags.clone(),
        }
    }
}

impl Clone for NotificationsConfig {
    fn clone(&self) -> (r: Self)
        ensures
            r == *self,
    {
        Self { filter_own_changes: self.filter_own_changes }
    }
}

impl Clone for LoggingConfig {
    fn clone(&self) -> (r: Self)
        ensures
            r == *self,
    {
        Self { level: self.level.clone() }
    }
}

impl Clone for Config {
    fn clone(&self) -> (r: Self)
        ensures
            r == *self,
    {
        Self {
            anylist: self.anylist.clone(),
            cache: self.cache.clone(),
            ntfy: self.ntfy.clone(),
            notifications: self.notifications.clone(),
            logging: self.logging.clone(),
        }
    }
}

} // verus!
