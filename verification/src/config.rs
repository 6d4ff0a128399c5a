//! The configuration of the addon manager.

use crate::text::{append_chars, from_chars, to_chars};
use vstd::prelude::*;

verus! {

/// The name of the environment variable that holds the key of the catalog.
pub const API_KEY_VARIABLE: &'static str = "CURSEFORGE_API_KEY";

/// Where the game is installed.
pub const DEFAULT_WOW_PATH: &'static str = "/Applications/World of Warcraft";

/// Where the addons lie below the installation directory.
pub const DEFAULT_PATH_SUFFIX: &'static str = "/_retail_/Interface/AddOns";

/// The configuration: the key of the catalog, and where the game and its
/// addons lie.
#[derive(Debug)]
pub struct CurseForgeConfig {
    pub api_key: String,
    pub wow_path: String,
    pub path_suffix: String,
}

/// Why there is no configuration.
#[derive(Debug, Clone, Copy, PartialEq, Eq, Structural)]
pub enum ConfigError {
    /// The environment holds no key for the catalog.
    MissingApiKey,
}

impl ConfigError {
    /// What the fault says to the user: the variable that must be set.
    pub fn message(&self) -> (text: String)
        ensures
            text@ == API_KEY_VARIABLE@ + " must be set in the environment"@,
    {
        let mut out = to_chars(API_KEY_VARIABLE);
        append_chars(&mut out, &to_chars(" must be set in the environment"));
        from_chars(&out)
    }
}

impl CurseForgeConfig {
    /// The configuration with the key `api_key` and the default paths.
    pub fn new(api_key: String) -> (config: Self)
        ensures
            config.api_key == api_key,
            config.wow_path@ == DEFAULT_WOW_PATH@,
            config.path_suffix@ == DEFAULT_PATH_SUFFIX@,
    {
        CurseForgeConfig {
            api_key,
            wow_path: DEFAULT_WOW_PATH.to_owned(),
            path_suffix: DEFAULT_PATH_SUFFIX.to_owned(),
        }
    }

    /// The configuration for what the environment holds under
    /// [`API_KEY_VARIABLE`]: the key is required.
    pub fn from_variable(value: Option<String>) -> (r: Result<Self, ConfigError>)
        ensures
            match r {
                Ok(config) => {
                    &&& value == Some(config.api_key)
                    &&& config.wow_path@ == DEFAULT_WOW_PATH@
                    &&& config.path_suffix@ == DEFAULT_PATH_SUFFIX@
                },
                Err(fault) => value is None && fault == ConfigError::MissingApiKey,
            },
    {
        match value {
            Some(api_key) => Ok(Self::new(api_key)),
            None => Err(ConfigError::MissingApiKey),
        }
    }

    /// The directory of the addons: the suffix behind the installation directory.
    pub fn addons_path(&self) -> (path: String)
        ensures
            path@ == self.wow_path@ + self.path_suffix@,
    {
        let mut path = to_chars(self.wow_path.as_str());
        let suffix = to_chars(self.path_suffix.as_str());
        append_chars(&mut path, &suffix);
        from_chars(&path)
    }
}

} // verus!
