//! Errors of the scene-configuration loader.

use vstd::prelude::*;

verus! {

/// What can go wrong while loading a scene configuration.
#[derive(Debug)]
pub enum ConfigError {
    /// The configuration could not be read at all.
    ConfigLoadError(Option<String>),
    /// The configuration text does not parse.
    ConfigJsonError(String),
    /// Anything else, with its message.
    MiscError(String),
}

impl ConfigError {
    /// A short description of the error kind, as a message for the caller.
    pub fn description(&self) -> (r: String)
        ensures
            self is ConfigLoadError ==> r@ == "ConfigLoadError"@,
            self is ConfigJsonError ==> r@ == "Json Parse Error"@,
            self matches ConfigError::MiscError(s) ==> r@ == s@,
    {
        match self {
            ConfigError::ConfigLoadError(_) => String::from_str("ConfigLoadError"),
            ConfigError::ConfigJsonError(_) => String::from_str("Json Parse Error"),
            ConfigError::MiscError(s) => s.clone(),
        }
    }
}

} // verus!
