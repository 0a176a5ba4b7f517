//! The settings of the server, as the command line gives them.

use vstd::prelude::*;

verus! {

/// Why the settings are no good.
#[derive(Debug)]
pub struct ConfigError(pub String);

/// The settings of the server.
#[derive(Debug)]
pub struct Config {
    /// Whether to print debugging messages.
    pub verbose: bool,
    /// The directory that the server reads and writes files in.
    pub dir: String,
    /// The port that the server listens at.
    pub port: u32,
}

impl Config {
    /// The settings, if the directory they name is there; `dir_exists` says
    /// whether it is.
    pub fn verify(self, dir_exists: bool) -> (r: Result<Config, ConfigError>)
        ensures
            match r {
                Ok(c) => dir_exists && c == self,
                Err(e) => !dir_exists && e.0@ == "ConfigError"@,
            },
    {
        if !dir_exists {
            Err(ConfigError(String::from_str("ConfigError")))
        } else {
            Ok(self)
        }
    }
}

} // verus!
