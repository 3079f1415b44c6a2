//! The settings that a client hands over when it connects.

use vstd::prelude::*;

verus! {

/// How much is logged, from nothing to everything.
#[derive(Clone, Copy, Debug, PartialEq, Eq, Structural)]
pub enum LevelFilter {
    Off,
    Error,
    Warn,
    Info,
    Debug,
    Trace,
}

impl LevelFilter {
    /// The place of a level in the order from `Off` to `Trace`.
    pub open spec fn rank(self) -> int {
        match self {
            LevelFilter::Off => 0,
            LevelFilter::Error => 1,
            LevelFilter::Warn => 2,
            LevelFilter::Info => 3,
            LevelFilter::Debug => 4,
            LevelFilter::Trace => 5,
        }
    }

    /// The place of a level in the order from `Off` to `Trace`.
    pub fn order(self) -> (r: u8)
        ensures
            r == self.rank(),
    {
        match self {
            LevelFilter::Off => 0,
            LevelFilter::Error => 1,
            LevelFilter::Warn => 2,
            LevelFilter::Info => 3,
            LevelFilter::Debug => 4,
            LevelFilter::Trace => 5,
        }
    }

    /// Whether a message of level `level` passes this filter: the filter
    /// reaches at least as far, and the message has a level at all.
    pub fn allows(self, level: LevelFilter) -> (r: bool)
        ensures
            r == (0 < level.rank() <= self.rank()),
    {
        0 < level.order() && level.order() <= self.order()
    }
}

/// The settings for logging.
#[derive(Clone, Debug, PartialEq, Eq)]
pub struct LoggingConfig {
    pub level: LevelFilter,
}

impl Default for LoggingConfig {
    /// Nothing is logged.
    fn default() -> (r: LoggingConfig)
        ensures
            r.level == LevelFilter::Off,
    {
        LoggingConfig { level: LevelFilter::Off }
    }
}

impl LoggingConfig {
    /// Whether anything is logged.
    pub fn enabled(&self) -> (r: bool)
        ensures
            r == (self.level != LevelFilter::Off),
    {
        self.level != LevelFilter::Off
    }
}

/// The editor that is connected: one of the two that are known by name, or
/// any other.
#[derive(Clone, Copy, Debug, PartialEq, Eq, Structural)]
#[allow(clippy::upper_case_acronyms)]
pub enum LSPClient {
    VSCode,
    MakepadStudio,
    Other,
}

impl Default for LSPClient {
    /// An editor that is not known by name.
    fn default() -> (r: LSPClient)
        ensures
            r == LSPClient::Other,
    {
        LSPClient::Other
    }
}

/// The settings of a connection.
#[derive(Clone, Debug, PartialEq, Eq)]
pub struct Config {
    pub client: LSPClient,
    pub logging: LoggingConfig,
}

impl Default for Config {
    /// An editor that is not known by name, and nothing logged.
    fn default() -> (r: Config)
        ensures
            r.client == LSPClient::Other,
            r.logging.level == LevelFilter::Off,
    {
        Config { client: LSPClient::Other, logging: LoggingConfig { level: LevelFilter::Off } }
    }
}

} // verus!
