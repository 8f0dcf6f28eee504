//! The server configuration: logging options and the TSIG key table.
//!
//! The configuration is read from a YAML file by the embedding program and
//! handed in as plain values; this module holds the resulting data and its
//! defaults.

use vstd::prelude::*;

use crate::key::Keys;

verus! {

/// The directory holding one file of key material per TSIG key.
pub const TSIG_PATH: &'static str = "/etc/dnsr/keys";

/// The configuration file read when no other path is given.
pub const BASE_CONFIG_FILE: &'static str = "/etc/dnsr/config.yml";

/// A logging level, from silence to full tracing.
#[derive(Debug, Clone, Copy, PartialEq, Eq, Structural)]
pub enum LogLevel {
    Off,
    Error,
    Warn,
    Info,
    Debug,
    Trace,
}

impl LogLevel {
    /// The level's rank: higher ranks log more.
    pub open spec fn spec_rank(self) -> int {
        match self {
            LogLevel::Off => 0,
            LogLevel::Error => 1,
            LogLevel::Warn => 2,
            LogLevel::Info => 3,
            LogLevel::Debug => 4,
            LogLevel::Trace => 5,
        }
    }

    /// The level's rank: higher ranks log more.
    pub fn rank(&self) -> (r: u8)
        ensures
            r as int == self.spec_rank(),
    {
        match self {
            LogLevel::Off => 0,
            LogLevel::Error => 1,
            LogLevel::Warn => 2,
            LogLevel::Info => 3,
            LogLevel::Debug => 4,
            LogLevel::Trace => 5,
        }
    }
}

/// The logging options of the configuration file, each one optional.
#[derive(Debug, Clone, Copy)]
pub struct LogConfig {
    pub level: Option<LogLevel>,
    pub enable_metrics: Option<bool>,
    pub enable_thread_id: Option<bool>,
    pub stderr: Option<bool>,
}

impl LogConfig {
    /// Builds the options from their raw optional values.
    pub fn new(
        level: Option<LogLevel>,
        enable_metrics: Option<bool>,
        enable_thread_id: Option<bool>,
        stderr: Option<bool>,
    ) -> (r: LogConfig)
        ensures
            r.level_opt() == level,
            r.enable_metrics_opt() == enable_metrics,
            r.enable_thread_id_opt() == enable_thread_id,
            r.stderr_opt() == stderr,
    {
        LogConfig { level, enable_metrics, enable_thread_id, stderr }
    }

    /// The raw level option, for specification purposes.
    pub open spec fn level_opt(self) -> Option<LogLevel> {
        self.level
    }

    /// The raw metrics option, for specification purposes.
    pub open spec fn enable_metrics_opt(self) -> Option<bool> {
        self.enable_metrics
    }

    /// The raw thread-id option, for specification purposes.
    pub open spec fn enable_thread_id_opt(self) -> Option<bool> {
        self.enable_thread_id
    }

    /// The raw stderr option, for specification purposes.
    pub open spec fn stderr_opt(self) -> Option<bool> {
        self.stderr
    }

    /// The configured level; `Info` when none is given.
    pub fn level(&self) -> (r: LogLevel)
        ensures
            r == match self.level_opt() {
                Some(l) => l,
                None => LogLevel::Info,
            },
    {
        match self.level {
            Some(l) => l,
            None => LogLevel::Info,
        }
    }

    /// Whether metrics are logged; on by default.
    pub fn enable_metrics(&self) -> (r: bool)
        ensures
            r == match self.enable_metrics_opt() {
                Some(b) => b,
                None => true,
            },
    {
        match self.enable_metrics {
            Some(b) => b,
            None => true,
        }
    }

    /// Whether thread names are logged; off by default.
    pub fn enable_thread_id(&self) -> (r: bool)
        ensures
            r == match self.enable_thread_id_opt() {
                Some(b) => b,
                None => false,
            },
    {
        match self.enable_thread_id {
            Some(b) => b,
            None => false,
        }
    }

    /// Whether log lines go to stderr rather than stdout; off by default.
    pub fn stderr(&self) -> (r: bool)
        ensures
            r == match self.stderr_opt() {
                Some(b) => b,
                None => false,
            },
    {
        match self.stderr {
            Some(b) => b,
            None => false,
        }
    }
}

impl Default for LogConfig {
    /// The options with nothing set: every accessor answers its default.
    fn default() -> (r: LogConfig)
        ensures
            r.level_opt() is None,
            r.enable_metrics_opt() is None,
            r.enable_thread_id_opt() is None,
            r.stderr_opt() is None,
    {
        LogConfig { level: None, enable_metrics: None, enable_thread_id: None, stderr: None }
    }
}

/// The whole configuration: optional logging options and the key table.
#[derive(Debug)]
pub struct Config {
    pub log: Option<LogConfig>,
    pub keys: Keys,
}

impl Config {
    /// Builds a configuration from its parts.
    pub fn new(log: Option<LogConfig>, keys: Keys) -> (r: Config)
        ensures
            r.log_opt() == log,
            r.keys == keys,
    {
        Config { log, keys }
    }

    /// The raw logging options, for specification purposes.
    pub open spec fn log_opt(self) -> Option<LogConfig> {
        self.log
    }

    /// The directory the TSIG key files live in.
    pub fn tsig_path(&self) -> (r: &'static str)
        ensures
            r@ == TSIG_PATH@,
    {
        TSIG_PATH
    }

    /// The logging options, defaulted when the file gave none.
    pub fn log_config(&self) -> (r: LogConfig)
        ensures
            r == match self.log_opt() {
                Some(l) => l,
                None => (LogConfig {
                    level: None,
                    enable_metrics: None,
                    enable_thread_id: None,
                    stderr: None,
                }),
            },
    {
        match self.log {
            Some(l) => l,
            None => LogConfig::default(),
        }
    }
}

} // verus!
