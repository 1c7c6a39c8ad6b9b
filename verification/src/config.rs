//! The configuration record and the rules that hold of it at startup.
use crate::text::{matches_at, to_chars};
use vstd::prelude::*;
use vstd::string::*;

verus! {

/// The configuration of the service, as it was read.
#[derive(Debug)]
pub struct SiriusConfig {
    /// The base directory of the supervised executable; empty for none.
    pub bds_directory: String,
    /// The authentication token; empty switches authentication off.
    pub server_token: String,
    /// Whether paths are held inside the sandbox root.
    pub safe_path: bool,
    pub server_host: String,
    pub server_port: u16,
    /// The name of the log level.
    pub log_level: String,
}

/// Why a configuration was refused.
#[derive(Debug)]
pub enum ConfigError {
    /// The log level is none of the known names; it is handed back.
    InvalidLogLevel(String),
}

/// How much is logged.
#[derive(Clone, Copy, Debug, PartialEq, Eq, Structural)]
pub enum LogLevel {
    Fatal,
    Error,
    Warn,
    Info,
    Record,
    Debug,
    Trace,
    Silent,
}

/// The name by which a configuration selects `level`.
pub open spec fn level_name(level: LogLevel) -> Seq<char> {
    match level {
        LogLevel::Fatal => "fatal"@,
        LogLevel::Error => "error"@,
        LogLevel::Warn => "warn"@,
        LogLevel::Info => "info"@,
        LogLevel::Record => "record"@,
        LogLevel::Debug => "debug"@,
        LogLevel::Trace => "trace"@,
        LogLevel::Silent => "silent"@,
    }
}

/// The log level that `name` selects: none where it is no level's name.
pub open spec fn parse_spec(name: Seq<char>) -> Option<LogLevel> {
    if name == "fatal"@ {
        Some(LogLevel::Fatal)
    } else if name == "error"@ {
        Some(LogLevel::Error)
    } else if name == "warn"@ {
        Some(LogLevel::Warn)
    } else if name == "info"@ {
        Some(LogLevel::Info)
    } else if name == "record"@ {
        Some(LogLevel::Record)
    } else if name == "debug"@ {
        Some(LogLevel::Debug)
    } else if name == "trace"@ {
        Some(LogLevel::Trace)
    } else if name == "silent"@ {
        Some(LogLevel::Silent)
    } else {
        None
    }
}

/// The names of the log levels, as the message of a refusal lists them.
pub open spec fn level_names() -> Seq<char> {
    "fatal, error, warn, info, record, debug, trace, silent"@
}

/// `name` is the name of a log level.
pub open spec fn is_log_level(name: Seq<char>) -> bool {
    ||| name == "fatal"@
    ||| name == "error"@
    ||| name == "warn"@
    ||| name == "info"@
    ||| name == "record"@
    ||| name == "debug"@
    ||| name == "trace"@
    ||| name == "silent"@
}

/// The base directory in effect: in development mode the one from the
/// environment wins where there is one.
pub open spec fn effective_directory(
    configured: Seq<char>,
    dev_mode: bool,
    from_env: Option<Seq<char>>,
) -> Seq<char> {
    match from_env {
        Some(directory) if dev_mode => directory,
        _ => configured,
    }
}

/// The message of a refusal of the log level `level`.
pub open spec fn invalid_level_message(level: Seq<char>) -> Seq<char> {
    "Invalid log level: "@ + level + ". Expected one of: "@ + level_names()
}

/// Whether two texts hold the same characters.
fn same_text(a: &str, b: &str) -> (same: bool)
    ensures
        same == (a@ == b@),
{
    let x = to_chars(a);
    let y = to_chars(b);
    if x.len() != y.len() {
        return false;
    }
    assert(x@.subrange(0, y@.len() as int) =~= x@);
    matches_at(x.as_slice(), y.as_slice(), 0)
}

/// The log level that `name` selects.
pub fn parse_log_level(name: &str) -> (level: Option<LogLevel>)
    ensures
        level == parse_spec(name@),
{
    if same_text(name, "fatal") {
        Some(LogLevel::Fatal)
    } else if same_text(name, "error") {
        Some(LogLevel::Error)
    } else if same_text(name, "warn") {
        Some(LogLevel::Warn)
    } else if same_text(name, "info") {
        Some(LogLevel::Info)
    } else if same_text(name, "record") {
        Some(LogLevel::Record)
    } else if same_text(name, "debug") {
        Some(LogLevel::Debug)
    } else if same_text(name, "trace") {
        Some(LogLevel::Trace)
    } else if same_text(name, "silent") {
        Some(LogLevel::Silent)
    } else {
        None
    }
}

/// Whether `name` is the name of a log level.
pub fn valid_log_level(name: &str) -> (valid: bool)
    ensures
        valid == is_log_level(name@),
{
    parse_log_level(name).is_some()
}

/// Every level is selected by its own name and by no other text.
pub proof fn law_parse_inverts_name(level: LogLevel, name: Seq<char>)
    ensures
        parse_spec(level_name(level)) == Some(level),
        parse_spec(name) == Some(level) <==> name == level_name(level),
        parse_spec(name) is Some <==> is_log_level(name),
{
    reveal_strlit("fatal");
    reveal_strlit("error");
    reveal_strlit("warn");
    reveal_strlit("info");
    reveal_strlit("record");
    reveal_strlit("debug");
    reveal_strlit("trace");
    reveal_strlit("silent");
    assert("fatal"@[0] != "error"@[0]);
    assert("error"@[0] != "debug"@[0]);
    assert("error"@[0] != "trace"@[0]);
    assert("fatal"@[0] != "debug"@[0]);
    assert("fatal"@[0] != "trace"@[0]);
    assert("debug"@[0] != "trace"@[0]);
    assert("warn"@[0] != "info"@[0]);
    assert("record"@[0] != "silent"@[0]);
}

impl ConfigError {
    /// The refusal in words.
    pub fn message(&self) -> (text: String)
        ensures
            match *self {
                ConfigError::InvalidLogLevel(level) => text@ == invalid_level_message(level@),
            },
    {
        match self {
            ConfigError::InvalidLogLevel(level) => {
                String::from_str("Invalid log level: ").concat(level.as_str()).concat(
                    ". Expected one of: ",
                ).concat("fatal, error, warn, info, record, debug, trace, silent")
            },
        }
    }
}

impl SiriusConfig {
    /// Whether a child process is to be supervised: a base directory is set.
    pub fn supervision_wanted(&self) -> (wanted: bool)
        ensures
            wanted == (self.bds_directory@.len() > 0),
    {
        !self.bds_directory.as_str().is_empty()
    }

    /// Whether requests are authenticated: a token is set.
    pub fn authentication_enabled(&self) -> (enabled: bool)
        ensures
            enabled == (self.server_token@.len() > 0),
    {
        !self.server_token.as_str().is_empty()
    }
}

/// Settles the configuration that was read.
///
/// In development mode a base directory from the environment replaces the
/// configured one. The configuration is accepted where its log level is one
/// of the known names, and refused with that level otherwise; nothing else
/// of it is changed.
pub fn get_config(loaded: SiriusConfig, dev_mode: bool, from_env: Option<String>) -> (r: Result<
    SiriusConfig,
    ConfigError,
>)
    ensures
        r is Ok <==> is_log_level(loaded.log_level@),
        r matches Ok(config) ==> {
            &&& config.bds_directory@ == effective_directory(
                loaded.bds_directory@,
                dev_mode,
                match from_env {
                    Some(directory) => Some(directory@),
                    None => None,
                },
            )
            &&& config.server_token == loaded.server_token
            &&& config.safe_path == loaded.safe_path
            &&& config.server_host == loaded.server_host
            &&& config.server_port == loaded.server_port
            &&& config.log_level == loaded.log_level
        },
        r matches Err(ConfigError::InvalidLogLevel(level)) ==> level == loaded.log_level,
{
    let mut config = loaded;
    if dev_mode {
        match from_env {
            Some(directory) => {
                config.bds_directory = directory;
            },
            None => {},
        }
    }
    if valid_log_level(config.log_level.as_str()) {
        Ok(config)
    } else {
        Err(ConfigError::InvalidLogLevel(config.log_level))
    }
}

} // verus!
