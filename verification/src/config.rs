//! The configuration surface the pipeline consumes.
//!
//! Argument parsing and the JSON configuration file live outside the
//! library; they hand over plain values in these structures.

use vstd::prelude::*;

verus! {

/// Logging verbosity, from quietest to loudest.
#[derive(Debug, Clone, Copy, PartialEq, Eq, Structural)]
pub enum LogLevel {
    Error,
    Info,
    Debug,
    Trace,
}

/// The command-line options every program of the suite shares.
#[derive(Debug, Clone)]
pub struct OptsCommon {
    pub verbose: bool,
    pub debug: bool,
    pub trace: bool,
    pub config_file: String,
    pub read_history: bool,
    pub meta_backlog: bool,
}

impl OptsCommon {
    /// The log level the flags ask for: the loudest one set wins, and
    /// without any the level is `Error`.
    pub fn get_loglevel(&self) -> (r: LogLevel)
        ensures
            r == if self.trace {
                LogLevel::Trace
            } else if self.debug {
                LogLevel::Debug
            } else if self.verbose {
                LogLevel::Info
            } else {
                LogLevel::Error
            },
    {
        if self.trace {
            LogLevel::Trace
        } else if self.debug {
            LogLevel::Debug
        } else if self.verbose {
            LogLevel::Info
        } else {
            LogLevel::Error
        }
    }
}

/// The shared configuration, as plain values: paths and patterns for the
/// harvester, the blacklist, and the collaborators' settings.
#[derive(Debug, Clone)]
pub struct ConfigCommon {
    pub irc_log_dir: String,
    pub db_url: String,
    pub template_dir: String,
    pub html_dir: String,
    pub regex_log: String,
    pub regex_nick: String,
    pub regex_url: String,
    pub search_listen: String,
    pub tpl_search_index: String,
    pub tpl_search_result_header: String,
    pub tpl_search_result_row: String,
    pub tpl_search_result_footer: String,
    pub url_blacklist: Vec<String>,
}

} // verus!
