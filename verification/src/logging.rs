//! How much is logged, and where to.
use vstd::prelude::*;
use vstd::string::*;

use crate::naming;
use crate::path::{self, FilePath};
use crate::text;
use crate::utf8::{self, shown_text};

verus! {

/// The least severe messages that are logged.
#[derive(Clone, Copy, Debug, PartialEq, Eq, Structural)]
pub enum LogLevel {
    Off,
    Error,
    Warn,
    Info,
    Debug,
    Trace,
}

/// The level that a name stands for, in upper or lower case.
pub open spec fn level_named(name: Seq<char>) -> Option<LogLevel> {
    let lower = text::ascii_lower(name);
    if lower == "off"@ {
        Some(LogLevel::Off)
    } else if lower == "error"@ {
        Some(LogLevel::Error)
    } else if lower == "warn"@ {
        Some(LogLevel::Warn)
    } else if lower == "info"@ {
        Some(LogLevel::Info)
    } else if lower == "debug"@ {
        Some(LogLevel::Debug)
    } else if lower == "trace"@ {
        Some(LogLevel::Trace)
    } else {
        None
    }
}

/// `log::LevelFilter::from_str` finds the level whose name is the text, whatever the case
/// of its ASCII letters, and fails where there is none.
#[verifier::external_body]
fn parse_level(name: &str) -> (r: Option<LogLevel>)
    ensures
        r == level_named(name@),
{
    match name.parse::<log::LevelFilter>() {
        Ok(log::LevelFilter::Off) => Some(LogLevel::Off),
        Ok(log::LevelFilter::Error) => Some(LogLevel::Error),
        Ok(log::LevelFilter::Warn) => Some(LogLevel::Warn),
        Ok(log::LevelFilter::Info) => Some(LogLevel::Info),
        Ok(log::LevelFilter::Debug) => Some(LogLevel::Debug),
        Ok(log::LevelFilter::Trace) => Some(LogLevel::Trace),
        Err(_) => None,
    }
}

/// Text in double quotes and with escapes, as `str`'s `Debug` writes it.
pub uninterp spec fn quoted(text: Seq<char>) -> Seq<char>;

/// `str`'s `Debug` writes the text in double quotes and escapes what needs it. Which
/// characters do is not said here, only that the result is a function of the text.
#[verifier::external_body]
fn quoted_text(text: &str) -> (r: String)
    ensures
        r@ == quoted(text@),
{
    format!("{:?}", text)
}

/// Why logging could not be set up.
#[derive(Debug)]
pub enum LogError {
    /// There is no such level.
    Level(String),
    /// The directory of the log file cannot be created.
    Dir(FilePath),
    /// The log file cannot be opened.
    File(FilePath),
    /// There is a logger already.
    Logger,
}

impl LogError {
    pub open spec fn text(self) -> Seq<char> {
        match self {
            LogError::Level(name) => "invalid log level "@ + quoted(name@),
            LogError::Dir(p) => "creating log dir "@ + utf8::shown(p@),
            LogError::File(p) => "opening log file "@ + utf8::shown(p@),
            LogError::Logger => "initialising logger"@,
        }
    }

    pub fn message(&self) -> (r: String)
        ensures
            r@ == self.text(),
    {
        match self {
            LogError::Level(name) => {
                let mut s: String = "invalid log level ".to_owned();
                s.append(quoted_text(name.as_str()).as_str());
                s
            },
            LogError::Dir(p) => {
                let mut s: String = "creating log dir ".to_owned();
                s.append(shown_text(p.bytes.as_slice()).as_str());
                s
            },
            LogError::File(p) => {
                let mut s: String = "opening log file ".to_owned();
                s.append(shown_text(p.bytes.as_slice()).as_str());
                s
            },
            LogError::Logger => "initialising logger".to_owned(),
        }
    }
}

/// What has to be set up: messages go to the terminal and, after `dir` was created,
/// to the end of `file` too.
#[derive(Debug)]
pub struct LogPlan {
    pub level: LogLevel,
    pub dir: Option<FilePath>,
    pub file: Option<FilePath>,
}

/// What has to be set up to log at the level `level`, to `file` too if there is one.
pub fn init(level: &str, file: Option<FilePath>) -> (r: Result<LogPlan, LogError>)
    ensures
        match level_named(level@) {
            None => r matches Err(LogError::Level(name)) && name@ == level@,
            Some(l) => {
                &&& r matches Ok(plan)
                &&& plan.level == l
                &&& plan.file == file
                &&& naming::view_of(plan.dir) == (match file {
                    Some(f) => path::parent(f@),
                    None => None,
                })
            },
        },
{
    match parse_level(level) {
        None => Err(LogError::Level(level.to_owned())),
        Some(l) => {
            let dir: Option<FilePath> = match &file {
                Some(f) => f.parent(),
                None => None,
            };
            Ok(LogPlan { level: l, dir, file })
        },
    }
}

} // verus!
