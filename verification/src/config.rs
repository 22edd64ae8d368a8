//! Configuration: its values, its defaults, and what makes one valid.
//!
//! A configuration file is looked for, in order, at:
//!
//!   1. the path given with `--config`
//!   2. `$VIDWATCHER_CONFIG`
//!   3. `vidwatcher/config.toml` in the user's configuration directory
//!   4. `/etc/vidwatcher/config.toml`
//!
//! The first file that exists is used. If none exists, the defaults apply.
use vstd::prelude::*;
use vstd::string::*;

use crate::path::{self, FilePath};
use crate::ratio::Ratio;
use crate::utf8::{self, shown_text};

verus! {

/// A length of time.
#[derive(Debug, Clone, Copy, PartialEq, Eq, Structural)]
pub struct Span {
    pub secs: u64,
    pub nanos: u32,
}

impl Span {
    /// The whole length in nanoseconds.
    pub open spec fn total(self) -> int {
        self.secs * 1_000_000_000 + self.nanos
    }

    pub fn is_zero(self) -> (r: bool)
        ensures
            r == (self.total() == 0),
    {
        self.secs == 0 && self.nanos == 0
    }

    pub fn shorter_than(self, other: Span) -> (r: bool)
        ensures
            r == (self.total() < other.total()),
    {
        (self.secs as u128) * 1_000_000_000 + (self.nanos as u128) < (other.secs as u128)
            * 1_000_000_000 + (other.nanos as u128)
    }
}

/// Where the result of a conversion is written.
#[derive(Debug, Clone, Copy, PartialEq, Eq, Structural)]
pub enum OutputMode {
    /// Next to the source.
    Beside,
    /// Below another directory, in the place that the source has in its own tree.
    Directory,
}

#[derive(Debug)]
pub struct EncodeConfig {
    /// Constant-quality level, 0-63 (lower = better quality, bigger files).
    pub crf: u8,
    /// Encoder speed knob: SVT-AV1 `-preset`, libaom `-cpu-used`, rav1e `-speed`.
    pub preset: i32,
    /// Opus bitrate per audio stream, kbit/s.
    pub audio_bitrate: u32,
    /// 8 (max hardware compatibility) or 10 (smaller at equal quality).
    pub bit_depth: u8,
}

#[derive(Debug)]
pub struct OutputConfig {
    pub mode: OutputMode,
    /// Target root when `mode` is `Directory`.
    pub directory: Option<FilePath>,
    /// Text inserted into the output file name before `.webm`.
    pub suffix: String,
    /// Delete the source file after a successful conversion.
    pub replace: bool,
    /// Skip files whose video stream is already AV1.
    pub skip_av1: bool,
    /// Copy the source file's modification and access times onto the output.
    pub preserve_timestamps: bool,
    /// Throw away a conversion and keep the original if the new file is bigger than
    /// the size of the original times this.
    pub max_output_ratio: Ratio,
}

#[derive(Debug)]
pub struct LogConfig {
    /// `error`, `warn`, `info`, `debug` or `trace`.
    pub level: String,
    /// Also append logs to this file.
    pub file: Option<FilePath>,
}

#[derive(Debug)]
pub struct Config {
    /// Directories to watch.
    pub watch: Vec<FilePath>,
    /// Recurse into sub-directories of each watched directory.
    pub recursive: bool,
    /// How long to wait between scans.
    pub scan_interval: Span,
    /// Ignore files modified more recently than this.
    pub min_file_age: Span,
    /// Give up on a file after this many failed conversion attempts.
    pub max_attempts: u32,
    /// Where the record of processed files lives.
    pub state_file: FilePath,
    pub encode: EncodeConfig,
    pub output: OutputConfig,
    pub log: LogConfig,
}

/// What is wrong with a configuration.
#[derive(Debug, Clone, Copy, PartialEq, Eq, Structural)]
pub enum ConfigError {
    BitDepth,
    Crf,
    MissingDirectory,
    ScanInterval,
    OutputRatio,
}

impl ConfigError {
    pub open spec fn text(self) -> Seq<char> {
        match self {
            ConfigError::BitDepth => "encode.bit-depth must be 8 or 10"@,
            ConfigError::Crf => "encode.crf must be 0-63"@,
            ConfigError::MissingDirectory =>
                "output.directory is required when output.mode = \"directory\""@,
            ConfigError::ScanInterval => "scan-interval must be greater than zero"@,
            ConfigError::OutputRatio => "output.max-output-ratio must be greater than zero"@,
        }
    }

    pub fn message(self) -> (r: &'static str)
        ensures
            r@ == self.text(),
    {
        match self {
            ConfigError::BitDepth => "encode.bit-depth must be 8 or 10",
            ConfigError::Crf => "encode.crf must be 0-63",
            ConfigError::MissingDirectory =>
                "output.directory is required when output.mode = \"directory\"",
            ConfigError::ScanInterval => "scan-interval must be greater than zero",
            ConfigError::OutputRatio => "output.max-output-ratio must be greater than zero",
        }
    }
}

/// Why no configuration could be had.
#[derive(Debug)]
pub enum LoadError {
    /// The file could not be read.
    Reading(FilePath),
    /// The file is not a configuration.
    Parsing(FilePath),
    /// The configuration is not valid.
    Invalid(ConfigError),
}

impl LoadError {
    pub open spec fn text(self) -> Seq<char> {
        match self {
            LoadError::Reading(p) => "reading config "@ + utf8::shown(p@),
            LoadError::Parsing(p) => "parsing config "@ + utf8::shown(p@),
            LoadError::Invalid(e) => e.text(),
        }
    }

    pub fn message(&self) -> (r: String)
        ensures
            r@ == self.text(),
    {
        match self {
            LoadError::Reading(p) => {
                let mut s: String = "reading config ".to_owned();
                s.append(shown_text(p.bytes.as_slice()).as_str());
                s
            },
            LoadError::Parsing(p) => {
                let mut s: String = "parsing config ".to_owned();
                s.append(shown_text(p.bytes.as_slice()).as_str());
                s
            },
            LoadError::Invalid(e) => e.message().to_owned(),
        }
    }
}

/// What reading the chosen configuration file gave.
#[derive(Debug)]
pub enum Found {
    /// There is no file to read.
    Nothing,
    Unreadable(FilePath),
    Unparsable(FilePath),
    Parsed(FilePath, Config),
}

/// A place where a configuration file may be.
#[derive(Debug)]
pub struct Place {
    pub path: FilePath,
    /// Whether there is a file.
    pub exists: bool,
}

/// The file at a place, if there is one.
pub open spec fn at_place(p: Option<Place>) -> Option<Seq<u8>> {
    match p {
        Some(p) => if p.exists {
            Some(p.path@)
        } else {
            None
        },
        None => None,
    }
}

/// The first of two that is there.
pub open spec fn first_of(a: Option<Seq<u8>>, b: Option<Seq<u8>>) -> Option<Seq<u8>> {
    if a is Some {
        a
    } else {
        b
    }
}

pub open spec fn path_view(p: Option<FilePath>) -> Option<Seq<u8>> {
    match p {
        Some(p) => Some(p@),
        None => None,
    }
}

impl Config {
    /// What is wrong with the configuration, the first fault only.
    pub open spec fn fault(self) -> Option<ConfigError> {
        if self.encode.bit_depth != 8 && self.encode.bit_depth != 10 {
            Some(ConfigError::BitDepth)
        } else if self.encode.crf > 63 {
            Some(ConfigError::Crf)
        } else if self.output.mode == OutputMode::Directory && self.output.directory is None {
            Some(ConfigError::MissingDirectory)
        } else if self.scan_interval.total() == 0 {
            Some(ConfigError::ScanInterval)
        } else if !self.output.max_output_ratio.is_positive() {
            Some(ConfigError::OutputRatio)
        } else {
            None
        }
    }

    /// The configuration that is used without a file.
    pub open spec fn is_default(self) -> bool {
        &&& self.watch@.len() == 0
        &&& self.recursive
        &&& self.scan_interval == Span { secs: 900, nanos: 0 }
        &&& self.min_file_age == Span { secs: 60, nanos: 0 }
        &&& self.max_attempts == 3
        &&& self.state_file@ == vstd::utf8::encode_utf8("/var/lib/vidwatcher/state.json"@)
        &&& self.encode.is_default()
        &&& self.output.is_default()
        &&& self.log.is_default()
    }

    /// Checks the configuration.
    pub fn validate(&self) -> (r: Result<(), ConfigError>)
        ensures
            r == (match self.fault() {
                Some(e) => Err(e),
                None => Ok(()),
            }),
    {
        if self.encode.bit_depth != 8 && self.encode.bit_depth != 10 {
            return Err(ConfigError::BitDepth);
        }
        if self.encode.crf > 63 {
            return Err(ConfigError::Crf);
        }
        if self.output.mode == OutputMode::Directory && self.output.directory.is_none() {
            return Err(ConfigError::MissingDirectory);
        }
        if self.scan_interval.is_zero() {
            return Err(ConfigError::ScanInterval);
        }
        if !self.output.max_output_ratio.positive() {
            return Err(ConfigError::OutputRatio);
        }
        Ok(())
    }

    /// Which configuration file to read: the first of the four places that has one.
    pub fn resolve_path(
        explicit: Option<Place>,
        environment: Option<Place>,
        user: Option<Place>,
        system: Place,
    ) -> (r: Option<FilePath>)
        ensures
            path_view(r) == first_of(
                at_place(explicit),
                first_of(at_place(environment), first_of(at_place(user), at_place(Some(system)))),
            ),
    {
        if let Some(p) = explicit {
            if p.exists {
                return Some(p.path);
            }
        }
        if let Some(p) = environment {
            if p.exists {
                return Some(p.path);
            }
        }
        if let Some(p) = user {
            if p.exists {
                return Some(p.path);
            }
        }
        if system.exists {
            Some(system.path)
        } else {
            None
        }
    }

    /// The configuration that was found, with the file it is from. A file must hold
    /// a valid configuration; without one the defaults apply.
    pub fn load(found: Found) -> (r: Result<(Config, Option<FilePath>), LoadError>)
        ensures
            match found {
                Found::Nothing => r matches Ok((c, p)) && c.is_default() && p is None,
                Found::Unreadable(p) => r == Err::<(Config, Option<FilePath>), _>(
                    LoadError::Reading(p),
                ),
                Found::Unparsable(p) => r == Err::<(Config, Option<FilePath>), _>(
                    LoadError::Parsing(p),
                ),
                Found::Parsed(p, c) => match c.fault() {
                    Some(e) => r == Err::<(Config, Option<FilePath>), _>(LoadError::Invalid(e)),
                    None => r == Ok::<_, LoadError>((c, Some(p))),
                },
            },
    {
        match found {
            Found::Nothing => Ok((Config::default(), None)),
            Found::Unreadable(p) => Err(LoadError::Reading(p)),
            Found::Unparsable(p) => Err(LoadError::Parsing(p)),
            Found::Parsed(p, c) => match c.validate() {
                Ok(()) => Ok((c, Some(p))),
                Err(e) => Err(LoadError::Invalid(e)),
            },
        }
    }
}

/// The configuration file in a user's configuration directory.
pub fn user_config(dir: &FilePath) -> (r: FilePath)
    ensures
        r@ == path::join(dir@, vstd::utf8::encode_utf8("vidwatcher/config.toml"@)),
{
    dir.join("vidwatcher/config.toml".as_bytes())
}

/// The name of the environment variable that names a configuration file.
pub fn env_config() -> (r: &'static str)
    ensures
        r@ == "VIDWATCHER_CONFIG"@,
{
    "VIDWATCHER_CONFIG"
}

/// The configuration file of the system.
pub fn system_config() -> (r: &'static str)
    ensures
        r@ == "/etc/vidwatcher/config.toml"@,
{
    "/etc/vidwatcher/config.toml"
}

pub fn yes() -> (r: bool)
    ensures
        r,
{
    true
}

pub fn default_interval() -> (r: Span)
    ensures
        r == (Span { secs: 900, nanos: 0 }),
{
    Span { secs: 15 * 60, nanos: 0 }
}

pub fn default_min_age() -> (r: Span)
    ensures
        r == (Span { secs: 60, nanos: 0 }),
{
    Span { secs: 60, nanos: 0 }
}

pub fn default_attempts() -> (r: u32)
    ensures
        r == 3,
{
    3
}

pub fn default_state_file() -> (r: FilePath)
    ensures
        r@ == vstd::utf8::encode_utf8("/var/lib/vidwatcher/state.json"@),
{
    FilePath::from_text("/var/lib/vidwatcher/state.json")
}

pub fn default_crf() -> (r: u8)
    ensures
        r == 32,
{
    32
}

pub fn default_preset() -> (r: i32)
    ensures
        r == 6,
{
    6
}

pub fn default_audio_bitrate() -> (r: u32)
    ensures
        r == 128,
{
    128
}

pub fn default_bit_depth() -> (r: u8)
    ensures
        r == 10,
{
    10
}

/// One, in the bits of a double-precision number.
pub fn default_max_output_ratio() -> (r: Ratio)
    ensures
        r.bits == 0x3ff0_0000_0000_0000u64,
{
    Ratio { bits: 0x3ff0_0000_0000_0000 }
}

pub fn default_log_level() -> (r: String)
    ensures
        r@ == "info"@,
{
    "info".to_owned()
}

impl EncodeConfig {
    pub open spec fn is_default(self) -> bool {
        &&& self.crf == 32
        &&& self.preset == 6
        &&& self.audio_bitrate == 128
        &&& self.bit_depth == 10
    }
}

impl OutputConfig {
    pub open spec fn is_default(self) -> bool {
        &&& self.mode == OutputMode::Beside
        &&& self.directory is None
        &&& self.suffix@.len() == 0
        &&& !self.replace
        &&& self.skip_av1
        &&& self.preserve_timestamps
        &&& self.max_output_ratio.bits == 0x3ff0_0000_0000_0000u64
    }
}

impl LogConfig {
    pub open spec fn is_default(self) -> bool {
        &&& self.level@ == "info"@
        &&& self.file is None
    }
}

impl Default for OutputMode {
    fn default() -> (r: Self)
        ensures
            r == OutputMode::Beside,
    {
        OutputMode::Beside
    }
}

impl Default for EncodeConfig {
    fn default() -> (r: Self)
        ensures
            r.is_default(),
    {
        EncodeConfig {
            crf: default_crf(),
            preset: default_preset(),
            audio_bitrate: default_audio_bitrate(),
            bit_depth: default_bit_depth(),
        }
    }
}

impl Default for OutputConfig {
    fn default() -> (r: Self)
        ensures
            r.is_default(),
    {
        OutputConfig {
            mode: OutputMode::default(),
            directory: None,
            suffix: String::new(),
            replace: false,
            skip_av1: true,
            preserve_timestamps: true,
            max_output_ratio: default_max_output_ratio(),
        }
    }
}

impl Default for LogConfig {
    fn default() -> (r: Self)
        ensures
            r.is_default(),
    {
        LogConfig { level: default_log_level(), file: None }
    }
}

impl Default for Config {
    fn default() -> (r: Self)
        ensures
            r.is_default(),
    {
        Config {
            watch: Vec::new(),
            recursive: yes(),
            scan_interval: default_interval(),
            min_file_age: default_min_age(),
            max_attempts: default_attempts(),
            state_file: default_state_file(),
            encode: EncodeConfig::default(),
            output: OutputConfig::default(),
            log: LogConfig::default(),
        }
    }
}

/// The defaults are a valid configuration.
pub proof fn law_default_is_valid(c: Config)
    requires
        c.is_default(),
    ensures
        c.fault() is None,
{
}

/// A valid configuration is within every bound that the encoder and the output need.
pub proof fn law_valid_is_in_range(c: Config)
    ensures
        c.fault() is None <==> {
            &&& c.encode.bit_depth == 8 || c.encode.bit_depth == 10
            &&& c.encode.crf <= 63
            &&& c.output.mode == OutputMode::Directory ==> c.output.directory is Some
            &&& c.scan_interval.total() > 0
            &&& c.output.max_output_ratio.is_positive()
        },
{
}

} // verus!
