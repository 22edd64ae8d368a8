use vidwatcher::config::{
    default_attempts, default_audio_bitrate, default_bit_depth, default_crf, default_interval,
    default_log_level, default_max_output_ratio, default_min_age, default_preset,
    default_state_file, env_config, system_config, user_config, yes, Config, ConfigError,
    EncodeConfig, Found, LoadError, LogConfig, OutputConfig, OutputMode, Place, Span,
};
use vidwatcher::path::FilePath;
use vidwatcher::ratio::Ratio;

fn place(path: &str, exists: bool) -> Place {
    Place { path: FilePath::from_text(path), exists }
}

fn text_of(p: Option<FilePath>) -> Option<String> {
    p.map(|p| String::from_utf8(p.bytes).unwrap())
}

#[test]
fn defaults() {
    let c = Config::default();
    assert!(c.watch.is_empty());
    assert!(c.recursive);
    assert_eq!(c.scan_interval, Span { secs: 900, nanos: 0 });
    assert_eq!(c.min_file_age, Span { secs: 60, nanos: 0 });
    assert_eq!(c.max_attempts, 3);
    assert_eq!(c.state_file.bytes, b"/var/lib/vidwatcher/state.json".to_vec());
    assert_eq!((c.encode.crf, c.encode.preset), (32, 6));
    assert_eq!((c.encode.audio_bitrate, c.encode.bit_depth), (128, 10));
    assert_eq!(c.output.mode, OutputMode::Beside);
    assert!(c.output.directory.is_none());
    assert_eq!(c.output.suffix, "");
    assert!(!c.output.replace);
    assert!(c.output.skip_av1);
    assert!(c.output.preserve_timestamps);
    assert_eq!(f64::from_bits(c.output.max_output_ratio.bits), 1.0);
    assert_eq!(c.log.level, "info");
    assert!(c.log.file.is_none());
}

#[test]
fn defaults_one_by_one() {
    assert!(yes());
    assert_eq!(default_interval().secs, 900);
    assert_eq!(default_min_age().secs, 60);
    assert_eq!(default_attempts(), 3);
    assert_eq!(default_state_file().bytes, b"/var/lib/vidwatcher/state.json".to_vec());
    assert_eq!(default_crf(), 32);
    assert_eq!(default_preset(), 6);
    assert_eq!(default_audio_bitrate(), 128);
    assert_eq!(default_bit_depth(), 10);
    assert_eq!(default_max_output_ratio().bits, 1.0f64.to_bits());
    assert_eq!(default_log_level(), "info");
    assert_eq!(OutputMode::default(), OutputMode::Beside);
    assert_eq!(EncodeConfig::default().crf, 32);
    assert_eq!(OutputConfig::default().suffix, "");
    assert_eq!(LogConfig::default().level, "info");
}

#[test]
fn default_configuration_is_valid() {
    assert!(Config::default().validate().is_ok());
}

#[test]
fn faults_of_configurations() {
    let mut c = Config::default();
    for depth in [8, 10] {
        c.encode.bit_depth = depth;
        assert!(c.validate().is_ok());
    }
    for depth in [0, 9, 12] {
        c.encode.bit_depth = depth;
        assert_eq!(c.validate(), Err(ConfigError::BitDepth));
    }
    c.encode.bit_depth = 8;
    c.encode.crf = 63;
    assert!(c.validate().is_ok());
    c.encode.crf = 64;
    assert_eq!(c.validate(), Err(ConfigError::Crf));
    c.encode.crf = 0;
    c.output.mode = OutputMode::Directory;
    assert_eq!(c.validate(), Err(ConfigError::MissingDirectory));
    c.output.directory = Some(FilePath::from_text("/out"));
    assert!(c.validate().is_ok());
    c.scan_interval = Span { secs: 0, nanos: 0 };
    assert_eq!(c.validate(), Err(ConfigError::ScanInterval));
    c.scan_interval = Span { secs: 0, nanos: 1 };
    assert!(c.validate().is_ok());
    for ratio in [0.0, -1.0, f64::NAN] {
        c.output.max_output_ratio = Ratio { bits: ratio.to_bits() };
        assert_eq!(c.validate(), Err(ConfigError::OutputRatio));
    }
    c.encode.crf = 200;
    assert_eq!(c.validate(), Err(ConfigError::Crf));
}

#[test]
fn fault_messages() {
    assert_eq!(ConfigError::BitDepth.message(), "encode.bit-depth must be 8 or 10");
    assert_eq!(ConfigError::Crf.message(), "encode.crf must be 0-63");
    assert_eq!(
        ConfigError::MissingDirectory.message(),
        "output.directory is required when output.mode = \"directory\""
    );
    assert_eq!(ConfigError::ScanInterval.message(), "scan-interval must be greater than zero");
    assert_eq!(
        ConfigError::OutputRatio.message(),
        "output.max-output-ratio must be greater than zero"
    );
}

#[test]
fn first_existing_file_is_used() {
    let find = |a, b, c, d| {
        text_of(Config::resolve_path(
            Some(place("/x.toml", a)),
            Some(place("/env.toml", b)),
            Some(place("/user.toml", c)),
            place("/etc.toml", d),
        ))
    };
    assert_eq!(find(true, true, true, true).unwrap(), "/x.toml");
    assert_eq!(find(false, true, true, true).unwrap(), "/env.toml");
    assert_eq!(find(false, false, true, true).unwrap(), "/user.toml");
    assert_eq!(find(false, false, false, true).unwrap(), "/etc.toml");
    assert_eq!(find(false, false, false, false), None);
    assert_eq!(text_of(Config::resolve_path(None, None, None, place("/e", true))).unwrap(), "/e");
    assert!(Config::resolve_path(None, None, None, place("/e", false)).is_none());
}

#[test]
fn places_of_configurations() {
    assert_eq!(env_config(), "VIDWATCHER_CONFIG");
    assert_eq!(system_config(), "/etc/vidwatcher/config.toml");
    let dir = FilePath::from_text("/home/me/.config");
    assert_eq!(user_config(&dir).bytes, b"/home/me/.config/vidwatcher/config.toml".to_vec());
}

#[test]
fn loading() {
    let (c, p) = Config::load(Found::Nothing).unwrap();
    assert_eq!(c.max_attempts, 3);
    assert!(p.is_none());

    let mut mine = Config::default();
    mine.max_attempts = 9;
    let (c, p) = Config::load(Found::Parsed(FilePath::from_text("/c"), mine)).unwrap();
    assert_eq!(c.max_attempts, 9);
    assert_eq!(text_of(p).unwrap(), "/c");

    let mut bad = Config::default();
    bad.encode.crf = 99;
    let e = Config::load(Found::Parsed(FilePath::from_text("/c"), bad)).unwrap_err();
    assert!(matches!(e, LoadError::Invalid(ConfigError::Crf)));
    assert_eq!(e.message(), "encode.crf must be 0-63");

    let e = Config::load(Found::Unreadable(FilePath::from_text("/c"))).unwrap_err();
    assert!(matches!(e, LoadError::Reading(_)));
    assert_eq!(e.message(), "reading config /c");
    let e = Config::load(Found::Unparsable(FilePath::from_text("/c"))).unwrap_err();
    assert!(matches!(e, LoadError::Parsing(_)));
    assert_eq!(e.message(), "parsing config /c");
}

#[test]
fn spans_compare_by_their_whole_length() {
    let s = |secs, nanos| Span { secs, nanos };
    assert!(s(0, 0).is_zero());
    assert!(!s(0, 1).is_zero());
    assert!(s(59, 999_999_999).shorter_than(s(60, 0)));
    assert!(!s(60, 0).shorter_than(s(60, 0)));
    assert!(s(60, 0).shorter_than(s(60, 1)));
}
