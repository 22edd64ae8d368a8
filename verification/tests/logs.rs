use vidwatcher::logging::{init, LogError, LogLevel};
use vidwatcher::path::FilePath;

#[test]
fn levels_by_name() {
    for (name, level) in [
        ("off", LogLevel::Off),
        ("error", LogLevel::Error),
        ("warn", LogLevel::Warn),
        ("info", LogLevel::Info),
        ("debug", LogLevel::Debug),
        ("trace", LogLevel::Trace),
    ] {
        assert_eq!(init(name, None).unwrap().level, level);
        assert_eq!(init(&name.to_ascii_uppercase(), None).unwrap().level, level);
    }
    assert_eq!(init("dEbUg", None).unwrap().level, LogLevel::Debug);
}

#[test]
fn unknown_levels() {
    for name in ["", "warning", " info", "inf", "trac\u{e9}"] {
        let e = init(name, None).unwrap_err();
        assert_eq!(e.message(), format!("invalid log level {name:?}"));
    }
    assert_eq!(init("a\"b\n", None).unwrap_err().message(), "invalid log level \"a\\\"b\\n\"");
}

#[test]
fn log_files() {
    let plan = init("info", None).unwrap();
    assert!(plan.dir.is_none());
    assert!(plan.file.is_none());
    let plan = init("info", Some(FilePath::from_text("/var/log/v/a.log"))).unwrap();
    assert_eq!(plan.dir.unwrap().bytes, b"/var/log/v".to_vec());
    assert_eq!(plan.file.unwrap().bytes, b"/var/log/v/a.log".to_vec());
    let plan = init("info", Some(FilePath::from_text("a.log"))).unwrap();
    assert_eq!(plan.dir.unwrap().bytes, b"".to_vec());
    let e = LogError::Dir(FilePath::from_text("/d"));
    assert_eq!(e.message(), "creating log dir /d");
    assert_eq!(LogError::File(FilePath::from_text("/f")).message(), "opening log file /f");
    assert_eq!(LogError::Logger.message(), "initialising logger");
}
