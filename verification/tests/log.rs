use deeper::log::{is_expired_log, log_file_name, log_line, FileAge, LogSource, LOG_RETENTION_DAYS};

#[test]
fn log_names_and_lines() {
    assert_eq!(LogSource::Frontend.prefix(), "frontend");
    assert_eq!(log_file_name(&LogSource::Backend, "2024-05-01"), "backend_2024-05-01.log");
    assert_eq!(log_line("12:00:00", "INFO", "started"), "[12:00:00] [INFO] started");
}

#[test]
fn only_old_log_files_expire() {
    let week = LOG_RETENTION_DAYS * 86400;
    assert!(is_expired_log(Some("log"), Some(FileAge { secs: week + 1, nanos: 0 })));
    assert!(is_expired_log(Some("log"), Some(FileAge { secs: week, nanos: 1 })));
    assert!(!is_expired_log(Some("log"), Some(FileAge { secs: week, nanos: 0 })));
    assert!(!is_expired_log(Some("txt"), Some(FileAge { secs: week * 2, nanos: 0 })));
    assert!(!is_expired_log(Some("log"), None));
    assert!(!is_expired_log(None, Some(FileAge { secs: week * 2, nanos: 0 })));
}
