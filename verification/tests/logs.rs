use std::io::Write;

use onelauncher_logs::logs::{
    output_of, read_output, sort_logs, LogCursor, LogError, LogFormat, LogManager, LogOutput,
};
use onelauncher_logs::secrets::MinecraftCredentials;

#[test]
fn read_start_keeps_cursor_within_file() {
    assert_eq!(LogCursor::read_start(10, 100), (10, false));
    assert_eq!(LogCursor::read_start(100, 100), (100, false));
    assert_eq!(LogCursor::read_start(0, 0), (0, false));
}

#[test]
fn read_start_restarts_shrunk_file() {
    assert_eq!(LogCursor::read_start(101, 100), (0, true));
    assert_eq!(LogCursor::read_start(u64::MAX, 0), (0, true));
}

#[test]
fn cursor_resumes_after_a_read() {
    let (start, new) = LogCursor::read_start(0, 11);
    let c = LogCursor::after_read_with(start, new, b"hello world", "u", "r", &vec![]);
    assert_eq!(c.cursor, 11);
    assert!(!c.new);
    assert_eq!(c.output.as_str(), "hello world");
    assert_eq!(LogCursor::read_start(c.cursor, 11), (11, false));
}

#[test]
fn after_read_replaces_invalid_bytes() {
    let c = LogCursor::after_read_with(5, true, &[b'a', 0xff, b'b'], "u", "r", &vec![]);
    assert_eq!(c.cursor, 8);
    assert!(c.new);
    assert_eq!(c.output.as_str(), "a\u{FFFD}b");
}

#[test]
fn after_read_censors() {
    let creds = vec![MinecraftCredentials {
        id: 0,
        username: "Steve".to_string(),
        access_token: "tkn".to_string(),
    }];
    let c = LogCursor::after_read_with(0, false, b"Steve tkn /me/", "me", "Me", &creds);
    assert_eq!(c.output.as_str(), "{MC_USERNAME} {MC_ACCESS_TOKEN} /{ENV_USERNAME}/");
    let d = LogCursor::after_read(0, false, b"plain", &creds);
    assert_eq!(d.cursor, 5);
}

#[test]
fn missing_file_cursor() {
    let c = LogCursor::missing();
    assert_eq!(c.cursor, 0);
    assert!(!c.new);
    assert_eq!(c.output.as_str(), "");
}

#[test]
fn format_from_extension() {
    assert_eq!(LogFormat::from_extension(Some("gz")), Ok(LogFormat::Gzip));
    assert_eq!(LogFormat::from_extension(Some("log")), Ok(LogFormat::Plain));
    assert_eq!(LogFormat::from_extension(Some("txt")), Err(LogError::UnsupportedExtension));
    assert_eq!(LogFormat::from_extension(Some("GZ")), Err(LogError::UnsupportedExtension));
    assert_eq!(LogFormat::from_extension(None), Err(LogError::UnsupportedExtension));
}

fn gz(data: &[u8]) -> Vec<u8> {
    let mut e = flate2::write::GzEncoder::new(Vec::new(), flate2::Compression::default());
    e.write_all(data).unwrap();
    e.finish().unwrap()
}

#[test]
fn output_of_plain_log() {
    let data = vec![b'x'; 3000];
    let out = output_of(LogFormat::Plain, &data, "u", "r", &vec![]).unwrap();
    assert_eq!(out.as_str(), "x".repeat(3000));
}

#[test]
fn output_of_gzip_log() {
    let text = "[main/INFO] /home/steve/.minecraft ünïcode ".repeat(60);
    let out = output_of(LogFormat::Gzip, &gz(text.as_bytes()), "steve", "Steve", &vec![]).unwrap();
    assert_eq!(out.as_str(), text.replace("/steve/", "/{ENV_USERNAME}/"));
}

#[test]
fn output_of_invalid_gzip() {
    let out = output_of(LogFormat::Gzip, b"not gzip at all", "u", "r", &vec![]);
    assert!(matches!(out, Err(LogError::InvalidGzip)));
}

#[test]
fn read_output_reads_plain_bytes() {
    let out = read_output(LogFormat::Plain, b"plain text", &vec![]).unwrap();
    assert_eq!(out.as_str(), "plain text");
    assert!(read_output(LogFormat::Gzip, b"\x1f\x8b broken", &vec![]).is_err());
}

#[test]
fn keeps_output_unless_cleared() {
    assert!(LogManager::keeps_output(None));
    assert!(LogManager::keeps_output(Some(false)));
    assert!(!LogManager::keeps_output(Some(true)));
}

#[test]
fn empty_append_gives_empty_output() {
    let creds = vec![MinecraftCredentials { id: 1, username: "A".to_string(), access_token: "t".to_string() }];
    let c = LogCursor::after_read_with(42, false, b"", "u", "r", &creds);
    assert_eq!(c.cursor, 42);
    assert_eq!(c.output.as_str(), "");
}

fn manager(name: &str, text: Option<&str>) -> LogManager {
    LogManager {
        log_file: name.to_string(),
        output: text.map(|t| LogOutput::censor_secrets_with(t.to_string(), "u", "r", &vec![])),
    }
}

#[test]
fn sort_logs_orders_by_name() {
    let mut logs = vec![
        manager("latest.log", None),
        manager("2024-01-02-1.log.gz", None),
        manager("2024-01-01-1.log.gz", Some("a")),
        manager("Zeta.log", None),
        manager("debug.log", None),
    ];
    sort_logs(&mut logs);
    let names: Vec<&str> = logs.iter().map(|m| m.log_file.as_str()).collect();
    assert_eq!(
        names,
        vec!["2024-01-01-1.log.gz", "2024-01-02-1.log.gz", "Zeta.log", "debug.log", "latest.log"]
    );
    assert_eq!(logs[0].output.as_ref().map(|o| o.as_str()), Some("a"));
}

#[test]
fn sort_logs_is_stable_and_matches_std() {
    let mut logs = vec![
        manager("b", Some("1")),
        manager("a", Some("2")),
        manager("b", Some("3")),
        manager("ab", Some("4")),
        manager("é", Some("5")),
        manager("z", Some("6")),
    ];
    let mut expected: Vec<(String, String)> = logs
        .iter()
        .map(|m| (m.log_file.clone(), m.output.as_ref().unwrap().as_str().to_string()))
        .collect();
    expected.sort_by_key(|x| x.0.clone());
    sort_logs(&mut logs);
    let got: Vec<(String, String)> = logs
        .iter()
        .map(|m| (m.log_file.clone(), m.output.as_ref().unwrap().as_str().to_string()))
        .collect();
    assert_eq!(got, expected);
}

#[test]
fn sort_logs_empty() {
    let mut logs: Vec<LogManager> = vec![];
    sort_logs(&mut logs);
    assert!(logs.is_empty());
}
