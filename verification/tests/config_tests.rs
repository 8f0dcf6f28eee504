use dnsr::config::Config;
use dnsr::config::LogConfig;
use dnsr::config::LogLevel;
use dnsr::error::Error;
use dnsr::error::ErrorKind;
use dnsr::key::DomainEntry;
use dnsr::key::DomainInfo;
use dnsr::key::DomainName;
use dnsr::key::KeyEntry;
use dnsr::key::KeyFile;
use dnsr::key::Keys;
use dnsr::logger::Logger;
use dnsr::metric::Stats;
use dnsr::names::make_apex;
use dnsr::names::name_under_str;
use dnsr::names::scope_str;

#[test]
fn log_config_defaults() {
    let lc = LogConfig::default();
    assert_eq!(lc.level(), LogLevel::Info);
    assert!(lc.enable_metrics());
    assert!(!lc.enable_thread_id());
    assert!(!lc.stderr());
    let set = LogConfig::new(Some(LogLevel::Debug), Some(false), Some(true), Some(true));
    assert_eq!(set.level(), LogLevel::Debug);
    assert!(!set.enable_metrics());
    assert!(set.enable_thread_id());
    assert!(set.stderr());
}

#[test]
fn config_paths_and_log() {
    let c = Config::new(None, Keys::new());
    assert_eq!(c.tsig_path(), "/etc/dnsr/keys");
    assert_eq!(c.log_config().level(), LogLevel::Info);
    let c2 = Config::new(
        Some(LogConfig::new(Some(LogLevel::Warn), None, None, None)),
        Keys::new(),
    );
    assert_eq!(c2.log_config().level(), LogLevel::Warn);
}

#[test]
fn key_file_path_and_text() {
    let kf = KeyFile::new("key1".to_string());
    assert_eq!(kf.as_pathbuf(), "/etc/dnsr/keys/key1");
    assert_eq!(kf.as_str(), "key1");
}

#[test]
fn keys_lists_labels_and_domains() {
    let mut keys = Keys::new();
    keys.push_entry(KeyEntry {
        file: KeyFile::new("key1".to_string()),
        domains: vec![
            DomainEntry {
                name: DomainName::new("a.org".to_string()),
                info: DomainInfo::new("ns.a.org.".to_string(), "admin.a.org.".to_string()),
            },
            DomainEntry {
                name: DomainName::new("b.org".to_string()),
                info: DomainInfo::new("ns.b.org.".to_string(), "admin.b.org.".to_string()),
            },
        ],
    })
    .unwrap();
    keys.push_entry(KeyEntry {
        file: KeyFile::new("key2".to_string()),
        domains: vec![DomainEntry {
            name: DomainName::new("c.org".to_string()),
            info: DomainInfo::new("ns.c.org.".to_string(), "admin.c.org.".to_string()),
        }],
    })
    .unwrap();
    let labels = keys.keys();
    assert_eq!(labels.len(), 2);
    assert_eq!(labels[0].as_str(), "key1");
    assert_eq!(labels[1].as_str(), "key2");
    let domains = keys.domains();
    assert_eq!(domains.len(), 3);
    assert_eq!(domains[0].name.as_str(), "a.org");
    assert_eq!(domains[2].name.as_str(), "c.org");
    // A duplicated label is refused.
    let dup = KeyEntry { file: KeyFile::new("key1".to_string()), domains: vec![] };
    assert!(keys.push_entry(dup).is_err());
}

#[test]
fn strip_prefix_and_scope() {
    let d = DomainName::new("_acme-challenge.example.com".to_string());
    assert_eq!(d.strip_prefix().as_str(), "example.com");
    let plain = DomainName::new("example.com".to_string());
    assert_eq!(plain.strip_prefix().as_str(), "example.com");
    assert_eq!(scope_str("_acme-challenge.example.com."), "example.com");
    assert_eq!(scope_str("example.com"), "example.com");
    assert_eq!(make_apex("example.com"), "_acme-challenge.example.com.");
    assert_eq!(make_apex("example.com."), "_acme-challenge.example.com.");
}

#[test]
fn name_under_matches_on_label_boundaries() {
    assert!(name_under_str("a.example.com.", "example.com."));
    assert!(name_under_str("example.com.", "example.com."));
    assert!(!name_under_str("badexample.com.", "example.com."));
    assert!(!name_under_str("example.org.", "example.com."));
    assert!(!name_under_str("com.", "example.com."));
}

#[test]
fn logger_builders_and_levels() {
    let logger = Logger::new()
        .with_level(LogLevel::Warn)
        .with_metrics(false)
        .with_thread(true)
        .with_stderr(true);
    assert_eq!(logger.default_level, LogLevel::Warn);
    assert!(!logger.metrics);
    assert!(logger.threads);
    assert!(logger.stderr);
    assert_eq!(logger.max_level(), LogLevel::Warn);
    assert!(logger.enabled(LogLevel::Error, "zone_change"));
    assert!(logger.enabled(LogLevel::Warn, "zone_change"));
    assert!(!logger.enabled(LogLevel::Info, "zone_change"));
    // Metric records are dropped when metrics are off.
    assert!(!logger.enabled(LogLevel::Error, "metrics"));
    assert!(Logger::new().enabled(LogLevel::Trace, "metrics"));
}

#[test]
fn logger_module_override_wins() {
    let mut logger = Logger::new().with_level(LogLevel::Error);
    logger.module_levels.push(dnsr::logger::ModuleLevel {
        name: "tsig".to_string(),
        level: LogLevel::Debug,
    });
    assert!(logger.enabled(LogLevel::Debug, "tsig_file"));
    assert!(!logger.enabled(LogLevel::Debug, "zone_change"));
    assert_eq!(logger.max_level(), LogLevel::Debug);
}

#[test]
fn stats_accounting() {
    let mut stats = Stats::new();
    stats.record_request(100, true, true);
    stats.record_request(50, false, false);
    assert_eq!(stats.num_reqs, 2);
    assert_eq!(stats.num_req_bytes, 150);
    assert_eq!(stats.num_udp, 1);
    assert_eq!(stats.num_ipv4, 1);
    assert_eq!(stats.num_ipv6, 1);
    stats.record_response(200, 900);
    stats.record_response(300, 400);
    assert_eq!(stats.num_resp_bytes, 500);
    assert_eq!(stats.fastest_req, Some(400));
    assert_eq!(stats.slowest_req, Some(900));
}

#[test]
fn error_kinds_have_text() {
    let e = Error::new(ErrorKind::TSIGFileNotFound);
    assert_eq!(e.kind, ErrorKind::TSIGFileNotFound);
    assert_eq!(e.display_string(), "tsig file not found");
    assert_eq!(ErrorKind::Base64.as_str(), "base64 error");
    let with_msg = Error { kind: ErrorKind::Io, message: Some("no such file".to_string()) };
    assert_eq!(with_msg.display_string(), "no such file");
}
