use cvdbench::config::{
    apply_scheduler, from_raw, ConfigError, MasterConfig, RawAddress, RawConfig, RawFilesystem,
    RawScheduler, SchedulerConfig,
};
use cvdbench::gc;
use cvdbench::scheduler::staleness;
use cvdbench::time::Duration;
use toml::Table;

const SAMPLE: &str = r#"
[server]
listen = "0.0.0.0:9090"

[metrics]
listen = "0.0.0.0:9100"

[scheduler]
worker_staleness_secs = 90
file_queue_capacity = 50000

[[filesystems]]
name = "examplefs"
mount_point = "/mnt/examplefs"

[[filesystems]]
name = "s3fs"
mount_point = "/mnt/s3fs"
"#;

fn text_of(table: &Table, key: &str) -> String {
    table[key].as_str().unwrap().to_owned()
}

fn number_of(table: Option<&Table>, key: &str) -> Option<u64> {
    table.and_then(|t| t.get(key)).map(|v| v.as_integer().unwrap() as u64)
}

fn address(text: String) -> RawAddress {
    let read = Ok(text.clone());
    RawAddress { text, read }
}

fn parse_str(text: &str) -> Result<MasterConfig, ConfigError> {
    let table: Table = text.parse().unwrap();
    let scheduler = table.get("scheduler").and_then(|v| v.as_table());
    let filesystems = match table.get("filesystems") {
        Some(v) => v
            .as_array()
            .unwrap()
            .iter()
            .map(|f| {
                let f = f.as_table().unwrap();
                RawFilesystem {
                    name: text_of(f, "name"),
                    mount_point: text_of(f, "mount_point"),
                    resolved: None,
                }
            })
            .collect(),
        None => vec![],
    };
    from_raw(RawConfig {
        listen: address(text_of(table["server"].as_table().unwrap(), "listen")),
        metrics_listen: table.get("metrics").map(|m| address(text_of(m.as_table().unwrap(), "listen"))),
        scheduler: RawScheduler {
            worker_staleness_secs: number_of(scheduler, "worker_staleness_secs"),
            job_retention_secs: number_of(scheduler, "job_retention_secs"),
            prepare_timeout_secs: number_of(scheduler, "prepare_timeout_secs"),
            start_delay_ms: number_of(scheduler, "start_delay_ms"),
            file_queue_capacity: number_of(scheduler, "file_queue_capacity").map(|n| n as usize),
            dir_queue_capacity: number_of(scheduler, "dir_queue_capacity").map(|n| n as usize),
            dir_scan_concurrency: number_of(scheduler, "dir_scan_concurrency").map(|n| n as usize),
        },
        filesystems,
    })
}

fn raw_scheduler() -> RawScheduler {
    RawScheduler {
        worker_staleness_secs: None,
        job_retention_secs: None,
        prepare_timeout_secs: None,
        start_delay_ms: None,
        file_queue_capacity: None,
        dir_queue_capacity: None,
        dir_scan_concurrency: None,
    }
}

fn raw(listen: RawAddress, metrics_listen: Option<RawAddress>) -> RawConfig {
    RawConfig {
        listen,
        metrics_listen,
        scheduler: raw_scheduler(),
        filesystems: vec![RawFilesystem {
            name: "x".into(),
            mount_point: "/mnt/x".into(),
            resolved: Some("/real/x".into()),
        }],
    }
}

fn unread(text: &str) -> RawAddress {
    RawAddress { text: text.into(), read: Err("invalid socket address syntax".into()) }
}

#[test]
fn loads_full_config() {
    let cfg = parse_str(SAMPLE).unwrap();
    assert_eq!(cfg.listen.to_string(), "0.0.0.0:9090");
    assert_eq!(cfg.metrics_listen.map(|a| a.to_string()), Some("0.0.0.0:9100".to_owned()));
    assert_eq!(cfg.scheduler.worker_staleness, Duration::from_secs(90));
    assert_eq!(cfg.scheduler.file_queue_capacity, 50_000);
    assert_eq!(cfg.scheduler.dir_scan_concurrency, 8);
    assert_eq!(cfg.filesystems.len(), 2);
    assert_eq!(cfg.filesystems.get("examplefs").unwrap(), "/mnt/examplefs");
}

#[test]
fn defaults_apply_when_scheduler_omitted() {
    let cfg = parse_str(
        r#"
[server]
listen = "127.0.0.1:0"

[[filesystems]]
name = "x"
mount_point = "/mnt/x"
"#,
    )
    .unwrap();
    assert!(cfg.metrics_listen.is_none());
    assert_eq!(cfg.scheduler, SchedulerConfig::default());
}

#[test]
fn rejects_no_filesystems() {
    let err = parse_str(
        r#"
[server]
listen = "127.0.0.1:0"
"#,
    )
    .unwrap_err();
    assert!(matches!(err, ConfigError::NoFilesystems));
}

#[test]
fn rejects_relative_mount_point() {
    let err = parse_str(
        r#"
[server]
listen = "127.0.0.1:0"

[[filesystems]]
name = "x"
mount_point = "relative/path"
"#,
    )
    .unwrap_err();
    assert!(matches!(err, ConfigError::NonAbsoluteMount(name) if name == "x"));
}

#[test]
fn rejects_duplicate_fs() {
    let err = parse_str(
        r#"
[server]
listen = "127.0.0.1:0"

[[filesystems]]
name = "x"
mount_point = "/mnt/x"

[[filesystems]]
name = "x"
mount_point = "/mnt/y"
"#,
    )
    .unwrap_err();
    assert!(matches!(err, ConfigError::DuplicateFs(name) if name == "x"));
}

#[test]
fn rejects_zero_scheduler_capacities() {
    let err = parse_str(
        r#"
[server]
listen = "127.0.0.1:0"

[scheduler]
file_queue_capacity = 0

[[filesystems]]
name = "x"
mount_point = "/mnt/x"
"#,
    )
    .unwrap_err();
    assert!(matches!(
        err,
        ConfigError::InvalidScheduler { field: "file_queue_capacity", value: 0 }
    ));
}

#[test]
fn mount_points_are_kept_as_resolved() {
    let cfg = from_raw(raw(address("127.0.0.1:0".into()), None)).unwrap();
    assert_eq!(cfg.filesystems.get("x").unwrap(), "/real/x");
}

#[test]
fn each_zero_capacity_is_named() {
    let mut s = raw_scheduler();
    s.dir_queue_capacity = Some(0);
    assert!(matches!(
        apply_scheduler(&s),
        Err(ConfigError::InvalidScheduler { field: "dir_queue_capacity", value: 0 })
    ));
    let mut s = raw_scheduler();
    s.dir_scan_concurrency = Some(0);
    assert!(matches!(
        apply_scheduler(&s),
        Err(ConfigError::InvalidScheduler { field: "dir_scan_concurrency", value: 0 })
    ));
}

#[test]
fn accepted_capacities_are_positive() {
    let mut s = raw_scheduler();
    s.file_queue_capacity = Some(1);
    s.dir_queue_capacity = Some(2);
    s.dir_scan_concurrency = Some(3);
    s.job_retention_secs = Some(4);
    s.prepare_timeout_secs = Some(5);
    s.start_delay_ms = Some(6);
    let cfg = apply_scheduler(&s).unwrap();
    assert_eq!(cfg.file_queue_capacity, 1);
    assert_eq!(cfg.dir_queue_capacity, 2);
    assert_eq!(cfg.dir_scan_concurrency, 3);
    assert_eq!(cfg.job_retention, Duration::from_secs(4));
    assert_eq!(cfg.prepare_timeout, Duration::from_secs(5));
    assert_eq!(cfg.start_delay, Duration::from_millis(6));
    assert_eq!(cfg.worker_staleness, Duration::from_secs(60));
}

#[test]
fn unreadable_addresses_are_refused() {
    let err = from_raw(raw(unread("nowhere"), None)).unwrap_err();
    assert!(matches!(&err, ConfigError::Listen(a, _) if a == "nowhere"));
    let err = from_raw(raw(address("127.0.0.1:0".into()), Some(unread("nowhere")))).unwrap_err();
    assert!(matches!(&err, ConfigError::MetricsListen(a, _) if a == "nowhere"));
}

#[test]
fn config_errors_are_worded() {
    assert_eq!(
        ConfigError::InvalidScheduler { field: "file_queue_capacity", value: 0 }.message(),
        "scheduler.file_queue_capacity must be > 0, got 0"
    );
    assert_eq!(ConfigError::DuplicateFs("x".into()).message(), "duplicate fs_name \"x\" in [[filesystems]]");
    assert_eq!(ConfigError::NoFilesystems.message(), "at least one [[filesystems]] entry is required");
    assert_eq!(ConfigError::NonAbsoluteMount("x".into()).message(), "filesystem \"x\" mount_point must be absolute");
    assert_eq!(ConfigError::Toml("bad".into()).message(), "parse TOML: bad");
    assert_eq!(
        ConfigError::Io { path: "/etc/m.toml".into(), source: "gone".into() }.message(),
        "read config \"/etc/m.toml\": gone"
    );
    assert_eq!(ConfigError::Listen("a\"b".into(), "bad".into()).message(), "invalid listen address \"a\\\"b\": bad");
    assert_eq!(ConfigError::MetricsListen("a".into(), "bad".into()).message(), "invalid metrics listen address \"a\": bad");
}

#[test]
fn tick_intervals_are_bounded() {
    let with = |staleness_ms: u64, retention_secs: u64| SchedulerConfig {
        worker_staleness: Duration::from_millis(staleness_ms),
        job_retention: Duration::from_secs(retention_secs),
        ..SchedulerConfig::default()
    };
    assert_eq!(staleness::tick_interval(&with(1, 1)), Duration::from_millis(100));
    assert_eq!(staleness::tick_interval(&with(1_200, 1)), Duration::from_millis(400));
    assert_eq!(staleness::tick_interval(&with(60_000, 1)), Duration::from_secs(5));
    assert_eq!(gc::tick_interval(&with(1, 1)), Duration::from_millis(500));
    assert_eq!(gc::tick_interval(&with(1, 20)), Duration::from_secs(2));
    assert_eq!(gc::tick_interval(&with(1, 86_400)), Duration::from_secs(60));
}
