//! The configuration of the master.

pub mod settings;

use vstd::prelude::*;

use crate::strmap::{has_key, lemma_viewed_keys, lemma_viewed_put, StrMap};
use crate::text;
use crate::time::Duration;
use crate::views::entry_views;

verus! {

/// What the master is started with; it does not change while it runs. The
/// addresses are kept as text, the mount points of file systems by name.
#[derive(Debug)]
pub struct MasterConfig {
    pub listen: String,
    pub metrics_listen: Option<String>,
    pub scheduler: SchedulerConfig,
    pub filesystems: StrMap<String>,
}

/// Times and capacities of the scheduler.
#[derive(Debug, Clone, Copy, PartialEq, Eq, Structural)]
pub struct SchedulerConfig {
    pub worker_staleness: Duration,
    pub job_retention: Duration,
    pub prepare_timeout: Duration,
    pub start_delay: Duration,
    pub file_queue_capacity: usize,
    pub dir_queue_capacity: usize,
    pub dir_scan_concurrency: usize,
}

/// The span of `secs` seconds.
pub open spec fn seconds(secs: u64) -> Duration {
    Duration { nanos: (secs * 1_000_000_000) as u128 }
}

/// The span of `ms` milliseconds.
pub open spec fn milliseconds(ms: u64) -> Duration {
    Duration { nanos: (ms * 1_000_000) as u128 }
}

/// The times and capacities where none are configured.
pub open spec fn default_scheduler() -> SchedulerConfig {
    SchedulerConfig {
        worker_staleness: seconds(60),
        job_retention: seconds(259_200),
        prepare_timeout: seconds(600),
        start_delay: milliseconds(5_000),
        file_queue_capacity: 100_000,
        dir_queue_capacity: 50_000,
        dir_scan_concurrency: 8,
    }
}

impl Default for SchedulerConfig {
    fn default() -> (r: SchedulerConfig)
        ensures
            r == default_scheduler(),
    {
        SchedulerConfig {
            worker_staleness: Duration::from_secs(60),
            job_retention: Duration::from_secs(259_200),
            prepare_timeout: Duration::from_secs(600),
            start_delay: Duration::from_millis(5_000),
            file_queue_capacity: 100_000,
            dir_queue_capacity: 50_000,
            dir_scan_concurrency: 8,
        }
    }
}

/// Why a configuration is not accepted. Errors of the file system, of the
/// file's syntax and of addresses are held as their messages.
#[derive(Debug)]
pub enum ConfigError {
    Io { path: String, source: String },
    Toml(String),
    Listen(String, String),
    MetricsListen(String, String),
    DuplicateFs(String),
    NoFilesystems,
    NonAbsoluteMount(String),
    InvalidScheduler { field: &'static str, value: usize },
}

/// What a [`ConfigError`] holds.
pub enum ConfigFault {
    Io { path: Seq<char>, source: Seq<char> },
    Toml(Seq<char>),
    Listen(Seq<char>, Seq<char>),
    MetricsListen(Seq<char>, Seq<char>),
    DuplicateFs(Seq<char>),
    NoFilesystems,
    NonAbsoluteMount(Seq<char>),
    InvalidScheduler { field: Seq<char>, value: usize },
}

impl View for ConfigError {
    type V = ConfigFault;

    open spec fn view(&self) -> ConfigFault {
        match *self {
            ConfigError::Io { path, source } => ConfigFault::Io { path: path@, source: source@ },
            ConfigError::Toml(m) => ConfigFault::Toml(m@),
            ConfigError::Listen(a, m) => ConfigFault::Listen(a@, m@),
            ConfigError::MetricsListen(a, m) => ConfigFault::MetricsListen(a@, m@),
            ConfigError::DuplicateFs(n) => ConfigFault::DuplicateFs(n@),
            ConfigError::NoFilesystems => ConfigFault::NoFilesystems,
            ConfigError::NonAbsoluteMount(n) => ConfigFault::NonAbsoluteMount(n@),
            ConfigError::InvalidScheduler { field, value } => ConfigFault::InvalidScheduler {
                field: field@,
                value,
            },
        }
    }
}

/// The text that shows a fault.
pub open spec fn config_fault_text(f: ConfigFault) -> Seq<char> {
    match f {
        ConfigFault::Io { path, source } => "read config "@ + text::quoted_text(path) + ": "@ + source,
        ConfigFault::Toml(m) => "parse TOML: "@ + m,
        ConfigFault::Listen(a, m) => "invalid listen address "@ + text::quoted_text(a) + ": "@ + m,
        ConfigFault::MetricsListen(a, m) => "invalid metrics listen address "@ + text::quoted_text(a)
            + ": "@ + m,
        ConfigFault::DuplicateFs(n) => "duplicate fs_name "@ + text::quoted_text(n)
            + " in [[filesystems]]"@,
        ConfigFault::NoFilesystems => "at least one [[filesystems]] entry is required"@,
        ConfigFault::NonAbsoluteMount(n) => "filesystem "@ + text::quoted_text(n)
            + " mount_point must be absolute"@,
        ConfigFault::InvalidScheduler { field, value } => "scheduler."@ + field
            + " must be > 0, got "@ + text::decimal(value as nat),
    }
}

impl ConfigError {
    /// The error as a message.
    pub fn message(&self) -> (r: String)
        ensures
            r@ == config_fault_text(self@),
    {
        match self {
            ConfigError::Io { path, source } => {
                let mut s = "read config ".to_owned();
                s.push_str(text::quoted(path).as_str());
                s.push_str(": ");
                s.push_str(source.as_str());
                s
            },
            ConfigError::Toml(m) => {
                let mut s = "parse TOML: ".to_owned();
                s.push_str(m.as_str());
                s
            },
            ConfigError::Listen(a, m) => {
                let mut s = "invalid listen address ".to_owned();
                s.push_str(text::quoted(a).as_str());
                s.push_str(": ");
                s.push_str(m.as_str());
                s
            },
            ConfigError::MetricsListen(a, m) => {
                let mut s = "invalid metrics listen address ".to_owned();
                s.push_str(text::quoted(a).as_str());
                s.push_str(": ");
                s.push_str(m.as_str());
                s
            },
            ConfigError::DuplicateFs(n) => {
                let mut s = "duplicate fs_name ".to_owned();
                s.push_str(text::quoted(n).as_str());
                s.push_str(" in [[filesystems]]");
                s
            },
            ConfigError::NoFilesystems => "at least one [[filesystems]] entry is required".to_owned(),
            ConfigError::NonAbsoluteMount(n) => {
                let mut s = "filesystem ".to_owned();
                s.push_str(text::quoted(n).as_str());
                s.push_str(" mount_point must be absolute");
                s
            },
            ConfigError::InvalidScheduler { field, value } => {
                let mut s = "scheduler.".to_owned();
                s.push_str(*field);
                s.push_str(" must be > 0, got ");
                s.push_str(text::decimal_of(*value as u128).as_str());
                s
            },
        }
    }
}

/// The times and capacities as they are written; what is not written has its
/// default.
#[derive(Debug, Clone, Copy, PartialEq, Eq, Default, Structural)]
pub struct RawScheduler {
    pub worker_staleness_secs: Option<u64>,
    pub job_retention_secs: Option<u64>,
    pub prepare_timeout_secs: Option<u64>,
    pub start_delay_ms: Option<u64>,
    pub file_queue_capacity: Option<usize>,
    pub dir_queue_capacity: Option<usize>,
    pub dir_scan_concurrency: Option<usize>,
}

/// A file system as it is written, with what the system resolves its mount
/// point to, where it does.
#[derive(Debug)]
pub struct RawFilesystem {
    pub name: String,
    pub mount_point: String,
    pub resolved: Option<String>,
}

/// An address as it is written, with what it was read as, or why not.
#[derive(Debug)]
pub struct RawAddress {
    pub text: String,
    pub read: Result<String, String>,
}

/// A configuration as it is written.
#[derive(Debug)]
pub struct RawConfig {
    pub listen: RawAddress,
    pub metrics_listen: Option<RawAddress>,
    pub scheduler: RawScheduler,
    pub filesystems: Vec<RawFilesystem>,
}

/// A capacity that is written, or its default; zero is refused.
pub open spec fn capacity_of(field: Seq<char>, raw: Option<usize>, default: usize) -> Result<
    usize,
    ConfigFault,
> {
    match raw {
        None => Ok(default),
        Some(value) => if value == 0 {
            Err(ConfigFault::InvalidScheduler { field, value })
        } else {
            Ok(value)
        },
    }
}

/// A span of seconds that is written, or its default.
pub open spec fn seconds_or(raw: Option<u64>, default: Duration) -> Duration {
    match raw {
        Some(v) => seconds(v),
        None => default,
    }
}

/// The times and capacities in force.
pub open spec fn scheduler_of(raw: RawScheduler) -> Result<SchedulerConfig, ConfigFault> {
    let d = default_scheduler();
    match capacity_of("file_queue_capacity"@, raw.file_queue_capacity, d.file_queue_capacity) {
        Err(e) => Err(e),
        Ok(file_queue_capacity) => match capacity_of(
            "dir_queue_capacity"@,
            raw.dir_queue_capacity,
            d.dir_queue_capacity,
        ) {
            Err(e) => Err(e),
            Ok(dir_queue_capacity) => match capacity_of(
                "dir_scan_concurrency"@,
                raw.dir_scan_concurrency,
                d.dir_scan_concurrency,
            ) {
                Err(e) => Err(e),
                Ok(dir_scan_concurrency) => Ok(
                    SchedulerConfig {
                        worker_staleness: seconds_or(raw.worker_staleness_secs, d.worker_staleness),
                        job_retention: seconds_or(raw.job_retention_secs, d.job_retention),
                        prepare_timeout: seconds_or(raw.prepare_timeout_secs, d.prepare_timeout),
                        start_delay: match raw.start_delay_ms {
                            Some(v) => milliseconds(v),
                            None => d.start_delay,
                        },
                        file_queue_capacity,
                        dir_queue_capacity,
                        dir_scan_concurrency,
                    },
                ),
            },
        },
    }
}

fn read_capacity(field: &'static str, raw: Option<usize>, default: usize) -> (r: Result<
    usize,
    ConfigError,
>)
    ensures
        match r {
            Ok(v) => capacity_of(field@, raw, default) == Ok::<usize, ConfigFault>(v),
            Err(e) => capacity_of(field@, raw, default) == Err::<usize, ConfigFault>(e@),
        },
{
    match raw {
        None => Ok(default),
        Some(value) => if value == 0 {
            Err(ConfigError::InvalidScheduler { field, value })
        } else {
            Ok(value)
        },
    }
}

fn read_seconds(raw: Option<u64>, default: Duration) -> (r: Duration)
    ensures
        r == seconds_or(raw, default),
{
    match raw {
        Some(v) => Duration::from_secs(v),
        None => default,
    }
}

/// Reads the times and capacities.
pub fn apply_scheduler(raw: &RawScheduler) -> (r: Result<SchedulerConfig, ConfigError>)
    ensures
        match r {
            Ok(v) => scheduler_of(*raw) == Ok::<SchedulerConfig, ConfigFault>(v),
            Err(e) => scheduler_of(*raw) == Err::<SchedulerConfig, ConfigFault>(e@),
        },
{
    let d = SchedulerConfig::default();
    let file_queue_capacity: usize = match read_capacity(
        "file_queue_capacity",
        raw.file_queue_capacity,
        d.file_queue_capacity,
    ) {
        Ok(v) => v,
        Err(e) => {
            return Err(e);
        },
    };
    let dir_queue_capacity: usize = match read_capacity(
        "dir_queue_capacity",
        raw.dir_queue_capacity,
        d.dir_queue_capacity,
    ) {
        Ok(v) => v,
        Err(e) => {
            return Err(e);
        },
    };
    let dir_scan_concurrency: usize = match read_capacity(
        "dir_scan_concurrency",
        raw.dir_scan_concurrency,
        d.dir_scan_concurrency,
    ) {
        Ok(v) => v,
        Err(e) => {
            return Err(e);
        },
    };
    Ok(
        SchedulerConfig {
            worker_staleness: read_seconds(raw.worker_staleness_secs, d.worker_staleness),
            job_retention: read_seconds(raw.job_retention_secs, d.job_retention),
            prepare_timeout: read_seconds(raw.prepare_timeout_secs, d.prepare_timeout),
            start_delay: match raw.start_delay_ms {
                Some(v) => Duration::from_millis(v),
                None => d.start_delay,
            },
            file_queue_capacity,
            dir_queue_capacity,
            dir_scan_concurrency,
        },
    )
}

/// The mount point in force: what the system resolves it to, else as written.
pub open spec fn mount_of(f: RawFilesystem) -> Seq<char> {
    match f.resolved {
        Some(p) => p@,
        None => f.mount_point@,
    }
}

/// The mount points by name, or what is wrong with the first file system that
/// is not accepted: its mount point is not absolute, or its name is taken.
pub open spec fn mounts_of(fs: Seq<RawFilesystem>) -> Result<Seq<(Seq<char>, Seq<char>)>, ConfigFault>
    decreases fs.len(),
{
    if fs.len() == 0 {
        Ok(Seq::empty())
    } else {
        let f = fs.last();
        match mounts_of(fs.drop_last()) {
            Err(e) => Err(e),
            Ok(m) => if f.mount_point@.len() == 0 || f.mount_point@[0] != '/' {
                Err(ConfigFault::NonAbsoluteMount(f.name@))
            } else if has_key(m, f.name@) {
                Err(ConfigFault::DuplicateFs(f.name@))
            } else {
                Ok(m.push((f.name@, mount_of(f))))
            },
        }
    }
}

/// Once a file system is not accepted, no longer list is.
proof fn lemma_mounts_fault(fs: Seq<RawFilesystem>, n: int)
    requires
        0 <= n <= fs.len(),
        mounts_of(fs.take(n)) is Err,
    ensures
        mounts_of(fs) == mounts_of(fs.take(n)),
    decreases fs.len() - n,
{
    if n == fs.len() {
        assert(fs.take(n) =~= fs);
    } else {
        assert(fs.take(n + 1).drop_last() =~= fs.take(n));
        lemma_mounts_fault(fs, n + 1);
    }
}

fn read_mounts(fs: &Vec<RawFilesystem>) -> (r: Result<StrMap<String>, ConfigError>)
    ensures
        match r {
            Ok(m) => mounts_of(fs@) == Ok::<Seq<(Seq<char>, Seq<char>)>, ConfigFault>(
                entry_views(m.seq()),
            ),
            Err(e) => mounts_of(fs@) == Err::<Seq<(Seq<char>, Seq<char>)>, ConfigFault>(e@),
        },
{
    let mut out: StrMap<String> = StrMap::new();
    let mut i: usize = 0;
    assert(entry_views(out.seq()) =~= Seq::<(Seq<char>, Seq<char>)>::empty());
    while i < fs.len()
        invariant
            i <= fs@.len(),
            mounts_of(fs@.take(i as int)) == Ok::<Seq<(Seq<char>, Seq<char>)>, ConfigFault>(
                entry_views(out.seq()),
            ),
        decreases fs@.len() - i,
    {
        let f = &fs[i];
        let ghost next = fs@.take(i as int + 1);
        proof {
            assert(next.drop_last() =~= fs@.take(i as int));
            assert(next.last() == *f);
        }
        let written = text::chars_of(f.mount_point.as_str());
        if written.len() == 0 || written[0] != '/' {
            proof {
                lemma_mounts_fault(fs@, i as int + 1);
            }
            return Err(ConfigError::NonAbsoluteMount(f.name.clone()));
        }
        let _ = out.len();
        proof {
            lemma_viewed_keys(out.seq(), f.name@);
        }
        if out.contains_key(f.name.as_str()) {
            proof {
                lemma_mounts_fault(fs@, i as int + 1);
            }
            return Err(ConfigError::DuplicateFs(f.name.clone()));
        }
        let mount = match &f.resolved {
            Some(p) => p.clone(),
            None => f.mount_point.clone(),
        };
        proof {
            lemma_viewed_put(out.seq(), f.name@, mount);
        }
        out.insert(f.name.clone(), mount);
        i += 1;
    }
    assert(fs@.take(i as int) =~= fs@);
    Ok(out)
}

/// What a configuration means.
#[verifier::ext_equal]
pub struct ConfigView {
    pub listen: Seq<char>,
    pub metrics_listen: Option<Seq<char>>,
    pub scheduler: SchedulerConfig,
    pub filesystems: Seq<(Seq<char>, Seq<char>)>,
}

impl View for MasterConfig {
    type V = ConfigView;

    open spec fn view(&self) -> ConfigView {
        ConfigView {
            listen: self.listen@,
            metrics_listen: crate::views::opt_text(self.metrics_listen),
            scheduler: self.scheduler,
            filesystems: entry_views(self.filesystems.seq()),
        }
    }
}

/// The address for metrics, where one is written.
pub open spec fn metrics_address_of(raw: Option<RawAddress>) -> Result<
    Option<Seq<char>>,
    ConfigFault,
> {
    match raw {
        None => Ok(None),
        Some(a) => match a.read {
            Ok(x) => Ok(Some(x@)),
            Err(m) => Err(ConfigFault::MetricsListen(a.text@, m@)),
        },
    }
}

/// The configuration that is written, or what is wrong with it.
pub open spec fn config_of(raw: RawConfig) -> Result<ConfigView, ConfigFault> {
    match raw.listen.read {
        Err(m) => Err(ConfigFault::Listen(raw.listen.text@, m@)),
        Ok(listen) => match metrics_address_of(raw.metrics_listen) {
            Err(e) => Err(e),
            Ok(metrics_listen) => match scheduler_of(raw.scheduler) {
                Err(e) => Err(e),
                Ok(scheduler) => if raw.filesystems@.len() == 0 {
                    Err(ConfigFault::NoFilesystems)
                } else {
                    match mounts_of(raw.filesystems@) {
                        Err(e) => Err(e),
                        Ok(filesystems) => Ok(
                            ConfigView { listen: listen@, metrics_listen, scheduler, filesystems },
                        ),
                    }
                },
            },
        },
    }
}

/// Checks a configuration and fills in its defaults.
pub fn from_raw(raw: RawConfig) -> (r: Result<MasterConfig, ConfigError>)
    ensures
        match r {
            Ok(c) => config_of(raw) == Ok::<ConfigView, ConfigFault>(c@),
            Err(e) => config_of(raw) == Err::<ConfigView, ConfigFault>(e@),
        },
{
    let listen = match raw.listen.read {
        Ok(a) => a,
        Err(m) => {
            return Err(ConfigError::Listen(raw.listen.text, m));
        },
    };
    let metrics_listen = match raw.metrics_listen {
        None => None,
        Some(a) => match a.read {
            Ok(x) => Some(x),
            Err(m) => {
                return Err(ConfigError::MetricsListen(a.text, m));
            },
        },
    };
    let scheduler = match apply_scheduler(&raw.scheduler) {
        Ok(v) => v,
        Err(e) => {
            return Err(e);
        },
    };
    if raw.filesystems.len() == 0 {
        return Err(ConfigError::NoFilesystems);
    }
    let filesystems = match read_mounts(&raw.filesystems) {
        Ok(v) => v,
        Err(e) => {
            return Err(e);
        },
    };
    Ok(MasterConfig { listen, metrics_listen, scheduler, filesystems })
}

/// Capacities in force are never zero.
pub proof fn law_capacities_are_positive(raw: RawScheduler)
    ensures
        scheduler_of(raw) matches Ok(c) ==> c.file_queue_capacity > 0 && c.dir_queue_capacity > 0
            && c.dir_scan_concurrency > 0,
{
}

} // verus!
