//! The messages that the master, its workers and its clients exchange, as
//! plain values.

use vstd::prelude::*;

use crate::strmap::StrMap;
use crate::text;
use crate::views::{
    copy_bytes, copy_map, copy_opt, copy_opt_text, copy_texts, copy_vec, entry_views, opt_text, opt_view,
    seq_views, Duplicate,
};

verus! {

/// A number that is shown or sent in floating point: one that came in that way,
/// by its bits; an exact fraction; or a statistic of the histogram that stands
/// beside it, such as the value below which `permille` of 1000 samples lie.
#[derive(Debug, Clone, Copy, PartialEq, Eq, Structural)]
pub enum Number {
    Float { bits: u64 },
    Ratio { num: i128, den: u128 },
    Quantile { permille: u32 },
    Mean,
}

impl Number {
    /// An integer.
    pub open spec fn spec_whole(n: u64) -> Number {
        Number::Ratio { num: n as i128, den: 1 }
    }

    /// An integer.
    pub fn whole(n: u64) -> (r: Number)
        ensures
            r == Number::spec_whole(n),
    {
        Number::Ratio { num: n as i128, den: 1 }
    }

    /// Zero.
    pub open spec fn spec_zero() -> Number {
        Number::Float { bits: 0 }
    }

    /// Zero.
    pub fn zero() -> (r: Number)
        ensures
            r == Number::spec_zero(),
    {
        Number::Float { bits: 0 }
    }
}

impl Default for Number {
    fn default() -> (r: Number)
        ensures
            r == Number::spec_zero(),
    {
        Number::zero()
    }
}

/// Percentiles of a latency, its maximum and its mean, in microseconds.
#[derive(Debug, Clone, Copy, PartialEq, Eq, Default, Structural)]
pub struct LatencyStats {
    pub p50: Number,
    pub p95: Number,
    pub p99: Number,
    pub p999: Number,
    pub max: Number,
    pub avg: Number,
}

impl LatencyStats {
    /// The statistics of no samples.
    pub open spec fn spec_none() -> LatencyStats {
        LatencyStats {
            p50: Number::spec_zero(),
            p95: Number::spec_zero(),
            p99: Number::spec_zero(),
            p999: Number::spec_zero(),
            max: Number::spec_zero(),
            avg: Number::spec_zero(),
        }
    }

    /// The statistics of the histogram that stands beside them, whose maximum is
    /// `maximum`.
    pub open spec fn spec_of_histogram(maximum: u64) -> LatencyStats {
        LatencyStats {
            p50: Number::Quantile { permille: 500 },
            p95: Number::Quantile { permille: 950 },
            p99: Number::Quantile { permille: 990 },
            p999: Number::Quantile { permille: 999 },
            max: Number::spec_whole(maximum),
            avg: Number::Mean,
        }
    }

    /// The statistics of no samples.
    pub fn none() -> (r: LatencyStats)
        ensures
            r == LatencyStats::spec_none(),
    {
        LatencyStats {
            p50: Number::zero(),
            p95: Number::zero(),
            p99: Number::zero(),
            p999: Number::zero(),
            max: Number::zero(),
            avg: Number::zero(),
        }
    }

    /// The statistics of the histogram that stands beside them, whose maximum is
    /// `maximum`.
    pub fn of_histogram(maximum: u64) -> (r: LatencyStats)
        ensures
            r == LatencyStats::spec_of_histogram(maximum),
    {
        LatencyStats {
            p50: Number::Quantile { permille: 500 },
            p95: Number::Quantile { permille: 950 },
            p99: Number::Quantile { permille: 990 },
            p999: Number::Quantile { permille: 999 },
            max: Number::whole(maximum),
            avg: Number::Mean,
        }
    }
}

/// Where a job is in its life.
#[derive(Debug, Clone, Copy, PartialEq, Eq, Structural)]
pub enum JobStatus {
    Unspecified,
    Pending,
    Preparing,
    Running,
    Completed,
    Failed,
    Cancelled,
}

impl JobStatus {
    /// The number that stands for the value in messages.
    pub open spec fn code(self) -> i32 {
        match self {
            JobStatus::Unspecified => 0,
            JobStatus::Pending => 1,
            JobStatus::Preparing => 2,
            JobStatus::Running => 3,
            JobStatus::Completed => 4,
            JobStatus::Failed => 5,
            JobStatus::Cancelled => 6,
        }
    }

    /// The number that stands for the value in messages.
    pub fn to_i32(self) -> (r: i32)
        ensures
            r == self.code(),
    {
        match self {
            JobStatus::Unspecified => 0,
            JobStatus::Pending => 1,
            JobStatus::Preparing => 2,
            JobStatus::Running => 3,
            JobStatus::Completed => 4,
            JobStatus::Failed => 5,
            JobStatus::Cancelled => 6,
        }
    }

    /// The value that a number in a message stands for.
    pub open spec fn decoded(code: i32) -> Option<JobStatus> {
        if code == 0 {
            Some(JobStatus::Unspecified)
        } else if code == 1 {
            Some(JobStatus::Pending)
        } else if code == 2 {
            Some(JobStatus::Preparing)
        } else if code == 3 {
            Some(JobStatus::Running)
        } else if code == 4 {
            Some(JobStatus::Completed)
        } else if code == 5 {
            Some(JobStatus::Failed)
        } else if code == 6 {
            Some(JobStatus::Cancelled)
        } else {
            None
        }
    }

    /// The value that a number in a message stands for.
    pub fn from_i32(code: i32) -> (r: Option<JobStatus>)
        ensures
            r == JobStatus::decoded(code),
    {
        match code {
            0 => Some(JobStatus::Unspecified),
            1 => Some(JobStatus::Pending),
            2 => Some(JobStatus::Preparing),
            3 => Some(JobStatus::Running),
            4 => Some(JobStatus::Completed),
            5 => Some(JobStatus::Failed),
            6 => Some(JobStatus::Cancelled),
            _ => None,
        }
    }
}

/// What an event tells of.
#[derive(Debug, Clone, Copy, PartialEq, Eq, Structural)]
pub enum EventKind {
    Unspecified,
    StatusChange,
    Progress,
    Result,
    Error,
}

impl EventKind {
    /// The number that stands for the value in messages.
    pub open spec fn code(self) -> i32 {
        match self {
            EventKind::Unspecified => 0,
            EventKind::StatusChange => 1,
            EventKind::Progress => 2,
            EventKind::Result => 3,
            EventKind::Error => 4,
        }
    }

    /// The number that stands for the value in messages.
    pub fn to_i32(self) -> (r: i32)
        ensures
            r == self.code(),
    {
        match self {
            EventKind::Unspecified => 0,
            EventKind::StatusChange => 1,
            EventKind::Progress => 2,
            EventKind::Result => 3,
            EventKind::Error => 4,
        }
    }

    /// The value that a number in a message stands for.
    pub open spec fn decoded(code: i32) -> Option<EventKind> {
        if code == 0 {
            Some(EventKind::Unspecified)
        } else if code == 1 {
            Some(EventKind::StatusChange)
        } else if code == 2 {
            Some(EventKind::Progress)
        } else if code == 3 {
            Some(EventKind::Result)
        } else if code == 4 {
            Some(EventKind::Error)
        } else {
            None
        }
    }

    /// The value that a number in a message stands for.
    pub fn from_i32(code: i32) -> (r: Option<EventKind>)
        ensures
            r == EventKind::decoded(code),
    {
        match code {
            0 => Some(EventKind::Unspecified),
            1 => Some(EventKind::StatusChange),
            2 => Some(EventKind::Progress),
            3 => Some(EventKind::Result),
            4 => Some(EventKind::Error),
            _ => None,
        }
    }
}

/// What a worker is doing.
#[derive(Debug, Clone, Copy, PartialEq, Eq, Structural)]
pub enum WorkerPhase {
    Unspecified,
    Preparing,
    WaitingStart,
    Warmup,
    Measuring,
    Cleanup,
    Finished,
}

impl WorkerPhase {
    /// The number that stands for the value in messages.
    pub open spec fn code(self) -> i32 {
        match self {
            WorkerPhase::Unspecified => 0,
            WorkerPhase::Preparing => 1,
            WorkerPhase::WaitingStart => 2,
            WorkerPhase::Warmup => 3,
            WorkerPhase::Measuring => 4,
            WorkerPhase::Cleanup => 5,
            WorkerPhase::Finished => 6,
        }
    }

    /// The number that stands for the value in messages.
    pub fn to_i32(self) -> (r: i32)
        ensures
            r == self.code(),
    {
        match self {
            WorkerPhase::Unspecified => 0,
            WorkerPhase::Preparing => 1,
            WorkerPhase::WaitingStart => 2,
            WorkerPhase::Warmup => 3,
            WorkerPhase::Measuring => 4,
            WorkerPhase::Cleanup => 5,
            WorkerPhase::Finished => 6,
        }
    }

    /// The value that a number in a message stands for.
    pub open spec fn decoded(code: i32) -> Option<WorkerPhase> {
        if code == 0 {
            Some(WorkerPhase::Unspecified)
        } else if code == 1 {
            Some(WorkerPhase::Preparing)
        } else if code == 2 {
            Some(WorkerPhase::WaitingStart)
        } else if code == 3 {
            Some(WorkerPhase::Warmup)
        } else if code == 4 {
            Some(WorkerPhase::Measuring)
        } else if code == 5 {
            Some(WorkerPhase::Cleanup)
        } else if code == 6 {
            Some(WorkerPhase::Finished)
        } else {
            None
        }
    }

    /// The value that a number in a message stands for.
    pub fn from_i32(code: i32) -> (r: Option<WorkerPhase>)
        ensures
            r == WorkerPhase::decoded(code),
    {
        match code {
            0 => Some(WorkerPhase::Unspecified),
            1 => Some(WorkerPhase::Preparing),
            2 => Some(WorkerPhase::WaitingStart),
            3 => Some(WorkerPhase::Warmup),
            4 => Some(WorkerPhase::Measuring),
            5 => Some(WorkerPhase::Cleanup),
            6 => Some(WorkerPhase::Finished),
            _ => None,
        }
    }
}

/// Where a read workload checks files against an object store.
#[derive(Debug, PartialEq, Eq, Default)]
pub struct ConsistencyConfig {
    pub bucket_name: String,
    pub bucket_url: String,
    pub access_key: String,
    pub secret_key: String,
    pub region: String,
    pub prefix: String,
    pub session_token: String,
}

/// What a [`ConsistencyConfig`] holds.
#[verifier::ext_equal]
pub struct ConsistencyConfigView {
    pub bucket_name: Seq<char>,
    pub bucket_url: Seq<char>,
    pub access_key: Seq<char>,
    pub secret_key: Seq<char>,
    pub region: Seq<char>,
    pub prefix: Seq<char>,
    pub session_token: Seq<char>,
}

impl View for ConsistencyConfig {
    type V = ConsistencyConfigView;

    open spec fn view(&self) -> ConsistencyConfigView {
        ConsistencyConfigView {
            bucket_name: self.bucket_name@,
            bucket_url: self.bucket_url@,
            access_key: self.access_key@,
            secret_key: self.secret_key@,
            region: self.region@,
            prefix: self.prefix@,
            session_token: self.session_token@,
        }
    }
}

impl Duplicate for ConsistencyConfig {
    fn copy(&self) -> (r: Self) {
        let r = ConsistencyConfig {
            bucket_name: self.bucket_name.clone(),
            bucket_url: self.bucket_url.clone(),
            access_key: self.access_key.clone(),
            secret_key: self.secret_key.clone(),
            region: self.region.clone(),
            prefix: self.prefix.clone(),
            session_token: self.session_token.clone(),
        };
        assert(r@ =~= self@);
        r
    }
}

impl Clone for ConsistencyConfig {
    fn clone(&self) -> (r: Self)
        ensures
            r@ == self@,
    {
        self.copy()
    }
}

/// A read workload.
#[derive(Debug, PartialEq, Eq, Default)]
pub struct ReadConfig {
    pub concurrency: i32,
    pub file_manifest: String,
    pub dir_manifest: String,
    pub think_time: String,
    pub rate_limit: String,
    pub s3_consistency_check: Option<ConsistencyConfig>,
    pub loop_files: bool,
}

/// What a [`ReadConfig`] holds.
#[verifier::ext_equal]
pub struct ReadConfigView {
    pub concurrency: i32,
    pub file_manifest: Seq<char>,
    pub dir_manifest: Seq<char>,
    pub think_time: Seq<char>,
    pub rate_limit: Seq<char>,
    pub s3_consistency_check: Option<ConsistencyConfigView>,
    pub loop_files: bool,
}

impl View for ReadConfig {
    type V = ReadConfigView;

    open spec fn view(&self) -> ReadConfigView {
        ReadConfigView {
            concurrency: self.concurrency,
            file_manifest: self.file_manifest@,
            dir_manifest: self.dir_manifest@,
            think_time: self.think_time@,
            rate_limit: self.rate_limit@,
            s3_consistency_check: opt_view(self.s3_consistency_check),
            loop_files: self.loop_files,
        }
    }
}

impl Duplicate for ReadConfig {
    fn copy(&self) -> (r: Self) {
        let r = ReadConfig {
            concurrency: self.concurrency,
            file_manifest: self.file_manifest.clone(),
            dir_manifest: self.dir_manifest.clone(),
            think_time: self.think_time.clone(),
            rate_limit: self.rate_limit.clone(),
            s3_consistency_check: copy_opt(&self.s3_consistency_check),
            loop_files: self.loop_files,
        };
        assert(r@ =~= self@);
        r
    }
}

impl Clone for ReadConfig {
    fn clone(&self) -> (r: Self)
        ensures
            r@ == self@,
    {
        self.copy()
    }
}

/// A range of file sizes.
#[derive(Debug, PartialEq, Eq, Default)]
pub struct FileSizeRange {
    pub min: String,
    pub max: String,
    pub distribution: String,
}

/// What a [`FileSizeRange`] holds.
#[verifier::ext_equal]
pub struct FileSizeRangeView {
    pub min: Seq<char>,
    pub max: Seq<char>,
    pub distribution: Seq<char>,
}

impl View for FileSizeRange {
    type V = FileSizeRangeView;

    open spec fn view(&self) -> FileSizeRangeView {
        FileSizeRangeView {
            min: self.min@,
            max: self.max@,
            distribution: self.distribution@,
        }
    }
}

impl Duplicate for FileSizeRange {
    fn copy(&self) -> (r: Self) {
        let r = FileSizeRange {
            min: self.min.clone(),
            max: self.max.clone(),
            distribution: self.distribution.clone(),
        };
        assert(r@ =~= self@);
        r
    }
}

impl Clone for FileSizeRange {
    fn clone(&self) -> (r: Self)
        ensures
            r@ == self@,
    {
        self.copy()
    }
}

/// A write workload.
#[derive(Debug, PartialEq, Eq, Default)]
pub struct WriteConfig {
    pub concurrency: i32,
    pub dir: String,
    pub file_size: String,
    pub file_size_range: Option<FileSizeRange>,
    pub fsync: bool,
    pub cleanup: bool,
    pub think_time: String,
    pub rate_limit: String,
    pub verify_after_write: bool,
}

/// What a [`WriteConfig`] holds.
#[verifier::ext_equal]
pub struct WriteConfigView {
    pub concurrency: i32,
    pub dir: Seq<char>,
    pub file_size: Seq<char>,
    pub file_size_range: Option<FileSizeRangeView>,
    pub fsync: bool,
    pub cleanup: bool,
    pub think_time: Seq<char>,
    pub rate_limit: Seq<char>,
    pub verify_after_write: bool,
}

impl View for WriteConfig {
    type V = WriteConfigView;

    open spec fn view(&self) -> WriteConfigView {
        WriteConfigView {
            concurrency: self.concurrency,
            dir: self.dir@,
            file_size: self.file_size@,
            file_size_range: opt_view(self.file_size_range),
            fsync: self.fsync,
            cleanup: self.cleanup,
            think_time: self.think_time@,
            rate_limit: self.rate_limit@,
            verify_after_write: self.verify_after_write,
        }
    }
}

impl Duplicate for WriteConfig {
    fn copy(&self) -> (r: Self) {
        let r = WriteConfig {
            concurrency: self.concurrency,
            dir: self.dir.clone(),
            file_size: self.file_size.clone(),
            file_size_range: copy_opt(&self.file_size_range),
            fsync: self.fsync,
            cleanup: self.cleanup,
            think_time: self.think_time.clone(),
            rate_limit: self.rate_limit.clone(),
            verify_after_write: self.verify_after_write,
        };
        assert(r@ =~= self@);
        r
    }
}

impl Clone for WriteConfig {
    fn clone(&self) -> (r: Self)
        ensures
            r@ == self@,
    {
        self.copy()
    }
}

/// A metadata workload.
#[derive(Debug, PartialEq, Eq, Default)]
pub struct MetadataConfig {
    pub concurrency: i32,
    pub dir: String,
    pub ops: Vec<String>,
    pub depth: i32,
    pub width: i32,
    pub files_per_dir: i32,
    pub think_time: String,
    pub rate_limit: String,
    pub layout_concurrency: i32,
    pub read_only: bool,
    pub read_only_scan_limit: i32,
    pub dir_manifest: String,
}

/// What a [`MetadataConfig`] holds.
#[verifier::ext_equal]
pub struct MetadataConfigView {
    pub concurrency: i32,
    pub dir: Seq<char>,
    pub ops: Seq<Seq<char>>,
    pub depth: i32,
    pub width: i32,
    pub files_per_dir: i32,
    pub think_time: Seq<char>,
    pub rate_limit: Seq<char>,
    pub layout_concurrency: i32,
    pub read_only: bool,
    pub read_only_scan_limit: i32,
    pub dir_manifest: Seq<char>,
}

impl View for MetadataConfig {
    type V = MetadataConfigView;

    open spec fn view(&self) -> MetadataConfigView {
        MetadataConfigView {
            concurrency: self.concurrency,
            dir: self.dir@,
            ops: text::views(self.ops@),
            depth: self.depth,
            width: self.width,
            files_per_dir: self.files_per_dir,
            think_time: self.think_time@,
            rate_limit: self.rate_limit@,
            layout_concurrency: self.layout_concurrency,
            read_only: self.read_only,
            read_only_scan_limit: self.read_only_scan_limit,
            dir_manifest: self.dir_manifest@,
        }
    }
}

impl Duplicate for MetadataConfig {
    fn copy(&self) -> (r: Self) {
        let r = MetadataConfig {
            concurrency: self.concurrency,
            dir: self.dir.clone(),
            ops: copy_texts(&self.ops),
            depth: self.depth,
            width: self.width,
            files_per_dir: self.files_per_dir,
            think_time: self.think_time.clone(),
            rate_limit: self.rate_limit.clone(),
            layout_concurrency: self.layout_concurrency,
            read_only: self.read_only,
            read_only_scan_limit: self.read_only_scan_limit,
            dir_manifest: self.dir_manifest.clone(),
        };
        assert(r@ =~= self@);
        r
    }
}

impl Clone for MetadataConfig {
    fn clone(&self) -> (r: Self)
        ensures
            r@ == self@,
    {
        self.copy()
    }
}

/// What a job is to run, in text form.
#[derive(Debug, PartialEq, Eq, Default)]
pub struct BenchSpec {
    pub fs_name: String,
    pub io_mode: String,
    pub io_aligned: bool,
    pub direct_io: bool,
    pub block_size: String,
    pub duration: String,
    pub warmup: String,
    pub read: Option<ReadConfig>,
    pub write: Option<WriteConfig>,
    pub metadata: Option<MetadataConfig>,
    pub target_workers: i32,
}

/// What a [`BenchSpec`] holds.
#[verifier::ext_equal]
pub struct BenchSpecView {
    pub fs_name: Seq<char>,
    pub io_mode: Seq<char>,
    pub io_aligned: bool,
    pub direct_io: bool,
    pub block_size: Seq<char>,
    pub duration: Seq<char>,
    pub warmup: Seq<char>,
    pub read: Option<ReadConfigView>,
    pub write: Option<WriteConfigView>,
    pub metadata: Option<MetadataConfigView>,
    pub target_workers: i32,
}

impl View for BenchSpec {
    type V = BenchSpecView;

    open spec fn view(&self) -> BenchSpecView {
        BenchSpecView {
            fs_name: self.fs_name@,
            io_mode: self.io_mode@,
            io_aligned: self.io_aligned,
            direct_io: self.direct_io,
            block_size: self.block_size@,
            duration: self.duration@,
            warmup: self.warmup@,
            read: opt_view(self.read),
            write: opt_view(self.write),
            metadata: opt_view(self.metadata),
            target_workers: self.target_workers,
        }
    }
}

impl Duplicate for BenchSpec {
    fn copy(&self) -> (r: Self) {
        let r = BenchSpec {
            fs_name: self.fs_name.clone(),
            io_mode: self.io_mode.clone(),
            io_aligned: self.io_aligned,
            direct_io: self.direct_io,
            block_size: self.block_size.clone(),
            duration: self.duration.clone(),
            warmup: self.warmup.clone(),
            read: copy_opt(&self.read),
            write: copy_opt(&self.write),
            metadata: copy_opt(&self.metadata),
            target_workers: self.target_workers,
        };
        assert(r@ =~= self@);
        r
    }
}

impl Clone for BenchSpec {
    fn clone(&self) -> (r: Self)
        ensures
            r@ == self@,
    {
        self.copy()
    }
}

/// The credentials of a consistency check.
#[derive(Debug, PartialEq, Eq, Default)]
pub struct S3CredentialMaterial {
    pub access_key: String,
    pub secret_key: String,
    pub session_token: String,
}

/// What a [`S3CredentialMaterial`] holds.
#[verifier::ext_equal]
pub struct S3CredentialMaterialView {
    pub access_key: Seq<char>,
    pub secret_key: Seq<char>,
    pub session_token: Seq<char>,
}

impl View for S3CredentialMaterial {
    type V = S3CredentialMaterialView;

    open spec fn view(&self) -> S3CredentialMaterialView {
        S3CredentialMaterialView {
            access_key: self.access_key@,
            secret_key: self.secret_key@,
            session_token: self.session_token@,
        }
    }
}

impl Duplicate for S3CredentialMaterial {
    fn copy(&self) -> (r: Self) {
        let r = S3CredentialMaterial {
            access_key: self.access_key.clone(),
            secret_key: self.secret_key.clone(),
            session_token: self.session_token.clone(),
        };
        assert(r@ =~= self@);
        r
    }
}

impl Clone for S3CredentialMaterial {
    fn clone(&self) -> (r: Self)
        ensures
            r@ == self@,
    {
        self.copy()
    }
}

/// What was measured of one kind of operation. The histogram is in its encoded form.
#[derive(Debug, PartialEq, Eq, Default)]
pub struct PerformanceMetrics {
    pub throughput_mbps: Number,
    pub iops: Number,
    pub latency_us: Option<LatencyStats>,
    pub error_count: i64,
    pub error_rate: Number,
    pub total_ops: i64,
    pub total_bytes: i64,
    pub latency_histogram_hdr: Vec<u8>,
}

/// What a [`PerformanceMetrics`] holds.
#[verifier::ext_equal]
pub struct PerformanceMetricsView {
    pub throughput_mbps: Number,
    pub iops: Number,
    pub latency_us: Option<LatencyStats>,
    pub error_count: i64,
    pub error_rate: Number,
    pub total_ops: i64,
    pub total_bytes: i64,
    pub latency_histogram_hdr: Seq<u8>,
}

impl View for PerformanceMetrics {
    type V = PerformanceMetricsView;

    open spec fn view(&self) -> PerformanceMetricsView {
        PerformanceMetricsView {
            throughput_mbps: self.throughput_mbps,
            iops: self.iops,
            latency_us: self.latency_us,
            error_count: self.error_count,
            error_rate: self.error_rate,
            total_ops: self.total_ops,
            total_bytes: self.total_bytes,
            latency_histogram_hdr: self.latency_histogram_hdr@,
        }
    }
}

impl Duplicate for PerformanceMetrics {
    fn copy(&self) -> (r: Self) {
        let r = PerformanceMetrics {
            throughput_mbps: self.throughput_mbps,
            iops: self.iops,
            latency_us: self.latency_us,
            error_count: self.error_count,
            error_rate: self.error_rate,
            total_ops: self.total_ops,
            total_bytes: self.total_bytes,
            latency_histogram_hdr: copy_bytes(&self.latency_histogram_hdr),
        };
        assert(r@ =~= self@);
        r
    }
}

impl Clone for PerformanceMetrics {
    fn clone(&self) -> (r: Self)
        ensures
            r@ == self@,
    {
        self.copy()
    }
}

/// A file that differs from its object.
#[derive(Debug, PartialEq, Eq, Default)]
pub struct ConsistencyError {
    pub message: String,
}

/// What a [`ConsistencyError`] holds.
#[verifier::ext_equal]
pub struct ConsistencyErrorView {
    pub message: Seq<char>,
}

impl View for ConsistencyError {
    type V = ConsistencyErrorView;

    open spec fn view(&self) -> ConsistencyErrorView {
        ConsistencyErrorView {
            message: self.message@,
        }
    }
}

impl Duplicate for ConsistencyError {
    fn copy(&self) -> (r: Self) {
        let r = ConsistencyError {
            message: self.message.clone(),
        };
        assert(r@ =~= self@);
        r
    }
}

impl Clone for ConsistencyError {
    fn clone(&self) -> (r: Self)
        ensures
            r@ == self@,
    {
        self.copy()
    }
}

/// What a worker reports at its end.
#[derive(Debug, PartialEq, Eq, Default)]
pub struct WorkerResult {
    pub worker_id: String,
    pub per_op: StrMap<PerformanceMetrics>,
    pub consistency_errors: Vec<ConsistencyError>,
    pub success: bool,
    pub error: Option<String>,
    pub effective_duration_ms: i64,
    pub measure_start_ms: i64,
    pub measure_end_ms: i64,
}

/// What a [`WorkerResult`] holds.
#[verifier::ext_equal]
pub struct WorkerResultView {
    pub worker_id: Seq<char>,
    pub per_op: Seq<(Seq<char>, PerformanceMetricsView)>,
    pub consistency_errors: Seq<ConsistencyErrorView>,
    pub success: bool,
    pub error: Option<Seq<char>>,
    pub effective_duration_ms: i64,
    pub measure_start_ms: i64,
    pub measure_end_ms: i64,
}

impl View for WorkerResult {
    type V = WorkerResultView;

    open spec fn view(&self) -> WorkerResultView {
        WorkerResultView {
            worker_id: self.worker_id@,
            per_op: entry_views(self.per_op.seq()),
            consistency_errors: seq_views(self.consistency_errors@),
            success: self.success,
            error: opt_text(self.error),
            effective_duration_ms: self.effective_duration_ms,
            measure_start_ms: self.measure_start_ms,
            measure_end_ms: self.measure_end_ms,
        }
    }
}

impl Duplicate for WorkerResult {
    fn copy(&self) -> (r: Self) {
        let r = WorkerResult {
            worker_id: self.worker_id.clone(),
            per_op: copy_map(&self.per_op),
            consistency_errors: copy_vec(&self.consistency_errors),
            success: self.success,
            error: copy_opt_text(&self.error),
            effective_duration_ms: self.effective_duration_ms,
            measure_start_ms: self.measure_start_ms,
            measure_end_ms: self.measure_end_ms,
        };
        assert(r@ =~= self@);
        r
    }
}

impl Clone for WorkerResult {
    fn clone(&self) -> (r: Self)
        ensures
            r@ == self@,
    {
        self.copy()
    }
}

/// What a worker reports on its way.
#[derive(Debug, PartialEq, Eq, Default)]
pub struct WorkerProgress {
    pub worker_id: String,
    pub elapsed_ms: i64,
    pub per_op: StrMap<PerformanceMetrics>,
    pub phase: i32,
}

/// What a [`WorkerProgress`] holds.
#[verifier::ext_equal]
pub struct WorkerProgressView {
    pub worker_id: Seq<char>,
    pub elapsed_ms: i64,
    pub per_op: Seq<(Seq<char>, PerformanceMetricsView)>,
    pub phase: i32,
}

impl View for WorkerProgress {
    type V = WorkerProgressView;

    open spec fn view(&self) -> WorkerProgressView {
        WorkerProgressView {
            worker_id: self.worker_id@,
            elapsed_ms: self.elapsed_ms,
            per_op: entry_views(self.per_op.seq()),
            phase: self.phase,
        }
    }
}

impl Duplicate for WorkerProgress {
    fn copy(&self) -> (r: Self) {
        let r = WorkerProgress {
            worker_id: self.worker_id.clone(),
            elapsed_ms: self.elapsed_ms,
            per_op: copy_map(&self.per_op),
            phase: self.phase,
        };
        assert(r@ =~= self@);
        r
    }
}

impl Clone for WorkerProgress {
    fn clone(&self) -> (r: Self)
        ensures
            r@ == self@,
    {
        self.copy()
    }
}

/// The results of a job over all its workers.
#[derive(Debug, PartialEq, Eq, Default)]
pub struct AggregatedMetrics {
    pub total: Option<PerformanceMetrics>,
    pub total_per_op: StrMap<PerformanceMetrics>,
    pub per_worker: Vec<WorkerResult>,
}

/// What a [`AggregatedMetrics`] holds.
#[verifier::ext_equal]
pub struct AggregatedMetricsView {
    pub total: Option<PerformanceMetricsView>,
    pub total_per_op: Seq<(Seq<char>, PerformanceMetricsView)>,
    pub per_worker: Seq<WorkerResultView>,
}

impl View for AggregatedMetrics {
    type V = AggregatedMetricsView;

    open spec fn view(&self) -> AggregatedMetricsView {
        AggregatedMetricsView {
            total: opt_view(self.total),
            total_per_op: entry_views(self.total_per_op.seq()),
            per_worker: seq_views(self.per_worker@),
        }
    }
}

impl Duplicate for AggregatedMetrics {
    fn copy(&self) -> (r: Self) {
        let r = AggregatedMetrics {
            total: copy_opt(&self.total),
            total_per_op: copy_map(&self.total_per_op),
            per_worker: copy_vec(&self.per_worker),
        };
        assert(r@ =~= self@);
        r
    }
}

impl Clone for AggregatedMetrics {
    fn clone(&self) -> (r: Self)
        ensures
            r@ == self@,
    {
        self.copy()
    }
}

/// A job as clients see it.
#[derive(Debug, PartialEq, Eq, Default)]
pub struct Job {
    pub job_id: String,
    pub spec: Option<BenchSpec>,
    pub status: i32,
    pub created_at: i64,
}

/// What a [`Job`] holds.
#[verifier::ext_equal]
pub struct JobView {
    pub job_id: Seq<char>,
    pub spec: Option<BenchSpecView>,
    pub status: i32,
    pub created_at: i64,
}

impl View for Job {
    type V = JobView;

    open spec fn view(&self) -> JobView {
        JobView {
            job_id: self.job_id@,
            spec: opt_view(self.spec),
            status: self.status,
            created_at: self.created_at,
        }
    }
}

/// A change of a job that its watchers are told.
#[derive(Debug, PartialEq, Eq, Default)]
pub struct JobEvent {
    pub job_id: String,
    pub status: i32,
    pub worker_progress: Vec<WorkerProgress>,
    pub aggregated: Option<AggregatedMetrics>,
    pub error: Option<String>,
    pub timestamp: i64,
    pub seq: i64,
    pub kind: i32,
    pub dirs_scanned: i64,
    pub files_scanned: i64,
    pub scan_duration_ms: i64,
}

/// What a [`JobEvent`] holds.
#[verifier::ext_equal]
pub struct JobEventView {
    pub job_id: Seq<char>,
    pub status: i32,
    pub worker_progress: Seq<WorkerProgressView>,
    pub aggregated: Option<AggregatedMetricsView>,
    pub error: Option<Seq<char>>,
    pub timestamp: i64,
    pub seq: i64,
    pub kind: i32,
    pub dirs_scanned: i64,
    pub files_scanned: i64,
    pub scan_duration_ms: i64,
}

impl View for JobEvent {
    type V = JobEventView;

    open spec fn view(&self) -> JobEventView {
        JobEventView {
            job_id: self.job_id@,
            status: self.status,
            worker_progress: seq_views(self.worker_progress@),
            aggregated: opt_view(self.aggregated),
            error: opt_text(self.error),
            timestamp: self.timestamp,
            seq: self.seq,
            kind: self.kind,
            dirs_scanned: self.dirs_scanned,
            files_scanned: self.files_scanned,
            scan_duration_ms: self.scan_duration_ms,
        }
    }
}

impl Duplicate for JobEvent {
    fn copy(&self) -> (r: Self) {
        let r = JobEvent {
            job_id: self.job_id.clone(),
            status: self.status,
            worker_progress: copy_vec(&self.worker_progress),
            aggregated: copy_opt(&self.aggregated),
            error: copy_opt_text(&self.error),
            timestamp: self.timestamp,
            seq: self.seq,
            kind: self.kind,
            dirs_scanned: self.dirs_scanned,
            files_scanned: self.files_scanned,
            scan_duration_ms: self.scan_duration_ms,
        };
        assert(r@ =~= self@);
        r
    }
}

impl Clone for JobEvent {
    fn clone(&self) -> (r: Self)
        ensures
            r@ == self@,
    {
        self.copy()
    }
}

/// A file that a worker is to read.
#[derive(Debug, PartialEq, Eq, Default)]
pub struct FileEntry {
    pub fs_path: String,
    pub s3_key: String,
}

/// What a [`FileEntry`] holds.
#[verifier::ext_equal]
pub struct FileEntryView {
    pub fs_path: Seq<char>,
    pub s3_key: Seq<char>,
}

impl View for FileEntry {
    type V = FileEntryView;

    open spec fn view(&self) -> FileEntryView {
        FileEntryView {
            fs_path: self.fs_path@,
            s3_key: self.s3_key@,
        }
    }
}

impl Duplicate for FileEntry {
    fn copy(&self) -> (r: Self) {
        let r = FileEntry {
            fs_path: self.fs_path.clone(),
            s3_key: self.s3_key.clone(),
        };
        assert(r@ =~= self@);
        r
    }
}

impl Clone for FileEntry {
    fn clone(&self) -> (r: Self)
        ensures
            r@ == self@,
    {
        self.copy()
    }
}

/// All that is known of a job.
#[derive(Debug, PartialEq, Eq, Default)]
pub struct QueryJobResponse {
    pub job: Option<Job>,
    pub worker_results: Vec<WorkerResult>,
    pub aggregated: Option<AggregatedMetrics>,
    pub error: Option<String>,
    pub run_workers: i32,
    pub dirs_scanned: i64,
    pub files_scanned: i64,
    pub scan_duration_ms: i64,
}

/// What a [`QueryJobResponse`] holds.
#[verifier::ext_equal]
pub struct QueryJobResponseView {
    pub job: Option<JobView>,
    pub worker_results: Seq<WorkerResultView>,
    pub aggregated: Option<AggregatedMetricsView>,
    pub error: Option<Seq<char>>,
    pub run_workers: i32,
    pub dirs_scanned: i64,
    pub files_scanned: i64,
    pub scan_duration_ms: i64,
}

impl View for QueryJobResponse {
    type V = QueryJobResponseView;

    open spec fn view(&self) -> QueryJobResponseView {
        QueryJobResponseView {
            job: opt_view(self.job),
            worker_results: seq_views(self.worker_results@),
            aggregated: opt_view(self.aggregated),
            error: opt_text(self.error),
            run_workers: self.run_workers,
            dirs_scanned: self.dirs_scanned,
            files_scanned: self.files_scanned,
            scan_duration_ms: self.scan_duration_ms,
        }
    }
}

/// Jobs, the newest first.
#[derive(Debug, PartialEq, Eq, Default)]
pub struct ListJobsResponse {
    pub jobs: Vec<Job>,
}

/// What a [`ListJobsResponse`] holds.
#[verifier::ext_equal]
pub struct ListJobsResponseView {
    pub jobs: Seq<JobView>,
}

impl View for ListJobsResponse {
    type V = ListJobsResponseView;

    open spec fn view(&self) -> ListJobsResponseView {
        ListJobsResponseView {
            jobs: seq_views(self.jobs@),
        }
    }
}

/// The job that a worker is given, if there is one.
#[derive(Debug, PartialEq, Eq, Default)]
pub struct FetchJobResponse {
    pub job_id: Option<String>,
    pub spec: Option<BenchSpec>,
    pub mount_point: Option<String>,
    pub worker_index: Option<i32>,
    pub s3_credentials: Option<S3CredentialMaterial>,
    pub master_now_ms: i64,
}

/// What a [`FetchJobResponse`] holds.
#[verifier::ext_equal]
pub struct FetchJobResponseView {
    pub job_id: Option<Seq<char>>,
    pub spec: Option<BenchSpecView>,
    pub mount_point: Option<Seq<char>>,
    pub worker_index: Option<i32>,
    pub s3_credentials: Option<S3CredentialMaterialView>,
    pub master_now_ms: i64,
}

impl View for FetchJobResponse {
    type V = FetchJobResponseView;

    open spec fn view(&self) -> FetchJobResponseView {
        FetchJobResponseView {
            job_id: opt_text(self.job_id),
            spec: opt_view(self.spec),
            mount_point: opt_text(self.mount_point),
            worker_index: self.worker_index,
            s3_credentials: opt_view(self.s3_credentials),
            master_now_ms: self.master_now_ms,
        }
    }
}

/// Asks for a new job.
#[derive(Debug, PartialEq, Eq, Default)]
pub struct CreateJobRequest {
    pub spec: Option<BenchSpec>,
}

/// The id of the new job.
#[derive(Debug, PartialEq, Eq, Default)]
pub struct CreateJobResponse {
    pub job_id: String,
}

/// What a [`CreateJobResponse`] holds.
#[verifier::ext_equal]
pub struct CreateJobResponseView {
    pub job_id: Seq<char>,
}

impl View for CreateJobResponse {
    type V = CreateJobResponseView;

    open spec fn view(&self) -> CreateJobResponseView {
        CreateJobResponseView { job_id: self.job_id@ }
    }
}

/// Asks for the events of a job.
#[derive(Debug, PartialEq, Eq, Default)]
pub struct WatchJobRequest {
    pub job_id: String,
}

/// Asks what is known of a job.
#[derive(Debug, PartialEq, Eq, Default)]
pub struct QueryJobRequest {
    pub job_id: String,
}

/// Asks to cancel a job.
#[derive(Debug, PartialEq, Eq, Default)]
pub struct DeleteJobRequest {
    pub job_id: String,
}

/// A job was cancelled, or had ended before.
#[derive(Debug, PartialEq, Eq, Default)]
pub struct DeleteJobResponse {
}

/// Asks for jobs, of one status or of all; zero is the default limit.
#[derive(Debug, PartialEq, Eq, Default)]
pub struct ListJobsRequest {
    pub status_filter: Option<i32>,
    pub limit: i32,
}

/// A worker asks for work.
#[derive(Debug, PartialEq, Eq, Default)]
pub struct FetchJobRequest {
    pub worker_id: String,
}

/// A worker is ready to start, or failed to prepare.
#[derive(Debug, PartialEq, Eq, Default)]
pub struct ReportReadyRequest {
    pub job_id: String,
    pub worker_id: String,
    pub error: Option<String>,
}

/// When to start; zero while others are not ready.
#[derive(Debug, PartialEq, Eq, Default)]
pub struct ReportReadyResponse {
    pub cancelled: bool,
    pub unknown_job: bool,
    pub start_at_ms: i64,
    pub master_now_ms: i64,
}

/// A worker asks for files to read.
#[derive(Debug, PartialEq, Eq, Default)]
pub struct FetchFileBatchRequest {
    pub job_id: String,
    pub worker_id: String,
    pub batch_size: i32,
}

/// Files to read.
#[derive(Debug, PartialEq, Eq, Default)]
pub struct FetchFileBatchResponse {
    pub files: Vec<FileEntry>,
    pub has_more: bool,
    pub cancelled: bool,
    pub unknown_job: bool,
}

/// What a [`FetchFileBatchResponse`] holds.
#[verifier::ext_equal]
pub struct FetchFileBatchResponseView {
    pub files: Seq<FileEntryView>,
    pub has_more: bool,
    pub cancelled: bool,
    pub unknown_job: bool,
}

impl View for FetchFileBatchResponse {
    type V = FetchFileBatchResponseView;

    open spec fn view(&self) -> FetchFileBatchResponseView {
        FetchFileBatchResponseView {
            files: seq_views(self.files@),
            has_more: self.has_more,
            cancelled: self.cancelled,
            unknown_job: self.unknown_job,
        }
    }
}

/// A worker tells how far it is.
#[derive(Debug, PartialEq, Eq, Default)]
pub struct ReportProgressRequest {
    pub job_id: String,
    pub progress: Option<WorkerProgress>,
}

/// Whether the worker is to go on.
#[derive(Debug, PartialEq, Eq, Default)]
pub struct ReportProgressResponse {
    pub cancelled: bool,
    pub unknown_job: bool,
}

/// A worker hands in its result.
#[derive(Debug, PartialEq, Eq, Default)]
pub struct ReportResultRequest {
    pub job_id: String,
    pub result: Option<WorkerResult>,
}

/// Whether the job is known.
#[derive(Debug, PartialEq, Eq, Default)]
pub struct ReportResultResponse {
    pub unknown_job: bool,
}

} // verus!
