//! That a configuration holds what is written, and the defaults where nothing is.

use vstd::prelude::*;

use crate::config::{
    config_of, mount_of, mounts_of, scheduler_of, ConfigFault, RawConfig, RawFilesystem, RawScheduler,
};
use crate::strmap::{has_key, keys_distinct, lemma_entry, lemma_push, lookup};

verus! {

/// Whether a time in nanoseconds is the number that is written, in units of
/// `unit` nanoseconds, or else `default` of them.
pub open spec fn is_time(nanos: u128, raw: Option<u64>, default: int, unit: int) -> bool {
    match raw {
        Some(v) => nanos == v * unit,
        None => nanos == default * unit,
    }
}

/// Whether a capacity is the number that is written, or else `default`.
pub open spec fn is_capacity(n: usize, raw: Option<usize>, default: int) -> bool {
    match raw {
        Some(v) => n == v,
        None => n == default,
    }
}

/// Times and capacities are as written. Where none are, workers are lost after a
/// minute, jobs are kept for three days, preparing may take ten minutes, and
/// workers start five seconds later.
pub proof fn law_times_are_as_written(raw: RawScheduler)
    ensures
        scheduler_of(raw) matches Ok(c) ==> {
            &&& is_time(c.worker_staleness.nanos, raw.worker_staleness_secs, 60, 1_000_000_000)
            &&& is_time(c.job_retention.nanos, raw.job_retention_secs, 3 * 24 * 3600int, 1_000_000_000)
            &&& is_time(c.prepare_timeout.nanos, raw.prepare_timeout_secs, 10 * 60int, 1_000_000_000)
            &&& is_time(c.start_delay.nanos, raw.start_delay_ms, 5_000, 1_000_000)
            &&& is_capacity(c.file_queue_capacity, raw.file_queue_capacity, 100_000)
            &&& is_capacity(c.dir_queue_capacity, raw.dir_queue_capacity, 50_000)
            &&& is_capacity(c.dir_scan_concurrency, raw.dir_scan_concurrency, 8)
        },
        scheduler_of(raw) is Err <==> raw.file_queue_capacity == Some(0usize)
            || raw.dir_queue_capacity == Some(0usize) || raw.dir_scan_concurrency == Some(0usize),
        scheduler_of(raw) matches Err(e) ==> {
            ||| e == ConfigFault::InvalidScheduler { field: "file_queue_capacity"@, value: 0 }
                && raw.file_queue_capacity == Some(0usize)
            ||| e == ConfigFault::InvalidScheduler { field: "dir_queue_capacity"@, value: 0 }
                && raw.dir_queue_capacity == Some(0usize)
            ||| e == ConfigFault::InvalidScheduler { field: "dir_scan_concurrency"@, value: 0 }
                && raw.dir_scan_concurrency == Some(0usize)
        },
{
    assert(forall|v: u64| #[trigger] (v * 1_000_000_000) <= u64::MAX * 1_000_000_000);
    assert(forall|v: u64| #[trigger] (v * 1_000_000) <= u64::MAX * 1_000_000);
}

/// Whether a path starts at the root.
pub open spec fn is_absolute(path: Seq<char>) -> bool {
    path.len() > 0 && path.first() == '/'
}

/// Whether the `n`th file system can be taken: its mount point is absolute, and no
/// one before it has its name.
pub open spec fn is_fine(fs: Seq<RawFilesystem>, n: int) -> bool {
    is_absolute(fs[n].mount_point@) && forall|k: int|
        0 <= k < n ==> (#[trigger] fs[k]).name@ != fs[n].name@
}

/// Whether the `n`th file system is the first that cannot be taken.
pub open spec fn is_first_bad(fs: Seq<RawFilesystem>, n: int) -> bool {
    &&& 0 <= n < fs.len()
    &&& !is_fine(fs, n)
    &&& forall|k: int| 0 <= k < n ==> #[trigger] is_fine(fs, k)
}

/// Whether `e` tells what is wrong with the `n`th file system.
pub open spec fn tells_why(e: ConfigFault, fs: Seq<RawFilesystem>, n: int) -> bool {
    if is_absolute(fs[n].mount_point@) {
        e == ConfigFault::DuplicateFs(fs[n].name@)
    } else {
        e == ConfigFault::NonAbsoluteMount(fs[n].name@)
    }
}

/// Whether the mount points are those of all file systems, as they are resolved
/// where they can be.
pub open spec fn holds_mounts(
    m: Seq<(Seq<char>, Seq<char>)>,
    fs: Seq<RawFilesystem>,
) -> bool {
    &&& m.len() == fs.len()
    &&& keys_distinct(m)
    &&& forall|n: int|
        0 <= n < fs.len() ==> (#[trigger] m[n]).0 == fs[n].name@ && (match fs[n].resolved {
            Some(p) => m[n].1 == p@,
            None => m[n].1 == fs[n].mount_point@,
        })
}

/// File systems are found under their names, at their mount points. The first of
/// them whose mount point is not absolute, or whose name is taken, is refused.
pub proof fn law_file_systems_are_as_written(fs: Seq<RawFilesystem>)
    ensures
        match mounts_of(fs) {
            Ok(m) => holds_mounts(m, fs) && (forall|n: int|
                0 <= n < fs.len() ==> #[trigger] is_fine(fs, n)),
            Err(e) => exists|n: int| #[trigger] is_first_bad(fs, n) && tells_why(e, fs, n),
        },
    decreases fs.len(),
{
    if fs.len() > 0 {
        let rest = fs.drop_last();
        let last = fs.len() - 1;
        law_file_systems_are_as_written(rest);
        assert forall|n: int| 0 <= n < rest.len() implies is_fine(rest, n) == #[trigger] is_fine(
            fs,
            n,
        ) by {
            assert(rest[n] == fs[n]);
            assert(forall|k: int| 0 <= k < n ==> #[trigger] rest[k] == fs[k]);
            if is_fine(rest, n) {
                assert forall|k: int| 0 <= k < n implies (#[trigger] fs[k]).name@
                    != fs[n].name@ by {
                    assert(rest[k] == fs[k]);
                }
            }
        }
        match mounts_of(rest) {
            Err(e) => {
                let n = choose|n: int| #[trigger] is_first_bad(rest, n) && tells_why(e, rest, n);
                assert(is_first_bad(fs, n)) by {
                    assert forall|k: int| 0 <= k < n implies #[trigger] is_fine(fs, k) by {
                        assert(is_fine(rest, k));
                    }
                }
                assert(tells_why(e, fs, n));
            },
            Ok(m) => {
                let f = fs.last();
                assert forall|n: int| 0 <= n < rest.len() implies #[trigger] is_fine(fs, n) by {
                    assert(is_fine(rest, n));
                }
                if has_key(m, f.name@) {
                    let k = choose|k: int| 0 <= k < m.len() && #[trigger] m[k].0 == f.name@;
                    assert(m[k].0 == rest[k].name@);
                    assert(fs[k].name@ == fs[last].name@);
                    assert(is_first_bad(fs, last));
                } else {
                    assert forall|k: int| 0 <= k < last implies (#[trigger] fs[k]).name@
                        != f.name@ by {
                        assert(m[k].0 == rest[k].name@);
                    }
                    if !is_absolute(f.mount_point@) {
                        assert(is_first_bad(fs, last));
                    } else {
                        lemma_push(m, f.name@, mount_of(f));
                        let all = mounts_of(fs)->Ok_0;
                        assert forall|n: int| 0 <= n < fs.len() implies (#[trigger] all[n]).0
                            == fs[n].name@ && (match fs[n].resolved {
                            Some(p) => all[n].1 == p@,
                            None => all[n].1 == fs[n].mount_point@,
                        }) by {
                            if n < last {
                                assert(all[n] == m[n]);
                                assert(rest[n] == fs[n]);
                            }
                        }
                        assert(is_fine(fs, last));
                        assert forall|n: int| 0 <= n < fs.len() implies #[trigger] is_fine(
                            fs,
                            n,
                        ) by {}
                    }
                }
            },
        }
    }
}

/// A configuration is taken if and only if its addresses can be read, its
/// capacities are positive, and it names at least one file system and only ones
/// that can be taken. It then holds what is written.
pub proof fn law_configurations_are_as_written(raw: RawConfig)
    ensures
        match config_of(raw) {
            Ok(c) => {
                &&& raw.listen.read matches Ok(a) && a@ == c.listen
                &&& raw.metrics_listen is None ==> c.metrics_listen is None
                &&& raw.metrics_listen matches Some(m) ==> (m.read matches Ok(a)
                    && c.metrics_listen == Some(a@))
                &&& scheduler_of(raw.scheduler) == Ok::<_, ConfigFault>(c.scheduler)
                &&& holds_mounts(c.filesystems, raw.filesystems@)
                &&& c.filesystems.len() > 0
            },
            Err(e) => {
                ||| raw.listen.read is Err
                ||| raw.metrics_listen matches Some(m) && m.read is Err
                ||| scheduler_of(raw.scheduler) is Err
                ||| raw.filesystems@.len() == 0
                ||| exists|n: int| #[trigger]
                    is_first_bad(raw.filesystems@, n) && tells_why(e, raw.filesystems@, n)
            },
        },
        raw.filesystems@.len() == 0 ==> config_of(raw) is Err,
        scheduler_of(raw.scheduler) is Err ==> config_of(raw) is Err,
{
    law_file_systems_are_as_written(raw.filesystems@);
}

/// A file system of a configuration is found under its name.
pub proof fn law_file_systems_are_found(raw: RawConfig, n: int)
    requires
        config_of(raw) is Ok,
        0 <= n < raw.filesystems@.len(),
    ensures
        lookup(config_of(raw)->Ok_0.filesystems, raw.filesystems@[n].name@) == Some(
            match raw.filesystems@[n].resolved {
                Some(p) => p@,
                None => raw.filesystems@[n].mount_point@,
            },
        ),
{
    law_configurations_are_as_written(raw);
    let m = config_of(raw)->Ok_0.filesystems;
    assert(m[n].0 == raw.filesystems@[n].name@);
    lemma_entry(m, n);
}

} // verus!
