use cvdbench::config::{MasterConfig, SchedulerConfig};
use cvdbench::events::Notice;
use cvdbench::manifest::dir_scan;
use cvdbench::manifest::dir_scan::{
    classify, enqueue, scanner_count, DirScanError, DirWorkQueue, EntryKind, Found, Pass, Popped,
};
use cvdbench::manifest::file_csv;
use cvdbench::manifest::file_csv::{feed, filter_lines, is_ignored, Fed, ReaderError};
use cvdbench::manifest::file_reader;
use cvdbench::manifest::file_reader::FileReader;
use cvdbench::manifest::queue::BoundedQueue;
use cvdbench::manifest::scanner::{Event, Scanner, Stage, Wake};
use cvdbench::manifest::{after_pass, fail_job_due_to_manifest, AfterPass};
use cvdbench::path_safe::PathSafeError;
use cvdbench::pb;
use cvdbench::state::job::{JobRecord, ManifestScanStats};
use cvdbench::state::MasterState;
use cvdbench::strmap::StrMap;
use cvdbench::time::Clock;
use std::collections::VecDeque;

type Tree = Vec<(&'static str, Vec<(&'static str, EntryKind)>)>;

fn no_stats() -> ManifestScanStats {
    ManifestScanStats { dirs_scanned: 0, files_scanned: 0, scan_duration_ms: 0 }
}

fn scan_dirs(
    tree: &Tree,
    work: &mut DirWorkQueue,
    queue: &mut BoundedQueue<pb::FileEntry>,
    cancelled: bool,
    stats: &mut ManifestScanStats,
) -> Result<(), DirScanError> {
    let mut scanner = Scanner::new("/mnt/t".to_owned());
    let mut left = vec![].into_iter();
    let mut event = Event::Go;
    loop {
        scanner.step(event, work, queue, stats, cancelled);
        event = match &scanner.stage {
            Stage::Idle => panic!("a lone scanner never waits"),
            Stage::Storing { .. } => panic!("the queue is large enough"),
            Stage::Over(_) => break,
            Stage::Opening { dir } => {
                let (_, entries) = tree.iter().find(|(d, _)| d == dir).unwrap();
                left = entries.clone().into_iter();
                Event::Opened(Ok(()))
            }
            Stage::Listing { dir } => {
                Event::Entry(Ok(left.next().map(|(name, _)| {
                    assert!(!dir.is_empty());
                    name.to_owned()
                })))
            }
            Stage::Typing { dir, name } => {
                let (_, entries) = tree.iter().find(|(d, _)| d == dir).unwrap();
                Event::Kind(Ok(entries.iter().find(|(n, _)| n == name).unwrap().1))
            }
            Stage::Resolving { dir, name } => Event::Resolved(Ok(format!("/mnt/t/{dir}/{name}"))),
        };
    }
    match scanner.stage {
        Stage::Over(r) => r,
        _ => unreachable!(),
    }
}

fn one_pass(
    tree: &Tree,
    manifest: &str,
    queue: &mut BoundedQueue<pb::FileEntry>,
    cancelled: bool,
    stats: &mut ManifestScanStats,
) -> Result<(), DirScanError> {
    let mut work = DirWorkQueue::new();
    let mut pass = Pass::new();
    let read = enqueue(&mut work, dir_scan::read_list("dirs.txt", manifest), cancelled);
    pass.reader_ended(read, &mut work);
    let scanned = scan_dirs(tree, &mut work, queue, cancelled, stats);
    pass.scanner_ended(scanned, &mut work);
    pass.result()
}

fn drain_paths(queue: &mut BoundedQueue<pb::FileEntry>) -> Vec<String> {
    let mut paths: Vec<String> = queue.drain_up_to(1_000).into_iter().map(|e| e.fs_path).collect();
    paths.sort();
    paths
}

#[test]
fn scans_files_in_listed_dirs_recursively() {
    let tree: Tree = vec![
        ("dataset/2024", vec![("01.csv", EntryKind::File), ("sub", EntryKind::Dir)]),
        ("dataset/2024/sub", vec![("02.csv", EntryKind::File)]),
        ("dataset/2025", vec![("03.csv", EntryKind::File)]),
    ];
    let mut queue = BoundedQueue::new(64);
    let mut stats = no_stats();
    one_pass(&tree, "dataset/2024\ndataset/2025\n", &mut queue, false, &mut stats).unwrap();
    assert_eq!(after_pass(false, false), AfterPass::Done);
    stats.add_elapsed_ms(0);
    let (dirs, files, ms) = stats.snapshot();
    assert_eq!(dirs, 3);
    assert_eq!(files, 3);
    assert!(ms >= 0);
    assert_eq!(
        drain_paths(&mut queue),
        vec![
            "dataset/2024/01.csv".to_owned(),
            "dataset/2024/sub/02.csv".to_owned(),
            "dataset/2025/03.csv".to_owned(),
        ]
    );
}

#[test]
fn skips_symlinks() {
    let tree: Tree =
        vec![("d", vec![("real.dat", EntryKind::File), ("sym.dat", EntryKind::Symlink)])];
    let mut queue = BoundedQueue::new(8);
    one_pass(&tree, "d\n", &mut queue, false, &mut no_stats()).unwrap();
    assert_eq!(drain_paths(&mut queue), vec!["d/real.dat".to_owned()]);
}

#[test]
fn rejects_absolute_path_in_dir_manifest() {
    let mut queue = BoundedQueue::new(1);
    let err = one_pass(&vec![], "/etc\n", &mut queue, false, &mut no_stats()).unwrap_err();
    assert!(matches!(err, DirScanError::PathSafe { .. }));
}

#[test]
fn discovered_subdirs_are_shared_between_scanners() {
    let mut queue = DirWorkQueue::new();
    queue.push("root".into()).unwrap();
    let first = queue.pop(false);
    assert_eq!(first, Popped::Dir("root".into()));

    queue.push("root/a".into()).unwrap();
    queue.push("root/b".into()).unwrap();

    let mut popped = vec![];
    for _ in 0..2 {
        match queue.pop(false) {
            Popped::Dir(d) => popped.push(d),
            other => panic!("expected a directory, got {other:?}"),
        }
    }
    popped.sort();
    assert_eq!(popped, vec!["root/a".to_owned(), "root/b".to_owned()]);
    assert_eq!(queue.pop(false), Popped::Wait);

    queue.finish_dir();
    queue.finish_dir();
    queue.finish_dir();
    queue.mark_reader_done();
    assert_eq!(queue.pop(false), Popped::Finished);
}

#[test]
fn cancel_short_circuits() {
    let names = (0..200).map(|i| &*Box::leak(format!("{i:04}.dat").into_boxed_str()));
    let tree: Tree = vec![("d", names.map(|n| (n, EntryKind::File)).collect())];
    let mut queue = BoundedQueue::new(8);
    one_pass(&tree, "d\n", &mut queue, true, &mut no_stats()).unwrap();
    assert!(queue.is_empty());
    assert_eq!(after_pass(true, false), AfterPass::Stop);
}

#[test]
fn loop_files_re_reads_until_cancel() {
    let tree: Tree = vec![("d", vec![("a.dat", EntryKind::File)])];
    let mut queue = BoundedQueue::new(64);
    one_pass(&tree, "d\n", &mut queue, false, &mut no_stats()).unwrap();
    assert_eq!(after_pass(false, true), AfterPass::Again);
    queue.close();
    let res = one_pass(&tree, "d\n", &mut queue, true, &mut no_stats());
    assert!(matches!(res, Ok(()) | Err(DirScanError::QueueClosed)));
    assert_eq!(after_pass(true, true), AfterPass::Stop);
    let count = queue.drain_up_to(64).len();
    assert!(count >= 1);
}

fn read_all(
    queue: &mut BoundedQueue<pb::FileEntry>,
    data: &str,
    done: &mut bool,
) -> Result<(), ReaderError> {
    let mut reader = FileReader::new("m.csv".into(), false);
    reader.step(file_reader::Event::Loaded(Ok(data.into())), queue, done, false);
    match reader.stage {
        file_reader::Stage::Over(r) => r,
        other => panic!("the queue is large enough: {other:?}"),
    }
}

fn feed_all(queue: &mut BoundedQueue<pb::FileEntry>, data: &str) -> Result<(), ReaderError> {
    read_all(queue, data, &mut false)
}

#[test]
fn reads_csv_with_two_columns_and_skips_comments_blank_lines() {
    let data = "# comment\n\
                a/x.dat,a/x.dat\n\
                \n\
                b/y.dat\n\
                # trailing\n";
    let mut q = BoundedQueue::new(8);
    let mut done = false;
    read_all(&mut q, data, &mut done).unwrap();
    assert!(done);
    let entries = q.drain_up_to(10);
    assert_eq!(entries.len(), 2);
    assert_eq!(entries[0].fs_path, "a/x.dat");
    assert_eq!(entries[0].s3_key, "a/x.dat");
    assert_eq!(entries[1].fs_path, "b/y.dat");
    assert_eq!(entries[1].s3_key, "");
}

#[test]
fn rejects_absolute_or_parent_dir() {
    let mut q = BoundedQueue::new(8);
    let err = feed_all(&mut q, "/etc/passwd,foo\n").unwrap_err();
    assert!(matches!(err, ReaderError::PathSafe { .. }));
    let err = feed_all(&mut q, "a/../b,foo\n").unwrap_err();
    assert!(matches!(err, ReaderError::PathSafe { .. }));
}

#[test]
fn loop_files_true_keeps_pushing_until_cancel() {
    let mut q = BoundedQueue::new(64);
    let mut done = false;
    let mut reader = FileReader::new("m.csv".into(), true);
    let mut passes = 0;
    while reader.stage == file_reader::Stage::Loading {
        reader.step(file_reader::Event::Loaded(Ok("a.dat\n".into())), &mut q, &mut done, false);
        passes += 1;
    }
    assert_eq!(passes, 65);
    assert!(matches!(reader.stage, file_reader::Stage::Feeding(_)));
    q.close();
    reader.step(file_reader::Event::Go, &mut q, &mut done, true);
    assert_eq!(reader.stage, file_reader::Stage::Over(Ok(())));
    assert!(!done);
    assert!(q.drain_up_to(64).len() > 1);
}

#[test]
fn missing_file_yields_io_error() {
    let mut q = BoundedQueue::new(1);
    let mut done = false;
    let mut reader = FileReader::new("/nonexistent/manifest.csv".into(), false);
    let gone = file_reader::Event::Loaded(Err("No such file or directory".into()));
    reader.step(gone, &mut q, &mut done, false);
    assert!(matches!(reader.stage, file_reader::Stage::Over(Err(ReaderError::Io { .. }))));
    assert!(!done);
}

#[test]
fn a_reader_meets_a_closed_queue() {
    let mut q = BoundedQueue::new(1);
    let mut done = false;
    let mut reader = FileReader::new("m.csv".into(), false);
    reader.step(file_reader::Event::Go, &mut q, &mut done, false);
    assert_eq!(reader.stage, file_reader::Stage::Loading);
    reader.step(file_reader::Event::Loaded(Ok("a\nb\n".into())), &mut q, &mut done, false);
    assert!(matches!(&reader.stage, file_reader::Stage::Feeding(r) if r.entries.len() == 1));
    q.close();
    reader.step(file_reader::Event::Go, &mut q, &mut done, false);
    assert_eq!(
        reader.stage,
        file_reader::Stage::Over(Err(ReaderError::QueueClosed { lineno: 2 }))
    );
    assert!(!done);
}

#[test]
fn a_full_queue_makes_the_reader_wait() {
    let mut q = BoundedQueue::new(2);
    let mut reading = file_csv::read_list("m.csv", "a\nb\nc\n");
    assert_eq!(feed(&mut q, &mut reading), Fed::Waiting);
    assert_eq!(reading.entries.len(), 1);
    assert_eq!(q.drain_up_to(2).len(), 2);
    assert_eq!(feed(&mut q, &mut reading), Fed::Finished(Ok(())));
    assert_eq!(q.drain_up_to(2)[0].fs_path, "c");
}

#[test]
fn files_before_a_fault_are_still_read() {
    let mut q = BoundedQueue::new(8);
    let err = feed_all(&mut q, "a,k\n../b\nc\n").unwrap_err();
    assert_eq!(q.drain_up_to(8).len(), 1);
    match err {
        ReaderError::PathSafe { path, lineno, source } => {
            assert_eq!(path, "m.csv");
            assert_eq!(lineno, 2);
            assert!(matches!(source, PathSafeError::ForbiddenComponent { .. }));
        }
        other => panic!("unexpected {other:?}"),
    }
}

#[test]
fn quoted_fields_are_unquoted_and_trimmed() {
    let reading = file_csv::read_list("m.csv", "\"a,b/ c\",\"key\"\"1\"\"\"\n x ,y\n");
    let entries: Vec<(&str, &str)> = reading
        .entries
        .iter()
        .map(|n| (n.entry.fs_path.as_str(), n.entry.s3_key.as_str()))
        .collect();
    assert_eq!(entries, [("a,b/ c", "key\"1\""), ("x", "y")]);
    assert!(reading.fault.is_none());
}

#[test]
fn comments_and_blanks_are_filtered() {
    assert!(is_ignored("   "));
    assert!(is_ignored("  # x"));
    assert!(!is_ignored("a # x"));
    assert_eq!(filter_lines("# a\n\nb\n  \nc,d"), "\n\nb\n\nc,d");
}

#[test]
fn directory_lists_stop_at_the_first_fault() {
    let list = dir_scan::read_list("d.txt", "a\r\n# no\n\n b/c \nd/../e\nf\n");
    assert_eq!(list.dirs, VecDeque::from(["a".to_owned(), "b/c".to_owned()]));
    match list.fault {
        Some(DirScanError::PathSafe { path, lineno, source }) => {
            assert_eq!(path, "d.txt");
            assert_eq!(lineno, 5);
            assert!(matches!(source, PathSafeError::ForbiddenComponent { .. }));
        }
        other => panic!("unexpected {other:?}"),
    }
}

#[test]
fn files_are_taken_by_their_canonical_path() {
    let file = |canon: &str| {
        classify("/mnt/t", "d", "f", EntryKind::File, Ok(canon.to_owned()))
    };
    assert_eq!(
        file("/mnt/t/e/g"),
        Ok(Found::File(pb::FileEntry { fs_path: "e/g".into(), s3_key: String::new() }))
    );
    assert_eq!(
        file("/mnt/tt/f"),
        Err(DirScanError::PathEscape { mount: "/mnt/t".into(), path: "/mnt/tt/f".into() })
    );
    assert_eq!(
        classify("/mnt/t", "d", "f", EntryKind::File, Err("gone".into())),
        Err(DirScanError::Metadata { path: "/mnt/t/d/f".into(), source: "gone".into() })
    );
    assert_eq!(
        classify("/mnt/t", "d", "s", EntryKind::Dir, Err("unused".into())),
        Ok(Found::Dir("d/s".into()))
    );
    assert_eq!(
        classify("/mnt/t", "d", "p", EntryKind::Other, Err("unused".into())),
        Ok(Found::Nothing)
    );
}

fn parts() -> (DirWorkQueue, BoundedQueue<pb::FileEntry>, ManifestScanStats) {
    (DirWorkQueue::new(), BoundedQueue::new(1), no_stats())
}

#[test]
fn a_scanner_waits_for_one_thing_at_a_time() {
    let (mut work, mut queue, mut stats) = parts();
    let mut scanner = Scanner::new("/mnt/t".to_owned());
    assert_eq!(scanner.step(Event::Go, &mut work, &mut queue, &mut stats, false), Wake::Nobody);
    assert_eq!(scanner.stage, Stage::Idle);
    work.push("d".into()).unwrap();
    work.mark_reader_done();
    let mut step = |scanner: &mut Scanner, event: Event| {
        scanner.step(event, &mut work, &mut queue, &mut stats, false)
    };
    step(&mut scanner, Event::Entry(Ok(None)));
    assert_eq!(scanner.stage, Stage::Idle);
    step(&mut scanner, Event::Go);
    assert_eq!(scanner.stage, Stage::Opening { dir: "d".into() });
    step(&mut scanner, Event::Opened(Ok(())));
    step(&mut scanner, Event::Entry(Ok(Some("s".into()))));
    assert_eq!(scanner.stage, Stage::Typing { dir: "d".into(), name: "s".into() });
    assert_eq!(step(&mut scanner, Event::Kind(Ok(EntryKind::Dir))), Wake::One);
    assert_eq!(scanner.stage, Stage::Listing { dir: "d".into() });
    for name in ["f", "g"] {
        step(&mut scanner, Event::Entry(Ok(Some(name.into()))));
        step(&mut scanner, Event::Kind(Ok(EntryKind::File)));
        step(&mut scanner, Event::Resolved(Ok(format!("/mnt/t/d/{name}"))));
    }
    assert!(matches!(&scanner.stage, Stage::Storing { file, .. } if file.fs_path == "d/g"));
    step(&mut scanner, Event::Go);
    assert!(matches!(&scanner.stage, Stage::Storing { .. }));
    assert_eq!(queue.drain_up_to(5)[0].fs_path, "d/f");
    let mut step = |scanner: &mut Scanner, event: Event| {
        scanner.step(event, &mut work, &mut queue, &mut stats, false)
    };
    step(&mut scanner, Event::Go);
    assert_eq!(step(&mut scanner, Event::Entry(Ok(None))), Wake::Nobody);
    assert_eq!(scanner.stage, Stage::Opening { dir: "d/s".into() });
    step(&mut scanner, Event::Opened(Ok(())));
    assert_eq!(step(&mut scanner, Event::Entry(Ok(None))), Wake::All);
    assert_eq!(scanner.stage, Stage::Over(Ok(())));
    assert_eq!(stats.snapshot(), (2, 2, 0));
    assert_eq!(work.pending_dirs, 0);
}

#[test]
fn a_scanner_ends_with_the_fault_that_it_meets() {
    let run = |events: Vec<Event>| {
        let (mut work, mut queue, mut stats) = parts();
        work.push("d".into()).unwrap();
        let mut scanner = Scanner::new("/mnt/t".to_owned());
        for event in events {
            scanner.step(event, &mut work, &mut queue, &mut stats, false);
        }
        assert_eq!(stats.snapshot().0, 0);
        scanner.stage
    };
    let entry = || Event::Entry(Ok(Some("f".into())));
    let opened = || Event::Opened(Ok(()));
    let read_dir = || Stage::Over(Err(DirScanError::ReadDir {
        path: "/mnt/t/d".into(),
        source: "gone".into(),
    }));
    let metadata = || Stage::Over(Err(DirScanError::Metadata {
        path: "/mnt/t/d/f".into(),
        source: "gone".into(),
    }));
    assert_eq!(run(vec![Event::Go, Event::Opened(Err("gone".into()))]), read_dir());
    assert_eq!(run(vec![Event::Go, opened(), Event::Entry(Err("gone".into()))]), read_dir());
    assert_eq!(
        run(vec![Event::Go, opened(), entry(), Event::Kind(Err("gone".into()))]),
        metadata()
    );
    assert_eq!(
        run(vec![
            Event::Go,
            opened(),
            entry(),
            Event::Kind(Ok(EntryKind::File)),
            Event::Resolved(Err("gone".into())),
        ]),
        metadata()
    );
    assert_eq!(
        run(vec![
            Event::Go,
            opened(),
            entry(),
            Event::Kind(Ok(EntryKind::File)),
            Event::Resolved(Ok("/etc/passwd".into())),
        ]),
        Stage::Over(Err(DirScanError::PathEscape {
            mount: "/mnt/t".into(),
            path: "/etc/passwd".into(),
        }))
    );
}

#[test]
fn a_cancelled_scanner_leaves_its_directory() {
    let (mut work, mut queue, mut stats) = parts();
    work.push("d".into()).unwrap();
    work.push("e".into()).unwrap();
    let mut scanner = Scanner::new("/mnt/t".to_owned());
    scanner.step(Event::Go, &mut work, &mut queue, &mut stats, false);
    scanner.step(Event::Opened(Ok(())), &mut work, &mut queue, &mut stats, true);
    assert_eq!(scanner.stage, Stage::Over(Ok(())));
    assert_eq!(work.dirs.len(), 1);
    assert_eq!(work.pending_dirs, 1);
    queue.close();
    let mut scanner = Scanner::new("/mnt/t".to_owned());
    for event in [
        Event::Go,
        Event::Opened(Ok(())),
        Event::Entry(Ok(Some("f".into()))),
        Event::Kind(Ok(EntryKind::File)),
        Event::Resolved(Ok("/mnt/t/e/f".into())),
    ] {
        scanner.step(event, &mut work, &mut queue, &mut stats, false);
    }
    assert_eq!(scanner.stage, Stage::Over(Err(DirScanError::QueueClosed)));
}

#[test]
fn a_pass_ends_with_its_first_error() {
    let mut work = DirWorkQueue::new();
    let mut pass = Pass::new();
    pass.reader_ended(Ok(()), &mut work);
    pass.scanner_ended(Ok(()), &mut work);
    assert!(!work.closed && !pass.stopped);
    pass.scanner_ended(Err(DirScanError::QueueClosed), &mut work);
    assert!(work.closed && pass.stopped);
    pass.scanner_ended(Err(DirScanError::Join("x".into())), &mut work);
    assert_eq!(pass.result(), Err(DirScanError::QueueClosed));
    let mut work = DirWorkQueue::new();
    let mut pass = Pass::new();
    pass.reader_ended(Err(DirScanError::Join("r".into())), &mut work);
    assert!(work.closed && !pass.stopped);
    pass.scanner_ended(Err(DirScanError::QueueClosed), &mut work);
    assert_eq!(pass.result(), Err(DirScanError::Join("r".into())));
    assert_eq!(Pass::new().result(), Ok(()));
    assert_eq!(scanner_count(0), 1);
    assert_eq!(scanner_count(7), 7);
}

#[test]
fn a_closed_work_queue_takes_and_gives_nothing() {
    let mut work = DirWorkQueue::new();
    work.push("a".into()).unwrap();
    work.close();
    assert!(work.push("b".into()).is_err());
    assert_eq!(work.pop(false), Popped::Finished);
    let list = dir_scan::read_list("d.txt", "a\n");
    assert_eq!(enqueue(&mut work, list, false), Err(DirScanError::QueueClosed));
}

#[test]
fn manifest_errors_are_worded() {
    let source = PathSafeError::Empty;
    let plain = source.message();
    assert_eq!(
        ReaderError::Io { path: "m.csv".into(), source: "gone".into() }.message(),
        "read manifest \"m.csv\": gone"
    );
    assert_eq!(
        ReaderError::Csv { path: "m.csv".into(), lineno: 3, source: "bad".into() }.message(),
        "CSV parse error at line 3 of \"m.csv\": bad"
    );
    assert_eq!(
        ReaderError::PathSafe { path: "m.csv".into(), lineno: 4, source: PathSafeError::Empty }
            .message(),
        format!("line 4 of \"m.csv\": {plain}")
    );
    assert_eq!(
        ReaderError::QueueClosed { lineno: 5 }.message(),
        "queue closed during push (line 5)"
    );
    assert_eq!(
        DirScanError::Io { path: "d".into(), source: "gone".into() }.message(),
        "read dir_manifest \"d\": gone"
    );
    assert_eq!(
        DirScanError::ReadDir { path: "d".into(), source: "gone".into() }.message(),
        "read_dir \"d\": gone"
    );
    assert_eq!(
        DirScanError::Metadata { path: "d".into(), source: "gone".into() }.message(),
        "metadata \"d\": gone"
    );
    assert_eq!(
        DirScanError::PathSafe { path: "d".into(), lineno: 6, source: PathSafeError::Empty }
            .message(),
        format!("path_safe error at line 6 of \"d\": {plain}")
    );
    assert_eq!(
        DirScanError::PathEscape { mount: "/m".into(), path: "/x".into() }.message(),
        "path \"/x\" escapes mount_point \"/m\""
    );
    assert_eq!(DirScanError::QueueClosed.message(), "file_queue closed during push");
    assert_eq!(DirScanError::Join("x".into()).message(), "scanner task join failed: x");
}

#[test]
fn a_reader_that_fails_fails_its_job() {
    let mut filesystems = StrMap::new();
    filesystems.insert("x".into(), "/mnt/x".into());
    let mut state = MasterState::new(MasterConfig {
        listen: "127.0.0.1:0".into(),
        metrics_listen: None,
        scheduler: SchedulerConfig::default(),
        filesystems,
    });
    let mut record =
        JobRecord::new("j1".into(), pb::BenchSpec::default(), None, "/mnt/x".into(), 1, 0);
    record.status = pb::JobStatus::Running;
    state.jobs.insert("j1".into(), record);
    let at = Clock { wall_ms: 50, mono_ns: 1 };
    let notices = fail_job_due_to_manifest(&mut state, "j1", "bad path", &at);
    let rec = state.jobs.get("j1").unwrap();
    assert_eq!(rec.status, pb::JobStatus::Failed);
    assert_eq!(rec.error.as_deref(), Some("manifest reader: bad path"));
    assert!(notices.iter().any(|n| matches!(n, Notice::End(id) if id == "j1")));
    assert!(fail_job_due_to_manifest(&mut state, "j1", "again", &at).is_empty());
    assert!(fail_job_due_to_manifest(&mut state, "ghost", "x", &at).is_empty());
}
