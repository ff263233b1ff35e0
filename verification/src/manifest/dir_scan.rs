//! Lists of directories, one to a line, and the search for the files in them.
//!
//! A reader puts the listed directories into a queue; scanners take them out,
//! hand the files that they find to the queue of the workers and put the
//! directories that they find back into their own. Symbolic links are not
//! followed.

use std::collections::VecDeque;

use vstd::prelude::*;

use crate::manifest::queue::QueueClosed;
use crate::path_safe::{
    below, fault_text, join_paths, lies_in, lies_within, normalize_fault, normalize_relative,
    normalized, relative_fault, steps, steps_of, validate_relative, PathFault, PathSafeError,
};
use crate::pb;
use crate::text;
use crate::text::{chars_of, split, split_at_char, string_of, trim, trimmed};
use crate::views::opt_view;

verus! {

/// The directories that are still to be searched.
#[derive(Debug)]
pub struct DirWorkQueue {
    pub dirs: VecDeque<String>,
    /// Whether the list has been read to its end.
    pub reader_done: bool,
    /// The directories in the queue and those being searched.
    pub pending_dirs: usize,
    pub closed: bool,
}

/// What a [`DirWorkQueue`] holds.
#[verifier::ext_equal]
pub struct WorkView {
    pub dirs: Seq<Seq<char>>,
    pub reader_done: bool,
    pub pending: usize,
    pub closed: bool,
}

impl View for DirWorkQueue {
    type V = WorkView;

    open spec fn view(&self) -> WorkView {
        WorkView {
            dirs: text::views(self.dirs@),
            reader_done: self.reader_done,
            pending: self.pending_dirs,
            closed: self.closed,
        }
    }
}

/// What a scanner is to do next.
#[derive(Debug, PartialEq, Eq)]
pub enum Popped {
    Dir(String),
    /// There is nothing more to search.
    Finished,
    /// Directories may still come.
    Wait,
}

/// What a [`Popped`] holds.
#[verifier::ext_equal]
pub enum PoppedView {
    Dir(Seq<char>),
    Finished,
    Wait,
}

impl View for Popped {
    type V = PoppedView;

    open spec fn view(&self) -> PoppedView {
        match self {
            Popped::Dir(d) => PoppedView::Dir(d@),
            Popped::Finished => PoppedView::Finished,
            Popped::Wait => PoppedView::Wait,
        }
    }
}

/// What a scanner is given: nothing after a cancellation or from a closed
/// queue; else the oldest directory; and where there is none, the end once the
/// list is read and no directory is being searched.
pub open spec fn next_work(q: WorkView, cancelled: bool) -> PoppedView {
    if cancelled || q.closed {
        PoppedView::Finished
    } else if q.dirs.len() > 0 {
        PoppedView::Dir(q.dirs[0])
    } else if q.reader_done && q.pending == 0 {
        PoppedView::Finished
    } else {
        PoppedView::Wait
    }
}

impl DirWorkQueue {
    /// An empty queue whose list is still to be read.
    pub fn new() -> (r: DirWorkQueue)
        ensures
            r@ == (WorkView { dirs: Seq::empty(), reader_done: false, pending: 0, closed: false }),
    {
        let r = DirWorkQueue {
            dirs: VecDeque::new(),
            reader_done: false,
            pending_dirs: 0,
            closed: false,
        };
        assert(r@.dirs =~= Seq::<Seq<char>>::empty());
        r
    }

    /// Puts a directory at the end; a closed queue refuses it.
    pub fn push(&mut self, dir: String) -> (r: Result<(), QueueClosed>)
        requires
            old(self)@.pending < usize::MAX,
        ensures
            r is Err <==> old(self)@.closed,
            final(self)@ == (if old(self)@.closed {
                old(self)@
            } else {
                WorkView {
                    dirs: old(self)@.dirs.push(dir@),
                    pending: (old(self)@.pending + 1) as usize,
                    ..old(self)@
                }
            }),
    {
        if self.closed {
            return Err(QueueClosed);
        }
        let ghost before = self@.dirs;
        let ghost d = dir@;
        self.dirs.push_back(dir);
        self.pending_dirs = self.pending_dirs + 1;
        assert(self@.dirs =~= before.push(d));
        Ok(())
    }

    /// Takes out what a scanner is to search next.
    pub fn pop(&mut self, cancelled: bool) -> (r: Popped)
        ensures
            r@ == next_work(old(self)@, cancelled),
            final(self)@ == (if next_work(old(self)@, cancelled) is Dir {
                WorkView { dirs: old(self)@.dirs.drop_first(), ..old(self)@ }
            } else {
                old(self)@
            }),
    {
        let ghost before = self@.dirs;
        if cancelled || self.closed {
            return Popped::Finished;
        }
        if let Some(dir) = self.dirs.pop_front() {
            assert(self@.dirs =~= before.drop_first());
            return Popped::Dir(dir);
        }
        assert(self@.dirs =~= before);
        if self.reader_done && self.pending_dirs == 0 {
            Popped::Finished
        } else {
            Popped::Wait
        }
    }

    /// Notes that a directory has been searched; says whether those who wait
    /// are to be woken.
    pub fn finish_dir(&mut self) -> (r: bool)
        ensures
            final(self)@ == (WorkView {
                pending: if old(self)@.pending == 0 {
                    0
                } else {
                    (old(self)@.pending - 1) as usize
                },
                ..old(self)@
            }),
            r == (final(self)@.reader_done && final(self)@.pending == 0),
    {
        if self.pending_dirs > 0 {
            self.pending_dirs = self.pending_dirs - 1;
        }
        self.reader_done && self.pending_dirs == 0
    }

    /// Notes that the list has been read; says whether those who wait are to
    /// be woken.
    pub fn mark_reader_done(&mut self) -> (r: bool)
        ensures
            final(self)@ == (WorkView { reader_done: true, ..old(self)@ }),
            r == (old(self)@.pending == 0 || old(self)@.dirs.len() == 0),
    {
        self.reader_done = true;
        self.pending_dirs == 0 || self.dirs.len() == 0
    }

    /// Lets the queue take nothing in and give nothing out any more.
    pub fn close(&mut self)
        ensures
            final(self)@ == (WorkView { closed: true, ..old(self)@ }),
    {
        self.closed = true;
    }
}

/// Why the search failed. Errors of the file system are held as their
/// messages.
#[derive(Debug, PartialEq, Eq)]
pub enum DirScanError {
    Io { path: String, source: String },
    ReadDir { path: String, source: String },
    Metadata { path: String, source: String },
    PathSafe { path: String, lineno: usize, source: PathSafeError },
    PathEscape { mount: String, path: String },
    QueueClosed,
    Join(String),
}

/// What a [`DirScanError`] holds.
#[verifier::ext_equal]
pub enum ScanFault {
    Io { path: Seq<char>, source: Seq<char> },
    ReadDir { path: Seq<char>, source: Seq<char> },
    Metadata { path: Seq<char>, source: Seq<char> },
    PathSafe { path: Seq<char>, lineno: usize, source: PathFault },
    PathEscape { mount: Seq<char>, path: Seq<char> },
    QueueClosed,
    Join(Seq<char>),
}

impl View for DirScanError {
    type V = ScanFault;

    open spec fn view(&self) -> ScanFault {
        match *self {
            DirScanError::Io { path, source } => ScanFault::Io { path: path@, source: source@ },
            DirScanError::ReadDir { path, source } => ScanFault::ReadDir {
                path: path@,
                source: source@,
            },
            DirScanError::Metadata { path, source } => ScanFault::Metadata {
                path: path@,
                source: source@,
            },
            DirScanError::PathSafe { path, lineno, source } => ScanFault::PathSafe {
                path: path@,
                lineno,
                source: source@,
            },
            DirScanError::PathEscape { mount, path } => ScanFault::PathEscape {
                mount: mount@,
                path: path@,
            },
            DirScanError::QueueClosed => ScanFault::QueueClosed,
            DirScanError::Join(m) => ScanFault::Join(m@),
        }
    }
}

/// The text that shows an error.
pub open spec fn scan_error_text(e: DirScanError) -> Seq<char> {
    match e {
        DirScanError::Io { path, source } => "read dir_manifest "@ + text::quoted_text(path@)
            + ": "@ + source@,
        DirScanError::ReadDir { path, source } => "read_dir "@ + text::quoted_text(path@) + ": "@
            + source@,
        DirScanError::Metadata { path, source } => "metadata "@ + text::quoted_text(path@) + ": "@
            + source@,
        DirScanError::PathSafe { path, lineno, source } => "path_safe error at line "@
            + text::decimal(lineno as nat) + " of "@ + text::quoted_text(path@) + ": "@
            + fault_text(source@),
        DirScanError::PathEscape { mount, path } => "path "@ + text::quoted_text(path@)
            + " escapes mount_point "@ + text::quoted_text(mount@),
        DirScanError::QueueClosed => "file_queue closed during push"@,
        DirScanError::Join(m) => "scanner task join failed: "@ + m@,
    }
}

impl DirScanError {
    /// The error as a message.
    pub fn message(&self) -> (r: String)
        ensures
            r@ == scan_error_text(*self),
    {
        match self {
            DirScanError::Io { path, source } => located("read dir_manifest ", path, source),
            DirScanError::ReadDir { path, source } => located("read_dir ", path, source),
            DirScanError::Metadata { path, source } => located("metadata ", path, source),
            DirScanError::PathSafe { path, lineno, source } => {
                let mut s = "path_safe error at line ".to_owned();
                s.push_str(text::decimal_of(*lineno as u128).as_str());
                s.push_str(" of ");
                s.push_str(text::quoted(path).as_str());
                s.push_str(": ");
                s.push_str(source.message().as_str());
                s
            },
            DirScanError::PathEscape { mount, path } => {
                let mut s = "path ".to_owned();
                s.push_str(text::quoted(path).as_str());
                s.push_str(" escapes mount_point ");
                s.push_str(text::quoted(mount).as_str());
                s
            },
            DirScanError::QueueClosed => "file_queue closed during push".to_owned(),
            DirScanError::Join(m) => {
                let mut s = "scanner task join failed: ".to_owned();
                s.push_str(m.as_str());
                s
            },
        }
    }
}

fn located(what: &str, path: &String, source: &String) -> (r: String)
    ensures
        r@ == what@ + text::quoted_text(path@) + ": "@ + source@,
{
    let mut s = what.to_owned();
    s.push_str(text::quoted(path).as_str());
    s.push_str(": ");
    s.push_str(source.as_str());
    s
}

/// The directories of a list, up to where something is wrong with it.
#[derive(Debug, PartialEq, Eq)]
pub struct DirList {
    pub dirs: VecDeque<String>,
    pub fault: Option<DirScanError>,
}

/// The directories that the lines give, and the first line, with its number,
/// that is no safe path. Lines without characters but white space, and those
/// that start with `#`, give none.
pub open spec fn listed(lines: Seq<Seq<char>>) -> (Seq<Seq<char>>, Option<(int, PathFault)>)
    decreases lines.len(),
{
    if lines.len() == 0 {
        (Seq::empty(), None)
    } else {
        let (dirs, fault) = listed(lines.drop_last());
        let line = trimmed(lines.last());
        if fault is Some || line.len() == 0 || line[0] == '#' {
            (dirs, fault)
        } else {
            match relative_fault(line) {
                Some(f) => (dirs, Some((lines.len() as int, f))),
                None => (dirs.push(line), None),
            }
        }
    }
}

/// Whether `r` is what the list `path`, which holds `data`, gives.
pub open spec fn lists(r: DirList, path: Seq<char>, data: Seq<char>) -> bool {
    let (dirs, fault) = listed(split(data, '\n'));
    &&& text::views(r.dirs@) == dirs
    &&& match (r.fault, fault) {
        (None, None) => true,
        (Some(DirScanError::PathSafe { path: p, lineno, source }), Some((n, f))) => p@ == path
            && lineno == n && source@ == f,
        _ => false,
    }
}

proof fn lemma_stopped(lines: Seq<Seq<char>>, i: int)
    requires
        0 <= i <= lines.len(),
        listed(lines.take(i)).1 is Some,
    ensures
        listed(lines) == listed(lines.take(i)),
    decreases lines.len() - i,
{
    if i < lines.len() {
        assert(lines.take(i + 1).drop_last() =~= lines.take(i));
        lemma_stopped(lines, i + 1);
    } else {
        assert(lines.take(i) =~= lines);
    }
}

/// Reads the list `path`, which holds `data`.
pub fn read_list(path: &str, data: &str) -> (r: DirList)
    ensures
        lists(r, path@, data@),
{
    let lines = split_at_char(data, '\n');
    let ghost v = text::views(lines@);
    let mut dirs: VecDeque<String> = VecDeque::new();
    let mut i: usize = 0;
    proof {
        assert(v.take(0) =~= Seq::<Seq<char>>::empty());
        assert(text::views(dirs@) =~= Seq::<Seq<char>>::empty());
    }
    while i < lines.len()
        invariant
            i <= lines@.len(),
            v == text::views(lines@),
            v == split(data@, '\n'),
            listed(v.take(i as int)) == (text::views(dirs@), None::<(int, PathFault)>),
        decreases lines@.len() - i,
    {
        let ghost next = v.take(i as int + 1);
        proof {
            assert(next.drop_last() =~= v.take(i as int));
            assert(next.last() == lines@[i as int]@);
        }
        let cs = chars_of(lines[i].as_str());
        let line = trim(&cs);
        if line.len() > 0 && line[0] != '#' {
            let dir = string_of(&line);
            match validate_relative(dir.as_str()) {
                Err(source) => {
                    proof {
                        lemma_stopped(v, i as int + 1);
                    }
                    return DirList {
                        dirs,
                        fault: Some(
                            DirScanError::PathSafe { path: path.to_owned(), lineno: i + 1, source },
                        ),
                    };
                },
                Ok(_) => {
                    let ghost before = dirs@;
                    let ghost d = dir@;
                    dirs.push_back(dir);
                    assert(text::views(dirs@) =~= text::views(before).push(d));
                },
            }
        }
        i += 1;
    }
    assert(v.take(i as int) =~= v);
    DirList { dirs, fault: None }
}

/// Puts the directories of a list into the queue and then notes that the list
/// is read, unless something is wrong with it; a closed queue refuses them.
/// After a cancellation the queue is closed instead.
pub fn enqueue(queue: &mut DirWorkQueue, list: DirList, cancelled: bool) -> (r: Result<
    (),
    DirScanError,
>)
    requires
        old(queue)@.pending + list.dirs@.len() <= usize::MAX,
    ensures
        ({
            let q = old(queue)@;
            if cancelled {
                &&& r is Ok
                &&& final(queue)@ == (WorkView { closed: true, ..q })
            } else if q.closed && list.dirs@.len() > 0 {
                &&& r == Err::<(), DirScanError>(DirScanError::QueueClosed)
                &&& final(queue)@ == q
            } else {
                &&& r == (match list.fault {
                    Some(e) => Err(e),
                    None => Ok(()),
                })
                &&& final(queue)@ == (WorkView {
                    dirs: q.dirs + text::views(list.dirs@),
                    pending: (q.pending + list.dirs@.len()) as usize,
                    reader_done: q.reader_done || list.fault is None,
                    ..q
                })
            }
        }),
{
    if cancelled {
        queue.close();
        return Ok(());
    }
    let ghost q = queue@;
    let DirList { mut dirs, fault } = list;
    let ghost all = dirs@;
    let ghost mut moved: int = 0;
    proof {
        assert(all.skip(0) =~= all);
        assert(q.dirs =~= q.dirs + text::views(all.take(0)));
    }
    while dirs.len() > 0
        invariant
            0 <= moved <= all.len(),
            moved > 0 ==> !q.closed,
            q.pending + all.len() <= usize::MAX,
            dirs@ == all.skip(moved),
            queue@ == (WorkView {
                dirs: q.dirs + text::views(all.take(moved)),
                pending: (q.pending + moved) as usize,
                ..q
            }),
            q == old(queue)@,
            all == list.dirs@,
            !cancelled,
        decreases dirs@.len(),
    {
        if let Some(dir) = dirs.pop_front() {
            assert(dir == all[moved]);
            match queue.push(dir) {
                Err(_) => {
                    return Err(DirScanError::QueueClosed);
                },
                Ok(_) => {},
            }
            proof {
                assert(dirs@ =~= all.skip(moved + 1));
                assert(text::views(all.take(moved + 1)) =~= text::views(all.take(moved)).push(
                    all[moved]@,
                ));
                assert(queue@.dirs =~= q.dirs + text::views(all.take(moved + 1)));
                moved = moved + 1;
            }
        }
    }
    assert(all.take(moved) =~= all);
    match fault {
        Some(e) => Err(e),
        None => {
            queue.mark_reader_done();
            Ok(())
        },
    }
}

/// What an entry of a directory is.
#[derive(Debug, Clone, Copy, PartialEq, Eq, Structural)]
pub enum EntryKind {
    Symlink,
    File,
    Dir,
    Other,
}

/// What comes of an entry of a directory.
#[derive(Debug, PartialEq, Eq)]
pub enum Found {
    Nothing,
    File(pb::FileEntry),
    Dir(String),
}

/// What a [`Found`] holds.
#[verifier::ext_equal]
pub enum FoundView {
    Nothing,
    File(pb::FileEntryView),
    Dir(Seq<char>),
}

impl View for Found {
    type V = FoundView;

    open spec fn view(&self) -> FoundView {
        match self {
            Found::Nothing => FoundView::Nothing,
            Found::File(f) => FoundView::File(f@),
            Found::Dir(d) => FoundView::Dir(d@),
        }
    }
}

/// The part of the canonical path `target` that lies below `mount`.
pub open spec fn part_below(target: Seq<char>, mount: Seq<char>) -> Seq<char> {
    text::joined(steps(target).skip(steps(mount).len() as int), seq!['/'])
}

/// The part of the canonical path `target` that lies below `mount`.
fn strip_mount(target: &str, mount: &str) -> (r: String)
    requires
        lies_in(target@, mount@),
    ensures
        r@ == part_below(target@, mount@),
{
    let t = steps_of(target);
    let m = steps_of(mount);
    assert(text::views(t@).len() == t@.len());
    assert(text::views(m@).len() == m@.len());
    join_paths(&t, m.len())
}

/// What comes of the entry `name` of the directory `dir` below `mount`, given
/// what the file system resolved it to where it is a file: its canonical path,
/// or the message of the error. Links and special files give nothing. A file
/// is taken by its canonical path, which has to lie below the mount point. A
/// directory is to be searched in turn.
pub open spec fn found(
    mount: Seq<char>,
    dir: Seq<char>,
    name: Seq<char>,
    kind: EntryKind,
    resolved: Result<Seq<char>, Seq<char>>,
) -> Result<FoundView, ScanFault> {
    let entry = below(below(mount, dir), name);
    match kind {
        EntryKind::Symlink | EntryKind::Other => Ok(FoundView::Nothing),
        EntryKind::Dir => Ok(FoundView::Dir(below(dir, name))),
        EntryKind::File => match resolved {
            Err(m) => Err(ScanFault::Metadata { path: entry, source: m }),
            Ok(canon) => if !lies_in(canon, mount) {
                Err(ScanFault::PathEscape { mount, path: canon })
            } else if normalize_fault(part_below(canon, mount)) is Some {
                Err(ScanFault::PathEscape { mount, path: entry })
            } else {
                Ok(
                    FoundView::File(
                        pb::FileEntryView {
                            fs_path: normalized(part_below(canon, mount)),
                            s3_key: Seq::empty(),
                        },
                    ),
                )
            },
        },
    }
}

/// The texts of a result.
pub open spec fn told(r: Result<String, String>) -> Result<Seq<char>, Seq<char>> {
    match r {
        Ok(s) => Ok(s@),
        Err(m) => Err(m@),
    }
}

/// Decides on an entry of a directory.
pub fn classify(
    mount_point: &str,
    dir: &str,
    name: &str,
    kind: EntryKind,
    resolved: Result<String, String>,
) -> (r: Result<Found, DirScanError>)
    ensures
        match r {
            Ok(f) => found(mount_point@, dir@, name@, kind, told(resolved)) == Ok::<_, ScanFault>(f@),
            Err(e) => found(mount_point@, dir@, name@, kind, told(resolved)) == Err::<FoundView, _>(
                e@,
            ),
        },
{
    match kind {
        EntryKind::Symlink | EntryKind::Other => Ok(Found::Nothing),
        EntryKind::Dir => Ok(Found::Dir(crate::path_safe::put_below(dir, name))),
        EntryKind::File => {
            let parent = crate::path_safe::put_below(mount_point, dir);
            let entry = crate::path_safe::put_below(parent.as_str(), name);
            let canon = match resolved {
                Err(m) => {
                    return Err(DirScanError::Metadata { path: entry, source: m });
                },
                Ok(canon) => canon,
            };
            if !lies_within(canon.as_str(), mount_point) {
                return Err(
                    DirScanError::PathEscape { mount: mount_point.to_owned(), path: canon },
                );
            }
            let rel = strip_mount(canon.as_str(), mount_point);
            match normalize_relative(rel.as_str()) {
                Err(_) => Err(
                    DirScanError::PathEscape { mount: mount_point.to_owned(), path: entry },
                ),
                Ok(fs_path) => {
                    let s3_key = String::new();
                    assert(s3_key@ =~= Seq::<char>::empty());
                    Ok(Found::File(pb::FileEntry { fs_path, s3_key }))
                },
            }
        },
    }
}

/// The first of two faults.
pub open spec fn earlier(a: Option<ScanFault>, r: Result<(), DirScanError>) -> Option<ScanFault> {
    match (a, r) {
        (Some(fault), _) => Some(fault),
        (None, Err(e)) => Some(e@),
        (None, Ok(_)) => None,
    }
}

/// A pass over the list: what its reader and its scanners ended with so far.
#[derive(Debug)]
pub struct Pass {
    /// The first error.
    pub fault: Option<DirScanError>,
    /// Whether a scanner failed, so that all are to stop.
    pub stopped: bool,
}

impl Pass {
    /// A pass of which nothing has ended.
    pub fn new() -> (r: Pass)
        ensures
            r.fault is None,
            !r.stopped,
    {
        Pass { fault: None, stopped: false }
    }

    fn note(&mut self, result: Result<(), DirScanError>, queue: &mut DirWorkQueue)
        ensures
            opt_view(final(self).fault) == earlier(opt_view(old(self).fault), result),
            final(self).stopped == old(self).stopped,
            final(queue)@ == (if result is Err {
                WorkView { closed: true, ..old(queue)@ }
            } else {
                old(queue)@
            }),
    {
        if let Err(e) = result {
            queue.close();
            if self.fault.is_none() {
                self.fault = Some(e);
            }
        }
    }

    /// The reader of the list has ended. After an error no directory is
    /// searched any more.
    pub fn reader_ended(&mut self, result: Result<(), DirScanError>, queue: &mut DirWorkQueue)
        ensures
            opt_view(final(self).fault) == earlier(opt_view(old(self).fault), result),
            final(self).stopped == old(self).stopped,
            final(queue)@ == (if result is Err {
                WorkView { closed: true, ..old(queue)@ }
            } else {
                old(queue)@
            }),
    {
        self.note(result, queue)
    }

    /// A scanner has ended. After an error all of them are to stop.
    pub fn scanner_ended(&mut self, result: Result<(), DirScanError>, queue: &mut DirWorkQueue)
        ensures
            opt_view(final(self).fault) == earlier(opt_view(old(self).fault), result),
            final(self).stopped == (old(self).stopped || result is Err),
            final(queue)@ == (if result is Err {
                WorkView { closed: true, ..old(queue)@ }
            } else {
                old(queue)@
            }),
    {
        if result.is_err() {
            self.stopped = true;
        }
        self.note(result, queue)
    }

    /// What the pass ends with, once all have ended.
    pub fn result(self) -> (r: Result<(), DirScanError>)
        ensures
            r == (match self.fault {
                Some(e) => Err(e),
                None => Ok(()),
            }),
    {
        match self.fault {
            Some(e) => Err(e),
            None => Ok(()),
        }
    }
}

/// How many scanners are started: at least one.
pub fn scanner_count(concurrency: usize) -> (r: usize)
    ensures
        r == (if concurrency == 0 {
            1
        } else {
            concurrency
        }),
{
    if concurrency == 0 {
        1
    } else {
        concurrency
    }
}

/// Every directory of a list has a safe path.
pub proof fn law_listed_directories_are_safe(lines: Seq<Seq<char>>)
    ensures
        forall|i: int|
            0 <= i < listed(lines).0.len() ==> relative_fault(#[trigger] listed(lines).0[i]) is None,
    decreases lines.len(),
{
    if lines.len() > 0 {
        law_listed_directories_are_safe(lines.drop_last());
        let before = listed(lines.drop_last()).0;
        let all = listed(lines).0;
        assert forall|i: int| 0 <= i < all.len() implies relative_fault(#[trigger] all[i]) is None by {
            if i < before.len() {
                assert(all[i] == before[i]);
            }
        }
    }
}

/// Scanners go on as long as a directory is left, is being searched, or may
/// still be listed, unless they are told to stop.
pub proof fn law_search_ends_when_all_is_searched(q: WorkView)
    requires
        !q.closed,
        next_work(q, false) is Finished,
    ensures
        q.reader_done,
        q.dirs.len() == 0,
        q.pending == 0,
{
}

} // verus!
