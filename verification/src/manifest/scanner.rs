//! One of the scanners that search the listed directories.
//!
//! A scanner waits for one thing at a time: for a directory to search, for an
//! answer of the file system, or for room in the queue of the workers. What it
//! waits for is its stage; what comes moves it to the next.

use vstd::prelude::*;

use crate::manifest::dir_scan::{
    classify, found, next_work, part_below, told, DirScanError, DirWorkQueue, EntryKind, Found, FoundView,
    Popped, PoppedView, ScanFault, WorkView,
};
use crate::manifest::queue::{BoundedQueue, QueueView};
use crate::path_safe::{below, law_normalized_is_accepted, put_below, relative_fault};
use crate::pb;
use crate::state::job::ManifestScanStats;
use crate::views::seq_views;

verus! {

/// What a scanner waits for.
#[derive(Debug, PartialEq, Eq)]
pub enum Stage {
    /// A directory to search.
    Idle,
    /// That the directory is opened.
    Opening { dir: String },
    /// The next entry of the directory.
    Listing { dir: String },
    /// The kind of an entry.
    Typing { dir: String, name: String },
    /// The canonical path of a file.
    Resolving { dir: String, name: String },
    /// Room for a file in the queue of the workers.
    Storing { dir: String, file: pb::FileEntry },
    /// Nothing more.
    Over(Result<(), DirScanError>),
}

/// What a [`Stage`] holds.
#[verifier::ext_equal]
pub enum StageView {
    Idle,
    Opening { dir: Seq<char> },
    Listing { dir: Seq<char> },
    Typing { dir: Seq<char>, name: Seq<char> },
    Resolving { dir: Seq<char>, name: Seq<char> },
    Storing { dir: Seq<char>, file: pb::FileEntryView },
    Over(Result<(), ScanFault>),
}

impl View for Stage {
    type V = StageView;

    open spec fn view(&self) -> StageView {
        match *self {
            Stage::Idle => StageView::Idle,
            Stage::Opening { dir } => StageView::Opening { dir: dir@ },
            Stage::Listing { dir } => StageView::Listing { dir: dir@ },
            Stage::Typing { dir, name } => StageView::Typing { dir: dir@, name: name@ },
            Stage::Resolving { dir, name } => StageView::Resolving { dir: dir@, name: name@ },
            Stage::Storing { dir, file } => StageView::Storing { dir: dir@, file: file@ },
            Stage::Over(r) => StageView::Over(
                match r {
                    Ok(u) => Ok(u),
                    Err(e) => Err(e@),
                },
            ),
        }
    }
}

/// What comes to a scanner. Errors of the file system are held as their
/// messages.
#[derive(Debug)]
pub enum Event {
    /// It may look again for a directory, or for room.
    Go,
    Opened(Result<(), String>),
    Entry(Result<Option<String>, String>),
    Kind(Result<EntryKind, String>),
    Resolved(Result<String, String>),
}

/// What an [`Event`] holds.
#[verifier::ext_equal]
pub enum EventView {
    Go,
    Opened(Result<(), Seq<char>>),
    Entry(Result<Option<Seq<char>>, Seq<char>>),
    Kind(Result<EntryKind, Seq<char>>),
    Resolved(Result<Seq<char>, Seq<char>>),
}

impl View for Event {
    type V = EventView;

    open spec fn view(&self) -> EventView {
        match *self {
            Event::Go => EventView::Go,
            Event::Opened(r) => EventView::Opened(
                match r {
                    Ok(u) => Ok(u),
                    Err(m) => Err(m@),
                },
            ),
            Event::Entry(r) => EventView::Entry(
                match r {
                    Ok(Some(name)) => Ok(Some(name@)),
                    Ok(None) => Ok(None),
                    Err(m) => Err(m@),
                },
            ),
            Event::Kind(r) => EventView::Kind(
                match r {
                    Ok(kind) => Ok(kind),
                    Err(m) => Err(m@),
                },
            ),
            Event::Resolved(r) => EventView::Resolved(told(r)),
        }
    }
}

/// Which other scanners are to look again.
#[derive(Debug, Clone, Copy, PartialEq, Eq, Structural)]
pub enum Wake {
    Nobody,
    One,
    All,
}

/// A scanner with all that it works on.
#[verifier::ext_equal]
pub struct Scene {
    pub stage: StageView,
    pub work: WorkView,
    pub files: Seq<pb::FileEntryView>,
    pub capacity: usize,
    pub closed: bool,
    pub stats: ManifestScanStats,
    pub wake: Wake,
}

/// The scene of a scanner at the given stage.
pub open spec fn scene(
    stage: StageView,
    work: WorkView,
    queue: QueueView<pb::FileEntry>,
    stats: ManifestScanStats,
    wake: Wake,
) -> Scene {
    Scene {
        stage,
        work,
        files: seq_views(queue.items),
        capacity: queue.capacity,
        closed: queue.closed,
        stats,
        wake,
    }
}

/// The scanner takes the next directory, ends, or goes on waiting.
pub open spec fn sought(s: Scene, cancelled: bool) -> Scene {
    match next_work(s.work, cancelled) {
        PoppedView::Dir(dir) => Scene {
            stage: StageView::Opening { dir },
            work: WorkView { dirs: s.work.dirs.drop_first(), ..s.work },
            ..s
        },
        PoppedView::Finished => Scene { stage: StageView::Over(Ok(())), ..s },
        PoppedView::Wait => Scene { stage: StageView::Idle, ..s },
    }
}

/// The directory is done with. Once the list is read and no directory is left,
/// all scanners are to see that.
pub open spec fn finished(s: Scene) -> Scene {
    let pending: usize = if s.work.pending == 0 {
        0
    } else {
        (s.work.pending - 1) as usize
    };
    Scene {
        work: WorkView { pending, ..s.work },
        wake: if s.work.reader_done && pending == 0 {
            Wake::All
        } else {
            s.wake
        },
        ..s
    }
}

/// The directory has been searched; it is counted, and the scanner looks for
/// the next.
pub open spec fn left(s: Scene, cancelled: bool) -> Scene {
    let f = finished(s);
    sought(
        Scene {
            stats: ManifestScanStats {
                dirs_scanned: f.stats.dirs_scanned.wrapping_add(1),
                ..f.stats
            },
            ..f
        },
        cancelled,
    )
}

/// The search failed in the directory; it is not counted, and the scanner ends.
pub open spec fn failed(s: Scene, fault: ScanFault) -> Scene {
    Scene { stage: StageView::Over(Err(fault)), ..finished(s) }
}

/// The scanner goes on with the directory, unless it is told to stop.
pub open spec fn went_on(s: Scene, dir: Seq<char>, cancelled: bool) -> Scene {
    if cancelled {
        left(s, cancelled)
    } else {
        Scene { stage: StageView::Listing { dir }, ..s }
    }
}

/// The file goes into the queue of the workers and is counted, or waits for
/// room there; a closed queue lets the search fail.
pub open spec fn stored(
    s: Scene,
    dir: Seq<char>,
    file: pb::FileEntryView,
    cancelled: bool,
) -> Scene {
    if s.closed {
        failed(s, ScanFault::QueueClosed)
    } else if s.files.len() >= s.capacity {
        Scene { stage: StageView::Storing { dir, file }, ..s }
    } else {
        went_on(
            Scene {
                files: s.files.push(file),
                stats: ManifestScanStats {
                    files_scanned: s.stats.files_scanned.wrapping_add(1),
                    ..s.stats
                },
                ..s
            },
            dir,
            cancelled,
        )
    }
}

/// A directory that was found goes into the queue of directories, for any
/// scanner to take; a closed queue lets the search fail.
pub open spec fn queued(s: Scene, dir: Seq<char>, sub: Seq<char>, cancelled: bool) -> Scene {
    if s.work.closed {
        failed(s, ScanFault::QueueClosed)
    } else {
        went_on(
            Scene {
                work: WorkView {
                    dirs: s.work.dirs.push(sub),
                    pending: (s.work.pending + 1) as usize,
                    ..s.work
                },
                wake: Wake::One,
                ..s
            },
            dir,
            cancelled,
        )
    }
}

/// An entry of the directory has come, or its end.
pub open spec fn listed(
    s: Scene,
    dir: Seq<char>,
    entry: Result<Option<Seq<char>>, Seq<char>>,
    mount: Seq<char>,
    cancelled: bool,
) -> Scene {
    match entry {
        Ok(Some(name)) => Scene { stage: StageView::Typing { dir, name }, ..s },
        Ok(None) => left(s, cancelled),
        Err(m) => failed(s, ScanFault::ReadDir { path: below(mount, dir), source: m }),
    }
}

/// The kind of an entry is known.
pub open spec fn typed(
    s: Scene,
    dir: Seq<char>,
    name: Seq<char>,
    kind: Result<EntryKind, Seq<char>>,
    mount: Seq<char>,
    cancelled: bool,
) -> Scene {
    match kind {
        Ok(EntryKind::File) => Scene { stage: StageView::Resolving { dir, name }, ..s },
        Ok(EntryKind::Dir) => queued(s, dir, below(dir, name), cancelled),
        Ok(EntryKind::Symlink) | Ok(EntryKind::Other) => went_on(s, dir, cancelled),
        Err(m) => failed(
            s,
            ScanFault::Metadata { path: below(below(mount, dir), name), source: m },
        ),
    }
}

/// The canonical path of a file is known.
pub open spec fn resolved_to(
    s: Scene,
    dir: Seq<char>,
    name: Seq<char>,
    resolved: Result<Seq<char>, Seq<char>>,
    mount: Seq<char>,
    cancelled: bool,
) -> Scene {
    match found(mount, dir, name, EntryKind::File, resolved) {
        Ok(FoundView::File(file)) => stored(s, dir, file, cancelled),
        Ok(_) => s,
        Err(fault) => failed(s, fault),
    }
}

/// What comes of an event. One that the scanner does not wait for changes
/// nothing.
pub open spec fn advanced(s: Scene, event: EventView, mount: Seq<char>, cancelled: bool) -> Scene {
    let free = Scene { stage: StageView::Idle, ..s };
    match (s.stage, event) {
        (StageView::Idle, EventView::Go) => sought(free, cancelled),
        (StageView::Opening { dir }, EventView::Opened(r)) => match r {
            Ok(_) => went_on(free, dir, cancelled),
            Err(m) => failed(free, ScanFault::ReadDir { path: below(mount, dir), source: m }),
        },
        (StageView::Listing { dir }, EventView::Entry(r)) => listed(free, dir, r, mount, cancelled),
        (StageView::Typing { dir, name }, EventView::Kind(r)) => typed(
            free,
            dir,
            name,
            r,
            mount,
            cancelled,
        ),
        (StageView::Resolving { dir, name }, EventView::Resolved(r)) => resolved_to(
            free,
            dir,
            name,
            r,
            mount,
            cancelled,
        ),
        (StageView::Storing { dir, file }, EventView::Go) => stored(free, dir, file, cancelled),
        _ => s,
    }
}

/// How many directories a scanner is in: one, unless it looks for one or has
/// ended.
pub open spec fn searching(stage: StageView) -> int {
    if stage is Idle || stage is Over {
        0
    } else {
        1
    }
}

/// The directories that count as pending are those in the queue and those that
/// scanners are in: no step of a scanner changes how many others there are.
pub proof fn law_pending_counts_what_is_left(
    s: Scene,
    event: EventView,
    mount: Seq<char>,
    cancelled: bool,
)
    requires
        s.work.pending < usize::MAX,
        s.work.dirs.len() + searching(s.stage) <= s.work.pending,
    ensures
        ({
            let t = advanced(s, event, mount, cancelled);
            t.work.pending - t.work.dirs.len() - searching(t.stage) == s.work.pending
                - s.work.dirs.len() - searching(s.stage)
        }),
{
}

/// Every file that a scanner puts into the queue of the workers has a safe path
/// below the mount point, and what was in the queue stays as it was.
pub proof fn law_scanned_files_are_safe(
    s: Scene,
    event: EventView,
    mount: Seq<char>,
    cancelled: bool,
)
    requires
        s.stage matches StageView::Storing { file, .. } ==> relative_fault(file.fs_path) is None,
    ensures
        ({
            let t = advanced(s, event, mount, cancelled);
            &&& t.stage matches StageView::Storing { file, .. } ==> relative_fault(
                file.fs_path,
            ) is None
            &&& t.files == s.files || (t.files == s.files.push(t.files.last()) && relative_fault(
                t.files.last().fs_path,
            ) is None)
        }),
{
    if let (StageView::Resolving { dir, name }, EventView::Resolved(r)) = (s.stage, event) {
        if let Ok(FoundView::File(file)) = found(mount, dir, name, EntryKind::File, r) {
            law_normalized_is_accepted(part_below(r->Ok_0, mount));
        }
    }
}

/// A scanner that ends without an error was told to stop, or saw that all is
/// searched.
pub proof fn law_scanner_ends_when_all_is_searched(
    s: Scene,
    event: EventView,
    mount: Seq<char>,
)
    requires
        !(s.stage is Over),
        !s.work.closed,
        advanced(s, event, mount, false).stage == StageView::Over(Ok(())),
    ensures
        ({
            let t = advanced(s, event, mount, false);
            t.work.reader_done && t.work.dirs.len() == 0 && t.work.pending == 0
        }),
{
}

/// A scanner of the directories below a mount point.
pub struct Scanner {
    pub stage: Stage,
    pub mount_point: String,
}

impl Scanner {
    /// A scanner that waits for a directory.
    pub fn new(mount_point: String) -> (r: Scanner)
        ensures
            r.stage@ == StageView::Idle,
            r.mount_point@ == mount_point@,
    {
        Scanner { stage: Stage::Idle, mount_point }
    }

    fn seek(&mut self, work: &mut DirWorkQueue, cancelled: bool)
        ensures
            final(self).mount_point == old(self).mount_point,
            forall|queue: QueueView<pb::FileEntry>, stats: ManifestScanStats, wake: Wake| #[trigger]
                scene(final(self).stage@, final(work)@, queue, stats, wake) == sought(
                    scene(old(self).stage@, old(work)@, queue, stats, wake),
                    cancelled,
                ),
    {
        self.stage = match work.pop(cancelled) {
            Popped::Dir(dir) => Stage::Opening { dir },
            Popped::Finished => Stage::Over(Ok(())),
            Popped::Wait => Stage::Idle,
        };
    }

    fn leave(
        &mut self,
        work: &mut DirWorkQueue,
        stats: &mut ManifestScanStats,
        cancelled: bool,
        wake: Wake,
    ) -> (r: Wake)
        ensures
            final(self).mount_point == old(self).mount_point,
            forall|queue: QueueView<pb::FileEntry>| #[trigger]
                scene(final(self).stage@, final(work)@, queue, *final(stats), r) == left(
                    scene(old(self).stage@, old(work)@, queue, *old(stats), wake),
                    cancelled,
                ),
    {
        let all = work.finish_dir();
        stats.add_dir();
        self.seek(work, cancelled);
        if all {
            Wake::All
        } else {
            wake
        }
    }

    fn fail(&mut self, work: &mut DirWorkQueue, e: DirScanError, wake: Wake) -> (r: Wake)
        ensures
            final(self).mount_point == old(self).mount_point,
            forall|queue: QueueView<pb::FileEntry>, stats: ManifestScanStats| #[trigger]
                scene(final(self).stage@, final(work)@, queue, stats, r) == failed(
                    scene(old(self).stage@, old(work)@, queue, stats, wake),
                    e@,
                ),
    {
        self.stage = Stage::Over(Err(e));
        if work.finish_dir() {
            Wake::All
        } else {
            wake
        }
    }

    fn go_on(
        &mut self,
        dir: String,
        work: &mut DirWorkQueue,
        stats: &mut ManifestScanStats,
        cancelled: bool,
        wake: Wake,
    ) -> (r: Wake)
        ensures
            final(self).mount_point == old(self).mount_point,
            forall|queue: QueueView<pb::FileEntry>| #[trigger]
                scene(final(self).stage@, final(work)@, queue, *final(stats), r) == went_on(
                    scene(old(self).stage@, old(work)@, queue, *old(stats), wake),
                    dir@,
                    cancelled,
                ),
    {
        if cancelled {
            self.leave(work, stats, cancelled, wake)
        } else {
            self.stage = Stage::Listing { dir };
            wake
        }
    }

    fn store(
        &mut self,
        dir: String,
        file: pb::FileEntry,
        work: &mut DirWorkQueue,
        queue: &mut BoundedQueue<pb::FileEntry>,
        stats: &mut ManifestScanStats,
        cancelled: bool,
    ) -> (r: Wake)
        ensures
            final(self).mount_point == old(self).mount_point,
            scene(final(self).stage@, final(work)@, final(queue)@, *final(stats), r) == stored(
                scene(old(self).stage@, old(work)@, old(queue)@, *old(stats), Wake::Nobody),
                dir@,
                file@,
                cancelled,
            ),
    {
        let ghost before = queue@;
        let ghost entry = file;
        match queue.push(file) {
            Err(_) => self.fail(work, DirScanError::QueueClosed, Wake::Nobody),
            Ok(Some(file)) => {
                self.stage = Stage::Storing { dir, file };
                Wake::Nobody
            },
            Ok(None) => {
                stats.add_file();
                assert(seq_views(queue@.items) =~= seq_views(before.items).push(entry@));
                self.go_on(dir, work, stats, cancelled, Wake::Nobody)
            },
        }
    }

    fn list(
        &mut self,
        dir: String,
        entry: Result<Option<String>, String>,
        work: &mut DirWorkQueue,
        stats: &mut ManifestScanStats,
        cancelled: bool,
    ) -> (r: Wake)
        ensures
            final(self).mount_point == old(self).mount_point,
            forall|queue: QueueView<pb::FileEntry>| #[trigger]
                scene(final(self).stage@, final(work)@, queue, *final(stats), r) == listed(
                    scene(old(self).stage@, old(work)@, queue, *old(stats), Wake::Nobody),
                    dir@,
                    Event::Entry(entry)@->Entry_0,
                    old(self).mount_point@,
                    cancelled,
                ),
    {
        match entry {
            Ok(Some(name)) => {
                self.stage = Stage::Typing { dir, name };
                Wake::Nobody
            },
            Ok(None) => self.leave(work, stats, cancelled, Wake::Nobody),
            Err(source) => {
                let path = put_below(self.mount_point.as_str(), dir.as_str());
                self.fail(work, DirScanError::ReadDir { path, source }, Wake::Nobody)
            },
        }
    }

    fn take_kind(
        &mut self,
        dir: String,
        name: String,
        kind: Result<EntryKind, String>,
        work: &mut DirWorkQueue,
        stats: &mut ManifestScanStats,
        cancelled: bool,
    ) -> (r: Wake)
        requires
            old(work)@.pending < usize::MAX,
        ensures
            final(self).mount_point == old(self).mount_point,
            forall|queue: QueueView<pb::FileEntry>| #[trigger]
                scene(final(self).stage@, final(work)@, queue, *final(stats), r) == typed(
                    scene(old(self).stage@, old(work)@, queue, *old(stats), Wake::Nobody),
                    dir@,
                    name@,
                    Event::Kind(kind)@->Kind_0,
                    old(self).mount_point@,
                    cancelled,
                ),
    {
        match kind {
            Ok(EntryKind::File) => {
                self.stage = Stage::Resolving { dir, name };
                Wake::Nobody
            },
            Ok(EntryKind::Dir) => {
                let sub = put_below(dir.as_str(), name.as_str());
                match work.push(sub) {
                    Ok(_) => self.go_on(dir, work, stats, cancelled, Wake::One),
                    Err(_) => self.fail(work, DirScanError::QueueClosed, Wake::Nobody),
                }
            },
            Ok(EntryKind::Symlink) | Ok(EntryKind::Other) => {
                self.go_on(dir, work, stats, cancelled, Wake::Nobody)
            },
            Err(source) => {
                let parent = put_below(self.mount_point.as_str(), dir.as_str());
                let path = put_below(parent.as_str(), name.as_str());
                self.fail(work, DirScanError::Metadata { path, source }, Wake::Nobody)
            },
        }
    }

    fn take_path(
        &mut self,
        dir: String,
        name: String,
        resolved: Result<String, String>,
        work: &mut DirWorkQueue,
        queue: &mut BoundedQueue<pb::FileEntry>,
        stats: &mut ManifestScanStats,
        cancelled: bool,
    ) -> (r: Wake)
        ensures
            final(self).mount_point == old(self).mount_point,
            scene(final(self).stage@, final(work)@, final(queue)@, *final(stats), r) == resolved_to(
                scene(old(self).stage@, old(work)@, old(queue)@, *old(stats), Wake::Nobody),
                dir@,
                name@,
                told(resolved),
                old(self).mount_point@,
                cancelled,
            ),
    {
        match classify(
            self.mount_point.as_str(),
            dir.as_str(),
            name.as_str(),
            EntryKind::File,
            resolved,
        ) {
            Ok(Found::File(file)) => self.store(dir, file, work, queue, stats, cancelled),
            Ok(_) => Wake::Nobody,
            Err(e) => self.fail(work, e, Wake::Nobody),
        }
    }

    fn stay(&mut self, stage: Stage) -> (r: Wake)
        ensures
            final(self).mount_point == old(self).mount_point,
            final(self).stage == stage,
            r == Wake::Nobody,
    {
        self.stage = stage;
        Wake::Nobody
    }

    /// Takes what came, acts on it as far as that goes without waiting, and
    /// says which other scanners are to look again. Afterwards the stage says
    /// what the scanner waits for.
    pub fn step(
        &mut self,
        event: Event,
        work: &mut DirWorkQueue,
        queue: &mut BoundedQueue<pb::FileEntry>,
        stats: &mut ManifestScanStats,
        cancelled: bool,
    ) -> (r: Wake)
        requires
            old(work)@.pending < usize::MAX,
        ensures
            final(self).mount_point == old(self).mount_point,
            scene(final(self).stage@, final(work)@, final(queue)@, *final(stats), r) == advanced(
                scene(old(self).stage@, old(work)@, old(queue)@, *old(stats), Wake::Nobody),
                event@,
                old(self).mount_point@,
                cancelled,
            ),
    {
        let mut stage = Stage::Idle;
        std::mem::swap(&mut stage, &mut self.stage);
        match stage {
            Stage::Idle => match event {
                Event::Go => {
                    self.seek(work, cancelled);
                    Wake::Nobody
                },
                _ => self.stay(Stage::Idle),
            },
            Stage::Opening { dir } => match event {
                Event::Opened(Ok(_)) => self.go_on(dir, work, stats, cancelled, Wake::Nobody),
                Event::Opened(Err(source)) => {
                    let path = put_below(self.mount_point.as_str(), dir.as_str());
                    self.fail(work, DirScanError::ReadDir { path, source }, Wake::Nobody)
                },
                _ => self.stay(Stage::Opening { dir }),
            },
            Stage::Listing { dir } => match event {
                Event::Entry(r) => self.list(dir, r, work, stats, cancelled),
                _ => self.stay(Stage::Listing { dir }),
            },
            Stage::Typing { dir, name } => match event {
                Event::Kind(r) => self.take_kind(dir, name, r, work, stats, cancelled),
                _ => self.stay(Stage::Typing { dir, name }),
            },
            Stage::Resolving { dir, name } => match event {
                Event::Resolved(r) => self.take_path(dir, name, r, work, queue, stats, cancelled),
                _ => self.stay(Stage::Resolving { dir, name }),
            },
            Stage::Storing { dir, file } => match event {
                Event::Go => self.store(dir, file, work, queue, stats, cancelled),
                _ => self.stay(Stage::Storing { dir, file }),
            },
            Stage::Over(r) => self.stay(Stage::Over(r)),
        }
    }
}

} // verus!
