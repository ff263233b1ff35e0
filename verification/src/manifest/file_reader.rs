//! The reader of a list of files: it loads the list, puts its files into the
//! queue of the workers as there is room, and then stops or starts again.

use vstd::prelude::*;

use crate::manifest::file_csv::{
    csv_rows, feed, files, filtered, list_of, numbered, read_list, room, Fed, ReaderError,
    ReaderFault, Reading, ReadingView,
};
use crate::manifest::queue::{BoundedQueue, QueueView};
use crate::manifest::{after_pass, AfterPass};
use crate::pb;
use crate::views::seq_views;

verus! {

/// What a reader waits for.
#[derive(Debug, PartialEq, Eq)]
pub enum Stage {
    /// The text of the list.
    Loading,
    /// Room in the queue for files of the list.
    Feeding(Reading),
    /// Nothing more.
    Over(Result<(), ReaderError>),
}

/// What a [`Stage`] holds.
#[verifier::ext_equal]
pub enum StageView {
    Loading,
    Feeding(ReadingView),
    Over(Result<(), ReaderFault>),
}

impl View for Stage {
    type V = StageView;

    open spec fn view(&self) -> StageView {
        match *self {
            Stage::Loading => StageView::Loading,
            Stage::Feeding(reading) => StageView::Feeding(reading@),
            Stage::Over(r) => StageView::Over(
                match r {
                    Ok(u) => Ok(u),
                    Err(e) => Err(e@),
                },
            ),
        }
    }
}

/// What comes to a reader. An error of the file system is held as its message.
#[derive(Debug)]
pub enum Event {
    /// It may look for room again.
    Go,
    Loaded(Result<String, String>),
}

/// What an [`Event`] holds.
#[verifier::ext_equal]
pub enum EventView {
    Go,
    Loaded(Result<Seq<char>, Seq<char>>),
}

impl View for Event {
    type V = EventView;

    open spec fn view(&self) -> EventView {
        match *self {
            Event::Go => EventView::Go,
            Event::Loaded(Ok(data)) => EventView::Loaded(Ok(data@)),
            Event::Loaded(Err(m)) => EventView::Loaded(Err(m@)),
        }
    }
}

/// A reader with all that it works on.
#[verifier::ext_equal]
pub struct Scene {
    pub stage: StageView,
    pub files: Seq<pb::FileEntryView>,
    pub capacity: usize,
    pub closed: bool,
    /// Whether all files of the list are known to be in the queue.
    pub done: bool,
}

/// The scene of a reader at the given stage.
pub open spec fn scene(stage: StageView, queue: QueueView<pb::FileEntry>, done: bool) -> Scene {
    Scene {
        stage,
        files: seq_views(queue.items),
        capacity: queue.capacity,
        closed: queue.closed,
        done,
    }
}

/// The files of numbered entries.
pub open spec fn listed_files(entries: Seq<(int, pb::FileEntryView)>) -> Seq<pb::FileEntryView> {
    entries.map_values(|e: (int, pb::FileEntryView)| e.1)
}

/// The list has been read to its end: it is read again where `loop_files`
/// holds, and else known to be in the queue.
pub open spec fn passed(s: Scene, loop_files: bool) -> Scene {
    if loop_files {
        Scene { stage: StageView::Loading, done: false, ..s }
    } else {
        Scene { stage: StageView::Over(Ok(())), done: true, ..s }
    }
}

/// Files go into the queue as long as there is room, in their order. After the
/// last of them the reader fails with what is wrong with the list, if anything
/// is. A closed queue lets it fail at once, unless no file is left.
pub open spec fn fed(s: Scene, list: ReadingView, loop_files: bool) -> Scene {
    let free = s.capacity - s.files.len();
    if list.entries.len() == 0 || (!s.closed && list.entries.len() <= free) {
        let all = Scene { files: s.files + listed_files(list.entries), ..s };
        match list.fault {
            Some(fault) => Scene { stage: StageView::Over(Err(fault)), ..all },
            None => passed(all, loop_files),
        }
    } else if s.closed {
        Scene {
            stage: StageView::Over(Err(ReaderFault::QueueClosed { lineno: list.entries[0].0 })),
            ..s
        }
    } else {
        Scene {
            stage: StageView::Feeding(
                ReadingView { entries: list.entries.skip(free), ..list },
            ),
            files: s.files + listed_files(list.entries.take(free)),
            ..s
        }
    }
}

/// What comes of an event to the reader of the list `path`. One that it does
/// not wait for changes nothing. A cancelled reader stops, and does not take
/// the list for read.
pub open spec fn advanced(
    s: Scene,
    event: EventView,
    path: Seq<char>,
    loop_files: bool,
    cancelled: bool,
) -> Scene {
    let over = Scene { stage: StageView::Over(Ok(())), ..s };
    match (s.stage, event) {
        (StageView::Loading, EventView::Loaded(r)) => if cancelled {
            over
        } else {
            match r {
                Ok(data) => fed(s, list_of(path, csv_rows(filtered(data))), loop_files),
                Err(m) => Scene {
                    stage: StageView::Over(Err(ReaderFault::Io { path, source: m })),
                    ..s
                },
            }
        },
        (StageView::Feeding(list), EventView::Go) => if cancelled {
            over
        } else {
            fed(s, list, loop_files)
        },
        _ => s,
    }
}

/// The reader of the list at `path`.
pub struct FileReader {
    pub stage: Stage,
    pub path: String,
    pub loop_files: bool,
}

impl FileReader {
    /// A reader that waits for the text of its list.
    pub fn new(path: String, loop_files: bool) -> (r: FileReader)
        ensures
            r.stage@ == StageView::Loading,
            r.path@ == path@,
            r.loop_files == loop_files,
    {
        FileReader { stage: Stage::Loading, path, loop_files }
    }

    fn put(
        &mut self,
        reading: Reading,
        queue: &mut BoundedQueue<pb::FileEntry>,
        done: &mut bool,
    )
        ensures
            final(self).path == old(self).path,
            final(self).loop_files == old(self).loop_files,
            scene(final(self).stage@, final(queue)@, *final(done)) == fed(
                scene(old(self).stage@, old(queue)@, *old(done)),
                reading@,
                old(self).loop_files,
            ),
    {
        let mut reading = reading;
        let ghost entries = reading.entries@;
        let ghost q = queue@;
        let ghost free = room(q);
        proof {
            assert(listed_files(numbered(entries)) =~= seq_views(files(entries)));
            assert(seq_views(q.items + files(entries)) =~= seq_views(q.items) + seq_views(
                files(entries),
            ));
            assert(seq_views(q.items).len() == q.items.len());
            if 0 <= free <= entries.len() {
                let head = entries.take(free);
                assert(listed_files(numbered(entries).take(free)) =~= seq_views(files(head)));
                assert(seq_views(q.items + files(head)) =~= seq_views(q.items) + seq_views(
                    files(head),
                ));
                assert(numbered(entries.skip(free)) =~= numbered(entries).skip(free));
            }
        }
        let capacity: usize = queue.capacity();
        assert(free == capacity - q.items.len());
        match feed(queue, &mut reading) {
            Fed::Waiting => {
                self.stage = Stage::Feeding(reading);
            },
            Fed::Finished(Err(e)) => {
                self.stage = Stage::Over(Err(e));
            },
            Fed::Finished(Ok(_)) => match after_pass(false, self.loop_files) {
                AfterPass::Again => {
                    *done = false;
                    self.stage = Stage::Loading;
                },
                AfterPass::Done | AfterPass::Stop => {
                    *done = true;
                    self.stage = Stage::Over(Ok(()));
                },
            },
        }
    }

    /// Takes what came, and acts on it as far as that goes without waiting.
    /// Afterwards the stage says what the reader waits for.
    pub fn step(
        &mut self,
        event: Event,
        queue: &mut BoundedQueue<pb::FileEntry>,
        done: &mut bool,
        cancelled: bool,
    )
        ensures
            final(self).path == old(self).path,
            final(self).loop_files == old(self).loop_files,
            scene(final(self).stage@, final(queue)@, *final(done)) == advanced(
                scene(old(self).stage@, old(queue)@, *old(done)),
                event@,
                old(self).path@,
                old(self).loop_files,
                cancelled,
            ),
    {
        let mut stage = Stage::Loading;
        std::mem::swap(&mut stage, &mut self.stage);
        match stage {
            Stage::Loading => match event {
                Event::Loaded(r) => if cancelled {
                    self.stage = Stage::Over(Ok(()));
                } else {
                    match r {
                        Ok(data) => {
                            let reading = read_list(self.path.as_str(), data.as_str());
                            self.put(reading, queue, done);
                        },
                        Err(source) => {
                            self.stage = Stage::Over(
                                Err(ReaderError::Io { path: self.path.clone(), source }),
                            );
                        },
                    }
                },
                Event::Go => {},
            },
            Stage::Feeding(reading) => match event {
                Event::Go => if cancelled {
                    self.stage = Stage::Over(Ok(()));
                } else {
                    self.put(reading, queue, done);
                },
                Event::Loaded(_) => {
                    self.stage = Stage::Feeding(reading);
                },
            },
            Stage::Over(r) => {
                self.stage = Stage::Over(r);
            },
        }
    }
}

/// A reader only adds files to the queue, and no more than there is room for.
pub proof fn law_reader_only_appends(
    s: Scene,
    event: EventView,
    path: Seq<char>,
    loop_files: bool,
    cancelled: bool,
)
    requires
        s.files.len() <= s.capacity,
    ensures
        ({
            let t = advanced(s, event, path, loop_files, cancelled);
            &&& s.files.is_prefix_of(t.files)
            &&& t.files.len() <= s.capacity
        }),
{
    let t = advanced(s, event, path, loop_files, cancelled);
    assert(t.files.take(s.files.len() as int) =~= s.files);
}

/// The list is taken for read only once all its files are in the queue, and
/// nothing is wrong with it.
pub proof fn law_done_means_all_is_queued(
    s: Scene,
    event: EventView,
    path: Seq<char>,
    loop_files: bool,
    cancelled: bool,
)
    requires
        !s.done,
        advanced(s, event, path, loop_files, cancelled).done,
    ensures
        !cancelled,
        !loop_files,
        ({
            let list = match (s.stage, event) {
                (StageView::Feeding(list), _) => list,
                (_, EventView::Loaded(Ok(data))) => list_of(path, csv_rows(filtered(data))),
                _ => ReadingView { entries: Seq::empty(), fault: None },
            };
            &&& list.fault is None
            &&& advanced(s, event, path, loop_files, cancelled).files == s.files + listed_files(
                list.entries,
            )
        }),
{
}

} // verus!
