//! What becomes of the lines of a list, and of what is found in directories.

use vstd::prelude::*;

use crate::manifest::dir_scan;
use crate::manifest::dir_scan::{found, part_below, EntryKind, FoundView, ScanFault};
use crate::manifest::file_csv::{filtered, ignored, kept_lines, reading_of, ReaderFault, ReadingView, RowFault};
use crate::manifest::file_reader;
use crate::manifest::scanner;
use crate::path_safe::{
    below, law_joined_path_stays_below, law_normalize_is_idempotent, law_normalized_is_accepted,
    lemma_accepted_from_here, lies_in, normalize_fault, normalized, relative_fault, steps,
};
use crate::pb;
use crate::text;
use crate::text::{nonempty, split, trimmed, trimmed_start};

verus! {

/// A record of a list, or why it is none.
pub type Record = Result<Seq<Seq<char>>, Seq<char>>;

/// Whether a record names a file: its first field is not blank.
pub open spec fn names_file(r: Record) -> bool {
    r matches Ok(fields) && fields.len() > 0 && trimmed(fields[0]).len() > 0
}

/// Whether something is wrong with a record: it is none, or the path that it names
/// is not safe.
pub open spec fn is_wrong(r: Record) -> bool {
    r is Err || (names_file(r) && normalize_fault(trimmed(r->Ok_0[0])) is Some)
}

/// Whether an entry is the file that the record `n` names, by the path in its
/// first field and the key in its second, which may be missing.
pub open spec fn stands_in(e: (int, pb::FileEntryView), rows: Seq<Record>, n: int) -> bool {
    &&& 0 <= n < rows.len() && names_file(rows[n])
    &&& e.0 == n + 1
    &&& e.1.fs_path == normalized(trimmed(rows[n]->Ok_0[0]))
    &&& rows[n]->Ok_0.len() > 1 ==> e.1.s3_key == trimmed(rows[n]->Ok_0[1])
    &&& rows[n]->Ok_0.len() <= 1 ==> e.1.s3_key.len() == 0
}

/// Whether the file that the record `n` names is among the entries.
pub open spec fn is_listed(
    entries: Seq<(int, pb::FileEntryView)>,
    rows: Seq<Record>,
    n: int,
) -> bool {
    exists|i: int| 0 <= i < entries.len() && stands_in(#[trigger] entries[i], rows, n)
}

/// Whether an entry is a file that one of the records names.
pub open spec fn is_from(e: (int, pb::FileEntryView), rows: Seq<Record>) -> bool {
    exists|n: int| stands_in(e, rows, n)
}

/// Every record of a list that names a file gives that file, and nothing else
/// does, up to the first record with which something is wrong; that record is
/// reported.
pub proof fn law_records_give_their_files(rows: Seq<Record>)
    ensures
        ({
            let r = reading_of(rows);
            let good = match r.fault {
                Some((lineno, _)) => lineno - 1,
                None => rows.len() as int,
            };
            &&& 0 <= good <= rows.len()
            &&& r.fault is Some ==> good < rows.len() && is_wrong(rows[good])
            &&& r.fault matches Some((_, RowFault::Csv(m))) ==> rows[good] == Err::<
                Seq<Seq<char>>,
                Seq<char>,
            >(m)
            &&& r.fault matches Some((_, RowFault::Path(f))) ==> names_file(rows[good])
                && normalize_fault(trimmed(rows[good]->Ok_0[0])) == Some(f)
            &&& forall|n: int| 0 <= n < good ==> !is_wrong(#[trigger] rows[n])
            &&& forall|n: int|
                0 <= n < good && names_file(#[trigger] rows[n]) ==> is_listed(r.entries, rows, n)
            &&& forall|i: int| 0 <= i < r.entries.len() ==> is_from(#[trigger] r.entries[i], rows)
        }),
    decreases rows.len(),
{
    if rows.len() > 0 {
        let head = rows.drop_last();
        let last = rows.len() - 1;
        law_records_give_their_files(head);
        let before = reading_of(head);
        let r = reading_of(rows);
        let good = match r.fault {
            Some((lineno, _)) => lineno - 1,
            None => rows.len() as int,
        };
        assert forall|n: int| 0 <= n < last implies head[n] == #[trigger] rows[n] by {}
        assert forall|i: int| 0 <= i < before.entries.len() implies r.entries[i]
            == #[trigger] before.entries[i] by {}
        assert forall|i: int| 0 <= i < r.entries.len() implies is_from(
            #[trigger] r.entries[i],
            rows,
        ) by {
            if i < before.entries.len() {
                assert(is_from(before.entries[i], head));
                let n = choose|n: int| stands_in(before.entries[i], head, n);
                assert(stands_in(r.entries[i], rows, n));
            } else {
                assert(stands_in(r.entries[i], rows, last));
            }
        }
        assert forall|n: int| 0 <= n < good && names_file(#[trigger] rows[n]) implies is_listed(
            r.entries,
            rows,
            n,
        ) by {
            if n < last {
                assert(names_file(head[n]));
                assert(is_listed(before.entries, head, n));
                let i = choose|i: int|
                    0 <= i < before.entries.len() && stands_in(
                        #[trigger] before.entries[i],
                        head,
                        n,
                    );
                assert(stands_in(r.entries[i], rows, n));
            } else {
                let i = r.entries.len() - 1;
                assert(stands_in(r.entries[i], rows, n));
            }
        }
        assert forall|n: int| 0 <= n < good implies !is_wrong(#[trigger] rows[n]) by {
            if n < last {
                assert(!is_wrong(head[n]));
            }
        }
    }
}

/// Whether a line of a list is left out: it is blank, or a comment.
pub open spec fn says_nothing(line: Seq<char>) -> bool {
    let t = trimmed_start(line);
    t.len() == 0 || t[0] == '#'
}

/// The lines, with nothing in place of those that are left out.
spec fn emptied(lines: Seq<Seq<char>>) -> Seq<Seq<char>> {
    lines.map_values(
        |l: Seq<char>|
            if ignored(l) {
                Seq::empty()
            } else {
                l
            },
    )
}

proof fn lemma_lines_stay(lines: Seq<Seq<char>>, x: Seq<char>)
    requires
        forall|i: int| 0 <= i < lines.len() ==> !(#[trigger] lines[i]).contains('\n'),
        !x.contains('\n'),
    ensures
        split(kept_lines(lines) + x, '\n') == emptied(lines).push(x),
    decreases lines.len(),
{
    if lines.len() == 0 {
        assert(kept_lines(lines) + x =~= x);
        text::lemma_split_single(x, '\n');
        assert(emptied(lines).push(x) =~= seq![x]);
    } else {
        let head = lines.drop_last();
        let l = lines.last();
        let kept: Seq<char> = if ignored(l) {
            Seq::empty()
        } else {
            l
        };
        assert forall|i: int| 0 <= i < head.len() implies !(#[trigger] head[i]).contains('\n') by {
            assert(head[i] == lines[i]);
        }
        assert(!lines[lines.len() - 1].contains('\n'));
        lemma_lines_stay(head, kept);
        let a = kept_lines(head) + kept;
        assert(kept_lines(lines) + x =~= a + seq!['\n'] + x);
        text::lemma_split_append(a, x, '\n');
        assert(emptied(lines) =~= emptied(head).push(kept));
    }
}

/// Lines keep their places when a list is filtered: what is left out becomes an
/// empty line, and all others stay as they are.
pub proof fn law_filtering_keeps_lines(data: Seq<char>, i: int)
    requires
        0 <= i < split(data, '\n').len(),
    ensures
        ({
            let before = split(data, '\n');
            let later = split(filtered(data), '\n');
            &&& i < later.len()
            &&& later[i] == (if says_nothing(before[i]) {
                Seq::<char>::empty()
            } else {
                before[i]
            })
        }),
{
    let parts = split(data, '\n');
    let head = parts.drop_last();
    let tail = parts.last();
    text::lemma_split_parts(data, '\n');
    assert forall|k: int| 0 <= k < head.len() implies !(#[trigger] head[k]).contains('\n') by {
        assert(head[k] == parts[k]);
    }
    assert(!parts[parts.len() - 1].contains('\n'));
    let none = Seq::<char>::empty();
    if tail.len() > 0 && ignored(tail) {
        lemma_lines_stay(head, none);
        let a = kept_lines(head) + none;
        assert(filtered(data) =~= a + seq!['\n'] + none);
        text::lemma_split_append(a, none, '\n');
    } else {
        lemma_lines_stay(head, tail);
        assert(filtered(data) =~= kept_lines(head) + tail);
    }
    if i < head.len() {
        assert(head[i] == parts[i]);
        assert(emptied(head)[i] == (if ignored(head[i]) {
            none
        } else {
            head[i]
        }));
    }
    if tail.len() == 0 {
        assert(tail =~= none);
    }
}

/// Whether a line of a list of directories names one.
pub open spec fn names_dir(line: Seq<char>) -> bool {
    trimmed(line).len() > 0 && trimmed(line)[0] != '#'
}

/// Every line that names a directory gives it, in the order of the lines, up to
/// the first that is not safe, which is reported.
pub proof fn law_lines_give_their_directories(lines: Seq<Seq<char>>)
    ensures
        ({
            let (dirs, fault) = dir_scan::listed(lines);
            let good = match fault {
                Some((lineno, _)) => lineno - 1,
                None => lines.len() as int,
            };
            &&& 0 <= good <= lines.len()
            &&& fault matches Some((_, f)) ==> good < lines.len() && names_dir(lines[good])
                && relative_fault(trimmed(lines[good])) == Some(f)
            &&& forall|n: int|
                0 <= n < good && names_dir(#[trigger] lines[n]) ==> dirs.contains(
                    trimmed(lines[n]),
                )
            &&& forall|n: int|
                0 <= n < good && names_dir(#[trigger] lines[n]) ==> relative_fault(
                    trimmed(lines[n]),
                ) is None
            &&& dirs == lines.take(good).map_values(|l: Seq<char>| trimmed(l)).filter(
                |l: Seq<char>| l.len() > 0 && l[0] != '#',
            )
        }),
    decreases lines.len(),
{
    let trim = |l: Seq<char>| trimmed(l);
    let keep = |l: Seq<char>| l.len() > 0 && l[0] != '#';
    let (dirs, fault) = dir_scan::listed(lines);
    let good = match fault {
        Some((lineno, _)) => lineno - 1,
        None => lines.len() as int,
    };
    if lines.len() == 0 {
        assert(lines.take(0).map_values(trim) =~= Seq::<Seq<char>>::empty());
        assert(Seq::<Seq<char>>::empty().filter(keep) =~= dirs) by {
            reveal(Seq::filter);
        }
    } else {
        let head = lines.drop_last();
        let last = lines.len() - 1;
        law_lines_give_their_directories(head);
        let (before, early) = dir_scan::listed(head);
        assert forall|n: int| 0 <= n < last implies head[n] == #[trigger] lines[n] by {}
        if early is Some {
            assert(lines.take(good) =~= head.take(good));
        } else {
            assert(head.take(last) =~= head);
            assert(lines.take(last) =~= head);
            if fault is None {
                let all = lines.take(lines.len() as int).map_values(trim);
                assert(all.drop_last() =~= head.take(last).map_values(trim));
                assert(all.last() == trimmed(lines.last()));
                assert(all.filter(keep) == (if keep(all.last()) {
                    all.drop_last().filter(keep).push(all.last())
                } else {
                    all.drop_last().filter(keep)
                })) by {
                    reveal(Seq::filter);
                }
            }
        }
        assert forall|n: int| 0 <= n < good && names_dir(#[trigger] lines[n]) implies dirs.contains(
            trimmed(lines[n]),
        ) && relative_fault(trimmed(lines[n])) is None by {
            if n < last {
                assert(names_dir(head[n]));
                assert(before.contains(trimmed(head[n])));
                let i = choose|i: int| 0 <= i < before.len() && before[i] == trimmed(head[n]);
                assert(dirs[i] == before[i]);
            } else {
                assert(dirs[dirs.len() - 1] == trimmed(lines[n]));
            }
        }
    }
}

/// How many files go into a queue with `free` places out of `n`.
pub open spec fn as_many_as_fit(free: int, n: int) -> int {
    if free < n {
        free
    } else {
        n
    }
}

/// No file of a list is lost or put twice: a reader that may go on puts the first
/// files of what is left into the queue, as many as there is room for, and keeps
/// the others. Once none is left it reports what is wrong with the list; else it
/// starts again, or is done.
pub proof fn law_no_file_is_lost(
    s: file_reader::Scene,
    list: ReadingView,
    path: Seq<char>,
    loop_files: bool,
)
    requires
        s.stage == file_reader::StageView::Feeding(list),
        s.files.len() <= s.capacity,
        !s.closed,
    ensures
        ({
            let t = file_reader::advanced(
                s,
                file_reader::EventView::Go,
                path,
                loop_files,
                false,
            );
            let n = list.entries.len() as int;
            let k = as_many_as_fit(s.capacity - s.files.len(), n);
            &&& t.files.len() == s.files.len() + k
            &&& forall|i: int| 0 <= i < s.files.len() ==> #[trigger] t.files[i] == s.files[i]
            &&& forall|i: int|
                0 <= i < k ==> #[trigger] t.files[s.files.len() + i] == list.entries[i].1
            &&& k < n ==> (t.stage matches file_reader::StageView::Feeding(rest) && rest.fault
                == list.fault && rest.entries.len() == n - k && forall|i: int|
                0 <= i < n - k ==> #[trigger] rest.entries[i] == list.entries[k + i])
            &&& k == n && list.fault is Some ==> t.stage == file_reader::StageView::Over(
                Err(list.fault->Some_0),
            ) && t.done == s.done
            &&& k == n && list.fault is None && loop_files ==> t.stage
                == file_reader::StageView::Loading && !t.done
            &&& k == n && list.fault is None && !loop_files ==> t.stage
                == file_reader::StageView::Over(Ok(())) && t.done
        }),
{
    let t = file_reader::advanced(s, file_reader::EventView::Go, path, loop_files, false);
    let n = list.entries.len() as int;
    let k = as_many_as_fit(s.capacity - s.files.len(), n);
    assert forall|i: int| 0 <= i < k implies #[trigger] t.files[s.files.len() + i]
        == list.entries[i].1 by {}
}

/// A reader that is told to stop stops, without an error, without another file,
/// and without taking the list for read; one whose list cannot be loaded, or whose
/// queue is closed while files are left, ends with that.
pub proof fn law_readers_stop_when_told(
    s: file_reader::Scene,
    event: file_reader::EventView,
    path: Seq<char>,
    loop_files: bool,
)
    ensures
        ({
            let t = file_reader::advanced(s, event, path, loop_files, true);
            &&& t.files == s.files && t.done == s.done
            &&& s.stage is Loading && event is Loaded || s.stage is Feeding && event is Go
                ==> t.stage == file_reader::StageView::Over(Ok(()))
        }),
        s.stage is Loading ==> (event matches file_reader::EventView::Loaded(Err(m)) ==> ({
            let t = file_reader::advanced(s, event, path, loop_files, false);
            t.stage == file_reader::StageView::Over(Err(ReaderFault::Io { path, source: m }))
                && t.files == s.files && t.done == s.done
        })),
        s.stage matches file_reader::StageView::Feeding(list) ==> s.closed && list.entries.len() > 0
            && event is Go ==> ({
            let t = file_reader::advanced(s, event, path, loop_files, false);
            t.stage == file_reader::StageView::Over(
                Err(ReaderFault::QueueClosed { lineno: list.entries[0].0 }),
            ) && t.files == s.files && t.done == s.done
        }),
{
}

/// A directory that is found in one that is searched is to be searched too, links
/// and special files are passed over, and at the end of a directory it is counted
/// and no longer pending.
pub proof fn law_directories_are_searched_through(
    s: scanner::Scene,
    dir: Seq<char>,
    name: Seq<char>,
    mount: Seq<char>,
)
    requires
        !s.work.closed,
        s.work.pending < usize::MAX,
    ensures
        s.stage == (scanner::StageView::Typing { dir, name }) ==> ({
            let t = scanner::advanced(
                s,
                scanner::EventView::Kind(Ok(EntryKind::Dir)),
                mount,
                false,
            );
            &&& t.work.dirs == s.work.dirs.push(below(dir, name))
            &&& t.work.pending == s.work.pending + 1
            &&& t.stage == (scanner::StageView::Listing { dir })
            &&& t.wake == scanner::Wake::One
            &&& t.files == s.files && t.stats == s.stats
        }),
        s.stage == (scanner::StageView::Typing { dir, name }) ==> ({
            let t = scanner::advanced(
                s,
                scanner::EventView::Kind(Ok(EntryKind::File)),
                mount,
                false,
            );
            t == (scanner::Scene { stage: scanner::StageView::Resolving { dir, name }, ..s })
        }),
        s.stage == (scanner::StageView::Typing { dir, name }) ==> forall|kind: EntryKind|
            kind == EntryKind::Symlink || kind == EntryKind::Other
                ==> #[trigger] scanner::advanced(
                s,
                scanner::EventView::Kind(Ok(kind)),
                mount,
                false,
            ) == (scanner::Scene { stage: scanner::StageView::Listing { dir }, ..s }),
        s.stage == (scanner::StageView::Listing { dir }) ==> ({
            let t = scanner::advanced(s, scanner::EventView::Entry(Ok(None)), mount, false);
            &&& s.stats.dirs_scanned < i64::MAX ==> t.stats.dirs_scanned == s.stats.dirs_scanned + 1
            &&& t.stats.files_scanned == s.stats.files_scanned
            &&& s.work.pending > 0 ==> t.work.pending == s.work.pending - 1
            &&& s.work.dirs.len() > 0 ==> t.stage == (scanner::StageView::Opening {
                dir: s.work.dirs[0],
            }) && t.work.dirs == s.work.dirs.drop_first()
            &&& t.files == s.files
        }),
        s.stage == (scanner::StageView::Listing { dir }) ==> scanner::advanced(
            s,
            scanner::EventView::Entry(Ok(Some(name))),
            mount,
            false,
        ) == (scanner::Scene { stage: scanner::StageView::Typing { dir, name }, ..s }),
{
}

/// A file that is found goes to the end of the queue of the workers, under its
/// path below the mount point, and is counted. It waits where the queue is full,
/// and the search fails where the queue is closed or the file lies elsewhere.
pub proof fn law_found_files_are_queued(
    s: scanner::Scene,
    dir: Seq<char>,
    name: Seq<char>,
    canon: Seq<char>,
    mount: Seq<char>,
)
    requires
        s.stage == (scanner::StageView::Resolving { dir, name }),
    ensures
        ({
            let t = scanner::advanced(
                s,
                scanner::EventView::Resolved(Ok(canon)),
                mount,
                false,
            );
            let part = dir_scan::part_below(canon, mount);
            let sound = lies_in(canon, mount) && normalize_fault(part) is None;
            &&& !lies_in(canon, mount) ==> t.stage == scanner::StageView::Over(
                Err(ScanFault::PathEscape { mount, path: canon }),
            ) && t.files == s.files
            &&& sound && s.closed ==> t.stage == scanner::StageView::Over(
                Err(ScanFault::QueueClosed),
            ) && t.files == s.files
            &&& sound && !s.closed && s.files.len() >= s.capacity ==> (
            t.stage matches scanner::StageView::Storing { dir: d, file } && d == dir && file.fs_path
                == normalized(part) && file.s3_key.len() == 0) && t.files == s.files && t.stats
                == s.stats
            &&& sound && !s.closed && s.files.len() < s.capacity ==> {
                &&& t.files.len() == s.files.len() + 1
                &&& t.files.drop_last() == s.files
                &&& t.files.last().fs_path == normalized(part)
                &&& t.files.last().s3_key.len() == 0
                &&& s.stats.files_scanned < i64::MAX ==> t.stats.files_scanned
                    == s.stats.files_scanned + 1
                &&& t.stats.dirs_scanned == s.stats.dirs_scanned
                &&& t.stage == (scanner::StageView::Listing { dir })
            }
        }),
{
    let t = scanner::advanced(s, scanner::EventView::Resolved(Ok(canon)), mount, false);
    if t.files.len() > s.files.len() {
        assert(t.files.drop_last() =~= s.files);
    }
}

/// A file that waits for room is queued and counted as soon as there is room.
pub proof fn law_waiting_files_are_queued(
    s: scanner::Scene,
    dir: Seq<char>,
    file: pb::FileEntryView,
    mount: Seq<char>,
)
    requires
        s.stage == (scanner::StageView::Storing { dir, file }),
        !s.closed,
    ensures
        ({
            let t = scanner::advanced(s, scanner::EventView::Go, mount, false);
            if s.files.len() < s.capacity {
                &&& t.files == s.files.push(file)
                &&& s.stats.files_scanned < i64::MAX ==> t.stats.files_scanned
                    == s.stats.files_scanned + 1
                &&& t.stage == (scanner::StageView::Listing { dir })
            } else {
                t == s
            }
        }),
{
}

/// A scanner that looks for work is given the oldest directory, unless it is told
/// to stop; it goes on waiting where there is none but one may come.
pub proof fn law_oldest_directory_is_next(q: dir_scan::WorkView, cancelled: bool)
    ensures
        cancelled || q.closed ==> dir_scan::next_work(q, cancelled) is Finished,
        !cancelled && !q.closed && q.dirs.len() > 0 ==> dir_scan::next_work(q, cancelled)
            == dir_scan::PoppedView::Dir(q.dirs[0]),
        !cancelled && !q.closed && q.dirs.len() == 0 && (!q.reader_done || q.pending > 0)
            ==> dir_scan::next_work(q, cancelled) is Wait,
        !cancelled && !q.closed && q.dirs.len() == 0 && q.reader_done && q.pending == 0
            ==> dir_scan::next_work(q, cancelled) is Finished,
{
}

/// An entry gives what it is: a file its path below the mount point, a directory
/// one more to search, and links and special files nothing. A file that leads out
/// of the mount point, or that cannot be looked at, lets the search fail.
pub proof fn law_entries_give_what_they_are(
    mount: Seq<char>,
    dir: Seq<char>,
    name: Seq<char>,
    path: Seq<char>,
    message: Seq<char>,
)
    requires
        normalize_fault(path) is None,
    ensures
        found(mount, dir, name, EntryKind::File, Ok(below(mount, normalized(path)))) == Ok::<
            FoundView,
            ScanFault,
        >(
            FoundView::File(
                pb::FileEntryView { fs_path: normalized(path), s3_key: Seq::empty() },
            ),
        ),
        found(mount, dir, name, EntryKind::Dir, Err(message)) == Ok::<FoundView, ScanFault>(
            FoundView::Dir(below(dir, name)),
        ),
        found(mount, dir, name, EntryKind::Symlink, Ok(path)) == Ok::<FoundView, ScanFault>(
            FoundView::Nothing,
        ),
        found(mount, dir, name, EntryKind::Other, Ok(path)) == Ok::<FoundView, ScanFault>(
            FoundView::Nothing,
        ),
        !lies_in(path, mount) ==> found(mount, dir, name, EntryKind::File, Ok(path)) == Err::<
            FoundView,
            ScanFault,
        >(ScanFault::PathEscape { mount, path }),
        found(mount, dir, name, EntryKind::File, Err(message)) == Err::<FoundView, ScanFault>(
            ScanFault::Metadata { path: below(below(mount, dir), name), source: message },
        ),
{
    let p = normalized(path);
    let rest = nonempty(split(p, '/'));
    law_normalized_is_accepted(path);
    law_normalize_is_idempotent(path);
    lemma_accepted_from_here(p);
    law_joined_path_stays_below(mount, p);
    assert(steps(below(mount, p)).skip(steps(mount).len() as int) =~= rest);
    assert(part_below(below(mount, p), mount) == p);
}

} // verus!
