//! Lists of files, one to a line: a path, and after a comma the key of the
//! object that it is compared with. Fields may be quoted; empty lines and lines
//! that start with `#` are left out.

use std::collections::VecDeque;

use vstd::prelude::*;

use crate::manifest::queue::{BoundedQueue, QueueView};
use crate::path_safe::{
    fault_text, law_normalized_is_accepted, normalize_fault, normalize_relative, normalized,
    PathFault, PathSafeError,
};
use crate::pb;
use crate::text;
use crate::text::{chars_of, split, split_at_char, string_of, trim, trimmed, trimmed_start};
use crate::views::opt_view;

verus! {

/// Why a list of files could not be read into its queue. Errors of the file
/// system and of the CSV reader are held as their messages.
#[derive(Debug, PartialEq, Eq)]
pub enum ReaderError {
    Io { path: String, source: String },
    Csv { path: String, lineno: usize, source: String },
    PathSafe { path: String, lineno: usize, source: PathSafeError },
    QueueClosed { lineno: usize },
}

/// What a [`ReaderError`] holds.
#[verifier::ext_equal]
pub enum ReaderFault {
    Io { path: Seq<char>, source: Seq<char> },
    Csv { path: Seq<char>, lineno: int, source: Seq<char> },
    PathSafe { path: Seq<char>, lineno: int, source: PathFault },
    QueueClosed { lineno: int },
}

impl View for ReaderError {
    type V = ReaderFault;

    open spec fn view(&self) -> ReaderFault {
        match *self {
            ReaderError::Io { path, source } => ReaderFault::Io { path: path@, source: source@ },
            ReaderError::Csv { path, lineno, source } => ReaderFault::Csv {
                path: path@,
                lineno: lineno as int,
                source: source@,
            },
            ReaderError::PathSafe { path, lineno, source } => ReaderFault::PathSafe {
                path: path@,
                lineno: lineno as int,
                source: source@,
            },
            ReaderError::QueueClosed { lineno } => ReaderFault::QueueClosed {
                lineno: lineno as int,
            },
        }
    }
}

/// The text that shows an error.
pub open spec fn reader_error_text(e: ReaderError) -> Seq<char> {
    match e {
        ReaderError::Io { path, source } => "read manifest "@ + text::quoted_text(path@) + ": "@
            + source@,
        ReaderError::Csv { path, lineno, source } => "CSV parse error at line "@ + text::decimal(
            lineno as nat,
        ) + " of "@ + text::quoted_text(path@) + ": "@ + source@,
        ReaderError::PathSafe { path, lineno, source } => "line "@ + text::decimal(lineno as nat)
            + " of "@ + text::quoted_text(path@) + ": "@ + fault_text(source@),
        ReaderError::QueueClosed { lineno } => "queue closed during push (line "@ + text::decimal(
            lineno as nat,
        ) + ")"@,
    }
}

impl ReaderError {
    /// The error as a message.
    pub fn message(&self) -> (r: String)
        ensures
            r@ == reader_error_text(*self),
    {
        match self {
            ReaderError::Io { path, source } => {
                let mut s = "read manifest ".to_owned();
                s.push_str(text::quoted(path).as_str());
                s.push_str(": ");
                s.push_str(source.as_str());
                s
            },
            ReaderError::Csv { path, lineno, source } => {
                let mut s = "CSV parse error at line ".to_owned();
                s.push_str(text::decimal_of(*lineno as u128).as_str());
                s.push_str(" of ");
                s.push_str(text::quoted(path).as_str());
                s.push_str(": ");
                s.push_str(source.as_str());
                s
            },
            ReaderError::PathSafe { path, lineno, source } => {
                let mut s = "line ".to_owned();
                s.push_str(text::decimal_of(*lineno as u128).as_str());
                s.push_str(" of ");
                s.push_str(text::quoted(path).as_str());
                s.push_str(": ");
                s.push_str(source.message().as_str());
                s
            },
            ReaderError::QueueClosed { lineno } => {
                let mut s = "queue closed during push (line ".to_owned();
                s.push_str(text::decimal_of(*lineno as u128).as_str());
                s.push_str(")");
                s
            },
        }
    }
}

/// Whether a line is left out: it holds only white space, or what it holds
/// starts with `#`.
pub open spec fn ignored(line: Seq<char>) -> bool {
    let t = trimmed_start(line);
    t.len() == 0 || t[0] == '#'
}

/// The lines, each with its end; of those that are left out only the end.
pub open spec fn kept_lines(lines: Seq<Seq<char>>) -> Seq<char>
    decreases lines.len(),
{
    if lines.len() == 0 {
        Seq::empty()
    } else if ignored(lines.last()) {
        kept_lines(lines.drop_last()).push('\n')
    } else {
        kept_lines(lines.drop_last()) + lines.last().push('\n')
    }
}

/// The list without the lines that are left out; these stay as empty lines.
pub open spec fn filtered(data: Seq<char>) -> Seq<char> {
    let parts = split(data, '\n');
    let tail = parts.last();
    kept_lines(parts.drop_last()) + (if tail.len() == 0 {
        Seq::empty()
    } else if ignored(tail) {
        seq!['\n']
    } else {
        tail
    })
}

/// Whether a line is left out.
pub fn is_ignored(line: &str) -> (r: bool)
    ensures
        r == ignored(line@),
{
    let cs = chars_of(line);
    let mut i: usize = 0;
    assert(cs@.skip(0) =~= cs@);
    while i < cs.len() && text::white(cs[i])
        invariant
            i <= cs@.len(),
            trimmed_start(cs@) == trimmed_start(cs@.skip(i as int)),
        decreases cs@.len() - i,
    {
        assert(cs@.skip(i as int).drop_first() =~= cs@.skip(i as int + 1));
        i += 1;
    }
    i == cs.len() || cs[i] == '#'
}

/// Empties the lines that are left out, so that the others keep their numbers.
pub fn filter_lines(data: &str) -> (r: String)
    ensures
        r@ == filtered(data@),
{
    let parts = split_at_char(data, '\n');
    let ghost v = text::views(parts@);
    let mut out = String::new();
    let mut i: usize = 0;
    proof {
        text::lemma_split_parts(data@, '\n');
        assert(v.len() == parts@.len());
        assert(v.drop_last().take(0) =~= Seq::<Seq<char>>::empty());
        assert(out@ =~= kept_lines(v.drop_last().take(0)));
    }
    let last: usize = parts.len() - 1;
    while i < last
        invariant
            i <= last,
            last + 1 == parts@.len(),
            v == text::views(parts@),
            out@ == kept_lines(v.drop_last().take(i as int)),
        decreases last - i,
    {
        let ghost next = v.drop_last().take(i as int + 1);
        let ghost before = out@;
        proof {
            assert(next.drop_last() =~= v.drop_last().take(i as int));
            assert(next.last() == parts@[i as int]@);
        }
        if !is_ignored(parts[i].as_str()) {
            out.push_str(parts[i].as_str());
        }
        out.push('\n');
        assert(out@ =~= kept_lines(next));
        i += 1;
    }
    proof {
        assert(v.drop_last().take(i as int) =~= v.drop_last());
        assert(v.last() == parts@[last as int]@);
    }
    let ghost before = out@;
    if !parts[last].as_str().is_empty() {
        if is_ignored(parts[last].as_str()) {
            out.push('\n');
        } else {
            out.push_str(parts[last].as_str());
        }
    }
    assert(out@ =~= filtered(data@));
    out
}

/// A record, or the message of the error that stands in its place.
pub type Row = Result<Vec<String>, String>;

/// What a [`Row`] holds.
pub open spec fn row_view(row: Row) -> Result<Seq<Seq<char>>, Seq<char>> {
    match row {
        Ok(fields) => Ok(text::views(fields@)),
        Err(m) => Err(m@),
    }
}

/// What each of the rows holds.
pub open spec fn row_views(rows: Seq<Row>) -> Seq<Result<Seq<Seq<char>>, Seq<char>>> {
    rows.map_values(|row: Row| row_view(row))
}

/// The records of a CSV text without a header, whose records may differ in
/// length.
pub uninterp spec fn csv_rows(data: Seq<char>) -> Seq<Result<Seq<Seq<char>>, Seq<char>>>;

/// Calls `csv::ReaderBuilder` for a reader without headers that takes records
/// of any length, and its `records` on `data`. The records are a function of
/// the text.
#[verifier::external_body]
fn records_of(data: &str) -> (r: Vec<Row>)
    ensures
        row_views(r@) == csv_rows(data@),
{
    csv::ReaderBuilder::new()
        .has_headers(false)
        .flexible(true)
        .from_reader(data.as_bytes())
        .records()
        .map(|row| match row {
            Ok(record) => Ok(record.iter().map(str::to_owned).collect()),
            Err(e) => Err(e.to_string()),
        })
        .collect()
}

/// A file of the list, and the number of its record.
#[derive(Debug, PartialEq, Eq)]
pub struct Numbered {
    pub lineno: usize,
    pub entry: pb::FileEntry,
}

/// What a list gives: files, up to where something is wrong with it.
#[derive(Debug, PartialEq, Eq)]
pub struct Reading {
    pub entries: VecDeque<Numbered>,
    pub fault: Option<ReaderError>,
}

/// What is wrong with a record.
#[verifier::ext_equal]
pub enum RowFault {
    Csv(Seq<char>),
    Path(PathFault),
}

/// What the records of a list give: files, and the record that is wrong.
#[verifier::ext_equal]
pub struct RowsView {
    pub entries: Seq<(int, pb::FileEntryView)>,
    pub fault: Option<(int, RowFault)>,
}

/// What a [`Reading`] holds.
#[verifier::ext_equal]
pub struct ReadingView {
    pub entries: Seq<(int, pb::FileEntryView)>,
    pub fault: Option<ReaderFault>,
}

impl View for Reading {
    type V = ReadingView;

    open spec fn view(&self) -> ReadingView {
        ReadingView { entries: numbered(self.entries@), fault: opt_view(self.fault) }
    }
}

/// The numbered files.
pub open spec fn numbered(entries: Seq<Numbered>) -> Seq<(int, pb::FileEntryView)> {
    entries.map_values(|n: Numbered| (n.lineno as int, n.entry@))
}

/// The files.
pub open spec fn files(entries: Seq<Numbered>) -> Seq<pb::FileEntry> {
    entries.map_values(|n: Numbered| n.entry)
}

/// The path in a record: its first field.
pub open spec fn path_field(fields: Seq<Seq<char>>) -> Seq<char> {
    if fields.len() > 0 {
        trimmed(fields[0])
    } else {
        Seq::empty()
    }
}

/// The key in a record: its second field.
pub open spec fn key_field(fields: Seq<Seq<char>>) -> Seq<char> {
    if fields.len() > 1 {
        trimmed(fields[1])
    } else {
        Seq::empty()
    }
}

/// What the records give: one file each, in their order, except for those
/// without a path; up to the first that is in error or whose path is unsafe.
pub open spec fn reading_of(rows: Seq<Result<Seq<Seq<char>>, Seq<char>>>) -> RowsView
    decreases rows.len(),
{
    if rows.len() == 0 {
        RowsView { entries: Seq::empty(), fault: None }
    } else {
        let before = reading_of(rows.drop_last());
        let lineno = rows.len() as int;
        if before.fault is Some {
            before
        } else {
            match rows.last() {
                Err(m) => RowsView { fault: Some((lineno, RowFault::Csv(m))), ..before },
                Ok(fields) => {
                    let path = path_field(fields);
                    if path.len() == 0 {
                        before
                    } else {
                        match normalize_fault(path) {
                            Some(f) => RowsView {
                                fault: Some((lineno, RowFault::Path(f))),
                                ..before
                            },
                            None => RowsView {
                                entries: before.entries.push(
                                    (
                                        lineno,
                                        pb::FileEntryView {
                                            fs_path: normalized(path),
                                            s3_key: key_field(fields),
                                        },
                                    ),
                                ),
                                ..before
                            },
                        }
                    }
                },
            }
        }
    }
}

/// What the list `path` gives, whose records are `rows`.
pub open spec fn list_of(path: Seq<char>, rows: Seq<Result<Seq<Seq<char>>, Seq<char>>>) -> ReadingView {
    let found = reading_of(rows);
    ReadingView {
        entries: found.entries,
        fault: match found.fault {
            None => None,
            Some((lineno, RowFault::Csv(source))) => Some(
                ReaderFault::Csv { path, lineno, source },
            ),
            Some((lineno, RowFault::Path(source))) => Some(
                ReaderFault::PathSafe { path, lineno, source },
            ),
        },
    }
}

/// The field at `i` without white space around it; empty where there is none.
fn field(fields: &Vec<String>, i: usize) -> (r: String)
    ensures
        r@ == (if i < fields@.len() {
            trimmed(fields@[i as int]@)
        } else {
            Seq::empty()
        }),
{
    if i < fields.len() {
        let cs = chars_of(fields[i].as_str());
        string_of(&trim(&cs))
    } else {
        let s = String::new();
        assert(s@ =~= Seq::<char>::empty());
        s
    }
}

proof fn lemma_stopped(rows: Seq<Result<Seq<Seq<char>>, Seq<char>>>, i: int)
    requires
        0 <= i <= rows.len(),
        reading_of(rows.take(i)).fault is Some,
    ensures
        reading_of(rows) == reading_of(rows.take(i)),
    decreases rows.len() - i,
{
    if i < rows.len() {
        assert(rows.take(i + 1).drop_last() =~= rows.take(i));
        lemma_stopped(rows, i + 1);
    } else {
        assert(rows.take(i) =~= rows);
    }
}

/// Takes the files out of the records of the list `path`.
pub fn entries_of(path: &str, rows: &Vec<Row>) -> (r: Reading)
    ensures
        r@ == list_of(path@, row_views(rows@)),
{
    let ghost all = row_views(rows@);
    let mut entries: VecDeque<Numbered> = VecDeque::new();
    let mut i: usize = 0;
    proof {
        assert(all.take(0) =~= Seq::<Result<Seq<Seq<char>>, Seq<char>>>::empty());
        assert(numbered(entries@) =~= Seq::<(int, pb::FileEntryView)>::empty());
    }
    while i < rows.len()
        invariant
            i <= rows@.len(),
            all == row_views(rows@),
            numbered(entries@) == reading_of(all.take(i as int)).entries,
            reading_of(all.take(i as int)).fault is None,
        decreases rows@.len() - i,
    {
        let ghost next = all.take(i as int + 1);
        proof {
            assert(next.drop_last() =~= all.take(i as int));
            assert(next.last() == row_view(rows@[i as int]));
        }
        let lineno: usize = i + 1;
        match &rows[i] {
            Err(m) => {
                proof {
                    lemma_stopped(all, i as int + 1);
                }
                return Reading {
                    entries,
                    fault: Some(
                        ReaderError::Csv { path: path.to_owned(), lineno, source: m.clone() },
                    ),
                };
            },
            Ok(fields) => {
                let raw = field(fields, 0);
                let ghost f = text::views(fields@);
                assert(raw@ == path_field(f));
                if !raw.as_str().is_empty() {
                    let s3_key = field(fields, 1);
                    assert(s3_key@ == key_field(f));
                    match normalize_relative(raw.as_str()) {
                        Err(source) => {
                            proof {
                                lemma_stopped(all, i as int + 1);
                            }
                            return Reading {
                                entries,
                                fault: Some(
                                    ReaderError::PathSafe { path: path.to_owned(), lineno, source },
                                ),
                            };
                        },
                        Ok(fs_path) => {
                            let ghost before = entries@;
                            let one = Numbered { lineno, entry: pb::FileEntry { fs_path, s3_key } };
                            let ghost seen = (one.lineno as int, one.entry@);
                            entries.push_back(one);
                            assert(numbered(entries@) =~= numbered(before).push(seen));
                        },
                    }
                }
            },
        }
        i += 1;
    }
    assert(all.take(i as int) =~= all);
    Reading { entries, fault: None }
}

/// Reads the list `path`, which holds `data`.
pub fn read_list(path: &str, data: &str) -> (r: Reading)
    ensures
        r@ == list_of(path@, csv_rows(filtered(data@))),
{
    let kept = filter_lines(data);
    let rows = records_of(kept.as_str());
    entries_of(path, &rows)
}

/// How far a reading has got.
#[derive(Debug, PartialEq, Eq)]
pub enum Fed {
    /// The queue is full, and there are more files.
    Waiting,
    Finished(Result<(), ReaderError>),
}

/// How many files there is room for.
pub open spec fn room(q: QueueView<pb::FileEntry>) -> int {
    q.capacity - q.items.len()
}

/// Moves files into the queue, in their order, as long as there is room. After
/// the last of them the fault is reported; a closed queue refuses the first
/// that is left.
pub fn feed(queue: &mut BoundedQueue<pb::FileEntry>, reading: &mut Reading) -> (r: Fed)
    ensures
        ({
            let q = old(queue)@;
            let entries = old(reading).entries@;
            if entries.len() == 0 || (!q.closed && entries.len() <= room(q)) {
                &&& r == Fed::Finished(
                    match old(reading).fault {
                        Some(e) => Err(e),
                        None => Ok(()),
                    },
                )
                &&& final(queue)@ == (QueueView { items: q.items + files(entries), ..q })
                &&& final(reading).entries@.len() == 0
            } else if q.closed {
                &&& r == Fed::Finished(
                    Err(ReaderError::QueueClosed { lineno: entries[0].lineno }),
                )
                &&& final(queue)@ == q
            } else {
                &&& r == Fed::Waiting
                &&& final(queue)@ == (QueueView {
                    items: q.items + files(entries.take(room(q))),
                    ..q
                })
                &&& final(reading).entries@ == entries.skip(room(q))
                &&& final(reading).fault == old(reading).fault
            }
        }),
{
    let ghost q = queue@;
    let ghost entries = reading.entries@;
    let ghost fault = reading.fault;
    let ghost mut moved: int = 0;
    let capacity: usize = queue.capacity();
    proof {
        assert(entries.skip(0) =~= entries);
        assert(q.items =~= q.items + files(entries.take(0)));
    }
    while reading.entries.len() > 0
        invariant
            0 <= moved <= entries.len(),
            capacity == q.capacity,
            q.items.len() + moved <= capacity,
            moved > 0 ==> !q.closed,
            reading.entries@ == entries.skip(moved),
            reading.fault == fault,
            queue@ == (QueueView { items: q.items + files(entries.take(moved)), ..q }),
            entries == old(reading).entries@,
            fault == old(reading).fault,
            q == old(queue)@,
        decreases reading.entries@.len(),
    {
        if !queue.is_closed() && queue.len() >= capacity {
            return Fed::Waiting;
        }
        if let Some(one) = reading.entries.pop_front() {
            assert(one == entries[moved]);
            let Numbered { lineno, entry } = one;
            match queue.push(entry) {
                Err(_) => {
                    return Fed::Finished(Err(ReaderError::QueueClosed { lineno }));
                },
                Ok(_) => {},
            }
            proof {
                assert(entries.skip(moved).drop_first() =~= entries.skip(moved + 1));
                assert(reading.entries@ =~= entries.skip(moved + 1));
                assert(files(entries.take(moved + 1)) =~= files(entries.take(moved)).push(
                    entries[moved].entry,
                ));
                assert(queue@.items =~= q.items + files(entries.take(moved + 1)));
                moved = moved + 1;
            }
        }
    }
    assert(entries.take(moved) =~= entries);
    match reading.fault.take() {
        Some(e) => Fed::Finished(Err(e)),
        None => Fed::Finished(Ok(())),
    }
}

/// Every file of a list has a safe, normalised path, and the files come in the
/// order of their records.
pub proof fn law_listed_files_are_safe(rows: Seq<Result<Seq<Seq<char>>, Seq<char>>>)
    ensures
        forall|i: int|
            0 <= i < reading_of(rows).entries.len() ==> normalize_fault(
                (#[trigger] reading_of(rows).entries[i]).1.fs_path,
            ) is None && 1 <= reading_of(rows).entries[i].0 <= rows.len(),
        forall|i: int, j: int|
            0 <= i < j < reading_of(rows).entries.len() ==> (#[trigger] reading_of(
                rows,
            ).entries[i]).0 < (#[trigger] reading_of(rows).entries[j]).0,
    decreases rows.len(),
{
    if rows.len() > 0 {
        law_listed_files_are_safe(rows.drop_last());
        let before = reading_of(rows.drop_last()).entries;
        let all = reading_of(rows).entries;
        if all.len() > before.len() {
            let fields = rows.last()->Ok_0;
            law_normalized_is_accepted(path_field(fields));
            assert(all.drop_last() =~= before);
            assert forall|i: int| 0 <= i < all.len() implies normalize_fault(
                (#[trigger] all[i]).1.fs_path,
            ) is None && 1 <= all[i].0 <= rows.len() by {
                if i < before.len() {
                    assert(all[i] == before[i]);
                }
            }
            assert forall|i: int, j: int| 0 <= i < j < all.len() implies (#[trigger] all[i]).0 < (
            #[trigger] all[j]).0 by {
                assert(all[i] == before[i]);
                if j < before.len() {
                    assert(all[j] == before[j]);
                }
            }
        } else {
            assert(all == before);
        }
    }
}

} // verus!
