//! How a sample names workers, operations and the job, and how its lines are laid
//! out.

use vstd::prelude::*;

use crate::cmd::list::capitals;
use crate::display::live::{
    centered, columns, head_pieces, op_text, placed, sample_line, worker_text, LiveView, PieceView,
};
use crate::pb::JobStatus;
use crate::text::{lemma_split_append, lemma_split_parts, lemma_split_single, starts_with};
use crate::time::Clock;

verus! {

/// Of a worker whose id ends with a process id and a random part, the process id is
/// shown, and the start of the random part.
pub proof fn law_workers_are_named(host: Seq<char>, pid: Seq<char>, random: Seq<char>)
    requires
        !pid.contains('-'),
        !random.contains('-'),
        host + "-"@ + pid + "-"@ + random != "Aggregate"@,
        random.len() >= 5,
    ensures
        worker_text(host + "-"@ + pid + "-"@ + random) == pid + "-"@ + random.take(5),
{
    reveal_strlit("-");
    assert("-"@ =~= seq!['-']);
    let worker = host + "-"@ + pid + "-"@ + random;
    let front = host + seq!['-'] + pid;
    lemma_split_append(host, pid, '-');
    lemma_split_append(front, random, '-');
    lemma_split_parts(host, '-');
    assert(worker == front + seq!['-'] + random);
    assert(random.take(5).len() == 5);
    if random.len() == 5 {
        assert(random.take(5) =~= random);
    }
}

/// Of a worker without such parts, the end of its id is shown.
pub proof fn law_other_workers_are_named_by_their_end(worker: Seq<char>)
    requires
        !worker.contains('-'),
        worker != "Aggregate"@,
    ensures
        worker.len() <= 11 ==> worker_text(worker) == worker,
        worker.len() > 11 ==> worker_text(worker).len() == 11 && worker_text(worker)
            == worker.subrange(worker.len() - 11, worker.len() as int),
{
    lemma_split_single(worker, '-');
    if worker.len() > 11 {
        assert(worker.skip(worker.len() - 11) =~= worker.subrange(
            worker.len() - 11,
            worker.len() as int,
        ));
    }
}

/// Operations on metadata are named without their prefix, others as they are.
pub proof fn law_operations_are_named(op: Seq<char>)
    ensures
        op_text("metadata."@ + op) == op,
        !starts_with(op, "metadata."@) ==> op_text(op) == op,
{
    let p = "metadata."@;
    assert((p + op).take(p.len() as int) =~= p);
    assert((p + op).skip(p.len() as int) =~= op);
}

/// A text is cut to its column, or has spaces around it: as many before as behind
/// it, or one less.
pub proof fn law_texts_are_centered(s: Seq<char>, width: int)
    requires
        0 <= width,
    ensures
        centered(s, width).len() == width,
        s.len() > width ==> centered(s, width) == s.take(width),
        s.len() <= width ==> ({
            let left = (width - s.len()) / 2;
            &&& left <= width - s.len() - left <= left + 1
            &&& centered(s, width).subrange(left, left + s.len()) == s
            &&& forall|i: int|
                0 <= i < width && !(left <= i < left + s.len()) ==> #[trigger] centered(s, width)[i]
                    == ' '
        }),
{
    if s.len() > width {
        assert(centered(s, width) =~= s.take(width));
    } else {
        let left = (width - s.len()) / 2;
        assert(centered(s, width).subrange(left, left + s.len()) =~= s);
    }
}

/// How wide the first `n` columns are, with what stands between them.
pub open spec fn width_of(n: int) -> int
    decreases n,
{
    if n <= 0 {
        0
    } else if n == 1 {
        columns()[0]
    } else {
        width_of(n - 1) + 3 + columns()[n - 1]
    }
}

proof fn lemma_placed(cells: Seq<Seq<char>>, n: int)
    requires
        0 <= n <= 13,
    ensures
        placed(cells, n).len() == width_of(n),
    decreases n,
{
    reveal_strlit(" │ ");
    assert(columns().len() == 13);
    if n > 0 {
        assert(columns()[n - 1] >= 6);
        lemma_placed(cells, n - 1);
        law_texts_are_centered(cells[n - 1], columns()[n - 1]);
    }
}

/// All lines of a sample are as long, whatever they show.
pub proof fn law_sample_lines_are_as_long(a: Seq<Seq<char>>, b: Seq<Seq<char>>)
    requires
        a.len() >= 13,
        b.len() >= 13,
    ensures
        sample_line(a).len() == sample_line(b).len(),
{
    assert(columns().len() == 13);
    lemma_placed(a, 13);
    lemma_placed(b, 13);
}

/// Whether a text stands at the start of a piece.
pub open spec fn begins(p: PieceView, s: Seq<char>) -> bool {
    p matches PieceView::Text(t) && s.len() <= t.len() && t.take(s.len() as int) == s
}

/// Whether a text stands at the end of a piece.
pub open spec fn finishes(p: PieceView, s: Seq<char>) -> bool {
    p matches PieceView::Text(t) && s.len() <= t.len() && t.skip(t.len() - s.len()) == s
}

/// The head of a sample names the job and its status; where it is asked for, it
/// counts the directories and files that were found; and while the job goes on it
/// tells how to leave.
pub proof fn law_heads_tell_of_the_job(d: LiveView, at: Clock)
    ensures
        head_pieces(d, at).len() > 0,
        begins(head_pieces(d, at)[0], "Job ID: "@ + d.job_id + " | Elapsed: "@),
        finishes(head_pieces(d, at)[0], " | Status: "@ + capitals(d.last_status) + "\n"@),
        d.verbose && (d.dirs_scanned > 0 || d.files_scanned > 0) ==> head_pieces(d, at).len()
            >= 6 && head_pieces(d, at)[1] == PieceView::Text("Scan: dirs="@) && head_pieces(d, at)[2]
            == PieceView::Count(d.dirs_scanned) && head_pieces(d, at)[3] == PieceView::Text(
            " files="@,
        ) && head_pieces(d, at)[4] == PieceView::Count(d.files_scanned),
        ({
            let scan = if d.verbose && (d.dirs_scanned > 0 || d.files_scanned > 0
                || d.scan_duration_ms > 0) {
                5int
            } else {
                0
            };
            if d.last_status == JobStatus::Completed || d.last_status == JobStatus::Failed
                || d.last_status == JobStatus::Cancelled {
                head_pieces(d, at).len() == 1 + scan
            } else {
                head_pieces(d, at).len() == 2 + scan && head_pieces(d, at).last()
                    == PieceView::Text("Tip: Press Ctrl+C to detach or cancel job\n"@)
            }
        }),
{
    let all = head_pieces(d, at);
    let start = "Job ID: "@ + d.job_id + " | Elapsed: "@;
    let stop = " | Status: "@ + capitals(d.last_status) + "\n"@;
    let t = all[0]->Text_0;
    assert(t.take(start.len() as int) =~= start);
    assert(t.skip(t.len() - stop.len()) =~= stop);
}

} // verus!
