//! What the master knows: its jobs, which of them wait for workers, and which
//! worker works on which job.

pub mod job;
pub mod pending;

use std::collections::VecDeque;

use vstd::prelude::*;

use crate::config::{ConfigView, MasterConfig};
use crate::events::subscriber::SubscriberRegistry;
use crate::state::job::{JobRecord, JobView};
use crate::strmap::StrMap;
use crate::views::entry_views;

verus! {

/// The state of the master.
pub struct MasterState {
    pub config: MasterConfig,
    pub jobs: StrMap<JobRecord>,
    /// The jobs that wait for workers, the oldest first.
    pub pending_queue: VecDeque<String>,
    /// The job that each worker works on.
    pub worker_active_jobs: StrMap<String>,
    pub subscribers: SubscriberRegistry,
    /// The number of the next event.
    pub event_seq: i64,
}

/// What a [`MasterState`] holds, without the channels of watchers.
#[verifier::ext_equal]
pub struct StateView {
    pub config: ConfigView,
    pub jobs: Seq<(Seq<char>, JobView)>,
    pub pending: Seq<Seq<char>>,
    pub active: Seq<(Seq<char>, Seq<char>)>,
    pub event_seq: i64,
}

impl View for MasterState {
    type V = StateView;

    open spec fn view(&self) -> StateView {
        StateView {
            config: self.config@,
            jobs: entry_views(self.jobs.seq()),
            pending: pending::ids(self.pending_queue),
            active: entry_views(self.worker_active_jobs.seq()),
            event_seq: self.event_seq,
        }
    }
}

/// The number of the event after the one numbered `n`; the numbers wrap
/// around.
pub open spec fn next_seq(n: i64) -> i64 {
    if n == i64::MAX {
        i64::MIN
    } else {
        (n + 1) as i64
    }
}

/// Hands out the number of the next event.
pub fn take_seq(event_seq: &mut i64) -> (r: i64)
    ensures
        r == *old(event_seq),
        *final(event_seq) == next_seq(*old(event_seq)),
{
    let r: i64 = *event_seq;
    *event_seq = if r == i64::MAX {
        i64::MIN
    } else {
        r + 1
    };
    r
}

impl MasterState {
    /// A master without jobs.
    pub fn new(config: MasterConfig) -> (r: MasterState)
        ensures
            r@ == (StateView {
                config: config@,
                jobs: Seq::empty(),
                pending: Seq::empty(),
                active: Seq::empty(),
                event_seq: 1,
            }),
            r.subscribers@ == Map::<
                Seq<char>,
                Seq<crate::events::subscriber::EventSender>,
            >::empty(),
    {
        let r = MasterState {
            config,
            jobs: StrMap::new(),
            pending_queue: VecDeque::new(),
            worker_active_jobs: StrMap::new(),
            subscribers: SubscriberRegistry::new(),
            event_seq: 1,
        };
        assert(r@.jobs =~= Seq::<(Seq<char>, JobView)>::empty());
        assert(r@.pending =~= Seq::<Seq<char>>::empty());
        assert(r@.active =~= Seq::<(Seq<char>, Seq<char>)>::empty());
        r
    }

    /// Hands out the number of the next event.
    pub fn next_event_seq(&mut self) -> (r: i64)
        ensures
            r == old(self)@.event_seq,
            final(self)@ == (StateView { event_seq: next_seq(old(self)@.event_seq), ..old(self)@ }),
            final(self).subscribers == old(self).subscribers,
    {
        take_seq(&mut self.event_seq)
    }
}

/// `SystemTime::now` as milliseconds since 1970; `None` where the clock stands
/// before that.
#[verifier::external_body]
fn unix_millis() -> Option<u128> {
    let now = std::time::SystemTime::now().duration_since(std::time::SystemTime::UNIX_EPOCH);
    now.ok().map(|d| d.as_millis())
}

/// A time that was read as milliseconds of any size: zero where there is none,
/// and the greatest number where it is greater.
pub open spec fn wall_time(ms: Option<u128>) -> i64 {
    match ms {
        Some(n) => if n > i64::MAX {
            i64::MAX
        } else {
            n as i64
        },
        None => 0,
    }
}

/// A time that was read, as a 64-bit number.
pub fn wall_time_of(ms: Option<u128>) -> (r: i64)
    ensures
        r == wall_time(ms),
{
    match ms {
        Some(n) => if n > i64::MAX as u128 {
            i64::MAX
        } else {
            n as i64
        },
        None => 0,
    }
}

/// Milliseconds since 1970; zero where the clock stands before that.
#[must_use]
pub fn now_ms() -> (r: i64)
    ensures
        r >= 0,
{
    wall_time_of(unix_millis())
}

} // verus!
