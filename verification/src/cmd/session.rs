//! A client that follows a job: what it does about what happens.
//!
//! It shows events as they come until there are no more, and then asks for the
//! job until that has ended, but not forever.

use vstd::prelude::*;

use crate::cmd::{
    asked_ms, ensure_terminal_after_stream, gave_up_message, gave_up_text, query_is_terminal,
    tells_of_end, total_duration_ms, NextPoll, POLL_ATTEMPTS,
};
use crate::display::live::{after_event, nothing_told, LiveDisplay, LiveView, REFRESH_INTERVAL_NS};
use crate::pb;
use crate::signal::CtrlCAction;
use crate::time::Clock;
use crate::views::{opt_text, opt_view};

verus! {

/// What happens to a client that follows a job.
#[derive(Debug)]
pub enum Happening {
    /// The user interrupted it and chose what to do.
    Interrupt(CtrlCAction),
    /// An event of the job came.
    Event(pb::JobEvent),
    /// The events stopped with an error.
    Broken { code: String, message: String },
    /// The events stopped.
    Closed,
    /// Some time has passed.
    Tick,
    /// The job was asked for.
    Answer(pb::QueryJobResponse),
}

/// What a [`Happening`] holds.
#[verifier::ext_equal]
pub enum HappeningView {
    Interrupt(CtrlCAction),
    Event(pb::JobEventView),
    Broken { code: Seq<char>, message: Seq<char> },
    Closed,
    Tick,
    Answer(pb::QueryJobResponseView),
}

impl View for Happening {
    type V = HappeningView;

    open spec fn view(&self) -> HappeningView {
        match *self {
            Happening::Interrupt(a) => HappeningView::Interrupt(a),
            Happening::Event(e) => HappeningView::Event(e@),
            Happening::Broken { code, message } => HappeningView::Broken {
                code: code@,
                message: message@,
            },
            Happening::Closed => HappeningView::Closed,
            Happening::Tick => HappeningView::Tick,
            Happening::Answer(q) => HappeningView::Answer(q@),
        }
    }
}

/// What the client does about it.
#[derive(Debug, PartialEq, Eq)]
pub enum Reaction {
    /// It waits for what happens next.
    Wait,
    /// It shows a sample of the display.
    Render,
    /// It asks the master to cancel the job.
    Cancel,
    /// It stops; the job goes on.
    Detach,
    /// It asks for the job.
    Ask,
    /// It asks for the job after a while.
    AskLater,
    /// It shows the job, which has ended, and stops.
    Show(pb::QueryJobResponse),
    /// It stops with a message.
    GiveUp(String),
}

/// What a [`Reaction`] holds.
#[verifier::ext_equal]
pub enum ReactionView {
    Wait,
    Render,
    Cancel,
    Detach,
    Ask,
    AskLater,
    Show(pb::QueryJobResponseView),
    GiveUp(Seq<char>),
}

impl View for Reaction {
    type V = ReactionView;

    open spec fn view(&self) -> ReactionView {
        match *self {
            Reaction::Wait => ReactionView::Wait,
            Reaction::Render => ReactionView::Render,
            Reaction::Cancel => ReactionView::Cancel,
            Reaction::Detach => ReactionView::Detach,
            Reaction::Ask => ReactionView::Ask,
            Reaction::AskLater => ReactionView::AskLater,
            Reaction::Show(q) => ReactionView::Show(q@),
            Reaction::GiveUp(m) => ReactionView::GiveUp(m@),
        }
    }
}

/// How far the client has got.
#[derive(Debug, Clone, Copy, PartialEq, Eq, Structural)]
pub enum Progress {
    /// It follows the events.
    Following,
    /// It asks for the job, and has done so `polls` times after the first.
    Asking { polls: u32 },
    /// It has stopped.
    Over,
}

/// A client that follows a job.
pub struct Session {
    pub job_id: String,
    pub display: LiveDisplay,
    pub stream_error: Option<String>,
    pub progress: Progress,
}

/// What a [`Session`] holds.
#[verifier::ext_equal]
pub struct SessionView {
    pub job_id: Seq<char>,
    pub display: LiveView,
    pub stream_error: Option<Seq<char>>,
    pub progress: Progress,
}

impl View for Session {
    type V = SessionView;

    open spec fn view(&self) -> SessionView {
        SessionView {
            job_id: self.job_id@,
            display: self.display@,
            stream_error: opt_text(self.stream_error),
            progress: self.progress,
        }
    }
}

/// A sample where it is time for one.
pub open spec fn render_if_due(display: LiveView, at: Clock) -> ReactionView {
    match display.last_render {
        Some(t) => if at.mono_ns - t >= REFRESH_INTERVAL_NS {
            ReactionView::Render
        } else {
            ReactionView::Wait
        },
        None => ReactionView::Render,
    }
}

/// What a client that follows events does.
pub open spec fn while_following(s: SessionView, h: HappeningView, at: Clock) -> (
    SessionView,
    ReactionView,
) {
    let asking = SessionView { progress: Progress::Asking { polls: 0 }, ..s };
    match h {
        HappeningView::Interrupt(CtrlCAction::Detach) => (
            SessionView { progress: Progress::Over, ..s },
            ReactionView::Detach,
        ),
        HappeningView::Interrupt(_) => (s, ReactionView::Cancel),
        HappeningView::Event(e) => (
            SessionView { display: after_event(s.display, e), ..s },
            render_if_due(s.display, at),
        ),
        HappeningView::Tick => (s, render_if_due(s.display, at)),
        HappeningView::Broken { code, message } => (
            SessionView { stream_error: Some(code + ": "@ + message), ..asking },
            ReactionView::Ask,
        ),
        HappeningView::Closed => (asking, ReactionView::Ask),
        HappeningView::Answer(_) => (s, ReactionView::Wait),
    }
}

/// What a client does that asks for the job and has asked `polls` times again.
pub open spec fn while_asking(s: SessionView, polls: u32, h: HappeningView) -> (
    SessionView,
    ReactionView,
) {
    match h {
        HappeningView::Answer(q) => if tells_of_end(q) {
            (SessionView { progress: Progress::Over, ..s }, ReactionView::Show(q))
        } else if polls < POLL_ATTEMPTS {
            (
                SessionView { progress: Progress::Asking { polls: (polls + 1) as u32 }, ..s },
                ReactionView::AskLater,
            )
        } else {
            (
                SessionView { progress: Progress::Over, ..s },
                ReactionView::GiveUp(gave_up_text(s.job_id, s.stream_error)),
            )
        },
        _ => (s, ReactionView::Wait),
    }
}

/// What a client does about what happens.
pub open spec fn reacted(s: SessionView, h: HappeningView, at: Clock) -> (SessionView, ReactionView) {
    match s.progress {
        Progress::Following => while_following(s, h, at),
        Progress::Asking { polls } => while_asking(s, polls, h),
        Progress::Over => (s, ReactionView::Wait),
    }
}

impl Session {
    /// A client that starts to follow a job, which is to run for `total_ms`.
    pub fn new(job_id: &str, total_ms: i64, verbose: bool, at: &Clock) -> (r: Session)
        ensures
            r@ == (SessionView {
                job_id: job_id@,
                display: nothing_told(job_id@, total_ms, verbose, *at),
                stream_error: None,
                progress: Progress::Following,
            }),
    {
        Session {
            job_id: job_id.to_owned(),
            display: LiveDisplay::new_with_options(job_id.to_owned(), total_ms, verbose, at),
            stream_error: None,
            progress: Progress::Following,
        }
    }

    fn sample(&self, at: &Clock) -> (r: Reaction)
        ensures
            r@ == render_if_due(self@.display, *at),
    {
        if self.display.should_render(at) {
            Reaction::Render
        } else {
            Reaction::Wait
        }
    }

    fn follow(&mut self, h: Happening, at: &Clock) -> (r: Reaction)
        ensures
            (final(self)@, r@) == while_following(old(self)@, h@, *at),
    {
        match h {
            Happening::Interrupt(CtrlCAction::Detach) => {
                self.progress = Progress::Over;
                Reaction::Detach
            },
            Happening::Interrupt(_) => Reaction::Cancel,
            Happening::Event(e) => {
                self.display.apply(&e);
                self.sample(at)
            },
            Happening::Tick => self.sample(at),
            Happening::Broken { code, message } => {
                let mut s = code;
                s.push_str(": ");
                s.push_str(message.as_str());
                self.stream_error = Some(s);
                self.progress = Progress::Asking { polls: 0 };
                Reaction::Ask
            },
            Happening::Closed => {
                self.progress = Progress::Asking { polls: 0 };
                Reaction::Ask
            },
            Happening::Answer(_) => Reaction::Wait,
        }
    }

    fn poll(&mut self, polls: u32, h: Happening) -> (r: Reaction)
        ensures
            (final(self)@, r@) == while_asking(old(self)@, polls, h@),
    {
        match h {
            Happening::Answer(q) => match ensure_terminal_after_stream(&q, polls) {
                NextPoll::Finished => {
                    self.progress = Progress::Over;
                    Reaction::Show(q)
                },
                NextPoll::Again => {
                    self.progress = Progress::Asking { polls: polls + 1 };
                    Reaction::AskLater
                },
                NextPoll::GiveUp => {
                    self.progress = Progress::Over;
                    Reaction::GiveUp(gave_up_message(self.job_id.as_str(), &self.stream_error))
                },
            },
            _ => Reaction::Wait,
        }
    }

    /// Takes in what happened, and says what to do about it.
    pub fn react(&mut self, h: Happening, at: &Clock) -> (r: Reaction)
        ensures
            (final(self)@, r@) == reacted(old(self)@, h@, *at),
    {
        match self.progress {
            Progress::Following => self.follow(h, at),
            Progress::Asking { polls } => self.poll(polls, h),
            Progress::Over => Reaction::Wait,
        }
    }
}

/// What a first look at a job tells: how long it is to run, and whether it has
/// ended already.
#[derive(Debug, Clone, Copy, PartialEq, Eq, Structural)]
pub struct FirstLook {
    pub total_ms: i64,
    pub ended: bool,
}

/// What a first look at a job tells; nothing where it could not be asked for.
pub open spec fn looked(query: Option<pb::QueryJobResponseView>) -> FirstLook {
    FirstLook {
        total_ms: match query {
            Some(q) => match q.job {
                Some(j) => match j.spec {
                    Some(spec) => asked_ms(spec.duration) as i64,
                    None => 0,
                },
                None => 0,
            },
            None => 0,
        },
        ended: query matches Some(q) && tells_of_end(q),
    }
}

/// What a first look at a job tells.
pub fn first_look(query: &Option<pb::QueryJobResponse>) -> (r: FirstLook)
    ensures
        r == looked(opt_view(*query)),
{
    match query {
        Some(q) => {
            let total_ms: i64 = match &q.job {
                Some(job) => match &job.spec {
                    Some(spec) => total_duration_ms(spec.duration.as_str()),
                    None => 0,
                },
                None => 0,
            };
            FirstLook { total_ms, ended: query_is_terminal(q) }
        },
        None => FirstLook { total_ms: 0, ended: false },
    }
}

/// The file that the report on a job goes to: the one that was asked for, or
/// one named after the job.
pub fn report_path(output: Option<String>, job_id: &str) -> (r: String)
    ensures
        r@ == match output {
            Some(path) => path@,
            None => job_id@ + ".json"@,
        },
{
    match output {
        Some(path) => path,
        None => {
            let mut s = job_id.to_owned();
            s.push_str(".json");
            s
        },
    }
}

/// A client does not ask forever: each answer ends the session, or brings it
/// closer to the last attempt.
pub proof fn law_asking_comes_to_an_end(
    s: SessionView,
    polls: u32,
    q: pb::QueryJobResponseView,
    at: Clock,
)
    requires
        s.progress == (Progress::Asking { polls }),
        polls <= POLL_ATTEMPTS,
    ensures
        ({
            let t = reacted(s, HappeningView::Answer(q), at).0.progress;
            t == Progress::Over || (polls < POLL_ATTEMPTS && t == Progress::Asking {
                polls: (polls + 1) as u32,
            })
        }),
{
}

/// Only a job that has ended is shown as finished.
pub proof fn law_only_ended_jobs_are_shown(s: SessionView, h: HappeningView, at: Clock)
    ensures
        reacted(s, h, at).1 matches ReactionView::Show(q) ==> tells_of_end(q),
{
}

} // verus!
