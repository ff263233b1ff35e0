use cvdbench::cmd::list::{clamp_limit, limit_warning, list_lines, parse_status, status_name};
use cvdbench::cmd::session::{first_look, report_path, FirstLook, Happening, Progress, Reaction, Session};
use cvdbench::cmd::watch::event_from_query;
use cvdbench::cmd::{
    ensure_terminal_after_stream, gave_up_message, is_terminal_status, query_is_terminal,
    total_duration_ms, NextPoll, POLL_ATTEMPTS,
};
use cvdbench::endpoint::{resolve, HttpsUnsupported};
use cvdbench::pb;
use cvdbench::pb::JobStatus;
use cvdbench::signal::{prompt_action, CtrlCAction};
use cvdbench::time::Clock;

fn query_in(status: JobStatus) -> pb::QueryJobResponse {
    pb::QueryJobResponse {
        job: Some(pb::Job {
            job_id: "j1".into(),
            spec: None,
            status: status.to_i32(),
            created_at: 7,
        }),
        error: Some("why".into()),
        dirs_scanned: 1,
        files_scanned: 2,
        scan_duration_ms: 3,
        ..pb::QueryJobResponse::default()
    }
}

#[test]
fn host_port_gets_http_prefix() {
    assert_eq!(resolve("127.0.0.1:9090").unwrap(), "http://127.0.0.1:9090");
    assert_eq!(resolve("master.example.com:9090").unwrap(), "http://master.example.com:9090");
}

#[test]
fn http_url_passes_through() {
    assert_eq!(resolve("http://1.2.3.4:9090").unwrap(), "http://1.2.3.4:9090");
}

#[test]
fn https_url_is_rejected() {
    assert!(resolve("https://master.example.com:9090").is_err());
    assert!(HttpsUnsupported.message().starts_with("https:// master endpoints are not supported"));
}

#[test]
fn whitespace_trimmed() {
    assert_eq!(resolve("  127.0.0.1:9090  ").unwrap(), "http://127.0.0.1:9090");
}

#[test]
fn endpoints_are_plain_http() {
    for master in ["", "a", "http://b", "ftp://c", "HTTPS://d", "\u{2003}http://e\n"] {
        assert!(resolve(master).unwrap().starts_with("http://"), "{master:?}");
    }
    assert!(resolve(" https://x ").is_err());
}

#[test]
fn statuses_are_read_in_any_case() {
    assert_eq!(parse_status("Running"), Ok(JobStatus::Running));
    assert_eq!(parse_status("CANCELLED"), Ok(JobStatus::Cancelled));
    assert_eq!(parse_status("pending"), Ok(JobStatus::Pending));
    assert_eq!(parse_status("preparing"), Ok(JobStatus::Preparing));
    assert_eq!(parse_status("completed"), Ok(JobStatus::Completed));
    assert_eq!(parse_status("failed"), Ok(JobStatus::Failed));
    assert_eq!(
        parse_status("Done").unwrap_err().message(),
        "unknown --status \"done\"; expected pending/preparing/running/completed/failed/cancelled"
    );
    assert_eq!(status_name(JobStatus::Failed.to_i32()), "FAILED");
    assert_eq!(status_name(JobStatus::Unspecified.to_i32()), "?");
    assert_eq!(status_name(99), "?");
}

#[test]
fn limits_are_clamped() {
    assert_eq!(clamp_limit(-3), 0);
    assert_eq!(clamp_limit(0), 0);
    assert_eq!(clamp_limit(1000), 1000);
    assert_eq!(clamp_limit(1001), 1000);
    assert_eq!(limit_warning(5), None);
    assert_eq!(
        limit_warning(-3).unwrap(),
        "warning: --limit -3 is negative; using server default (0)"
    );
    assert_eq!(limit_warning(2000).unwrap(), "warning: --limit 2000 exceeds 1000; clamping");
}

#[test]
fn jobs_are_listed_in_columns() {
    assert_eq!(list_lines(&pb::ListJobsResponse { jobs: vec![] }), vec!["(no jobs)".to_owned()]);
    let job = query_in(JobStatus::Running).job.unwrap();
    let lines = list_lines(&pb::ListJobsResponse { jobs: vec![job] });
    assert_eq!(lines[0], format!("{:<40}  {:<10}  CREATED_AT_MS", "JOB_ID", "STATUS"));
    assert_eq!(lines[1], format!("{:<40}  {:<10}  {}", "j1", "RUNNING", 7));
    assert_eq!(lines.len(), 2);
}

#[test]
fn ended_statuses_are_terminal() {
    assert!(is_terminal_status(JobStatus::Completed.to_i32()));
    assert!(is_terminal_status(JobStatus::Failed.to_i32()));
    assert!(is_terminal_status(JobStatus::Cancelled.to_i32()));
    assert!(!is_terminal_status(JobStatus::Running.to_i32()));
    assert!(!is_terminal_status(-1));
    assert!(query_is_terminal(&query_in(JobStatus::Failed)));
    assert!(!query_is_terminal(&pb::QueryJobResponse::default()));
}

#[test]
fn polls_are_limited() {
    let running = query_in(JobStatus::Running);
    assert_eq!(ensure_terminal_after_stream(&query_in(JobStatus::Failed), 0), NextPoll::Finished);
    assert_eq!(ensure_terminal_after_stream(&running, 0), NextPoll::Again);
    assert_eq!(ensure_terminal_after_stream(&running, POLL_ATTEMPTS - 1), NextPoll::Again);
    assert_eq!(ensure_terminal_after_stream(&running, POLL_ATTEMPTS), NextPoll::GiveUp);
    assert_eq!(
        ensure_terminal_after_stream(&query_in(JobStatus::Completed), POLL_ATTEMPTS),
        NextPoll::Finished
    );
    assert_eq!(
        gave_up_message("j1", &Some("reset".into())),
        "WatchJob stream ended before job reached terminal state; last stream error: reset; rerun `cvd-cli watch j1` to continue"
    );
    assert_eq!(
        gave_up_message("j1", &None),
        "WatchJob stream ended before job reached terminal state; rerun `cvd-cli watch j1` to continue"
    );
}

#[test]
fn durations_that_cannot_be_read_count_as_none() {
    assert_eq!(total_duration_ms("1h"), 3_600_000);
    assert_eq!(total_duration_ms("soon"), 0);
    assert_eq!(total_duration_ms(""), 0);
}

#[test]
fn answers_keep_watching_unless_told_to_detach() {
    assert_eq!(prompt_action(None), CtrlCAction::DefaultCancel);
    assert_eq!(prompt_action(Some(" D \n")), CtrlCAction::Detach);
    assert_eq!(prompt_action(Some("detach\n")), CtrlCAction::Detach);
    assert_eq!(prompt_action(Some("\n")), CtrlCAction::Cancel);
    assert_eq!(prompt_action(Some("c")), CtrlCAction::Cancel);
}

#[test]
fn a_query_shows_as_an_event() {
    let e = event_from_query(&query_in(JobStatus::Failed));
    assert_eq!(e.job_id, "j1");
    assert_eq!(e.status, JobStatus::Failed.to_i32());
    assert_eq!(e.error.as_deref(), Some("why"));
    assert_eq!((e.dirs_scanned, e.files_scanned, e.scan_duration_ms), (1, 2, 3));
}

fn at(secs: u128) -> Clock {
    Clock { wall_ms: 0, mono_ns: secs * 1_000_000_000 }
}

#[test]
fn a_session_follows_events_and_then_asks() {
    let mut s = Session::new("j1", 1_000, false, &at(0));
    assert_eq!(s.react(Happening::Tick, &at(0)), Reaction::Render);
    s.display.render(&at(0));
    let event = pb::JobEvent { status: JobStatus::Running.to_i32(), ..pb::JobEvent::default() };
    assert_eq!(s.react(Happening::Event(event), &at(1)), Reaction::Wait);
    assert_eq!(s.react(Happening::Tick, &at(2)), Reaction::Render);
    assert_eq!(s.react(Happening::Interrupt(CtrlCAction::Cancel), &at(2)), Reaction::Cancel);
    assert_eq!(s.react(Happening::Interrupt(CtrlCAction::DefaultCancel), &at(2)), Reaction::Cancel);
    let broken = Happening::Broken { code: "reset".into(), message: "by peer".into() };
    assert_eq!(s.react(broken, &at(3)), Reaction::Ask);
    assert_eq!(s.stream_error.as_deref(), Some("reset: by peer"));
    let running = || Happening::Answer(query_in(JobStatus::Running));
    for polls in 0..POLL_ATTEMPTS {
        assert_eq!(s.progress, Progress::Asking { polls });
        assert_eq!(s.react(running(), &at(3)), Reaction::AskLater);
        assert_eq!(s.react(Happening::Tick, &at(9)), Reaction::Wait);
    }
    let message = gave_up_message("j1", &Some("reset: by peer".into()));
    assert_eq!(s.react(running(), &at(3)), Reaction::GiveUp(message));
    assert_eq!(s.progress, Progress::Over);
    assert_eq!(s.react(running(), &at(3)), Reaction::Wait);
}

#[test]
fn a_session_ends_with_its_job_or_its_user() {
    let mut s = Session::new("j1", 0, false, &at(0));
    assert_eq!(s.react(Happening::Closed, &at(0)), Reaction::Ask);
    let ended = query_in(JobStatus::Cancelled);
    assert_eq!(
        s.react(Happening::Answer(query_in(JobStatus::Cancelled)), &at(0)),
        Reaction::Show(ended)
    );
    let mut s = Session::new("j1", 0, false, &at(0));
    assert_eq!(s.react(Happening::Interrupt(CtrlCAction::Detach), &at(0)), Reaction::Detach);
    assert_eq!(s.progress, Progress::Over);
}

#[test]
fn a_first_look_tells_whether_there_is_anything_to_follow() {
    assert_eq!(first_look(&None), FirstLook { total_ms: 0, ended: false });
    let mut q = query_in(JobStatus::Completed);
    assert_eq!(first_look(&Some(query_in(JobStatus::Running))), FirstLook { total_ms: 0, ended: false });
    q.job.as_mut().unwrap().spec =
        Some(pb::BenchSpec { duration: "2s".into(), ..pb::BenchSpec::default() });
    assert_eq!(first_look(&Some(q)), FirstLook { total_ms: 2_000, ended: true });
    assert_eq!(report_path(None, "j1"), "j1.json");
    assert_eq!(report_path(Some("x.csv".into()), "j1"), "x.csv");
}
