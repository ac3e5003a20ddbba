use yt_downloader_webui::clock::Stamp;
use yt_downloader_webui::events::{Event, RingBuffer};
use yt_downloader_webui::parse::FlatEntry;
use yt_downloader_webui::state::{ItemStatus, Queue};
use yt_downloader_webui::worker::{
    after_move_filename, end_download, handle_line, probe_step, step, take_next_pending, Action,
    Ending, Phase, ProbeAction, ProbeEvent, ProbeOutcome, ProbeSignal, Signal,
};
use yt_downloader_webui::server::probe_event;

fn at(secs: i128) -> Stamp {
    Stamp { nanos: secs * 1_000_000_000, offset: 0 }
}

/// A queue with the items 1 and 2, of which the first is being downloaded.
fn running() -> (Queue, RingBuffer<String>) {
    let mut q = Queue::new();
    let _ = q.enqueue_at("https://u/1".to_string(), None, None, at(1));
    let _ = q.enqueue_at("https://u/2".to_string(), None, None, at(2));
    assert_eq!(take_next_pending(&mut q), Some(1));
    (q, RingBuffer::new(3))
}

fn names(events: &[Event]) -> Vec<String> {
    events.iter().map(|e| e.name()).collect()
}

const TICK: &str = r#"{"status": "downloading", "filename": "/d/a.mp4", "_percent": 12.5}"#;

/// A well-formed report yields the bare basename of the final on-disk path.
#[test]
fn read_after_move_filename_parses_basename() {
    assert_eq!(
        after_move_filename(
            r#"{"status":"after_move","filename":"/tmp/dl/Big Buck Bunny [aqz-KE-bpKQ].mp4"}
"#
        ),
        Some("Big Buck Bunny [aqz-KE-bpKQ].mp4".to_string())
    );
}

/// Without a report the item keeps whatever name the progress reported.
#[test]
fn read_after_move_filename_missing_is_none() {
    let (mut q, mut ring) = running();
    let _ = handle_line(&mut q, &mut ring, 1, TICK, 1000);
    let end = Ending::Exited { success: true, code: Some(0), filename: None };
    let _ = end_download(&mut q, 1, end);
    assert_eq!(q.get(1).unwrap().filename.as_deref(), Some("a.mp4"));
}

/// A malformed report yields nothing.
#[test]
fn read_after_move_filename_malformed_is_none_but_removed() {
    assert_eq!(after_move_filename("not json"), None);
}

/// A report without the `filename` key yields nothing.
#[test]
fn read_after_move_filename_missing_key_is_none() {
    assert_eq!(after_move_filename(r#"{"status":"after_move"}"#), None);
}

#[test]
fn progress_is_throttled_but_kept() {
    let (mut q, mut ring) = running();
    let o = handle_line(&mut q, &mut ring, 1, TICK, 1000);
    assert!(o.refreshed);
    // The name is new, so the card changes as well as the banner.
    assert!(names(&o.events).contains(&"card-1".to_string()));
    assert!(names(&o.events).contains(&"status-bar".to_string()));
    let o = handle_line(&mut q, &mut ring, 1, TICK, 10);
    assert!(!o.refreshed);
    assert!(o.events.is_empty());
    let o = handle_line(&mut q, &mut ring, 1, TICK, 200);
    assert!(o.refreshed);
    assert!(!names(&o.events).contains(&"card-1".to_string()));
    // The last report is shown however soon it comes.
    let last = r#"{"status": "finished", "filename": "/d/a.mp4", "_percent": 100}"#;
    let o = handle_line(&mut q, &mut ring, 1, last, 0);
    assert!(o.refreshed);
    assert_eq!(q.get(1).unwrap().progress.as_ref().unwrap().status.as_deref(), Some("finished"));
}

#[test]
fn log_lines_go_to_the_item_and_the_ring() {
    let (mut q, mut ring) = running();
    for n in 0..5 {
        let o = handle_line(&mut q, &mut ring, 1, &format!("line {n}"), 0);
        assert_eq!(o.events[0].name(), "log");
    }
    assert_eq!(q.get(1).unwrap().logs.len(), 5);
    assert_eq!(ring.snapshot(), ["line 2", "line 3", "line 4"]);
    // An item that has gone leaves only the ring.
    let _ = handle_line(&mut q, &mut ring, 99, "stray", 0);
    assert_eq!(ring.snapshot(), ["line 3", "line 4", "stray"]);
}

#[test]
fn the_last_error_is_the_reason() {
    let (mut q, mut ring) = running();
    let _ = handle_line(&mut q, &mut ring, 1, "ERROR: first", 0);
    assert_eq!(q.get(1).unwrap().error.as_deref(), Some("first"));
    let _ = handle_line(&mut q, &mut ring, 1, "ERROR:  second ", 0);
    let _ = handle_line(&mut q, &mut ring, 1, "WARNING: third", 0);
    let _ = handle_line(&mut q, &mut ring, 1, "ERROR: ", 0);
    let end = Ending::Exited { success: false, code: Some(1), filename: None };
    let events = end_download(&mut q, 1, end);
    let item = q.get(1).unwrap();
    assert_eq!(item.status, ItemStatus::Failed);
    assert_eq!(item.error.as_deref(), Some("second"));
    assert!(item.cancel.is_none());
    assert_eq!(events[0].name(), "card-1");
}

#[test]
fn a_reported_error_is_not_overwritten() {
    let (mut q, mut ring) = running();
    let _ = handle_line(&mut q, &mut ring, 1, r#"{"status": "error"}"#, 0);
    assert_eq!(q.get(1).unwrap().error.as_deref(), Some("yt-dlp reported error"));
    let _ = handle_line(&mut q, &mut ring, 1, "ERROR: later", 0);
    assert_eq!(q.get(1).unwrap().error.as_deref(), Some("yt-dlp reported error"));
    // It is known by where it came from, not by its text.
    let (mut q, mut ring) = running();
    let _ = handle_line(&mut q, &mut ring, 1, "ERROR: yt-dlp reported error", 0);
    assert!(!q.get(1).unwrap().reported);
    let _ = handle_line(&mut q, &mut ring, 1, "ERROR: later", 0);
    assert_eq!(q.get(1).unwrap().error.as_deref(), Some("later"));
    // A report takes no error away.
    let (mut q, mut ring) = running();
    let _ = handle_line(&mut q, &mut ring, 1, "ERROR: first", 0);
    let _ = handle_line(&mut q, &mut ring, 1, r#"{"status": "error"}"#, 0);
    assert_eq!(q.get(1).unwrap().error.as_deref(), Some("first"));
}

#[test]
fn every_ending() {
    let over = |ending: Ending| {
        let (mut q, _) = running();
        let _ = end_download(&mut q, 1, ending);
        let item = q.get(1).unwrap();
        assert!(item.cancel.is_none());
        assert_eq!(q.get(2).unwrap().status, ItemStatus::Pending);
        (item.status, item.error.clone(), item.filename.clone())
    };
    assert_eq!(
        over(Ending::SpawnFailed("none".into())),
        (ItemStatus::Failed, Some("failed to spawn yt-dlp: none".to_string()), None)
    );
    assert_eq!(over(Ending::Shutdown), (ItemStatus::Pending, None, None));
    assert_eq!(over(Ending::Cancelled), (ItemStatus::Cancelled, None, None));
    assert_eq!(
        over(Ending::WaitFailed("gone".into())),
        (ItemStatus::Failed, Some("yt-dlp wait error: gone".to_string()), None)
    );
    assert_eq!(
        over(Ending::Exited { success: false, code: Some(2), filename: None }),
        (ItemStatus::Failed, Some("yt-dlp exited with status 2".to_string()), None)
    );
    assert_eq!(
        over(Ending::Exited { success: false, code: None, filename: None }),
        (ItemStatus::Failed, Some("yt-dlp exited".to_string()), None)
    );
    assert_eq!(
        over(Ending::Exited { success: true, code: Some(0), filename: Some("f.mp4".into()) }),
        (ItemStatus::Done, None, Some("f.mp4".to_string()))
    );
}

#[test]
fn a_download_from_start_to_end() {
    let (mut q, mut ring) = running();
    let s = step(Phase::Reading, Signal::Line(TICK.to_string()), &mut q, &mut ring, 1, 500);
    assert_eq!((s.phase, s.action, s.persist), (Phase::Reading, Action::Read, false));
    assert!(s.refreshed);
    let s = step(Phase::Reading, Signal::OutputEnded, &mut q, &mut ring, 1, 0);
    assert_eq!((s.phase, s.action, s.persist), (Phase::Waiting, Action::AwaitExit, false));
    let report = r#"{"filename": "/d/b.mp4"}"#.to_string();
    let exit = Signal::Exited { success: true, code: Some(0), report: Some(report) };
    let s = step(Phase::Waiting, exit, &mut q, &mut ring, 1, 0);
    assert_eq!(s.phase, Phase::Over);
    assert!(matches!(s.action, Action::Stop { .. }));
    assert!(s.persist);
    assert!(s.library);
    assert_eq!(q.get(1).unwrap().status, ItemStatus::Done);
    assert_eq!(q.get(1).unwrap().filename.as_deref(), Some("b.mp4"));
}

#[test]
fn a_download_that_is_stopped() {
    let (mut q, mut ring) = running();
    let s = step(Phase::Reading, Signal::Cancelled, &mut q, &mut ring, 1, 0);
    assert_eq!((s.phase, s.action, s.persist), (Phase::Over, Action::Kill, true));
    assert_eq!(q.get(1).unwrap().status, ItemStatus::Cancelled);
    let (mut q, mut ring) = running();
    let s = step(Phase::Reading, Signal::Shutdown, &mut q, &mut ring, 1, 0);
    assert_eq!((s.phase, s.action), (Phase::Over, Action::Kill));
    assert_eq!(q.get(1).unwrap().status, ItemStatus::Pending);
    let (mut q, mut ring) = running();
    let s = step(Phase::Waiting, Signal::WaitFailed("x".into()), &mut q, &mut ring, 1, 0);
    assert_eq!(s.phase, Phase::Over);
    assert!(!s.library);
    assert_eq!(q.get(1).unwrap().error.as_deref(), Some("yt-dlp wait error: x"));
}

#[test]
fn a_probe_of_a_playlist() {
    let mut p = ProbeOutcome::start();
    for n in 1..=2 {
        let line = format!(r#"{{"_type": "url", "url": "https://w/{n}", "title": "T{n}"}}"#);
        let (shown, action) = probe_step(&mut p, ProbeSignal::Line(line.clone()));
        assert_eq!(shown, Some(line));
        assert_eq!(action, ProbeAction::Continue);
    }
    let _ = probe_step(&mut p, ProbeSignal::Line("ERROR: one is private".into()));
    assert_eq!(p.error.as_deref(), Some("one is private"));
    let (shown, action) = probe_step(&mut p, ProbeSignal::Exited { success: false, code: Some(1) });
    assert_eq!((shown, action), (None, ProbeAction::Finish));
    assert_eq!(p.entries.len(), 2);
    assert_eq!(p.entries[1].url.as_deref(), Some("https://w/2"));
    assert!(p.single.is_none());
    assert!(p.error.is_none());
}

#[test]
fn a_probe_of_one_video() {
    let mut p = ProbeOutcome::start();
    let _ = probe_step(&mut p, ProbeSignal::Line(r#"{"_type": "video", "title": "A"}"#.into()));
    let _ = probe_step(&mut p, ProbeSignal::Line(r#"{"_type": "video", "title": "B"}"#.into()));
    let _ = probe_step(&mut p, ProbeSignal::Exited { success: true, code: Some(0) });
    assert_eq!(p.single.as_ref().unwrap().title.as_deref(), Some("A"));
    let (name, html) = probe_event("https://given", &ProbeEvent::Done(Box::new(p)));
    assert_eq!(name, "result");
    assert!(html.contains("https://given"));
    let (name, html) = probe_event("https://given", &ProbeEvent::Log("a<b".into()));
    assert_eq!(name, "log");
    assert!(html.contains("a&#60;b"));
}

#[test]
fn probes_that_fail() {
    let failed = |signal: ProbeSignal| {
        let mut p = ProbeOutcome::start();
        p.single = Some(FlatEntry::default());
        let (shown, action) = probe_step(&mut p, signal);
        assert!(p.single.is_none());
        (shown, action, p.error.unwrap())
    };
    assert_eq!(
        failed(ProbeSignal::SpawnFailed("none".into())),
        (
            Some("ERROR: failed to spawn yt-dlp probe: none".to_string()),
            ProbeAction::Finish,
            "failed to spawn yt-dlp probe: none".to_string()
        )
    );
    assert_eq!(
        failed(ProbeSignal::TimedOut),
        (None, ProbeAction::KillAndFinish, "probe timed out after 60s".to_string())
    );
    assert_eq!(
        failed(ProbeSignal::WaitFailed("x".into())),
        (None, ProbeAction::Finish, "yt-dlp probe wait error: x".to_string())
    );
    let mut p = ProbeOutcome::start();
    assert_eq!(probe_step(&mut p, ProbeSignal::Shutdown), (None, ProbeAction::Abandon));
    let _ = probe_step(&mut p, ProbeSignal::Exited { success: false, code: Some(3) });
    assert_eq!(p.error.as_deref(), Some("yt-dlp probe failed (status 3)"));
    let mut p = ProbeOutcome::start();
    let _ = probe_step(&mut p, ProbeSignal::Exited { success: true, code: Some(0) });
    assert!(p.error.is_none());
}

#[test]
fn one_download_at_a_time() {
    let active = |q: &Queue| q.items.iter().filter(|i| i.status == ItemStatus::Active).count();
    let (mut q, mut ring) = running();
    assert_eq!(active(&q), 1);
    let _ = handle_line(&mut q, &mut ring, 1, TICK, 0);
    let _ = handle_line(&mut q, &mut ring, 1, "ERROR: e", 0);
    q.trim_history();
    let _ = q.clear_terminal();
    assert_eq!(active(&q), 1);
    let exit = Ending::Exited { success: true, code: Some(0), filename: None };
    let _ = end_download(&mut q, 1, exit);
    assert_eq!(active(&q), 0);
    assert_eq!(take_next_pending(&mut q), Some(2));
    assert_eq!(active(&q), 1);
}

#[test]
fn ring_without_room() {
    let mut r: RingBuffer<u8> = RingBuffer::new(0);
    r.push(1);
    assert!(r.snapshot().is_empty());
    let mut r: RingBuffer<u8> = RingBuffer::new(2);
    for n in 0..5 {
        r.push(n);
    }
    assert_eq!(r.snapshot(), [&3, &4]);
}
