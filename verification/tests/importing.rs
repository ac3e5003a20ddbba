use yt_downloader_webui::clock::Stamp;
use yt_downloader_webui::double::Double;
use yt_downloader_webui::import::{
    dedupe_done_per_filename, import_unreferenced, land_frames, land_thumbnails, orphaned, owns,
    probe_missing_media, probe_needs, prune_missing_files, reconciled,
    reset_stale_thumbnail_counts, subsume, thumbnail_needs, unreferenced, Probed,
};
use yt_downloader_webui::media::MediaInfo;
use yt_downloader_webui::state::{ItemStatus, Queue, QueueItem};

fn d(x: f64) -> Double {
    Double { bits: x.to_bits() }
}

fn at(secs: i128) -> Stamp {
    Stamp { nanos: secs * 1_000_000_000, offset: 0 }
}

fn done(q: &mut Queue, url: &str, name: &str, secs: i128) -> u64 {
    let id = q.enqueue_at(url.to_string(), None, None, at(secs)).unwrap();
    let item = q.get_mut(id).unwrap();
    item.status = ItemStatus::Done;
    item.filename = Some(name.to_string());
    id
}

fn video() -> MediaInfo {
    MediaInfo {
        video_codec: Some("h264".into()),
        duration: Some(d(60.0)),
        ..MediaInfo::default()
    }
}

/// `subsume` fills the survivor's blanks from the older item but never
/// overwrites values the survivor already has -- it is the newest (the
/// item the user was watching), so its own url / title / media / thumbs
/// win; only missing fields are inherited. `logs` and `error` are never
/// subsumed.
#[test]
fn subsume_fills_blanks_without_overwriting() {
    let now = 1_700_000_000;
    // Survivor: a freshly-finished re-download. It has its own url + a
    // log line, but no media / thumbnails yet (those are filled by the
    // later probe + thumbnail steps).
    let mut survivor = QueueItem::new(2, "https://u".into());
    survivor.status = ItemStatus::Done;
    survivor.filename = Some("x.mp4".into());
    survivor.enqueued_at = at(now + 10);
    survivor.logs.push("survivor log".into());

    // Older: a previous Done item for the same file, already probed +
    // thumbnailed.
    let mut older = QueueItem::new(1, "https://u".into());
    older.status = ItemStatus::Done;
    older.filename = Some("x.mp4".into());
    older.title = Some("Title".into());
    older.duration = Some(d(120.0));
    older.media = Some(MediaInfo::default());
    older.thumbnail = Some("t.jpg".into());
    older.thumbnails = vec!["a.jpg".into(), "b.jpg".into()];
    older.enqueued_at = at(now);
    older.logs.push("older log".into());

    subsume(&mut survivor, &older);

    // Survivor keeps its own url (was non-empty).
    assert_eq!(survivor.url, "https://u");
    // Blanks filled from the older item.
    assert_eq!(survivor.title.as_deref(), Some("Title"));
    assert_eq!(survivor.duration, Some(d(120.0)));
    assert!(survivor.media.is_some());
    assert_eq!(survivor.thumbnail.as_deref(), Some("t.jpg"));
    assert_eq!(survivor.thumbnails, vec!["a.jpg", "b.jpg"]);
    // Logs are NOT subsumed (survivor keeps its own download output).
    assert_eq!(survivor.logs, vec!["survivor log"]);
}

/// When the survivor has no url (e.g. an imported item that turned out
/// to collide with a real download's state file), the older item's url is
/// inherited so the merged item still links back to its source.
#[test]
fn subsume_inherits_url_when_survivor_lacks_one() {
    let mut survivor = QueueItem::new(5, String::new()); // imported
    survivor.status = ItemStatus::Done;
    survivor.filename = Some("x.mp4".into());

    let mut older = QueueItem::new(1, "https://u".into());
    older.status = ItemStatus::Done;
    older.filename = Some("x.mp4".into());

    subsume(&mut survivor, &older);
    assert_eq!(survivor.url, "https://u");
}

#[test]
fn dedupe_keeps_the_newest_of_each_file() {
    let mut q = Queue::new();
    done(&mut q, "u1", "x.mp4", 30);
    done(&mut q, "u2", "y.mp4", 10);
    done(&mut q, "u3", "x.mp4", 20);
    done(&mut q, "u4", "x.mp4", 10);
    let _ = q.enqueue_at("u5".into(), None, None, at(99));
    q.get_mut(5).unwrap().filename = Some("x.mp4".into());
    q.get_mut(3).unwrap().title = Some("third".into());
    q.get_mut(4).unwrap().title = Some("fourth".into());
    let events = dedupe_done_per_filename(&mut q);
    assert_eq!(q.items.iter().map(|i| i.id).collect::<Vec<_>>(), vec![1, 2, 5]);
    assert_eq!(q.get(1).unwrap().title.as_deref(), Some("third"));
    assert_eq!(events.len(), 1);
    assert_eq!(events[0].name(), "toast");
    assert!(events[0].data().contains("x.mp4\u{201d}: kept the latest, merged 2 older"));
    assert!(dedupe_done_per_filename(&mut q).is_empty());
    assert_eq!(q.items.len(), 3);
}

#[test]
fn dedupe_breaks_ties_by_id() {
    let mut q = Queue::new();
    done(&mut q, "u1", "x.mp4", 7);
    done(&mut q, "u2", "x.mp4", 7);
    let _ = dedupe_done_per_filename(&mut q);
    assert_eq!(q.items.iter().map(|i| i.id).collect::<Vec<_>>(), vec![2]);
}

#[test]
fn prune_drops_downloads_whose_file_is_gone() {
    let mut q = Queue::new();
    done(&mut q, "u1", "here.mp4", 1);
    done(&mut q, "u2", "gone.mp4", 2);
    let _ = q.enqueue_at("u3".into(), None, None, at(3));
    assert!(prune_missing_files(&mut q, &vec!["here.mp4".to_string()]));
    assert_eq!(q.items.iter().map(|i| i.id).collect::<Vec<_>>(), vec![1, 3]);
    assert!(!prune_missing_files(&mut q, &vec!["here.mp4".to_string()]));
}

#[test]
fn import_takes_videos_only() {
    let mut q = Queue::new();
    done(&mut q, "u1", "mine.mp4", 1);
    assert!(owns(&q, "mine.mp4"));
    assert!(!unreferenced(&q, "mine.mp4"));
    assert!(unreferenced(&q, "new.mp4"));
    assert!(!unreferenced(&q, ".hidden"));
    let file = |name: &str, media: MediaInfo| Probed { name: name.into(), mtime: at(5), media };
    let changed = import_unreferenced(
        &mut q,
        vec![file("song.mp3", MediaInfo::default()), file("new.mp4", video())],
    );
    assert!(changed);
    assert_eq!(q.items.len(), 2);
    let item = q.get(2).unwrap();
    assert_eq!(item.status, ItemStatus::Done);
    assert_eq!(item.url, "");
    assert_eq!(item.filename.as_deref(), Some("new.mp4"));
    assert_eq!(item.duration, Some(d(60.0)));
    assert_eq!(item.enqueued_at, at(5));
    assert!(!unreferenced(&q, "new.mp4"));
    assert!(!import_unreferenced(&mut q, vec![file("song.mp3", MediaInfo::default())]));
}

#[test]
fn media_is_probed_once() {
    let mut q = Queue::new();
    done(&mut q, "u1", "a.mp4", 1);
    done(&mut q, "u2", "b.mp4", 2);
    q.get_mut(2).unwrap().media = Some(video());
    assert_eq!(probe_needs(&q), vec![(1, "a.mp4".to_string())]);
    assert!(!probe_missing_media(&mut q, vec![(1, MediaInfo::default())]));
    assert!(q.get(1).unwrap().media.is_none());
    assert!(probe_missing_media(&mut q, vec![(1, video())]));
    assert_eq!(q.get(1).unwrap().duration, Some(d(60.0)));
    assert!(probe_needs(&q).is_empty());
}

#[test]
fn stale_frames_are_dropped() {
    let mut q = Queue::new();
    done(&mut q, "u1", "a.mp4", 1);
    let item = q.get_mut(1).unwrap();
    item.duration = Some(d(60.0));
    item.thumbnails = vec!["a.0.jpg".into(), "a.1.jpg".into()];
    item.thumbnail = Some("a.1.jpg".into());
    assert!(thumbnail_needs(&q).is_empty());
    assert!(reset_stale_thumbnail_counts(&mut q));
    assert!(q.get(1).unwrap().thumbnails.is_empty());
    assert!(q.get(1).unwrap().thumbnail.is_none());
    assert_eq!(thumbnail_needs(&q), vec![(1, "a.mp4".to_string(), Some(d(60.0)))]);
    let frames: Vec<String> = (0..6).map(|i| format!("a.{i}.jpg")).collect();
    let event = land_frames(&mut q, 1, frames.clone()).unwrap();
    assert_eq!(event.name(), "card-1");
    assert_eq!(q.get(1).unwrap().thumbnail.as_deref(), Some("a.3.jpg"));
    assert!(!reset_stale_thumbnail_counts(&mut q));
    assert!(land_frames(&mut q, 1, frames.clone()).is_none());
    assert!(land_frames(&mut q, 9, frames).is_none());
    assert!(!orphaned(&q, "a.3.jpg"));
    assert!(orphaned(&q, "b.0.jpg"));
    assert!(!orphaned(&q, "b.0.jpg.tmp"));
    assert!(!orphaned(&q, ".keep"));
}

#[test]
fn fetched_thumbnails_land_once() {
    let mut q = Queue::new();
    let _ = q.enqueue_at("u1".into(), None, None, at(1));
    let _ = q.enqueue_at("u2".into(), None, None, at(2));
    q.get_mut(2).unwrap().thumbnail = Some("old.jpg".into());
    let events =
        land_thumbnails(&mut q, vec![(1, "n.jpg".into()), (2, "m.jpg".into()), (8, "x".into())]);
    assert_eq!(q.get(1).unwrap().thumbnail.as_deref(), Some("n.jpg"));
    assert_eq!(q.get(2).unwrap().thumbnail.as_deref(), Some("old.jpg"));
    assert_eq!(events[0].name(), "card-1");
    assert!(events.iter().all(|e| e.name() != "card-2"));
    assert_eq!(reconciled(&q).name(), "queue");
}

#[test]
fn imports_follow_the_scan() {
    let file = |name: &str, media: MediaInfo| Probed { name: name.into(), mtime: at(5), media };
    let scan = || {
        vec![
            file("b.mp4", video()),
            file("song.mp3", MediaInfo::default()),
            file("a.mp4", video()),
        ]
    };
    let mut q = Queue::new();
    done(&mut q, "u1", "mine.mp4", 1);
    assert!(import_unreferenced(&mut q, scan()));
    let got: Vec<(u64, &str)> =
        q.items.iter().map(|i| (i.id, i.filename.as_deref().unwrap())).collect();
    assert_eq!(got, [(1, "mine.mp4"), (2, "b.mp4"), (3, "a.mp4")]);
    assert_eq!(q.next_id, 4);
    let again: Vec<Probed> = scan().into_iter().filter(|p| unreferenced(&q, &p.name)).collect();
    assert!(!import_unreferenced(&mut q, again));
    assert_eq!(q.items.len(), 3);
    // Only videos need ids.
    q.next_id = u64::MAX;
    assert!(!import_unreferenced(&mut q, vec![file("song.mp3", MediaInfo::default())]));
}
