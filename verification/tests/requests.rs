use yt_downloader_webui::clock::Stamp;
use yt_downloader_webui::double::Double;
use yt_downloader_webui::events::RingBuffer;
use yt_downloader_webui::library::LibraryFile;
use yt_downloader_webui::render::ApprovalEntry;
use yt_downloader_webui::server::{
    confirm, confirm_at, confirm_reply, confirmed_values, get_item_page, get_logs, get_thumb,
    plan_delete, post_cancel, post_delete_item, post_download, post_rescan, post_retry,
    serve_embedded, snapshot, sse_data, static_icon, DeletePlan, DownloadForm,
};
use yt_downloader_webui::state::{ItemStatus, Queue};
use yt_downloader_webui::worker::take_next_pending;

fn at(secs: i128) -> Stamp {
    Stamp { nanos: secs * 1_000_000_000, offset: 0 }
}

fn three() -> Queue {
    let mut q = Queue::new();
    for n in 1..=3 {
        let _ = q.enqueue_at(format!("https://u/{n}"), None, None, at(n));
    }
    q
}

fn ids(q: &Queue) -> Vec<u64> {
    q.items.iter().map(|i| i.id).collect()
}

fn video(url: &str, thumbnail: Option<&str>) -> Option<ApprovalEntry> {
    Some(ApprovalEntry {
        url: url.to_string(),
        title: Some("T".to_string()),
        duration: Some(Double { bits: 99f64.to_bits() }),
        thumbnail: thumbnail.map(str::to_string),
    })
}

#[test]
fn submitting_a_url() {
    let r = post_download(&DownloadForm { url: "  ".into() });
    assert!(r.contains("paste a URL"));
    let r = post_download(&DownloadForm { url: " https://x/?a=1&b=2\n".into() });
    assert!(r.contains("/probe?url=https%3A%2F%2Fx%2F%3Fa%3D1%26b%3D2"));
}

#[test]
fn ticked_values_of_a_form() {
    let body = b"entry=%7B%22url%22%3A%22a%26b%22%7D&other=1&entry=x+y&entry";
    assert_eq!(confirmed_values(body), vec!["{\"url\":\"a&b\"}", "x y", ""]);
    assert!(confirmed_values(b"").is_empty());
}

#[test]
fn confirming_queues_in_order() {
    let mut q = Queue::new();
    let r = confirm_at(
        &mut q,
        vec![video("https://u/1", Some("https://t/1.jpg")), None, video("https://u/2", None)],
        at(50),
    );
    assert_eq!(q.items.len(), 2);
    assert_eq!(q.items[0].url, "https://u/1");
    assert_eq!(q.items[0].title.as_deref(), Some("T"));
    assert_eq!(q.items[0].enqueued_at, at(50));
    assert_eq!(r.thumbs, vec![(1, "https://t/1.jpg".to_string())]);
    assert_eq!(r.events[0].name(), "card-added");
    assert!(r.events.iter().any(|e| e.name() == "cards-count"));
    assert!(r.events.iter().all(|e| e.name() != "toast"));
}

#[test]
fn confirming_what_is_downloaded() {
    let mut q = three();
    q.get_mut(1).unwrap().status = ItemStatus::Done;
    let r = confirm(&mut q, vec![video("https://u/1", Some("https://t/1.jpg"))]);
    assert_eq!(ids(&q), vec![2, 3, 1]);
    assert_eq!(q.get(1).unwrap().status, ItemStatus::Done);
    assert!(r.thumbs.is_empty());
    let toast = r.events.iter().find(|e| e.name() == "toast").unwrap();
    assert!(toast.data().contains("Already downloaded"));
    assert!(confirm_reply(0).contains("select at least one video"));
    assert!(!confirm_reply(1).contains("header-err"));
}

#[test]
fn cancelling() {
    let mut q = three();
    let r = post_cancel(&mut q, 2);
    assert!(r.changed);
    assert!(r.ack.contains("cancelled item 2"));
    assert_eq!(r.events[0].name(), "card-2");
    assert_eq!(r.events[0].data(), "");
    assert_eq!(ids(&q), vec![1, 3]);
    assert_eq!(take_next_pending(&mut q), Some(1));
    let token = q.get(1).unwrap().cancel.clone().unwrap();
    assert!(!token.is_cancelled());
    let r = post_cancel(&mut q, 1);
    assert!(!r.changed);
    assert!(r.ack.contains("cancelling item 1 ..."));
    assert!(r.events.is_empty());
    assert!(!token.is_cancelled());
    r.trip.unwrap().cancel();
    assert!(token.is_cancelled());
    q.get_mut(3).unwrap().status = ItemStatus::Done;
    assert!(post_cancel(&mut q, 3).ack.contains("item 3 not active"));
    assert!(post_cancel(&mut q, 9).ack.contains("no such item 9"));
    assert_eq!(ids(&q), vec![1, 3]);
}

#[test]
fn cancelling_trips_no_other_download() {
    let mut q = three();
    assert_eq!(take_next_pending(&mut q), Some(1));
    assert_eq!(take_next_pending(&mut q), Some(2));
    let first = q.get(1).unwrap().cancel.clone().unwrap();
    let second = q.get(2).unwrap().cancel.clone().unwrap();
    post_cancel(&mut q, 2).trip.unwrap().cancel();
    assert!(second.is_cancelled());
    assert!(!first.is_cancelled());
    assert!(post_cancel(&mut q, 3).trip.is_none());
    q.get_mut(1).unwrap().status = ItemStatus::Done;
    assert!(post_cancel(&mut q, 1).trip.is_none());
    assert!(post_cancel(&mut q, 9).trip.is_none());
}

#[test]
fn retrying() {
    let mut q = three();
    let item = q.get_mut(1).unwrap();
    item.status = ItemStatus::Failed;
    item.error = Some("e".into());
    item.filename = Some("f".into());
    item.logs.push("kept".into());
    let r = post_retry(&mut q, 1);
    assert!(r.changed);
    assert!(r.ack.contains("requeued item 1"));
    assert_eq!(ids(&q), vec![2, 3, 1]);
    let item = q.get(1).unwrap();
    assert_eq!(item.status, ItemStatus::Pending);
    assert!(item.error.is_none() && item.filename.is_none());
    assert_eq!(item.logs, vec!["kept"]);
    assert_eq!(r.events[0].name(), "card-1");
    assert_eq!(r.events[1].name(), "card-added");
    q.get_mut(2).unwrap().status = ItemStatus::Active;
    assert!(post_retry(&mut q, 2).ack.contains("item 2 is active; cancel it first"));
    q.get_mut(2).unwrap().status = ItemStatus::Done;
    assert!(post_retry(&mut q, 2).ack.contains("item 2 already downloaded"));
    assert!(post_retry(&mut q, 9).ack.contains("no such item 9"));
    assert_eq!(ids(&q), vec![2, 3, 1]);
}

#[test]
fn deleting() {
    let mut q = three();
    assert!(matches!(plan_delete(&q, 1), DeletePlan::Refused(a) if a.ack.contains("not finished")));
    assert!(matches!(plan_delete(&q, 9), DeletePlan::Refused(a) if a.ack.contains("no such item 9")));
    q.get_mut(1).unwrap().status = ItemStatus::Done;
    q.get_mut(1).unwrap().filename = Some("f.mp4".into());
    assert!(matches!(plan_delete(&q, 1), DeletePlan::Delete(Some(f)) if f == "f.mp4"));
    let r = post_delete_item(&mut q, 1, Some("busy".into()));
    assert!(r.changed);
    assert!(r.ack.contains("deleted item 1 (file: busy)"));
    assert_eq!(ids(&q), vec![2, 3]);
    let r = post_delete_item(&mut q, 2, None);
    assert!(!r.changed);
    assert!(r.events.is_empty());
    assert!(post_rescan().contains("rescanning"));
}

#[test]
fn payloads_are_never_empty() {
    assert_eq!(sse_data(""), "<!---->");
    assert_eq!(sse_data("x"), "x");
}

#[test]
fn a_fresh_page_is_brought_up_to_date() {
    let mut q = three();
    let _ = take_next_pending(&mut q);
    let mut ring: RingBuffer<String> = RingBuffer::new(10);
    ring.push("a<b".to_string());
    let events = snapshot(&q, None, &ring);
    let names: Vec<String> = events.iter().map(|e| e.name()).collect();
    assert_eq!(
        names,
        [
            "queue",
            "status-thumb",
            "status-title",
            "status-log",
            "status-bar",
            "status-meta",
            "status-cancel",
            "log"
        ]
    );
    assert!(events[2].data().contains("2 queued"));
    assert!(events[7].data().contains("a&#60;b"));
    let cards = events[0].data();
    assert!(cards.find("card-3").unwrap() < cards.find("card-1").unwrap());

    let files = vec![LibraryFile { name: "v.mp4".to_string(), size: 0, mtime: at(0) }];
    let events = snapshot(&q, Some(&files), &ring);
    assert_eq!(events.len(), 9);
    assert_eq!(events[7].name(), "library");
    assert!(events[7].data().contains("library (1 files)"));
    assert!(events[7].data().contains("v.mp4"));
    assert_eq!(events[8].name(), "log");
}

#[test]
fn assets_are_tagged() {
    let tag = "\"aaf4c61ddcc5e8a2dabede0f3b482cd9aea9434d\"";
    let r = serve_embedded(b"hello", "text/css", "no-cache", None);
    assert_eq!(r.status, 200);
    assert!(r.headers.contains(&("content-type".to_string(), "text/css".to_string())));
    assert!(r.headers.contains(&("etag".to_string(), tag.to_string())));
    let r = serve_embedded(b"hello", "text/css", "no-cache", Some(tag.as_bytes()));
    assert_eq!(r.status, 304);
    assert_eq!(serve_embedded(b"hello", "text/css", "no-cache", Some(b"x")).status, 200);
}

#[test]
fn thumbnails_are_tagged_by_name() {
    let r = get_thumb("a.png", "/c/a.png", None);
    assert_eq!(r.status, 200);
    assert_eq!(
        r.headers,
        vec![
            ("content-type".to_string(), "image/png".to_string()),
            ("content-disposition".to_string(), "inline; filename=\"a.png\"".to_string()),
            ("etag".to_string(), "\"a.png\"".to_string()),
            (
                "cache-control".to_string(),
                "public, max-age=31536000, immutable".to_string()
            ),
        ]
    );
    assert_eq!(get_thumb("a.png", "/c/a.png", Some(b"\"a.png\"")).status, 304);
    assert_eq!(get_thumb("a", "/c/a", None).headers[0].1, "image/jpeg");
}

#[test]
fn icons_by_name() {
    for n in ["download", "play", "trash", "logs", "stop", "retry"] {
        assert!(static_icon(&format!("{n}.svg")));
    }
    assert!(!static_icon("info.svg"));
    assert!(!static_icon(""));
}

#[test]
fn pages_of_items() {
    let mut q = three();
    q.get_mut(1).unwrap().logs.push("hello log".into());
    assert!(get_logs(&q, 1).contains("hello log"));
    assert_eq!(get_logs(&q, 9), get_logs(&q, 2));
    assert!(get_item_page(&q, 1).contains("https://u/1"));
    assert!(get_item_page(&q, 9).contains("no longer in the queue"));
}

#[test]
fn exactly_the_ticked_videos_are_queued() {
    let mut q = three();
    q.get_mut(2).unwrap().status = ItemStatus::Done;
    let _ = confirm_at(
        &mut q,
        vec![video("https://u/2", None), video("https://new", None), None],
        at(9),
    );
    let urls: Vec<&str> = q.items.iter().map(|i| i.url.as_str()).collect();
    assert_eq!(urls, ["https://u/1", "https://u/3", "https://u/2", "https://new"]);
    assert!(q.items.iter().all(|i| i.status != ItemStatus::Active));
    assert_eq!(q.count_pending(), 3);
}

#[test]
fn approval_entries_read_back() {
    let e = video("https://u/?a=\"1\"&b=\u{e9}", Some("https://t")).unwrap();
    let v: serde_json::Value = serde_json::from_str(&e.to_json()).unwrap();
    assert_eq!(v["url"], "https://u/?a=\"1\"&b=\u{e9}");
    assert_eq!(v["title"], "T");
    assert_eq!(v["duration"].as_f64(), Some(99.0));
    assert_eq!(v["thumbnail"], "https://t");
    for secs in [0u64, 1, 3623, 86400, 562949953421311] {
        let mut e = e.clone();
        e.duration = Some(Double { bits: (secs as f64).to_bits() });
        let v: serde_json::Value = serde_json::from_str(&e.to_json()).unwrap();
        assert_eq!(v["duration"].as_f64(), Some(secs as f64));
        assert_eq!(v["duration"].as_u64(), None);
    }
    let fractions: [f64; 14] = [
        0.1, 12.5, 61.7, 1.0 / 3.0, 1e-7, 5e-324, 2.2250738585072014e-308, 1.7976931348623157e308,
        8.941e-5, 123456.78901234567, 0.30000000000000004, 7.038531e-26, -2.5, 9007199254740993.0,
    ];
    for secs in fractions {
        let mut e = e.clone();
        e.duration = Some(Double { bits: secs.to_bits() });
        let v: serde_json::Value = serde_json::from_str(&e.to_json()).unwrap();
        assert_eq!(v["duration"].as_f64().map(f64::to_bits), Some(secs.to_bits()));
    }
    let back = ApprovalEntry::from_json(&e.to_json()).unwrap();
    assert_eq!(back.url, e.url);
    assert_eq!(back.title, e.title);
    assert_eq!(back.duration.map(|d| d.bits), e.duration.map(|d| d.bits));
    assert_eq!(back.thumbnail, e.thumbnail);
    let mut n: u64 = 1;
    for _ in 0..2000 {
        n = n.wrapping_mul(6364136223846793005).wrapping_add(1442695040888963407);
        let secs = f64::from_bits(n);
        if secs.is_finite() {
            let mut e = e.clone();
            e.duration = Some(Double { bits: n });
            let v: serde_json::Value = serde_json::from_str(&e.to_json()).unwrap();
            assert_eq!(v["duration"].as_f64().map(f64::to_bits), Some(n));
        }
    }
    let mut e = e.clone();
    e.duration = Some(Double { bits: f64::NAN.to_bits() });
    let v: serde_json::Value = serde_json::from_str(&e.to_json()).unwrap();
    assert!(v["duration"].is_null());
}

#[test]
fn malformed_approvals_are_refused() {
    let read = |s: &str| ApprovalEntry::from_json(s);
    let e = read(r#"{"url": "u"}"#).unwrap();
    assert_eq!(e.url, "u");
    assert!(e.title.is_none() && e.duration.is_none() && e.thumbnail.is_none());
    let e = read(r#"{"more": [], "url": "u", "title": null, "duration": 7, "thumbnail": "t"}"#).unwrap();
    assert!(e.title.is_none());
    assert_eq!(e.duration.map(|d| f64::from_bits(d.bits)), Some(7.0));
    assert_eq!(e.thumbnail.as_deref(), Some("t"));
    for blob in [
        "",
        "u",
        "[]",
        "{}",
        r#"{"title": "t"}"#,
        r#"{"url": null}"#,
        r#"{"url": 1}"#,
        r#"{"url": "u", "title": 1}"#,
        r#"{"url": "u", "title": true}"#,
        r#"{"url": "u", "duration": "7"}"#,
        r#"{"url": "u", "duration": []}"#,
        r#"{"url": "u", "thumbnail": {}}"#,
    ] {
        assert!(read(blob).is_none(), "{blob}");
    }
}
