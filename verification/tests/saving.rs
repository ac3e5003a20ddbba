use yt_downloader_webui::clock::Stamp;
use yt_downloader_webui::config::{bind_warning, expand_tilde, log_filter, warns, Cli, Host, Place};
use yt_downloader_webui::double::Double;
use yt_downloader_webui::media::MediaInfo;
use yt_downloader_webui::persist::{
    bad_name, restore, restore_at, snapshot, RestoreError, SerializedItem, StateFile,
};
use yt_downloader_webui::state::{ItemStatus, Queue};
use yt_downloader_webui::ytdlp::{after_move_sidefile, build, build_probe, Arg};

fn at(secs: i128) -> Stamp {
    Stamp { nanos: secs * 1_000_000_000, offset: 0 }
}

fn full() -> Queue {
    let mut q = Queue::new();
    let all = [
        ItemStatus::Pending,
        ItemStatus::Active,
        ItemStatus::Done,
        ItemStatus::Failed,
        ItemStatus::Cancelled,
    ];
    for (n, s) in all.iter().enumerate() {
        let stamp = Stamp { nanos: 1_700_000_000_123_456_789 + n as i128, offset: 3600 };
        let _ = q.enqueue_at(format!("u{n}"), Some(format!("t{n}")), None, stamp);
        q.items[n].status = *s;
    }
    q.items[2].filename = Some("f.mp4".into());
    q.items[2].duration = Some(Double { bits: 61.5f64.to_bits() });
    q.items[2].thumbnail = Some("a.jpg".into());
    q.items[2].thumbnails = vec!["a.jpg".into(), "b.jpg".into()];
    q.items[2].media = Some(MediaInfo { width: Some(640), ..MediaInfo::default() });
    q.items[3].error = Some("e".into());
    q.items[3].logs.push("l".into());
    q
}

#[test]
fn a_restart_keeps_the_queue() {
    let q = full();
    let file = snapshot(q.next_id, &q.items);
    assert_eq!(file.version, 1);
    assert_eq!(file.items[0].enqueued_at, "2023-11-14T23:13:20.123456789+01:00");
    let r = restore_at(file, at(5)).unwrap();
    assert_eq!(r.next_id, 6);
    assert_eq!(r.items.len(), 5);
    for (a, b) in q.items.iter().zip(&r.items) {
        assert_eq!(a.id, b.id);
        assert_eq!(a.url, b.url);
        assert_eq!(a.title, b.title);
        assert_eq!(a.filename, b.filename);
        assert_eq!(a.duration, b.duration);
        assert_eq!(a.error, b.error);
        assert_eq!(a.thumbnail, b.thumbnail);
        assert_eq!(a.thumbnails, b.thumbnails);
        assert_eq!(a.logs, b.logs);
        assert_eq!(a.enqueued_at, b.enqueued_at);
        let status =
            if a.status == ItemStatus::Active { ItemStatus::Pending } else { a.status };
        assert_eq!(b.status, status);
    }
    assert_eq!(r.items[2].media.as_ref().unwrap().width, Some(640));
}

fn saved(id: u64, status: &str, enqueued_at: &str) -> SerializedItem {
    SerializedItem {
        id,
        url: "u".into(),
        status: status.into(),
        title: None,
        duration: None,
        filename: None,
        error: None,
        thumbnail: None,
        thumbnails: vec![],
        media: None,
        logs: vec![],
        enqueued_at: enqueued_at.into(),
    }
}

#[test]
fn odd_files_are_restored() {
    let file = StateFile {
        version: 1,
        next_id: 2,
        items: vec![
            saved(7, "pending", "2020-01-01T00:00:00Z"),
            saved(3, "dancing", "2020-01-01T00:00:00Z"),
            saved(4, "done", "yesterday"),
        ],
    };
    let q = restore_at(file, at(77)).unwrap();
    assert_eq!(q.items[0].enqueued_at, at(1_577_836_800));
    assert!(q.items.iter().all(|i| i.id != 3));
    assert_eq!(q.get(4).unwrap().enqueued_at, at(77));
    assert_eq!(q.next_id, 8);
    let q = restore(StateFile { version: 0, next_id: 5, items: vec![] }).unwrap();
    assert_eq!(q.next_id, 5);
    let r = restore(StateFile { version: 2, next_id: 5, items: vec![] });
    assert!(matches!(r, Err(RestoreError::UnknownVersion(2))));
}

#[test]
fn ids_need_a_successor_where_they_are_restored() {
    let file = |version: u64, status: &str| StateFile {
        version,
        next_id: 1,
        items: vec![saved(u64::MAX, status, "")],
    };
    assert!(!file(1, "done").fits());
    assert!(file(1, "dancing").fits());
    assert!(file(2, "done").fits());
    assert_eq!(restore_at(file(1, "dancing"), at(0)).unwrap().items.len(), 0);
    let r = restore_at(file(2, "done"), at(0));
    assert!(matches!(r, Err(RestoreError::UnknownVersion(2))));
}

#[test]
fn times_with_an_offset_come_back() {
    let mut q = Queue::new();
    let stamps = [
        Stamp { nanos: -1, offset: 0 },
        Stamp { nanos: 1_700_000_000_000_000_001, offset: -34_200 },
        Stamp { nanos: -62_167_219_200_000_000_000, offset: 0 },
        Stamp { nanos: 253_402_300_799_999_999_999, offset: 0 },
    ];
    for t in stamps {
        let _ = q.enqueue_at("u".into(), None, None, t);
    }
    let r = restore_at(snapshot(q.next_id, &q.items), at(5)).unwrap();
    for (item, t) in r.items.iter().zip(stamps) {
        assert_eq!(item.enqueued_at, t);
    }
}

#[test]
fn bad_files_are_put_aside() {
    assert_eq!(bad_name("queue.json", 1700000000), "queue.json.bad-1700000000");
}

fn cli() -> Cli {
    Cli {
        download_dir: None,
        cookies_browser: "firefox".into(),
        yt_dlp: "yt-dlp".into(),
        ffmpeg: "ffmpeg".into(),
        ffprobe: "ffprobe".into(),
        state_file: None,
        cache_dir: None,
        addr: "127.0.0.1:8080".into(),
        bind_all: false,
        sleep: 0,
        timeout: None,
        verbose: false,
    }
}

#[test]
fn defaults_lie_below_the_home_directory() {
    let c = cli().into_config();
    assert!(matches!(c.download_dir, Place::UnderHome(p) if p == "Downloads"));
    assert!(matches!(c.state_file, Place::UnderHome(p) if p == ".local/share/web-dl/queue.json"));
    assert_eq!(c.cookies_browser.as_deref(), Some("firefox"));
    assert_eq!(c.addr, "127.0.0.1:8080");
}

#[test]
fn options_are_resolved() {
    let c = Cli {
        download_dir: Some("~/v".into()),
        cookies_browser: "NoNe".into(),
        state_file: Some("/s.json".into()),
        addr: "127.0.0.1:9000".into(),
        bind_all: true,
        timeout: Some(5),
        ..cli()
    }
    .into_config();
    assert!(matches!(c.download_dir, Place::UnderHome(p) if p == "v"));
    assert!(matches!(c.state_file, Place::Plain(p) if p == "/s.json"));
    assert!(c.cookies_browser.is_none());
    assert_eq!(c.addr, "0.0.0.0:9000");
    assert_eq!(c.timeout, Some(5));
    assert!(matches!(expand_tilde("~"), Place::Home));
    assert!(matches!(expand_tilde("~x"), Place::Plain(p) if p == "~x"));
    let all = bind_warning("0.0.0.0:1", true, "/dl");
    assert!(all.starts_with("WARNING: --bind-all binds 0.0.0.0. Anyone who can reach this machine"));
    assert!(all.contains("download any file in /dl, and delete files"));
    let one = bind_warning("192.168.1.5:8080", false, "/dl");
    assert!(one.starts_with("WARNING: --addr binds 192.168.1.5:8080. Anyone"));
    assert!(!warns(Host::V4(127, 0, 0, 1), false));
    assert!(!warns(Host::V4(127, 9, 8, 7), false));
    assert!(!warns(Host::V6(1), false));
    assert!(warns(Host::V4(0, 0, 0, 0), false));
    assert!(warns(Host::V4(192, 168, 1, 5), false));
    assert!(warns(Host::V6(0), false));
    assert!(warns(Host::V4(127, 0, 0, 1), true));
    assert_eq!(log_filter(false), "info");
    assert_eq!(log_filter(true), "web_dl=debug,info");
}

fn shown(args: Vec<Arg>) -> Vec<String> {
    args.into_iter()
        .map(|a| match a {
            Arg::Text(s) => s,
            Arg::DownloadDir => "DIR".to_string(),
            Arg::Sidefile => "SIDE".to_string(),
        })
        .collect()
}

#[test]
fn arguments_of_yt_dlp() {
    let url = "https://u/?a=1&b=2; echo x";
    let args = shown(build(Some("firefox"), url));
    assert_eq!(args[..2], ["--cookies-from-browser", "firefox"]);
    assert_eq!(args.last().unwrap(), url);
    assert_eq!(args.iter().filter(|a| a.contains("u/?a")).count(), 1);
    let p = args.iter().position(|a| a == "-P").unwrap();
    assert_eq!(args[p + 1], "DIR");
    assert_eq!(
        shown(build_probe(None, url)),
        ["--flat-playlist", "-j", "--no-progress", url]
    );
    assert_eq!(after_move_sidefile(7), "yt-dl-webui-7-after-move.json");
}
