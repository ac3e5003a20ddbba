use yt_downloader_webui::clock::Stamp;
use yt_downloader_webui::double::Double;
use yt_downloader_webui::library::FileQuery;
use yt_downloader_webui::media::{
    parse, parse_fraction, FfprobeFormat, FfprobeOutput, FfprobeStream, MediaInfo,
};
use yt_downloader_webui::render::{
    esc, human_bytes, human_duration, human_eta, human_speed, media_video_str, render_ack,
    render_item_page, render_log_line, render_log_lines,
};
use yt_downloader_webui::state::QueueItem;
use yt_downloader_webui::thumb::{
    cache_candidates, cache_hit, cache_name, etag_of, ext_for, extract_args, frame_count,
    frame_name, frame_plan, frame_time, next_frame, resolve, sha1_hex, temp_name, FrameArg,
    FrameStep,
};
use yt_downloader_webui::library;

fn d(x: f64) -> Double {
    Double { bits: x.to_bits() }
}

fn f(x: Double) -> f64 {
    f64::from_bits(x.bits)
}

#[test]
fn parse_picks_video_and_audio_streams() {
    let out = FfprobeOutput {
        streams: vec![
            FfprobeStream {
                codec_type: Some("audio".into()),
                codec_name: Some("aac".into()),
                width: None,
                height: None,
                avg_frame_rate: None,
                r_frame_rate: None,
            },
            FfprobeStream {
                codec_type: Some("video".into()),
                codec_name: Some("h264".into()),
                width: Some(1920),
                height: Some(1080),
                avg_frame_rate: Some("30000/1001".into()),
                r_frame_rate: Some("30000/1001".into()),
            },
        ],
        format: FfprobeFormat {
            duration: Some("600.500".into()),
            bit_rate: Some("2800000".into()),
            format_name: Some("mov,mp4,m4a,3gp,3g2,mj2".into()),
            ..FfprobeFormat::default()
        },
    };
    let m = parse(out);
    assert!(m.has_video());
    assert_eq!(m.video_codec.as_deref(), Some("h264"));
    assert_eq!(m.audio_codec.as_deref(), Some("aac"));
    assert_eq!(m.width, Some(1920));
    assert_eq!(m.height, Some(1080));
    assert_eq!(m.resolution_str().as_deref(), Some("1920x1080"));
    assert!((f(m.duration.unwrap()) - 600.5).abs() < 1e-6);
    assert!((f(m.fps.unwrap()) - 29.97).abs() < 1e-2);
    assert_eq!(m.bit_rate, Some(2_800_000));
    assert_eq!(m.bitrate_str().as_deref(), Some("2.80 Mb/s"));
}

#[test]
fn parse_audio_only_has_no_video() {
    let out = FfprobeOutput {
        streams: vec![FfprobeStream {
            codec_type: Some("audio".into()),
            codec_name: Some("opus".into()),
            width: None,
            height: None,
            avg_frame_rate: None,
            r_frame_rate: None,
        }],
        format: FfprobeFormat::default(),
    };
    let m = parse(out);
    assert!(!m.has_video());
    assert!(m.video_codec.is_none());
}

#[test]
fn parse_fraction_handles_zero_zero_and_garbage() {
    assert!(parse_fraction(&Some("0/0".into())).is_none());
    assert!(parse_fraction(&Some("garbage".into())).is_none());
    assert!(parse_fraction(&None).is_none());
    assert!((f(parse_fraction(&Some("60/1".into())).unwrap()) - 60.0).abs() < 1e-6);
}

#[test]
fn bitrate_str_uses_kb_under_one_mbps() {
    let mut m = MediaInfo::default();
    m.bit_rate = Some(128_000);
    assert_eq!(m.bitrate_str().as_deref(), Some("128 kb/s"));
    m.bit_rate = Some(1_500_000);
    assert_eq!(m.bitrate_str().as_deref(), Some("1.50 Mb/s"));
    m.bit_rate = None;
    assert!(m.bitrate_str().is_none());
}

#[test]
fn sha1_hex_matches_reference() {
    // sha1("hello") = aaf4c61ddcc5e8a2dabede0f3b482cd9aea9434d
    assert_eq!(
        sha1_hex("hello"),
        "aaf4c61ddcc5e8a2dabede0f3b482cd9aea9434d"
    );
    assert_eq!(etag_of(b"hello"), "\"aaf4c61ddcc5e8a2dabede0f3b482cd9aea9434d\"");
}

#[test]
fn sha1_hex_is_lowercase_hex_40() {
    let h = sha1_hex("https://i.ytimg.com/vi/abc/hqdefault.jpg");
    assert_eq!(h.len(), 40);
    assert!(h.bytes().all(|b| b.is_ascii_hexdigit()));
    assert_eq!(h, h.to_ascii_lowercase());
}

#[test]
fn frame_count_scales_with_duration() {
    // Unknown / non-positive duration -> 1 frame (single fallback).
    assert_eq!(frame_count(None), 1);
    assert_eq!(frame_count(Some(d(0.0))), 1);
    assert_eq!(frame_count(Some(d(-1.0))), 1);
    // `2 + slope*log2(d/10)`, slope=14/log2(360).
    // 10s -> 2 (anchor); anything shorter floors at 2.
    assert_eq!(frame_count(Some(d(2.0))), 2);
    assert_eq!(frame_count(Some(d(10.0))), 2);
    // log2(60/10)=log2(6)~2.585 -> 2 + 1.648*2.585~6.26 -> 6.
    assert_eq!(frame_count(Some(d(60.0))), 6);
    // log2(60)~5.907 -> 2 + 1.648*5.907~11.74 -> 11.
    assert_eq!(frame_count(Some(d(600.0))), 11);
    // 1h is the upper anchor -> exactly 16.
    assert_eq!(frame_count(Some(d(3600.0))), 16);
    // log2(8640)~13.077 -> 2 + 1.648*13.077~23.55 -> 23.
    assert_eq!(frame_count(Some(d(86400.0))), 23);
}

#[test]
fn frame_count_follows_the_logarithm() {
    let slope = 14.0 / 360f64.log2();
    let mut last = 0;
    for n in 1..4000 {
        let x = n as f64 * 7.3;
        let exact = 2.0 + slope * (x / 10.0).log2();
        // Rounding errors of the logarithm matter only next to a whole number.
        if (exact - exact.round()).abs() > 1e-9 {
            assert_eq!(frame_count(Some(d(x))), (exact.floor() as usize).max(2), "{x}");
        }
        assert!(frame_count(Some(d(x))) >= last);
        last = frame_count(Some(d(x)));
    }
    assert_eq!(frame_count(Some(d(f64::NAN))), 1);
    assert_eq!(frame_count(Some(d(5e-324))), 2);
}

#[test]
fn frames_are_spread_inside_the_video() {
    assert_eq!(f(frame_time(0, 1, Some(d(10.0)))), 5.0);
    assert_eq!(f(frame_time(1, 3, Some(d(10.0)))), 5.0);
    assert_eq!(f(frame_time(2, 6, Some(d(61.7)))), 3.0 * 61.7 / 7.0);
    assert_eq!(f(frame_time(0, 1, None)), 0.0);
    assert_eq!(f(frame_time(4, 9, Some(d(-3.0)))), 0.0);
}

#[test]
fn frame_arguments_in_order() {
    let shown: Vec<String> = extract_args(d(12.5))
        .into_iter()
        .map(|a| match a {
            FrameArg::Text(s) => s,
            FrameArg::Video => "VIDEO".to_string(),
            FrameArg::Output => "OUT".to_string(),
        })
        .collect();
    assert_eq!(
        shown,
        ["-y", "-ss", "12.500", "-i", "VIDEO", "-frames:v", "1", "-q:v", "2", "OUT"]
    );
}

fn parts(names: &[&str]) -> Option<Vec<Vec<u8>>> {
    Some(names.iter().map(|n| n.as_bytes().to_vec()).collect())
}

#[test]
fn resolve_rejects_traversal() {
    let dir = || parts(&["/", "cache"]);
    // a real file inside the cache dir resolves
    assert!(resolve(dir(), parts(&["/", "cache", "ok.jpg"]), "ok.jpg").is_some());
    // unsafe names never resolve
    assert!(resolve(dir(), parts(&["/", "etc", "passwd"]), "../etc/passwd").is_none());
    assert!(resolve(dir(), parts(&["/", "cache", "..\\x"]), "..\\x").is_none());
    assert!(resolve(dir(), parts(&["/", "cache", ".hidden"]), ".hidden").is_none());
    assert!(resolve(dir(), parts(&["/", "cache", "a", "b"]), "a/b").is_none());
    assert!(resolve(dir(), dir(), "").is_none());
}

#[test]
fn resolve_needs_a_file_below_the_directory() {
    let dir = || parts(&["/", "cache"]);
    assert!(resolve(dir(), None, "ok.jpg").is_none());
    assert!(resolve(None, parts(&["/", "cache", "ok.jpg"]), "ok.jpg").is_none());
    // A link that leads elsewhere.
    assert!(resolve(dir(), parts(&["/", "etc", "ok.jpg"]), "ok.jpg").is_none());
    assert!(resolve(dir(), parts(&["/", "cache2", "ok.jpg"]), "ok.jpg").is_none());
    assert_eq!(
        library::resolve_safe(dir(), parts(&["/", "cache", "ok.jpg"]), "ok.jpg"),
        parts(&["/", "cache", "ok.jpg"])
    );
}

#[test]
fn thumbnail_extensions() {
    assert_eq!(ext_for(Some("image/png"), "x"), "png");
    assert_eq!(ext_for(Some(" Image/JPEG ; q=1"), "x.png"), "jpg");
    assert_eq!(ext_for(Some("image/webp"), "x"), "webp");
    assert_eq!(ext_for(Some("image/gif"), "x"), "gif");
    assert_eq!(ext_for(Some("text/html"), "https://h/a.WEBP?x=1.png"), "webp");
    assert_eq!(ext_for(None, "https://h/a.jpeg"), "jpg");
    assert_eq!(ext_for(None, "https://h/a"), "jpg");
}

#[test]
fn cache_names() {
    assert_eq!(cache_name("abc", "png"), "abc.png");
    let names = cache_candidates("abc");
    assert_eq!(names[0], "abc.jpg");
    assert!(names.contains(&"abc.webp".to_string()));
    let mut there = vec![false; names.len()];
    assert_eq!(cache_hit("abc", &there), None);
    there[1] = true;
    there[2] = true;
    assert_eq!(cache_hit("abc", &there), Some(names[1].clone()));
    assert_eq!(frame_name("abc", 12), "abc.12.jpg");
    assert_eq!(temp_name("abc.jpg"), "abc.jpg.tmp");
}

#[test]
fn sizes_for_a_reader() {
    assert_eq!(human_bytes(0), "0 B");
    assert_eq!(human_bytes(1023), "1023 B");
    assert_eq!(human_bytes(1024), "1.0 KiB");
    assert_eq!(human_bytes(1536), "1.5 KiB");
    assert_eq!(human_bytes(5 * 1024 * 1024), "5.0 MiB");
    let units = ["B", "KiB", "MiB", "GiB", "TiB"];
    let mut n: u64 = 1;
    for k in 0..2000u64 {
        n = n.wrapping_mul(6364136223846793005).wrapping_add(1442695040888963407);
        let m = n >> (k % 64);
        let mut f = m as f64;
        let mut i = 0;
        while f >= 1024.0 && i < 4 {
            f /= 1024.0;
            i += 1;
        }
        let want = if i == 0 { format!("{m} B") } else { format!("{f:.1} {}", units[i]) };
        assert_eq!(human_bytes(m), want);
    }
    let m = MediaInfo { size: Some(2048), ..MediaInfo::default() };
    assert_eq!(m.size_str().as_deref(), Some("2.0 KiB"));
}

#[test]
fn rates_and_times_for_a_reader() {
    assert_eq!(human_speed(Some(d(2048.0))), "2.0 KiB/s");
    assert_eq!(human_speed(Some(d(0.0))), "");
    assert_eq!(human_speed(None), "");
    assert_eq!(human_eta(Some(d(35.9))), "00:35");
    assert_eq!(human_eta(Some(d(0.0))), "00:00");
    assert_eq!(human_eta(Some(d(-0.5))), "");
    assert_eq!(human_eta(Some(d(f64::NAN))), "");
    assert_eq!(human_eta(Some(d(3661.0))), "1:01:01");
    assert_eq!(human_duration(Some(d(3623.0))), "1:00:23");
    assert_eq!(human_duration(Some(d(61.0))), "1:01");
    assert_eq!(human_duration(Some(d(0.0))), "");
    assert_eq!(human_duration(None), "");
}

#[test]
fn escaping_for_html() {
    assert_eq!(esc("<a href=\"x\">'&"), "&lt;a href=&quot;x&quot;&gt;&#39;&amp;");
    assert_eq!(esc("plain \u{2014} text"), "plain \u{2014} text");
    assert!(render_log_line("a<b").contains("a&#60;b"));
    assert!(render_ack("x & y", true).contains("x &#38; y"));
    let lines = vec!["one".to_string(), "two".to_string()];
    let html = render_log_lines(&lines);
    assert!(html.find("one").unwrap() < html.find("two").unwrap());
}

#[test]
fn video_line_of_a_page() {
    let m = MediaInfo {
        video_codec: Some("h264".into()),
        width: Some(640),
        height: Some(360),
        fps: Some(d(29.97)),
        ..MediaInfo::default()
    };
    let s = media_video_str(&m).unwrap();
    assert!(s.contains("h264"));
    assert!(s.contains("640x360"));
    assert!(media_video_str(&MediaInfo::default()).is_none());
}

#[test]
fn page_shows_when_an_item_was_added() {
    let item = QueueItem::at(3, "u".into(), Stamp { nanos: 1_700_000_000_000_000_000, offset: 0 });
    assert!(render_item_page(&item).contains("2023-11-14 22:13"));
}

#[test]
fn files_are_sent_whole_or_in_part() {
    let q = FileQuery::default();
    let head = |r: &library::Reply, k: &str| {
        r.headers.iter().find(|(n, _)| n == k).map(|(_, v)| v.clone())
    };
    let r = library::serve_file("a.mp4", "/d/a.mp4", &q, 100, None);
    assert_eq!((r.status, r.start, r.len), (200, 0, 100));
    assert_eq!(head(&r, "content-type").as_deref(), Some("video/mp4"));
    assert_eq!(
        head(&r, "content-disposition").as_deref(),
        Some("attachment; filename=\"a.mp4\"")
    );
    assert_eq!(head(&r, "content-length").as_deref(), Some("100"));
    assert_eq!(head(&r, "content-range"), None);
    let inline = FileQuery { inline: Some("1".into()) };
    let r = library::serve_file("a.bin\"", "/d/none", &inline, 100, Some("bytes=10-19"));
    assert_eq!((r.status, r.start, r.len), (206, 10, 10));
    assert_eq!(head(&r, "content-type").as_deref(), Some("application/octet-stream"));
    assert_eq!(
        head(&r, "content-disposition").as_deref(),
        Some("inline; filename=\"a.bin&quot;\"")
    );
    assert_eq!(head(&r, "content-range").as_deref(), Some("bytes 10-19/100"));
    let r = library::serve_file("a", "/d/a.webm", &q, 100, Some("bytes=90-"));
    assert_eq!((r.status, r.start, r.len), (206, 90, 10));
    let r = library::serve_file("a", "/d/a.webm", &q, 100, Some("bytes=100-"));
    assert_eq!((r.status, r.start, r.len), (200, 0, 100));
    let r = library::serve_file("a", "/d/a.webm", &q, 0, Some("bytes=0-"));
    assert_eq!((r.status, r.start, r.len), (200, 0, 0));
}

#[test]
fn range_headers() {
    assert_eq!(library::parse_range("bytes=0-0"), Some((0, 0)));
    assert_eq!(library::parse_range("bytes=5-"), Some((5, u64::MAX)));
    assert_eq!(library::parse_range("bytes=5-4"), None);
    assert_eq!(library::parse_range("bytes=-5"), None);
    assert_eq!(library::parse_range("bytes=1-2,4-5"), None);
    assert_eq!(library::parse_range("items=1-2"), None);
    assert_eq!(library::parse_range("bytes=12"), None);
}

#[test]
fn library_is_sorted_newest_first() {
    let file = |name: &str, secs: i128| library::LibraryFile {
        name: name.to_string(),
        size: 1,
        mtime: Stamp { nanos: secs * 1_000_000_000, offset: 0 },
    };
    let r = library::list(vec![
        file("a.mp4", 1),
        file("b.mp4", 3),
        file(".hidden", 9),
        file("c.mp4", 3),
        file("d.part", 8),
        file("e.mp4", 2),
    ]);
    let names: Vec<&str> = r.iter().map(|f| f.name.as_str()).collect();
    assert_eq!(names, ["b.mp4", "c.mp4", "e.mp4", "a.mp4"]);
    assert!(!library::listed(".hidden"));
    assert!(!library::listed("d.part"));
}

#[test]
fn deletions_are_reported() {
    assert!(library::delete_file("x", &library::Deletion::Missing).contains("no such file"));
    assert!(library::delete_file("x<", &library::Deletion::Deleted).contains("deleted x&#60;"));
    let r = library::delete_file("x", &library::Deletion::Failed("busy".into()));
    assert!(r.contains("failed to delete x: busy"));
}

#[test]
fn unsafe_names() {
    for n in ["", ".", "..", ".x", "a/b", "a\\b", "a\0b"] {
        assert!(!library::is_safe_name(n), "{n:?}");
    }
    assert!(library::is_safe_name("a..b"));
    assert!(library::is_safe_name("Video #1 (HQ).webm"));
}

#[test]
fn frames_are_planned_by_name_and_time() {
    let plan = frame_plan("clip.mp4", Some(d(2.0)));
    assert_eq!(plan.len(), 2);
    assert_eq!(plan[0].0, format!("{}.0.jpg", sha1_hex("clip.mp4")));
    assert_eq!(plan[1].0, format!("{}.1.jpg", sha1_hex("clip.mp4")));
    assert_eq!(f(plan[0].1), 2.0 / 3.0);
    assert_eq!(f(plan[1].1), 2.0 * 2.0 / 3.0);
    let plan = frame_plan("clip.mp4", None);
    assert_eq!(plan.len(), 1);
    assert_eq!(f(plan[0].1), 0.0);
}

#[test]
fn a_part_of_the_frames_is_better_than_none() {
    let plan = frame_plan("clip.mp4", Some(d(60.0)));
    assert_eq!(plan.len(), 6);
    assert!(matches!(next_frame(&plan, &[]), FrameStep::Extract(0)));
    assert!(matches!(next_frame(&plan, &[true, true]), FrameStep::Extract(2)));
    assert!(matches!(next_frame(&plan, &[false]), FrameStep::Empty));
    // The first failure ends the run with what landed so far.
    match next_frame(&plan, &[true, true, false]) {
        FrameStep::Over(names) => {
            assert_eq!(names, vec![plan[0].0.clone(), plan[1].0.clone()]);
        }
        other => panic!("expected Over, got {other:?}"),
    }
    match next_frame(&plan, &[true; 6]) {
        FrameStep::Over(names) => assert_eq!(names.len(), 6),
        other => panic!("expected Over, got {other:?}"),
    }
    assert!(matches!(next_frame(&vec![], &[]), FrameStep::Empty));
}

#[test]
fn longer_videos_have_no_fewer_frames() {
    for (a, b) in [(9.99, 10.0), (3599.9, 3600.0), (5e-324, 1e-300), (1e300, 1.7e308)] {
        assert!(frame_count(Some(d(a))) <= frame_count(Some(d(b))));
    }
}

#[test]
fn the_library_is_listed() {
    let file = |name: &str| library::LibraryFile {
        name: name.to_string(),
        size: 44_040_192,
        mtime: Stamp { nanos: 1_700_000_000_000_000_000, offset: 0 },
    };
    let ev = library::listing(&vec![file("a & b.mp4"), file("c.mp4")]);
    assert_eq!(ev.name(), "library");
    let html = ev.data();
    assert!(html.contains("library (2 files)"));
    assert!(html.contains("a &#38; b.mp4"));
    assert!(html.contains(">42.0 MiB<"));
    assert!(html.contains("2023-11-14 22:13"));
    assert!(html.contains("href=\"/file/a%20%26%20b.mp4?inline=1\""));
    assert!(html.contains("href=\"/file/c.mp4?download=1\""));
    assert!(html.contains("hx-post=\"/delete/c.mp4\""));
    assert!(html.find("a &#38; b.mp4").unwrap() < html.find("c.mp4").unwrap());
    assert!(library::listing(&vec![]).data().contains("library (0 files)"));
    assert!(library::changes_listing(&library::Deletion::Deleted));
    assert!(!library::changes_listing(&library::Deletion::Missing));
    assert!(!library::changes_listing(&library::Deletion::Failed("e".into())));
}
