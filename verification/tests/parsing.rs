use yt_downloader_webui::double::Double;
use yt_downloader_webui::number::{parse_float, parse_u64};
use yt_downloader_webui::parse::{parse_flat_line, parse_line, ParsedLine};
use yt_downloader_webui::state::Progress;
use yt_downloader_webui::text;
use yt_downloader_webui::worker::after_move_filename;

fn d(x: f64) -> Double {
    Double { bits: x.to_bits() }
}

fn f(x: Double) -> f64 {
    f64::from_bits(x.bits)
}

const DOWNLOADING_LINE: &str = r#"{"status": "downloading", "downloaded_bytes": 2096128, "total_bytes": 61878609, "tmpfilename": "/tmp/x.webm.part", "filename": "/tmp/x.webm", "eta": 35, "speed": 1686945.1497892805, "elapsed": 2.2881102561950684, "ctx_id": null, "_eta_str": "00:35", "_speed_str": "   1.61MiB/s", "_percent": 3.3874840334565373, "_percent_str": "  3.4%", "_total_bytes_str": "  59.01MiB", "_downloaded_bytes_str": "   2.00MiB", "_elapsed_str": "00:00:02"}"#;

const FINISHED_LINE: &str = r#"{"downloaded_bytes": 61878609, "total_bytes": 61878609, "filename": "/tmp/x.webm", "status": "finished", "elapsed": 10.32468557357788, "ctx_id": null, "speed": 5993268.129961734, "_speed_str": "5.72MiB/s", "_percent": 100.0, "_percent_str": "100.0%"}"#;

#[test]
fn classifies_progress_line_as_progress() {
    match parse_line(DOWNLOADING_LINE) {
        ParsedLine::Progress(p) => {
            assert_eq!(p.status.as_deref(), Some("downloading"));
            assert_eq!(p.filename.as_deref(), Some("/tmp/x.webm"));
            assert_eq!(p.tmpfilename.as_deref(), Some("/tmp/x.webm.part"));
            assert_eq!(p.downloaded_bytes, Some(d(2096128.0)));
            assert_eq!(p.total_bytes, Some(d(61878609.0)));
            assert_eq!(p.speed, Some(d(1686945.1497892805)));
            assert_eq!(p.eta, Some(d(35.0)));
            // Numeric `_percent` preferred over the string form.
            assert_eq!(p.percent, Some(d(3.3874840334565373)));
            assert!((f(p.percent().unwrap()) - 3.387_484).abs() < 0.01);
        }
        other => panic!("expected Progress, got {other:?}"),
    }
}

#[test]
fn classifies_finished_line_as_progress() {
    match parse_line(FINISHED_LINE) {
        ParsedLine::Progress(p) => {
            assert_eq!(p.status.as_deref(), Some("finished"));
            assert!((f(p.percent().unwrap()) - 100.0).abs() < f64::EPSILON);
        }
        other => panic!("expected Progress, got {other:?}"),
    }
}

#[test]
fn classifies_info_line_as_log() {
    let line = "[download] Destination: /tmp/x.webm";
    match parse_line(line) {
        ParsedLine::Log(s) => assert_eq!(s, line),
        other => panic!("expected Log, got {other:?}"),
    }
}

#[test]
fn classifies_error_line_as_log() {
    let line = "ERROR: [youtube] BaW_jenozKc: Video unavailable";
    match parse_line(line) {
        ParsedLine::Log(s) => assert_eq!(s, line),
        other => panic!("expected Log, got {other:?}"),
    }
}

#[test]
fn json_without_status_field_is_log() {
    let line = r#"{"filename": "/tmp/x.webm", "_default_template": "100%"}"#;
    match parse_line(line) {
        ParsedLine::Log(s) => assert_eq!(s, line),
        other => panic!("expected Log, got {other:?}"),
    }
}

#[test]
fn malformed_json_is_log() {
    let line = "{not actually json";
    assert!(matches!(parse_line(line), ParsedLine::Log(_)));
}

#[test]
fn percent_falls_back_to_bytes_when_no_percent_field() {
    let p = Progress {
        downloaded_bytes: Some(d(50.0)),
        total_bytes: Some(d(200.0)),
        ..Default::default()
    };
    assert!((f(p.percent().unwrap()) - 25.0).abs() < f64::EPSILON);
}

#[test]
fn percent_is_held_between_zero_and_a_hundred() {
    let of = |x: f64| {
        let p = Progress { percent: Some(d(x)), ..Default::default() };
        f(p.percent().unwrap())
    };
    assert_eq!(of(-3.0), 0.0);
    assert_eq!(of(0.0), 0.0);
    assert_eq!(of(100.0), 100.0);
    assert_eq!(of(100.00000000000001), 100.0);
    assert_eq!(of(99.99999999999999), 99.99999999999999);
    assert_eq!(of(f64::INFINITY), 100.0);
    assert_eq!(of(f64::NEG_INFINITY), 0.0);
    assert!(of(f64::NAN).is_nan());
}

#[test]
fn percent_reads_text_and_estimates() {
    let p = Progress { percent_str: Some("  73.5%".to_string()), ..Default::default() };
    assert_eq!(f(p.percent().unwrap()), 73.5);
    let p = Progress {
        percent_str: Some("N/A".to_string()),
        downloaded_bytes: Some(d(1.0)),
        total_bytes_estimate: Some(d(3.0)),
        ..Default::default()
    };
    assert_eq!(f(p.percent().unwrap()), 1.0 / 3.0 * 100.0);
    let p = Progress {
        downloaded_bytes: Some(d(1.0)),
        total_bytes: Some(d(0.0)),
        total_bytes_estimate: Some(d(3.0)),
        ..Default::default()
    };
    assert!(p.percent().is_none());
    assert!(Progress::default().percent().is_none());
}

#[test]
fn progress_numbers_may_be_text_or_fractions() {
    let line = r#"  {"status": "x", "speed": "12.5", "eta": "soon", "fragment_index": 3, "fragment_count": 7.9}  "#;
    match parse_line(line) {
        ParsedLine::Progress(p) => {
            assert_eq!(p.speed, Some(d(12.5)));
            assert_eq!(p.eta, None);
            assert_eq!(p.fragment_index, Some(3));
            assert_eq!(p.fragment_count, Some(7));
            assert_eq!(p.filename, None);
        }
        other => panic!("expected Progress, got {other:?}"),
    }
}

#[test]
fn flat_lines_are_entries() {
    let e = parse_flat_line(
        r#"{"_type": "url", "url": "https://w/1", "title": "One", "duration": 61.5, "thumbnail": "https://t/1.jpg"}"#,
    )
    .unwrap();
    assert!(e.is_playlist_entry());
    assert_eq!(e.url.as_deref(), Some("https://w/1"));
    assert_eq!(e.title.as_deref(), Some("One"));
    assert_eq!(e.duration, Some(d(61.5)));
    assert_eq!(e.thumbnail.as_deref(), Some("https://t/1.jpg"));
    let v = parse_flat_line(r#"{"_type": "video", "url": "https://media", "title": null}"#).unwrap();
    assert!(!v.is_playlist_entry());
    assert!(v.title.is_none());
    assert!(!parse_flat_line(r#"{"_type": "url"}"#).unwrap().is_playlist_entry());
    assert!(parse_flat_line("WARNING: x").is_none());
    assert!(parse_flat_line("[1]").is_none());
}

#[test]
fn floats_are_read_as_std_reads_them() {
    let texts = [
        "0", "-0", "1", "+1", "1.5", ".5", "5.", ".", "", "+", "-", "e5", "1e", "1e+", "1e5",
        "1E-5", "1.e3", ".5e1", "inf", "-inf", "Infinity", "infinit", "nan", "NaN", "nanx",
        "0x10", "1_000", " 1", "1 ", "123456789012345678901234567890", "0.1", "0.2", "0.3",
        "2.2250738585072014e-308", "2.2250738585072011e-308", "4.9e-324", "5e-324", "2.4e-324",
        "2.5e-324", "1e-400", "1.7976931348623157e308", "1.7976931348623159e308", "1e309",
        "9007199254740993", "9007199254740992.999999999999999", "1e23", "8.5e22",
        "0.000000000000000000000000000000000000001", "1e99999999999999999999999999999999999",
        "1e-99999999999999999999999999999999999", "0e99999999999999999999999999999999999",
        "00000000000000000000001", "179769313486231580793728971405303415079934132710037826936173778980444968292764750946649017977587207096330286416692887910946555547851940402630657488671505820681908902000708383676273854845817711531764475730270069855571366959622842914819860834936475292719074168444365510704342711559699508093042880",
    ];
    for t in texts {
        let want = t.parse::<f64>().ok().map(|x| x.to_bits());
        let got = parse_float(t).map(|x| x.bits);
        assert_eq!(got, want, "{t}");
    }
}

#[test]
fn doubles_compute_as_the_machine_does() {
    let xs = [
        0.0, 1.0, 3.0, 100.0, 1e-310, 5e-324, 1e308, 0.1, 123.456, -7.25, 1e-200, 9.87e200,
        f64::INFINITY, f64::NEG_INFINITY, f64::NAN,
    ];
    for a in xs {
        for b in xs {
            let q = f(d(a).div(d(b)));
            assert!(q.to_bits() == (a / b).to_bits() || (q.is_nan() && (a / b).is_nan()), "{a}/{b}");
            let p = f(d(a).mul(d(b)));
            assert!(p.to_bits() == (a * b).to_bits() || (p.is_nan() && (a * b).is_nan()), "{a}*{b}");
        }
        assert_eq!(d(a).trunc(), a as u64);
        for places in 0..=3 {
            let want = format!("{:.*}", places as usize, a);
            assert_eq!(d(a).to_fixed(places), want);
        }
    }
    for x in [0.5, 1.5, 2.5, 0.125, 0.375, 2.675, 1e22, 18446744073709551615.0, 1.8e19] {
        assert_eq!(d(x).to_fixed(0), format!("{x:.0}"));
        assert_eq!(d(x).to_fixed(2), format!("{x:.2}"));
        assert_eq!(d(x).trunc(), x as u64);
    }
    for n in [0u64, 1, 1 << 53, (1 << 53) + 1, u64::MAX, 12345678901234567] {
        assert_eq!(f(Double::from_u64(n)), n as f64);
    }
}

#[test]
fn exact_text_reads_back() {
    for x in [0.0, 1.0, -2.5, 0.1, 3623.0, 1e300, 5e-324, 123.456] {
        let t = d(x).exact_text();
        assert_eq!(t.parse::<f64>().unwrap().to_bits(), x.to_bits());
        assert_eq!(parse_float(&t), Some(d(x)));
    }
}

#[test]
fn unsigned_integers_are_read_as_std_reads_them() {
    for t in ["0", "+7", "-7", "", "+", "18446744073709551615", "18446744073709551616", "1a", "007"] {
        assert_eq!(parse_u64(t), t.parse::<u64>().ok(), "{t}");
    }
}

#[test]
fn text_helpers() {
    assert_eq!(text::trim("\u{a0}\u{2003} a b\t\u{3000}"), "a b");
    assert_eq!(text::trim(" \n "), "");
    assert_eq!(text::trim_end_matches("a\n\n", '\n'), "a");
    assert_eq!(text::split_once("a-b-c", '-'), Some(("a", "b-c")));
    assert_eq!(text::split_once("abc", '-'), None);
    assert_eq!(text::rsplit_first("/a/b/c", '/'), "c");
    assert_eq!(text::rsplit_first("/a/b/", '/'), "");
    assert_eq!(text::rsplit_first("abc", '/'), "abc");
    assert_eq!(text::strip_line_end("x\r\n"), "x");
    assert_eq!(text::strip_line_end("x\n"), "x");
    assert_eq!(text::strip_line_end("x\r"), "x\r");
    assert_eq!(text::strip_line_end("\n"), "");
    assert_eq!(text::decimal(0), "0");
    assert_eq!(text::decimal(u64::MAX), "18446744073709551615");
    assert_eq!(text::decimal_int(i64::MIN), "-9223372036854775808");
    for n in 0..=0x3100u32 {
        if let Some(c) = char::from_u32(n) {
            let s = c.to_string();
            assert_eq!(text::trim(&s), s.trim());
        }
    }
}

#[test]
fn after_move_report_gives_the_base_name() {
    assert_eq!(
        after_move_filename(
            "{\"status\":\"after_move\",\"filename\":\"/tmp/dl/Big Buck Bunny [aqz-KE-bpKQ].mp4\"}\n"
        ),
        Some("Big Buck Bunny [aqz-KE-bpKQ].mp4".to_string())
    );
    assert_eq!(after_move_filename("not json"), None);
    assert_eq!(after_move_filename(r#"{"status":"after_move"}"#), None);
    assert_eq!(after_move_filename(""), None);
    assert_eq!(after_move_filename("[1]"), None);
}
