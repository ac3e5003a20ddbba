use serde_json::Value;
use yt_downloader_webui::double::Double;
use yt_downloader_webui::parse::FlatEntry;
use yt_downloader_webui::render::{
    render_card, render_cards_count, render_header_input, render_item_gone, render_item_page,
    render_probe_area, render_probe_result, render_queue, status_events, StatusParts,
};
use yt_downloader_webui::state::{ItemStatus, Progress, Queue, QueueItem};

fn d(x: f64) -> Double {
    Double { bits: x.to_bits() }
}

/// The checkbox `value` is an HTML-escaped JSON blob that POST /confirm
/// must be able to deserialise back into `{url,title,duration,thumbnail}`.
fn entry(
    url: &str,
    title: Option<&str>,
    duration: Option<f64>,
    thumbnail: Option<&str>,
) -> FlatEntry {
    FlatEntry {
        _type: Some("url".into()),
        url: Some(url.into()),
        title: title.map(str::to_string),
        duration: duration.map(d),
        thumbnail: thumbnail.map(str::to_string),
    }
}

/// Extract every checkbox `value` attribute (HTML-escaped JSON) from the
/// rendered fragment, as a browser would surface it on form submit.
fn checkbox_values(html: &str) -> Vec<String> {
    let needle = r#"name="entry" value=""#;
    html.match_indices(needle)
        .map(|(i, _)| {
            let start = i + needle.len();
            let rest = &html[start..];
            let end = rest.find('"').unwrap_or(rest.len());
            rest[..end].to_string()
        })
        .collect()
}

fn unescape(s: &str) -> String {
    s.replace("&#34;", "\"")
        .replace("&quot;", "\"")
        .replace("&#38;", "&")
        .replace("&amp;", "&")
        .replace("&#60;", "<")
        .replace("&lt;", "<")
        .replace("&#62;", ">")
        .replace("&gt;", ">")
        .replace("&#39;", "'")
}

/// A playlist probe yields one card per entry; the form posts to
/// /confirm into `#header-input`; checkbox values round-trip with
/// title/duration/thumbnail intact (including HTML-special title chars).
#[test]
fn playlist_result_round_trips() {
    let entries = vec![
        entry(
            "https://www.youtube.com/watch?v=aaa",
            Some("First & <second> \"quoted\""),
            Some(3623.0),
            Some("https://i.ytimg.com/vi/aaa/hqdefault.jpg"),
        ),
        entry("https://www.youtube.com/watch?v=bbb", None, None, None),
    ];
    let html = render_probe_result("https://ignored", &entries, None, None);

    assert!(
        html.contains(r##"hx-post="/confirm""##),
        "posts to /confirm"
    );
    assert!(html.contains(r##"hx-target="#header-input""##));
    assert!(
        html.contains(r##"hx-get="/header""##),
        "cancel restores header"
    );
    assert!(html.contains("Confirm ("));

    let values = checkbox_values(&html);
    assert_eq!(values.len(), 2, "expected 2 cards, got {values:?}");

    let first: Value =
        serde_json::from_str(&unescape(&values[0])).expect("first value decodes");
    assert_eq!(first["url"], "https://www.youtube.com/watch?v=aaa");
    assert_eq!(first["title"].as_str(), Some("First & <second> \"quoted\""));
    assert_eq!(first["duration"].as_f64(), Some(3623.0));
    assert_eq!(
        first["thumbnail"].as_str(),
        Some("https://i.ytimg.com/vi/aaa/hqdefault.jpg")
    );

    let second: Value =
        serde_json::from_str(&unescape(&values[1])).expect("second value decodes");
    assert_eq!(second["url"], "https://www.youtube.com/watch?v=bbb");
    assert!(second["title"].is_null());
    assert!(second["duration"].is_null());
    assert!(second["thumbnail"].is_null());
}

/// A single-video probe yields exactly one card whose checkbox `url` is
/// the *original submitted URL* (not the probe dict's media `url`).
#[test]
fn single_video_result_uses_submitted_url() {
    let single = entry(
        "https://media.example/v/aaa", // media URL -- must NOT be used
        Some("Some Video"),
        Some(99.0),
        Some("https://i.ytimg.com/vi/aaa/hqdefault.jpg"),
    );
    let html = render_probe_result(
        "https://www.youtube.com/watch?v=aaa",
        &[],
        Some(&single),
        None,
    );
    let values = checkbox_values(&html);
    assert_eq!(values.len(), 1, "single video -> one card");
    let e: Value = serde_json::from_str(&unescape(&values[0])).expect("decodes");
    assert_eq!(e["url"], "https://www.youtube.com/watch?v=aaa");
    assert_eq!(e["title"].as_str(), Some("Some Video"));
    assert_eq!(e["duration"].as_f64(), Some(99.0));
}

/// A failed probe (no entries, no single) renders an error line + a Done
/// button that restores the header -- no form, no checkboxes.
#[test]
fn error_result_shows_done_button() {
    let html = render_probe_result("https://x", &[], None, Some("Video unavailable"));
    assert!(html.contains(r#"class="err""#));
    assert!(html.contains("Video unavailable"));
    assert!(html.contains(r##"hx-get="/header""##));
    assert!(html.contains(">Done<"));
    assert!(html.contains("probe-error"));
    assert!(!html.contains("name=\"entry\""), "no checkboxes on error");
}

/// The probe-area shell wires its own SSE stream: `sse-connect` carries
/// the percent-encoded URL (so `&`/`#`/`?`/`"` can't break the query param
/// or the attribute), `sse-swap="log"` appends streaming lines, and
/// `sse-swap="result"` + `sse-close="result"` swap+close on the final card.
#[test]
fn probe_area_shell_streams_and_closes() {
    let html = render_probe_area("https://www.youtube.com/watch?v=aaa&list=PL1&t=2");
    assert!(html.contains(r#"sse-connect="/probe?url="#), "sse-connect");
    // `&`, `=`, `?`, `:`, `/` all encoded in the query value.
    assert!(
        html.contains("https%3A%2F%2Fwww.youtube.com%2Fwatch%3Fv%3Daaa%26list%3DPL1%26t%3D2"),
        "url encoded"
    );
    assert!(html.contains("sse-swap=\"log\""), "sse-swap log");
    assert!(html.contains("hx-swap=\"beforeend\""), "log lines append");
    assert!(html.contains("sse-swap=\"result\""), "sse-swap result");
    assert!(
        html.contains("sse-close=\"result\""),
        "stream closes on result"
    );
    assert!(
        html.contains("hx-get=\"/header\""),
        "cancel restores header"
    );
}

/// The header input form POSTs to /download into `#header-input` (so the
/// input is replaced by the probe area on submit) and carries an inline
/// error when given one.
#[test]
fn header_input_form_targets_download() {
    let ok = render_header_input(None);
    assert!(ok.contains(r##"hx-post="/download""##));
    assert!(ok.contains(r##"hx-target="#header-input""##));
    assert!(ok.contains(r#"name="url""#));
    assert!(!ok.contains("header-err"));

    let err = render_header_input(Some("paste a URL"));
    assert!(err.contains(r#"class="header-err""#));
    assert!(err.contains("paste a URL"));
}

fn item(status: ItemStatus, thumb: Option<&str>) -> QueueItem {
    let mut it = QueueItem::new(7, "https://example/watch?v=x".into());
    it.title = Some("Hello World".into());
    it.duration = Some(d(123.0));
    it.status = status;
    it.thumbnail = thumb.map(str::to_string);
    it
}

/// The card's badge + overlay buttons must be anchored to the thumbnail
/// (`.card-thumb`, the only `position: relative` ancestor), not the
/// viewport.
#[test]
fn card_wraps_thumb_and_anchors_overlay() {
    let html = render_card(&item(ItemStatus::Done, Some("abc.jpg")));

    // The thumb image + badge + overlay are all inside one .card-thumb.
    let thumb_start = html
        .find("<div class=\"card-thumb\">")
        .expect("card-thumb wrapper");
    let thumb_end = html[thumb_start..]
        .find("</div>")
        .map(|e| thumb_start + e)
        .expect("card-thumb close");
    let thumb = &html[thumb_start..thumb_end];
    assert!(
        thumb.contains("<img class=\"card-img\""),
        "img inside thumb"
    );
    assert!(thumb.contains("card-overlay"), "overlay inside thumb");
    assert!(thumb.contains("card-badge"), "badge inside thumb");
}

/// The done card surfaces download/open/delete overlay buttons. The whole
/// card is a stretched link to the details page (no separate "i" button).
/// Buttons are icon-labelled (cached `<img>`s served from /static/icons),
/// so we assert on their `title` tooltips (which also keep the actions
/// accessible) and that an `<img>` is rendered for each.
#[test]
fn done_card_overlay_has_actions() {
    let mut it = item(ItemStatus::Done, None);
    it.filename = Some("video.webm".into());
    let html = render_card(&it);
    assert!(html.contains(r#"title="download to this device"#));
    assert!(html.contains(r#"title="open/preview"#));
    assert!(html.contains(r#"title="delete from server"#));
    // The card itself is a stretched link to the details page.
    assert!(
        html.contains(r#"class="card-link" href="/item/7" target="_blank" rel="noopener""#),
        "stretched link opens details in a new tab"
    );
    assert!(
        !html.contains("/static/icons/info.svg"),
        "no inspect icon anymore"
    );
    // Each action embeds an <img> icon (download/open/delete = 3 icons).
    assert_eq!(
        html.matches("<img").count(),
        3,
        "download/open/delete icons"
    );
    assert!(
        html.contains(r#"src="/static/icons/download.svg"#),
        "download icon url"
    );
    assert!(
        html.contains(r#"src="/static/icons/play.svg"#),
        "open icon url"
    );
    assert!(
        html.contains(r#"src="/static/icons/trash.svg"#),
        "delete icon url"
    );
}

/// Filenames with URL-special chars (spaces, `#`, `?`, `&`, parens) must
/// be percent-encoded in `/file/{name}` hrefs so the browser requests the
/// right path instead of truncating at `#` / starting the query at `?` /
/// splitting params at `&`. The visible confirm text stays human-readable.
#[test]
fn file_links_percent_encode_special_filenames() {
    let mut it = item(ItemStatus::Done, None);
    it.filename = Some("Video #1 (HQ) & more.webm".into());
    let html = render_card(&it);

    // href path segment is percent-encoded; no raw space / # / ? / &.
    assert!(
        html.contains(r#"href="/file/Video%20%231%20%28HQ%29%20%26%20more.webm?download=1"#)
    );
    assert!(html.contains(r#"href="/file/Video%20%231%20%28HQ%29%20%26%20more.webm?inline=1"#));
    assert!(
        !html.contains(r#"href="/file/Video #"#),
        "raw space/# in href"
    );

    // Confirm dialog stays human-readable (HTML-escaped, not %20).
    assert!(
        html.contains(r#"hx-confirm="Delete Video #1 (HQ) &#38; more.webm from the server?"#)
    );
}

/// Pending card surfaces a cancel button (not delete/open/download). The
/// whole card is a stretched link to the details page.
#[test]
fn pending_card_overlay_has_cancel() {
    let html = render_card(&item(ItemStatus::Pending, None));
    assert!(html.contains(r#"title="cancel download"#));
    assert!(
        html.contains(r#"class="card-link" href="/item/7" target="_blank" rel="noopener""#),
        "stretched link opens details in a new tab"
    );
    assert!(!html.contains("/static/icons/info.svg"), "no inspect icon");
    assert_eq!(html.matches("<img").count(), 1, "cancel icon only");
    assert!(
        html.contains(r#"src="/static/icons/stop.svg"#),
        "cancel icon url"
    );
    // No done-state actions on a pending card.
    assert!(!html.contains(r#"title="download to this device"#));
}

/// A failed (or cancelled) card surfaces a retry button *and* a trash
/// button that removes the item from the download history (POST
/// /delete-item/:id -- the item is terminal, so the state file is dropped
/// on the next persist). No file is touched (there is none).
#[test]
fn failed_card_overlay_has_retry_and_trash() {
    let mut it = item(ItemStatus::Failed, None);
    it.error = Some("Video unavailable".into());
    let html = render_card(&it);
    assert!(html.contains(r#"title="retry download"#));
    assert!(
        html.contains(r#"title="remove from history"#),
        "trash tooltip"
    );
    assert!(
        html.contains(r#"hx-post="/delete-item/7""#),
        "trash posts to delete-item"
    );
    // No confirm dialog for a history-only removal (no file to lose).
    assert!(
        !html.contains("hx-confirm"),
        "no confirm for history removal"
    );
    assert!(!html.contains(r#"title="delete from server"#));
    // retry + trash icons.
    assert_eq!(html.matches("<img").count(), 2, "retry + trash icons");
    assert!(html.contains(r#"src="/static/icons/retry.svg"#));
    assert!(html.contains(r#"src="/static/icons/trash.svg"#));
    // The captured error surfaces on the card.
    assert!(html.contains("Video unavailable"));
    // Card is still a stretched link to the details page (new tab).
    assert!(
        html.contains(r#"class="card-link" href="/item/7" target="_blank" rel="noopener""#)
    );
}

/// `StatusParts` produces the six banner-slot fragments for each state:
/// idle (all empty, which hides the banner via CSS), queued (title line
/// only), and active (thumb + title + bar + meta + cancel). `status_events`
/// wraps them in the six targeted `status-*` events in slot order.
#[test]
fn status_parts_states() {
    // Idle: every slot empty (the empty `title` hides the banner).
    let idle = StatusParts::new(None, 0);
    assert_eq!(idle, StatusParts::default());
    let idle_evts = status_events(None, 0);
    assert_eq!(idle_evts.len(), 6);
    assert_eq!(idle_evts[0].name(), "status-thumb");
    assert_eq!(idle_evts[1].name(), "status-title");
    assert_eq!(idle_evts[5].name(), "status-cancel");
    for ev in &idle_evts {
        assert!(ev.data().is_empty(), "idle {:?} not empty", ev.name());
    }

    // Queued: only the title slot is populated ("Waiting… N queued");
    // the thumb / log / bar / meta / cancel slots stay empty so their
    // columns / lines collapse.
    let queued = StatusParts::new(None, 3);
    assert!(queued.thumb.is_empty());
    assert!(queued.title.contains("Waiting&hellip;"));
    assert!(queued.title.contains("3 queued"));
    assert!(queued.log.is_empty() && queued.bar.is_empty());
    assert!(queued.meta.is_empty() && queued.cancel.is_empty());

    // Active: every slot is populated; the thumb is the landed image, the
    // bar is the bigger progress bar, the meta carries percent + ETA, and
    // the cancel button targets the active item's id.
    let mut it = item(ItemStatus::Active, Some("t.jpg"));
    it.progress = Some(Progress::default());
    let active = StatusParts::new(Some(&it), 2);
    assert!(active.thumb.contains("/thumb/t.jpg"), "thumbnail present");
    assert!(
        active.bar.contains("bn-bar") || active.bar.contains("<i"),
        "bar fill present"
    );
    assert!(active.meta.contains("0%"), "percent present");
    assert!(active.title.contains("Hello World"), "title present");
    assert!(active.title.contains("2 queued"), "queued badge present");
    assert!(
        active.cancel.contains("hx-post=\"/cancel/7\""),
        "cancel button targets the active item id"
    );
    // No log line yet -> log slot empty (collapses).
    assert!(active.log.is_empty());
}

/// Each card root carries a stable `id="card-<id>"` plus an
/// `sse-swap="card-<id>"` + `hx-swap="outerHTML"`, so a per-card SSE
/// event can replace exactly that card (and an empty payload remove it)
/// without touching the rest of the grid. This is the contract the
/// targeted-grid model (`Event::Card` / `Event::CardAdded`) depends on.
#[test]
fn card_root_has_stable_id_and_per_card_sse_swap() {
    let html = render_card(&item(ItemStatus::Active, None));
    assert!(
        html.contains(r#"id="card-7" sse-swap="card-7" hx-swap="outerHTML""#),
        "card root is its own targeted sse-swap element"
    );
    assert!(html.contains(r#"data-id="7""#), "data-id preserved");
}

/// `render_cards_count` produces the header count text, and is empty for
/// an empty queue (so the `#cards-count` span collapses).
#[test]
fn cards_count_text() {
    assert_eq!(render_cards_count(0, 0), "");
    assert_eq!(render_cards_count(3, 1), "3 total, 1 pending");
    assert_eq!(render_cards_count(5, 0), "5 total, 0 pending");
}

/// The full-grid snapshot (`render_queue`, swapped into `#cards` on
/// connect / lag-recovery) splits the header into a static title + a
/// `#cards-count` sse-swap target, and the list into a `#cards-list`
/// `card-added` prepend target -- and always renders the `.empty` hint
/// (hidden via CSS when a card is present). Each card in the snapshot
/// carries its own per-card listener so it picks up targeted updates after
/// the re-render.
#[test]
fn queue_snapshot_has_targeted_targets_and_empty_hint() {
    let mut q = Queue::new();
    let _ = q.enqueue("https://example/v/1".into(), Some("A".into()), None);
    let html = render_queue(&q);
    assert!(
        html.contains(r#"id="cards-count" class="cards-count" sse-swap="cards-count""#),
        "count is its own sse-swap target"
    );
    assert!(
        html.contains(
            r#"id="cards-list" class="cards-list" sse-swap="card-added" hx-swap="afterbegin""#
        ),
        "list is the card-added prepend target"
    );
    assert!(
        html.contains(r#"sse-swap="card-"#),
        "snapshot cards carry per-card listeners"
    );
    assert!(html.contains("no videos yet"), "empty hint always present");
    assert!(
        html.contains("1 total, 1 pending"),
        "count text present when non-empty"
    );

    // Empty queue: count text collapses, empty hint present.
    let empty = render_queue(&Queue::new());
    assert!(!empty.contains("total"), "no count text when empty");
    assert!(empty.contains("no videos yet"));
}

fn page_item(status: ItemStatus) -> QueueItem {
    let mut it = QueueItem::new(42, "https://example/watch?v=x".into());
    it.title = Some("Hello World".into());
    it.duration = Some(d(123.0));
    it.status = status;
    it.thumbnail = Some("thumb-abc.jpg".into());
    it
}

/// A finished video's details page is a full standalone document: it
/// loads htmx + the stylesheet, shows the full thumbnail, surfaces the
/// View / Download / Delete big text buttons with percent-encoded file
/// links, lists the metadata, and includes the (non-polling) log body.
#[test]
fn done_item_page_has_full_doc_and_actions() {
    let mut it = page_item(ItemStatus::Done);
    it.filename = Some("Video #1.webm".into());
    it.logs.push("[download] 100%".into());
    let html = render_item_page(&it);

    assert!(html.starts_with("<!DOCTYPE html>"), "full document");
    assert!(html.contains(r#"href="/static/app.css""#), "stylesheet");
    assert!(
        html.contains(r#"<script src="/static/htmx.org-2.0.4.js">"#),
        "htmx"
    );
    // Full thumbnail uses the cached thumbnail route.
    assert!(html.contains(r#"<img src="/thumb/thumb-abc.jpg""#));
    // Big text buttons for a finished file, with percent-encoded links.
    assert!(html.contains(r#"class="big-btn view"#));
    assert!(html.contains(r#"href="/file/Video%20%231.webm?inline=1"#));
    assert!(html.contains(r#"class="big-btn download"#));
    assert!(html.contains(r#"href="/file/Video%20%231.webm?download=1"#));
    assert!(html.contains(r#"class="big-btn delete"#));
    assert!(html.contains(r#"hx-post="/delete-item/42""#));
    // Metadata + log body present.
    assert!(html.contains("Hello World"), "title");
    assert!(html.contains("https://example/watch?v=x"), "url");
    assert!(html.contains("Video #1.webm"), "filename");
    assert!(html.contains(r#"id="item-log-lines"#), "log body");
    assert!(html.contains("[download] 100%"), "log line");
    // Done items don't poll (no more output expected).
    assert!(
        !html.contains("hx-trigger=\"every 2s\""),
        "no polling when done"
    );
}

/// An in-flight item's page shows Cancel (not View/Download/Delete) and
/// wires the log body to poll /logs/:id?lines=1 every 2s.
#[test]
fn active_item_page_polls_logs_and_shows_cancel() {
    let it = page_item(ItemStatus::Active);
    let html = render_item_page(&it);
    assert!(html.contains(r#"class="big-btn cancel"#));
    assert!(html.contains(r#"hx-post="/cancel/42""#));
    assert!(!html.contains(r#"class="big-btn view"#));
    assert!(
        html.contains(r#"hx-get="/logs/42?lines=1""#),
        "poll endpoint"
    );
    assert!(html.contains(r#"hx-trigger="every 2s""#), "polls every 2s");
}

/// A failed terminal item shows Retry + Delete and the captured error.
#[test]
fn failed_item_page_shows_retry_and_error() {
    let mut it = page_item(ItemStatus::Failed);
    it.error = Some("Video unavailable".into());
    let html = render_item_page(&it);
    assert!(html.contains(r#"class="big-btn retry"#));
    assert!(html.contains(r#"class="big-btn delete"#));
    assert!(html.contains("Video unavailable"), "error surfaced");
    assert!(!html.contains(r#"class="big-btn view"#));
}

/// The "gone" page is a valid document with a back link (not a bare 404).
#[test]
fn gone_page_is_a_valid_document() {
    let html = render_item_gone();
    assert!(html.starts_with("<!DOCTYPE html>"));
    assert!(html.contains(r#"<a class="ip-back" href="/">"#));
    assert!(html.contains("no longer in the queue"));
}

/// The values of the page decode to the offers in their order, and a page without offers has none.
#[test]
fn checkbox_values_follow_the_offers() {
    let entries: Vec<FlatEntry> = (1..=12)
        .map(|n| {
            let title = format!("name=\"entry\" value=\"{n}\"");
            entry(&format!("https://w/{n}"), Some(&title), Some(n as f64 / 8.0), None)
        })
        .collect();
    let values = checkbox_values(&render_probe_result("https://s", &entries, None, None));
    assert_eq!(values.len(), 12);
    for (i, v) in values.iter().enumerate() {
        let v: Value = serde_json::from_str(&unescape(v)).unwrap();
        assert_eq!(v["url"], format!("https://w/{}", i + 1));
        assert_eq!(v["title"], format!("name=\"entry\" value=\"{}\"", i + 1));
        assert_eq!(v["duration"].as_f64(), Some((i + 1) as f64 / 8.0));
    }
    let html = render_probe_result("https://s", &[], None, None);
    assert!(checkbox_values(&html).is_empty());
    assert!(html.contains("no videos extracted"));
    assert!(html.contains(">Done</button>"));
}
