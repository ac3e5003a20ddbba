//! The steps of the worker that drains the queue one download at a time, and of the probe that
//! classifies a submitted URL.
use crate::events;
use crate::events::{Event, EventView, RingBuffer};
use crate::json;
use crate::json::{Json, JsonView};
use crate::parse;
use crate::parse::{EntryView, FlatEntry, LineView, ParsedLine};
use crate::render;
use crate::state;
use crate::state::{ItemStatus, ItemView, ProgressView, Queue, QueueItem, QueueState};
use crate::text;
use tokio_util::sync::CancellationToken;
use vstd::prelude::*;

verus! {

/// Milliseconds between two refreshes of the banner, at least; the last one always comes.
pub const STATUS_THROTTLE_MS: u64 = 200;

/// Seconds that a probe may take.
pub const PROBE_TIMEOUT_SECS: u64 = 60;

/// The queue as the first pending item becomes active, with a token by which it can be cancelled.
pub open spec fn taken(q: QueueState, token: CancellationToken) -> QueueState {
    let i = state::first_where(q.items, state::is_pending());
    if i < q.items.len() {
        QueueState {
            items: q.items.update(
                i,
                ItemView {
                    status: ItemStatus::Active,
                    progress: None,
                    error: None,
                    reported: false,
                    cancel: Some(token),
                    ..q.items[i]
                },
            ),
            ..q
        }
    } else {
        q
    }
}

/// Takes the first pending item: it becomes active, with a token by which it can be cancelled.
pub fn take_next_pending(queue: &mut Queue) -> (r: Option<u64>)
    ensures
        exists|token: CancellationToken| final(queue)@ == #[trigger] taken(old(queue)@, token),
        r == ({
            let i = state::first_where(old(queue)@.items, state::is_pending());
            if i < old(queue)@.items.len() {
                Some(old(queue)@.items[i].id)
            } else {
                None
            }
        }),
{
    let ghost p = state::is_pending();
    let mut i: usize = 0;
    while i < queue.items.len()
        invariant
            i <= queue.items@.len(),
            p == state::is_pending(),
            *queue == *old(queue),
            forall|j: int| 0 <= j < i ==> !p(#[trigger] queue@.items[j]),
        decreases queue.items@.len() - i,
    {
        assert(queue@.items[i as int] == queue.items@[i as int]@);
        if queue.items[i].status == ItemStatus::Pending {
            proof {
                state::lemma_first_where(queue@.items, p, i as int);
            }
            let item: &mut QueueItem = &mut queue.items[i];
            item.status = ItemStatus::Active;
            item.progress = None;
            item.error = None;
            item.reported = false;
            let token: CancellationToken = CancellationToken::new();
            let ghost held = token;
            item.cancel = Some(token);
            let id: u64 = item.id;
            assert(queue@.items =~= taken(old(queue)@, held).items);
            return Some(id);
        }
        i += 1;
    }
    proof {
        state::lemma_first_where(queue@.items, p, i as int);
        let token: CancellationToken = vstd::pervasive::arbitrary();
        assert(queue@ == taken(old(queue)@, token));
    }
    None
}

/// Whether a pending item is in the queue.
pub fn has_pending(queue: &Queue) -> (r: bool)
    ensures
        r == (queue@.pending() > 0),
{
    queue.count_pending() > 0
}

/// The events that replace a card.
pub open spec fn card_event(id: u64, html: Seq<char>) -> EventView {
    EventView { name: events::card_name(id), data: html }
}

/// The file name in a progress report, without the directories in front of it.
pub open spec fn reported_name(p: ProgressView) -> Option<Seq<char>> {
    match (p.filename, p.tmpfilename) {
        (Some(f), _) => Some(text::tail_behind(f, '/')),
        (None, Some(f)) => Some(text::tail_behind(f, '/')),
        (None, None) => None,
    }
}

/// An item after a progress report.
pub open spec fn progressed(item: ItemView, p: ProgressView) -> ItemView {
    let fails = p.status == Some("error"@) && item.error is None;
    ItemView {
        filename: match reported_name(p) {
            Some(f) => Some(f),
            None => item.filename,
        },
        error: if fails {
            Some("yt-dlp reported error"@)
        } else {
            item.error
        },
        reported: fails || item.reported,
        progress: Some(p),
        ..item
    }
}

/// Whether a progress report is the last one.
pub open spec fn is_last_report(p: ProgressView) -> bool {
    p.status == Some("finished"@) || p.status == Some("error"@)
}

/// The events of a progress report on an item that the queue holds: its card where that changed,
/// the title of the banner where the label changed, and the bar and the progress text where the
/// banner is due.
pub open spec fn progress_events(
    before: ItemView,
    after: ItemView,
    pending: nat,
    due: bool,
) -> Seq<EventView> {
    let b = render::banner(Some(after), pending);
    (if after.filename != before.filename || after.error != before.error {
        seq![card_event(before.id, render::card_html(after))]
    } else {
        Seq::empty()
    }) + (if after.filename != before.filename {
        seq![EventView { name: "status-title"@, data: b.title }]
    } else {
        Seq::empty()
    }) + (if due {
        seq![
            EventView { name: "status-bar"@, data: b.bar },
            EventView { name: "status-meta"@, data: b.meta },
        ]
    } else {
        Seq::empty()
    })
}

/// What a line of output led to: events, and whether the banner was refreshed.
pub struct Outcome {
    pub events: Vec<Event>,
    pub refreshed: bool,
}

fn name_of(p: &state::Progress) -> (r: Option<String>)
    ensures
        text::opt(r) == reported_name(p@),
{
    match &p.filename {
        Some(f) => Some(text::rsplit_first(f.as_str(), '/').to_string()),
        None => match &p.tmpfilename {
            Some(f) => Some(text::rsplit_first(f.as_str(), '/').to_string()),
            None => None,
        },
    }
}

/// Whether an optional text is the given one.
fn is_text(o: &Option<String>, s: &str) -> (r: bool)
    ensures
        r == (text::opt(*o) == Some(s@)),
{
    match o {
        Some(t) => text::same(t.as_str(), s),
        None => false,
    }
}

/// Takes a progress report of the item `id` in.
pub fn on_progress(queue: &mut Queue, id: u64, p: state::Progress, elapsed_ms: u64) -> (r: Outcome)
    ensures
        !old(queue)@.holds(id) ==> final(queue)@ == old(queue)@ && r.events@.len() == 0
            && !r.refreshed,
        old(queue)@.holds(id) ==> {
            let after = progressed(old(queue)@.item(id), p@);
            &&& final(queue)@ == old(queue)@.with_item(id, after)
            &&& r.refreshed == (is_last_report(p@) || elapsed_ms >= STATUS_THROTTLE_MS)
            &&& render::event_views(r.events@) == progress_events(
                old(queue)@.item(id),
                after,
                old(queue)@.pending(),
                r.refreshed,
            )
        },
{
    let mut events: Vec<Event> = Vec::new();
    let name: Option<String> = name_of(&p);
    let failed: bool = is_text(&p.status, "error");
    let last: bool = failed || is_text(&p.status, "finished");
    let pending: usize = queue.count_pending();
    let mut renamed: bool = false;
    let mut marked: bool = false;
    let ghost view = p@;
    let refreshed: bool = last || elapsed_ms >= STATUS_THROTTLE_MS;
    match queue.get_mut(id) {
        None => {
            return Outcome { events, refreshed: false };
        },
        Some(item) => {
            let ghost before = item@;
            if let Some(base) = name {
                if !is_text(&item.filename, base.as_str()) {
                    item.filename = Some(base);
                    renamed = true;
                }
            }
            if failed && item.error.is_none() {
                item.error = Some("yt-dlp reported error".to_string());
                item.reported = true;
                marked = true;
            }
            item.progress = Some(p);
            assert(item@ == progressed(before, view));
            if renamed || marked {
                events.push(Event::Card { id, html: render::render_card(item) });
            }
            let parts = render::StatusParts::new(Some(item), pending);
            if renamed {
                events.push(Event::StatusTitle(parts.title));
            }
            if refreshed {
                events.push(Event::StatusBar(parts.bar));
                events.push(Event::StatusMeta(parts.meta));
            }
            assert(render::event_views(events@) =~= progress_events(
                before,
                item@,
                pending as nat,
                refreshed,
            ));
        },
    }
    Outcome { events, refreshed }
}

/// The message of an `ERROR:` line, where there is one.
pub open spec fn error_in(line: Seq<char>) -> Option<Seq<char>> {
    if "ERROR:"@.is_prefix_of(line) && text::trimmed(line.skip("ERROR:"@.len() as int)).len() > 0 {
        Some(text::trimmed(line.skip("ERROR:"@.len() as int)))
    } else {
        None
    }
}

/// An item after a log line: the last `ERROR:` line is the most specific and wins, but for an error
/// that a progress report brought in the middle of the download. The line is appended to the log.
pub open spec fn after_log(item: ItemView, line: Seq<char>) -> ItemView {
    ItemView {
        error: match error_in(line) {
            Some(msg) => if item.reported {
                item.error
            } else {
                Some(msg)
            },
            None => item.error,
        },
        ..item
    }.logged(line)
}

/// The events of a log line: the card where the line is an error, the line itself, and the log
/// line of the banner where that is due.
pub open spec fn log_events(
    id: u64,
    after: Option<ItemView>,
    line: Seq<char>,
    pending: nat,
    due: bool,
) -> Seq<EventView> {
    (match (error_in(line), after) {
        (Some(_), Some(item)) => seq![card_event(id, render::card_html(item))],
        _ => Seq::empty(),
    }) + seq![EventView { name: "log"@, data: render::log_line_html(line) }] + (if due {
        seq![EventView { name: "status-log"@, data: render::banner(after, pending).log }]
    } else {
        Seq::empty()
    })
}

fn find_error(line: &str) -> (r: Option<String>)
    ensures
        text::opt(r) == error_in(line@),
{
    match text::strip_prefix(line, "ERROR:") {
        Some(rest) => {
            let msg: &str = text::trim(rest);
            if msg.unicode_len() > 0 {
                Some(msg.to_string())
            } else {
                None
            }
        },
        None => None,
    }
}

/// The item `id`, where the queue holds it.
pub open spec fn item_in(q: QueueState, id: u64) -> Option<ItemView> {
    if q.holds(id) {
        Some(q.item(id))
    } else {
        None
    }
}

/// The queue after a log line of the item `id`.
pub open spec fn queue_after_log(q: QueueState, id: u64, line: Seq<char>) -> QueueState {
    if q.holds(id) {
        q.with_item(id, after_log(q.item(id), line))
    } else {
        q
    }
}

/// Pushing a text onto a ring pushes its characters onto the list of entries.
proof fn lemma_ring_push(before: Seq<String>, line: String, cap: nat)
    ensures
        text::list(events::last_n(before.push(line), cap)) == events::last_n(
            text::list(before).push(line@),
            cap,
        ),
{
    assert(text::list(before.push(line)) =~= text::list(before).push(line@));
    assert(text::list(events::last_n(before.push(line), cap)) =~= events::last_n(
        text::list(before).push(line@),
        cap,
    ));
}

/// Takes a log line of the item `id` in.
pub fn on_log(
    queue: &mut Queue,
    ring: &mut RingBuffer<String>,
    id: u64,
    line: String,
    elapsed_ms: u64,
) -> (r: Outcome)
    requires
        old(ring).wf(),
    ensures
        final(ring).wf(),
        final(ring).capacity() == old(ring).capacity(),
        text::list(final(ring).entries()) == events::last_n(
            text::list(old(ring).entries()).push(line@),
            old(ring).capacity(),
        ),
        final(queue)@ == queue_after_log(old(queue)@, id, line@),
        r.refreshed == (elapsed_ms >= STATUS_THROTTLE_MS),
        render::event_views(r.events@) == log_events(
            id,
            item_in(final(queue)@, id),
            line@,
            old(queue)@.pending(),
            r.refreshed,
        ),
{
    let mut events: Vec<Event> = Vec::new();
    let error: Option<String> = find_error(line.as_str());
    let refreshed: bool = elapsed_ms >= STATUS_THROTTLE_MS;
    let pending: usize = queue.count_pending();
    let kept: String = line.clone();
    proof {
        lemma_ring_push(ring.entries(), kept, ring.capacity());
    }
    ring.push(kept);
    let shown: String = render::render_log_line(line.as_str());
    let ghost text = line@;
    let ghost q0 = queue@;
    match queue.get_mut(id) {
        None => {
            events.push(Event::Log(shown));
            if refreshed {
                events.push(Event::StatusLog(render::StatusParts::new(None, pending).log));
            }
            assert(render::event_views(events@) =~= log_events(
                id,
                None,
                text,
                pending as nat,
                refreshed,
            ));
        },
        Some(item) => {
            let ghost before = item@;
            let erring: bool = error.is_some();
            if erring && !item.reported {
                item.error = error;
            }
            item.push_log(line);
            assert(item@ == after_log(before, text));
            if erring {
                events.push(Event::Card { id, html: render::render_card(item) });
            }
            events.push(Event::Log(shown));
            if refreshed {
                events.push(Event::StatusLog(render::StatusParts::new(Some(item), pending).log));
            }
            assert(render::event_views(events@) =~= log_events(
                id,
                Some(item@),
                text,
                pending as nat,
                refreshed,
            ));
            proof {
                state::lemma_first_where_found(q0.items, state::has_id(id));
                state::lemma_item_of_updated(q0, id, after_log(before, text));
            }
        },
    }
    Outcome { events, refreshed }
}

/// Takes a classified line of the item `id` in.
pub fn on_line(
    queue: &mut Queue,
    ring: &mut RingBuffer<String>,
    id: u64,
    line: ParsedLine,
    elapsed_ms: u64,
) -> (r: Outcome)
    requires
        old(ring).wf(),
    ensures
        final(ring).wf(),
        final(ring).capacity() == old(ring).capacity(),
        line_taken(
            line@,
            old(queue)@,
            final(queue)@,
            text::list(old(ring).entries()),
            text::list(final(ring).entries()),
            old(ring).capacity(),
            id,
            elapsed_ms,
            render::event_views(r.events@),
            r.refreshed,
        ),
{
    match line {
        ParsedLine::Progress(p) => on_progress(queue, id, p, elapsed_ms),
        ParsedLine::Log(s) => on_log(queue, ring, id, s, elapsed_ms),
    }
}

/// How a classified line changes the queue and the ring, and what is sent for it.
pub open spec fn line_taken(
    line: LineView,
    q0: QueueState,
    q1: QueueState,
    ring0: Seq<Seq<char>>,
    ring1: Seq<Seq<char>>,
    cap: nat,
    id: u64,
    elapsed_ms: u64,
    sent: Seq<EventView>,
    refreshed: bool,
) -> bool {
    match line {
        LineView::Progress(p) => {
            let after = progressed(q0.item(id), p);
            &&& ring1 == ring0
            &&& !q0.holds(id) ==> q1 == q0 && sent.len() == 0 && !refreshed
            &&& q0.holds(id) ==> {
                &&& q1 == q0.with_item(id, after)
                &&& refreshed == (is_last_report(p) || elapsed_ms >= STATUS_THROTTLE_MS)
                &&& sent == progress_events(q0.item(id), after, q0.pending(), refreshed)
            }
        },
        LineView::Log(s) => {
            &&& ring1 == events::last_n(ring0.push(s), cap)
            &&& q1 == queue_after_log(q0, id, s)
            &&& refreshed == (elapsed_ms >= STATUS_THROTTLE_MS)
            &&& sent == log_events(id, item_in(q1, id), s, q0.pending(), refreshed)
        },
    }
}

/// Takes a line of yt-dlp's output for the item `id` in, `elapsed_ms` after the banner was
/// refreshed last.
pub fn handle_line(
    queue: &mut Queue,
    ring: &mut RingBuffer<String>,
    id: u64,
    line: &str,
    elapsed_ms: u64,
) -> (r: Outcome)
    requires
        old(ring).wf(),
    ensures
        final(ring).wf(),
        final(ring).capacity() == old(ring).capacity(),
        line_taken(
            parse::classified(line@, parse::object_in(line@)),
            old(queue)@,
            final(queue)@,
            text::list(old(ring).entries()),
            text::list(final(ring).entries()),
            old(ring).capacity(),
            id,
            elapsed_ms,
            render::event_views(r.events@),
            r.refreshed,
        ),
{
    let parsed: ParsedLine = parse::parse_line(line);
    on_line(queue, ring, id, parsed, elapsed_ms)
}

/// How a download ends.
pub enum Ending {
    /// yt-dlp could not be started.
    SpawnFailed(String),
    /// The server shuts down.
    Shutdown,
    /// The user cancelled.
    Cancelled,
    /// The exit of yt-dlp could not be awaited.
    WaitFailed(String),
    /// yt-dlp exited; `filename` is the final file name that it reported.
    Exited { success: bool, code: Option<i32>, filename: Option<String> },
}

pub enum EndingView {
    SpawnFailed(Seq<char>),
    Shutdown,
    Cancelled,
    WaitFailed(Seq<char>),
    Exited { success: bool, code: Option<i32>, filename: Option<Seq<char>> },
}

impl View for Ending {
    type V = EndingView;

    open spec fn view(&self) -> EndingView {
        match self {
            Ending::SpawnFailed(e) => EndingView::SpawnFailed(e@),
            Ending::Shutdown => EndingView::Shutdown,
            Ending::Cancelled => EndingView::Cancelled,
            Ending::WaitFailed(e) => EndingView::WaitFailed(e@),
            Ending::Exited { success, code, filename } => EndingView::Exited {
                success: *success,
                code: *code,
                filename: text::opt(*filename),
            },
        }
    }
}

/// What is said of an exit for which yt-dlp gave no reason.
pub open spec fn exit_text(code: Option<i32>) -> Seq<char> {
    match code {
        Some(c) => "yt-dlp exited"@ + " with status "@ + text::dec_int(c as int),
        None => "yt-dlp exited"@,
    }
}

/// An item after its download ended: requeued on shutdown, cancelled, failed with a reason, or
/// done under the final file name.
pub open spec fn ended(item: ItemView, ending: EndingView) -> ItemView {
    match ending {
        EndingView::SpawnFailed(e) => ItemView {
            status: ItemStatus::Failed,
            error: Some("failed to spawn yt-dlp: "@ + e),
            reported: false,
            cancel: None,
            ..item
        },
        EndingView::Shutdown => ItemView {
            status: ItemStatus::Pending,
            progress: None,
            cancel: None,
            ..item
        },
        EndingView::Cancelled => ItemView {
            status: ItemStatus::Cancelled,
            progress: None,
            cancel: None,
            ..item
        },
        EndingView::WaitFailed(e) => ItemView {
            status: ItemStatus::Failed,
            error: Some("yt-dlp wait error: "@ + e),
            reported: false,
            cancel: None,
            ..item
        },
        EndingView::Exited { success, code, filename } => if success {
            ItemView {
                status: ItemStatus::Done,
                progress: None,
                filename: match filename {
                    Some(f) => Some(f),
                    None => item.filename,
                },
                cancel: None,
                ..item
            }
        } else {
            ItemView {
                status: ItemStatus::Failed,
                error: match item.error {
                    Some(e) => Some(e),
                    None => Some(exit_text(code)),
                },
                cancel: None,
                ..item
            }
        },
    }
}

/// The queue after the download of the item `id` ended.
pub open spec fn queue_ended(q: QueueState, id: u64, ending: EndingView) -> QueueState {
    if q.holds(id) {
        q.with_item(id, ended(q.item(id), ending))
    } else {
        q
    }
}

/// The item `id`, where it is the active one.
pub open spec fn active_in(q: QueueState, id: u64) -> Option<ItemView> {
    if q.holds(id) && q.item(id).status == ItemStatus::Active {
        Some(q.item(id))
    } else {
        None
    }
}

/// The events of a change of status: the card of the item, the count, and all slots of the banner,
/// which shows the item only while it is active.
pub open spec fn transition_events(q: QueueState, id: u64) -> Seq<EventView> {
    (if q.holds(id) {
        seq![card_event(id, render::card_html(q.item(id)))]
    } else {
        Seq::empty()
    }) + seq![
        EventView { name: "cards-count"@, data: render::count_html(q.items.len(), q.pending()) },
    ] + render::banner_events(render::banner(active_in(q, id), q.pending()))
}

/// The events of a change of status.
pub fn emit_transition(queue: &Queue, id: u64) -> (r: Vec<Event>)
    ensures
        render::event_views(r@) == transition_events(queue@, id),
{
    let mut events: Vec<Event> = Vec::new();
    let pending: usize = queue.count_pending();
    let mut active: Option<&QueueItem> = None;
    if let Some(item) = queue.get(id) {
        events.push(Event::Card { id, html: render::render_card(item) });
        if item.status == ItemStatus::Active {
            active = Some(item);
        }
    }
    events.push(Event::CardsCount(render::render_cards_count(queue.items.len(), pending)));
    let ghost first = render::event_views(events@);
    let mut slots: Vec<Event> = render::status_events(active, pending);
    let ghost rest = render::event_views(slots@);
    let ghost e0 = events@;
    let ghost s0 = slots@;
    events.append(&mut slots);
    proof {
        assert(events@ =~= e0 + s0);
        assert(render::event_views(events@) =~= first + rest);
        assert(render::event_views(events@) =~= transition_events(queue@, id));
    }
    events
}

fn exit_message(code: Option<i32>) -> (r: String)
    ensures
        r@ == exit_text(code),
{
    let mut out = "yt-dlp exited".to_string();
    if let Some(c) = code {
        out.append(" with status ");
        out.append(text::decimal_int(c as i64).as_str());
    }
    out
}

/// Ends the download of the item `id`, and gives the events of that.
pub fn end_download(queue: &mut Queue, id: u64, ending: Ending) -> (r: Vec<Event>)
    ensures
        final(queue)@ == queue_ended(old(queue)@, id, ending@),
        render::event_views(r@) == transition_events(final(queue)@, id),
{
    if let Some(item) = queue.get_mut(id) {
        let ghost before = item@;
        let ghost view = ending@;
        item.cancel = None;
        match ending {
            Ending::SpawnFailed(e) => {
                let mut msg = "failed to spawn yt-dlp: ".to_string();
                msg.append(e.as_str());
                item.status = ItemStatus::Failed;
                item.error = Some(msg);
                item.reported = false;
            },
            Ending::Shutdown => {
                item.status = ItemStatus::Pending;
                item.progress = None;
            },
            Ending::Cancelled => {
                item.status = ItemStatus::Cancelled;
                item.progress = None;
            },
            Ending::WaitFailed(e) => {
                let mut msg = "yt-dlp wait error: ".to_string();
                msg.append(e.as_str());
                item.status = ItemStatus::Failed;
                item.error = Some(msg);
                item.reported = false;
            },
            Ending::Exited { success, code, filename } => {
                if success {
                    item.status = ItemStatus::Done;
                    item.progress = None;
                    if filename.is_some() {
                        item.filename = filename;
                    }
                } else {
                    item.status = ItemStatus::Failed;
                    if item.error.is_none() {
                        item.error = Some(exit_message(code));
                    }
                }
            },
        }
        assert(item@ == ended(before, view));
    }
    emit_transition(queue, id)
}

/// The file name in the fields of the report that yt-dlp leaves after moving the file, without the
/// directories in front of it.
pub open spec fn moved_name(obj: Option<Seq<(Seq<char>, JsonView)>>) -> Option<Seq<char>> {
    match obj {
        Some(o) => match parse::text_of(json::lookup(o, "filename"@)) {
            Some(path) => Some(text::tail_behind(path, '/')),
            None => None,
        },
        None => None,
    }
}

/// Reads the final file name from the fields of yt-dlp's report.
pub fn final_name(obj: Option<Vec<(String, Json)>>) -> (r: Option<String>)
    ensures
        text::opt(r) == moved_name(
            match obj {
                Some(o) => Some(json::fields(o@)),
                None => None,
            },
        ),
{
    match obj {
        Some(o) => match json::get(&o, "filename") {
            Some(Json::Text(path)) => Some(text::rsplit_first(path.as_str(), '/').to_string()),
            _ => None,
        },
        None => None,
    }
}

/// Reads the final file name from the text of yt-dlp's report; nothing where the text is no such
/// report.
pub fn after_move_filename(report: &str) -> (r: Option<String>)
    ensures
        text::opt(r) == moved_name(json::json_object(text::trimmed(report@))),
{
    final_name(json::read_object(text::trim(report)))
}

/// Where the download of an item stands.
#[derive(Debug, Clone, Copy, PartialEq, Eq, Structural)]
pub enum Phase {
    /// yt-dlp runs and its output is read.
    Reading,
    /// Its output ended and its exit is awaited.
    Waiting,
    /// The download is over.
    Over,
}

/// What happened to a running download.
pub enum Signal {
    Shutdown,
    Cancelled,
    Line(String),
    OutputEnded,
    /// yt-dlp exited; `report` is the text that it left after moving the file.
    Exited { success: bool, code: Option<i32>, report: Option<String> },
    WaitFailed(String),
}

/// What is to be done next for a running download.
#[derive(Debug, Clone, Copy, PartialEq, Eq, Structural)]
pub enum Action {
    /// Read more output.
    Read,
    /// Await the exit.
    AwaitExit,
    /// Kill yt-dlp and stop.
    Kill,
    /// Stop; sweep the download directory where a file was finished.
    Stop { sweep: bool },
}

/// One step of a running download.
pub struct Step {
    pub phase: Phase,
    pub action: Action,
    pub events: Vec<Event>,
    /// Whether the banner was refreshed.
    pub refreshed: bool,
    /// Whether the queue is to be saved.
    pub persist: bool,
    /// Whether the list of files is to be sent again, since yt-dlp exited.
    pub library: bool,
}

/// The ending that a signal brings in a phase, where it brings one: shutdown and cancellation while
/// output is read, and the exit once it is awaited.
pub open spec fn ending_of(phase: Phase, signal: Signal) -> Option<EndingView> {
    match (phase, signal) {
        (Phase::Reading, Signal::Shutdown) => Some(EndingView::Shutdown),
        (Phase::Reading, Signal::Cancelled) => Some(EndingView::Cancelled),
        (Phase::Waiting, Signal::WaitFailed(e)) => Some(EndingView::WaitFailed(e@)),
        (Phase::Waiting, Signal::Exited { success, code, report }) => Some(
            EndingView::Exited {
                success,
                code,
                filename: match report {
                    Some(t) => if success {
                        moved_name(json::json_object(text::trimmed(t@)))
                    } else {
                        None
                    },
                    None => None,
                },
            },
        ),
        _ => None,
    }
}

/// What is to be done next after a signal in a phase.
pub open spec fn action_of(phase: Phase, signal: Signal) -> Action {
    match (phase, signal) {
        (Phase::Reading, Signal::Shutdown) => Action::Kill,
        (Phase::Reading, Signal::Cancelled) => Action::Kill,
        (Phase::Reading, Signal::OutputEnded) => Action::AwaitExit,
        (Phase::Reading, _) => Action::Read,
        (Phase::Waiting, Signal::WaitFailed(_)) => Action::Stop { sweep: false },
        (Phase::Waiting, Signal::Exited { success, .. }) => Action::Stop { sweep: success },
        (Phase::Waiting, _) => Action::AwaitExit,
        (Phase::Over, _) => Action::Stop { sweep: false },
    }
}

/// The phase after a signal.
pub open spec fn phase_after(phase: Phase, signal: Signal) -> Phase {
    if ending_of(phase, signal) is Some {
        Phase::Over
    } else if phase == Phase::Reading && signal is OutputEnded {
        Phase::Waiting
    } else {
        phase
    }
}

fn stay(phase: Phase, action: Action) -> (r: Step)
    ensures
        r.phase == phase,
        r.action == action,
        r.events@.len() == 0,
        !r.refreshed,
        !r.persist,
        !r.library,
{
    Step {
        phase,
        action,
        events: Vec::new(),
        refreshed: false,
        persist: false,
        library: false,
    }
}

fn stop(queue: &mut Queue, id: u64, ending: Ending, action: Action) -> (r: Step)
    ensures
        final(queue)@ == queue_ended(old(queue)@, id, ending@),
        render::event_views(r.events@) == transition_events(final(queue)@, id),
        r.phase == Phase::Over,
        r.action == action,
        !r.refreshed,
        r.persist,
        r.library == ending is Exited,
{
    let library: bool = matches!(ending, Ending::Exited { .. });
    let events: Vec<Event> = end_download(queue, id, ending);
    Step { phase: Phase::Over, action, events, refreshed: false, persist: true, library }
}

/// Takes a signal in, `elapsed_ms` after the banner was refreshed last.
pub fn step(
    phase: Phase,
    signal: Signal,
    queue: &mut Queue,
    ring: &mut RingBuffer<String>,
    id: u64,
    elapsed_ms: u64,
) -> (r: Step)
    requires
        old(ring).wf(),
    ensures
        final(ring).wf(),
        final(ring).capacity() == old(ring).capacity(),
        r.phase == phase_after(phase, signal),
        r.action == action_of(phase, signal),
        r.persist == ending_of(phase, signal) is Some,
        r.library == (phase == Phase::Waiting && signal is Exited),
        match (phase, signal) {
            (Phase::Reading, Signal::Line(line)) => line_taken(
                parse::classified(line@, parse::object_in(line@)),
                old(queue)@,
                final(queue)@,
                text::list(old(ring).entries()),
                text::list(final(ring).entries()),
                old(ring).capacity(),
                id,
                elapsed_ms,
                render::event_views(r.events@),
                r.refreshed,
            ),
            _ => {
                &&& *final(ring) == *old(ring)
                &&& !r.refreshed
                &&& match ending_of(phase, signal) {
                    Some(ending) => {
                        &&& final(queue)@ == queue_ended(old(queue)@, id, ending)
                        &&& render::event_views(r.events@) == transition_events(final(queue)@, id)
                    },
                    None => final(queue)@ == old(queue)@ && r.events@.len() == 0,
                }
            },
        },
{
    match phase {
        Phase::Reading => match signal {
            Signal::Shutdown => stop(queue, id, Ending::Shutdown, Action::Kill),
            Signal::Cancelled => stop(queue, id, Ending::Cancelled, Action::Kill),
            Signal::Line(line) => {
                let out: Outcome = handle_line(queue, ring, id, line.as_str(), elapsed_ms);
                Step {
                    phase: Phase::Reading,
                    action: Action::Read,
                    events: out.events,
                    refreshed: out.refreshed,
                    persist: false,
                    library: false,
                }
            },
            Signal::OutputEnded => stay(Phase::Waiting, Action::AwaitExit),
            Signal::Exited { .. } | Signal::WaitFailed(_) => stay(Phase::Reading, Action::Read),
        },
        Phase::Waiting => match signal {
            Signal::WaitFailed(e) => stop(
                queue,
                id,
                Ending::WaitFailed(e),
                Action::Stop { sweep: false },
            ),
            Signal::Exited { success, code, report } => {
                let filename: Option<String> = match report {
                    Some(t) => if success {
                        after_move_filename(t.as_str())
                    } else {
                        None
                    },
                    None => None,
                };
                stop(
                    queue,
                    id,
                    Ending::Exited { success, code, filename },
                    Action::Stop { sweep: success },
                )
            },
            _ => stay(Phase::Waiting, Action::AwaitExit),
        },
        Phase::Over => stay(Phase::Over, Action::Stop { sweep: false }),
    }
}

/// What the worker does next.
#[derive(Debug, Clone, Copy, PartialEq, Eq, Structural)]
pub enum Task {
    Exit,
    /// Wait until something is enqueued.
    Park,
    /// Download this item.
    Download(u64),
}

/// The worker's next task: nothing on shutdown, else the first pending item, which becomes active.
pub fn next_task(queue: &mut Queue, shutdown: bool) -> (r: Task)
    ensures
        shutdown ==> r == Task::Exit && final(queue)@ == old(queue)@,
        !shutdown ==> (exists|token: CancellationToken|
            final(queue)@ == #[trigger] taken(old(queue)@, token)) && r == ({
            let i = state::first_where(old(queue)@.items, state::is_pending());
            if i < old(queue)@.items.len() {
                Task::Download(old(queue)@.items[i].id)
            } else {
                Task::Park
            }
        }),
{
    if shutdown {
        return Task::Exit;
    }
    match take_next_pending(queue) {
        Some(id) => Task::Download(id),
        None => Task::Park,
    }
}

/// Whether the worker pauses before the next download: only where one is waiting.
pub fn pauses(queue: &Queue, sleep_secs: u64) -> (r: bool)
    ensures
        r == (sleep_secs > 0 && queue@.pending() > 0),
{
    sleep_secs > 0 && has_pending(queue)
}

/// The worker takes the oldest pending item and no other: where none was active, that one is, and
/// every item before it was not pending.
pub proof fn law_take_is_first_in_first_out(q: QueueState, token: CancellationToken)
    requires
        q.wf(),
    ensures
        taken(q, token).wf(),
        taken(q, token).items.len() == q.items.len(),
        q.pending() == 0 ==> taken(q, token) == q,
        q.pending() > 0 ==> taken(q, token).active() == q.active() + 1 && taken(q, token).pending()
            == q.pending() - 1,
        forall|i: int|
            #![trigger taken(q, token).items[i]]
            0 <= i < q.items.len() && taken(q, token).items[i] != q.items[i] ==> {
                &&& q.items[i].status == ItemStatus::Pending
                &&& taken(q, token).items[i].status == ItemStatus::Active
                &&& taken(q, token).items[i].cancel == Some(token)
                &&& forall|j: int| 0 <= j < i ==> #[trigger] q.items[j].status
                    != ItemStatus::Pending
            },
{
    let p = state::is_pending();
    let k = state::first_where(q.items, p);
    state::lemma_first_where_found(q.items, p);
    if k < q.items.len() {
        state::lemma_count_update(q.items, p, k, taken(q, token).items[k]);
        state::lemma_count_update(q.items, state::is_active(), k, taken(q, token).items[k]);
        assert forall|j: int| 0 <= j < k implies #[trigger] q.items[j].status
            != ItemStatus::Pending by {
            assert(!p(q.items[j]));
        }
        assert forall|i: int| 0 <= i < q.items.len() implies #[trigger] taken(q, token).items[i].id
            == q.items[i].id by {}
    } else {
        lemma_none_counts_zero(q.items, p);
    }
}

proof fn lemma_none_counts_zero(items: Seq<ItemView>, p: spec_fn(ItemView) -> bool)
    requires
        forall|j: int| 0 <= j < items.len() ==> !p(#[trigger] items[j]),
    ensures
        state::count_where(items, p) == 0,
    decreases items.len(),
{
    if items.len() > 0 {
        let t = items.drop_last();
        assert forall|j: int| 0 <= j < t.len() implies !p(#[trigger] t[j]) by {
            assert(t[j] == items[j]);
        }
        assert(!p(items[items.len() - 1]));
        lemma_none_counts_zero(t, p);
    }
}

/// An active download that ends is active no more, and no other item changes: the item is done,
/// failed or cancelled, or pending again where the server shut down.
pub proof fn law_ending_releases_the_worker(q: QueueState, id: u64, ending: EndingView)
    requires
        q.wf(),
        q.holds(id),
        q.item(id).status == ItemStatus::Active,
    ensures
        queue_ended(q, id, ending).wf(),
        queue_ended(q, id, ending).active() == q.active() - 1,
        queue_ended(q, id, ending).holds(id),
        queue_ended(q, id, ending).item(id).status == (match ending {
            EndingView::Shutdown => ItemStatus::Pending,
            EndingView::Cancelled => ItemStatus::Cancelled,
            EndingView::Exited { success: true, .. } => ItemStatus::Done,
            _ => ItemStatus::Failed,
        }),
        queue_ended(q, id, ending).item(id).cancel is None,
        forall|other: u64|
            other != id && q.holds(other) ==> #[trigger] queue_ended(q, id, ending).item(other)
                == q.item(other),
{
    let after = ended(q.item(id), ending);
    state::lemma_first_where_found(q.items, state::has_id(id));
    state::law_update_keeps_ids(q, id, after);
    state::lemma_item_of_updated(q, id, after);
    state::lemma_count_update(q.items, state::is_active(), q.index_of(id), after);
}

/// A line of output, be it a progress report or a log line, keeps ids unique, changes no status, and
/// touches no other item.
pub proof fn law_output_keeps_status(q: QueueState, id: u64, p: ProgressView, line: Seq<char>)
    requires
        q.wf(),
        q.holds(id),
    ensures
        q.with_item(id, progressed(q.item(id), p)).wf(),
        q.with_item(id, progressed(q.item(id), p)).item(id).status == q.item(id).status,
        forall|other: u64|
            other != id && q.holds(other) ==> #[trigger] q.with_item(
                id,
                progressed(q.item(id), p),
            ).item(other) == q.item(other),
        queue_after_log(q, id, line).wf(),
        queue_after_log(q, id, line).item(id).status == q.item(id).status,
        queue_after_log(q, id, line).item(id).logs.last() == line,
        forall|other: u64|
            other != id && q.holds(other) ==> #[trigger] queue_after_log(q, id, line).item(other)
                == q.item(other),
{
    state::lemma_first_where_found(q.items, state::has_id(id));
    state::law_update_keeps_ids(q, id, progressed(q.item(id), p));
    state::law_update_keeps_ids(q, id, after_log(q.item(id), line));
    state::law_log_is_bounded(q.item(id), line);
}

/// The last report of a download always refreshes the banner, whatever the throttle says.
pub proof fn law_last_report_is_shown(
    before: ItemView,
    p: ProgressView,
    pending: nat,
    elapsed_ms: u64,
)
    requires
        is_last_report(p),
    ensures
        ({
            let after = progressed(before, p);
            let sent = progress_events(
                before,
                after,
                pending,
                is_last_report(p) || elapsed_ms >= STATUS_THROTTLE_MS,
            );
            &&& sent.len() >= 2
            &&& sent[sent.len() - 2] == EventView {
                name: "status-bar"@,
                data: render::banner(Some(after), pending).bar,
            }
            &&& sent[sent.len() - 1] == EventView {
                name: "status-meta"@,
                data: render::banner(Some(after), pending).meta,
            }
        }),
{
}

/// An item after log lines, one by one.
pub open spec fn after_lines(item: ItemView, lines: Seq<Seq<char>>) -> ItemView
    decreases lines.len(),
{
    if lines.len() == 0 {
        item
    } else {
        after_log(after_lines(item, lines.drop_last()), lines.last())
    }
}

/// The last `ERROR:` line stays: whatever came before it, and whatever lines without an error follow
/// it, the item fails with its message. An error that a progress report brought is kept by every
/// line, and no progress report takes an error away.
pub proof fn law_last_error_stays(
    item: ItemView,
    line: Seq<char>,
    more: Seq<Seq<char>>,
    p: ProgressView,
)
    requires
        forall|i: int| 0 <= i < more.len() ==> error_in(#[trigger] more[i]) is None,
    ensures
        error_in(line) is Some && !item.reported ==> after_lines(
            after_log(item, line),
            more,
        ).error == error_in(line),
        item.reported ==> after_lines(after_log(item, line), more).error == item.error,
        item.error is Some ==> progressed(item, p).error == item.error,
        item.error is Some ==> progressed(item, p).reported == item.reported,
        after_lines(after_log(item, line), more).reported == item.reported,
    decreases more.len(),
{
    if more.len() > 0 {
        let rest = more.drop_last();
        assert forall|i: int| 0 <= i < rest.len() implies error_in(#[trigger] rest[i]) is None by {
            assert(rest[i] == more[i]);
        }
        law_last_error_stays(item, line, rest, p);
        assert(error_in(more[more.len() - 1]) is None);
    }
}

/// What probing a URL found.
pub struct ProbeOutcome {
    /// The entries of a playlist; none for a single video.
    pub entries: Vec<FlatEntry>,
    /// A single video, where the URL was no playlist.
    pub single: Option<FlatEntry>,
    /// The reason why nothing was found, where there is one.
    pub error: Option<String>,
}

/// One event of a running probe.
pub enum ProbeEvent {
    /// A line of output.
    Log(String),
    /// The probe is over.
    Done(Box<ProbeOutcome>),
}

pub struct ProbeView {
    pub entries: Seq<EntryView>,
    pub single: Option<EntryView>,
    pub error: Option<Seq<char>>,
}

pub open spec fn opt_owned(o: Option<FlatEntry>) -> Option<EntryView> {
    match o {
        Some(e) => Some(e@),
        None => None,
    }
}

impl View for ProbeOutcome {
    type V = ProbeView;

    open spec fn view(&self) -> ProbeView {
        ProbeView {
            entries: render::entry_views(self.entries@),
            single: opt_owned(self.single),
            error: text::opt(self.error),
        }
    }
}

/// A probe that found nothing, for a reason.
pub open spec fn failed_probe(msg: Seq<char>) -> ProbeView {
    ProbeView { entries: Seq::empty(), single: None, error: Some(msg) }
}

impl ProbeView {
    /// A probe after one more line: an entry of a playlist is collected, the first other object is
    /// the single video, and the last `ERROR:` message is kept.
    pub open spec fn after_line(
        self,
        line: Seq<char>,
        obj: Option<Seq<(Seq<char>, JsonView)>>,
    ) -> ProbeView {
        match parse::flat_entry(obj) {
            Some(e) => if e.in_playlist() {
                ProbeView { entries: self.entries.push(e), ..self }
            } else if self.single is None {
                ProbeView { single: Some(e), ..self }
            } else {
                self
            },
            None => match error_in(line) {
                Some(msg) => ProbeView { error: Some(msg), ..self },
                None => self,
            },
        }
    }

    /// What a probe found once yt-dlp exited: with an entry or a video it succeeded, else the last
    /// error is the reason, or the exit where yt-dlp failed without one.
    pub open spec fn after_exit(self, success: bool, code: Option<i32>) -> ProbeView {
        if self.entries.len() > 0 || self.single is Some {
            ProbeView { error: None, ..self }
        } else if self.error is Some || success {
            self
        } else {
            ProbeView { error: Some(probe_exit_text(code)), ..self }
        }
    }
}

/// What is said of a probe that failed without a reason.
pub open spec fn probe_exit_text(code: Option<i32>) -> Seq<char> {
    match code {
        Some(c) => "yt-dlp probe failed"@ + " (status "@ + text::dec_int(c as int) + ")"@,
        None => "yt-dlp probe failed"@,
    }
}

impl ProbeOutcome {
    /// A probe that has seen no line yet.
    pub fn start() -> (r: ProbeOutcome)
        ensures
            r@ == (ProbeView { entries: Seq::empty(), single: None, error: None }),
    {
        let r = ProbeOutcome { entries: Vec::new(), single: None, error: None };
        assert(r@.entries =~= Seq::<EntryView>::empty());
        r
    }

    /// A probe that found nothing, for a reason.
    pub fn error(msg: String) -> (r: ProbeOutcome)
        ensures
            r@ == failed_probe(msg@),
    {
        let r = ProbeOutcome { entries: Vec::new(), single: None, error: Some(msg) };
        assert(r@.entries =~= Seq::<EntryView>::empty());
        r
    }

    /// Takes a line in, given the entry that it holds, where it holds one.
    pub fn on_entry(&mut self, line: &str, entry: Option<FlatEntry>)
        ensures
            match opt_owned(entry) {
                Some(e) => final(self)@ == if e.in_playlist() {
                    ProbeView { entries: old(self)@.entries.push(e), ..old(self)@ }
                } else if old(self)@.single is None {
                    ProbeView { single: Some(e), ..old(self)@ }
                } else {
                    old(self)@
                },
                None => final(self)@ == match error_in(line@) {
                    Some(msg) => ProbeView { error: Some(msg), ..old(self)@ },
                    None => old(self)@,
                },
            },
    {
        match entry {
            Some(e) => {
                if e.is_playlist_entry() {
                    let ghost v = e@;
                    self.entries.push(e);
                    assert(self@.entries =~= old(self)@.entries.push(v));
                } else if self.single.is_none() {
                    self.single = Some(e);
                }
            },
            None => {
                if let Some(msg) = find_error(line) {
                    self.error = Some(msg);
                }
            },
        }
    }

    /// Takes a line of yt-dlp's output in.
    pub fn on_line(&mut self, line: &str)
        ensures
            final(self)@ == old(self)@.after_line(line@, parse::object_in(line@)),
    {
        let entry: Option<FlatEntry> = parse::parse_flat_line(line);
        self.on_entry(line, entry);
    }

    /// Concludes once yt-dlp exited.
    pub fn on_exit(&mut self, success: bool, code: Option<i32>)
        ensures
            final(self)@ == old(self)@.after_exit(success, code),
    {
        assert(self@.entries.len() == self.entries@.len());
        if self.entries.len() > 0 || self.single.is_some() {
            self.error = None;
        } else if self.error.is_none() && !success {
            let mut out = "yt-dlp probe failed".to_string();
            if let Some(c) = code {
                out.append(" (status ");
                out.append(text::decimal_int(c as i64).as_str());
                out.append(")");
            }
            self.error = Some(out);
        }
    }
}

/// The message of a probe that could not be started.
pub fn probe_spawn_error(e: &str) -> (r: String)
    ensures
        r@ == "failed to spawn yt-dlp probe: "@ + e@,
{
    let mut out = "failed to spawn yt-dlp probe: ".to_string();
    out.append(e);
    out
}

/// The message of a probe whose exit could not be awaited.
pub fn probe_wait_error(e: &str) -> (r: String)
    ensures
        r@ == "yt-dlp probe wait error: "@ + e@,
{
    let mut out = "yt-dlp probe wait error: ".to_string();
    out.append(e);
    out
}

/// The message of a probe that took too long.
pub fn probe_timeout_error() -> (r: String)
    ensures
        r@ == "probe timed out after "@ + text::dec(PROBE_TIMEOUT_SECS as nat) + "s"@,
{
    let mut out = "probe timed out after ".to_string();
    text::push_dec(&mut out, PROBE_TIMEOUT_SECS);
    out.append("s");
    out
}

/// What happened to a running probe.
pub enum ProbeSignal {
    SpawnFailed(String),
    Shutdown,
    TimedOut,
    Line(String),
    Exited { success: bool, code: Option<i32> },
    WaitFailed(String),
}

/// What is to be done next for a running probe.
#[derive(Debug, Clone, Copy, PartialEq, Eq, Structural)]
pub enum ProbeAction {
    /// Go on.
    Continue,
    /// Kill yt-dlp and end without a result.
    Abandon,
    /// Kill yt-dlp and end with the result.
    KillAndFinish,
    /// End with the result.
    Finish,
}

/// What is found after a signal.
pub open spec fn probe_after(p: ProbeView, signal: ProbeSignal) -> ProbeView {
    match signal {
        ProbeSignal::SpawnFailed(e) => failed_probe("failed to spawn yt-dlp probe: "@ + e@),
        ProbeSignal::Shutdown => p,
        ProbeSignal::TimedOut => failed_probe(
            "probe timed out after "@ + text::dec(PROBE_TIMEOUT_SECS as nat) + "s"@,
        ),
        ProbeSignal::Line(s) => p.after_line(s@, parse::object_in(s@)),
        ProbeSignal::Exited { success, code } => p.after_exit(success, code),
        ProbeSignal::WaitFailed(e) => failed_probe("yt-dlp probe wait error: "@ + e@),
    }
}

/// The line that a signal shows, where it shows one.
pub open spec fn probe_shows(signal: ProbeSignal) -> Option<Seq<char>> {
    match signal {
        ProbeSignal::Line(s) => Some(s@),
        ProbeSignal::SpawnFailed(e) => Some("ERROR: "@ + ("failed to spawn yt-dlp probe: "@ + e@)),
        _ => None,
    }
}

/// Takes a signal of a running probe in. Gives the line to show, and what to do next.
pub fn probe_step(probe: &mut ProbeOutcome, signal: ProbeSignal) -> (r: (
    Option<String>,
    ProbeAction,
))
    ensures
        final(probe)@ == probe_after(old(probe)@, signal),
        text::opt(r.0) == probe_shows(signal),
        r.1 == (match signal {
            ProbeSignal::SpawnFailed(_) => ProbeAction::Finish,
            ProbeSignal::Shutdown => ProbeAction::Abandon,
            ProbeSignal::TimedOut => ProbeAction::KillAndFinish,
            ProbeSignal::Line(_) => ProbeAction::Continue,
            ProbeSignal::Exited { .. } => ProbeAction::Finish,
            ProbeSignal::WaitFailed(_) => ProbeAction::Finish,
        }),
{
    match signal {
        ProbeSignal::SpawnFailed(e) => {
            let msg: String = probe_spawn_error(e.as_str());
            let mut shown = "ERROR: ".to_string();
            shown.append(msg.as_str());
            *probe = ProbeOutcome::error(msg);
            (Some(shown), ProbeAction::Finish)
        },
        ProbeSignal::Shutdown => (None, ProbeAction::Abandon),
        ProbeSignal::TimedOut => {
            *probe = ProbeOutcome::error(probe_timeout_error());
            (None, ProbeAction::KillAndFinish)
        },
        ProbeSignal::Line(line) => {
            probe.on_line(line.as_str());
            (Some(line), ProbeAction::Continue)
        },
        ProbeSignal::Exited { success, code } => {
            probe.on_exit(success, code);
            (None, ProbeAction::Finish)
        },
        ProbeSignal::WaitFailed(e) => {
            *probe = ProbeOutcome::error(probe_wait_error(e.as_str()));
            (None, ProbeAction::Finish)
        },
    }
}

/// What a probe found after a run of lines.
pub open spec fn probed(lines: Seq<Seq<char>>) -> ProbeView
    decreases lines.len(),
{
    if lines.len() == 0 {
        ProbeView { entries: Seq::empty(), single: None, error: None }
    } else {
        probed(lines.drop_last()).after_line(lines.last(), parse::object_in(lines.last()))
    }
}

/// A probe that found an entry or a video reports no error, and one that found neither because
/// yt-dlp failed reports one.
pub proof fn law_probe_reports_error_only_without_result(
    lines: Seq<Seq<char>>,
    success: bool,
    code: Option<i32>,
)
    ensures
        ({
            let r = probed(lines).after_exit(success, code);
            let found = r.entries.len() > 0 || r.single is Some;
            &&& found ==> r.error is None
            &&& !found && !success ==> r.error is Some
        }),
{
}

/// Each entry that a probe collects is one of a playlist, and its single video is not.
pub proof fn law_probe_separates_playlists(lines: Seq<Seq<char>>)
    ensures
        forall|i: int|
            0 <= i < probed(lines).entries.len() ==> (
            #[trigger] probed(lines).entries[i]).in_playlist(),
        probed(lines).single is Some ==> !probed(lines).single->0.in_playlist(),
    decreases lines.len(),
{
    if lines.len() > 0 {
        law_probe_separates_playlists(lines.drop_last());
        let a = probed(lines.drop_last());
        let b = probed(lines);
        assert forall|i: int| 0 <= i < b.entries.len() implies (
        #[trigger] b.entries[i]).in_playlist() by {
            if i < a.entries.len() {
                assert(b.entries[i] == a.entries[i]);
            }
        }
    }
}

/// Taking an item starts the download of that very video: it keeps all that is known of it, gets the
/// token, and what the last attempt left is gone; every other item stays as it is.
pub proof fn law_taken_item_is_the_same_video(q: QueueState, token: CancellationToken, k: int)
    requires
        0 <= k < q.items.len(),
        q.items[k].status == ItemStatus::Pending,
        forall|i: int| 0 <= i < k ==> (#[trigger] q.items[i]).status != ItemStatus::Pending,
    ensures
        ({
            let r = taken(q, token);
            let was = q.items[k];
            let now = r.items[k];
            &&& r.next_id == q.next_id
            &&& r.items.len() == q.items.len()
            &&& forall|i: int|
                0 <= i < q.items.len() && i != k ==> #[trigger] r.items[i] == q.items[i]
            &&& now.status == ItemStatus::Active
            &&& now.cancel == Some(token)
            &&& now.progress is None
            &&& now.error is None
            &&& !now.reported
            &&& now.id == was.id
            &&& now.url == was.url
            &&& now.title == was.title
            &&& now.duration == was.duration
            &&& now.filename == was.filename
            &&& now.thumbnail == was.thumbnail
            &&& now.thumbnails == was.thumbnails
            &&& now.media == was.media
            &&& now.logs == was.logs
            &&& now.enqueued_at == was.enqueued_at
        }),
{
    let p = state::is_pending();
    assert forall|i: int| 0 <= i < k implies !p(#[trigger] q.items[i]) by {}
    state::lemma_first_where(q.items, p, k);
}

/// A progress report is kept whole. The file name becomes what stands behind the last slash of the
/// reported path, the temporary one counting only without the other; an error is marked once; and
/// nothing else of the item changes.
pub proof fn law_report_is_taken_in(item: ItemView, p: ProgressView)
    ensures
        ({
            let r = progressed(item, p);
            &&& r.progress == Some(p)
            &&& p.filename is Some ==> r.filename is Some && text::tail_behind(p.filename->0, '/')
                == r.filename->0
            &&& p.filename is None && p.tmpfilename is Some ==> r.filename is Some
                && text::tail_behind(p.tmpfilename->0, '/') == r.filename->0
            &&& p.filename is None && p.tmpfilename is None ==> r.filename == item.filename
            &&& r.filename is Some && (p.filename is Some || p.tmpfilename is Some)
                ==> !r.filename->0.contains('/')
            &&& p.status == Some("error"@) && item.error is None ==> r.error == Some(
                "yt-dlp reported error"@,
            ) && r.reported
            &&& !(p.status == Some("error"@) && item.error is None) ==> r.error == item.error
                && r.reported == item.reported
            &&& (ItemView {
                progress: item.progress,
                filename: item.filename,
                error: item.error,
                reported: item.reported,
                ..r
            }) == item
        }),
{
    if let Some(f) = p.filename {
        text::law_tail_stands_behind_the_last(f, '/');
    }
    if let Some(f) = p.tmpfilename {
        text::law_tail_stands_behind_the_last(f, '/');
    }
}

/// The banner is refreshed with the new progress where it is due, the card exactly where its name or its
/// error changed, and the title of the banner where the name did; a report that changes neither and is
/// not due sends nothing. Two refreshes lie a fifth of a second apart, but the last report is always due.
pub proof fn law_reports_reach_the_page(
    before: ItemView,
    p: ProgressView,
    pending: nat,
    due: bool,
)
    ensures
        ({
            let after = progressed(before, p);
            let sent = progress_events(before, after, pending, due);
            let b = render::banner(Some(after), pending);
            let renamed = after.filename != before.filename;
            let marked = after.error != before.error;
            &&& due ==> sent.len() >= 2 && sent[sent.len() - 2] == (EventView {
                name: "status-bar"@,
                data: b.bar,
            }) && sent.last() == (EventView { name: "status-meta"@, data: b.meta })
            &&& renamed || marked ==> sent.len() > 0 && sent[0] == (EventView {
                name: events::card_name(before.id),
                data: render::card_html(after),
            })
            &&& renamed ==> sent.len() > 1 && sent[1] == (EventView {
                name: "status-title"@,
                data: b.title,
            })
            &&& sent.len() == (if renamed || marked {
                1int
            } else {
                0
            }) + (if renamed {
                1int
            } else {
                0
            }) + (if due {
                2int
            } else {
                0
            })
        }),
        STATUS_THROTTLE_MS == 200,
        is_last_report(p) <==> p.status == Some("finished"@) || p.status == Some("error"@),
{
}

/// An `ERROR:` line carries what stands behind the mark, without white space around it; a mark with
/// nothing behind it, and any other line, carries no error.
pub proof fn law_error_lines_carry_their_message(msg: Seq<char>, line: Seq<char>)
    ensures
        text::trimmed(msg).len() > 0 ==> error_in("ERROR:"@ + msg) == Some(text::trimmed(msg)),
        text::trimmed(msg).len() == 0 ==> error_in("ERROR:"@ + msg) is None,
        !(line.len() >= 6 && line.take(6) == "ERROR:"@) ==> error_in(line) is None,
{
    reveal_strlit("ERROR:");
    let l = "ERROR:"@ + msg;
    assert("ERROR:"@ =~= l.subrange(0, 6));
    assert(l.skip(6) =~= msg);
    if "ERROR:"@.is_prefix_of(line) {
        assert(line.take(6) =~= line.subrange(0, 6));
    }
}

/// A log line is appended to the log of its item and may change its error; nothing else changes, and a
/// line without an error leaves the error.
pub proof fn law_log_line_is_kept(item: ItemView, line: Seq<char>)
    ensures
        ({
            let r = after_log(item, line);
            &&& r.logs.len() > 0 && r.logs.last() == line
            &&& item.logs.len() < 2000 ==> r.logs == item.logs.push(line)
            &&& error_in(line) is None ==> r.error == item.error
            &&& (ItemView { logs: item.logs, error: item.error, ..r }) == item
        }),
{
    state::law_log_is_bounded(item, line);
    state::law_log_keeps_the_lines(item, line);
}

/// A log line reaches the log of the page, the card of the item where it is an error, and the banner
/// where that is due.
pub proof fn law_log_lines_reach_the_page(
    id: u64,
    item: ItemView,
    line: Seq<char>,
    pending: nat,
    due: bool,
)
    ensures
        ({
            let sent = log_events(id, Some(item), line, pending, due);
            let alone = log_events(id, None, line, pending, due);
            let shown = EventView { name: "log"@, data: render::log_line_html(line) };
            let subtitle = EventView {
                name: "status-log"@,
                data: render::banner(Some(item), pending).log,
            };
            &&& sent.contains(shown)
            &&& alone.contains(shown)
            &&& due ==> sent.last() == subtitle
            &&& !due ==> sent.last() == shown
            &&& error_in(line) is Some ==> sent[0] == (EventView {
                name: events::card_name(id),
                data: render::card_html(item),
            })
            &&& sent.len() == 1 + (if error_in(line) is Some {
                1int
            } else {
                0
            }) + (if due {
                1int
            } else {
                0
            })
        }),
{
    let sent = log_events(id, Some(item), line, pending, due);
    let alone = log_events(id, None, line, pending, due);
    let shown = EventView { name: "log"@, data: render::log_line_html(line) };
    assert(sent[if error_in(line) is Some {
        1int
    } else {
        0
    }] == shown);
    assert(alone[0] == shown);
}

/// A download that ends says how: a finished one is done under its final name, a failed one keeps the
/// reason that yt-dlp gave or gets one, a cancelled one and one that the shutdown cut off lose their
/// progress. None of them runs any more, and the video stays the same.
pub proof fn law_ending_says_how(item: ItemView, e: Seq<char>, code: Option<i32>, name: Option<Seq<char>>)
    ensures
        ({
            let done = ended(item, EndingView::Exited { success: true, code, filename: name });
            let failed = ended(item, EndingView::Exited { success: false, code, filename: name });
            let unstarted = ended(item, EndingView::SpawnFailed(e));
            let lost = ended(item, EndingView::WaitFailed(e));
            let cancelled = ended(item, EndingView::Cancelled);
            let cut = ended(item, EndingView::Shutdown);
            &&& done.status == ItemStatus::Done && done.progress is None
            &&& name is Some ==> done.filename == name
            &&& name is None ==> done.filename == item.filename
            &&& done.error == item.error
            &&& failed.status == ItemStatus::Failed && failed.filename == item.filename
            &&& item.error is Some ==> failed.error == item.error
            &&& item.error is None && code is None ==> failed.error == Some("yt-dlp exited"@)
            &&& item.error is None && code is Some ==> failed.error == Some(
                "yt-dlp exited"@ + " with status "@ + text::dec_int(code->0 as int),
            )
            &&& unstarted.status == ItemStatus::Failed && unstarted.error == Some(
                "failed to spawn yt-dlp: "@ + e,
            )
            &&& lost.status == ItemStatus::Failed && lost.error == Some("yt-dlp wait error: "@ + e)
            &&& cancelled.status == ItemStatus::Cancelled && cancelled.progress is None
            &&& cut.status == ItemStatus::Pending && cut.progress is None
        }),
{
}

/// However a download ends, the item is the same video with the same log, and cannot be cancelled any
/// more.
pub proof fn law_ending_keeps_the_video(item: ItemView, ending: EndingView)
    ensures
        ({
            let r = ended(item, ending);
            &&& r.cancel is None
            &&& r.id == item.id
            &&& r.url == item.url
            &&& r.title == item.title
            &&& r.duration == item.duration
            &&& r.thumbnail == item.thumbnail
            &&& r.thumbnails == item.thumbnails
            &&& r.media == item.media
            &&& r.logs == item.logs
            &&& r.enqueued_at == item.enqueued_at
            &&& !(ending is Exited) ==> r.filename == item.filename
        }),
{
}

/// While output is read, a shutdown and a cancellation kill yt-dlp and end the download as such; the end
/// of the output only waits for the exit; and the exit ends the download, with the name of its report
/// where it succeeded. Nothing happens to a download that is over.
pub proof fn law_signals_end_downloads(
    e: String,
    line: String,
    code: Option<i32>,
    report: Option<String>,
    any: Signal,
)
    ensures
        ending_of(Phase::Reading, Signal::Shutdown) == Some(EndingView::Shutdown),
        action_of(Phase::Reading, Signal::Shutdown) == Action::Kill,
        ending_of(Phase::Reading, Signal::Cancelled) == Some(EndingView::Cancelled),
        action_of(Phase::Reading, Signal::Cancelled) == Action::Kill,
        ending_of(Phase::Reading, Signal::Line(line)) is None,
        action_of(Phase::Reading, Signal::Line(line)) == Action::Read,
        phase_after(Phase::Reading, Signal::Line(line)) == Phase::Reading,
        ending_of(Phase::Reading, Signal::OutputEnded) is None,
        action_of(Phase::Reading, Signal::OutputEnded) == Action::AwaitExit,
        phase_after(Phase::Reading, Signal::OutputEnded) == Phase::Waiting,
        ending_of(Phase::Waiting, Signal::WaitFailed(e)) == Some(EndingView::WaitFailed(e@)),
        action_of(Phase::Waiting, Signal::WaitFailed(e)) == (Action::Stop { sweep: false }),
        ending_of(Phase::Waiting, Signal::Exited { success: false, code, report }) == Some(
            EndingView::Exited { success: false, code, filename: None },
        ),
        action_of(Phase::Waiting, Signal::Exited { success: false, code, report })
            == (Action::Stop { sweep: false }),
        ending_of(Phase::Waiting, Signal::Exited { success: true, code, report }) == Some(
            EndingView::Exited {
                success: true,
                code,
                filename: match report {
                    Some(t) => moved_name(json::json_object(text::trimmed(t@))),
                    None => None,
                },
            },
        ),
        action_of(Phase::Waiting, Signal::Exited { success: true, code, report })
            == (Action::Stop { sweep: true }),
        ending_of(Phase::Over, any) is None,
        phase_after(Phase::Over, any) == Phase::Over,
        forall|phase: Phase|
            ending_of(phase, any) is Some ==> #[trigger] phase_after(phase, any) == Phase::Over,
{
}

/// The final name is what stands behind the last slash of the path in the report, and there is none
/// without such a path.
pub proof fn law_final_name_is_reported(obj: Seq<(Seq<char>, JsonView)>, path: Seq<char>)
    ensures
        json::lookup(obj, "filename"@) == Some(JsonView::Text(path)) ==> moved_name(Some(obj))
            is Some && moved_name(Some(obj))->0 == text::tail_behind(path, '/') && !moved_name(
            Some(obj),
        )->0.contains('/'),
        !(json::lookup(obj, "filename"@) is Some && json::lookup(obj, "filename"@)->0 is Text)
            ==> moved_name(Some(obj)) is None,
        moved_name(None) is None,
{
    text::law_tail_stands_behind_the_last(path, '/');
}

/// A change of status is sent as the card of the item, the count, and all six slots of the banner, which
/// shows the item exactly while it is active.
pub proof fn law_transitions_reach_the_page(q: QueueState, id: u64)
    requires
        q.holds(id),
    ensures
        ({
            let sent = transition_events(q, id);
            let b = render::banner(
                if q.item(id).status == ItemStatus::Active {
                    Some(q.item(id))
                } else {
                    None
                },
                q.pending(),
            );
            &&& sent.len() == 8
            &&& sent[0] == (EventView {
                name: events::card_name(id),
                data: render::card_html(q.item(id)),
            })
            &&& sent[1] == (EventView {
                name: "cards-count"@,
                data: render::count_html(q.items.len(), q.pending()),
            })
            &&& sent[2] == (EventView { name: "status-thumb"@, data: b.thumb })
            &&& sent[3] == (EventView { name: "status-title"@, data: b.title })
            &&& sent[4] == (EventView { name: "status-log"@, data: b.log })
            &&& sent[5] == (EventView { name: "status-bar"@, data: b.bar })
            &&& sent[6] == (EventView { name: "status-meta"@, data: b.meta })
            &&& sent[7] == (EventView { name: "status-cancel"@, data: b.cancel })
        }),
{
}

/// A probe collects the entries of a playlist in the order of their lines, keeps the first other video,
/// and keeps the last error; a line does only one of these, and a line that is neither changes nothing.
pub proof fn law_probe_line_is_taken_in(
    p: ProbeView,
    line: Seq<char>,
    obj: Seq<(Seq<char>, JsonView)>,
)
    ensures
        ({
            let e = parse::entry_of(obj);
            let r = p.after_line(line, Some(obj));
            let plain = p.after_line(line, None);
            &&& e.in_playlist() ==> r.entries == p.entries.push(e) && r.single == p.single
                && r.error == p.error
            &&& !e.in_playlist() && p.single is None ==> r.single == Some(e) && r.entries
                == p.entries && r.error == p.error
            &&& !e.in_playlist() && p.single is Some ==> r == p
            &&& error_in(line) is Some ==> plain.error == error_in(line) && plain.entries
                == p.entries && plain.single == p.single
            &&& error_in(line) is None ==> plain == p
        }),
{
}

/// Once yt-dlp has exited, a probe that found something has it all and no error; one that found nothing
/// keeps the error that was printed, and gets one where yt-dlp failed without a word.
pub proof fn law_probe_result_is_kept(p: ProbeView, success: bool, code: Option<i32>)
    ensures
        ({
            let r = p.after_exit(success, code);
            let found = p.entries.len() > 0 || p.single is Some;
            &&& r.entries == p.entries
            &&& r.single == p.single
            &&& found ==> r.error is None
            &&& !found && p.error is Some ==> r.error == p.error
            &&& !found && p.error is None && success ==> r.error is None
            &&& !found && p.error is None && !success && code is None ==> r.error == Some(
                "yt-dlp probe failed"@,
            )
            &&& !found && p.error is None && !success && code is Some ==> r.error == Some(
                "yt-dlp probe failed"@ + " (status "@ + text::dec_int(code->0 as int) + ")"@,
            )
        }),
{
}

/// A probe that cannot be run to its end says why and offers nothing; a minute is the limit.
pub proof fn law_broken_probe_says_why(p: ProbeView, e: String)
    ensures
        probe_after(p, ProbeSignal::SpawnFailed(e)).error == Some(
            "failed to spawn yt-dlp probe: "@ + e@,
        ),
        probe_after(p, ProbeSignal::SpawnFailed(e)).entries.len() == 0,
        probe_after(p, ProbeSignal::SpawnFailed(e)).single is None,
        probe_after(p, ProbeSignal::WaitFailed(e)).error == Some("yt-dlp probe wait error: "@ + e@),
        probe_after(p, ProbeSignal::WaitFailed(e)).entries.len() == 0,
        probe_after(p, ProbeSignal::WaitFailed(e)).single is None,
        probe_after(p, ProbeSignal::TimedOut).error == Some(
            "probe timed out after "@ + text::dec(60) + "s"@,
        ),
        probe_after(p, ProbeSignal::TimedOut).entries.len() == 0,
        probe_after(p, ProbeSignal::TimedOut).single is None,
        probe_after(p, ProbeSignal::Shutdown) == p,
        probe_shows(ProbeSignal::Line(e)) == Some(e@),
        probe_shows(ProbeSignal::SpawnFailed(e)) == Some(
            "ERROR: "@ + ("failed to spawn yt-dlp probe: "@ + e@),
        ),
{
}

/// A progress report becomes the progress of its item and leaves the ring of log lines; a log line is
/// the newest of its item and of the ring. Nothing else in the queue changes. The banner is refreshed
/// no sooner than a fifth of a second after the last time, but for a final report.
pub proof fn law_output_lands_on_its_item(
    line: LineView,
    q0: QueueState,
    q1: QueueState,
    ring0: Seq<Seq<char>>,
    ring1: Seq<Seq<char>>,
    cap: nat,
    id: u64,
    elapsed_ms: u64,
    sent: Seq<EventView>,
    refreshed: bool,
)
    requires
        q0.wf(),
        q0.holds(id),
        line_taken(line, q0, q1, ring0, ring1, cap, id, elapsed_ms, sent, refreshed),
    ensures
        q1.items.len() == q0.items.len(),
        q1.next_id == q0.next_id,
        q1.holds(id),
        q1.item(id).id == id,
        q1.item(id).url == q0.item(id).url,
        q1.item(id).status == q0.item(id).status,
        forall|other: u64|
            other != id && q0.holds(other) ==> #[trigger] q1.item(other) == q0.item(other),
        match line {
            LineView::Progress(p) => {
                &&& q1.item(id).progress == Some(p)
                &&& q1.item(id).logs == q0.item(id).logs
                &&& ring1 == ring0
                &&& refreshed <==> elapsed_ms >= 200 || p.status == Some("finished"@) || p.status
                    == Some("error"@)
            },
            LineView::Log(s) => {
                &&& q1.item(id).progress == q0.item(id).progress
                &&& q1.item(id).logs.len() > 0 && q1.item(id).logs.last() == s
                &&& cap > 0 ==> ring1.len() > 0 && ring1.last() == s
                &&& ring0.len() < cap ==> ring1 == ring0.push(s)
                &&& refreshed <==> elapsed_ms >= 200
                &&& sent.contains(EventView { name: "log"@, data: render::log_line_html(s) })
            },
        },
{
    state::lemma_first_where_found(q0.items, state::has_id(id));
    let before = q0.item(id);
    assert(before.id == id);
    match line {
        LineView::Progress(p) => {
            law_report_is_taken_in(before, p);
            state::law_update_keeps_ids(q0, id, progressed(before, p));
            state::law_items_are_found_by_id(q1, q0.index_of(id));
        },
        LineView::Log(s) => {
            law_log_line_is_kept(before, s);
            state::law_update_keeps_ids(q0, id, after_log(before, s));
            state::law_items_are_found_by_id(q1, q0.index_of(id));
            law_log_lines_reach_the_page(id, q1.item(id), s, q0.pending(), refreshed);
        },
    }
}

/// Each line and the end of a probe are taken into what it found so far.
pub proof fn law_probe_takes_its_signals_in(p: ProbeView, line: String, success: bool, code: Option<i32>)
    ensures
        probe_after(p, ProbeSignal::Line(line)) == p.after_line(line@, parse::object_in(line@)),
        probe_after(p, ProbeSignal::Exited { success, code }) == p.after_exit(success, code),
{
}

/// Once the output has ended only the exit counts, and once a download is over nothing does.
pub proof fn law_late_signals_are_passed_over(signal: Signal)
    ensures
        !(signal is WaitFailed) && !(signal is Exited) ==> {
            &&& action_of(Phase::Waiting, signal) == Action::AwaitExit
            &&& ending_of(Phase::Waiting, signal) is None
            &&& phase_after(Phase::Waiting, signal) == Phase::Waiting
        },
        action_of(Phase::Over, signal) == (Action::Stop { sweep: false }),
{
}

/// A probe starts with nothing found, and only its lines and a failed start are shown.
pub proof fn law_probe_starts_empty(e: String, success: bool, code: Option<i32>)
    ensures
        probed(Seq::empty()).entries.len() == 0,
        probed(Seq::empty()).single is None,
        probed(Seq::empty()).error is None,
        probe_shows(ProbeSignal::Exited { success, code }) is None,
        probe_shows(ProbeSignal::WaitFailed(e)) is None,
        probe_shows(ProbeSignal::TimedOut) is None,
        probe_shows(ProbeSignal::Shutdown) is None,
{
}

}
