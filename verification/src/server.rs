//! The decisions behind the routes of the server.
use crate::clock;
use crate::clock::Stamp;
use crate::double::Double;
use crate::events;
use crate::events::{Event, EventView, RingBuffer};
use crate::import;
use crate::library;
use crate::library::LibraryFile;
use crate::markup;
use crate::media::MediaView;
use crate::render;
use crate::render::{ApprovalEntry, ApprovalView};
use crate::state;
use crate::state::{EnqueueResult, ItemStatus, ItemView, ProgressView, Queue, QueueItem, QueueState};
use crate::text;
use crate::thumb;
use crate::worker;
use tokio_util::sync::CancellationToken;
use vstd::prelude::*;

verus! {

/// The form by which a URL is submitted.
#[derive(Debug)]
pub struct DownloadForm {
    pub url: String,
}

/// The answer to a submitted URL: the area of its probe, or the form again where it is empty.
pub open spec fn submitted_html(url: Seq<char>) -> Seq<char> {
    if text::trimmed(url).len() == 0 {
        render::header_html(Some("paste a URL"@))
    } else {
        render::probe_area_html(text::trimmed(url))
    }
}

/// Answers a submitted URL.
pub fn post_download(form: &DownloadForm) -> (r: String)
    ensures
        r@ == submitted_html(form.url@),
{
    let url: &str = text::trim(form.url.as_str());
    if url.unicode_len() == 0 {
        return render::render_header_input(Some("paste a URL"));
    }
    render::render_probe_area(url)
}

/// The pairs that `form_urlencoded` reads from the body of a form, in their order.
pub uninterp spec fn form_pairs(body: Seq<u8>) -> Seq<(Seq<char>, Seq<char>)>;

/// `form_urlencoded::parse`: the pairs of a form.
#[verifier::external_body]
fn read_form(body: &[u8]) -> (r: Vec<(String, String)>)
    ensures
        library::header_views(r@) == form_pairs(body@),
{
    form_urlencoded::parse(body).into_owned().collect()
}

/// The values of the pairs with a key, in their order.
pub open spec fn values_of(pairs: Seq<(Seq<char>, Seq<char>)>, key: Seq<char>) -> Seq<Seq<char>>
    decreases pairs.len(),
{
    if pairs.len() == 0 {
        Seq::empty()
    } else if pairs.last().0 == key {
        values_of(pairs.drop_last(), key).push(pairs.last().1)
    } else {
        values_of(pairs.drop_last(), key)
    }
}

/// The values of the pairs with a key.
pub fn select_values(pairs: &Vec<(String, String)>, key: &str) -> (r: Vec<String>)
    ensures
        text::list(r@) == values_of(library::header_views(pairs@), key@),
{
    let ghost all = library::header_views(pairs@);
    let mut out: Vec<String> = Vec::new();
    let mut i: usize = 0;
    assert(all.take(0) =~= Seq::<(Seq<char>, Seq<char>)>::empty());
    assert(text::list(out@) =~= Seq::<Seq<char>>::empty());
    while i < pairs.len()
        invariant
            i <= pairs@.len(),
            all == library::header_views(pairs@),
            text::list(out@) == values_of(all.take(i as int), key@),
        decreases pairs@.len() - i,
    {
        proof {
            let t = all.take(i + 1);
            assert(t.drop_last() =~= all.take(i as int));
            assert(t.last() == (pairs@[i as int].0@, pairs@[i as int].1@));
        }
        if text::same(pairs[i].0.as_str(), key) {
            let ghost o0 = out@;
            out.push(pairs[i].1.clone());
            assert(text::list(out@) =~= text::list(o0).push(pairs@[i as int].1@));
        }
        i += 1;
    }
    assert(all.take(i as int) =~= all);
    out
}

/// The values of the checkboxes that were ticked.
pub fn confirmed_values(body: &[u8]) -> (r: Vec<String>)
    ensures
        text::list(r@) == values_of(form_pairs(body@), "entry"@),
{
    let pairs: Vec<(String, String)> = read_form(body);
    select_values(&pairs, "entry")
}

/// The events of a change in the number of items: the count and the title of the banner.
pub open spec fn count_events(q: QueueState) -> Seq<EventView> {
    seq![
        EventView { name: "cards-count"@, data: render::count_html(q.items.len(), q.pending()) },
        EventView {
            name: "status-title"@,
            data: render::banner(import::first_active(q), q.pending()).title,
        },
    ]
}

/// The events of a change in the number of items.
pub fn emit_count_status(queue: &Queue) -> (r: Vec<Event>)
    ensures
        render::event_views(r@) == count_events(queue@),
{
    let pending: usize = queue.count_pending();
    let r: Vec<Event> = vec![
        Event::CardsCount(render::render_cards_count(queue.items.len(), pending)),
        Event::StatusTitle(render::StatusParts::new(import::find_active(queue), pending).title),
    ];
    assert(render::event_views(r@) =~= count_events(queue@));
    r
}

/// What approved videos led to.
#[verifier::ext_equal]
pub struct BatchView {
    pub queue: QueueState,
    pub events: Seq<EventView>,
    /// Thumbnails to fetch, by item and URL.
    pub thumbs: Seq<(u64, Seq<char>)>,
    /// The number of videos that had been downloaded before.
    pub known: nat,
}

/// The card of an item in front of the others.
pub open spec fn added_event(q: QueueState, id: u64) -> Seq<EventView> {
    if q.holds(id) {
        seq![EventView { name: "card-added"@, data: render::card_html(q.item(id)) }]
    } else {
        Seq::empty()
    }
}

/// A batch after one more approved video: a new one is appended, and one that was downloaded before
/// moves to the front. A value that could not be read is left out.
pub open spec fn approved(b: BatchView, e: Option<ApprovalView>, now: Stamp) -> BatchView {
    match e {
        None => b,
        Some(e) => if b.queue.downloaded(e.url) {
            let q = b.queue.resurfaced(e.url, now);
            let id =
                b.queue.items[state::first_where(b.queue.items, state::is_done_url(e.url))].id;
            BatchView {
                queue: q,
                events: b.events + seq![worker::card_event(id, Seq::empty())] + added_event(q, id),
                known: b.known + 1,
                ..b
            }
        } else {
            let q = b.queue.appended(e.url, e.title, e.duration, now);
            let id = b.queue.next_id;
            BatchView {
                queue: q,
                events: b.events + added_event(q, id),
                thumbs: match e.thumbnail {
                    Some(t) => b.thumbs.push((id, t)),
                    None => b.thumbs,
                },
                ..b
            }
        },
    }
}

pub open spec fn opt_approvals(v: Seq<Option<ApprovalEntry>>) -> Seq<Option<ApprovalView>> {
    v.map_values(
        |e: Option<ApprovalEntry>|
            match e {
                Some(e) => Some(e@),
                None => None,
            },
    )
}

/// A batch after approved videos.
pub open spec fn batch(q: QueueState, v: Seq<Option<ApprovalView>>, now: Stamp) -> BatchView
    decreases v.len(),
{
    if v.len() == 0 {
        BatchView { queue: q, events: Seq::empty(), thumbs: Seq::empty(), known: 0 }
    } else {
        approved(batch(q, v.drop_last(), now), v.last(), now)
    }
}

/// The notice that videos had been downloaded before.
pub open spec fn known_text(n: nat) -> Seq<char> {
    if n == 1 {
        "Already downloaded \u{2014} de-duplicated; moved to the top."@
    } else {
        "De-duplicated "@ + text::dec(n)
            + " already-downloaded video(s); moved the latest to the top."@
    }
}

/// The notice that videos had been downloaded before, where there were any.
pub open spec fn known_events(n: nat) -> Seq<EventView> {
    if n > 0 {
        seq![EventView { name: "toast"@, data: render::ack_html(known_text(n), false) }]
    } else {
        Seq::empty()
    }
}

/// What approved videos led to: events, and thumbnails to fetch, by item and URL.
#[derive(Debug)]
pub struct Confirmed {
    pub events: Vec<Event>,
    pub thumbs: Vec<(u64, String)>,
}

fn known_message(n: usize) -> (r: String)
    ensures
        r@ == known_text(n as nat),
{
    if n == 1 {
        return "Already downloaded \u{2014} de-duplicated; moved to the top.".to_string();
    }
    let mut out = "De-duplicated ".to_string();
    text::push_dec(&mut out, n as u64);
    out.append(" already-downloaded video(s); moved the latest to the top.");
    out
}

fn push_added(events: &mut Vec<Event>, queue: &Queue, id: u64)
    ensures
        render::event_views(final(events)@) == render::event_views(old(events)@) + added_event(
            queue@,
            id,
        ),
{
    if let Some(item) = queue.get(id) {
        events.push(Event::CardAdded(render::render_card(item)));
    }
    assert(render::event_views(events@) =~= render::event_views(old(events)@) + added_event(
        queue@,
        id,
    ));
}

/// Enqueues approved videos at `now`.
pub fn confirm_at(queue: &mut Queue, entries: Vec<Option<ApprovalEntry>>, now: Stamp) -> (r:
    Confirmed)
    requires
        old(queue).next_id + entries@.len() <= u64::MAX,
    ensures
        ({
            let b = batch(old(queue)@, opt_approvals(entries@), now);
            &&& final(queue)@ == b.queue
            &&& import::need_views(r.thumbs@) == b.thumbs
            &&& render::event_views(r.events@) == b.events + count_events(b.queue) + known_events(
                b.known,
            )
        }),
{
    let ghost all = opt_approvals(entries@);
    let ghost whole = entries@;
    let ghost q0 = queue@;
    let mut rest: Vec<Option<ApprovalEntry>> = entries;
    let n: usize = rest.len();
    let mut events: Vec<Event> = Vec::new();
    let mut thumbs: Vec<(u64, String)> = Vec::new();
    let mut known: usize = 0;
    let mut i: usize = 0;
    proof {
        assert(all.take(0) =~= Seq::<Option<ApprovalView>>::empty());
        assert(render::event_views(events@) =~= Seq::<EventView>::empty());
        assert(import::need_views(thumbs@) =~= Seq::<(u64, Seq<char>)>::empty());
    }
    while i < n
        invariant
            i <= n == whole.len(),
            all == opt_approvals(whole),
            rest@ == whole.skip(i as int),
            q0.next_id + n <= u64::MAX,
            queue.next_id <= q0.next_id + i,
            known <= i,
            queue@ == batch(q0, all.take(i as int), now).queue,
            render::event_views(events@) == batch(q0, all.take(i as int), now).events,
            import::need_views(thumbs@) == batch(q0, all.take(i as int), now).thumbs,
            known == batch(q0, all.take(i as int), now).known,
        decreases n - i,
    {
        let e: Option<ApprovalEntry> = rest.remove(0);
        proof {
            assert(e == whole[i as int]);
            assert(rest@ =~= whole.skip(i + 1));
            let t = all.take(i + 1);
            assert(t.drop_last() =~= all.take(i as int));
            assert(t.last() == all[i as int]);
        }
        if let Some(e) = e {
            let thumb: Option<String> = e.thumbnail;
            match queue.submit_at(e.url, e.title, e.duration, now) {
                EnqueueResult::Added(id) => {
                    if let Some(t) = thumb {
                        let ghost t0 = thumbs@;
                        thumbs.push((id, t));
                        assert(import::need_views(thumbs@) =~= import::need_views(t0).push(
                            (id, t@),
                        ));
                    }
                    push_added(&mut events, queue, id);
                },
                EnqueueResult::Subsumed(id) => {
                    known += 1;
                    let ghost e0 = events@;
                    events.push(Event::Card { id, html: String::new() });
                    proof {
                        assert(events@.last()@.data =~= Seq::<char>::empty());
                        assert(render::event_views(events@) =~= render::event_views(e0) + seq![
                            worker::card_event(id, Seq::empty()),
                        ]);
                    }
                    push_added(&mut events, queue, id);
                },
            }
        }
        i += 1;
    }
    assert(all.take(n as int) =~= all);
    let ghost b = batch(q0, all, now);
    let ghost e1 = events@;
    let mut more: Vec<Event> = emit_count_status(queue);
    let ghost m1 = more@;
    events.append(&mut more);
    proof {
        assert(events@ =~= e1 + m1);
        assert(render::event_views(events@) =~= b.events + count_events(b.queue));
    }
    if known > 0 {
        let ghost e2 = events@;
        events.push(Event::Toast(render::render_ack(known_message(known).as_str(), false)));
        assert(render::event_views(events@) =~= render::event_views(e2) + known_events(b.known));
    } else {
        assert(render::event_views(events@) =~= render::event_views(events@) + known_events(
            b.known,
        ));
    }
    Confirmed { events, thumbs }
}

/// Enqueues approved videos now.
pub fn confirm(queue: &mut Queue, entries: Vec<Option<ApprovalEntry>>) -> (r: Confirmed)
    requires
        old(queue).next_id + entries@.len() <= u64::MAX,
    ensures
        exists|now: Stamp|
            #![trigger batch(old(queue)@, opt_approvals(entries@), now)]
            now.offset == 0 && ({
                let b = batch(old(queue)@, opt_approvals(entries@), now);
                &&& final(queue)@ == b.queue
                &&& import::need_views(r.thumbs@) == b.thumbs
                &&& render::event_views(r.events@) == b.events + count_events(b.queue)
                    + known_events(b.known)
            }),
{
    confirm_at(queue, entries, clock::now())
}

/// The form after videos were approved, with a message where none were.
pub fn confirm_reply(ticked: usize) -> (r: String)
    ensures
        r@ == render::header_html(
            if ticked == 0 {
                Some("select at least one video"@)
            } else {
                None
            },
        ),
{
    if ticked == 0 {
        render::render_header_input(Some("select at least one video"))
    } else {
        render::render_header_input(None)
    }
}

/// The answer to a request that may have changed the queue.
#[derive(Debug)]
pub struct Answer {
    /// The notice for the one who asked.
    pub ack: String,
    pub events: Vec<Event>,
    /// Whether the queue changed and is to be saved.
    pub changed: bool,
    /// The token that is to be tripped, by which a running download ends.
    pub trip: Option<CancellationToken>,
}

/// An answer that changed nothing.
pub open spec fn says(r: Answer, msg: Seq<char>, err: bool) -> bool {
    r.ack@ == render::ack_html(msg, err) && r.events@.len() == 0 && !r.changed && r.trip is None
}

/// `FRONT ID BACK`, as in `item 7 not active`.
pub open spec fn about(front: Seq<char>, id: u64, back: Seq<char>) -> Seq<char> {
    front + text::dec(id as nat) + back
}

fn phrase(front: &str, id: u64, back: &str) -> (r: String)
    ensures
        r@ == about(front@, id, back@),
{
    let mut out = front.to_string();
    text::push_dec(&mut out, id);
    out.append(back);
    out
}

fn answer(front: &str, id: u64, back: &str, err: bool) -> (r: Answer)
    ensures
        says(r, about(front@, id, back@), err),
{
    Answer {
        ack: render::render_ack(phrase(front, id, back).as_str(), err),
        events: Vec::new(),
        changed: false,
        trip: None,
    }
}

/// The events of an item that left the queue: its card goes, and the count changes.
pub open spec fn removal_events(q: QueueState, id: u64) -> Seq<EventView> {
    seq![worker::card_event(id, Seq::empty())] + count_events(q)
}

fn emit_removal(queue: &Queue, id: u64) -> (r: Vec<Event>)
    ensures
        render::event_views(r@) == removal_events(queue@, id),
{
    let mut events: Vec<Event> = Vec::new();
    events.push(Event::Card { id, html: String::new() });
    let ghost e1 = events@;
    let mut more: Vec<Event> = emit_count_status(queue);
    let ghost m1 = more@;
    events.append(&mut more);
    proof {
        assert(events@ =~= e1 + m1);
        assert(e1[0]@.data =~= Seq::<char>::empty());
        assert(render::event_views(events@) =~= removal_events(queue@, id));
    }
    events
}

/// Cancels an item: a pending one leaves the queue, an active one stays and its own token is handed
/// out to be tripped, and nothing else changes.
pub fn post_cancel(queue: &mut Queue, id: u64) -> (r: Answer)
    ensures
        ({
            let q = old(queue)@;
            if !q.holds(id) {
                final(queue)@ == q && says(r, about("no such item "@, id, ""@), false)
            } else {
                match q.item(id).status {
                    ItemStatus::Pending => {
                        &&& final(queue)@ == q.dropped(state::is_pending_id(id))
                        &&& r.changed
                        &&& r.trip is None
                        &&& r.ack@ == render::ack_html(about("cancelled item "@, id, ""@), false)
                        &&& render::event_views(r.events@) == removal_events(final(queue)@, id)
                    },
                    ItemStatus::Active => {
                        &&& final(queue)@ == q
                        &&& !r.changed
                        &&& r.trip == q.item(id).cancel
                        &&& r.ack@ == render::ack_html(
                            about("cancelling item "@, id, " ..."@),
                            false,
                        )
                        &&& r.events@.len() == 0
                    },
                    _ => final(queue)@ == q && says(r, about("item "@, id, " not active"@), false),
                }
            }
        }),
{
    let status: ItemStatus = match queue.get(id) {
        Some(item) => item.status,
        None => {
            return answer("no such item ", id, "", false);
        },
    };
    match status {
        ItemStatus::Pending => {
            let _removed: bool = queue.remove_pending(id);
            Answer {
                ack: render::render_ack(phrase("cancelled item ", id, "").as_str(), false),
                events: emit_removal(queue, id),
                changed: true,
                trip: None,
            }
        },
        ItemStatus::Active => {
            let mut r: Answer = answer("cancelling item ", id, " ...", false);
            if let Some(item) = queue.get(id) {
                if let Some(token) = &item.cancel {
                    r.trip = Some(token.clone());
                }
            }
            r
        },
        _ => answer("item ", id, " not active", false),
    }
}

/// An item that is queued again: pending, with nothing of the last attempt but its log.
pub open spec fn retried(item: ItemView) -> ItemView {
    ItemView {
        status: ItemStatus::Pending,
        progress: None,
        error: None,
        reported: false,
        filename: None,
        cancel: None,
        ..item
    }
}

/// The queue as the item `id` is queued again, behind all others.
pub open spec fn queue_retried(q: QueueState, id: u64) -> QueueState {
    QueueState {
        items: q.items.remove(q.index_of(id)).push(retried(q.item(id))),
        ..q
    }
}

/// The events of an item that moved to the front of the cards.
pub open spec fn moved_events(q: QueueState, id: u64, item: ItemView) -> Seq<EventView> {
    seq![
        worker::card_event(id, Seq::empty()),
        EventView { name: "card-added"@, data: render::card_html(item) },
    ] + count_events(q)
}

/// Queues an item again, behind all others. One that is active or done is refused.
pub fn post_retry(queue: &mut Queue, id: u64) -> (r: Answer)
    ensures
        ({
            let q = old(queue)@;
            if !q.holds(id) {
                final(queue)@ == q && says(r, about("no such item "@, id, ""@), true)
            } else if q.item(id).status == ItemStatus::Active {
                final(queue)@ == q && says(
                    r,
                    about("item "@, id, " is active; cancel it first"@),
                    true,
                )
            } else if q.item(id).status == ItemStatus::Done {
                final(queue)@ == q && says(
                    r,
                    about(
                        "item "@,
                        id,
                        " already downloaded; delete the file to re-download"@,
                    ),
                    true,
                )
            } else {
                &&& final(queue)@ == queue_retried(q, id)
                &&& r.changed
                &&& r.trip is None
                &&& r.ack@ == render::ack_html(about("requeued item "@, id, ""@), false)
                &&& render::event_views(r.events@) == moved_events(
                    final(queue)@,
                    id,
                    retried(q.item(id)),
                )
            }
        }),
{
    let i: usize = queue.position(id);
    if i >= queue.items.len() {
        return answer("no such item ", id, "", true);
    }
    assert(queue@.items[i as int] == queue.items@[i as int]@);
    if queue.items[i].status == ItemStatus::Active {
        return answer("item ", id, " is active; cancel it first", true);
    }
    if queue.items[i].status == ItemStatus::Done {
        return answer("item ", id, " already downloaded; delete the file to re-download", true);
    }
    let mut item: QueueItem = queue.items.remove(i);
    let ghost before = item@;
    item.status = ItemStatus::Pending;
    item.progress = None;
    item.error = None;
    item.reported = false;
    item.filename = None;
    item.cancel = None;
    let ghost after = item@;
    assert(after == retried(before));
    let html: String = render::render_card(&item);
    queue.items.push(item);
    assert(queue@.items =~= queue_retried(old(queue)@, id).items);
    let mut events: Vec<Event> = Vec::new();
    events.push(Event::Card { id, html: String::new() });
    events.push(Event::CardAdded(html));
    let ghost e1 = events@;
    let mut more: Vec<Event> = emit_count_status(queue);
    let ghost m1 = more@;
    events.append(&mut more);
    proof {
        assert(events@ =~= e1 + m1);
        assert(e1[0]@.data =~= Seq::<char>::empty());
        assert(render::event_views(events@) =~= moved_events(queue@, id, after));
    }
    Answer {
        ack: render::render_ack(phrase("requeued item ", id, "").as_str(), false),
        events,
        changed: true,
        trip: None,
    }
}

/// Whether an item may be deleted.
#[derive(Debug)]
pub enum DeletePlan {
    /// No: the answer says why.
    Refused(Answer),
    /// Yes, together with its file where it has one.
    Delete(Option<String>),
}

/// Decides whether an item may be deleted: only one that is over.
pub fn plan_delete(queue: &Queue, id: u64) -> (r: DeletePlan)
    ensures
        match r {
            DeletePlan::Refused(a) => {
                ||| !queue@.holds(id) && says(a, about("no such item "@, id, ""@), false)
                ||| queue@.holds(id) && !queue@.item(id).status.terminal() && says(
                    a,
                    about("item "@, id, " is not finished; cancel it first"@),
                    true,
                )
            },
            DeletePlan::Delete(f) => queue@.holds(id) && queue@.item(id).status.terminal()
                && text::opt(f) == queue@.item(id).filename,
        },
{
    match queue.get(id) {
        None => DeletePlan::Refused(answer("no such item ", id, "", false)),
        Some(item) => if item.status.is_terminal() {
            DeletePlan::Delete(text::copy_opt(&item.filename))
        } else {
            DeletePlan::Refused(answer("item ", id, " is not finished; cancel it first", true))
        },
    }
}

/// The notice of a deleted item, with the reason why its file could not be deleted.
pub open spec fn deleted_text(id: u64, file_error: Option<Seq<char>>) -> Seq<char> {
    match file_error {
        Some(e) => about("deleted item "@, id, " (file: "@) + e + ")"@,
        None => about("deleted item "@, id, ""@),
    }
}

/// Deletes an item that is over, once its file was deleted or could not be.
pub fn post_delete_item(queue: &mut Queue, id: u64, file_error: Option<String>) -> (r: Answer)
    ensures
        final(queue)@ == old(queue)@.dropped(state::is_over_id(id)),
        r.ack@ == render::ack_html(deleted_text(id, text::opt(file_error)), false),
        r.changed == (state::first_where(old(queue)@.items, state::is_over_id(id))
            < old(queue)@.items.len()),
        r.changed ==> render::event_views(r.events@) == removal_events(final(queue)@, id),
        !r.changed ==> r.events@.len() == 0,
        r.trip is None,
{
    let removed: bool = queue.remove_terminal(id);
    let events: Vec<Event> = if removed {
        emit_removal(queue, id)
    } else {
        Vec::new()
    };
    let msg: String = match file_error {
        Some(e) => {
            let mut m = phrase("deleted item ", id, " (file: ");
            m.append(e.as_str());
            m.append(")");
            m
        },
        None => phrase("deleted item ", id, ""),
    };
    Answer {
        ack: render::render_ack(msg.as_str(), false),
        events,
        changed: removed,
        trip: None,
    }
}

/// The notice that a rescan was started.
pub fn post_rescan() -> (r: String)
    ensures
        r@ == render::ack_html("rescanning\u{2026}"@, false),
{
    render::render_ack("rescanning\u{2026}", false)
}

/// The payload of an event on the wire. An event without data would not reach the page, so an empty
/// payload is sent as an empty comment.
pub open spec fn wire_data(data: Seq<char>) -> Seq<char> {
    if data.len() == 0 {
        "<!---->"@
    } else {
        data
    }
}

/// The payload of an event on the wire.
pub fn sse_data(data: &str) -> (r: &str)
    ensures
        r@ == wire_data(data@),
{
    if data.unicode_len() == 0 {
        "<!---->"
    } else {
        data
    }
}

/// Every event reaches the page: its payload is never empty.
pub proof fn law_payload_is_never_empty(data: Seq<char>)
    ensures
        wire_data(data).len() > 0,
{
    reveal_strlit("<!---->");
}

/// Log lines as events.
pub open spec fn replayed(lines: Seq<Seq<char>>) -> Seq<EventView> {
    lines.map_values(|l: Seq<char>| EventView { name: "log"@, data: render::log_line_html(l) })
}

/// The list of files as events: one where there is a list.
pub open spec fn listed(files: Option<Seq<library::FileView>>) -> Seq<EventView> {
    match files {
        Some(v) => seq![EventView { name: "library"@, data: library::library_html(v) }],
        None => Seq::empty(),
    }
}

/// The events that bring a page up to date: the cards, the banner, the list of files where it is
/// given, and the log.
pub open spec fn snapshot_events(
    q: QueueState,
    files: Option<Seq<library::FileView>>,
    lines: Seq<Seq<char>>,
) -> Seq<EventView> {
    seq![EventView { name: "queue"@, data: render::queue_html(q) }] + render::banner_events(
        render::banner(import::first_active(q), q.pending()),
    ) + listed(files) + replayed(lines)
}

/// The events that bring a fresh page up to date, with the list of files, or one that lags, without
/// it.
pub fn snapshot(
    queue: &Queue,
    files: Option<&Vec<LibraryFile>>,
    ring: &RingBuffer<String>,
) -> (r: Vec<Event>)
    ensures
        render::event_views(r@) == snapshot_events(
            queue@,
            match files {
                Some(f) => Some(library::file_views(f@)),
                None => None,
            },
            text::list(ring.entries()),
        ),
{
    let ghost shown = match files {
        Some(f) => Some(library::file_views(f@)),
        None => None,
    };
    let mut events: Vec<Event> = Vec::new();
    events.push(Event::Queue(render::render_queue(queue)));
    let ghost e0 = events@;
    let mut slots: Vec<Event> = render::status_events(
        import::find_active(queue),
        queue.count_pending(),
    );
    let ghost s0 = slots@;
    events.append(&mut slots);
    let ghost banner = events@;
    proof {
        assert(banner =~= e0 + s0);
    }
    if let Some(f) = files {
        events.push(library::listing(f));
    }
    let ghost front = events@;
    proof {
        assert(render::event_views(front) =~= render::event_views(banner) + listed(shown));
    }
    let lines: Vec<&String> = ring.snapshot();
    let frags: Vec<String> = render::snapshot_log_lines(lines.as_slice());
    let mut i: usize = 0;
    let ghost all = text::list(ring.entries());
    while i < frags.len()
        invariant
            i <= frags@.len() == all.len(),
            all == text::list(ring.entries()),
            forall|j: int| 0 <= j < frags@.len() ==> (#[trigger] frags@[j])@
                == render::log_line_html(all[j]),
            render::event_views(events@) == render::event_views(front) + replayed(
                all.take(i as int),
            ),
        decreases frags@.len() - i,
    {
        let ghost before = events@;
        events.push(Event::Log(frags[i].clone()));
        proof {
            assert(frags@[i as int]@ == render::log_line_html(all[i as int]));
            let ev = EventView { name: "log"@, data: render::log_line_html(all[i as int]) };
            assert(events@.last()@ == ev);
            assert(render::event_views(events@) =~= render::event_views(before).push(ev));
            assert(replayed(all.take(i + 1)) =~= replayed(all.take(i as int)).push(ev));
            assert(render::event_views(events@) =~= render::event_views(front) + replayed(
                all.take(i + 1),
            ));
        }
        i += 1;
    }
    proof {
        assert(all.take(i as int) =~= all);
        assert(render::event_views(events@) =~= snapshot_events(queue@, shown, all));
    }
    events
}

/// The tag that a request says it has, compared byte by byte.
fn tag_matches(asked: Option<&[u8]>, tag: &str) -> (r: bool)
    ensures
        r == (asked is Some && asked->0@ == vstd::utf8::encode_utf8(tag@)),
{
    match asked {
        None => false,
        Some(a) => library::same_bytes(a, tag.as_bytes()),
    }
}

/// The head of a reply with an asset: its status and its headers. The body follows with status 200
/// alone.
#[derive(Debug)]
pub struct AssetReply {
    pub status: u16,
    pub headers: Vec<(String, String)>,
}

/// The reply with an asset: nothing but its tag where the request has it already.
pub open spec fn asset_headers(
    fresh: bool,
    tag: Seq<char>,
    content_type: Seq<char>,
    cache: Seq<char>,
) -> Seq<(Seq<char>, Seq<char>)> {
    if fresh {
        seq![("etag"@, tag), ("cache-control"@, cache)]
    } else {
        seq![("content-type"@, content_type), ("etag"@, tag), ("cache-control"@, cache)]
    }
}

fn head(name: &str, value: &str) -> (r: (String, String))
    ensures
        r.0@ == name@,
        r.1@ == value@,
{
    (name.to_string(), value.to_string())
}

/// The reply with an asset under a tag.
pub fn reply_tagged(tag: &str, asked: Option<&[u8]>, content_type: &str, cache: &str) -> (r:
    AssetReply)
    ensures
        ({
            let fresh = asked is Some && asked->0@ == vstd::utf8::encode_utf8(tag@);
            &&& r.status == if fresh {
                304u16
            } else {
                200u16
            }
            &&& library::header_views(r.headers@) == asset_headers(
                fresh,
                tag@,
                content_type@,
                cache@,
            )
        }),
{
    if tag_matches(asked, tag) {
        let headers: Vec<(String, String)> = vec![head("etag", tag), head("cache-control", cache)];
        assert(library::header_views(headers@) =~= asset_headers(
            true,
            tag@,
            content_type@,
            cache@,
        ));
        AssetReply { status: 304, headers }
    } else {
        let headers: Vec<(String, String)> = vec![
            head("content-type", content_type),
            head("etag", tag),
            head("cache-control", cache),
        ];
        assert(library::header_views(headers@) =~= asset_headers(
            false,
            tag@,
            content_type@,
            cache@,
        ));
        AssetReply { status: 200, headers }
    }
}

/// The reply with an embedded asset. Its tag is the SHA-1 of its bytes.
pub fn serve_embedded(data: &[u8], content_type: &str, cache: &str, asked: Option<&[u8]>) -> (r:
    AssetReply)
    ensures
        ({
            let tag = seq!['"'] + thumb::hex_text(thumb::sha1_digest(data@)) + seq!['"'];
            let fresh = asked is Some && asked->0@ == vstd::utf8::encode_utf8(tag);
            &&& r.status == if fresh {
                304u16
            } else {
                200u16
            }
            &&& library::header_views(r.headers@) == asset_headers(
                fresh,
                tag,
                content_type@,
                cache@,
            )
        }),
{
    let tag: String = thumb::etag_of(data);
    reply_tagged(tag.as_str(), asked, content_type, cache)
}

/// The tag of a cached thumbnail: its name, which its source determines.
pub open spec fn thumb_tag(name: Seq<char>) -> Seq<char> {
    "\""@ + name + "\""@
}

/// The headers of a reply with a cached thumbnail.
pub open spec fn thumb_headers(fresh: bool, name: Seq<char>, guess: Option<Seq<char>>) -> Seq<
    (Seq<char>, Seq<char>),
> {
    let cache = ("cache-control"@, "public, max-age=31536000, immutable"@);
    if fresh {
        seq![("etag"@, thumb_tag(name)), cache]
    } else {
        seq![
            ("content-type"@, library::type_or(guess, "image/jpeg"@)),
            ("content-disposition"@, "inline; filename=\""@ + name + "\""@),
            ("etag"@, thumb_tag(name)),
            cache,
        ]
    }
}

/// The reply with a cached thumbnail, given the guess of its media type.
pub fn reply_with_thumb(name: &str, guess: Option<String>, asked: Option<&[u8]>) -> (r: AssetReply)
    ensures
        ({
            let fresh = asked is Some && asked->0@ == vstd::utf8::encode_utf8(thumb_tag(name@));
            &&& r.status == if fresh {
                304u16
            } else {
                200u16
            }
            &&& library::header_views(r.headers@) == thumb_headers(fresh, name@, text::opt(guess))
        }),
{
    let mut tag = "\"".to_string();
    tag.append(name);
    tag.append("\"");
    let cache: (String, String) = head("cache-control", "public, max-age=31536000, immutable");
    if tag_matches(asked, tag.as_str()) {
        let headers: Vec<(String, String)> = vec![head("etag", tag.as_str()), cache];
        assert(library::header_views(headers@) =~= thumb_headers(true, name@, text::opt(guess)));
        return AssetReply { status: 304, headers };
    }
    let mut shown = "inline; filename=\"".to_string();
    shown.append(name);
    shown.append("\"");
    let content_type: String = match guess {
        Some(t) => t,
        None => "image/jpeg".to_string(),
    };
    let headers: Vec<(String, String)> = vec![
        head("content-type", content_type.as_str()),
        head("content-disposition", shown.as_str()),
        head("etag", tag.as_str()),
        cache,
    ];
    assert(library::header_views(headers@) =~= thumb_headers(false, name@, text::opt(guess)));
    AssetReply { status: 200, headers }
}

/// The reply with the cached thumbnail `name`, which lies at `path`.
pub fn get_thumb(name: &str, path: &str, asked: Option<&[u8]>) -> (r: AssetReply)
    ensures
        ({
            let fresh = asked is Some && asked->0@ == vstd::utf8::encode_utf8(thumb_tag(name@));
            &&& r.status == if fresh {
                304u16
            } else {
                200u16
            }
            &&& library::header_views(r.headers@) == thumb_headers(
                fresh,
                name@,
                library::mime_type(path@),
            )
        }),
{
    reply_with_thumb(name, library::guess_type(path), asked)
}

/// The names of the icons.
pub open spec fn icons() -> Seq<Seq<char>> {
    seq![
        "download.svg"@,
        "play.svg"@,
        "trash.svg"@,
        "logs.svg"@,
        "stop.svg"@,
        "retry.svg"@,
    ]
}

/// Whether a name is that of an icon.
pub fn static_icon(name: &str) -> (r: bool)
    ensures
        r == icons().contains(name@),
{
    let r: bool = text::same(name, "download.svg") || text::same(name, "play.svg") || text::same(
        name,
        "trash.svg",
    ) || text::same(name, "logs.svg") || text::same(name, "stop.svg") || text::same(
        name,
        "retry.svg",
    );
    proof {
        let s = icons();
        assert(s[0] == "download.svg"@ && s[1] == "play.svg"@ && s[2] == "trash.svg"@ && s[3]
            == "logs.svg"@ && s[4] == "stop.svg"@ && s[5] == "retry.svg"@);
        if s.contains(name@) {
            let i = choose|i: int| 0 <= i < s.len() && s[i] == name@;
            assert(i == 0 || i == 1 || i == 2 || i == 3 || i == 4 || i == 5);
        }
    }
    r
}

/// The log of the item `id`; the hint for an empty one where there is no such item.
pub fn get_logs(queue: &Queue, id: u64) -> (r: String)
    ensures
        r@ == render::log_lines_html(
            if queue@.holds(id) {
                queue@.item(id).logs
            } else {
                Seq::empty()
            },
        ),
{
    match queue.get(id) {
        Some(item) => render::render_log_lines(item.logs.as_slice()),
        None => {
            let none: Vec<String> = Vec::new();
            assert(text::list(none@) =~= Seq::<Seq<char>>::empty());
            render::render_log_lines(none.as_slice())
        },
    }
}

/// The details page of the item `id`, or a page that says it is gone.
pub fn get_item_page(queue: &Queue, id: u64) -> (r: String)
    ensures
        r@ == if queue@.holds(id) {
            render::item_page_html(
                queue@.item(id),
                render::enqueued_text(queue@.item(id).enqueued_at),
            )
        } else {
            render::item_gone_html()
        },
{
    match queue.get(id) {
        Some(item) => render::render_item_page(item),
        None => render::render_item_gone(),
    }
}

/// The event for one step of a probe: a log line, or the result at the end.
pub fn probe_event(url: &str, ev: &worker::ProbeEvent) -> (r: (&'static str, String))
    ensures
        match ev {
            worker::ProbeEvent::Log(line) => r.0@ == "log"@ && r.1@ == render::log_line_html(line@),
            worker::ProbeEvent::Done(o) => r.0@ == "result"@ && r.1@ == render::probe_result_html(
                url@,
                o@.entries,
                o@.single,
                o@.error,
            ),
        },
{
    match ev {
        worker::ProbeEvent::Log(line) => ("log", render::render_log_line(line.as_str())),
        worker::ProbeEvent::Done(o) => {
            let error: Option<&str> = match &o.error {
                Some(e) => Some(e.as_str()),
                None => None,
            };
            (
                "result",
                render::render_probe_result(
                    url,
                    o.entries.as_slice(),
                    o.single.as_ref(),
                    error,
                ),
            )
        },
    }
}

/// A retried item is the last of the queue and pending; the others keep their order and their ids
/// stay unique.
pub proof fn law_retry_goes_to_the_back(q: QueueState, id: u64)
    requires
        q.wf(),
        q.holds(id),
    ensures
        queue_retried(q, id).wf(),
        queue_retried(q, id).items.len() == q.items.len(),
        queue_retried(q, id).items.last() == retried(q.item(id)),
        queue_retried(q, id).items.last().id == id,
        queue_retried(q, id).items.last().status == ItemStatus::Pending,
        queue_retried(q, id).items.last().logs == q.item(id).logs,
        queue_retried(q, id).items.drop_last() == q.items.remove(q.index_of(id)),
{
    let k = q.index_of(id);
    state::lemma_first_where_found(q.items, state::has_id(id));
    let r = queue_retried(q, id);
    let n = q.items.len();
    assert(r.items.drop_last() =~= q.items.remove(k));
    assert forall|i: int| 0 <= i < n implies #[trigger] r.items[i].id == q.items[if i < k {
        i
    } else if i < n - 1 {
        i + 1
    } else {
        k
    }].id by {}
}

/// A retried item is the same video: it keeps its id, its URL, its title, its duration, its thumbnails,
/// its media, its log and its time of enqueueing, and only what the last attempt left is gone.
pub proof fn law_retry_keeps_the_video(q: QueueState, id: u64)
    requires
        q.holds(id),
    ensures
        ({
            let was = q.item(id);
            let now = queue_retried(q, id).items.last();
            &&& now.id == was.id
            &&& now.url == was.url
            &&& now.title == was.title
            &&& now.duration == was.duration
            &&& now.thumbnail == was.thumbnail
            &&& now.thumbnails == was.thumbnails
            &&& now.media == was.media
            &&& now.logs == was.logs
            &&& now.enqueued_at == was.enqueued_at
            &&& now.status == ItemStatus::Pending
            &&& now.progress is None
            &&& now.error is None
            &&& !now.reported
            &&& now.filename is None
            &&& now.cancel is None
        }),
        queue_retried(q, id).next_id == q.next_id,
        queue_retried(q, id).items.len() == q.items.len(),
        forall|i: int|
            0 <= i < q.items.len() - 1 ==> #[trigger] queue_retried(q, id).items[i] == q.items[if i
                < q.index_of(id) {
                i
            } else {
                i + 1
            }],
{
    state::lemma_first_where_found(q.items, state::has_id(id));
}

/// Approving videos keeps ids unique, never removes an item, and adds at most one for each video.
pub proof fn law_confirm_keeps_the_queue(q: QueueState, v: Seq<Option<ApprovalView>>, now: Stamp)
    requires
        q.wf(),
        q.next_id + v.len() <= u64::MAX,
    ensures
        batch(q, v, now).queue.wf(),
        q.next_id <= batch(q, v, now).queue.next_id <= q.next_id + v.len(),
        q.items.len() <= batch(q, v, now).queue.items.len() <= q.items.len() + v.len(),
        batch(q, v, now).queue.items.len() - q.items.len() == batch(q, v, now).queue.next_id
            - q.next_id,
    decreases v.len(),
{
    if v.len() > 0 {
        law_confirm_keeps_the_queue(q, v.drop_last(), now);
        let b = batch(q, v.drop_last(), now);
        if let Some(e) = v.last() {
            if b.queue.downloaded(e.url) {
                state::law_resurface_adds_nothing(b.queue, e.url, now);
            } else {
                state::law_fresh_ids(b.queue, e.url, e.title, e.duration, now);
            }
        }
    }
}

/// A video that was downloaded is not downloaded again: approving it leaves the number of items and
/// of pending items as they were, and reports it.
pub proof fn law_downloaded_is_not_queued_again(q: QueueState, e: ApprovalView, now: Stamp)
    requires
        q.wf(),
        q.downloaded(e.url),
    ensures
        ({
            let b = batch(q, seq![Some(e)], now);
            &&& b.queue.items.len() == q.items.len()
            &&& b.queue.pending() == q.pending()
            &&& b.queue.items.last().url == e.url
            &&& b.queue.items.last().status == ItemStatus::Done
            &&& b.known == 1
            &&& b.thumbs.len() == 0
        }),
{
    state::law_resurface_adds_nothing(q, e.url, now);
    let v = seq![Some(e)];
    assert(v.drop_last() =~= Seq::<Option<ApprovalView>>::empty());
    reveal_with_fuel(batch, 2);
    assert(batch(q, v.drop_last(), now).queue == q);
}

/// A cancelled pending item is gone, and no other item is.
pub proof fn law_cancel_removes_one(q: QueueState, id: u64)
    requires
        q.wf(),
        q.holds(id),
        q.item(id).status == ItemStatus::Pending,
    ensures
        q.dropped(state::is_pending_id(id)).wf(),
        q.dropped(state::is_pending_id(id)).items == q.items.remove(q.index_of(id)),
{
    state::law_removal_is_targeted(q, id);
    state::law_removal_keeps_ids(q, state::is_pending_id(id));
}

/// Only the worker starts downloads: approving videos, retrying an item that is not active and
/// removing one leave no more items active than there were.
pub proof fn law_requests_start_no_download(
    q: QueueState,
    v: Seq<Option<ApprovalView>>,
    now: Stamp,
    id: u64,
    p: spec_fn(ItemView) -> bool,
)
    requires
        q.wf(),
        q.next_id + v.len() <= u64::MAX,
    ensures
        batch(q, v, now).queue.active() == q.active(),
        q.holds(id) && q.item(id).status != ItemStatus::Active ==> queue_retried(q, id).active()
            == q.active(),
        q.dropped(p).active() <= q.active(),
    decreases v.len(),
{
    let a = state::is_active();
    let k = q.index_of(id);
    if q.holds(id) {
        state::lemma_first_where_found(q.items, state::has_id(id));
        state::lemma_count_remove(q.items, a, k);
        state::lemma_count_push(q.items.remove(k), a, retried(q.item(id)));
    }
    let i = state::first_where(q.items, p);
    state::lemma_first_where_found(q.items, p);
    if i < q.items.len() {
        state::lemma_count_remove(q.items, a, i);
    }
    if v.len() > 0 {
        law_requests_start_no_download(q, v.drop_last(), now, id, p);
        law_confirm_keeps_the_queue(q, v.drop_last(), now);
        let b = batch(q, v.drop_last(), now);
        if let Some(e) = v.last() {
            if b.queue.downloaded(e.url) {
                state::law_resurface_adds_nothing(b.queue, e.url, now);
            } else {
                state::lemma_count_push(
                    b.queue.items,
                    a,
                    b.queue.appended(e.url, e.title, e.duration, now).items.last(),
                );
            }
        }
    }
}

/// Whether an item is one of `items`, by its id and its URL.
#[verifier::opaque]
pub open spec fn was_there(items: Seq<ItemView>, item: ItemView) -> bool {
    exists|k: int| 0 <= k < items.len() && (#[trigger] items[k]).id == item.id && items[k].url
        == item.url
}

/// Whether a URL is that of an approved video.
pub open spec fn is_approved(v: Seq<Option<ApprovalView>>, url: Seq<char>) -> bool {
    exists|j: int| 0 <= j < v.len() && (#[trigger] v[j]) is Some && v[j]->0.url == url
}

/// Whether an item for this URL is in the queue.
#[verifier::opaque]
pub open spec fn has_url(q: QueueState, url: Seq<char>) -> bool {
    exists|i: int| 0 <= i < q.items.len() && (#[trigger] q.items[i]).url == url
}

proof fn lemma_approval_moves(q: QueueState, e: ApprovalView, now: Stamp, r: QueueState)
    requires
        r == if q.downloaded(e.url) {
            q.resurfaced(e.url, now)
        } else {
            q.appended(e.url, e.title, e.duration, now)
        },
    ensures
        has_url(r, e.url),
        forall|i: int|
            0 <= i < r.items.len() ==> was_there(q.items, #[trigger] r.items[i]) || r.items[i].url
                == e.url,
        forall|i: int| 0 <= i < q.items.len() ==> was_there(r.items, #[trigger] q.items[i]),
{
    reveal(was_there);
    reveal(has_url);
    if q.downloaded(e.url) {
        let p = state::is_done_url(e.url);
        let k = state::first_where(q.items, p);
        state::lemma_first_where_found(q.items, p);
        let w = choose|j: int|
            0 <= j < q.items.len() && #[trigger] q.items[j].url == e.url && q.items[j].status
                == ItemStatus::Done;
        assert(p(q.items[w]));
        assert(k < q.items.len());
        let n = q.items.len();
        assert(r.items[n - 1].url == e.url);
        assert forall|i: int| 0 <= i < n implies was_there(q.items, #[trigger] r.items[i])
            || r.items[i].url == e.url by {
            if i < k {
                assert(q.items[i].id == r.items[i].id);
            } else if i < n - 1 {
                assert(q.items[i + 1].id == r.items[i].id);
            }
        }
        assert forall|i: int| 0 <= i < n implies was_there(r.items, #[trigger] q.items[i]) by {
            let at = if i < k {
                i
            } else if i == k {
                n - 1
            } else {
                i - 1
            };
            assert(r.items[at].id == q.items[i].id);
        }
    } else {
        let n = q.items.len();
        assert(r.items[n as int].url == e.url);
        assert forall|i: int| 0 <= i < r.items.len() implies was_there(
            q.items,
            #[trigger] r.items[i],
        ) || r.items[i].url == e.url by {
            if i < n {
                assert(q.items[i].id == r.items[i].id);
            }
        }
        assert forall|i: int| 0 <= i < n implies was_there(r.items, #[trigger] q.items[i]) by {
            assert(r.items[i].id == q.items[i].id);
        }
    }
}

proof fn lemma_was_there_twice(a: Seq<ItemView>, b: Seq<ItemView>, item: ItemView)
    requires
        was_there(b, item),
        forall|i: int| 0 <= i < b.len() ==> was_there(a, #[trigger] b[i]),
    ensures
        was_there(a, item),
{
    reveal(was_there);
    let k = choose|k: int| 0 <= k < b.len() && (#[trigger] b[k]).id == item.id && b[k].url
        == item.url;
    assert(was_there(a, b[k]));
    let m = choose|m: int| 0 <= m < a.len() && (#[trigger] a[m]).id == b[k].id && a[m].url
        == b[k].url;
    assert(a[m].id == item.id);
}

proof fn lemma_was_there_or_approved(
    q: Seq<ItemView>,
    a: Seq<ItemView>,
    v: Seq<Option<ApprovalView>>,
    item: ItemView,
)
    requires
        was_there(a, item),
        forall|i: int|
            0 <= i < a.len() ==> was_there(q, #[trigger] a[i]) || is_approved(v, a[i].url),
    ensures
        was_there(q, item) || is_approved(v, item.url),
{
    reveal(was_there);
    let k = choose|k: int| 0 <= k < a.len() && (#[trigger] a[k]).id == item.id && a[k].url
        == item.url;
    assert(was_there(q, a[k]) || is_approved(v, a[k].url));
    if was_there(q, a[k]) {
        let m = choose|m: int| 0 <= m < q.len() && (#[trigger] q[m]).id == a[k].id && q[m].url
            == a[k].url;
        assert(q[m].id == item.id);
    }
}

proof fn lemma_url_stays(a: QueueState, b: QueueState, url: Seq<char>)
    requires
        has_url(a, url),
        forall|i: int| 0 <= i < a.items.len() ==> was_there(b.items, #[trigger] a.items[i]),
    ensures
        has_url(b, url),
{
    reveal(was_there);
    reveal(has_url);
    let k = choose|k: int| 0 <= k < a.items.len() && (#[trigger] a.items[k]).url == url;
    assert(was_there(b.items, a.items[k]));
    let m = choose|m: int|
        0 <= m < b.items.len() && (#[trigger] b.items[m]).id == a.items[k].id && b.items[m].url
            == a.items[k].url;
    assert(b.items[m].url == url);
}

proof fn lemma_still_approved(v: Seq<Option<ApprovalView>>, url: Seq<char>)
    requires
        v.len() > 0,
        is_approved(v.drop_last(), url),
    ensures
        is_approved(v, url),
{
    let u = v.drop_last();
    let j = choose|j: int| 0 <= j < u.len() && (#[trigger] u[j]) is Some && u[j]->0.url == url;
    assert(v[j] is Some);
}

/// Exactly the approved videos are queued: every item is one that was there or an approved video,
/// every item that was there stays, and every approved video is in the queue.
pub proof fn law_only_approved_are_queued(q: QueueState, v: Seq<Option<ApprovalView>>, now: Stamp)
    ensures
        forall|i: int|
            0 <= i < batch(q, v, now).queue.items.len() ==> was_there(
                q.items,
                #[trigger] batch(q, v, now).queue.items[i],
            ) || is_approved(v, batch(q, v, now).queue.items[i].url),
        forall|i: int|
            0 <= i < q.items.len() ==> was_there(
                batch(q, v, now).queue.items,
                #[trigger] q.items[i],
            ),
        forall|j: int|
            0 <= j < v.len() && (#[trigger] v[j]) is Some ==> has_url(
                batch(q, v, now).queue,
                v[j]->0.url,
            ),
    decreases v.len(),
{
    let b = batch(q, v, now).queue;
    if v.len() == 0 {
        assert forall|i: int| 0 <= i < q.items.len() implies was_there(
            q.items,
            #[trigger] q.items[i],
        ) by {
            reveal(was_there);
        }
    } else {
        let u = v.drop_last();
        law_only_approved_are_queued(q, u, now);
        let a = batch(q, u, now).queue;
        assert(v[v.len() - 1] == v.last());
        if let Some(e) = v.last() {
            lemma_approval_moves(a, e, now, b);
            assert forall|i: int| 0 <= i < b.items.len() implies was_there(
                q.items,
                #[trigger] b.items[i],
            ) || is_approved(v, b.items[i].url) by {
                if b.items[i].url != e.url {
                    lemma_was_there_or_approved(q.items, a.items, u, b.items[i]);
                    if is_approved(u, b.items[i].url) {
                        lemma_still_approved(v, b.items[i].url);
                    }
                }
            }
            assert forall|i: int| 0 <= i < q.items.len() implies was_there(
                b.items,
                #[trigger] q.items[i],
            ) by {
                lemma_was_there_twice(b.items, a.items, q.items[i]);
            }
            assert forall|j: int| 0 <= j < v.len() && (#[trigger] v[j]) is Some implies has_url(
                b,
                v[j]->0.url,
            ) by {
                if j < u.len() {
                    assert(u[j] is Some);
                    lemma_url_stays(a, b, v[j]->0.url);
                }
            }
        } else {
            assert(b == a);
            assert forall|i: int| 0 <= i < b.items.len() implies was_there(
                q.items,
                #[trigger] b.items[i],
            ) || is_approved(v, b.items[i].url) by {
                if is_approved(u, b.items[i].url) {
                    lemma_still_approved(v, b.items[i].url);
                }
            }
            assert forall|j: int| 0 <= j < v.len() && (#[trigger] v[j]) is Some implies has_url(
                b,
                v[j]->0.url,
            ) by {
                assert(u[j] is Some);
            }
        }
    }
}

/// The item `id` put in its place as `item` leaves no more items active, where `item` is active only if
/// the item `id` was.
proof fn lemma_update_starts_nothing(q: QueueState, id: u64, item: ItemView)
    requires
        q.holds(id),
        item.status == ItemStatus::Active ==> q.item(id).status == ItemStatus::Active,
    ensures
        q.with_item(id, item).active() <= q.active(),
{
    state::lemma_first_where_found(q.items, state::has_id(id));
    state::lemma_count_update(q.items, state::is_active(), q.index_of(id), item);
}

/// Output, an ending, trimming and clearing leave no more items active than there were.
proof fn lemma_running_starts_nothing(
    q: QueueState,
    id: u64,
    p: ProgressView,
    line: Seq<char>,
    ending: worker::EndingView,
)
    ensures
        q.holds(id) ==> q.with_item(id, worker::progressed(q.item(id), p)).active() <= q.active(),
        worker::queue_after_log(q, id, line).active() <= q.active(),
        worker::queue_ended(q, id, ending).active() <= q.active(),
        q.trimmed().active() <= q.active(),
        (QueueState { items: q.items.filter(state::is_kept()), ..q }).active() <= q.active(),
{
    if q.holds(id) {
        lemma_update_starts_nothing(q, id, worker::progressed(q.item(id), p));
        lemma_update_starts_nothing(q, id, worker::after_log(q.item(id), line));
        lemma_update_starts_nothing(q, id, worker::ended(q.item(id), ending));
    }
    let over = state::count_where(q.items, state::is_over());
    if q.items.len() > state::QUEUE_HISTORY_CAP && over > state::QUEUE_HISTORY_CAP / 2 {
        let k = (over - state::QUEUE_HISTORY_CAP / 2) as nat;
        state::lemma_count_trimmed(q.items, k, state::is_active());
    }
    state::lemma_count_filter(q.items, state::is_kept(), state::is_active());
}

/// A reconcile leaves no more items active than there were.
proof fn lemma_reconcile_starts_nothing(
    q: QueueState,
    present: Seq<Seq<char>>,
    probed: Seq<import::ProbedView>,
    found: Seq<(u64, MediaView)>,
    landed: Seq<(u64, Seq<char>)>,
    id: u64,
    frames: Seq<Seq<char>>,
)
    requires
        q.wf(),
        q.next_id + probed.filter(import::is_video()).len() <= u64::MAX,
    ensures
        (QueueState { items: import::deduped(q.items, q.items.len()), ..q }).active() <= q.active(),
        (QueueState { items: q.items.filter(import::is_there(present)), ..q }).active()
            <= q.active(),
        import::with_imported(q, probed).active() <= q.active(),
        import::media_filled(q, found).active() <= q.active(),
        import::thumbs_landed(q, landed).active() <= q.active(),
        q.holds(id) ==> q.with_item(id, import::with_frames(q.item(id), frames)).active()
            <= q.active(),
        (QueueState {
            items: q.items.map_values(|i: ItemView| import::refreshed(i)),
            ..q
        }).active() <= q.active(),
{
    import::lemma_deduped_active(q.items, q.items.len());
    assert(q.items.take(q.items.len() as int) =~= q.items);
    state::lemma_count_filter(q.items, import::is_there(present), state::is_active());
    import::law_import_appends(q, probed);
    import::law_landing_keeps_the_queue(q, found, landed);
    state::lemma_count_same_status(q.items, import::media_filled(q, found).items);
    state::lemma_count_same_status(q.items, import::thumbs_landed(q, landed).items);
    if q.holds(id) {
        lemma_update_starts_nothing(q, id, import::with_frames(q.item(id), frames));
    }
    let fresh = q.items.map_values(|i: ItemView| import::refreshed(i));
    assert forall|i: int| 0 <= i < q.items.len() implies (#[trigger] q.items[i]).status
        == fresh[i].status by {}
    state::lemma_count_same_status(q.items, fresh);
}

/// Whether at most one download runs.
pub open spec fn runs_one(q: QueueState) -> bool {
    q.active() <= 1
}

/// Everything that can happen to a queue but the start of a download.
pub enum Change {
    /// A URL was submitted.
    Submit(Seq<char>, Option<Seq<char>>, Option<Double>, Stamp),
    /// Videos were approved.
    Approve(Seq<Option<ApprovalView>>, Stamp),
    /// The item was queued again.
    Retry(u64),
    /// The first item of some kind was removed.
    Remove(spec_fn(ItemView) -> bool),
    Clear,
    Trim,
    /// The item got a progress report.
    Progress(u64, ProgressView),
    /// The item got a log line.
    Log(u64, Seq<char>),
    /// The download of the item ended.
    End(u64, worker::EndingView),
    Dedupe,
    /// The finished downloads whose file is none of these were removed.
    Prune(Seq<Seq<char>>),
    /// Probed files were imported.
    Import(Seq<import::ProbedView>),
    /// Media was found.
    Media(Seq<(u64, MediaView)>),
    /// Thumbnails were fetched.
    Thumbs(Seq<(u64, Seq<char>)>),
    /// Frames of the item were extracted.
    Frames(u64, Seq<Seq<char>>),
    /// Stale frames were dropped.
    Reset,
}

/// Whether there are ids for all items that a change may add.
pub open spec fn has_ids(q: QueueState, change: Change) -> bool {
    match change {
        Change::Submit(url, _, _, _) => q.next_id < u64::MAX || q.downloaded(url),
        Change::Approve(v, _) => q.next_id + v.len() <= u64::MAX,
        Change::Import(v) => q.next_id + v.filter(import::is_video()).len() <= u64::MAX,
        _ => true,
    }
}

/// The queue after a change. An active item is not queued again.
pub open spec fn changed(q: QueueState, change: Change) -> QueueState {
    match change {
        Change::Submit(url, title, duration, now) => q.submitted(url, title, duration, now),
        Change::Approve(v, now) => batch(q, v, now).queue,
        Change::Retry(id) => if q.holds(id) && q.item(id).status != ItemStatus::Active {
            queue_retried(q, id)
        } else {
            q
        },
        Change::Remove(p) => q.dropped(p),
        Change::Clear => QueueState { items: q.items.filter(state::is_kept()), ..q },
        Change::Trim => q.trimmed(),
        Change::Progress(id, p) => if q.holds(id) {
            q.with_item(id, worker::progressed(q.item(id), p))
        } else {
            q
        },
        Change::Log(id, line) => worker::queue_after_log(q, id, line),
        Change::End(id, ending) => worker::queue_ended(q, id, ending),
        Change::Dedupe => QueueState { items: import::deduped(q.items, q.items.len()), ..q },
        Change::Prune(present) => QueueState {
            items: q.items.filter(import::is_there(present)),
            ..q
        },
        Change::Import(v) => import::with_imported(q, v),
        Change::Media(v) => import::media_filled(q, v),
        Change::Thumbs(v) => import::thumbs_landed(q, v),
        Change::Frames(id, frames) => if q.holds(id) {
            q.with_item(id, import::with_frames(q.item(id), frames))
        } else {
            q
        },
        Change::Reset => QueueState {
            items: q.items.map_values(|i: ItemView| import::refreshed(i)),
            ..q
        },
    }
}

/// Downloads run one at a time: whatever happens to a queue, but for the worker's taking an item, makes
/// no item active, so that at most one stays active where at most one was. Taking an item where none is
/// active, or where the active one has ended, leaves at most one active.
pub proof fn law_one_download_at_a_time(
    q: QueueState,
    change: Change,
    token: CancellationToken,
    id: u64,
    ending: worker::EndingView,
)
    requires
        q.wf(),
        has_ids(q, change),
    ensures
        changed(q, change).active() <= q.active(),
        runs_one(q) ==> runs_one(changed(q, change)),
        q.active() == 0 ==> runs_one(worker::taken(q, token)),
        runs_one(q) && q.holds(id) && q.item(id).status == ItemStatus::Active ==> runs_one(
            worker::taken(worker::queue_ended(q, id, ending), token),
        ),
{
    match change {
        Change::Submit(url, title, duration, now) => {
            if q.downloaded(url) {
                state::law_resurface_adds_nothing(q, url, now);
            } else {
                let item = q.appended(url, title, duration, now).items.last();
                state::lemma_count_push(q.items, state::is_active(), item);
            }
        },
        Change::Approve(v, now) => {
            law_requests_start_no_download(q, v, now, id, state::is_over());
        },
        Change::Retry(again) => {
            let now = Stamp { nanos: 0, offset: 0 };
            law_requests_start_no_download(q, Seq::empty(), now, again, state::is_over());
        },
        Change::Remove(p) => {
            let now = Stamp { nanos: 0, offset: 0 };
            law_requests_start_no_download(q, Seq::empty(), now, id, p);
        },
        Change::Progress(of, p) => {
            lemma_running_starts_nothing(q, of, p, Seq::empty(), ending);
        },
        Change::Log(of, line) => {
            lemma_running_starts_nothing(q, of, state::no_progress(), line, ending);
        },
        Change::End(of, with) => {
            lemma_running_starts_nothing(q, of, state::no_progress(), Seq::empty(), with);
        },
        _ => {
            lemma_running_starts_nothing(q, id, state::no_progress(), Seq::empty(), ending);
            lemma_reconcile_starts_nothing(
                q,
                if let Change::Prune(present) = change {
                    present
                } else {
                    Seq::empty()
                },
                if let Change::Import(v) = change {
                    v
                } else {
                    Seq::empty()
                },
                if let Change::Media(v) = change {
                    v
                } else {
                    Seq::empty()
                },
                if let Change::Thumbs(v) = change {
                    v
                } else {
                    Seq::empty()
                },
                if let Change::Frames(of, _) = change {
                    of
                } else {
                    id
                },
                if let Change::Frames(_, frames) = change {
                    frames
                } else {
                    Seq::empty()
                },
            );
        },
    }
    worker::law_take_is_first_in_first_out(q, token);
    if q.holds(id) && q.item(id).status == ItemStatus::Active {
        worker::law_ending_releases_the_worker(q, id, ending);
        worker::law_take_is_first_in_first_out(worker::queue_ended(q, id, ending), token);
    }
}

/// A submitted URL is probed without the white space around it, and one that is blank is asked for
/// again.
pub proof fn law_submitted_url_is_probed(url: Seq<char>)
    ensures
        (forall|i: int| 0 <= i < url.len() ==> text::is_white(#[trigger] url[i])) ==> submitted_html(
            url,
        ) == render::header_html(Some("paste a URL"@)),
        (exists|i: int| 0 <= i < url.len() && !text::is_white(#[trigger] url[i])) ==> render::shows(
            submitted_html(url),
            "sse-connect=\"/probe?url="@ + markup::percent(text::trimmed(url)) + "\""@,
        ),
{
    broadcast use {render::lemma_shown_before, render::lemma_shown_behind};

    text::law_trim_cuts_white_space(url);
    let front = "<div class=\"probe\" hx-ext=\"sse\" sse-connect=\"/probe?url="@;
    let back = "\" sse-close=\"result\"><div id=\"probe-stream\" class=\"probe-stream\" sse-swap=\"log\" hx-swap=\"beforeend\"></div><div id=\"probe-cards\" class=\"probe-cards\" sse-swap=\"result\" hx-swap=\"innerHTML\"></div><button type=\"button\" class=\"probe-cancel\" hx-get=\"/header\" hx-target=\"#header-input\" hx-swap=\"innerHTML\">Cancel</button></div>"@;
    let cut = ("<div class=\"probe\" hx-ext=\"sse\" "@, "sse-connect=\"/probe?url="@);
    assert(front == cut.0 + cut.1) by {
        reveal_strlit("<div class=\"probe\" hx-ext=\"sse\" sse-connect=\"/probe?url=");
        reveal_strlit("<div class=\"probe\" hx-ext=\"sse\" ");
        reveal_strlit("sse-connect=\"/probe?url=");
    }
    let start = ("\""@, back.skip(1));
    assert(back == start.0 + start.1) by {
        reveal_strlit(
            "\" sse-close=\"result\"><div id=\"probe-stream\" class=\"probe-stream\" sse-swap=\"log\" hx-swap=\"beforeend\"></div><div id=\"probe-cards\" class=\"probe-cards\" sse-swap=\"result\" hx-swap=\"innerHTML\"></div><button type=\"button\" class=\"probe-cancel\" hx-get=\"/header\" hx-target=\"#header-input\" hx-swap=\"innerHTML\">Cancel</button></div>",
        );
        reveal_strlit("\"");
    }
    render::lemma_shows_between(
        Seq::empty(),
        front,
        markup::percent(text::trimmed(url)),
        back,
        cut,
        start,
    );
}

/// The ticked values are those of the pairs with the key, all of them and in their order.
pub proof fn law_ticked_values_are_collected(
    pairs: Seq<(Seq<char>, Seq<char>)>,
    key: Seq<char>,
    pair: (Seq<char>, Seq<char>),
)
    ensures
        values_of(Seq::empty(), key).len() == 0,
        pair.0 == key ==> values_of(pairs.push(pair), key) == values_of(pairs, key).push(pair.1),
        pair.0 != key ==> values_of(pairs.push(pair), key) == values_of(pairs, key),
{
    assert(pairs.push(pair).drop_last() =~= pairs);
}

/// An approved video that is new enters the queue as it was approved, its card is put on top, and its
/// thumbnail is fetched for it; one that was downloaded before is counted, and its card moves to the top.
/// A value that could not be read changes nothing.
pub proof fn law_approved_video_is_queued(
    q: QueueState,
    v: Seq<Option<ApprovalView>>,
    e: ApprovalView,
    now: Stamp,
)
    requires
        q.wf(),
        q.next_id + v.len() < u64::MAX,
    ensures
        ({
            let before = batch(q, v, now);
            let after = batch(q, v.push(Some(e)), now);
            let known = before.queue.downloaded(e.url);
            let top = after.queue.items.last();
            &&& batch(q, v.push(None), now) == before
            &&& after.queue == before.queue.submitted(e.url, e.title, e.duration, now)
            &&& top.url == e.url
            &&& !known ==> after.known == before.known && after.events == before.events.push(
                EventView { name: "card-added"@, data: render::card_html(top) },
            )
            &&& !known && e.thumbnail is Some ==> after.thumbs == before.thumbs.push(
                (top.id, e.thumbnail->0),
            )
            &&& !known && e.thumbnail is None ==> after.thumbs == before.thumbs
            &&& known ==> after.known == before.known + 1 && after.thumbs == before.thumbs
                && after.events == before.events.push(
                EventView { name: events::card_name(top.id), data: Seq::empty() },
            ).push(EventView { name: "card-added"@, data: render::card_html(top) })
        }),
        batch(q, Seq::empty(), now).queue == q,
        batch(q, Seq::empty(), now).known == 0,
        batch(q, Seq::empty(), now).events.len() == 0,
        batch(q, Seq::empty(), now).thumbs.len() == 0,
{
    let before = batch(q, v, now);
    let after = batch(q, v.push(Some(e)), now);
    assert(v.push(Some(e)).drop_last() =~= v);
    assert(v.push(None).drop_last() =~= v);
    law_confirm_keeps_the_queue(q, v, now);
    let b = before.queue;
    if b.downloaded(e.url) {
        state::law_resurface_adds_nothing(b, e.url, now);
        state::law_items_are_found_by_id(after.queue, after.queue.items.len() - 1);
        let id = b.items[state::first_where(b.items, state::is_done_url(e.url))].id;
        state::lemma_first_where_found(b.items, state::is_done_url(e.url));
        assert(after.queue.items.last().id == id);
        assert(after.events =~= before.events.push(
            EventView { name: events::card_name(id), data: Seq::empty() },
        ).push(EventView { name: "card-added"@, data: render::card_html(after.queue.items.last()) }));
    } else {
        state::law_fresh_ids(b, e.url, e.title, e.duration, now);
        state::law_items_are_found_by_id(after.queue, after.queue.items.len() - 1);
        assert(after.events =~= before.events.push(
            EventView { name: "card-added"@, data: render::card_html(after.queue.items.last()) },
        ));
    }
}

/// Videos that were downloaded before are announced in one notice, and without any there is none.
pub proof fn law_known_videos_are_announced(n: nat)
    ensures
        known_events(0).len() == 0,
        known_events(1) == seq![
            EventView {
                name: "toast"@,
                data: render::ack_html(
                    "Already downloaded \u{2014} de-duplicated; moved to the top."@,
                    false,
                ),
            },
        ],
        n > 1 ==> known_events(n) == seq![
            EventView {
                name: "toast"@,
                data: render::ack_html(
                    "De-duplicated "@ + text::dec(n)
                        + " already-downloaded video(s); moved the latest to the top."@,
                    false,
                ),
            },
        ],
{
}

/// A change in the number of items is sent as the new count and the new title of the banner; an item
/// that left is taken off the page besides, and one that moved is put on top.
pub proof fn law_changes_reach_the_page(q: QueueState, id: u64, item: ItemView)
    ensures
        ({
            let count = EventView {
                name: "cards-count"@,
                data: render::count_html(q.items.len(), q.pending()),
            };
            let title = EventView {
                name: "status-title"@,
                data: render::banner(import::first_active(q), q.pending()).title,
            };
            let gone = EventView { name: events::card_name(id), data: Seq::empty() };
            let top = EventView { name: "card-added"@, data: render::card_html(item) };
            &&& count_events(q) == seq![count, title]
            &&& removal_events(q, id) == seq![gone, count, title]
            &&& moved_events(q, id, item) == seq![gone, top, count, title]
        }),
{
    let gone = EventView { name: events::card_name(id), data: Seq::empty() };
    let top = EventView { name: "card-added"@, data: render::card_html(item) };
    let c = count_events(q);
    assert(c =~= seq![c[0], c[1]]);
    assert(removal_events(q, id) =~= seq![gone, c[0], c[1]]);
    assert(moved_events(q, id, item) =~= seq![gone, top, c[0], c[1]]);
}

/// A notice about an item names it by its id.
pub proof fn law_notices_name_the_item(front: Seq<char>, id: u64, back: Seq<char>, e: Seq<char>)
    ensures
        about(front, id, back) == front + text::dec(id as nat) + back,
        deleted_text(id, None) == "deleted item "@ + text::dec(id as nat) + ""@,
        deleted_text(id, Some(e)) == "deleted item "@ + text::dec(id as nat) + " (file: "@ + e
            + ")"@,
{
}

/// A payload reaches the page as it is, but that an empty one is sent as a comment.
pub proof fn law_payload_is_sent(data: Seq<char>)
    ensures
        data.len() > 0 ==> wire_data(data) == data,
        data.len() == 0 ==> wire_data(data) == "<!---->"@,
{
}

/// A fresh page gets the whole list of cards, the six slots of the banner, the list of files, and each
/// kept log line in its order; a page that lags gets the same but for the list of files.
pub proof fn law_snapshot_is_complete(
    q: QueueState,
    files: Seq<library::FileView>,
    lines: Seq<Seq<char>>,
)
    ensures
        ({
            let b = render::banner(import::first_active(q), q.pending());
            let fresh = snapshot_events(q, Some(files), lines);
            let lagging = snapshot_events(q, None, lines);
            &&& fresh.len() == 8 + lines.len()
            &&& lagging.len() == 7 + lines.len()
            &&& fresh[0] == (EventView { name: "queue"@, data: render::queue_html(q) })
            &&& fresh[1] == (EventView { name: "status-thumb"@, data: b.thumb })
            &&& fresh[2] == (EventView { name: "status-title"@, data: b.title })
            &&& fresh[3] == (EventView { name: "status-log"@, data: b.log })
            &&& fresh[4] == (EventView { name: "status-bar"@, data: b.bar })
            &&& fresh[5] == (EventView { name: "status-meta"@, data: b.meta })
            &&& fresh[6] == (EventView { name: "status-cancel"@, data: b.cancel })
            &&& fresh[7] == (EventView { name: "library"@, data: library::library_html(files) })
            &&& forall|i: int|
                0 <= i < lines.len() ==> #[trigger] fresh[8 + i] == (EventView {
                    name: "log"@,
                    data: render::log_line_html(lines[i]),
                })
            &&& lagging == fresh.take(7) + fresh.skip(8)
        }),
{
    let fresh = snapshot_events(q, Some(files), lines);
    let lagging = snapshot_events(q, None, lines);
    assert(lagging =~= fresh.take(7) + fresh.skip(8));
}

/// An asset goes out with its tag and its caching, and with its type where its body follows.
pub proof fn law_assets_carry_their_tag(
    fresh: bool,
    tag: Seq<char>,
    content_type: Seq<char>,
    cache: Seq<char>,
)
    ensures
        ({
            let h = asset_headers(fresh, tag, content_type, cache);
            &&& library::has_header(h, "etag"@, tag)
            &&& library::has_header(h, "cache-control"@, cache)
            &&& fresh ==> library::lacks_header(h, "content-type"@)
            &&& !fresh ==> library::has_header(h, "content-type"@, content_type)
        }),
{
    lemma_asset_names_differ();
    let h = asset_headers(fresh, tag, content_type, cache);
    assert(h[h.len() - 1] == ("cache-control"@, cache));
    assert(h[h.len() - 2] == ("etag"@, tag));
    if !fresh {
        assert(h[0] == ("content-type"@, content_type));
    }
}

proof fn lemma_asset_names_differ()
    ensures
        "etag"@ != "cache-control"@,
        "etag"@ != "content-type"@,
        "etag"@ != "content-disposition"@,
        "cache-control"@ != "content-type"@,
        "cache-control"@ != "content-disposition"@,
        "content-type"@ != "content-disposition"@,
{
    reveal_strlit("etag");
    reveal_strlit("cache-control");
    reveal_strlit("content-type");
    reveal_strlit("content-disposition");
    assert("etag"@.len() == 4 && "cache-control"@.len() == 13 && "content-type"@.len() == 12
        && "content-disposition"@.len() == 19);
}

/// A cached thumbnail never changes, so that it is kept for a year under a tag that is its name; its
/// type is the one that is guessed, or that of a JPEG.
pub proof fn law_thumbnails_are_immutable(fresh: bool, name: Seq<char>, guess: Option<Seq<char>>)
    ensures
        ({
            let h = thumb_headers(fresh, name, guess);
            &&& thumb_tag(name) == "\""@ + name + "\""@
            &&& library::has_header(h, "etag"@, "\""@ + name + "\""@)
            &&& library::has_header(
                h,
                "cache-control"@,
                "public, max-age=31536000, immutable"@,
            )
            &&& fresh ==> library::lacks_header(h, "content-type"@)
            &&& !fresh && guess is Some ==> library::has_header(h, "content-type"@, guess->0)
            &&& !fresh && guess is None ==> library::has_header(h, "content-type"@, "image/jpeg"@)
            &&& !fresh ==> library::has_header(
                h,
                "content-disposition"@,
                "inline; filename=\""@ + name + "\""@,
            )
        }),
{
    lemma_asset_names_differ();
    let h = thumb_headers(fresh, name, guess);
    assert(h[h.len() - 1] == ("cache-control"@, "public, max-age=31536000, immutable"@));
    assert(h[h.len() - 2].0 == "etag"@);
    assert(h.contains(h[h.len() - 2]));
    assert(h.contains(h[h.len() - 1]));
    if !fresh {
        assert(h[0].0 == "content-type"@ && h[1].0 == "content-disposition"@);
        assert(h.contains(h[0]) && h.contains(h[1]));
    }
}

/// The icons that the pages use are served, and nothing else is taken for one.
pub proof fn law_icons_of_the_pages_exist(name: Seq<char>)
    ensures
        icons().contains(name) <==> name == "download.svg"@ || name == "play.svg"@ || name
            == "trash.svg"@ || name == "logs.svg"@ || name == "stop.svg"@ || name == "retry.svg"@,
{
    let s = icons();
    assert(s[0] == "download.svg"@ && s[1] == "play.svg"@ && s[2] == "trash.svg"@ && s[3]
        == "logs.svg"@ && s[4] == "stop.svg"@ && s[5] == "retry.svg"@);
    if s.contains(name) {
        let i = choose|i: int| 0 <= i < s.len() && s[i] == name;
        assert(i == 0 || i == 1 || i == 2 || i == 3 || i == 4 || i == 5);
    }
}

/// A refusal is shown, and nothing else comes of it.
pub proof fn law_refusals_change_nothing(r: Answer, msg: Seq<char>, err: bool)
    ensures
        says(r, msg, err) <==> {
            &&& r.ack@ == render::ack_html(msg, err)
            &&& r.events@.len() == 0
            &&& !r.changed
            &&& r.trip is None
        },
{
}

}
