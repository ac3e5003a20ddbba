//! Keeping the queue, the download directory and the thumbnail cache in step.
use crate::clock::Stamp;
use crate::double::Double;
use crate::events;
use crate::events::{Event, EventView};
use crate::library;
use crate::media::{MediaInfo, MediaView};
use crate::render;
use crate::state;
use crate::state::{ItemStatus, ItemView, Queue, QueueItem, QueueState};
use crate::text;
use crate::thumb;
use crate::worker;
use vstd::prelude::*;

verus! {

/// Seconds that ffprobe may take for a file.
pub const PROBE_TIMEOUT_SECS: u64 = 30;

/// A newer item that takes over what an older one knows: only what it lacks itself.
pub open spec fn subsumed(into: ItemView, from: ItemView) -> ItemView {
    ItemView {
        url: if into.url.len() == 0 {
            from.url
        } else {
            into.url
        },
        title: match into.title {
            Some(t) => Some(t),
            None => from.title,
        },
        duration: match into.duration {
            Some(d) => Some(d),
            None => from.duration,
        },
        media: match into.media {
            Some(m) => Some(m),
            None => from.media,
        },
        thumbnail: match into.thumbnail {
            Some(t) => Some(t),
            None => from.thumbnail,
        },
        thumbnails: if into.thumbnails.len() == 0 {
            from.thumbnails
        } else {
            into.thumbnails
        },
        ..into
    }
}

/// Fills what `into` lacks from `from`. What it has stays, and so do its log and its error.
pub fn subsume(into: &mut QueueItem, from: &QueueItem)
    ensures
        final(into)@ == subsumed(old(into)@, from@),
        final(into).id == old(into).id,
{
    if into.url.as_str().unicode_len() == 0 {
        into.url = from.url.clone();
    }
    if into.title.is_none() {
        into.title = text::copy_opt(&from.title);
    }
    if into.duration.is_none() {
        into.duration = from.duration;
    }
    if into.media.is_none() {
        into.media = match &from.media {
            Some(m) => Some(m.copy()),
            None => None,
        };
    }
    if into.thumbnail.is_none() {
        into.thumbnail = text::copy_opt(&from.thumbnail);
    }
    assert(into@.thumbnails.len() == into.thumbnails@.len());
    if into.thumbnails.len() == 0 {
        into.thumbnails = text::copy_list(&from.thumbnails);
    }
}

/// Whether two items are finished downloads of the same file.
pub open spec fn same_file(a: ItemView, b: ItemView) -> bool {
    &&& a.status == ItemStatus::Done
    &&& b.status == ItemStatus::Done
    &&& a.filename is Some
    &&& a.filename == b.filename
}

/// Whether `a` was enqueued after `b`; in the same second, the larger id counts.
pub open spec fn newer(a: ItemView, b: ItemView) -> bool {
    a.enqueued_at.seconds() > b.enqueued_at.seconds() || (a.enqueued_at.seconds()
        == b.enqueued_at.seconds() && a.id > b.id)
}

/// Whether a newer finished download of the same file is in the queue.
pub open spec fn superseded(items: Seq<ItemView>, i: int) -> bool {
    exists|j: int|
        0 <= j < items.len() && j != i && #[trigger] same_file(items[j], items[i]) && newer(
            items[j],
            items[i],
        )
}

/// The item `i` with what it takes over from the first `n` items of the same file.
pub open spec fn absorbed(items: Seq<ItemView>, i: int, n: nat) -> ItemView
    decreases n,
{
    if n == 0 {
        items[i]
    } else {
        let a = absorbed(items, i, (n - 1) as nat);
        if n - 1 != i && same_file(items[n - 1], items[i]) {
            subsumed(a, items[n - 1])
        } else {
            a
        }
    }
}

/// The number of other items of the same file among the first `n`.
pub open spec fn copies(items: Seq<ItemView>, i: int, n: nat) -> nat
    decreases n,
{
    if n == 0 {
        0
    } else {
        copies(items, i, (n - 1) as nat) + if n - 1 != i && same_file(items[n - 1], items[i]) {
            1nat
        } else {
            0
        }
    }
}

/// The first `n` items without those that a newer download of the same file supersedes; the newest
/// ones take over what the others know.
pub open spec fn deduped(items: Seq<ItemView>, n: nat) -> Seq<ItemView>
    decreases n,
{
    if n == 0 {
        Seq::empty()
    } else if superseded(items, n - 1) {
        deduped(items, (n - 1) as nat)
    } else {
        deduped(items, (n - 1) as nat).push(absorbed(items, n - 1, items.len()))
    }
}

/// The notice that older downloads of a file were merged.
pub open spec fn merged_text(item: ItemView, n: nat) -> Seq<char> {
    "De-duplicated \u{201c}"@ + (if item.filename->0.len() == 0 {
        "item "@ + text::dec(item.id as nat)
    } else {
        item.filename->0
    }) + "\u{201d}: kept the latest, merged "@ + text::dec(n) + " older duplicate(s)."@
}

/// The notices of a deduplication, one for each file that was merged.
pub open spec fn merge_events(items: Seq<ItemView>, n: nat) -> Seq<EventView>
    decreases n,
{
    if n == 0 {
        Seq::empty()
    } else {
        let rest = merge_events(items, (n - 1) as nat);
        let k = copies(items, n - 1, items.len());
        if !superseded(items, n - 1) && k > 0 {
            rest.push(
                EventView {
                    name: "toast"@,
                    data: render::ack_html(merged_text(items[n - 1], k), false),
                },
            )
        } else {
            rest
        }
    }
}

fn is_same_file(a: &QueueItem, b: &QueueItem) -> (r: bool)
    ensures
        r == same_file(a@, b@),
{
    if a.status != ItemStatus::Done || b.status != ItemStatus::Done {
        return false;
    }
    match (&a.filename, &b.filename) {
        (Some(f), Some(g)) => text::same(f.as_str(), g.as_str()),
        _ => false,
    }
}

fn is_newer(a: &QueueItem, b: &QueueItem) -> (r: bool)
    ensures
        r == newer(a@, b@),
{
    let x: i128 = a.enqueued_at.unix_seconds();
    let y: i128 = b.enqueued_at.unix_seconds();
    x > y || (x == y && a.id > b.id)
}

fn is_superseded(items: &Vec<QueueItem>, i: usize) -> (r: bool)
    requires
        i < items@.len(),
    ensures
        r == superseded(state::item_views(items@), i as int),
{
    let ghost v = state::item_views(items@);
    let mut j: usize = 0;
    while j < items.len()
        invariant
            j <= items@.len(),
            i < items@.len(),
            v == state::item_views(items@),
            forall|k: int|
                0 <= k < j && k != i ==> !(#[trigger] same_file(v[k], v[i as int]) && newer(
                    v[k],
                    v[i as int],
                )),
        decreases items@.len() - j,
    {
        assert(v[j as int] == items@[j as int]@);
        assert(v[i as int] == items@[i as int]@);
        if j != i && is_same_file(&items[j], &items[i]) && is_newer(&items[j], &items[i]) {
            assert(same_file(v[j as int], v[i as int]));
            return true;
        }
        j += 1;
    }
    false
}

/// The item `i` with what it takes over from the others of the same file, and their number.
fn absorb(items: &Vec<QueueItem>, i: usize) -> (r: (QueueItem, usize))
    requires
        i < items@.len(),
    ensures
        r.0@ == absorbed(state::item_views(items@), i as int, items@.len()),
        r.1 == copies(state::item_views(items@), i as int, items@.len()),
        r.0.id == items@[i as int].id,
{
    let ghost v = state::item_views(items@);
    let mut item: QueueItem = items[i].copy();
    let mut n: usize = 0;
    let mut k: usize = 0;
    assert(v[i as int] == items@[i as int]@);
    while k < items.len()
        invariant
            k <= items@.len(),
            n <= k,
            i < items@.len(),
            v == state::item_views(items@),
            v[i as int] == items@[i as int]@,
            item@ == absorbed(v, i as int, k as nat),
            item.id == items@[i as int].id,
            n == copies(v, i as int, k as nat),
        decreases items@.len() - k,
    {
        assert(v[k as int] == items@[k as int]@);
        if k != i && is_same_file(&items[k], &items[i]) {
            subsume(&mut item, &items[k]);
            n += 1;
        }
        k += 1;
    }
    (item, n)
}

fn merged_message(item: &QueueItem, n: usize) -> (r: String)
    requires
        item.filename is Some,
    ensures
        r@ == merged_text(item@, n as nat),
{
    let mut label = String::new();
    if let Some(f) = &item.filename {
        if f.as_str().unicode_len() == 0 {
            label = "item ".to_string();
            text::push_dec(&mut label, item.id);
        } else {
            label = f.clone();
        }
    }
    let mut out = "De-duplicated \u{201c}".to_string();
    out.append(label.as_str());
    out.append("\u{201d}: kept the latest, merged ");
    text::push_dec(&mut out, n as u64);
    out.append(" older duplicate(s).");
    out
}

proof fn lemma_copies_file(items: Seq<ItemView>, i: int, n: nat)
    requires
        0 <= i < items.len(),
        n <= items.len(),
        copies(items, i, n) > 0,
    ensures
        items[i].filename is Some,
    decreases n,
{
    if n > 0 && !(n - 1 != i && same_file(items[n - 1], items[i])) {
        lemma_copies_file(items, i, (n - 1) as nat);
    }
}

/// Keeps, of the finished downloads of each file, only the newest, which takes over what the others
/// know. Gives a notice for each file that was merged.
pub fn dedupe_done_per_filename(queue: &mut Queue) -> (r: Vec<Event>)
    ensures
        final(queue)@ == (QueueState {
            items: deduped(old(queue)@.items, old(queue)@.items.len()),
            ..old(queue)@
        }),
        render::event_views(r@) == merge_events(old(queue)@.items, old(queue)@.items.len()),
{
    let ghost v = queue@.items;
    let mut out: Vec<QueueItem> = Vec::new();
    let mut events: Vec<Event> = Vec::new();
    let mut i: usize = 0;
    assert(state::item_views(out@) =~= Seq::<ItemView>::empty());
    assert(render::event_views(events@) =~= Seq::<EventView>::empty());
    while i < queue.items.len()
        invariant
            i <= queue.items@.len(),
            *queue == *old(queue),
            v == state::item_views(queue.items@),
            state::item_views(out@) == deduped(v, i as nat),
            render::event_views(events@) == merge_events(v, i as nat),
        decreases queue.items@.len() - i,
    {
        if !is_superseded(&queue.items, i) {
            let (item, n): (QueueItem, usize) = absorb(&queue.items, i);
            let ghost o0 = out@;
            if n > 0 {
                proof {
                    lemma_copies_file(v, i as int, v.len());
                    assert(v[i as int] == queue.items@[i as int]@);
                }
                let msg: String = merged_message(&queue.items[i], n);
                let ghost e0 = events@;
                events.push(Event::Toast(render::render_ack(msg.as_str(), false)));
                assert(render::event_views(events@) =~= render::event_views(e0).push(
                    events@.last()@,
                ));
            }
            let ghost iv = item@;
            out.push(item);
            assert(state::item_views(out@) =~= state::item_views(o0).push(iv));
        }
        i += 1;
    }
    queue.items = out;
    events
}

/// Whether no two items are finished downloads of the same file.
pub open spec fn one_per_file(items: Seq<ItemView>) -> bool {
    forall|i: int, j: int|
        0 <= i < items.len() && 0 <= j < items.len() && i != j ==> !(#[trigger] same_file(
            items[i],
            items[j],
        ))
}

/// What is merged is done, so that no more items are active than before.
pub proof fn lemma_deduped_active(items: Seq<ItemView>, n: nat)
    requires
        n <= items.len(),
    ensures
        state::count_where(deduped(items, n), state::is_active()) <= state::count_where(
            items.take(n as int),
            state::is_active(),
        ),
    decreases n,
{
    if n > 0 {
        let m = (n - 1) as nat;
        lemma_deduped_active(items, m);
        assert(items.take(n as int).drop_last() =~= items.take(m as int));
        assert(items.take(n as int).last() == items[m as int]);
        if !superseded(items, m as int) {
            let kept = absorbed(items, m as int, items.len());
            lemma_absorbed_identity(items, m as int, items.len());
            state::lemma_count_push(deduped(items, m), state::is_active(), kept);
        }
    }
}

/// What an item takes over leaves its id, status, file name, time, log and error as they are.
proof fn lemma_absorbed_identity(items: Seq<ItemView>, i: int, n: nat)
    ensures
        ({
            let a = absorbed(items, i, n);
            &&& a.id == items[i].id
            &&& a.status == items[i].status
            &&& a.filename == items[i].filename
            &&& a.enqueued_at == items[i].enqueued_at
            &&& a.logs == items[i].logs
            &&& a.error == items[i].error
            &&& a.progress == items[i].progress
            &&& a.cancel == items[i].cancel
        }),
    decreases n,
{
    if n > 0 {
        lemma_absorbed_identity(items, i, (n - 1) as nat);
    }
}

/// Each item that is left is one that nothing superseded.
spec fn comes_from(items: Seq<ItemView>, item: ItemView, n: nat) -> bool {
    exists|i: int|
        0 <= i < n && !superseded(items, i) && item == #[trigger] absorbed(items, i, items.len())
}

proof fn lemma_deduped(items: Seq<ItemView>, n: nat, next: u64)
    requires
        n <= items.len(),
        (QueueState { items, next_id: next }).wf(),
    ensures
        forall|k: int|
            0 <= k < deduped(items, n).len() ==> comes_from(
                items,
                #[trigger] deduped(items, n)[k],
                n,
            ),
        one_per_file(deduped(items, n)),
        (QueueState { items: deduped(items, n), next_id: next }).wf(),
    decreases n,
{
    if n > 0 {
        let m = (n - 1) as nat;
        lemma_deduped(items, m, next);
        let a = deduped(items, m);
        let r = deduped(items, n);
        assert forall|k: int| 0 <= k < r.len() implies comes_from(items, #[trigger] r[k], n) by {
            if k < a.len() {
                assert(r[k] == a[k]);
                assert(comes_from(items, a[k], m));
                let i = choose|i: int|
                    0 <= i < m && !superseded(items, i) && a[k] == #[trigger] absorbed(
                        items,
                        i,
                        items.len(),
                    );
                assert(r[k] == absorbed(items, i, items.len()));
            } else {
                assert(r[k] == absorbed(items, m as int, items.len()));
            }
        }
        if !superseded(items, m as int) {
            let last = absorbed(items, m as int, items.len());
            lemma_absorbed_identity(items, m as int, items.len());
            assert forall|k: int| 0 <= k < a.len() implies (#[trigger] a[k]).id != last.id
                && a[k].id < next && !same_file(a[k], last) && !same_file(last, a[k]) by {
                assert(comes_from(items, a[k], m));
                let i = choose|i: int|
                    0 <= i < m && !superseded(items, i) && a[k] == #[trigger] absorbed(
                        items,
                        i,
                        items.len(),
                    );
                lemma_absorbed_identity(items, i, items.len());
                assert(items[i].id != items[m as int].id);
                if same_file(a[k], last) {
                    assert(same_file(items[i], items[m as int]));
                    assert(same_file(items[m as int], items[i]));
                    assert(newer(items[i], items[m as int]) || newer(items[m as int], items[i]));
                }
            }
            assert(items[m as int].id < next);
            assert forall|i: int, j: int|
                0 <= i < r.len() && 0 <= j < r.len() && i != j implies !(#[trigger] same_file(
                r[i],
                r[j],
            )) by {
                if i < a.len() {
                    assert(r[i] == a[i]);
                }
                if j < a.len() {
                    assert(r[j] == a[j]);
                }
            }
            assert forall|i: int, j: int| 0 <= i < j < r.len() implies #[trigger] r[i].id
                != #[trigger] r[j].id by {
                assert(r[i] == a[i]);
                if j < a.len() {
                    assert(r[j] == a[j]);
                }
            }
            assert forall|i: int| 0 <= i < r.len() implies #[trigger] r[i].id < next by {
                if i < a.len() {
                    assert(r[i] == a[i]);
                }
            }
        }
    }
}

proof fn lemma_deduped_single(items: Seq<ItemView>, n: nat)
    requires
        n <= items.len(),
        one_per_file(items),
    ensures
        deduped(items, n) == items.take(n as int),
    decreases n,
{
    if n > 0 {
        let m = (n - 1) as nat;
        lemma_deduped_single(items, m);
        lemma_absorbed_single(items, m as int, items.len());
        assert(!superseded(items, m as int));
        assert(items.take(n as int) =~= items.take(m as int).push(items[m as int]));
    } else {
        assert(items.take(0) =~= Seq::<ItemView>::empty());
    }
}

proof fn lemma_absorbed_single(items: Seq<ItemView>, i: int, n: nat)
    requires
        0 <= i < items.len(),
        n <= items.len(),
        one_per_file(items),
    ensures
        absorbed(items, i, n) == items[i],
    decreases n,
{
    if n > 0 {
        lemma_absorbed_single(items, i, (n - 1) as nat);
    }
}

/// After a deduplication at most one finished download of each file is left, ids are unique, and
/// another deduplication changes nothing.
pub proof fn law_dedupe_leaves_one_per_file(q: QueueState)
    requires
        q.wf(),
    ensures
        one_per_file(deduped(q.items, q.items.len())),
        (QueueState { items: deduped(q.items, q.items.len()), ..q }).wf(),
        deduped(
            deduped(q.items, q.items.len()),
            deduped(q.items, q.items.len()).len(),
        ) == deduped(q.items, q.items.len()),
{
    lemma_deduped(q.items, q.items.len(), q.next_id);
    let r = deduped(q.items, q.items.len());
    lemma_deduped_single(r, r.len());
    assert(r.take(r.len() as int) =~= r);
}

/// An item of which no newer finished download of the same file exists stays: under its id, status,
/// file name, time, log and error. So does every item that is not done.
pub proof fn law_dedupe_keeps_the_newest(items: Seq<ItemView>, i: int, n: nat)
    requires
        0 <= i < n <= items.len(),
        !superseded(items, i),
    ensures
        deduped(items, n).contains(absorbed(items, i, items.len())),
        absorbed(items, i, items.len()).id == items[i].id,
        absorbed(items, i, items.len()).status == items[i].status,
        absorbed(items, i, items.len()).filename == items[i].filename,
        absorbed(items, i, items.len()).enqueued_at == items[i].enqueued_at,
        absorbed(items, i, items.len()).logs == items[i].logs,
        absorbed(items, i, items.len()).error == items[i].error,
    decreases n,
{
    lemma_absorbed_identity(items, i, items.len());
    let r = deduped(items, n);
    let a = deduped(items, (n - 1) as nat);
    if i == n - 1 {
        assert(r.last() == absorbed(items, i, items.len()));
    } else {
        law_dedupe_keeps_the_newest(items, i, (n - 1) as nat);
        let w = choose|w: int| 0 <= w < a.len() && a[w] == absorbed(items, i, items.len());
        assert(r[w] == a[w]);
    }
}

/// Only a finished download can be superseded.
pub proof fn law_only_done_is_superseded(items: Seq<ItemView>, i: int)
    requires
        0 <= i < items.len(),
        items[i].status != ItemStatus::Done || items[i].filename is None,
    ensures
        !superseded(items, i),
{
}

/// Taking over never overwrites what an item has, fills what it lacks, and does nothing a second
/// time.
pub proof fn law_subsume_fills_blanks(into: ItemView, from: ItemView)
    ensures
        into.url.len() > 0 ==> subsumed(into, from).url == into.url,
        into.url.len() == 0 ==> subsumed(into, from).url == from.url,
        into.title is Some ==> subsumed(into, from).title == into.title,
        into.title is None ==> subsumed(into, from).title == from.title,
        into.duration is Some ==> subsumed(into, from).duration == into.duration,
        into.duration is None ==> subsumed(into, from).duration == from.duration,
        into.media is Some ==> subsumed(into, from).media == into.media,
        into.media is None ==> subsumed(into, from).media == from.media,
        into.thumbnail is Some ==> subsumed(into, from).thumbnail == into.thumbnail,
        into.thumbnail is None ==> subsumed(into, from).thumbnail == from.thumbnail,
        into.thumbnails.len() > 0 ==> subsumed(into, from).thumbnails == into.thumbnails,
        into.thumbnails.len() == 0 ==> subsumed(into, from).thumbnails == from.thumbnails,
        subsumed(into, from).logs == into.logs,
        subsumed(into, from).error == into.error,
        subsumed(subsumed(into, from), from) == subsumed(into, from),
{
    assert(subsumed(subsumed(into, from), from) =~= subsumed(into, from));
}

/// Whether an item is a finished download whose file is not among `present`.
pub open spec fn is_missing(item: ItemView, present: Seq<Seq<char>>) -> bool {
    item.status == ItemStatus::Done && item.filename is Some && !present.contains(item.filename->0)
}

pub open spec fn is_there(present: Seq<Seq<char>>) -> spec_fn(ItemView) -> bool {
    |i: ItemView| !is_missing(i, present)
}

/// Removes the finished downloads whose file is not among `present`, and says whether there were
/// any. All others stay.
pub fn prune_missing_files(queue: &mut Queue, present: &Vec<String>) -> (r: bool)
    ensures
        final(queue)@ == (QueueState {
            items: old(queue)@.items.filter(is_there(text::list(present@))),
            ..old(queue)@
        }),
        r == (final(queue)@.items.len() < old(queue)@.items.len()),
{
    let ghost p = is_there(text::list(present@));
    let ghost whole = queue@.items;
    let mut i: usize = 0;
    let mut gone: usize = 0;
    let before: usize = queue.items.len();
    proof {
        reveal(Seq::filter);
        assert(whole.take(0) =~= Seq::<ItemView>::empty());
        assert(queue@.items =~= whole.take(0).filter(p) + whole.skip(0));
    }
    while i < queue.items.len()
        invariant
            p == is_there(text::list(present@)),
            i <= queue.items@.len(),
            before == whole.len(),
            queue.items@.len() + gone == before,
            queue.next_id == old(queue).next_id,
            queue@.items == whole.take(i + gone).filter(p) + whole.skip(i + gone),
            i == whole.take(i + gone).filter(p).len(),
        decreases queue.items@.len() - i,
    {
        let ghost k = i + gone;
        let ghost kept = whole.take(k).filter(p);
        proof {
            assert(queue@.items[i as int] == queue.items@[i as int]@);
            assert(queue@.items[i as int] == whole[k]);
            assert(whole.take(k + 1).drop_last() =~= whole.take(k));
            assert(whole.take(k + 1).last() == whole[k]);
            reveal(Seq::filter);
        }
        let missing: bool = queue.items[i].status == ItemStatus::Done && match &queue.items[i].filename {
            Some(f) => !text::holds(present, f.as_str()),
            None => false,
        };
        if missing {
            let ghost prev = queue@.items;
            let _gone = queue.items.remove(i);
            proof {
                assert(queue@.items =~= prev.remove(i as int));
                assert(whole.take(k + 1).filter(p) =~= kept);
                assert(queue@.items =~= kept + whole.skip(k + 1));
            }
            gone += 1;
        } else {
            proof {
                assert(whole.take(k + 1).filter(p) =~= kept.push(whole[k]));
                assert(queue@.items =~= kept.push(whole[k]) + whole.skip(k + 1));
            }
            i += 1;
        }
    }
    proof {
        assert(whole.take(i + gone) =~= whole);
        assert(queue@.items =~= whole.filter(p));
    }
    gone > 0
}

/// Whether a finished download owns a file.
pub open spec fn is_owned(items: Seq<ItemView>, name: Seq<char>) -> bool {
    exists|i: int|
        0 <= i < items.len() && #[trigger] items[i].status == ItemStatus::Done && items[i].filename
            == Some(name)
}

/// Whether a finished download owns a file.
pub fn owns(queue: &Queue, name: &str) -> (r: bool)
    ensures
        r == is_owned(queue@.items, name@),
{
    let mut i: usize = 0;
    while i < queue.items.len()
        invariant
            i <= queue.items@.len(),
            forall|j: int|
                0 <= j < i ==> !(#[trigger] queue@.items[j].status == ItemStatus::Done
                    && queue@.items[j].filename == Some(name@)),
        decreases queue.items@.len() - i,
    {
        assert(queue@.items[i as int] == queue.items@[i as int]@);
        if queue.items[i].status == ItemStatus::Done {
            if let Some(f) = &queue.items[i].filename {
                if text::same(f.as_str(), name) {
                    assert(queue@.items[i as int].status == ItemStatus::Done);
                    return true;
                }
            }
        }
        i += 1;
    }
    false
}

/// Whether a listed file is to be probed for import: no finished download owns it, and its name is
/// safe.
pub open spec fn is_candidate(items: Seq<ItemView>, name: Seq<char>) -> bool {
    !is_owned(items, name) && library::is_safe(name)
}

/// Whether a listed file is to be probed for import.
pub fn unreferenced(queue: &Queue, name: &str) -> (r: bool)
    ensures
        r == is_candidate(queue@.items, name@),
        r == (name@.len() > 0 && name@[0] != '.' && !name@.contains('/') && !name@.contains('\\')
            && !name@.contains('\0') && forall|i: int|
            0 <= i < queue@.items.len() && queue@.items[i].status == ItemStatus::Done
                ==> #[trigger] queue@.items[i].filename != Some(name@)),
{
    proof {
        law_every_new_file_is_probed(queue@.items, name@);
    }

    !owns(queue, name) && library::is_safe_name(name)
}

/// A file that was probed.
pub struct Probed {
    pub name: String,
    pub mtime: Stamp,
    pub media: MediaInfo,
}

pub struct ProbedView {
    pub name: Seq<char>,
    pub mtime: Stamp,
    pub media: MediaView,
}

impl View for Probed {
    type V = ProbedView;

    open spec fn view(&self) -> ProbedView {
        ProbedView { name: self.name@, mtime: self.mtime, media: self.media@ }
    }
}

pub open spec fn probed_views(v: Seq<Probed>) -> Seq<ProbedView> {
    v.map_values(|p: Probed| p@)
}

/// The item for an imported video: finished, without a URL, and enqueued when its file was modified.
pub open spec fn imported(id: u64, p: ProbedView) -> ItemView {
    ItemView {
        status: ItemStatus::Done,
        filename: Some(p.name),
        duration: p.media.duration,
        media: Some(p.media),
        ..state::fresh_item(id, Seq::empty(), p.mtime)
    }
}

/// The queue with the videos among probed files appended; other files are left out.
pub open spec fn with_imported(q: QueueState, v: Seq<ProbedView>) -> QueueState
    decreases v.len(),
{
    if v.len() == 0 {
        q
    } else {
        let r = with_imported(q, v.drop_last());
        if v.last().media.video_codec is Some {
            QueueState {
                items: r.items.push(imported(r.next_id, v.last())),
                next_id: (r.next_id + 1) as u64,
            }
        } else {
            r
        }
    }
}

pub open spec fn is_video() -> spec_fn(ProbedView) -> bool {
    |p: ProbedView| p.media.video_codec is Some
}

/// Appends the videos among probed files as finished downloads, and says whether there were any.
pub fn import_unreferenced(queue: &mut Queue, probed: Vec<Probed>) -> (r: bool)
    requires
        old(queue).next_id + probed_views(probed@).filter(is_video()).len() <= u64::MAX,
    ensures
        final(queue)@ == with_imported(old(queue)@, probed_views(probed@)),
        r == (final(queue)@.items.len() > old(queue)@.items.len()),
{
    let ghost all = probed_views(probed@);
    let ghost whole = probed@;
    let ghost q0 = queue@;
    let mut rest: Vec<Probed> = probed;
    let n: usize = rest.len();
    let mut i: usize = 0;
    let mut any: bool = false;
    proof {
        assert(all.take(0) =~= Seq::<ProbedView>::empty());
        reveal(Seq::filter);
    }
    while i < n
        invariant
            i <= n == whole.len(),
            all == probed_views(whole),
            rest@ == whole.skip(i as int),
            q0.next_id + all.filter(is_video()).len() <= u64::MAX,
            queue.next_id == q0.next_id + all.take(i as int).filter(is_video()).len(),
            queue@ == with_imported(q0, all.take(i as int)),
            queue@.items.len() >= q0.items.len(),
            any == (queue@.items.len() > q0.items.len()),
        decreases n - i,
    {
        let p: Probed = rest.remove(0);
        proof {
            assert(p == whole[i as int]);
            assert(rest@ =~= whole.skip(i + 1));
            let t = all.take(i + 1);
            assert(t.drop_last() =~= all.take(i as int));
            assert(t.last() == p@);
            reveal(Seq::filter);
            assert(all =~= t + all.skip(i + 1));
            Seq::filter_distributes_over_add(t, all.skip(i + 1), is_video());
        }
        let ghost pv = p@;
        let ghost before = queue@;
        if p.media.has_video() {
            let id: u64 = queue.alloc_id();
            let mut item = QueueItem::at(id, String::new(), p.mtime);
            item.status = ItemStatus::Done;
            item.filename = Some(p.name);
            item.duration = p.media.duration;
            item.media = Some(p.media);
            let ghost v = item@;
            proof {
                assert(v.url =~= Seq::<char>::empty());
                assert(v == imported(id, pv));
            }
            queue.items.push(item);
            assert(queue@.items =~= before.items.push(v));
            any = true;
        }
        i += 1;
    }
    assert(all.take(n as int) =~= all);
    any
}

/// Whether an item is a finished download whose media is unknown.
pub open spec fn lacks_media(item: ItemView) -> bool {
    item.status == ItemStatus::Done && item.media is None && item.filename is Some
}

/// The finished downloads whose media is unknown, by id and file name.
pub open spec fn media_needs(items: Seq<ItemView>) -> Seq<(u64, Seq<char>)>
    decreases items.len(),
{
    if items.len() == 0 {
        Seq::empty()
    } else if lacks_media(items.last()) {
        media_needs(items.drop_last()).push((items.last().id, items.last().filename->0))
    } else {
        media_needs(items.drop_last())
    }
}

pub open spec fn need_views(v: Seq<(u64, String)>) -> Seq<(u64, Seq<char>)> {
    v.map_values(|n: (u64, String)| (n.0, n.1@))
}

/// The finished downloads whose media is to be probed, by id and file name.
pub fn probe_needs(queue: &Queue) -> (r: Vec<(u64, String)>)
    ensures
        need_views(r@) == media_needs(queue@.items),
{
    let ghost all = queue@.items;
    let mut out: Vec<(u64, String)> = Vec::new();
    let mut i: usize = 0;
    assert(all.take(0) =~= Seq::<ItemView>::empty());
    assert(need_views(out@) =~= Seq::<(u64, Seq<char>)>::empty());
    while i < queue.items.len()
        invariant
            i <= queue.items@.len(),
            all == queue@.items,
            need_views(out@) == media_needs(all.take(i as int)),
        decreases queue.items@.len() - i,
    {
        let item: &QueueItem = &queue.items[i];
        proof {
            let t = all.take(i + 1);
            assert(t.drop_last() =~= all.take(i as int));
            assert(t.last() == item@);
        }
        if item.status == ItemStatus::Done && item.media.is_none() {
            if let Some(f) = &item.filename {
                let ghost o0 = out@;
                out.push((item.id, f.clone()));
                assert(need_views(out@) =~= need_views(o0).push((item.id, f@)));
            }
        }
        i += 1;
    }
    assert(all.take(i as int) =~= all);
    out
}

/// An item with its media filled in; a duration that was unknown comes with it.
pub open spec fn with_media(item: ItemView, m: MediaView) -> ItemView {
    ItemView {
        duration: match item.duration {
            Some(d) => Some(d),
            None => m.duration,
        },
        media: Some(m),
        ..item
    }
}

pub open spec fn media_views(v: Seq<(u64, MediaInfo)>) -> Seq<(u64, MediaView)> {
    v.map_values(|n: (u64, MediaInfo)| (n.0, n.1@))
}

/// The queue with the media of items filled in; what has no video stream is left out.
pub open spec fn media_filled(q: QueueState, v: Seq<(u64, MediaView)>) -> QueueState
    decreases v.len(),
{
    if v.len() == 0 {
        q
    } else {
        let r = media_filled(q, v.drop_last());
        let (id, m) = v.last();
        if m.video_codec is Some && r.holds(id) {
            r.with_item(id, with_media(r.item(id), m))
        } else {
            r
        }
    }
}

/// Whether any of the media has a video stream.
pub open spec fn any_video(v: Seq<(u64, MediaView)>) -> bool {
    exists|i: int| 0 <= i < v.len() && (#[trigger] v[i]).1.video_codec is Some
}

/// Fills the probed media of items in, and says whether there was any video.
pub fn probe_missing_media(queue: &mut Queue, found: Vec<(u64, MediaInfo)>) -> (r: bool)
    ensures
        final(queue)@ == media_filled(old(queue)@, media_views(found@)),
        r == any_video(media_views(found@)),
{
    let ghost all = media_views(found@);
    let ghost whole = found@;
    let ghost q0 = queue@;
    let mut rest: Vec<(u64, MediaInfo)> = found;
    let n: usize = rest.len();
    let mut i: usize = 0;
    let mut any: bool = false;
    assert(all.take(0) =~= Seq::<(u64, MediaView)>::empty());
    while i < n
        invariant
            i <= n == whole.len(),
            all == media_views(whole),
            rest@ == whole.skip(i as int),
            queue@ == media_filled(q0, all.take(i as int)),
            any ==> any_video(all),
            !any ==> forall|j: int| 0 <= j < i ==> (#[trigger] all[j]).1.video_codec is None,
        decreases n - i,
    {
        let (id, m): (u64, MediaInfo) = rest.remove(0);
        proof {
            assert((id, m) == whole[i as int]);
            assert(rest@ =~= whole.skip(i + 1));
            assert(all[i as int] == (id, m@));
            let t = all.take(i + 1);
            assert(t.drop_last() =~= all.take(i as int));
            assert(t.last() == (id, m@));
        }
        if m.has_video() {
            any = true;
            assert(all[i as int].1.video_codec is Some);
            if let Some(item) = queue.get_mut(id) {
                if item.duration.is_none() {
                    item.duration = m.duration;
                }
                item.media = Some(m);
            }
        }
        i += 1;
    }
    assert(all.take(n as int) =~= all);
    any
}

/// The duration by which the frames of an item are counted: its own, else that of its media.
pub open spec fn known_duration(item: ItemView) -> Option<Double> {
    match (item.duration, item.media) {
        (Some(d), _) => Some(d),
        (None, Some(m)) => m.duration,
        (None, None) => None,
    }
}

fn duration_of(item: &QueueItem) -> (r: Option<Double>)
    ensures
        r == known_duration(item@),
{
    match item.duration {
        Some(d) => Some(d),
        None => match &item.media {
            Some(m) => m.duration,
            None => None,
        },
    }
}

/// Whether the frames of an item are not as many as its duration asks for. Without a duration
/// nothing can be said.
pub open spec fn is_stale(item: ItemView) -> bool {
    item.status == ItemStatus::Done && item.thumbnails.len() > 0 && match known_duration(item) {
        Some(d) => d.positive() && item.thumbnails.len() != thumb::frames_for(Some(d)),
        None => false,
    }
}

/// An item without stale frames. A primary thumbnail that is one of them leaves too; a fetched one
/// stays.
pub open spec fn refreshed(item: ItemView) -> ItemView {
    if is_stale(item) {
        ItemView {
            thumbnail: match item.thumbnail {
                Some(t) => if item.thumbnails.contains(t) {
                    None
                } else {
                    Some(t)
                },
                None => None,
            },
            thumbnails: Seq::empty(),
            ..item
        }
    } else {
        item
    }
}

/// Drops stale frames, so that they are extracted again, and says whether there were any.
pub fn reset_stale_thumbnail_counts(queue: &mut Queue) -> (r: bool)
    ensures
        final(queue)@ == (QueueState {
            items: old(queue)@.items.map_values(|i: ItemView| refreshed(i)),
            ..old(queue)@
        }),
        r == (exists|i: int|
            0 <= i < old(queue)@.items.len() && is_stale(#[trigger] old(queue)@.items[i])),
{
    let ghost all = queue@.items;
    let ghost goal = all.map_values(|i: ItemView| refreshed(i));
    let mut any: bool = false;
    let mut i: usize = 0;
    while i < queue.items.len()
        invariant
            i <= queue.items@.len(),
            queue.items@.len() == all.len(),
            all == old(queue)@.items,
            goal == all.map_values(|i: ItemView| refreshed(i)),
            queue.next_id == old(queue).next_id,
            forall|j: int| 0 <= j < i ==> (#[trigger] queue.items@[j])@ == goal[j],
            forall|j: int| i <= j < all.len() ==> (#[trigger] queue.items@[j])@ == all[j],
            any ==> exists|j: int| 0 <= j < all.len() && is_stale(#[trigger] all[j]),
            !any ==> forall|j: int| 0 <= j < i ==> !is_stale(#[trigger] all[j]),
        decreases queue.items@.len() - i,
    {
        let item: &mut QueueItem = &mut queue.items[i];
        let ghost before = item@;
        assert(before == all[i as int]);
        assert(before.thumbnails.len() == item.thumbnails@.len());
        if item.status == ItemStatus::Done && item.thumbnails.len() > 0 {
            if let Some(d) = duration_of(item) {
                if d.is_positive() && item.thumbnails.len() != thumb::frame_count(Some(d)) {
                    let native: bool = match &item.thumbnail {
                        Some(t) => text::holds(&item.thumbnails, t.as_str()),
                        None => false,
                    };
                    if native {
                        item.thumbnail = None;
                    }
                    item.thumbnails = Vec::new();
                    assert(item@.thumbnails =~= Seq::<Seq<char>>::empty());
                    any = true;
                    assert(is_stale(all[i as int]));
                }
            }
        }
        assert(item@ == refreshed(before));
        i += 1;
    }
    assert(queue@.items =~= goal);
    any
}

/// Whether some item refers to a cached thumbnail.
pub open spec fn is_referenced(items: Seq<ItemView>, name: Seq<char>) -> bool {
    exists|i: int|
        0 <= i < items.len() && refers(#[trigger] items[i], name)
}

pub open spec fn refers(item: ItemView, name: Seq<char>) -> bool {
    item.thumbnail == Some(name) || item.thumbnails.contains(name)
}

/// Whether a file in the cache is to be deleted: no item refers to it, and it is neither hidden nor
/// being written.
pub open spec fn is_orphan(items: Seq<ItemView>, name: Seq<char>) -> bool {
    !"."@.is_prefix_of(name) && !".tmp"@.is_suffix_of(name) && !is_referenced(items, name)
}

/// Whether a file in the cache is to be deleted.
pub fn orphaned(queue: &Queue, name: &str) -> (r: bool)
    ensures
        r == is_orphan(queue@.items, name@),
{
    if text::starts_with(name, ".") || text::ends_with(name, ".tmp") {
        return false;
    }
    let mut i: usize = 0;
    while i < queue.items.len()
        invariant
            i <= queue.items@.len(),
            forall|j: int| 0 <= j < i ==> !refers(#[trigger] queue@.items[j], name@),
        decreases queue.items@.len() - i,
    {
        let item: &QueueItem = &queue.items[i];
        assert(queue@.items[i as int] == item@);
        let primary: bool = match &item.thumbnail {
            Some(t) => text::same(t.as_str(), name),
            None => false,
        };
        if primary || text::holds(&item.thumbnails, name) {
            assert(refers(queue@.items[i as int], name@));
            return false;
        }
        i += 1;
    }
    true
}

/// Whether an item is a finished download without frames.
pub open spec fn lacks_frames(item: ItemView) -> bool {
    item.status == ItemStatus::Done && item.thumbnails.len() == 0 && item.filename is Some
}

/// The finished downloads without frames, by id, file name and duration.
pub open spec fn frame_needs(items: Seq<ItemView>) -> Seq<(u64, Seq<char>, Option<Double>)>
    decreases items.len(),
{
    if items.len() == 0 {
        Seq::empty()
    } else if lacks_frames(items.last()) {
        frame_needs(items.drop_last()).push(
            (items.last().id, items.last().filename->0, known_duration(items.last())),
        )
    } else {
        frame_needs(items.drop_last())
    }
}

pub open spec fn frame_need_views(v: Seq<(u64, String, Option<Double>)>) -> Seq<
    (u64, Seq<char>, Option<Double>),
> {
    v.map_values(|n: (u64, String, Option<Double>)| (n.0, n.1@, n.2))
}

/// The finished downloads from which frames are to be extracted, by id, file name and duration.
pub fn thumbnail_needs(queue: &Queue) -> (r: Vec<(u64, String, Option<Double>)>)
    ensures
        frame_need_views(r@) == frame_needs(queue@.items),
{
    let ghost all = queue@.items;
    let mut out: Vec<(u64, String, Option<Double>)> = Vec::new();
    let mut i: usize = 0;
    assert(all.take(0) =~= Seq::<ItemView>::empty());
    assert(frame_need_views(out@) =~= Seq::<(u64, Seq<char>, Option<Double>)>::empty());
    while i < queue.items.len()
        invariant
            i <= queue.items@.len(),
            all == queue@.items,
            frame_need_views(out@) == frame_needs(all.take(i as int)),
        decreases queue.items@.len() - i,
    {
        let item: &QueueItem = &queue.items[i];
        proof {
            let t = all.take(i + 1);
            assert(t.drop_last() =~= all.take(i as int));
            assert(t.last() == item@);
            assert(item@.thumbnails.len() == item.thumbnails@.len());
        }
        if item.status == ItemStatus::Done && item.thumbnails.len() == 0 {
            if let Some(f) = &item.filename {
                let ghost o0 = out@;
                out.push((item.id, f.clone(), duration_of(item)));
                assert(frame_need_views(out@) =~= frame_need_views(o0).push(
                    (item.id, f@, known_duration(item@)),
                ));
            }
        }
        i += 1;
    }
    assert(all.take(i as int) =~= all);
    out
}

/// An item with its extracted frames. The middle one is the primary thumbnail where there is none.
pub open spec fn with_frames(item: ItemView, frames: Seq<Seq<char>>) -> ItemView {
    ItemView {
        thumbnails: frames,
        thumbnail: match item.thumbnail {
            Some(t) => Some(t),
            None => if frames.len() > 0 {
                Some(frames[(frames.len() / 2) as int])
            } else {
                None
            },
        },
        ..item
    }
}

/// Gives the item `id` its extracted frames, unless it has some by now. Gives its card, where it
/// changed.
pub fn land_frames(queue: &mut Queue, id: u64, frames: Vec<String>) -> (r: Option<Event>)
    ensures
        old(queue)@.holds(id) && old(queue)@.item(id).thumbnails.len() == 0 ==> {
            let after = with_frames(old(queue)@.item(id), text::list(frames@));
            &&& final(queue)@ == old(queue)@.with_item(id, after)
            &&& r is Some
            &&& r->0@ == worker::card_event(id, render::card_html(after))
        },
        !(old(queue)@.holds(id) && old(queue)@.item(id).thumbnails.len() == 0) ==> final(queue)@
            == old(queue)@ && r is None,
{
    proof {
        state::lemma_same_item(queue@, id);
    }
    match queue.get_mut(id) {
        None => None,
        Some(item) => {
            let ghost before = item@;
            assert(before.thumbnails.len() == item.thumbnails@.len());
            if item.thumbnails.len() > 0 {
                return None;
            }
            if item.thumbnail.is_none() && frames.len() > 0 {
                assert(text::list(frames@)[(frames@.len() / 2) as int] == frames@[(frames@.len() / 2)
                    as int]@);
                item.thumbnail = Some(frames[frames.len() / 2].clone());
            }
            let ghost f = text::list(frames@);
            item.thumbnails = frames;
            assert(item@ == with_frames(before, f));
            Some(Event::Card { id, html: render::render_card(item) })
        },
    }
}

/// Whether a thumbnail that was fetched for an item is taken: only where it has none yet.
pub open spec fn takes_thumb(q: QueueState, id: u64) -> bool {
    q.holds(id) && q.item(id).thumbnail is None
}

/// The queue with fetched thumbnails set on the items that have none.
pub open spec fn thumbs_landed(q: QueueState, v: Seq<(u64, Seq<char>)>) -> QueueState
    decreases v.len(),
{
    if v.len() == 0 {
        q
    } else {
        let r = thumbs_landed(q, v.drop_last());
        let (id, name) = v.last();
        if takes_thumb(r, id) {
            r.with_item(id, ItemView { thumbnail: Some(name), ..r.item(id) })
        } else {
            r
        }
    }
}

/// The items that got one of the fetched thumbnails, in order.
pub open spec fn thumbs_changed(q: QueueState, v: Seq<(u64, Seq<char>)>) -> Seq<u64>
    decreases v.len(),
{
    if v.len() == 0 {
        Seq::empty()
    } else {
        let r = thumbs_landed(q, v.drop_last());
        if takes_thumb(r, v.last().0) {
            thumbs_changed(q, v.drop_last()).push(v.last().0)
        } else {
            thumbs_changed(q, v.drop_last())
        }
    }
}

/// The cards of items.
pub open spec fn cards_of(q: QueueState, ids: Seq<u64>) -> Seq<EventView>
    decreases ids.len(),
{
    if ids.len() == 0 {
        Seq::empty()
    } else if q.holds(ids.last()) {
        cards_of(q, ids.drop_last()).push(
            worker::card_event(ids.last(), render::card_html(q.item(ids.last()))),
        )
    } else {
        cards_of(q, ids.drop_last())
    }
}

/// The first active item.
pub open spec fn first_active(q: QueueState) -> Option<ItemView> {
    let i = state::first_where(q.items, state::is_active());
    if i < q.items.len() {
        Some(q.items[i])
    } else {
        None
    }
}

/// Finds the first active item.
pub fn find_active(queue: &Queue) -> (r: Option<&QueueItem>)
    ensures
        render::opt_item(r) == first_active(queue@),
{
    let ghost p = state::is_active();
    let mut i: usize = 0;
    while i < queue.items.len()
        invariant
            i <= queue.items@.len(),
            p == state::is_active(),
            forall|j: int| 0 <= j < i ==> !p(#[trigger] queue@.items[j]),
        decreases queue.items@.len() - i,
    {
        assert(queue@.items[i as int] == queue.items@[i as int]@);
        if queue.items[i].status == ItemStatus::Active {
            proof {
                state::lemma_first_where(queue@.items, p, i as int);
            }
            return Some(&queue.items[i]);
        }
        i += 1;
    }
    proof {
        state::lemma_first_where(queue@.items, p, i as int);
    }
    None
}

/// The events of fetched thumbnails: the card of each item that got one, and the thumbnail of the
/// banner where the active item is one of them.
pub open spec fn thumb_events(q: QueueState, ids: Seq<u64>) -> Seq<EventView> {
    let cards = cards_of(q, ids);
    match first_active(q) {
        Some(item) => if ids.contains(item.id) {
            cards.push(
                EventView { name: "status-thumb"@, data: render::banner(Some(item), 0).thumb },
            )
        } else {
            cards
        },
        None => cards,
    }
}

fn render_cards_of(queue: &Queue, ids: &Vec<u64>) -> (r: Vec<Event>)
    ensures
        render::event_views(r@) == cards_of(queue@, ids@),
{
    let mut out: Vec<Event> = Vec::new();
    let mut i: usize = 0;
    assert(ids@.take(0) =~= Seq::<u64>::empty());
    assert(render::event_views(out@) =~= Seq::<EventView>::empty());
    while i < ids.len()
        invariant
            i <= ids@.len(),
            render::event_views(out@) == cards_of(queue@, ids@.take(i as int)),
        decreases ids@.len() - i,
    {
        let id: u64 = ids[i];
        proof {
            let t = ids@.take(i + 1);
            assert(t.drop_last() =~= ids@.take(i as int));
            assert(t.last() == id);
        }
        if let Some(item) = queue.get(id) {
            let ghost o0 = out@;
            out.push(Event::Card { id, html: render::render_card(item) });
            assert(render::event_views(out@) =~= render::event_views(o0).push(out@.last()@));
        }
        i += 1;
    }
    assert(ids@.take(i as int) =~= ids@);
    out
}

fn holds_id(ids: &Vec<u64>, id: u64) -> (r: bool)
    ensures
        r == ids@.contains(id),
{
    let mut i: usize = 0;
    while i < ids.len()
        invariant
            i <= ids@.len(),
            forall|j: int| 0 <= j < i ==> ids@[j] != id,
        decreases ids@.len() - i,
    {
        if ids[i] == id {
            return true;
        }
        i += 1;
    }
    false
}

/// Sets fetched thumbnails on the items that have none.
pub fn land_thumbnails(queue: &mut Queue, landed: Vec<(u64, String)>) -> (r: Vec<Event>)
    ensures
        final(queue)@ == thumbs_landed(old(queue)@, need_views(landed@)),
        render::event_views(r@) == thumb_events(
            final(queue)@,
            thumbs_changed(old(queue)@, need_views(landed@)),
        ),
{
    let ghost all = need_views(landed@);
    let ghost q0 = queue@;
    let mut changed: Vec<u64> = Vec::new();
    let mut i: usize = 0;
    assert(all.take(0) =~= Seq::<(u64, Seq<char>)>::empty());
    while i < landed.len()
        invariant
            i <= landed@.len(),
            all == need_views(landed@),
            queue@ == thumbs_landed(q0, all.take(i as int)),
            changed@ == thumbs_changed(q0, all.take(i as int)),
        decreases landed@.len() - i,
    {
        let id: u64 = landed[i].0;
        proof {
            let t = all.take(i + 1);
            assert(t.drop_last() =~= all.take(i as int));
            assert(t.last() == (id, landed@[i as int].1@));
            state::lemma_same_item(queue@, id);
        }
        let mut took: bool = false;
        if let Some(item) = queue.get_mut(id) {
            if item.thumbnail.is_none() {
                item.thumbnail = Some(landed[i].1.clone());
                took = true;
            }
        }
        if took {
            changed.push(id);
        }
        i += 1;
    }
    assert(all.take(i as int) =~= all);
    let mut events: Vec<Event> = render_cards_of(queue, &changed);
    let ghost cards = render::event_views(events@);
    if let Some(item) = find_active(queue) {
        if holds_id(&changed, item.id) {
            let ghost e0 = events@;
            events.push(Event::StatusThumb(render::StatusParts::new(Some(item), 0).thumb));
            assert(render::event_views(events@) =~= cards.push(events@.last()@));
        }
    }
    events
}

/// The event that shows the queue after a reconcile.
pub fn reconciled(queue: &Queue) -> (r: Event)
    ensures
        r@ == (EventView { name: "queue"@, data: render::queue_html(queue@) }),
{
    Event::Queue(render::render_queue(queue))
}

/// Pruning removes finished downloads alone, and exactly those whose file is gone.
pub proof fn law_prune_removes_only_missing(q: QueueState, present: Seq<Seq<char>>)
    requires
        q.wf(),
    ensures
        (QueueState { items: q.items.filter(is_there(present)), ..q }).wf(),
        forall|i: int|
            0 <= i < q.items.len() && (#[trigger] q.items[i]).status != ItemStatus::Done
                ==> q.items.filter(is_there(present)).contains(q.items[i]),
        forall|i: int|
            0 <= i < q.items.filter(is_there(present)).len() ==> !is_missing(
                #[trigger] q.items.filter(is_there(present))[i],
                present,
            ),
{
    state::lemma_filter_ids(q.items, is_there(present), q.next_id);
    broadcast use Seq::lemma_filter_pred, Seq::lemma_filter_contains;

    let p = is_there(present);
    assert forall|i: int| 0 <= i < q.items.len() && (#[trigger] q.items[i]).status
        != ItemStatus::Done implies q.items.filter(p).contains(q.items[i]) by {
        assert(p(q.items[i]));
    }
    assert forall|i: int| 0 <= i < q.items.filter(p).len() implies !is_missing(
        #[trigger] q.items.filter(p)[i],
        present,
    ) by {
        assert(p(q.items.filter(p)[i]));
    }
}

/// A cached thumbnail that an item refers to is never deleted.
pub proof fn law_referenced_thumbs_stay(items: Seq<ItemView>, i: int, name: Seq<char>)
    requires
        0 <= i < items.len(),
        refers(items[i], name),
    ensures
        !is_orphan(items, name),
{
}

/// Dropping stale frames leaves nothing stale, keeps a fetched thumbnail, and does nothing a second
/// time.
pub proof fn law_reset_leaves_nothing_stale(item: ItemView)
    ensures
        !is_stale(refreshed(item)),
        refreshed(refreshed(item)) == refreshed(item),
        item.thumbnail is Some && !item.thumbnails.contains(item.thumbnail->0)
            ==> refreshed(item).thumbnail == item.thumbnail,
        refreshed(item).id == item.id,
        refreshed(item).status == item.status,
{
}

/// An imported video is owned from then on, so that it is not imported again.
pub proof fn law_import_is_not_repeated(q: QueueState, v: Seq<ProbedView>, i: int)
    requires
        0 <= i < v.len(),
        v[i].media.video_codec is Some,
    ensures
        is_owned(with_imported(q, v).items, v[i].name),
    decreases v.len(),
{
    let r = with_imported(q, v.drop_last());
    let w = with_imported(q, v);
    if i == v.len() - 1 {
        assert(w.items[w.items.len() - 1].status == ItemStatus::Done);
        assert(w.items[w.items.len() - 1].filename == Some(v[i].name));
    } else {
        law_import_is_not_repeated(q, v.drop_last(), i);
        let k = choose|k: int|
            0 <= k < r.items.len() && #[trigger] r.items[k].status == ItemStatus::Done
                && r.items[k].filename == Some(v[i].name);
        assert(w.items[k] == r.items[k]);
        assert(w.items[k].status == ItemStatus::Done);
    }
}

/// The items of imported videos, under one id after the other.
pub open spec fn imports(next: u64, v: Seq<ProbedView>) -> Seq<ItemView> {
    Seq::new(v.len(), |i: int| imported((next + i) as u64, v[i]))
}

/// Importing appends exactly the videos among the probed files, in their order, as finished downloads
/// under consecutive fresh ids, and touches no item that was there.
pub proof fn law_import_appends(q: QueueState, v: Seq<ProbedView>)
    requires
        q.wf(),
        q.next_id + v.filter(is_video()).len() <= u64::MAX,
    ensures
        with_imported(q, v).wf(),
        with_imported(q, v).items == q.items + imports(q.next_id, v.filter(is_video())),
        with_imported(q, v).next_id == q.next_id + v.filter(is_video()).len(),
        q.items.is_prefix_of(with_imported(q, v).items),
        forall|i: int|
            q.items.len() <= i < with_imported(q, v).items.len() ==> (#[trigger] with_imported(
                q,
                v,
            ).items[i]).status == ItemStatus::Done,
        with_imported(q, v).active() == q.active(),
        with_imported(q, v).pending() == q.pending(),
    decreases v.len(),
{
    reveal(Seq::filter);
    let videos = v.filter(is_video());
    if v.len() == 0 {
        assert(q.items + imports(q.next_id, videos) =~= q.items);
    } else {
        let fewer = v.drop_last().filter(is_video());
        law_import_appends(q, v.drop_last());
        let r = with_imported(q, v.drop_last());
        let w = with_imported(q, v);
        if v.last().media.video_codec is Some {
            let item = imported(r.next_id, v.last());
            state::lemma_count_push(r.items, state::is_active(), item);
            state::lemma_count_push(r.items, state::is_pending(), item);
            assert(imports(q.next_id, videos) =~= imports(q.next_id, fewer).push(item));
            assert(w.items =~= q.items + imports(q.next_id, videos));
            assert forall|i: int| 0 <= i < w.items.len() implies #[trigger] w.items[i] == if i
                < r.items.len() {
                r.items[i]
            } else {
                item
            } by {}
        }
    }
}

/// Importing a second time adds nothing: whatever of the same files is still to be probed then holds no
/// video.
pub proof fn law_second_import_adds_nothing(
    q: QueueState,
    v: Seq<ProbedView>,
    again: Seq<ProbedView>,
)
    requires
        forall|i: int|
            0 <= i < again.len() ==> v.contains(#[trigger] again[i]) && is_candidate(
                with_imported(q, v).items,
                again[i].name,
            ),
    ensures
        with_imported(with_imported(q, v), again) == with_imported(q, v),
    decreases again.len(),
{
    if again.len() > 0 {
        let rest = again.drop_last();
        assert forall|i: int| 0 <= i < rest.len() implies v.contains(#[trigger] rest[i])
            && is_candidate(with_imported(q, v).items, rest[i].name) by {
            assert(rest[i] == again[i]);
        }
        law_second_import_adds_nothing(q, v, rest);
        let last = again[again.len() - 1];
        assert(v.contains(last));
        if last.media.video_codec is Some {
            let i = choose|i: int| 0 <= i < v.len() && v[i] == last;
            law_import_is_not_repeated(q, v, i);
        }
    }
}

/// Whether two queues hold the same items in the same order, each with its status.
pub open spec fn same_run(a: QueueState, b: QueueState) -> bool {
    &&& a.next_id == b.next_id
    &&& a.items.len() == b.items.len()
    &&& forall|i: int|
        0 <= i < a.items.len() ==> (#[trigger] a.items[i]).id == b.items[i].id && a.items[i].status
            == b.items[i].status
}

proof fn lemma_update_keeps_run(q: QueueState, id: u64, item: ItemView)
    requires
        q.wf(),
        q.holds(id),
        item.id == q.item(id).id,
        item.status == q.item(id).status,
    ensures
        q.with_item(id, item).wf(),
        same_run(q, q.with_item(id, item)),
{
    state::lemma_first_where_found(q.items, state::has_id(id));
    state::law_update_keeps_ids(q, id, item);
}

/// Media and thumbnails that land in the queue change no status, no id and no order.
pub proof fn law_landing_keeps_the_queue(
    q: QueueState,
    found: Seq<(u64, MediaView)>,
    landed: Seq<(u64, Seq<char>)>,
)
    requires
        q.wf(),
    ensures
        media_filled(q, found).wf(),
        same_run(q, media_filled(q, found)),
        thumbs_landed(q, landed).wf(),
        same_run(q, thumbs_landed(q, landed)),
    decreases found.len() + landed.len(),
{
    if found.len() > 0 {
        law_landing_keeps_the_queue(q, found.drop_last(), landed);
        let r = media_filled(q, found.drop_last());
        let (id, m) = found.last();
        if m.video_codec is Some && r.holds(id) {
            lemma_update_keeps_run(r, id, with_media(r.item(id), m));
        }
    }
    if landed.len() > 0 {
        law_landing_keeps_the_queue(q, found, landed.drop_last());
        let r = thumbs_landed(q, landed.drop_last());
        let (id, name) = landed.last();
        if takes_thumb(r, id) {
            lemma_update_keeps_run(r, id, ItemView { thumbnail: Some(name), ..r.item(id) });
        }
    }
}

/// A listed file is probed for import exactly where its name is that of a plain file right in the
/// directory and no finished download has it, whatever its extension is and whatever else the queue
/// holds.
pub proof fn law_every_new_file_is_probed(items: Seq<ItemView>, name: Seq<char>)
    ensures
        is_candidate(items, name) <==> {
            &&& name.len() > 0
            &&& name[0] != '.'
            &&& !name.contains('/')
            &&& !name.contains('\\')
            &&& !name.contains('\0')
            &&& forall|i: int|
                0 <= i < items.len() && items[i].status == ItemStatus::Done
                    ==> #[trigger] items[i].filename != Some(name)
        },
{
    if is_owned(items, name) {
        let i = choose|i: int|
            0 <= i < items.len() && #[trigger] items[i].status == ItemStatus::Done
                && items[i].filename == Some(name);
        assert(items[i].filename == Some(name));
    } else {
        assert forall|i: int|
            0 <= i < items.len() && items[i].status
                == ItemStatus::Done implies #[trigger] items[i].filename != Some(name) by {
            assert(items[i].status == ItemStatus::Done);
        }
    }
}

/// Pruning drops an item exactly where it is done and its file is not among those present, and leaves
/// the others in their order.
pub proof fn law_prune_goes_by_the_files(items: Seq<ItemView>, present: Seq<Seq<char>>, i: int)
    requires
        0 <= i < items.len(),
    ensures
        items.filter(is_there(present)) == items.filter(
            |item: ItemView|
                item.status != ItemStatus::Done || item.filename is None || present.contains(
                    item.filename->0,
                ),
        ),
        items[i].status == ItemStatus::Done && items[i].filename is Some && !present.contains(
            items[i].filename->0,
        ) ==> !items.filter(is_there(present)).contains(items[i]),
        items[i].status == ItemStatus::Done && items[i].filename is Some && present.contains(
            items[i].filename->0,
        ) ==> items.filter(is_there(present)).contains(items[i]),
{
    broadcast use Seq::lemma_filter_pred, Seq::lemma_filter_contains;

    let p = |item: ItemView|
        item.status != ItemStatus::Done || item.filename is None || present.contains(
            item.filename->0,
        );
    assert(is_there(present) =~= p);
    let r = items.filter(is_there(present));
    if r.contains(items[i]) {
        let k = choose|k: int| 0 <= k < r.len() && r[k] == items[i];
        assert(is_there(present)(r[k]));
    }
}

/// An imported video is a finished download of its file: without a URL, with its media and the duration
/// of that, and as old as the file. A file without a video stream is not imported.
pub proof fn law_imported_video_is_done(q: QueueState, v: Seq<ProbedView>, p: ProbedView)
    requires
        with_imported(q, v).next_id < u64::MAX,
    ensures
        ({
            let before = with_imported(q, v);
            let after = with_imported(q, v.push(p));
            let new = after.items.last();
            &&& p.media.video_codec is None ==> after == before
            &&& p.media.video_codec is Some ==> {
                &&& after.items.len() == before.items.len() + 1
                &&& forall|i: int|
                    0 <= i < before.items.len() ==> #[trigger] after.items[i] == before.items[i]
                &&& after.next_id == before.next_id + 1
                &&& new.id == before.next_id
                &&& new.status == ItemStatus::Done
                &&& new.url.len() == 0
                &&& new.filename == Some(p.name)
                &&& new.media == Some(p.media)
                &&& new.duration == p.media.duration
                &&& new.enqueued_at == p.mtime
                &&& new.title is None
                &&& new.progress is None
                &&& new.error is None
                &&& new.thumbnail is None
                &&& new.thumbnails.len() == 0
                &&& new.logs.len() == 0
                &&& new.cancel is None
            }
        }),
        with_imported(q, Seq::empty()) == q,
{
    assert(v.push(p).drop_last() =~= v);
}

/// Every finished download with a file is probed where its media is unknown, and gets frames where it
/// has none; no other item is. Frames are counted by the duration of the item, or else of its media.
pub proof fn law_needs_are_complete(items: Seq<ItemView>, item: ItemView)
    ensures
        media_needs(Seq::empty()).len() == 0,
        item.status == ItemStatus::Done && item.filename is Some && item.media is None
            ==> media_needs(items.push(item)) == media_needs(items).push(
            (item.id, item.filename->0),
        ),
        !(item.status == ItemStatus::Done && item.filename is Some && item.media is None)
            ==> media_needs(items.push(item)) == media_needs(items),
        frame_needs(Seq::empty()).len() == 0,
        !(item.status == ItemStatus::Done && item.filename is Some && item.thumbnails.len() == 0)
            ==> frame_needs(items.push(item)) == frame_needs(items),
        item.status == ItemStatus::Done && item.filename is Some && item.thumbnails.len() == 0
            ==> frame_needs(items.push(item)) == frame_needs(items).push(
            (
                item.id,
                item.filename->0,
                if item.duration is Some {
                    item.duration
                } else if item.media is Some {
                    item.media->0.duration
                } else {
                    None
                },
            ),
        ),
{
    assert(items.push(item).drop_last() =~= items);
}

/// Media that was found goes to the item that it was asked for, with its duration where that was
/// unknown; what has no video stream, and what belongs to no item, changes nothing.
pub proof fn law_found_media_is_filled_in(
    q: QueueState,
    v: Seq<(u64, MediaView)>,
    id: u64,
    m: MediaView,
)
    ensures
        ({
            let before = media_filled(q, v);
            let after = media_filled(q, v.push((id, m)));
            let filled = after.item(id);
            &&& m.video_codec is None ==> after == before
            &&& !before.holds(id) ==> after == before
            &&& m.video_codec is Some && before.holds(id) ==> {
                &&& after == before.with_item(id, filled)
                &&& filled.media == Some(m)
                &&& before.item(id).duration is Some ==> filled.duration == before.item(id).duration
                &&& before.item(id).duration is None ==> filled.duration == m.duration
                &&& (ItemView {
                    media: before.item(id).media,
                    duration: before.item(id).duration,
                    ..filled
                }) == before.item(id)
            }
        }),
        media_filled(q, Seq::empty()) == q,
{
    let w = v.push((id, m));
    assert(w.drop_last() =~= v);
    let before = media_filled(q, v);
    if m.video_codec is Some && before.holds(id) {
        state::lemma_first_where_found(before.items, state::has_id(id));
        state::lemma_item_of_updated(before, id, with_media(before.item(id), m));
    }
}

/// Frames are dropped exactly where a finished download has some, but not as many as its duration asks
/// for; a primary thumbnail leaves only where it is one of them, and nothing else changes.
pub proof fn law_stale_frames_are_dropped(item: ItemView, d: Double)
    requires
        item.duration == Some(d) || (item.duration is None && item.media is Some
            && item.media->0.duration == Some(d)),
    ensures
        ({
            let r = refreshed(item);
            let stale = item.status == ItemStatus::Done && item.thumbnails.len() > 0
                && d.positive() && item.thumbnails.len() != thumb::frames_for(Some(d));
            &&& !stale ==> r == item
            &&& stale ==> r.thumbnails.len() == 0
            &&& stale && item.thumbnail is Some && item.thumbnails.contains(item.thumbnail->0)
                ==> r.thumbnail is None
            &&& !(stale && item.thumbnail is Some && item.thumbnails.contains(item.thumbnail->0))
                ==> r.thumbnail == item.thumbnail
            &&& (ItemView { thumbnail: item.thumbnail, thumbnails: item.thumbnails, ..r }) == item
        }),
{
}

/// Without a known duration no frame is dropped.
pub proof fn law_frames_of_unknown_length_stay(item: ItemView)
    requires
        item.duration is None,
        item.media is None || item.media->0.duration is None,
    ensures
        refreshed(item) == item,
{
}

/// A file in the cache is deleted exactly where no item refers to it, as its primary thumbnail or as one
/// of its frames, and its name neither begins with a dot nor ends in `.tmp`.
pub proof fn law_cache_keeps_what_is_used(items: Seq<ItemView>, name: Seq<char>)
    ensures
        is_orphan(items, name) <==> {
            &&& !(name.len() > 0 && name[0] == '.')
            &&& !(name.len() >= 4 && name.skip(name.len() - 4) == ".tmp"@)
            &&& forall|i: int|
                0 <= i < items.len() ==> (#[trigger] items[i]).thumbnail != Some(name)
                    && !items[i].thumbnails.contains(name)
        },
{
    reveal_strlit(".");
    reveal_strlit(".tmp");
    if name.len() > 0 {
        assert(name.subrange(0, 1)[0] == name[0]);
        if name[0] == '.' {
            assert("."@ =~= name.subrange(0, 1));
        }
    }
    if name.len() >= 4 {
        assert(name.skip(name.len() - 4) =~= name.subrange(name.len() - 4, name.len() as int));
    }
    if is_referenced(items, name) {
        let i = choose|i: int| 0 <= i < items.len() && refers(#[trigger] items[i], name);
        assert(items[i].thumbnail == Some(name) || items[i].thumbnails.contains(name));
    } else {
        assert forall|i: int| 0 <= i < items.len() implies (#[trigger] items[i]).thumbnail != Some(
            name,
        ) && !items[i].thumbnails.contains(name) by {
            assert(!refers(items[i], name));
        }
    }
}

/// Extracted frames become those of the item, all of them in their order; the middle one becomes the
/// primary thumbnail where there is none, and nothing else changes.
pub proof fn law_frames_land(item: ItemView, frames: Seq<Seq<char>>)
    ensures
        ({
            let r = with_frames(item, frames);
            &&& r.thumbnails == frames
            &&& item.thumbnail is Some ==> r.thumbnail == item.thumbnail
            &&& item.thumbnail is None && frames.len() > 0 ==> r.thumbnail == Some(
                frames[frames.len() as int / 2],
            )
            &&& item.thumbnail is None && frames.len() == 0 ==> r.thumbnail is None
            &&& (ItemView { thumbnail: item.thumbnail, thumbnails: item.thumbnails, ..r }) == item
        }),
{
}

/// A fetched thumbnail becomes that of its item where it has none, is reported as a change, and changes
/// nothing else; it never replaces another.
pub proof fn law_fetched_thumbnail_lands(
    q: QueueState,
    v: Seq<(u64, Seq<char>)>,
    id: u64,
    name: Seq<char>,
)
    ensures
        ({
            let before = thumbs_landed(q, v);
            let after = thumbs_landed(q, v.push((id, name)));
            let takes = before.holds(id) && before.item(id).thumbnail is None;
            &&& takes ==> after == before.with_item(
                id,
                ItemView { thumbnail: Some(name), ..before.item(id) },
            )
            &&& takes ==> thumbs_changed(q, v.push((id, name))) == thumbs_changed(q, v).push(id)
            &&& !takes ==> after == before && thumbs_changed(q, v.push((id, name)))
                == thumbs_changed(q, v)
        }),
        thumbs_landed(q, Seq::empty()) == q,
        thumbs_changed(q, Seq::empty()).len() == 0,
{
    assert(v.push((id, name)).drop_last() =~= v);
}

/// Each item that got a thumbnail is sent as a card, in order, and the banner gets its thumbnail where
/// the active item is one of them.
pub proof fn law_new_thumbnails_reach_the_page(q: QueueState, ids: Seq<u64>, id: u64)
    ensures
        q.holds(id) ==> cards_of(q, ids.push(id)) == cards_of(q, ids).push(
            EventView { name: events::card_name(id), data: render::card_html(q.item(id)) },
        ),
        !q.holds(id) ==> cards_of(q, ids.push(id)) == cards_of(q, ids),
        cards_of(q, Seq::empty()).len() == 0,
        first_active(q) is Some && ids.contains(first_active(q)->0.id) ==> thumb_events(q, ids)
            == cards_of(q, ids).push(
            EventView {
                name: "status-thumb"@,
                data: render::banner(first_active(q), 0).thumb,
            },
        ),
        !(first_active(q) is Some && ids.contains(first_active(q)->0.id)) ==> thumb_events(q, ids)
            == cards_of(q, ids),
{
    assert(ids.push(id).drop_last() =~= ids);
}

/// The active item is found wherever there is one.
pub proof fn law_active_item_is_found(q: QueueState)
    ensures
        first_active(q) is None <==> forall|i: int|
            0 <= i < q.items.len() ==> (#[trigger] q.items[i]).status != ItemStatus::Active,
        first_active(q) is Some ==> first_active(q)->0.status == ItemStatus::Active
            && q.items.contains(first_active(q)->0),
{
    let a = state::is_active();
    state::lemma_first_where_found(q.items, a);
    let k = state::first_where(q.items, a);
    if k < q.items.len() {
        assert(a(q.items[k]));
    } else {
        assert forall|i: int| 0 <= i < q.items.len() implies (#[trigger] q.items[i]).status
            != ItemStatus::Active by {
            assert(!a(q.items[i]));
        }
    }
}

/// Of two finished downloads of one file the older one leaves: that which was enqueued in an earlier
/// second, or in the same second under a smaller id. Downloads of different files, and what is not done,
/// have nothing to do with each other.
pub proof fn law_older_duplicate_leaves(items: Seq<ItemView>, i: int, j: int)
    requires
        0 <= i < items.len(),
        0 <= j < items.len(),
        i != j,
    ensures
        items[i].status == ItemStatus::Done && items[j].status == ItemStatus::Done
            && items[i].filename is Some && items[i].filename == items[j].filename && (
        items[i].enqueued_at.seconds() < items[j].enqueued_at.seconds() || (
        items[i].enqueued_at.seconds() == items[j].enqueued_at.seconds() && items[i].id
            < items[j].id)) ==> superseded(items, i),
        (forall|k: int|
            0 <= k < items.len() && k != i && #[trigger] items[k].status == ItemStatus::Done
                ==> items[k].filename != items[i].filename) ==> !superseded(items, i),
        superseded(items, i) ==> items[i].status == ItemStatus::Done,
        same_file(items[i], items[j]) <==> same_file(items[j], items[i]),
{
    if superseded(items, i) {
        let k = choose|k: int|
            0 <= k < items.len() && k != i && #[trigger] same_file(items[k], items[i]) && newer(
                items[k],
                items[i],
            );
        assert(items[k].status == ItemStatus::Done);
    }
    if same_file(items[j], items[i]) && newer(items[j], items[i]) {
        assert(superseded(items, i));
    }
}

/// A deduplication keeps the items that nothing supersedes, in their order, and drops the others.
pub proof fn law_dedupe_goes_item_by_item(items: Seq<ItemView>, n: nat)
    requires
        n < items.len(),
    ensures
        deduped(items, 0).len() == 0,
        superseded(items, n as int) ==> deduped(items, n + 1) == deduped(items, n),
        !superseded(items, n as int) ==> deduped(items, n + 1).len() == deduped(items, n).len() + 1
            && deduped(items, n + 1).drop_last() == deduped(items, n) && deduped(
            items,
            n + 1,
        ).last().id == items[n as int].id,
{
    lemma_absorbed_identity(items, n as int, items.len());
    if !superseded(items, n as int) {
        assert(deduped(items, n + 1).drop_last() =~= deduped(items, n));
    }
}

/// Whether another finished download of the same file, among the first `n` items, has something.
pub open spec fn another_has(
    items: Seq<ItemView>,
    i: int,
    n: nat,
    has: spec_fn(ItemView) -> bool,
) -> bool {
    exists|j: int|
        0 <= j < n && j != i && #[trigger] same_file(items[j], items[i]) && has(items[j])
}

proof fn lemma_another_has(
    items: Seq<ItemView>,
    i: int,
    n: nat,
    has: spec_fn(ItemView) -> bool,
)
    ensures
        another_has(items, i, n + 1, has) <==> another_has(items, i, n, has) || (n != i && same_file(
            items[n as int],
            items[i],
        ) && has(items[n as int])),
{
    if another_has(items, i, n + 1, has) {
        let j = choose|j: int|
            0 <= j < n + 1 && j != i && #[trigger] same_file(items[j], items[i]) && has(items[j]);
        if j < n {
            assert(same_file(items[j], items[i]));
        }
    }
    if another_has(items, i, n, has) {
        let j = choose|j: int|
            0 <= j < n && j != i && #[trigger] same_file(items[j], items[i]) && has(items[j]);
        assert(same_file(items[j], items[i]));
    }
}

/// The newest download of a file loses nothing that an older one knew: it has a URL, a title, a
/// duration, media and thumbnails wherever it or one of the others had, and keeps its own.
pub proof fn law_merged_item_knows_all(items: Seq<ItemView>, i: int, n: nat)
    requires
        0 <= i < items.len(),
        n <= items.len(),
    ensures
        ({
            let a = absorbed(items, i, n);
            let own = items[i];
            &&& own.url.len() > 0 ==> a.url == own.url
            &&& own.title is Some ==> a.title == own.title
            &&& own.duration is Some ==> a.duration == own.duration
            &&& own.media is Some ==> a.media == own.media
            &&& own.thumbnail is Some ==> a.thumbnail == own.thumbnail
            &&& own.thumbnails.len() > 0 ==> a.thumbnails == own.thumbnails
            &&& a.url.len() > 0 <==> own.url.len() > 0 || another_has(
                items,
                i,
                n,
                |x: ItemView| x.url.len() > 0,
            )
            &&& a.title is Some <==> own.title is Some || another_has(
                items,
                i,
                n,
                |x: ItemView| x.title is Some,
            )
            &&& a.duration is Some <==> own.duration is Some || another_has(
                items,
                i,
                n,
                |x: ItemView| x.duration is Some,
            )
            &&& a.media is Some <==> own.media is Some || another_has(
                items,
                i,
                n,
                |x: ItemView| x.media is Some,
            )
            &&& a.thumbnail is Some <==> own.thumbnail is Some || another_has(
                items,
                i,
                n,
                |x: ItemView| x.thumbnail is Some,
            )
            &&& a.thumbnails.len() > 0 <==> own.thumbnails.len() > 0 || another_has(
                items,
                i,
                n,
                |x: ItemView| x.thumbnails.len() > 0,
            )
        }),
    decreases n,
{
    if n > 0 {
        let m = (n - 1) as nat;
        law_merged_item_knows_all(items, i, m);
        lemma_another_has(items, i, m, |x: ItemView| x.url.len() > 0);
        lemma_another_has(items, i, m, |x: ItemView| x.title is Some);
        lemma_another_has(items, i, m, |x: ItemView| x.duration is Some);
        lemma_another_has(items, i, m, |x: ItemView| x.media is Some);
        lemma_another_has(items, i, m, |x: ItemView| x.thumbnail is Some);
        lemma_another_has(items, i, m, |x: ItemView| x.thumbnails.len() > 0);
    }
}

/// Each file that was merged is announced once, under its name and with the number of older downloads,
/// and no other file is.
pub proof fn law_merges_are_announced(items: Seq<ItemView>, n: nat)
    requires
        n < items.len(),
    ensures
        merge_events(items, 0).len() == 0,
        copies(items, n as int, items.len()) > 0 <==> another_has(
            items,
            n as int,
            items.len(),
            |x: ItemView| true,
        ),
        superseded(items, n as int) || !another_has(
            items,
            n as int,
            items.len(),
            |x: ItemView| true,
        ) ==> merge_events(items, n + 1) == merge_events(items, n),
        !superseded(items, n as int) && another_has(
            items,
            n as int,
            items.len(),
            |x: ItemView| true,
        ) && items[n as int].filename->0.len() > 0 ==> merge_events(items, n + 1) == merge_events(
            items,
            n,
        ).push(
            EventView {
                name: "toast"@,
                data: render::ack_html(
                    "De-duplicated \u{201c}"@ + items[n as int].filename->0
                        + "\u{201d}: kept the latest, merged "@ + text::dec(
                        copies(items, n as int, items.len()),
                    ) + " older duplicate(s)."@,
                    false,
                ),
            },
        ),
{
    lemma_copies(items, n as int, items.len());
}

proof fn lemma_copies(items: Seq<ItemView>, i: int, n: nat)
    ensures
        copies(items, i, n) > 0 <==> another_has(items, i, n, |x: ItemView| true),
        copies(items, i, n) <= n,
    decreases n,
{
    if n > 0 {
        let m = (n - 1) as nat;
        lemma_copies(items, i, m);
        lemma_another_has(items, i, m, |x: ItemView| true);
    }
}

/// The number of older downloads of a file counts each other finished download of it once.
pub proof fn law_duplicates_are_counted(items: Seq<ItemView>, i: int, n: nat)
    requires
        0 <= i < items.len(),
        n < items.len(),
    ensures
        copies(items, i, 0) == 0,
        copies(items, i, n + 1) - copies(items, i, n) == if n != i && items[n as int].status
            == ItemStatus::Done && items[i].status == ItemStatus::Done && items[i].filename is Some
            && items[n as int].filename == items[i].filename {
            1int
        } else {
            0
        },
{
}

/// There is video among the media of some files exactly where one of them has a video stream.
pub proof fn law_any_video_counts(v: Seq<(u64, MediaView)>, found: (u64, MediaView))
    ensures
        !any_video(Seq::empty()),
        any_video(v.push(found)) <==> any_video(v) || found.1.video_codec is Some,
{
    let w = v.push(found);
    if any_video(v) {
        let i = choose|i: int| 0 <= i < v.len() && (#[trigger] v[i]).1.video_codec is Some;
        assert(w[i] == v[i]);
    }
    assert(w[v.len() as int] == found);
    if any_video(w) {
        let i = choose|i: int| 0 <= i < w.len() && (#[trigger] w[i]).1.video_codec is Some;
        if i < v.len() {
            assert(w[i] == v[i]);
        }
    }
}

}
