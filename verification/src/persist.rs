//! The queue as it is saved, and as it is restored after a restart.
use crate::clock;
use crate::clock::Stamp;
use crate::double::Double;
use crate::media::{MediaInfo, MediaView};
use crate::state;
use crate::state::{ItemStatus, ItemView, Queue, QueueItem, QueueState};
use crate::text;
use vstd::prelude::*;

verus! {

/// The version of the saved form.
pub const STATE_VERSION: u64 = 1;

/// The saved queue.
pub struct StateFile {
    pub version: u64,
    pub next_id: u64,
    pub items: Vec<SerializedItem>,
}

/// A saved item.
pub struct SerializedItem {
    pub id: u64,
    pub url: String,
    pub status: String,
    pub title: Option<String>,
    pub duration: Option<Double>,
    pub filename: Option<String>,
    pub error: Option<String>,
    pub thumbnail: Option<String>,
    pub thumbnails: Vec<String>,
    pub media: Option<MediaInfo>,
    pub logs: Vec<String>,
    pub enqueued_at: String,
}

#[verifier::ext_equal]
pub struct SavedView {
    pub id: u64,
    pub url: Seq<char>,
    pub status: Seq<char>,
    pub title: Option<Seq<char>>,
    pub duration: Option<Double>,
    pub filename: Option<Seq<char>>,
    pub error: Option<Seq<char>>,
    pub thumbnail: Option<Seq<char>>,
    pub thumbnails: Seq<Seq<char>>,
    pub media: Option<MediaView>,
    pub logs: Seq<Seq<char>>,
    pub enqueued_at: Seq<char>,
}

impl View for SerializedItem {
    type V = SavedView;

    open spec fn view(&self) -> SavedView {
        SavedView {
            id: self.id,
            url: self.url@,
            status: self.status@,
            title: text::opt(self.title),
            duration: self.duration,
            filename: text::opt(self.filename),
            error: text::opt(self.error),
            thumbnail: text::opt(self.thumbnail),
            thumbnails: text::list(self.thumbnails@),
            media: state::opt_media(self.media),
            logs: text::list(self.logs@),
            enqueued_at: self.enqueued_at@,
        }
    }
}

/// Saved items by their views.
pub open spec fn saved_views(v: Seq<SerializedItem>) -> Seq<SavedView> {
    v.map_values(|i: SerializedItem| i@)
}

/// What is saved of an item, but for the text of its time.
pub open spec fn saved(item: ItemView, at: Seq<char>) -> SavedView {
    SavedView {
        id: item.id,
        url: item.url,
        status: item.status.text(),
        title: item.title,
        duration: item.duration,
        filename: item.filename,
        error: item.error,
        thumbnail: item.thumbnail,
        thumbnails: item.thumbnails,
        media: item.media,
        logs: item.logs,
        enqueued_at: at,
    }
}

/// The text of a time; nothing where it has none.
pub open spec fn time_text(t: Stamp) -> Seq<char> {
    match clock::rfc3339_text(t.nanos, t.offset) {
        Some(s) => s,
        None => Seq::empty(),
    }
}

/// Whether a time has a text.
pub open spec fn has_text(t: Stamp) -> bool {
    clock::rfc3339_text(t.nanos, t.offset) is Some
}

/// Whether the text of a time reads back as that time, and every time in the calendar has one.
pub open spec fn time_reads_back(t: Stamp) -> bool {
    &&& clock::in_calendar(t.nanos, t.offset) ==> has_text(t)
    &&& has_text(t) ==> clock::rfc3339_stamp(time_text(t)) == Some((t.nanos, t.offset))
}

fn saved_time(t: Stamp) -> (r: String)
    ensures
        r@ == time_text(t),
        time_reads_back(t),
{
    match clock::format_rfc3339(t.nanos, t.offset) {
        Some(s) => s,
        None => String::new(),
    }
}

fn copy_media(m: &Option<MediaInfo>) -> (r: Option<MediaInfo>)
    ensures
        state::opt_media(r) == state::opt_media(*m),
{
    match m {
        Some(m) => Some(m.copy()),
        None => None,
    }
}

fn save_item(item: &QueueItem) -> (r: SerializedItem)
    ensures
        r@ == saved(item@, time_text(item.enqueued_at)),
        time_reads_back(item.enqueued_at),
{
    SerializedItem {
        id: item.id,
        url: item.url.clone(),
        status: item.status.as_str().to_string(),
        title: text::copy_opt(&item.title),
        duration: item.duration,
        filename: text::copy_opt(&item.filename),
        error: text::copy_opt(&item.error),
        thumbnail: text::copy_opt(&item.thumbnail),
        thumbnails: text::copy_list(&item.thumbnails),
        media: copy_media(&item.media),
        logs: text::copy_list(&item.logs),
        enqueued_at: saved_time(item.enqueued_at),
    }
}

/// Whether `file` is what is saved of the queue `q`.
pub open spec fn saves(file: Seq<SavedView>, q: Seq<ItemView>) -> bool {
    &&& file.len() == q.len()
    &&& forall|i: int|
        0 <= i < q.len() ==> #[trigger] file[i] == saved(q[i], time_text(q[i].enqueued_at))
            && time_reads_back(q[i].enqueued_at)
}

/// The saved form of the queue.
pub fn snapshot(next_id: u64, items: &Vec<QueueItem>) -> (r: StateFile)
    ensures
        r.version == STATE_VERSION,
        r.next_id == next_id,
        saves(saved_views(r.items@), state::item_views(items@)),
{
    let mut out: Vec<SerializedItem> = Vec::new();
    let mut i: usize = 0;
    while i < items.len()
        invariant
            i <= items@.len(),
            out@.len() == i,
            forall|j: int|
                0 <= j < i ==> #[trigger] saved_views(out@)[j] == saved(
                    items@[j]@,
                    time_text(items@[j].enqueued_at),
                ) && time_reads_back(items@[j].enqueued_at),
        decreases items@.len() - i,
    {
        let ghost before = out@;
        out.push(save_item(&items[i]));
        assert forall|j: int| 0 <= j < i + 1 implies #[trigger] saved_views(out@)[j] == saved(
            items@[j]@,
            time_text(items@[j].enqueued_at),
        ) && time_reads_back(items@[j].enqueued_at) by {
            if j < i {
                assert(saved_views(before)[j] == before[j]@);
                assert(out@[j] == before[j]);
            }
        }
        i += 1;
    }
    StateFile { version: STATE_VERSION, next_id, items: out }
}

/// The status that a saved one is restored as: a download that was active is pending again.
pub open spec fn restored_status(s: Seq<char>) -> Option<ItemStatus> {
    if s == "pending"@ || s == "active"@ {
        Some(ItemStatus::Pending)
    } else if s == "done"@ {
        Some(ItemStatus::Done)
    } else if s == "failed"@ {
        Some(ItemStatus::Failed)
    } else if s == "cancelled"@ {
        Some(ItemStatus::Cancelled)
    } else {
        None
    }
}

/// The time that a saved text is restored as; `now` where it is no time.
pub open spec fn restored_time(s: Seq<char>, now: Stamp) -> Stamp {
    match clock::rfc3339_stamp(s) {
        Some((nanos, offset)) => Stamp { nanos, offset },
        None => now,
    }
}

/// The item that a saved one is restored as; none where its status is unknown.
pub open spec fn restored(s: SavedView, now: Stamp) -> Option<ItemView> {
    match restored_status(s.status) {
        Some(status) => Some(
            ItemView {
                id: s.id,
                url: s.url,
                status,
                title: s.title,
                duration: s.duration,
                filename: s.filename,
                progress: None,
                error: s.error,
                reported: false,
                thumbnail: s.thumbnail,
                thumbnails: s.thumbnails,
                media: s.media,
                logs: s.logs,
                cancel: None,
                enqueued_at: restored_time(s.enqueued_at, now),
            },
        ),
        None => None,
    }
}

/// The items that saved ones are restored as; those of an unknown status are left out.
pub open spec fn restored_items(v: Seq<SavedView>, now: Stamp) -> Seq<ItemView>
    decreases v.len(),
{
    if v.len() == 0 {
        Seq::empty()
    } else {
        match restored(v.last(), now) {
            Some(i) => restored_items(v.drop_last(), now).push(i),
            None => restored_items(v.drop_last(), now),
        }
    }
}

/// The next id: the saved one, but at least one, and beyond each id that is in use.
pub open spec fn restored_next(next_id: u64, items: Seq<ItemView>) -> int
    decreases items.len(),
{
    if items.len() == 0 {
        if next_id < 1 {
            1
        } else {
            next_id as int
        }
    } else {
        let n = restored_next(next_id, items.drop_last());
        if items.last().id >= n {
            items.last().id + 1
        } else {
            n
        }
    }
}

fn status_of(s: &str) -> (r: Option<ItemStatus>)
    ensures
        r == restored_status(s@),
{
    if text::same(s, "pending") || text::same(s, "active") {
        Some(ItemStatus::Pending)
    } else if text::same(s, "done") {
        Some(ItemStatus::Done)
    } else if text::same(s, "failed") {
        Some(ItemStatus::Failed)
    } else if text::same(s, "cancelled") {
        Some(ItemStatus::Cancelled)
    } else {
        None
    }
}

fn time_of(s: &str, now: Stamp) -> (r: Stamp)
    ensures
        r == restored_time(s@, now),
{
    match clock::parse_rfc3339(s) {
        Some((nanos, offset)) => Stamp { nanos, offset },
        None => now,
    }
}

fn restore_item(s: SerializedItem, now: Stamp) -> (r: Option<QueueItem>)
    ensures
        (match r {
            Some(i) => Some(i@),
            None => None,
        }) == restored(s@, now),
        r is Some ==> r->0.id == s.id,
{
    let status: ItemStatus = match status_of(s.status.as_str()) {
        Some(status) => status,
        None => {
            return None;
        },
    };
    Some(
        QueueItem {
            id: s.id,
            url: s.url,
            status,
            title: s.title,
            duration: s.duration,
            filename: s.filename,
            progress: None,
            error: s.error,
            reported: false,
            thumbnail: s.thumbnail,
            thumbnails: s.thumbnails,
            media: s.media,
            logs: s.logs,
            cancel: None,
            enqueued_at: time_of(s.enqueued_at.as_str(), now),
        },
    )
}

/// A saved queue that cannot be restored.
#[derive(Debug, Clone, Copy, PartialEq, Eq, Structural)]
pub enum RestoreError {
    /// The saved form is of a later version.
    UnknownVersion(u64),
}

/// Whether there is an id behind that of every item that is restored.
pub open spec fn has_room(file: StateFile) -> bool {
    file.version <= STATE_VERSION ==> forall|i: int|
        0 <= i < file.items@.len() && restored_status((#[trigger] file.items@[i]).status@) is Some
            ==> file.items@[i].id < u64::MAX
}

impl StateFile {
    /// Whether there is an id behind that of every item that is restored.
    pub fn fits(&self) -> (r: bool)
        ensures
            r == has_room(*self),
    {
        if self.version > STATE_VERSION {
            return true;
        }
        let mut i: usize = 0;
        while i < self.items.len()
            invariant
                i <= self.items@.len(),
                self.version <= STATE_VERSION,
                forall|j: int|
                    0 <= j < i && restored_status((#[trigger] self.items@[j]).status@) is Some
                        ==> self.items@[j].id < u64::MAX,
            decreases self.items@.len() - i,
        {
            if self.items[i].id == u64::MAX && status_of(self.items[i].status.as_str()).is_some() {
                assert(restored_status(self.items@[i as int].status@) is Some);
                return false;
            }
            i += 1;
        }
        true
    }
}

/// Restores the saved queue at `now`: what was active is pending again, and what is over stays as
/// history. A saved form of a later version is refused.
pub fn restore_at(file: StateFile, now: Stamp) -> (r: Result<Queue, RestoreError>)
    requires
        has_room(file),
    ensures
        match r {
            Ok(q) => {
                let items = restored_items(saved_views(file.items@), now);
                &&& file.version <= STATE_VERSION
                &&& q@.items == items
                &&& q.next_id == restored_next(file.next_id, items)
            },
            Err(e) => file.version > STATE_VERSION && e == RestoreError::UnknownVersion(
                file.version,
            ),
        },
{
    if file.version > STATE_VERSION {
        return Err(RestoreError::UnknownVersion(file.version));
    }
    let mut queue = Queue::new();
    queue.next_id = if file.next_id < 1 { 1 } else { file.next_id };
    let mut rest: Vec<SerializedItem> = file.items;
    let ghost all = saved_views(rest@);
    let ghost whole = rest@;
    let mut i: usize = 0;
    let n: usize = rest.len();
    assert(all.take(0) =~= Seq::<SavedView>::empty());
    while i < n
        invariant
            i <= n == whole.len(),
            whole == file.items@,
            all == saved_views(whole),
            rest@ == whole.skip(i as int),
            has_room(file),
            file.version <= STATE_VERSION,
            queue@.items == restored_items(all.take(i as int), now),
            queue.next_id == restored_next(file.next_id, queue@.items),
        decreases n - i,
    {
        let s: SerializedItem = rest.remove(0);
        let id: u64 = s.id;
        proof {
            assert(s == whole[i as int]);
            assert(rest@ =~= whole.skip(i + 1));
            let t = all.take(i + 1);
            assert(t.drop_last() =~= all.take(i as int));
            assert(t.last() == s@);
        }
        let ghost before = queue@.items;
        if let Some(item) = restore_item(s, now) {
            let ghost v = item@;
            queue.items.push(item);
            assert(queue@.items =~= before.push(v));
            assert(queue@.items.drop_last() =~= before);
            if id >= queue.next_id {
                queue.next_id = id + 1;
            }
        }
        i += 1;
    }
    assert(all.take(n as int) =~= all);
    Ok(queue)
}

/// Restores the saved queue now.
pub fn restore(file: StateFile) -> (r: Result<Queue, RestoreError>)
    requires
        has_room(file),
    ensures
        match r {
            Ok(q) => file.version <= STATE_VERSION && exists|now: Stamp|
                #![trigger restored_items(saved_views(file.items@), now)]
                now.offset == 0 && q@.items == restored_items(saved_views(file.items@), now)
                    && q.next_id == restored_next(file.next_id, q@.items),
            Err(e) => file.version > STATE_VERSION && e == RestoreError::UnknownVersion(
                file.version,
            ),
        },
{
    restore_at(file, clock::now())
}

/// The name under which a file that cannot be read is put aside.
pub fn bad_name(name: &str, unix_seconds: i64) -> (r: String)
    ensures
        r@ == name@ + ".bad-"@ + text::dec_int(unix_seconds as int),
{
    let mut out = name.to_string();
    out.append(".bad-");
    out.append(text::decimal_int(unix_seconds).as_str());
    out
}

/// An item after a restart: an active one is pending again, and nothing runs.
pub open spec fn requeued(item: ItemView) -> ItemView {
    ItemView {
        status: if item.status == ItemStatus::Active {
            ItemStatus::Pending
        } else {
            item.status
        },
        progress: None,
        reported: false,
        cancel: None,
        ..item
    }
}

proof fn lemma_status_reads_back(s: ItemStatus)
    ensures
        restored_status(s.text()) == Some(
            if s == ItemStatus::Active {
                ItemStatus::Pending
            } else {
                s
            },
        ),
{
    reveal_strlit("pending");
    reveal_strlit("active");
    reveal_strlit("done");
    reveal_strlit("failed");
    reveal_strlit("cancelled");
    assert("pending"@.len() == 7 && "active"@.len() == 6 && "done"@.len() == 4 && "failed"@.len()
        == 6 && "cancelled"@.len() == 9);
    assert("active"@[0] == 'a' && "failed"@[0] == 'f');
}

/// Whether `after` is what a restart leaves of `before`.
pub open spec fn comes_back(before: ItemView, after: ItemView) -> bool {
    let t = before.enqueued_at;
    &&& after == ItemView { enqueued_at: after.enqueued_at, ..requeued(before) }
    &&& has_text(t) ==> after == requeued(before)
    &&& clock::in_calendar(t.nanos, t.offset) ==> after == requeued(before)
}

/// What is saved of a queue is restored as that queue: every item with all that it holds, in the
/// same order and under the same id, its log among it, but that an active download is pending again
/// and nothing runs. Ids that were free stay free, where ids were unique. The time of enqueueing is
/// restored where it has a text, and it has one in every calendar year.
pub proof fn law_restart_keeps_the_queue(q: QueueState, file: Seq<SavedView>, now: Stamp)
    requires
        saves(file, q.items),
    ensures
        restored_items(file, now).len() == q.items.len(),
        forall|i: int|
            0 <= i < q.items.len() ==> comes_back(q.items[i], #[trigger] restored_items(file, now)[i]),
        forall|i: int|
            0 <= i < q.items.len() ==> (#[trigger] restored_items(file, now)[i]).logs
                == q.items[i].logs,
        q.wf() && q.next_id >= 1 ==> restored_next(q.next_id, restored_items(file, now))
            == q.next_id,
    decreases q.items.len(),
{
    if q.items.len() > 0 {
        let n = q.items.len();
        let p = QueueState { items: q.items.drop_last(), ..q };
        let f = file.drop_last();
        assert forall|i: int| 0 <= i < p.items.len() implies #[trigger] p.items[i]
            == q.items[i] by {}
        assert forall|i: int| 0 <= i < p.items.len() implies #[trigger] f[i] == saved(
            p.items[i],
            time_text(p.items[i].enqueued_at),
        ) && time_reads_back(p.items[i].enqueued_at) by {
            assert(file[i] == f[i]);
            assert(p.items[i] == q.items[i]);
        }
        law_restart_keeps_the_queue(p, f, now);
        let last = q.items[n - 1];
        assert(file[n - 1] == saved(last, time_text(last.enqueued_at)));
        lemma_status_reads_back(last.status);
        assert(restored(file.last(), now) is Some);
        assert(comes_back(last, restored(file.last(), now)->0));
        let r = restored_items(file, now);
        assert(r.drop_last() =~= restored_items(f, now));
        assert(r.last().id == last.id);
        assert(q.wf() ==> p.wf() && last.id < q.next_id);
        assert forall|i: int| 0 <= i < n implies comes_back(
            q.items[i],
            #[trigger] r[i],
        ) by {
            if i < n - 1 {
                assert(r[i] == restored_items(f, now)[i]);
                assert(p.items[i] == q.items[i]);
            }
        }
    }
}

/// A restored queue never hands out an id that is in use, and nothing in it is active.
pub proof fn law_restored_ids_are_taken(v: Seq<SavedView>, next_id: u64, now: Stamp)
    ensures
        forall|i: int|
            0 <= i < restored_items(v, now).len() ==> (#[trigger] restored_items(v, now)[i]).id
                < restored_next(next_id, restored_items(v, now)),
        forall|i: int|
            0 <= i < restored_items(v, now).len() ==> (#[trigger] restored_items(v, now)[i]).status
                != ItemStatus::Active,
        restored_next(next_id, restored_items(v, now)) >= next_id,
        restored_next(next_id, restored_items(v, now)) >= 1,
    decreases v.len(),
{
    if v.len() > 0 {
        law_restored_ids_are_taken(v.drop_last(), next_id, now);
        let a = restored_items(v.drop_last(), now);
        let r = restored_items(v, now);
        if restored(v.last(), now) is Some {
            assert(r.drop_last() =~= a);
            assert forall|i: int| 0 <= i < r.len() implies (#[trigger] r[i]).id < restored_next(
                next_id,
                r,
            ) && r[i].status != ItemStatus::Active by {
                if i < a.len() {
                    assert(r[i] == a[i]);
                }
            }
        }
    }
}

/// A saved item comes back with every field as it was saved, unless its status is none that is known;
/// such an item alone is left out.
pub proof fn law_saved_items_come_back(v: Seq<SavedView>, s: SavedView, now: Stamp)
    ensures
        restored_items(Seq::empty(), now).len() == 0,
        s.status != "pending"@ && s.status != "active"@ && s.status != "done"@ && s.status
            != "failed"@ && s.status != "cancelled"@ ==> restored_items(v.push(s), now)
            == restored_items(v, now),
        s.status == "pending"@ || s.status == "active"@ || s.status == "done"@ || s.status
            == "failed"@ || s.status == "cancelled"@ ==> ({
            let r = restored_items(v.push(s), now);
            let item = r.last();
            &&& r.len() == restored_items(v, now).len() + 1
            &&& r.drop_last() == restored_items(v, now)
            &&& item.id == s.id
            &&& item.url == s.url
            &&& item.title == s.title
            &&& item.duration == s.duration
            &&& item.filename == s.filename
            &&& item.error == s.error
            &&& !item.reported
            &&& item.thumbnail == s.thumbnail
            &&& item.thumbnails == s.thumbnails
            &&& item.media == s.media
            &&& item.logs == s.logs
            &&& item.progress is None
            &&& item.cancel is None
            &&& clock::rfc3339_stamp(s.enqueued_at) is None ==> item.enqueued_at == now
            &&& clock::rfc3339_stamp(s.enqueued_at) is Some ==> (
            item.enqueued_at.nanos, item.enqueued_at.offset) == clock::rfc3339_stamp(
                s.enqueued_at,
            )->0
            &&& item.status.text() == s.status || (s.status == "active"@ && item.status
                == ItemStatus::Pending)
        }),
{
    assert(v.push(s).drop_last() =~= v);
    lemma_status_reads_back(ItemStatus::Pending);
    lemma_status_reads_back(ItemStatus::Active);
    lemma_status_reads_back(ItemStatus::Done);
    lemma_status_reads_back(ItemStatus::Failed);
    lemma_status_reads_back(ItemStatus::Cancelled);
    if restored(s, now) is Some {
        assert(restored_items(v.push(s), now).drop_last() =~= restored_items(v, now));
    }
}

/// Each field of an item is saved, and so is its status under its name.
pub proof fn law_items_are_saved_whole(item: ItemView, at: Seq<char>)
    ensures
        ({
            let s = saved(item, at);
            &&& s.id == item.id
            &&& s.url == item.url
            &&& s.status == item.status.text()
            &&& s.title == item.title
            &&& s.duration == item.duration
            &&& s.filename == item.filename
            &&& s.error == item.error
            &&& s.thumbnail == item.thumbnail
            &&& s.thumbnails == item.thumbnails
            &&& s.media == item.media
            &&& s.logs == item.logs
            &&& s.enqueued_at == at
        }),
        STATE_VERSION == 1,
{
}

/// The next id is the smallest that is neither below the saved one nor in use: the saved one, or one, or
/// the one behind an item.
pub proof fn law_next_id_is_no_larger_than_needed(next_id: u64, items: Seq<ItemView>)
    ensures
        restored_next(next_id, items) == next_id || restored_next(next_id, items) == 1 || exists|i: int|
            0 <= i < items.len() && restored_next(next_id, items) == (#[trigger] items[i]).id + 1,
        restored_next(next_id, items) >= next_id,
        restored_next(next_id, items) >= 1,
        forall|i: int|
            0 <= i < items.len() ==> (#[trigger] items[i]).id < restored_next(next_id, items),
    decreases items.len(),
{
    if items.len() > 0 {
        let t = items.drop_last();
        law_next_id_is_no_larger_than_needed(next_id, t);
        let n = restored_next(next_id, t);
        assert forall|i: int| 0 <= i < items.len() implies (#[trigger] items[i]).id
            < restored_next(next_id, items) by {
            if i < t.len() {
                assert(items[i] == t[i]);
            }
        }
        if n != next_id && n != 1 {
            let i = choose|i: int| 0 <= i < t.len() && n == (#[trigger] t[i]).id + 1;
            assert(items[i] == t[i]);
        }
        assert(items[items.len() - 1] == items.last());
    }
}

/// A file fits where the id of every item is below the largest; one that would restore an item with
/// the largest id does not.
pub proof fn law_largest_id_leaves_no_room(file: StateFile, i: int)
    ensures
        (forall|k: int| 0 <= k < file.items@.len() ==> (#[trigger] file.items@[k]).id < u64::MAX)
            ==> has_room(file),
        file.version <= STATE_VERSION && 0 <= i < file.items@.len() && file.items@[i].id == u64::MAX
            && (file.items@[i].status@ == "pending"@ || file.items@[i].status@ == "active"@
            || file.items@[i].status@ == "done"@ || file.items@[i].status@ == "failed"@
            || file.items@[i].status@ == "cancelled"@) ==> !has_room(file),
        file.version > STATE_VERSION ==> has_room(file),
{
}

/// A time is saved as its text, and as nothing where it has none.
pub proof fn law_time_is_saved_as_its_text(t: Stamp, s: Seq<char>)
    ensures
        clock::rfc3339_text(t.nanos, t.offset) == Some(s) ==> time_text(t) == s && has_text(t),
        clock::rfc3339_text(t.nanos, t.offset) is None ==> time_text(t).len() == 0 && !has_text(t),
{
}

}
