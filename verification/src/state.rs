//! The download queue, its items and their progress.
use crate::clock;
use crate::clock::Stamp;
use crate::double::Double;
use crate::events;
use crate::media::{MediaInfo, MediaView};
use crate::number;
use crate::text;
use tokio_util::sync::CancellationToken;
use vstd::prelude::*;

verus! {

/// Capacity of the broadcast channel: events held for a receiver that lags.
pub const EVENT_CHANNEL_CAP: usize = 512;

/// Log lines that are replayed on connect, at most.
pub const LOG_RING_CAP: usize = 1000;

/// Items in the queue above which finished ones are trimmed. Pending and active ones always stay.
pub const QUEUE_HISTORY_CAP: usize = 200;

/// Log lines that an item keeps, at most.
pub const ITEM_LOG_CAP: usize = 2000;

/// The token by which a running download is cancelled. Which token an item holds is known here;
/// whether a token has been tripped is not.
#[verifier::external_type_specification]
#[verifier::external_body]
pub struct ExCancellationToken(CancellationToken);

/// `CancellationToken::new`: a fresh token.
pub assume_specification[ CancellationToken::new ]() -> CancellationToken
;

/// `CancellationToken::clone`: another handle of the same token, which shares all of its state.
pub assume_specification[ <CancellationToken as Clone>::clone ](token: &CancellationToken) -> (r:
    CancellationToken)
    ensures
        r == *token,
;

/// Where a download stands.
#[derive(Debug, Clone, Copy, PartialEq, Eq, Structural)]
pub enum ItemStatus {
    Pending,
    Active,
    Done,
    Failed,
    Cancelled,
}

impl ItemStatus {
    /// Whether no more work is done on the item.
    pub open spec fn terminal(self) -> bool {
        self == ItemStatus::Done || self == ItemStatus::Failed || self == ItemStatus::Cancelled
    }

    /// The name of the status.
    pub open spec fn text(self) -> Seq<char> {
        match self {
            ItemStatus::Pending => "pending"@,
            ItemStatus::Active => "active"@,
            ItemStatus::Done => "done"@,
            ItemStatus::Failed => "failed"@,
            ItemStatus::Cancelled => "cancelled"@,
        }
    }

    pub fn is_terminal(self) -> (r: bool)
        ensures
            r == self.terminal(),
    {
        self == ItemStatus::Done || self == ItemStatus::Failed || self == ItemStatus::Cancelled
    }

    pub fn as_str(self) -> (r: &'static str)
        ensures
            r@ == self.text(),
    {
        match self {
            ItemStatus::Pending => "pending",
            ItemStatus::Active => "active",
            ItemStatus::Done => "done",
            ItemStatus::Failed => "failed",
            ItemStatus::Cancelled => "cancelled",
        }
    }
}

/// The part of yt-dlp's progress report that is read.
#[derive(Debug, Clone)]
pub struct Progress {
    pub status: Option<String>,
    pub filename: Option<String>,
    pub tmpfilename: Option<String>,
    pub downloaded_bytes: Option<Double>,
    pub total_bytes: Option<Double>,
    pub total_bytes_estimate: Option<Double>,
    pub speed: Option<Double>,
    pub eta: Option<Double>,
    pub elapsed: Option<Double>,
    pub fragment_index: Option<u64>,
    pub fragment_count: Option<u64>,
    /// The percentage as a number.
    pub percent: Option<Double>,
    /// The percentage as text, like ` 73.0%`.
    pub percent_str: Option<String>,
    pub speed_str: Option<String>,
    pub eta_str: Option<String>,
}

pub struct ProgressView {
    pub status: Option<Seq<char>>,
    pub filename: Option<Seq<char>>,
    pub tmpfilename: Option<Seq<char>>,
    pub downloaded_bytes: Option<Double>,
    pub total_bytes: Option<Double>,
    pub total_bytes_estimate: Option<Double>,
    pub speed: Option<Double>,
    pub eta: Option<Double>,
    pub elapsed: Option<Double>,
    pub fragment_index: Option<u64>,
    pub fragment_count: Option<u64>,
    pub percent: Option<Double>,
    pub percent_str: Option<Seq<char>>,
    pub speed_str: Option<Seq<char>>,
    pub eta_str: Option<Seq<char>>,
}

impl View for Progress {
    type V = ProgressView;

    open spec fn view(&self) -> ProgressView {
        ProgressView {
            status: text::opt(self.status),
            filename: text::opt(self.filename),
            tmpfilename: text::opt(self.tmpfilename),
            downloaded_bytes: self.downloaded_bytes,
            total_bytes: self.total_bytes,
            total_bytes_estimate: self.total_bytes_estimate,
            speed: self.speed,
            eta: self.eta,
            elapsed: self.elapsed,
            fragment_index: self.fragment_index,
            fragment_count: self.fragment_count,
            percent: self.percent,
            percent_str: text::opt(self.percent_str),
            speed_str: text::opt(self.speed_str),
            eta_str: text::opt(self.eta_str),
        }
    }
}

/// Progress of which nothing is known.
pub open spec fn no_progress() -> ProgressView {
    ProgressView {
        status: None,
        filename: None,
        tmpfilename: None,
        downloaded_bytes: None,
        total_bytes: None,
        total_bytes_estimate: None,
        speed: None,
        eta: None,
        elapsed: None,
        fragment_index: None,
        fragment_count: None,
        percent: None,
        percent_str: None,
        speed_str: None,
        eta_str: None,
    }
}

impl Default for Progress {
    fn default() -> (r: Self)
        ensures
            r@ == no_progress(),
    {
        Progress {
            status: None,
            filename: None,
            tmpfilename: None,
            downloaded_bytes: None,
            total_bytes: None,
            total_bytes_estimate: None,
            speed: None,
            eta: None,
            elapsed: None,
            fragment_index: None,
            fragment_count: None,
            percent: None,
            percent_str: None,
            speed_str: None,
            eta_str: None,
        }
    }
}

/// The bits of the double 100.
pub const HUNDRED: u64 = 0x4059_0000_0000_0000;

impl ProgressView {
    /// The total size, or else the estimate of it.
    pub open spec fn total(self) -> Option<Double> {
        match self.total_bytes {
            Some(t) => Some(t),
            None => self.total_bytes_estimate,
        }
    }

    /// The percentage that the text form holds.
    pub open spec fn percent_of_text(self) -> Option<Double> {
        match self.percent_str {
            Some(s) => number::float(text::cut_end(text::trimmed(s), '%')),
            None => None,
        }
    }

    /// The percentage between 0 and 100: from the number, else from the text, else from the bytes.
    pub open spec fn share(self) -> Option<Double> {
        match (self.percent, self.percent_of_text(), self.downloaded_bytes, self.total()) {
            (Some(v), _, _, _) => Some(v.held()),
            (None, Some(v), _, _) => Some(v.held()),
            (None, None, Some(done), Some(total)) => if total.positive() {
                Some(done.quotient(total).product(Double { bits: HUNDRED }).held())
            } else {
                None
            },
            _ => None,
        }
    }
}

impl Progress {
    /// A copy of the progress.
    pub fn copy(&self) -> (r: Progress)
        ensures
            r@ == self@,
    {
        Progress {
            status: text::copy_opt(&self.status),
            filename: text::copy_opt(&self.filename),
            tmpfilename: text::copy_opt(&self.tmpfilename),
            downloaded_bytes: self.downloaded_bytes,
            total_bytes: self.total_bytes,
            total_bytes_estimate: self.total_bytes_estimate,
            speed: self.speed,
            eta: self.eta,
            elapsed: self.elapsed,
            fragment_index: self.fragment_index,
            fragment_count: self.fragment_count,
            percent: self.percent,
            percent_str: text::copy_opt(&self.percent_str),
            speed_str: text::copy_opt(&self.speed_str),
            eta_str: text::copy_opt(&self.eta_str),
        }
    }

    /// The percentage between 0 and 100, where it can be told.
    pub fn percent(&self) -> (r: Option<Double>)
        ensures
            r == self@.share(),
    {
        if let Some(v) = self.percent {
            return Some(v.clamp_percent());
        }
        if let Some(s) = &self.percent_str {
            let t: &str = text::trim_end_matches(text::trim(s.as_str()), '%');
            if let Some(v) = number::parse_float(t) {
                return Some(v.clamp_percent());
            }
        }
        let total: Option<Double> = match self.total_bytes {
            Some(t) => Some(t),
            None => self.total_bytes_estimate,
        };
        match (self.downloaded_bytes, total) {
            (Some(done), Some(total)) => if total.is_positive() {
                Some(done.div(total).mul(Double { bits: HUNDRED }).clamp_percent())
            } else {
                None
            },
            _ => None,
        }
    }
}

/// One download.
#[derive(Debug, Clone)]
pub struct QueueItem {
    pub id: u64,
    pub url: String,
    pub status: ItemStatus,
    /// The title that the probe found.
    pub title: Option<String>,
    /// The duration in seconds.
    pub duration: Option<Double>,
    /// The name of the file on disk.
    pub filename: Option<String>,
    pub progress: Option<Progress>,
    pub error: Option<String>,
    /// Whether a progress report brought the error, and no line of output.
    pub reported: bool,
    /// The cache name of the primary thumbnail.
    pub thumbnail: Option<String>,
    /// The cache names of the frames that were extracted from the file.
    pub thumbnails: Vec<String>,
    pub media: Option<MediaInfo>,
    /// The output of yt-dlp, at most [`ITEM_LOG_CAP`] lines.
    pub logs: Vec<String>,
    /// Set while the item is active.
    pub cancel: Option<CancellationToken>,
    pub enqueued_at: Stamp,
}

#[verifier::ext_equal]
pub struct ItemView {
    pub id: u64,
    pub url: Seq<char>,
    pub status: ItemStatus,
    pub title: Option<Seq<char>>,
    pub duration: Option<Double>,
    pub filename: Option<Seq<char>>,
    pub progress: Option<ProgressView>,
    pub error: Option<Seq<char>>,
    pub reported: bool,
    pub thumbnail: Option<Seq<char>>,
    pub thumbnails: Seq<Seq<char>>,
    pub media: Option<MediaView>,
    pub logs: Seq<Seq<char>>,
    /// The token by which the item can be cancelled.
    pub cancel: Option<CancellationToken>,
    pub enqueued_at: Stamp,
}

pub open spec fn opt_progress(o: Option<Progress>) -> Option<ProgressView> {
    match o {
        Some(p) => Some(p@),
        None => None,
    }
}

pub open spec fn opt_media(o: Option<MediaInfo>) -> Option<MediaView> {
    match o {
        Some(m) => Some(m@),
        None => None,
    }
}

impl View for QueueItem {
    type V = ItemView;

    open spec fn view(&self) -> ItemView {
        ItemView {
            id: self.id,
            url: self.url@,
            status: self.status,
            title: text::opt(self.title),
            duration: self.duration,
            filename: text::opt(self.filename),
            progress: opt_progress(self.progress),
            error: text::opt(self.error),
            reported: self.reported,
            thumbnail: text::opt(self.thumbnail),
            thumbnails: text::list(self.thumbnails@),
            media: opt_media(self.media),
            logs: text::list(self.logs@),
            cancel: self.cancel,
            enqueued_at: self.enqueued_at,
        }
    }
}

impl ItemView {
    /// What the item is shown as: the file name, else the title, else the URL.
    pub open spec fn label(self) -> Seq<char> {
        match (self.filename, self.title) {
            (Some(f), _) => f,
            (None, Some(t)) => t,
            (None, None) => self.url,
        }
    }

    /// The item with one more log line; beyond the cap the oldest lines leave.
    pub open spec fn logged(self, line: Seq<char>) -> ItemView {
        ItemView { logs: events::last_n(self.logs.push(line), ITEM_LOG_CAP as nat), ..self }
    }
}

/// A pending item as it enters the queue.
pub open spec fn fresh_item(id: u64, url: Seq<char>, now: Stamp) -> ItemView {
    ItemView {
        id,
        url,
        status: ItemStatus::Pending,
        title: None,
        duration: None,
        filename: None,
        progress: None,
        error: None,
        reported: false,
        thumbnail: None,
        thumbnails: Seq::empty(),
        media: None,
        logs: Seq::empty(),
        cancel: None,
        enqueued_at: now,
    }
}

impl QueueItem {
    /// A pending item, enqueued at `now`.
    pub fn at(id: u64, url: String, now: Stamp) -> (r: QueueItem)
        ensures
            r@ == fresh_item(id, url@, now),
    {
        let r = QueueItem {
            id,
            url,
            status: ItemStatus::Pending,
            title: None,
            duration: None,
            filename: None,
            progress: None,
            error: None,
            reported: false,
            thumbnail: None,
            thumbnails: Vec::new(),
            media: None,
            logs: Vec::new(),
            cancel: None,
            enqueued_at: now,
        };
        assert(r@.thumbnails =~= Seq::<Seq<char>>::empty());
        assert(r@.logs =~= Seq::<Seq<char>>::empty());
        r
    }

    /// A pending item, enqueued now.
    pub fn new(id: u64, url: String) -> (r: QueueItem)
        ensures
            r@ == fresh_item(id, url@, r.enqueued_at),
            r.enqueued_at.offset == 0,
    {
        QueueItem::at(id, url, clock::now())
    }

    /// A copy of the item.
    pub fn copy(&self) -> (r: QueueItem)
        ensures
            r@ == self@,
    {
        QueueItem {
            id: self.id,
            url: self.url.clone(),
            status: self.status,
            title: text::copy_opt(&self.title),
            duration: self.duration,
            filename: text::copy_opt(&self.filename),
            progress: match &self.progress {
                Some(p) => Some(p.copy()),
                None => None,
            },
            error: text::copy_opt(&self.error),
            reported: self.reported,
            thumbnail: text::copy_opt(&self.thumbnail),
            thumbnails: text::copy_list(&self.thumbnails),
            media: match &self.media {
                Some(m) => Some(m.copy()),
                None => None,
            },
            logs: text::copy_list(&self.logs),
            cancel: match &self.cancel {
                Some(t) => Some(t.clone()),
                None => None,
            },
            enqueued_at: self.enqueued_at,
        }
    }

    /// Appends a line to the item's log; beyond the cap the oldest lines leave.
    pub fn push_log(&mut self, line: String)
        ensures
            final(self)@ == old(self)@.logged(line@),
    {
        let ghost before = self.logs@;
        self.logs.push(line);
        let ghost whole = self.logs@;
        assert(whole.skip(0) =~= whole);
        let ghost mut gone: int = 0;
        while self.logs.len() > ITEM_LOG_CAP
            invariant
                0 <= gone <= whole.len(),
                self.logs@ == whole.skip(gone),
                gone > 0 ==> whole.len() - gone >= ITEM_LOG_CAP,
                *self == (QueueItem { logs: self.logs, ..*old(self) }),
            decreases self.logs@.len(),
        {
            let _oldest = self.logs.remove(0);
            proof {
                assert(whole.skip(gone).remove(0) =~= whole.skip(gone + 1));
                gone = gone + 1;
            }
        }
        assert(self@.logs =~= events::last_n(old(self)@.logs.push(line@), ITEM_LOG_CAP as nat));
    }

    /// What the item is shown as: the file name, else the title, else the URL.
    pub fn label(&self) -> (r: &str)
        ensures
            r@ == self@.label(),
    {
        match &self.filename {
            Some(f) => f.as_str(),
            None => match &self.title {
                Some(t) => t.as_str(),
                None => self.url.as_str(),
            },
        }
    }
}

/// The queue.
#[derive(Debug)]
pub struct Queue {
    pub items: Vec<QueueItem>,
    pub next_id: u64,
}

#[verifier::ext_equal]
pub struct QueueState {
    pub items: Seq<ItemView>,
    pub next_id: u64,
}

/// Items by their views.
pub open spec fn item_views(items: Seq<QueueItem>) -> Seq<ItemView> {
    items.map_values(|i: QueueItem| i@)
}

impl View for Queue {
    type V = QueueState;

    open spec fn view(&self) -> QueueState {
        QueueState { items: item_views(self.items@), next_id: self.next_id }
    }
}

/// The position of the first item for which `p` holds, or the number of items.
pub open spec fn first_where(items: Seq<ItemView>, p: spec_fn(ItemView) -> bool) -> int
    decreases items.len(),
{
    if items.len() == 0 || p(items[0]) {
        0
    } else {
        1 + first_where(items.drop_first(), p)
    }
}

pub proof fn lemma_first_where(items: Seq<ItemView>, p: spec_fn(ItemView) -> bool, i: int)
    requires
        0 <= i <= items.len(),
        i == items.len() || p(items[i]),
        forall|j: int| 0 <= j < i ==> !p(#[trigger] items[j]),
    ensures
        first_where(items, p) == i,
    decreases items.len(),
{
    if i > 0 {
        assert(!p(items[0]));
        let t = items.drop_first();
        assert forall|j: int| 0 <= j < i - 1 implies !p(#[trigger] t[j]) by {
            assert(t[j] == items[j + 1]);
        }
        lemma_first_where(t, p, i - 1);
    }
}

pub proof fn lemma_first_where_found(items: Seq<ItemView>, p: spec_fn(ItemView) -> bool)
    ensures
        0 <= first_where(items, p) <= items.len(),
        first_where(items, p) < items.len() ==> p(items[first_where(items, p)]),
        forall|j: int| 0 <= j < first_where(items, p) ==> !p(#[trigger] items[j]),
    decreases items.len(),
{
    if items.len() > 0 && !p(items[0]) {
        let t = items.drop_first();
        lemma_first_where_found(t, p);
        let f = first_where(t, p);
        assert forall|j: int| 0 <= j < 1 + f implies !p(#[trigger] items[j]) by {
            if j > 0 {
                assert(t[j - 1] == items[j]);
            }
        }
    }
}

/// The number of items for which `p` holds.
pub open spec fn count_where(items: Seq<ItemView>, p: spec_fn(ItemView) -> bool) -> nat
    decreases items.len(),
{
    if items.len() == 0 {
        0
    } else {
        count_where(items.drop_last(), p) + if p(items.last()) {
            1nat
        } else {
            0
        }
    }
}

pub open spec fn has_id(id: u64) -> spec_fn(ItemView) -> bool {
    |i: ItemView| i.id == id
}

pub open spec fn is_pending() -> spec_fn(ItemView) -> bool {
    |i: ItemView| i.status == ItemStatus::Pending
}

pub open spec fn is_over() -> spec_fn(ItemView) -> bool {
    |i: ItemView| i.status.terminal()
}

pub open spec fn is_kept() -> spec_fn(ItemView) -> bool {
    |i: ItemView| !i.status.terminal()
}

/// `items` without the first `k` that are over.
pub open spec fn without_oldest(items: Seq<ItemView>, k: nat) -> Seq<ItemView>
    decreases items.len(),
{
    if items.len() == 0 || k == 0 {
        items
    } else if items[0].status.terminal() {
        without_oldest(items.drop_first(), (k - 1) as nat)
    } else {
        seq![items[0]] + without_oldest(items.drop_first(), k)
    }
}

impl QueueState {
    /// The position of the item `id`, or the number of items.
    pub open spec fn index_of(self, id: u64) -> int {
        first_where(self.items, has_id(id))
    }

    pub open spec fn holds(self, id: u64) -> bool {
        self.index_of(id) < self.items.len()
    }

    /// The item `id`.
    pub open spec fn item(self, id: u64) -> ItemView {
        self.items[self.index_of(id)]
    }

    /// The queue with the item `id` replaced, where it holds one.
    pub open spec fn with_item(self, id: u64, item: ItemView) -> QueueState {
        if self.holds(id) {
            QueueState { items: self.items.update(self.index_of(id), item), ..self }
        } else {
            self
        }
    }

    /// The number of pending items.
    pub open spec fn pending(self) -> nat {
        count_where(self.items, is_pending())
    }

    /// Ids are unique and below the next one.
    pub open spec fn wf(self) -> bool {
        &&& forall|i: int| 0 <= i < self.items.len() ==> #[trigger] self.items[i].id < self.next_id
        &&& forall|i: int, j: int|
            0 <= i < j < self.items.len() ==> #[trigger] self.items[i].id
                != #[trigger] self.items[j].id
    }

    /// Whether a finished download of this very URL is in the queue.
    pub open spec fn downloaded(self, url: Seq<char>) -> bool {
        exists|i: int|
            0 <= i < self.items.len() && #[trigger] self.items[i].url == url
                && self.items[i].status == ItemStatus::Done
    }

    /// The queue with a new item at its end.
    pub open spec fn appended(
        self,
        url: Seq<char>,
        title: Option<Seq<char>>,
        duration: Option<Double>,
        now: Stamp,
    ) -> QueueState {
        QueueState {
            items: self.items.push(
                ItemView { title, duration, ..fresh_item(self.next_id, url, now) },
            ),
            next_id: (self.next_id + 1) as u64,
        }
    }

    /// The queue without the first item for which `p` holds.
    pub open spec fn dropped(self, p: spec_fn(ItemView) -> bool) -> QueueState {
        let i = first_where(self.items, p);
        if i < self.items.len() {
            QueueState { items: self.items.remove(i), ..self }
        } else {
            self
        }
    }

    /// The queue with its history trimmed: above the cap, the oldest items that are over leave
    /// until half the cap of them are left.
    pub open spec fn trimmed(self) -> QueueState {
        let over = count_where(self.items, is_over());
        if self.items.len() <= QUEUE_HISTORY_CAP || over <= QUEUE_HISTORY_CAP / 2 {
            self
        } else {
            QueueState {
                items: without_oldest(self.items, (over - QUEUE_HISTORY_CAP / 2) as nat),
                ..self
            }
        }
    }
}

/// What became of a submitted URL.
#[derive(Debug, Clone, Copy, PartialEq, Eq, Structural)]
pub enum EnqueueResult {
    /// A new item with this id was added.
    Added(u64),
    /// A finished download of the URL, with this id, was brought to the front instead.
    Subsumed(u64),
}

impl Queue {
    pub fn new() -> (r: Queue)
        ensures
            r@ == (QueueState { items: Seq::empty(), next_id: 1 }),
            r@.wf(),
    {
        let r = Queue { items: Vec::new(), next_id: 1 };
        assert(r@.items =~= Seq::<ItemView>::empty());
        r
    }

    /// Mints a fresh id.
    pub fn alloc_id(&mut self) -> (id: u64)
        requires
            old(self).next_id < u64::MAX,
        ensures
            id == old(self).next_id,
            final(self)@ == (QueueState { next_id: (old(self).next_id + 1) as u64, ..old(self)@ }),
            final(self).items == old(self).items,
    {
        let id: u64 = self.next_id;
        self.next_id = self.next_id + 1;
        id
    }

    /// Appends a pending item for a video URL, enqueued at `now`, and returns its id. A finished
    /// download of this very URL moves to the end of the queue instead, and there is no id.
    pub fn enqueue_at(
        &mut self,
        url: String,
        title: Option<String>,
        duration: Option<Double>,
        now: Stamp,
    ) -> (r: Option<u64>)
        requires
            old(self).next_id < u64::MAX || old(self)@.downloaded(url@),
        ensures
            r == if old(self)@.downloaded(url@) {
                None
            } else {
                Some(old(self).next_id)
            },
            final(self)@ == old(self)@.submitted(url@, text::opt(title), duration, now),
    {
        match self.submit_at(url, title, duration, now) {
            EnqueueResult::Added(id) => Some(id),
            EnqueueResult::Subsumed(_) => None,
        }
    }

    /// Appends a pending item and returns its id.
    fn append(
        &mut self,
        url: String,
        title: Option<String>,
        duration: Option<Double>,
        now: Stamp,
    ) -> (id: u64)
        requires
            old(self).next_id < u64::MAX,
        ensures
            id == old(self).next_id,
            final(self)@ == old(self)@.appended(url@, text::opt(title), duration, now),
    {
        let id: u64 = self.alloc_id();
        let mut item = QueueItem::at(id, url, now);
        item.title = title;
        item.duration = duration;
        let ghost v = item@;
        self.items.push(item);
        assert(self@.items =~= old(self)@.items.push(v));
        id
    }

    /// Appends a pending item for a video URL, enqueued now, or moves a finished download of this very
    /// URL to the end.
    pub fn enqueue(
        &mut self,
        url: String,
        title: Option<String>,
        duration: Option<Double>,
    ) -> (r: Option<u64>)
        requires
            old(self).next_id < u64::MAX || old(self)@.downloaded(url@),
        ensures
            r == if old(self)@.downloaded(url@) {
                None
            } else {
                Some(old(self).next_id)
            },
            exists|now: Stamp|
                #![trigger old(self)@.submitted(url@, text::opt(title), duration, now)]
                now.offset == 0 && final(self)@ == old(self)@.submitted(
                    url@,
                    text::opt(title),
                    duration,
                    now,
                ),
    {
        self.enqueue_at(url, title, duration, clock::now())
    }
}

impl Queue {
    /// The position of the item `id`, or the number of items.
    pub fn position(&self, id: u64) -> (r: usize)
        ensures
            r == self@.index_of(id),
            r <= self.items@.len(),
            r < self.items@.len() ==> self.items@[r as int].id == id,
    {
        let mut i: usize = 0;
        while i < self.items.len() && self.items[i].id != id
            invariant
                i <= self.items@.len(),
                forall|j: int| 0 <= j < i ==> !has_id(id)(#[trigger] self@.items[j]),
            decreases self.items@.len() - i,
        {
            assert(self@.items[i as int] == self.items@[i as int]@);
            i += 1;
        }
        proof {
            if i < self.items@.len() {
                assert(self@.items[i as int] == self.items@[i as int]@);
            }
            lemma_first_where(self@.items, has_id(id), i as int);
        }
        i
    }

    /// Finds an item by id.
    pub fn get(&self, id: u64) -> (r: Option<&QueueItem>)
        ensures
            r is Some <==> self@.holds(id),
            r is Some ==> r->0@ == self@.item(id) && r->0.id == id,
    {
        let i: usize = self.position(id);
        if i < self.items.len() {
            assert(self@.items[i as int] == self.items@[i as int]@);
            Some(&self.items[i])
        } else {
            None
        }
    }

    /// Finds an item by id, to change it.
    pub fn get_mut(&mut self, id: u64) -> (r: Option<&mut QueueItem>)
        ensures
            match r {
                Some(item) => {
                    &&& old(self)@.holds(id)
                    &&& item@ == old(self)@.item(id)
                    &&& item.id == id
                    &&& final(self)@ == old(self)@.with_item(id, final(item)@)
                },
                None => !old(self)@.holds(id) && final(self)@ == old(self)@,
            },
    {
        let i: usize = self.position(id);
        if i < self.items.len() {
            assert(self@.items[i as int] == self.items@[i as int]@);
            Some(&mut self.items[i])
        } else {
            None
        }
    }
}

pub open spec fn is_pending_id(id: u64) -> spec_fn(ItemView) -> bool {
    |i: ItemView| i.id == id && i.status == ItemStatus::Pending
}

pub open spec fn is_over_id(id: u64) -> spec_fn(ItemView) -> bool {
    |i: ItemView| i.id == id && i.status.terminal()
}

pub open spec fn is_done_url(url: Seq<char>) -> spec_fn(ItemView) -> bool {
    |i: ItemView| i.url == url && i.status == ItemStatus::Done
}

impl QueueState {
    /// The queue as a URL is submitted again: the first finished download of it moves to the end
    /// and counts as enqueued at `now`.
    pub open spec fn resurfaced(self, url: Seq<char>, now: Stamp) -> QueueState {
        let i = first_where(self.items, is_done_url(url));
        QueueState {
            items: self.items.remove(i).push(ItemView { enqueued_at: now, ..self.items[i] }),
            ..self
        }
    }

    /// The queue after a video URL was submitted at `now`: a finished download of this very URL moves
    /// to the end, and any other URL is appended.
    pub open spec fn submitted(
        self,
        url: Seq<char>,
        title: Option<Seq<char>>,
        duration: Option<Double>,
        now: Stamp,
    ) -> QueueState {
        if self.downloaded(url) {
            self.resurfaced(url, now)
        } else {
            self.appended(url, title, duration, now)
        }
    }
}

impl Queue {
    /// Removes a pending item. Returns whether one was removed.
    pub fn remove_pending(&mut self, id: u64) -> (r: bool)
        ensures
            r == (first_where(old(self)@.items, is_pending_id(id)) < old(self)@.items.len()),
            final(self)@ == old(self)@.dropped(is_pending_id(id)),
    {
        let ghost p = is_pending_id(id);
        let mut i: usize = 0;
        while i < self.items.len()
            invariant
                i <= self.items@.len(),
                p == is_pending_id(id),
                *self == *old(self),
                forall|j: int| 0 <= j < i ==> !p(#[trigger] self@.items[j]),
            decreases self.items@.len() - i,
        {
            assert(self@.items[i as int] == self.items@[i as int]@);
            if self.items[i].id == id && self.items[i].status == ItemStatus::Pending {
                proof {
                    lemma_first_where(self@.items, p, i as int);
                }
                let _gone = self.items.remove(i);
                assert(self@.items =~= old(self)@.items.remove(i as int));
                return true;
            }
            i += 1;
        }
        proof {
            lemma_first_where(self@.items, p, i as int);
        }
        false
    }

    /// Removes an item that is over. Returns whether one was removed.
    pub fn remove_terminal(&mut self, id: u64) -> (r: bool)
        ensures
            r == (first_where(old(self)@.items, is_over_id(id)) < old(self)@.items.len()),
            final(self)@ == old(self)@.dropped(is_over_id(id)),
    {
        let ghost p = is_over_id(id);
        let mut i: usize = 0;
        while i < self.items.len()
            invariant
                i <= self.items@.len(),
                p == is_over_id(id),
                *self == *old(self),
                forall|j: int| 0 <= j < i ==> !p(#[trigger] self@.items[j]),
            decreases self.items@.len() - i,
        {
            assert(self@.items[i as int] == self.items@[i as int]@);
            if self.items[i].id == id && self.items[i].status.is_terminal() {
                proof {
                    lemma_first_where(self@.items, p, i as int);
                }
                let _gone = self.items.remove(i);
                assert(self@.items =~= old(self)@.items.remove(i as int));
                return true;
            }
            i += 1;
        }
        proof {
            lemma_first_where(self@.items, p, i as int);
        }
        false
    }

    /// The number of pending items.
    pub fn count_pending(&self) -> (r: usize)
        ensures
            r == self@.pending(),
            r <= self.items@.len(),
    {
        let mut n: usize = 0;
        let mut i: usize = 0;
        assert(self@.items.take(0) =~= Seq::<ItemView>::empty());
        while i < self.items.len()
            invariant
                n <= i <= self.items@.len(),
                n == count_where(self@.items.take(i as int), is_pending()),
            decreases self.items@.len() - i,
        {
            let ghost t = self@.items.take(i + 1);
            assert(t.drop_last() =~= self@.items.take(i as int));
            assert(t.last() == self.items@[i as int]@);
            if self.items[i].status == ItemStatus::Pending {
                n += 1;
            }
            i += 1;
        }
        assert(self@.items.take(i as int) =~= self@.items);
        n
    }

    /// The number of items that are over.
    fn count_over(&self) -> (r: usize)
        ensures
            r == count_where(self@.items, is_over()),
            r <= self.items@.len(),
    {
        let mut n: usize = 0;
        let mut i: usize = 0;
        assert(self@.items.take(0) =~= Seq::<ItemView>::empty());
        while i < self.items.len()
            invariant
                n <= i <= self.items@.len(),
                n == count_where(self@.items.take(i as int), is_over()),
            decreases self.items@.len() - i,
        {
            let ghost t = self@.items.take(i + 1);
            assert(t.drop_last() =~= self@.items.take(i as int));
            assert(t.last() == self.items@[i as int]@);
            if self.items[i].status.is_terminal() {
                n += 1;
            }
            i += 1;
        }
        assert(self@.items.take(i as int) =~= self@.items);
        n
    }

    /// Drops all items that are over. Returns their number.
    pub fn clear_terminal(&mut self) -> (r: usize)
        ensures
            final(self)@ == (QueueState { items: old(self)@.items.filter(is_kept()), ..old(self)@ }),
            r == old(self)@.items.len() - final(self)@.items.len(),
    {
        let before: usize = self.items.len();
        let ghost whole = self@.items;
        let mut i: usize = 0;
        let mut gone: usize = 0;
        proof {
            assert(whole.take(0) =~= Seq::<ItemView>::empty());
            reveal(Seq::filter);
            assert(self@.items =~= whole.take(0).filter(is_kept()) + whole.skip(0));
        }
        while i < self.items.len()
            invariant
                i <= self.items@.len(),
                gone <= before,
                before == whole.len(),
                self.items@.len() + gone == before,
                self.next_id == old(self).next_id,
                self@.items == whole.take(i + gone).filter(is_kept()) + whole.skip(i + gone),
                i == whole.take(i + gone).filter(is_kept()).len(),
            decreases self.items@.len() - i,
        {
            let ghost k = i + gone;
            let ghost kept = whole.take(k).filter(is_kept());
            proof {
                assert(self@.items[i as int] == self.items@[i as int]@);
                assert(self@.items[i as int] == whole[k]);
                assert(whole.take(k + 1).drop_last() =~= whole.take(k));
                assert(whole.take(k + 1).last() == whole[k]);
                reveal(Seq::filter);
            }
            if self.items[i].status.is_terminal() {
                let ghost prev = self@.items;
                let _gone = self.items.remove(i);
                proof {
                    assert(self@.items =~= prev.remove(i as int));
                    assert(whole.take(k + 1).filter(is_kept()) =~= kept);
                    assert(self@.items =~= kept + whole.skip(k + 1));
                }
                gone += 1;
            } else {
                proof {
                    assert(whole.take(k + 1).filter(is_kept()) =~= kept.push(whole[k]));
                    assert(self@.items =~= kept.push(whole[k]) + whole.skip(k + 1));
                }
                i += 1;
            }
        }
        proof {
            assert(whole.take(i + gone) =~= whole);
            assert(self@.items =~= whole.filter(is_kept()));
        }
        gone
    }
}

impl Queue {
    /// Trims the history so that the queue stays bounded: above the cap, the oldest items that
    /// are over leave until half the cap of them are left.
    pub fn trim_history(&mut self)
        ensures
            final(self)@ == old(self)@.trimmed(),
    {
        if self.items.len() <= QUEUE_HISTORY_CAP {
            return;
        }
        let over: usize = self.count_over();
        if over <= QUEUE_HISTORY_CAP / 2 {
            return;
        }
        let mut k: usize = over - QUEUE_HISTORY_CAP / 2;
        let ghost goal = without_oldest(self@.items, k as nat);
        let mut i: usize = 0;
        proof {
            assert(self@.items.skip(0) =~= self@.items);
            assert(goal =~= self@.items.take(0) + without_oldest(self@.items.skip(0), k as nat));
        }
        while k > 0 && i < self.items.len()
            invariant
                i <= self.items@.len(),
                self.next_id == old(self).next_id,
                goal == self@.items.take(i as int) + without_oldest(
                    self@.items.skip(i as int),
                    k as nat,
                ),
            decreases self.items@.len() - i,
        {
            let ghost prev = self@.items;
            let ghost rest = prev.skip(i as int);
            proof {
                assert(prev[i as int] == self.items@[i as int]@);
                assert(rest[0] == prev[i as int]);
                assert(rest.drop_first() =~= prev.skip(i + 1));
            }
            if self.items[i].status.is_terminal() {
                let _gone = self.items.remove(i);
                k -= 1;
                proof {
                    assert(self@.items =~= prev.remove(i as int));
                    assert(self@.items.skip(i as int) =~= rest.drop_first());
                    assert(self@.items.take(i as int) =~= prev.take(i as int));
                }
            } else {
                proof {
                    assert(prev.take(i + 1) =~= prev.take(i as int).push(rest[0]));
                    assert(goal =~= prev.take(i + 1) + without_oldest(
                        prev.skip(i + 1),
                        k as nat,
                    ));
                }
                i += 1;
            }
        }
        proof {
            if i == self.items@.len() {
                assert(self@.items.skip(i as int) =~= Seq::<ItemView>::empty());
            }
            assert(self@.items =~= self@.items.take(i as int) + self@.items.skip(i as int));
        }
    }

    /// Submits a video URL at `now`. A finished download of this very URL moves to the end of the
    /// queue instead of being downloaded again; any other URL is appended as a pending item.
    pub fn submit_at(
        &mut self,
        url: String,
        title: Option<String>,
        duration: Option<Double>,
        now: Stamp,
    ) -> (r: EnqueueResult)
        requires
            old(self).next_id < u64::MAX || old(self)@.downloaded(url@),
        ensures
            r == if old(self)@.downloaded(url@) {
                EnqueueResult::Subsumed(
                    old(self)@.items[first_where(old(self)@.items, is_done_url(url@))].id,
                )
            } else {
                EnqueueResult::Added(old(self).next_id)
            },
            final(self)@ == old(self)@.submitted(url@, text::opt(title), duration, now),
    {
        let ghost p = is_done_url(url@);
        let mut i: usize = 0;
        while i < self.items.len()
            invariant
                i <= self.items@.len(),
                p == is_done_url(url@),
                old(self).next_id < u64::MAX || old(self)@.downloaded(url@),
                *self == *old(self),
                forall|j: int| 0 <= j < i ==> !p(#[trigger] self@.items[j]),
            decreases self.items@.len() - i,
        {
            assert(self@.items[i as int] == self.items@[i as int]@);
            if self.items[i].status == ItemStatus::Done && text::same(
                self.items[i].url.as_str(),
                url.as_str(),
            ) {
                proof {
                    lemma_first_where(self@.items, p, i as int);
                    assert(self@.items[i as int].url == url@);
                    assert(self@.downloaded(url@));
                }
                let mut item = self.items.remove(i);
                item.enqueued_at = now;
                let id: u64 = item.id;
                let ghost v = item@;
                self.items.push(item);
                assert(self@.items =~= old(self)@.items.remove(i as int).push(v));
                return EnqueueResult::Subsumed(id);
            }
            i += 1;
        }
        proof {
            if self@.downloaded(url@) {
                let j = choose|j: int|
                    0 <= j < self@.items.len() && #[trigger] self@.items[j].url == url@
                        && self@.items[j].status == ItemStatus::Done;
                assert(!p(self@.items[j]));
            }
        }
        EnqueueResult::Added(self.append(url, title, duration, now))
    }
}

/// The next id is in no use, and appending an item keeps ids unique.
pub proof fn law_fresh_ids(
    q: QueueState,
    url: Seq<char>,
    title: Option<Seq<char>>,
    duration: Option<Double>,
    now: Stamp,
)
    requires
        q.wf(),
        q.next_id < u64::MAX,
    ensures
        !q.holds(q.next_id),
        q.appended(url, title, duration, now).wf(),
        q.appended(url, title, duration, now).holds(q.next_id),
        q.appended(url, title, duration, now).item(q.next_id).status == ItemStatus::Pending,
{
    let id = q.next_id;
    lemma_first_where_found(q.items, has_id(id));
    if q.holds(id) {
        assert(q.items[q.index_of(id)].id < q.next_id);
    }
    let r = q.appended(url, title, duration, now);
    assert forall|j: int| 0 <= j < q.items.len() implies !has_id(id)(#[trigger] r.items[j]) by {
        assert(r.items[j] == q.items[j]);
    }
    lemma_first_where(r.items, has_id(id), q.items.len() as int);
    assert forall|i: int, j: int| 0 <= i < j < r.items.len() implies #[trigger] r.items[i].id
        != #[trigger] r.items[j].id by {
        assert(r.items[i] == q.items[i]);
        if j < q.items.len() {
            assert(r.items[j] == q.items[j]);
        }
    }
}

/// Removing an item keeps ids unique.
pub proof fn law_removal_keeps_ids(q: QueueState, p: spec_fn(ItemView) -> bool)
    requires
        q.wf(),
    ensures
        q.dropped(p).wf(),
{
    let k = first_where(q.items, p);
    lemma_first_where_found(q.items, p);
    if k < q.items.len() {
        let r = q.items.remove(k);
        assert forall|i: int| 0 <= i < r.len() implies #[trigger] r[i].id < q.next_id by {
            assert(r[i] == q.items[if i < k {
                i
            } else {
                i + 1
            }]);
        }
        assert forall|i: int, j: int| 0 <= i < j < r.len() implies #[trigger] r[i].id
            != #[trigger] r[j].id by {
            let a = if i < k {
                i
            } else {
                i + 1
            };
            let b = if j < k {
                j
            } else {
                j + 1
            };
            assert(r[i] == q.items[a]);
            assert(r[j] == q.items[b]);
        }
    }
}

/// Changing an item without its id keeps ids unique, and touches no other item.
pub proof fn law_update_keeps_ids(q: QueueState, id: u64, item: ItemView)
    requires
        q.wf(),
        item.id == id,
    ensures
        q.with_item(id, item).wf(),
        q.with_item(id, item).items.len() == q.items.len(),
        q.holds(id) ==> q.with_item(id, item).item(id) == item,
        forall|other: u64|
            other != id && q.holds(other) ==> #[trigger] q.with_item(id, item).item(other)
                == q.item(other),
{
    let r = q.with_item(id, item);
    let k = q.index_of(id);
    lemma_first_where_found(q.items, has_id(id));
    if q.holds(id) {
        assert forall|i: int| 0 <= i < r.items.len() implies #[trigger] r.items[i].id
            == q.items[i].id by {}
        assert forall|j: int| 0 <= j < k implies !has_id(id)(#[trigger] r.items[j]) by {
            assert(!has_id(id)(q.items[j]));
        }
        lemma_first_where(r.items, has_id(id), k);
    }
    assert forall|other: u64| other != id && q.holds(other) implies #[trigger] r.item(other)
        == q.item(other) by {
        let m = q.index_of(other);
        lemma_first_where_found(q.items, has_id(other));
        assert forall|j: int| 0 <= j < m implies !has_id(other)(#[trigger] r.items[j]) by {
            assert(!has_id(other)(q.items[j]));
            assert(r.items[j].id == q.items[j].id);
        }
        assert(r.items[m].id == q.items[m].id);
        lemma_first_where(r.items, has_id(other), m);
    }
}

/// Putting an item in its own place changes nothing.
pub proof fn lemma_same_item(q: QueueState, id: u64)
    ensures
        q.holds(id) ==> q.with_item(id, q.item(id)) == q,
{
    lemma_first_where_found(q.items, has_id(id));
    if q.holds(id) {
        assert(q.items.update(q.index_of(id), q.item(id)) =~= q.items);
    }
}

/// The item that was put in the place of `id` is the item `id`.
pub proof fn lemma_item_of_updated(q: QueueState, id: u64, item: ItemView)
    requires
        q.holds(id),
        item.id == id,
    ensures
        q.with_item(id, item).holds(id),
        q.with_item(id, item).item(id) == item,
{
    let r = q.with_item(id, item);
    let k = q.index_of(id);
    lemma_first_where_found(q.items, has_id(id));
    assert forall|j: int| 0 <= j < k implies !has_id(id)(#[trigger] r.items[j]) by {
        assert(!has_id(id)(q.items[j]));
    }
    lemma_first_where(r.items, has_id(id), k);
}

/// A submitted URL that was downloaded adds no item: the finished one moves to the end, with its
/// file and all it holds but for the time of enqueueing.
pub proof fn law_resurface_adds_nothing(q: QueueState, url: Seq<char>, now: Stamp)
    requires
        q.wf(),
        q.downloaded(url),
    ensures
        q.resurfaced(url, now).wf(),
        q.resurfaced(url, now).items.len() == q.items.len(),
        q.resurfaced(url, now).items.last().url == url,
        q.resurfaced(url, now).items.last().status == ItemStatus::Done,
        q.resurfaced(url, now).items.last().enqueued_at == now,
        q.resurfaced(url, now).downloaded(url),
        q.resurfaced(url, now).pending() == q.pending(),
        q.resurfaced(url, now).active() == q.active(),
{
    let p = is_done_url(url);
    let k = first_where(q.items, p);
    lemma_first_where_found(q.items, p);
    let w = choose|j: int|
        0 <= j < q.items.len() && #[trigger] q.items[j].url == url && q.items[j].status
            == ItemStatus::Done;
    assert(p(q.items[w]));
    assert(k < q.items.len()) by {
        if k >= q.items.len() {
            assert(!p(q.items[w]));
        }
    }
    let r = q.resurfaced(url, now);
    let n = q.items.len();
    assert forall|i: int| 0 <= i < n implies #[trigger] r.items[i].id == q.items[if i < k {
        i
    } else if i < n - 1 {
        i + 1
    } else {
        k
    }].id by {}
    assert(r.items[n - 1].url == url);
    let moved = ItemView { enqueued_at: now, ..q.items[k] };
    lemma_count_remove(q.items, is_pending(), k);
    lemma_count_push(q.items.remove(k), is_pending(), moved);
    lemma_count_remove(q.items, is_active(), k);
    lemma_count_push(q.items.remove(k), is_active(), moved);
}

/// Items have ids below `next` and no two share one.
pub open spec fn ids_ok(items: Seq<ItemView>, next: u64) -> bool {
    QueueState { items, next_id: next }.wf()
}

proof fn lemma_without_oldest(items: Seq<ItemView>, k: nat, next: u64)
    requires
        ids_ok(items, next),
    ensures
        ids_ok(without_oldest(items, k), next),
        forall|i: int|
            0 <= i < without_oldest(items, k).len() ==> items.contains(
                #[trigger] without_oldest(items, k)[i],
            ),
        without_oldest(items, k).filter(is_kept()) == items.filter(is_kept()),
    decreases items.len(),
{
    let r = without_oldest(items, k);
    if items.len() == 0 || k == 0 {
        assert forall|i: int| 0 <= i < r.len() implies items.contains(#[trigger] r[i]) by {
            assert(items[i] == r[i]);
        }
    } else {
        let t = items.drop_first();
        assert(items =~= seq![items[0]] + t);
        Seq::filter_distributes_over_add(seq![items[0]], t, is_kept());
        assert(ids_ok(t, next)) by {
            assert forall|i: int| 0 <= i < t.len() implies #[trigger] t[i] == items[i + 1] by {}
        }
        assert(seq![items[0]].drop_last() =~= Seq::<ItemView>::empty());
        reveal_with_fuel(Seq::filter, 2);
        if items[0].status.terminal() {
            lemma_without_oldest(t, (k - 1) as nat, next);
            assert(seq![items[0]].filter(is_kept()) =~= Seq::<ItemView>::empty());
            assert(t.filter(is_kept()) =~= items.filter(is_kept()));
            assert forall|i: int| 0 <= i < r.len() implies items.contains(#[trigger] r[i]) by {
                let w = choose|w: int| 0 <= w < t.len() && t[w] == r[i];
                assert(t.contains(r[i]));
                assert(items[w + 1] == r[i]);
            }
        } else {
            lemma_without_oldest(t, k, next);
            let u = without_oldest(t, k);
            Seq::filter_distributes_over_add(seq![items[0]], u, is_kept());
            assert forall|i: int| 0 <= i < r.len() implies items.contains(#[trigger] r[i]) by {
                if i == 0 {
                    assert(items[0] == r[0]);
                } else {
                    assert(t.contains(u[i - 1]));
                    let w = choose|w: int| 0 <= w < t.len() && t[w] == u[i - 1];
                    assert(items[w + 1] == r[i]);
                }
            }
            assert forall|i: int, j: int| 0 <= i < j < r.len() implies #[trigger] r[i].id
                != #[trigger] r[j].id by {
                assert(r[j] == u[j - 1]);
                if i == 0 {
                    assert(t.contains(u[j - 1]));
                    let w = choose|w: int| 0 <= w < t.len() && t[w] == u[j - 1];
                    assert(items[w + 1].id != items[0].id);
                } else {
                    assert(r[i] == u[i - 1]);
                }
            }
            assert forall|i: int| 0 <= i < r.len() implies #[trigger] r[i].id < next by {
                assert(items.contains(r[i]));
                let w = choose|w: int| 0 <= w < items.len() && items[w] == r[i];
                assert(items[w].id < next);
            }
        }
    }
}

/// Taking `k` of the items that are over leaves that many fewer.
proof fn lemma_without_oldest_counts(items: Seq<ItemView>, k: nat)
    requires
        k <= count_where(items, is_over()),
    ensures
        count_where(without_oldest(items, k), is_over()) == count_where(items, is_over()) - k,
        without_oldest(items, k).len() == items.len() - k,
    decreases items.len(),
{
    if items.len() == 0 || k == 0 {
    } else {
        let t = items.drop_first();
        lemma_count_front(items, is_over());
        if items[0].status.terminal() {
            lemma_without_oldest_counts(t, (k - 1) as nat);
        } else {
            lemma_without_oldest_counts(t, k);
            let r = without_oldest(items, k);
            lemma_count_front(r, is_over());
            assert(r.drop_first() =~= without_oldest(t, k));
        }
    }
}

proof fn lemma_count_front(items: Seq<ItemView>, p: spec_fn(ItemView) -> bool)
    requires
        items.len() > 0,
    ensures
        count_where(items, p) == count_where(items.drop_first(), p) + if p(items[0]) {
            1nat
        } else {
            0
        },
    decreases items.len(),
{
    if items.len() == 1 {
        assert(items.drop_first() =~= Seq::<ItemView>::empty());
        assert(items.drop_last() =~= Seq::<ItemView>::empty());
    } else {
        let l = items.drop_last();
        lemma_count_front(l, p);
        assert(l.drop_first() =~= items.drop_first().drop_last());
        assert(items.drop_first().last() == items.last());
        assert(l[0] == items[0]);
    }
}

/// Trimming the history never removes a pending or an active item, leaves at most half the cap of
/// finished ones where the queue was above the cap, and has nothing more to do a second time.
pub proof fn law_trim_keeps_unfinished(q: QueueState)
    requires
        q.wf(),
    ensures
        q.trimmed().wf(),
        q.trimmed().items.filter(is_kept()) == q.items.filter(is_kept()),
        q.items.len() > QUEUE_HISTORY_CAP ==> count_where(q.trimmed().items, is_over())
            <= QUEUE_HISTORY_CAP / 2,
        q.trimmed().trimmed() == q.trimmed(),
{
    let over = count_where(q.items, is_over());
    if q.items.len() > QUEUE_HISTORY_CAP && over > QUEUE_HISTORY_CAP / 2 {
        let k = (over - QUEUE_HISTORY_CAP / 2) as nat;
        lemma_without_oldest(q.items, k, q.next_id);
        lemma_without_oldest_counts(q.items, k);
    }
}

pub proof fn lemma_filter_ids(items: Seq<ItemView>, p: spec_fn(ItemView) -> bool, next: u64)
    requires
        ids_ok(items, next),
    ensures
        ids_ok(items.filter(p), next),
        forall|i: int|
            0 <= i < items.filter(p).len() ==> items.contains(#[trigger] items.filter(p)[i]),
    decreases items.len(),
{
    reveal(Seq::filter);
    if items.len() > 0 {
        let t = items.drop_last();
        assert(ids_ok(t, next)) by {
            assert forall|i: int| 0 <= i < t.len() implies #[trigger] t[i] == items[i] by {}
        }
        lemma_filter_ids(t, p, next);
        let r = items.filter(p);
        let u = t.filter(p);
        assert forall|i: int| 0 <= i < r.len() implies items.contains(#[trigger] r[i]) by {
            if i < u.len() {
                assert(t.contains(u[i]));
                let w = choose|w: int| 0 <= w < t.len() && t[w] == u[i];
                assert(items[w] == r[i]);
            } else {
                assert(items[items.len() - 1] == r[i]);
            }
        }
        assert forall|i: int| 0 <= i < r.len() implies #[trigger] r[i].id < next by {
            let w = choose|w: int| 0 <= w < items.len() && items[w] == r[i];
            assert(items.contains(r[i]));
            assert(items[w].id < next);
        }
        assert forall|i: int, j: int| 0 <= i < j < r.len() implies #[trigger] r[i].id
            != #[trigger] r[j].id by {
            assert(r[i] == u[i]);
            if j < u.len() {
                assert(r[j] == u[j]);
            } else {
                assert(t.contains(u[i]));
                let w = choose|w: int| 0 <= w < t.len() && t[w] == u[i];
                assert(items[w].id != items[items.len() - 1].id);
            }
        }
    }
}

/// Clearing the history removes exactly the items that are over.
pub proof fn law_clear_removes_finished(q: QueueState)
    requires
        q.wf(),
    ensures
        (QueueState { items: q.items.filter(is_kept()), ..q }).wf(),
        forall|i: int|
            0 <= i < q.items.filter(is_kept()).len()
                ==> !(#[trigger] q.items.filter(is_kept())[i]).status.terminal(),
        forall|i: int|
            0 <= i < q.items.len() && !(#[trigger] q.items[i]).status.terminal()
                ==> q.items.filter(is_kept()).contains(q.items[i]),
{
    lemma_filter_ids(q.items, is_kept(), q.next_id);
    broadcast use Seq::lemma_filter_pred, Seq::lemma_filter_contains;

    assert forall|i: int| 0 <= i < q.items.filter(is_kept()).len() implies !(
    #[trigger] q.items.filter(is_kept())[i]).status.terminal() by {
        assert(is_kept()(q.items.filter(is_kept())[i]));
    }
    assert forall|i: int| 0 <= i < q.items.len() && !(
    #[trigger] q.items[i]).status.terminal() implies q.items.filter(is_kept()).contains(
        q.items[i],
    ) by {
        assert(is_kept()(q.items[i]));
    }
}

/// Removing a finished item by id never touches a pending or an active one, and removing a pending
/// one never touches another.
pub proof fn law_removal_is_targeted(q: QueueState, id: u64)
    requires
        q.wf(),
    ensures
        q.holds(id) && q.item(id).status.terminal() ==> !q.dropped(is_over_id(id)).holds(id)
            && q.dropped(is_over_id(id)).items == q.items.remove(q.index_of(id)),
        !(q.holds(id) && q.item(id).status.terminal()) ==> q.dropped(is_over_id(id)) == q,
        q.holds(id) && q.item(id).status == ItemStatus::Pending ==> q.dropped(
            is_pending_id(id),
        ).items == q.items.remove(q.index_of(id)),
        !(q.holds(id) && q.item(id).status == ItemStatus::Pending) ==> q.dropped(is_pending_id(id))
            == q,
{
    let k = q.index_of(id);
    lemma_first_where_found(q.items, has_id(id));
    lemma_first_where_found(q.items, is_over_id(id));
    lemma_first_where_found(q.items, is_pending_id(id));
    let a = first_where(q.items, is_over_id(id));
    let b = first_where(q.items, is_pending_id(id));
    if a < q.items.len() {
        assert(has_id(id)(q.items[a]));
        if k < a {
            assert(q.items[k].id == q.items[a].id);
        }
        if a < k {
            assert(!has_id(id)(q.items[a]));
        }
        let r = q.dropped(is_over_id(id));
        assert forall|j: int| 0 <= j < r.items.len() implies !has_id(id)(#[trigger] r.items[j]) by {
            let m = if j < a {
                j
            } else {
                j + 1
            };
            assert(r.items[j] == q.items[m]);
            assert(q.items[m].id != q.items[a].id);
        }
        lemma_first_where(r.items, has_id(id), r.items.len() as int);
    } else if k < q.items.len() {
        assert(!is_over_id(id)(q.items[k]));
    }
    if b < q.items.len() {
        assert(has_id(id)(q.items[b]));
        if k < b {
            assert(q.items[k].id == q.items[b].id);
        }
        if b < k {
            assert(!has_id(id)(q.items[b]));
        }
    } else if k < q.items.len() {
        assert(!is_pending_id(id)(q.items[k]));
    }
}

/// An item never keeps more log lines than the cap, and the newest line is always among them.
pub proof fn law_log_is_bounded(item: ItemView, line: Seq<char>)
    ensures
        item.logged(line).logs.len() <= ITEM_LOG_CAP,
        item.logged(line).logs.last() == line,
{
}

/// Replacing one item changes a count by that item alone.
pub proof fn lemma_count_update(
    items: Seq<ItemView>,
    p: spec_fn(ItemView) -> bool,
    i: int,
    item: ItemView,
)
    requires
        0 <= i < items.len(),
    ensures
        count_where(items.update(i, item), p) + (if p(items[i]) {
            1int
        } else {
            0
        }) == count_where(items, p) + (if p(item) {
            1int
        } else {
            0
        }),
    decreases items.len(),
{
    let r = items.update(i, item);
    if i == items.len() - 1 {
        assert(r.drop_last() =~= items.drop_last());
    } else {
        assert(r.drop_last() =~= items.drop_last().update(i, item));
        assert(r.last() == items.last());
        lemma_count_update(items.drop_last(), p, i, item);
    }
}

/// Removing one item changes a count by that item alone.
pub proof fn lemma_count_remove(items: Seq<ItemView>, p: spec_fn(ItemView) -> bool, i: int)
    requires
        0 <= i < items.len(),
    ensures
        count_where(items, p) == count_where(items.remove(i), p) + (if p(items[i]) {
            1int
        } else {
            0
        }),
    decreases items.len(),
{
    let r = items.remove(i);
    if i == items.len() - 1 {
        assert(r =~= items.drop_last());
    } else {
        assert(r.drop_last() =~= items.drop_last().remove(i));
        assert(r.last() == items.last());
        lemma_count_remove(items.drop_last(), p, i);
    }
}

/// An item behind all others changes a count by that item alone.
pub proof fn lemma_count_push(items: Seq<ItemView>, p: spec_fn(ItemView) -> bool, item: ItemView)
    ensures
        count_where(items.push(item), p) == count_where(items, p) + (if p(item) {
            1int
        } else {
            0
        }),
{
    assert(items.push(item).drop_last() =~= items);
}

/// Leaving items out makes no count larger.
pub proof fn lemma_count_filter(
    items: Seq<ItemView>,
    keep: spec_fn(ItemView) -> bool,
    p: spec_fn(ItemView) -> bool,
)
    ensures
        count_where(items.filter(keep), p) <= count_where(items, p),
    decreases items.len(),
{
    reveal(Seq::filter);
    if items.len() > 0 {
        let t = items.drop_last();
        lemma_count_filter(t, keep, p);
        if keep(items.last()) {
            lemma_count_push(t.filter(keep), p, items.last());
        }
    }
}

/// Trimming makes no count larger.
pub proof fn lemma_count_trimmed(items: Seq<ItemView>, k: nat, p: spec_fn(ItemView) -> bool)
    ensures
        count_where(without_oldest(items, k), p) <= count_where(items, p),
    decreases items.len(),
{
    if items.len() > 0 && k > 0 {
        let t = items.drop_first();
        lemma_count_front(items, p);
        if items[0].status.terminal() {
            lemma_count_trimmed(t, (k - 1) as nat, p);
        } else {
            lemma_count_trimmed(t, k, p);
            let r = without_oldest(items, k);
            lemma_count_front(r, p);
            assert(r.drop_first() =~= without_oldest(t, k));
        }
    }
}

/// Items with the same statuses have as many active ones.
pub proof fn lemma_count_same_status(a: Seq<ItemView>, b: Seq<ItemView>)
    requires
        a.len() == b.len(),
        forall|i: int| 0 <= i < a.len() ==> (#[trigger] a[i]).status == b[i].status,
    ensures
        count_where(a, is_active()) == count_where(b, is_active()),
    decreases a.len(),
{
    if a.len() > 0 {
        let s = a.drop_last();
        let t = b.drop_last();
        assert forall|i: int| 0 <= i < s.len() implies (#[trigger] s[i]).status == t[i].status by {
            assert(s[i] == a[i]);
        }
        assert(a[a.len() - 1].status == b[b.len() - 1].status);
        lemma_count_same_status(s, t);
    }
}

pub open spec fn is_active() -> spec_fn(ItemView) -> bool {
    |i: ItemView| i.status == ItemStatus::Active
}

impl QueueState {
    /// The number of active items.
    pub open spec fn active(self) -> nat {
        count_where(self.items, is_active())
    }
}

/// A submitted video enters the queue at its end as it was submitted: pending, under the next id, with
/// its URL, title and duration, and with nothing else yet. No other item changes.
pub proof fn law_submitted_video_waits_at_the_end(
    q: QueueState,
    url: Seq<char>,
    title: Option<Seq<char>>,
    duration: Option<Double>,
    now: Stamp,
)
    requires
        q.next_id < u64::MAX,
        forall|i: int|
            0 <= i < q.items.len() && q.items[i].status == ItemStatus::Done
                ==> #[trigger] q.items[i].url != url,
    ensures
        ({
            let r = q.submitted(url, title, duration, now);
            let new = r.items.last();
            &&& r.items.len() == q.items.len() + 1
            &&& r.next_id == q.next_id + 1
            &&& forall|i: int| 0 <= i < q.items.len() ==> #[trigger] r.items[i] == q.items[i]
            &&& new.id == q.next_id
            &&& new.url == url
            &&& new.title == title
            &&& new.duration == duration
            &&& new.enqueued_at == now
            &&& new.status == ItemStatus::Pending
            &&& new.filename is None
            &&& new.progress is None
            &&& new.error is None
            &&& !new.reported
            &&& new.thumbnail is None
            &&& new.thumbnails.len() == 0
            &&& new.media is None
            &&& new.logs.len() == 0
            &&& new.cancel is None
        }),
{
    if q.downloaded(url) {
        let i = choose|i: int|
            0 <= i < q.items.len() && #[trigger] q.items[i].url == url && q.items[i].status
                == ItemStatus::Done;
        assert(q.items[i].url != url);
    }
}

/// A URL whose download is done is not queued again: the first such item moves to the end with all that
/// it holds, but for its time, and the others keep their places. An item of this URL that is not done
/// does not count.
pub proof fn law_done_url_is_brought_back(
    q: QueueState,
    url: Seq<char>,
    title: Option<Seq<char>>,
    duration: Option<Double>,
    now: Stamp,
    k: int,
)
    requires
        0 <= k < q.items.len(),
        q.items[k].url == url,
        q.items[k].status == ItemStatus::Done,
        forall|i: int|
            0 <= i < k && #[trigger] q.items[i].url == url ==> q.items[i].status
                != ItemStatus::Done,
    ensures
        ({
            let r = q.submitted(url, title, duration, now);
            let was = q.items[k];
            let moved = r.items.last();
            &&& r.next_id == q.next_id
            &&& r.items.len() == q.items.len()
            &&& forall|i: int| 0 <= i < k ==> #[trigger] r.items[i] == q.items[i]
            &&& forall|i: int|
                k <= i < q.items.len() - 1 ==> #[trigger] r.items[i] == q.items[i + 1]
            &&& moved.enqueued_at == now
            &&& moved.id == was.id
            &&& moved.url == was.url
            &&& moved.status == was.status
            &&& moved.title == was.title
            &&& moved.duration == was.duration
            &&& moved.filename == was.filename
            &&& moved.progress == was.progress
            &&& moved.error == was.error
            &&& moved.reported == was.reported
            &&& moved.thumbnail == was.thumbnail
            &&& moved.thumbnails == was.thumbnails
            &&& moved.media == was.media
            &&& moved.logs == was.logs
            &&& moved.cancel == was.cancel
        }),
{
    let p = is_done_url(url);
    assert(q.items[k].url == url);
    assert(q.downloaded(url));
    assert forall|i: int| 0 <= i < k implies !p(#[trigger] q.items[i]) by {
        assert(q.items[i].url == url ==> q.items[i].status != ItemStatus::Done);
    }
    lemma_first_where(q.items, p, k);
}

/// A count is the number of positions that it counts: it is zero exactly where there is none, and an
/// item behind the others adds one exactly where it is counted.
pub proof fn law_counts_count(q: QueueState, item: ItemView)
    ensures
        q.pending() == 0 <==> forall|i: int|
            0 <= i < q.items.len() ==> (#[trigger] q.items[i]).status != ItemStatus::Pending,
        q.active() == 0 <==> forall|i: int|
            0 <= i < q.items.len() ==> (#[trigger] q.items[i]).status != ItemStatus::Active,
        (QueueState { items: q.items.push(item), ..q }).pending() == q.pending() + if item.status
            == ItemStatus::Pending {
            1int
        } else {
            0
        },
        (QueueState { items: q.items.push(item), ..q }).active() == q.active() + if item.status
            == ItemStatus::Active {
            1int
        } else {
            0
        },
        q.pending() <= q.items.len(),
    decreases q.items.len(),
{
    lemma_count_push(q.items, is_pending(), item);
    lemma_count_push(q.items, is_active(), item);
    if q.items.len() > 0 {
        let t = QueueState { items: q.items.drop_last(), ..q };
        law_counts_count(t, item);
        let last = q.items[q.items.len() - 1];
        if q.pending() == 0 {
            assert forall|i: int| 0 <= i < q.items.len() implies (#[trigger] q.items[i]).status
                != ItemStatus::Pending by {
                if i < t.items.len() {
                    assert(t.items[i] == q.items[i]);
                }
            }
        } else if t.pending() > 0 {
            let i = choose|i: int|
                0 <= i < t.items.len() && (#[trigger] t.items[i]).status == ItemStatus::Pending;
            assert(q.items[i].status == ItemStatus::Pending);
        }
        if q.active() == 0 {
            assert forall|i: int| 0 <= i < q.items.len() implies (#[trigger] q.items[i]).status
                != ItemStatus::Active by {
                if i < t.items.len() {
                    assert(t.items[i] == q.items[i]);
                }
            }
        } else if t.active() > 0 {
            let i = choose|i: int|
                0 <= i < t.items.len() && (#[trigger] t.items[i]).status == ItemStatus::Active;
            assert(q.items[i].status == ItemStatus::Active);
        }
    }
}

/// The items that are over, in their order.
pub open spec fn history(items: Seq<ItemView>) -> Seq<ItemView> {
    items.filter(
        |i: ItemView|
            i.status == ItemStatus::Done || i.status == ItemStatus::Failed || i.status
                == ItemStatus::Cancelled,
    )
}

proof fn lemma_history(items: Seq<ItemView>)
    ensures
        history(items).len() == count_where(items, is_over()),
    decreases items.len(),
{
    reveal(Seq::filter);
    if items.len() > 0 {
        lemma_history(items.drop_last());
    }
}

proof fn lemma_oldest_leave(items: Seq<ItemView>, k: nat)
    requires
        k <= history(items).len(),
    ensures
        history(without_oldest(items, k)) == history(items).skip(k as int),
    decreases items.len(),
{
    let over = |i: ItemView|
        i.status == ItemStatus::Done || i.status == ItemStatus::Failed || i.status
            == ItemStatus::Cancelled;
    let h = history(items);
    assert(h.skip(0) =~= h);
    if items.len() > 0 && k > 0 {
        let t = items.drop_first();
        let first = seq![items[0]];
        assert(items =~= first + t);
        Seq::filter_distributes_over_add(first, t, over);
        assert(first.drop_last() =~= Seq::<ItemView>::empty());
        reveal_with_fuel(Seq::filter, 2);
        if items[0].status.terminal() {
            assert(first.filter(over) =~= first);
            assert(h =~= first + history(t));
            lemma_oldest_leave(t, (k - 1) as nat);
            assert(history(t).skip(k - 1) =~= h.skip(k as int));
        } else {
            assert(first.filter(over) =~= Seq::<ItemView>::empty());
            assert(h =~= history(t));
            lemma_oldest_leave(t, k);
            let u = without_oldest(t, k);
            Seq::filter_distributes_over_add(first, u, over);
            assert(history(first + u) =~= history(u));
        }
    } else if items.len() == 0 {
        reveal(Seq::filter);
    }
}

/// The history is bounded: a queue of up to two hundred items, or with up to a hundred that are over,
/// stays as it is; of a larger one the hundred newest that are over stay, and all that wait or run.
pub proof fn law_trim_drops_the_oldest(q: QueueState)
    ensures
        q.items.len() <= 200 ==> q.trimmed() == q,
        history(q.items).len() <= 100 ==> q.trimmed() == q,
        q.items.len() > 200 && history(q.items).len() > 100 ==> history(q.trimmed().items)
            == history(q.items).skip(history(q.items).len() - 100),
        q.trimmed().next_id == q.next_id,
{
    lemma_history(q.items);
    let over = count_where(q.items, is_over());
    if q.items.len() > 200 && over > 100 {
        lemma_oldest_leave(q.items, (over - 100) as nat);
    }
}

/// Clearing keeps what waits or runs, in its order, and nothing else.
pub proof fn law_clear_keeps_the_order(q: QueueState)
    ensures
        q.items.filter(is_kept()) == q.items.filter(
            |i: ItemView| i.status == ItemStatus::Pending || i.status == ItemStatus::Active,
        ),
{
    let p = |i: ItemView| i.status == ItemStatus::Pending || i.status == ItemStatus::Active;
    assert(is_kept() =~= p);
}

/// An item is shown under its file name, before that under its title, and before that under its URL.
pub proof fn law_label_is_the_best_known_name(item: ItemView)
    ensures
        item.filename is Some ==> item.label() == item.filename->0,
        item.filename is None && item.title is Some ==> item.label() == item.title->0,
        item.filename is None && item.title is None ==> item.label() == item.url,
{
}

/// A log line is kept behind all earlier ones, of which the oldest leaves only when there are two
/// thousand; nothing else of the item changes.
pub proof fn law_log_keeps_the_lines(item: ItemView, line: Seq<char>)
    ensures
        item.logs.len() < 2000 ==> item.logged(line).logs == item.logs.push(line),
        item.logs.len() == 2000 ==> item.logged(line).logs == item.logs.drop_first().push(line),
        item.logged(line).logs.len() <= 2000,
        (ItemView { logs: item.logs, ..item.logged(line) }) == item,
{
    assert(item.logs.push(line).skip(0) =~= item.logs.push(line));
    if item.logs.len() == 2000 {
        assert(item.logs.push(line).skip(1) =~= item.logs.drop_first().push(line));
    }
}

/// The statuses have names of their own, and an item is over exactly where it is done, failed or
/// cancelled.
pub proof fn law_status_names(s: ItemStatus)
    ensures
        ItemStatus::Pending.text() == "pending"@,
        ItemStatus::Active.text() == "active"@,
        ItemStatus::Done.text() == "done"@,
        ItemStatus::Failed.text() == "failed"@,
        ItemStatus::Cancelled.text() == "cancelled"@,
        s.terminal() <==> s != ItemStatus::Pending && s != ItemStatus::Active,
{
}

/// The item with an id is found wherever there is one, and removing by id takes an item of the asked-for
/// kind alone.
pub proof fn law_items_are_found_by_id(q: QueueState, k: int)
    requires
        q.wf(),
        0 <= k < q.items.len(),
    ensures
        q.holds(q.items[k].id),
        q.item(q.items[k].id) == q.items[k],
        q.index_of(q.items[k].id) == k,
{
    let id = q.items[k].id;
    assert forall|j: int| 0 <= j < k implies !has_id(id)(#[trigger] q.items[j]) by {
        assert(q.items[j].id != q.items[k].id);
    }
    lemma_first_where(q.items, has_id(id), k);
}

/// Before the first report nothing is known of the progress.
pub proof fn law_no_progress_is_known_at_first()
    ensures
        no_progress().status is None,
        no_progress().filename is None,
        no_progress().tmpfilename is None,
        no_progress().downloaded_bytes is None,
        no_progress().total_bytes is None,
        no_progress().total_bytes_estimate is None,
        no_progress().speed is None,
        no_progress().eta is None,
        no_progress().elapsed is None,
        no_progress().fragment_index is None,
        no_progress().fragment_count is None,
        no_progress().percent is None,
        no_progress().percent_str is None,
        no_progress().speed_str is None,
        no_progress().eta_str is None,
        no_progress().share() is None,
{
}

}
