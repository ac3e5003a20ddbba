//! Events that flow from the worker to the connected clients, and the ring buffer that replays
//! recent log lines to a fresh one.
use crate::text;
use std::collections::VecDeque;
use vstd::prelude::*;

verus! {

/// An event for all connected clients. A payload is a finished HTML fragment.
#[derive(Clone, Debug)]
pub enum Event {
    /// Appended to the log.
    Log(String),
    /// Replaces the whole list of cards; sent on connect, after a lag and after a reconcile.
    Queue(String),
    /// Replaces the library list.
    Library(String),
    /// Replaces one card; an empty payload removes it.
    Card { id: u64, html: String },
    /// Puts one card in front of the others.
    CardAdded(String),
    /// Replaces the count text in the header of the cards.
    CardsCount(String),
    /// Replaces the thumbnail slot of the banner.
    StatusThumb(String),
    /// Replaces the title line of the banner; an empty one hides the banner.
    StatusTitle(String),
    /// Replaces the log line of the banner.
    StatusLog(String),
    /// Replaces the fill of the banner's progress bar.
    StatusBar(String),
    /// Replaces the progress text of the banner.
    StatusMeta(String),
    /// Replaces the cancel button of the banner.
    StatusCancel(String),
    /// Shows a short notice.
    Toast(String),
}

/// What a client sees of an event: its name and its payload.
pub struct EventView {
    pub name: Seq<char>,
    pub data: Seq<char>,
}

/// The name of the event that concerns the card `id`.
pub open spec fn card_name(id: u64) -> Seq<char> {
    "card-"@ + text::dec(id as nat)
}

impl View for Event {
    type V = EventView;

    open spec fn view(&self) -> EventView {
        match self {
            Event::Log(s) => EventView { name: "log"@, data: s@ },
            Event::Queue(s) => EventView { name: "queue"@, data: s@ },
            Event::Library(s) => EventView { name: "library"@, data: s@ },
            Event::Card { id, html } => EventView { name: card_name(*id), data: html@ },
            Event::CardAdded(s) => EventView { name: "card-added"@, data: s@ },
            Event::CardsCount(s) => EventView { name: "cards-count"@, data: s@ },
            Event::StatusThumb(s) => EventView { name: "status-thumb"@, data: s@ },
            Event::StatusTitle(s) => EventView { name: "status-title"@, data: s@ },
            Event::StatusLog(s) => EventView { name: "status-log"@, data: s@ },
            Event::StatusBar(s) => EventView { name: "status-bar"@, data: s@ },
            Event::StatusMeta(s) => EventView { name: "status-meta"@, data: s@ },
            Event::StatusCancel(s) => EventView { name: "status-cancel"@, data: s@ },
            Event::Toast(s) => EventView { name: "toast"@, data: s@ },
        }
    }
}

impl Event {
    /// The name that a client listens to. Each card listens to a name of its own.
    pub fn name(&self) -> (r: String)
        ensures
            r@ == self@.name,
    {
        match self {
            Event::Log(_) => "log".to_string(),
            Event::Queue(_) => "queue".to_string(),
            Event::Library(_) => "library".to_string(),
            Event::Card { id, .. } => {
                let mut out = "card-".to_string();
                text::push_dec(&mut out, *id);
                out
            },
            Event::CardAdded(_) => "card-added".to_string(),
            Event::CardsCount(_) => "cards-count".to_string(),
            Event::StatusThumb(_) => "status-thumb".to_string(),
            Event::StatusTitle(_) => "status-title".to_string(),
            Event::StatusLog(_) => "status-log".to_string(),
            Event::StatusBar(_) => "status-bar".to_string(),
            Event::StatusMeta(_) => "status-meta".to_string(),
            Event::StatusCancel(_) => "status-cancel".to_string(),
            Event::Toast(_) => "toast".to_string(),
        }
    }

    /// The HTML payload.
    pub fn data(&self) -> (r: &str)
        ensures
            r@ == self@.data,
    {
        match self {
            Event::Log(s)
            | Event::Queue(s)
            | Event::Library(s)
            | Event::CardAdded(s)
            | Event::CardsCount(s)
            | Event::StatusThumb(s)
            | Event::StatusTitle(s)
            | Event::StatusLog(s)
            | Event::StatusBar(s)
            | Event::StatusMeta(s)
            | Event::StatusCancel(s)
            | Event::Toast(s) => s.as_str(),
            Event::Card { html, .. } => html.as_str(),
        }
    }
}

/// A bounded first-in first-out buffer; the oldest entry leaves when it is full.
#[derive(Debug)]
pub struct RingBuffer<T> {
    cap: usize,
    deque: VecDeque<T>,
}

/// The last `n` entries of `s`.
pub open spec fn last_n<T>(s: Seq<T>, n: nat) -> Seq<T> {
    if s.len() <= n {
        s
    } else {
        s.skip(s.len() - n)
    }
}

impl<T> RingBuffer<T> {
    /// The number of entries that the buffer holds at most.
    pub closed spec fn capacity(&self) -> nat {
        self.cap as nat
    }

    /// The entries, oldest first.
    pub closed spec fn entries(&self) -> Seq<T> {
        self.deque@
    }

    /// The buffer never holds more than its capacity.
    pub open spec fn wf(&self) -> bool {
        self.entries().len() <= self.capacity()
    }

    pub fn new(cap: usize) -> (r: Self)
        ensures
            r.wf(),
            r.capacity() == cap,
            r.entries() == Seq::<T>::empty(),
    {
        let room: usize = if cap < 64 { cap } else { 64 };
        RingBuffer { cap, deque: VecDeque::with_capacity(room) }
    }

    /// Adds an entry; the oldest one leaves where the buffer was full.
    pub fn push(&mut self, item: T)
        requires
            old(self).wf(),
        ensures
            final(self).wf(),
            final(self).capacity() == old(self).capacity(),
            final(self).entries() == last_n(old(self).entries().push(item), old(self).capacity()),
    {
        if self.cap == 0 {
            assert(self.entries() =~= last_n(old(self).entries().push(item), 0));
            return;
        }
        if self.deque.len() >= self.cap {
            let _oldest = self.deque.pop_front();
        }
        self.deque.push_back(item);
        assert(self.entries() =~= last_n(old(self).entries().push(item), old(self).capacity()));
    }

    /// All entries, oldest first.
    pub fn snapshot(&self) -> (r: Vec<&T>)
        ensures
            r@.len() == self.entries().len(),
            forall|i: int| 0 <= i < r@.len() ==> *r@[i] == self.entries()[i],
    {
        let mut out: Vec<&T> = Vec::new();
        let mut i: usize = 0;
        while i < self.deque.len()
            invariant
                i <= self.deque@.len(),
                out@.len() == i,
                forall|j: int| 0 <= j < i ==> *out@[j] == self.deque@[j],
            decreases self.deque@.len() - i,
        {
            out.push(&self.deque[i]);
            i += 1;
        }
        out
    }
}

/// Each kind of event reaches the page under its own name, with its payload as it is, and each card has
/// a name that no other card has.
pub proof fn law_events_reach_their_place(s: String, id: u64, other: u64)
    ensures
        Event::Log(s)@ == (EventView { name: "log"@, data: s@ }),
        Event::Queue(s)@ == (EventView { name: "queue"@, data: s@ }),
        Event::Library(s)@ == (EventView { name: "library"@, data: s@ }),
        Event::CardAdded(s)@ == (EventView { name: "card-added"@, data: s@ }),
        Event::CardsCount(s)@ == (EventView { name: "cards-count"@, data: s@ }),
        Event::StatusThumb(s)@ == (EventView { name: "status-thumb"@, data: s@ }),
        Event::StatusTitle(s)@ == (EventView { name: "status-title"@, data: s@ }),
        Event::StatusLog(s)@ == (EventView { name: "status-log"@, data: s@ }),
        Event::StatusBar(s)@ == (EventView { name: "status-bar"@, data: s@ }),
        Event::StatusMeta(s)@ == (EventView { name: "status-meta"@, data: s@ }),
        Event::StatusCancel(s)@ == (EventView { name: "status-cancel"@, data: s@ }),
        Event::Toast(s)@ == (EventView { name: "toast"@, data: s@ }),
        (Event::Card { id, html: s })@ == (EventView {
            name: "card-"@ + text::dec(id as nat),
            data: s@,
        }),
        card_name(id) == card_name(other) ==> id == other,
{
    if card_name(id) == card_name(other) {
        let p = "card-"@.len() as int;
        assert(card_name(id).skip(p) =~= text::dec(id as nat));
        assert(card_name(other).skip(p) =~= text::dec(other as nat));
        text::lemma_dec_injective(id as nat, other as nat);
    }
}

/// The last entries are an end of the sequence: all of it where it is short enough, and as many as asked
/// for otherwise.
pub proof fn law_last_entries_stay<T>(s: Seq<T>, n: nat)
    ensures
        s.len() <= n ==> last_n(s, n) == s,
        s.len() > n ==> last_n(s, n).len() == n,
        forall|i: int|
            0 <= i < last_n(s, n).len() ==> #[trigger] last_n(s, n)[i] == s[s.len() - last_n(
                s,
                n,
            ).len() + i],
{
}

}
