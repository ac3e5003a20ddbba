//! The HTML fragments and pages that the browser is sent.
use crate::clock;
use crate::clock::Stamp;
use crate::digits;
use crate::double;
use crate::double::Double;
use crate::events::{Event, EventView};
use crate::form;
use crate::json;
use crate::json::Json;
use crate::markup;
use crate::media::{MediaInfo, MediaView};
use crate::number;
use crate::parse;
use crate::parse::{EntryView, FlatEntry};
use crate::state;
use crate::state::{ItemStatus, ItemView, ProgressView, Queue, QueueItem, QueueState};
use crate::text;
use vstd::prelude::*;

verus! {

/// The spacing of doubles at `n`.
pub open spec fn spacing(n: nat) -> nat
    decreases n,
{
    if n < 0x20_0000_0000_0000 {
        1
    } else {
        2 * spacing(n / 2)
    }
}

/// The integer that a double holds for `n`.
pub open spec fn as_double(n: u64) -> nat {
    double::half_even(n as nat, spacing(n as nat)) * spacing(n as nat)
}

/// A byte count for a reader: whole bytes below one KiB, else one digit behind the point in the
/// largest binary unit up to TiB that the count reaches.
pub open spec fn bytes_text(n: u64) -> Seq<char> {
    let f = as_double(n);
    if f < 1024 {
        text::dec(n as nat) + " B"@
    } else if f < 0x10_0000 {
        double::fixed_text(f, 1024, 1) + " KiB"@
    } else if f < 0x4000_0000 {
        double::fixed_text(f, 0x10_0000, 1) + " MiB"@
    } else if f < 0x100_0000_0000 {
        double::fixed_text(f, 0x4000_0000, 1) + " GiB"@
    } else {
        double::fixed_text(f, 0x100_0000_0000, 1) + " TiB"@
    }
}

fn spacing_of(n: u64) -> (r: u64)
    ensures
        r == spacing(n as nat),
        1 <= r <= 4096,
        r > 1 ==> r * 0x10_0000_0000_0000 <= n,
    decreases n,
{
    if n < 0x20_0000_0000_0000 {
        1
    } else {
        let half: u64 = spacing_of(n / 2);
        assert(half <= 2048) by (nonlinear_arith)
            requires
                half > 1 ==> half * 0x10_0000_0000_0000 <= n / 2,
                n <= u64::MAX,
        ;
        2 * half
    }
}

/// Formats a byte count for a reader.
pub fn human_bytes(n: u64) -> (r: String)
    ensures
        r@ == bytes_text(n),
{
    let step: u64 = spacing_of(n);
    let q: u128 = double::divide_half_even(n as u128, step as u128);
    assert(q <= n + 1) by {
        vstd::arithmetic::div_mod::lemma_div_is_ordered_by_denominator(n as int, 1, step as int);
    }
    assert(q * step <= 0x1_0000_0000_0000_0000 * 4096) by (nonlinear_arith)
        requires
            q <= 0x1_0000_0000_0000_0000,
            step <= 4096,
    ;
    let f: u128 = q * step as u128;
    if f < 1024 {
        let mut out = text::decimal(n);
        out.append(" B");
        return out;
    }
    if f < 0x10_0000 {
        in_unit(f, 1024, " KiB")
    } else if f < 0x4000_0000 {
        in_unit(f, 0x10_0000, " MiB")
    } else if f < 0x100_0000_0000 {
        in_unit(f, 0x4000_0000, " GiB")
    } else {
        in_unit(f, 0x100_0000_0000, " TiB")
    }
}

/// `f / unit` with one digit behind the point, and the name of the unit.
fn in_unit(f: u128, unit: u128, name: &str) -> (r: String)
    requires
        f <= 0x2_0000_0000_0000_0000 * 4096,
        1024 <= unit <= 0x100_0000_0000,
        f < 1024 * unit || unit == 0x100_0000_0000,
    ensures
        r@ == double::fixed_text(f as nat, unit as nat, 1) + name@,
{
    proof {
        reveal_with_fuel(digits::pow10, 2);
    }
    let tenths: u128 = double::divide_half_even(f * 10, unit);
    proof {
        let q = (f * 10) / unit as int;
        vstd::arithmetic::div_mod::lemma_fundamental_div_mod((f * 10) as int, unit as int);
        assert(q <= 0x1_0000_0000_0000) by (nonlinear_arith)
            requires
                unit * q <= f * 10,
                f < 1024 * unit || unit == 0x100_0000_0000,
                f <= 0x2_0000_0000_0000_0000 * 4096,
                unit >= 1024,
        ;
    }
    let mut out = double::point(tenths as u64, 1);
    out.append(name);
    out
}

// ---- escaping

/// A character as it stands in the fragments of the banner.
pub open spec fn esc_char(c: char) -> Seq<char> {
    if c == '&' {
        "&amp;"@
    } else if c == '<' {
        "&lt;"@
    } else if c == '>' {
        "&gt;"@
    } else if c == '"' {
        "&quot;"@
    } else if c == '\'' {
        "&#39;"@
    } else {
        seq![c]
    }
}

/// A text as it stands in the fragments of the banner.
pub open spec fn esc_text(s: Seq<char>) -> Seq<char>
    decreases s.len(),
{
    if s.len() == 0 {
        Seq::empty()
    } else {
        esc_text(s.drop_last()) + esc_char(s.last())
    }
}

/// HTML-escapes untrusted text.
pub fn esc(input: &str) -> (r: String)
    ensures
        r@ == esc_text(input@),
{
    let chars: Vec<char> = text::chars_of(input);
    let mut out = String::new();
    let mut i: usize = 0;
    assert(input@.take(0) =~= Seq::<char>::empty());
    while i < chars.len()
        invariant
            i <= chars@.len(),
            chars@ == input@,
            out@ == esc_text(input@.take(i as int)),
        decreases chars@.len() - i,
    {
        let c: char = chars[i];
        let ghost before = out@;
        assert(input@.take(i + 1).drop_last() =~= input@.take(i as int));
        if c == '&' {
            out.append("&amp;");
        } else if c == '<' {
            out.append("&lt;");
        } else if c == '>' {
            out.append("&gt;");
        } else if c == '"' {
            out.append("&quot;");
        } else if c == '\'' {
            out.append("&#39;");
        } else {
            out.push(c);
            assert(out@ =~= before + seq![c]);
        }
        i += 1;
    }
    assert(input@.take(i as int) =~= input@);
    out
}

/// Escaped text holds no tag and ends no attribute.
pub proof fn law_esc_is_inert(s: Seq<char>)
    ensures
        forall|i: int| 0 <= i < esc_text(s).len() ==> !markup::is_markup(#[trigger] esc_text(s)[i]),
    decreases s.len(),
{
    if s.len() > 0 {
        law_esc_is_inert(s.drop_last());
        let a = esc_text(s.drop_last());
        let b = esc_char(s.last());
        reveal_strlit("&amp;");
        reveal_strlit("&lt;");
        reveal_strlit("&gt;");
        reveal_strlit("&quot;");
        reveal_strlit("&#39;");
        assert forall|i: int| 0 <= i < esc_text(s).len() implies !markup::is_markup(
            #[trigger] esc_text(s)[i],
        ) by {
            if i < a.len() {
                assert(esc_text(s)[i] == a[i]);
            } else {
                assert(esc_text(s)[i] == b[i - a.len()]);
            }
        }
    }
}

// ---- numbers for readers

/// A speed in bytes per second; nothing where it is unknown or not above zero.
pub open spec fn speed_text(bytes_per_sec: Option<Double>) -> Seq<char> {
    match bytes_per_sec {
        Some(s) => if s.positive() {
            bytes_text(s.truncated()) + "/s"@
        } else {
            Seq::empty()
        },
        None => Seq::empty(),
    }
}

/// Hours, minutes and seconds as `H:MM:SS`.
pub open spec fn hours_text(s: u64) -> Seq<char> {
    text::dec((s / 3600) as nat) + ":"@ + double::padded(((s % 3600) / 60) as nat, 2) + ":"@
        + double::padded((s % 60) as nat, 2)
}

/// A remaining time in seconds as `MM:SS` or `H:MM:SS`.
pub open spec fn eta_text(eta: Option<Double>) -> Seq<char> {
    match eta {
        Some(e) => if e.positive() || e.zero() {
            let s = e.truncated();
            if s / 3600 > 0 {
                hours_text(s)
            } else {
                double::padded(((s % 3600) / 60) as nat, 2) + ":"@ + double::padded(
                    (s % 60) as nat,
                    2,
                )
            }
        } else {
            Seq::empty()
        },
        None => Seq::empty(),
    }
}

/// A duration in seconds as `M:SS` or `H:MM:SS`.
pub open spec fn duration_text(secs: Option<Double>) -> Seq<char> {
    match secs {
        Some(e) => if e.positive() {
            let s = e.truncated();
            if s / 3600 > 0 {
                hours_text(s)
            } else {
                text::dec(((s % 3600) / 60) as nat) + ":"@ + double::padded((s % 60) as nat, 2)
            }
        } else {
            Seq::empty()
        },
        None => Seq::empty(),
    }
}

/// Formats a speed in bytes per second.
pub fn human_speed(bytes_per_sec: Option<Double>) -> (r: String)
    ensures
        r@ == speed_text(bytes_per_sec),
{
    match bytes_per_sec {
        Some(s) => if s.is_positive() {
            let mut out = human_bytes(s.trunc());
            out.append("/s");
            out
        } else {
            String::new()
        },
        None => String::new(),
    }
}

fn human_hours(s: u64) -> (r: String)
    ensures
        r@ == hours_text(s),
{
    let mut out = text::decimal(s / 3600);
    out.append(":");
    double::push_padded(&mut out, (s % 3600) / 60, 2);
    out.append(":");
    double::push_padded(&mut out, s % 60, 2);
    out
}

/// Formats a remaining time.
pub fn human_eta(eta: Option<Double>) -> (r: String)
    ensures
        r@ == eta_text(eta),
{
    match eta {
        Some(e) => if e.at_least_zero() {
            let s: u64 = e.trunc();
            if s / 3600 > 0 {
                human_hours(s)
            } else {
                let mut out = String::new();
                double::push_padded(&mut out, (s % 3600) / 60, 2);
                assert(out@ =~= double::padded(((s % 3600) / 60) as nat, 2));
                out.append(":");
                double::push_padded(&mut out, s % 60, 2);
                out
            }
        } else {
            String::new()
        },
        None => String::new(),
    }
}

/// Formats a duration.
pub fn human_duration(secs: Option<Double>) -> (r: String)
    ensures
        r@ == duration_text(secs),
{
    match secs {
        Some(e) => if e.is_positive() {
            let s: u64 = e.trunc();
            if s / 3600 > 0 {
                human_hours(s)
            } else {
                let mut out = text::decimal((s % 3600) / 60);
                out.append(":");
                double::push_padded(&mut out, s % 60, 2);
                out
            }
        } else {
            String::new()
        },
        None => String::new(),
    }
}

// ---- the banner

/// The six slots of the banner, each as the inner HTML of one element. An empty slot collapses, and
/// an empty title hides the banner.
#[derive(Debug, Clone, PartialEq, Eq)]
pub struct StatusParts {
    pub thumb: String,
    pub title: String,
    pub log: String,
    pub bar: String,
    pub meta: String,
    pub cancel: String,
}

#[verifier::ext_equal]
pub struct StatusView {
    pub thumb: Seq<char>,
    pub title: Seq<char>,
    pub log: Seq<char>,
    pub bar: Seq<char>,
    pub meta: Seq<char>,
    pub cancel: Seq<char>,
}

impl View for StatusParts {
    type V = StatusView;

    open spec fn view(&self) -> StatusView {
        StatusView {
            thumb: self.thumb@,
            title: self.title@,
            log: self.log@,
            bar: self.bar@,
            meta: self.meta@,
            cancel: self.cancel@,
        }
    }
}

/// The banner with nothing to show.
pub open spec fn idle_banner() -> StatusView {
    StatusView {
        thumb: Seq::empty(),
        title: Seq::empty(),
        log: Seq::empty(),
        bar: Seq::empty(),
        meta: Seq::empty(),
        cancel: Seq::empty(),
    }
}

impl Default for StatusParts {
    fn default() -> (r: Self)
        ensures
            r@ == idle_banner(),
    {
        StatusParts {
            thumb: String::new(),
            title: String::new(),
            log: String::new(),
            bar: String::new(),
            meta: String::new(),
            cancel: String::new(),
        }
    }
}

/// The title while items wait and none is active.
pub open spec fn waiting_html(pending: nat) -> Seq<char> {
    "<span class=\"bn-title\">Waiting&hellip;</span><span class=\"bn-queued\">"@
        + text::dec(pending)
        + " queued</span>"@
}

/// The title while items wait and none is active.
fn waiting(pending: usize) -> (r: String)
    ensures
        r@ == waiting_html(pending as nat),
{
    let mut out = "<span class=\"bn-title\">Waiting&hellip;</span><span class=\"bn-queued\">".to_string();
    text::push_dec(&mut out, pending as u64);
    out.append(" queued</span>");
    out
}

/// The badge that counts the waiting items.
pub open spec fn queued_badge_html(pending: nat) -> Seq<char> {
    "<span class=\"bn-queued\">"@
        + text::dec(pending)
        + " queued</span>"@
}

/// The badge that counts the waiting items.
fn queued_badge(pending: usize) -> (r: String)
    ensures
        r@ == queued_badge_html(pending as nat),
{
    let mut out = "<span class=\"bn-queued\">".to_string();
    text::push_dec(&mut out, pending as u64);
    out.append(" queued</span>");
    out
}

/// The thumbnail in the banner.
pub open spec fn banner_img_html(name: Seq<char>) -> Seq<char> {
    "<img class=\"bn-img\" src=\"/thumb/"@
        + esc_text(name)
        + "\" alt=\"\" loading=\"lazy\">"@
}

/// The thumbnail in the banner.
fn banner_img(name: &str) -> (r: String)
    ensures
        r@ == banner_img_html(name@),
{
    let mut out = "<img class=\"bn-img\" src=\"/thumb/".to_string();
    out.append(esc(name).as_str());
    out.append("\" alt=\"\" loading=\"lazy\">");
    out
}

/// The cancel button of the banner.
pub open spec fn banner_cancel_html(id: u64) -> Seq<char> {
    "<button class=\"bn-cancel\" hx-post=\"/cancel/"@
        + text::dec(id as nat)
        + "\" hx-target=\"#ack\" hx-swap=\"innerHTML\" title=\"cancel download\"><img class=\"bn-cancel-icon\" src=\"/static/icons/stop.svg\" alt=\"\" width=\"16\" height=\"16\" loading=\"lazy\"><span class=\"bn-cancel-text\">cancel</span></button>"@
}

/// The cancel button of the banner.
fn banner_cancel(id: u64) -> (r: String)
    ensures
        r@ == banner_cancel_html(id),
{
    let mut out = "<button class=\"bn-cancel\" hx-post=\"/cancel/".to_string();
    text::push_dec(&mut out, id);
    out.append("\" hx-target=\"#ack\" hx-swap=\"innerHTML\" title=\"cancel download\"><img class=\"bn-cancel-icon\" src=\"/static/icons/stop.svg\" alt=\"\" width=\"16\" height=\"16\" loading=\"lazy\"><span class=\"bn-cancel-text\">cancel</span></button>");
    out
}

/// The latest log line in the banner.
pub open spec fn banner_log_html(line: Seq<char>) -> Seq<char> {
    "<div class=\"bn-log\">"@
        + esc_text(text::cut_end(line, '\n'))
        + "</div>"@
}

/// The latest log line in the banner.
fn banner_log(line: &str) -> (r: String)
    ensures
        r@ == banner_log_html(line@),
{
    let mut out = "<div class=\"bn-log\">".to_string();
    out.append(esc(text::trim_end_matches(line, '\n')).as_str());
    out.append("</div>");
    out
}

/// The fill of the progress bar.
pub open spec fn banner_bar_html(width: Double) -> Seq<char> {
    "<i style=\"width:"@
        + width.fixed(0)
        + "%\"></i>"@
}

/// The fill of the progress bar.
fn banner_bar(width: Double) -> (r: String)
    ensures
        r@ == banner_bar_html(width),
{
    let mut out = "<i style=\"width:".to_string();
    out.append(width.to_fixed(0).as_str());
    out.append("%\"></i>");
    out
}

/// The progress text of the banner.
pub open spec fn banner_meta_html(left: Seq<char>, percent: Double, right: Seq<char>) -> Seq<char> {
    "<span class=\"bn-left\">"@
        + left
        + "</span><span class=\"bn-pct\">"@
        + percent.fixed(0)
        + "%</span><span class=\"bn-right\">"@
        + right
        + "</span>"@
}

/// The progress text of the banner.
fn banner_meta(left: &str, percent: Double, right: &str) -> (r: String)
    ensures
        r@ == banner_meta_html(left@, percent, right@),
{
    let mut out = "<span class=\"bn-left\">".to_string();
    out.append(left);
    out.append("</span><span class=\"bn-pct\">");
    out.append(percent.to_fixed(0).as_str());
    out.append("%</span><span class=\"bn-right\">");
    out.append(right);
    out.append("</span>");
    out
}

/// The title of the active download.
pub open spec fn banner_label_html(label: Seq<char>) -> Seq<char> {
    "<span class=\"bn-title\">"@
        + esc_text(label)
        + "</span>"@
}

/// The title of the active download.
fn banner_label(label: &str) -> (r: String)
    ensures
        r@ == banner_label_html(label@),
{
    let mut out = "<span class=\"bn-title\">".to_string();
    out.append(esc(label).as_str());
    out.append("</span>");
    out
}

/// Two texts with a middle dot between them; only one where the other is empty.
pub open spec fn dotted(a: Seq<char>, b: Seq<char>) -> Seq<char> {
    if a.len() == 0 {
        b
    } else if b.len() == 0 {
        a
    } else {
        a + " &middot; "@ + b
    }
}

fn join_dotted(a: String, b: String) -> (r: String)
    ensures
        r@ == dotted(a@, b@),
{
    if a.as_str().unicode_len() == 0 {
        b
    } else if b.as_str().unicode_len() == 0 {
        a
    } else {
        let mut out = a;
        out.append(" &middot; ");
        out.append(b.as_str());
        out
    }
}

/// The remaining time with its caption.
pub open spec fn eta_label(eta: Option<Double>) -> Seq<char> {
    if eta_text(eta).len() == 0 {
        Seq::empty()
    } else {
        "ETA "@ + eta_text(eta)
    }
}

fn labelled_eta(eta: Option<Double>) -> (r: String)
    ensures
        r@ == eta_label(eta),
{
    let t: String = human_eta(eta);
    if t.as_str().unicode_len() == 0 {
        return String::new();
    }
    let mut out = "ETA ".to_string();
    out.append(t.as_str());
    out
}

/// The bytes that are done, of the total where that is known.
pub open spec fn bytes_done(p: ProgressView) -> Seq<char> {
    match p.downloaded_bytes {
        None => Seq::empty(),
        Some(done) => match p.total() {
            Some(total) => if total.truncated() > 0 {
                bytes_text(done.truncated()) + " / "@ + bytes_text(total.truncated())
            } else {
                bytes_text(done.truncated())
            },
            None => bytes_text(done.truncated()),
        },
    }
}

fn human_done(p: &state::Progress) -> (r: String)
    ensures
        r@ == bytes_done(p@),
{
    let done: Double = match p.downloaded_bytes {
        Some(d) => d,
        None => {
            return String::new();
        },
    };
    let total: Option<Double> = match p.total_bytes {
        Some(t) => Some(t),
        None => p.total_bytes_estimate,
    };
    let mut out = human_bytes(done.trunc());
    if let Some(t) = total {
        let n: u64 = t.trunc();
        if n > 0 {
            out.append(" / ");
            out.append(human_bytes(n).as_str());
        }
    }
    out
}

/// The percentage that is shown; zero where none is known.
pub open spec fn shown_percent(p: Option<ProgressView>) -> Double {
    match p {
        Some(p) => match p.share() {
            Some(v) => v,
            None => Double { bits: 0 },
        },
        None => Double { bits: 0 },
    }
}

/// The banner of an active download, with `pending` more waiting.
pub open spec fn active_banner(item: ItemView, pending: nat) -> StatusView {
    let percent = shown_percent(item.progress);
    let speed = match item.progress {
        Some(p) => speed_text(p.speed),
        None => Seq::empty(),
    };
    let eta = match item.progress {
        Some(p) => eta_label(p.eta),
        None => Seq::empty(),
    };
    let bytes = match item.progress {
        Some(p) => bytes_done(p),
        None => Seq::empty(),
    };
    StatusView {
        thumb: match item.thumbnail {
            Some(name) => banner_img_html(name),
            None => "<div class=\"bn-img bn-img-placeholder\"></div>"@,
        },
        title: if pending > 0 {
            banner_label_html(item.label()) + queued_badge_html(pending)
        } else {
            banner_label_html(item.label())
        },
        log: if item.logs.len() > 0 {
            banner_log_html(item.logs.last())
        } else {
            Seq::empty()
        },
        bar: banner_bar_html(percent.held()),
        meta: banner_meta_html(
            dotted(duration_text(item.duration), eta),
            percent,
            dotted(speed, bytes),
        ),
        cancel: banner_cancel_html(item.id),
    }
}

/// The banner: empty where nothing is active or waiting, only a title where items wait, and all
/// six slots for an active download.
pub open spec fn banner(active: Option<ItemView>, pending: nat) -> StatusView {
    match active {
        Some(item) => active_banner(item, pending),
        None => if pending == 0 {
            idle_banner()
        } else {
            StatusView { title: waiting_html(pending), ..idle_banner() }
        },
    }
}

pub open spec fn opt_item(o: Option<&QueueItem>) -> Option<ItemView> {
    match o {
        Some(i) => Some(i@),
        None => None,
    }
}

impl StatusParts {
    /// The six slots of the banner for the active item and the number of waiting ones.
    pub fn new(active: Option<&QueueItem>, pending: usize) -> (r: StatusParts)
        ensures
            r@ == banner(opt_item(active), pending as nat),
    {
        let item: &QueueItem = match active {
            Some(i) => i,
            None => {
                let mut r = StatusParts::default();
                if pending > 0 {
                    r.title = waiting(pending);
                }
                return r;
            },
        };
        let mut percent: Double = Double { bits: 0 };
        let mut speed = String::new();
        let mut eta = String::new();
        let mut bytes = String::new();
        if let Some(p) = &item.progress {
            if let Some(v) = p.percent() {
                percent = v;
            }
            speed = human_speed(p.speed);
            eta = labelled_eta(p.eta);
            bytes = human_done(p);
        }
        let thumb = match &item.thumbnail {
            Some(name) => banner_img(name.as_str()),
            None => "<div class=\"bn-img bn-img-placeholder\"></div>".to_string(),
        };
        let mut title = banner_label(item.label());
        if pending > 0 {
            title.append(queued_badge(pending).as_str());
        }
        let n: usize = item.logs.len();
        let log = if n > 0 {
            assert(item@.logs.last() == item.logs@[n - 1]@);
            banner_log(item.logs[n - 1].as_str())
        } else {
            String::new()
        };
        let left: String = join_dotted(human_duration(item.duration), eta);
        let right: String = join_dotted(speed, bytes);
        StatusParts {
            thumb,
            title,
            log,
            bar: banner_bar(percent.clamp_percent()),
            meta: banner_meta(left.as_str(), percent, right.as_str()),
            cancel: banner_cancel(item.id),
        }
    }
}

/// Events by what a client sees of them.
pub open spec fn event_views(v: Seq<Event>) -> Seq<EventView> {
    v.map_values(|e: Event| e@)
}

/// The events that fill the six slots of the banner, in the order of the slots.
pub open spec fn banner_events(b: StatusView) -> Seq<EventView> {
    seq![
        EventView { name: "status-thumb"@, data: b.thumb },
        EventView { name: "status-title"@, data: b.title },
        EventView { name: "status-log"@, data: b.log },
        EventView { name: "status-bar"@, data: b.bar },
        EventView { name: "status-meta"@, data: b.meta },
        EventView { name: "status-cancel"@, data: b.cancel },
    ]
}

/// The six slots of the banner as events, in the order of the slots.
pub fn status_events(active: Option<&QueueItem>, pending: usize) -> (r: Vec<Event>)
    ensures
        event_views(r@) == banner_events(banner(opt_item(active), pending as nat)),
{
    let p = StatusParts::new(active, pending);
    let r: Vec<Event> = vec![
        Event::StatusThumb(p.thumb),
        Event::StatusTitle(p.title),
        Event::StatusLog(p.log),
        Event::StatusBar(p.bar),
        Event::StatusMeta(p.meta),
        Event::StatusCancel(p.cancel),
    ];
    assert(event_views(r@) =~= banner_events(banner(opt_item(active), pending as nat)));
    r
}

// ---- the cards

/// The thumbnail of a card.
pub open spec fn card_img_html(name: Seq<char>) -> Seq<char> {
    "<img class=\"card-img\" src=\"/thumb/"@
        + markup::percent(name)
        + "\" alt=\"\" loading=\"lazy\">"@
}

/// The thumbnail of a card.
fn card_img(name: &str) -> (r: String)
    ensures
        r@ == card_img_html(name@),
{
    let mut out = "<img class=\"card-img\" src=\"/thumb/".to_string();
    out.append(markup::url(name).as_str());
    out.append("\" alt=\"\" loading=\"lazy\">");
    out
}

/// The thumbnail of a card, or what stands in its place.
pub open spec fn card_thumb_html(o: Option<Seq<char>>) -> Seq<char> {
    match o {
        Some(name) => card_img_html(name),
        None => "<span class=\"card-img card-img-placeholder\"></span>"@,
    }
}

fn card_thumb(o: &Option<String>) -> (r: String)
    ensures
        r@ == card_thumb_html(text::opt(*o)),
{
    match o {
        Some(name) => card_img(name.as_str()),
        None => "<span class=\"card-img card-img-placeholder\"></span>".to_string(),
    }
}

/// The duration on a card.
pub open spec fn card_dur_html(dur: Seq<char>) -> Seq<char> {
    "<span class=\"card-dur\">"@
        + dur
        + "</span>"@
}

/// The duration on a card.
fn card_dur(dur: &str) -> (r: String)
    ensures
        r@ == card_dur_html(dur@),
{
    let mut out = "<span class=\"card-dur\">".to_string();
    out.append(dur);
    out.append("</span>");
    out
}

/// The error on a card.
pub open spec fn card_error_line_html(msg: Seq<char>) -> Seq<char> {
    "<span class=\"card-error\">"@
        + markup::escaped(msg)
        + "</span>"@
}

/// The error on a card.
fn card_error_line(msg: &str) -> (r: String)
    ensures
        r@ == card_error_line_html(msg@),
{
    let mut out = "<span class=\"card-error\">".to_string();
    out.append(markup::html(msg).as_str());
    out.append("</span>");
    out
}

/// The error on a card, where there is one.
pub open spec fn card_error_html(o: Option<Seq<char>>) -> Seq<char> {
    match o {
        Some(s) => card_error_line_html(s),
        None => Seq::empty(),
    }
}

fn card_error(o: &Option<String>) -> (r: String)
    ensures
        r@ == card_error_html(text::opt(*o)),
{
    match o {
        Some(s) => card_error_line(s.as_str()),
        None => String::new(),
    }
}

/// The actions for a file: download, open and delete.
pub open spec fn file_actions_html(id: u64, name: Seq<char>) -> Seq<char> {
    "<a class=\"card-btn\" href=\"/file/"@
        + markup::percent(name)
        + "?download=1\" title=\"download to this device\"><img class=\"card-icon\" src=\"/static/icons/download.svg\" alt=\"\" width=\"16\" height=\"16\" loading=\"lazy\"></a><a class=\"card-btn\" href=\"/file/"@
        + markup::percent(name)
        + "?inline=1\" target=\"_blank\" rel=\"noopener\" title=\"open/preview\"><img class=\"card-icon\" src=\"/static/icons/play.svg\" alt=\"\" width=\"16\" height=\"16\" loading=\"lazy\"></a><button class=\"card-btn\" hx-post=\"/delete-item/"@
        + text::dec(id as nat)
        + "\" hx-target=\"#ack\" hx-swap=\"innerHTML\" hx-confirm=\"Delete "@
        + markup::escaped(name)
        + " from the server?\" title=\"delete from server\"><img class=\"card-icon\" src=\"/static/icons/trash.svg\" alt=\"\" width=\"16\" height=\"16\" loading=\"lazy\"></button>"@
}

/// The actions for a file: download, open and delete.
fn file_actions(id: u64, name: &str) -> (r: String)
    ensures
        r@ == file_actions_html(id, name@),
{
    let mut out = "<a class=\"card-btn\" href=\"/file/".to_string();
    out.append(markup::url(name).as_str());
    out.append("?download=1\" title=\"download to this device\"><img class=\"card-icon\" src=\"/static/icons/download.svg\" alt=\"\" width=\"16\" height=\"16\" loading=\"lazy\"></a><a class=\"card-btn\" href=\"/file/");
    out.append(markup::url(name).as_str());
    out.append("?inline=1\" target=\"_blank\" rel=\"noopener\" title=\"open/preview\"><img class=\"card-icon\" src=\"/static/icons/play.svg\" alt=\"\" width=\"16\" height=\"16\" loading=\"lazy\"></a><button class=\"card-btn\" hx-post=\"/delete-item/");
    text::push_dec(&mut out, id);
    out.append("\" hx-target=\"#ack\" hx-swap=\"innerHTML\" hx-confirm=\"Delete ");
    out.append(markup::html(name).as_str());
    out.append(" from the server?\" title=\"delete from server\"><img class=\"card-icon\" src=\"/static/icons/trash.svg\" alt=\"\" width=\"16\" height=\"16\" loading=\"lazy\"></button>");
    out
}

/// The action for a download that waits or runs: cancel.
pub open spec fn cancel_action_html(id: u64) -> Seq<char> {
    "<button class=\"card-btn\" hx-post=\"/cancel/"@
        + text::dec(id as nat)
        + "\" hx-target=\"#ack\" hx-swap=\"innerHTML\" title=\"cancel download\"><img class=\"card-icon\" src=\"/static/icons/stop.svg\" alt=\"\" width=\"16\" height=\"16\" loading=\"lazy\"></button>"@
}

/// The action for a download that waits or runs: cancel.
fn cancel_action(id: u64) -> (r: String)
    ensures
        r@ == cancel_action_html(id),
{
    let mut out = "<button class=\"card-btn\" hx-post=\"/cancel/".to_string();
    text::push_dec(&mut out, id);
    out.append("\" hx-target=\"#ack\" hx-swap=\"innerHTML\" title=\"cancel download\"><img class=\"card-icon\" src=\"/static/icons/stop.svg\" alt=\"\" width=\"16\" height=\"16\" loading=\"lazy\"></button>");
    out
}

/// The action that queues a download again.
pub open spec fn retry_action_html(id: u64) -> Seq<char> {
    "<button class=\"card-btn\" hx-post=\"/retry/"@
        + text::dec(id as nat)
        + "\" hx-target=\"#ack\" hx-swap=\"innerHTML\" title=\"retry download\"><img class=\"card-icon\" src=\"/static/icons/retry.svg\" alt=\"\" width=\"16\" height=\"16\" loading=\"lazy\"></button>"@
}

/// The action that queues a download again.
fn retry_action(id: u64) -> (r: String)
    ensures
        r@ == retry_action_html(id),
{
    let mut out = "<button class=\"card-btn\" hx-post=\"/retry/".to_string();
    text::push_dec(&mut out, id);
    out.append("\" hx-target=\"#ack\" hx-swap=\"innerHTML\" title=\"retry download\"><img class=\"card-icon\" src=\"/static/icons/retry.svg\" alt=\"\" width=\"16\" height=\"16\" loading=\"lazy\"></button>");
    out
}

/// The action that removes an item without a file.
pub open spec fn forget_action_html(id: u64) -> Seq<char> {
    "<button class=\"card-btn\" hx-post=\"/delete-item/"@
        + text::dec(id as nat)
        + "\" hx-target=\"#ack\" hx-swap=\"innerHTML\" title=\"remove from history\"><img class=\"card-icon\" src=\"/static/icons/trash.svg\" alt=\"\" width=\"16\" height=\"16\" loading=\"lazy\"></button>"@
}

/// The action that removes an item without a file.
fn forget_action(id: u64) -> (r: String)
    ensures
        r@ == forget_action_html(id),
{
    let mut out = "<button class=\"card-btn\" hx-post=\"/delete-item/".to_string();
    text::push_dec(&mut out, id);
    out.append("\" hx-target=\"#ack\" hx-swap=\"innerHTML\" title=\"remove from history\"><img class=\"card-icon\" src=\"/static/icons/trash.svg\" alt=\"\" width=\"16\" height=\"16\" loading=\"lazy\"></button>");
    out
}

/// The actions of a card: those for the file of a finished download, cancel while it waits or
/// runs, and retry or remove after it failed.
pub open spec fn card_actions_html(status: ItemStatus, id: u64, name: Option<Seq<char>>) -> Seq<
    char,
> {
    match (status, name) {
        (ItemStatus::Done, Some(f)) => file_actions_html(id, f),
        (ItemStatus::Done, None) => forget_action_html(id),
        (ItemStatus::Pending, _) => cancel_action_html(id),
        (ItemStatus::Active, _) => cancel_action_html(id),
        (ItemStatus::Failed, _) => retry_action_html(id) + forget_action_html(id),
        (ItemStatus::Cancelled, _) => retry_action_html(id) + forget_action_html(id),
    }
}

fn card_actions(status: ItemStatus, id: u64, name: &Option<String>) -> (r: String)
    ensures
        r@ == card_actions_html(status, id, text::opt(*name)),
{
    match status {
        ItemStatus::Done => match name {
            Some(f) => file_actions(id, f.as_str()),
            None => forget_action(id),
        },
        ItemStatus::Pending | ItemStatus::Active => cancel_action(id),
        ItemStatus::Failed | ItemStatus::Cancelled => {
            let mut out = retry_action(id);
            out.append(forget_action(id).as_str());
            out
        },
    }
}

/// The duration on a card, where it is known.
pub open spec fn card_duration_html(secs: Option<Double>) -> Seq<char> {
    if duration_text(secs).len() == 0 {
        Seq::empty()
    } else {
        card_dur_html(duration_text(secs))
    }
}

fn card_duration(secs: Option<Double>) -> (r: String)
    ensures
        r@ == card_duration_html(secs),
{
    let d: String = human_duration(secs);
    if d.as_str().unicode_len() == 0 {
        String::new()
    } else {
        card_dur(d.as_str())
    }
}

/// Renders the card of a video. Its root listens to the events of this card alone.
#[verifier::opaque]
pub open spec fn card_html(item: ItemView) -> Seq<char> {
    "<article class=\"card card-"@
        + item.status.text()
        + "\" id=\"card-"@
        + text::dec(item.id as nat)
        + "\" sse-swap=\"card-"@
        + text::dec(item.id as nat)
        + "\" hx-swap=\"outerHTML\" data-id=\""@
        + text::dec(item.id as nat)
        + "\"><a class=\"card-link\" href=\"/item/"@
        + text::dec(item.id as nat)
        + "\" target=\"_blank\" rel=\"noopener\" aria-label=\""@
        + markup::escaped(item.label())
        + "\"></a><div class=\"card-thumb\">"@
        + card_thumb_html(item.thumbnail)
        + "<span class=\"card-badge badge-"@
        + item.status.text()
        + "\">"@
        + item.status.text()
        + "</span>"@
        + card_duration_html(item.duration)
        + "<span class=\"card-overlay\">"@
        + card_actions_html(item.status, item.id, item.filename)
        + "</span></div><div class=\"card-body\"><span class=\"card-label\">"@
        + markup::escaped(item.label())
        + "</span>"@
        + card_error_html(item.error)
        + "</div></article>"@
}

/// Renders the card of a video. Its root listens to the events of this card alone.
pub fn render_card(item: &QueueItem) -> (r: String)
    ensures
        r@ == card_html(item@),
{
    proof {
        reveal(card_html);
    }
    let mut out = "<article class=\"card card-".to_string();
    out.append(item.status.as_str());
    out.append("\" id=\"card-");
    text::push_dec(&mut out, item.id);
    out.append("\" sse-swap=\"card-");
    text::push_dec(&mut out, item.id);
    out.append("\" hx-swap=\"outerHTML\" data-id=\"");
    text::push_dec(&mut out, item.id);
    out.append("\"><a class=\"card-link\" href=\"/item/");
    text::push_dec(&mut out, item.id);
    out.append("\" target=\"_blank\" rel=\"noopener\" aria-label=\"");
    out.append(markup::html(item.label()).as_str());
    out.append("\"></a><div class=\"card-thumb\">");
    out.append(card_thumb(&item.thumbnail).as_str());
    out.append("<span class=\"card-badge badge-");
    out.append(item.status.as_str());
    out.append("\">");
    out.append(item.status.as_str());
    out.append("</span>");
    out.append(card_duration(item.duration).as_str());
    out.append("<span class=\"card-overlay\">");
    out.append(card_actions(item.status, item.id, &item.filename).as_str());
    out.append("</span></div><div class=\"card-body\"><span class=\"card-label\">");
    out.append(markup::html(item.label()).as_str());
    out.append("</span>");
    out.append(card_error(&item.error).as_str());
    out.append("</div></article>");
    out
}

/// The count in the header of the cards: `N total, M pending`, and nothing for an empty queue.
pub open spec fn count_html(total: nat, pending: nat) -> Seq<char> {
    if total == 0 {
        Seq::empty()
    } else {
        text::dec(total) + " total, "@ + text::dec(pending) + " pending"@
    }
}

/// Renders the count in the header of the cards.
pub fn render_cards_count(total: usize, pending: usize) -> (r: String)
    ensures
        r@ == count_html(total as nat, pending as nat),
{
    if total == 0 {
        return String::new();
    }
    let mut out = text::decimal(total as u64);
    out.append(" total, ");
    text::push_dec(&mut out, pending as u64);
    out.append(" pending");
    out
}

/// The cards of a queue, newest first.
pub open spec fn cards_html(items: Seq<ItemView>) -> Seq<char>
    decreases items.len(),
{
    if items.len() == 0 {
        Seq::empty()
    } else {
        card_html(items.last()) + cards_html(items.drop_last())
    }
}

fn render_cards(items: &Vec<QueueItem>) -> (r: String)
    ensures
        r@ == cards_html(state::item_views(items@)),
{
    let ghost views = state::item_views(items@);
    let mut out = String::new();
    let mut i: usize = items.len();
    assert(views.take(i as int) =~= views);
    assert(out@ + cards_html(views.take(i as int)) =~= cards_html(views));
    while i > 0
        invariant
            i <= items@.len(),
            views == state::item_views(items@),
            out@ + cards_html(views.take(i as int)) == cards_html(views),
        decreases i,
    {
        i -= 1;
        let card: String = render_card(&items[i]);
        proof {
            let t = views.take(i + 1);
            assert(t.last() == items@[i as int]@);
            assert(t.drop_last() =~= views.take(i as int));
            assert(out@ + (card@ + cards_html(views.take(i as int))) =~= out@ + card@
                + cards_html(views.take(i as int)));
        }
        out.append(card.as_str());
    }
    assert(views.take(0) =~= Seq::<ItemView>::empty());
    assert(out@ =~= cards_html(views));
    out
}

/// Renders the whole list of cards with its header. The hint for an empty list is always there; the style sheet hides it.
pub open spec fn queue_html(q: QueueState) -> Seq<char> {
    "<div class=\"cards-head\"><h2 class=\"cards-title\">Videos</h2><span id=\"cards-count\" class=\"cards-count\" sse-swap=\"cards-count\" hx-swap=\"innerHTML\">"@
        + count_html(q.items.len(), q.pending())
        + "</span></div><div id=\"cards-list\" class=\"cards-list\" sse-swap=\"card-added\" hx-swap=\"afterbegin\">"@
        + cards_html(q.items)
        + "<p class=\"empty\">no videos yet</p></div>"@
}

/// Renders the whole list of cards with its header. The hint for an empty list is always there; the style sheet hides it.
pub fn render_queue(queue: &Queue) -> (r: String)
    ensures
        r@ == queue_html(queue@),
{
    let mut out = "<div class=\"cards-head\"><h2 class=\"cards-title\">Videos</h2><span id=\"cards-count\" class=\"cards-count\" sse-swap=\"cards-count\" hx-swap=\"innerHTML\">".to_string();
    out.append(render_cards_count(queue.items.len(), queue.count_pending()).as_str());
    out.append("</span></div><div id=\"cards-list\" class=\"cards-list\" sse-swap=\"card-added\" hx-swap=\"afterbegin\">");
    out.append(render_cards(&queue.items).as_str());
    out.append("<p class=\"empty\">no videos yet</p></div>");
    out
}

// ---- log lines

/// Renders one log line, without line ends behind it.
pub open spec fn log_line_html(line: Seq<char>) -> Seq<char> {
    "<div class=\"log-line\">"@
        + markup::escaped(text::cut_end(line, '\n'))
        + "</div>"@
}

/// Renders one log line, without line ends behind it.
pub fn render_log_line(line: &str) -> (r: String)
    ensures
        r@ == log_line_html(line@),
{
    let mut out = "<div class=\"log-line\">".to_string();
    out.append(markup::html(text::trim_end_matches(line, '\n')).as_str());
    out.append("</div>");
    out
}

/// Log lines one after the other.
pub open spec fn each_line_html(lines: Seq<Seq<char>>) -> Seq<char>
    decreases lines.len(),
{
    if lines.len() == 0 {
        Seq::empty()
    } else {
        each_line_html(lines.drop_last()) + log_line_html(lines.last())
    }
}

/// The log of an item, or a hint where it is empty.
pub open spec fn log_lines_html(lines: Seq<Seq<char>>) -> Seq<char> {
    if lines.len() == 0 {
        "<div class=\"log-empty\">(no output yet)</div>"@
    } else {
        each_line_html(lines)
    }
}

/// Renders the log of an item.
pub fn render_log_lines(lines: &[String]) -> (r: String)
    ensures
        r@ == log_lines_html(text::list(lines@)),
{
    if lines.len() == 0 {
        return "<div class=\"log-empty\">(no output yet)</div>".to_string();
    }
    let ghost all = text::list(lines@);
    let mut out = String::new();
    let mut i: usize = 0;
    assert(all.take(0) =~= Seq::<Seq<char>>::empty());
    while i < lines.len()
        invariant
            i <= lines@.len(),
            all == text::list(lines@),
            out@ == each_line_html(all.take(i as int)),
        decreases lines@.len() - i,
    {
        proof {
            let t = all.take(i + 1);
            assert(t.drop_last() =~= all.take(i as int));
            assert(t.last() == lines@[i as int]@);
        }
        out.append(render_log_line(lines[i].as_str()).as_str());
        i += 1;
    }
    assert(all.take(i as int) =~= all);
    out
}

/// Renders log lines for replay, one fragment each.
pub fn snapshot_log_lines(lines: &[&String]) -> (r: Vec<String>)
    ensures
        r@.len() == lines@.len(),
        forall|i: int| 0 <= i < r@.len() ==> (#[trigger] r@[i])@ == log_line_html(lines@[i]@),
{
    let mut out: Vec<String> = Vec::new();
    let mut i: usize = 0;
    while i < lines.len()
        invariant
            i <= lines@.len(),
            out@.len() == i,
            forall|j: int| 0 <= j < i ==> (#[trigger] out@[j])@ == log_line_html(lines@[j]@),
        decreases lines@.len() - i,
    {
        out.push(render_log_line(lines[i].as_str()));
        i += 1;
    }
    out
}

// ---- the details page

/// The video stream for a reader: codec, size and frame rate.
pub open spec fn video_text(m: MediaView) -> Option<Seq<char>> {
    match m.video_codec {
        None => None,
        Some(codec) => {
            let sized = match m.resolution() {
                Some(r) => codec + " \u{b7} "@ + r,
                None => codec,
            };
            Some(
                match m.fps {
                    Some(f) => sized + " \u{b7} "@ + f.fixed(2) + " fps"@,
                    None => sized,
                },
            )
        },
    }
}

/// Formats the video stream; nothing where there is none.
pub fn media_video_str(m: &MediaInfo) -> (r: Option<String>)
    ensures
        text::opt(r) == video_text(m@),
{
    match &m.video_codec {
        None => None,
        Some(codec) => {
            let mut out = codec.clone();
            if let Some(res) = m.resolution_str() {
                out.append(" \u{b7} ");
                out.append(res.as_str());
            }
            if let Some(f) = m.fps {
                out.append(" \u{b7} ");
                out.append(f.to_fixed(2).as_str());
                out.append(" fps");
            }
            Some(out)
        },
    }
}

/// A row of the details.
pub open spec fn meta_row_html(name: Seq<char>, value: Seq<char>) -> Seq<char> {
    "<dt>"@
        + name
        + "</dt><dd>"@
        + markup::escaped(value)
        + "</dd>"@
}

/// A row of the details.
fn meta_row(name: &str, value: &str) -> (r: String)
    ensures
        r@ == meta_row_html(name@, value@),
{
    let mut out = "<dt>".to_string();
    out.append(name);
    out.append("</dt><dd>");
    out.append(markup::html(value).as_str());
    out.append("</dd>");
    out
}

/// A row of the details, where there is a value.
pub open spec fn opt_row_html(name: Seq<char>, value: Option<Seq<char>>) -> Seq<char> {
    match value {
        Some(v) => if v.len() == 0 {
            Seq::empty()
        } else {
            meta_row_html(name, v)
        },
        None => Seq::empty(),
    }
}

fn opt_row(name: &str, value: Option<String>) -> (r: String)
    ensures
        r@ == opt_row_html(name@, text::opt(value)),
{
    match value {
        Some(v) => if v.as_str().unicode_len() == 0 {
            String::new()
        } else {
            meta_row(name, v.as_str())
        },
        None => String::new(),
    }
}

/// The time at which an item was enqueued, to the minute; nothing where it has no text.
pub open spec fn enqueued_text(t: Stamp) -> Seq<char> {
    match clock::described_text(t.nanos, t.offset, "[year]-[month]-[day] [hour]:[minute]"@) {
        Some(s) => s,
        None => Seq::empty(),
    }
}

pub(crate) fn enqueued(t: Stamp) -> (r: String)
    ensures
        r@ == enqueued_text(t),
{
    match clock::format_described(t.nanos, t.offset, "[year]-[month]-[day] [hour]:[minute]") {
        Some(s) => s,
        None => String::new(),
    }
}

/// The rows for the media of a file.
pub open spec fn media_rows_html(m: Option<MediaView>) -> Seq<char> {
    match m {
        Some(m) => opt_row_html("Video"@, video_text(m)) + opt_row_html("Audio"@, m.audio_codec)
            + opt_row_html("Bitrate"@, m.bitrate()) + opt_row_html("Format"@, m.format_long_name)
            + opt_row_html("Size"@, m.size_text()),
        None => Seq::empty(),
    }
}

fn media_rows(m: &Option<MediaInfo>) -> (r: String)
    ensures
        r@ == media_rows_html(state::opt_media(*m)),
{
    match m {
        Some(m) => {
            let mut out = opt_row("Video", media_video_str(m));
            out.append(opt_row("Audio", text::copy_opt(&m.audio_codec)).as_str());
            out.append(opt_row("Bitrate", m.bitrate_str()).as_str());
            out.append(opt_row("Format", text::copy_opt(&m.format_long_name)).as_str());
            out.append(opt_row("Size", m.size_str()).as_str());
            out
        },
        None => String::new(),
    }
}

/// The rows of the details page, given the time of enqueueing as text.
pub open spec fn rows_html(item: ItemView, added: Seq<char>) -> Seq<char> {
    opt_row_html("URL"@, Some(item.url)) + opt_row_html("File"@, item.filename) + opt_row_html(
        "Duration"@,
        Some(duration_text(item.duration)),
    ) + opt_row_html("Added"@, Some(added)) + media_rows_html(item.media)
}

fn rows(item: &QueueItem, added: String) -> (r: String)
    ensures
        r@ == rows_html(item@, added@),
{
    let mut out = opt_row("URL", Some(item.url.clone()));
    out.append(opt_row("File", text::copy_opt(&item.filename)).as_str());
    out.append(opt_row("Duration", Some(human_duration(item.duration))).as_str());
    out.append(opt_row("Added", Some(added)).as_str());
    out.append(media_rows(&item.media).as_str());
    out
}

/// The big buttons for a file: view, download and delete.
pub open spec fn page_file_actions_html(id: u64, name: Seq<char>) -> Seq<char> {
    "<a class=\"big-btn view\" href=\"/file/"@
        + markup::percent(name)
        + "?inline=1\" target=\"_blank\" rel=\"noopener\">View</a><a class=\"big-btn download\" href=\"/file/"@
        + markup::percent(name)
        + "?download=1\">Download</a><button class=\"big-btn delete\" hx-post=\"/delete-item/"@
        + text::dec(id as nat)
        + "\" hx-target=\"#ack\" hx-swap=\"innerHTML\" hx-confirm=\"Delete "@
        + markup::escaped(name)
        + " from the server?\">Delete</button>"@
}

/// The big buttons for a file: view, download and delete.
fn page_file_actions(id: u64, name: &str) -> (r: String)
    ensures
        r@ == page_file_actions_html(id, name@),
{
    let mut out = "<a class=\"big-btn view\" href=\"/file/".to_string();
    out.append(markup::url(name).as_str());
    out.append("?inline=1\" target=\"_blank\" rel=\"noopener\">View</a><a class=\"big-btn download\" href=\"/file/");
    out.append(markup::url(name).as_str());
    out.append("?download=1\">Download</a><button class=\"big-btn delete\" hx-post=\"/delete-item/");
    text::push_dec(&mut out, id);
    out.append("\" hx-target=\"#ack\" hx-swap=\"innerHTML\" hx-confirm=\"Delete ");
    out.append(markup::html(name).as_str());
    out.append(" from the server?\">Delete</button>");
    out
}

/// The big button that cancels.
pub open spec fn page_cancel_action_html(id: u64) -> Seq<char> {
    "<button class=\"big-btn cancel\" hx-post=\"/cancel/"@
        + text::dec(id as nat)
        + "\" hx-target=\"#ack\" hx-swap=\"innerHTML\">Cancel</button>"@
}

/// The big button that cancels.
fn page_cancel_action(id: u64) -> (r: String)
    ensures
        r@ == page_cancel_action_html(id),
{
    let mut out = "<button class=\"big-btn cancel\" hx-post=\"/cancel/".to_string();
    text::push_dec(&mut out, id);
    out.append("\" hx-target=\"#ack\" hx-swap=\"innerHTML\">Cancel</button>");
    out
}

/// The big button that queues a download again.
pub open spec fn page_retry_action_html(id: u64) -> Seq<char> {
    "<button class=\"big-btn retry\" hx-post=\"/retry/"@
        + text::dec(id as nat)
        + "\" hx-target=\"#ack\" hx-swap=\"innerHTML\">Retry</button>"@
}

/// The big button that queues a download again.
fn page_retry_action(id: u64) -> (r: String)
    ensures
        r@ == page_retry_action_html(id),
{
    let mut out = "<button class=\"big-btn retry\" hx-post=\"/retry/".to_string();
    text::push_dec(&mut out, id);
    out.append("\" hx-target=\"#ack\" hx-swap=\"innerHTML\">Retry</button>");
    out
}

/// The big button that removes an item without a file.
pub open spec fn page_forget_action_html(id: u64) -> Seq<char> {
    "<button class=\"big-btn delete\" hx-post=\"/delete-item/"@
        + text::dec(id as nat)
        + "\" hx-target=\"#ack\" hx-swap=\"innerHTML\">Delete</button>"@
}

/// The big button that removes an item without a file.
fn page_forget_action(id: u64) -> (r: String)
    ensures
        r@ == page_forget_action_html(id),
{
    let mut out = "<button class=\"big-btn delete\" hx-post=\"/delete-item/".to_string();
    text::push_dec(&mut out, id);
    out.append("\" hx-target=\"#ack\" hx-swap=\"innerHTML\">Delete</button>");
    out
}

/// The big buttons of the details page.
pub open spec fn page_actions_html(status: ItemStatus, id: u64, name: Option<Seq<char>>) -> Seq<
    char,
> {
    match (status, name) {
        (ItemStatus::Done, Some(f)) => page_file_actions_html(id, f),
        (ItemStatus::Done, None) => page_forget_action_html(id),
        (ItemStatus::Pending, _) => page_cancel_action_html(id),
        (ItemStatus::Active, _) => page_cancel_action_html(id),
        (ItemStatus::Failed, _) => page_retry_action_html(id) + page_forget_action_html(id),
        (ItemStatus::Cancelled, _) => page_retry_action_html(id) + page_forget_action_html(id),
    }
}

fn page_actions(status: ItemStatus, id: u64, name: &Option<String>) -> (r: String)
    ensures
        r@ == page_actions_html(status, id, text::opt(*name)),
{
    match status {
        ItemStatus::Done => match name {
            Some(f) => page_file_actions(id, f.as_str()),
            None => page_forget_action(id),
        },
        ItemStatus::Pending | ItemStatus::Active => page_cancel_action(id),
        ItemStatus::Failed | ItemStatus::Cancelled => {
            let mut out = page_retry_action(id);
            out.append(page_forget_action(id).as_str());
            out
        },
    }
}

/// The full thumbnail of the details page.
pub open spec fn page_img_html(name: Seq<char>) -> Seq<char> {
    "<img src=\"/thumb/"@
        + markup::percent(name)
        + "\" class=\"ip-img\" alt=\"\">"@
}

/// The full thumbnail of the details page.
fn page_img(name: &str) -> (r: String)
    ensures
        r@ == page_img_html(name@),
{
    let mut out = "<img src=\"/thumb/".to_string();
    out.append(markup::url(name).as_str());
    out.append("\" class=\"ip-img\" alt=\"\">");
    out
}

/// A frame of the gallery.
pub open spec fn page_frame_html(name: Seq<char>) -> Seq<char> {
    "<a class=\"ip-frame\" href=\"/thumb/"@
        + markup::percent(name)
        + "\" target=\"_blank\" rel=\"noopener\"><img src=\"/thumb/"@
        + markup::percent(name)
        + "\" alt=\"\" loading=\"lazy\"></a>"@
}

/// A frame of the gallery.
fn page_frame(name: &str) -> (r: String)
    ensures
        r@ == page_frame_html(name@),
{
    let mut out = "<a class=\"ip-frame\" href=\"/thumb/".to_string();
    out.append(markup::url(name).as_str());
    out.append("\" target=\"_blank\" rel=\"noopener\"><img src=\"/thumb/");
    out.append(markup::url(name).as_str());
    out.append("\" alt=\"\" loading=\"lazy\"></a>");
    out
}

/// The error on the details page.
pub open spec fn page_error_html(msg: Seq<char>) -> Seq<char> {
    "<p class=\"ip-error\">"@
        + markup::escaped(msg)
        + "</p>"@
}

/// The error on the details page.
fn page_error(msg: &str) -> (r: String)
    ensures
        r@ == page_error_html(msg@),
{
    let mut out = "<p class=\"ip-error\">".to_string();
    out.append(markup::html(msg).as_str());
    out.append("</p>");
    out
}

/// The frames of the gallery one after the other.
pub open spec fn frames_html(names: Seq<Seq<char>>) -> Seq<char>
    decreases names.len(),
{
    if names.len() == 0 {
        Seq::empty()
    } else {
        frames_html(names.drop_last()) + page_frame_html(names.last())
    }
}

fn frames(names: &Vec<String>) -> (r: String)
    ensures
        r@ == frames_html(text::list(names@)),
{
    let ghost all = text::list(names@);
    let mut out = String::new();
    let mut i: usize = 0;
    assert(all.take(0) =~= Seq::<Seq<char>>::empty());
    while i < names.len()
        invariant
            i <= names@.len(),
            all == text::list(names@),
            out@ == frames_html(all.take(i as int)),
        decreases names@.len() - i,
    {
        proof {
            let t = all.take(i + 1);
            assert(t.drop_last() =~= all.take(i as int));
            assert(t.last() == names@[i as int]@);
        }
        out.append(page_frame(names[i].as_str()).as_str());
        i += 1;
    }
    assert(all.take(i as int) =~= all);
    out
}

/// A part of the page for an optional text.
pub open spec fn page_thumb_html(o: Option<Seq<char>>) -> Seq<char> {
    match o {
        Some(name) => page_img_html(name),
        None => Seq::empty(),
    }
}

pub open spec fn page_problem_html(o: Option<Seq<char>>) -> Seq<char> {
    match o {
        Some(msg) => page_error_html(msg),
        None => Seq::empty(),
    }
}

fn page_thumb(o: &Option<String>) -> (r: String)
    ensures
        r@ == page_thumb_html(text::opt(*o)),
{
    match o {
        Some(name) => page_img(name.as_str()),
        None => String::new(),
    }
}

fn page_problem(o: &Option<String>) -> (r: String)
    ensures
        r@ == page_problem_html(text::opt(*o)),
{
    match o {
        Some(msg) => page_error(msg.as_str()),
        None => String::new(),
    }
}

/// The attributes by which the log of a running download is fetched again.
pub open spec fn poll_attrs_html(id: u64) -> Seq<char> {
    " hx-get=\"/logs/"@
        + text::dec(id as nat)
        + "?lines=1\" hx-trigger=\"every 2s\" hx-swap=\"innerHTML\""@
}

/// The attributes by which the log of a running download is fetched again.
fn poll_attrs(id: u64) -> (r: String)
    ensures
        r@ == poll_attrs_html(id),
{
    let mut out = " hx-get=\"/logs/".to_string();
    text::push_dec(&mut out, id);
    out.append("?lines=1\" hx-trigger=\"every 2s\" hx-swap=\"innerHTML\"");
    out
}

/// Whether a download may still produce output.
pub open spec fn polls(status: ItemStatus) -> bool {
    status == ItemStatus::Pending || status == ItemStatus::Active
}

pub open spec fn polling_html(status: ItemStatus, id: u64) -> Seq<char> {
    if polls(status) {
        poll_attrs_html(id)
    } else {
        Seq::empty()
    }
}

fn polling(status: ItemStatus, id: u64) -> (r: String)
    ensures
        r@ == polling_html(status, id),
{
    if status == ItemStatus::Pending || status == ItemStatus::Active {
        poll_attrs(id)
    } else {
        String::new()
    }
}

/// The headline of the details page: the title, else the file name, else the URL.
pub open spec fn headline(item: ItemView) -> Seq<char> {
    match (item.title, item.filename) {
        (Some(t), _) => t,
        (None, Some(f)) => f,
        (None, None) => item.url,
    }
}

fn headline_of(item: &QueueItem) -> (r: &str)
    ensures
        r@ == headline(item@),
{
    match &item.title {
        Some(t) => t.as_str(),
        None => match &item.filename {
            Some(f) => f.as_str(),
            None => item.url.as_str(),
        },
    }
}

/// The top of the details page.
pub open spec fn page_top_html(title: Seq<char>, status: ItemStatus) -> Seq<char> {
    "<!DOCTYPE html><html lang=\"en\"><head><meta charset=\"utf-8\"><meta name=\"viewport\" content=\"width=device-width, initial-scale=1\"><title>"@
        + markup::escaped(title)
        + "</title><link rel=\"icon\" href=\"/favicon.svg\" type=\"image/svg+xml\"><link rel=\"stylesheet\" href=\"/static/app.css\"><script src=\"/static/htmx.org-2.0.4.js\"></script></head><body class=\"item-page\"><main class=\"ip\"><a class=\"ip-back\" href=\"/\">&larr; all videos</a><h1 class=\"ip-title\">"@
        + markup::escaped(title)
        + "</h1><span class=\"badge badge-"@
        + status.text()
        + "\">"@
        + status.text()
        + "</span><div id=\"ack\"></div>"@
}

/// The top of the details page.
fn page_top(title: &str, status: ItemStatus) -> (r: String)
    ensures
        r@ == page_top_html(title@, status),
{
    let mut out = "<!DOCTYPE html><html lang=\"en\"><head><meta charset=\"utf-8\"><meta name=\"viewport\" content=\"width=device-width, initial-scale=1\"><title>".to_string();
    out.append(markup::html(title).as_str());
    out.append("</title><link rel=\"icon\" href=\"/favicon.svg\" type=\"image/svg+xml\"><link rel=\"stylesheet\" href=\"/static/app.css\"><script src=\"/static/htmx.org-2.0.4.js\"></script></head><body class=\"item-page\"><main class=\"ip\"><a class=\"ip-back\" href=\"/\">&larr; all videos</a><h1 class=\"ip-title\">");
    out.append(markup::html(title).as_str());
    out.append("</h1><span class=\"badge badge-");
    out.append(status.as_str());
    out.append("\">");
    out.append(status.as_str());
    out.append("</span><div id=\"ack\"></div>");
    out
}

/// The details page of an item, given the time of enqueueing as text.
pub open spec fn item_page_html(item: ItemView, added: Seq<char>) -> Seq<char> {
    page_top_html(headline(item), item.status) + page_thumb_html(item.thumbnail)
        + "<div class=\"ip-actions\">"@ + page_actions_html(item.status, item.id, item.filename)
        + "</div>"@ + page_problem_html(item.error) + "<dl class=\"ip-meta\">"@ + rows_html(
        item,
        added,
    ) + "</dl><div class=\"ip-gallery\">"@ + frames_html(item.thumbnails)
        + "</div><div id=\"item-log-lines\" class=\"ip-log\""@ + polling_html(
        item.status,
        item.id,
    ) + ">"@ + log_lines_html(item.logs) + "</div></main></body></html>"@
}

/// Renders the details page of an item, given the time of enqueueing as text.
pub fn item_page(item: &QueueItem, added: String) -> (r: String)
    ensures
        r@ == item_page_html(item@, added@),
{
    let mut out = page_top(headline_of(item), item.status);
    out.append(page_thumb(&item.thumbnail).as_str());
    out.append("<div class=\"ip-actions\">");
    out.append(page_actions(item.status, item.id, &item.filename).as_str());
    out.append("</div>");
    out.append(page_problem(&item.error).as_str());
    out.append("<dl class=\"ip-meta\">");
    out.append(rows(item, added).as_str());
    out.append("</dl><div class=\"ip-gallery\">");
    out.append(frames(&item.thumbnails).as_str());
    out.append("</div><div id=\"item-log-lines\" class=\"ip-log\"");
    out.append(polling(item.status, item.id).as_str());
    out.append(">");
    out.append(render_log_lines(item.logs.as_slice()).as_str());
    out.append("</div></main></body></html>");
    out
}

/// Renders the details page of an item: a whole document.
pub fn render_item_page(item: &QueueItem) -> (r: String)
    ensures
        r@ == item_page_html(item@, enqueued_text(item.enqueued_at)),
{
    item_page(item, enqueued(item.enqueued_at))
}

/// The page for an item that is not in the queue.
pub open spec fn item_gone_html() -> Seq<char> {
    "<!DOCTYPE html><html lang=\"en\"><head><meta charset=\"utf-8\"><meta name=\"viewport\" content=\"width=device-width, initial-scale=1\"><title>Video gone</title><link rel=\"icon\" href=\"/favicon.svg\" type=\"image/svg+xml\"><link rel=\"stylesheet\" href=\"/static/app.css\"></head><body class=\"item-page\"><main class=\"ip\"><a class=\"ip-back\" href=\"/\">&larr; all videos</a><p class=\"ip-gone\">This video is no longer in the queue.</p></main></body></html>"@
}

/// Renders the page for an item that is not in the queue: a whole document with a link back.
pub fn render_item_gone() -> (r: String)
    ensures
        r@ == item_gone_html(),
{
    "<!DOCTYPE html><html lang=\"en\"><head><meta charset=\"utf-8\"><meta name=\"viewport\" content=\"width=device-width, initial-scale=1\"><title>Video gone</title><link rel=\"icon\" href=\"/favicon.svg\" type=\"image/svg+xml\"><link rel=\"stylesheet\" href=\"/static/app.css\"></head><body class=\"item-page\"><main class=\"ip\"><a class=\"ip-back\" href=\"/\">&larr; all videos</a><p class=\"ip-gone\">This video is no longer in the queue.</p></main></body></html>".to_string()
}

// ---- the header

/// The message beneath the input.
pub open spec fn header_error_html(msg: Seq<char>) -> Seq<char> {
    "<div class=\"header-err\">"@
        + markup::escaped(msg)
        + "</div>"@
}

/// The message beneath the input.
fn header_error(msg: &str) -> (r: String)
    ensures
        r@ == header_error_html(msg@),
{
    let mut out = "<div class=\"header-err\">".to_string();
    out.append(markup::html(msg).as_str());
    out.append("</div>");
    out
}

/// The form in the header, with a message where there is one.
pub open spec fn header_html(error: Option<Seq<char>>) -> Seq<char> {
    "<form class=\"header-form\" hx-post=\"/download\" hx-target=\"#header-input\" hx-swap=\"innerHTML\"><input type=\"text\" name=\"url\" placeholder=\"Paste a video or playlist URL\" autocomplete=\"off\"><button type=\"submit\">Add</button>"@
        + (match error {
        Some(msg) => header_error_html(msg),
        None => Seq::empty(),
    }) + "</form>"@
}

/// An optional text, by its characters.
pub open spec fn opt_str(o: Option<&str>) -> Option<Seq<char>> {
    match o {
        Some(s) => Some(s@),
        None => None,
    }
}

/// Renders the form in the header.
pub fn render_header_input(error: Option<&str>) -> (r: String)
    ensures
        r@ == header_html(opt_str(error)),
{
    let note: String = match error {
        Some(msg) => header_error(msg),
        None => String::new(),
    };
    let mut out = "<form class=\"header-form\" hx-post=\"/download\" hx-target=\"#header-input\" hx-swap=\"innerHTML\"><input type=\"text\" name=\"url\" placeholder=\"Paste a video or playlist URL\" autocomplete=\"off\"><button type=\"submit\">Add</button>".to_string();
    out.append(note.as_str());
    out.append("</form>");
    out
}

/// Renders the area of a running probe. It has a stream of its own, which shows log lines and then the result.
pub open spec fn probe_area_html(url: Seq<char>) -> Seq<char> {
    "<div class=\"probe\" hx-ext=\"sse\" sse-connect=\"/probe?url="@
        + markup::percent(url)
        + "\" sse-close=\"result\"><div id=\"probe-stream\" class=\"probe-stream\" sse-swap=\"log\" hx-swap=\"beforeend\"></div><div id=\"probe-cards\" class=\"probe-cards\" sse-swap=\"result\" hx-swap=\"innerHTML\"></div><button type=\"button\" class=\"probe-cancel\" hx-get=\"/header\" hx-target=\"#header-input\" hx-swap=\"innerHTML\">Cancel</button></div>"@
}

/// Renders the area of a running probe. It has a stream of its own, which shows log lines and then the result.
pub fn render_probe_area(url: &str) -> (r: String)
    ensures
        r@ == probe_area_html(url@),
{
    let mut out = "<div class=\"probe\" hx-ext=\"sse\" sse-connect=\"/probe?url=".to_string();
    out.append(markup::url(url).as_str());
    out.append("\" sse-close=\"result\"><div id=\"probe-stream\" class=\"probe-stream\" sse-swap=\"log\" hx-swap=\"beforeend\"></div><div id=\"probe-cards\" class=\"probe-cards\" sse-swap=\"result\" hx-swap=\"innerHTML\"></div><button type=\"button\" class=\"probe-cancel\" hx-get=\"/header\" hx-target=\"#header-input\" hx-swap=\"innerHTML\">Cancel</button></div>");
    out
}

// ---- the result of a probe

/// A video that may be approved: what its checkbox carries.
#[derive(Debug, Clone)]
pub struct ApprovalEntry {
    pub url: String,
    pub title: Option<String>,
    pub duration: Option<Double>,
    /// The URL of the best thumbnail.
    pub thumbnail: Option<String>,
}

pub struct ApprovalView {
    pub url: Seq<char>,
    pub title: Option<Seq<char>>,
    pub duration: Option<Double>,
    pub thumbnail: Option<Seq<char>>,
}

impl View for ApprovalEntry {
    type V = ApprovalView;

    open spec fn view(&self) -> ApprovalView {
        ApprovalView {
            url: self.url@,
            title: text::opt(self.title),
            duration: self.duration,
            thumbnail: text::opt(self.thumbnail),
        }
    }
}

/// A list of entries, by their views.
pub open spec fn approvals(v: Seq<ApprovalEntry>) -> Seq<ApprovalView> {
    v.map_values(|e: ApprovalEntry| e@)
}

pub open spec fn text_field(o: Option<Seq<char>>) -> json::FieldView {
    match o {
        Some(s) => json::FieldView::Text(s),
        None => json::FieldView::Null,
    }
}

pub open spec fn number_field(o: Option<Double>) -> json::FieldView {
    match o {
        Some(d) => if d.finite() {
            json::FieldView::Number(d.exact())
        } else {
            json::FieldView::Null
        },
        None => json::FieldView::Null,
    }
}

impl ApprovalView {
    /// The fields of the object that the checkbox carries.
    pub open spec fn fields(self) -> Seq<(Seq<char>, json::FieldView)> {
        seq![
            ("url"@, json::FieldView::Text(self.url)),
            ("title"@, text_field(self.title)),
            ("duration"@, number_field(self.duration)),
            ("thumbnail"@, text_field(self.thumbnail)),
        ]
    }

    /// The JSON that the checkbox carries.
    pub open spec fn blob(self) -> Seq<char> {
        json::json_text(self.fields())
    }

    /// The video as it is written: JSON has no text for a duration that is not finite.
    pub open spec fn written(self) -> ApprovalView {
        ApprovalView {
            duration: match self.duration {
                Some(d) => if d.finite() {
                    Some(d)
                } else {
                    None
                },
                None => None,
            },
            ..self
        }
    }

    /// What the video is shown as: its title, else its URL.
    pub open spec fn label(self) -> Seq<char> {
        match self.title {
            Some(t) => t,
            None => self.url,
        }
    }
}

fn opt_text(o: &Option<String>) -> (r: json::Field)
    ensures
        r@ == text_field(text::opt(*o)),
{
    match o {
        Some(s) => json::Field::Text(s.clone()),
        None => json::Field::Null,
    }
}

fn opt_number(o: Option<Double>) -> (r: json::Field)
    ensures
        r@ == number_field(o),
{
    match o {
        Some(d) => if d.is_finite() {
            json::Field::Number(d.exact_text())
        } else {
            json::Field::Null
        },
        None => json::Field::Null,
    }
}

proof fn lemma_approval_keys(e: ApprovalView)
    ensures
        json::distinct_keys(e.fields()),
        json::plain_first_key(e.fields()),
{
    reveal_strlit("url");
    reveal_strlit("title");
    reveal_strlit("duration");
    reveal_strlit("thumbnail");
    assert("url"@.len() == 3 && "title"@.len() == 5 && "duration"@.len() == 8 && "thumbnail"@.len()
        == 9);
}

/// An optional text in a field: absent or null, or a text; anything else is refused.
pub open spec fn text_in(field: Option<json::JsonView>) -> Option<Option<Seq<char>>> {
    match field {
        None => Some(None),
        Some(json::JsonView::Null) => Some(None),
        Some(json::JsonView::Text(s)) => Some(Some(s)),
        _ => None,
    }
}

/// An optional number in a field: absent or null, or a number; anything else is refused.
pub open spec fn number_in(field: Option<json::JsonView>) -> Option<Option<Double>> {
    match field {
        None => Some(None),
        Some(json::JsonView::Null) => Some(None),
        Some(json::JsonView::Number { bits: Some(b), .. }) => Some(Some(Double { bits: b })),
        _ => None,
    }
}

/// The video in the fields of an object: one with a URL, and with no field of another kind than it
/// is written with.
pub open spec fn approval_of(obj: Seq<(Seq<char>, json::JsonView)>) -> Option<ApprovalView> {
    match (
        json::lookup(obj, "url"@),
        text_in(json::lookup(obj, "title"@)),
        number_in(json::lookup(obj, "duration"@)),
        text_in(json::lookup(obj, "thumbnail"@)),
    ) {
        (Some(json::JsonView::Text(url)), Some(title), Some(duration), Some(thumbnail)) => Some(
            ApprovalView { url, title, duration, thumbnail },
        ),
        _ => None,
    }
}

/// The video that the JSON of a checkbox holds.
pub open spec fn approval_in(blob: Seq<char>) -> Option<ApprovalView> {
    match json::json_object(blob) {
        Some(obj) => approval_of(obj),
        None => None,
    }
}

pub open spec fn opt_approval(o: Option<ApprovalEntry>) -> Option<ApprovalView> {
    match o {
        Some(e) => Some(e@),
        None => None,
    }
}

fn read_text(field: Option<&Json>) -> (r: Option<Option<String>>)
    ensures
        (match r {
            Some(o) => Some(text::opt(o)),
            None => None,
        }) == text_in(
            match field {
                Some(j) => Some(j@),
                None => None,
            },
        ),
{
    match field {
        None => Some(None),
        Some(Json::Null) => Some(None),
        Some(Json::Text(s)) => Some(Some(s.clone())),
        Some(_) => None,
    }
}

fn read_number(field: Option<&Json>) -> (r: Option<Option<Double>>)
    ensures
        r == number_in(
            match field {
                Some(j) => Some(j@),
                None => None,
            },
        ),
{
    match field {
        None => Some(None),
        Some(Json::Null) => Some(None),
        Some(Json::Number { bits: Some(b), .. }) => Some(Some(Double { bits: *b })),
        Some(_) => None,
    }
}

impl ApprovalEntry {
    /// The video in the fields of an object, where they hold one.
    pub fn from_fields(obj: &Vec<(String, Json)>) -> (r: Option<ApprovalEntry>)
        ensures
            opt_approval(r) == approval_of(json::fields(obj@)),
    {
        let title: Option<Option<String>> = read_text(json::get(obj, "title"));
        let duration: Option<Option<Double>> = read_number(json::get(obj, "duration"));
        let thumbnail: Option<Option<String>> = read_text(json::get(obj, "thumbnail"));
        match (json::get(obj, "url"), title, duration, thumbnail) {
            (Some(Json::Text(url)), Some(title), Some(duration), Some(thumbnail)) => Some(
                ApprovalEntry { url: url.clone(), title, duration, thumbnail },
            ),
            _ => None,
        }
    }

    /// The video that the JSON of a checkbox holds, where it holds one.
    pub fn from_json(blob: &str) -> (r: Option<ApprovalEntry>)
        ensures
            opt_approval(r) == approval_in(blob@),
    {
        match json::read_object(blob) {
            Some(obj) => ApprovalEntry::from_fields(&obj),
            None => None,
        }
    }

    /// The JSON that the checkbox carries. Reading it gives back the video.
    pub fn to_json(&self) -> (r: String)
        ensures
            r@ == self@.blob(),
            approval_in(r@) == Some(self@.written()),
    {
        let mut fields: Vec<(String, json::Field)> = Vec::new();
        fields.push(("url".to_string(), json::Field::Text(self.url.clone())));
        fields.push(("title".to_string(), opt_text(&self.title)));
        fields.push(("duration".to_string(), opt_number(self.duration)));
        fields.push(("thumbnail".to_string(), opt_text(&self.thumbnail)));
        let r: String = json::write_object(&fields);
        proof {
            assert(json::field_views(fields@) =~= self@.fields());
            lemma_approval_keys(self@);
            let f = json::field_views(fields@);
            let obj = json::json_object(r@)->0;
            assert(f[0].0 == "url"@ && f[1].0 == "title"@ && f[2].0 == "duration"@ && f[3].0
                == "thumbnail"@);
            assert(obj[0].0 == f[0].0 && obj[1].0 == f[1].0 && obj[2].0 == f[2].0 && obj[3].0
                == f[3].0);
            json::lemma_lookup(obj, "url"@, 0);
            json::lemma_lookup(obj, "title"@, 1);
            json::lemma_lookup(obj, "duration"@, 2);
            json::lemma_lookup(obj, "thumbnail"@, 3);
            if let Some(d) = self.duration {
                if d.finite() {
                    number::law_exact_text_reads_back(d);
                }
            }
        }
        r
    }
}

/// The videos that a probe offers: the entries of a playlist, or the submitted URL with the title,
/// duration and thumbnail of a single video.
pub open spec fn offered(
    submitted: Seq<char>,
    entries: Seq<EntryView>,
    single: Option<EntryView>,
) -> Seq<ApprovalView> {
    if entries.len() > 0 {
        Seq::new(
            entries.len(),
            |i: int|
                ApprovalView {
                    url: match entries[i].url {
                        Some(u) => u,
                        None => Seq::empty(),
                    },
                    title: entries[i].title,
                    duration: entries[i].duration,
                    thumbnail: entries[i].thumbnail,
                },
        )
    } else {
        match single {
            Some(v) => seq![
                ApprovalView {
                    url: submitted,
                    title: v.title,
                    duration: v.duration,
                    thumbnail: v.thumbnail,
                },
            ],
            None => Seq::empty(),
        }
    }
}

pub open spec fn entry_views(v: Seq<FlatEntry>) -> Seq<EntryView> {
    v.map_values(|e: FlatEntry| e@)
}

pub open spec fn opt_entry(o: Option<&FlatEntry>) -> Option<EntryView> {
    match o {
        Some(e) => Some(e@),
        None => None,
    }
}

/// The videos that a probe offers for approval.
pub fn offer(submitted_url: &str, entries: &[FlatEntry], single: Option<&FlatEntry>) -> (r: Vec<
    ApprovalEntry,
>)
    ensures
        approvals(r@) == offered(submitted_url@, entry_views(entries@), opt_entry(single)),
{
    let mut out: Vec<ApprovalEntry> = Vec::new();
    if entries.len() > 0 {
        let ghost all = offered(submitted_url@, entry_views(entries@), opt_entry(single));
        let mut i: usize = 0;
        while i < entries.len()
            invariant
                i <= entries@.len(),
                entries@.len() > 0,
                all == offered(submitted_url@, entry_views(entries@), opt_entry(single)),
                approvals(out@) == all.take(i as int),
            decreases entries@.len() - i,
        {
            let e: &FlatEntry = &entries[i];
            assert(entry_views(entries@)[i as int] == e@);
            let a = ApprovalEntry {
                url: match &e.url {
                    Some(u) => u.clone(),
                    None => String::new(),
                },
                title: text::copy_opt(&e.title),
                duration: e.duration,
                thumbnail: text::copy_opt(&e.thumbnail),
            };
            let ghost before = out@;
            proof {
                assert(a@.url =~= all[i as int].url);
                assert(all.take(i + 1) =~= all.take(i as int).push(a@));
            }
            out.push(a);
            assert(approvals(out@) =~= approvals(before).push(a@));
            i += 1;
        }
        assert(all.take(i as int) =~= all);
    } else {
        if let Some(v) = single {
            out.push(
                ApprovalEntry {
                    url: submitted_url.to_string(),
                    title: text::copy_opt(&v.title),
                    duration: v.duration,
                    thumbnail: text::copy_opt(&v.thumbnail),
                },
            );
        }
        assert(approvals(out@) =~= offered(
            submitted_url@,
            entry_views(entries@),
            opt_entry(single),
        ));
    }
    out
}

/// The thumbnail of an offered video.
pub open spec fn offer_img_html(url: Seq<char>) -> Seq<char> {
    "<img class=\"probe-img\" src=\""@
        + markup::escaped(url)
        + "\" alt=\"\" loading=\"lazy\" referrerpolicy=\"no-referrer\">"@
}

/// The thumbnail of an offered video.
fn offer_img(url: &str) -> (r: String)
    ensures
        r@ == offer_img_html(url@),
{
    let mut out = "<img class=\"probe-img\" src=\"".to_string();
    out.append(markup::html(url).as_str());
    out.append("\" alt=\"\" loading=\"lazy\" referrerpolicy=\"no-referrer\">");
    out
}

pub open spec fn offer_thumb_html(o: Option<Seq<char>>) -> Seq<char> {
    match o {
        Some(url) => offer_img_html(url),
        None => Seq::empty(),
    }
}

fn offer_thumb(o: &Option<String>) -> (r: String)
    ensures
        r@ == offer_thumb_html(text::opt(*o)),
{
    match o {
        Some(url) => offer_img(url.as_str()),
        None => String::new(),
    }
}

fn offer_label(e: &ApprovalEntry) -> (r: &str)
    ensures
        r@ == e@.label(),
{
    match &e.title {
        Some(t) => t.as_str(),
        None => e.url.as_str(),
    }
}

/// The card of an offered video, with the JSON that its checkbox carries.
pub open spec fn offer_card_html(e: ApprovalView, blob: Seq<char>, idx: nat) -> Seq<char> {
    "<label class=\"probe-card\"><input name=\"entry\" value=\""@
        + markup::escaped(blob)
        + "\" type=\"checkbox\" checked><span class=\"probe-idx\">"@
        + text::dec(idx)
        + "</span>"@
        + offer_thumb_html(e.thumbnail)
        + "<span class=\"probe-label\">"@
        + markup::escaped(e.label())
        + "</span><span class=\"probe-dur\">"@
        + duration_text(e.duration)
        + "</span></label>"@
}

/// The card of an offered video, with the JSON that its checkbox carries.
fn offer_card(e: &ApprovalEntry, blob: &str, idx: usize) -> (r: String)
    ensures
        r@ == offer_card_html(e@, blob@, idx as nat),
{
    let mut out = "<label class=\"probe-card\"><input name=\"entry\" value=\"".to_string();
    out.append(markup::html(blob).as_str());
    out.append("\" type=\"checkbox\" checked><span class=\"probe-idx\">");
    text::push_dec(&mut out, idx as u64);
    out.append("</span>");
    out.append(offer_thumb(&e.thumbnail).as_str());
    out.append("<span class=\"probe-label\">");
    out.append(markup::html(offer_label(e)).as_str());
    out.append("</span><span class=\"probe-dur\">");
    out.append(human_duration(e.duration).as_str());
    out.append("</span></label>");
    out
}

/// The cards of the offered videos, numbered from one.
pub open spec fn offer_cards_html(v: Seq<ApprovalView>) -> Seq<char>
    decreases v.len(),
{
    if v.len() == 0 {
        Seq::empty()
    } else {
        offer_cards_html(v.drop_last()) + offer_card_html(v.last(), v.last().blob(), v.len())
    }
}

fn offer_cards(v: &Vec<ApprovalEntry>) -> (r: String)
    ensures
        r@ == offer_cards_html(approvals(v@)),
        forall|i: int|
            0 <= i < v@.len() ==> approval_in((#[trigger] approvals(v@)[i]).blob()) == Some(
                approvals(v@)[i].written(),
            ),
{
    let ghost all = approvals(v@);
    let mut out = String::new();
    let mut i: usize = 0;
    assert(all.take(0) =~= Seq::<ApprovalView>::empty());
    while i < v.len()
        invariant
            i <= v@.len(),
            all == approvals(v@),
            out@ == offer_cards_html(all.take(i as int)),
            forall|j: int|
                0 <= j < i ==> approval_in((#[trigger] all[j]).blob()) == Some(all[j].written()),
        decreases v@.len() - i,
    {
        proof {
            let t = all.take(i + 1);
            assert(t.drop_last() =~= all.take(i as int));
            assert(t.last() == v@[i as int]@);
        }
        let blob: String = v[i].to_json();
        out.append(offer_card(&v[i], blob.as_str(), i + 1).as_str());
        i += 1;
    }
    assert(all.take(i as int) =~= all);
    out
}

/// The form by which offered videos are approved.
pub open spec fn offer_form_html(cards: Seq<char>, n: nat) -> Seq<char> {
    "<form class=\"probe-form\" hx-post=\"/confirm\" hx-target=\"#header-input\" hx-swap=\"innerHTML\"><div class=\"probe-list\">"@
        + cards
        + "</div><div class=\"probe-actions\"><button type=\"submit\">Confirm ("@
        + text::dec(n)
        + ")</button><button type=\"button\" hx-get=\"/header\" hx-target=\"#header-input\" hx-swap=\"innerHTML\">Cancel</button></div></form>"@
}

/// The form by which offered videos are approved.
fn offer_form(cards: &str, n: usize) -> (r: String)
    ensures
        r@ == offer_form_html(cards@, n as nat),
{
    let mut out = "<form class=\"probe-form\" hx-post=\"/confirm\" hx-target=\"#header-input\" hx-swap=\"innerHTML\"><div class=\"probe-list\">".to_string();
    out.append(cards);
    out.append("</div><div class=\"probe-actions\"><button type=\"submit\">Confirm (");
    text::push_dec(&mut out, n as u64);
    out.append(")</button><button type=\"button\" hx-get=\"/header\" hx-target=\"#header-input\" hx-swap=\"innerHTML\">Cancel</button></div></form>");
    out
}

/// The message of a probe that found nothing.
pub open spec fn offer_failure_html(msg: Seq<char>) -> Seq<char> {
    "<div class=\"probe-error\"><span class=\"err\">"@
        + markup::escaped(msg)
        + "</span><button type=\"button\" hx-get=\"/header\" hx-target=\"#header-input\" hx-swap=\"innerHTML\">Done</button></div>"@
}

/// The message of a probe that found nothing.
fn offer_failure(msg: &str) -> (r: String)
    ensures
        r@ == offer_failure_html(msg@),
{
    let mut out = "<div class=\"probe-error\"><span class=\"err\">".to_string();
    out.append(markup::html(msg).as_str());
    out.append("</span><button type=\"button\" hx-get=\"/header\" hx-target=\"#header-input\" hx-swap=\"innerHTML\">Done</button></div>");
    out
}

/// The result of a probe: a form with a card for each offered video, or a message.
pub open spec fn probe_result_html(
    submitted: Seq<char>,
    entries: Seq<EntryView>,
    single: Option<EntryView>,
    error: Option<Seq<char>>,
) -> Seq<char> {
    let cards = offered(submitted, entries, single);
    if cards.len() > 0 {
        offer_form_html(offer_cards_html(cards), cards.len())
    } else {
        offer_failure_html(failure_text(error))
    }
}

/// Renders the result of a probe.
pub fn render_probe_result(
    submitted_url: &str,
    entries: &[FlatEntry],
    single: Option<&FlatEntry>,
    error: Option<&str>,
) -> (r: String)
    ensures
        r@ == probe_result_html(
            submitted_url@,
            entry_views(entries@),
            opt_entry(single),
            opt_str(error),
        ),
        ({
            let values = form::checkbox_values(r@);
            let offers = offered(submitted_url@, entry_views(entries@), opt_entry(single));
            &&& values.len() == offers.len()
            &&& forall|i: int|
                0 <= i < offers.len() ==> approval_in(markup::unescaped(#[trigger] values[i]))
                    == Some(offers[i].written())
        }),
{
    let cards: Vec<ApprovalEntry> = offer(submitted_url, entries, single);
    assert(approvals(cards@).len() == cards@.len());
    proof {
        law_page_carries_the_offers(
            submitted_url@,
            entry_views(entries@),
            opt_entry(single),
            opt_str(error),
        );
    }
    if cards.len() > 0 {
        offer_form(offer_cards(&cards).as_str(), cards.len())
    } else {
        match error {
            Some(msg) => offer_failure(msg),
            None => offer_failure("no videos extracted"),
        }
    }
}

// ---- notices

/// A short notice.
pub open spec fn ack_html(msg: Seq<char>, err: bool) -> Seq<char> {
    (if err {
        "<div class=\"ack err\">"@
    } else {
        "<div class=\"ack\">"@
    }) + markup::escaped(msg) + "</div>"@
}

/// Renders a short notice.
pub fn render_ack(msg: &str, err: bool) -> (r: String)
    ensures
        r@ == ack_html(msg@, err),
{
    let mut out = if err {
        "<div class=\"ack err\">".to_string()
    } else {
        "<div class=\"ack\">".to_string()
    };
    out.append(markup::html(msg).as_str());
    out.append("</div>");
    out
}

/// The banner is hidden exactly where nothing is active and nothing waits.
pub proof fn law_banner_hides_only_when_idle(active: Option<ItemView>, pending: nat)
    ensures
        banner(active, pending).title.len() == 0 <==> active is None && pending == 0,
        active is None && pending == 0 ==> banner(active, pending) == idle_banner(),
{
    reveal_strlit("<span class=\"bn-title\">Waiting&hellip;</span><span class=\"bn-queued\">");
    reveal_strlit("<span class=\"bn-title\">");
}

/// Cards are shown newest first: the item that was enqueued last is on top.
pub proof fn law_newest_card_is_on_top(items: Seq<ItemView>, item: ItemView)
    ensures
        cards_html(items.push(item)) == card_html(item) + cards_html(items),
{
    assert(items.push(item).drop_last() =~= items);
}

// ---- what a browser reads from the result of a probe

proof fn lemma_dec_is_quiet(n: nat)
    ensures
        form::quiet(text::dec(n)),
{
    text::lemma_dec_nonempty(n);
    form::lemma_plain_is_quiet(text::dec(n));
}

proof fn lemma_escaped_is_quiet(s: Seq<char>)
    ensures
        form::quiet(markup::escaped(s)),
{
    markup::law_escaped_is_inert(s);
    assert forall|i: int| 0 <= i < markup::escaped(s).len() implies markup::escaped(s)[i]
        != '"' by {
        assert(!markup::is_markup(markup::escaped(s)[i]));
    }
    form::lemma_plain_is_quiet(markup::escaped(s));
}

proof fn lemma_img_parts_are_quiet()
    ensures
        form::quiet("<img class=\"probe-img\" src=\""@),
        form::quiet("\" alt=\"\" loading=\"lazy\" referrerpolicy=\"no-referrer\">"@),
{
    reveal_strlit("<img class=\"probe-img\" src=\"");
    reveal_strlit("\" alt=\"\" loading=\"lazy\" referrerpolicy=\"no-referrer\">");
}

proof fn lemma_card_parts_are_quiet()
    ensures
        form::quiet("\" type=\"checkbox\" checked><span class=\"probe-idx\">"@),
        form::quiet("</span>"@),
        form::quiet("<span class=\"probe-label\">"@),
        form::quiet("</span><span class=\"probe-dur\">"@),
        form::quiet("</span></label>"@),
{
    reveal_strlit("\" type=\"checkbox\" checked><span class=\"probe-idx\">");
    reveal_strlit("</span>");
    reveal_strlit("<span class=\"probe-label\">");
    reveal_strlit("</span><span class=\"probe-dur\">");
    reveal_strlit("</span></label>");
}

proof fn lemma_form_front_is_quiet()
    ensures
        form::quiet(
            "<form class=\"probe-form\" hx-post=\"/confirm\" hx-target=\"#header-input\" hx-swap=\"innerHTML\"><div class=\"probe-list\">"@,
        ),
{
    reveal_strlit(
        "<form class=\"probe-form\" hx-post=\"/confirm\" hx-target=\"#header-input\" hx-swap=\"innerHTML\"><div class=\"probe-list\">",
    );
}

proof fn lemma_form_back_is_quiet()
    ensures
        form::quiet("</div><div class=\"probe-actions\"><button type=\"submit\">Confirm ("@),
        form::quiet(
            ")</button><button type=\"button\" hx-get=\"/header\" hx-target=\"#header-input\" hx-swap=\"innerHTML\">Cancel</button></div></form>"@,
        ),
{
    reveal_strlit("</div><div class=\"probe-actions\"><button type=\"submit\">Confirm (");
    reveal_strlit(
        ")</button><button type=\"button\" hx-get=\"/header\" hx-target=\"#header-input\" hx-swap=\"innerHTML\">Cancel</button></div></form>",
    );
}

proof fn lemma_failure_parts_are_quiet()
    ensures
        form::quiet("<div class=\"probe-error\"><span class=\"err\">"@),
        form::quiet(
            "</span><button type=\"button\" hx-get=\"/header\" hx-target=\"#header-input\" hx-swap=\"innerHTML\">Done</button></div>"@,
        ),
{
    reveal_strlit("<div class=\"probe-error\"><span class=\"err\">");
    reveal_strlit(
        "</span><button type=\"button\" hx-get=\"/header\" hx-target=\"#header-input\" hx-swap=\"innerHTML\">Done</button></div>",
    );
}

proof fn lemma_padded_is_quiet(n: nat, places: nat)
    ensures
        form::quiet(double::padded(n, places)),
        forall|i: int|
            0 <= i < double::padded(n, places).len() ==> double::padded(n, places)[i] != '"',
    decreases places,
{
    let s = double::padded(n, places);
    if places > 0 {
        lemma_padded_is_quiet(n / 10, (places - 1) as nat);
        let a = double::padded(n / 10, (places - 1) as nat);
        assert forall|i: int| 0 <= i < s.len() implies s[i] != '"' by {
            if i < a.len() {
                assert(s[i] == a[i]);
            } else {
                assert(s[i] == text::digit_char(n % 10));
            }
        }
    }
    form::lemma_plain_is_quiet(s);
}

proof fn lemma_duration_is_quiet(secs: Option<Double>)
    ensures
        form::quiet(duration_text(secs)),
{
    form::lemma_plain_is_quiet(Seq::<char>::empty());
    reveal_strlit(":");
    form::lemma_plain_is_quiet(":"@);
    if let Some(e) = secs {
        if e.positive() {
            let s = e.truncated();
            lemma_padded_is_quiet((s % 60) as nat, 2);
            if s / 3600 > 0 {
                lemma_dec_is_quiet((s / 3600) as nat);
                lemma_padded_is_quiet(((s % 3600) / 60) as nat, 2);
                let h = text::dec((s / 3600) as nat);
                let m = double::padded(((s % 3600) / 60) as nat, 2);
                form::lemma_quiet_joined(h, ":"@);
                form::lemma_quiet_joined(h + ":"@, m);
                form::lemma_quiet_joined(h + ":"@ + m, ":"@);
                form::lemma_quiet_joined(
                    h + ":"@ + m + ":"@,
                    double::padded((s % 60) as nat, 2),
                );
            } else {
                let m = text::dec(((s % 3600) / 60) as nat);
                lemma_dec_is_quiet(((s % 3600) / 60) as nat);
                form::lemma_quiet_joined(m, ":"@);
                form::lemma_quiet_joined(m + ":"@, double::padded((s % 60) as nat, 2));
            }
        }
    }
}

proof fn lemma_thumb_is_quiet(o: Option<Seq<char>>)
    ensures
        form::quiet(offer_thumb_html(o)),
{
    form::lemma_plain_is_quiet(Seq::<char>::empty());
    if let Some(url) = o {
        let a = "<img class=\"probe-img\" src=\""@;
        let b = "\" alt=\"\" loading=\"lazy\" referrerpolicy=\"no-referrer\">"@;
        lemma_img_parts_are_quiet();
        lemma_escaped_is_quiet(url);
        form::lemma_quiet_joined(a, markup::escaped(url));
        form::lemma_quiet_joined(a + markup::escaped(url), b);
    }
}

/// What stands behind the value in the card of an offered video.
spec fn behind_value(e: ApprovalView, idx: nat) -> Seq<char> {
    "\" type=\"checkbox\" checked><span class=\"probe-idx\">"@
        + text::dec(idx)
        + "</span>"@
        + offer_thumb_html(e.thumbnail)
        + "<span class=\"probe-label\">"@
        + markup::escaped(e.label())
        + "</span><span class=\"probe-dur\">"@
        + duration_text(e.duration)
        + "</span></label>"@
}

proof fn lemma_behind_value_is_quiet(e: ApprovalView, idx: nat)
    ensures
        form::quiet(behind_value(e, idx)),
        behind_value(e, idx).len() > 0,
        behind_value(e, idx)[0] == '"',
        behind_value(e, idx).last() == '>',
{
    lemma_card_parts_are_quiet();
    lemma_dec_is_quiet(idx);
    lemma_thumb_is_quiet(e.thumbnail);
    lemma_escaped_is_quiet(e.label());
    lemma_duration_is_quiet(e.duration);
    let p1 = "\" type=\"checkbox\" checked><span class=\"probe-idx\">"@;
    let p2 = p1 + text::dec(idx);
    let p3 = p2 + "</span>"@;
    let p4 = p3 + offer_thumb_html(e.thumbnail);
    let p5 = p4 + "<span class=\"probe-label\">"@;
    let p6 = p5 + markup::escaped(e.label());
    let p7 = p6 + "</span><span class=\"probe-dur\">"@;
    let p8 = p7 + duration_text(e.duration);
    form::lemma_quiet_joined(p1, text::dec(idx));
    form::lemma_quiet_joined(p2, "</span>"@);
    form::lemma_quiet_joined(p3, offer_thumb_html(e.thumbnail));
    form::lemma_quiet_joined(p4, "<span class=\"probe-label\">"@);
    form::lemma_quiet_joined(p5, markup::escaped(e.label()));
    form::lemma_quiet_joined(p6, "</span><span class=\"probe-dur\">"@);
    form::lemma_quiet_joined(p7, duration_text(e.duration));
    form::lemma_quiet_joined(p8, "</span></label>"@);
    reveal_strlit("\" type=\"checkbox\" checked><span class=\"probe-idx\">");
    reveal_strlit("</span></label>");
    assert(p1[0] == '"');
    assert("</span></label>"@.last() == '>');
}

/// The front of a checkbox holds no value of its own.
proof fn lemma_input_front(x: Seq<char>)
    requires
        x.len() > 0,
        x[0] == 'n',
    ensures
        form::checkbox_values("<input "@ + x) == form::checkbox_values(x),
{
    reveal_strlit("<input ");
    form::lemma_opening();
    let s = "<input "@ + x;
    assert forall|i: int| 0 <= i < 7 implies !form::opens_at(s, i) by {
        if form::opens_at(s, i) {
            let o = s.subrange(i, i + 20);
            assert(o[0] == s[i] && o[1] == s[i + 1]);
            assert(s[i] == "<input "@[i]);
            assert(i == 2);
            assert(s[3] == 'p');
        }
    }
    form::lemma_skip(s, 7);
    assert(s.skip(7) =~= x);
}

proof fn lemma_card_front()
    ensures
        "<label class=\"probe-card\"><input name=\"entry\" value=\""@ =~= "<label class=\"probe-card\">"@
            + ("<input "@ + form::opening()),
        form::quiet("<label class=\"probe-card\">"@),
        "<label class=\"probe-card\">"@.len() > 0,
        "<label class=\"probe-card\">"@.last() == '>',
{
    reveal_strlit("<label class=\"probe-card\"><input name=\"entry\" value=\"");
    reveal_strlit("<label class=\"probe-card\">");
    reveal_strlit("<input ");
    form::lemma_opening();
}

/// The card of an offered video holds one value: its JSON, escaped.
proof fn lemma_card_value(e: ApprovalView, blob: Seq<char>, idx: nat, t: Seq<char>)
    ensures
        form::checkbox_values(offer_card_html(e, blob, idx) + t) == seq![markup::escaped(blob)]
            + form::checkbox_values(t),
{
    let v = markup::escaped(blob);
    let rest = behind_value(e, idx);
    let front = "<label class=\"probe-card\">"@;
    let x = form::opening() + (v + rest) + t;
    lemma_card_front();
    lemma_behind_value_is_quiet(e, idx);
    markup::law_escaped_is_inert(blob);
    assert forall|i: int| 0 <= i < v.len() implies v[i] != '"' by {
        assert(!markup::is_markup(v[i]));
    }
    assert(offer_card_html(e, blob, idx) + t =~= front + ("<input "@ + x));
    form::lemma_pass(front, "<input "@ + x);
    assert(x.len() > 0 && x[0] == 'n') by {
        form::lemma_opening();
    }
    lemma_input_front(x);
    form::lemma_value(v, rest, t);
}

/// The values that the checkboxes of offered videos carry, as they are written.
pub open spec fn carried(v: Seq<ApprovalView>) -> Seq<Seq<char>> {
    v.map_values(|e: ApprovalView| markup::escaped(e.blob()))
}

proof fn lemma_cards_values(v: Seq<ApprovalView>, t: Seq<char>)
    ensures
        form::checkbox_values(offer_cards_html(v) + t) == carried(v) + form::checkbox_values(t),
    decreases v.len(),
{
    if v.len() == 0 {
        assert(offer_cards_html(v) + t =~= t);
        assert(carried(v) + form::checkbox_values(t) =~= form::checkbox_values(t));
    } else {
        let e = v.last();
        let card = offer_card_html(e, e.blob(), v.len());
        let front = offer_cards_html(v.drop_last());
        assert(offer_cards_html(v) + t =~= front + (card + t));
        lemma_cards_values(v.drop_last(), card + t);
        lemma_card_value(e, e.blob(), v.len(), t);
        assert(carried(v) =~= carried(v.drop_last()).push(markup::escaped(e.blob())));
        assert(carried(v.drop_last()) + (seq![markup::escaped(e.blob())] + form::checkbox_values(t))
            =~= carried(v) + form::checkbox_values(t));
    }
}

proof fn lemma_form_values(v: Seq<ApprovalView>)
    ensures
        form::checkbox_values(offer_form_html(offer_cards_html(v), v.len())) == carried(v),
{
    let front =
        "<form class=\"probe-form\" hx-post=\"/confirm\" hx-target=\"#header-input\" hx-swap=\"innerHTML\"><div class=\"probe-list\">"@;
    let a = "</div><div class=\"probe-actions\"><button type=\"submit\">Confirm ("@;
    let b =
        ")</button><button type=\"button\" hx-get=\"/header\" hx-target=\"#header-input\" hx-swap=\"innerHTML\">Cancel</button></div></form>"@;
    let back = a + text::dec(v.len()) + b;
    lemma_form_front_is_quiet();
    lemma_form_back_is_quiet();
    lemma_dec_is_quiet(v.len());
    form::lemma_quiet_joined(a, text::dec(v.len()));
    form::lemma_quiet_joined(a + text::dec(v.len()), b);
    assert(offer_form_html(offer_cards_html(v), v.len()) =~= front + (offer_cards_html(v) + back));
    assert(front.len() > 0 && front.last() == '>') by {
        reveal_strlit(
            "<form class=\"probe-form\" hx-post=\"/confirm\" hx-target=\"#header-input\" hx-swap=\"innerHTML\"><div class=\"probe-list\">",
        );
    }
    form::lemma_pass(front, offer_cards_html(v) + back);
    lemma_cards_values(v, back);
    form::lemma_quiet_has_none(back);
    assert(carried(v) + form::checkbox_values(back) =~= carried(v));
}

/// Whether a text stands in a page.
#[verifier::opaque]
pub open spec fn shows(page: Seq<char>, part: Seq<char>) -> bool {
    exists|i: int|
        0 <= i && i + part.len() <= page.len() && #[trigger] page.subrange(i, i + part.len())
            == part
}

pub proof fn lemma_shows(a: Seq<char>, part: Seq<char>, b: Seq<char>)
    ensures
        shows(a + part + b, part),
{
    reveal(shows);
    let page = a + part + b;
    assert(page.subrange(a.len() as int, a.len() as int + part.len()) =~= part);
}

/// What a page shows, it shows with more behind it.
pub broadcast proof fn lemma_shown_before(a: Seq<char>, b: Seq<char>, part: Seq<char>)
    requires
        shows(a, part),
    ensures
        #[trigger] shows(a + b, part),
{
    reveal(shows);
    let i = choose|i: int|
        0 <= i && i + part.len() <= a.len() && #[trigger] a.subrange(i, i + part.len()) == part;
    assert((a + b).subrange(i, i + part.len()) =~= a.subrange(i, i + part.len()));
}

/// What a page shows, it shows with more in front of it.
pub broadcast proof fn lemma_shown_behind(a: Seq<char>, b: Seq<char>, part: Seq<char>)
    requires
        shows(b, part),
    ensures
        #[trigger] shows(a + b, part),
{
    reveal(shows);
    let i = choose|i: int|
        0 <= i && i + part.len() <= b.len() && #[trigger] b.subrange(i, i + part.len()) == part;
    let k = a.len() + i;
    assert((a + b).subrange(k, k + part.len()) =~= b.subrange(i, i + part.len()));
}

/// A page shows itself.
pub proof fn lemma_shows_itself(page: Seq<char>)
    ensures
        shows(page, page),
{
    reveal(shows);
    assert(page.subrange(0, 0int + page.len()) =~= page);
}

/// A value is shown together with the end of what stands before it and the start of what stands behind
/// it.
pub proof fn lemma_shows_between(
    a: Seq<char>,
    before: Seq<char>,
    value: Seq<char>,
    behind: Seq<char>,
    cut: (Seq<char>, Seq<char>),
    start: (Seq<char>, Seq<char>),
)
    requires
        before == cut.0 + cut.1,
        behind == start.0 + start.1,
    ensures
        shows(a + before + value + behind, cut.1 + value + start.0),
        shows(before + value + behind, cut.1 + value + start.0),
{
    let part = cut.1 + value + start.0;
    lemma_shows(a + cut.0, part, start.1);
    assert(a + cut.0 + part + start.1 =~= a + before + value + behind);
    lemma_shows(cut.0, part, start.1);
    assert(cut.0 + part + start.1 =~= before + value + behind);
}

/// The message where nothing is offered.
pub open spec fn failure_text(error: Option<Seq<char>>) -> Seq<char> {
    match error {
        Some(msg) => msg,
        None => "no videos extracted"@,
    }
}

proof fn lemma_failure_page(msg: Seq<char>)
    ensures
        form::checkbox_values(offer_failure_html(msg)).len() == 0,
        shows(offer_failure_html(msg), markup::escaped(msg)),
        shows(offer_failure_html(msg), ">Done</button>"@),
{
    let a = "<div class=\"probe-error\"><span class=\"err\">"@;
    let b =
        "</span><button type=\"button\" hx-get=\"/header\" hx-target=\"#header-input\" hx-swap=\"innerHTML\">Done</button></div>"@;
    let m = markup::escaped(msg);
    lemma_failure_parts_are_quiet();
    lemma_escaped_is_quiet(msg);
    form::lemma_quiet_joined(a, m);
    form::lemma_quiet_joined(a + m, b);
    form::lemma_quiet_has_none(offer_failure_html(msg));
    lemma_shows(a, m, b);
    let b1 =
        "</span><button type=\"button\" hx-get=\"/header\" hx-target=\"#header-input\" hx-swap=\"innerHTML\""@;
    let done = ">Done</button>"@;
    let b2 = "</div>"@;
    assert(b =~= b1 + done + b2) by {
        reveal_strlit(
            "</span><button type=\"button\" hx-get=\"/header\" hx-target=\"#header-input\" hx-swap=\"innerHTML\">Done</button></div>",
        );
        reveal_strlit(
            "</span><button type=\"button\" hx-get=\"/header\" hx-target=\"#header-input\" hx-swap=\"innerHTML\"",
        );
        reveal_strlit(">Done</button>");
        reveal_strlit("</div>");
    }
    lemma_shows(a + m + b1, done, b2);
    assert(offer_failure_html(msg) =~= (a + m + b1) + done + b2);
}

/// The result of a probe carries the offered videos through the page: the values of its checkboxes
/// are, in order, the JSON of the offered videos, as a browser reads them back; one for each entry
/// of a playlist, and one for a single video. Where nothing is offered there is no checkbox, and the
/// page shows the reason and a button.
pub proof fn law_page_carries_the_offers(
    submitted: Seq<char>,
    entries: Seq<EntryView>,
    single: Option<EntryView>,
    error: Option<Seq<char>>,
)
    ensures
        ({
            let page = probe_result_html(submitted, entries, single, error);
            let values = form::checkbox_values(page);
            let offers = offered(submitted, entries, single);
            &&& values == carried(offers)
            &&& values.len() == offers.len()
            &&& forall|i: int|
                0 <= i < offers.len() ==> markup::unescaped(#[trigger] values[i])
                    == offers[i].blob()
            &&& entries.len() > 0 ==> values.len() == entries.len()
            &&& entries.len() == 0 && single is Some ==> values.len() == 1
            &&& entries.len() == 0 && single is None ==> {
                &&& values.len() == 0
                &&& shows(page, markup::escaped(failure_text(error)))
                &&& shows(page, ">Done</button>"@)
            }
        }),
{
    let offers = offered(submitted, entries, single);
    if offers.len() > 0 {
        lemma_form_values(offers);
    } else {
        lemma_failure_page(failure_text(error));
        assert(carried(offers) =~= Seq::<Seq<char>>::empty());
        assert(form::checkbox_values(probe_result_html(submitted, entries, single, error)) =~= carried(
            offers,
        ));
    }
    assert forall|i: int| 0 <= i < offers.len() implies markup::unescaped(
        #[trigger] carried(offers)[i],
    ) == offers[i].blob() by {
        markup::law_escape_reads_back(offers[i].blob());
    }
}

/// For a single video the submitted URL is offered, whatever URL the probe reports.
pub proof fn law_single_video_keeps_submitted_url(submitted: Seq<char>, single: EntryView)
    ensures
        offered(submitted, Seq::empty(), Some(single)).len() == 1,
        offered(submitted, Seq::empty(), Some(single))[0].url == submitted,
{
}

// ---- what the banner shows

/// Whether the bar and the progress text of a banner show a percentage.
pub open spec fn shows_percent(b: StatusView, m: nat) -> bool {
    &&& b.bar == "<i style=\"width:"@ + text::dec(m) + "%\"></i>"@
    &&& shows(b.meta, "<span class=\"bn-pct\">"@ + text::dec(m) + "%</span>"@)
}

proof fn lemma_percent_shown(item: ItemView, pending: nat, p: ProgressView, v: Double)
    requires
        item.progress == Some(p),
        p.share() == Some(v),
        v.finite(),
        !v.negative(),
        v.held() == v,
    ensures
        ({
            let (n, d) = v.ratio();
            shows_percent(banner(Some(item), pending), double::half_even(n, d))
        }),
{
    broadcast use {lemma_shown_before, lemma_shown_behind};

    v.law_written_as_nearest_integer();
    let (n, d) = v.ratio();
    let m = text::dec(double::half_even(n, d));
    assert(shown_percent(item.progress) == v);
    let before = ("</span>"@, "<span class=\"bn-pct\">"@);
    assert("</span><span class=\"bn-pct\">"@ == before.0 + before.1) by {
        reveal_strlit("</span><span class=\"bn-pct\">");
        reveal_strlit("</span>");
        reveal_strlit("<span class=\"bn-pct\">");
    }
    let behind = ("%</span>"@, "<span class=\"bn-right\">"@);
    assert("%</span><span class=\"bn-right\">"@ == behind.0 + behind.1) by {
        reveal_strlit("%</span><span class=\"bn-right\">");
        reveal_strlit("%</span>");
        reveal_strlit("<span class=\"bn-right\">");
    }
    let b = banner(Some(item), pending);
    let eta = eta_label(p.eta);
    lemma_shows_between(
        "<span class=\"bn-left\">"@ + dotted(duration_text(item.duration), eta),
        "</span><span class=\"bn-pct\">"@,
        m,
        "%</span><span class=\"bn-right\">"@,
        before,
        behind,
    );
}

/// The bar and the progress text show the percentage that yt-dlp reports, rounded to a whole number:
/// as it is between zero and a hundred, a hundred where it is larger, and zero where it is negative.
pub proof fn law_reported_percent_is_shown(item: ItemView, pending: nat, p: ProgressView, v: Double)
    requires
        item.progress == Some(p),
        p.percent == Some(v),
        !v.nan(),
    ensures
        ({
            let b = banner(Some(item), pending);
            let (n, d) = v.ratio();
            &&& !v.negative() && v.finite() && n <= 100 * d ==> exists|m: nat|
                #[trigger] double::is_nearest(n, d, m) && m <= 100 && shows_percent(b, m)
            &&& !v.negative() && v.finite() ==> forall|m: nat|
                m <= 100 && n == m * d ==> #[trigger] shows_percent(b, m)
            &&& !v.negative() && (v.infinite() || n > 100 * d) ==> shows_percent(b, 100)
            &&& v.negative() && !v.zero() ==> shows_percent(b, 0)
        }),
{
    let h = v.held();
    v.law_held_lies_between();
    h.lemma_ratio();
    v.lemma_ratio();
    let b = banner(Some(item), pending);
    let (n, d) = v.ratio();
    let (hn, hd) = h.ratio();
    if !v.negative() || !v.zero() {
        lemma_percent_shown(item, pending, p, h);
    }
    double::law_rounding_is_to_the_nearest(hn, hd, 100);
    double::law_rounding_is_to_the_nearest(hn, hd, 0);
    assert(0 * hd == 0);
    if !v.negative() && v.finite() && n <= 100 * d {
        assert(double::is_nearest(n, d, double::half_even(n, d)));
    }
    if !v.negative() && v.finite() {
        assert forall|m: nat| m <= 100 && n == m * d implies #[trigger] shows_percent(b, m) by {
            assert(n <= 100 * d) by (nonlinear_arith)
                requires
                    m <= 100,
                    n == m * d,
            ;
            double::law_rounding_is_to_the_nearest(n, d, m);
        }
    }
}

/// Without a percentage as a number, the one that the report has as text counts, and without that the
/// share of the bytes; the banner shows it like a percentage that was reported as a number.
pub proof fn law_percent_has_a_fallback(
    item: ItemView,
    pending: nat,
    p: ProgressView,
    lead: nat,
    t: Seq<char>,
    v: Double,
)
    requires
        item.progress == Some(p),
        p.percent is None,
        t.len() > 0,
        !text::is_white(t[0]),
        t.last() != '%',
    ensures
        ({
            let b = banner(Some(item), pending);
            let as_number = |w: Double|
                banner(
                    Some(
                        ItemView {
                            progress: Some(ProgressView { percent: Some(w), ..p }),
                            ..item
                        },
                    ),
                    pending,
                );
            &&& p.percent_str == Some(Seq::new(lead, |i: int| ' ') + t + seq!['%'])
                && number::float(t) == Some(v) ==> b == as_number(v)
            &&& p.percent_str is None && p.downloaded_bytes is Some && p.total_bytes is Some
                && p.total_bytes->0.positive() ==> b == as_number(
                p.downloaded_bytes->0.quotient(p.total_bytes->0).product(
                    Double { bits: 0x4059_0000_0000_0000 },
                ),
            )
            &&& p.percent_str is None && p.downloaded_bytes is None ==> b.bar
                == "<i style=\"width:0%\"></i>"@
        }),
{
    let s = Seq::new(lead, |i: int| ' ') + t + seq!['%'];
    lemma_padded_percent(lead, t);
    let z = Double { bits: 0 };
    assert(z.significand() == 0 && !z.negative() && z.finite());
    z.law_written_as_nearest_integer();
    z.lemma_ratio();
    z.law_held_lies_between();
    assert(0 * double::scale(z.exponent()) == 0);
    double::law_rounding_is_to_the_nearest(0, z.ratio().1, 0);
    assert(0 * z.ratio().1 == 0);
    assert(text::dec(0) =~= seq!['0']);
    reveal_strlit("<i style=\"width:0%\"></i>");
    reveal_strlit("<i style=\"width:");
    reveal_strlit("%\"></i>");
    assert("<i style=\"width:"@ + text::dec(0) + "%\"></i>"@ =~= "<i style=\"width:0%\"></i>"@);
}

proof fn lemma_padded_percent(lead: nat, t: Seq<char>)
    requires
        t.len() > 0,
        !text::is_white(t[0]),
        t.last() != '%',
    ensures
        text::cut_end(text::trimmed(Seq::new(lead, |i: int| ' ') + t + seq!['%']), '%') == t,
    decreases lead,
{
    let s = Seq::new(lead, |i: int| ' ') + t + seq!['%'];
    if lead > 0 {
        let fewer = Seq::new((lead - 1) as nat, |i: int| ' ') + t + seq!['%'];
        assert(s.drop_first() =~= fewer);
        lemma_padded_percent((lead - 1) as nat, t);
    } else {
        assert(s =~= t + seq!['%']);
        assert(s[0] == t[0]);
        assert(s.last() == '%');
        assert(text::trimmed(s) == s);
        assert(s.drop_last() =~= t);
        reveal_with_fuel(text::cut_end, 2);
    }
}

/// Where the total size is unknown, the estimate of it stands in its place.
pub proof fn law_estimate_stands_for_the_total(item: ItemView, pending: nat, p: ProgressView)
    requires
        item.progress == Some(p),
        p.total_bytes is None,
    ensures
        ({
            let with_total = ProgressView { total_bytes: p.total_bytes_estimate, ..p };
            banner(Some(item), pending) == banner(
                Some(ItemView { progress: Some(with_total), ..item }),
                pending,
            )
        }),
{
}

// ---- what the cards show

/// A card is that of its item: it is found and replaced under the id, leads to the page of the item, and
/// shows its status and its label.
pub proof fn law_card_names_its_item(item: ItemView)
    ensures
        shows(card_html(item), "id=\"card-"@ + text::dec(item.id as nat) + "\""@),
        shows(card_html(item), "sse-swap=\"card-"@ + text::dec(item.id as nat) + "\""@),
        shows(card_html(item), "href=\"/item/"@ + text::dec(item.id as nat) + "\""@),
        shows(card_html(item), "\">"@ + item.status.text() + "</span>"@),
        shows(
            card_html(item),
            "<span class=\"card-label\">"@ + markup::escaped(item.label()) + "</span>"@,
        ),
{
    broadcast use {lemma_shown_before, lemma_shown_behind};

    reveal(card_html);
    assert("\" id=\"card-"@ == "\" "@ + "id=\"card-"@) by {
        reveal_strlit("\" id=\"card-");
        reveal_strlit("\" ");
        reveal_strlit("id=\"card-");
    }
    assert("\" sse-swap=\"card-"@ == "\""@ + " sse-swap=\"card-"@) by {
        reveal_strlit("\" sse-swap=\"card-");
        reveal_strlit("\"");
        reveal_strlit(" sse-swap=\"card-");
    }
    lemma_shows_between(
        "<article class=\"card card-"@ + item.status.text(),
        "\" id=\"card-"@,
        text::dec(item.id as nat),
        "\" sse-swap=\"card-"@,
        ("\" "@, "id=\"card-"@),
        ("\""@, " sse-swap=\"card-"@),
    );
    assert("\" sse-swap=\"card-"@ == "\" "@ + "sse-swap=\"card-"@) by {
        reveal_strlit("\" sse-swap=\"card-");
        reveal_strlit("\" ");
        reveal_strlit("sse-swap=\"card-");
    }
    assert("\" hx-swap=\"outerHTML\" data-id=\""@
        == "\""@ + " hx-swap=\"outerHTML\" data-id=\""@) by {
        reveal_strlit("\" hx-swap=\"outerHTML\" data-id=\"");
        reveal_strlit("\"");
        reveal_strlit(" hx-swap=\"outerHTML\" data-id=\"");
    }
    lemma_shows_between(
        "<article class=\"card card-"@ + item.status.text() + "\" id=\"card-"@
            + text::dec(item.id as nat),
        "\" sse-swap=\"card-"@,
        text::dec(item.id as nat),
        "\" hx-swap=\"outerHTML\" data-id=\""@,
        ("\" "@, "sse-swap=\"card-"@),
        ("\""@, " hx-swap=\"outerHTML\" data-id=\""@),
    );
    assert("\"><a class=\"card-link\" href=\"/item/"@
        == "\"><a class=\"card-link\" "@ + "href=\"/item/"@) by {
        reveal_strlit("\"><a class=\"card-link\" href=\"/item/");
        reveal_strlit("\"><a class=\"card-link\" ");
        reveal_strlit("href=\"/item/");
    }
    assert("\" target=\"_blank\" rel=\"noopener\" aria-label=\""@
        == "\""@ + " target=\"_blank\" rel=\"noopener\" aria-label=\""@) by {
        reveal_strlit("\" target=\"_blank\" rel=\"noopener\" aria-label=\"");
        reveal_strlit("\"");
        reveal_strlit(" target=\"_blank\" rel=\"noopener\" aria-label=\"");
    }
    lemma_shows_between(
        "<article class=\"card card-"@ + item.status.text() + "\" id=\"card-"@
            + text::dec(item.id as nat) + "\" sse-swap=\"card-"@ + text::dec(item.id as nat)
            + "\" hx-swap=\"outerHTML\" data-id=\""@ + text::dec(item.id as nat),
        "\"><a class=\"card-link\" href=\"/item/"@,
        text::dec(item.id as nat),
        "\" target=\"_blank\" rel=\"noopener\" aria-label=\""@,
        ("\"><a class=\"card-link\" "@, "href=\"/item/"@),
        ("\""@, " target=\"_blank\" rel=\"noopener\" aria-label=\""@),
    );
    assert("\">"@ == Seq::<char>::empty() + "\">"@);
    assert("</span>"@ == "</span>"@ + Seq::<char>::empty());
    lemma_shows_between(
        "<article class=\"card card-"@ + item.status.text() + "\" id=\"card-"@
            + text::dec(item.id as nat) + "\" sse-swap=\"card-"@ + text::dec(item.id as nat)
            + "\" hx-swap=\"outerHTML\" data-id=\""@ + text::dec(item.id as nat)
            + "\"><a class=\"card-link\" href=\"/item/"@ + text::dec(item.id as nat)
            + "\" target=\"_blank\" rel=\"noopener\" aria-label=\""@
            + markup::escaped(item.label()) + "\"></a><div class=\"card-thumb\">"@
            + card_thumb_html(item.thumbnail) + "<span class=\"card-badge badge-"@
            + item.status.text(),
        "\">"@,
        item.status.text(),
        "</span>"@,
        (Seq::<char>::empty(), "\">"@),
        ("</span>"@, Seq::<char>::empty()),
    );
    assert("</span></div><div class=\"card-body\"><span class=\"card-label\">"@
        == "</span></div><div class=\"card-body\">"@ + "<span class=\"card-label\">"@) by {
        reveal_strlit("</span></div><div class=\"card-body\"><span class=\"card-label\">");
        reveal_strlit("</span></div><div class=\"card-body\">");
        reveal_strlit("<span class=\"card-label\">");
    }
    assert("</span>"@ == "</span>"@ + Seq::<char>::empty());
    lemma_shows_between(
        "<article class=\"card card-"@ + item.status.text() + "\" id=\"card-"@
            + text::dec(item.id as nat) + "\" sse-swap=\"card-"@ + text::dec(item.id as nat)
            + "\" hx-swap=\"outerHTML\" data-id=\""@ + text::dec(item.id as nat)
            + "\"><a class=\"card-link\" href=\"/item/"@ + text::dec(item.id as nat)
            + "\" target=\"_blank\" rel=\"noopener\" aria-label=\""@
            + markup::escaped(item.label()) + "\"></a><div class=\"card-thumb\">"@
            + card_thumb_html(item.thumbnail) + "<span class=\"card-badge badge-"@
            + item.status.text() + "\">"@ + item.status.text() + "</span>"@
            + card_duration_html(item.duration) + "<span class=\"card-overlay\">"@
            + card_actions_html(item.status, item.id, item.filename),
        "</span></div><div class=\"card-body\"><span class=\"card-label\">"@,
        markup::escaped(item.label()),
        "</span>"@,
        ("</span></div><div class=\"card-body\">"@, "<span class=\"card-label\">"@),
        ("</span>"@, Seq::<char>::empty()),
    );
}

/// A card holds its thumbnail, its duration, its actions and its error, each as it is rendered.
pub proof fn law_card_holds_its_parts(item: ItemView)
    ensures
        shows(card_html(item), card_thumb_html(item.thumbnail)),
        shows(card_html(item), card_duration_html(item.duration)),
        shows(card_html(item), card_actions_html(item.status, item.id, item.filename)),
        shows(card_html(item), card_error_html(item.error)),
{
    broadcast use {lemma_shown_before, lemma_shown_behind};

    reveal(card_html);
    lemma_shows_itself(card_thumb_html(item.thumbnail));
    lemma_shows_itself(card_duration_html(item.duration));
    lemma_shows_itself(card_actions_html(item.status, item.id, item.filename));
    lemma_shows_itself(card_error_html(item.error));
}

/// The thumbnail of a card is that of the item.
pub proof fn law_card_shows_the_thumbnail(name: Seq<char>)
    ensures
        shows(card_thumb_html(Some(name)), "src=\"/thumb/"@ + markup::percent(name) + "\""@),
{
    broadcast use {lemma_shown_before, lemma_shown_behind};

    assert("<img class=\"card-img\" src=\"/thumb/"@
        == "<img class=\"card-img\" "@ + "src=\"/thumb/"@) by {
        reveal_strlit("<img class=\"card-img\" src=\"/thumb/");
        reveal_strlit("<img class=\"card-img\" ");
        reveal_strlit("src=\"/thumb/");
    }
    assert("\" alt=\"\" loading=\"lazy\">"@ == "\""@ + " alt=\"\" loading=\"lazy\">"@) by {
        reveal_strlit("\" alt=\"\" loading=\"lazy\">");
        reveal_strlit("\"");
        reveal_strlit(" alt=\"\" loading=\"lazy\">");
    }
    lemma_shows_between(
        Seq::empty(),
        "<img class=\"card-img\" src=\"/thumb/"@,
        markup::percent(name),
        "\" alt=\"\" loading=\"lazy\">"@,
        ("<img class=\"card-img\" "@, "src=\"/thumb/"@),
        ("\""@, " alt=\"\" loading=\"lazy\">"@),
    );
}

/// A card shows a duration where it is known and above zero, and an error where there is one, and
/// otherwise neither.
pub proof fn law_card_shows_duration_and_error(d: Double, msg: Seq<char>)
    ensures
        d.positive() ==> card_duration_html(Some(d)) == "<span class=\"card-dur\">"@ + duration_text(
            Some(d),
        ) + "</span>"@,
        !d.positive() ==> card_duration_html(Some(d)).len() == 0,
        card_duration_html(None).len() == 0,
        card_error_html(Some(msg)) == "<span class=\"card-error\">"@ + markup::escaped(msg)
            + "</span>"@,
        card_error_html(None).len() == 0,
{
    if d.positive() {
        let s = d.truncated();
        text::lemma_dec_nonempty((s / 3600) as nat);
        text::lemma_dec_nonempty(((s % 3600) / 60) as nat);
    }
}

/// A finished download can be saved, opened and deleted from its card.
pub proof fn law_done_card_offers_the_file(id: u64, name: Seq<char>)
    ensures
        shows(
            card_actions_html(ItemStatus::Done, id, Some(name)),
            "href=\"/file/"@ + markup::percent(name) + "?download=1\""@,
        ),
        shows(
            card_actions_html(ItemStatus::Done, id, Some(name)),
            "href=\"/file/"@ + markup::percent(name) + "?inline=1\""@,
        ),
        shows(
            card_actions_html(ItemStatus::Done, id, Some(name)),
            "hx-post=\"/delete-item/"@ + text::dec(id as nat) + "\""@,
        ),
{
    broadcast use {lemma_shown_before, lemma_shown_behind};

    assert("<a class=\"card-btn\" href=\"/file/"@
        == "<a class=\"card-btn\" "@ + "href=\"/file/"@) by {
        reveal_strlit("<a class=\"card-btn\" href=\"/file/");
        reveal_strlit("<a class=\"card-btn\" ");
        reveal_strlit("href=\"/file/");
    }
    assert("?download=1\" title=\"download to this device\"><img class=\"card-icon\" src=\"/static/icons/download.svg\" alt=\"\" width=\"16\" height=\"16\" loading=\"lazy\"></a><a class=\"card-btn\" href=\"/file/"@
        == "?download=1\""@
        + " title=\"download to this device\"><img class=\"card-icon\" src=\"/static/icons/download.svg\" alt=\"\" width=\"16\" height=\"16\" loading=\"lazy\"></a><a class=\"card-btn\" href=\"/file/"@) by {
        reveal_strlit("?download=1\" title=\"download to this device\"><img class=\"card-icon\" src=\"/static/icons/download.svg\" alt=\"\" width=\"16\" height=\"16\" loading=\"lazy\"></a><a class=\"card-btn\" href=\"/file/");
        reveal_strlit("?download=1\"");
        reveal_strlit(" title=\"download to this device\"><img class=\"card-icon\" src=\"/static/icons/download.svg\" alt=\"\" width=\"16\" height=\"16\" loading=\"lazy\"></a><a class=\"card-btn\" href=\"/file/");
    }
    lemma_shows_between(
        Seq::empty(),
        "<a class=\"card-btn\" href=\"/file/"@,
        markup::percent(name),
        "?download=1\" title=\"download to this device\"><img class=\"card-icon\" src=\"/static/icons/download.svg\" alt=\"\" width=\"16\" height=\"16\" loading=\"lazy\"></a><a class=\"card-btn\" href=\"/file/"@,
        ("<a class=\"card-btn\" "@, "href=\"/file/"@),
        ("?download=1\""@, " title=\"download to this device\"><img class=\"card-icon\" src=\"/static/icons/download.svg\" alt=\"\" width=\"16\" height=\"16\" loading=\"lazy\"></a><a class=\"card-btn\" href=\"/file/"@),
    );
    assert("?download=1\" title=\"download to this device\"><img class=\"card-icon\" src=\"/static/icons/download.svg\" alt=\"\" width=\"16\" height=\"16\" loading=\"lazy\"></a><a class=\"card-btn\" href=\"/file/"@
        == "?download=1\" title=\"download to this device\"><img class=\"card-icon\" src=\"/static/icons/download.svg\" alt=\"\" width=\"16\" height=\"16\" loading=\"lazy\"></a><a class=\"card-btn\" "@
        + "href=\"/file/"@) by {
        reveal_strlit("?download=1\" title=\"download to this device\"><img class=\"card-icon\" src=\"/static/icons/download.svg\" alt=\"\" width=\"16\" height=\"16\" loading=\"lazy\"></a><a class=\"card-btn\" href=\"/file/");
        reveal_strlit("?download=1\" title=\"download to this device\"><img class=\"card-icon\" src=\"/static/icons/download.svg\" alt=\"\" width=\"16\" height=\"16\" loading=\"lazy\"></a><a class=\"card-btn\" ");
        reveal_strlit("href=\"/file/");
    }
    assert("?inline=1\" target=\"_blank\" rel=\"noopener\" title=\"open/preview\"><img class=\"card-icon\" src=\"/static/icons/play.svg\" alt=\"\" width=\"16\" height=\"16\" loading=\"lazy\"></a><button class=\"card-btn\" hx-post=\"/delete-item/"@
        == "?inline=1\""@
        + " target=\"_blank\" rel=\"noopener\" title=\"open/preview\"><img class=\"card-icon\" src=\"/static/icons/play.svg\" alt=\"\" width=\"16\" height=\"16\" loading=\"lazy\"></a><button class=\"card-btn\" hx-post=\"/delete-item/"@) by {
        reveal_strlit("?inline=1\" target=\"_blank\" rel=\"noopener\" title=\"open/preview\"><img class=\"card-icon\" src=\"/static/icons/play.svg\" alt=\"\" width=\"16\" height=\"16\" loading=\"lazy\"></a><button class=\"card-btn\" hx-post=\"/delete-item/");
        reveal_strlit("?inline=1\"");
        reveal_strlit(" target=\"_blank\" rel=\"noopener\" title=\"open/preview\"><img class=\"card-icon\" src=\"/static/icons/play.svg\" alt=\"\" width=\"16\" height=\"16\" loading=\"lazy\"></a><button class=\"card-btn\" hx-post=\"/delete-item/");
    }
    lemma_shows_between(
        "<a class=\"card-btn\" href=\"/file/"@ + markup::percent(name),
        "?download=1\" title=\"download to this device\"><img class=\"card-icon\" src=\"/static/icons/download.svg\" alt=\"\" width=\"16\" height=\"16\" loading=\"lazy\"></a><a class=\"card-btn\" href=\"/file/"@,
        markup::percent(name),
        "?inline=1\" target=\"_blank\" rel=\"noopener\" title=\"open/preview\"><img class=\"card-icon\" src=\"/static/icons/play.svg\" alt=\"\" width=\"16\" height=\"16\" loading=\"lazy\"></a><button class=\"card-btn\" hx-post=\"/delete-item/"@,
        ("?download=1\" title=\"download to this device\"><img class=\"card-icon\" src=\"/static/icons/download.svg\" alt=\"\" width=\"16\" height=\"16\" loading=\"lazy\"></a><a class=\"card-btn\" "@, "href=\"/file/"@),
        ("?inline=1\""@, " target=\"_blank\" rel=\"noopener\" title=\"open/preview\"><img class=\"card-icon\" src=\"/static/icons/play.svg\" alt=\"\" width=\"16\" height=\"16\" loading=\"lazy\"></a><button class=\"card-btn\" hx-post=\"/delete-item/"@),
    );
    assert("?inline=1\" target=\"_blank\" rel=\"noopener\" title=\"open/preview\"><img class=\"card-icon\" src=\"/static/icons/play.svg\" alt=\"\" width=\"16\" height=\"16\" loading=\"lazy\"></a><button class=\"card-btn\" hx-post=\"/delete-item/"@
        == "?inline=1\" target=\"_blank\" rel=\"noopener\" title=\"open/preview\"><img class=\"card-icon\" src=\"/static/icons/play.svg\" alt=\"\" width=\"16\" height=\"16\" loading=\"lazy\"></a><button class=\"card-btn\" "@
        + "hx-post=\"/delete-item/"@) by {
        reveal_strlit("?inline=1\" target=\"_blank\" rel=\"noopener\" title=\"open/preview\"><img class=\"card-icon\" src=\"/static/icons/play.svg\" alt=\"\" width=\"16\" height=\"16\" loading=\"lazy\"></a><button class=\"card-btn\" hx-post=\"/delete-item/");
        reveal_strlit("?inline=1\" target=\"_blank\" rel=\"noopener\" title=\"open/preview\"><img class=\"card-icon\" src=\"/static/icons/play.svg\" alt=\"\" width=\"16\" height=\"16\" loading=\"lazy\"></a><button class=\"card-btn\" ");
        reveal_strlit("hx-post=\"/delete-item/");
    }
    assert("\" hx-target=\"#ack\" hx-swap=\"innerHTML\" hx-confirm=\"Delete "@
        == "\""@ + " hx-target=\"#ack\" hx-swap=\"innerHTML\" hx-confirm=\"Delete "@) by {
        reveal_strlit("\" hx-target=\"#ack\" hx-swap=\"innerHTML\" hx-confirm=\"Delete ");
        reveal_strlit("\"");
        reveal_strlit(" hx-target=\"#ack\" hx-swap=\"innerHTML\" hx-confirm=\"Delete ");
    }
    lemma_shows_between(
        "<a class=\"card-btn\" href=\"/file/"@ + markup::percent(name)
            + "?download=1\" title=\"download to this device\"><img class=\"card-icon\" src=\"/static/icons/download.svg\" alt=\"\" width=\"16\" height=\"16\" loading=\"lazy\"></a><a class=\"card-btn\" href=\"/file/"@
            + markup::percent(name),
        "?inline=1\" target=\"_blank\" rel=\"noopener\" title=\"open/preview\"><img class=\"card-icon\" src=\"/static/icons/play.svg\" alt=\"\" width=\"16\" height=\"16\" loading=\"lazy\"></a><button class=\"card-btn\" hx-post=\"/delete-item/"@,
        text::dec(id as nat),
        "\" hx-target=\"#ack\" hx-swap=\"innerHTML\" hx-confirm=\"Delete "@,
        ("?inline=1\" target=\"_blank\" rel=\"noopener\" title=\"open/preview\"><img class=\"card-icon\" src=\"/static/icons/play.svg\" alt=\"\" width=\"16\" height=\"16\" loading=\"lazy\"></a><button class=\"card-btn\" "@, "hx-post=\"/delete-item/"@),
        ("\""@, " hx-target=\"#ack\" hx-swap=\"innerHTML\" hx-confirm=\"Delete "@),
    );
}

/// A download that waits or runs can be cancelled from its card, one that failed or was cancelled can be
/// tried again or removed, and a finished one without a file can be removed.
pub proof fn law_cards_offer_what_can_be_done(id: u64, name: Option<Seq<char>>)
    ensures
        shows(
            card_actions_html(ItemStatus::Pending, id, name),
            "hx-post=\"/cancel/"@ + text::dec(id as nat) + "\""@,
        ),
        shows(
            card_actions_html(ItemStatus::Active, id, name),
            "hx-post=\"/cancel/"@ + text::dec(id as nat) + "\""@,
        ),
        shows(
            card_actions_html(ItemStatus::Failed, id, name),
            "hx-post=\"/retry/"@ + text::dec(id as nat) + "\""@,
        ),
        shows(
            card_actions_html(ItemStatus::Cancelled, id, name),
            "hx-post=\"/retry/"@ + text::dec(id as nat) + "\""@,
        ),
        shows(
            card_actions_html(ItemStatus::Failed, id, name),
            "hx-post=\"/delete-item/"@ + text::dec(id as nat) + "\""@,
        ),
        shows(
            card_actions_html(ItemStatus::Cancelled, id, name),
            "hx-post=\"/delete-item/"@ + text::dec(id as nat) + "\""@,
        ),
        shows(
            card_actions_html(ItemStatus::Done, id, None),
            "hx-post=\"/delete-item/"@ + text::dec(id as nat) + "\""@,
        ),
{
    broadcast use {lemma_shown_before, lemma_shown_behind};

    assert("<button class=\"card-btn\" hx-post=\"/cancel/"@
        == "<button class=\"card-btn\" "@ + "hx-post=\"/cancel/"@) by {
        reveal_strlit("<button class=\"card-btn\" hx-post=\"/cancel/");
        reveal_strlit("<button class=\"card-btn\" ");
        reveal_strlit("hx-post=\"/cancel/");
    }
    assert("\" hx-target=\"#ack\" hx-swap=\"innerHTML\" title=\"cancel download\"><img class=\"card-icon\" src=\"/static/icons/stop.svg\" alt=\"\" width=\"16\" height=\"16\" loading=\"lazy\"></button>"@
        == "\""@
        + " hx-target=\"#ack\" hx-swap=\"innerHTML\" title=\"cancel download\"><img class=\"card-icon\" src=\"/static/icons/stop.svg\" alt=\"\" width=\"16\" height=\"16\" loading=\"lazy\"></button>"@) by {
        reveal_strlit("\" hx-target=\"#ack\" hx-swap=\"innerHTML\" title=\"cancel download\"><img class=\"card-icon\" src=\"/static/icons/stop.svg\" alt=\"\" width=\"16\" height=\"16\" loading=\"lazy\"></button>");
        reveal_strlit("\"");
        reveal_strlit(" hx-target=\"#ack\" hx-swap=\"innerHTML\" title=\"cancel download\"><img class=\"card-icon\" src=\"/static/icons/stop.svg\" alt=\"\" width=\"16\" height=\"16\" loading=\"lazy\"></button>");
    }
    lemma_shows_between(
        Seq::empty(),
        "<button class=\"card-btn\" hx-post=\"/cancel/"@,
        text::dec(id as nat),
        "\" hx-target=\"#ack\" hx-swap=\"innerHTML\" title=\"cancel download\"><img class=\"card-icon\" src=\"/static/icons/stop.svg\" alt=\"\" width=\"16\" height=\"16\" loading=\"lazy\"></button>"@,
        ("<button class=\"card-btn\" "@, "hx-post=\"/cancel/"@),
        ("\""@, " hx-target=\"#ack\" hx-swap=\"innerHTML\" title=\"cancel download\"><img class=\"card-icon\" src=\"/static/icons/stop.svg\" alt=\"\" width=\"16\" height=\"16\" loading=\"lazy\"></button>"@),
    );
    assert("<button class=\"card-btn\" hx-post=\"/retry/"@
        == "<button class=\"card-btn\" "@ + "hx-post=\"/retry/"@) by {
        reveal_strlit("<button class=\"card-btn\" hx-post=\"/retry/");
        reveal_strlit("<button class=\"card-btn\" ");
        reveal_strlit("hx-post=\"/retry/");
    }
    assert("\" hx-target=\"#ack\" hx-swap=\"innerHTML\" title=\"retry download\"><img class=\"card-icon\" src=\"/static/icons/retry.svg\" alt=\"\" width=\"16\" height=\"16\" loading=\"lazy\"></button>"@
        == "\""@
        + " hx-target=\"#ack\" hx-swap=\"innerHTML\" title=\"retry download\"><img class=\"card-icon\" src=\"/static/icons/retry.svg\" alt=\"\" width=\"16\" height=\"16\" loading=\"lazy\"></button>"@) by {
        reveal_strlit("\" hx-target=\"#ack\" hx-swap=\"innerHTML\" title=\"retry download\"><img class=\"card-icon\" src=\"/static/icons/retry.svg\" alt=\"\" width=\"16\" height=\"16\" loading=\"lazy\"></button>");
        reveal_strlit("\"");
        reveal_strlit(" hx-target=\"#ack\" hx-swap=\"innerHTML\" title=\"retry download\"><img class=\"card-icon\" src=\"/static/icons/retry.svg\" alt=\"\" width=\"16\" height=\"16\" loading=\"lazy\"></button>");
    }
    lemma_shows_between(
        Seq::empty(),
        "<button class=\"card-btn\" hx-post=\"/retry/"@,
        text::dec(id as nat),
        "\" hx-target=\"#ack\" hx-swap=\"innerHTML\" title=\"retry download\"><img class=\"card-icon\" src=\"/static/icons/retry.svg\" alt=\"\" width=\"16\" height=\"16\" loading=\"lazy\"></button>"@,
        ("<button class=\"card-btn\" "@, "hx-post=\"/retry/"@),
        ("\""@, " hx-target=\"#ack\" hx-swap=\"innerHTML\" title=\"retry download\"><img class=\"card-icon\" src=\"/static/icons/retry.svg\" alt=\"\" width=\"16\" height=\"16\" loading=\"lazy\"></button>"@),
    );
    assert("<button class=\"card-btn\" hx-post=\"/delete-item/"@
        == "<button class=\"card-btn\" "@ + "hx-post=\"/delete-item/"@) by {
        reveal_strlit("<button class=\"card-btn\" hx-post=\"/delete-item/");
        reveal_strlit("<button class=\"card-btn\" ");
        reveal_strlit("hx-post=\"/delete-item/");
    }
    assert("\" hx-target=\"#ack\" hx-swap=\"innerHTML\" title=\"remove from history\"><img class=\"card-icon\" src=\"/static/icons/trash.svg\" alt=\"\" width=\"16\" height=\"16\" loading=\"lazy\"></button>"@
        == "\""@
        + " hx-target=\"#ack\" hx-swap=\"innerHTML\" title=\"remove from history\"><img class=\"card-icon\" src=\"/static/icons/trash.svg\" alt=\"\" width=\"16\" height=\"16\" loading=\"lazy\"></button>"@) by {
        reveal_strlit("\" hx-target=\"#ack\" hx-swap=\"innerHTML\" title=\"remove from history\"><img class=\"card-icon\" src=\"/static/icons/trash.svg\" alt=\"\" width=\"16\" height=\"16\" loading=\"lazy\"></button>");
        reveal_strlit("\"");
        reveal_strlit(" hx-target=\"#ack\" hx-swap=\"innerHTML\" title=\"remove from history\"><img class=\"card-icon\" src=\"/static/icons/trash.svg\" alt=\"\" width=\"16\" height=\"16\" loading=\"lazy\"></button>");
    }
    lemma_shows_between(
        Seq::empty(),
        "<button class=\"card-btn\" hx-post=\"/delete-item/"@,
        text::dec(id as nat),
        "\" hx-target=\"#ack\" hx-swap=\"innerHTML\" title=\"remove from history\"><img class=\"card-icon\" src=\"/static/icons/trash.svg\" alt=\"\" width=\"16\" height=\"16\" loading=\"lazy\"></button>"@,
        ("<button class=\"card-btn\" "@, "hx-post=\"/delete-item/"@),
        ("\""@, " hx-target=\"#ack\" hx-swap=\"innerHTML\" title=\"remove from history\"><img class=\"card-icon\" src=\"/static/icons/trash.svg\" alt=\"\" width=\"16\" height=\"16\" loading=\"lazy\"></button>"@),
    );
}

/// The banner of an active download shows its label and, where more are waiting, their number; while
/// none is active it shows only that number.
pub proof fn law_banner_names_the_download(item: ItemView, pending: nat)
    ensures
        banner(Some(item), 0).title == "<span class=\"bn-title\">"@ + esc_text(item.label())
            + "</span>"@,
        pending > 0 ==> banner(Some(item), pending).title == "<span class=\"bn-title\">"@
            + esc_text(item.label()) + "</span>"@ + ("<span class=\"bn-queued\">"@ + text::dec(
            pending,
        ) + " queued</span>"@),
        pending > 0 ==> banner(None, pending).title
            == "<span class=\"bn-title\">Waiting&hellip;</span><span class=\"bn-queued\">"@
            + text::dec(pending) + " queued</span>"@,
        banner(None, pending).thumb.len() == 0,
        banner(None, pending).log.len() == 0,
        banner(None, pending).bar.len() == 0,
        banner(None, pending).meta.len() == 0,
        banner(None, pending).cancel.len() == 0,
{
}

/// The banner shows the thumbnail of the active download and its latest log line, and has the button
/// that cancels it.
pub proof fn law_banner_shows_the_latest_line(item: ItemView, pending: nat)
    ensures
        item.logs.len() > 0 ==> banner(Some(item), pending).log == "<div class=\"bn-log\">"@
            + esc_text(text::cut_end(item.logs[item.logs.len() - 1], '\n')) + "</div>"@,
        item.logs.len() == 0 ==> banner(Some(item), pending).log.len() == 0,
        item.thumbnail is Some ==> banner(Some(item), pending).thumb
            == "<img class=\"bn-img\" src=\"/thumb/"@ + esc_text(item.thumbnail->0)
            + "\" alt=\"\" loading=\"lazy\">"@,
        item.thumbnail is None ==> banner(Some(item), pending).thumb
            == "<div class=\"bn-img bn-img-placeholder\"></div>"@,
{
}

/// The progress text shows what is known of the duration, the remaining time, the speed and the bytes of
/// the report, each where it is known.
pub proof fn law_banner_shows_the_report(item: ItemView, pending: nat, p: ProgressView)
    requires
        item.progress == Some(p),
    ensures
        shows(banner(Some(item), pending).meta, duration_text(item.duration)),
        eta_text(p.eta).len() > 0 ==> shows(
            banner(Some(item), pending).meta,
            "ETA "@ + eta_text(p.eta),
        ),
        shows(banner(Some(item), pending).meta, speed_text(p.speed)),
        p.downloaded_bytes is Some ==> shows(
            banner(Some(item), pending).meta,
            bytes_text(p.downloaded_bytes->0.truncated()),
        ),
        p.downloaded_bytes is Some && p.total_bytes is Some && p.total_bytes->0.truncated() > 0
            ==> shows(
            banner(Some(item), pending).meta,
            bytes_text(p.downloaded_bytes->0.truncated()) + " / "@ + bytes_text(
                p.total_bytes->0.truncated(),
            ),
        ),
{
    broadcast use {lemma_shown_before, lemma_shown_behind};

    let left = dotted(duration_text(item.duration), eta_label(p.eta));
    let right = dotted(speed_text(p.speed), bytes_done(p));
    reveal_strlit("ETA ");
    lemma_dotted_shows(duration_text(item.duration), eta_label(p.eta));
    lemma_dotted_shows(speed_text(p.speed), bytes_done(p));
    if let Some(done) = p.downloaded_bytes {
        lemma_shows_itself(bytes_text(done.truncated()));
        lemma_shows_itself(bytes_done(p));
    }
    let b = banner(Some(item), pending);
    assert(b.meta == banner_meta_html(left, shown_percent(item.progress), right));
}

proof fn lemma_dotted_shows(a: Seq<char>, b: Seq<char>)
    ensures
        shows(dotted(a, b), a),
        shows(dotted(a, b), b),
{
    broadcast use {lemma_shown_before, lemma_shown_behind};

    lemma_shows_itself(a);
    lemma_shows_itself(b);
    if a.len() == 0 {
        assert(b =~= b + a);
        assert(shows(b + a, a));
    } else if b.len() == 0 {
        assert(a =~= a + b);
        assert(shows(a + b, b));
    }
}

/// The five characters that mean something in HTML are replaced, and every other one stays.
pub proof fn law_esc_replaces_markup(s: Seq<char>, c: char)
    ensures
        esc_text(Seq::empty()).len() == 0,
        c == '&' ==> esc_text(s.push(c)) == esc_text(s) + "&amp;"@,
        c == '<' ==> esc_text(s.push(c)) == esc_text(s) + "&lt;"@,
        c == '>' ==> esc_text(s.push(c)) == esc_text(s) + "&gt;"@,
        c == '"' ==> esc_text(s.push(c)) == esc_text(s) + "&quot;"@,
        c == '\'' ==> esc_text(s.push(c)) == esc_text(s) + "&#39;"@,
        c != '&' && c != '<' && c != '>' && c != '"' && c != '\'' ==> esc_text(s.push(c))
            == esc_text(s).push(c),
{
    assert(s.push(c).drop_last() =~= s);
    assert(esc_text(s) + seq![c] =~= esc_text(s).push(c));
}

/// The button of the banner cancels the download that the banner shows.
pub proof fn law_banner_cancels_its_download(item: ItemView, pending: nat)
    ensures
        shows(
            banner(Some(item), pending).cancel,
            "hx-post=\"/cancel/"@ + text::dec(item.id as nat) + "\""@,
        ),
{
    broadcast use {lemma_shown_before, lemma_shown_behind};

    assert("<button class=\"bn-cancel\" hx-post=\"/cancel/"@
        == "<button class=\"bn-cancel\" "@ + "hx-post=\"/cancel/"@) by {
        reveal_strlit("<button class=\"bn-cancel\" hx-post=\"/cancel/");
        reveal_strlit("<button class=\"bn-cancel\" ");
        reveal_strlit("hx-post=\"/cancel/");
    }
    assert("\" hx-target=\"#ack\" hx-swap=\"innerHTML\" title=\"cancel download\"><img class=\"bn-cancel-icon\" src=\"/static/icons/stop.svg\" alt=\"\" width=\"16\" height=\"16\" loading=\"lazy\"><span class=\"bn-cancel-text\">cancel</span></button>"@
        == "\""@
        + " hx-target=\"#ack\" hx-swap=\"innerHTML\" title=\"cancel download\"><img class=\"bn-cancel-icon\" src=\"/static/icons/stop.svg\" alt=\"\" width=\"16\" height=\"16\" loading=\"lazy\"><span class=\"bn-cancel-text\">cancel</span></button>"@) by {
        reveal_strlit("\" hx-target=\"#ack\" hx-swap=\"innerHTML\" title=\"cancel download\"><img class=\"bn-cancel-icon\" src=\"/static/icons/stop.svg\" alt=\"\" width=\"16\" height=\"16\" loading=\"lazy\"><span class=\"bn-cancel-text\">cancel</span></button>");
        reveal_strlit("\"");
        reveal_strlit(" hx-target=\"#ack\" hx-swap=\"innerHTML\" title=\"cancel download\"><img class=\"bn-cancel-icon\" src=\"/static/icons/stop.svg\" alt=\"\" width=\"16\" height=\"16\" loading=\"lazy\"><span class=\"bn-cancel-text\">cancel</span></button>");
    }
    lemma_shows_between(
        Seq::empty(),
        "<button class=\"bn-cancel\" hx-post=\"/cancel/"@,
        text::dec(item.id as nat),
        "\" hx-target=\"#ack\" hx-swap=\"innerHTML\" title=\"cancel download\"><img class=\"bn-cancel-icon\" src=\"/static/icons/stop.svg\" alt=\"\" width=\"16\" height=\"16\" loading=\"lazy\"><span class=\"bn-cancel-text\">cancel</span></button>"@,
        ("<button class=\"bn-cancel\" "@, "hx-post=\"/cancel/"@),
        ("\""@, " hx-target=\"#ack\" hx-swap=\"innerHTML\" title=\"cancel download\"><img class=\"bn-cancel-icon\" src=\"/static/icons/stop.svg\" alt=\"\" width=\"16\" height=\"16\" loading=\"lazy\"><span class=\"bn-cancel-text\">cancel</span></button>"@),
    );
}

/// A size is written in whole bytes below one KiB, and above that in the largest binary unit that it
/// reaches, up to TiB, to the nearest tenth.
pub proof fn law_sizes_are_to_the_nearest_tenth(n: u64)
    requires
        n < 0x20_0000_0000_0000,
    ensures
        n < 0x400 ==> bytes_text(n) == text::dec(n as nat) + " B"@,
        0x400 <= n < 0x10_0000 ==> exists|h: nat|
            #[trigger] double::is_nearest(10 * n as nat, 0x400, h) && bytes_text(n)
                == double::point_text(h, 1) + " KiB"@,
        0x10_0000 <= n < 0x4000_0000 ==> exists|h: nat|
            #[trigger] double::is_nearest(10 * n as nat, 0x10_0000, h) && bytes_text(n)
                == double::point_text(h, 1) + " MiB"@,
        0x4000_0000 <= n < 0x100_0000_0000 ==> exists|h: nat|
            #[trigger] double::is_nearest(10 * n as nat, 0x4000_0000, h) && bytes_text(n)
                == double::point_text(h, 1) + " GiB"@,
        0x100_0000_0000 <= n ==> exists|h: nat|
            #[trigger] double::is_nearest(10 * n as nat, 0x100_0000_0000, h) && bytes_text(n)
                == double::point_text(h, 1) + " TiB"@,
{
    assert(spacing(n as nat) == 1);
    double::law_rounding_is_to_the_nearest(n as nat, 1, n as nat);
    assert(as_double(n) == n);
    reveal_with_fuel(digits::pow10, 2);
    let m = 10 * n as nat;
    assert(digits::pow10(1) == 10);
    assert(n as nat * digits::pow10(1) == m) by (nonlinear_arith)
        requires
            digits::pow10(1) == 10,
            m == 10 * n as nat,
    ;
    double::law_rounding_is_to_the_nearest(m, 0x400, 0);
    double::law_rounding_is_to_the_nearest(m, 0x10_0000, 0);
    double::law_rounding_is_to_the_nearest(m, 0x4000_0000, 0);
    double::law_rounding_is_to_the_nearest(m, 0x100_0000_0000, 0);
    assert(double::is_nearest(m, 0x400, double::half_even(m, 0x400)));
    assert(double::is_nearest(m, 0x10_0000, double::half_even(m, 0x10_0000)));
    assert(double::is_nearest(m, 0x4000_0000, double::half_even(m, 0x4000_0000)));
    assert(double::is_nearest(m, 0x100_0000_0000, double::half_even(m, 0x100_0000_0000)));
}

/// A speed is shown as the size that comes each second, where it is above zero.
pub proof fn law_speed_is_per_second(d: Double)
    ensures
        d.positive() ==> speed_text(Some(d)) == bytes_text(d.truncated()) + "/s"@,
        !d.positive() ==> speed_text(Some(d)).len() == 0,
        speed_text(None).len() == 0,
{
}

/// A time is shown in hours, minutes and seconds that add up to its whole seconds, each with two digits
/// but the first of a duration; hours are left out where there are none.
pub proof fn law_times_add_up(d: Double, h: nat, m: nat, s: nat)
    requires
        m < 60,
        s < 60,
        d.truncated() == 3600 * h + 60 * m + s,
    ensures
        d.positive() && h == 0 ==> duration_text(Some(d)) == text::dec(m) + ":"@ + seq![
            (48 + s / 10) as char,
            (48 + s % 10) as char,
        ],
        d.positive() && h > 0 ==> duration_text(Some(d)) == text::dec(h) + ":"@ + seq![
            (48 + m / 10) as char,
            (48 + m % 10) as char,
        ] + ":"@ + seq![(48 + s / 10) as char, (48 + s % 10) as char],
        d.positive() && h > 0 ==> eta_text(Some(d)) == duration_text(Some(d)),
        (d.positive() || d.zero()) && h == 0 ==> eta_text(Some(d)) == seq![
            (48 + m / 10) as char,
            (48 + m % 10) as char,
        ] + ":"@ + seq![(48 + s / 10) as char, (48 + s % 10) as char],
        !d.positive() ==> duration_text(Some(d)).len() == 0,
        !d.positive() && !d.zero() ==> eta_text(Some(d)).len() == 0,
        duration_text(None).len() == 0,
        eta_text(None).len() == 0,
{
    let t = d.truncated();
    assert(t / 3600 == h) by (nonlinear_arith)
        requires
            t == 3600 * h + 60 * m + s,
            m < 60,
            s < 60,
    ;
    assert(t % 3600 == 60 * m + s);
    assert((t % 3600) / 60 == m);
    assert(t % 60 == s);
    double::law_two_digits(m);
    double::law_two_digits(s);
}

/// The count says how many items there are and how many wait, and is empty for an empty queue; the list
/// of cards shows it and all cards.
pub proof fn law_queue_is_counted(q: QueueState, pending: nat)
    ensures
        count_html(0, pending).len() == 0,
        q.items.len() > 0 ==> count_html(q.items.len(), pending) == text::dec(q.items.len())
            + " total, "@ + text::dec(pending) + " pending"@,
        shows(queue_html(q), count_html(q.items.len(), q.pending())),
        shows(queue_html(q), cards_html(q.items)),
        cards_html(Seq::empty()).len() == 0,
{
    broadcast use {lemma_shown_before, lemma_shown_behind};

    lemma_shows_itself(count_html(q.items.len(), q.pending()));
    lemma_shows_itself(cards_html(q.items));
}

/// The log of an item shows each of its lines, escaped and in order, without line ends; an empty log has
/// a hint.
pub proof fn law_log_shows_each_line(lines: Seq<Seq<char>>, line: Seq<char>)
    ensures
        log_line_html(line) == "<div class=\"log-line\">"@ + markup::escaped(
            text::cut_end(line, '\n'),
        ) + "</div>"@,
        log_lines_html(Seq::empty()) == "<div class=\"log-empty\">(no output yet)</div>"@,
        log_lines_html(seq![line]) == log_line_html(line),
        lines.len() > 0 ==> log_lines_html(lines.push(line)) == log_lines_html(lines)
            + log_line_html(line),
{
    assert(lines.push(line).drop_last() =~= lines);
    assert(seq![line].drop_last() =~= Seq::<Seq<char>>::empty());
    assert(each_line_html(Seq::empty()) + log_line_html(line) =~= log_line_html(line));
    reveal_with_fuel(each_line_html, 2);
}

/// A notice shows its message, and says whether it is an error.
pub proof fn law_notice_shows_its_message(msg: Seq<char>)
    ensures
        ack_html(msg, false) == "<div class=\"ack\">"@ + markup::escaped(msg) + "</div>"@,
        ack_html(msg, true) == "<div class=\"ack err\">"@ + markup::escaped(msg) + "</div>"@,
{
}

/// The form in the header submits a URL, and shows a message where there is one.
pub proof fn law_header_shows_its_message(msg: Seq<char>)
    ensures
        shows(
            header_html(Some(msg)),
            "<div class=\"header-err\">"@ + markup::escaped(msg) + "</div>"@,
        ),
        header_html(None) + Seq::empty()
            == "<form class=\"header-form\" hx-post=\"/download\" hx-target=\"#header-input\" hx-swap=\"innerHTML\"><input type=\"text\" name=\"url\" placeholder=\"Paste a video or playlist URL\" autocomplete=\"off\"><button type=\"submit\">Add</button>"@
            + "</form>"@,
{
    broadcast use {lemma_shown_before, lemma_shown_behind};

    lemma_shows_itself("<div class=\"header-err\">"@ + markup::escaped(msg) + "</div>"@);
    let form =
        "<form class=\"header-form\" hx-post=\"/download\" hx-target=\"#header-input\" hx-swap=\"innerHTML\"><input type=\"text\" name=\"url\" placeholder=\"Paste a video or playlist URL\" autocomplete=\"off\"><button type=\"submit\">Add</button>"@;
    assert(form + Seq::empty() + "</form>"@ =~= form + "</form>"@);
    assert(header_html(None) + Seq::empty() =~= header_html(None));
}

/// A probe offers what it found: each entry of a playlist with its own URL, title, duration and
/// thumbnail, in order; or the one video under the submitted URL; or nothing.
pub proof fn law_offers_are_what_was_found(
    submitted: Seq<char>,
    entries: Seq<EntryView>,
    single: Option<EntryView>,
    i: int,
)
    ensures
        entries.len() > 0 ==> offered(submitted, entries, single).len() == entries.len(),
        0 <= i < entries.len() && entries[i].url is Some ==> ({
            let o = offered(submitted, entries, single)[i];
            &&& o.url == entries[i].url->0
            &&& o.title == entries[i].title
            &&& o.duration == entries[i].duration
            &&& o.thumbnail == entries[i].thumbnail
        }),
        entries.len() == 0 && single is Some ==> ({
            let o = offered(submitted, entries, single);
            &&& o.len() == 1
            &&& o[0].url == submitted
            &&& o[0].title == single->0.title
            &&& o[0].duration == single->0.duration
            &&& o[0].thumbnail == single->0.thumbnail
        }),
        entries.len() == 0 && single is None ==> offered(submitted, entries, single).len() == 0,
{
}

/// What an approved video carries is read back as it was written: all of it, but for a duration that is
/// not finite. A blob without a URL, or with a field of the wrong kind, is refused.
pub proof fn law_approvals_are_read_strictly(obj: Seq<(Seq<char>, json::JsonView)>, e: ApprovalView)
    ensures
        e.written().url == e.url,
        e.written().title == e.title,
        e.written().thumbnail == e.thumbnail,
        e.duration is Some && e.duration->0.finite() ==> e.written().duration == e.duration,
        e.duration is None || !e.duration->0.finite() ==> e.written().duration is None,
        approval_of(obj) is Some ==> json::lookup(obj, "url"@) == Some(
            json::JsonView::Text(approval_of(obj)->0.url),
        ),
        json::lookup(obj, "url"@) is None ==> approval_of(obj) is None,
        approval_of(obj) is Some && approval_of(obj)->0.title is Some ==> json::lookup(
            obj,
            "title"@,
        ) == Some(json::JsonView::Text(approval_of(obj)->0.title->0)),
        approval_of(obj) is Some && approval_of(obj)->0.title is None ==> json::lookup(
            obj,
            "title"@,
        ) is None || json::lookup(obj, "title"@) == Some(json::JsonView::Null),
        approval_of(obj) is Some && approval_of(obj)->0.thumbnail is Some ==> json::lookup(
            obj,
            "thumbnail"@,
        ) == Some(json::JsonView::Text(approval_of(obj)->0.thumbnail->0)),
        approval_of(obj) is Some && approval_of(obj)->0.thumbnail is None ==> json::lookup(
            obj,
            "thumbnail"@,
        ) is None || json::lookup(obj, "thumbnail"@) == Some(json::JsonView::Null),
        approval_of(obj) is Some && approval_of(obj)->0.duration is None ==> json::lookup(
            obj,
            "duration"@,
        ) is None || json::lookup(obj, "duration"@) == Some(json::JsonView::Null),
        approval_of(obj) is Some && approval_of(obj)->0.duration is Some ==> json::lookup(
            obj,
            "duration"@,
        ) is Some && json::lookup(obj, "duration"@)->0 is Number && json::lookup(
            obj,
            "duration"@,
        )->0->bits == Some(approval_of(obj)->0.duration->0.bits),
{
}

/// An offered video is shown with its number, its title or URL, and its duration.
pub proof fn law_offers_are_shown(e: ApprovalView, blob: Seq<char>, idx: nat)
    ensures
        shows(
            offer_card_html(e, blob, idx),
            "<span class=\"probe-idx\">"@ + text::dec(idx) + "</span>"@,
        ),
        shows(
            offer_card_html(e, blob, idx),
            "<span class=\"probe-label\">"@ + markup::escaped(e.label()) + "</span>"@,
        ),
        shows(
            offer_card_html(e, blob, idx),
            "<span class=\"probe-dur\">"@ + duration_text(e.duration) + "</span>"@,
        ),
        e.title is Some ==> e.label() == e.title->0,
        e.title is None ==> e.label() == e.url,
        shows(offer_card_html(e, blob, idx), offer_thumb_html(e.thumbnail)),
{
    broadcast use {lemma_shown_before, lemma_shown_behind};

    assert("\" type=\"checkbox\" checked><span class=\"probe-idx\">"@
        == "\" type=\"checkbox\" checked>"@ + "<span class=\"probe-idx\">"@) by {
        reveal_strlit("\" type=\"checkbox\" checked><span class=\"probe-idx\">");
        reveal_strlit("\" type=\"checkbox\" checked>");
        reveal_strlit("<span class=\"probe-idx\">");
    }
    assert("</span>"@ == "</span>"@ + Seq::<char>::empty());
    lemma_shows_between(
        "<label class=\"probe-card\"><input name=\"entry\" value=\""@ + markup::escaped(blob),
        "\" type=\"checkbox\" checked><span class=\"probe-idx\">"@,
        text::dec(idx),
        "</span>"@,
        ("\" type=\"checkbox\" checked>"@, "<span class=\"probe-idx\">"@),
        ("</span>"@, Seq::<char>::empty()),
    );
    assert("<span class=\"probe-label\">"@
        == Seq::<char>::empty() + "<span class=\"probe-label\">"@);
    assert("</span><span class=\"probe-dur\">"@ == "</span>"@ + "<span class=\"probe-dur\">"@) by {
        reveal_strlit("</span><span class=\"probe-dur\">");
        reveal_strlit("</span>");
        reveal_strlit("<span class=\"probe-dur\">");
    }
    lemma_shows_between(
        "<label class=\"probe-card\"><input name=\"entry\" value=\""@ + markup::escaped(blob)
            + "\" type=\"checkbox\" checked><span class=\"probe-idx\">"@ + text::dec(idx)
            + "</span>"@ + offer_thumb_html(e.thumbnail),
        "<span class=\"probe-label\">"@,
        markup::escaped(e.label()),
        "</span><span class=\"probe-dur\">"@,
        (Seq::<char>::empty(), "<span class=\"probe-label\">"@),
        ("</span>"@, "<span class=\"probe-dur\">"@),
    );
    assert("</span><span class=\"probe-dur\">"@ == "</span>"@ + "<span class=\"probe-dur\">"@) by {
        reveal_strlit("</span><span class=\"probe-dur\">");
        reveal_strlit("</span>");
        reveal_strlit("<span class=\"probe-dur\">");
    }
    assert("</span></label>"@ == "</span>"@ + "</label>"@) by {
        reveal_strlit("</span></label>");
        reveal_strlit("</span>");
        reveal_strlit("</label>");
    }
    lemma_shows_between(
        "<label class=\"probe-card\"><input name=\"entry\" value=\""@ + markup::escaped(blob)
            + "\" type=\"checkbox\" checked><span class=\"probe-idx\">"@ + text::dec(idx)
            + "</span>"@ + offer_thumb_html(e.thumbnail) + "<span class=\"probe-label\">"@
            + markup::escaped(e.label()),
        "</span><span class=\"probe-dur\">"@,
        duration_text(e.duration),
        "</span></label>"@,
        ("</span>"@, "<span class=\"probe-dur\">"@),
        ("</span>"@, "</label>"@),
    );
    lemma_shows_itself(offer_thumb_html(e.thumbnail));
}

/// The thumbnail of an offered video is fetched from its own URL.
pub proof fn law_offer_shows_its_thumbnail(url: Seq<char>)
    ensures
        shows(offer_thumb_html(Some(url)), "src=\""@ + markup::escaped(url) + "\""@),
{
    broadcast use {lemma_shown_before, lemma_shown_behind};

    assert("<img class=\"probe-img\" src=\""@ == "<img class=\"probe-img\" "@ + "src=\""@) by {
        reveal_strlit("<img class=\"probe-img\" src=\"");
        reveal_strlit("<img class=\"probe-img\" ");
        reveal_strlit("src=\"");
    }
    assert("\" alt=\"\" loading=\"lazy\" referrerpolicy=\"no-referrer\">"@
        == "\""@ + " alt=\"\" loading=\"lazy\" referrerpolicy=\"no-referrer\">"@) by {
        reveal_strlit("\" alt=\"\" loading=\"lazy\" referrerpolicy=\"no-referrer\">");
        reveal_strlit("\"");
        reveal_strlit(" alt=\"\" loading=\"lazy\" referrerpolicy=\"no-referrer\">");
    }
    lemma_shows_between(
        Seq::empty(),
        "<img class=\"probe-img\" src=\""@,
        markup::escaped(url),
        "\" alt=\"\" loading=\"lazy\" referrerpolicy=\"no-referrer\">"@,
        ("<img class=\"probe-img\" "@, "src=\""@),
        ("\""@, " alt=\"\" loading=\"lazy\" referrerpolicy=\"no-referrer\">"@),
    );
}

/// The page of an item shows its headline, its thumbnail, its buttons, its error, its details, its frames
/// and its log, each as it is rendered.
pub proof fn law_page_holds_its_parts(item: ItemView, added: Seq<char>)
    ensures
        shows(item_page_html(item, added), page_top_html(headline(item), item.status)),
        shows(item_page_html(item, added), page_thumb_html(item.thumbnail)),
        shows(
            item_page_html(item, added),
            page_actions_html(item.status, item.id, item.filename),
        ),
        shows(item_page_html(item, added), page_problem_html(item.error)),
        shows(item_page_html(item, added), rows_html(item, added)),
        shows(item_page_html(item, added), frames_html(item.thumbnails)),
        shows(item_page_html(item, added), polling_html(item.status, item.id)),
        shows(item_page_html(item, added), log_lines_html(item.logs)),
        item.title is Some ==> headline(item) == item.title->0,
        item.title is None && item.filename is Some ==> headline(item) == item.filename->0,
        item.title is None && item.filename is None ==> headline(item) == item.url,
{
    broadcast use {lemma_shown_before, lemma_shown_behind};

    lemma_shows_itself(page_top_html(headline(item), item.status));
    lemma_shows_itself(page_thumb_html(item.thumbnail));
    lemma_shows_itself(page_actions_html(item.status, item.id, item.filename));
    lemma_shows_itself(page_problem_html(item.error));
    lemma_shows_itself(rows_html(item, added));
    lemma_shows_itself(frames_html(item.thumbnails));
    lemma_shows_itself(polling_html(item.status, item.id));
    lemma_shows_itself(log_lines_html(item.logs));
}

/// The details list what is known of the item under its caption: its URL, file, duration and time, and
/// the codecs, bit rate, format and size of its media. What is empty or unknown has no row.
pub proof fn law_details_are_listed(item: ItemView, added: Seq<char>, name: Seq<char>, value: Seq<char>)
    ensures
        value.len() > 0 ==> opt_row_html(name, Some(value)) == "<dt>"@ + name + "</dt><dd>"@
            + markup::escaped(value) + "</dd>"@,
        value.len() == 0 ==> opt_row_html(name, Some(value)).len() == 0,
        opt_row_html(name, None).len() == 0,
        shows(rows_html(item, added), opt_row_html("URL"@, Some(item.url))),
        shows(rows_html(item, added), opt_row_html("File"@, item.filename)),
        shows(
            rows_html(item, added),
            opt_row_html("Duration"@, Some(duration_text(item.duration))),
        ),
        shows(rows_html(item, added), opt_row_html("Added"@, Some(added))),
        item.media is Some ==> {
            &&& shows(rows_html(item, added), opt_row_html("Video"@, video_text(item.media->0)))
            &&& shows(rows_html(item, added), opt_row_html("Audio"@, item.media->0.audio_codec))
            &&& shows(rows_html(item, added), opt_row_html("Bitrate"@, item.media->0.bitrate()))
            &&& shows(
                rows_html(item, added),
                opt_row_html("Format"@, item.media->0.format_long_name),
            )
            &&& shows(rows_html(item, added), opt_row_html("Size"@, item.media->0.size_text()))
        },
        item.media is None ==> media_rows_html(item.media).len() == 0,
{
    broadcast use {lemma_shown_before, lemma_shown_behind};

    lemma_shows_itself(opt_row_html("URL"@, Some(item.url)));
    lemma_shows_itself(opt_row_html("File"@, item.filename));
    lemma_shows_itself(opt_row_html("Duration"@, Some(duration_text(item.duration))));
    lemma_shows_itself(opt_row_html("Added"@, Some(added)));
    if let Some(m) = item.media {
        lemma_shows_itself(opt_row_html("Video"@, video_text(m)));
        lemma_shows_itself(opt_row_html("Audio"@, m.audio_codec));
        lemma_shows_itself(opt_row_html("Bitrate"@, m.bitrate()));
        lemma_shows_itself(opt_row_html("Format"@, m.format_long_name));
        lemma_shows_itself(opt_row_html("Size"@, m.size_text()));
    }
}

/// The video stream is shown by its codec, with its resolution and its frame rate where they are known.
pub proof fn law_video_stream_is_described(m: MediaView, codec: Seq<char>)
    ensures
        m.video_codec is None ==> video_text(m) is None,
        m.video_codec == Some(codec) && m.resolution() is None && m.fps is None ==> video_text(m)
            == Some(codec),
        m.video_codec == Some(codec) && m.resolution() is Some && m.fps is None ==> video_text(m)
            == Some(codec + " \u{b7} "@ + m.resolution()->0),
        m.video_codec == Some(codec) && m.resolution() is None && m.fps is Some ==> video_text(m)
            == Some(codec + " \u{b7} "@ + m.fps->0.fixed(2) + " fps"@),
        m.video_codec == Some(codec) && m.resolution() is Some && m.fps is Some ==> video_text(m)
            == Some(
            codec + " \u{b7} "@ + m.resolution()->0 + " \u{b7} "@ + m.fps->0.fixed(2) + " fps"@,
        ),
{
}

/// The log of a download that waits or runs is fetched again and again, and that of one that is over is
/// not. An error is shown where there is one.
pub proof fn law_only_running_logs_are_polled(id: u64, msg: Seq<char>)
    ensures
        polling_html(ItemStatus::Pending, id) == " hx-get=\"/logs/"@ + text::dec(id as nat)
            + "?lines=1\" hx-trigger=\"every 2s\" hx-swap=\"innerHTML\""@,
        polling_html(ItemStatus::Active, id) == polling_html(ItemStatus::Pending, id),
        polling_html(ItemStatus::Done, id).len() == 0,
        polling_html(ItemStatus::Failed, id).len() == 0,
        polling_html(ItemStatus::Cancelled, id).len() == 0,
        page_problem_html(Some(msg)) == "<p class=\"ip-error\">"@ + markup::escaped(msg) + "</p>"@,
        page_problem_html(None).len() == 0,
        page_thumb_html(None).len() == 0,
{
}

/// The gallery shows each frame, in order.
pub proof fn law_gallery_shows_each_frame(names: Seq<Seq<char>>, name: Seq<char>)
    ensures
        frames_html(Seq::empty()).len() == 0,
        frames_html(names.push(name)) == frames_html(names) + page_frame_html(name),
{
    assert(names.push(name).drop_last() =~= names);
}

/// The page of an item has the headline as its title and shows it above the status.
pub proof fn law_page_has_its_headline(title: Seq<char>, status: ItemStatus)
    ensures
        shows(page_top_html(title, status), "<title>"@ + markup::escaped(title) + "</title>"@),
        shows(
            page_top_html(title, status),
            "<h1 class=\"ip-title\">"@ + markup::escaped(title) + "</h1>"@,
        ),
        shows(page_top_html(title, status), "\">"@ + status.text() + "</span>"@),
{
    broadcast use {lemma_shown_before, lemma_shown_behind};

    assert("<!DOCTYPE html><html lang=\"en\"><head><meta charset=\"utf-8\"><meta name=\"viewport\" content=\"width=device-width, initial-scale=1\"><title>"@
        == "<!DOCTYPE html><html lang=\"en\"><head><meta charset=\"utf-8\"><meta name=\"viewport\" content=\"width=device-width, initial-scale=1\">"@
        + "<title>"@) by {
        reveal_strlit("<!DOCTYPE html><html lang=\"en\"><head><meta charset=\"utf-8\"><meta name=\"viewport\" content=\"width=device-width, initial-scale=1\"><title>");
        reveal_strlit("<!DOCTYPE html><html lang=\"en\"><head><meta charset=\"utf-8\"><meta name=\"viewport\" content=\"width=device-width, initial-scale=1\">");
        reveal_strlit("<title>");
    }
    assert("</title><link rel=\"icon\" href=\"/favicon.svg\" type=\"image/svg+xml\"><link rel=\"stylesheet\" href=\"/static/app.css\"><script src=\"/static/htmx.org-2.0.4.js\"></script></head><body class=\"item-page\"><main class=\"ip\"><a class=\"ip-back\" href=\"/\">&larr; all videos</a><h1 class=\"ip-title\">"@
        == "</title>"@
        + "<link rel=\"icon\" href=\"/favicon.svg\" type=\"image/svg+xml\"><link rel=\"stylesheet\" href=\"/static/app.css\"><script src=\"/static/htmx.org-2.0.4.js\"></script></head><body class=\"item-page\"><main class=\"ip\"><a class=\"ip-back\" href=\"/\">&larr; all videos</a><h1 class=\"ip-title\">"@) by {
        reveal_strlit("</title><link rel=\"icon\" href=\"/favicon.svg\" type=\"image/svg+xml\"><link rel=\"stylesheet\" href=\"/static/app.css\"><script src=\"/static/htmx.org-2.0.4.js\"></script></head><body class=\"item-page\"><main class=\"ip\"><a class=\"ip-back\" href=\"/\">&larr; all videos</a><h1 class=\"ip-title\">");
        reveal_strlit("</title>");
        reveal_strlit("<link rel=\"icon\" href=\"/favicon.svg\" type=\"image/svg+xml\"><link rel=\"stylesheet\" href=\"/static/app.css\"><script src=\"/static/htmx.org-2.0.4.js\"></script></head><body class=\"item-page\"><main class=\"ip\"><a class=\"ip-back\" href=\"/\">&larr; all videos</a><h1 class=\"ip-title\">");
    }
    lemma_shows_between(
        Seq::empty(),
        "<!DOCTYPE html><html lang=\"en\"><head><meta charset=\"utf-8\"><meta name=\"viewport\" content=\"width=device-width, initial-scale=1\"><title>"@,
        markup::escaped(title),
        "</title><link rel=\"icon\" href=\"/favicon.svg\" type=\"image/svg+xml\"><link rel=\"stylesheet\" href=\"/static/app.css\"><script src=\"/static/htmx.org-2.0.4.js\"></script></head><body class=\"item-page\"><main class=\"ip\"><a class=\"ip-back\" href=\"/\">&larr; all videos</a><h1 class=\"ip-title\">"@,
        ("<!DOCTYPE html><html lang=\"en\"><head><meta charset=\"utf-8\"><meta name=\"viewport\" content=\"width=device-width, initial-scale=1\">"@, "<title>"@),
        ("</title>"@, "<link rel=\"icon\" href=\"/favicon.svg\" type=\"image/svg+xml\"><link rel=\"stylesheet\" href=\"/static/app.css\"><script src=\"/static/htmx.org-2.0.4.js\"></script></head><body class=\"item-page\"><main class=\"ip\"><a class=\"ip-back\" href=\"/\">&larr; all videos</a><h1 class=\"ip-title\">"@),
    );
    assert("</title><link rel=\"icon\" href=\"/favicon.svg\" type=\"image/svg+xml\"><link rel=\"stylesheet\" href=\"/static/app.css\"><script src=\"/static/htmx.org-2.0.4.js\"></script></head><body class=\"item-page\"><main class=\"ip\"><a class=\"ip-back\" href=\"/\">&larr; all videos</a><h1 class=\"ip-title\">"@
        == "</title><link rel=\"icon\" href=\"/favicon.svg\" type=\"image/svg+xml\"><link rel=\"stylesheet\" href=\"/static/app.css\"><script src=\"/static/htmx.org-2.0.4.js\"></script></head><body class=\"item-page\"><main class=\"ip\"><a class=\"ip-back\" href=\"/\">&larr; all videos</a>"@
        + "<h1 class=\"ip-title\">"@) by {
        reveal_strlit("</title><link rel=\"icon\" href=\"/favicon.svg\" type=\"image/svg+xml\"><link rel=\"stylesheet\" href=\"/static/app.css\"><script src=\"/static/htmx.org-2.0.4.js\"></script></head><body class=\"item-page\"><main class=\"ip\"><a class=\"ip-back\" href=\"/\">&larr; all videos</a><h1 class=\"ip-title\">");
        reveal_strlit("</title><link rel=\"icon\" href=\"/favicon.svg\" type=\"image/svg+xml\"><link rel=\"stylesheet\" href=\"/static/app.css\"><script src=\"/static/htmx.org-2.0.4.js\"></script></head><body class=\"item-page\"><main class=\"ip\"><a class=\"ip-back\" href=\"/\">&larr; all videos</a>");
        reveal_strlit("<h1 class=\"ip-title\">");
    }
    assert("</h1><span class=\"badge badge-"@ == "</h1>"@ + "<span class=\"badge badge-"@) by {
        reveal_strlit("</h1><span class=\"badge badge-");
        reveal_strlit("</h1>");
        reveal_strlit("<span class=\"badge badge-");
    }
    lemma_shows_between(
        "<!DOCTYPE html><html lang=\"en\"><head><meta charset=\"utf-8\"><meta name=\"viewport\" content=\"width=device-width, initial-scale=1\"><title>"@
            + markup::escaped(title),
        "</title><link rel=\"icon\" href=\"/favicon.svg\" type=\"image/svg+xml\"><link rel=\"stylesheet\" href=\"/static/app.css\"><script src=\"/static/htmx.org-2.0.4.js\"></script></head><body class=\"item-page\"><main class=\"ip\"><a class=\"ip-back\" href=\"/\">&larr; all videos</a><h1 class=\"ip-title\">"@,
        markup::escaped(title),
        "</h1><span class=\"badge badge-"@,
        ("</title><link rel=\"icon\" href=\"/favicon.svg\" type=\"image/svg+xml\"><link rel=\"stylesheet\" href=\"/static/app.css\"><script src=\"/static/htmx.org-2.0.4.js\"></script></head><body class=\"item-page\"><main class=\"ip\"><a class=\"ip-back\" href=\"/\">&larr; all videos</a>"@, "<h1 class=\"ip-title\">"@),
        ("</h1>"@, "<span class=\"badge badge-"@),
    );
    assert("\">"@ == Seq::<char>::empty() + "\">"@);
    assert("</span><div id=\"ack\"></div>"@ == "</span>"@ + "<div id=\"ack\"></div>"@) by {
        reveal_strlit("</span><div id=\"ack\"></div>");
        reveal_strlit("</span>");
        reveal_strlit("<div id=\"ack\"></div>");
    }
    lemma_shows_between(
        "<!DOCTYPE html><html lang=\"en\"><head><meta charset=\"utf-8\"><meta name=\"viewport\" content=\"width=device-width, initial-scale=1\"><title>"@
            + markup::escaped(title)
            + "</title><link rel=\"icon\" href=\"/favicon.svg\" type=\"image/svg+xml\"><link rel=\"stylesheet\" href=\"/static/app.css\"><script src=\"/static/htmx.org-2.0.4.js\"></script></head><body class=\"item-page\"><main class=\"ip\"><a class=\"ip-back\" href=\"/\">&larr; all videos</a><h1 class=\"ip-title\">"@
            + markup::escaped(title) + "</h1><span class=\"badge badge-"@ + status.text(),
        "\">"@,
        status.text(),
        "</span><div id=\"ack\"></div>"@,
        (Seq::<char>::empty(), "\">"@),
        ("</span>"@, "<div id=\"ack\"></div>"@),
    );
}

/// The page of a finished download can show, save and delete its file.
pub proof fn law_done_page_offers_the_file(id: u64, name: Seq<char>)
    ensures
        shows(
            page_actions_html(ItemStatus::Done, id, Some(name)),
            "href=\"/file/"@ + markup::percent(name) + "?inline=1\""@,
        ),
        shows(
            page_actions_html(ItemStatus::Done, id, Some(name)),
            "href=\"/file/"@ + markup::percent(name) + "?download=1\""@,
        ),
        shows(
            page_actions_html(ItemStatus::Done, id, Some(name)),
            "hx-post=\"/delete-item/"@ + text::dec(id as nat) + "\""@,
        ),
{
    broadcast use {lemma_shown_before, lemma_shown_behind};

    assert("<a class=\"big-btn view\" href=\"/file/"@
        == "<a class=\"big-btn view\" "@ + "href=\"/file/"@) by {
        reveal_strlit("<a class=\"big-btn view\" href=\"/file/");
        reveal_strlit("<a class=\"big-btn view\" ");
        reveal_strlit("href=\"/file/");
    }
    assert("?inline=1\" target=\"_blank\" rel=\"noopener\">View</a><a class=\"big-btn download\" href=\"/file/"@
        == "?inline=1\""@
        + " target=\"_blank\" rel=\"noopener\">View</a><a class=\"big-btn download\" href=\"/file/"@) by {
        reveal_strlit("?inline=1\" target=\"_blank\" rel=\"noopener\">View</a><a class=\"big-btn download\" href=\"/file/");
        reveal_strlit("?inline=1\"");
        reveal_strlit(" target=\"_blank\" rel=\"noopener\">View</a><a class=\"big-btn download\" href=\"/file/");
    }
    lemma_shows_between(
        Seq::empty(),
        "<a class=\"big-btn view\" href=\"/file/"@,
        markup::percent(name),
        "?inline=1\" target=\"_blank\" rel=\"noopener\">View</a><a class=\"big-btn download\" href=\"/file/"@,
        ("<a class=\"big-btn view\" "@, "href=\"/file/"@),
        ("?inline=1\""@, " target=\"_blank\" rel=\"noopener\">View</a><a class=\"big-btn download\" href=\"/file/"@),
    );
    assert("?inline=1\" target=\"_blank\" rel=\"noopener\">View</a><a class=\"big-btn download\" href=\"/file/"@
        == "?inline=1\" target=\"_blank\" rel=\"noopener\">View</a><a class=\"big-btn download\" "@
        + "href=\"/file/"@) by {
        reveal_strlit("?inline=1\" target=\"_blank\" rel=\"noopener\">View</a><a class=\"big-btn download\" href=\"/file/");
        reveal_strlit("?inline=1\" target=\"_blank\" rel=\"noopener\">View</a><a class=\"big-btn download\" ");
        reveal_strlit("href=\"/file/");
    }
    assert("?download=1\">Download</a><button class=\"big-btn delete\" hx-post=\"/delete-item/"@
        == "?download=1\""@
        + ">Download</a><button class=\"big-btn delete\" hx-post=\"/delete-item/"@) by {
        reveal_strlit("?download=1\">Download</a><button class=\"big-btn delete\" hx-post=\"/delete-item/");
        reveal_strlit("?download=1\"");
        reveal_strlit(">Download</a><button class=\"big-btn delete\" hx-post=\"/delete-item/");
    }
    lemma_shows_between(
        "<a class=\"big-btn view\" href=\"/file/"@ + markup::percent(name),
        "?inline=1\" target=\"_blank\" rel=\"noopener\">View</a><a class=\"big-btn download\" href=\"/file/"@,
        markup::percent(name),
        "?download=1\">Download</a><button class=\"big-btn delete\" hx-post=\"/delete-item/"@,
        ("?inline=1\" target=\"_blank\" rel=\"noopener\">View</a><a class=\"big-btn download\" "@, "href=\"/file/"@),
        ("?download=1\""@, ">Download</a><button class=\"big-btn delete\" hx-post=\"/delete-item/"@),
    );
    assert("?download=1\">Download</a><button class=\"big-btn delete\" hx-post=\"/delete-item/"@
        == "?download=1\">Download</a><button class=\"big-btn delete\" "@
        + "hx-post=\"/delete-item/"@) by {
        reveal_strlit("?download=1\">Download</a><button class=\"big-btn delete\" hx-post=\"/delete-item/");
        reveal_strlit("?download=1\">Download</a><button class=\"big-btn delete\" ");
        reveal_strlit("hx-post=\"/delete-item/");
    }
    assert("\" hx-target=\"#ack\" hx-swap=\"innerHTML\" hx-confirm=\"Delete "@
        == "\""@ + " hx-target=\"#ack\" hx-swap=\"innerHTML\" hx-confirm=\"Delete "@) by {
        reveal_strlit("\" hx-target=\"#ack\" hx-swap=\"innerHTML\" hx-confirm=\"Delete ");
        reveal_strlit("\"");
        reveal_strlit(" hx-target=\"#ack\" hx-swap=\"innerHTML\" hx-confirm=\"Delete ");
    }
    lemma_shows_between(
        "<a class=\"big-btn view\" href=\"/file/"@ + markup::percent(name)
            + "?inline=1\" target=\"_blank\" rel=\"noopener\">View</a><a class=\"big-btn download\" href=\"/file/"@
            + markup::percent(name),
        "?download=1\">Download</a><button class=\"big-btn delete\" hx-post=\"/delete-item/"@,
        text::dec(id as nat),
        "\" hx-target=\"#ack\" hx-swap=\"innerHTML\" hx-confirm=\"Delete "@,
        ("?download=1\">Download</a><button class=\"big-btn delete\" "@, "hx-post=\"/delete-item/"@),
        ("\""@, " hx-target=\"#ack\" hx-swap=\"innerHTML\" hx-confirm=\"Delete "@),
    );
}

/// The page of a download that waits or runs can cancel it, that of one that failed or was cancelled
/// can try it again or remove it, and that of a finished one without a file can remove it.
pub proof fn law_pages_offer_what_can_be_done(id: u64, name: Option<Seq<char>>)
    ensures
        shows(
            page_actions_html(ItemStatus::Pending, id, name),
            "hx-post=\"/cancel/"@ + text::dec(id as nat) + "\""@,
        ),
        shows(
            page_actions_html(ItemStatus::Active, id, name),
            "hx-post=\"/cancel/"@ + text::dec(id as nat) + "\""@,
        ),
        shows(
            page_actions_html(ItemStatus::Failed, id, name),
            "hx-post=\"/retry/"@ + text::dec(id as nat) + "\""@,
        ),
        shows(
            page_actions_html(ItemStatus::Cancelled, id, name),
            "hx-post=\"/retry/"@ + text::dec(id as nat) + "\""@,
        ),
        shows(
            page_actions_html(ItemStatus::Failed, id, name),
            "hx-post=\"/delete-item/"@ + text::dec(id as nat) + "\""@,
        ),
        shows(
            page_actions_html(ItemStatus::Cancelled, id, name),
            "hx-post=\"/delete-item/"@ + text::dec(id as nat) + "\""@,
        ),
        shows(
            page_actions_html(ItemStatus::Done, id, None),
            "hx-post=\"/delete-item/"@ + text::dec(id as nat) + "\""@,
        ),
{
    broadcast use {lemma_shown_before, lemma_shown_behind};

    assert("<button class=\"big-btn cancel\" hx-post=\"/cancel/"@
        == "<button class=\"big-btn cancel\" "@ + "hx-post=\"/cancel/"@) by {
        reveal_strlit("<button class=\"big-btn cancel\" hx-post=\"/cancel/");
        reveal_strlit("<button class=\"big-btn cancel\" ");
        reveal_strlit("hx-post=\"/cancel/");
    }
    assert("\" hx-target=\"#ack\" hx-swap=\"innerHTML\">Cancel</button>"@
        == "\""@ + " hx-target=\"#ack\" hx-swap=\"innerHTML\">Cancel</button>"@) by {
        reveal_strlit("\" hx-target=\"#ack\" hx-swap=\"innerHTML\">Cancel</button>");
        reveal_strlit("\"");
        reveal_strlit(" hx-target=\"#ack\" hx-swap=\"innerHTML\">Cancel</button>");
    }
    lemma_shows_between(
        Seq::empty(),
        "<button class=\"big-btn cancel\" hx-post=\"/cancel/"@,
        text::dec(id as nat),
        "\" hx-target=\"#ack\" hx-swap=\"innerHTML\">Cancel</button>"@,
        ("<button class=\"big-btn cancel\" "@, "hx-post=\"/cancel/"@),
        ("\""@, " hx-target=\"#ack\" hx-swap=\"innerHTML\">Cancel</button>"@),
    );
    assert("<button class=\"big-btn retry\" hx-post=\"/retry/"@
        == "<button class=\"big-btn retry\" "@ + "hx-post=\"/retry/"@) by {
        reveal_strlit("<button class=\"big-btn retry\" hx-post=\"/retry/");
        reveal_strlit("<button class=\"big-btn retry\" ");
        reveal_strlit("hx-post=\"/retry/");
    }
    assert("\" hx-target=\"#ack\" hx-swap=\"innerHTML\">Retry</button>"@
        == "\""@ + " hx-target=\"#ack\" hx-swap=\"innerHTML\">Retry</button>"@) by {
        reveal_strlit("\" hx-target=\"#ack\" hx-swap=\"innerHTML\">Retry</button>");
        reveal_strlit("\"");
        reveal_strlit(" hx-target=\"#ack\" hx-swap=\"innerHTML\">Retry</button>");
    }
    lemma_shows_between(
        Seq::empty(),
        "<button class=\"big-btn retry\" hx-post=\"/retry/"@,
        text::dec(id as nat),
        "\" hx-target=\"#ack\" hx-swap=\"innerHTML\">Retry</button>"@,
        ("<button class=\"big-btn retry\" "@, "hx-post=\"/retry/"@),
        ("\""@, " hx-target=\"#ack\" hx-swap=\"innerHTML\">Retry</button>"@),
    );
    assert("<button class=\"big-btn delete\" hx-post=\"/delete-item/"@
        == "<button class=\"big-btn delete\" "@ + "hx-post=\"/delete-item/"@) by {
        reveal_strlit("<button class=\"big-btn delete\" hx-post=\"/delete-item/");
        reveal_strlit("<button class=\"big-btn delete\" ");
        reveal_strlit("hx-post=\"/delete-item/");
    }
    assert("\" hx-target=\"#ack\" hx-swap=\"innerHTML\">Delete</button>"@
        == "\""@ + " hx-target=\"#ack\" hx-swap=\"innerHTML\">Delete</button>"@) by {
        reveal_strlit("\" hx-target=\"#ack\" hx-swap=\"innerHTML\">Delete</button>");
        reveal_strlit("\"");
        reveal_strlit(" hx-target=\"#ack\" hx-swap=\"innerHTML\">Delete</button>");
    }
    lemma_shows_between(
        Seq::empty(),
        "<button class=\"big-btn delete\" hx-post=\"/delete-item/"@,
        text::dec(id as nat),
        "\" hx-target=\"#ack\" hx-swap=\"innerHTML\">Delete</button>"@,
        ("<button class=\"big-btn delete\" "@, "hx-post=\"/delete-item/"@),
        ("\""@, " hx-target=\"#ack\" hx-swap=\"innerHTML\">Delete</button>"@),
    );
}

/// A frame of the gallery shows and leads to its file in the cache, and so does the thumbnail of the page.
pub proof fn law_page_shows_its_pictures(name: Seq<char>)
    ensures
        shows(page_frame_html(name), "href=\"/thumb/"@ + markup::percent(name) + "\""@),
        shows(page_frame_html(name), "src=\"/thumb/"@ + markup::percent(name) + "\""@),
        shows(page_thumb_html(Some(name)), "src=\"/thumb/"@ + markup::percent(name) + "\""@),
{
    broadcast use {lemma_shown_before, lemma_shown_behind};

    assert("<a class=\"ip-frame\" href=\"/thumb/"@
        == "<a class=\"ip-frame\" "@ + "href=\"/thumb/"@) by {
        reveal_strlit("<a class=\"ip-frame\" href=\"/thumb/");
        reveal_strlit("<a class=\"ip-frame\" ");
        reveal_strlit("href=\"/thumb/");
    }
    assert("\" target=\"_blank\" rel=\"noopener\"><img src=\"/thumb/"@
        == "\""@ + " target=\"_blank\" rel=\"noopener\"><img src=\"/thumb/"@) by {
        reveal_strlit("\" target=\"_blank\" rel=\"noopener\"><img src=\"/thumb/");
        reveal_strlit("\"");
        reveal_strlit(" target=\"_blank\" rel=\"noopener\"><img src=\"/thumb/");
    }
    lemma_shows_between(
        Seq::empty(),
        "<a class=\"ip-frame\" href=\"/thumb/"@,
        markup::percent(name),
        "\" target=\"_blank\" rel=\"noopener\"><img src=\"/thumb/"@,
        ("<a class=\"ip-frame\" "@, "href=\"/thumb/"@),
        ("\""@, " target=\"_blank\" rel=\"noopener\"><img src=\"/thumb/"@),
    );
    assert("\" target=\"_blank\" rel=\"noopener\"><img src=\"/thumb/"@
        == "\" target=\"_blank\" rel=\"noopener\"><img "@ + "src=\"/thumb/"@) by {
        reveal_strlit("\" target=\"_blank\" rel=\"noopener\"><img src=\"/thumb/");
        reveal_strlit("\" target=\"_blank\" rel=\"noopener\"><img ");
        reveal_strlit("src=\"/thumb/");
    }
    assert("\" alt=\"\" loading=\"lazy\"></a>"@ == "\""@ + " alt=\"\" loading=\"lazy\"></a>"@) by {
        reveal_strlit("\" alt=\"\" loading=\"lazy\"></a>");
        reveal_strlit("\"");
        reveal_strlit(" alt=\"\" loading=\"lazy\"></a>");
    }
    lemma_shows_between(
        "<a class=\"ip-frame\" href=\"/thumb/"@ + markup::percent(name),
        "\" target=\"_blank\" rel=\"noopener\"><img src=\"/thumb/"@,
        markup::percent(name),
        "\" alt=\"\" loading=\"lazy\"></a>"@,
        ("\" target=\"_blank\" rel=\"noopener\"><img "@, "src=\"/thumb/"@),
        ("\""@, " alt=\"\" loading=\"lazy\"></a>"@),
    );
    assert("<img src=\"/thumb/"@ == "<img "@ + "src=\"/thumb/"@) by {
        reveal_strlit("<img src=\"/thumb/");
        reveal_strlit("<img ");
        reveal_strlit("src=\"/thumb/");
    }
    assert("\" class=\"ip-img\" alt=\"\">"@ == "\""@ + " class=\"ip-img\" alt=\"\">"@) by {
        reveal_strlit("\" class=\"ip-img\" alt=\"\">");
        reveal_strlit("\"");
        reveal_strlit(" class=\"ip-img\" alt=\"\">");
    }
    lemma_shows_between(
        Seq::empty(),
        "<img src=\"/thumb/"@,
        markup::percent(name),
        "\" class=\"ip-img\" alt=\"\">"@,
        ("<img "@, "src=\"/thumb/"@),
        ("\""@, " class=\"ip-img\" alt=\"\">"@),
    );
}

/// The area of a running probe listens to the stream of its own URL.
pub proof fn law_probe_area_listens_to_its_url(url: Seq<char>)
    ensures
        shows(probe_area_html(url), "sse-connect=\"/probe?url="@ + markup::percent(url) + "\""@),
{
    broadcast use {lemma_shown_before, lemma_shown_behind};

    assert("<div class=\"probe\" hx-ext=\"sse\" sse-connect=\"/probe?url="@
        == "<div class=\"probe\" hx-ext=\"sse\" "@ + "sse-connect=\"/probe?url="@) by {
        reveal_strlit("<div class=\"probe\" hx-ext=\"sse\" sse-connect=\"/probe?url=");
        reveal_strlit("<div class=\"probe\" hx-ext=\"sse\" ");
        reveal_strlit("sse-connect=\"/probe?url=");
    }
    assert("\" sse-close=\"result\"><div id=\"probe-stream\" class=\"probe-stream\" sse-swap=\"log\" hx-swap=\"beforeend\"></div><div id=\"probe-cards\" class=\"probe-cards\" sse-swap=\"result\" hx-swap=\"innerHTML\"></div><button type=\"button\" class=\"probe-cancel\" hx-get=\"/header\" hx-target=\"#header-input\" hx-swap=\"innerHTML\">Cancel</button></div>"@
        == "\""@
        + " sse-close=\"result\"><div id=\"probe-stream\" class=\"probe-stream\" sse-swap=\"log\" hx-swap=\"beforeend\"></div><div id=\"probe-cards\" class=\"probe-cards\" sse-swap=\"result\" hx-swap=\"innerHTML\"></div><button type=\"button\" class=\"probe-cancel\" hx-get=\"/header\" hx-target=\"#header-input\" hx-swap=\"innerHTML\">Cancel</button></div>"@) by {
        reveal_strlit("\" sse-close=\"result\"><div id=\"probe-stream\" class=\"probe-stream\" sse-swap=\"log\" hx-swap=\"beforeend\"></div><div id=\"probe-cards\" class=\"probe-cards\" sse-swap=\"result\" hx-swap=\"innerHTML\"></div><button type=\"button\" class=\"probe-cancel\" hx-get=\"/header\" hx-target=\"#header-input\" hx-swap=\"innerHTML\">Cancel</button></div>");
        reveal_strlit("\"");
        reveal_strlit(" sse-close=\"result\"><div id=\"probe-stream\" class=\"probe-stream\" sse-swap=\"log\" hx-swap=\"beforeend\"></div><div id=\"probe-cards\" class=\"probe-cards\" sse-swap=\"result\" hx-swap=\"innerHTML\"></div><button type=\"button\" class=\"probe-cancel\" hx-get=\"/header\" hx-target=\"#header-input\" hx-swap=\"innerHTML\">Cancel</button></div>");
    }
    lemma_shows_between(
        Seq::empty(),
        "<div class=\"probe\" hx-ext=\"sse\" sse-connect=\"/probe?url="@,
        markup::percent(url),
        "\" sse-close=\"result\"><div id=\"probe-stream\" class=\"probe-stream\" sse-swap=\"log\" hx-swap=\"beforeend\"></div><div id=\"probe-cards\" class=\"probe-cards\" sse-swap=\"result\" hx-swap=\"innerHTML\"></div><button type=\"button\" class=\"probe-cancel\" hx-get=\"/header\" hx-target=\"#header-input\" hx-swap=\"innerHTML\">Cancel</button></div>"@,
        ("<div class=\"probe\" hx-ext=\"sse\" "@, "sse-connect=\"/probe?url="@),
        ("\""@, " sse-close=\"result\"><div id=\"probe-stream\" class=\"probe-stream\" sse-swap=\"log\" hx-swap=\"beforeend\"></div><div id=\"probe-cards\" class=\"probe-cards\" sse-swap=\"result\" hx-swap=\"innerHTML\"></div><button type=\"button\" class=\"probe-cancel\" hx-get=\"/header\" hx-target=\"#header-input\" hx-swap=\"innerHTML\">Cancel</button></div>"@),
    );
}

/// The form for approving offered videos says how many there are and shows all cards.
pub proof fn law_form_counts_its_offers(cards: Seq<char>, n: nat)
    ensures
        shows(offer_form_html(cards, n), "Confirm ("@ + text::dec(n) + ")"@),
        shows(offer_form_html(cards, n), cards),
{
    broadcast use {lemma_shown_before, lemma_shown_behind};

    assert("</div><div class=\"probe-actions\"><button type=\"submit\">Confirm ("@
        == "</div><div class=\"probe-actions\"><button type=\"submit\">"@ + "Confirm ("@) by {
        reveal_strlit("</div><div class=\"probe-actions\"><button type=\"submit\">Confirm (");
        reveal_strlit("</div><div class=\"probe-actions\"><button type=\"submit\">");
        reveal_strlit("Confirm (");
    }
    assert(")</button><button type=\"button\" hx-get=\"/header\" hx-target=\"#header-input\" hx-swap=\"innerHTML\">Cancel</button></div></form>"@
        == ")"@
        + "</button><button type=\"button\" hx-get=\"/header\" hx-target=\"#header-input\" hx-swap=\"innerHTML\">Cancel</button></div></form>"@) by {
        reveal_strlit(")</button><button type=\"button\" hx-get=\"/header\" hx-target=\"#header-input\" hx-swap=\"innerHTML\">Cancel</button></div></form>");
        reveal_strlit(")");
        reveal_strlit("</button><button type=\"button\" hx-get=\"/header\" hx-target=\"#header-input\" hx-swap=\"innerHTML\">Cancel</button></div></form>");
    }
    lemma_shows_between(
        "<form class=\"probe-form\" hx-post=\"/confirm\" hx-target=\"#header-input\" hx-swap=\"innerHTML\"><div class=\"probe-list\">"@
            + cards,
        "</div><div class=\"probe-actions\"><button type=\"submit\">Confirm ("@,
        text::dec(n),
        ")</button><button type=\"button\" hx-get=\"/header\" hx-target=\"#header-input\" hx-swap=\"innerHTML\">Cancel</button></div></form>"@,
        ("</div><div class=\"probe-actions\"><button type=\"submit\">"@, "Confirm ("@),
        (")"@, "</button><button type=\"button\" hx-get=\"/header\" hx-target=\"#header-input\" hx-swap=\"innerHTML\">Cancel</button></div></form>"@),
    );
    lemma_shows_itself(cards);
}

/// A probe that found nothing shows its error, or that there are no videos.
pub proof fn law_empty_probe_says_why(submitted: Seq<char>, entries: Seq<EntryView>, single: Option<EntryView>, error: Option<Seq<char>>)
    requires
        entries.len() == 0,
        single is None,
    ensures
        shows(
            probe_result_html(submitted, entries, single, error),
            "<span class=\"err\">"@ + markup::escaped(failure_text(error)) + "</span>"@,
        ),
        error is Some ==> failure_text(error) == error->0,
        error is None ==> failure_text(error) == "no videos extracted"@,
{
    broadcast use {lemma_shown_before, lemma_shown_behind};

    assert("<div class=\"probe-error\"><span class=\"err\">"@
        == "<div class=\"probe-error\">"@ + "<span class=\"err\">"@) by {
        reveal_strlit("<div class=\"probe-error\"><span class=\"err\">");
        reveal_strlit("<div class=\"probe-error\">");
        reveal_strlit("<span class=\"err\">");
    }
    assert("</span><button type=\"button\" hx-get=\"/header\" hx-target=\"#header-input\" hx-swap=\"innerHTML\">Done</button></div>"@
        == "</span>"@
        + "<button type=\"button\" hx-get=\"/header\" hx-target=\"#header-input\" hx-swap=\"innerHTML\">Done</button></div>"@) by {
        reveal_strlit("</span><button type=\"button\" hx-get=\"/header\" hx-target=\"#header-input\" hx-swap=\"innerHTML\">Done</button></div>");
        reveal_strlit("</span>");
        reveal_strlit("<button type=\"button\" hx-get=\"/header\" hx-target=\"#header-input\" hx-swap=\"innerHTML\">Done</button></div>");
    }
    lemma_shows_between(
        Seq::empty(),
        "<div class=\"probe-error\"><span class=\"err\">"@,
        markup::escaped(failure_text(error)),
        "</span><button type=\"button\" hx-get=\"/header\" hx-target=\"#header-input\" hx-swap=\"innerHTML\">Done</button></div>"@,
        ("<div class=\"probe-error\">"@, "<span class=\"err\">"@),
        ("</span>"@, "<button type=\"button\" hx-get=\"/header\" hx-target=\"#header-input\" hx-swap=\"innerHTML\">Done</button></div>"@),
    );
}

/// Where a probe found videos, its result is the form with a card for each, numbered from one.
pub proof fn law_found_videos_are_numbered(
    submitted: Seq<char>,
    entries: Seq<EntryView>,
    single: Option<EntryView>,
    error: Option<Seq<char>>,
    v: Seq<ApprovalView>,
    e: ApprovalView,
)
    ensures
        entries.len() > 0 || single is Some ==> probe_result_html(submitted, entries, single, error)
            == offer_form_html(
            offer_cards_html(offered(submitted, entries, single)),
            offered(submitted, entries, single).len(),
        ),
        offer_cards_html(Seq::empty()).len() == 0,
        offer_cards_html(v.push(e)) == offer_cards_html(v) + offer_card_html(
            e,
            e.blob(),
            v.len() + 1,
        ),
{
    assert(v.push(e).drop_last() =~= v);
}

/// Each part of the banner is sent under its own name, in the order of the slots.
pub proof fn law_banner_parts_have_their_slots(b: StatusView)
    ensures
        banner_events(b).len() == 6,
        banner_events(b)[0].name == "status-thumb"@ && banner_events(b)[0].data == b.thumb,
        banner_events(b)[1].name == "status-title"@ && banner_events(b)[1].data == b.title,
        banner_events(b)[2].name == "status-log"@ && banner_events(b)[2].data == b.log,
        banner_events(b)[3].name == "status-bar"@ && banner_events(b)[3].data == b.bar,
        banner_events(b)[4].name == "status-meta"@ && banner_events(b)[4].data == b.meta,
        banner_events(b)[5].name == "status-cancel"@ && banner_events(b)[5].data == b.cancel,
{
}
}
