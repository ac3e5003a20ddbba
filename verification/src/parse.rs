//! Classification of single lines of yt-dlp's output.
use crate::double::Double;
use crate::json;
use crate::json::{Json, JsonView};
use crate::number;
use crate::state::{Progress, ProgressView};
use crate::text;
use vstd::prelude::*;

verus! {

/// What a line of yt-dlp's output is.
#[derive(Debug)]
pub enum ParsedLine {
    /// A progress report: a JSON object with a `status`.
    Progress(Progress),
    /// Any other line.
    Log(String),
}

pub enum LineView {
    Progress(ProgressView),
    Log(Seq<char>),
}

impl View for ParsedLine {
    type V = LineView;

    open spec fn view(&self) -> LineView {
        match self {
            ParsedLine::Progress(p) => LineView::Progress(p@),
            ParsedLine::Log(s) => LineView::Log(s@),
        }
    }
}

/// The text of a field.
pub open spec fn text_of(j: Option<JsonView>) -> Option<Seq<char>> {
    match j {
        Some(JsonView::Text(s)) => Some(s),
        _ => None,
    }
}

/// The number in a field: a number, or text that is one.
pub open spec fn number_of(j: Option<JsonView>) -> Option<Double> {
    match j {
        Some(JsonView::Number { bits: Some(b), unsigned: _ }) => Some(Double { bits: b }),
        Some(JsonView::Text(s)) => number::float(s),
        _ => None,
    }
}

/// The unsigned integer in a field; a fraction is cut off.
pub open spec fn count_of(j: Option<JsonView>) -> Option<u64> {
    match j {
        Some(JsonView::Number { bits: _, unsigned: Some(n) }) => Some(n),
        Some(JsonView::Number { bits: Some(b), unsigned: None }) => Some(
            Double { bits: b }.truncated(),
        ),
        _ => None,
    }
}

/// The progress that the fields of a report hold.
pub open spec fn progress_of(obj: Seq<(Seq<char>, JsonView)>) -> ProgressView {
    ProgressView {
        status: text_of(json::lookup(obj, "status"@)),
        filename: text_of(json::lookup(obj, "filename"@)),
        tmpfilename: text_of(json::lookup(obj, "tmpfilename"@)),
        downloaded_bytes: number_of(json::lookup(obj, "downloaded_bytes"@)),
        total_bytes: number_of(json::lookup(obj, "total_bytes"@)),
        total_bytes_estimate: number_of(json::lookup(obj, "total_bytes_estimate"@)),
        speed: number_of(json::lookup(obj, "speed"@)),
        eta: number_of(json::lookup(obj, "eta"@)),
        elapsed: number_of(json::lookup(obj, "elapsed"@)),
        fragment_index: count_of(json::lookup(obj, "fragment_index"@)),
        fragment_count: count_of(json::lookup(obj, "fragment_count"@)),
        percent: number_of(json::lookup(obj, "_percent"@)),
        percent_str: text_of(json::lookup(obj, "_percent_str"@)),
        speed_str: text_of(json::lookup(obj, "_speed_str"@)),
        eta_str: text_of(json::lookup(obj, "_eta_str"@)),
    }
}

/// What a line is, given the object that it holds, where it holds one.
pub open spec fn classified(
    line: Seq<char>,
    obj: Option<Seq<(Seq<char>, JsonView)>>,
) -> LineView {
    match obj {
        Some(o) => if json::lookup(o, "status"@) is Some {
            LineView::Progress(progress_of(o))
        } else {
            LineView::Log(line)
        },
        None => LineView::Log(line),
    }
}

/// The object that a line holds, but for white space at its ends.
pub open spec fn object_in(line: Seq<char>) -> Option<Seq<(Seq<char>, JsonView)>> {
    if "{"@.is_prefix_of(text::trimmed(line)) {
        json::json_object(text::trimmed(line))
    } else {
        None
    }
}

fn get_str(obj: &Vec<(String, Json)>, key: &str) -> (r: Option<String>)
    ensures
        text::opt(r) == text_of(json::lookup(json::fields(obj@), key@)),
{
    match json::get(obj, key) {
        Some(Json::Text(s)) => Some(s.clone()),
        _ => None,
    }
}

fn get_num(obj: &Vec<(String, Json)>, key: &str) -> (r: Option<Double>)
    ensures
        r == number_of(json::lookup(json::fields(obj@), key@)),
{
    match json::get(obj, key) {
        Some(Json::Number { bits: Some(b), unsigned: _ }) => Some(Double { bits: *b }),
        Some(Json::Text(s)) => number::parse_float(s.as_str()),
        _ => None,
    }
}

fn get_uint(obj: &Vec<(String, Json)>, key: &str) -> (r: Option<u64>)
    ensures
        r == count_of(json::lookup(json::fields(obj@), key@)),
{
    match json::get(obj, key) {
        Some(Json::Number { bits: _, unsigned: Some(n) }) => Some(*n),
        Some(Json::Number { bits: Some(b), unsigned: None }) => Some(Double { bits: *b }.trunc()),
        _ => None,
    }
}

/// Reads the progress from the fields of a report.
pub fn parse_progress(obj: &Vec<(String, Json)>) -> (r: Progress)
    ensures
        r@ == progress_of(json::fields(obj@)),
{
    Progress {
        status: get_str(obj, "status"),
        filename: get_str(obj, "filename"),
        tmpfilename: get_str(obj, "tmpfilename"),
        downloaded_bytes: get_num(obj, "downloaded_bytes"),
        total_bytes: get_num(obj, "total_bytes"),
        total_bytes_estimate: get_num(obj, "total_bytes_estimate"),
        speed: get_num(obj, "speed"),
        eta: get_num(obj, "eta"),
        elapsed: get_num(obj, "elapsed"),
        fragment_index: get_uint(obj, "fragment_index"),
        fragment_count: get_uint(obj, "fragment_count"),
        percent: get_num(obj, "_percent"),
        percent_str: get_str(obj, "_percent_str"),
        speed_str: get_str(obj, "_speed_str"),
        eta_str: get_str(obj, "_eta_str"),
    }
}

/// Classifies a line, given the fields of the object that it holds, where it holds one.
pub fn classify(line: &str, obj: Option<Vec<(String, Json)>>) -> (r: ParsedLine)
    ensures
        r@ == classified(
            line@,
            match obj {
                Some(o) => Some(json::fields(o@)),
                None => None,
            },
        ),
{
    if let Some(o) = obj {
        if json::get(&o, "status").is_some() {
            return ParsedLine::Progress(parse_progress(&o));
        }
    }
    ParsedLine::Log(line.to_string())
}

/// Reads the object that a line holds.
fn read_line_object(line: &str) -> (r: Option<Vec<(String, Json)>>)
    ensures
        (match r {
            Some(o) => Some(json::fields(o@)),
            None => None,
        }) == object_in(line@),
{
    let trimmed: &str = text::trim(line);
    if text::starts_with(trimmed, "{") {
        json::read_object(trimmed)
    } else {
        None
    }
}

/// Classifies a line of yt-dlp's output: a JSON object with a `status` is a progress report, and
/// anything else is a log line.
pub fn parse_line(line: &str) -> (r: ParsedLine)
    ensures
        r@ == classified(line@, object_in(line@)),
{
    let obj = read_line_object(line);
    classify(line, obj)
}

/// One entry of a flat playlist, or a single video.
#[derive(Debug, Clone)]
pub struct FlatEntry {
    pub _type: Option<String>,
    pub url: Option<String>,
    pub title: Option<String>,
    pub duration: Option<Double>,
    pub thumbnail: Option<String>,
}

pub struct EntryView {
    pub kind: Option<Seq<char>>,
    pub url: Option<Seq<char>>,
    pub title: Option<Seq<char>>,
    pub duration: Option<Double>,
    pub thumbnail: Option<Seq<char>>,
}

impl View for FlatEntry {
    type V = EntryView;

    open spec fn view(&self) -> EntryView {
        EntryView {
            kind: text::opt(self._type),
            url: text::opt(self.url),
            title: text::opt(self.title),
            duration: self.duration,
            thumbnail: text::opt(self.thumbnail),
        }
    }
}

impl Default for FlatEntry {
    fn default() -> (r: Self)
        ensures
            r@ == (EntryView { kind: None, url: None, title: None, duration: None, thumbnail: None }),
    {
        FlatEntry { _type: None, url: None, title: None, duration: None, thumbnail: None }
    }
}

impl EntryView {
    /// Whether this is an entry of a playlist, with the URL of its video.
    pub open spec fn in_playlist(self) -> bool {
        self.kind == Some("url"@) && self.url is Some
    }
}

impl FlatEntry {
    /// Whether this is an entry of a playlist, with the URL of its video.
    pub fn is_playlist_entry(&self) -> (r: bool)
        ensures
            r == self@.in_playlist(),
    {
        match &self._type {
            Some(t) => text::same(t.as_str(), "url") && self.url.is_some(),
            None => false,
        }
    }
}

/// The entry that the fields of a line hold.
pub open spec fn entry_of(obj: Seq<(Seq<char>, JsonView)>) -> EntryView {
    EntryView {
        kind: text_of(json::lookup(obj, "_type"@)),
        url: text_of(json::lookup(obj, "url"@)),
        title: text_of(json::lookup(obj, "title"@)),
        duration: number_of(json::lookup(obj, "duration"@)),
        thumbnail: text_of(json::lookup(obj, "thumbnail"@)),
    }
}

/// The entry in a line, given the object that it holds.
pub open spec fn flat_entry(obj: Option<Seq<(Seq<char>, JsonView)>>) -> Option<EntryView> {
    match obj {
        Some(o) => Some(entry_of(o)),
        None => None,
    }
}

/// Reads an entry from the fields of a line.
pub fn parse_entry(obj: &Vec<(String, Json)>) -> (r: FlatEntry)
    ensures
        r@ == entry_of(json::fields(obj@)),
{
    FlatEntry {
        _type: get_str(obj, "_type"),
        url: get_str(obj, "url"),
        title: get_str(obj, "title"),
        duration: get_num(obj, "duration"),
        thumbnail: get_str(obj, "thumbnail"),
    }
}

/// Reads one line of a flat playlist: a JSON object is an entry, and anything else is none.
pub fn parse_flat_line(line: &str) -> (r: Option<FlatEntry>)
    ensures
        (match r {
            Some(e) => Some(e@),
            None => None,
        }) == flat_entry(object_in(line@)),
{
    match read_line_object(line) {
        Some(o) => Some(parse_entry(&o)),
        None => None,
    }
}

/// A text field is read where it is a text; a number field where it is a number, or a text that is one;
/// anything else counts as missing.
pub proof fn law_fields_are_read_by_kind(s: Seq<char>, b: u64, n: u64, i: Option<u64>)
    ensures
        text_of(Some(JsonView::Text(s))) == Some(s),
        text_of(Some(JsonView::Number { bits: Some(b), unsigned: i })) is None,
        text_of(Some(JsonView::Null)) is None,
        text_of(Some(JsonView::Other)) is None,
        text_of(None) is None,
        number_of(Some(JsonView::Number { bits: Some(b), unsigned: i })) == Some(
            Double { bits: b },
        ),
        number_of(Some(JsonView::Text(s))) == number::float(s),
        number_of(Some(JsonView::Null)) is None,
        number_of(Some(JsonView::Other)) is None,
        number_of(None) is None,
        count_of(Some(JsonView::Number { bits: Some(b), unsigned: Some(n) })) == Some(n),
        count_of(Some(JsonView::Number { bits: Some(b), unsigned: None })) == Some(
            Double { bits: b }.truncated(),
        ),
        count_of(Some(JsonView::Text(s))) is None,
        count_of(Some(JsonView::Null)) is None,
        count_of(None) is None,
{
}

/// Each part of the progress is that field of the report whose key yt-dlp gives it, and depends on no
/// other field.
pub proof fn law_progress_follows_the_report(obj: Seq<(Seq<char>, JsonView)>)
    ensures
        ({
            let p = progress_of(obj);
            &&& p.status == text_of(json::lookup(obj, "status"@))
            &&& p.filename == text_of(json::lookup(obj, "filename"@))
            &&& p.tmpfilename == text_of(json::lookup(obj, "tmpfilename"@))
            &&& p.downloaded_bytes == number_of(json::lookup(obj, "downloaded_bytes"@))
            &&& p.total_bytes == number_of(json::lookup(obj, "total_bytes"@))
            &&& p.total_bytes_estimate == number_of(json::lookup(obj, "total_bytes_estimate"@))
            &&& p.speed == number_of(json::lookup(obj, "speed"@))
            &&& p.eta == number_of(json::lookup(obj, "eta"@))
            &&& p.elapsed == number_of(json::lookup(obj, "elapsed"@))
            &&& p.fragment_index == count_of(json::lookup(obj, "fragment_index"@))
            &&& p.fragment_count == count_of(json::lookup(obj, "fragment_count"@))
            &&& p.percent == number_of(json::lookup(obj, "_percent"@))
            &&& p.percent_str == text_of(json::lookup(obj, "_percent_str"@))
            &&& p.speed_str == text_of(json::lookup(obj, "_speed_str"@))
            &&& p.eta_str == text_of(json::lookup(obj, "_eta_str"@))
        }),
{
}

/// A line is a progress report exactly where it is an object with a status; every other line is kept as
/// a log line, just as it came.
pub proof fn law_only_objects_with_a_status_are_progress(
    line: Seq<char>,
    obj: Seq<(Seq<char>, JsonView)>,
    k: int,
)
    ensures
        classified(line, None) == LineView::Log(line),
        0 <= k < obj.len() && obj[k].0 == "status"@ ==> classified(line, Some(obj)) is Progress,
        (forall|i: int| 0 <= i < obj.len() ==> (#[trigger] obj[i]).0 != "status"@) ==> classified(
            line,
            Some(obj),
        ) == LineView::Log(line),
        line.len() > 0 && !text::is_white(line[0]) && line[0] != '{' ==> object_in(line) is None,
{
    if 0 <= k < obj.len() && obj[k].0 == "status"@ {
        lemma_lookup_finds(obj, "status"@, k);
    }
    if forall|i: int| 0 <= i < obj.len() ==> (#[trigger] obj[i]).0 != "status"@ {
        json::lemma_lookup(obj, "status"@, obj.len() as int);
    }
    if line.len() > 0 && !text::is_white(line[0]) && line[0] != '{' {
        text::law_trim_cuts_white_space(line);
        let t = text::trimmed(line);
        assert(text::trim_start(line) == line);
        reveal_strlit("{");
        if "{"@.is_prefix_of(t) {
            assert(t.subrange(0, 1)[0] == '{');
            let (i, j) = choose|i: int, j: int|
                0 <= i <= j <= line.len() && t == #[trigger] line.subrange(i, j) && (forall|k: int|
                    0 <= k < i || j <= k < line.len() ==> text::is_white(#[trigger] line[k]));
            assert(i == 0) by {
                if i > 0 {
                    assert(text::is_white(line[0]));
                }
            }
            assert(t[0] == line[0]);
        }
    }
}

proof fn lemma_lookup_finds(v: Seq<(Seq<char>, JsonView)>, key: Seq<char>, k: int)
    requires
        0 <= k < v.len(),
        v[k].0 == key,
    ensures
        json::lookup(v, key) is Some,
    decreases v.len(),
{
    if v[0].0 != key {
        assert(v.drop_first()[k - 1] == v[k]);
        lemma_lookup_finds(v.drop_first(), key, k - 1);
    }
}

/// An entry holds the fields of its line, and it is one of a playlist exactly where its kind is `url`
/// and it has a URL.
pub proof fn law_entries_follow_the_line(obj: Seq<(Seq<char>, JsonView)>)
    ensures
        ({
            let e = entry_of(obj);
            &&& e.kind == text_of(json::lookup(obj, "_type"@))
            &&& e.url == text_of(json::lookup(obj, "url"@))
            &&& e.title == text_of(json::lookup(obj, "title"@))
            &&& e.duration == number_of(json::lookup(obj, "duration"@))
            &&& e.thumbnail == text_of(json::lookup(obj, "thumbnail"@))
            &&& e.in_playlist() <==> text_of(json::lookup(obj, "_type"@)) == Some("url"@)
                && text_of(json::lookup(obj, "url"@)) is Some
        }),
        flat_entry(None) is None,
        flat_entry(Some(obj)) == Some(entry_of(obj)),
{
}

}
