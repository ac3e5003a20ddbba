//! The download directory: which files are listed, which names are safe, and what part of a file is
//! sent.
use crate::clock::Stamp;
use crate::events::{Event, EventView};
use crate::markup;
use crate::number;
use crate::render;
use crate::text;
use vstd::prelude::*;

verus! {

/// Whether a name is that of a file right in a directory: not empty, not hidden, and without a path
/// separator or a null character.
pub open spec fn is_safe(name: Seq<char>) -> bool {
    &&& name.len() > 0
    &&& name[0] != '.'
    &&& !name.contains('/')
    &&& !name.contains('\\')
    &&& !name.contains('\0')
}

/// Whether a name is safe.
pub fn is_safe_name(name: &str) -> (r: bool)
    ensures
        r == is_safe(name@),
{
    let n: usize = name.unicode_len();
    n > 0 && name.get_char(0) != '.' && !text::has_char(name, '/') && !text::has_char(name, '\\')
        && !text::has_char(name, '\0')
}

/// A path by its components.
pub open spec fn path_view(p: Seq<Vec<u8>>) -> Seq<Seq<u8>> {
    p.map_values(|c: Vec<u8>| c@)
}

/// Whether a path is a directory or lies below it.
pub open spec fn lies_in(path: Seq<Vec<u8>>, dir: Seq<Vec<u8>>) -> bool {
    path_view(dir).is_prefix_of(path_view(path))
}

/// Whether two byte strings are the same.
pub fn same_bytes(a: &[u8], b: &[u8]) -> (r: bool)
    ensures
        r == (a@ == b@),
{
    if a.len() != b.len() {
        return false;
    }
    let mut i: usize = 0;
    while i < a.len()
        invariant
            i <= a@.len() == b@.len(),
            forall|j: int| 0 <= j < i ==> a@[j] == b@[j],
        decreases a@.len() - i,
    {
        if a[i] != b[i] {
            return false;
        }
        i += 1;
    }
    assert(a@ =~= b@);
    true
}

fn is_below(path: &Vec<Vec<u8>>, dir: &Vec<Vec<u8>>) -> (r: bool)
    ensures
        r == lies_in(path@, dir@),
{
    if path.len() < dir.len() {
        return false;
    }
    let mut i: usize = 0;
    while i < dir.len()
        invariant
            i <= dir@.len() <= path@.len(),
            forall|j: int| 0 <= j < i ==> (#[trigger] dir@[j])@ == path@[j]@,
        decreases dir@.len() - i,
    {
        if !same_bytes(dir[i].as_slice(), path[i].as_slice()) {
            proof {
                assert(path_view(dir@)[i as int] == dir@[i as int]@);
                assert(path_view(path@)[i as int] == path@[i as int]@);
                assert(path_view(path@).subrange(0, dir@.len() as int)[i as int]
                    == path@[i as int]@);
            }
            return false;
        }
        i += 1;
    }
    assert(path_view(dir@) =~= path_view(path@).subrange(0, dir@.len() as int));
    true
}

/// Resolves a file name, given the directory and the file as canonical paths where they exist: the
/// file, where its name is safe and it lies in the directory.
pub fn resolve_safe(
    dir: Option<Vec<Vec<u8>>>,
    target: Option<Vec<Vec<u8>>>,
    name: &str,
) -> (r: Option<Vec<Vec<u8>>>)
    ensures
        r is Some <==> is_safe(name@) && dir is Some && target is Some && lies_in(
            target->0@,
            dir->0@,
        ),
        r is Some ==> r == target,
{
    if !is_safe_name(name) {
        return None;
    }
    match (dir, target) {
        (Some(d), Some(t)) => if is_below(&t, &d) {
            Some(t)
        } else {
            None
        },
        _ => None,
    }
}

/// A file in the download directory.
#[derive(Debug)]
pub struct LibraryFile {
    pub name: String,
    /// Its size in bytes.
    pub size: u64,
    pub mtime: Stamp,
}

pub struct FileView {
    pub name: Seq<char>,
    pub size: u64,
    pub mtime: Stamp,
}

impl View for LibraryFile {
    type V = FileView;

    open spec fn view(&self) -> FileView {
        FileView { name: self.name@, size: self.size, mtime: self.mtime }
    }
}

pub open spec fn file_views(v: Seq<LibraryFile>) -> Seq<FileView> {
    v.map_values(|f: LibraryFile| f@)
}

/// Whether a file is listed: hidden files and partial downloads are not.
pub open spec fn is_listed(name: Seq<char>) -> bool {
    !"."@.is_prefix_of(name) && !".part"@.is_suffix_of(name)
}

/// Whether a file is listed.
pub fn listed(name: &str) -> (r: bool)
    ensures
        r == is_listed(name@),
{
    !text::starts_with(name, ".") && !text::ends_with(name, ".part")
}

/// Whether a file has been modified at a time.
pub open spec fn of_time(nanos: i128) -> spec_fn(FileView) -> bool {
    |f: FileView| f.mtime.nanos == nanos
}

/// Files with the newest first.
pub open spec fn newest_first(v: Seq<FileView>) -> bool {
    forall|i: int, j: int|
        0 <= i < j < v.len() ==> (#[trigger] v[i]).mtime.nanos >= (#[trigger] v[j]).mtime.nanos
}

/// Whether `r` is `v` in another order that keeps files of the same time in theirs.
pub open spec fn stable_order(r: Seq<FileView>, v: Seq<FileView>) -> bool {
    forall|nanos: i128| #[trigger] r.filter(of_time(nanos)) == v.filter(of_time(nanos))
}

/// The listed ones of some files.
pub open spec fn is_listed_file() -> spec_fn(FileView) -> bool {
    |f: FileView| is_listed(f.name)
}

proof fn lemma_insert_keeps_order(r: Seq<FileView>, k: int, f: FileView, nanos: i128)
    requires
        0 <= k <= r.len(),
        forall|j: int| k <= j < r.len() ==> (#[trigger] r[j]).mtime.nanos < f.mtime.nanos,
    ensures
        r.insert(k, f).filter(of_time(nanos)) == r.push(f).filter(of_time(nanos)),
    decreases r.len() - k,
{
    let p = of_time(nanos);
    let a = r.take(k);
    let b = r.skip(k);
    assert(r.insert(k, f) =~= a + (seq![f] + b));
    assert(r.push(f) =~= a + (b + seq![f]));
    Seq::filter_distributes_over_add(a, seq![f] + b, p);
    Seq::filter_distributes_over_add(a, b + seq![f], p);
    Seq::filter_distributes_over_add(seq![f], b, p);
    Seq::filter_distributes_over_add(b, seq![f], p);
    assert(seq![f].drop_last() =~= Seq::<FileView>::empty());
    reveal_with_fuel(Seq::filter, 2);
    if p(f) {
        assert(b.filter(p) =~= Seq::<FileView>::empty()) by {
            assert forall|j: int| 0 <= j < b.len() implies !p(#[trigger] b[j]) by {
                assert(b[j] == r[k + j]);
            }
            b.lemma_all_neg_filter_empty(p);
        }
        assert(seq![f].filter(p) + b.filter(p) =~= b.filter(p) + seq![f].filter(p));
    } else {
        assert(seq![f].filter(p) =~= Seq::<FileView>::empty());
        assert(seq![f].filter(p) + b.filter(p) =~= b.filter(p) + seq![f].filter(p));
    }
}

/// The listed files of a directory, newest first; files of the same time stay in the given order.
pub fn list(files: Vec<LibraryFile>) -> (r: Vec<LibraryFile>)
    ensures
        newest_first(file_views(r@)),
        stable_order(file_views(r@), file_views(files@).filter(is_listed_file())),
{
    let ghost all = file_views(files@);
    let ghost whole = files@;
    let mut rest: Vec<LibraryFile> = files;
    let n: usize = rest.len();
    let mut out: Vec<LibraryFile> = Vec::new();
    let mut i: usize = 0;
    proof {
        reveal(Seq::filter);
        assert(all.take(0) =~= Seq::<FileView>::empty());
        assert(file_views(out@) =~= Seq::<FileView>::empty());
    }
    while i < n
        invariant
            i <= n == whole.len(),
            all == file_views(whole),
            rest@ == whole.skip(i as int),
            newest_first(file_views(out@)),
            stable_order(file_views(out@), all.take(i as int).filter(is_listed_file())),
        decreases n - i,
    {
        let f: LibraryFile = rest.remove(0);
        let ghost before = file_views(out@);
        let ghost part = all.take(i as int).filter(is_listed_file());
        proof {
            assert(f == whole[i as int]);
            assert(rest@ =~= whole.skip(i + 1));
            let t = all.take(i + 1);
            assert(t.drop_last() =~= all.take(i as int));
            assert(t.last() == f@);
            reveal(Seq::filter);
        }
        if listed(f.name.as_str()) {
            let mut k: usize = 0;
            while k < out.len() && out[k].mtime.nanos >= f.mtime.nanos
                invariant
                    k <= out@.len(),
                    before == file_views(out@),
                    forall|j: int|
                        0 <= j < k ==> (#[trigger] before[j]).mtime.nanos >= f.mtime.nanos,
                decreases out@.len() - k,
            {
                assert(before[k as int] == out@[k as int]@);
                k += 1;
            }
            let ghost v = f@;
            out.insert(k, f);
            proof {
                let after = file_views(out@);
                assert(after =~= before.insert(k as int, v));
                assert forall|j: int| k <= j < before.len() implies (#[trigger] before[j]).mtime.nanos
                    < v.mtime.nanos by {
                    if k < before.len() {
                        assert(before[k as int].mtime.nanos < v.mtime.nanos);
                        assert(k == j || before[k as int].mtime.nanos >= before[j].mtime.nanos);
                    }
                }
                assert forall|nanos: i128| #[trigger] after.filter(of_time(nanos)) == part.push(
                    v,
                ).filter(of_time(nanos)) by {
                    lemma_insert_keeps_order(before, k as int, v, nanos);
                    let p = of_time(nanos);
                    assert(before.push(v).drop_last() =~= before);
                    assert(part.push(v).drop_last() =~= part);
                    assert(before.filter(p) == part.filter(p));
                }
                assert(newest_first(after)) by {
                    assert forall|a: int, b: int| 0 <= a < b < after.len() implies (
                    #[trigger] after[a]).mtime.nanos >= (#[trigger] after[b]).mtime.nanos by {
                        let a0 = if a < k {
                            a
                        } else {
                            a - 1
                        };
                        let b0 = if b < k {
                            b
                        } else {
                            b - 1
                        };
                        if a != k {
                            assert(after[a] == before[a0]);
                        }
                        if b != k {
                            assert(after[b] == before[b0]);
                        }
                    }
                }
            }
        }
        i += 1;
    }
    assert(all.take(n as int) =~= all);
    out
}

/// The row of a file: its name, size and time, and links by which it is opened, saved and deleted.
pub open spec fn row_html(f: FileView) -> Seq<char> {
    "<li class=\"library-row\"><span class=\"library-name\">"@
        + markup::escaped(f.name)
        + "</span><span class=\"library-size\">"@
        + render::bytes_text(f.size)
        + "</span><span class=\"library-time\">"@
        + markup::escaped(render::enqueued_text(f.mtime))
        + "</span><a href=\"/file/"@
        + markup::percent(f.name)
        + "?inline=1\">open</a><a href=\"/file/"@
        + markup::percent(f.name)
        + "?download=1\">download</a><button hx-post=\"/delete/"@
        + markup::percent(f.name)
        + "\" hx-target=\"#ack\" hx-confirm=\"Delete "@
        + markup::escaped(f.name)
        + "?\">delete</button></li>"@
}

fn render_row(f: &LibraryFile) -> (r: String)
    ensures
        r@ == row_html(f@),
{
    let mut out = "<li class=\"library-row\"><span class=\"library-name\">".to_string();
    out.append(markup::html(f.name.as_str()).as_str());
    out.append("</span><span class=\"library-size\">");
    out.append(render::human_bytes(f.size).as_str());
    out.append("</span><span class=\"library-time\">");
    out.append(markup::html(render::enqueued(f.mtime).as_str()).as_str());
    out.append("</span><a href=\"/file/");
    out.append(markup::url(f.name.as_str()).as_str());
    out.append("?inline=1\">open</a><a href=\"/file/");
    out.append(markup::url(f.name.as_str()).as_str());
    out.append("?download=1\">download</a><button hx-post=\"/delete/");
    out.append(markup::url(f.name.as_str()).as_str());
    out.append("\" hx-target=\"#ack\" hx-confirm=\"Delete ");
    out.append(markup::html(f.name.as_str()).as_str());
    out.append("?\">delete</button></li>");
    out
}

/// The rows of files, in their order.
pub open spec fn rows_html(v: Seq<FileView>) -> Seq<char>
    decreases v.len(),
{
    if v.len() == 0 {
        Seq::empty()
    } else {
        rows_html(v.drop_last()) + row_html(v.last())
    }
}

/// The list of files.
pub open spec fn library_html(v: Seq<FileView>) -> Seq<char> {
    "<h2 class=\"library-title\">library ("@ + text::dec(v.len())
        + " files)</h2><ul class=\"library-list\">"@ + rows_html(v) + "</ul>"@
}

/// The event that replaces the list of files.
pub fn listing(files: &Vec<LibraryFile>) -> (r: Event)
    ensures
        r@ == (EventView { name: "library"@, data: library_html(file_views(files@)) }),
{
    let ghost v = file_views(files@);
    let mut rows = String::new();
    let mut i: usize = 0;
    assert(rows@ =~= rows_html(v.take(0)));
    while i < files.len()
        invariant
            i <= files@.len(),
            v == file_views(files@),
            rows@ == rows_html(v.take(i as int)),
        decreases files@.len() - i,
    {
        proof {
            assert(v.take(i + 1).drop_last() =~= v.take(i as int));
            assert(v.take(i + 1).last() == files@[i as int]@);
        }
        rows.append(render_row(&files[i]).as_str());
        i += 1;
    }
    assert(v.take(i as int) =~= v);
    let mut out = "<h2 class=\"library-title\">library (".to_string();
    text::push_dec(&mut out, files.len() as u64);
    out.append(" files)</h2><ul class=\"library-list\">");
    out.append(rows.as_str());
    out.append("</ul>");
    Event::Library(out)
}

/// Query parameters of a request for a file.
#[derive(Debug)]
pub struct FileQuery {
    /// Set where the file is shown in the browser rather than saved.
    pub inline: Option<String>,
}

impl Default for FileQuery {
    fn default() -> (r: Self)
        ensures
            r.inline is None,
    {
        FileQuery { inline: None }
    }
}

/// The range that a `Range` header asks for, as its first and its last byte: `bytes=START-END`, or
/// `bytes=START-` for all that follows.
pub open spec fn range_of(h: Seq<char>) -> Option<(u64, u64)> {
    if !"bytes="@.is_prefix_of(h) {
        None
    } else {
        match text::split_at_first(h.skip("bytes="@.len() as int), '-') {
            Some((a, b)) => match (
                number::unsigned(a),
                if b.len() == 0 {
                    Some(u64::MAX)
                } else {
                    number::unsigned(b)
                },
            ) {
                (Some(start), Some(end)) => if end < start {
                    None
                } else {
                    Some((start, end))
                },
                _ => None,
            },
            None => None,
        }
    }
}

/// Reads a `Range` header with a single range.
pub fn parse_range(h: &str) -> (r: Option<(u64, u64)>)
    ensures
        r == range_of(h@),
{
    let s: &str = match text::strip_prefix(h, "bytes=") {
        Some(s) => s,
        None => {
            return None;
        },
    };
    let (a, b): (&str, &str) = match text::split_once(s, '-') {
        Some(p) => p,
        None => {
            return None;
        },
    };
    let start: u64 = match number::parse_u64(a) {
        Some(n) => n,
        None => {
            return None;
        },
    };
    let end: u64 = if b.unicode_len() == 0 {
        u64::MAX
    } else {
        match number::parse_u64(b) {
            Some(n) => n,
            None => {
                return None;
            },
        }
    };
    if end < start {
        return None;
    }
    Some((start, end))
}

/// The part of a file that is sent.
#[derive(Debug, Clone, Copy, PartialEq, Eq, Structural)]
pub enum Part {
    /// All of it.
    Whole,
    /// The bytes from `start` to `end`, both of them sent.
    Range { start: u64, end: u64 },
}

/// The part of a file of `total` bytes that is sent for a range: what the range and the file share,
/// and all of the file where there is no range or it starts behind the end.
pub open spec fn part_of(range: Option<(u64, u64)>, total: u64) -> Part {
    match range {
        Some((start, end)) => if start < total {
            Part::Range {
                start,
                end: if end < total {
                    end
                } else {
                    (total - 1) as u64
                },
            }
        } else {
            Part::Whole
        },
        None => Part::Whole,
    }
}

/// A range that is served lies inside the file and is not empty.
pub proof fn law_served_range_is_inside(h: Seq<char>, total: u64)
    ensures
        match part_of(range_of(h), total) {
            Part::Range { start, end } => start <= end < total,
            Part::Whole => true,
        },
{
}

/// The media type that `mime_guess` has for a path.
pub uninterp spec fn mime_type(path: Seq<char>) -> Option<Seq<char>>;

/// `mime_guess::from_path`, and the essence of its first guess.
#[verifier::external_body]
pub(crate) fn guess_type(path: &str) -> (r: Option<String>)
    ensures
        text::opt(r) == mime_type(path@),
{
    mime_guess::from_path(path).first().map(|m| m.essence_str().to_string())
}

/// The head of a reply: its status, its headers and the bytes of the file that follow.
#[derive(Debug)]
pub struct Reply {
    pub status: u16,
    pub headers: Vec<(String, String)>,
    pub start: u64,
    pub len: u64,
}

pub struct ReplyView {
    pub status: u16,
    pub headers: Seq<(Seq<char>, Seq<char>)>,
    pub start: u64,
    pub len: u64,
}

/// Headers by their characters.
pub open spec fn header_views(v: Seq<(String, String)>) -> Seq<(Seq<char>, Seq<char>)> {
    v.map_values(|h: (String, String)| (h.0@, h.1@))
}

impl View for Reply {
    type V = ReplyView;

    open spec fn view(&self) -> ReplyView {
        ReplyView {
            status: self.status,
            headers: header_views(self.headers@),
            start: self.start,
            len: self.len,
        }
    }
}

/// How a file is offered: shown in place or saved, under its name.
pub open spec fn disposition(name: Seq<char>, inline: bool) -> Seq<char> {
    (if inline {
        "inline"@
    } else {
        "attachment"@
    }) + "; filename=\""@ + render::esc_text(name) + "\""@
}

/// A guessed media type, or what stands in its place.
pub open spec fn type_or(guess: Option<Seq<char>>, other: Seq<char>) -> Seq<char> {
    match guess {
        Some(t) => t,
        None => other,
    }
}

/// `bytes START-END/TOTAL`.
pub open spec fn range_text(start: u64, end: u64, total: u64) -> Seq<char> {
    "bytes "@ + text::dec(start as nat) + "-"@ + text::dec(end as nat) + "/"@ + text::dec(
        total as nat,
    )
}

/// The reply with a file of `total` bytes.
pub open spec fn file_reply(
    name: Seq<char>,
    inline: bool,
    guess: Option<Seq<char>>,
    total: u64,
    part: Part,
) -> ReplyView {
    let common = seq![
        ("content-type"@, type_or(guess, "application/octet-stream"@)),
        ("content-disposition"@, disposition(name, inline)),
        ("accept-ranges"@, "bytes"@),
    ];
    match part {
        Part::Range { start, end } => ReplyView {
            status: 206,
            headers: common.push(("content-length"@, text::dec((end - start + 1) as nat))).push(
                ("content-range"@, range_text(start, end, total)),
            ),
            start,
            len: (end - start + 1) as u64,
        },
        Part::Whole => ReplyView {
            status: 200,
            headers: common.push(("content-length"@, text::dec(total as nat))),
            start: 0,
            len: total,
        },
    }
}

fn pair(name: &str, value: String) -> (r: (String, String))
    ensures
        r.0@ == name@,
        r.1@ == value@,
{
    (name.to_string(), value)
}

fn offered_as(name: &str, inline: bool) -> (r: String)
    ensures
        r@ == disposition(name@, inline),
{
    let mut out = if inline {
        "inline".to_string()
    } else {
        "attachment".to_string()
    };
    out.append("; filename=\"");
    out.append(render::esc(name).as_str());
    out.append("\"");
    out
}

fn range_header(start: u64, end: u64, total: u64) -> (r: String)
    ensures
        r@ == range_text(start, end, total),
{
    let mut out = "bytes ".to_string();
    text::push_dec(&mut out, start);
    out.append("-");
    text::push_dec(&mut out, end);
    out.append("/");
    text::push_dec(&mut out, total);
    out
}

/// The reply with a file of `total` bytes, given the guess of its media type and the `Range` header
/// of the request.
pub fn reply_with(
    name: &str,
    inline: bool,
    guess: Option<String>,
    total: u64,
    range: Option<&str>,
) -> (r: Reply)
    ensures
        r@ == file_reply(
            name@,
            inline,
            text::opt(guess),
            total,
            part_of(
                match range {
                    Some(h) => range_of(h@),
                    None => None,
                },
                total,
            ),
        ),
        r.start + r.len <= total,
{
    let content_type: String = match guess {
        Some(t) => t,
        None => "application/octet-stream".to_string(),
    };
    let asked: Option<(u64, u64)> = match range {
        Some(h) => parse_range(h),
        None => None,
    };
    let mut headers: Vec<(String, String)> = Vec::new();
    headers.push(pair("content-type", content_type));
    headers.push(pair("content-disposition", offered_as(name, inline)));
    headers.push(pair("accept-ranges", "bytes".to_string()));
    if let Some((start, last)) = asked {
        if start < total {
            let end: u64 = if last < total { last } else { total - 1 };
            let len: u64 = end - start + 1;
            headers.push(pair("content-length", text::decimal(len)));
            headers.push(pair("content-range", range_header(start, end, total)));
            let r = Reply { status: 206, headers, start, len };
            assert(r@.headers =~= file_reply(
                name@,
                inline,
                text::opt(guess),
                total,
                Part::Range { start, end },
            ).headers);
            return r;
        }
    }
    headers.push(pair("content-length", text::decimal(total)));
    let r = Reply { status: 200, headers, start: 0, len: total };
    assert(r@.headers =~= file_reply(name@, inline, text::opt(guess), total, Part::Whole).headers);
    r
}

/// The reply with the file at `path`, of `total` bytes, that was asked for as `name`.
pub fn serve_file(name: &str, path: &str, query: &FileQuery, total: u64, range: Option<&str>) -> (r:
    Reply)
    ensures
        r@ == file_reply(
            name@,
            query.inline is Some,
            mime_type(path@),
            total,
            part_of(
                match range {
                    Some(h) => range_of(h@),
                    None => None,
                },
                total,
            ),
        ),
        r.start + r.len <= total,
{
    reply_with(name, query.inline.is_some(), guess_type(path), total, range)
}

/// What became of a file that was to be deleted.
#[derive(Debug)]
pub enum Deletion {
    /// There was no such file.
    Missing,
    Deleted,
    /// It could not be deleted, for a reason.
    Failed(String),
}

/// The notice of a deletion.
pub open spec fn deletion_html(name: Seq<char>, d: Deletion) -> Seq<char> {
    match d {
        Deletion::Missing => render::ack_html("no such file"@, true),
        Deletion::Deleted => render::ack_html("deleted "@ + name, false),
        Deletion::Failed(e) => render::ack_html("failed to delete "@ + name + ": "@ + e@, true),
    }
}

/// Whether the list of files is sent again after a deletion: only where a file has gone.
pub fn changes_listing(d: &Deletion) -> (r: bool)
    ensures
        r == (*d is Deleted),
{
    matches!(d, Deletion::Deleted)
}

/// Renders the notice of a deletion.
pub fn delete_file(name: &str, d: &Deletion) -> (r: String)
    ensures
        r@ == deletion_html(name@, *d),
{
    match d {
        Deletion::Missing => render::render_ack("no such file", true),
        Deletion::Deleted => {
            let mut msg = "deleted ".to_string();
            msg.append(name);
            render::render_ack(msg.as_str(), false)
        },
        Deletion::Failed(e) => {
            let mut msg = "failed to delete ".to_string();
            msg.append(name);
            msg.append(": ");
            msg.append(e.as_str());
            render::render_ack(msg.as_str(), true)
        },
    }
}

/// A safe name is never that of the directory itself or of its parent, and it names nothing below
/// another directory.
pub proof fn law_safe_names_stay_inside(name: Seq<char>)
    requires
        is_safe(name),
    ensures
        name != "."@,
        name != ".."@,
        name.len() > 0,
        forall|i: int| 0 <= i < name.len() ==> name[i] != '/' && name[i] != '\\' && name[i] != '\0',
{
    reveal_strlit(".");
    reveal_strlit("..");
    assert("."@[0] == '.');
    assert(".."@[0] == '.');
}

/// Whether a header is there, with this value and no other.
pub open spec fn has_header(
    headers: Seq<(Seq<char>, Seq<char>)>,
    name: Seq<char>,
    value: Seq<char>,
) -> bool {
    &&& headers.contains((name, value))
    &&& forall|i: int| 0 <= i < headers.len() && (#[trigger] headers[i]).0 == name ==> headers[i].1
        == value
}

/// Whether a header is missing.
pub open spec fn lacks_header(headers: Seq<(Seq<char>, Seq<char>)>, name: Seq<char>) -> bool {
    forall|i: int| 0 <= i < headers.len() ==> (#[trigger] headers[i]).0 != name
}

proof fn lemma_header_names_differ()
    ensures
        "content-type"@ != "content-disposition"@,
        "content-type"@ != "accept-ranges"@,
        "content-type"@ != "content-length"@,
        "content-type"@ != "content-range"@,
        "content-disposition"@ != "accept-ranges"@,
        "content-disposition"@ != "content-length"@,
        "content-disposition"@ != "content-range"@,
        "accept-ranges"@ != "content-length"@,
        "accept-ranges"@ != "content-range"@,
        "content-length"@ != "content-range"@,
{
    reveal_strlit("content-type");
    reveal_strlit("content-disposition");
    reveal_strlit("accept-ranges");
    reveal_strlit("content-length");
    reveal_strlit("content-range");
    assert("content-type"@.len() == 12 && "content-disposition"@.len() == 19
        && "accept-ranges"@.len() == 13 && "content-length"@.len() == 14 && "content-range"@.len()
        == 13);
    assert("accept-ranges"@[0] == 'a' && "content-range"@[0] == 'c');
}

/// The head of a reply describes the bytes that follow it, whatever was asked for: its length is that
/// of those bytes; where only a part follows, its range names the first and the last of them and the
/// size of the file; and where no range is named, all of the file follows.
pub proof fn law_reply_describes_what_follows(
    name: Seq<char>,
    inline: bool,
    guess: Option<Seq<char>>,
    total: u64,
    range: Option<(u64, u64)>,
)
    requires
        range is Some ==> (range->0).0 <= (range->0).1,
    ensures
        ({
            let r = file_reply(name, inline, guess, total, part_of(range, total));
            &&& r.start + r.len <= total
            &&& has_header(r.headers, "content-length"@, text::dec(r.len as nat))
            &&& has_header(r.headers, "accept-ranges"@, "bytes"@)
            &&& r.status == 206 || r.status == 200
            &&& r.status == 206 ==> r.len > 0 && has_header(
                r.headers,
                "content-range"@,
                "bytes "@ + text::dec(r.start as nat) + "-"@ + text::dec(
                    (r.start + r.len - 1) as nat,
                ) + "/"@ + text::dec(total as nat),
            )
            &&& r.status == 200 ==> r.start == 0 && r.len == total && lacks_header(
                r.headers,
                "content-range"@,
            )
        }),
{
    lemma_header_names_differ();
    let r = file_reply(name, inline, guess, total, part_of(range, total));
    assert(r.headers[2] == ("accept-ranges"@, "bytes"@));
    assert(r.headers[3] == ("content-length"@, text::dec(r.len as nat)));
    if r.status == 206 {
        assert(r.headers[4].0 == "content-range"@);
        assert(r.headers.contains(r.headers[4]));
    }
}

/// A file is shown in place or saved as it was asked for, under its own name, and with the media type
/// of its name where one is known.
pub proof fn law_file_is_offered_as_asked(
    name: Seq<char>,
    inline: bool,
    guess: Option<Seq<char>>,
    total: u64,
    part: Part,
)
    ensures
        ({
            let h = file_reply(name, inline, guess, total, part).headers;
            &&& inline ==> has_header(
                h,
                "content-disposition"@,
                "inline; filename=\""@ + render::esc_text(name) + "\""@,
            )
            &&& !inline ==> has_header(
                h,
                "content-disposition"@,
                "attachment; filename=\""@ + render::esc_text(name) + "\""@,
            )
            &&& guess is Some ==> has_header(h, "content-type"@, guess->0)
            &&& guess is None ==> has_header(h, "content-type"@, "application/octet-stream"@)
        }),
{
    lemma_header_names_differ();
    let h = file_reply(name, inline, guess, total, part).headers;
    reveal_strlit("inline");
    reveal_strlit("attachment");
    reveal_strlit("; filename=\"");
    reveal_strlit("inline; filename=\"");
    reveal_strlit("attachment; filename=\"");
    assert("inline"@ + "; filename=\""@ =~= "inline; filename=\""@);
    assert("attachment"@ + "; filename=\""@ =~= "attachment; filename=\""@);
    assert(h[0].0 == "content-type"@);
    assert(h[1].0 == "content-disposition"@);
    assert(h.contains(h[0]) && h.contains(h[1]));
}

proof fn lemma_range_parts(first: Seq<char>, rest: Seq<char>)
    requires
        forall|i: int| 0 <= i < first.len() ==> '0' <= #[trigger] first[i] <= '9',
    ensures
        "bytes="@.is_prefix_of("bytes="@ + first + "-"@ + rest),
        text::split_at_first(
            ("bytes="@ + first + "-"@ + rest).skip("bytes="@.len() as int),
            '-',
        ) == Some((first, rest)),
{
    let h = "bytes="@ + first + "-"@ + rest;
    reveal_strlit("-");
    let s = h.skip("bytes="@.len() as int);
    assert("bytes="@ =~= h.subrange(0, "bytes="@.len() as int));
    assert(s =~= first + "-"@ + rest);
    let k = first.len() as int;
    assert(s[k] == '-');
    assert forall|j: int| 0 <= j < k implies s[j] != '-' by {
        assert(s[j] == first[j]);
    }
    text::lemma_first_of(s, '-', k);
    assert(s.take(k) =~= first);
    assert(s.skip(k + 1) =~= rest);
}

/// A request for the bytes from `first` to `last` is answered with exactly those of them that the file
/// has, one without an end with all from `first` on, and one that starts behind the end of the file
/// with the whole file.
pub proof fn law_range_is_served_as_asked(first: u64, last: u64, total: u64)
    requires
        first <= last,
    ensures
        range_of("bytes="@ + text::dec(first as nat) + "-"@ + text::dec(last as nat)) == Some(
            (first, last),
        ),
        first < total ==> part_of(
            range_of("bytes="@ + text::dec(first as nat) + "-"@ + text::dec(last as nat)),
            total,
        ) == (Part::Range {
            start: first,
            end: if last < total {
                last
            } else {
                (total - 1) as u64
            },
        }),
        first < total ==> part_of(
            range_of("bytes="@ + text::dec(first as nat) + "-"@ + Seq::empty()),
            total,
        ) == (Part::Range { start: first, end: (total - 1) as u64 }),
        first >= total ==> part_of(
            range_of("bytes="@ + text::dec(first as nat) + "-"@ + text::dec(last as nat)),
            total,
        ) == Part::Whole,
        part_of(None, total) == Part::Whole,
{
    text::lemma_dec_nonempty(first as nat);
    text::lemma_dec_nonempty(last as nat);
    number::law_decimal_reads_back(first);
    number::law_decimal_reads_back(last);
    lemma_range_parts(text::dec(first as nat), text::dec(last as nat));
    lemma_range_parts(text::dec(first as nat), Seq::empty());
}

/// A header that is no range of bytes, or one whose end lies before its start, asks for no range.
pub proof fn law_odd_ranges_are_ignored(h: Seq<char>, first: u64, last: u64)
    ensures
        !"bytes="@.is_prefix_of(h) ==> range_of(h) is None,
        range_of(h) is Some ==> (range_of(h)->0).0 <= (range_of(h)->0).1,
        last < first ==> range_of(
            "bytes="@ + text::dec(first as nat) + "-"@ + text::dec(last as nat),
        ) is None,
{
    text::lemma_dec_nonempty(first as nat);
    text::lemma_dec_nonempty(last as nat);
    number::law_decimal_reads_back(first);
    number::law_decimal_reads_back(last);
    lemma_range_parts(text::dec(first as nat), text::dec(last as nat));
}

/// Only hidden files and partial downloads are left out of the list.
pub proof fn law_finished_files_are_listed(name: Seq<char>)
    ensures
        is_listed(name) <==> !(name.len() > 0 && name[0] == '.') && !(name.len() >= 5 && name.skip(
            name.len() - 5,
        ) == ".part"@),
{
    reveal_strlit(".");
    reveal_strlit(".part");
    if name.len() > 0 {
        assert(name.subrange(0, 1)[0] == name[0]);
        if name[0] == '.' {
            assert("."@ =~= name.subrange(0, 1));
        }
    }
    if name.len() >= 5 {
        assert(name.skip(name.len() - 5) =~= name.subrange(name.len() - 5, name.len() as int));
    }
}

/// A file is served or deleted exactly where its name is that of a plain file and its path begins with
/// that of the directory.
pub proof fn law_only_plain_names_are_safe(name: Seq<char>, path: Seq<Vec<u8>>, dir: Seq<Vec<u8>>)
    ensures
        is_safe(name) <==> name.len() > 0 && name[0] != '.' && forall|i: int|
            0 <= i < name.len() ==> name[i] != '/' && name[i] != '\\' && name[i] != '\0',
        lies_in(path, dir) <==> dir.len() <= path.len() && forall|i: int|
            0 <= i < dir.len() ==> (#[trigger] dir[i])@ == path[i]@,
{
    if lies_in(path, dir) {
        assert forall|i: int| 0 <= i < dir.len() implies (#[trigger] dir[i])@ == path[i]@ by {
            assert(path_view(dir)[i] == dir[i]@);
            assert(path_view(path).subrange(0, dir.len() as int)[i] == path[i]@);
        }
    } else if dir.len() <= path.len() && forall|i: int|
        0 <= i < dir.len() ==> (#[trigger] dir[i])@ == path[i]@ {
        assert(path_view(dir) =~= path_view(path).subrange(0, dir.len() as int));
    }
}

/// A deletion is reported as what became of the file, and a failure is marked as one.
pub proof fn law_deletion_is_reported(name: Seq<char>, reason: String)
    ensures
        deletion_html(name, Deletion::Deleted) == "<div class=\"ack\">"@ + markup::escaped(
            "deleted "@ + name,
        ) + "</div>"@,
        deletion_html(name, Deletion::Missing) == "<div class=\"ack err\">"@ + markup::escaped(
            "no such file"@,
        ) + "</div>"@,
        deletion_html(name, Deletion::Failed(reason)) == "<div class=\"ack err\">"@
            + markup::escaped("failed to delete "@ + name + ": "@ + reason@) + "</div>"@,
{
}

/// The list of files has one row for each file, in the given order; a file in front changes the rows
/// behind it in nothing.
pub proof fn law_each_file_has_its_row(v: Seq<FileView>, f: FileView)
    ensures
        rows_html(Seq::empty()).len() == 0,
        rows_html(v.push(f)) == rows_html(v) + row_html(f),
        render::shows(row_html(f), markup::escaped(f.name)),
        render::shows(row_html(f), render::bytes_text(f.size)),
        render::shows(row_html(f), markup::escaped(render::enqueued_text(f.mtime))),
        render::shows(row_html(f), "href=\"/file/"@ + markup::percent(f.name) + "?inline=1\""@),
        render::shows(row_html(f), "href=\"/file/"@ + markup::percent(f.name) + "?download=1\""@),
        render::shows(row_html(f), "hx-post=\"/delete/"@ + markup::percent(f.name) + "\""@),
        render::shows(library_html(v), "library ("@ + text::dec(v.len()) + " files)"@),
        render::shows(library_html(v), rows_html(v)),
{
    broadcast use {render::lemma_shown_before, render::lemma_shown_behind};

    assert(v.push(f).drop_last() =~= v);
    let n = markup::escaped(f.name);
    let u = markup::percent(f.name);
    let z = render::bytes_text(f.size);
    let t = markup::escaped(render::enqueued_text(f.mtime));
    let a0 = "<li class=\"library-row\"><span class=\"library-name\">"@;
    let a1 = "</span><span class=\"library-size\">"@;
    let a2 = "</span><span class=\"library-time\">"@;
    let a3 = "</span><a href=\"/file/"@;
    let a4 = "?inline=1\">open</a><a href=\"/file/"@;
    let a5 = "?download=1\">download</a><button hx-post=\"/delete/"@;
    let a6 = "\" hx-target=\"#ack\" hx-confirm=\"Delete "@;
    render::lemma_shows_itself(n);
    render::lemma_shows_itself(z);
    render::lemma_shows_itself(t);
    render::lemma_shows_itself(rows_html(v));
    let open = ("?inline=1\""@, ">open</a><a href=\"/file/"@);
    assert(a4 == open.0 + open.1) by {
        reveal_strlit("?inline=1\">open</a><a href=\"/file/");
        reveal_strlit("?inline=1\"");
        reveal_strlit(">open</a><a href=\"/file/");
    }
    let href = ("</span><a "@, "href=\"/file/"@);
    assert(a3 == href.0 + href.1) by {
        reveal_strlit("</span><a href=\"/file/");
        reveal_strlit("</span><a ");
        reveal_strlit("href=\"/file/");
    }
    render::lemma_shows_between(a0 + n + a1 + z + a2 + t, a3, u, a4, href, open);
    let href = ("?inline=1\">open</a><a "@, "href=\"/file/"@);
    assert(a4 == href.0 + href.1) by {
        reveal_strlit("?inline=1\">open</a><a href=\"/file/");
        reveal_strlit("?inline=1\">open</a><a ");
        reveal_strlit("href=\"/file/");
    }
    let save = ("?download=1\""@, ">download</a><button hx-post=\"/delete/"@);
    assert(a5 == save.0 + save.1) by {
        reveal_strlit("?download=1\">download</a><button hx-post=\"/delete/");
        reveal_strlit("?download=1\"");
        reveal_strlit(">download</a><button hx-post=\"/delete/");
    }
    render::lemma_shows_between(a0 + n + a1 + z + a2 + t + a3 + u, a4, u, a5, href, save);
    let post = ("?download=1\">download</a><button "@, "hx-post=\"/delete/"@);
    assert(a5 == post.0 + post.1) by {
        reveal_strlit("?download=1\">download</a><button hx-post=\"/delete/");
        reveal_strlit("?download=1\">download</a><button ");
        reveal_strlit("hx-post=\"/delete/");
    }
    let quote = ("\""@, " hx-target=\"#ack\" hx-confirm=\"Delete "@);
    assert(a6 == quote.0 + quote.1) by {
        reveal_strlit("\" hx-target=\"#ack\" hx-confirm=\"Delete ");
        reveal_strlit("\"");
        reveal_strlit(" hx-target=\"#ack\" hx-confirm=\"Delete ");
    }
    render::lemma_shows_between(a0 + n + a1 + z + a2 + t + a3 + u + a4 + u, a5, u, a6, post, quote);
    let title = ("<h2 class=\"library-title\">"@, "library ("@);
    assert("<h2 class=\"library-title\">library ("@ == title.0 + title.1) by {
        reveal_strlit("<h2 class=\"library-title\">library (");
        reveal_strlit("<h2 class=\"library-title\">");
        reveal_strlit("library (");
    }
    let files = (" files)"@, "</h2><ul class=\"library-list\">"@);
    assert(" files)</h2><ul class=\"library-list\">"@ == files.0 + files.1) by {
        reveal_strlit(" files)</h2><ul class=\"library-list\">");
        reveal_strlit(" files)");
        reveal_strlit("</h2><ul class=\"library-list\">");
    }
    render::lemma_shows_between(
        Seq::empty(),
        "<h2 class=\"library-title\">library ("@,
        text::dec(v.len()),
        " files)</h2><ul class=\"library-list\">"@,
        title,
        files,
    );
}

/// The listing holds exactly the files that are listed, and none stands before a newer one.
pub proof fn law_listing_is_newest_first(
    all: Seq<FileView>,
    shown: Seq<FileView>,
    f: FileView,
    i: int,
    j: int,
)
    requires
        newest_first(shown),
        stable_order(shown, all.filter(is_listed_file())),
    ensures
        shown.contains(f) <==> all.contains(f) && is_listed(f.name),
        0 <= i < j < shown.len() ==> shown[i].mtime.nanos >= shown[j].mtime.nanos,
{
    let p = is_listed_file();
    let t = of_time(f.mtime.nanos);
    let w = all.filter(p);
    assert(shown.filter(t) == w.filter(t));
    broadcast use {Seq::lemma_filter_contains, Seq::lemma_filter_pred, Seq::lemma_filter_contains_rev};

    if shown.contains(f) {
        let k = shown.index_of(f);
        assert(shown.filter(t).contains(shown[k]));
        assert(w.filter(t).contains(f));
        assert(w.contains(f));
        let m = w.index_of(f);
        assert(p(all.filter(p)[m]));
        assert(all.contains(f));
    }
    if all.contains(f) && is_listed(f.name) {
        let k = all.index_of(f);
        assert(p(all[k]));
        assert(all.filter(p).contains(all[k]));
        let m = w.index_of(f);
        assert(t(w[m]));
        assert(w.filter(t).contains(w[m]));
        assert(shown.filter(t).contains(f));
        assert(shown.contains(f));
    }
}

}
