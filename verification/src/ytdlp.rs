//! The command lines of yt-dlp.
use crate::text;
use vstd::prelude::*;

verus! {

/// An argument of yt-dlp.
#[derive(Debug)]
pub enum Arg {
    Text(String),
    /// The path of the download directory.
    DownloadDir,
    /// The path of the report that yt-dlp leaves after moving the file.
    Sidefile,
}

pub enum ArgView {
    Text(Seq<char>),
    DownloadDir,
    Sidefile,
}

impl View for Arg {
    type V = ArgView;

    open spec fn view(&self) -> ArgView {
        match self {
            Arg::Text(s) => ArgView::Text(s@),
            Arg::DownloadDir => ArgView::DownloadDir,
            Arg::Sidefile => ArgView::Sidefile,
        }
    }
}

pub open spec fn arg_views(v: Seq<Arg>) -> Seq<ArgView> {
    v.map_values(|a: Arg| a@)
}

/// The arguments that hand the cookies of a browser over.
pub open spec fn cookie_args(browser: Option<Seq<char>>) -> Seq<ArgView> {
    match browser {
        Some(b) => seq![ArgView::Text("--cookies-from-browser"@), ArgView::Text(b)],
        None => Seq::empty(),
    }
}

/// The formats that are asked for, best first: mp4 video up to 1080p with m4a audio, then of any
/// height, then a single mp4 file up to 1080p, then of any height, then anything.
pub open spec fn formats() -> Seq<char> {
    "bv*[height<=1080][ext=mp4]+ba[ext=m4a]/bv*[ext=mp4]+ba[ext=m4a]/b[height<=1080][ext=mp4]/b[ext=mp4]/b"@
}

/// The formats that are asked for.
pub fn format_selector() -> (r: &'static str)
    ensures
        r@ == formats(),
{
    "bv*[height<=1080][ext=mp4]+ba[ext=m4a]/bv*[ext=mp4]+ba[ext=m4a]/b[height<=1080][ext=mp4]/b[ext=mp4]/b"
}

/// The arguments of a download: progress as JSON lines, a report with the final path, and the URL
/// as one argument of its own.
pub open spec fn download_args(browser: Option<Seq<char>>, url: Seq<char>) -> Seq<ArgView> {
    cookie_args(browser) + seq![
        ArgView::Text("--newline"@),
        ArgView::Text("--progress-template"@),
        ArgView::Text("%(progress)j"@),
        ArgView::Text("--print-to-file"@),
        ArgView::Text("after_move:{\"status\":\"after_move\",\"filename\":%(filepath)j}"@),
        ArgView::Sidefile,
        ArgView::Text("-P"@),
        ArgView::DownloadDir,
        ArgView::Text("-f"@),
        ArgView::Text(formats()),
        ArgView::Text("--merge-output-format"@),
        ArgView::Text("mp4"@),
        ArgView::Text(url),
    ]
}

/// The arguments of a probe, which downloads nothing.
pub open spec fn probe_args(browser: Option<Seq<char>>, url: Seq<char>) -> Seq<ArgView> {
    cookie_args(browser) + seq![
        ArgView::Text("--flat-playlist"@),
        ArgView::Text("-j"@),
        ArgView::Text("--no-progress"@),
        ArgView::Text(url),
    ]
}

pub open spec fn opt_str(o: Option<&str>) -> Option<Seq<char>> {
    match o {
        Some(s) => Some(s@),
        None => None,
    }
}

fn with_cookies(browser: Option<&str>) -> (r: Vec<Arg>)
    ensures
        arg_views(r@) == cookie_args(opt_str(browser)),
{
    let mut out: Vec<Arg> = Vec::new();
    if let Some(b) = browser {
        out.push(Arg::Text("--cookies-from-browser".to_string()));
        out.push(Arg::Text(b.to_string()));
    }
    assert(arg_views(out@) =~= cookie_args(opt_str(browser)));
    out
}

fn put(out: &mut Vec<Arg>, s: &str)
    ensures
        arg_views(final(out)@) == arg_views(old(out)@).push(ArgView::Text(s@)),
{
    out.push(Arg::Text(s.to_string()));
    assert(arg_views(out@) =~= arg_views(old(out)@).push(ArgView::Text(s@)));
}

fn put_path(out: &mut Vec<Arg>, a: Arg)
    ensures
        arg_views(final(out)@) == arg_views(old(out)@).push(a@),
{
    out.push(a);
    assert(arg_views(out@) =~= arg_views(old(out)@).push(a@));
}

/// Builds the arguments of a download.
pub fn build(browser: Option<&str>, url: &str) -> (r: Vec<Arg>)
    ensures
        arg_views(r@) == download_args(opt_str(browser), url@),
{
    let mut out: Vec<Arg> = with_cookies(browser);
    put(&mut out, "--newline");
    put(&mut out, "--progress-template");
    put(&mut out, "%(progress)j");
    put(&mut out, "--print-to-file");
    put(&mut out, "after_move:{\"status\":\"after_move\",\"filename\":%(filepath)j}");
    put_path(&mut out, Arg::Sidefile);
    put(&mut out, "-P");
    put_path(&mut out, Arg::DownloadDir);
    put(&mut out, "-f");
    put(&mut out, format_selector());
    put(&mut out, "--merge-output-format");
    put(&mut out, "mp4");
    put(&mut out, url);
    assert(arg_views(out@) =~= download_args(opt_str(browser), url@));
    out
}

/// Builds the arguments of a probe.
pub fn build_probe(browser: Option<&str>, url: &str) -> (r: Vec<Arg>)
    ensures
        arg_views(r@) == probe_args(opt_str(browser), url@),
{
    let mut out: Vec<Arg> = with_cookies(browser);
    put(&mut out, "--flat-playlist");
    put(&mut out, "-j");
    put(&mut out, "--no-progress");
    put(&mut out, url);
    assert(arg_views(out@) =~= probe_args(opt_str(browser), url@));
    out
}

/// The name of the report that yt-dlp leaves for an item.
pub open spec fn sidefile_text(id: u64) -> Seq<char> {
    "yt-dl-webui-"@ + text::dec(id as nat) + "-after-move.json"@
}

/// The name of the report that yt-dlp leaves for an item.
pub fn after_move_sidefile(item_id: u64) -> (r: String)
    ensures
        r@ == sidefile_text(item_id),
{
    let mut out = "yt-dl-webui-".to_string();
    text::push_dec(&mut out, item_id);
    out.append("-after-move.json");
    out
}

/// A URL is always exactly the last argument: nothing of it leaks into another one, whatever it
/// holds.
pub proof fn law_url_is_one_argument(browser: Option<Seq<char>>, a: Seq<char>, b: Seq<char>)
    ensures
        download_args(browser, a).last() == ArgView::Text(a),
        download_args(browser, a).drop_last() == download_args(browser, b).drop_last(),
        probe_args(browser, a).last() == ArgView::Text(a),
        probe_args(browser, a).drop_last() == probe_args(browser, b).drop_last(),
{
    assert(download_args(browser, a).drop_last() =~= download_args(browser, b).drop_last());
    assert(probe_args(browser, a).drop_last() =~= probe_args(browser, b).drop_last());
}

/// Reports of different items never share a name.
pub proof fn law_sidefiles_do_not_collide(a: u64, b: u64)
    requires
        sidefile_text(a) == sidefile_text(b),
    ensures
        a == b,
{
    let p = "yt-dl-webui-"@;
    let q = "-after-move.json"@;
    let x = text::dec(a as nat);
    let y = text::dec(b as nat);
    assert(sidefile_text(a).len() == p.len() + x.len() + q.len());
    assert(sidefile_text(b).len() == p.len() + y.len() + q.len());
    assert(sidefile_text(a).subrange(p.len() as int, (p.len() + x.len()) as int) =~= x);
    assert(sidefile_text(b).subrange(p.len() as int, (p.len() + y.len()) as int) =~= y);
    text::lemma_dec_injective(a as nat, b as nat);
}

/// Whether an option stands among the arguments, with `value` directly behind it.
pub open spec fn has_option(args: Seq<ArgView>, option: Seq<char>, value: ArgView) -> bool {
    exists|i: int|
        0 <= i && i + 1 < args.len() && #[trigger] args[i] == ArgView::Text(option) && args[i + 1]
            == value
}

/// Whether a text is none of the arguments.
pub open spec fn lacks(args: Seq<ArgView>, text: Seq<char>) -> bool {
    forall|i: int| 0 <= i < args.len() ==> #[trigger] args[i] != ArgView::Text(text)
}

/// A download asks for video: first mp4 up to 1080p with m4a audio, then mp4 of any height with m4a
/// audio, then a single mp4 up to 1080p, then a single mp4, and last whatever there is; the parts are
/// merged to mp4 in the download directory, progress comes as JSON lines, and the final path goes to
/// the report of the item. There are no other arguments but the cookies and the URL.
pub proof fn law_download_is_mp4_video(browser: Option<Seq<char>>, url: Seq<char>)
    ensures
        has_option(
            download_args(browser, url),
            "-f"@,
            ArgView::Text(
                "bv*[height<=1080][ext=mp4]+ba[ext=m4a]"@ + "/"@ + "bv*[ext=mp4]+ba[ext=m4a]"@
                    + "/"@ + "b[height<=1080][ext=mp4]"@ + "/"@ + "b[ext=mp4]"@ + "/"@ + "b"@,
            ),
        ),
        has_option(download_args(browser, url), "--merge-output-format"@, ArgView::Text("mp4"@)),
        has_option(download_args(browser, url), "-P"@, ArgView::DownloadDir),
        has_option(
            download_args(browser, url),
            "--progress-template"@,
            ArgView::Text("%(progress)j"@),
        ),
        has_option(
            download_args(browser, url),
            "--print-to-file"@,
            ArgView::Text("after_move:{\"status\":\"after_move\",\"filename\":%(filepath)j}"@),
        ),
        has_option(
            download_args(browser, url),
            "after_move:{\"status\":\"after_move\",\"filename\":%(filepath)j}"@,
            ArgView::Sidefile,
        ),
        download_args(browser, url).contains(ArgView::Text("--newline"@)),
        download_args(browser, url).last() == ArgView::Text(url),
        download_args(browser, url).len() == if browser is Some {
            15nat
        } else {
            13
        },
{
    let args = download_args(browser, url);
    let k: int = if browser is Some {
        2
    } else {
        0
    };
    reveal_strlit(
        "bv*[height<=1080][ext=mp4]+ba[ext=m4a]/bv*[ext=mp4]+ba[ext=m4a]/b[height<=1080][ext=mp4]/b[ext=mp4]/b",
    );
    reveal_strlit("bv*[height<=1080][ext=mp4]+ba[ext=m4a]");
    reveal_strlit("bv*[ext=mp4]+ba[ext=m4a]");
    reveal_strlit("b[height<=1080][ext=mp4]");
    reveal_strlit("b[ext=mp4]");
    reveal_strlit("b");
    reveal_strlit("/");
    assert(formats() =~= "bv*[height<=1080][ext=mp4]+ba[ext=m4a]"@ + "/"@
        + "bv*[ext=mp4]+ba[ext=m4a]"@ + "/"@ + "b[height<=1080][ext=mp4]"@ + "/"@ + "b[ext=mp4]"@
        + "/"@ + "b"@);
    assert(args[k] == ArgView::Text("--newline"@));
    assert(args[k + 1] == ArgView::Text("--progress-template"@));
    assert(args[k + 3] == ArgView::Text("--print-to-file"@));
    assert(args[k + 4] == ArgView::Text(
        "after_move:{\"status\":\"after_move\",\"filename\":%(filepath)j}"@,
    ));
    assert(args[k + 6] == ArgView::Text("-P"@));
    assert(args[k + 8] == ArgView::Text("-f"@));
    assert(args[k + 10] == ArgView::Text("--merge-output-format"@));
}

/// A probe lists a playlist without its videos, as JSON lines, and downloads nothing: it names neither
/// a directory nor a format.
pub proof fn law_probe_downloads_nothing(browser: Option<Seq<char>>, url: Seq<char>)
    requires
        browser is Some ==> browser->0 != "-P"@ && browser->0 != "-f"@,
    ensures
        probe_args(browser, url).contains(ArgView::Text("--flat-playlist"@)),
        probe_args(browser, url).contains(ArgView::Text("-j"@)),
        probe_args(browser, url).contains(ArgView::Text("--no-progress"@)),
        probe_args(browser, url).last() == ArgView::Text(url),
        probe_args(browser, url).len() == if browser is Some {
            6nat
        } else {
            4
        },
        lacks(probe_args(browser, url).drop_last(), "-P"@),
        lacks(probe_args(browser, url).drop_last(), "-f"@),
{
    let args = probe_args(browser, url);
    let k: int = if browser is Some {
        2
    } else {
        0
    };
    assert(args[k] == ArgView::Text("--flat-playlist"@));
    assert(args[k + 1] == ArgView::Text("-j"@));
    assert(args[k + 2] == ArgView::Text("--no-progress"@));
    reveal_strlit("--flat-playlist");
    reveal_strlit("-j");
    reveal_strlit("--no-progress");
    reveal_strlit("--cookies-from-browser");
    reveal_strlit("-P");
    reveal_strlit("-f");
    assert("-j"@[1] == 'j' && "-P"@[1] == 'P' && "-f"@[1] == 'f');
}

/// The cookies of a browser are handed over exactly where a browser is set, in a download and in a
/// probe, and nothing else depends on it.
pub proof fn law_cookies_follow_the_browser(browser: Seq<char>, url: Seq<char>)
    ensures
        has_option(
            download_args(Some(browser), url),
            "--cookies-from-browser"@,
            ArgView::Text(browser),
        ),
        has_option(
            probe_args(Some(browser), url),
            "--cookies-from-browser"@,
            ArgView::Text(browser),
        ),
        download_args(Some(browser), url).skip(2) == download_args(None, url),
        probe_args(Some(browser), url).skip(2) == probe_args(None, url),
        lacks(download_args(None, url).drop_last(), "--cookies-from-browser"@),
        lacks(probe_args(None, url).drop_last(), "--cookies-from-browser"@),
{
    assert(download_args(Some(browser), url)[0] == ArgView::Text("--cookies-from-browser"@));
    assert(probe_args(Some(browser), url)[0] == ArgView::Text("--cookies-from-browser"@));
    assert(download_args(Some(browser), url).skip(2) =~= download_args(None, url));
    assert(probe_args(Some(browser), url).skip(2) =~= probe_args(None, url));
    reveal_strlit("--cookies-from-browser");
    reveal_strlit("--newline");
    reveal_strlit("--progress-template");
    reveal_strlit("%(progress)j");
    reveal_strlit("--print-to-file");
    reveal_strlit("after_move:{\"status\":\"after_move\",\"filename\":%(filepath)j}");
    reveal_strlit("-P");
    reveal_strlit("-f");
    reveal_strlit(
        "bv*[height<=1080][ext=mp4]+ba[ext=m4a]/bv*[ext=mp4]+ba[ext=m4a]/b[height<=1080][ext=mp4]/b[ext=mp4]/b",
    );
    reveal_strlit("--merge-output-format");
    reveal_strlit("mp4");
    reveal_strlit("--flat-playlist");
    reveal_strlit("-j");
    reveal_strlit("--no-progress");
    assert("--cookies-from-browser"@.len() == 22);
}

}
