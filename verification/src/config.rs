//! Command-line settings and what they resolve to.
use crate::number;
use crate::text;
use vstd::prelude::*;

verus! {

/// The command line as it was given.
#[derive(Debug)]
pub struct Cli {
    /// Where files are written; `~/Downloads` where it is not given.
    pub download_dir: Option<String>,
    /// The browser whose cookies are used; `none` for no cookies.
    pub cookies_browser: String,
    /// The yt-dlp program.
    pub yt_dlp: String,
    /// The ffmpeg program.
    pub ffmpeg: String,
    /// The ffprobe program.
    pub ffprobe: String,
    /// Where the queue is saved.
    pub state_file: Option<String>,
    /// Where thumbnails are cached.
    pub cache_dir: Option<String>,
    /// The address to listen at.
    pub addr: String,
    /// Listen at all addresses.
    pub bind_all: bool,
    /// Seconds between two downloads.
    pub sleep: u64,
    /// Seconds after which the server shuts down.
    pub timeout: Option<u64>,
    pub verbose: bool,
}

/// A place in the file system, as far as the home directory is concerned.
#[derive(Debug)]
pub enum Place {
    /// The home directory.
    Home,
    /// A path below the home directory.
    UnderHome(String),
    /// A path as it is.
    Plain(String),
}

pub enum PlaceView {
    Home,
    UnderHome(Seq<char>),
    Plain(Seq<char>),
}

impl View for Place {
    type V = PlaceView;

    open spec fn view(&self) -> PlaceView {
        match self {
            Place::Home => PlaceView::Home,
            Place::UnderHome(s) => PlaceView::UnderHome(s@),
            Place::Plain(s) => PlaceView::Plain(s@),
        }
    }
}

/// The place that a path names, with a leading `~` for the home directory.
pub open spec fn expanded(input: Seq<char>) -> PlaceView {
    if input == "~"@ {
        PlaceView::Home
    } else if "~/"@.is_prefix_of(input) {
        PlaceView::UnderHome(input.skip("~/"@.len() as int))
    } else {
        PlaceView::Plain(input)
    }
}

/// Expands a leading `~`.
pub fn expand_tilde(input: &str) -> (r: Place)
    ensures
        r@ == expanded(input@),
{
    if text::same(input, "~") {
        return Place::Home;
    }
    match text::strip_prefix(input, "~/") {
        Some(rest) => Place::UnderHome(rest.to_string()),
        None => Place::Plain(input.to_string()),
    }
}

/// The settings that a command line resolves to.
#[derive(Debug)]
pub struct Config {
    pub download_dir: Place,
    pub cookies_browser: Option<String>,
    pub yt_dlp: String,
    pub ffmpeg: String,
    pub ffprobe: String,
    pub state_file: Place,
    pub cache_dir: Place,
    pub addr: String,
    pub bind_all: bool,
    pub sleep: u64,
    pub timeout: Option<u64>,
}

/// The browser whose cookies are used; none for `none` in any case.
pub open spec fn browser_of(s: Seq<char>) -> Option<Seq<char>> {
    if number::is_word(s, seq!['n', 'o', 'n', 'e']) {
        None
    } else {
        Some(s)
    }
}

/// The address to listen at: with `bind_all`, all addresses at the port that stands behind the last
/// colon.
pub open spec fn listen_addr(addr: Seq<char>, bind_all: bool) -> Seq<char> {
    if bind_all {
        "0.0.0.0:"@ + text::tail_behind(addr, ':')
    } else {
        addr
    }
}

/// A given path, or the default one below the home directory.
pub open spec fn place_or(given: Option<Seq<char>>, default: Seq<char>) -> PlaceView {
    match given {
        Some(p) => expanded(p),
        None => PlaceView::UnderHome(default),
    }
}

fn place(given: &Option<String>, default: &str) -> (r: Place)
    ensures
        r@ == place_or(text::opt(*given), default@),
{
    match given {
        Some(p) => expand_tilde(p.as_str()),
        None => Place::UnderHome(default.to_string()),
    }
}

impl Cli {
    /// Resolves the command line.
    pub fn into_config(self) -> (r: Config)
        ensures
            r.download_dir@ == place_or(text::opt(self.download_dir), "Downloads"@),
            text::opt(r.cookies_browser) == browser_of(self.cookies_browser@),
            r.yt_dlp == self.yt_dlp,
            r.ffmpeg == self.ffmpeg,
            r.ffprobe == self.ffprobe,
            r.state_file@ == place_or(
                text::opt(self.state_file),
                ".local/share/web-dl/queue.json"@,
            ),
            r.cache_dir@ == place_or(
                text::opt(self.cache_dir),
                ".cache/yt-downloader-webui/thumbs"@,
            ),
            r.addr@ == listen_addr(self.addr@, self.bind_all),
            r.bind_all == self.bind_all,
            r.sleep == self.sleep,
            r.timeout == self.timeout,
    {
        let none: Vec<char> = vec!['n', 'o', 'n', 'e'];
        assert(none@ =~= seq!['n', 'o', 'n', 'e']);
        let given: Vec<char> = text::chars_of(self.cookies_browser.as_str());
        assert(given@.skip(0) =~= given@);
        let off: bool = number::word_from(&given, 0, &none);
        let addr: String = if self.bind_all {
            let mut a = "0.0.0.0:".to_string();
            a.append(text::rsplit_first(self.addr.as_str(), ':'));
            a
        } else {
            self.addr
        };
        Config {
            download_dir: place(&self.download_dir, "Downloads"),
            cookies_browser: if off {
                None
            } else {
                Some(self.cookies_browser)
            },
            yt_dlp: self.yt_dlp,
            ffmpeg: self.ffmpeg,
            ffprobe: self.ffprobe,
            state_file: place(&self.state_file, ".local/share/web-dl/queue.json"),
            cache_dir: place(&self.cache_dir, ".cache/yt-downloader-webui/thumbs"),
            addr,
            bind_all: self.bind_all,
            sleep: self.sleep,
            timeout: self.timeout,
        }
    }
}

/// The host at which the server listens.
#[derive(Debug, Clone, Copy, PartialEq, Eq, Structural)]
pub enum Host {
    /// An address of version 4, by its bytes.
    V4(u8, u8, u8, u8),
    /// An address of version 6, as a number.
    V6(u128),
}

impl Host {
    /// Whether only this machine can reach the host: `127.0.0.0/8` and `::1`.
    pub open spec fn loopback(self) -> bool {
        match self {
            Host::V4(first, _, _, _) => first == 127,
            Host::V6(n) => n == 1,
        }
    }
}

/// Whether a warning is printed: where the server can be reached from another machine.
pub fn warns(host: Host, bind_all: bool) -> (r: bool)
    ensures
        r == (bind_all || !host.loopback()),
{
    bind_all || match host {
        Host::V4(first, _, _, _) => first != 127,
        Host::V6(n) => n != 1,
    }
}

/// The warning for a server that can be reached from another machine.
pub fn bind_warning(addr: &str, bind_all: bool, download_dir: &str) -> (r: String)
    ensures
        r@ == "WARNING: "@ + (if bind_all {
            "--bind-all binds 0.0.0.0"@
        } else {
            "--addr binds "@ + addr@
        })
            + ". Anyone who can reach this machine can run yt-dlp with your Firefox cookies, download any file in "@
            + download_dir@ + ", and delete files. Do not expose to untrusted networks."@,
{
    let mut cause = String::new();
    if bind_all {
        cause = "--bind-all binds 0.0.0.0".to_string();
    } else {
        cause = "--addr binds ".to_string();
        cause.append(addr);
    }
    let mut out = "WARNING: ".to_string();
    out.append(cause.as_str());
    out.append(
        ". Anyone who can reach this machine can run yt-dlp with your Firefox cookies, download any file in ",
    );
    out.append(download_dir);
    out.append(", and delete files. Do not expose to untrusted networks.");
    out
}

/// The filter for the server's log, where the environment sets none.
pub fn log_filter(verbose: bool) -> (r: &'static str)
    ensures
        r@ == if verbose {
            "web_dl=debug,info"@
        } else {
            "info"@
        },
{
    if verbose {
        "web_dl=debug,info"
    } else {
        "info"
    }
}

/// A leading tilde stands for the home directory, alone or before a slash, and nowhere else.
pub proof fn law_tilde_is_the_home_directory(rest: Seq<char>, path: Seq<char>)
    ensures
        expanded("~"@) == PlaceView::Home,
        expanded("~/"@ + rest) == PlaceView::UnderHome(rest),
        path.len() == 0 || path[0] != '~' ==> expanded(path) == PlaceView::Plain(path),
        path.len() > 1 && path[0] == '~' && path[1] != '/' ==> expanded(path) == PlaceView::Plain(
            path,
        ),
{
    reveal_strlit("~");
    reveal_strlit("~/");
    let p = "~/"@ + rest;
    assert("~/"@ =~= p.subrange(0, 2));
    assert(p.skip(2) =~= rest);
    assert(p.len() != 1);
    if "~/"@.is_prefix_of(path) {
        assert(path.subrange(0, 2)[0] == path[0] && path.subrange(0, 2)[1] == path[1]);
    }
    if "~/"@.is_prefix_of("~"@) {
        assert(false);
    }
}

/// A given place is taken as it is, and the default below the home directory is used without one.
pub proof fn law_given_places_are_used(given: Seq<char>, default: Seq<char>)
    ensures
        place_or(Some(given), default) == expanded(given),
        place_or(None, default) == PlaceView::UnderHome(default),
{
}

/// Only the word `none`, in any case, stands for no browser.
pub proof fn law_none_is_no_browser(s: Seq<char>)
    ensures
        browser_of(s) is None <==> s.len() == 4 && (s[0] == 'n' || s[0] == 'N') && (s[1] == 'o'
            || s[1] == 'O') && (s[2] == 'n' || s[2] == 'N') && (s[3] == 'e' || s[3] == 'E'),
        browser_of(s) is Some ==> browser_of(s)->0 == s,
{
    let w = seq!['n', 'o', 'n', 'e'];
    assert(w.len() == 4 && w[0] == 'n' && w[1] == 'o' && w[2] == 'n' && w[3] == 'e');
    if s.len() == 4 {
        if number::is_word(s, w) {
            assert(number::lower(s[0]) == w[0] && number::lower(s[1]) == w[1] && number::lower(s[2])
                == w[2] && number::lower(s[3]) == w[3]);
        } else {
            let i = choose|i: int| 0 <= i < s.len() && number::lower(s[i]) != w[i];
            assert(i == 0 || i == 1 || i == 2 || i == 3);
        }
    }
}

/// The server listens where it is told to; asked to listen everywhere, it does so at the same port.
pub proof fn law_port_is_kept(host: Seq<char>, port: Seq<char>)
    requires
        !port.contains(':'),
    ensures
        listen_addr(host + ":"@ + port, true) == "0.0.0.0:"@ + port,
        listen_addr(host + ":"@ + port, false) == host + ":"@ + port,
{
    reveal_strlit(":");
    let a = host + ":"@ + port;
    text::law_tail_stands_behind_the_last(a, ':');
    let t = text::tail_behind(a, ':');
    assert(a[host.len() as int] == ':');
    let n = t.len();
    if n > port.len() {
        assert(t[n - port.len() - 1] == a[host.len() as int]);
        assert(t.contains(':'));
    }
    if n < port.len() {
        assert(a[a.len() - n - 1] == port[port.len() - n - 1]);
        assert(port.contains(':'));
    }
    assert(t =~= port);
}

/// Only this machine reaches a loopback address: those that begin with 127, and the address one of
/// version 6.
pub proof fn law_loopback_stays_on_the_machine(a: u8, b: u8, c: u8, d: u8, n: u128)
    ensures
        Host::V4(a, b, c, d).loopback() <==> a == 127,
        Host::V6(n).loopback() <==> n == 1,
{
}

}
