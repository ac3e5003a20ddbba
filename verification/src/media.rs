//! Media metadata as ffprobe reports it: whether a file is a video, and the fields that are shown.
use crate::double;
use crate::double::Double;
use crate::number;
use crate::render;
use crate::text;
use vstd::prelude::*;

verus! {

/// Metadata of a downloaded or imported file.
#[derive(Debug, Clone)]
pub struct MediaInfo {
    /// Duration in seconds.
    pub duration: Option<Double>,
    /// Width of the primary video stream in pixels.
    pub width: Option<u32>,
    /// Height of the primary video stream in pixels.
    pub height: Option<u32>,
    /// Codec of the primary video stream.
    pub video_codec: Option<String>,
    /// Codec of the first audio stream.
    pub audio_codec: Option<String>,
    /// Overall bit rate in bits per second.
    pub bit_rate: Option<u64>,
    /// Frame rate of the primary video stream.
    pub fps: Option<Double>,
    /// Short names of the container format.
    pub format: Option<String>,
    /// Descriptive name of the container format.
    pub format_long_name: Option<String>,
    /// Size of the file in bytes.
    pub size: Option<u64>,
}

pub struct MediaView {
    pub duration: Option<Double>,
    pub width: Option<u32>,
    pub height: Option<u32>,
    pub video_codec: Option<Seq<char>>,
    pub audio_codec: Option<Seq<char>>,
    pub bit_rate: Option<u64>,
    pub fps: Option<Double>,
    pub format: Option<Seq<char>>,
    pub format_long_name: Option<Seq<char>>,
    pub size: Option<u64>,
}

impl View for MediaInfo {
    type V = MediaView;

    open spec fn view(&self) -> MediaView {
        MediaView {
            duration: self.duration,
            width: self.width,
            height: self.height,
            video_codec: text::opt(self.video_codec),
            audio_codec: text::opt(self.audio_codec),
            bit_rate: self.bit_rate,
            fps: self.fps,
            format: text::opt(self.format),
            format_long_name: text::opt(self.format_long_name),
            size: self.size,
        }
    }
}

impl Default for MediaInfo {
    fn default() -> (r: Self)
        ensures
            r@ == no_media(),
    {
        MediaInfo {
            duration: None,
            width: None,
            height: None,
            video_codec: None,
            audio_codec: None,
            bit_rate: None,
            fps: None,
            format: None,
            format_long_name: None,
            size: None,
        }
    }
}

/// Metadata of which nothing is known.
pub open spec fn no_media() -> MediaView {
    MediaView {
        duration: None,
        width: None,
        height: None,
        video_codec: None,
        audio_codec: None,
        bit_rate: None,
        fps: None,
        format: None,
        format_long_name: None,
        size: None,
    }
}

impl MediaView {
    /// `1920x1080`, where both dimensions are known.
    pub open spec fn resolution(self) -> Option<Seq<char>> {
        match (self.width, self.height) {
            (Some(w), Some(h)) => Some(text::dec(w as nat) + "x"@ + text::dec(h as nat)),
            _ => None,
        }
    }

    /// The bit rate in Mb/s with two digits behind the point; below one Mb/s, in whole kb/s.
    pub open spec fn bitrate(self) -> Option<Seq<char>> {
        match self.bit_rate {
            Some(bps) => Some(
                if bps >= 1_000_000 {
                    double::signed(false, double::nearest(bps as nat, 1)).quotient(
                        Double { bits: MILLION },
                    ).fixed(2) + " Mb/s"@
                } else {
                    text::dec((bps / 1000) as nat) + " kb/s"@
                },
            ),
            None => None,
        }
    }

    /// The file size for a reader.
    pub open spec fn size_text(self) -> Option<Seq<char>> {
        match self.size {
            Some(n) => Some(render::bytes_text(n)),
            None => None,
        }
    }
}

/// The bits of the double 1000000.
pub const MILLION: u64 = 0x412e_8480_0000_0000;

impl MediaInfo {
    /// Whether a video stream was found.
    pub fn has_video(&self) -> (r: bool)
        ensures
            r == self@.video_codec is Some,
    {
        self.video_codec.is_some()
    }

    /// `1920x1080`, where both dimensions are known.
    pub fn resolution_str(&self) -> (r: Option<String>)
        ensures
            text::opt(r) == self@.resolution(),
    {
        match (self.width, self.height) {
            (Some(w), Some(h)) => {
                let mut out = text::decimal(w as u64);
                out.append("x");
                text::push_dec(&mut out, h as u64);
                Some(out)
            },
            _ => None,
        }
    }

    /// The bit rate for a reader.
    pub fn bitrate_str(&self) -> (r: Option<String>)
        ensures
            text::opt(r) == self@.bitrate(),
    {
        match self.bit_rate {
            Some(bps) => {
                if bps >= 1_000_000 {
                    let mbps: Double = Double::from_u64(bps).div(Double { bits: MILLION });
                    let mut out = mbps.to_fixed(2);
                    out.append(" Mb/s");
                    Some(out)
                } else {
                    let mut out = text::decimal(bps / 1000);
                    out.append(" kb/s");
                    Some(out)
                }
            },
            None => None,
        }
    }

    /// The file size for a reader.
    pub fn size_str(&self) -> (r: Option<String>)
        ensures
            text::opt(r) == self@.size_text(),
    {
        match self.size {
            Some(n) => Some(render::human_bytes(n)),
            None => None,
        }
    }

    /// A copy of the metadata.
    pub fn copy(&self) -> (r: MediaInfo)
        ensures
            r@ == self@,
    {
        MediaInfo {
            duration: self.duration,
            width: self.width,
            height: self.height,
            video_codec: text::copy_opt(&self.video_codec),
            audio_codec: text::copy_opt(&self.audio_codec),
            bit_rate: self.bit_rate,
            fps: self.fps,
            format: text::copy_opt(&self.format),
            format_long_name: text::copy_opt(&self.format_long_name),
            size: self.size,
        }
    }
}

/// The part of ffprobe's report that is read.
#[derive(Debug)]
pub struct FfprobeOutput {
    pub streams: Vec<FfprobeStream>,
    pub format: FfprobeFormat,
}

#[derive(Debug)]
pub struct FfprobeStream {
    pub codec_type: Option<String>,
    pub codec_name: Option<String>,
    pub width: Option<u32>,
    pub height: Option<u32>,
    /// A fraction like `30000/1001`.
    pub avg_frame_rate: Option<String>,
    /// A fraction, used where the average is unknown.
    pub r_frame_rate: Option<String>,
}

#[derive(Debug)]
pub struct FfprobeFormat {
    pub duration: Option<String>,
    pub bit_rate: Option<String>,
    pub format_name: Option<String>,
    pub format_long_name: Option<String>,
    pub size: Option<String>,
}

impl Default for FfprobeFormat {
    fn default() -> (r: Self)
        ensures
            r.duration is None,
            r.bit_rate is None,
            r.format_name is None,
            r.format_long_name is None,
            r.size is None,
    {
        FfprobeFormat {
            duration: None,
            bit_rate: None,
            format_name: None,
            format_long_name: None,
            size: None,
        }
    }
}

/// A number that is finite and above zero.
pub open spec fn usable(d: Option<Double>) -> Option<Double> {
    match d {
        Some(v) => if v.finite() && v.positive() {
            Some(v)
        } else {
            None
        },
        None => None,
    }
}

/// The position of the first stream of a kind, or the number of streams.
pub open spec fn first_stream(streams: Seq<FfprobeStream>, kind: Seq<char>) -> int
    decreases streams.len(),
{
    if streams.len() == 0 || text::opt(streams[0].codec_type) == Some(kind) {
        0
    } else {
        1 + first_stream(streams.drop_first(), kind)
    }
}

/// A frame rate from a fraction or a plain number; `0/0` stands for an unknown one.
pub open spec fn fraction(s: Option<Seq<char>>) -> Option<Double> {
    match s {
        None => None,
        Some(t) => if t == "0/0"@ {
            None
        } else {
            match text::split_at_first(t, '/') {
                Some((num, den)) => match (number::float(num), number::float(den)) {
                    (Some(n), Some(d)) => if d.zero() {
                        None
                    } else {
                        usable(Some(n.quotient(d)))
                    },
                    _ => None,
                },
                None => usable(number::float(t)),
            }
        },
    }
}

/// A text that is read as an unsigned integer.
pub open spec fn count(s: Option<Seq<char>>) -> Option<u64> {
    match s {
        Some(t) => number::unsigned(t),
        None => None,
    }
}

/// What ffprobe's report says of the file: the first video stream gives codec, size and frame
/// rate, the first audio stream its codec, and the container the rest.
pub open spec fn digest(out: FfprobeOutput) -> MediaView {
    let streams = out.streams@;
    let v = first_stream(streams, "video"@);
    let a = first_stream(streams, "audio"@);
    let video = v < streams.len();
    MediaView {
        duration: match out.format.duration {
            Some(s) => usable(number::float(text::trimmed(s@))),
            None => None,
        },
        width: if video {
            streams[v].width
        } else {
            None
        },
        height: if video {
            streams[v].height
        } else {
            None
        },
        video_codec: if video {
            text::opt(streams[v].codec_name)
        } else {
            None
        },
        audio_codec: if a < streams.len() {
            text::opt(streams[a].codec_name)
        } else {
            None
        },
        bit_rate: count(text::opt(out.format.bit_rate)),
        fps: if video {
            match fraction(text::opt(streams[v].avg_frame_rate)) {
                Some(f) => Some(f),
                None => fraction(text::opt(streams[v].r_frame_rate)),
            }
        } else {
            None
        },
        format: text::opt(out.format.format_name),
        format_long_name: text::opt(out.format.format_long_name),
        size: count(text::opt(out.format.size)),
    }
}

fn keep_usable(d: Option<Double>) -> (r: Option<Double>)
    ensures
        r == usable(d),
{
    match d {
        Some(v) => if v.is_finite() && v.is_positive() {
            Some(v)
        } else {
            None
        },
        None => None,
    }
}

/// Reads a number that is finite and above zero.
pub fn parse_f64(s: &str) -> (r: Option<Double>)
    ensures
        r == usable(number::float(text::trimmed(s@))),
{
    keep_usable(number::parse_float(text::trim(s)))
}

/// Reads a fraction like `30000/1001`; nothing for `0/0` or for text that is no number.
pub fn parse_fraction(s: &Option<String>) -> (r: Option<Double>)
    ensures
        r == fraction(text::opt(*s)),
{
    let t: &str = match s {
        Some(t) => t.as_str(),
        None => {
            return None;
        },
    };
    if text::same(t, "0/0") {
        return None;
    }
    match text::split_once(t, '/') {
        Some((num, den)) => {
            match (number::parse_float(num), number::parse_float(den)) {
                (Some(n), Some(d)) => if d.is_zero() {
                    None
                } else {
                    keep_usable(Some(n.div(d)))
                },
                _ => None,
            }
        },
        None => keep_usable(number::parse_float(t)),
    }
}

fn parse_count(s: &Option<String>) -> (r: Option<u64>)
    ensures
        r == count(text::opt(*s)),
{
    match s {
        Some(t) => number::parse_u64(t.as_str()),
        None => None,
    }
}

proof fn lemma_first_stream(streams: Seq<FfprobeStream>, kind: Seq<char>, i: int)
    requires
        0 <= i <= streams.len(),
        i == streams.len() || text::opt(streams[i].codec_type) == Some(kind),
        forall|j: int| 0 <= j < i ==> text::opt(#[trigger] streams[j].codec_type) != Some(kind),
    ensures
        first_stream(streams, kind) == i,
    decreases streams.len(),
{
    if i > 0 {
        assert(text::opt(streams[0].codec_type) != Some(kind));
        let t = streams.drop_first();
        assert forall|j: int| 0 <= j < i - 1 implies text::opt(#[trigger] t[j].codec_type) != Some(
            kind,
        ) by {
            assert(t[j] == streams[j + 1]);
        }
        lemma_first_stream(t, kind, i - 1);
    }
}

fn find_stream(streams: &Vec<FfprobeStream>, kind: &str) -> (r: usize)
    ensures
        r == first_stream(streams@, kind@),
        r <= streams@.len(),
{
    let mut i: usize = 0;
    while i < streams.len()
        invariant
            i <= streams@.len(),
            forall|j: int|
                0 <= j < i ==> text::opt(#[trigger] streams@[j].codec_type) != Some(kind@),
        decreases streams@.len() - i,
    {
        match &streams[i].codec_type {
            Some(t) => {
                if text::same(t.as_str(), kind) {
                    proof {
                        lemma_first_stream(streams@, kind@, i as int);
                    }
                    return i;
                }
            },
            None => {},
        }
        i += 1;
    }
    proof {
        lemma_first_stream(streams@, kind@, i as int);
    }
    i
}

/// Reads ffprobe's report: the first video stream is the primary one, the first audio stream
/// gives the audio codec, and duration and bit rate come from the container.
pub fn parse(out: FfprobeOutput) -> (r: MediaInfo)
    ensures
        r@ == digest(out),
{
    let v: usize = find_stream(&out.streams, "video");
    let a: usize = find_stream(&out.streams, "audio");
    let video: bool = v < out.streams.len();
    let fps: Option<Double> = if video {
        match parse_fraction(&out.streams[v].avg_frame_rate) {
            Some(f) => Some(f),
            None => parse_fraction(&out.streams[v].r_frame_rate),
        }
    } else {
        None
    };
    MediaInfo {
        duration: match &out.format.duration {
            Some(s) => parse_f64(s.as_str()),
            None => None,
        },
        width: if video {
            out.streams[v].width
        } else {
            None
        },
        height: if video {
            out.streams[v].height
        } else {
            None
        },
        video_codec: if video {
            text::copy_opt(&out.streams[v].codec_name)
        } else {
            None
        },
        audio_codec: if a < out.streams.len() {
            text::copy_opt(&out.streams[a].codec_name)
        } else {
            None
        },
        bit_rate: parse_count(&out.format.bit_rate),
        fps,
        format: text::copy_opt(&out.format.format_name),
        format_long_name: text::copy_opt(&out.format.format_long_name),
        size: parse_count(&out.format.size),
    }
}

/// Sizes, rates and resolutions are shown where they are known, and only there.
pub proof fn law_known_media_is_shown(m: MediaView, w: u32, h: u32, n: u64)
    ensures
        m.width == Some(w) && m.height == Some(h) ==> m.resolution() == Some(
            text::dec(w as nat) + "x"@ + text::dec(h as nat),
        ),
        m.width is None || m.height is None ==> m.resolution() is None,
        m.bit_rate == Some(n) && n < 1_000_000 ==> m.bitrate() == Some(
            text::dec((n / 1000) as nat) + " kb/s"@,
        ),
        m.bit_rate == Some(n) && n >= 1_000_000 ==> m.bitrate() == Some(
            double::signed(false, double::nearest(n as nat, 1)).quotient(
                Double { bits: 0x412e_8480_0000_0000 },
            ).fixed(2) + " Mb/s"@,
        ),
        m.bit_rate is None ==> m.bitrate() is None,
        m.size == Some(n) ==> m.size_text() == Some(render::bytes_text(n)),
        m.size is None ==> m.size_text() is None,
{
}

/// A number counts where it is finite and above zero, as it is.
pub proof fn law_only_real_lengths_count(d: Double)
    ensures
        d.finite() && d.positive() ==> usable(Some(d)) == Some(d),
        !d.finite() || !d.positive() ==> usable(Some(d)) is None,
        usable(None) is None,
{
}

/// A frame rate is the quotient of its fraction, or a plain number; `0/0`, a fraction by zero and what
/// is no number give none.
pub proof fn law_frame_rate_is_a_quotient(a: Seq<char>, b: Seq<char>, n: Double, d: Double)
    requires
        !a.contains('/'),
        number::float(a) == Some(n),
        number::float(b) == Some(d),
    ensures
        !d.zero() && a + "/"@ + b != "0/0"@ ==> fraction(Some(a + "/"@ + b)) == usable(
            Some(n.quotient(d)),
        ),
        d.zero() ==> fraction(Some(a + "/"@ + b)) is None,
        a != "0/0"@ ==> fraction(Some(a)) == usable(Some(n)),
        fraction(Some("0/0"@)) is None,
        fraction(None) is None,
{
    reveal_strlit("/");
    let s = a + "/"@ + b;
    let k = a.len() as int;
    assert(s[k] == '/');
    assert forall|j: int| 0 <= j < k implies s[j] != '/' by {
        assert(s[j] == a[j]);
    }
    text::lemma_first_of(s, '/', k);
    assert(s.take(k) =~= a);
    assert(s.skip(k + 1) =~= b);
    assert(s.contains('/'));
}

/// The picture is described by the first video stream and the sound by the first audio stream, wherever
/// they stand among the streams; without such a stream nothing is known of it. Length, rate, size and
/// format are those of the container.
pub proof fn law_first_streams_describe_the_file(out: FfprobeOutput, v: int, a: int)
    requires
        0 <= v <= out.streams@.len(),
        v < out.streams@.len() ==> text::opt(out.streams@[v].codec_type) == Some("video"@),
        forall|i: int|
            0 <= i < v ==> text::opt(#[trigger] out.streams@[i].codec_type) != Some("video"@),
        0 <= a <= out.streams@.len(),
        a < out.streams@.len() ==> text::opt(out.streams@[a].codec_type) == Some("audio"@),
        forall|i: int|
            0 <= i < a ==> text::opt(#[trigger] out.streams@[i].codec_type) != Some("audio"@),
    ensures
        ({
            let m = digest(out);
            let s = out.streams@;
            &&& v < s.len() ==> {
                &&& m.video_codec == text::opt(s[v].codec_name)
                &&& m.width == s[v].width
                &&& m.height == s[v].height
                &&& fraction(text::opt(s[v].avg_frame_rate)) is Some ==> m.fps == fraction(
                    text::opt(s[v].avg_frame_rate),
                )
                &&& fraction(text::opt(s[v].avg_frame_rate)) is None ==> m.fps == fraction(
                    text::opt(s[v].r_frame_rate),
                )
            }
            &&& v == s.len() ==> m.video_codec is None && m.width is None && m.height is None
                && m.fps is None
            &&& a < s.len() ==> m.audio_codec == text::opt(s[a].codec_name)
            &&& a == s.len() ==> m.audio_codec is None
            &&& out.format.duration is Some ==> m.duration == usable(
                number::float(text::trimmed(out.format.duration->0@)),
            )
            &&& out.format.duration is None ==> m.duration is None
            &&& out.format.bit_rate is Some ==> m.bit_rate == number::unsigned(
                out.format.bit_rate->0@,
            )
            &&& out.format.bit_rate is None ==> m.bit_rate is None
            &&& out.format.size is Some ==> m.size == number::unsigned(out.format.size->0@)
            &&& out.format.size is None ==> m.size is None
            &&& m.format == text::opt(out.format.format_name)
            &&& m.format_long_name == text::opt(out.format.format_long_name)
        }),
{
    lemma_first_stream(out.streams@, "video"@, v);
    lemma_first_stream(out.streams@, "audio"@, a);
}

/// Before a file is probed nothing is known of it.
pub proof fn law_nothing_is_known_at_first()
    ensures
        no_media().duration is None,
        no_media().width is None,
        no_media().height is None,
        no_media().video_codec is None,
        no_media().audio_codec is None,
        no_media().bit_rate is None,
        no_media().fps is None,
        no_media().format is None,
        no_media().format_long_name is None,
        no_media().size is None,
{
}

}
