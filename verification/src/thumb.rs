//! The thumbnail cache: names of fetched thumbnails and of extracted frames.
use crate::digits;
use crate::double;
use crate::double::Double;
use crate::library;
use crate::number;
use crate::text;
use vstd::prelude::*;

verus! {

/// The SHA-1 digest of some bytes.
pub uninterp spec fn sha1_digest(data: Seq<u8>) -> Seq<u8>;

/// `sha1::Sha1::digest`: the SHA-1 digest of the bytes, which is 20 bytes long.
#[verifier::external_body]
fn sha1(data: &[u8]) -> (r: Vec<u8>)
    ensures
        r@ == sha1_digest(data@),
        r@.len() == 20,
{
    <sha1::Sha1 as sha1::Digest>::digest(data).to_vec()
}

/// A half byte as a lower-case hexadecimal digit.
pub open spec fn lower_hex(n: u8) -> char {
    if n < 10 {
        (48 + n) as char
    } else {
        (87 + n) as char
    }
}

/// Bytes in lower-case hexadecimal, two digits each.
pub open spec fn hex_text(bytes: Seq<u8>) -> Seq<char>
    decreases bytes.len(),
{
    if bytes.len() == 0 {
        Seq::empty()
    } else {
        hex_text(bytes.drop_last()).push(lower_hex(bytes.last() / 16)).push(
            lower_hex(bytes.last() % 16),
        )
    }
}

fn hex_digit(n: u8) -> (r: char)
    requires
        n < 16,
    ensures
        r == lower_hex(n),
{
    if n < 10 {
        (48 + n) as char
    } else {
        (87 + n) as char
    }
}

/// Lower-case hexadecimal of some bytes.
pub fn hex(bytes: &[u8]) -> (r: String)
    ensures
        r@ == hex_text(bytes@),
{
    let mut out = String::new();
    let mut i: usize = 0;
    assert(bytes@.take(0) =~= Seq::<u8>::empty());
    while i < bytes.len()
        invariant
            i <= bytes@.len(),
            out@ == hex_text(bytes@.take(i as int)),
        decreases bytes@.len() - i,
    {
        let b: u8 = bytes[i];
        proof {
            let t = bytes@.take(i + 1);
            assert(t.drop_last() =~= bytes@.take(i as int));
            assert(t.last() == b);
        }
        out.push(hex_digit(b / 16));
        out.push(hex_digit(b % 16));
        i += 1;
    }
    assert(bytes@.take(i as int) =~= bytes@);
    out
}

/// The SHA-1 of a text, in hexadecimal.
pub fn sha1_hex(s: &str) -> (r: String)
    ensures
        r@ == hex_text(sha1_digest(vstd::utf8::encode_utf8(s@))),
        r@.len() == 40,
{
    let digest: Vec<u8> = sha1(s.as_bytes());
    proof {
        law_hex_is_lower_case(digest@);
    }
    hex(digest.as_slice())
}

/// The SHA-1 of some bytes as a quoted tag.
pub fn etag_of(data: &[u8]) -> (r: String)
    ensures
        r@ == seq!['"'] + hex_text(sha1_digest(data@)) + seq!['"'],
{
    let digest: Vec<u8> = sha1(data);
    let mut out = String::new();
    out.push('"');
    out.append(hex(digest.as_slice()).as_str());
    let ghost before = out@;
    out.push('"');
    assert(out@ =~= seq!['"'] + hex_text(sha1_digest(data@)) + seq!['"']);
    out
}

pub open spec fn is_hex_char(c: char) -> bool {
    '0' <= c <= '9' || 'a' <= c <= 'f'
}

/// Hexadecimal has two characters for each byte, all of them digits or letters from `a` to `f`.
pub proof fn law_hex_is_lower_case(bytes: Seq<u8>)
    ensures
        hex_text(bytes).len() == 2 * bytes.len(),
        forall|i: int| 0 <= i < hex_text(bytes).len() ==> is_hex_char(#[trigger] hex_text(bytes)[i]),
    decreases bytes.len(),
{
    if bytes.len() > 0 {
        law_hex_is_lower_case(bytes.drop_last());
        let a = hex_text(bytes.drop_last());
        let t = hex_text(bytes);
        assert forall|i: int| 0 <= i < t.len() implies is_hex_char(#[trigger] t[i]) by {
            if i < a.len() {
                assert(t[i] == a[i]);
            }
        }
    }
}

/// A text with its ASCII letters in lower case.
pub open spec fn lowered(s: Seq<char>) -> Seq<char> {
    s.map_values(|c: char| number::lower(c))
}

fn to_lower(s: &str) -> (r: String)
    ensures
        r@ == lowered(s@),
{
    let chars: Vec<char> = text::chars_of(s);
    let mut out = String::new();
    let mut i: usize = 0;
    while i < chars.len()
        invariant
            i <= chars@.len(),
            chars@ == s@,
            out@ == lowered(s@).take(i as int),
        decreases chars@.len() - i,
    {
        out.push(number::lower_of(chars[i]));
        i += 1;
        assert(out@ =~= lowered(s@).take(i as int));
    }
    assert(lowered(s@).take(i as int) =~= lowered(s@));
    out
}

/// What stands before the first `c` in a text.
pub open spec fn before_first(s: Seq<char>, c: char) -> Seq<char> {
    s.take(text::first_of(s, c))
}

fn split_first(s: &str, c: char) -> (r: &str)
    ensures
        r@ == before_first(s@, c),
{
    let chars: Vec<char> = text::chars_of(s);
    let i: usize = text::find_char(&chars, c);
    let n: usize = s.unicode_len();
    assert(s@.subrange(0, i as int) =~= s@.take(i as int));
    s.substring_char(0, i)
}

/// The extension for a media type, where it is one of the known ones.
pub open spec fn ext_of_type(t: Seq<char>) -> Option<Seq<char>> {
    if t == "image/jpeg"@ || t == "image/jpg"@ {
        Some("jpg"@)
    } else if t == "image/png"@ {
        Some("png"@)
    } else if t == "image/webp"@ {
        Some("webp"@)
    } else if t == "image/gif"@ {
        Some("gif"@)
    } else {
        None
    }
}

/// The extension for that of a path, where it is one of the known ones.
pub open spec fn ext_of_path(t: Seq<char>) -> Option<Seq<char>> {
    if t == "jpg"@ || t == "jpeg"@ {
        Some("jpg"@)
    } else if t == "png"@ {
        Some("png"@)
    } else if t == "webp"@ {
        Some("webp"@)
    } else if t == "gif"@ {
        Some("gif"@)
    } else {
        None
    }
}

/// The extension of a fetched thumbnail: by its media type, else by the path of its URL, else
/// `jpg`.
pub open spec fn thumb_ext(content_type: Option<Seq<char>>, url: Seq<char>) -> Seq<char> {
    let by_type = match content_type {
        Some(ct) => ext_of_type(lowered(text::trimmed(before_first(ct, ';')))),
        None => None,
    };
    let by_path = ext_of_path(lowered(text::tail_behind(before_first(url, '?'), '.')));
    match (by_type, by_path) {
        (Some(e), _) => e,
        (None, Some(e)) => e,
        (None, None) => "jpg"@,
    }
}

fn known_type(t: &str) -> (r: Option<&'static str>)
    ensures
        (match r {
            Some(e) => Some(e@),
            None => None,
        }) == ext_of_type(t@),
{
    if text::same(t, "image/jpeg") || text::same(t, "image/jpg") {
        Some("jpg")
    } else if text::same(t, "image/png") {
        Some("png")
    } else if text::same(t, "image/webp") {
        Some("webp")
    } else if text::same(t, "image/gif") {
        Some("gif")
    } else {
        None
    }
}

fn known_path(t: &str) -> (r: Option<&'static str>)
    ensures
        (match r {
            Some(e) => Some(e@),
            None => None,
        }) == ext_of_path(t@),
{
    if text::same(t, "jpg") || text::same(t, "jpeg") {
        Some("jpg")
    } else if text::same(t, "png") {
        Some("png")
    } else if text::same(t, "webp") {
        Some("webp")
    } else if text::same(t, "gif") {
        Some("gif")
    } else {
        None
    }
}

/// Picks the extension of a fetched thumbnail.
pub fn ext_for(content_type: Option<&str>, url: &str) -> (r: &'static str)
    ensures
        r@ == thumb_ext(
            match content_type {
                Some(ct) => Some(ct@),
                None => None,
            },
            url@,
        ),
{
    if let Some(ct) = content_type {
        let t: String = to_lower(text::trim(split_first(ct, ';')));
        if let Some(e) = known_type(t.as_str()) {
            return e;
        }
    }
    let ext: String = to_lower(text::rsplit_first(split_first(url, '?'), '.'));
    match known_path(ext.as_str()) {
        Some(e) => e,
        None => "jpg",
    }
}

/// `stem.ext`.
pub open spec fn dotted_name(stem: Seq<char>, ext: Seq<char>) -> Seq<char> {
    stem + "."@ + ext
}

/// The cache name of a thumbnail with this extension.
pub fn cache_name(stem: &str, ext: &str) -> (r: String)
    ensures
        r@ == dotted_name(stem@, ext@),
{
    let mut out = stem.to_string();
    out.append(".");
    out.append(ext);
    out
}

/// The names under which a fetched thumbnail may be cached, in the order in which they are tried.
pub open spec fn candidates(stem: Seq<char>) -> Seq<Seq<char>> {
    seq![
        dotted_name(stem, "jpg"@),
        dotted_name(stem, "png"@),
        dotted_name(stem, "webp"@),
        dotted_name(stem, "gif"@),
    ]
}

/// The names under which a fetched thumbnail may be cached.
pub fn cache_candidates(stem: &str) -> (r: Vec<String>)
    ensures
        text::list(r@) == candidates(stem@),
{
    let r: Vec<String> = vec![
        cache_name(stem, "jpg"),
        cache_name(stem, "png"),
        cache_name(stem, "webp"),
        cache_name(stem, "gif"),
    ];
    assert(text::list(r@) =~= candidates(stem@));
    r
}

/// The first candidate that is there, given which are.
pub open spec fn first_there(names: Seq<Seq<char>>, there: Seq<bool>) -> Option<Seq<char>>
    decreases names.len(),
{
    if names.len() == 0 || there.len() == 0 {
        None
    } else if there[0] {
        Some(names[0])
    } else {
        first_there(names.drop_first(), there.drop_first())
    }
}

/// The cached thumbnail, given which of the candidates are in the cache.
pub fn cache_hit(stem: &str, there: &[bool]) -> (r: Option<String>)
    ensures
        text::opt(r) == first_there(candidates(stem@), there@),
{
    let names: Vec<String> = cache_candidates(stem);
    let ghost all = candidates(stem@);
    let mut i: usize = 0;
    assert(all.skip(0) =~= all);
    assert(there@.skip(0) =~= there@);
    while i < names.len() && i < there.len()
        invariant
            i <= names@.len(),
            i <= there@.len(),
            text::list(names@) == all,
            all == candidates(stem@),
            first_there(all.skip(i as int), there@.skip(i as int)) == first_there(all, there@),
        decreases names@.len() - i,
    {
        assert(all[i as int] == names@[i as int]@);
        if there[i] {
            return Some(names[i].clone());
        }
        assert(all.skip(i as int).drop_first() =~= all.skip(i + 1));
        assert(there@.skip(i as int).drop_first() =~= there@.skip(i + 1));
        i += 1;
    }
    None
}

/// The cache name of the frame `i` of a video.
pub open spec fn frame_text(stem: Seq<char>, i: nat) -> Seq<char> {
    stem + "."@ + text::dec(i) + ".jpg"@
}

/// The cache name of the frame `i` of a video.
pub fn frame_name(stem: &str, i: usize) -> (r: String)
    ensures
        r@ == frame_text(stem@, i as nat),
{
    let mut out = stem.to_string();
    out.append(".");
    text::push_dec(&mut out, i as u64);
    out.append(".jpg");
    out
}

/// The name of the file that is written before it takes the place of `name`.
pub fn temp_name(name: &str) -> (r: String)
    ensures
        r@ == name@ + ".tmp"@,
{
    let mut out = name.to_string();
    out.append(".tmp");
    out
}

/// `b` to the `n`.
pub open spec fn power(b: nat, n: nat) -> nat
    decreases n,
{
    if n == 0 {
        1
    } else {
        power(b, (n - 1) as nat) * b
    }
}

/// How often 360 fits as a factor between `den` and `num`.
pub open spec fn steps(num: nat, den: nat) -> nat
    decreases num - den,
    when den > 0
{
    if num < den * 360 {
        0
    } else {
        1 + steps(num, den * 360)
    }
}

/// The number of frames for a video of `duration` seconds: `2 + 14 * log2(d / 10) / log2(360)`,
/// rounded down, so that 10 seconds have two frames and an hour has sixteen. It is at least two, and
/// one where the duration is unknown or not above zero. In whole numbers, it is how often 360 fits
/// as a factor between `10^14` and `d^14`.
pub open spec fn frames_for(duration: Option<Double>) -> nat {
    match duration {
        Some(d) => if !d.positive() {
            1
        } else if d.infinite() {
            usize::MAX as nat
        } else {
            2 + steps(
                power(d.significand(), 14) * double::scale(14 * d.exponent()),
                power(10, 14) * double::scale(-14 * d.exponent()),
            )
        },
        None => 1,
    }
}

proof fn lemma_power_bound(s: nat, n: nat)
    requires
        s <= digits::pow2(53),
    ensures
        power(s, n) <= digits::pow2(53 * n),
    decreases n,
{
    if n > 0 {
        lemma_power_bound(s, (n - 1) as nat);
        let a = power(s, (n - 1) as nat);
        let b = digits::pow2((53 * (n - 1)) as nat);
        let p = digits::pow2(53);
        digits::lemma_pow2_adds((53 * (n - 1)) as nat, 53);
        assert((53 * (n - 1)) as nat + 53 == 53 * n);
        assert(a * s <= b * p) by (nonlinear_arith)
            requires
                a <= b,
                s <= p,
        ;
    } else {
        assert(digits::pow2(0) == 1);
    }
}

proof fn lemma_pow2_orders(a: nat, b: nat)
    requires
        digits::pow2(a) <= digits::pow2(b),
    ensures
        a <= b,
{
    if a > b {
        double::lemma_pow2_monotone(b + 1, a);
        digits::lemma_pow2_pos(b);
        assert(digits::pow2(b + 1) == 2 * digits::pow2(b));
    }
}

/// The digits of `s` to the `n`.
fn power_of(s: u64, n: u32) -> (r: Vec<u8>)
    ensures
        digits::all_digits(r@),
        digits::value(r@) == power(s as nat, n as nat),
{
    let mut d: Vec<u8> = digits::from_u64(1);
    let mut i: u32 = 0;
    assert(power(s as nat, 0) == 1);
    while i < n
        invariant
            i <= n,
            digits::all_digits(d@),
            digits::value(d@) == power(s as nat, i as nat),
        decreases n - i,
    {
        d = digits::times(&d, s);
        i += 1;
    }
    d
}

/// How often 360 fits as a factor between `den` and `num`.
fn count_steps(num: &Vec<u8>, den: Vec<u8>) -> (r: usize)
    requires
        digits::all_digits(num@),
        digits::all_digits(den@),
        digits::value(den@) > 0,
        digits::value(num@) <= digits::pow2(20_000),
    ensures
        r == steps(digits::value(num@), digits::value(den@)),
        r <= 20_000,
{
    let ghost n = digits::value(num@);
    let ghost d0 = digits::value(den@);
    let mut next: Vec<u8> = digits::times(&den, 360);
    let mut count: usize = 0;
    let ghost mut d = d0;
    assert(digits::pow2(0) == 1);
    while !digits::less(num, &next)
        invariant
            n == digits::value(num@),
            n <= digits::pow2(20_000),
            d > 0,
            digits::all_digits(num@),
            digits::all_digits(next@),
            digits::value(next@) == d * 360,
            digits::pow2(count as nat) <= d,
            count <= 20_000,
            steps(n, d0) == count + steps(n, d),
        decreases n - d,
    {
        proof {
            assert(d <= n);
            assert(digits::pow2((count + 1) as nat) == 2 * digits::pow2(count as nat));
            lemma_pow2_orders((count + 1) as nat, 20_000);
            d = d * 360;
        }
        next = digits::times(&next, 360);
        count += 1;
    }
    count
}

/// The number of frames to extract from a video of `duration` seconds.
pub fn frame_count(duration: Option<Double>) -> (r: usize)
    ensures
        r == frames_for(duration),
        duration is Some && duration->0.positive() && duration->0.infinite() || r <= 20_002,
{
    let d: Double = match duration {
        Some(d) => d,
        None => {
            return 1;
        },
    };
    if !d.is_positive() {
        return 1;
    }
    if !d.is_finite() {
        return usize::MAX;
    }
    let s: u64 = d.significand_bits();
    let e: i32 = d.exponent_of();
    let mut num: Vec<u8> = power_of(s, 14);
    let mut den: Vec<u8> = power_of(10, 14);
    proof {
        double::lemma_pow2_53();
        lemma_power_bound(s as nat, 14);
        assert(digits::pow2(0) == 1);
        assert(digits::value(num@) * 1 == digits::value(num@));
        assert(digits::value(den@) * 1 == digits::value(den@));
        assert(power(10, 14) > 0) by {
            lemma_power_positive(10, 14);
        }
    }
    if e >= 0 {
        let ghost n0 = digits::value(num@);
        num = double::times_pow2(num, (14 * e) as u32);
        proof {
            double::lemma_pow2_monotone((14 * e) as nat, 14 * 972);
            digits::lemma_pow2_adds(742, 14 * 972);
            let p = digits::pow2((14 * e) as nat);
            let a = digits::pow2(742);
            let b = digits::pow2(14 * 972);
            assert(n0 * p <= a * b) by (nonlinear_arith)
                requires
                    n0 <= a,
                    p <= b,
            ;
        }
    } else {
        let ghost d0 = digits::value(den@);
        den = double::times_pow2(den, (-14 * e) as u32);
        proof {
            let p = digits::pow2((-14 * e) as nat);
            digits::lemma_pow2_pos((-14 * e) as nat);
            assert(d0 * p > 0) by (nonlinear_arith)
                requires
                    d0 > 0,
                    p > 0,
            ;
        }
    }
    proof {
        double::lemma_pow2_monotone(742 + 14 * 972, 20_000);
        double::lemma_pow2_monotone(742, 20_000);
    }
    2 + count_steps(&num, den)
}

proof fn lemma_power_positive(b: nat, n: nat)
    requires
        b > 0,
    ensures
        power(b, n) > 0,
    decreases n,
{
    if n > 0 {
        lemma_power_positive(b, (n - 1) as nat);
        let p = power(b, (n - 1) as nat);
        assert(p * b > 0) by (nonlinear_arith)
            requires
                p > 0,
                b > 0,
        ;
    }
}

proof fn lemma_power_of_product(a: nat, b: nat, n: nat)
    ensures
        power(a * b, n) == power(a, n) * power(b, n),
    decreases n,
{
    if n > 0 {
        lemma_power_of_product(a, b, (n - 1) as nat);
        let x = power(a, (n - 1) as nat);
        let y = power(b, (n - 1) as nat);
        assert((x * y) * (a * b) == (x * a) * (y * b)) by (nonlinear_arith);
    } else {
        assert(1nat * 1nat == 1nat) by (nonlinear_arith);
    }
}

proof fn lemma_power_grows(a: nat, b: nat, n: nat)
    requires
        a <= b,
    ensures
        power(a, n) <= power(b, n),
    decreases n,
{
    if n > 0 {
        lemma_power_grows(a, b, (n - 1) as nat);
        let x = power(a, (n - 1) as nat);
        let y = power(b, (n - 1) as nat);
        assert(x * a <= y * b) by (nonlinear_arith)
            requires
                x <= y,
                a <= b,
        ;
    }
}

proof fn lemma_power_of_pow2(k: nat, n: nat)
    ensures
        power(digits::pow2(k), n) == digits::pow2(n * k),
    decreases n,
{
    if n > 0 {
        lemma_power_of_pow2(k, (n - 1) as nat);
        assert((n - 1) * k + k == n * k) by (nonlinear_arith);
        assert((n - 1) * k >= 0) by (nonlinear_arith)
            requires
                n > 0,
        ;
        digits::lemma_pow2_adds(((n - 1) * k) as nat, k);
    } else {
        assert(0 * k == 0);
        assert(digits::pow2(0) == 1);
    }
}

proof fn lemma_power_of_scale(e: int)
    ensures
        power(double::scale(e), 14) == double::scale(14 * e),
{
    if e >= 0 {
        lemma_power_of_pow2(e as nat, 14);
    } else {
        assert(digits::pow2(0) == 1);
        lemma_power_of_pow2(0, 14);
    }
}

/// A ratio that is no smaller has no fewer factors of 360.
proof fn lemma_steps_grow(num: nat, den: nat, num2: nat, den2: nat)
    requires
        den > 0,
        den2 > 0,
        num * den2 <= num2 * den,
    ensures
        steps(num, den) <= steps(num2, den2),
    decreases num - den,
{
    if num >= den * 360 {
        assert(num2 >= den2 * 360) by (nonlinear_arith)
            requires
                num >= den * 360,
                den > 0,
                den2 > 0,
                num * den2 <= num2 * den,
        ;
        assert(num * (den2 * 360) <= num2 * (den * 360)) by (nonlinear_arith)
            requires
                num * den2 <= num2 * den,
        ;
        lemma_steps_grow(num, den * 360, num2, den2 * 360);
    }
}

/// A longer video has no fewer frames.
pub proof fn law_frames_grow_with_duration(a: Double, b: Double)
    requires
        a.positive() && a.finite(),
        b.positive() && b.finite(),
        a.significand() * double::scale(a.exponent()) * double::scale(-b.exponent())
            <= b.significand() * double::scale(b.exponent()) * double::scale(-a.exponent()),
    ensures
        frames_for(Some(a)) <= frames_for(Some(b)),
{
    let (sa, ea) = (a.significand(), a.exponent());
    let (sb, eb) = (b.significand(), b.exponent());
    let (ua, da) = (double::scale(ea), double::scale(-ea));
    let (ub, db) = (double::scale(eb), double::scale(-eb));
    lemma_power_grows(sa * ua * db, sb * ub * da, 14);
    lemma_power_of_product(sa * ua, db, 14);
    lemma_power_of_product(sa, ua, 14);
    lemma_power_of_product(sb * ub, da, 14);
    lemma_power_of_product(sb, ub, 14);
    lemma_power_of_scale(ea);
    lemma_power_of_scale(-ea);
    lemma_power_of_scale(eb);
    lemma_power_of_scale(-eb);
    assert(14 * (-ea) == -14 * ea && 14 * (-eb) == -14 * eb);
    let ten = power(10, 14);
    let na = power(sa, 14) * double::scale(14 * ea);
    let nb = power(sb, 14) * double::scale(14 * eb);
    let xa = double::scale(-14 * ea);
    let xb = double::scale(-14 * eb);
    assert(na * xb <= nb * xa);
    lemma_power_positive(10, 14);
    if ea < 0 {
        digits::lemma_pow2_pos((-14 * ea) as nat);
    }
    if eb < 0 {
        digits::lemma_pow2_pos((-14 * eb) as nat);
    }
    assert(na * (ten * xb) <= nb * (ten * xa)) by (nonlinear_arith)
        requires
            na * xb <= nb * xa,
    ;
    assert(ten * xa > 0) by (nonlinear_arith)
        requires
            ten > 0,
            xa > 0,
    ;
    assert(ten * xb > 0) by (nonlinear_arith)
        requires
            ten > 0,
            xb > 0,
    ;
    lemma_steps_grow(na, ten * xa, nb, ten * xb);
}

/// The duration that frames are spread over: zero where it is unknown or not above zero.
pub open spec fn spread(duration: Option<Double>) -> Double {
    match duration {
        Some(d) => if d.positive() {
            d
        } else {
            Double { bits: 0 }
        },
        None => Double { bits: 0 },
    }
}

/// The time of the frame `i` of `n`, in seconds: evenly spaced inside the video, without its very
/// start and its very end.
pub open spec fn frame_second(i: nat, n: nat, duration: Option<Double>) -> Double {
    double::signed(false, double::nearest(i + 1, 1)).product(spread(duration)).quotient(
        double::signed(false, double::nearest(n + 1, 1)),
    )
}

/// The time of the frame `i` of `n`, in seconds.
pub fn frame_time(i: usize, n: usize, duration: Option<Double>) -> (r: Double)
    requires
        i < u64::MAX,
        n < u64::MAX,
    ensures
        r == frame_second(i as nat, n as nat, duration),
{
    let d: Double = match duration {
        Some(d) => if d.is_positive() {
            d
        } else {
            Double { bits: 0 }
        },
        None => Double { bits: 0 },
    };
    Double::from_u64(i as u64 + 1).mul(d).div(Double::from_u64(n as u64 + 1))
}

/// The frames of the video file `base`, by their cache names and their times.
pub open spec fn planned(base: Seq<char>, duration: Option<Double>) -> Seq<(Seq<char>, Double)> {
    let n = frames_for(duration);
    let stem = hex_text(sha1_digest(vstd::utf8::encode_utf8(base)));
    Seq::new(n, |i: int| (frame_text(stem, i as nat), frame_second(i as nat, n, duration)))
}

pub open spec fn plan_views(v: Seq<(String, Double)>) -> Seq<(Seq<char>, Double)> {
    v.map_values(|f: (String, Double)| (f.0@, f.1))
}

/// Plans the frames of the video file `base`. The number of frames of an endless video is beyond
/// every plan.
pub fn frame_plan(base: &str, duration: Option<Double>) -> (r: Vec<(String, Double)>)
    requires
        duration is Some ==> !(duration->0.positive() && duration->0.infinite()),
    ensures
        plan_views(r@) == planned(base@, duration),
{
    let stem: String = sha1_hex(base);
    let n: usize = frame_count(duration);
    let mut out: Vec<(String, Double)> = Vec::new();
    let mut i: usize = 0;
    while i < n
        invariant
            i <= n < u64::MAX,
            n == frames_for(duration),
            stem@ == hex_text(sha1_digest(vstd::utf8::encode_utf8(base@))),
            plan_views(out@) == planned(base@, duration).take(i as int),
        decreases n - i,
    {
        let ghost before = out@;
        out.push((frame_name(stem.as_str(), i), frame_time(i, n, duration)));
        i += 1;
        proof {
            let f = out@.last();
            assert((f.0@, f.1) == planned(base@, duration)[i - 1]);
            assert(plan_views(out@) =~= plan_views(before).push((f.0@, f.1)));
            assert(plan_views(out@) =~= planned(base@, duration).take(i as int));
        }
    }
    assert(planned(base@, duration).take(n as int) =~= planned(base@, duration));
    out
}

/// The number of frames that landed: those in front of the first one that failed.
pub open spec fn landed(ok: Seq<bool>) -> nat
    decreases ok.len(),
{
    if ok.len() == 0 {
        0
    } else if landed(ok.drop_last()) == ok.len() - 1 && ok.last() {
        ok.len()
    } else {
        landed(ok.drop_last())
    }
}

/// What is to be done next while frames are extracted.
#[derive(Debug)]
pub enum FrameStep {
    /// Extract the frame with this number, unless the cache has it.
    Extract(usize),
    /// The run is over, and these frames are in the cache.
    Over(Vec<String>),
    /// The run is over without a frame.
    Empty,
}

/// The next step of a run, after the frames whose outcomes are `ok`. A frame that failed ends the
/// run with those that landed so far, since a part of them is better than none.
pub fn next_frame(plan: &Vec<(String, Double)>, ok: &[bool]) -> (r: FrameStep)
    requires
        ok@.len() <= plan@.len(),
    ensures
        match r {
            FrameStep::Extract(i) => landed(ok@) == ok@.len() && i == ok@.len() && i < plan@.len(),
            FrameStep::Over(v) => {
                &&& landed(ok@) < ok@.len() || ok@.len() == plan@.len()
                &&& landed(ok@) > 0
                &&& text::list(v@) == plan_views(plan@).take(landed(ok@) as int).map_values(
                    |f: (Seq<char>, Double)| f.0,
                )
            },
            FrameStep::Empty => {
                &&& landed(ok@) < ok@.len() || ok@.len() == plan@.len()
                &&& landed(ok@) == 0
            },
        },
{
    let mut n: usize = 0;
    let mut out: Vec<String> = Vec::new();
    let ghost names = plan_views(plan@).map_values(|f: (Seq<char>, Double)| f.0);
    assert(text::list(out@) =~= names.take(0));
    assert(ok@.take(0) =~= Seq::<bool>::empty());
    while n < ok.len() && ok[n]
        invariant
            n <= ok@.len() <= plan@.len(),
            names == plan_views(plan@).map_values(|f: (Seq<char>, Double)| f.0),
            names.len() == plan@.len(),
            landed(ok@.take(n as int)) == n,
            text::list(out@) == names.take(n as int),
        decreases ok@.len() - n,
    {
        let ghost before = out@;
        out.push(plan[n].0.clone());
        proof {
            assert(ok@.take(n + 1).drop_last() =~= ok@.take(n as int));
            assert(text::list(out@) =~= text::list(before).push(plan@[n as int].0@));
            assert(names[n as int] == plan@[n as int].0@);
            assert(names.take(n + 1) =~= names.take(n as int).push(names[n as int]));
        }
        n += 1;
    }
    proof {
        lemma_landed(ok@, n as nat);
        assert(names.take(n as int) =~= plan_views(plan@).take(n as int).map_values(
            |f: (Seq<char>, Double)| f.0,
        ));
    }
    if n == ok.len() && n < plan.len() {
        FrameStep::Extract(n)
    } else if n == 0 {
        FrameStep::Empty
    } else {
        FrameStep::Over(out)
    }
}

/// Outcomes that are good up to a bad one, or to the end, have landed so far.
proof fn lemma_landed(ok: Seq<bool>, n: nat)
    requires
        n <= ok.len(),
        landed(ok.take(n as int)) == n,
        n < ok.len() ==> !ok[n as int],
    ensures
        landed(ok) == n,
    decreases ok.len(),
{
    if n == ok.len() {
        assert(ok.take(n as int) =~= ok);
    } else {
        let rest = ok.drop_last();
        assert(rest.take(n as int) =~= ok.take(n as int));
        lemma_landed(rest, n);
    }
}

/// An argument of ffmpeg.
#[derive(Debug)]
pub enum FrameArg {
    Text(String),
    /// The path of the video.
    Video,
    /// The path of the frame.
    Output,
}

pub enum FrameArgView {
    Text(Seq<char>),
    Video,
    Output,
}

impl View for FrameArg {
    type V = FrameArgView;

    open spec fn view(&self) -> FrameArgView {
        match self {
            FrameArg::Text(s) => FrameArgView::Text(s@),
            FrameArg::Video => FrameArgView::Video,
            FrameArg::Output => FrameArgView::Output,
        }
    }
}

/// The arguments by which ffmpeg extracts the frame at `t` seconds: overwrite, seek in the input,
/// one frame, high quality, no scaling.
pub open spec fn frame_args(t: Double) -> Seq<FrameArgView> {
    seq![
        FrameArgView::Text("-y"@),
        FrameArgView::Text("-ss"@),
        FrameArgView::Text(t.fixed(3)),
        FrameArgView::Text("-i"@),
        FrameArgView::Video,
        FrameArgView::Text("-frames:v"@),
        FrameArgView::Text("1"@),
        FrameArgView::Text("-q:v"@),
        FrameArgView::Text("2"@),
        FrameArgView::Output,
    ]
}

/// The arguments by which ffmpeg extracts the frame at `t` seconds.
pub fn extract_args(t: Double) -> (r: Vec<FrameArg>)
    ensures
        r@.map_values(|a: FrameArg| a@) == frame_args(t),
{
    let r: Vec<FrameArg> = vec![
        FrameArg::Text("-y".to_string()),
        FrameArg::Text("-ss".to_string()),
        FrameArg::Text(t.to_fixed(3)),
        FrameArg::Text("-i".to_string()),
        FrameArg::Video,
        FrameArg::Text("-frames:v".to_string()),
        FrameArg::Text("1".to_string()),
        FrameArg::Text("-q:v".to_string()),
        FrameArg::Text("2".to_string()),
        FrameArg::Output,
    ];
    assert(r@.map_values(|a: FrameArg| a@) =~= frame_args(t));
    r
}

/// Resolves the name of a cached thumbnail, given the cache directory and the file as canonical
/// paths where they exist: the file, where its name is safe and it lies in the directory.
pub fn resolve(
    cache_dir: Option<Vec<Vec<u8>>>,
    target: Option<Vec<Vec<u8>>>,
    name: &str,
) -> (r: Option<Vec<Vec<u8>>>)
    ensures
        r is Some <==> library::is_safe(name@) && cache_dir is Some && target is Some
            && library::lies_in(target->0@, cache_dir->0@),
        r is Some ==> r == target,
{
    library::resolve_safe(cache_dir, target, name)
}

/// Hexadecimal writes byte by byte, the high half first, in digits and lower-case letters.
pub proof fn law_hex_writes_byte_by_byte(bytes: Seq<u8>, b: u8, n: u8)
    requires
        n < 16,
    ensures
        hex_text(Seq::empty()).len() == 0,
        hex_text(bytes.push(b)) == hex_text(bytes).push(lower_hex(b / 16)).push(lower_hex(b % 16)),
        n < 10 ==> lower_hex(n) as int == '0' as int + n,
        n >= 10 ==> lower_hex(n) as int == 'a' as int + n - 10,
{
    assert(bytes.push(b).drop_last() =~= bytes);
}

/// Only capital ASCII letters change in lower case.
pub proof fn law_lower_case_changes_capitals(s: Seq<char>)
    ensures
        lowered(s).len() == s.len(),
        forall|i: int|
            0 <= i < s.len() ==> (#[trigger] lowered(s)[i]) as int == if 'A' <= s[i] <= 'Z' {
                s[i] as int + 32
            } else {
                s[i] as int
            },
{
}

/// Whether a text is made of lower-case letters, digits and slashes alone.
spec fn is_plain(t: Seq<char>) -> bool {
    forall|i: int|
        0 <= i < t.len() ==> ('a' <= #[trigger] t[i] <= 'z' || '0' <= t[i] <= '9' || t[i] == '/')
}

proof fn lemma_plain_type(t: Seq<char>, params: Seq<char>)
    requires
        is_plain(t),
        t.len() > 0,
        params.len() == 0 || params[0] == ';',
    ensures
        lowered(text::trimmed(before_first(t + params, ';'))) == t,
{
    let s = t + params;
    assert forall|j: int| 0 <= j < t.len() implies s[j] != ';' by {
        assert(s[j] == t[j]);
    }
    if params.len() > 0 {
        assert(s[t.len() as int] == ';');
    }
    text::lemma_first_of(s, ';', t.len() as int);
    assert(s.take(t.len() as int) =~= t);
    assert(!text::is_white(t[0]) && !text::is_white(t.last()));
    assert(text::trimmed(t) == t);
    assert(lowered(t) =~= t);
}

proof fn lemma_plain_ext(base: Seq<char>, ext: Seq<char>, query: Seq<char>)
    requires
        is_plain(ext),
        !base.contains('?'),
        query.len() == 0 || query[0] == '?',
    ensures
        lowered(text::tail_behind(before_first(base + "."@ + ext + query, '?'), '.')) == ext,
{
    reveal_strlit(".");
    let path = base + "."@ + ext;
    let s = path + query;
    assert forall|j: int| 0 <= j < path.len() implies s[j] != '?' by {
        assert(s[j] == path[j]);
        if j < base.len() {
            assert(path[j] == base[j]);
        } else if j > base.len() {
            assert(path[j] == ext[j - base.len() - 1]);
        }
    }
    if query.len() > 0 {
        assert(s[path.len() as int] == '?');
    }
    text::lemma_first_of(s, '?', path.len() as int);
    assert(s.take(path.len() as int) =~= path);
    text::law_tail_stands_behind_the_last(path, '.');
    let t = text::tail_behind(path, '.');
    let n = t.len();
    assert(path[base.len() as int] == '.');
    if n > ext.len() {
        assert(t[n - ext.len() - 1] == path[base.len() as int]);
        assert(t.contains('.'));
    }
    if n < ext.len() {
        assert(path[path.len() - n - 1] == ext[ext.len() - n - 1]);
    }
    assert(t =~= ext);
    assert(lowered(ext) =~= ext);
}

/// A thumbnail gets the extension of its media type, whatever parameters follow that and whatever its
/// URL is.
pub proof fn law_type_decides_the_extension(params: Seq<char>, url: Seq<char>)
    requires
        params.len() == 0 || params[0] == ';',
    ensures
        thumb_ext(Some("image/jpeg"@ + params), url) == "jpg"@,
        thumb_ext(Some("image/jpg"@ + params), url) == "jpg"@,
        thumb_ext(Some("image/png"@ + params), url) == "png"@,
        thumb_ext(Some("image/webp"@ + params), url) == "webp"@,
        thumb_ext(Some("image/gif"@ + params), url) == "gif"@,
{
    reveal_strlit("image/jpeg");
    reveal_strlit("image/jpg");
    reveal_strlit("image/png");
    reveal_strlit("image/webp");
    reveal_strlit("image/gif");
    lemma_plain_type("image/jpeg"@, params);
    lemma_plain_type("image/jpg"@, params);
    lemma_plain_type("image/png"@, params);
    lemma_plain_type("image/webp"@, params);
    lemma_plain_type("image/gif"@, params);
    assert("image/jpeg"@.len() == 10 && "image/jpg"@.len() == 9 && "image/png"@.len() == 9
        && "image/webp"@.len() == 10 && "image/gif"@.len() == 9);
    assert("image/jpeg"@[6] == 'j' && "image/jpg"@[6] == 'j' && "image/png"@[6] == 'p'
        && "image/webp"@[6] == 'w' && "image/gif"@[6] == 'g');
}

/// Without a known media type the extension in the URL counts, whatever query follows it, and without
/// that it is that of a JPEG.
pub proof fn law_url_decides_the_extension(base: Seq<char>, query: Seq<char>)
    requires
        !base.contains('?'),
        query.len() == 0 || query[0] == '?',
    ensures
        thumb_ext(None, base + "."@ + "jpg"@ + query) == "jpg"@,
        thumb_ext(None, base + "."@ + "jpeg"@ + query) == "jpg"@,
        thumb_ext(None, base + "."@ + "png"@ + query) == "png"@,
        thumb_ext(None, base + "."@ + "webp"@ + query) == "webp"@,
        thumb_ext(None, base + "."@ + "gif"@ + query) == "gif"@,
        thumb_ext(None, base + "."@ + "php"@ + query) == "jpg"@,
{
    reveal_strlit("jpg");
    reveal_strlit("jpeg");
    reveal_strlit("png");
    reveal_strlit("webp");
    reveal_strlit("gif");
    reveal_strlit("php");
    lemma_plain_ext(base, "jpg"@, query);
    lemma_plain_ext(base, "jpeg"@, query);
    lemma_plain_ext(base, "png"@, query);
    lemma_plain_ext(base, "webp"@, query);
    lemma_plain_ext(base, "gif"@, query);
    lemma_plain_ext(base, "php"@, query);
    assert("jpg"@.len() == 3 && "jpeg"@.len() == 4 && "png"@.len() == 3 && "webp"@.len() == 4
        && "gif"@.len() == 3 && "php"@.len() == 3);
    assert("jpg"@[0] == 'j' && "jpeg"@[0] == 'j' && "png"@[0] == 'p' && "png"@[1] == 'n'
        && "webp"@[0] == 'w' && "gif"@[0] == 'g' && "php"@[0] == 'p' && "php"@[1] == 'h');
}

/// Every extension is one under which the cache is searched.
pub proof fn law_cached_thumbnails_are_found(
    content_type: Option<Seq<char>>,
    url: Seq<char>,
    stem: Seq<char>,
)
    ensures
        candidates(stem).contains(stem + "."@ + thumb_ext(content_type, url)),
        candidates(stem).len() == 4,
{
    let c = candidates(stem);
    assert(c[0] == stem + "."@ + "jpg"@);
    assert(c[1] == stem + "."@ + "png"@);
    assert(c[2] == stem + "."@ + "webp"@);
    assert(c[3] == stem + "."@ + "gif"@);
}

/// The first name that is in the cache is a hit, and without one there is none.
pub proof fn law_first_hit_counts(names: Seq<Seq<char>>, there: Seq<bool>, k: int)
    requires
        names.len() == there.len(),
        0 <= k <= names.len(),
        forall|i: int| 0 <= i < k ==> !(#[trigger] there[i]),
        k < names.len() ==> there[k],
    ensures
        k < names.len() ==> first_there(names, there) == Some(names[k]),
        k == names.len() ==> first_there(names, there) is None,
    decreases names.len(),
{
    if k > 0 {
        assert(!there[0]);
        let t = there.drop_first();
        assert forall|i: int| 0 <= i < k - 1 implies !(#[trigger] t[i]) by {
            assert(t[i] == there[i + 1]);
        }
        law_first_hit_counts(names.drop_first(), t, k - 1);
    }
}

/// Different frames of a video have different names, and each is a JPEG under the stem of the video.
pub proof fn law_frames_do_not_collide(stem: Seq<char>, i: nat, j: nat)
    ensures
        frame_text(stem, i) == stem + "."@ + text::dec(i) + ".jpg"@,
        frame_text(stem, i) == frame_text(stem, j) ==> i == j,
{
    let a = frame_text(stem, i);
    let b = frame_text(stem, j);
    if a == b {
        let p = stem + "."@;
        let x = text::dec(i);
        let y = text::dec(j);
        assert(a.len() == p.len() + x.len() + ".jpg"@.len());
        assert(b.len() == p.len() + y.len() + ".jpg"@.len());
        assert(a.subrange(p.len() as int, (p.len() + x.len()) as int) =~= x);
        assert(b.subrange(p.len() as int, (p.len() + y.len()) as int) =~= y);
        text::lemma_dec_injective(i, j);
    }
}

/// A power is a repeated product.
pub proof fn law_power_is_a_product(b: nat, n: nat)
    ensures
        power(b, 0) == 1,
        power(b, n + 1) == power(b, n) * b,
{
}

proof fn lemma_steps_bounds(num: nat, den: nat)
    requires
        den > 0,
    ensures
        num < den * power(360, steps(num, den) + 1),
        steps(num, den) > 0 ==> den * power(360, steps(num, den)) <= num,
    decreases num - den,
{
    let k = steps(num, den);
    assert(power(360, 0) == 1);
    if num < den * 360 {
        assert(power(360, 1) == power(360, 0) * 360);
    } else {
        lemma_steps_bounds(num, den * 360);
        let m = (k - 1) as nat;
        assert(steps(num, den * 360) == m);
        lemma_shift_power(den, m);
        lemma_shift_power(den, m + 1);
        if m == 0 {
            assert(power(360, 1) == power(360, 0) * 360);
        }
    }
}

proof fn lemma_shift_power(den: nat, m: nat)
    ensures
        den * 360 * power(360, m) == den * power(360, m + 1),
{
    let p = power(360, m);
    assert(power(360, m + 1) == p * 360);
    assert(den * 360 * p == den * (p * 360)) by (nonlinear_arith);
}

/// The number of frames grows with the logarithm of the duration: it is two and one more each time that
/// the fourteenth power of the duration in tens of seconds is larger by 360. There is one frame where the
/// duration is unknown or not above zero.
pub proof fn law_frames_follow_the_logarithm(d: Double)
    requires
        d.positive(),
        d.finite(),
    ensures
        frames_for(Some(d)) >= 2,
        power(d.ratio().0, 14) < power(10 * d.ratio().1, 14) * power(
            360,
            (frames_for(Some(d)) - 1) as nat,
        ),
        frames_for(Some(d)) > 2 ==> power(10 * d.ratio().1, 14) * power(
            360,
            (frames_for(Some(d)) - 2) as nat,
        ) <= power(d.ratio().0, 14),
        frames_for(None) == 1,
{
    let e = d.exponent();
    let s = d.significand();
    let (n, m) = d.ratio();
    d.lemma_ratio();
    lemma_power_of_product(s, double::scale(e), 14);
    lemma_power_of_scale(e);
    lemma_power_of_product(10, m, 14);
    lemma_power_of_scale(-e);
    assert(14 * (-e) == -14 * e);
    lemma_power_positive(10 * m, 14);
    lemma_steps_bounds(power(n, 14), power(10 * m, 14));
}

/// What has no length has one frame.
pub proof fn law_one_frame_without_a_length(d: Double)
    requires
        !d.positive(),
    ensures
        frames_for(Some(d)) == 1,
        spread(Some(d)) == (Double { bits: 0 }),
        spread(None) == (Double { bits: 0 }),
{
}

/// The frames of a video are spread evenly inside it: of `n` frames, the one with the number `i` stands
/// at `i + 1` of the `n + 1` equal parts. Each has the name of its number under the digest of the file.
pub proof fn law_frames_are_spread_evenly(base: Seq<char>, d: Double, i: int)
    requires
        d.positive(),
        0 <= i < frames_for(Some(d)),
    ensures
        planned(base, Some(d)).len() == frames_for(Some(d)),
        planned(base, Some(d))[i].0 == hex_text(sha1_digest(vstd::utf8::encode_utf8(base))) + "."@
            + text::dec(i as nat) + ".jpg"@,
        planned(base, Some(d))[i].1 == double::signed(
            false,
            double::nearest((i + 1) as nat, 1),
        ).product(d).quotient(
            double::signed(false, double::nearest(frames_for(Some(d)) + 1, 1)),
        ),
{
}

/// The frames that landed are those in front of the first one that failed.
pub proof fn law_landed_frames_precede_a_failure(ok: Seq<bool>)
    ensures
        landed(ok) <= ok.len(),
        forall|i: int| 0 <= i < landed(ok) ==> #[trigger] ok[i],
        landed(ok) < ok.len() ==> !ok[landed(ok) as int],
    decreases ok.len(),
{
    if ok.len() > 0 {
        let t = ok.drop_last();
        law_landed_frames_precede_a_failure(t);
        assert forall|i: int| 0 <= i < landed(ok) implies #[trigger] ok[i] by {
            if i < t.len() {
                assert(ok[i] == t[i]);
            }
        }
        if landed(t) < t.len() {
            assert(ok[landed(t) as int] == t[landed(t) as int]);
        }
    }
}

/// Whether an option of ffmpeg stands among the arguments, with `value` directly behind it.
pub open spec fn has_frame_option(
    args: Seq<FrameArgView>,
    option: Seq<char>,
    value: FrameArgView,
) -> bool {
    exists|i: int|
        0 <= i && i + 1 < args.len() && #[trigger] args[i] == FrameArgView::Text(option) && args[i
            + 1] == value
}

/// A frame is extracted at its time: ffmpeg seeks there in the video, writes one frame of high quality to
/// the output, and replaces what is there.
pub proof fn law_frame_is_taken_at_its_time(t: Double)
    ensures
        has_frame_option(frame_args(t), "-ss"@, FrameArgView::Text(t.fixed(3))),
        has_frame_option(frame_args(t), "-i"@, FrameArgView::Video),
        has_frame_option(frame_args(t), "-frames:v"@, FrameArgView::Text("1"@)),
        has_frame_option(frame_args(t), "-q:v"@, FrameArgView::Text("2"@)),
        frame_args(t)[0] == FrameArgView::Text("-y"@),
        frame_args(t).last() == FrameArgView::Output,
        frame_args(t).len() == 10,
{
    let a = frame_args(t);
    assert(a[1] == FrameArgView::Text("-ss"@));
    assert(a[3] == FrameArgView::Text("-i"@));
    assert(a[5] == FrameArgView::Text("-frames:v"@));
    assert(a[7] == FrameArgView::Text("-q:v"@));
}

}
