//! Numbers read from decimal text.
use crate::digits;
use crate::double;
use crate::double::Double;
use crate::text;
use vstd::prelude::*;

verus! {

pub open spec fn is_digit(c: char) -> bool {
    '0' <= c <= '9'
}

pub open spec fn digits_only(s: Seq<char>) -> bool {
    forall|i: int| 0 <= i < s.len() ==> is_digit(s[i])
}

/// The number that decimal digits write.
pub open spec fn dec_value(s: Seq<char>) -> nat
    decreases s.len(),
{
    if s.len() == 0 {
        0
    } else {
        10 * dec_value(s.drop_last()) + (s.last() as int - '0' as int) as nat
    }
}

/// An unsigned integer as `u64::from_str` reads it: digits, with at most one plus sign in front.
pub open spec fn unsigned(s: Seq<char>) -> Option<u64> {
    let body = if s.len() > 0 && s[0] == '+' {
        s.skip(1)
    } else {
        s
    };
    if body.len() > 0 && digits_only(body) && dec_value(body) <= u64::MAX {
        Some(dec_value(body) as u64)
    } else {
        None
    }
}

/// Digits in front only make a number larger.
proof fn lemma_dec_value_take(s: Seq<char>, i: int)
    requires
        0 <= i <= s.len(),
        digits_only(s),
    ensures
        dec_value(s.take(i)) <= dec_value(s),
    decreases s.len(),
{
    if i == s.len() {
        assert(s.take(i) =~= s);
    } else {
        lemma_dec_value_take(s.drop_last(), i);
        assert(s.drop_last().take(i) =~= s.take(i));
    }
}

/// Reads an unsigned integer.
pub fn parse_u64(s: &str) -> (r: Option<u64>)
    ensures
        r == unsigned(s@),
{
    let chars: Vec<char> = text::chars_of(s);
    let from: usize = if chars.len() > 0 && chars[0] == '+' { 1 } else { 0 };
    let ghost body = chars@.skip(from as int);
    assert(from == 0 ==> body =~= s@);
    if from >= chars.len() {
        return None;
    }
    let mut i: usize = from;
    let mut acc: u64 = 0;
    while i < chars.len()
        invariant
            from <= i <= chars@.len(),
            chars@ == s@,
            0 < chars@.len(),
            from == if s@[0] == '+' {
                1int
            } else {
                0
            },
            body == chars@.skip(from as int),
            from == 0 ==> body == s@,
            digits_only(body.take(i - from)),
            acc == dec_value(body.take(i - from)),
        decreases chars@.len() - i,
    {
        let c: char = chars[i];
        assert(body[i - from] == c);
        if !(c >= '0' && c <= '9') {
            assert(!digits_only(body));
            return None;
        }
        let d: u64 = (c as u32 - 48) as u64;
        assert(body.take(i - from + 1).drop_last() =~= body.take(i - from));
        if acc > (u64::MAX - d) / 10 {
            proof {
                if digits_only(body) {
                    lemma_dec_value_take(body, i - from + 1);
                }
            }
            return None;
        }
        acc = acc * 10 + d;
        i += 1;
    }
    assert(body.take(i - from) =~= body);
    Some(acc)
}

pub open spec fn lower(c: char) -> char {
    if 'A' <= c <= 'Z' {
        (c as int + 32) as char
    } else {
        c
    }
}

/// Whether `s` is `word`, but for the case of ASCII letters.
pub open spec fn is_word(s: Seq<char>, word: Seq<char>) -> bool {
    s.len() == word.len() && forall|i: int| 0 <= i < s.len() ==> lower(s[i]) == word[i]
}

/// The position of the exponent mark, or the length of the text.
pub open spec fn mark_of(s: Seq<char>) -> int
    decreases s.len(),
{
    if s.len() == 0 || lower(s[0]) == 'e' {
        0
    } else {
        1 + mark_of(s.drop_first())
    }
}

/// A sign and digits, as an integer.
pub open spec fn signed_value(s: Seq<char>) -> Option<int> {
    let body = if s.len() > 0 && (s[0] == '-' || s[0] == '+') {
        s.skip(1)
    } else {
        s
    };
    if body.len() > 0 && digits_only(body) {
        Some(if s[0] == '-' {
            -(dec_value(body) as int)
        } else {
            dec_value(body) as int
        })
    } else {
        None
    }
}

/// The exponent behind the mark at `at`; zero where there is no mark.
pub open spec fn exponent_at(s: Seq<char>, at: int) -> Option<int> {
    if at == s.len() {
        Some(0)
    } else {
        signed_value(s.skip(at + 1))
    }
}

/// An unsigned decimal number as digits and a power of ten: `dec_value(digits) * 10^power`.
pub open spec fn decimal_parts(s: Seq<char>) -> Option<(Seq<char>, int)> {
    let at = mark_of(s);
    let m = s.take(at);
    let dot = text::first_of(m, '.');
    let ds = if dot < m.len() {
        m.take(dot) + m.skip(dot + 1)
    } else {
        m
    };
    let behind = if dot < m.len() {
        m.len() - dot - 1
    } else {
        0
    };
    match exponent_at(s, at) {
        Some(e) => if ds.len() > 0 && digits_only(ds) {
            Some((ds, e - behind))
        } else {
            None
        },
        None => None,
    }
}

/// The magnitude of the double nearest to `n * 10^power`.
pub open spec fn scaled_nearest(n: nat, power: int) -> nat {
    if power >= 0 {
        double::nearest(digits::pow10(power as nat) * n, 1)
    } else {
        double::nearest(n, digits::pow10((-power) as nat))
    }
}

/// A double as `f64::from_str` reads it.
pub open spec fn float(s: Seq<char>) -> Option<Double> {
    let negative = s.len() > 0 && s[0] == '-';
    let body = if s.len() > 0 && (s[0] == '-' || s[0] == '+') {
        s.skip(1)
    } else {
        s
    };
    if is_word(body, seq!['n', 'a', 'n']) {
        Some(double::signed(negative, double::NAN as nat))
    } else if is_word(body, seq!['i', 'n', 'f']) || is_word(
        body,
        seq!['i', 'n', 'f', 'i', 'n', 'i', 't', 'y'],
    ) {
        Some(double::signed(negative, double::INFINITE as nat))
    } else {
        match decimal_parts(body) {
            Some((ds, power)) => Some(
                double::signed(negative, scaled_nearest(dec_value(ds), power)),
            ),
            None => None,
        }
    }
}

/// An ASCII letter in lower case.
pub fn lower_of(c: char) -> (r: char)
    ensures
        r == lower(c),
{
    if c >= 'A' && c <= 'Z' {
        (c as u8 + 32u8) as char
    } else {
        c
    }
}

/// Whether `chars[from..]` is `word`, but for the case of ASCII letters.
pub fn word_from(chars: &Vec<char>, from: usize, word: &Vec<char>) -> (r: bool)
    requires
        from <= chars@.len(),
    ensures
        r == is_word(chars@.skip(from as int), word@),
{
    let n: usize = chars.len();
    if n - from != word.len() {
        return false;
    }
    let mut i: usize = 0;
    while i < word.len()
        invariant
            n == chars@.len(),
            from <= n,
            i <= word@.len() == n - from,
            forall|j: int| 0 <= j < i ==> lower(chars@.skip(from as int)[j]) == word@[j],
        decreases word@.len() - i,
    {
        assert(chars@.skip(from as int)[i as int] == chars@[from + i]);
        if lower_of(chars[from + i]) != word[i] {
            return false;
        }
        i += 1;
    }
    true
}

proof fn lemma_mark(s: Seq<char>, i: int)
    requires
        0 <= i <= s.len(),
        i == s.len() || lower(s[i]) == 'e',
        forall|j: int| 0 <= j < i ==> lower(s[j]) != 'e',
    ensures
        mark_of(s) == i,
    decreases s.len(),
{
    if i > 0 {
        assert(lower(s[0]) != 'e');
        assert forall|j: int| 0 <= j < i - 1 implies lower(s.drop_first()[j]) != 'e' by {
            assert(lower(s[j + 1]) != 'e');
        }
        lemma_mark(s.drop_first(), i - 1);
    }
}

/// The position of the exponent mark in `chars[from..]`, counted from `from`.
fn find_mark(chars: &Vec<char>, from: usize) -> (r: usize)
    requires
        from <= chars@.len(),
    ensures
        r == mark_of(chars@.skip(from as int)),
        r <= chars@.len() - from,
{
    let ghost s = chars@.skip(from as int);
    let mut i: usize = from;
    while i < chars.len() && lower_of(chars[i]) != 'e'
        invariant
            from <= i <= chars@.len(),
            s == chars@.skip(from as int),
            forall|j: int| 0 <= j < i - from ==> lower(s[j]) != 'e',
        decreases chars@.len() - i,
    {
        assert(s[i - from] == chars@[i as int]);
        i += 1;
    }
    proof {
        if i < chars@.len() {
            assert(s[i - from] == chars@[i as int]);
        }
        lemma_mark(s, i - from);
    }
    i - from
}

/// A bound beyond every length of a text.
pub const HUGE: u128 = 1_000_000_000_000_000_000_000_000_000_000;

/// The number in `chars[from..to]`, where these are digits; one of `HUGE` or more may be given
/// as any such number.
fn read_digits(chars: &Vec<char>, from: usize, to: usize) -> (r: Option<u128>)
    requires
        from <= to <= chars@.len(),
    ensures
        r is Some <==> (from < to && digits_only(chars@.subrange(from as int, to as int))),
        r is Some && r->0 < HUGE ==> r->0 == dec_value(chars@.subrange(from as int, to as int)),
        r is Some && r->0 >= HUGE ==> dec_value(chars@.subrange(from as int, to as int)) >= HUGE,
        r is Some ==> r->0 < 100 * HUGE,
{
    if from == to {
        return None;
    }
    let ghost s = chars@.subrange(from as int, to as int);
    let mut i: usize = from;
    let mut acc: u128 = 0;
    while i < to
        invariant
            from <= i <= to <= chars@.len(),
            s == chars@.subrange(from as int, to as int),
            digits_only(s.take(i - from)),
            acc < HUGE ==> acc == dec_value(s.take(i - from)),
            acc >= HUGE ==> dec_value(s.take(i - from)) >= HUGE,
            acc < 100 * HUGE,
        decreases to - i,
    {
        let c: char = chars[i];
        assert(s[i - from] == c);
        if !(c >= '0' && c <= '9') {
            assert(!digits_only(s));
            return None;
        }
        assert(s.take(i - from + 1).drop_last() =~= s.take(i - from));
        if acc < HUGE {
            acc = acc * 10 + (c as u32 - 48) as u128;
        }
        i += 1;
    }
    assert(s.take(i - from) =~= s);
    Some(acc)
}

/// The exponent behind the mark at `at`, where there is one. One of more than `HUGE` on either
/// side of zero may be given as any such number.
fn read_exponent(chars: &Vec<char>, at: usize) -> (r: Option<i128>)
    requires
        at <= chars@.len(),
    ensures
        match (r, exponent_at(chars@, at as int)) {
            (Some(x), Some(e)) => {
                &&& -HUGE < x < HUGE ==> x == e
                &&& x >= HUGE ==> e >= HUGE
                &&& x <= -HUGE ==> e <= -HUGE
                &&& -100 * HUGE < x < 100 * HUGE
            },
            (None, None) => true,
            _ => false,
        },
{
    if at == chars.len() {
        return Some(0);
    }
    let n: usize = chars.len();
    let ghost s = chars@.skip(at + 1);
    let mut from: usize = at + 1;
    let mut negative: bool = false;
    if from < n && (chars[from] == '-' || chars[from] == '+') {
        assert(s[0] == chars@[from as int]);
        negative = chars[from] == '-';
        from += 1;
        assert(s.skip(1) =~= chars@.subrange(from as int, n as int));
    } else {
        assert(from < n ==> s[0] == chars@[from as int]);
        assert(s =~= chars@.subrange(from as int, n as int));
    }
    match read_digits(chars, from, n) {
        Some(x) => {
            if negative {
                Some(-(x as i128))
            } else {
                Some(x as i128)
            }
        },
        None => None,
    }
}

/// Decimal digits, most significant first and least significant first, write the same number.
proof fn lemma_reversed(s: Seq<char>, d: Seq<u8>)
    requires
        digits_only(s),
        s.len() == d.len(),
        forall|i: int| 0 <= i < s.len() ==> d[i] == s[s.len() - 1 - i] as int - '0' as int,
    ensures
        digits::value(d) == dec_value(s),
    decreases s.len(),
{
    if s.len() > 0 {
        let t = s.drop_last();
        let e = d.drop_first();
        assert forall|i: int| 0 <= i < t.len() implies e[i] == t[t.len() - 1 - i] as int
            - '0' as int by {
            assert(e[i] == d[i + 1]);
        }
        lemma_reversed(t, e);
        digits::lemma_low_head(d, (d.len() - 1) as nat);
        assert(d[0] == s.last() as int - '0' as int);
    }
}

/// The digits of `ds`, least significant first, without zeros on top; nothing where `ds` holds
/// something else.
fn reversed(ds: &Vec<char>) -> (r: Option<Vec<u8>>)
    ensures
        r is Some <==> digits_only(ds@),
        r is Some ==> {
            &&& digits::all_digits(r->0@)
            &&& digits::value(r->0@) == dec_value(ds@)
            &&& r->0@.len() > 0 ==> r->0@.last() > 0
        },
{
    let n: usize = ds.len();
    let mut out: Vec<u8> = Vec::new();
    let mut i: usize = n;
    while i > 0
        invariant
            i <= n == ds@.len(),
            out@.len() == n - i,
            digits::all_digits(out@),
            forall|j: int| i <= j < n ==> is_digit(ds@[j]),
            forall|j: int| 0 <= j < n - i ==> out@[j] == ds@[n - 1 - j] as int - '0' as int,
        decreases i,
    {
        let c: char = ds[i - 1];
        if !(c >= '0' && c <= '9') {
            return None;
        }
        out.push((c as u32 - 48) as u8);
        i -= 1;
    }
    proof {
        lemma_reversed(ds@, out@);
    }
    let ghost whole = out@;
    while out.len() > 0 && out[out.len() - 1] == 0
        invariant
            digits::all_digits(out@),
            digits::value(out@) == digits::value(whole),
        decreases out@.len(),
    {
        let ghost before = out@;
        let _zero = out.pop();
        proof {
            assert(out@ =~= before.drop_last());
            digits::lemma_low_pads(out@, before.len());
            assert forall|j: int| 0 <= j < before.len() implies digits::at(out@, j)
                == digits::at(before, j) by {}
            digits::lemma_low_same(out@, before, before.len());
        }
    }
    Some(out)
}

proof fn lemma_pow10_above_pow2(k: nat)
    ensures
        digits::pow10(k) >= digits::pow2(3 * k),
    decreases k,
{
    if k > 0 {
        lemma_pow10_above_pow2((k - 1) as nat);
        let m = (3 * k - 3) as nat;
        assert(digits::pow2(m + 1) == 2 * digits::pow2(m));
        assert(digits::pow2(m + 2) == 2 * digits::pow2(m + 1));
        assert(digits::pow2(m + 3) == 2 * digits::pow2(m + 2));
    } else {
        assert(digits::pow10(0) == 1);
        assert(digits::pow2(0) == 1);
    }
}

proof fn lemma_pow10_monotone(a: nat, b: nat)
    requires
        a <= b,
    ensures
        digits::pow10(a) <= digits::pow10(b),
    decreases b,
{
    if a < b {
        lemma_pow10_monotone(a, (b - 1) as nat);
    }
}

/// A number of `10^342` or more is infinite.
proof fn lemma_too_large(n: nat, len: nat, power: int)
    requires
        len > 0,
        n >= digits::pow10((len - 1) as nat),
        len - 1 + power >= 342,
    ensures
        scaled_nearest(n, power) == double::INFINITE,
{
    lemma_pow10_above_pow2(342);
    double::lemma_pow2_monotone(1024, 1026);
    let big = digits::pow2(1024);
    assert(digits::pow10(342) >= big);
    let top = (len - 1) as nat;
    if power >= 0 {
        let p = digits::pow10(power as nat);
        let t = digits::pow10(top);
        digits::lemma_pow10_adds(power as nat, top);
        lemma_pow10_monotone(342, power as nat + top);
        assert(p * n >= p * t) by (nonlinear_arith)
            requires
                n >= t,
        ;
        assert(1 * big == big);
        assert(!double::below(p * n, 1, 1024));
    } else {
        let q = (-power) as nat;
        let d = digits::pow10(q);
        digits::lemma_pow10_adds(q, (top - q) as nat);
        lemma_pow10_monotone(342, (top - q) as nat);
        let r = digits::pow10((top - q) as nat);
        assert(d * r >= d * big) by (nonlinear_arith)
            requires
                r >= big,
        ;
        assert(!double::below(n, d, 1024));
    }
}

/// A number below `10^-400` is zero.
proof fn lemma_too_small(n: nat, len: nat, power: int)
    requires
        n < digits::pow10(len),
        len + power <= -400,
    ensures
        scaled_nearest(n, power) == 0,
{
    let q = (-power) as nat;
    let d = digits::pow10(q);
    lemma_pow10_above_pow2(400);
    double::lemma_pow2_monotone(1075, 1200);
    digits::lemma_pow10_adds(len, (q - len) as nat);
    lemma_pow10_monotone(400, (q - len) as nat);
    let t = digits::pow10(len);
    let r = digits::pow10((q - len) as nat);
    let b = digits::pow2(1075);
    digits::lemma_pow2_pos(1075);
    assert(n * b < t * r) by (nonlinear_arith)
        requires
            n < t,
            b <= r,
            b > 0,
    ;
    double::lemma_nearest_zero(n, d);
}

/// The magnitude of the double nearest to `value(d) * 10^power`.
fn scale_decimal(d: &Vec<u8>, power: i128) -> (r: u64)
    requires
        digits::all_digits(d@),
        d@.len() > 0,
        d@.last() > 0,
        -400 < d@.len() + power,
        d@.len() - 1 + power < 342,
    ensures
        r == scaled_nearest(digits::value(d@), power as int),
        r <= double::INFINITE,
{
    let one: Vec<u8> = digits::from_u64(1);
    if power >= 0 {
        let num: Vec<u8> = digits::shifted(d, power as u128);
        double::round_ratio(&num, &one)
    } else {
        let n: usize = d.len();
        let den: Vec<u8> = digits::shifted(&one, (-power) as u128);
        proof {
            digits::lemma_pow10_pos((-power) as nat);
            assert(digits::pow10((-power) as nat) * 1 == digits::pow10((-power) as nat));
        }
        double::round_ratio(d, &den)
    }
}

/// Reads an unsigned decimal number to the magnitude of the nearest double.
fn read_decimal(body: &Vec<char>) -> (r: Option<u64>)
    ensures
        r is Some ==> r->0 <= double::INFINITE,
        match decimal_parts(body@) {
            Some((ds, power)) => r is Some && r->0 == scaled_nearest(dec_value(ds), power),
            None => r is None,
        },
{
    assert(body@.skip(0) =~= body@);
    let at: usize = find_mark(body, 0);
    let exponent: i128 = match read_exponent(body, at) {
        Some(e) => e,
        None => {
            return None;
        },
    };
    let ghost m = body@.take(at as int);
    let mut dot: usize = 0;
    while dot < at && body[dot] != '.'
        invariant
            dot <= at <= body@.len(),
            m == body@.take(at as int),
            forall|j: int| 0 <= j < dot ==> m[j] != '.',
        decreases at - dot,
    {
        dot += 1;
    }
    proof {
        text::lemma_first_of(m, '.', dot as int);
    }
    let mut ds: Vec<char> = Vec::new();
    let mut i: usize = 0;
    while i < at
        invariant
            i <= at <= body@.len(),
            dot <= at,
            m == body@.take(at as int),
            ds@ == if i <= dot {
                m.take(i as int)
            } else {
                m.take(dot as int) + m.subrange(dot + 1, i as int)
            },
        decreases at - i,
    {
        if i != dot {
            ds.push(body[i]);
        }
        i += 1;
    }
    let behind: i128 = if dot < at { (at - dot - 1) as i128 } else { 0 };
    let ghost spec_ds = if dot < m.len() {
        m.take(dot as int) + m.skip(dot + 1)
    } else {
        m
    };
    assert(ds@ =~= spec_ds);
    if ds.len() == 0 {
        return None;
    }
    let d: Vec<u8> = match reversed(&ds) {
        Some(d) => d,
        None => {
            return None;
        },
    };
    let ghost e = exponent_at(body@, at as int)->0;
    let ghost power = e - behind;
    let len: i128 = d.len() as i128;
    if d.len() == 0 {
        proof {
            assert(0 * digits::pow2(1075) == 0);
            if power >= 0 {
                assert(digits::pow10(power as nat) * 0 == 0);
                double::lemma_nearest_zero(0, 1);
            } else {
                digits::lemma_pow10_pos((-power) as nat);
                double::lemma_nearest_zero(0, digits::pow10((-power) as nat));
            }
        }
        return Some(0);
    }
    proof {
        digits::lemma_low_below(d@, d@.len());
        let top = digits::pow10((d@.len() - 1) as nat);
        let x = d@.last();
        assert(x * top >= top) by (nonlinear_arith)
            requires
                x >= 1,
        ;
    }
    if len - 1 + exponent - behind >= 342 {
        proof {
            lemma_too_large(dec_value(ds@), d@.len(), power);
        }
        return Some(double::INFINITE);
    }
    if len + exponent - behind <= -400 {
        proof {
            lemma_too_small(dec_value(ds@), d@.len(), power);
        }
        return Some(0);
    }
    Some(scale_decimal(&d, exponent - behind))
}

/// Reads a double.
pub fn parse_float(s: &str) -> (r: Option<Double>)
    ensures
        r == float(s@),
{
    let chars: Vec<char> = text::chars_of(s);
    let negative: bool = chars.len() > 0 && chars[0] == '-';
    let mut body: Vec<char> = chars;
    if body.len() > 0 && (body[0] == '-' || body[0] == '+') {
        let n: usize = s.unicode_len();
        body = text::chars_of(s.substring_char(1, n));
        assert(body@ =~= s@.skip(1));
    }
    assert(body@.skip(0) =~= body@);
    let nan: Vec<char> = vec!['n', 'a', 'n'];
    assert(nan@ =~= seq!['n', 'a', 'n']);
    if word_from(&body, 0, &nan) {
        return Some(Double { bits: if negative { double::NAN + double::SIGN } else { double::NAN } });
    }
    let inf: Vec<char> = vec!['i', 'n', 'f'];
    assert(inf@ =~= seq!['i', 'n', 'f']);
    let infinity: Vec<char> = vec!['i', 'n', 'f', 'i', 'n', 'i', 't', 'y'];
    assert(infinity@ =~= seq!['i', 'n', 'f', 'i', 'n', 'i', 't', 'y']);
    if word_from(&body, 0, &inf) || word_from(&body, 0, &infinity) {
        return Some(Double::with_sign(negative, double::INFINITE));
    }
    match read_decimal(&body) {
        Some(m) => Some(Double::with_sign(negative, m)),
        None => None,
    }
}

/// Decimal digits write the number that they are the decimal of.
proof fn lemma_dec_reads_back(n: nat)
    ensures
        text::dec(n).len() > 0,
        digits_only(text::dec(n)),
        dec_value(text::dec(n)) == n,
    decreases n,
{
    text::lemma_dec_nonempty(n);
    let s = text::dec(n);
    if n >= 10 {
        lemma_dec_reads_back(n / 10);
        assert(s.drop_last() =~= text::dec(n / 10));
    } else {
        assert(s.drop_last() =~= Seq::<char>::empty());
        assert(dec_value(s.drop_last()) == 0);
    }
}

/// The decimal of an unsigned integer reads back as that integer.
pub proof fn law_decimal_reads_back(n: u64)
    ensures
        unsigned(text::dec(n as nat)) == Some(n),
{
    lemma_dec_reads_back(n as nat);
}

proof fn lemma_pow10_splits(k: nat)
    ensures
        digits::pow10(k) == digits::pow5(k) * digits::pow2(k),
    decreases k,
{
    if k > 0 {
        lemma_pow10_splits((k - 1) as nat);
        let a = digits::pow5((k - 1) as nat);
        let b = digits::pow2((k - 1) as nat);
        assert((5 * a) * (2 * b) == 10 * (a * b)) by (nonlinear_arith);
    } else {
        assert(digits::pow5(0) == 1 && digits::pow2(0) == 1 && digits::pow10(0) == 1);
        assert(1nat * 1nat == 1nat) by (nonlinear_arith);
    }
}

/// The digits `dec(n)`, with `e-K` behind them where `k` is not zero, are `n` and the power `-k`.
proof fn lemma_parts_of(n: nat, k: nat)
    ensures
        decimal_parts(text::dec(n)) == Some((text::dec(n), 0int)),
        decimal_parts(text::dec(n) + "e-"@ + text::dec(k)) == Some((text::dec(n), -(k as int))),
{
    lemma_dec_reads_back(n);
    lemma_dec_reads_back(k);
    let ds = text::dec(n);
    assert forall|i: int| 0 <= i < ds.len() implies ds[i] != '.' && is_digit(#[trigger] ds[i]) by {}
    text::lemma_first_of(ds, '.', ds.len() as int);
    assert forall|i: int| 0 <= i < ds.len() implies lower(#[trigger] ds[i]) != 'e' by {}
    lemma_mark(ds, ds.len() as int);
    assert(ds.take(ds.len() as int) =~= ds);
    reveal_strlit("e-");
    let s = ds + "e-"@ + text::dec(k);
    assert(s[ds.len() as int] == 'e');
    assert forall|i: int| 0 <= i < ds.len() implies lower(#[trigger] s[i]) != 'e' by {
        assert(s[i] == ds[i]);
    }
    lemma_mark(s, ds.len() as int);
    assert(s.take(ds.len() as int) =~= ds);
    let e = s.skip(ds.len() as int + 1);
    assert(e[0] == '-');
    assert(e.skip(1) =~= text::dec(k));
}

/// The exact decimal of a finite number reads back as that number.
pub proof fn law_exact_text_reads_back(d: Double)
    requires
        d.finite(),
    ensures
        float(d.exact()) == Some(d),
{
    let q = d.exponent();
    let s = d.significand();
    let m = d.magnitude();
    let n = if q >= 0 {
        s * digits::pow2(q as nat)
    } else {
        s * digits::pow5((-q) as nat)
    };
    let k = if q >= 0 {
        0
    } else {
        (-q) as nat
    };
    let body = if q >= 0 {
        text::dec(n)
    } else {
        text::dec(n) + "e-"@ + text::dec(k)
    };
    lemma_dec_reads_back(n);
    lemma_parts_of(n, k);
    let t = d.exact();
    if d.negative() {
        assert(t =~= seq!['-'] + body);
        assert(t.skip(1) =~= body);
    } else {
        assert(t =~= body);
    }
    assert(body[0] == text::dec(n)[0]);
    assert(is_digit(body[0]));
    assert(lower(body[0]) == body[0]);
    vstd::arithmetic::div_mod::lemma_fundamental_div_mod(m as int, double::STEP as int);
    assert(digits::pow10(0) == 1);
    assert(digits::pow2(0) == 1);
    if q >= 0 {
        assert(1 * n == n);
        double::lemma_nearest_exact(n, 1, s, q);
    } else {
        lemma_pow10_splits(k);
        digits::lemma_pow10_pos(k);
        let a = digits::pow5(k);
        let b = digits::pow2(k);
        assert((s * a) * b == s * ((a * b) * 1)) by (nonlinear_arith);
        double::lemma_nearest_exact(n, digits::pow10(k), s, q);
    }
    assert(scaled_nearest(n, -(k as int)) == m);
}

/// Each digit behind a number multiplies it by ten and adds itself, up to the largest `u64`; a plus
/// sign in front changes nothing, and any other character makes it no number.
pub proof fn law_unsigned_is_read_digit_by_digit(s: Seq<char>, c: char, n: u64)
    ensures
        unsigned(Seq::empty()) is None,
        '0' <= c <= '9' ==> unsigned(seq![c]) == Some((c as int - 48) as u64),
        s.len() > 0 && s[0] != '+' ==> unsigned(seq!['+'] + s) == unsigned(s),
        !('0' <= c <= '9') ==> unsigned(s.push(c)) is None,
        unsigned(s) == Some(n) && '0' <= c <= '9' && 10 * n + (c as int - 48) <= u64::MAX
            ==> unsigned(s.push(c)) == Some((10 * n + (c as int - 48)) as u64),
        unsigned(s) == Some(n) && '0' <= c <= '9' && 10 * n + (c as int - 48) > u64::MAX
            ==> unsigned(s.push(c)) is None,
{
    reveal_with_fuel(dec_value, 2);
    let t = s.push(c);
    assert(seq![c].drop_last() =~= Seq::<char>::empty());
    if s.len() > 0 {
        let p = seq!['+'] + s;
        assert(p.skip(1) =~= s);
        assert(t.skip(1) =~= s.skip(1).push(c));
        assert(t.skip(1).drop_last() =~= s.skip(1));
    }
    assert(t.drop_last() =~= s);
    assert(t[t.len() - 1] == c);
    if t[0] == '+' && t.len() > 1 {
        assert(t.skip(1).last() == c);
        assert(t.skip(1)[t.len() - 2] == c);
    }
    if unsigned(s) == Some(n) && '0' <= c <= '9' {
        let body = if s[0] == '+' {
            s.skip(1)
        } else {
            s
        };
        let more = if s[0] == '+' {
            t.skip(1)
        } else {
            t
        };
        assert(more =~= body.push(c));
        assert(more.drop_last() =~= body);
        assert forall|i: int| 0 <= i < more.len() implies is_digit(more[i]) by {
            if i < body.len() {
                assert(is_digit(body[i]));
            }
        }
    }
}

/// Digits with a point read as the double nearest to what they write, with the sign that stands in
/// front.
pub proof fn law_float_reads_decimals(a: Seq<char>, b: Seq<char>)
    requires
        a.len() > 0,
        forall|i: int| 0 <= i < a.len() ==> '0' <= #[trigger] a[i] <= '9',
        forall|i: int| 0 <= i < b.len() ==> '0' <= #[trigger] b[i] <= '9',
    ensures
        float(Seq::empty()) is None,
        float(a) == Some(double::signed(false, double::nearest(dec_value(a), 1))),
        b.len() > 0 ==> float(a + seq!['.'] + b) == Some(
            double::signed(false, double::nearest(dec_value(a + b), digits::pow10(b.len()))),
        ),
        float(a + seq!['.']) == float(a),
        float(seq!['+'] + a) == float(a),
        float(seq!['-'] + a) == Some(double::signed(true, double::nearest(dec_value(a), 1))),
{
    let p = a + seq!['.'];
    let s = p + b;
    lemma_digits_are_parts(a);
    lemma_point_parts(a, b);
    lemma_point_parts(a, Seq::empty());
    assert(p + Seq::<char>::empty() =~= p);
    assert(a + Seq::<char>::empty() =~= a);
    assert((seq!['+'] + a).skip(1) =~= a);
    assert((seq!['-'] + a).skip(1) =~= a);
    assert(digits::pow10(0) == 1);
    assert(1nat * dec_value(a) == dec_value(a)) by (nonlinear_arith);
    assert('0' <= a[0] <= '9');
    assert(lower(a[0]) == a[0]);
    assert(p[0] == a[0] && s[0] == a[0]);
    let none = Seq::<char>::empty();
    lemma_mark(none, 0);
    assert(none.take(0) =~= none);
    text::lemma_first_of(none, '.', 0);
    assert(decimal_parts(none) is None);
}

proof fn lemma_digits_are_parts(a: Seq<char>)
    requires
        a.len() > 0,
        forall|i: int| 0 <= i < a.len() ==> '0' <= #[trigger] a[i] <= '9',
    ensures
        decimal_parts(a) == Some((a, 0int)),
{
    assert forall|i: int| 0 <= i < a.len() implies a[i] != '.' && is_digit(#[trigger] a[i]) by {}
    assert forall|i: int| 0 <= i < a.len() implies lower(#[trigger] a[i]) != 'e' by {}
    text::lemma_first_of(a, '.', a.len() as int);
    lemma_mark(a, a.len() as int);
    assert(a.take(a.len() as int) =~= a);
}

proof fn lemma_point_parts(a: Seq<char>, b: Seq<char>)
    requires
        a.len() > 0,
        forall|i: int| 0 <= i < a.len() ==> '0' <= #[trigger] a[i] <= '9',
        forall|i: int| 0 <= i < b.len() ==> '0' <= #[trigger] b[i] <= '9',
    ensures
        decimal_parts(a + seq!['.'] + b) == Some((a + b, -(b.len() as int))),
{
    let s = a + seq!['.'] + b;
    assert forall|i: int| 0 <= i < s.len() implies lower(#[trigger] s[i]) != 'e' by {
        if i < a.len() {
            assert(s[i] == a[i]);
        } else if i > a.len() {
            assert(s[i] == b[i - a.len() - 1]);
        }
    }
    assert forall|i: int| 0 <= i < a.len() implies #[trigger] s[i] != '.' by {
        assert(s[i] == a[i]);
    }
    assert(s[a.len() as int] == '.');
    text::lemma_first_of(s, '.', a.len() as int);
    lemma_mark(s, s.len() as int);
    assert(s.take(s.len() as int) =~= s);
    assert(s.take(a.len() as int) =~= a);
    assert(s.skip(a.len() as int + 1) =~= b);
    assert forall|i: int| 0 <= i < (a + b).len() implies is_digit(#[trigger] (a + b)[i]) by {
        if i < a.len() {
            assert((a + b)[i] == a[i]);
        } else {
            assert((a + b)[i] == b[i - a.len()]);
        }
    }
}

}
