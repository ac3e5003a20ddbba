//! IEEE 754 binary64 numbers, held by bit pattern and computed with in integers.
use crate::digits;
use crate::text;
use vstd::arithmetic::div_mod::lemma_fundamental_div_mod_converse;
use vstd::prelude::*;

verus! {

/// The bit that holds the sign.
pub const SIGN: u64 = 0x8000_0000_0000_0000;

/// The magnitude of an infinity; the magnitudes above it are those of NaNs.
pub const INFINITE: u64 = 0x7ff0_0000_0000_0000;

/// The quiet NaN that an undefined operation gives.
pub const NAN: u64 = 0x7ff8_0000_0000_0000;

/// Two to the 52: one step of the exponent field.
pub const STEP: u64 = 0x10_0000_0000_0000;

/// A double-precision number, by its bits.
#[derive(Clone, Copy, Debug, PartialEq, Eq, Structural)]
pub struct Double {
    pub bits: u64,
}

/// `n / d` rounded to an integer, a tie to the even one.
pub open spec fn half_even(n: nat, d: nat) -> nat {
    let q = n / d;
    let r = n % d;
    if 2 * r > d || (2 * r == d && q % 2 == 1) {
        q + 1
    } else {
        q
    }
}

/// Whether `n / d < 2^k`.
pub open spec fn below(n: nat, d: nat, k: int) -> bool {
    if k >= 0 {
        n < d * digits::pow2(k as nat)
    } else {
        n * digits::pow2((-k) as nat) < d
    }
}

/// Whether doubles near `n / d` are spaced by `2^q`.
pub open spec fn is_quantum(n: nat, d: nat, q: int) -> bool {
    &&& q >= -1074
    &&& below(n, d, q + 53)
    &&& q == -1074 || !below(n, d, q + 52)
}

/// `n / d` in units of `2^q`, rounded.
pub open spec fn units(n: nat, d: nat, q: int) -> nat {
    if q >= 0 {
        half_even(n, d * digits::pow2(q as nat))
    } else {
        half_even(n * digits::pow2((-q) as nat), d)
    }
}

/// The magnitude bits of the double nearest to `n / d`, a tie to the even one.
pub open spec fn nearest(n: nat, d: nat) -> nat {
    if !below(n, d, 1024) {
        INFINITE as nat
    } else {
        let q = choose|q: int| is_quantum(n, d, q);
        ((q + 1074) * STEP + units(n, d, q)) as nat
    }
}

impl Double {
    pub open spec fn negative(self) -> bool {
        self.bits >= SIGN
    }

    /// The bits without the sign.
    pub open spec fn magnitude(self) -> nat {
        if self.bits >= SIGN {
            (self.bits - SIGN) as nat
        } else {
            self.bits as nat
        }
    }

    pub open spec fn nan(self) -> bool {
        self.magnitude() > INFINITE
    }

    pub open spec fn infinite(self) -> bool {
        self.magnitude() == INFINITE
    }

    pub open spec fn finite(self) -> bool {
        self.magnitude() < INFINITE
    }

    pub open spec fn zero(self) -> bool {
        self.magnitude() == 0
    }

    /// A finite number is `significand * 2^exponent`.
    pub open spec fn significand(self) -> nat {
        if self.magnitude() < STEP {
            self.magnitude()
        } else {
            self.magnitude() % (STEP as nat) + STEP as nat
        }
    }

    pub open spec fn exponent(self) -> int {
        if self.magnitude() < STEP {
            -1074
        } else {
            self.magnitude() / (STEP as nat) - 1075
        }
    }

    /// Whether the number is above zero.
    pub open spec fn positive(self) -> bool {
        !self.negative() && !self.nan() && !self.zero()
    }
}

/// The double with the given sign and magnitude.
pub open spec fn signed(negative: bool, magnitude: nat) -> Double {
    Double { bits: if negative { (magnitude + SIGN) as u64 } else { magnitude as u64 } }
}

proof fn lemma_below_step(n: nat, d: nat, k: int)
    requires
        below(n, d, k),
    ensures
        below(n, d, k + 1),
{
    if k >= 0 {
        let p = digits::pow2(k as nat);
        assert(digits::pow2((k + 1) as nat) == 2 * p);
        assert(d * p <= d * (2 * p)) by (nonlinear_arith);
    } else if k == -1 {
        assert(digits::pow2(1) == 2 * digits::pow2(0));
        assert(d * digits::pow2(0) == d);
        assert(n * 2 < d);
    } else {
        let p = digits::pow2((-k - 1) as nat);
        assert(digits::pow2((-k) as nat) == 2 * p);
        assert(n * p <= n * (2 * p)) by (nonlinear_arith);
    }
}

proof fn lemma_below_grows(n: nat, d: nat, k: int, l: int)
    requires
        below(n, d, k),
        k <= l,
    ensures
        below(n, d, l),
    decreases l - k,
{
    if k < l {
        lemma_below_step(n, d, k);
        lemma_below_grows(n, d, k + 1, l);
    }
}

/// The spacing of the doubles near a ratio is unique.
proof fn lemma_quantum_unique(n: nat, d: nat, p: int, q: int)
    requires
        is_quantum(n, d, p),
        is_quantum(n, d, q),
    ensures
        p == q,
{
    if p < q {
        lemma_below_grows(n, d, p + 53, q + 52);
    }
    if q < p {
        lemma_below_grows(n, d, q + 53, p + 52);
    }
}

/// A ratio of less than half the smallest double is rounded to zero.
pub proof fn lemma_nearest_zero(n: nat, d: nat)
    requires
        n * digits::pow2(1075) < d,
    ensures
        nearest(n, d) == 0,
{
    assert(below(n, d, -1075));
    lemma_below_grows(n, d, -1075, -1021);
    lemma_below_grows(n, d, -1075, 1024);
    assert(is_quantum(n, d, -1074));
    lemma_quantum_unique(n, d, -1074, choose|q: int| is_quantum(n, d, q));
    let x = n * digits::pow2(1074);
    assert(digits::pow2(1075) == 2 * digits::pow2(1074));
    let p = digits::pow2(1074);
    assert(n * (2 * p) == 2 * (n * p)) by (nonlinear_arith);
    vstd::arithmetic::div_mod::lemma_basic_div(x as int, d as int);
    vstd::arithmetic::div_mod::lemma_small_mod(x as nat, d);
}

/// The double nearest to a ratio that is a double: `n / d == s * 2^q` has the magnitude of that
/// double.
pub proof fn lemma_nearest_exact(n: nat, d: nat, s: nat, q: int)
    requires
        d > 0,
        -1074 <= q <= 971,
        s < 0x20_0000_0000_0000,
        q == -1074 || s >= 0x10_0000_0000_0000,
        n * scale(-q) == s * (d * scale(q)),
    ensures
        nearest(n, d) == (q + 1074) * STEP + s,
{
    lemma_pow2_53();
    assert(digits::pow2(53) == 2 * digits::pow2(52));
    assert(digits::pow2(0) == 1);
    let e = d * scale(q);
    if q >= 0 {
        digits::lemma_pow2_pos(q as nat);
    }
    assert(e > 0) by (nonlinear_arith)
        requires
            d > 0,
            scale(q) > 0,
            e == d * scale(q),
    ;
    assert(s * e < e * digits::pow2(53)) by (nonlinear_arith)
        requires
            s < digits::pow2(53),
            e > 0,
    ;
    if q > -1074 {
        assert(s * e >= e * digits::pow2(52)) by (nonlinear_arith)
            requires
                s >= digits::pow2(52),
        ;
    }
    if q >= 0 {
        let p = digits::pow2(q as nat);
        digits::lemma_pow2_adds(q as nat, 53);
        digits::lemma_pow2_adds(q as nat, 52);
        let x = digits::pow2(53);
        let y = digits::pow2(52);
        assert(d * (p * x) == (d * p) * x) by (nonlinear_arith);
        assert(d * (p * y) == (d * p) * y) by (nonlinear_arith);
        assert(n * 1 == n);
    } else {
        lemma_below_scaled(n, d, (-q) as nat, 53);
        lemma_below_scaled(n, d, (-q) as nat, 52);
        assert(d * 1 == d);
    }
    assert(is_quantum(n, d, q));
    lemma_below_grows(n, d, q + 53, 1024);
    lemma_quantum_unique(n, d, q, choose|q: int| is_quantum(n, d, q));
    lemma_fundamental_div_mod_converse((s * e) as int, e as int, s as int, 0);
    assert(half_even(s * e, e) == s);
}

/// The comparison of scaled numbers says how the ratio compares.
proof fn lemma_below_scaled(n: nat, d: nat, i: nat, k: nat)
    ensures
        n * digits::pow2(i) < d * digits::pow2(k) <==> below(n, d, k - i),
{
    if k >= i {
        let p = digits::pow2(i);
        let r = digits::pow2((k - i) as nat);
        digits::lemma_pow2_adds((k - i) as nat, i);
        digits::lemma_pow2_pos(i);
        assert(d * (r * p) == (d * r) * p) by (nonlinear_arith);
        let x = d * r;
        assert(n * p < x * p <==> n < x) by (nonlinear_arith)
            requires
                p >= 1,
        ;
    } else {
        let p = digits::pow2(k);
        let r = digits::pow2((i - k) as nat);
        digits::lemma_pow2_adds((i - k) as nat, k);
        digits::lemma_pow2_pos(k);
        assert(n * (r * p) == (n * r) * p) by (nonlinear_arith);
        let x = n * r;
        assert(x * p < d * p <==> x < d) by (nonlinear_arith)
            requires
                p >= 1,
        ;
    }
}

fn copy_digits(d: &Vec<u8>) -> (r: Vec<u8>)
    ensures
        r@ == d@,
{
    let mut out: Vec<u8> = Vec::new();
    let mut i: usize = 0;
    while i < d.len()
        invariant
            i <= d@.len(),
            out@ == d@.take(i as int),
        decreases d@.len() - i,
    {
        out.push(d[i]);
        i += 1;
    }
    out
}

/// Whether `table[t]` is `d * 2^t`, for each `t`.
spec fn is_doubling(table: Seq<Vec<u8>>, d: Seq<u8>) -> bool {
    forall|t: int|
        #![trigger table[t]]
        0 <= t < table.len() ==> {
            &&& digits::all_digits(table[t]@)
            &&& digits::value(table[t]@) == digits::value(d) * digits::pow2(t as nat)
        }
}

fn extend_doubling(table: &mut Vec<Vec<u8>>, d: &Vec<u8>)
    requires
        0 < old(table)@.len(),
        is_doubling(old(table)@, d@),
    ensures
        final(table)@.len() == old(table)@.len() + 1,
        is_doubling(final(table)@, d@),
        forall|t: int| 0 <= t < old(table)@.len() ==> final(table)@[t] == old(table)@[t],
{
    let n: usize = table.len();
    let next: Vec<u8> = digits::twice(&table[n - 1]);
    proof {
        let v = digits::value(d@);
        let p = digits::pow2((n - 1) as nat);
        assert(2 * (v * p) == v * (2 * p)) by (nonlinear_arith);
    }
    table.push(next);
}

pub proof fn lemma_pow2_53()
    ensures
        digits::pow2(53) == 0x20_0000_0000_0000,
{
    assert(digits::pow2(13) == 8192) by {
        reveal_with_fuel(digits::pow2, 14);
    }
    assert(digits::pow2(26) == 0x400_0000) by {
        reveal_with_fuel(digits::pow2, 14);
    }
    assert(digits::pow2(39) == 0x80_0000_0000) by {
        reveal_with_fuel(digits::pow2, 14);
    }
    assert(digits::pow2(53) == 0x20_0000_0000_0000) by {
        reveal_with_fuel(digits::pow2, 15);
    }
}

/// `num / (d * 2^j)`, rounded, where the quotient is below `2^53`.
fn divide(num: &Vec<u8>, table: &Vec<Vec<u8>>, d: &Vec<u8>, j: usize) -> (m: u64)
    requires
        digits::all_digits(num@),
        is_doubling(table@, d@),
        digits::value(d@) > 0,
        j < 1000,
        j + 53 <= table@.len(),
        digits::value(num@) < digits::value(d@) * digits::pow2((j + 53) as nat),
    ensures
        m == half_even(digits::value(num@), digits::value(d@) * digits::pow2(j as nat)),
        m <= 0x20_0000_0000_0000,
{
    let ghost dv = digits::value(d@) * digits::pow2(j as nat);
    let ghost nv = digits::value(num@);
    let mut r: Vec<u8> = copy_digits(num);
    let mut m: u64 = 0;
    let mut bit: u64 = 0x20_0000_0000_0000;
    let mut t: usize = 53;
    proof {
        digits::lemma_pow2_adds(j as nat, 53);
        digits::lemma_pow2_pos(j as nat);
        let v = digits::value(d@);
        let p = digits::pow2(j as nat);
        let q = digits::pow2(53);
        assert(v * (p * q) == (v * p) * q) by (nonlinear_arith);
        assert(v * p >= 1) by (nonlinear_arith)
            requires
                v >= 1,
                p >= 1,
        ;
        lemma_pow2_53();
        assert(0 * dv == 0);
    }
    while t > 0
        invariant
            t <= 53,
            j < 1000,
            j + 53 <= table@.len(),
            digits::all_digits(r@),
            is_doubling(table@, d@),
                dv == digits::value(d@) * digits::pow2(j as nat),
            dv >= 1,
            bit == digits::pow2(t as nat),
            nv < dv * 0x20_0000_0000_0000,
            digits::value(r@) + m * dv == nv,
            digits::value(r@) < dv * bit,
        decreases t,
    {
        t -= 1;
        proof {
            assert(digits::pow2((t + 1) as nat) == 2 * digits::pow2(t as nat));
            digits::lemma_pow2_adds(j as nat, t as nat);
            let v = digits::value(d@);
            let p = digits::pow2(j as nat);
            let q = digits::pow2(t as nat);
            assert(v * (p * q) == (v * p) * q) by (nonlinear_arith);
        }
        let ghost b0 = bit as int;
        bit = bit / 2;
        let part: &Vec<u8> = &table[j + t];
        if !digits::less(&r, part) {
            let ghost m0 = m as int;
            proof {
                let b = bit as int;
                assert(m0 * dv + dv * b == (m0 + b) * dv) by (nonlinear_arith);
                assert(m0 + b < 0x20_0000_0000_0000) by (nonlinear_arith)
                    requires
                        (m0 + b) * dv < dv * 0x20_0000_0000_0000,
                        dv >= 1,
                ;
                assert(dv * b0 == dv * b + dv * b) by (nonlinear_arith)
                    requires
                        b0 == 2 * b,
                ;
            }
            r = digits::minus(&r, part);
            m = m + bit;
        }
    }
    proof {
        assert(bit == 1);
        assert(dv * 1 == dv);
        lemma_fundamental_div_mod_converse(
            nv as int,
            dv as int,
            m as int,
            digits::value(r@) as int,
        );
        let mi = m as int;
        assert(mi < 0x20_0000_0000_0000) by (nonlinear_arith)
            requires
                mi * dv < dv * 0x20_0000_0000_0000,
                dv >= 1,
        ;
    }
    let r2: Vec<u8> = digits::twice(&r);
    let whole: &Vec<u8> = &table[j];
    if digits::less(whole, &r2) || (!digits::less(&r2, whole) && m % 2 == 1) {
        m + 1
    } else {
        m
    }
}

/// The magnitude of the double nearest to `n / d`.
pub fn round_ratio(n: &Vec<u8>, d: &Vec<u8>) -> (r: u64)
    requires
        digits::all_digits(n@),
        digits::all_digits(d@),
        digits::value(d@) > 0,
    ensures
        r == nearest(digits::value(n@), digits::value(d@)),
        r <= INFINITE,
{
    let ghost nv = digits::value(n@);
    let ghost dv = digits::value(d@);
    let mut table: Vec<Vec<u8>> = Vec::new();
    table.push(copy_digits(d));
    assert(dv * digits::pow2(0) == dv);
    while table.len() < 54
        invariant
            0 < table@.len() <= 54,
            is_doubling(table@, d@),
        decreases 54 - table@.len(),
    {
        extend_doubling(&mut table, d);
    }
    let mut j: usize = 0;
    while !digits::less(n, &table[j + 53])
        invariant
            j <= 971,
            table@.len() == j + 54,
            digits::all_digits(n@),
            is_doubling(table@, d@),
            nv == digits::value(n@),
            dv == digits::value(d@),
            j > 0 ==> !below(nv, dv, j + 52),
        decreases 972 - j,
    {
        if j == 971 {
            return INFINITE;
        }
        extend_doubling(&mut table, d);
        j += 1;
    }
    assert(below(nv, dv, j + 53));
    if j > 0 {
        let m: u64 = divide(n, &table, d, j);
        proof {
            lemma_below_grows(nv, dv, j + 53, 1024);
            assert(is_quantum(nv, dv, j as int));
            lemma_quantum_unique(nv, dv, j as int, choose|q: int| is_quantum(nv, dv, q));
        }
        return (j as u64 + 1074) * STEP + m;
    }
    let mut num: Vec<u8> = copy_digits(n);
    let mut i: usize = 0;
    assert(nv * digits::pow2(0) == nv);
    while i < 1074 && digits::less(&num, &table[52])
        invariant
            i <= 1074,
            table@.len() == 54,
            is_doubling(table@, d@),
            digits::all_digits(num@),
            nv == digits::value(n@),
            dv == digits::value(d@),
            digits::value(num@) == nv * digits::pow2(i as nat),
            digits::value(num@) < dv * digits::pow2(53),
        decreases 1074 - i,
    {
        proof {
            let p = digits::pow2(i as nat);
            assert(2 * (nv * p) == nv * (2 * p)) by (nonlinear_arith);
            let q = digits::pow2(52);
            assert(2 * (dv * q) == dv * (2 * q)) by (nonlinear_arith);
            assert(digits::pow2(53) == 2 * q);
        }
        num = digits::twice(&num);
        i += 1;
    }
    let m: u64 = divide(&num, &table, d, 0);
    proof {
        assert(digits::pow2(0) == 1);
        assert(dv * 1 == dv);
        lemma_below_scaled(nv, dv, i as nat, 53);
        lemma_below_scaled(nv, dv, i as nat, 52);
        lemma_below_grows(nv, dv, 53 - i, 1024);
        let q = -(i as int);
        assert(is_quantum(nv, dv, q));
        lemma_quantum_unique(nv, dv, q, choose|q: int| is_quantum(nv, dv, q));
        if i == 0 {
            assert(nv * 1 == nv);
        }
    }
    (1074 - i as u64) * STEP + m
}

/// `2^k` for a small `k`.
fn two_to(k: u32) -> (r: u128)
    requires
        k <= 64,
    ensures
        r == digits::pow2(k as nat),
        1 <= r <= 0x1_0000_0000_0000_0000,
{
    let mut r: u128 = 1;
    let mut i: u32 = 0;
    assert(digits::pow2(0) == 1);
    while i < k
        invariant
            i <= k <= 64,
            r == digits::pow2(i as nat),
            1 <= r <= 0x1_0000_0000_0000_0000,
        decreases k - i,
    {
        proof {
            lemma_pow2_small((i + 1) as nat);
        }
        r = r * 2;
        i += 1;
    }
    r
}

pub proof fn lemma_pow2_monotone(a: nat, b: nat)
    requires
        a <= b,
    ensures
        digits::pow2(a) <= digits::pow2(b),
    decreases b,
{
    if a < b {
        lemma_pow2_monotone(a, (b - 1) as nat);
    }
}

proof fn lemma_pow2_small(k: nat)
    ensures
        k <= 64 ==> digits::pow2(k) <= 0x1_0000_0000_0000_0000,
        k >= 64 ==> digits::pow2(k) >= 0x1_0000_0000_0000_0000,
{
    assert(digits::pow2(64) == 0x1_0000_0000_0000_0000) by {
        lemma_pow2_53();
        reveal_with_fuel(digits::pow2, 12);
    }
    if k <= 64 {
        lemma_pow2_monotone(k, 64);
    }
    if k >= 64 {
        lemma_pow2_monotone(64, k);
    }
}

impl Double {
    /// The whole part of the value, without the sign.
    pub open spec fn whole(self) -> nat {
        if self.exponent() >= 0 {
            self.significand() * digits::pow2(self.exponent() as nat)
        } else {
            self.significand() / digits::pow2((-self.exponent()) as nat)
        }
    }

    /// Whether the number is above the integer `c`, which is not negative.
    pub open spec fn exceeds(self, c: nat) -> bool {
        !self.negative() && !self.nan() && (self.infinite() || if self.exponent() >= 0 {
            self.significand() * digits::pow2(self.exponent() as nat) > c
        } else {
            self.significand() > c * digits::pow2((-self.exponent()) as nat)
        })
    }

    pub fn is_nan(&self) -> (r: bool)
        ensures
            r == self.nan(),
    {
        self.magnitude_bits() > INFINITE
    }

    pub fn is_finite(&self) -> (r: bool)
        ensures
            r == self.finite(),
    {
        self.magnitude_bits() < INFINITE
    }

    pub fn is_zero(&self) -> (r: bool)
        ensures
            r == self.zero(),
    {
        self.magnitude_bits() == 0
    }

    /// Whether the number is above zero.
    pub fn is_positive(&self) -> (r: bool)
        ensures
            r == self.positive(),
    {
        self.bits > 0 && self.bits <= INFINITE
    }

    /// Whether the number is zero or above.
    pub fn at_least_zero(&self) -> (r: bool)
        ensures
            r == (self.positive() || self.zero()),
    {
        self.bits <= INFINITE || self.bits == SIGN
    }

    fn magnitude_bits(&self) -> (r: u64)
        ensures
            r == self.magnitude(),
    {
        if self.bits >= SIGN {
            self.bits - SIGN
        } else {
            self.bits
        }
    }

    /// The significand.
    pub fn significand_bits(&self) -> (r: u64)
        ensures
            r == self.significand(),
            r < 0x20_0000_0000_0000,
    {
        let m: u64 = self.magnitude_bits();
        if m < STEP {
            m
        } else {
            m % STEP + STEP
        }
    }

    /// The power of two by which the significand is scaled.
    pub fn exponent_of(&self) -> (r: i32)
        ensures
            r == self.exponent(),
            -1074 <= r <= 972,
    {
        let m: u64 = self.magnitude_bits();
        if m < STEP {
            -1074
        } else {
            (m / STEP) as i32 - 1075
        }
    }

    /// The number without its fraction, as an unsigned integer: zero for a NaN or a negative
    /// number, the largest integer for one that is too large.
    pub open spec fn truncated(self) -> u64 {
        if self.nan() || self.negative() {
            0
        } else if self.infinite() || self.whole() > u64::MAX {
            u64::MAX
        } else {
            self.whole() as u64
        }
    }

    /// The number without its fraction, as an unsigned integer.
    pub fn trunc(&self) -> (r: u64)
        ensures
            r == self.truncated(),
    {
        if self.is_nan() || self.bits >= SIGN {
            return 0;
        }
        if !self.is_finite() {
            return u64::MAX;
        }
        let s: u64 = self.significand_bits();
        let e: i32 = self.exponent_of();
        if e >= 0 {
            if e >= 12 {
                proof {
                    lemma_pow2_monotone(12, e as nat);
                    assert(digits::pow2(12) == 4096) by {
                        reveal_with_fuel(digits::pow2, 13);
                    }
                    let p = digits::pow2(e as nat);
                    assert(s * p > u64::MAX) by (nonlinear_arith)
                        requires
                            s >= 0x10_0000_0000_0000,
                            p >= 4096,
                    ;
                }
                return u64::MAX;
            }
            let p: u64 = two_to(e as u32) as u64;
            proof {
                lemma_pow2_monotone(e as nat, 11);
                assert(digits::pow2(11) == 2048) by {
                    reveal_with_fuel(digits::pow2, 12);
                }
                assert(p == digits::pow2(e as nat));
                assert(s * p <= u64::MAX) by (nonlinear_arith)
                    requires
                        s < 0x20_0000_0000_0000,
                        p <= 2048,
                ;
            }
            s * p
        } else if e <= -64 {
            proof {
                lemma_pow2_small((-e) as nat);
                vstd::arithmetic::div_mod::lemma_basic_div(
                    s as int,
                    digits::pow2((-e) as nat) as int,
                );
            }
            0
        } else {
            let p: u128 = two_to((-e) as u32);
            proof {
                vstd::arithmetic::div_mod::lemma_div_is_ordered_by_denominator(
                    s as int,
                    1,
                    p as int,
                );
            }
            (s as u128 / p) as u64
        }
    }

    /// The number held between zero and a hundred; a NaN stays.
    pub open spec fn held(self) -> Double {
        if self.nan() {
            self
        } else if self.negative() && !self.zero() {
            Double { bits: 0 }
        } else if self.exceeds(100) {
            Double { bits: 0x4059_0000_0000_0000 }
        } else {
            self
        }
    }

    /// The number held between zero and a hundred; a NaN stays.
    pub fn clamp_percent(self) -> (r: Double)
        ensures
            r == self.held(),
    {
        if self.is_nan() {
            return self;
        }
        if self.bits > SIGN {
            return Double { bits: 0 };
        }
        if self.bits < SIGN && self.bits > 0x4059_0000_0000_0000 {
            proof {
                self.lemma_over_hundred();
            }
            return Double { bits: 0x4059_0000_0000_0000 };
        }
        proof {
            if self.bits < SIGN {
                self.lemma_over_hundred();
            }
        }
        self
    }

    /// Doubles above zero are ordered as their bits are.
    proof fn lemma_over_hundred(self)
        requires
            !self.nan(),
            !self.negative(),
        ensures
            self.exceeds(100) <==> self.bits > 0x4059_0000_0000_0000,
    {
        let e = self.exponent();
        let s = self.significand();
        if self.infinite() {
        } else if e >= 0 {
            let p = digits::pow2(e as nat);
            digits::lemma_pow2_pos(e as nat);
            assert(s * p >= s) by (nonlinear_arith)
                requires
                    p >= 1,
            ;
        } else {
            let k = (-e) as nat;
            let p = digits::pow2(k);
            assert(digits::pow2(46) == 0x4000_0000_0000) by {
                reveal_with_fuel(digits::pow2, 24);
                digits::lemma_pow2_adds(23, 23);
            }
            assert(digits::pow2(47) == 2 * digits::pow2(46));
            if k < 46 {
                lemma_pow2_monotone(k, 45);
                assert(digits::pow2(46) == 2 * digits::pow2(45));
            }
            if k > 46 {
                lemma_pow2_monotone(47, k);
            }
        }
    }

    /// The double nearest to `n`.
    pub fn from_u64(n: u64) -> (r: Double)
        ensures
            r == signed(false, nearest(n as nat, 1)),
            r.bits <= INFINITE,
    {
        let num: Vec<u8> = digits::from_u64(n);
        let den: Vec<u8> = digits::from_u64(1);
        Double { bits: round_ratio(&num, &den) }
    }
}

/// `d * 2^k`.
pub fn times_pow2(d: Vec<u8>, k: u32) -> (r: Vec<u8>)
    requires
        digits::all_digits(d@),
        k < 0x10_0000,
    ensures
        digits::all_digits(r@),
        digits::value(r@) == digits::value(d@) * digits::pow2(k as nat),
{
    let ghost v = digits::value(d@);
    let mut out: Vec<u8> = d;
    let mut i: u32 = 0;
    assert(digits::pow2(0) == 1);
    while i < k
        invariant
            i <= k < 0x10_0000,
            digits::all_digits(out@),
            digits::value(out@) == v * digits::pow2(i as nat),
        decreases k - i,
    {
        proof {
            let p = digits::pow2(i as nat);
            assert(2 * (v * p) == v * (2 * p)) by (nonlinear_arith);
        }
        out = digits::twice(&out);
        i += 1;
    }
    out
}

/// `2^e`, or one where `e` is negative.
pub open spec fn scale(e: int) -> nat {
    if e >= 0 {
        digits::pow2(e as nat)
    } else {
        1
    }
}

impl Double {
    /// The quotient of two numbers. A NaN is given as the quiet one.
    pub open spec fn quotient(self, other: Double) -> Double {
        let negative = self.negative() != other.negative();
        let e = self.exponent() - other.exponent();
        if self.nan() || other.nan() || (self.infinite() && other.infinite()) || (self.zero()
            && other.zero()) {
            Double { bits: NAN }
        } else if self.infinite() || other.zero() {
            signed(negative, INFINITE as nat)
        } else if other.infinite() {
            signed(negative, 0)
        } else {
            signed(
                negative,
                nearest(self.significand() * scale(e), other.significand() * scale(-e)),
            )
        }
    }

    /// The product of two numbers. A NaN is given as the quiet one.
    pub open spec fn product(self, other: Double) -> Double {
        let negative = self.negative() != other.negative();
        let e = self.exponent() + other.exponent();
        if self.nan() || other.nan() || (self.infinite() && other.zero()) || (self.zero()
            && other.infinite()) {
            Double { bits: NAN }
        } else if self.infinite() || other.infinite() {
            signed(negative, INFINITE as nat)
        } else {
            signed(
                negative,
                nearest((self.significand() * other.significand()) * scale(e), scale(-e)),
            )
        }
    }

    /// The double with the given sign and magnitude.
    pub fn with_sign(negative: bool, magnitude: u64) -> (r: Double)
        requires
            magnitude <= INFINITE,
        ensures
            r == signed(negative, magnitude as nat),
    {
        Double { bits: if negative { magnitude + SIGN } else { magnitude } }
    }

    /// `self / other`.
    pub fn div(self, other: Double) -> (r: Double)
        ensures
            r == self.quotient(other),
    {
        let negative: bool = (self.bits >= SIGN) != (other.bits >= SIGN);
        let inf_a: bool = !self.is_nan() && !self.is_finite();
        let inf_b: bool = !other.is_nan() && !other.is_finite();
        if self.is_nan() || other.is_nan() || (inf_a && inf_b) || (self.is_zero()
            && other.is_zero()) {
            return Double { bits: NAN };
        }
        if inf_a || other.is_zero() {
            return Double::with_sign(negative, INFINITE);
        }
        if inf_b {
            return Double::with_sign(negative, 0);
        }
        let e: i32 = self.exponent_of() - other.exponent_of();
        let mut num: Vec<u8> = digits::from_u64(self.significand_bits());
        let mut den: Vec<u8> = digits::from_u64(other.significand_bits());
        if e >= 0 {
            num = times_pow2(num, e as u32);
        } else {
            den = times_pow2(den, (-e) as u32);
        }
        proof {
            digits::lemma_pow2_pos(0);
            assert(self.significand() * 1 == self.significand());
            assert(other.significand() * 1 == other.significand());
            assert(scale(0) == 1);
            let s = other.significand();
            let p = scale(-e);
            digits::lemma_pow2_pos((-e) as nat);
            assert(s * p > 0) by (nonlinear_arith)
                requires
                    s > 0,
                    p > 0,
            ;
        }
        Double::with_sign(negative, round_ratio(&num, &den))
    }

    /// `self * other`.
    pub fn mul(self, other: Double) -> (r: Double)
        ensures
            r == self.product(other),
    {
        let negative: bool = (self.bits >= SIGN) != (other.bits >= SIGN);
        let inf_a: bool = !self.is_nan() && !self.is_finite();
        let inf_b: bool = !other.is_nan() && !other.is_finite();
        if self.is_nan() || other.is_nan() || (inf_a && other.is_zero()) || (self.is_zero()
            && inf_b) {
            return Double { bits: NAN };
        }
        if inf_a || inf_b {
            return Double::with_sign(negative, INFINITE);
        }
        let e: i32 = self.exponent_of() + other.exponent_of();
        let a: u64 = self.significand_bits();
        let b: u64 = other.significand_bits();
        assert(a * b <= u64::MAX * u64::MAX) by (nonlinear_arith)
            requires
                a <= u64::MAX,
                b <= u64::MAX,
        ;
        let mut num: Vec<u8> = digits::from_u128(a as u128 * b as u128);
        let mut den: Vec<u8> = digits::from_u64(1);
        if e >= 0 {
            num = times_pow2(num, e as u32);
        } else {
            den = times_pow2(den, (-e) as u32);
        }
        proof {
            let ab = (self.significand() * other.significand()) as nat;
            assert(ab * 1 == ab);
            assert(scale(0) == 1) by {
                assert(digits::pow2(0) == 1);
            }
            digits::lemma_pow2_pos((-e) as nat);
            assert(1 * digits::pow2((-e) as nat) == digits::pow2((-e) as nat));
        }
        Double::with_sign(negative, round_ratio(&num, &den))
    }
}

/// `n` in `places` decimal digits, with zeros in front.
pub open spec fn padded(n: nat, places: nat) -> Seq<char>
    decreases places,
{
    if places == 0 {
        Seq::empty()
    } else {
        padded(n / 10, (places - 1) as nat).push(text::digit_char(n % 10))
    }
}

/// A count of `10^-places` in decimal.
pub open spec fn point_text(h: nat, places: nat) -> Seq<char> {
    if places == 0 {
        text::dec(h)
    } else {
        text::dec(h / digits::pow10(places)) + seq!['.'] + padded(
            h % digits::pow10(places),
            places,
        )
    }
}

/// `n / d` in decimal, rounded to `places` digits behind the point.
pub open spec fn fixed_text(n: nat, d: nat, places: nat) -> Seq<char> {
    point_text(half_even(n * digits::pow10(places), d), places)
}

/// Appends `n` in `places` digits, with zeros in front.
pub fn push_padded(out: &mut String, n: u64, places: u32)
    ensures
        final(out)@ == old(out)@ + padded(n as nat, places as nat),
    decreases places,
{
    if places > 0 {
        push_padded(out, n / 10, places - 1);
        out.push(text::digit((n % 10) as u8));
    }
    assert(out@ =~= old(out)@ + padded(n as nat, places as nat));
}

/// `n / d`, rounded to an integer, a tie to the even one.
pub fn divide_half_even(n: u128, d: u128) -> (r: u128)
    requires
        0 < d <= 0x4000_0000_0000_0000_0000,
    ensures
        r == half_even(n as nat, d as nat),
{
    let q: u128 = n / d;
    let r: u128 = n % d;
    if r * 2 > d || (r * 2 == d && q % 2 == 1) {
        assert(d >= 2);
        proof {
            vstd::arithmetic::div_mod::lemma_fundamental_div_mod(n as int, d as int);
            vstd::arithmetic::mul::lemma_mul_is_commutative(d as int, q as int);
        }
        assert(q + 1 <= u128::MAX) by (nonlinear_arith)
            requires
                q * d <= n,
                d >= 2,
                n <= u128::MAX,
        ;
        q + 1
    } else {
        q
    }
}

/// A count of `10^-places` in decimal.
pub fn point(h: u64, places: u32) -> (r: String)
    requires
        places <= 3,
    ensures
        r@ == point_text(h as nat, places as nat),
{
    let mut out = String::new();
    proof {
        reveal_with_fuel(digits::pow10, 4);
    }
    if places == 0 {
        text::push_dec(&mut out, h);
        assert(out@ =~= text::dec(h as nat));
        return out;
    }
    let unit: u64 = if places == 1 {
        10
    } else if places == 2 {
        100
    } else {
        1000
    };
    text::push_dec(&mut out, h / unit);
    out.push('.');
    push_padded(&mut out, h % unit, places);
    assert(out@ =~= point_text(h as nat, places as nat));
    out
}

impl Double {
    /// The number in decimal, with `places` digits behind the point.
    pub open spec fn fixed(self, places: nat) -> Seq<char> {
        if self.nan() {
            seq!['N', 'a', 'N']
        } else {
            let sign = if self.negative() {
                seq!['-']
            } else {
                Seq::empty()
            };
            if self.infinite() {
                sign + seq!['i', 'n', 'f']
            } else {
                sign + fixed_text(
                    self.significand() * scale(self.exponent()),
                    scale(-self.exponent()),
                    places,
                )
            }
        }
    }

    /// The number in decimal, with `places` digits behind the point.
    pub fn to_fixed(&self, places: u32) -> (r: String)
        requires
            places <= 3,
        ensures
            r@ == self.fixed(places as nat),
    {
        let mut out = String::new();
        if self.is_nan() {
            out.push('N');
            out.push('a');
            out.push('N');
            assert(out@ =~= self.fixed(places as nat));
            return out;
        }
        if self.bits >= SIGN {
            out.push('-');
        }
        let ghost sign = out@;
        assert(sign =~= if self.negative() {
            seq!['-']
        } else {
            Seq::empty()
        });
        if !self.is_finite() {
            out.push('i');
            out.push('n');
            out.push('f');
            assert(out@ =~= self.fixed(places as nat));
            return out;
        }
        let body: String = self.unsigned_fixed(places);
        out.append(body.as_str());
        out
    }

    fn unsigned_fixed(&self, places: u32) -> (r: String)
        requires
            places <= 3,
            self.finite(),
        ensures
            r@ == fixed_text(
                self.significand() * scale(self.exponent()),
                scale(-self.exponent()),
                places as nat,
            ),
    {
        let s: u64 = self.significand_bits();
        let e: i32 = self.exponent_of();
        let unit: u64 = if places == 0 {
            1
        } else if places == 1 {
            10
        } else if places == 2 {
            100
        } else {
            1000
        };
        proof {
            reveal_with_fuel(digits::pow10, 4);
            reveal_with_fuel(digits::pow2, 2);
            assert(unit == digits::pow10(places as nat));
            assert(s * 1 == s);
        }
        if e >= 0 {
            let d: Vec<u8> = times_pow2(digits::from_u64(s), e as u32);
            let mut out: String = digits::to_text(&d);
            proof {
                let v = s * digits::pow2(e as nat);
                let h = v * unit;
                assert(half_even(h as nat, 1) == h);
                vstd::arithmetic::div_mod::lemma_div_multiples_vanish(v as int, unit as int);
                vstd::arithmetic::div_mod::lemma_mod_multiples_basic(v as int, unit as int);
                vstd::arithmetic::mul::lemma_mul_is_commutative(v as int, unit as int);
            }
            if places > 0 {
                out.push('.');
                push_padded(&mut out, 0, places);
            } else {
                assert(unit == 1);
                let ghost v = s * digits::pow2(e as nat);
                assert(v * 1 == v);
            }
            return out;
        }
        let k: u32 = (-e) as u32;
        proof {
            lemma_pow2_small(k as nat);
            assert(s * unit < 0x8000_0000_0000_0000) by (nonlinear_arith)
                requires
                    s < 0x20_0000_0000_0000,
                    unit <= 1000,
            ;
        }
        let n: u64 = s * unit;
        if k > 64 {
            proof {
                let p = digits::pow2(k as nat);
                vstd::arithmetic::div_mod::lemma_basic_div(n as int, p as int);
                vstd::arithmetic::div_mod::lemma_small_mod(n as nat, p);
                assert(half_even(n as nat, p) == 0);
            }
            return point(0, places);
        }
        let p: u128 = two_to(k);
        let h: u128 = divide_half_even(n as u128, p);
        proof {
            vstd::arithmetic::div_mod::lemma_div_is_ordered_by_denominator(n as int, 1, p as int);
        }
        point(h as u64, places)
    }
}

impl Double {
    /// The exact value of a finite number in decimal, with a power of ten behind it where it is no
    /// integer.
    pub open spec fn exact(self) -> Seq<char> {
        let sign = if self.negative() {
            seq!['-']
        } else {
            Seq::empty()
        };
        if self.exponent() >= 0 {
            sign + text::dec(self.significand() * digits::pow2(self.exponent() as nat))
        } else {
            sign + text::dec(self.significand() * digits::pow5((-self.exponent()) as nat)) + "e-"@
                + text::dec((-self.exponent()) as nat)
        }
    }

    /// The exact value in decimal.
    pub fn exact_text(&self) -> (r: String)
        requires
            self.finite(),
        ensures
            r@ == self.exact(),
    {
        let mut out = String::new();
        if self.bits >= SIGN {
            out.push('-');
        }
        assert(out@ =~= if self.negative() {
            seq!['-']
        } else {
            Seq::empty()
        });
        let s: u64 = self.significand_bits();
        let e: i32 = self.exponent_of();
        if e >= 0 {
            let d: Vec<u8> = times_pow2(digits::from_u64(s), e as u32);
            out.append(digits::to_text(&d).as_str());
            return out;
        }
        let k: u32 = (-e) as u32;
        let mut d: Vec<u8> = digits::from_u64(s);
        let mut i: u32 = 0;
        assert(digits::pow5(0) == 1);
        assert(s * 1 == s);
        while i < k
            invariant
                i <= k,
                digits::all_digits(d@),
                digits::value(d@) == s * digits::pow5(i as nat),
            decreases k - i,
        {
            proof {
                let p = digits::pow5(i as nat);
                let si = s as int;
                assert((si * p) * 5 == si * (5 * p)) by (nonlinear_arith);
            }
            d = digits::times(&d, 5);
            i += 1;
        }
        out.append(digits::to_text(&d).as_str());
        out.append("e-");
        text::push_dec(&mut out, k as u64);
        out
    }
}

/// Whether `m` is an integer nearest to `n / d`: no further from it than one half.
pub open spec fn is_nearest(n: nat, d: nat, m: nat) -> bool {
    2 * (m * d) <= 2 * n + d && 2 * n <= 2 * (m * d) + d
}

/// Rounding gives an integer that is nearest to the ratio, and the ratio itself where it is an integer.
pub proof fn law_rounding_is_to_the_nearest(n: nat, d: nat, m: nat)
    requires
        d > 0,
    ensures
        is_nearest(n, d, half_even(n, d)),
        n == m * d ==> half_even(n, d) == m,
        n <= m * d ==> half_even(n, d) <= m,
        n >= m * d ==> half_even(n, d) >= m,
{
    let q = n / d;
    let r = n % d;
    vstd::arithmetic::div_mod::lemma_fundamental_div_mod(n as int, d as int);
    vstd::arithmetic::mul::lemma_mul_is_commutative(d as int, q as int);
    assert((q + 1) * d == q * d + d) by (nonlinear_arith);
    if n <= m * d {
        assert(q <= m && (q == m ==> r == 0)) by (nonlinear_arith)
            requires
                n == q * d + r,
                0 <= r < d,
                n <= m * d,
        ;
    }
    if n >= m * d {
        assert(q >= m) by (nonlinear_arith)
            requires
                n == q * d + r,
                0 <= r < d,
                n >= m * d,
        ;
    }
}

impl Double {
    /// The number without its sign as a ratio of integers.
    pub open spec fn ratio(self) -> (nat, nat) {
        (self.significand() * scale(self.exponent()), scale(-self.exponent()))
    }

    pub proof fn lemma_ratio(self)
        ensures
            self.ratio().1 > 0,
    {
        if self.exponent() < 0 {
            digits::lemma_pow2_pos((-self.exponent()) as nat);
        } else {
            assert(digits::pow2(0) == 1);
        }
    }

    /// A finite number that is not negative is written, without a fraction, as an integer nearest to
    /// it.
    pub proof fn law_written_as_nearest_integer(self)
        requires
            self.finite(),
            !self.negative(),
        ensures
            exists|m: nat|
                #[trigger] is_nearest(self.ratio().0, self.ratio().1, m) && self.fixed(0)
                    == text::dec(m),
            self.fixed(0) == text::dec(half_even(self.ratio().0, self.ratio().1)),
    {
        let (n, d) = self.ratio();
        self.lemma_ratio();
        assert(digits::pow10(0) == 1);
        assert(n * 1 == n);
        law_rounding_is_to_the_nearest(n, d, 0);
        assert(is_nearest(n, d, half_even(n, d)));
        assert(self.fixed(0) =~= text::dec(half_even(n, d)));
    }

    /// Holding a number between zero and a hundred changes only what lies outside.
    pub proof fn law_held_lies_between(self)
        requires
            !self.nan(),
        ensures
            self.held().finite(),
            !self.negative() ==> !self.held().negative(),
            self.negative() && !self.zero() ==> self.held().ratio().0 == 0,
            self.negative() && !self.zero() ==> !self.held().negative(),
            !self.negative() && self.finite() && self.ratio().0 <= 100 * self.ratio().1
                ==> self.held() == self,
            !self.negative() && (self.infinite() || self.ratio().0 > 100 * self.ratio().1)
                ==> self.held().ratio().0 == 100 * self.held().ratio().1,
            self.held().held() == self.held(),
    {
        reveal_with_fuel(digits::pow2, 2);
        let h = Double { bits: 0x4059_0000_0000_0000 };
        assert(h.magnitude() == 0x4059_0000_0000_0000);
        assert(h.exponent() == -46 && h.significand() == 0x19_0000_0000_0000);
        assert(digits::pow2(46) == 0x4000_0000_0000) by {
            reveal_with_fuel(digits::pow2, 24);
            digits::lemma_pow2_adds(23, 23);
        }
        let z = Double { bits: 0 };
        assert(z.significand() == 0);
        let s = self.significand();
        assert(s * 1 == s);
        if self.infinite() && !self.negative() {
            assert(self.exceeds(100));
        }
    }
}

impl Double {
    /// Cutting the fraction off gives the largest integer that is not above the number, or the largest
    /// there is; a negative number and what is no number give zero.
    pub proof fn law_truncation_is_downwards(self)
        ensures
            self.nan() || self.negative() ==> self.truncated() == 0,
            self.infinite() && !self.negative() ==> self.truncated() == u64::MAX,
            self.finite() && !self.negative() ==> self.truncated() * self.ratio().1
                <= self.ratio().0,
            self.finite() && !self.negative() && self.truncated() < u64::MAX ==> self.ratio().0 < (
            self.truncated() + 1) * self.ratio().1,
    {
        if self.finite() && !self.negative() {
            self.lemma_ratio();
            let (n, d) = self.ratio();
            let e = self.exponent();
            let s = self.significand();
            assert(digits::pow2(0) == 1);
            assert(s * 1 == s);
            let w = self.whole();
            if e >= 0 {
                assert(d == 1);
                assert(n / 1 == n);
            } else {
                assert(n == s);
            }
            assert(w == n / d);
            vstd::arithmetic::div_mod::lemma_fundamental_div_mod(n as int, d as int);
            vstd::arithmetic::mul::lemma_mul_is_commutative(d as int, w as int);
            let t = self.truncated() as int;
            assert(t <= w);
            assert(t * d <= n) by (nonlinear_arith)
                requires
                    t <= w,
                    w * d <= n,
                    d > 0,
            ;
            if self.truncated() < u64::MAX {
                assert((t + 1) * d == w * d + d) by (nonlinear_arith)
                    requires
                        t == w,
                ;
            }
        }
    }
}

/// Two digits write a number below a hundred, with a zero in front where it is below ten.
pub proof fn law_two_digits(n: nat)
    requires
        n < 100,
    ensures
        padded(n, 2) == seq![(48 + n / 10) as char, (48 + n % 10) as char],
{
    reveal_with_fuel(padded, 3);
    assert(padded(n, 2) =~= seq![(48 + n / 10) as char, (48 + n % 10) as char]);
}

/// A count of tenths is written as whole ones, a point and the last digit.
pub proof fn law_tenths_are_written(h: nat)
    ensures
        point_text(h, 1) == text::dec(h / 10) + seq!['.'] + seq![(48 + h % 10) as char],
{
    reveal_with_fuel(padded, 2);
    reveal_with_fuel(digits::pow10, 2);
    assert(padded(h % 10, 1) =~= seq![(48 + h % 10) as char]);
}

proof fn lemma_scales_balance(a: int, b: int)
    ensures
        scale(a) * scale(b) * scale(-(a + b)) == scale(-a) * scale(-b) * scale(a + b),
        scale(a) > 0,
        scale(-a) > 0,
        scale(b) > 0,
        scale(-b) > 0,
{
    assert(digits::pow2(0) == 1);
    assert forall|e: int| #[trigger] scale(e) > 0 by {
        if e >= 0 {
            digits::lemma_pow2_pos(e as nat);
        }
    }
    let up = |e: int|
        if e >= 0 {
            e as nat
        } else {
            0nat
        };
    let (x, y, z) = (up(a), up(b), up(-(a + b)));
    let (u, v, w) = (up(-a), up(-b), up(a + b));
    assert(x + y + z == u + v + w);
    assert(scale(a) == digits::pow2(x) && scale(b) == digits::pow2(y));
    assert(scale(-a) == digits::pow2(u) && scale(-b) == digits::pow2(v));
    assert(scale(a + b) == digits::pow2(w) && scale(-(a + b)) == digits::pow2(z));
    digits::lemma_pow2_adds(x, y);
    digits::lemma_pow2_adds(x + y, z);
    digits::lemma_pow2_adds(u, v);
    digits::lemma_pow2_adds(u + v, w);
}

proof fn lemma_scale_cancels(x: nat, y: nat, up: nat, down: nat, e: nat, f: nat, p: nat, q: nat)
    requires
        up * f == down * e,
        down > 0,
        x * up * q == y * p * down,
    ensures
        x * e * q == y * (f * p),
{
    assert((x * e * q) * down == (x * q) * (down * e)) by (nonlinear_arith);
    assert((x * q) * (up * f) == (x * up * q) * f) by (nonlinear_arith);
    assert((y * p * down) * f == (y * (f * p)) * down) by (nonlinear_arith);
    assert(x * e * q == y * (f * p)) by (nonlinear_arith)
        requires
            (x * e * q) * down == (y * (f * p)) * down,
            down > 0,
    ;
}

impl Double {
    proof fn lemma_bits_of_parts(self)
        requires
            self.finite(),
        ensures
            -1074 <= self.exponent() <= 971,
            self.significand() < 0x20_0000_0000_0000,
            self.exponent() == -1074 || self.significand() >= 0x10_0000_0000_0000,
            (self.exponent() + 1074) * STEP + self.significand() == self.magnitude(),
    {
        let m = self.magnitude();
        if m >= STEP {
            vstd::arithmetic::div_mod::lemma_fundamental_div_mod(m as int, STEP as int);
        }
    }

    /// Where the product of two numbers is a number, it is that number, negative where one of the two
    /// is.
    pub proof fn law_exact_products(self, other: Double, c: Double)
        requires
            self.finite(),
            other.finite(),
            c.finite(),
            (self.ratio().0 * other.ratio().0) * c.ratio().1 == c.ratio().0 * (self.ratio().1
                * other.ratio().1),
        ensures
            self.product(other) == signed(self.negative() != other.negative(), c.magnitude()),
    {
        let (a, b, q) = (self.exponent(), other.exponent(), c.exponent());
        let (s, t, u) = (self.significand(), other.significand(), c.significand());
        c.lemma_bits_of_parts();
        lemma_scales_balance(a, b);
        lemma_scales_balance(a + b, 0);
        let up = scale(a) * scale(b);
        let down = scale(-a) * scale(-b);
        assert(down > 0) by (nonlinear_arith)
            requires
                scale(-a) > 0,
                scale(-b) > 0,
                down == scale(-a) * scale(-b),
        ;
        assert((s * scale(a)) * (t * scale(b)) == (s * t) * up) by (nonlinear_arith)
            requires
                up == scale(a) * scale(b),
        ;
        lemma_scale_cancels(s * t, u, up, down, scale(a + b), scale(-(a + b)), scale(q), scale(-q));
        lemma_nearest_exact((s * t) * scale(a + b), scale(-(a + b)), u, q);
    }

    /// Where the quotient of two numbers is a number, it is that number, negative where one of the two
    /// is.
    pub proof fn law_exact_quotients(self, other: Double, c: Double)
        requires
            self.finite(),
            other.finite(),
            !other.zero(),
            c.finite(),
            (self.ratio().0 * other.ratio().1) * c.ratio().1 == c.ratio().0 * (self.ratio().1
                * other.ratio().0),
        ensures
            self.quotient(other) == signed(self.negative() != other.negative(), c.magnitude()),
    {
        let (a, b, q) = (self.exponent(), other.exponent(), c.exponent());
        let (s, t, u) = (self.significand(), other.significand(), c.significand());
        c.lemma_bits_of_parts();
        other.lemma_bits_of_parts();
        lemma_scales_balance(a, -b);
        lemma_scales_balance(a - b, 0);
        let up = scale(a) * scale(-b);
        let down = scale(-a) * scale(b);
        assert(down > 0) by (nonlinear_arith)
            requires
                scale(-a) > 0,
                scale(b) > 0,
                down == scale(-a) * scale(b),
        ;
        assert(t > 0);
        assert((s * scale(a)) * scale(-b) == s * up) by (nonlinear_arith)
            requires
                up == scale(a) * scale(-b),
        ;
        assert((u * scale(q)) * (scale(-a) * (t * scale(b))) == (u * t) * scale(q) * down)
            by (nonlinear_arith)
            requires
                down == scale(-a) * scale(b),
        ;
        let e = a - b;
        lemma_scale_cancels(s, u * t, up, down, scale(e), scale(-e), scale(q), scale(-q));
        assert((u * t) * (scale(-e) * scale(q)) == u * ((t * scale(-e)) * scale(q)))
            by (nonlinear_arith);
        assert(t * scale(-e) > 0) by (nonlinear_arith)
            requires
                t > 0,
                scale(-e) > 0,
        ;
        lemma_nearest_exact(s * scale(e), t * scale(-e), u, q);
    }

    /// What is no number stays none; an infinite number outweighs a finite one, and so does a divisor
    /// of zero.
    pub proof fn law_special_values_carry_over(self, other: Double)
        ensures
            self.nan() || other.nan() ==> self.product(other).nan() && self.quotient(other).nan(),
            self.infinite() && other.finite() && !other.zero() ==> self.product(other).infinite()
                && other.product(self).infinite() && self.quotient(other).infinite()
                && other.quotient(self).zero(),
            self.infinite() && other.zero() ==> self.product(other).nan() && other.product(
                self,
            ).nan() && self.quotient(other).infinite(),
            self.zero() && other.zero() ==> self.quotient(other).nan(),
            self.infinite() && other.infinite() ==> self.product(other).infinite()
                && self.quotient(other).nan(),
            self.finite() && !self.zero() && other.zero() ==> self.quotient(other).infinite(),
            !self.nan() && !other.nan() && self.infinite() && !other.zero()
                ==> self.product(other).negative() == (self.negative() != other.negative()),
            self.product(other) == other.product(self),
    {
        vstd::arithmetic::mul::lemma_mul_is_commutative(
            self.significand() as int,
            other.significand() as int,
        );
    }

    /// A number is written to the nearest with the given number of digits behind the point, with a
    /// minus sign in front where it is negative.
    pub proof fn law_digits_behind_the_point(self, places: nat)
        ensures
            self.finite() && !self.negative() ==> exists|h: nat|
                #[trigger] is_nearest(
                    self.ratio().0 * digits::pow10(places),
                    self.ratio().1,
                    h,
                ) && self.fixed(places) == point_text(h, places),
            self.finite() && self.negative() ==> self.fixed(places) == seq!['-'] + signed(
                false,
                self.magnitude(),
            ).fixed(places),
            self.nan() ==> self.fixed(places) == seq!['N', 'a', 'N'],
    {
        self.lemma_ratio();
        let (n, d) = self.ratio();
        let p = digits::pow10(places);
        law_rounding_is_to_the_nearest(n * p, d, 0);
        let h = half_even(n * p, d);
        assert(is_nearest(n * p, d, h));
        if self.finite() && !self.negative() {
            assert(Seq::<char>::empty() + point_text(h, places) =~= point_text(h, places));
        }
        if self.finite() && self.negative() {
            let s = signed(false, self.magnitude());
            assert(s.magnitude() == self.magnitude() && !s.negative());
            assert(Seq::<char>::empty() + fixed_text(n, d, places) =~= fixed_text(n, d, places));
        }
    }
}

/// A count of hundredths is written as whole ones, a point and the last two digits.
pub proof fn law_hundredths_are_written(h: nat)
    ensures
        point_text(h, 2) == text::dec(h / 100) + seq!['.'] + seq![
            (48 + (h / 10) % 10) as char,
            (48 + h % 10) as char,
        ],
{
    reveal_with_fuel(padded, 3);
    reveal_with_fuel(digits::pow10, 3);
    let r = h % 100;
    assert(r % 10 == h % 10);
    assert((r / 10) % 10 == (h / 10) % 10);
    assert(padded(r, 2) =~= seq![(48 + (h / 10) % 10) as char, (48 + h % 10) as char]);
}

}
