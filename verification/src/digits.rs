//! Natural numbers of any size, as decimal digits, least significant first.
use crate::text;
use vstd::prelude::*;

verus! {

pub open spec fn pow10(n: nat) -> nat
    decreases n,
{
    if n == 0 {
        1
    } else {
        10 * pow10((n - 1) as nat)
    }
}

pub open spec fn pow2(n: nat) -> nat
    decreases n,
{
    if n == 0 {
        1
    } else {
        2 * pow2((n - 1) as nat)
    }
}

/// The digit at `i`, with zeros above the last one.
pub open spec fn at(d: Seq<u8>, i: int) -> nat {
    if 0 <= i < d.len() {
        d[i] as nat
    } else {
        0
    }
}

/// The number that the lowest `n` digits make.
pub open spec fn low(d: Seq<u8>, n: nat) -> nat
    decreases n,
{
    if n == 0 {
        0
    } else {
        low(d, (n - 1) as nat) + at(d, n - 1) * pow10((n - 1) as nat)
    }
}

/// The number that the digits stand for.
pub open spec fn value(d: Seq<u8>) -> nat {
    low(d, d.len())
}

pub open spec fn all_digits(d: Seq<u8>) -> bool {
    forall|i: int| 0 <= i < d.len() ==> d[i] < 10
}

pub proof fn lemma_pow10_pos(n: nat)
    ensures
        pow10(n) >= 1,
    decreases n,
{
    if n > 0 {
        lemma_pow10_pos((n - 1) as nat);
    }
}

pub proof fn lemma_pow2_pos(n: nat)
    ensures
        pow2(n) >= 1,
    decreases n,
{
    if n > 0 {
        lemma_pow2_pos((n - 1) as nat);
    }
}

pub proof fn lemma_pow2_adds(a: nat, b: nat)
    ensures
        pow2(a + b) == pow2(a) * pow2(b),
    decreases b,
{
    if b == 0 {
        assert(pow2(a) * 1 == pow2(a));
    } else {
        lemma_pow2_adds(a, (b - 1) as nat);
        let x = pow2(a);
        let y = pow2((b - 1) as nat);
        assert(2 * (x * y) == x * (2 * y)) by (nonlinear_arith);
        assert(a + b - 1 == a + (b - 1) as nat);
    }
}

pub proof fn lemma_pow10_adds(a: nat, b: nat)
    ensures
        pow10(a + b) == pow10(a) * pow10(b),
    decreases b,
{
    if b == 0 {
        assert(pow10(a) * 1 == pow10(a));
    } else {
        lemma_pow10_adds(a, (b - 1) as nat);
        let x = pow10(a);
        let y = pow10((b - 1) as nat);
        assert(10 * (x * y) == x * (10 * y)) by (nonlinear_arith);
        assert(a + b - 1 == a + (b - 1) as nat);
    }
}

/// Only the lowest `n` digits count in `low`.
pub proof fn lemma_low_same(a: Seq<u8>, b: Seq<u8>, n: nat)
    requires
        forall|i: int| 0 <= i < n ==> at(a, i) == at(b, i),
    ensures
        low(a, n) == low(b, n),
    decreases n,
{
    if n > 0 {
        lemma_low_same(a, b, (n - 1) as nat);
    }
}

/// Zeros above the last digit add nothing.
pub proof fn lemma_low_pads(d: Seq<u8>, n: nat)
    requires
        n >= d.len(),
    ensures
        low(d, n) == value(d),
    decreases n,
{
    if n > d.len() {
        lemma_low_pads(d, (n - 1) as nat);
        assert(0 * pow10((n - 1) as nat) == 0);
    }
}

pub proof fn lemma_low_below(d: Seq<u8>, n: nat)
    requires
        all_digits(d),
    ensures
        low(d, n) < pow10(n),
    decreases n,
{
    if n > 0 {
        lemma_low_below(d, (n - 1) as nat);
        let p = pow10((n - 1) as nat);
        let x = at(d, n - 1);
        assert(x * p <= 9 * p) by (nonlinear_arith)
            requires
                x <= 9,
        ;
    }
}

/// Where two numbers share the digits from `i` to `n`, they differ as their lower parts do.
pub proof fn lemma_low_shared(a: Seq<u8>, b: Seq<u8>, i: nat, n: nat)
    requires
        i <= n,
        forall|j: int| i <= j < n ==> at(a, j) == at(b, j),
    ensures
        low(a, n) - low(b, n) == low(a, i) - low(b, i),
    decreases n,
{
    if n > i {
        lemma_low_shared(a, b, i, (n - 1) as nat);
    }
}

fn digit_at(d: &Vec<u8>, i: usize) -> (r: u8)
    ensures
        r == at(d@, i as int),
        all_digits(d@) ==> r < 10,
{
    if i < d.len() {
        d[i]
    } else {
        0
    }
}

/// Twice the number.
pub fn twice(d: &Vec<u8>) -> (r: Vec<u8>)
    requires
        all_digits(d@),
    ensures
        all_digits(r@),
        value(r@) == 2 * value(d@),
{
    let mut out: Vec<u8> = Vec::new();
    let mut carry: u8 = 0;
    let mut i: usize = 0;
    while i < d.len()
        invariant
            i <= d@.len(),
            out@.len() == i,
            carry <= 1,
            all_digits(d@),
            all_digits(out@),
            low(out@, i as nat) + carry * pow10(i as nat) == 2 * low(d@, i as nat),
        decreases d@.len() - i,
    {
        let t: u8 = d[i] * 2 + carry;
        let ghost before = out@;
        out.push(t % 10);
        proof {
            lemma_low_same(before, out@, i as nat);
            let p = pow10(i as nat);
            let x = d@[i as int];
            let c = carry as int;
            let q = (t / 10) as int;
            let m = (t % 10) as int;
            assert(m * p + q * (10 * p) == c * p + 2 * (x * p)) by (nonlinear_arith)
                requires
                    10 * q + m == 2 * x + c,
            ;
        }
        carry = t / 10;
        i += 1;
    }
    if carry > 0 {
        let ghost before = out@;
        out.push(carry);
        proof {
            lemma_low_same(before, out@, i as nat);
        }
    } else {
        assert(0 * pow10(i as nat) == 0);
    }
    out
}

/// Whether `a` is the smaller number.
pub fn less(a: &Vec<u8>, b: &Vec<u8>) -> (r: bool)
    requires
        all_digits(a@),
        all_digits(b@),
    ensures
        r == (value(a@) < value(b@)),
{
    let n: usize = if a.len() > b.len() { a.len() } else { b.len() };
    proof {
        lemma_low_pads(a@, n as nat);
        lemma_low_pads(b@, n as nat);
    }
    let mut i: usize = n;
    while i > 0
        invariant
            i <= n,
            all_digits(a@),
            all_digits(b@),
            forall|j: int| i <= j < n ==> at(a@, j) == at(b@, j),
            low(a@, n as nat) == value(a@),
            low(b@, n as nat) == value(b@),
        decreases i,
    {
        let x: u8 = digit_at(a, i - 1);
        let y: u8 = digit_at(b, i - 1);
        if x != y {
            proof {
                lemma_low_shared(a@, b@, i as nat, n as nat);
                lemma_low_below(a@, (i - 1) as nat);
                lemma_low_below(b@, (i - 1) as nat);
                let p = pow10((i - 1) as nat);
                if x < y {
                    assert(x * p + p <= y * p) by (nonlinear_arith)
                        requires
                            x + 1 <= y,
                            p >= 0,
                    ;
                } else {
                    assert(y * p + p <= x * p) by (nonlinear_arith)
                        requires
                            y + 1 <= x,
                            p >= 0,
                    ;
                }
            }
            return x < y;
        }
        i -= 1;
    }
    proof {
        lemma_low_shared(a@, b@, 0, n as nat);
    }
    false
}

/// `a` less `b`, where `b` is not the larger.
pub fn minus(a: &Vec<u8>, b: &Vec<u8>) -> (r: Vec<u8>)
    requires
        all_digits(a@),
        all_digits(b@),
        value(b@) <= value(a@),
    ensures
        all_digits(r@),
        value(r@) == value(a@) - value(b@),
{
    let n: usize = if a.len() > b.len() { a.len() } else { b.len() };
    let mut out: Vec<u8> = Vec::new();
    let mut borrow: u8 = 0;
    let mut i: usize = 0;
    while i < n
        invariant
            i <= n,
            out@.len() == i,
            borrow <= 1,
            all_digits(a@),
            all_digits(b@),
            all_digits(out@),
            low(out@, i as nat) + low(b@, i as nat) == low(a@, i as nat) + borrow * pow10(i as nat),
        decreases n - i,
    {
        let x: u8 = digit_at(a, i);
        let y: u8 = digit_at(b, i) + borrow;
        let ghost c = borrow as int;
        let t: u8 = if x < y {
            borrow = 1;
            x + 10 - y
        } else {
            borrow = 0;
            x - y
        };
        let ghost before = out@;
        out.push(t);
        proof {
            lemma_low_same(before, out@, i as nat);
            let p = pow10(i as nat);
            let yb = at(b@, i as int) as int;
            let nb = borrow as int;
            assert(t * p + yb * p + c * p == x * p + nb * (10 * p)) by (nonlinear_arith)
                requires
                    t + yb + c == x + 10 * nb,
            ;
        }
        i += 1;
    }
    proof {
        lemma_low_pads(a@, n as nat);
        lemma_low_pads(b@, n as nat);
        lemma_low_below(out@, n as nat);
        assert(0 * pow10(n as nat) == 0);
        assert(1 * pow10(n as nat) == pow10(n as nat));
    }
    out
}

/// The digits of `n`.
pub fn from_u128(n: u128) -> (r: Vec<u8>)
    ensures
        all_digits(r@),
        value(r@) == n,
{
    let mut out: Vec<u8> = Vec::new();
    let mut rest: u128 = n;
    assert(pow10(0) == 1);
    assert(rest * 1 == rest);
    while rest > 0
        invariant
            all_digits(out@),
            low(out@, out@.len()) + rest * pow10(out@.len()) == n,
        decreases rest,
    {
        let ghost before = out@;
        let ghost r0 = rest as int;
        out.push((rest % 10) as u8);
        rest = rest / 10;
        proof {
            lemma_low_same(before, out@, before.len());
            let p = pow10(before.len());
            let q = rest as int;
            let m = r0 % 10;
            assert(m * p + q * (10 * p) == r0 * p) by (nonlinear_arith)
                requires
                    10 * q + m == r0,
            ;
        }
    }
    assert(0 * pow10(out@.len()) == 0);
    out
}

/// The digits of `n`.
pub fn from_u64(n: u64) -> (r: Vec<u8>)
    ensures
        all_digits(r@),
        value(r@) == n,
{
    from_u128(n as u128)
}

proof fn lemma_low_zero(z: Seq<u8>, k: nat)
    requires
        forall|i: int| 0 <= i < k ==> at(z, i) == 0,
    ensures
        low(z, k) == 0,
    decreases k,
{
    if k > 0 {
        lemma_low_zero(z, (k - 1) as nat);
        assert(0 * pow10((k - 1) as nat) == 0);
    }
}

proof fn lemma_low_shift(d: Seq<u8>, z: Seq<u8>, k: nat, n: nat)
    requires
        forall|i: int| 0 <= i < k ==> at(z, i) == 0,
        forall|i: int| k <= i ==> #[trigger] at(z, i) == at(d, i - k),
    ensures
        low(z, k + n) == pow10(k) * low(d, n),
    decreases n,
{
    if n == 0 {
        lemma_low_zero(z, k);
        assert(pow10(k) * 0 == 0);
    } else {
        lemma_low_shift(d, z, k, (n - 1) as nat);
        lemma_pow10_adds(k, (n - 1) as nat);
        assert(at(z, k + n - 1) == at(d, n - 1));
        let x = at(d, n - 1);
        let p = pow10(k);
        let q = pow10((n - 1) as nat);
        let l = low(d, (n - 1) as nat);
        assert(p * l + x * (p * q) == p * (l + x * q)) by (nonlinear_arith);
    }
}

/// The number times ten to the `k`.
pub fn shifted(d: &Vec<u8>, k: u128) -> (r: Vec<u8>)
    requires
        all_digits(d@),
    ensures
        all_digits(r@),
        value(r@) == pow10(k as nat) * value(d@),
{
    let mut out: Vec<u8> = Vec::new();
    let mut z: u128 = 0;
    while z < k
        invariant
            z <= k,
            out@.len() == z,
            forall|j: int| 0 <= j < z ==> out@[j] == 0,
        decreases k - z,
    {
        out.push(0);
        z += 1;
    }
    let mut i: usize = 0;
    while i < d.len()
        invariant
            i <= d@.len(),
            out@.len() == k + i,
            all_digits(d@),
            forall|j: int| 0 <= j < k ==> out@[j] == 0,
            forall|j: int| k <= j < k + i ==> out@[j] == d@[j - k],
        decreases d@.len() - i,
    {
        out.push(d[i]);
        i += 1;
    }
    proof {
        lemma_low_shift(d@, out@, k as nat, d@.len());
    }
    out
}

/// A number is its last digit and ten times the rest.
pub proof fn lemma_low_head(d: Seq<u8>, n: nat)
    requires
        d.len() > 0,
    ensures
        low(d, n + 1) == d[0] + 10 * low(d.drop_first(), n),
    decreases n,
{
    if n == 0 {
        assert(pow10(0) == 1);
        assert(low(d, 1) == low(d, 0) + at(d, 0) * pow10(0));
        assert(low(d, 0) == 0);
    } else {
        lemma_low_head(d, (n - 1) as nat);
        assert(at(d, n as int) == at(d.drop_first(), n - 1));
        let x = at(d, n as int);
        let p = pow10((n - 1) as nat);
        assert(x * (10 * p) == 10 * (x * p)) by (nonlinear_arith);
    }
}

/// The number in decimal.
pub fn to_text(d: &Vec<u8>) -> (r: String)
    requires
        all_digits(d@),
    ensures
        r@ == text::dec(value(d@)),
{
    let mut out = String::new();
    let mut i: usize = d.len();
    let mut seen = false;
    assert(d@.skip(i as int) =~= Seq::<u8>::empty());
    while i > 0
        invariant
            i <= d@.len(),
            all_digits(d@),
            seen <==> value(d@.skip(i as int)) > 0,
            seen ==> out@ == text::dec(value(d@.skip(i as int))),
            !seen ==> out@.len() == 0,
        decreases i,
    {
        i -= 1;
        let x: u8 = d[i];
        proof {
            let s = d@.skip(i as int);
            assert(s.drop_first() =~= d@.skip(i + 1));
            lemma_low_head(s, (s.len() - 1) as nat);
        }
        if seen || x > 0 {
            let ghost before = out@;
            out.push(text::digit(x));
            proof {
                let v = value(d@.skip(i + 1));
                let w = value(d@.skip(i as int));
                assert(w == 10 * v + x);
                if !seen {
                    assert(before =~= Seq::<char>::empty());
                    assert(out@ =~= seq![text::digit_char(x as nat)]);
                }
            }
            seen = true;
        }
    }
    assert(d@.skip(0) =~= d@);
    if !seen {
        out.push('0');
        assert(out@ =~= text::dec(0));
    }
    out
}

/// The number times `m`.
pub fn times(d: &Vec<u8>, m: u64) -> (r: Vec<u8>)
    requires
        all_digits(d@),
    ensures
        all_digits(r@),
        value(r@) == value(d@) * m,
{
    let mut out: Vec<u8> = Vec::new();
    let mut carry: u128 = 0;
    let mut i: usize = 0;
    assert(0 * m == 0);
    while i < d.len()
        invariant
            i <= d@.len(),
            out@.len() == i,
            carry <= m,
            all_digits(d@),
            all_digits(out@),
            low(out@, i as nat) + carry * pow10(i as nat) == low(d@, i as nat) * m,
        decreases d@.len() - i,
    {
        let ghost c = carry as int;
        let x: u128 = d[i] as u128;
        assert(x * m <= 9 * m) by (nonlinear_arith)
            requires
                x <= 9,
        ;
        let t: u128 = x * m as u128 + carry;
        let ghost before = out@;
        out.push((t % 10) as u8);
        carry = t / 10;
        proof {
            lemma_low_same(before, out@, i as nat);
            let p = pow10(i as nat);
            let q = carry as int;
            let g = t as int % 10;
            let l = low(d@, i as nat);
            let xi = x as int;
            let mi = m as int;
            assert(g * p + q * (10 * p) == c * p + (xi * mi) * p) by (nonlinear_arith)
                requires
                    10 * q + g == xi * mi + c,
            ;
            assert((l + xi * p) * mi == l * mi + (xi * mi) * p) by (nonlinear_arith);
        }
        i += 1;
    }
    let ghost whole = value(d@) * m;
    while carry > 0
        invariant
            all_digits(out@),
            low(out@, out@.len()) + carry * pow10(out@.len()) == whole,
        decreases carry,
    {
        let ghost before = out@;
        let ghost c = carry as int;
        out.push((carry % 10) as u8);
        carry = carry / 10;
        proof {
            lemma_low_same(before, out@, before.len());
            let p = pow10(before.len());
            let q = carry as int;
            let g = c % 10;
            assert(g * p + q * (10 * p) == c * p) by (nonlinear_arith)
                requires
                    10 * q + g == c,
            ;
        }
    }
    assert(0 * pow10(out@.len()) == 0);
    out
}

pub open spec fn pow5(n: nat) -> nat
    decreases n,
{
    if n == 0 {
        1
    } else {
        5 * pow5((n - 1) as nat)
    }
}

}
