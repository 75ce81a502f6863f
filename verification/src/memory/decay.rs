//! Exact exponential decay.
//!
//! A relationship of strength `s` under an exponential policy of rate `r`
//! keeps the fraction `(1 - r/100)^(e/100)` of its strength after `e` percent
//! of its lifetime. The decayed strength is that real number rounded to the
//! nearest integer, halves rounded up. Raising both sides to the 100th power
//! keeps everything in integers: the integer `k` is reached exactly when
//! `(2k - 1)^100 * 100^e <= (2s)^100 * (100 - r)^e`. The comparison is done on
//! arbitrary-precision unsigned integers held as little-endian 32-bit limbs.
use vstd::arithmetic::power::pow;
use vstd::prelude::*;

verus! {

/// The base of one limb.
pub open spec fn limb_base() -> int {
    0x1_0000_0000
}

/// The number that a little-endian sequence of limbs denotes.
pub open spec fn limbs_value(s: Seq<u32>) -> int
    decreases s.len(),
{
    if s.len() == 0 {
        0
    } else {
        limbs_value(s.drop_last()) + s.last() * pow(limb_base(), (s.len() - 1) as nat)
    }
}

/// The limb at `i`, or zero past the end.
pub open spec fn limb_at(s: Seq<u32>, i: int) -> int {
    if 0 <= i < s.len() {
        s[i] as int
    } else {
        0
    }
}

/// The number denoted by the first `n` limbs, reading missing limbs as zero.
pub open spec fn limbs_value_upto(s: Seq<u32>, n: nat) -> int
    decreases n,
{
    if n == 0 {
        0
    } else {
        limbs_value_upto(s, (n - 1) as nat) + limb_at(s, n - 1) * pow(limb_base(), (n - 1) as nat)
    }
}

proof fn lemma_pow_base_step(i: nat)
    ensures
        pow(limb_base(), i + 1) == limb_base() * pow(limb_base(), i),
        pow(limb_base(), i) > 0,
{
    reveal(pow);
    vstd::arithmetic::power::lemma_pow_positive(limb_base(), i);
    assert(pow(limb_base(), i + 1) == limb_base() * pow(limb_base(), ((i + 1) - 1) as nat));
}

proof fn lemma_upto_matches_value(s: Seq<u32>, n: nat)
    requires
        n <= s.len(),
    ensures
        limbs_value_upto(s, n) == limbs_value(s.take(n as int)),
    decreases n,
{
    if n > 0 {
        lemma_upto_matches_value(s, (n - 1) as nat);
        assert(s.take(n as int).drop_last() =~= s.take(n - 1));
    }
}

proof fn lemma_upto_past_end(s: Seq<u32>, n: nat)
    requires
        n >= s.len(),
    ensures
        limbs_value_upto(s, n) == limbs_value_upto(s, s.len()),
    decreases n,
{
    if n > s.len() {
        lemma_upto_past_end(s, (n - 1) as nat);
    }
}

proof fn lemma_upto_bounds(s: Seq<u32>, n: nat)
    ensures
        0 <= limbs_value_upto(s, n) < pow(limb_base(), n),
    decreases n,
{
    if n == 0 {
        reveal(pow);
        assert(pow(limb_base(), 0) == 1);
    } else {
        let m = (n - 1) as nat;
        lemma_upto_bounds(s, m);
        lemma_pow_base_step(m);
        let p = pow(limb_base(), m);
        let low = limbs_value_upto(s, m);
        let d = limb_at(s, m as int);
        assert(0 <= d < limb_base());
        assert(0 <= low + d * p < limb_base() * p) by (nonlinear_arith)
            requires
                0 <= low < p,
                0 <= d < limb_base(),
                p > 0,
        ;
    }
}

proof fn lemma_value_is_upto(s: Seq<u32>)
    ensures
        limbs_value(s) == limbs_value_upto(s, s.len()),
{
    lemma_upto_matches_value(s, s.len());
    assert(s.take(s.len() as int) =~= s);
}

/// The product of a number and one limb.
fn mul_limb(a: &Vec<u32>, m: u32) -> (r: Vec<u32>)
    ensures
        limbs_value(r@) == limbs_value(a@) * m,
{
    let mut r: Vec<u32> = Vec::new();
    let mut carry: u64 = 0;
    let mut i: usize = 0;
    while i < a.len()
        invariant
            i <= a@.len(),
            r@.len() == i,
            carry < limb_base(),
            limbs_value(r@) + carry * pow(limb_base(), i as nat) == limbs_value(a@.take(i as int))
                * m,
        decreases a@.len() - i,
    {
        let ai = a[i];
        assert((ai as int) * (m as int) <= 0xffff_ffff * 0xffff_ffff) by (nonlinear_arith)
            requires
                ai <= 0xffff_ffff,
                m <= 0xffff_ffff,
        ;
        let prod: u64 = (ai as u64) * (m as u64) + carry;
        let lo: u32 = (prod % 0x1_0000_0000) as u32;
        let hi: u64 = prod / 0x1_0000_0000;
        proof {
            let p = pow(limb_base(), i as nat);
            lemma_pow_base_step(i as nat);
            assert(a@.take(i + 1).drop_last() =~= a@.take(i as int));
            assert(a@.take(i + 1).last() == ai);
            assert(r@.push(lo).drop_last() =~= r@);
            let va = limbs_value(a@.take(i as int));
            let vr = limbs_value(r@);
            assert(prod == lo + hi * limb_base());
            assert(vr + lo * p + hi * (limb_base() * p) == (va + ai * p) * m) by (nonlinear_arith)
                requires
                    vr + carry * p == va * m,
                    prod == lo + hi * limb_base(),
                    prod == ai * m + carry,
            ;
        }
        r.push(lo);
        carry = hi;
        i = i + 1;
    }
    assert(a@.take(a@.len() as int) =~= a@);
    let top: u32 = carry as u32;
    proof {
        assert(r@.push(top).drop_last() =~= r@);
    }
    r.push(top);
    r
}

/// Whether `a` denotes a number no greater than `b`.
fn limbs_le(a: &Vec<u32>, b: &Vec<u32>) -> (r: bool)
    ensures
        r == (limbs_value(a@) <= limbs_value(b@)),
{
    let n: usize = if a.len() >= b.len() {
        a.len()
    } else {
        b.len()
    };
    proof {
        lemma_value_is_upto(a@);
        lemma_value_is_upto(b@);
        lemma_upto_past_end(a@, n as nat);
        lemma_upto_past_end(b@, n as nat);
    }
    let mut j: usize = n;
    while j > 0
        invariant
            j <= n,
            n == a@.len() || n == b@.len(),
            a@.len() <= n,
            b@.len() <= n,
            limbs_value(a@) == limbs_value_upto(a@, n as nat),
            limbs_value(b@) == limbs_value_upto(b@, n as nat),
            limbs_value_upto(a@, n as nat) - limbs_value_upto(a@, j as nat) == limbs_value_upto(
                b@,
                n as nat,
            ) - limbs_value_upto(b@, j as nat),
        decreases j,
    {
        let k = j - 1;
        let x: u32 = if k < a.len() {
            a[k]
        } else {
            0
        };
        let y: u32 = if k < b.len() {
            b[k]
        } else {
            0
        };
        proof {
            assert(x == limb_at(a@, k as int));
            assert(y == limb_at(b@, k as int));
        }
        if x != y {
            proof {
                let p = pow(limb_base(), k as nat);
                lemma_upto_bounds(a@, k as nat);
                lemma_upto_bounds(b@, k as nat);
                lemma_pow_base_step(k as nat);
                let la = limbs_value_upto(a@, k as nat);
                let lb = limbs_value_upto(b@, k as nat);
                let h = limbs_value_upto(a@, n as nat) - limbs_value_upto(a@, j as nat);
                assert(limbs_value_upto(a@, j as nat) == la + x * p);
                assert(limbs_value_upto(b@, j as nat) == lb + y * p);
                if x < y {
                    assert(la + x * p < lb + y * p) by (nonlinear_arith)
                        requires
                            0 <= la < p,
                            0 <= lb < p,
                            x < y,
                    ;
                } else {
                    assert(la + x * p > lb + y * p) by (nonlinear_arith)
                        requires
                            0 <= la < p,
                            0 <= lb < p,
                            x > y,
                    ;
                }
            }
            return x < y;
        }
        j = k;
    }
    true
}

/// The number one.
fn limbs_one() -> (r: Vec<u32>)
    ensures
        limbs_value(r@) == 1,
{
    let mut r: Vec<u32> = Vec::new();
    r.push(1);
    proof {
        assert(r@.drop_last() =~= Seq::<u32>::empty());
        assert(limbs_value(r@.drop_last()) == 0);
        reveal(pow);
        assert(pow(limb_base(), 0) == 1);
        assert(r@.last() == 1);
    }
    r
}

/// `acc * m^count`.
fn mul_power(acc: Vec<u32>, m: u32, count: u32) -> (r: Vec<u32>)
    ensures
        limbs_value(r@) == limbs_value(acc@) * pow(m as int, count as nat),
{
    let mut r = acc;
    let mut i: u32 = 0;
    proof {
        reveal(pow);
    }
    while i < count
        invariant
            i <= count,
            limbs_value(r@) == limbs_value(acc@) * pow(m as int, i as nat),
        decreases count - i,
    {
        let next = mul_limb(&r, m);
        proof {
            let v = limbs_value(acc@);
            let p = pow(m as int, i as nat);
            reveal(pow);
            assert(pow(m as int, (i + 1) as nat) == m * pow(m as int, ((i + 1) - 1) as nat));
            assert(v * p * m == v * (m * p)) by (nonlinear_arith);
        }
        r = next;
        i = i + 1;
    }
    r
}

/// Whether the rounded decayed value reaches `k`: `k - 1/2` does not exceed
/// `s * (1 - r/100)^(e/100)`.
pub open spec fn decay_step_reached(k: nat, s: nat, r: nat, e: nat) -> bool {
    pow(2 * k - 1, 100) * pow(100, e) <= pow((2 * s) as int, 100) * pow(100 - r, e)
}

/// How many of the integers `1..=k` the rounded decayed value reaches.
pub open spec fn decay_steps(k: nat, s: nat, r: nat, e: nat) -> nat
    decreases k,
{
    if k == 0 {
        0
    } else {
        decay_steps((k - 1) as nat, s, r, e) + if decay_step_reached(k, s, r, e) {
            1nat
        } else {
            0nat
        }
    }
}

/// The strength `s` decayed exponentially at rate `r` after `e` percent of
/// the lifetime: `s * (1 - r/100)^(e/100)` rounded to the nearest integer,
/// halves rounded up.
pub open spec fn exponential_decay_spec(s: nat, r: nat, e: nat) -> nat {
    decay_steps(s, s, r, e)
}

proof fn lemma_decay_steps_bound(k: nat, s: nat, r: nat, e: nat)
    ensures
        decay_steps(k, s, r, e) <= k,
    decreases k,
{
    if k > 0 {
        lemma_decay_steps_bound((k - 1) as nat, s, r, e);
    }
}

/// Exponential decay of `strength` at `rate` after `elapsed_percent` of the
/// lifetime.
pub fn exponential_decay(strength: u8, rate: u8, elapsed_percent: u8) -> (r: u8)
    requires
        strength <= 100,
        rate <= 100,
        elapsed_percent <= 100,
    ensures
        r == exponential_decay_spec(strength as nat, rate as nat, elapsed_percent as nat),
        r <= strength,
{
    let budget = mul_power(limbs_one(), 2 * (strength as u32), 100);
    let budget = mul_power(budget, 100 - (rate as u32), elapsed_percent as u32);
    let mut count: u8 = 0;
    let mut k: u8 = 1;
    while k <= strength
        invariant
            1 <= k <= strength + 1,
            strength <= 100,
            rate <= 100,
            elapsed_percent <= 100,
            limbs_value(budget@) == pow(2 * strength as int, 100) * pow(100 - rate, elapsed_percent as nat),
            count == decay_steps((k - 1) as nat, strength as nat, rate as nat, elapsed_percent as nat),
        decreases strength + 1 - k,
    {
        let step = mul_power(limbs_one(), 2 * (k as u32) - 1, 100);
        let step = mul_power(step, 100, elapsed_percent as u32);
        proof {
            lemma_decay_steps_bound((k - 1) as nat, strength as nat, rate as nat, elapsed_percent as nat);
        }
        if limbs_le(&step, &budget) {
            count = count + 1;
        }
        k = k + 1;
    }
    proof {
        lemma_decay_steps_bound(strength as nat, strength as nat, rate as nat, elapsed_percent as nat);
    }
    count
}

proof fn lemma_pow_nonnegative(b: int, e: nat)
    requires
        b >= 0,
    ensures
        pow(b, e) >= 0,
    decreases e,
{
    reveal(pow);
    if e > 0 {
        lemma_pow_nonnegative(b, (e - 1) as nat);
        let p = pow(b, (e - 1) as nat);
        assert(b * p >= 0) by (nonlinear_arith)
            requires
                b >= 0,
                p >= 0,
        ;
    }
}

/// A rounded value reached after a longer share of the lifetime is reached
/// after any shorter one.
proof fn lemma_step_reached_earlier(k: nat, s: nat, r: nat, e1: nat, e2: nat)
    requires
        k >= 1,
        r <= 100,
        e1 <= e2,
        decay_step_reached(k, s, r, e2),
    ensures
        decay_step_reached(k, s, r, e1),
    decreases e2 - e1,
{
    if e1 < e2 {
        let e = (e2 - 1) as nat;
        let a = pow(2 * k - 1, 100);
        let b = pow((2 * s) as int, 100);
        let p = pow(100, e);
        let q = pow(100 - r, e);
        reveal(pow);
        assert(pow(100, e2) == 100 * p);
        assert(pow(100 - r, e2) == (100 - r) * q);
        lemma_pow_nonnegative(2 * k - 1, 100);
        lemma_pow_nonnegative((2 * s) as int, 100);
        lemma_pow_nonnegative(100 - r, e);
        let d = 100 - r;
        assert(a * p <= b * q) by (nonlinear_arith)
            requires
                a * (100 * p) <= b * (d * q),
                a >= 0,
                b >= 0,
                q >= 0,
                0 <= d <= 100,
        {
            assert(b * (d * q) <= b * (100 * q));
            assert(a * (100 * p) == 100 * (a * p));
            assert(b * (100 * q) == 100 * (b * q));
        }
        lemma_step_reached_earlier(k, s, r, e1, e);
    }
}

proof fn lemma_decay_steps_antitone(k: nat, s: nat, r: nat, e1: nat, e2: nat)
    requires
        r <= 100,
        e1 <= e2,
    ensures
        decay_steps(k, s, r, e2) <= decay_steps(k, s, r, e1),
    decreases k,
{
    if k > 0 {
        lemma_decay_steps_antitone((k - 1) as nat, s, r, e1, e2);
        if decay_step_reached(k, s, r, e2) {
            lemma_step_reached_earlier(k, s, r, e1, e2);
        }
    }
}

/// Exponential decay never raises a strength, and decays further as more
/// of the lifetime elapses.
pub proof fn lemma_exponential_decay_antitone(s: nat, r: nat, e1: nat, e2: nat)
    requires
        r <= 100,
        e1 <= e2,
    ensures
        exponential_decay_spec(s, r, e2) <= exponential_decay_spec(s, r, e1),
        exponential_decay_spec(s, r, e1) <= s,
{
    lemma_decay_steps_antitone(s, s, r, e1, e2);
    lemma_decay_steps_bound(s, s, r, e1);
}

proof fn lemma_pow_base_monotone(x: int, y: int, n: nat)
    requires
        0 <= x <= y,
    ensures
        pow(x, n) <= pow(y, n),
    decreases n,
{
    reveal(pow);
    if n > 0 {
        lemma_pow_base_monotone(x, y, (n - 1) as nat);
        lemma_pow_nonnegative(x, (n - 1) as nat);
        let a = pow(x, (n - 1) as nat);
        let b = pow(y, (n - 1) as nat);
        assert(x * a <= y * b) by (nonlinear_arith)
            requires
                0 <= x <= y,
                0 <= a <= b,
        ;
    }
}

proof fn lemma_steps_without_elapse(k: nat, s: nat, r: nat)
    requires
        k <= s,
    ensures
        decay_steps(k, s, r, 0) == k,
    decreases k,
{
    if k > 0 {
        lemma_steps_without_elapse((k - 1) as nat, s, r);
        reveal(pow);
        assert(pow(100, 0) == 1 && pow(100 - r, 0) == 1);
        lemma_pow_base_monotone(2 * k - 1, (2 * s) as int, 100);
    }
}

/// Before any of the lifetime has elapsed, exponential decay leaves the
/// strength as it is.
pub proof fn lemma_exponential_decay_at_start(s: nat, r: nat)
    ensures
        exponential_decay_spec(s, r, 0) == s,
{
    lemma_steps_without_elapse(s, s, r);
}

/// A rounded value reached at a higher rate is reached at any lower rate.
proof fn lemma_step_reached_at_lower_rate(k: nat, s: nat, r1: nat, r2: nat, e: nat)
    requires
        k >= 1,
        r1 <= r2 <= 100,
        decay_step_reached(k, s, r2, e),
    ensures
        decay_step_reached(k, s, r1, e),
{
    let a = pow(2 * k - 1, 100);
    let b = pow((2 * s) as int, 100);
    let p = pow(100, e);
    let q1 = pow(100 - r1, e);
    let q2 = pow(100 - r2, e);
    lemma_pow_base_monotone(100 - r2, 100 - r1, e);
    lemma_pow_nonnegative((2 * s) as int, 100);
    assert(b * q2 <= b * q1) by (nonlinear_arith)
        requires
            b >= 0,
            q2 <= q1,
    ;
}

proof fn lemma_decay_steps_rate_antitone(k: nat, s: nat, r1: nat, r2: nat, e: nat)
    requires
        r1 <= r2 <= 100,
    ensures
        decay_steps(k, s, r2, e) <= decay_steps(k, s, r1, e),
    decreases k,
{
    if k > 0 {
        lemma_decay_steps_rate_antitone((k - 1) as nat, s, r1, r2, e);
        if decay_step_reached(k, s, r2, e) {
            lemma_step_reached_at_lower_rate(k, s, r1, r2, e);
        }
    }
}

proof fn lemma_steps_without_rate(k: nat, s: nat, e: nat)
    requires
        k <= s,
    ensures
        decay_steps(k, s, 0, e) == k,
    decreases k,
{
    if k > 0 {
        lemma_steps_without_rate((k - 1) as nat, s, e);
        lemma_pow_base_monotone(2 * k - 1, (2 * s) as int, 100);
        lemma_pow_nonnegative(100, e);
        let a = pow(2 * k - 1, 100);
        let b = pow((2 * s) as int, 100);
        let p = pow(100, e);
        assert(a * p <= b * p) by (nonlinear_arith)
            requires
                a <= b,
                p >= 0,
        ;
    }
}

/// A higher rate of exponential decay never leaves more strength than a
/// lower one, and a rate of 0 leaves the strength whole.
pub proof fn lemma_exponential_decay_by_rate(s: nat, r1: nat, r2: nat, e: nat)
    requires
        r1 <= r2 <= 100,
    ensures
        exponential_decay_spec(s, r2, e) <= exponential_decay_spec(s, r1, e),
        exponential_decay_spec(s, 0, e) == s,
{
    lemma_decay_steps_rate_antitone(s, s, r1, r2, e);
    lemma_steps_without_rate(s, s, e);
}

proof fn lemma_steps_at_full_rate(k: nat, s: nat, e: nat)
    requires
        e >= 1,
    ensures
        decay_steps(k, s, 100, e) == 0,
    decreases k,
{
    if k > 0 {
        lemma_steps_at_full_rate((k - 1) as nat, s, e);
        vstd::arithmetic::power::lemma_pow_positive(2 * k - 1, 100);
        vstd::arithmetic::power::lemma_pow_positive(100, e);
        reveal(pow);
        assert(pow(0, e) == 0 * pow(0, (e - 1) as nat));
        let a = pow(2 * k - 1, 100);
        let p = pow(100, e);
        assert(a * p > 0) by (nonlinear_arith)
            requires
                a > 0,
                p > 0,
        ;
        let b = pow((2 * s) as int, 100);
        let z = pow(100 - 100nat, e);
        assert(z == 0);
        assert(b * z == 0);
        assert(!decay_step_reached(k, s, 100, e));
    }
}

/// Exponential decay at the full rate leaves nothing once any of the
/// lifetime has elapsed.
pub proof fn lemma_exponential_decay_at_full_rate(s: nat, e: nat)
    requires
        e >= 1,
    ensures
        exponential_decay_spec(s, 100, e) == 0,
{
    lemma_steps_at_full_rate(s, s, e);
}

} // verus!
