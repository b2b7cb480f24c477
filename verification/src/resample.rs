//! Linear-interpolation sample-rate conversion.
//!
//! A decoded signal is a sequence of signed 16-bit samples taken at
//! `source_rate` instants per second. Resampling evaluates the straight-line
//! interpolation between consecutive input samples at the evenly spaced
//! instants of `target_rate`, producing exactly enough output samples to span
//! the original duration. When the two rates are equal the input is returned
//! unchanged.

use vstd::prelude::*;
use vstd::arithmetic::div_mod::{
    lemma_fundamental_div_mod, lemma_fundamental_div_mod_converse, lemma_mod_bound,
    lemma_mod_multiples_basic, lemma_div_by_multiple, lemma_multiply_divide_lt,
    lemma_div_is_ordered, lemma_div_nonincreasing,
};
use vstd::arithmetic::mul::{
    lemma_mul_inequality, lemma_mul_is_distributive_add_other_way,
    lemma_mul_is_distributive_sub, lemma_mul_is_commutative,
};

verus! {

/// The sample rate the recognition engine was trained on, in Hertz.
pub const TARGET_SAMPLE_RATE: u32 = 16000;

/// The quotient `a / b` rounded up instead of down.
pub open spec fn ceil_div(a: int, b: int) -> int
    recommends
        a >= 0,
        b > 0,
{
    (a + b - 1) / b
}

/// The quotient `a / b` rounded to the nearest integer, halves up.
pub open spec fn round_div(a: int, b: int) -> int
    recommends
        a >= 0,
        b > 0,
{
    (2 * a + b) / (2 * b)
}

/// How many output samples span the duration of `n` input samples when
/// converting from `src` to `dst` instants per second: the count of target
/// instants `i` with `i * src / dst` strictly inside the input, rounded so
/// that the full duration `n / src` is covered.
pub open spec fn out_len(n: nat, src: nat, dst: nat) -> nat
    recommends
        src > 0,
{
    ceil_div((n * dst) as int, src as int) as nat
}

/// The straight line from `a` to `b`, evaluated at the fraction `num / den`
/// of the way, with the result rounded down. Written over the sample values
/// shifted into `0..=65535` so that the division rounds the same way for
/// negative samples as for positive ones.
pub open spec fn interp_value(a: i16, b: i16, num: int, den: int) -> int
    recommends
        0 <= num < den,
{
    ((a + 32768) * (den - num) + (b + 32768) * num) / den - 32768
}

/// The output sample at target instant `i`: its position in input samples is
/// `i * src / dst`; the two bracketing input samples are weighted by the
/// fractional part. On an input sample exactly, and past the last input
/// sample, no interpolation happens.
pub open spec fn sample_at(s: Seq<i16>, src: nat, dst: nat, i: nat) -> i16
    recommends
        src > 0,
        dst > 0,
        i < out_len(s.len(), src, dst),
{
    let pos = (i * src) as int;
    let j = pos / (dst as int);
    let num = pos % (dst as int);
    if num == 0 || j + 1 >= s.len() {
        s[j]
    } else {
        interp_value(s[j], s[j + 1], num, dst as int) as i16
    }
}

/// The whole resampled sequence.
pub open spec fn resampled(s: Seq<i16>, src: nat, dst: nat) -> Seq<i16>
    recommends
        src > 0,
        dst > 0,
{
    Seq::new(out_len(s.len(), src, dst), |i: int| sample_at(s, src, dst, i as nat))
}

/// Rounding up differs from rounding down by exactly the emptiness of the
/// remainder.
proof fn lemma_ceil_div(a: int, b: int)
    requires
        a >= 0,
        b > 0,
    ensures
        a % b == 0 ==> ceil_div(a, b) == a / b,
        a % b != 0 ==> ceil_div(a, b) == a / b + 1,
        ceil_div(a, b) >= 0,
{
    let q = a / b;
    let r = a % b;
    lemma_fundamental_div_mod(a, b);
    lemma_mod_bound(a, b);
    assert(b * q == q * b) by {
        lemma_mul_is_commutative(b, q);
    }
    if r == 0 {
        lemma_fundamental_div_mod_converse(a + b - 1, b, q, b - 1);
    } else {
        assert((q + 1) * b == q * b + 1 * b) by {
            lemma_mul_is_distributive_add_other_way(b, q, 1);
        }
        lemma_fundamental_div_mod_converse(a + b - 1, b, q + 1, r - 1);
    }
    assert(q >= 0) by {
        lemma_div_is_ordered(0, a, b);
    }
}

/// Every target instant `i` below the output length lies strictly inside the
/// input: `i * src < n * dst`, so its input position `i * src / dst` is a
/// valid input index.
proof fn lemma_pos_in_range(n: nat, src: nat, dst: nat, i: nat)
    requires
        src > 0,
        dst > 0,
        i < out_len(n, src, dst),
    ensures
        i * src < n * dst,
        (i * src) as int / (dst as int) < n,
{
    let a = (n * dst) as int;
    let l = ceil_div(a, src as int);
    lemma_ceil_div(a, src as int);
    lemma_fundamental_div_mod(a, src as int);
    lemma_mod_bound(a, src as int);
    // l * src <= a + src - 1, so (l - 1) * src <= a - 1 < a.
    assert(l * src <= a + src - 1) by {
        if a % (src as int) == 0 {
            assert((a / src as int) * src == src as int * (a / src as int)) by {
                lemma_mul_is_commutative(a / src as int, src as int);
            }
        } else {
            assert((a / src as int + 1) * src == (a / src as int) * src + 1 * src) by {
                lemma_mul_is_distributive_add_other_way(src as int, a / src as int, 1);
            }
            assert((a / src as int) * src == src as int * (a / src as int)) by {
                lemma_mul_is_commutative(a / src as int, src as int);
            }
        }
    }
    assert((l - 1) * src == l * src - 1 * src) by {
        lemma_mul_is_distributive_sub(src as int, l, 1);
        lemma_mul_is_commutative(src as int, l - 1);
        lemma_mul_is_commutative(src as int, l);
    }
    assert(i * src <= (l - 1) * src) by {
        lemma_mul_inequality(i as int, l - 1, src as int);
    }
    assert(i * src < n * dst);
    let p = (i * src) as int;
    let d = dst as int;
    let nn = n as int;
    assert(p / d < nn) by {
        assert(p < d * nn) by {
            lemma_mul_is_commutative(nn, d);
        }
        lemma_multiply_divide_lt(p, d, nn);
    }
}

/// The interpolated value stays between the two endpoints' shifted range, so
/// it always fits a signed 16-bit sample.
proof fn lemma_interp_value_bounds(a: i16, b: i16, num: int, den: int)
    requires
        0 <= num < den,
    ensures
        -32768 <= interp_value(a, b, num, den) <= 32767,
{
    let ua = a + 32768;
    let ub = b + 32768;
    let total = ua * (den - num) + ub * num;
    assert(total >= 0) by (nonlinear_arith)
        requires
            0 <= ua,
            0 <= ub,
            0 <= num < den,
            total == ua * (den - num) + ub * num,
    ;
    assert(total <= 65535 * den) by (nonlinear_arith)
        requires
            0 <= ua <= 65535,
            0 <= ub <= 65535,
            0 <= num < den,
            total == ua * (den - num) + ub * num,
    ;
    assert(total / den >= 0) by {
        lemma_div_is_ordered(0, total, den);
    }
    assert(total / den <= 65535) by {
        lemma_div_is_ordered(total, 65535 * den, den);
        lemma_div_by_multiple(65535, den);
    }
}

/// Resampling at the source rate itself changes nothing: every target
/// instant falls exactly on the input sample of the same index.
pub proof fn lemma_resample_identity(s: Seq<i16>, rate: nat)
    requires
        rate > 0,
    ensures
        resampled(s, rate, rate) == s,
{
    let n = s.len();
    let a = (n * rate) as int;
    assert(out_len(n, rate, rate) == n) by {
        lemma_mod_multiples_basic(n as int, rate as int);
        lemma_div_by_multiple(n as int, rate as int);
        lemma_ceil_div(a, rate as int);
    }
    assert forall|i: int| 0 <= i < n implies resampled(s, rate, rate)[i] == s[i] by {
        let pos = (i * rate) as int;
        lemma_mod_multiples_basic(i, rate as int);
        lemma_div_by_multiple(i, rate as int);
        assert(pos % (rate as int) == 0);
        assert(pos / (rate as int) == i);
    }
    assert(resampled(s, rate, rate) =~= s);
}

/// Linear interpolation of a constant sequence is that constant: every
/// output sample of a resampled all-`k` input equals `k`.
pub proof fn lemma_resample_constant(s: Seq<i16>, src: nat, dst: nat, k: i16)
    requires
        src > 0,
        dst > 0,
        forall|i: int| 0 <= i < s.len() ==> s[i] == k,
    ensures
        resampled(s, src, dst).len() == out_len(s.len(), src, dst),
        forall|i: int| 0 <= i < resampled(s, src, dst).len() ==> resampled(s, src, dst)[i] == k,
{
    let n = s.len();
    assert forall|i: int| 0 <= i < out_len(n, src, dst) implies resampled(s, src, dst)[i] == k by {
        lemma_pos_in_range(n, src, dst, i as nat);
        let pos = (i * src) as int;
        let j = pos / (dst as int);
        let num = pos % (dst as int);
        assert(0 <= j < n) by {
            lemma_div_is_ordered(0, pos, dst as int);
        }
        lemma_mod_bound(pos, dst as int);
        if !(num == 0 || j + 1 >= n) {
            let kk = k + 32768;
            assert(kk * (dst - num) + kk * num == kk * (dst as int)) by {
                lemma_mul_is_distributive_sub(kk, dst as int, num);
            }
            assert((kk * (dst as int)) / (dst as int) == kk) by {
                lemma_div_by_multiple(kk, dst as int);
            }
            assert(interp_value(k, k, num, dst as int) == k);
        }
    }
}

/// The output length is within one sample of `len * dst / src` rounded to
/// the nearest integer.
pub proof fn lemma_out_len_near_round(n: nat, src: nat, dst: nat)
    requires
        src > 0,
        dst > 0,
    ensures
        round_div((n * dst) as int, src as int)
            <= out_len(n, src, dst)
            <= round_div((n * dst) as int, src as int) + 1,
{
    let a = (n * dst) as int;
    let b = src as int;
    let q = a / b;
    let r = a % b;
    lemma_fundamental_div_mod(a, b);
    lemma_mod_bound(a, b);
    lemma_ceil_div(a, b);
    assert(2 * a + b == q * (2 * b) + (2 * r + b)) by {
        assert(2 * (b * q) == q * (2 * b)) by (nonlinear_arith);
    }
    if 2 * r < b {
        lemma_fundamental_div_mod_converse(2 * a + b, 2 * b, q, 2 * r + b);
    } else {
        assert(2 * a + b == (q + 1) * (2 * b) + (2 * r - b)) by {
            assert((q + 1) * (2 * b) == q * (2 * b) + 2 * b) by (nonlinear_arith);
        }
        lemma_fundamental_div_mod_converse(2 * a + b, 2 * b, q + 1, 2 * r - b);
    }
}

/// One interpolation step: the line from `a` to `b` evaluated `num/den` of
/// the way, over samples shifted into `0..=65535` so that all intermediate
/// arithmetic is nonnegative.
fn interp_exec(a: i16, b: i16, num: u64, den: u64) -> (r: i16)
    requires
        0 < num < den,
        den <= u32::MAX,
    ensures
        r as int == interp_value(a, b, num as int, den as int),
{
    proof {
        lemma_interp_value_bounds(a, b, num as int, den as int);
    }
    let ua: u64 = (a as i64 + 32768) as u64;
    let ub: u64 = (b as i64 + 32768) as u64;
    proof {
        assert(ua * (den - num) <= 65535 * 0xffff_ffffu64) by (nonlinear_arith)
            requires
                0 <= ua <= 65535,
                0 < den - num <= 0xffff_ffffu64,
        ;
        assert(ub * num <= 65535 * 0xffff_ffffu64) by (nonlinear_arith)
            requires
                0 <= ub <= 65535,
                0 < num <= 0xffff_ffffu64,
        ;
    }
    let total: u64 = ua * (den - num) + ub * num;
    proof {
        assert(total <= 65535 * den) by (nonlinear_arith)
            requires
                0 <= ua <= 65535,
                0 <= ub <= 65535,
                0 < num < den,
                total == ua * (den - num) + ub * num,
        ;
        assert(total / den <= 65535) by {
            lemma_div_is_ordered(total as int, 65535 * (den as int), den as int);
            lemma_div_by_multiple(65535, den as int);
        }
    }
    let q: u64 = total / den;
    (q as i64 - 32768) as i16
}

/// Convert `samples`, taken at `source_rate` instants per second, to the
/// sequence a `target_rate` sampling of the same signal would give, by
/// linear interpolation between neighbouring samples. Equal rates return the
/// samples unchanged.
pub fn resample(samples: &Vec<i16>, source_rate: u32, target_rate: u32) -> (r: Vec<i16>)
    requires
        source_rate > 0,
        target_rate > 0,
        samples@.len() * target_rate + source_rate <= usize::MAX,
    ensures
        r@ == resampled(samples@, source_rate as nat, target_rate as nat),
        r@.len() == out_len(samples@.len(), source_rate as nat, target_rate as nat),
        source_rate == target_rate ==> r@ == samples@,
{
    let n: usize = samples.len();
    if source_rate == target_rate {
        proof {
            lemma_resample_identity(samples@, source_rate as nat);
        }
        let mut out: Vec<i16> = Vec::new();
        let mut i: usize = 0;
        while i < n
            invariant
                i <= n,
                n == samples@.len(),
                out@ == samples@.take(i as int),
            decreases n - i,
        {
            out.push(samples[i]);
            proof {
                assert(out@ =~= samples@.take(i + 1 as int));
            }
            i = i + 1;
        }
        proof {
            assert(out@ =~= samples@);
        }
        return out;
    }

    let src64: u64 = source_rate as u64;
    let dst64: u64 = target_rate as u64;
    let ghost gsrc: nat = source_rate as nat;
    let ghost gdst: nat = target_rate as nat;
    proof {
        lemma_ceil_div((n * gdst) as int, gsrc as int);
        assert(out_len(n as nat, gsrc, gdst) <= n * gdst + gsrc - 1) by {
            lemma_div_nonincreasing((n * gdst) as int + gsrc - 1, gsrc as int);
        }
    }
    let out_n64: u64 = ((n as u64) * dst64 + src64 - 1) / src64;
    let out_n: usize = out_n64 as usize;
    proof {
        assert(out_n as nat == out_len(n as nat, gsrc, gdst));
    }
    let mut out: Vec<i16> = Vec::new();
    let mut i: usize = 0;
    while i < out_n
        invariant
            i <= out_n,
            n == samples@.len(),
            src64 == source_rate,
            dst64 == target_rate,
            gsrc == source_rate as nat,
            gdst == target_rate as nat,
            source_rate > 0,
            target_rate > 0,
            samples@.len() * target_rate + source_rate <= usize::MAX,
            out_n as nat == out_len(n as nat, gsrc, gdst),
            out@.len() == i as int,
            forall|k: int| 0 <= k < i ==> out@[k] == sample_at(samples@, gsrc, gdst, k as nat),
        decreases out_n - i,
    {
        proof {
            lemma_pos_in_range(n as nat, gsrc, gdst, i as nat);
            lemma_mod_bound((i * gsrc) as int, gdst as int);
            lemma_div_is_ordered(0, (i * gsrc) as int, gdst as int);
        }
        let pos: u64 = (i as u64) * src64;
        let j64: u64 = pos / dst64;
        let num: u64 = pos % dst64;
        let j: usize = j64 as usize;
        let a: i16 = samples[j];
        let val: i16 = if num == 0 {
            a
        } else if j + 1 >= n {
            a
        } else {
            let b: i16 = samples[j + 1];
            interp_exec(a, b, num, dst64)
        };
        proof {
            if !(num == 0 || j + 1 >= n) {
                lemma_interp_value_bounds(a, samples@[j + 1 as int], num as int, gdst as int);
            }
            assert(val == sample_at(samples@, gsrc, gdst, i as nat));
        }
        out.push(val);
        i = i + 1;
    }
    proof {
        assert(out@ =~= resampled(samples@, gsrc, gdst));
    }
    out
}

} // verus!
