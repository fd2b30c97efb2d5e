//! Fractal wave generator.
//!
//! Given the current pot, a lower baseline and an upper boundary, the
//! generator draws a target bound (the probability of each bound is
//! proportional to the remaining distance toward the *other* bound), builds a
//! five-piece driving wave from golden-ratio coefficients, and recursively
//! subdivides each piece three times into either another driving wave or a
//! three-piece adjustment wave, chosen by a coin flip.  The signed deltas are
//! then accumulated from the starting pot into absolute pot levels.
//!
//! All arithmetic is fixed point: golden-ratio coefficients are carried in
//! thousandths (so `1.309` is the integer `1309`), and every subdivision
//! distributes the parent length exactly, so a finished wave always ends
//! exactly on the drawn target bound.

use vstd::prelude::*;
use vstd::arithmetic::div_mod::{
    lemma_div_is_ordered, lemma_div_is_ordered_by_denominator, lemma_div_multiples_vanish,
    lemma_fundamental_div_mod,
};
use vstd::math::abs;
use crate::rng::rng_in_range;

verus! {

/// Largest magnitude a signed delta is ever allowed to reach (2^90); far above
/// any value reachable from `u64` bounds, far below what `i128` can hold.
const MAG_CAP: i128 = 0x40000000000000000000000;

/// Largest magnitude of a running prefix sum of wave coefficients.
const PREFIX_ABS_MAX: i64 = 4854;

/// Smallest possible signed total of a wave's coefficients (an adjustment
/// wave's two smallest gains against its largest pullback, in thousandths).
const TOTAL_MIN: i64 = 829;

/// Sum of a sequence of signed deltas.
pub open spec fn sum_i(s: Seq<i128>) -> int
    decreases s.len(),
{
    if s.len() == 0 {
        0
    } else {
        sum_i(s.drop_last()) + s.last()
    }
}

proof fn lemma_sum_take_step(s: Seq<i128>, k: int)
    requires
        0 <= k < s.len(),
    ensures
        sum_i(s.take(k + 1)) == sum_i(s.take(k)) + s[k],
{
    assert(s.take(k + 1).drop_last() =~= s.take(k));
    assert(s.take(k + 1).last() == s[k]);
}

proof fn lemma_sum_concat(a: Seq<i128>, b: Seq<i128>)
    ensures
        sum_i(a + b) == sum_i(a) + sum_i(b),
    decreases b.len(),
{
    if b.len() == 0 {
        assert(a + b =~= a);
    } else {
        lemma_sum_concat(a, b.drop_last());
        assert((a + b).drop_last() =~= a + b.drop_last());
        assert((a + b).last() == b.last());
    }
}

/// Sign-adjusted `(p * l) / t`, truncating toward zero: the absolute level a
/// coefficient prefix `p` reaches when distributing a length `l` over a wave
/// whose coefficients total `t`.
pub open spec fn scaled(p: int, l: int, t: int) -> int {
    let m = (abs(p) * abs(l)) as int / t;
    if (p < 0) != (l < 0) {
        -m
    } else {
        m
    }
}

proof fn lemma_div_le_num(x: int, d: int)
    requires
        0 <= x,
        1 <= d,
    ensures
        0 <= x / d <= x,
{
    lemma_fundamental_div_mod(x, d);
    lemma_div_is_ordered(0, x, d);
    assert(0int / d == 0) by {
        lemma_div_multiples_vanish(0, d);
    }
    assert(x / d <= x) by (nonlinear_arith)
        requires
            x == d * (x / d) + (x % d),
            0 <= x % d,
            1 <= d,
            0 <= x / d,
    ;
}

/// The scaled level of any admissible prefix is at most six times the length
/// being distributed.
proof fn lemma_scaled_abs(p: int, l: int, t: int)
    requires
        -PREFIX_ABS_MAX <= p <= PREFIX_ABS_MAX,
        TOTAL_MIN <= t,
    ensures
        abs(scaled(p, l, t)) <= 6 * abs(l),
{
    let pa: int = abs(p) as int;
    let la: int = abs(l) as int;
    let m: int = (pa * la) / t;
    assert(0 <= pa * la) by (nonlinear_arith)
        requires
            0 <= pa,
            0 <= la,
    ;
    lemma_div_le_num(pa * la, t);
    assert(pa * la <= 4854 * la) by (nonlinear_arith)
        requires
            0 <= pa <= 4854,
            0 <= la,
    ;
    lemma_div_is_ordered(pa * la, 4854 * la, t);
    assert(0 <= 4854 * la) by (nonlinear_arith)
        requires
            0 <= la,
    ;
    lemma_div_is_ordered_by_denominator(4854 * la, 829, t);
    assert(4854 * la <= 829 * (6 * la)) by (nonlinear_arith)
        requires
            0 <= la,
    ;
    lemma_div_is_ordered(4854 * la, 829 * (6 * la), 829);
    lemma_div_multiples_vanish(6 * la, 829);
    assert(m <= 6 * la);
    assert(abs(scaled(p, l, t)) == m);
}

/// Exact fixed-point scaling: sign-adjusted `(p * len) / tot`.
fn mul_div(p: i64, len: i128, tot: i64) -> (r: i128)
    requires
        1 <= tot <= PREFIX_ABS_MAX,
        -PREFIX_ABS_MAX <= p <= PREFIX_ABS_MAX,
        -MAG_CAP <= len <= MAG_CAP,
    ensures
        r == scaled(p as int, len as int, tot as int),
{
    let pabs: u128 = if p < 0 {
        (-(p as i128)) as u128
    } else {
        p as u128
    };
    let labs: u128 = if len < 0 {
        (-len) as u128
    } else {
        len as u128
    };
    proof {
        assert(pabs == abs(p as int));
        assert(labs == abs(len as int));
        assert(pabs * labs <= 4854 * (MAG_CAP as int)) by (nonlinear_arith)
            requires
                0 <= pabs <= 4854,
                0 <= labs <= MAG_CAP as int,
        ;
        lemma_div_le_num((pabs * labs) as int, tot as int);
    }
    let m: u128 = (pabs * labs) / (tot as u128);
    let neg: bool = (p < 0) != (len < 0);
    if neg {
        -(m as i128)
    } else {
        m as i128
    }
}

/// A coefficient from the driving "more" set `{1.0, 1.309, 1.618}` (also the
/// adjustment "more" set, which holds the same values), in thousandths.
fn pick_more(rng: &mut rand::rngs::StdRng) -> (c: i64)
    ensures
        c == 1000 || c == 1309 || c == 1618,
{
    let k: u64 = rng_in_range(rng, 0, 2);
    if k == 0 {
        1000
    } else if k == 1 {
        1309
    } else {
        1618
    }
}

/// A coefficient from the driving "less" set `{0.382, 0.5, 0.618, 0.764}`, in
/// thousandths, weighted as in the pullback table: `0.382` twice, the other
/// three values three times each.
fn pick_less(rng: &mut rand::rngs::StdRng) -> (c: i64)
    ensures
        c == 382 || c == 500 || c == 618 || c == 764,
{
    let k: u64 = rng_in_range(rng, 0, 10);
    if k <= 1 {
        382
    } else if k <= 4 {
        500
    } else if k <= 7 {
        618
    } else {
        764
    }
}

/// A coefficient from the adjustment "less" set `{0.618, 0.764, 1.0, 1.171}`,
/// in thousandths, weighted as in the adjustment pullback table: `1.171` once,
/// `0.618` twice, the other two values three times each.
fn pick_adjust_less(rng: &mut rand::rngs::StdRng) -> (c: i64)
    ensures
        c == 618 || c == 764 || c == 1000 || c == 1171,
{
    let k: u64 = rng_in_range(rng, 0, 8);
    if k <= 1 {
        618
    } else if k <= 4 {
        764
    } else if k <= 7 {
        1000
    } else {
        1171
    }
}

/// Split a length into five signed pieces of a driving wave: gains drawn from
/// the "more" set on the odd positions, pullbacks from the "less" set negated
/// on the even positions, the whole normalized so the pieces sum exactly to
/// `len`.
#[verifier::rlimit(30)]
fn split_driving(len: i128, rng: &mut rand::rngs::StdRng) -> (r: Vec<i128>)
    requires
        -MAG_CAP <= len <= MAG_CAP,
    ensures
        r@.len() == 5,
        sum_i(r@) == len,
        forall|i: int| 0 <= i < r@.len() ==> abs(#[trigger] r@[i] as int) <= 12 * abs(len as int),
        len >= 0 ==> r@[0] >= 0,
        len <= 0 ==> r@[0] <= 0,
{
    let m0: i64 = pick_more(rng);
    let l1: i64 = pick_less(rng);
    let m2: i64 = pick_more(rng);
    let l3: i64 = pick_less(rng);
    let m4: i64 = pick_more(rng);
    let p1: i64 = m0;
    let p2: i64 = p1 - l1;
    let p3: i64 = p2 + m2;
    let p4: i64 = p3 - l3;
    let tot: i64 = p4 + m4;
    let c1: i128 = mul_div(p1, len, tot);
    let c2: i128 = mul_div(p2, len, tot);
    let c3: i128 = mul_div(p3, len, tot);
    let c4: i128 = mul_div(p4, len, tot);
    proof {
        lemma_scaled_abs(p1 as int, len as int, tot as int);
        lemma_scaled_abs(p2 as int, len as int, tot as int);
        lemma_scaled_abs(p3 as int, len as int, tot as int);
        lemma_scaled_abs(p4 as int, len as int, tot as int);
    }
    let d1: i128 = c1;
    let d2: i128 = c2 - c1;
    let d3: i128 = c3 - c2;
    let d4: i128 = c4 - c3;
    let d5: i128 = len - c4;
    let mut r: Vec<i128> = Vec::new();
    r.push(d1);
    r.push(d2);
    r.push(d3);
    r.push(d4);
    r.push(d5);
    proof {
        let s5 = seq![d1, d2, d3, d4, d5];
        assert(r@ =~= s5);
        let s4 = seq![d1, d2, d3, d4];
        let s3 = seq![d1, d2, d3];
        let s2 = seq![d1, d2];
        let s1 = seq![d1];
        assert(s5.drop_last() =~= s4);
        assert(s4.drop_last() =~= s3);
        assert(s3.drop_last() =~= s2);
        assert(s2.drop_last() =~= s1);
        assert(s1.drop_last() =~= Seq::<i128>::empty());
        assert(sum_i(Seq::<i128>::empty()) == 0);
        assert(sum_i(s1) == d1);
        assert(sum_i(s2) == d1 + d2);
        assert(sum_i(s3) == d1 + d2 + d3);
        assert(sum_i(s4) == d1 + d2 + d3 + d4);
        assert(sum_i(s5) == d1 + d2 + d3 + d4 + d5);
    }
    r
}

/// Split a length into three signed pieces of an adjustment wave: gains from
/// the adjustment "more" set on the outer positions, one pullback from the
/// adjustment "less" set negated in the middle, summing exactly to `len`.
#[verifier::rlimit(30)]
fn split_adjust(len: i128, rng: &mut rand::rngs::StdRng) -> (r: Vec<i128>)
    requires
        -MAG_CAP <= len <= MAG_CAP,
    ensures
        r@.len() == 3,
        sum_i(r@) == len,
        forall|i: int| 0 <= i < r@.len() ==> abs(#[trigger] r@[i] as int) <= 12 * abs(len as int),
        len >= 0 ==> r@[0] >= 0,
        len <= 0 ==> r@[0] <= 0,
{
    let m0: i64 = pick_more(rng);
    let l1: i64 = pick_adjust_less(rng);
    let m2: i64 = pick_more(rng);
    let p1: i64 = m0;
    let p2: i64 = p1 - l1;
    let tot: i64 = p2 + m2;
    let c1: i128 = mul_div(p1, len, tot);
    let c2: i128 = mul_div(p2, len, tot);
    proof {
        lemma_scaled_abs(p1 as int, len as int, tot as int);
        lemma_scaled_abs(p2 as int, len as int, tot as int);
    }
    let d1: i128 = c1;
    let d2: i128 = c2 - c1;
    let d3: i128 = len - c2;
    let mut r: Vec<i128> = Vec::new();
    r.push(d1);
    r.push(d2);
    r.push(d3);
    proof {
        let s3 = seq![d1, d2, d3];
        assert(r@ =~= s3);
        let s2 = seq![d1, d2];
        let s1 = seq![d1];
        assert(s3.drop_last() =~= s2);
        assert(s2.drop_last() =~= s1);
        assert(s1.drop_last() =~= Seq::<i128>::empty());
        assert(sum_i(Seq::<i128>::empty()) == 0);
        assert(sum_i(s1) == d1);
        assert(sum_i(s2) == d1 + d2);
        assert(sum_i(s3) == d1 + d2 + d3);
    }
    r
}

/// `3^l`: the fewest pieces a piece becomes across `l` subdivision levels.
pub open spec fn pow3(l: nat) -> int
    decreases l,
{
    if l == 0 {
        1
    } else {
        3 * pow3((l - 1) as nat)
    }
}

/// `5^l`: the most pieces a piece becomes across `l` subdivision levels.
pub open spec fn pow5(l: nat) -> int
    decreases l,
{
    if l == 0 {
        1
    } else {
        5 * pow5((l - 1) as nat)
    }
}

/// `12^l`: how much a piece's magnitude can grow across `l` subdivision levels.
pub open spec fn pow12(l: nat) -> int
    decreases l,
{
    if l == 0 {
        1
    } else {
        12 * pow12((l - 1) as nat)
    }
}

proof fn lemma_pow_pos(l: nat)
    ensures
        pow3(l) >= 1,
        pow5(l) >= pow3(l),
        pow12(l) >= 1,
    decreases l,
{
    if l > 0 {
        lemma_pow_pos((l - 1) as nat);
        assert(pow5(l) >= pow3(l)) by (nonlinear_arith)
            requires
                pow5(l) == 5 * pow5((l - 1) as nat),
                pow3(l) == 3 * pow3((l - 1) as nat),
                pow5((l - 1) as nat) >= pow3((l - 1) as nat) >= 1,
        ;
    }
}

/// Recursively subdivide every piece `level` more times, flipping a coin per
/// piece between a five-piece driving wave and a three-piece adjustment wave.
/// Subdivision preserves the exact sum of the pieces.
fn expand(lens: Vec<i128>, level: u32, rng: &mut rand::rngs::StdRng) -> (r: Vec<i128>)
    requires
        level <= 3,
        forall|i: int|
            0 <= i < lens@.len() ==> abs(#[trigger] lens@[i] as int) * pow12(level as nat)
                <= MAG_CAP as int,
    ensures
        sum_i(r@) == sum_i(lens@),
        lens@.len() * pow3(level as nat) <= r@.len() <= lens@.len() * pow5(level as nat),
        forall|i: int| 0 <= i < r@.len() ==> abs(#[trigger] r@[i] as int) <= MAG_CAP as int,
        lens@.len() > 0 && lens@[0] >= 0 ==> r@.len() > 0 && r@[0] >= 0,
        lens@.len() > 0 && lens@[0] <= 0 ==> r@.len() > 0 && r@[0] <= 0,
    decreases level,
{
    if level == 0 {
        proof {
            assert(pow3(0nat) == 1);
            assert(pow5(0nat) == 1);
            assert(pow12(0nat) == 1);
        }
        return lens;
    }
    let mut out: Vec<i128> = Vec::new();
    let mut k: usize = 0;
    proof {
        assert(lens@.take(0) =~= Seq::<i128>::empty());
    }
    while k < lens.len()
        invariant
            1 <= level <= 3,
            k <= lens@.len(),
            sum_i(out@) == sum_i(lens@.take(k as int)),
            3 * k <= out@.len() <= 5 * k,
            forall|i: int|
                0 <= i < lens@.len() ==> abs(#[trigger] lens@[i] as int) * pow12(level as nat)
                    <= MAG_CAP as int,
            forall|i: int|
                0 <= i < out@.len() ==> abs(#[trigger] out@[i] as int) * pow12(
                    (level - 1) as nat,
                ) <= MAG_CAP as int,
            k > 0 && lens@[0] >= 0 ==> out@.len() > 0 && out@[0] >= 0,
            k > 0 && lens@[0] <= 0 ==> out@.len() > 0 && out@[0] <= 0,
        decreases lens@.len() - k,
    {
        let piece: i128 = lens[k];
        proof {
            lemma_pow_pos(level as nat);
            assert(abs(piece as int) <= MAG_CAP as int) by (nonlinear_arith)
                requires
                    abs(piece as int) * pow12(level as nat) <= MAG_CAP as int,
                    pow12(level as nat) >= 1,
                    abs(piece as int) >= 0,
            ;
        }
        let flip: u64 = rng_in_range(rng, 0, 1);
        let mut sub: Vec<i128> = if flip == 0 {
            split_driving(piece, rng)
        } else {
            split_adjust(piece, rng)
        };
        proof {
            lemma_sum_take_step(lens@, k as int);
            lemma_sum_concat(out@, sub@);
            assert(pow12(level as nat) == 12 * pow12((level - 1) as nat));
            assert forall|i: int| 0 <= i < sub@.len() implies abs(#[trigger] sub@[i] as int)
                * pow12((level - 1) as nat) <= MAG_CAP as int by {
                assert(abs(sub@[i] as int) <= 12 * abs(piece as int));
                assert(abs(sub@[i] as int) * pow12((level - 1) as nat) <= MAG_CAP as int)
                    by (nonlinear_arith)
                    requires
                        abs(sub@[i] as int) <= 12 * abs(piece as int),
                        abs(piece as int) * (12 * pow12((level - 1) as nat)) <= MAG_CAP as int,
                        pow12((level - 1) as nat) >= 1,
                        abs(sub@[i] as int) >= 0,
                        abs(piece as int) >= 0,
                ;
            }
        }
        out.append(&mut sub);
        k += 1;
    }
    proof {
        assert(lens@.take(k as int) =~= lens@);
    }
    let ghost n: int = lens@.len() as int;
    let ghost outn: int = out@.len() as int;
    let r: Vec<i128> = expand(out, level - 1, rng);
    proof {
        lemma_pow_pos((level - 1) as nat);
        assert(pow3(level as nat) == 3 * pow3((level - 1) as nat));
        assert(pow5(level as nat) == 5 * pow5((level - 1) as nat));
        assert(n * pow3(level as nat) <= r@.len()) by (nonlinear_arith)
            requires
                r@.len() >= outn * pow3((level - 1) as nat),
                outn >= 3 * n,
                pow3(level as nat) == 3 * pow3((level - 1) as nat),
                pow3((level - 1) as nat) >= 1,
                n >= 0,
        ;
        assert(r@.len() <= n * pow5(level as nat)) by (nonlinear_arith)
            requires
                r@.len() <= outn * pow5((level - 1) as nat),
                outn <= 5 * n,
                pow5(level as nat) == 5 * pow5((level - 1) as nat),
                pow5((level - 1) as nat) >= 1,
                n >= 0,
        ;
    }
    r
}

/// What accumulating a level into the pot's integer unit yields: values are
/// clamped into `u64`'s range.
pub open spec fn clamp_spec(x: int) -> int {
    if x < 0 {
        0
    } else if x > u64::MAX {
        u64::MAX as int
    } else {
        x
    }
}

fn clamp_u64(x: i128) -> (r: u64)
    ensures
        r as int == clamp_spec(x as int),
{
    if x < 0 {
        0
    } else if x > u64::MAX as i128 {
        u64::MAX
    } else {
        x as u64
    }
}

/// Span the full fractal wave from `from` to `to`: one driving wave, three
/// levels of subdivision, then a running cumulative sum of the signed deltas
/// turned into absolute levels.  The final level is exactly `to`.
fn span_wave(from: u64, to: u64, rng: &mut rand::rngs::StdRng) -> (r: Vec<u64>)
    ensures
        135 <= r@.len() <= 625,
        r@[r@.len() - 1] == to,
        to >= from ==> r@[0] >= from,
        to <= from ==> r@[0] <= from,
{
    let len: i128 = (to as i128) - (from as i128);
    let first: Vec<i128> = split_driving(len, rng);
    proof {
        assert(pow12(3nat) == 1728) by {
            assert(pow12(0nat) == 1);
            assert(pow12(1nat) == 12);
            assert(pow12(2nat) == 144);
        }
        assert(pow3(3nat) == 27) by {
            assert(pow3(0nat) == 1);
            assert(pow3(1nat) == 3);
            assert(pow3(2nat) == 9);
        }
        assert(pow5(3nat) == 125) by {
            assert(pow5(0nat) == 1);
            assert(pow5(1nat) == 5);
            assert(pow5(2nat) == 25);
        }
        assert(abs(len as int) <= 0x10000000000000000);
        assert forall|i: int| 0 <= i < first@.len() implies abs(#[trigger] first@[i] as int)
            * pow12(3nat) <= MAG_CAP as int by {
            assert(abs(first@[i] as int) <= 12 * abs(len as int));
            assert(abs(first@[i] as int) * 1728 <= MAG_CAP as int) by (nonlinear_arith)
                requires
                    abs(first@[i] as int) <= 12 * 0x10000000000000000,
                    abs(first@[i] as int) >= 0,
            ;
        }
    }
    let deltas: Vec<i128> = expand(first, 3, rng);
    let mut out: Vec<u64> = Vec::new();
    let mut acc: i128 = from as i128;
    let mut k: usize = 0;
    proof {
        assert(deltas@.take(0) =~= Seq::<i128>::empty());
    }
    while k < deltas.len()
        invariant
            k <= deltas@.len(),
            135 <= deltas@.len() <= 625,
            out@.len() == k,
            from <= u64::MAX,
            acc == from + sum_i(deltas@.take(k as int)),
            -((MAG_CAP as int) * (k as int)) <= acc - from <= (MAG_CAP as int) * (k as int),
            sum_i(deltas@) == (to as int) - (from as int),
            forall|i: int|
                0 <= i < deltas@.len() ==> abs(#[trigger] deltas@[i] as int) <= MAG_CAP as int,
            k > 0 ==> out@[k - 1] as int == clamp_spec(from + sum_i(deltas@.take(k as int))),
            k > 0 ==> out@[0] as int == clamp_spec(from + deltas@[0]),
        decreases deltas@.len() - k,
    {
        let d: i128 = deltas[k];
        proof {
            lemma_sum_take_step(deltas@, k as int);
            assert(abs(d as int) <= MAG_CAP as int);
            assert((MAG_CAP as int) * (k as int) <= (MAG_CAP as int) * 625) by (nonlinear_arith)
                requires
                    0 <= (k as int) <= 625,
                    (MAG_CAP as int) >= 0,
            ;
            assert((MAG_CAP as int) * ((k as int) + 1) == (MAG_CAP as int) * (k as int)
                + (MAG_CAP as int)) by (nonlinear_arith);
        }
        acc = acc + d;
        out.push(clamp_u64(acc));
        k += 1;
    }
    proof {
        assert(deltas@.take(k as int) =~= deltas@);
        assert(out@[out@.len() - 1] as int == clamp_spec(to as int));
        assert(clamp_spec(to as int) == to as int);
        assert(sum_i(deltas@.take(1)) == deltas@[0]) by {
            assert(deltas@.take(1).drop_last() =~= deltas@.take(0));
            assert(deltas@.take(0) =~= Seq::<i128>::empty());
        }
    }
    out
}

/// Build a wave from the current pot: draw the target bound with probability
/// proportional to the distance left toward the other bound, then span the
/// fractal wave toward it.  The wave always ends exactly on the drawn bound;
/// a pot at or above the boundary can only be driven down to the baseline.
pub fn create_wave(pot: u64, baseline: u64, boundary: u64, rng: &mut rand::rngs::StdRng) -> (r: Vec<
    u64,
>)
    requires
        baseline <= pot,
        baseline < pot || pot < boundary,
    ensures
        135 <= r@.len() <= 625,
        r@[r@.len() - 1] == baseline || r@[r@.len() - 1] == boundary,
        pot >= boundary ==> r@[r@.len() - 1] == baseline,
        pot <= baseline ==> r@[r@.len() - 1] == boundary,
        (r@[r@.len() - 1] == boundary && r@[0] >= pot) || (r@[r@.len() - 1] == baseline && r@[0]
            <= pot),
{
    let down: u64 = pot - baseline;
    let up: u64 = if pot >= boundary {
        0
    } else {
        boundary - pot
    };
    let rand: u64 = rng_in_range(rng, 0, down + up - 1);
    if rand < up {
        span_wave(pot, boundary, rng)
    } else {
        span_wave(pot, baseline, rng)
    }
}

/// Pop the front of the wave queue into a fresh `(near, far)` segment anchored
/// at the current pot; an empty queue yields a segment falling to zero.
pub fn create_segment(waves: &mut Vec<u64>, pot: u64) -> (r: (u64, u64))
    ensures
        old(waves)@.len() > 0 ==> r == (pot, old(waves)@[0]) && final(waves)@ == old(waves)@.remove(0),
        old(waves)@.len() == 0 ==> r == (pot, 0u64) && final(waves)@ == old(waves)@,
{
    if waves.len() > 0 {
        let w: u64 = waves.remove(0);
        (pot, w)
    } else {
        (pot, 0)
    }
}

} // verus!
