//! Percentile estimation from a bucketed histogram.
use vstd::prelude::*;
use vstd::arithmetic::div_mod::lemma_fundamental_div_mod_converse;

verus! {

/// Fractions such as a percentile are written in parts per million.
pub const PPM: u64 = 1_000_000;

/// Sum of the first `i` counts.
pub open spec fn count_sum(counts: Seq<u64>, i: int) -> int
    decreases i,
{
    if i <= 0 {
        0
    } else {
        count_sum(counts, i - 1) + counts[i - 1]
    }
}

/// The first bucket at or after `i` whose cumulative count, in parts per
/// million, reaches `target`; `counts.len()` when none does.
pub open spec fn reaching_bucket(counts: Seq<u64>, target: int, i: nat) -> int
    decreases counts.len() - i,
{
    if i >= counts.len() {
        counts.len() as int
    } else if PPM * count_sum(counts, (i + 1) as int) >= target {
        i as int
    } else {
        reaching_bucket(counts, target, i + 1)
    }
}

/// Linear interpolation inside bucket `i` for the fraction `p` (parts per
/// million), rounded down. Bucket 0 starts at 0 and the unbounded last bucket
/// ends where it starts.
pub open spec fn interpolate(p: int, counts: Seq<u64>, bounds: Seq<u64>, i: int) -> int {
    let total = count_sum(counts, counts.len() as int);
    let prior = count_sum(counts, i);
    let lower: int = if i == 0 {
        0
    } else {
        bounds[i - 1] as int
    };
    let upper: int = if i == bounds.len() {
        bounds[i - 1] as int
    } else {
        bounds[i] as int
    };
    lower + (p * total - PPM * prior) * (upper - lower) / (PPM * counts[i])
}

/// The estimated value below which a fraction `p` (parts per million) of the
/// recorded values lies, or `None` when it is unavailable.
pub open spec fn percentile_of(p: int, counts: Seq<u64>, bounds: Seq<u64>) -> Option<int> {
    let total = count_sum(counts, counts.len() as int);
    if bounds.len() == 0 || counts.len() != bounds.len() + 1 || p > PPM || total > u64::MAX || total == 0 || p == 0 {
        None
    } else if p == PPM {
        Some(bounds.last() as int)
    } else {
        let i = reaching_bucket(counts, p * total, 0);
        if i < counts.len() {
            Some(interpolate(p, counts, bounds, i))
        } else {
            Some(bounds.last() as int)
        }
    }
}

proof fn lemma_count_sum_monotone(counts: Seq<u64>, i: int, j: int)
    requires
        0 <= i <= j,
    ensures
        count_sum(counts, i) <= count_sum(counts, j),
    decreases j - i,
{
    if i < j {
        lemma_count_sum_monotone(counts, i, j - 1);
    }
}

/// `floor(n * w / d)` and the remainder, for `n <= d`, without overflowing
/// 128 bits.
fn mul_div_floor(n: u128, w: u64, d: u128) -> (r: (u64, u128))
    requires
        0 < d <= 0x100_0000_0000_0000_0000_0000,
        n <= d,
    ensures
        r.0 == (n * w) / (d as int),
        r.1 == (n * w) % (d as int),
        r.0 <= w,
        r.0 == w ==> r.1 == 0,
{
    let k: u128 = 0x1_0000_0000;
    let wh: u128 = (w / 0x1_0000_0000) as u128;
    let wl: u128 = (w % 0x1_0000_0000) as u128;
    proof {
        assert(wh < 0x1_0000_0000);
        assert(wl < 0x1_0000_0000);
        assert(n * wh <= d * wh) by (nonlinear_arith)
            requires
                n <= d,
        ;
        assert(d * wh <= 0x100_0000_0000_0000_0000_0000 * 0x1_0000_0000) by (nonlinear_arith)
            requires
                d <= 0x100_0000_0000_0000_0000_0000,
                wh < 0x1_0000_0000,
        ;
        assert(n * wl <= 0x100_0000_0000_0000_0000_0000 * 0x1_0000_0000) by (nonlinear_arith)
            requires
                n <= 0x100_0000_0000_0000_0000_0000,
                wl < 0x1_0000_0000,
        ;
    }
    proof {
        assert(n * wh < 0x100_0000_0000_0000_0000_0000 * 0x1_0000_0000 + 1);
    }
    let a: u128 = n * wh;
    let qa: u128 = a / d;
    let ra: u128 = a % d;
    proof {
        assert(ra * k < 0x100_0000_0000_0000_0000_0000 * 0x1_0000_0000) by (nonlinear_arith)
            requires
                ra < d,
                d <= 0x100_0000_0000_0000_0000_0000,
                k == 0x1_0000_0000,
        ;
    }
    proof {
        assert(ra * k + n * wl < 0x100_0000_0000_0000_0000_0000 * 0x1_0000_0000 * 2 + 1);
    }
    let b: u128 = ra * k + n * wl;
    let qb: u128 = b / d;
    let rb: u128 = b % d;
    proof {
        vstd::arithmetic::div_mod::lemma_fundamental_div_mod(a as int, d as int);
        vstd::arithmetic::div_mod::lemma_fundamental_div_mod(b as int, d as int);
        assert(a == qa * d + ra) by (nonlinear_arith)
            requires
                a == d * qa + ra,
        ;
        assert(b == qb * d + rb) by (nonlinear_arith)
            requires
                b == d * qb + rb,
        ;
        assert(w == wh * k + wl);
        assert(n * w == (qa * k + qb) * d + rb) by (nonlinear_arith)
            requires
                a == n * wh,
                a == qa * d + ra,
                b == ra * k + n * wl,
                b == qb * d + rb,
                w == wh * k + wl,
        ;
        lemma_fundamental_div_mod_converse(n * w, d as int, qa * k + qb, rb as int);
        assert((qa * k + qb) * d <= w * d) by (nonlinear_arith)
            requires
                (qa * k + qb) * d + rb == n * w,
                n <= d,
                rb >= 0,
                w >= 0,
        ;
        assert(qa * k + qb <= w) by (nonlinear_arith)
            requires
                (qa * k + qb) * d <= w * d,
                d > 0,
        ;
        if qa * k + qb == w {
            assert(rb == 0) by (nonlinear_arith)
                requires
                    w * d + rb == n * w,
                    n <= d,
                    rb >= 0,
                    w >= 0,
            ;
        }
    }
    ((qa * k + qb) as u64, rb)
}

/// Estimates the `p`-th fraction (in parts per million) of a histogram whose
/// bucket 0 covers `[0, bounds[0])`, bucket `i` covers
/// `[bounds[i - 1], bounds[i])` and the last bucket is unbounded above.
/// The value is interpolated between the bucket's bounds and rounded down;
/// a bucket whose upper bound lies below its lower one is interpolated
/// downward. A malformed histogram (no boundaries, counts not one more than
/// the boundaries, a total beyond 64 bits), an empty one, or `p` outside
/// `(0, 1]` gives `None`.
pub fn percentile(p: u64, counts: &Vec<u64>, bounds: &Vec<u64>) -> (r: Option<u64>)
    ensures
        match percentile_of(p as int, counts@, bounds@) {
            Some(v) => r == Some(v as u64) && 0 <= v <= u64::MAX,
            None => r is None,
        },
{
    if bounds.len() == 0 || counts.len() == 0 || counts.len() - 1 != bounds.len() {
        return None;
    }
    if p > PPM {
        return None;
    }
    let mut total: u64 = 0;
    let mut j: usize = 0;
    while j < counts.len()
        invariant
            j <= counts.len(),
            total == count_sum(counts@, j as int),
        decreases counts.len() - j,
    {
        if counts[j] > u64::MAX - total {
            proof {
                lemma_count_sum_monotone(counts@, j + 1, counts@.len() as int);
            }
            return None;
        }
        total = total + counts[j];
        j = j + 1;
    }
    if total == 0 || p == 0 {
        return None;
    }
    let last: u64 = bounds[bounds.len() - 1];
    if p == PPM {
        return Some(last);
    }
    proof {
        assert(p * total <= PPM * u64::MAX) by (nonlinear_arith)
            requires
                p <= PPM,
                total <= u64::MAX,
        ;
    }
    let target: u128 = p as u128 * total as u128;
    let ghost tgt = p as int * total as int;
    proof {
        assert(tgt > 0) by (nonlinear_arith)
            requires
                tgt == p * total,
                p > 0,
                total > 0,
        ;
    }
    let mut cumulative: u64 = 0;
    let mut i: usize = 0;
    while i < counts.len()
        invariant
            i <= counts.len(),
            counts.len() == bounds.len() + 1,
            bounds.len() > 0,
            total == count_sum(counts@, counts@.len() as int),
            cumulative == count_sum(counts@, i as int),
            target == tgt,
            tgt == p * total,
            0 < p < PPM,
            total > 0,
            PPM * cumulative < target,
            reaching_bucket(counts@, tgt, 0) == reaching_bucket(counts@, tgt, i as nat),
            last == bounds@.last(),
        decreases counts.len() - i,
    {
        proof {
            lemma_count_sum_monotone(counts@, i + 1, counts@.len() as int);
        }
        let count: u64 = counts[i];
        let next: u64 = cumulative + count;
        if PPM as u128 * next as u128 >= target {
            let lower: u64 = if i == 0 {
                0
            } else {
                bounds[i - 1]
            };
            let upper: u64 = if i == bounds.len() {
                bounds[i - 1]
            } else {
                bounds[i]
            };
            let n: u128 = target - PPM as u128 * cumulative as u128;
            let d: u128 = PPM as u128 * count as u128;
            proof {
                assert(PPM * count <= PPM * 0x1_0000_0000_0000_0000) by (nonlinear_arith)
                    requires
                        count < 0x1_0000_0000_0000_0000,
                ;
                assert(d > 0) by (nonlinear_arith)
                    requires
                        d == PPM * count,
                        PPM * next >= target,
                        PPM * cumulative < target,
                        next == cumulative + count,
                ;
            }
            proof {
                assert(reaching_bucket(counts@, tgt, i as nat) == i);
            }
            if upper >= lower {
                let (frac, _) = mul_div_floor(n, upper - lower, d);
                return Some(lower + frac);
            } else {
                let a: u64 = lower - upper;
                let (q, rem) = mul_div_floor(n, a, d);
                let c: u64 = if rem > 0 {
                    q + 1
                } else {
                    q
                };
                proof {
                    let x = n * a;
                    vstd::arithmetic::div_mod::lemma_fundamental_div_mod(x, d as int);
                    assert(x == d * q + rem);
                    if rem > 0 {
                        assert(-x == (-(q as int) - 1) * d + (d - rem)) by (nonlinear_arith)
                            requires
                                x == d * q + rem,
                        ;
                        vstd::arithmetic::div_mod::lemma_fundamental_div_mod_converse(
                            -x,
                            d as int,
                            -(q as int) - 1,
                            d - rem,
                        );
                    } else {
                        assert(-x == (-(q as int)) * d + 0) by (nonlinear_arith)
                            requires
                                x == d * q + rem,
                                rem == 0,
                        ;
                        vstd::arithmetic::div_mod::lemma_fundamental_div_mod_converse(
                            -x,
                            d as int,
                            -(q as int),
                            0,
                        );
                    }
                    assert(n * (upper - lower) == -x) by (nonlinear_arith)
                        requires
                            x == n * a,
                            a == lower - upper,
                    ;
                }
                return Some(lower - c);
            }
        }
        proof {
            assert(reaching_bucket(counts@, tgt, i as nat) == reaching_bucket(
                counts@,
                tgt,
                (i + 1) as nat,
            ));
        }
        cumulative = next;
        i = i + 1;
    }
    Some(last)
}

} // verus!
