//! Human-readable numbers: SI and IEC sizes, compound durations, fixed-point
//! decimals.
use vstd::prelude::*;

verus! {

/// The character of a decimal digit.
pub open spec fn digit_char(d: nat) -> char {
    if d == 0 {
        '0'
    } else if d == 1 {
        '1'
    } else if d == 2 {
        '2'
    } else if d == 3 {
        '3'
    } else if d == 4 {
        '4'
    } else if d == 5 {
        '5'
    } else if d == 6 {
        '6'
    } else if d == 7 {
        '7'
    } else if d == 8 {
        '8'
    } else {
        '9'
    }
}

/// The decimal notation of `n`, without leading zeros.
pub open spec fn decimal(n: nat) -> Seq<char>
    decreases n,
{
    if n < 10 {
        seq![digit_char(n)]
    } else {
        decimal(n / 10) + seq![digit_char(n % 10)]
    }
}

/// The last `width` decimal digits of `n`, padded with leading zeros.
pub open spec fn padded(n: nat, width: nat) -> Seq<char>
    decreases width,
{
    if width == 0 {
        Seq::empty()
    } else {
        padded(n / 10, (width - 1) as nat) + seq![digit_char(n % 10)]
    }
}

pub open spec fn pow(base: nat, e: nat) -> nat
    decreases e,
{
    if e == 0 {
        1
    } else {
        base * pow(base, (e - 1) as nat)
    }
}

/// `x / 10^places` written with exactly `places` digits after the point.
pub open spec fn fixed(x: nat, places: nat) -> Seq<char> {
    if places == 0 {
        decimal(x)
    } else {
        decimal(x / pow(10, places)) + seq!['.'] + padded(x % pow(10, places), places)
    }
}

/// `n / d` rounded to the nearest integer, ties to the even one.
pub open spec fn div_round_even(n: nat, d: nat) -> nat {
    let q = n / d;
    let r = n % d;
    if 2 * r > d || (2 * r == d && q % 2 == 1) {
        q + 1
    } else {
        q
    }
}

/// How many times a size is divided by `base` before it drops below `base`,
/// at most four.
pub open spec fn unit_index(v: nat, base: nat) -> nat {
    if v >= pow(base, 4) {
        4
    } else if v >= pow(base, 3) {
        3
    } else if v >= pow(base, 2) {
        2
    } else if v >= base {
        1
    } else {
        0
    }
}

pub open spec fn si_unit(k: nat) -> Seq<char> {
    if k == 0 {
        seq![]
    } else if k == 1 {
        seq!['K']
    } else if k == 2 {
        seq!['M']
    } else if k == 3 {
        seq!['G']
    } else {
        seq!['T']
    }
}

pub open spec fn iec_unit(k: nat) -> Seq<char> {
    if k == 0 {
        seq!['B']
    } else if k == 1 {
        seq!['K', 'i', 'B']
    } else if k == 2 {
        seq!['M', 'i', 'B']
    } else if k == 3 {
        seq!['G', 'i', 'B']
    } else {
        seq!['T', 'i', 'B']
    }
}

/// A count in thousands-based units with no decimals: `1500` is `2K`.
pub open spec fn si_text(v: nat) -> Seq<char> {
    let k = unit_index(v, 1000);
    decimal(div_round_even(v, pow(1000, k))) + si_unit(k)
}

/// A byte size in 1024-based units with two decimals: `1536` is `1.50KiB`.
pub open spec fn iec_text(v: nat) -> Seq<char> {
    let k = unit_index(v, 1024);
    fixed(div_round_even(v * 100, pow(1024, k)), 2) + iec_unit(k)
}

/// Seconds as days, hours, minutes and seconds. Leading zero units are left
/// out; once a unit is shown every smaller one follows, and seconds are
/// always shown: `3661` is `1h1m1s`, `60` is `1m0s`, `0` is `0s`.
pub open spec fn duration_text(secs: nat) -> Seq<char> {
    let mins = secs / 60;
    let hours = mins / 60;
    let days = hours / 24;
    let s = decimal(secs % 60) + seq!['s'];
    let m = decimal(mins % 60) + seq!['m'];
    let h = decimal(hours % 24) + seq!['h'];
    if days > 0 {
        decimal(days) + seq!['d'] + h + m + s
    } else if hours > 0 {
        h + m + s
    } else if mins > 0 {
        m + s
    } else {
        s
    }
}

/// The 1-based place of the first non-zero digit of a fraction of a second
/// given in nanoseconds (`0 < f < 10^9`).
pub open spec fn leading_place(f: nat) -> nat {
    if f >= 100_000_000 {
        1
    } else if f >= 10_000_000 {
        2
    } else if f >= 1_000_000 {
        3
    } else if f >= 100_000 {
        4
    } else if f >= 10_000 {
        5
    } else if f >= 1_000 {
        6
    } else if f >= 100 {
        7
    } else if f >= 10 {
        8
    } else {
        9
    }
}

/// Decimals shown for a duration of `nanos` nanoseconds: three when its
/// fractional second is at least a tenth, none when it is whole, else up to
/// its first significant digit.
pub open spec fn duration_places(nanos: nat) -> nat {
    let f = nanos % 1_000_000_000;
    if f >= 100_000_000 {
        3
    } else if f == 0 {
        0
    } else {
        leading_place(f)
    }
}

/// A duration in seconds with as many decimals as `duration_places` says,
/// rounded to nearest with ties to even: `1_234_567_890` ns is `1.235s`.
pub open spec fn seconds_text(nanos: nat) -> Seq<char> {
    let p = duration_places(nanos);
    fixed(div_round_even(nanos, pow(10, (9 - p) as nat)), p) + seq!['s']
}

/// A percentage given in hundredths of a percent: `10000` is `100.00%`.
pub open spec fn percent_text(hundredths: nat) -> Seq<char> {
    fixed(hundredths, 2) + seq!['%']
}

fn digit_str(d: u64) -> (r: &'static str)
    requires
        d < 10,
    ensures
        r@ == seq![digit_char(d as nat)],
{
    proof {
        reveal_strlit("0");
        reveal_strlit("1");
        reveal_strlit("2");
        reveal_strlit("3");
        reveal_strlit("4");
        reveal_strlit("5");
        reveal_strlit("6");
        reveal_strlit("7");
        reveal_strlit("8");
        reveal_strlit("9");
    }
    if d == 0 {
        "0"
    } else if d == 1 {
        "1"
    } else if d == 2 {
        "2"
    } else if d == 3 {
        "3"
    } else if d == 4 {
        "4"
    } else if d == 5 {
        "5"
    } else if d == 6 {
        "6"
    } else if d == 7 {
        "7"
    } else if d == 8 {
        "8"
    } else {
        "9"
    }
}

/// Appends the decimal notation of `n`.
pub fn push_decimal(s: &mut String, n: u64)
    ensures
        final(s)@ == old(s)@ + decimal(n as nat),
    decreases n,
{
    if n >= 10 {
        push_decimal(s, n / 10);
    }
    s.append(digit_str(n % 10));
    proof {
        if n >= 10 {
            assert(old(s)@ + decimal(n as nat) =~= old(s)@ + decimal((n / 10) as nat) + seq![
                digit_char((n % 10) as nat),
            ]);
        }
    }
}

/// Appends the last `width` digits of `n`, zero-padded.
fn push_padded(s: &mut String, n: u64, width: u64)
    ensures
        final(s)@ == old(s)@ + padded(n as nat, width as nat),
    decreases width,
{
    if width > 0 {
        push_padded(s, n / 10, width - 1);
        s.append(digit_str(n % 10));
        proof {
            assert(old(s)@ + padded(n as nat, width as nat) =~= old(s)@ + padded(
                (n / 10) as nat,
                (width - 1) as nat,
            ) + seq![digit_char((n % 10) as nat)]);
        }
    }
}

/// `10^places` for the small place counts used here.
fn pow10(places: u64) -> (r: u64)
    requires
        places <= 19,
    ensures
        r == pow(10, places as nat),
{
    let mut r: u64 = 1;
    let mut i: u64 = 0;
    while i < places
        invariant
            i <= places <= 19,
            r == pow(10, i as nat),
        decreases places - i,
    {
        proof {
            lemma_pow_bound(10, i as nat, 19);
        }
        r = r * 10;
        i = i + 1;
    }
    r
}

proof fn lemma_pow_positive(base: nat, e: nat)
    requires
        base > 0,
    ensures
        pow(base, e) > 0,
    decreases e,
{
    if e > 0 {
        lemma_pow_positive(base, (e - 1) as nat);
        assert(base * pow(base, (e - 1) as nat) > 0) by (nonlinear_arith)
            requires
                base > 0,
                pow(base, (e - 1) as nat) > 0,
        ;
    }
}

proof fn lemma_pow_monotone(base: nat, e: nat, f: nat)
    requires
        base > 0,
        e <= f,
    ensures
        pow(base, e) <= pow(base, f),
    decreases f,
{
    if e < f {
        lemma_pow_monotone(base, e, (f - 1) as nat);
        lemma_pow_positive(base, (f - 1) as nat);
        assert(pow(base, (f - 1) as nat) <= base * pow(base, (f - 1) as nat)) by (nonlinear_arith)
            requires
                base > 0,
        ;
    }
}

proof fn lemma_pow_bound(base: nat, i: nat, max: nat)
    requires
        base == 10,
        i < max,
        max <= 19,
    ensures
        pow(base, i) * 10 <= u64::MAX,
{
    lemma_pow_monotone(10, i, 18);
    reveal_with_fuel(pow, 19);
    assert(pow(10, 18) == 1_000_000_000_000_000_000);
}

/// Appends `x / 10^places` with exactly `places` digits after the point.
pub fn push_fixed(s: &mut String, x: u64, places: u64)
    requires
        places <= 19,
    ensures
        final(s)@ == old(s)@ + fixed(x as nat, places as nat),
{
    if places == 0 {
        push_decimal(s, x);
    } else {
        let p = pow10(places);
        proof {
            lemma_pow_positive(10, places as nat);
        }
        push_decimal(s, x / p);
        s.append(".");
        push_padded(s, x % p, places);
        proof {
            reveal_strlit(".");
            assert(old(s)@ + fixed(x as nat, places as nat) =~= old(s)@ + decimal((x / p) as nat)
                + seq!['.'] + padded((x % p) as nat, places as nat));
        }
    }
}

/// `n / d` rounded to nearest, ties to even.
pub fn round_div_even(n: u128, d: u128) -> (r: u128)
    requires
        d > 0,
    ensures
        r == div_round_even(n as nat, d as nat),
        r <= (n as int) / (d as int) + 1,
{
    let q = n / d;
    let rem = n % d;
    if rem > d - rem || (rem == d - rem && q % 2 == 1) {
        proof {
            assert(d >= 2);
            vstd::arithmetic::div_mod::lemma_div_is_ordered_by_denominator(n as int, 2, d as int);
        }
        q + 1
    } else {
        q
    }
}

/// A count in thousands-based units, as the progress display shows it.
pub fn format_si(size: &u64) -> (r: String)
    ensures
        r@ == si_text(*size as nat),
{
    let v = *size;
    proof {
        reveal_with_fuel(pow, 5);
    }
    let (k, d): (u64, u64) = if v >= 1_000_000_000_000 {
        (4, 1_000_000_000_000)
    } else if v >= 1_000_000_000 {
        (3, 1_000_000_000)
    } else if v >= 1_000_000 {
        (2, 1_000_000)
    } else if v >= 1_000 {
        (1, 1_000)
    } else {
        (0, 1)
    };
    let x = round_div_even(v as u128, d as u128);
    proof {
        assert(k == unit_index(v as nat, 1000));
        assert(d == pow(1000, k as nat));
        assert(v / d <= v) by {
            vstd::arithmetic::div_mod::lemma_div_is_ordered_by_denominator(v as int, 1, d as int);
        }
    }
    let mut s = String::new();
    push_decimal(&mut s, x as u64);
    proof {
        reveal_strlit("");
        reveal_strlit("K");
        reveal_strlit("M");
        reveal_strlit("G");
        reveal_strlit("T");
    }
    let unit: &str = if k == 0 {
        ""
    } else if k == 1 {
        "K"
    } else if k == 2 {
        "M"
    } else if k == 3 {
        "G"
    } else {
        "T"
    };
    s.append(unit);
    s
}

/// A byte size in 1024-based units with two decimals.
pub fn format_iec(size: &u64) -> (r: String)
    ensures
        r@ == iec_text(*size as nat),
{
    let v = *size;
    proof {
        reveal_with_fuel(pow, 5);
    }
    let (k, d): (u64, u64) = if v >= 1_099_511_627_776 {
        (4, 1_099_511_627_776)
    } else if v >= 1_073_741_824 {
        (3, 1_073_741_824)
    } else if v >= 1_048_576 {
        (2, 1_048_576)
    } else if v >= 1_024 {
        (1, 1_024)
    } else {
        (0, 1)
    };
    let x = round_div_even(v as u128 * 100, d as u128);
    proof {
        assert(k == unit_index(v as nat, 1024));
        assert(d == pow(1024, k as nat));
        if k == 4 {
            assert((v as int * 100) / (d as int) <= (u64::MAX as int * 100) / 1_099_511_627_776) by {
                vstd::arithmetic::div_mod::lemma_div_is_ordered(
                    v * 100,
                    u64::MAX as int * 100,
                    d as int,
                );
            }
        } else {
            assert((v as int * 100) / (d as int) <= v * 100) by {
                vstd::arithmetic::div_mod::lemma_div_is_ordered_by_denominator(
                    v * 100,
                    1,
                    d as int,
                );
            }
        }
    }
    let mut s = String::new();
    push_fixed(&mut s, x as u64, 2);
    proof {
        reveal_strlit("B");
        reveal_strlit("KiB");
        reveal_strlit("MiB");
        reveal_strlit("GiB");
        reveal_strlit("TiB");
    }
    let unit: &str = if k == 0 {
        "B"
    } else if k == 1 {
        "KiB"
    } else if k == 2 {
        "MiB"
    } else if k == 3 {
        "GiB"
    } else {
        "TiB"
    };
    s.append(unit);
    s
}

/// Seconds as compound `d`/`h`/`m`/`s` text.
pub fn format_duration(secs: &u64) -> (r: String)
    ensures
        r@ == duration_text(*secs as nat),
{
    let secs = *secs;
    let mins = secs / 60;
    let hours = mins / 60;
    let days = hours / 24;
    let mut s = String::new();
    proof {
        reveal_strlit("d");
        reveal_strlit("h");
        reveal_strlit("m");
        reveal_strlit("s");
    }
    if days > 0 {
        push_decimal(&mut s, days);
        s.append("d");
    }
    if hours > 0 {
        push_decimal(&mut s, hours % 24);
        s.append("h");
    }
    if mins > 0 {
        push_decimal(&mut s, mins % 60);
        s.append("m");
    }
    push_decimal(&mut s, secs % 60);
    s.append("s");
    proof {
        if hours > 0 && days == 0 {
            assert(hours % 24 == hours);
        }
        if mins > 0 && hours == 0 {
            assert(mins % 60 == mins);
        }
        if mins == 0 {
            assert(secs % 60 == secs);
        }
        assert(s@ =~= duration_text(secs as nat));
    }
    s
}

/// A percentage given in hundredths of a percent, with two decimals.
pub fn format_percent(hundredths: &u64) -> (r: String)
    ensures
        r@ == percent_text(*hundredths as nat),
{
    let mut s = String::new();
    push_fixed(&mut s, *hundredths, 2);
    proof {
        reveal_strlit("%");
    }
    s.append("%");
    s
}

/// A duration given in nanoseconds, in seconds with as many decimals as its
/// first significant fractional digit needs (three at most once the
/// fraction reaches a tenth).
pub fn format_dynamic_precision(nanos: &u64) -> (r: String)
    ensures
        r@ == seconds_text(*nanos as nat),
{
    let v = *nanos;
    let f = v % 1_000_000_000;
    let places: u64 = if f >= 100_000_000 {
        3
    } else if f == 0 {
        0
    } else if f >= 10_000_000 {
        2
    } else if f >= 1_000_000 {
        3
    } else if f >= 100_000 {
        4
    } else if f >= 10_000 {
        5
    } else if f >= 1_000 {
        6
    } else if f >= 100 {
        7
    } else if f >= 10 {
        8
    } else {
        9
    };
    let d = pow10(9 - places);
    proof {
        lemma_pow_positive(10, (9 - places) as nat);
        assert((v as int) / (d as int) <= v) by {
            vstd::arithmetic::div_mod::lemma_div_is_ordered_by_denominator(v as int, 1, d as int);
        }
    }
    let x = round_div_even(v as u128, d as u128);
    proof {
        if d == 1 {
            assert(x == v);
        } else {
            vstd::arithmetic::div_mod::lemma_div_is_ordered_by_denominator(v as int, 2, d as int);
        }
    }
    let mut s = String::new();
    push_fixed(&mut s, x as u64, places);
    proof {
        reveal_strlit("s");
    }
    s.append("s");
    s
}

} // verus!
