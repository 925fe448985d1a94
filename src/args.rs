//! Parsing and checking of command-line values.
use vstd::prelude::*;
use vstd::string::StrSliceExecFns;
use crate::http::HttpVersion;
use crate::number::{
    all_digits, digits_value, is_digit, lemma_prefix_value_le, parse_unsigned, parsed_unsigned,
};

verus! {

/// Why a command-line value was refused.
#[derive(Debug, Clone, Copy, PartialEq, Eq, Structural)]
pub enum ArgsError {
    /// Basic auth is not `username:password`.
    BasicAuthFormat,
    /// A header is not `key:value`.
    KeyValueFormat,
    /// The text is not an unsigned number.
    NotANumber,
    /// The number is zero.
    BelowOne,
    /// The text is not a sequence of `<value><unit>` parts.
    DurationFormat,
    /// The duration is zero, or too long to count in milliseconds.
    DurationRange,
    /// The rate is below the number of clients.
    RpsBelowClients,
    /// There are more clients than requests.
    ClientsExceedRequests,
    /// Keep-alive was disabled on HTTP/2.
    Http2Keepalive,
}

/// Number of `:` among the first `n` characters.
pub open spec fn colons(s: Seq<char>, n: int) -> nat
    decreases n,
{
    if n <= 0 {
        0
    } else {
        colons(s, n - 1) + if s[n - 1] == ':' {
            1nat
        } else {
            0nat
        }
    }
}

/// The text before and after the only `:` of `s`, if it has exactly one.
pub open spec fn split_colon(s: Seq<char>) -> Option<(Seq<char>, Seq<char>)> {
    if colons(s, s.len() as int) == 1 {
        let k = choose|k: int| 0 <= k < s.len() && s[k] == ':';
        Some((s.subrange(0, k), s.subrange(k + 1, s.len() as int)))
    } else {
        None
    }
}

proof fn lemma_colons_after(s: Seq<char>, k: int, n: int)
    requires
        0 <= k < n <= s.len(),
        s[k] == ':',
    ensures
        colons(s, n) >= colons(s, k) + 1,
    decreases n,
{
    if n > k + 1 {
        lemma_colons_after(s, k, n - 1);
    }
}

proof fn lemma_colons_monotone(s: Seq<char>, m: int, n: int)
    requires
        0 <= m <= n,
    ensures
        colons(s, m) <= colons(s, n),
    decreases n - m,
{
    if m < n {
        lemma_colons_monotone(s, m, n - 1);
    }
}

/// Splits `input` at its only `:`.
fn split_at_colon(input: &str) -> (r: Option<(String, String)>)
    ensures
        match split_colon(input@) {
            Some((a, b)) => r matches Some(p) && p.0@ == a && p.1@ == b,
            None => r is None,
        },
{
    let n = input.unicode_len();
    let mut count: usize = 0;
    let mut first: usize = 0;
    let mut i: usize = 0;
    while i < n
        invariant
            i <= n == input@.len(),
            count == colons(input@, i as int),
            count <= i,
            count > 0 ==> first < i && input@[first as int] == ':' && colons(input@, first as int)
                == 0,
        decreases n - i,
    {
        if input.get_char(i) == ':' {
            if count == 0 {
                first = i;
            }
            count = count + 1;
        }
        i = i + 1;
    }
    if count != 1 {
        return None;
    }
    proof {
        let s = input@;
        let k = choose|k: int| 0 <= k < s.len() && s[k] == ':';
        if k < first {
            lemma_colons_after(s, k, first as int);
            lemma_colons_monotone(s, k, first as int);
        } else if k > first {
            lemma_colons_after(s, first as int, k);
            lemma_colons_after(s, k, n as int);
            lemma_colons_monotone(s, first as int + 1, k);
        }
        assert(k == first);
    }
    let a = input.substring_char(0, first);
    let b = input.substring_char(first + 1, n);
    Some((a.to_owned(), b.to_owned()))
}

/// Reads `username:password`.
pub fn parse_basic_auth(input: &str) -> (r: Result<(String, String), ArgsError>)
    ensures
        match split_colon(input@) {
            Some((a, b)) => r matches Ok(p) && p.0@ == a && p.1@ == b,
            None => r == Err::<(String, String), ArgsError>(ArgsError::BasicAuthFormat),
        },
{
    match split_at_colon(input) {
        Some(p) => Ok(p),
        None => Err(ArgsError::BasicAuthFormat),
    }
}

/// `part` is a contiguous piece of `whole`.
pub open spec fn is_slice_of(part: Seq<char>, whole: Seq<char>) -> bool {
    exists|i: int, j: int| 0 <= i <= j <= whole.len() && part == whole.subrange(i, j)
}

/// What `str::trim` leaves of a text.
pub uninterp spec fn trimmed(s: Seq<char>) -> Seq<char>;

/// Relies on `str::trim`: the text without its leading and trailing white
/// space, which depends on the text alone. Its documentation makes the result
/// a slice of the input, and a space (which is white space) never stays at
/// either end.
#[verifier::external_body]
fn trim(s: &str) -> (r: &str)
    ensures
        r@ == trimmed(s@),
        is_slice_of(r@, s@),
        r@.len() > 0 ==> r@[0] != ' ' && r@.last() != ' ',
{
    s.trim()
}

/// Reads `key:value`, trimming white space around each side.
pub fn parse_key_value(s: &str) -> (r: Result<(String, String), ArgsError>)
    ensures
        match split_colon(s@) {
            Some((a, b)) => r matches Ok(p) && p.0@ == trimmed(a) && p.1@ == trimmed(b),
            None => r == Err::<(String, String), ArgsError>(ArgsError::KeyValueFormat),
        },
{
    match split_at_colon(s) {
        Some((a, b)) => Ok((trim(a.as_str()).to_owned(), trim(b.as_str()).to_owned())),
        None => Err(ArgsError::KeyValueFormat),
    }
}

/// Reads a number that is at least one.
pub fn parse_positive(s: &str) -> (r: Result<u64, ArgsError>)
    ensures
        match parsed_unsigned(s@, u64::MAX as nat) {
            Some(v) => if v >= 1 {
                r == Ok::<u64, ArgsError>(v as u64)
            } else {
                r == Err::<u64, ArgsError>(ArgsError::BelowOne)
            },
            None => r == Err::<u64, ArgsError>(ArgsError::NotANumber),
        },
{
    match parse_unsigned(s, u64::MAX) {
        Some(v) => if v >= 1 {
            Ok(v)
        } else {
            Err(ArgsError::BelowOne)
        },
        None => Err(ArgsError::NotANumber),
    }
}

/// Checks the combination of options: the rate covers every client, every
/// client gets a request, and keep-alive is only disabled on HTTP/1.1.
pub fn validation(
    clients: usize,
    requests: Option<u64>,
    rps: Option<u64>,
    disable_keepalive: bool,
    http_version: HttpVersion,
) -> (r: Result<(), ArgsError>)
    ensures
        rps is Some && clients > rps->0 ==> r == Err::<(), ArgsError>(ArgsError::RpsBelowClients),
        !(rps is Some && clients > rps->0) && requests is Some && clients > requests->0 ==> r
            == Err::<(), ArgsError>(ArgsError::ClientsExceedRequests),
        !(rps is Some && clients > rps->0) && !(requests is Some && clients > requests->0)
            && disable_keepalive && http_version == HttpVersion::Http2 ==> r == Err::<
            (),
            ArgsError,
        >(ArgsError::Http2Keepalive),
        r is Ok <==> !(rps is Some && clients > rps->0) && !(requests is Some && clients
            > requests->0) && !(disable_keepalive && http_version == HttpVersion::Http2),
{
    if let Some(rps) = rps {
        if clients as u64 > rps {
            return Err(ArgsError::RpsBelowClients);
        }
    }
    if let Some(num) = requests {
        if clients as u64 > num {
            return Err(ArgsError::ClientsExceedRequests);
        }
    }
    if disable_keepalive && http_version == HttpVersion::Http2 {
        return Err(ArgsError::Http2Keepalive);
    }
    Ok(())
}

/// Length of the run of ASCII digits that starts at `i`.
pub open spec fn digit_run(s: Seq<char>, i: int) -> int
    decreases s.len() - i,
{
    if i < 0 || i >= s.len() || !is_digit(s[i]) {
        0
    } else {
        1 + digit_run(s, i + 1)
    }
}

/// The unit that starts at `k`: its length in milliseconds and in characters.
pub open spec fn unit_at(s: Seq<char>, k: int) -> Option<(nat, int)> {
    if 0 <= k && k + 1 < s.len() && s[k] == 'm' && s[k + 1] == 's' {
        Some((1, 2))
    } else if 0 <= k < s.len() && s[k] == 's' {
        Some((1000, 1))
    } else if 0 <= k < s.len() && s[k] == 'm' {
        Some((60_000, 1))
    } else if 0 <= k < s.len() && s[k] == 'h' {
        Some((3_600_000, 1))
    } else if 0 <= k < s.len() && s[k] == 'd' {
        Some((86_400_000, 1))
    } else {
        None
    }
}

/// The part that starts at `i`: digits, optionally a point and more digits,
/// then a unit. Its value is the last run of digits (so `1.5s` counts five
/// seconds), with the unit's milliseconds and the index after the part.
pub open spec fn part_at(s: Seq<char>, i: int) -> Option<(nat, nat, int)> {
    let a = digit_run(s, i);
    let j = i + a;
    if a == 0 {
        None
    } else if j < s.len() && s[j] == '.' {
        let b = digit_run(s, j + 1);
        if b == 0 {
            None
        } else {
            match unit_at(s, j + 1 + b) {
                Some((f, l)) => Some((digits_value(s.subrange(j + 1, j + 1 + b)), f, j + 1 + b + l)),
                None => None,
            }
        }
    } else {
        match unit_at(s, j) {
            Some((f, l)) => Some((digits_value(s.subrange(i, j)), f, j + l)),
            None => None,
        }
    }
}

/// Milliseconds of the parts from `i` to the end, if the text there is a
/// sequence of parts.
pub open spec fn millis_from(s: Seq<char>, i: int) -> Option<int>
    decreases s.len() - i,
{
    if i >= s.len() {
        Some(0)
    } else {
        match part_at(s, i) {
            Some((v, f, next)) => if i < next <= s.len() {
                match millis_from(s, next) {
                    Some(t) => Some(v * f + t),
                    None => None,
                }
            } else {
                None
            },
            None => None,
        }
    }
}

/// The duration that `s` writes, in milliseconds: one or more parts, in
/// total more than zero and at most `u64::MAX`.
pub open spec fn parsed_millis(s: Seq<char>) -> Option<int> {
    if s.len() == 0 {
        None
    } else {
        match millis_from(s, 0) {
            Some(t) => if 0 < t <= u64::MAX {
                Some(t)
            } else {
                None
            },
            None => None,
        }
    }
}

proof fn lemma_digit_run_bounds(s: Seq<char>, i: int)
    requires
        0 <= i,
    ensures
        0 <= digit_run(s, i),
        i + digit_run(s, i) <= s.len() || digit_run(s, i) == 0,
        forall|k: int| i <= k < i + digit_run(s, i) ==> is_digit(#[trigger] s[k]),
        i + digit_run(s, i) < s.len() ==> !is_digit(s[i + digit_run(s, i)]),
    decreases s.len() - i,
{
    if 0 <= i < s.len() && is_digit(s[i]) {
        lemma_digit_run_bounds(s, i + 1);
    }
}

proof fn lemma_millis_nonneg(s: Seq<char>, i: int)
    ensures
        millis_from(s, i) matches Some(t) ==> t >= 0,
    decreases s.len() - i,
{
    if i < s.len() {
        match part_at(s, i) {
            Some((v, f, next)) => {
                if i < next <= s.len() {
                    lemma_millis_nonneg(s, next);
                }
            },
            None => {},
        }
    }
}

/// Scans the run of digits at `i`.
fn scan_digits(input: &str, n: usize, i: usize) -> (r: usize)
    requires
        n == input@.len(),
        i <= n,
    ensures
        r == i + digit_run(input@, i as int),
        r <= n,
{
    let mut j: usize = i;
    while j < n
        invariant
            i <= j <= n,
            n == input@.len(),
            digit_run(input@, i as int) == (j - i) + digit_run(input@, j as int),
        decreases n - j,
    {
        let c = input.get_char(j);
        if !('0' <= c && c <= '9') {
            return j;
        }
        j = j + 1;
    }
    j
}

/// The value of the digits from `from` to `to`, if it fits in 64 bits.
fn digits_in(input: &str, from: usize, to: usize) -> (r: Option<u64>)
    requires
        from <= to <= input@.len(),
        all_digits(input@.subrange(from as int, to as int)),
    ensures
        match r {
            Some(v) => v == digits_value(input@.subrange(from as int, to as int)),
            None => digits_value(input@.subrange(from as int, to as int)) > u64::MAX,
        },
{
    let ghost d = input@.subrange(from as int, to as int);
    let mut acc: u64 = 0;
    let mut i: usize = from;
    while i < to
        invariant
            from <= i <= to <= input@.len(),
            d == input@.subrange(from as int, to as int),
            all_digits(d),
            acc == digits_value(d.subrange(0, i - from)),
        decreases to - i,
    {
        let c = input.get_char(i);
        proof {
            assert(c == d[i - from]);
            assert(is_digit(d[i - from]));
        }
        let dv = (c as u32 - '0' as u32) as u64;
        proof {
            let p = d.subrange(0, i - from + 1);
            assert(p.drop_last() =~= d.subrange(0, i - from));
            assert(digits_value(p) == acc * 10 + dv);
        }
        if acc > (u64::MAX - dv) / 10 {
            proof {
                assert(acc * 10 + dv > u64::MAX) by (nonlinear_arith)
                    requires
                        acc > (u64::MAX - dv) / 10,
                        dv <= 9,
                ;
                lemma_prefix_value_le(d, i - from + 1);
            }
            return None;
        }
        acc = acc * 10 + dv;
        i = i + 1;
    }
    proof {
        assert(d.subrange(0, to - from) =~= d);
    }
    Some(acc)
}

/// Reads a duration such as `500ms`, `30s` or `1h30m15s` (units `ms`, `s`,
/// `m`, `h`, `d`), in milliseconds.
pub fn parse_duration(input: &str) -> (r: Result<u64, ArgsError>)
    ensures
        match parsed_millis(input@) {
            Some(t) => r == Ok::<u64, ArgsError>(t as u64),
            None => r is Err,
        },
        r == Err::<u64, ArgsError>(ArgsError::DurationFormat) ==> parsed_millis(input@) is None,
{
    let n = input.unicode_len();
    if n == 0 {
        return Err(ArgsError::DurationFormat);
    }
    let ghost s = input@;
    let mut total: u64 = 0;
    let mut i: usize = 0;
    while i < n
        invariant
            i <= n == s.len(),
            s == input@,
            n > 0,
            millis_from(s, 0) == match millis_from(s, i as int) {
                Some(t) => Some(total + t),
                None => None::<int>,
            },
        decreases n - i,
    {
        proof {
            lemma_digit_run_bounds(s, i as int);
        }
        let j = scan_digits(input, n, i);
        if j == i {
            return Err(ArgsError::DurationFormat);
        }
        let mut from: usize = i;
        let mut to: usize = j;
        if j < n && input.get_char(j) == '.' {
            proof {
                lemma_digit_run_bounds(s, j + 1);
            }
            let k = scan_digits(input, n, j + 1);
            if k == j + 1 {
                return Err(ArgsError::DurationFormat);
            }
            from = j + 1;
            to = k;
        }
        proof {
            assert forall|q: int| 0 <= q < to - from implies is_digit(
                #[trigger] s.subrange(from as int, to as int)[q],
            ) by {
                assert(s.subrange(from as int, to as int)[q] == s[from + q]);
            }
        }
        let (factor, len): (u64, usize) = if to < n && n - to > 1 && input.get_char(to) == 'm'
            && input.get_char(to + 1) == 's' {
            (1, 2)
        } else if to < n && input.get_char(to) == 's' {
            (1000, 1)
        } else if to < n && input.get_char(to) == 'm' {
            (60_000, 1)
        } else if to < n && input.get_char(to) == 'h' {
            (3_600_000, 1)
        } else if to < n && input.get_char(to) == 'd' {
            (86_400_000, 1)
        } else {
            return Err(ArgsError::DurationFormat);
        };
        let next = to + len;
        let ghost part = part_at(s, i as int);
        proof {
            assert(part == Some((digits_value(s.subrange(from as int, to as int)), factor as nat, next as int)));
            lemma_millis_nonneg(s, next as int);
        }
        let v = match digits_in(input, from, to) {
            Some(v) => v,
            None => {
                proof {
                    assert(factor >= 1);
                    assert(digits_value(s.subrange(from as int, to as int)) * factor > u64::MAX) by (nonlinear_arith)
                        requires
                            digits_value(s.subrange(from as int, to as int)) > u64::MAX,
                            factor >= 1,
                    ;
                }
                return Err(ArgsError::DurationRange);
            },
        };
        proof {
            assert(v as int * factor as int <= u64::MAX as int * 86_400_000) by (nonlinear_arith)
                requires
                    v <= u64::MAX,
                    factor <= 86_400_000,
            ;
        }
        let add: u128 = v as u128 * factor as u128;
        if add > (u64::MAX - total) as u128 {
            return Err(ArgsError::DurationRange);
        }
        total = total + add as u64;
        i = next;
    }
    if total == 0 {
        return Err(ArgsError::DurationRange);
    }
    Ok(total)
}

} // verus!
