use std::time::Duration;

use vstd::prelude::*;

use crate::error::{NexaError, Result};
use crate::text::{chars_of, prefixed};

verus! {

/// What `Duration::new(secs, nanos)` returns.
pub uninterp spec fn std_duration(secs: u64, nanos: u32) -> Duration;

/// `std::time::Duration::new`: the span of `secs` seconds and `nanos`
/// nanoseconds. The contract names the result; `nanos` is kept below one
/// second, where the constructor cannot overflow.
#[verifier::external_body]
pub(crate) fn duration_new(secs: u64, nanos: u32) -> (d: Duration)
    requires
        nanos < 1_000_000_000,
    ensures
        d == std_duration(secs, nanos),
{
    Duration::new(secs, nanos)
}

/// Whether `c` is an ASCII decimal digit.
pub open spec fn is_digit(c: char) -> bool {
    '0' <= c && c <= '9'
}

/// The value of a decimal digit character.
pub open spec fn digit_value(c: char) -> nat {
    ((c as u32) - ('0' as u32)) as nat
}

/// The value of a string of decimal digits, read most significant first.
pub open spec fn digits_value(s: Seq<char>) -> nat
    decreases s.len(),
{
    if s.len() == 0 {
        0
    } else {
        digits_value(s.drop_last()) * 10 + digit_value(s.last())
    }
}

/// Whether every character is a decimal digit.
pub open spec fn all_digits(s: Seq<char>) -> bool {
    forall|i: int| 0 <= i < s.len() ==> is_digit(#[trigger] s[i])
}

/// What `str::parse::<u64>` gives: an optional `+`, then at least one
/// digit, and a value that fits in 64 bits.
pub open spec fn spec_parse_u64(s: Seq<char>) -> Option<nat> {
    let d = if s.len() > 0 && s[0] == '+' { s.drop_first() } else { s };
    if d.len() > 0 && all_digits(d) && digits_value(d) <= u64::MAX {
        Some(digits_value(d))
    } else {
        None
    }
}

/// Whether `s` ends with `suffix`.
pub open spec fn ends_with(s: Seq<char>, suffix: Seq<char>) -> bool {
    s.len() >= suffix.len() && s.subrange(s.len() - suffix.len(), s.len() as int) == suffix
}

/// The seconds and nanoseconds that a duration string denotes: a number
/// followed by `ms`, `h`, `m` or `s` (tried in that order), or a bare
/// number of seconds.
pub open spec fn spec_duration_parts(s: Seq<char>) -> Option<(nat, nat)> {
    if s.len() == 0 {
        None
    } else if ends_with(s, seq!['m', 's']) {
        match spec_parse_u64(s.take(s.len() - 2)) {
            Some(n) => Some((n / 1000, (n % 1000) * 1_000_000)),
            None => None,
        }
    } else if s.last() == 'h' {
        match spec_parse_u64(s.drop_last()) {
            Some(n) => Some((n * 3600, 0)),
            None => None,
        }
    } else if s.last() == 'm' {
        match spec_parse_u64(s.drop_last()) {
            Some(n) => Some((n * 60, 0)),
            None => None,
        }
    } else if s.last() == 's' {
        match spec_parse_u64(s.drop_last()) {
            Some(n) => Some((n, 0)),
            None => None,
        }
    } else {
        match spec_parse_u64(s) {
            Some(n) => Some((n, 0)),
            None => None,
        }
    }
}

/// The seconds of a valid duration string fit in 64 bits (for `h` and `m`
/// the multiplication does not overflow).
pub open spec fn duration_in_range(s: Seq<char>) -> bool {
    match spec_duration_parts(s) {
        Some(p) => p.0 <= u64::MAX,
        None => true,
    }
}

proof fn lemma_digits_value_prefix(s: Seq<char>, j: int)
    requires
        0 <= j <= s.len(),
    ensures
        digits_value(s.take(j)) <= digits_value(s),
    decreases s.len(),
{
    if j < s.len() {
        let t = s.drop_last();
        assert(t.take(j) =~= s.take(j));
        lemma_digits_value_prefix(t, j);
    } else {
        assert(s.take(j) =~= s);
    }
}

/// Parses the digits `v[start..end]` as `str::parse::<u64>` does.
pub(crate) fn parse_u64_chars(v: &Vec<char>, start: usize, end: usize) -> (r: Option<u64>)
    requires
        start <= end <= v.len(),
    ensures
        match r {
            Some(n) => spec_parse_u64(v@.subrange(start as int, end as int)) == Some(n as nat),
            None => spec_parse_u64(v@.subrange(start as int, end as int)) is None,
        },
{
    let ghost s = v@.subrange(start as int, end as int);
    let mut i = start;
    if i < end && v[i] == '+' {
        i = i + 1;
    }
    let ghost d = v@.subrange(i as int, end as int);
    proof {
        if s.len() > 0 && s[0] == '+' {
            assert(d =~= s.drop_first());
        } else {
            assert(d =~= s);
        }
    }
    if i == end {
        return None;
    }
    let first = i;
    let mut acc: u64 = 0;
    while i < end
        invariant
            first <= i <= end <= v.len(),
            d == v@.subrange(first as int, end as int),
            d.len() > 0,
            spec_parse_u64(v@.subrange(start as int, end as int)) == (if all_digits(d) && digits_value(d) <= u64::MAX {
                Some(digits_value(d))
            } else {
                None::<nat>
            }),
            all_digits(v@.subrange(first as int, i as int)),
            acc == digits_value(v@.subrange(first as int, i as int)),
        decreases end - i,
    {
        let c = v[i];
        proof {
            assert(v@.subrange(first as int, i + 1).drop_last() =~= v@.subrange(first as int, i as int));
            assert(d[i - first] == c);
        }
        if !('0' <= c && c <= '9') {
            proof {
                assert(!is_digit(d[i - first]));
            }
            return None;
        }
        let dv = (c as u32 - '0' as u32) as u64;
        let m = acc.checked_mul(10);
        match m {
            None => {
                proof {
                    assert(d.take(i + 1 - first) =~= v@.subrange(first as int, i + 1));
                    lemma_digits_value_prefix(d, i + 1 - first);
                }
                return None;
            },
            Some(m) => {
                match m.checked_add(dv) {
                    None => {
                        proof {
                            assert(d.take(i + 1 - first) =~= v@.subrange(first as int, i + 1));
                            lemma_digits_value_prefix(d, i + 1 - first);
                        }
                        return None;
                    },
                    Some(a) => {
                        acc = a;
                    },
                }
            },
        }
        i = i + 1;
    }
    Some(acc)
}

/// Whether a duration string's seconds fit in 64 bits.
pub fn duration_fits(s: &str) -> (r: bool)
    ensures
        r == duration_in_range(s@),
{
    match duration_parts(s) {
        Some((secs, _)) => secs <= u64::MAX as u128,
        None => true,
    }
}

fn duration_parts(s: &str) -> (r: Option<(u128, u32)>)
    ensures
        match r {
            Some(p) => spec_duration_parts(s@) == Some((p.0 as nat, p.1 as nat)) && p.1 < 1_000_000_000,
            None => spec_duration_parts(s@) is None,
        },
{
    let v = chars_of(s);
    let n = v.len();
    if n == 0 {
        return None;
    }
    proof {
        assert(v@.subrange(0, n as int) =~= v@);
    }
    if n >= 2 && v[n - 2] == 'm' && v[n - 1] == 's' {
        proof {
            assert(v@.subrange(n - 2, n as int) =~= seq!['m', 's']);
            assert(ends_with(v@, seq!['m', 's']));
            assert(v@.subrange(0, n - 2) =~= v@.take(n - 2));
        }
        match parse_u64_chars(&v, 0, n - 2) {
            Some(k) => Some(((k / 1000) as u128, ((k % 1000) * 1_000_000) as u32)),
            None => None,
        }
    } else {
        proof {
            if ends_with(v@, seq!['m', 's']) {
                assert(v@.subrange(n - 2, n as int)[0] == v@[n - 2]);
                assert(v@.subrange(n - 2, n as int)[1] == v@[n - 1]);
            }
            assert(v@.subrange(0, n - 1) =~= v@.drop_last());
        }
        let last = v[n - 1];
        if last == 'h' {
            match parse_u64_chars(&v, 0, n - 1) {
                Some(k) => Some(((k as u128) * 3600, 0)),
                None => None,
            }
        } else if last == 'm' {
            match parse_u64_chars(&v, 0, n - 1) {
                Some(k) => Some(((k as u128) * 60, 0)),
                None => None,
            }
        } else if last == 's' {
            match parse_u64_chars(&v, 0, n - 1) {
                Some(k) => Some((k as u128, 0)),
                None => None,
            }
        } else {
            match parse_u64_chars(&v, 0, n) {
                Some(k) => Some((k as u128, 0)),
                None => None,
            }
        }
    }
}

/// Parses a human-friendly duration such as `10s`, `5m`, `2h`, `500ms` or a
/// bare number of seconds.
pub fn parse_duration(s: &str) -> (r: Result<Duration>)
    requires
        duration_in_range(s@),
    ensures
        s@.len() == 0 ==> (r matches Err(NexaError::InvalidSpec(m)) && m@ == "duration string is empty"@),
        s@.len() > 0 && spec_duration_parts(s@) is None ==> (r matches Err(NexaError::InvalidSpec(m))
            && m@ == "invalid duration: "@ + s@),
        match spec_duration_parts(s@) {
            Some(p) => r == Ok::<Duration, NexaError>(std_duration(p.0 as u64, p.1 as u32)),
            None => r is Err,
        },
{
    if s.is_empty() {
        return Err(NexaError::InvalidSpec("duration string is empty".to_owned()));
    }
    match duration_parts(s) {
        Some((secs, nanos)) => Ok(duration_new(secs as u64, nanos)),
        None => Err(NexaError::InvalidSpec(prefixed("invalid duration: ", s))),
    }
}


/// The number of nanoseconds a duration string denotes.
pub open spec fn spec_duration_nanos(s: Seq<char>) -> Option<nat> {
    match spec_duration_parts(s) {
        Some(p) => Some(p.0 * 1_000_000_000 + p.1),
        None => None,
    }
}

/// Parses a duration string into nanoseconds.
pub fn parse_duration_nanos(s: &str) -> (r: Option<u128>)
    requires
        duration_in_range(s@),
    ensures
        match spec_duration_nanos(s@) {
            Some(m) => r == Some(m as u128),
            None => r is None,
        },
{
    match duration_parts(s) {
        Some((secs, nanos)) => Some(secs * 1_000_000_000 + nanos as u128),
        None => None,
    }
}

} // verus!
