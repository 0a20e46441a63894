use vstd::prelude::*;

use crate::duration::{parse_u64_chars, spec_parse_u64};
use crate::text::chars_of;

verus! {

/// The bytes in one unit of a memory suffix: `k`, `m` or `g`, in either
/// case, as binary multiples.
pub open spec fn memory_unit(c: char) -> Option<nat> {
    if c == 'k' || c == 'K' {
        Some(1024)
    } else if c == 'm' || c == 'M' {
        Some(1024 * 1024)
    } else if c == 'g' || c == 'G' {
        Some(1024 * 1024 * 1024)
    } else {
        None
    }
}

/// The bytes of a memory amount such as `512m`: a count followed by a
/// unit suffix. Anything else counts as no request (0); an amount beyond
/// 64 bits is taken as the largest one.
pub open spec fn spec_memory_bytes(s: Seq<char>) -> nat {
    if s.len() == 0 {
        0
    } else {
        match memory_unit(s.last()) {
            Some(u) => match spec_parse_u64(s.drop_last()) {
                Some(n) => if n * u > u64::MAX {
                    u64::MAX as nat
                } else {
                    n * u
                },
                None => 0,
            },
            None => 0,
        }
    }
}

/// The bytes of a memory amount such as `512m`, for the scheduler's
/// memory request.
pub fn parse_memory(s: &str) -> (r: u64)
    ensures
        r == spec_memory_bytes(s@),
{
    let v = chars_of(s);
    let n = v.len();
    if n == 0 {
        return 0;
    }
    let last = v[n - 1];
    let unit: u64 = if last == 'k' || last == 'K' {
        1024
    } else if last == 'm' || last == 'M' {
        1024 * 1024
    } else if last == 'g' || last == 'G' {
        1024 * 1024 * 1024
    } else {
        return 0;
    };
    proof {
        assert(v@.subrange(0, n - 1) =~= s@.drop_last());
    }
    match parse_u64_chars(&v, 0, n - 1) {
        Some(count) => match count.checked_mul(unit) {
            Some(bytes) => bytes,
            None => u64::MAX,
        },
        None => 0,
    }
}

} // verus!
