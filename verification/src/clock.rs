use vstd::prelude::*;

verus! {

/// Instants are held as nanoseconds since the Unix epoch, UTC.
pub type Timestamp = i128;

/// A fresh random identifier: `uuid::Uuid::new_v4`, read as its 128-bit
/// big-endian value (`Uuid::as_u128`). Nothing is promised of the value:
/// it is random.
#[verifier::external_body]
pub(crate) fn new_id() -> (id: u128) {
    uuid::Uuid::new_v4().as_u128()
}

/// The current time: `chrono::Utc::now`, read as its whole seconds since
/// the epoch (`DateTime::timestamp`) and the nanoseconds past them
/// (`DateTime::timestamp_subsec_nanos`). Nothing is promised of the values:
/// they are the machine's clock.
#[verifier::external_body]
fn now_parts() -> (r: (i64, u32)) {
    let t = chrono::Utc::now();
    (t.timestamp(), t.timestamp_subsec_nanos())
}

/// The current time, in nanoseconds since the epoch.
pub(crate) fn now_nanos() -> (t: Timestamp)
    ensures
        i64::MIN * 1_000_000_000 <= t <= i64::MAX * 1_000_000_000 + u32::MAX,
{
    let (secs, nanos) = now_parts();
    (secs as i128) * 1_000_000_000 + (nanos as i128)
}

#[verifier::external_type_specification]
#[verifier::external_body]
pub struct ExInstant(std::time::Instant);

/// `std::time::Instant::now`: a reading of the monotonic clock. Nothing is
/// promised of the value: it is the machine's clock.
#[verifier::external_body]
pub(crate) fn instant_now() -> (t: std::time::Instant) {
    std::time::Instant::now()
}

/// `Instant::elapsed` on `origin`, read in nanoseconds through
/// `Duration::as_nanos`: the time since `origin` on the monotonic clock.
/// Nothing is promised of the value: it is the machine's clock.
#[verifier::external_body]
pub(crate) fn nanos_since(origin: &std::time::Instant) -> (t: u128) {
    origin.elapsed().as_nanos()
}

/// Copies every element of a vector of plain values.
pub fn copy_vec<T: Copy>(v: &Vec<T>) -> (r: Vec<T>)
    ensures
        r@ == v@,
{
    let mut out: Vec<T> = Vec::new();
    let mut i: usize = 0;
    while i < v.len()
        invariant
            i <= v.len(),
            out@ == v@.take(i as int),
        decreases v.len() - i,
    {
        out.push(v[i]);
        proof {
            assert(out@ =~= v@.take(i + 1));
        }
        i = i + 1;
    }
    assert(out@ =~= v@);
    out
}

/// Clones every string of a vector.
pub fn clone_strings(v: &Vec<String>) -> (r: Vec<String>)
    ensures
        r@ == v@,
{
    let mut out: Vec<String> = Vec::new();
    let mut i: usize = 0;
    while i < v.len()
        invariant
            i <= v.len(),
            out@ == v@.take(i as int),
        decreases v.len() - i,
    {
        out.push(v[i].clone());
        proof {
            assert(out@ =~= v@.take(i + 1));
        }
        i = i + 1;
    }
    assert(out@ =~= v@);
    out
}

/// Clones an optional string.
pub fn clone_opt_string(s: &Option<String>) -> (r: Option<String>)
    ensures
        r == *s,
{
    match s {
        Some(x) => Some(x.clone()),
        None => None,
    }
}

} // verus!

verus! {

/// The lower-case hexadecimal digit of `d`, for `d` below 16.
pub open spec fn hex_digit(d: int) -> char {
    if d < 10 {
        (d + 48) as char
    } else {
        (d + 87) as char
    }
}

/// The `n` lowest hexadecimal digits of `v`, most significant first.
pub open spec fn hex_digits(v: nat, n: nat) -> Seq<char>
    decreases n,
{
    if n == 0 {
        Seq::empty()
    } else {
        hex_digits(v / 16, (n - 1) as nat).push(hex_digit((v % 16) as int))
    }
}

/// The text of a 128-bit identifier as `uuid::Uuid` prints it: its 32
/// lower-case hexadecimal digits, most significant first, grouped 8-4-4-4-12
/// and joined by hyphens.
pub open spec fn uuid_text(id: u128) -> Seq<char> {
    let h = hex_digits(id as nat, 32);
    h.subrange(0, 8) + seq!['-'] + h.subrange(8, 12) + seq!['-'] + h.subrange(12, 16) + seq!['-'] + h.subrange(16, 20)
        + seq!['-'] + h.subrange(20, 32)
}

/// `uuid::Uuid::from_u128(id).to_string()`: the hyphenated lower-case text
/// of the identifier, as `uuid_text` spells it out.
#[verifier::external_body]
pub(crate) fn id_to_string(id: u128) -> (s: String)
    ensures
        s@ == uuid_text(id),
{
    uuid::Uuid::from_u128(id).to_string()
}

} // verus!
