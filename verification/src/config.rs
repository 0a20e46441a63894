use vstd::prelude::*;
use vstd::string::*;

use crate::domain::models::{DeploymentSpec, ResourceLimits};
use crate::error::{NexaError, Result};
use vstd::utf8::encode_utf8;
use crate::text::{decimal, prefixed, u64_to_decimal};

verus! {

/// The pattern of a DNS-safe name.
pub const DNS_LABEL_PATTERN: &'static str = "^[a-z0-9][a-z0-9-]*$";

/// The pattern of a memory amount such as `512m`.
pub const MEMORY_PATTERN: &'static str = "^[0-9]+[kmgKMG]$";

/// A lower-case ASCII letter or a decimal digit.
pub open spec fn is_lower_alnum(c: char) -> bool {
    ('a' <= c && c <= 'z') || ('0' <= c && c <= '9')
}

/// What `DNS_LABEL_PATTERN` matches: a lower-case letter or digit, then
/// only lower-case letters, digits and hyphens.
pub open spec fn dns_label_shape(s: Seq<char>) -> bool {
    &&& s.len() > 0
    &&& is_lower_alnum(s[0])
    &&& forall|i: int| 1 <= i < s.len() ==> is_lower_alnum(#[trigger] s[i]) || s[i] == '-'
}

/// What `MEMORY_PATTERN` matches: one or more decimal digits, then one of
/// `k`, `m`, `g` in either case.
pub open spec fn memory_shape(s: Seq<char>) -> bool {
    &&& s.len() >= 2
    &&& forall|i: int| 0 <= i < s.len() - 1 ==> '0' <= #[trigger] s[i] && s[i] <= '9'
    &&& (s.last() == 'k' || s.last() == 'm' || s.last() == 'g' || s.last() == 'K' || s.last() == 'M'
        || s.last() == 'G')
}

/// Compiles `pattern` with `regex::Regex::new` and asks `Regex::is_match`
/// whether it matches `haystack`. For the library's two patterns the
/// answer is what the regex syntax documents (`^` and `$` anchor at the
/// start and end of the haystack, `[..]` is a class of code points, `*` and
/// `+` repeat); nothing is stated for other patterns. A pattern that does
/// not compile answers `false`.
#[verifier::external_body]
fn regex_is_match(pattern: &str, haystack: &str) -> (r: bool)
    ensures
        pattern@ == DNS_LABEL_PATTERN@ ==> (r <==> dns_label_shape(haystack@)),
        pattern@ == MEMORY_PATTERN@ ==> (r <==> memory_shape(haystack@)),
{
    match regex::Regex::new(pattern) {
        Ok(re) => re.is_match(haystack),
        Err(_) => false,
    }
}

/// What checking `value` as the DNS-safe name `field` gives: `Ok` or the
/// message of the `InvalidSpec` error. The length limit counts UTF-8 bytes.
pub open spec fn spec_dns_name_check(value: Seq<char>, field: Seq<char>) -> core::result::Result<(), Seq<char>> {
    let len = (encode_utf8(value).len() as usize) as nat;
    if value.len() == 0 {
        Err(field + " is required"@)
    } else if len > 63 {
        Err(field + " must be at most 63 characters, got "@ + decimal(len))
    } else if !dns_label_shape(value) {
        Err(field + " must be DNS-safe: start with [a-z0-9], then [a-z0-9-] only (got '"@ + value
            + "')"@)
    } else {
        Ok(())
    }
}

/// A name passes the DNS-safe check exactly when it has 1 to 63 UTF-8
/// bytes, starts with a lower-case letter or digit and goes on with
/// lower-case letters, digits and hyphens. Otherwise the check reports the
/// first rule broken, in the order: empty, too long, not DNS-safe.
pub proof fn dns_name_check_law(value: Seq<char>, field: Seq<char>)
    requires
        encode_utf8(value).len() <= usize::MAX,
    ensures
        spec_dns_name_check(value, field) is Ok <==> (value.len() > 0 && encode_utf8(value).len() <= 63
            && dns_label_shape(value)),
        value.len() == 0 ==> spec_dns_name_check(value, field) == Err::<(), Seq<char>>(field + " is required"@),
        value.len() > 0 && encode_utf8(value).len() > 63 ==> spec_dns_name_check(value, field) == Err::<
            (),
            Seq<char>,
        >(field + " must be at most 63 characters, got "@ + decimal(encode_utf8(value).len())),
        value.len() > 0 && encode_utf8(value).len() <= 63 && !dns_label_shape(value) ==> spec_dns_name_check(
            value,
            field,
        ) == Err::<(), Seq<char>>(
            field + " must be DNS-safe: start with [a-z0-9], then [a-z0-9-] only (got '"@ + value + "')"@,
        ),
{
}

/// The error of a check, as the `InvalidSpec` error that carries it.
pub open spec fn as_invalid_spec(r: core::result::Result<(), Seq<char>>, got: Result<()>) -> bool {
    match r {
        Ok(()) => got is Ok,
        Err(m) => got matches Err(NexaError::InvalidSpec(e)) && e@ == m,
    }
}

fn validate_dns_name(value: &str, field: &str) -> (r: Result<()>)
    ensures
        as_invalid_spec(spec_dns_name_check(value@, field@), r),
{
    if value.is_empty() {
        let mut m = field.to_owned();
        m.append(" is required");
        return Err(NexaError::InvalidSpec(m));
    }
    if value.len() > 63 {
        let mut m = field.to_owned();
        m.append(" must be at most 63 characters, got ");
        let n = u64_to_decimal(value.len() as u64);
        m.append(n.as_str());
        return Err(NexaError::InvalidSpec(m));
    }
    if !regex_is_match(DNS_LABEL_PATTERN, value) {
        let mut m = field.to_owned();
        m.append(" must be DNS-safe: start with [a-z0-9], then [a-z0-9-] only (got '");
        m.append(value);
        m.append("')");
        return Err(NexaError::InvalidSpec(m));
    }
    Ok(())
}

/// What checking a memory amount gives.
pub open spec fn spec_memory_check(memory: Seq<char>) -> core::result::Result<(), Seq<char>> {
    if memory.len() == 0 {
        Err("resources.memory is required when resources is specified"@)
    } else if !memory_shape(memory) {
        Err("resources.memory must match format like '512m', '1g', '256k' (got '"@ + memory + "')"@)
    } else {
        Ok(())
    }
}

fn validate_resource_memory(memory: &str) -> (r: Result<()>)
    ensures
        as_invalid_spec(spec_memory_check(memory@), r),
{
    if memory.is_empty() {
        return Err(
            NexaError::InvalidSpec(
                "resources.memory is required when resources is specified".to_owned(),
            ),
        );
    }
    if !regex_is_match(MEMORY_PATTERN, memory) {
        let mut m = prefixed("resources.memory must match format like '512m', '1g', '256k' (got '", memory);
        m.append("')");
        return Err(NexaError::InvalidSpec(m));
    }
    Ok(())
}

/// Whether the `f64` with bit pattern `bits` is a NaN.
pub open spec fn f64_bits_is_nan(bits: u64) -> bool {
    (bits & 0x7FF0_0000_0000_0000u64) == 0x7FF0_0000_0000_0000u64 && (bits
        & 0x000F_FFFF_FFFF_FFFFu64) != 0
}

/// Whether the `f64` with bit pattern `bits` compares `<= 0.0` (IEEE-754:
/// zeros of either sign and negative numbers do, NaN does not).
pub open spec fn f64_bits_not_positive(bits: u64) -> bool {
    !f64_bits_is_nan(bits) && (bits >> 63u64 == 1 || bits == 0)
}

/// What validating a spec gives: `Ok`, or the message of the first rule
/// that fails, in the order project name, deployment name, image,
/// replicas, ports, memory, CPU.
pub open spec fn spec_validate(spec: DeploymentSpec) -> core::result::Result<(), Seq<char>> {
    let project = spec_dns_name_check(spec.project@, "project"@);
    let name = spec_dns_name_check(spec.deployment.name@, "deployment name"@);
    if project is Err {
        project
    } else if name is Err {
        name
    } else if spec.image@.len() == 0 {
        Err("image is required"@)
    } else if spec.replicas == 0 {
        Err("replicas must be at least 1"@)
    } else if spec.ports@.contains(0u16) {
        Err("port must be between 1 and 65535, got 0"@)
    } else {
        match spec.resources {
            Some(res) => if spec_memory_check(res.memory@) is Err {
                spec_memory_check(res.memory@)
            } else if f64_bits_not_positive(res.cpu_bits) {
                Err("resources.cpu must be greater than 0"@)
            } else {
                Ok(())
            },
            None => Ok(()),
        }
    }
}

/// A spec is accepted exactly when both names are DNS-safe, it names an
/// image, asks for at least one replica, has no port 0 anywhere in its
/// list and, when it gives resources, has a valid memory amount and a CPU
/// request above zero. A port 0 at any position is refused with the port
/// message once the names, image and replicas pass.
pub proof fn validation_law(spec: DeploymentSpec)
    ensures
        spec_validate(spec) is Ok <==> {
            &&& spec_dns_name_check(spec.project@, "project"@) is Ok
            &&& spec_dns_name_check(spec.deployment.name@, "deployment name"@) is Ok
            &&& spec.image@.len() > 0
            &&& spec.replicas >= 1
            &&& forall|i: int| 0 <= i < spec.ports@.len() ==> #[trigger] spec.ports@[i] != 0u16
            &&& match spec.resources {
                Some(res) => spec_memory_check(res.memory@) is Ok && !f64_bits_not_positive(res.cpu_bits),
                None => true,
            }
        },
        forall|i: int|
            0 <= i < spec.ports@.len() && #[trigger] spec.ports@[i] == 0u16 && spec_dns_name_check(spec.project@, "project"@) is Ok
                && spec_dns_name_check(spec.deployment.name@, "deployment name"@) is Ok && spec.image@.len() > 0
                && spec.replicas >= 1 ==> spec_validate(spec) == Err::<(), Seq<char>>(
                "port must be between 1 and 65535, got 0"@,
            ),
{
    assert((forall|i: int| 0 <= i < spec.ports@.len() ==> #[trigger] spec.ports@[i] != 0u16) <==> !spec.ports@.contains(
        0u16,
    )) by {
        if spec.ports@.contains(0u16) {
            let k = choose|k: int| 0 <= k < spec.ports@.len() && spec.ports@[k] == 0u16;
            assert(spec.ports@[k] == 0u16);
        }
    }
    assert forall|i: int|
        0 <= i < spec.ports@.len() && #[trigger] spec.ports@[i] == 0u16 implies spec.ports@.contains(0u16) by {}
}

/// Checks a parsed deployment spec: DNS-safe project and deployment names
/// of at most 63 characters, an image, at least one replica, no port 0,
/// and, when resources are given, a memory amount like `512m` and a
/// positive CPU request.
#[verifier::loop_isolation(false)]
pub fn validate_spec(spec: &DeploymentSpec) -> (r: Result<()>)
    ensures
        as_invalid_spec(spec_validate(*spec), r),
        r is Ok ==> forall|i: int| 0 <= i < spec.ports@.len() ==> #[trigger] spec.ports@[i] != 0u16,
        r is Ok ==> spec.image@.len() > 0 && spec.replicas >= 1,
        forall|i: int|
            0 <= i < spec.ports@.len() && #[trigger] spec.ports@[i] == 0u16 && spec_dns_name_check(spec.project@, "project"@) is Ok
                && spec_dns_name_check(spec.deployment.name@, "deployment name"@) is Ok && spec.image@.len() > 0
                && spec.replicas >= 1 ==> (r matches Err(NexaError::InvalidSpec(m)) && m@
                == "port must be between 1 and 65535, got 0"@),
{
    proof {
        validation_law(*spec);
    }
    validate_dns_name(spec.project.as_str(), "project")?;
    validate_dns_name(spec.deployment.name.as_str(), "deployment name")?;
    if spec.image.as_str().is_empty() {
        return Err(NexaError::InvalidSpec("image is required".to_owned()));
    }
    if spec.replicas == 0 {
        return Err(NexaError::InvalidSpec("replicas must be at least 1".to_owned()));
    }
    let mut i: usize = 0;
    while i < spec.ports.len()
        invariant
            i <= spec.ports.len(),
            forall|j: int| 0 <= j < i ==> spec.ports@[j] != 0u16,
        decreases spec.ports.len() - i,
    {
        if spec.ports[i] == 0 {
            assert(spec.ports@[i as int] == 0u16);
            return Err(
                NexaError::InvalidSpec("port must be between 1 and 65535, got 0".to_owned()),
            );
        }
        i = i + 1;
    }
    assert(!spec.ports@.contains(0u16));
    match &spec.resources {
        Some(res) => {
            validate_resource_memory(res.memory.as_str())?;
            let bits = res.cpu_bits;
            let nan = (bits & 0x7FF0_0000_0000_0000u64) == 0x7FF0_0000_0000_0000u64 && (bits
                & 0x000F_FFFF_FFFF_FFFFu64) != 0;
            if !nan && (bits >> 63u64 == 1 || bits == 0) {
                return Err(NexaError::InvalidSpec("resources.cpu must be greater than 0".to_owned()));
            }
        },
        None => {},
    }
    Ok(())
}

} // verus!
