//! Support for the load-testing tool: byte sizes with binary suffixes, the
//! per-operation statistics it gathers, and its options.
pub mod client_go;
pub mod client_rust;
pub mod stats;

use vstd::prelude::*;
use std::str::FromStr;
use crate::utils::text::{parsed_unsigned, trim, trimmed};
use vstd::string::StrSliceExecFns;

verus! {

#[verifier::external_type_specification]
#[verifier::external_body]
pub struct ExParseIntError(core::num::ParseIntError);

/// The factor a size suffix stands for: `K`, `M`, `G`, `T` (either case)
/// for 2^10, 2^20, 2^30, 2^40; anything else for 1.
pub open spec fn suffix_factor(c: char) -> u64 {
    if c == 'T' || c == 't' {
        0x100_0000_0000
    } else if c == 'G' || c == 'g' {
        0x4000_0000
    } else if c == 'M' || c == 'm' {
        0x10_0000
    } else if c == 'K' || c == 'k' {
        0x400
    } else {
        1
    }
}

/// The factor of a byte size written as `s`: that of the last character
/// once `s` is trimmed (1 when it is empty).
pub open spec fn byte_size_factor(s: Seq<char>) -> u64 {
    let t = trimmed(s);
    if t.len() > 0 { suffix_factor(t.last()) } else { 1 }
}

/// The digits of a byte size written as `s`: the trimmed text, without its
/// suffix when it has one.
pub open spec fn byte_size_digits(s: Seq<char>) -> Seq<char> {
    let t = trimmed(s);
    if byte_size_factor(s) == 1 { t } else { t.drop_last() }
}

/// `u64::from_str`.
///
/// Trusted: it accepts exactly an optional `+` followed by one or more
/// decimal digits whose value fits in a `u64`, and gives that value.
#[verifier::external_body]
fn u64_from_str(s: &str) -> (r: Result<u64, core::num::ParseIntError>)
    ensures
        r is Ok <==> parsed_unsigned(s@, 0xFFFF_FFFF_FFFF_FFFF) is Some,
        r matches Ok(n) ==> parsed_unsigned(s@, 0xFFFF_FFFF_FFFF_FFFF) == Some(n as nat),
{
    u64::from_str(s)
}

/// Parses a byte size such as `1k`, `10M` or `100G` (binary multiples; the
/// text is trimmed first). The number must parse as a `u64`, else its parse
/// error is returned; the product must fit in a `u64`.
pub fn parse_byte_size(s: &str) -> (r: Result<u64, core::num::ParseIntError>)
    requires
        parsed_unsigned(byte_size_digits(s@), 0xFFFF_FFFF_FFFF_FFFF) matches Some(n)
            ==> n * byte_size_factor(s@) <= u64::MAX,
    ensures
        r is Ok <==> parsed_unsigned(byte_size_digits(s@), 0xFFFF_FFFF_FFFF_FFFF) is Some,
        r matches Ok(v) ==> parsed_unsigned(byte_size_digits(s@), 0xFFFF_FFFF_FFFF_FFFF) matches Some(n)
            && v == n * byte_size_factor(s@),
{
    let t = trim(s);
    let n = t.unicode_len();
    let multiplier: u64 = if n > 0 {
        let c = t.get_char(n - 1);
        if c == 'T' || c == 't' {
            0x100_0000_0000
        } else if c == 'G' || c == 'g' {
            0x4000_0000
        } else if c == 'M' || c == 'm' {
            0x10_0000
        } else if c == 'K' || c == 'k' {
            0x400
        } else {
            1
        }
    } else {
        1
    };
    let digits = if multiplier == 1 { t } else { t.substring_char(0, n - 1) };
    proof {
        if multiplier != 1 {
            assert(digits@ =~= t@.drop_last());
        }
    }
    match u64_from_str(digits) {
        Ok(v) => {
            proof {
                assert(v * multiplier <= u64::MAX);
            }
            Ok(v * multiplier)
        },
        Err(e) => Err(e),
    }
}

} // verus!
