//! The version under which the service runs.
//!
//! The build manifest records the version that was built. Deploying bumps
//! that version by one after the build, so the version that runs is one
//! more than the manifest says.

use vstd::prelude::*;
use crate::decimal::{decimal_u32, parse_digits};
use crate::text::chars_of;

verus! {

/// The integer that `field` writes in decimal: digits, which one sign, `+`
/// or `-`, may precede, with a value that fits an `i32`.
pub open spec fn signed_number(field: Seq<char>) -> Option<i32> {
    if field.len() > 0 && field[0] == '-' {
        match decimal_u32(field.skip(1)) {
            Some(magnitude) if magnitude <= 0x8000_0000u32 => Some((-(magnitude as int)) as i32),
            _ => None,
        }
    } else {
        let digits = if field.len() > 0 && field[0] == '+' {
            field.skip(1)
        } else {
            field
        };
        match decimal_u32(digits) {
            Some(magnitude) if magnitude <= 0x7fff_ffffu32 => Some(magnitude as i32),
            _ => None,
        }
    }
}

/// The version that was built, as the manifest's version field gives it. A
/// field that writes no integer counts as version zero.
pub open spec fn built_version(field: Seq<char>) -> i32 {
    match signed_number(field) {
        Some(version) => version,
        None => 0,
    }
}

/// The version that runs: one more than the version that was built. There
/// is none where the version built is the largest `i32`.
pub open spec fn deployed_version(field: Seq<char>) -> Option<i32> {
    if built_version(field) < i32::MAX {
        Some((built_version(field) + 1) as i32)
    } else {
        None
    }
}

/// Reads a decimal integer with an optional sign.
fn parse_signed(field: &str) -> (r: Option<i32>)
    ensures
        r == signed_number(field@),
{
    let chars = chars_of(field);
    let n = chars.len();
    if n > 0 && chars[0] == '-' {
        assert(field@.skip(1) == chars@.subrange(1, n as int));
        match parse_digits(&chars, 1, n) {
            Some(magnitude) => {
                if magnitude <= 0x7fff_ffff {
                    Some(-(magnitude as i32))
                } else if magnitude == 0x8000_0000 {
                    Some(i32::MIN)
                } else {
                    None
                }
            },
            None => None,
        }
    } else {
        let start: usize = if n > 0 && chars[0] == '+' {
            1
        } else {
            0
        };
        assert(chars@.subrange(start as int, n as int) == if start == 1 {
            field@.skip(1)
        } else {
            field@
        });
        match parse_digits(&chars, start, n) {
            Some(magnitude) => {
                if magnitude <= 0x7fff_ffff {
                    Some(magnitude as i32)
                } else {
                    None
                }
            },
            None => None,
        }
    }
}

/// Gives the version that runs, from the version field of the build
/// manifest.
pub fn get_version(version_field: &str) -> (r: Option<i32>)
    ensures
        r == deployed_version(version_field@),
{
    let built = match parse_signed(version_field) {
        Some(version) => version,
        None => 0,
    };
    if built < i32::MAX {
        Some(built + 1)
    } else {
        None
    }
}

} // verus!
