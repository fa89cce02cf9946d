//! The geolocation diagnostic for cut scenes.
//!
//! The diagnostic is one log line that tells where the client is. It has no
//! part in routing: a client whose country cannot be told is logged as
//! unknown, and the request goes on.

use vstd::prelude::*;
use vstd::string::StringExecFns;
use crate::text::chars_of;

verus! {

/// The country code of the United States.
pub open spec fn is_us(country_code: Seq<char>) -> bool {
    country_code == seq!['U', 'S']
}

/// The diagnostic line for a client in the country `country_code`, `None`
/// where the country is not known.
pub open spec fn geo_line(country_code: Option<Seq<char>>) -> Seq<char> {
    match country_code {
        Some(code) => if is_us(code) {
            "We're in the USA!"@
        } else {
            "We're in: "@ + code
        },
        None => "We're in: unknown"@,
    }
}

/// Writes the diagnostic line for a client in the country `country_code`,
/// `None` where the lookup gave no country.
pub fn geo_diagnostic(country_code: Option<&str>) -> (line: String)
    ensures
        line@ == geo_line(
            match country_code {
                Some(code) => Some(code@),
                None => None,
            },
        ),
{
    match country_code {
        Some(code) => {
            let c = chars_of(code);
            if c.len() == 2 && c[0] == 'U' && c[1] == 'S' {
                assert(code@ == seq!['U', 'S']);
                String::from_str("We're in the USA!")
            } else {
                String::from_str("We're in: ").concat(code)
            }
        },
        None => String::from_str("We're in: unknown"),
    }
}

} // verus!
