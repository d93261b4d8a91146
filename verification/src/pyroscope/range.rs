//! Time ranges of profile queries.

use crate::time_range::{range_secs, read_range};
use crate::text::trimmed;
use vstd::prelude::*;
use vstd::string::*;
use vstd::utf8::*;

verus! {

/// The seconds of a range in minutes, hours or days, as a mathematical number.
pub open spec fn profile_range_secs(s: Seq<char>) -> Option<int> {
    let b = encode_utf8(trimmed(s));
    if b.len() > 0 && b.last() == 's' as u8 {
        None
    } else {
        range_secs(s)
    }
}

/// Parses "15m", "1h", "6h", "24h", "7d" to seconds.
pub fn parse_time_range(s: &str) -> (r: Option<u64>)
    requires
        profile_range_secs(s@) is Some ==> profile_range_secs(s@)->0 <= u64::MAX,
    ensures
        match r {
            Some(v) => profile_range_secs(s@) == Some(v as int),
            None => profile_range_secs(s@) is None,
        },
{
    match read_range(s) {
        Some((v, unit)) => if unit == 1 {
            None
        } else {
            Some(v * unit)
        },
        None => None,
    }
}

} // verus!
