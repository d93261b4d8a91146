//! Units of profile samples.

use crate::text::{lemma_boundary_after_ascii, str_eq, substr, text_in};
use crate::time_range::{find_byte, first_index};
use vstd::prelude::*;
use vstd::string::*;
use vstd::utf8::*;

verus! {

/// Unit category derived from the sample unit segment of a profile type ID.
///
/// Profile type ID format:
/// `<group>:<sample_type>:<sample_unit>:<period_type>:<period_unit>`.
/// The third segment is the sample unit: "nanoseconds", "bytes", or others.
#[derive(Debug, Clone, Copy, PartialEq, Eq, Structural)]
pub enum ProfileUnit {
    Nanoseconds,
    Bytes,
    Count,
}

/// The third segment of an ID, if it has one.
pub open spec fn third_segment(b: Seq<u8>) -> Option<Seq<char>> {
    match first_index(b, 0, ':' as u8) {
        None => None,
        Some(i) => match first_index(b, i + 1, ':' as u8) {
            None => None,
            Some(j) => Some(
                match first_index(b, j + 1, ':' as u8) {
                    Some(k) => text_in(b, j + 1, k),
                    None => text_in(b, j + 1, b.len() as int),
                },
            ),
        },
    }
}

/// The unit of a profile type ID.
pub open spec fn unit_of(id: Seq<char>) -> ProfileUnit {
    let segment = third_segment(encode_utf8(id));
    if segment == Some("nanoseconds"@) {
        ProfileUnit::Nanoseconds
    } else if segment == Some("bytes"@) {
        ProfileUnit::Bytes
    } else {
        ProfileUnit::Count
    }
}

/// The label of a unit.
pub open spec fn unit_label(unit: ProfileUnit) -> Seq<char> {
    match unit {
        ProfileUnit::Nanoseconds => "ns"@,
        ProfileUnit::Bytes => "bytes"@,
        ProfileUnit::Count => "count"@,
    }
}

impl ProfileUnit {
    /// Derive the unit from a profile type ID.
    pub fn from_profile_type_id(id: &str) -> (r: Self)
        ensures
            r == unit_of(id@),
    {
        let b = id.as_bytes();
        proof {
            encode_utf8_valid_utf8(id@);
            is_char_boundary_start_end_of_seq(b@);
        }
        let i = match find_byte(b, 0, ':' as u8) {
            Some(i) => i,
            None => {
                return ProfileUnit::Count;
            },
        };
        let j = match find_byte(b, i + 1, ':' as u8) {
            Some(j) => j,
            None => {
                return ProfileUnit::Count;
            },
        };
        let end = match find_byte(b, j + 1, ':' as u8) {
            Some(k) => k,
            None => b.len(),
        };
        proof {
            lemma_boundary_after_ascii(b@, j as int);
            if end < b.len() {
                lemma_boundary_after_ascii(b@, end as int);
            }
        }
        let segment = substr(id, j + 1, end);
        if str_eq(segment, "nanoseconds") {
            ProfileUnit::Nanoseconds
        } else if str_eq(segment, "bytes") {
            ProfileUnit::Bytes
        } else {
            ProfileUnit::Count
        }
    }

    /// Short label for axes and status lines.
    pub fn label(self) -> (r: &'static str)
        ensures
            r@ == unit_label(self),
    {
        match self {
            ProfileUnit::Nanoseconds => "ns",
            ProfileUnit::Bytes => "bytes",
            ProfileUnit::Count => "count",
        }
    }
}

} // verus!
