//! Recognising the tail of fractional seconds and zone marker.
use vstd::prelude::*;
use crate::strings::{alphanumeric_in, digits_only, has_alphanumeric};
use crate::text::all_digits;

verus! {

/// Three digits, or three or more digits followed by one alphanumeric
/// character (a zone marker such as `Z`).
pub open spec fn is_subseconds(s: Seq<char>) -> bool {
    if s.len() > 3 {
        all_digits(s.drop_last()) && alphanumeric_in(seq![s.last()])
    } else if s.len() == 3 {
        all_digits(s)
    } else {
        false
    }
}

/// Whether the text after the last full stop is a tail of milliseconds,
/// microseconds or nanoseconds, with an optional marker character at the end.
pub fn segment_is_subseconds(segment: &str) -> (r: bool)
    ensures
        r == is_subseconds(segment@),
{
    let s_len = segment.unicode_len();
    if s_len >= 3 {
        if s_len > 3 {
            let head = segment.substring_char(0, s_len - 1);
            let last = segment.substring_char(s_len - 1, s_len);
            assert(head@ =~= segment@.drop_last());
            assert(last@ =~= seq![segment@.last()]);
            digits_only(head) && has_alphanumeric(last)
        } else {
            digits_only(segment)
        }
    } else {
        false
    }
}

} // verus!
