//! Display formatting of elapsed time.
use vstd::prelude::*;

use crate::text::spec_pad2;
use crate::text::u64_to_padded_string;

verus! {

/// Formats an elapsed time for display. Implemented for a duration given in
/// milliseconds and for the optional elapsed-time field of a score record.
pub trait DurationFormatter {
    /// The exact character sequence the formatter yields.
    spec fn spec_format(self) -> Seq<char>;

    fn format_duration(self) -> (r: String)
        ensures
            r@ == self.spec_format(),
    ;
}

/// A duration in milliseconds is shown as `MM:SS`, each part zero-padded to
/// two digits; the minute count is not capped.
impl DurationFormatter for u64 {
    open spec fn spec_format(self) -> Seq<char> {
        spec_pad2((self / 1000 / 60) as nat) + ":"@ + spec_pad2(((self / 1000) % 60) as nat)
    }

    fn format_duration(self) -> (r: String) {
        let total_seconds = self / 1000;
        let seconds = total_seconds % 60;
        let minutes = total_seconds / 60;
        let mut r = u64_to_padded_string(minutes);
        r.append(":");
        let sec_part = u64_to_padded_string(seconds);
        r.append(sec_part.as_str());
        r
    }
}

/// The optional elapsed time of a score record: absent times — records older
/// than time tracking — format as nothing at all, present times as the
/// parenthesized duration.
impl DurationFormatter for Option<u64> {
    open spec fn spec_format(self) -> Seq<char> {
        match self {
            Some(time) => " ("@ + time.spec_format() + ")"@,
            None => Seq::<char>::empty(),
        }
    }

    fn format_duration(self) -> (r: String) {
        match self {
            Some(time) => {
                let mut r = String::new();
                r.append(" (");
                let inner = time.format_duration();
                r.append(inner.as_str());
                r.append(")");
                proof {
                    assert(r@ =~= " ("@ + time.spec_format() + ")"@);
                }
                r
            },
            None => {
                let r = String::new();
                proof {
                    assert(r@ =~= Seq::<char>::empty());
                }
                r
            },
        }
    }
}

} // verus!
