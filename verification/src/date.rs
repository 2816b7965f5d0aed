//! Calendar dates as plain numeric fields, rendered without zero padding.
use crate::digits::dec_of;
use vstd::prelude::*;

verus! {

/// A calendar date held as its numeric parts.
#[derive(Clone, Copy, PartialEq, Eq, Structural)]
pub struct RecordDate {
    pub year: u16,
    pub month: u8,
    pub day: u8,
}

/// The `year-month-day` notation of a date, each part in plain decimal.
pub open spec fn date_text(d: RecordDate) -> Seq<char> {
    dec_of(d.year as nat) + seq!['-'] + dec_of(d.month as nat) + seq!['-'] + dec_of(d.day as nat)
}

impl RecordDate {
    /// Render the date as `year-month-day` with no zero padding.
    pub fn to_display_string(&self) -> (r: String)
        ensures
            r@ == date_text(*self),
    {
        proof {
            reveal_strlit("-");
        }
        let mut s = crate::digits::u64_to_dec_string(self.year as u64);
        s.append("-");
        let m = crate::digits::u64_to_dec_string(self.month as u64);
        s.append(m.as_str());
        s.append("-");
        let d = crate::digits::u64_to_dec_string(self.day as u64);
        s.append(d.as_str());
        proof {
            assert(("-")@ =~= seq!['-']);
            assert(s@ =~= date_text(*self));
        }
        s
    }
}

} // verus!
