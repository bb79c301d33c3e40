//! A validated time of day, held as plain hour, minute and second components.
use vstd::prelude::*;

use crate::strutil::spec_nat_digits;
use crate::strutil::u32_string;

verus! {

/// Components of a valid 24-hour time.
pub open spec fn hms_valid(h: int, m: int, s: int) -> bool {
    0 <= h <= 23 && 0 <= m <= 59 && 0 <= s <= 59
}

/// A time of day whose components have been checked.
#[derive(Clone, Copy, Debug, PartialEq, Eq, Structural)]
pub struct TimeWrapper {
    pub hour: u8,
    pub minute: u8,
    pub second: u8,
}

/// A component rendered as exactly two digits.
pub open spec fn spec_pad2(n: int) -> Seq<char> {
    if n < 10 {
        seq!['0'] + spec_nat_digits(n as nat)
    } else {
        spec_nat_digits(n as nat)
    }
}

/// The display form of a time: zero-padded `hour:minute:second`.
pub open spec fn time_text(h: int, m: int, s: int) -> Seq<char> {
    spec_pad2(h) + seq![':'] + spec_pad2(m) + seq![':'] + spec_pad2(s)
}

/// The short display form: zero-padded `hour:minute`, seconds left out.
pub open spec fn hm_text(h: int, m: int) -> Seq<char> {
    spec_pad2(h) + seq![':'] + spec_pad2(m)
}

/// Renders a component as exactly two digits.
pub fn pad2(n: u8) -> (r: String)
    requires
        n <= 99,
    ensures
        r@ == spec_pad2(n as int),
{
    if n < 10 {
        let mut r = String::from_str("0");
        let d = u32_string(n as u32);
        r.append(d.as_str());
        proof {
            reveal_strlit("0");
            assert(r@ =~= spec_pad2(n as int));
        }
        r
    } else {
        u32_string(n as u32)
    }
}

impl TimeWrapper {
    /// The type's invariant.
    pub open spec fn wf(self) -> bool {
        hms_valid(self.hour as int, self.minute as int, self.second as int)
    }

    /// Builds a time after checking the components; returns `None` exactly
    /// on out-of-range components.
    pub fn from_hms(h: u8, m: u8, s: u8) -> (r: Option<TimeWrapper>)
        ensures
            hms_valid(h as int, m as int, s as int) ==> r == Some(
                TimeWrapper { hour: h, minute: m, second: s },
            ),
            !hms_valid(h as int, m as int, s as int) ==> r is None,
    {
        if h <= 23 && m <= 59 && s <= 59 {
            Some(TimeWrapper { hour: h, minute: m, second: s })
        } else {
            None
        }
    }

    /// Renders the hour and minute alone, as a span displays them.
    pub fn format_hm(&self) -> (r: String)
        requires
            self.wf(),
        ensures
            r@ == hm_text(self.hour as int, self.minute as int),
    {
        let mut r = pad2(self.hour);
        r.append(":");
        let m = pad2(self.minute);
        r.append(m.as_str());
        proof {
            reveal_strlit(":");
            assert(":"@ =~= seq![':']);
            assert(r@ =~= hm_text(self.hour as int, self.minute as int));
        }
        r
    }

    /// Renders the time for display.
    pub fn format(&self) -> (r: String)
        requires
            self.wf(),
        ensures
            r@ == time_text(self.hour as int, self.minute as int, self.second as int),
    {
        let mut r = pad2(self.hour);
        r.append(":");
        let m = pad2(self.minute);
        r.append(m.as_str());
        r.append(":");
        let s = pad2(self.second);
        r.append(s.as_str());
        proof {
            reveal_strlit(":");
            assert(":"@ =~= seq![':']);
            assert(r@ =~= time_text(self.hour as int, self.minute as int, self.second as int));
        }
        r
    }
}

} // verus!
