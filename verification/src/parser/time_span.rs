//! A resolved time specification: a single time of day or a range.
use vstd::prelude::*;

use super::time_wrapper::hm_text;
use super::time_wrapper::TimeWrapper;

verus! {

/// One time of day, or a start and an end displayed as given (no ordering is
/// enforced between them).
#[derive(Clone, Copy, Debug, PartialEq, Eq, Structural)]
pub enum TimeSpan {
    Unit(TimeWrapper),
    Range(TimeWrapper, TimeWrapper),
}

/// The display form of a span: one `hour:minute` pair, or two separated by
/// a dash, the end shown with its own components.
pub open spec fn span_text(ts: TimeSpan) -> Seq<char> {
    match ts {
        TimeSpan::Unit(t) => hm_text(t.hour as int, t.minute as int),
        TimeSpan::Range(a, b) => hm_text(a.hour as int, a.minute as int) + seq![' ', '-', ' ']
            + hm_text(b.hour as int, b.minute as int),
    }
}

impl TimeSpan {
    /// The type's invariant: every held time is valid.
    pub open spec fn wf(self) -> bool {
        match self {
            TimeSpan::Unit(t) => t.wf(),
            TimeSpan::Range(a, b) => a.wf() && b.wf(),
        }
    }

    /// Wraps a single time.
    pub fn new_unit(t: TimeWrapper) -> (r: TimeSpan)
        ensures
            r == TimeSpan::Unit(t),
    {
        TimeSpan::Unit(t)
    }

    /// Wraps a start and an end.
    pub fn new_range(t1: TimeWrapper, t2: TimeWrapper) -> (r: TimeSpan)
        ensures
            r == TimeSpan::Range(t1, t2),
    {
        TimeSpan::Range(t1, t2)
    }

    /// Renders the span for display.
    pub fn format(&self) -> (r: String)
        requires
            self.wf(),
        ensures
            r@ == span_text(*self),
    {
        match self {
            TimeSpan::Unit(t) => t.format_hm(),
            TimeSpan::Range(a, b) => {
                let mut r = a.format_hm();
                r.append(" - ");
                let bs = b.format_hm();
                r.append(bs.as_str());
                proof {
                    reveal_strlit(" - ");
                    assert(" - "@ =~= seq![' ', '-', ' ']);
                    assert(r@ =~= span_text(*self));
                }
                r
            },
        }
    }
}

} // verus!
