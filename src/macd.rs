use vstd::prelude::*;

use crate::error::ToolkitError;
use crate::window::{is_latest_window, latest_window, lemma_latest_suffix};

verus! {

/// Elements behind the long average, and the fewest that a series may hold.
pub const LONG_SPAN: usize = 26;

/// Elements behind the short average.
pub const SHORT_SPAN: usize = 12;

/// Elements behind the signal average.
pub const SIGNAL_SPAN: usize = 9;

/// The positions, in time order, of the elements behind each of the three
/// averages of a moving-average convergence/divergence.
pub struct MacdWindows {
    /// The latest `LONG_SPAN` elements.
    pub long: Vec<usize>,
    /// The latest `SHORT_SPAN` elements.
    pub short: Vec<usize>,
    /// The latest `SIGNAL_SPAN` elements.
    pub signal: Vec<usize>,
}

/// The windows of a convergence/divergence over the series stamped with
/// `times`: only its `LONG_SPAN` most recent elements take part, and a shorter
/// series gives `DataNotEnough`. The short and signal windows are the ends of
/// the long one.
pub fn macd_windows(times: &Vec<u128>) -> (r: Result<MacdWindows, ToolkitError>)
    ensures
        r is Err <==> times@.len() < LONG_SPAN,
        r is Err ==> r == Err::<MacdWindows, ToolkitError>(ToolkitError::DataNotEnough),
        r matches Ok(w) ==> {
            &&& is_latest_window(times@, w.long@, LONG_SPAN as nat)
            &&& is_latest_window(times@, w.short@, SHORT_SPAN as nat)
            &&& is_latest_window(times@, w.signal@, SIGNAL_SPAN as nat)
            &&& w.short@ == w.long@.subrange(LONG_SPAN - SHORT_SPAN, LONG_SPAN as int)
            &&& w.signal@ == w.long@.subrange(LONG_SPAN - SIGNAL_SPAN, LONG_SPAN as int)
        },
{
    let long = match latest_window(times, LONG_SPAN) {
        Ok(w) => w,
        Err(e) => return Err(e),
    };
    let mut short: Vec<usize> = Vec::new();
    let mut signal: Vec<usize> = Vec::new();
    let mut i: usize = LONG_SPAN - SHORT_SPAN;
    while i < LONG_SPAN
        invariant
            LONG_SPAN - SHORT_SPAN <= i <= LONG_SPAN,
            long@.len() == LONG_SPAN,
            short@ == long@.subrange(LONG_SPAN - SHORT_SPAN, i as int),
            signal@ == long@.subrange(LONG_SPAN - SIGNAL_SPAN, if i < LONG_SPAN - SIGNAL_SPAN {
                LONG_SPAN - SIGNAL_SPAN
            } else {
                i as int
            }),
        decreases LONG_SPAN - i,
    {
        short.push(long[i]);
        if i >= LONG_SPAN - SIGNAL_SPAN {
            signal.push(long[i]);
        }
        i = i + 1;
    }
    proof {
        lemma_latest_suffix(times@, long@, LONG_SPAN as nat, SHORT_SPAN as nat);
        lemma_latest_suffix(times@, long@, LONG_SPAN as nat, SIGNAL_SPAN as nat);
    }
    Ok(MacdWindows { long, short, signal })
}

} // verus!
