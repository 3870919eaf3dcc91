use vstd::prelude::*;

use crate::error::ToolkitError;
use crate::order::{is_time_order, time_order};

verus! {

/// Which line of the stochastic oscillator a reading belongs to.
#[derive(Debug, Clone, Copy, PartialEq, Eq, Structural)]
pub enum StochasticKind {
    /// A %K reading.
    Fast,
    /// A %D reading.
    Slow,
}

/// The line and time stamp of one stochastic reading.
#[derive(Debug, Clone, Copy, PartialEq, Eq, Structural)]
pub struct StochasticStamp {
    pub kind: StochasticKind,
    pub epoch_time: u128,
}

/// The time stamps of `readings`, in their order.
pub open spec fn stamps_of(readings: Seq<StochasticStamp>) -> Seq<u128> {
    readings.map_values(|s: StochasticStamp| s.epoch_time)
}

/// Some reading of `readings` is already on the slow line.
pub open spec fn has_slow(readings: Seq<StochasticStamp>) -> bool {
    exists|k: int| 0 <= k < readings.len() && (#[trigger] readings[k]).kind == StochasticKind::Slow
}

/// The time stamps of `readings`, in their order.
pub fn stamps(readings: &Vec<StochasticStamp>) -> (r: Vec<u128>)
    ensures
        r@ == stamps_of(readings@),
{
    let mut times: Vec<u128> = Vec::new();
    let mut i: usize = 0;
    while i < readings.len()
        invariant
            i <= readings@.len(),
            times@ == stamps_of(readings@.subrange(0, i as int)),
        decreases readings@.len() - i,
    {
        times.push(readings[i].epoch_time);
        i = i + 1;
        assert(stamps_of(readings@.subrange(0, i as int)) =~= times@);
    }
    assert(readings@.subrange(0, i as int) =~= readings@);
    times
}

/// Checks fast readings that are to be averaged into one slow reading, and
/// gives their stable time order. A slow reading among them gives
/// `InvalidData`; an empty list gives `EmptyData`.
pub fn into_slow_order(readings: &Vec<StochasticStamp>) -> (r: Result<Vec<usize>, ToolkitError>)
    ensures
        r == Err::<Vec<usize>, ToolkitError>(ToolkitError::InvalidData) <==> has_slow(readings@),
        r == Err::<Vec<usize>, ToolkitError>(ToolkitError::EmptyData) <==> readings@.len() == 0,
        r is Ok <==> !has_slow(readings@) && readings@.len() > 0,
        r matches Ok(order) ==> is_time_order(stamps_of(readings@), order@),
        r matches Ok(order) ==> forall|j: usize|
            j < readings@.len() ==> #[trigger] order@.contains(j),
{
    let mut i: usize = 0;
    while i < readings.len()
        invariant
            i <= readings@.len(),
            forall|k: int| 0 <= k < i ==> (#[trigger] readings@[k]).kind == StochasticKind::Fast,
        decreases readings@.len() - i,
    {
        if readings[i].kind == StochasticKind::Slow {
            return Err(ToolkitError::InvalidData);
        }
        i = i + 1;
    }
    if readings.len() == 0 {
        return Err(ToolkitError::EmptyData);
    }
    let times = stamps(readings);
    Ok(time_order(&times))
}

} // verus!
