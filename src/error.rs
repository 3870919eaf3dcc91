use vstd::prelude::*;

verus! {

/// The ways in which an indicator can refuse its input.
#[derive(Debug, Clone, Copy, PartialEq, Eq, Structural)]
pub enum ToolkitError {
    /// A series that must hold at least one element is empty.
    EmptyData,
    /// A series is shorter than the indicator's minimum length.
    DataNotEnough,
    /// An input breaks a structural precondition.
    InvalidData,
}

impl ToolkitError {
    /// The human-readable text of the error.
    pub fn message(&self) -> (r: &'static str)
        ensures
            *self == ToolkitError::EmptyData ==> r@ == "Empty data"@,
            *self == ToolkitError::DataNotEnough ==> r@ == "Data not enough"@,
            *self == ToolkitError::InvalidData ==> r@ == "Data invalid"@,
    {
        match self {
            ToolkitError::EmptyData => "Empty data",
            ToolkitError::DataNotEnough => "Data not enough",
            ToolkitError::InvalidData => "Data invalid",
        }
    }
}

} // verus!
