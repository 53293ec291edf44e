//! The terminal failures one load attempt can end in.

use vstd::prelude::*;

verus! {

/// Why a load attempt failed. Every failure is terminal for the attempt:
/// the caller may retry the whole call, but nothing is retried inside.
#[derive(Clone, Copy, Debug, PartialEq, Eq, Structural)]
pub enum LoadError {
    /// The header's magic tag is not the expected one.
    BadMagic,
    /// The header declares a payload longer than the target accepts.
    ImageTooLarge,
    /// The target never raised init-ready after the reset pulse.
    InitTimeout,
    /// Init-ready dropped while the payload was being shifted: the target
    /// rejected the partial bitstream.
    MidStreamAbort,
    /// The completion signal did not come within the polling deadline.
    DoneTimeout,
}

impl LoadError {
    /// A human-readable cause, one fixed line per failure kind.
    pub fn message(&self) -> (s: &'static str)
        ensures
            *self == LoadError::BadMagic ==> s@ == "Slave FPGA gateware magic not found"@,
            *self == LoadError::ImageTooLarge ==> s@ == "Slave FPGA gateware too large (corrupted?)"@,
            *self == LoadError::InitTimeout ==> s@ == "Slave FPGA did not initialize."@,
            *self == LoadError::MidStreamAbort ==> s@ == "Slave FPGA error: INIT_B went low."@,
            *self == LoadError::DoneTimeout ==> s@ == "Slave FPGA not DONE"@,
    {
        match self {
            LoadError::BadMagic => "Slave FPGA gateware magic not found",
            LoadError::ImageTooLarge => "Slave FPGA gateware too large (corrupted?)",
            LoadError::InitTimeout => "Slave FPGA did not initialize.",
            LoadError::MidStreamAbort => "Slave FPGA error: INIT_B went low.",
            LoadError::DoneTimeout => "Slave FPGA not DONE",
        }
    }
}

} // verus!
