//! The register and timing capabilities the loader drives, and the trace
//! of operations a port records.

use vstd::prelude::*;

verus! {

/// One operation performed on the configuration port: a direction setup,
/// an output-register write, an input-register read (with the value that
/// came back), a busy-wait, or a clock sample (with the millisecond value
/// that came back).
#[derive(Clone, Copy, Debug, PartialEq, Eq, Structural)]
pub enum Event {
    OutputEnable(u8),
    Write(u8),
    Read(u8),
    Wait(u64),
    Now(u64),
}

/// Register-style access to the configuration lines plus a monotonic-ish
/// clock, as one injected capability. Each method appends exactly one
/// event to the port's trace; what a read or a clock sample returns is
/// left open (it is the hardware's answer), but the trace records it.
pub trait Port {
    /// The operations performed on this port so far, oldest first.
    spec fn trace(&self) -> Seq<Event>;

    /// Configure which lines are outputs (set bits of `mask`).
    fn set_output_enable(&mut self, mask: u8)
        ensures
            final(self).trace() == old(self).trace().push(Event::OutputEnable(mask)),
    ;

    /// Drive the output lines to the bit pattern `value`.
    fn write_outputs(&mut self, value: u8)
        ensures
            final(self).trace() == old(self).trace().push(Event::Write(value)),
    ;

    /// Sample the input lines.
    fn read_inputs(&mut self) -> (r: u8)
        ensures
            final(self).trace() == old(self).trace().push(Event::Read(r)),
    ;

    /// Busy-wait for `us` microseconds.
    fn busy_wait_us(&mut self, us: u64)
        ensures
            final(self).trace() == old(self).trace().push(Event::Wait(us)),
    ;

    /// Read the elapsed-time counter, in milliseconds.
    fn now_ms(&mut self) -> (t: u64)
        ensures
            final(self).trace() == old(self).trace().push(Event::Now(t)),
    ;
}

} // verus!
