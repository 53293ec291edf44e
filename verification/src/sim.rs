//! A scripted, fully verified stand-in for the real configuration
//! interface, for exercising the driver without hardware.

use vstd::prelude::*;
use crate::port::{Event, Port};

verus! {

/// A simulated port: it records every operation in `events` and answers
/// input and clock samples from the `reads` and `times` scripts in
/// order, falling back to a fixed default once a script runs out.
pub struct SimPort {
    /// Every operation performed so far, oldest first.
    pub events: Vec<Event>,
    /// Scripted answers for input samples, consumed in order.
    pub reads: Vec<u8>,
    /// How many scripted read answers have been consumed.
    pub next_read: usize,
    /// The answer for input samples once the script is exhausted.
    pub default_read: u8,
    /// Scripted answers for clock samples, consumed in order.
    pub times: Vec<u64>,
    /// How many scripted clock answers have been consumed.
    pub next_time: usize,
    /// The answer for clock samples once the script is exhausted.
    pub default_time: u64,
}

impl SimPort {
    /// A fresh simulated port: empty trace, nothing consumed yet.
    pub fn new(reads: Vec<u8>, default_read: u8, times: Vec<u64>, default_time: u64) -> (p:
        SimPort)
        ensures
            p.trace() == Seq::<Event>::empty(),
            p.reads@ == reads@,
            p.next_read == 0,
            p.default_read == default_read,
            p.times@ == times@,
            p.next_time == 0,
            p.default_time == default_time,
    {
        SimPort {
            events: Vec::new(),
            reads,
            next_read: 0,
            default_read,
            times,
            next_time: 0,
            default_time,
        }
    }
}

impl Port for SimPort {
    open spec fn trace(&self) -> Seq<Event> {
        self.events@
    }

    fn set_output_enable(&mut self, mask: u8) {
        self.events.push(Event::OutputEnable(mask));
    }

    fn write_outputs(&mut self, value: u8) {
        self.events.push(Event::Write(value));
    }

    fn read_inputs(&mut self) -> (r: u8)
        ensures
            r == (if old(self).next_read < old(self).reads@.len() {
                old(self).reads@[old(self).next_read as int]
            } else {
                old(self).default_read
            }),
    {
        let r = if self.next_read < self.reads.len() {
            let v = self.reads[self.next_read];
            self.next_read = self.next_read + 1;
            v
        } else {
            self.default_read
        };
        self.events.push(Event::Read(r));
        r
    }

    fn busy_wait_us(&mut self, us: u64) {
        self.events.push(Event::Wait(us));
    }

    fn now_ms(&mut self) -> (t: u64)
        ensures
            t == (if old(self).next_time < old(self).times@.len() {
                old(self).times@[old(self).next_time as int]
            } else {
                old(self).default_time
            }),
    {
        let t = if self.next_time < self.times.len() {
            let v = self.times[self.next_time];
            self.next_time = self.next_time + 1;
            v
        } else {
            self.default_time
        };
        self.events.push(Event::Now(t));
        t
    }
}

} // verus!
