//! The configuration driver: reset pulse, init-ready wait, MSB-first
//! payload shifting, and the bounded completion poll, all specified as
//! the exact trace of port operations each phase performs.

use vstd::prelude::*;
use vstd::slice::slice_subrange;
use crate::error::LoadError;
use crate::image::{header_ok, length_of, magic_of, payload_of, validate, MAGIC, MAX_IMAGE_BYTES};
use crate::port::{Event, Port};

verus! {

/// Configuration clock line, driven by the controller.
pub const CCLK_BIT: u8 = 0x01;

/// Serial data line into the target, driven by the controller.
pub const DIN_BIT: u8 = 0x02;

/// Completion signal, driven by the target.
pub const DONE_BIT: u8 = 0x04;

/// Init-ready signal, driven by the target.
pub const INIT_B_BIT: u8 = 0x08;

/// Active-low configuration reset, driven by the controller.
pub const PROGRAM_B_BIT: u8 = 0x10;

/// The lines the controller configures as outputs.
pub const OUTPUT_LINES: u8 = CCLK_BIT | DIN_BIT | PROGRAM_B_BIT;

/// The filler byte clocked while polling for completion and once after it.
pub const FILLER: u8 = 0xFF;

/// The output pattern holding bit `i` (most significant first) of `data`
/// on DIN, with PROGRAM_B asserted and CCLK low.
pub open spec fn din_pattern(data: u8, i: int) -> u8 {
    if data & (0x80u8 >> (i as u8)) != 0 {
        PROGRAM_B_BIT | DIN_BIT
    } else {
        PROGRAM_B_BIT
    }
}

/// The two writes that emit bit `i` of `data`: present the bit with CCLK
/// low, then raise CCLK with the bit held.
pub open spec fn bit_events(data: u8, i: int) -> Seq<Event> {
    seq![
        Event::Write(din_pattern(data, i)),
        Event::Write(din_pattern(data, i) | CCLK_BIT),
    ]
}

/// The writes that emit the first `n` bits of `data`, most significant
/// first.
pub open spec fn shift_events_upto(data: u8, n: int) -> Seq<Event>
    decreases n,
{
    if n <= 0 {
        Seq::empty()
    } else {
        shift_events_upto(data, n - 1) + bit_events(data, n - 1)
    }
}

/// The 16 writes that shift one whole byte out, MSB first.
pub open spec fn shift_events(data: u8) -> Seq<Event> {
    shift_events_upto(data, 8)
}

proof fn lemma_upto_len(data: u8, n: int)
    requires
        0 <= n,
    ensures
        shift_events_upto(data, n).len() == 2 * n,
    decreases n,
{
    if n > 0 {
        lemma_upto_len(data, n - 1);
    }
}

proof fn lemma_upto_index(data: u8, n: int, i: int)
    requires
        0 <= i < n,
    ensures
        shift_events_upto(data, n)[2 * i] == Event::Write(din_pattern(data, i)),
        shift_events_upto(data, n)[2 * i + 1] == Event::Write(din_pattern(data, i) | CCLK_BIT),
    decreases n,
{
    lemma_upto_len(data, n - 1);
    if i < n - 1 {
        lemma_upto_index(data, n - 1, i);
    }
}

/// MSB-first shift order: within one byte's 16 writes, the `i`-th clock
/// period presents bit `i` of the byte (counting from the most
/// significant) on DIN with CCLK low, then raises CCLK with the bit held;
/// PROGRAM_B stays asserted and DIN never changes across the rising edge.
pub proof fn lemma_shift_order(data: u8, i: int)
    requires
        0 <= i < 8,
    ensures
        shift_events(data).len() == 16,
        shift_events(data)[2 * i] == Event::Write(din_pattern(data, i)),
        shift_events(data)[2 * i + 1] == Event::Write(din_pattern(data, i) | CCLK_BIT),
        din_pattern(data, i) & CCLK_BIT == 0,
        (din_pattern(data, i) | CCLK_BIT) & CCLK_BIT == CCLK_BIT,
        (din_pattern(data, i) | CCLK_BIT) & DIN_BIT == din_pattern(data, i) & DIN_BIT,
        din_pattern(data, i) & PROGRAM_B_BIT == PROGRAM_B_BIT,
        (din_pattern(data, i) | CCLK_BIT) & PROGRAM_B_BIT == PROGRAM_B_BIT,
        (din_pattern(data, i) & DIN_BIT != 0) <==> (data & (0x80u8 >> (i as u8)) != 0),
{
    lemma_upto_len(data, 8);
    lemma_upto_index(data, 8, i);
    let p = din_pattern(data, i);
    assert(0x10u8 | 0x02u8 == 0x12u8) by (bit_vector);
    assert(p == 0x12u8 || p == 0x10u8);
    assert(0x12u8 & 0x01u8 == 0 && 0x10u8 & 0x01u8 == 0) by (bit_vector);
    assert((0x12u8 | 0x01u8) & 0x01u8 == 0x01u8 && (0x10u8 | 0x01u8) & 0x01u8 == 0x01u8)
        by (bit_vector);
    assert((0x12u8 | 0x01u8) & 0x02u8 == 0x02u8 && (0x10u8 | 0x01u8) & 0x02u8 == 0u8)
        by (bit_vector);
    assert(0x12u8 & 0x02u8 == 0x02u8 && 0x10u8 & 0x02u8 == 0u8) by (bit_vector);
    assert(0x12u8 & 0x10u8 == 0x10u8 && 0x10u8 & 0x10u8 == 0x10u8) by (bit_vector);
    assert((0x12u8 | 0x01u8) & 0x10u8 == 0x10u8 && (0x10u8 | 0x01u8) & 0x10u8 == 0x10u8)
        by (bit_vector);
}

/// The five operations of the reset phase: configure the controller's
/// lines as outputs, drive PROGRAM_B low (the minimum reset pulse),
/// release it, and give the target its maximum time to raise init-ready.
pub open spec fn reset_events() -> Seq<Event> {
    seq![
        Event::OutputEnable(OUTPUT_LINES),
        Event::Write(0),
        Event::Wait(1),
        Event::Write(PROGRAM_B_BIT),
        Event::Wait(5000),
    ]
}

/// The trace of shifting the bytes of `p` in order, sampling init-ready
/// after each byte and seeing the answers `rs` (one sample per byte).
pub open spec fn payload_steps(p: Seq<u8>, rs: Seq<u8>) -> Seq<Event>
    decreases p.len(),
{
    if p.len() == 0 {
        Seq::empty()
    } else {
        payload_steps(p.drop_last(), rs.drop_last()) + shift_events(p.last())
            + seq![Event::Read(rs.last())]
    }
}

/// A completed shift phase from trace `pre` to trace `post`: every byte
/// of `p` went out, and every init-ready sample after a byte was high.
pub open spec fn shift_phase_ok(p: Seq<u8>, pre: Seq<Event>, post: Seq<Event>) -> bool {
    exists|rs: Seq<u8>|
        rs.len() == p.len()
        && (forall|j: int| 0 <= j < rs.len() ==> rs[j] & INIT_B_BIT != 0)
        && post == pre + #[trigger] payload_steps(p, rs)
}

/// An aborted shift phase: the init-ready sample after some byte `k`
/// (counting from one) was low, every earlier sample was high, and
/// exactly `k` bytes were shifted.
pub open spec fn shift_phase_abort(p: Seq<u8>, pre: Seq<Event>, post: Seq<Event>) -> bool {
    exists|rs: Seq<u8>|
        1 <= rs.len() <= p.len()
        && (forall|j: int| 0 <= j < rs.len() - 1 ==> rs[j] & INIT_B_BIT != 0)
        && rs.last() & INIT_B_BIT == 0
        && post == pre + #[trigger] payload_steps(p.take(rs.len() as int), rs)
}

/// The trace of completion-poll iterations that saw DONE low and the
/// clock still within the deadline: each samples DONE (answers `rs`),
/// samples the clock (answers `ts`), and clocks one filler byte.
pub open spec fn poll_steps(rs: Seq<u8>, ts: Seq<u64>) -> Seq<Event>
    decreases rs.len(),
{
    if rs.len() == 0 {
        Seq::empty()
    } else {
        poll_steps(rs.drop_last(), ts.drop_last())
            + seq![Event::Read(rs.last()), Event::Now(ts.last())] + shift_events(FILLER)
    }
}

/// The poll iterations before the decisive sample: every DONE sample was
/// low and every clock sample was within 100 ms of the anchor `t0`.
pub open spec fn poll_iters_ok(rs: Seq<u8>, ts: Seq<u64>, t0: u64) -> bool {
    &&& rs.len() == ts.len()
    &&& forall|j: int| 0 <= j < rs.len() ==> rs[j] & DONE_BIT == 0
    &&& forall|j: int| 0 <= j < ts.len() ==> ts[j] <= t0 + 100
}

/// A successful completion poll from `pre` to `post`: a clock anchor,
/// some in-deadline iterations with DONE low, then a DONE-high sample,
/// one compensating filler byte, and the idle pattern (PROGRAM_B high,
/// DIN and CCLK low) written last.
pub open spec fn poll_phase_ok(pre: Seq<Event>, post: Seq<Event>) -> bool {
    exists|t0: u64, rs: Seq<u8>, ts: Seq<u64>, rf: u8|
        poll_iters_ok(rs, ts, t0)
        && rf & DONE_BIT != 0
        && post == pre + seq![Event::Now(t0)] + poll_steps(rs, ts)
            + seq![Event::Read(rf)] + shift_events(FILLER)
            + seq![Event::Write(PROGRAM_B_BIT)]
}

/// The most filler bytes one completion poll will clock before giving
/// up. One filler byte takes 16 register writes plus a read and a clock
/// sample, so this is orders of magnitude more than any real link fits
/// into the 100 ms deadline; it only bounds the loop when the clock
/// source never advances past the deadline.
pub const MAX_POLL_FILLERS: u32 = 0x1000000;

/// A completion poll that gave up after clocking the maximum number of
/// filler bytes without the clock source ever moving past the deadline:
/// every DONE sample was low and every clock sample was in-deadline.
pub open spec fn poll_phase_exhausted(pre: Seq<Event>, post: Seq<Event>) -> bool {
    exists|t0: u64, rs: Seq<u8>, ts: Seq<u64>|
        poll_iters_ok(rs, ts, t0)
        && rs.len() == MAX_POLL_FILLERS
        && post == pre + seq![Event::Now(t0)] + poll_steps(rs, ts)
}

/// A timed-out completion poll: a clock anchor, some in-deadline
/// iterations with DONE low, then one more DONE-low sample and a clock
/// sample past the 100 ms deadline, after which nothing more is done.
pub open spec fn poll_phase_timeout(pre: Seq<Event>, post: Seq<Event>) -> bool {
    exists|t0: u64, rs: Seq<u8>, ts: Seq<u64>, rl: u8, tl: u64|
        poll_iters_ok(rs, ts, t0)
        && rl & DONE_BIT == 0
        && tl > t0 + 100
        && post == pre + seq![Event::Now(t0)] + poll_steps(rs, ts)
            + seq![Event::Read(rl), Event::Now(tl)]
}

/// Shift one byte out MSB-first: for each bit, present it on DIN with
/// CCLK low, then raise CCLK, keeping PROGRAM_B asserted throughout.
/// Side effect only; the port's trace grows by exactly the 16 writes of
/// `shift_events(data)`.
pub fn shift_u8<P: Port>(port: &mut P, data: u8)
    ensures
        final(port).trace() == old(port).trace() + shift_events(data),
{
    let ghost t0 = port.trace();
    let mut i: u8 = 0;
    while i < 8
        invariant
            i <= 8,
            port.trace() == t0 + shift_events_upto(data, i as int),
        decreases 8 - i,
    {
        let mut bits: u8 = PROGRAM_B_BIT;
        if data & (0x80u8 >> i) != 0 {
            bits = bits | DIN_BIT;
        }
        assert(bits == din_pattern(data, i as int));
        port.write_outputs(bits);
        port.write_outputs(bits | CCLK_BIT);
        proof {
            assert(shift_events_upto(data, i as int + 1)
                =~= shift_events_upto(data, i as int) + bit_events(data, i as int));
            assert(t0 + shift_events_upto(data, i as int + 1)
                =~= (t0 + shift_events_upto(data, i as int))
                    .push(Event::Write(bits)).push(Event::Write(bits | CCLK_BIT)));
        }
        i = i + 1;
    }
    proof {
        assert(port.trace() =~= t0 + shift_events(data));
    }
}

proof fn lemma_payload_steps_push(p: Seq<u8>, rs: Seq<u8>, b: u8, d: u8)
    ensures
        payload_steps(p.push(b), rs.push(d)) == payload_steps(p, rs) + shift_events(b)
            + seq![Event::Read(d)],
{
    assert(p.push(b).drop_last() =~= p);
    assert(rs.push(d).drop_last() =~= rs);
}

proof fn lemma_poll_steps_push(rs: Seq<u8>, ts: Seq<u64>, d: u8, t: u64)
    ensures
        poll_steps(rs.push(d), ts.push(t)) == poll_steps(rs, ts)
            + seq![Event::Read(d), Event::Now(t)] + shift_events(FILLER),
{
    assert(rs.push(d).drop_last() =~= rs);
    assert(ts.push(t).drop_last() =~= ts);
}

/// A shift phase is exactly 17 operations per byte shifted — 16 writes
/// and one init-ready sample — so the trace of an aborted load shows
/// precisely how many payload bytes went out before the target dropped
/// init-ready.
pub proof fn lemma_payload_steps_len(p: Seq<u8>, rs: Seq<u8>)
    requires
        rs.len() == p.len(),
    ensures
        payload_steps(p, rs).len() == 17 * p.len(),
    decreases p.len(),
{
    if p.len() > 0 {
        lemma_payload_steps_len(p.drop_last(), rs.drop_last());
        lemma_upto_len(p.last(), 8);
    }
}

/// Shift every payload byte in order, MSB first, re-sampling init-ready
/// after each byte and aborting the moment it reads low: a drop signals
/// that the target rejected the partial bitstream.
#[verifier::loop_isolation(false)]
pub fn shift_payload<P: Port>(port: &mut P, payload: &[u8]) -> (r: Result<(), LoadError>)
    ensures
        match r {
            Ok(()) => shift_phase_ok(payload@, old(port).trace(), final(port).trace()),
            Err(e) => e == LoadError::MidStreamAbort
                && shift_phase_abort(payload@, old(port).trace(), final(port).trace()),
        },
{
    let ghost pre = port.trace();
    let ghost mut rs: Seq<u8> = Seq::empty();
    let mut idx: usize = 0;
    while idx < payload.len()
        invariant
            idx <= payload@.len(),
            rs.len() == idx,
            forall|j: int| 0 <= j < rs.len() ==> rs[j] & INIT_B_BIT != 0,
            port.trace() == pre + payload_steps(payload@.take(idx as int), rs),
        decreases payload@.len() - idx,
    {
        let b = payload[idx];
        shift_u8(port, b);
        let d = port.read_inputs();
        proof {
            lemma_payload_steps_push(payload@.take(idx as int), rs, payload@[idx as int], d);
            assert(payload@.take(idx as int + 1)
                =~= payload@.take(idx as int).push(payload@[idx as int]));
            assert(port.trace() =~= pre
                + payload_steps(payload@.take(idx as int + 1), rs.push(d)));
            rs = rs.push(d);
        }
        if d & INIT_B_BIT == 0 {
            proof {
                assert(port.trace() == pre + payload_steps(payload@.take(rs.len() as int), rs));
                assert(shift_phase_abort(payload@, pre, port.trace()));
            }
            return Err(LoadError::MidStreamAbort);
        }
        idx = idx + 1;
    }
    proof {
        assert(payload@.take(payload@.len() as int) =~= payload@);
        assert(shift_phase_ok(payload@, pre, port.trace()));
    }
    Ok(())
}

/// Poll the completion signal under a 100 ms deadline anchored at entry,
/// clocking one filler byte per iteration while it stays low. On
/// completion, clock one more filler byte (the target's startup
/// compensation) and settle the lines at the idle pattern; past the
/// deadline, fail without further hardware action.
#[verifier::loop_isolation(false)]
pub fn poll_done<P: Port>(port: &mut P) -> (r: Result<(), LoadError>)
    ensures
        match r {
            Ok(()) => poll_phase_ok(old(port).trace(), final(port).trace()),
            Err(e) => e == LoadError::DoneTimeout
                && (poll_phase_timeout(old(port).trace(), final(port).trace())
                    || poll_phase_exhausted(old(port).trace(), final(port).trace())),
        },
{
    let ghost pre = port.trace();
    let t0 = port.now_ms();
    let ghost mut rs: Seq<u8> = Seq::empty();
    let ghost mut ts: Seq<u64> = Seq::empty();
    let mut fuel: u32 = MAX_POLL_FILLERS;
    loop
        invariant
            poll_iters_ok(rs, ts, t0),
            rs.len() + fuel == MAX_POLL_FILLERS,
            port.trace() == pre + seq![Event::Now(t0)] + poll_steps(rs, ts),
        decreases fuel,
    {
        if fuel == 0 {
            proof {
                assert(poll_phase_exhausted(pre, port.trace()));
            }
            return Err(LoadError::DoneTimeout);
        }
        fuel = fuel - 1;
        let d = port.read_inputs();
        if d & DONE_BIT != 0 {
            shift_u8(port, FILLER);
            port.write_outputs(PROGRAM_B_BIT);
            proof {
                assert(port.trace() =~= pre + seq![Event::Now(t0)] + poll_steps(rs, ts)
                    + seq![Event::Read(d)] + shift_events(FILLER)
                    + seq![Event::Write(PROGRAM_B_BIT)]);
                assert(poll_phase_ok(pre, port.trace()));
            }
            return Ok(());
        }
        let now = port.now_ms();
        if now > t0.saturating_add(100) {
            proof {
                assert(port.trace() =~= pre + seq![Event::Now(t0)] + poll_steps(rs, ts)
                    + seq![Event::Read(d), Event::Now(now)]);
                assert(poll_phase_timeout(pre, port.trace()));
            }
            return Err(LoadError::DoneTimeout);
        }
        shift_u8(port, FILLER);
        proof {
            lemma_poll_steps_push(rs, ts, d, now);
            assert(port.trace() =~= pre + seq![Event::Now(t0)]
                + poll_steps(rs.push(d), ts.push(now)));
            rs = rs.push(d);
            ts = ts.push(now);
        }
    }
}

/// The whole protocol, from the trace `pre` at entry to the trace `post`
/// at exit, for a validated image with payload `payload`. Every case
/// opens with the reset pulse and an init-ready sample; what follows is
/// decided by the target's answers, which the trace records.
pub open spec fn load_protocol(
    payload: Seq<u8>,
    pre: Seq<Event>,
    post: Seq<Event>,
    r: Result<(), LoadError>,
) -> bool {
    match r {
        Ok(()) => exists|r0: u8, m1: Seq<Event>, m2: Seq<Event>|
            r0 & INIT_B_BIT != 0
            && m1 == pre + reset_events().push(Event::Read(r0))
            && shift_phase_ok(payload, m1, m2)
            && poll_phase_ok(m2, post),
        Err(LoadError::InitTimeout) => exists|r0: u8|
            r0 & INIT_B_BIT == 0
            && post == pre + reset_events().push(Event::Read(r0)),
        Err(LoadError::MidStreamAbort) => exists|r0: u8, m1: Seq<Event>|
            r0 & INIT_B_BIT != 0
            && m1 == pre + reset_events().push(Event::Read(r0))
            && shift_phase_abort(payload, m1, post),
        Err(LoadError::DoneTimeout) => exists|r0: u8, m1: Seq<Event>, m2: Seq<Event>|
            r0 & INIT_B_BIT != 0
            && m1 == pre + reset_events().push(Event::Read(r0))
            && shift_phase_ok(payload, m1, m2)
            && (poll_phase_timeout(m2, post) || poll_phase_exhausted(m2, post)),
        _ => false,
    }
}

proof fn lemma_add_last<A>(a: Seq<A>, b: Seq<A>)
    requires
        b.len() > 0,
    ensures
        (a + b).last() == b.last(),
{
}

proof fn lemma_shift_events_last(data: u8)
    ensures
        shift_events(data).len() == 16,
        shift_events(data).last() == Event::Write(din_pattern(data, 7) | CCLK_BIT),
{
    lemma_upto_len(data, 8);
    lemma_upto_index(data, 8, 7);
}

proof fn lemma_payload_steps_last(p: Seq<u8>, rs: Seq<u8>)
    requires
        p.len() == rs.len(),
        p.len() > 0,
    ensures
        payload_steps(p, rs).last() == Event::Read(rs.last()),
{
    lemma_add_last(
        payload_steps(p.drop_last(), rs.drop_last()) + shift_events(p.last()),
        seq![Event::Read(rs.last())],
    );
}

proof fn lemma_poll_steps_last(rs: Seq<u8>, ts: Seq<u64>)
    requires
        rs.len() == ts.len(),
        rs.len() > 0,
    ensures
        poll_steps(rs, ts).last() == Event::Write(din_pattern(FILLER, 7) | CCLK_BIT),
{
    lemma_shift_events_last(FILLER);
    lemma_add_last(
        poll_steps(rs.drop_last(), ts.drop_last())
            + seq![Event::Read(rs.last()), Event::Now(ts.last())],
        shift_events(FILLER),
    );
}

/// What the end of the trace looks like under each outcome: a completed
/// attempt ends by writing the idle pattern, a failed init wait ends at
/// its one init-ready sample, an abort ends at the init-ready sample
/// that dropped, and a timed-out poll ends at a clock sample (or, if
/// the poll gave up, at the last filler write).
proof fn lemma_post_signature(
    payload: Seq<u8>,
    pre: Seq<Event>,
    post: Seq<Event>,
    r: Result<(), LoadError>,
)
    requires
        load_protocol(payload, pre, post, r),
    ensures
        match r {
            Ok(()) => post.last() == Event::Write(PROGRAM_B_BIT),
            Err(LoadError::InitTimeout) => post.len() == pre.len() + 6 && post.last() is Read,
            Err(LoadError::MidStreamAbort) => post.len() >= pre.len() + 23 && post.last() is Read,
            Err(LoadError::DoneTimeout) => post.last() is Now || post.last() == Event::Write(
                din_pattern(FILLER, 7) | CCLK_BIT,
            ),
            _ => false,
        },
{
    match r {
        Ok(()) => {
            let (r0, m1, m2) = choose|r0: u8, m1: Seq<Event>, m2: Seq<Event>|
                r0 & INIT_B_BIT != 0 && m1 == pre + reset_events().push(Event::Read(r0))
                    && shift_phase_ok(payload, m1, m2) && poll_phase_ok(m2, post);
            let (t0, rs, ts, rf) = choose|t0: u64, rs: Seq<u8>, ts: Seq<u64>, rf: u8|
                poll_iters_ok(rs, ts, t0) && rf & DONE_BIT != 0 && post == m2 + seq![
                    Event::Now(t0),
                ] + poll_steps(rs, ts) + seq![Event::Read(rf)] + shift_events(FILLER) + seq![
                    Event::Write(PROGRAM_B_BIT),
                ];
            lemma_add_last(
                m2 + seq![Event::Now(t0)] + poll_steps(rs, ts) + seq![Event::Read(rf)]
                    + shift_events(FILLER),
                seq![Event::Write(PROGRAM_B_BIT)],
            );
        },
        Err(LoadError::InitTimeout) => {
            let r0 = choose|r0: u8|
                r0 & INIT_B_BIT == 0 && post == pre + reset_events().push(Event::Read(r0));
        },
        Err(LoadError::MidStreamAbort) => {
            let (r0, m1) = choose|r0: u8, m1: Seq<Event>|
                r0 & INIT_B_BIT != 0 && m1 == pre + reset_events().push(Event::Read(r0))
                    && shift_phase_abort(payload, m1, post);
            let rs = choose|rs: Seq<u8>|
                1 <= rs.len() <= payload.len() && (forall|j: int|
                    0 <= j < rs.len() - 1 ==> rs[j] & INIT_B_BIT != 0) && rs.last() & INIT_B_BIT
                    == 0 && post == m1 + payload_steps(payload.take(rs.len() as int), rs);
            lemma_payload_steps_len(payload.take(rs.len() as int), rs);
            lemma_payload_steps_last(payload.take(rs.len() as int), rs);
            lemma_add_last(m1, payload_steps(payload.take(rs.len() as int), rs));
        },
        Err(LoadError::DoneTimeout) => {
            let (r0, m1, m2) = choose|r0: u8, m1: Seq<Event>, m2: Seq<Event>|
                r0 & INIT_B_BIT != 0 && m1 == pre + reset_events().push(Event::Read(r0))
                    && shift_phase_ok(payload, m1, m2) && (poll_phase_timeout(m2, post)
                    || poll_phase_exhausted(m2, post));
            if poll_phase_timeout(m2, post) {
                let (t0, rs, ts, rl, tl) = choose|
                    t0: u64,
                    rs: Seq<u8>,
                    ts: Seq<u64>,
                    rl: u8,
                    tl: u64,
                |
                    poll_iters_ok(rs, ts, t0) && rl & DONE_BIT == 0 && tl > t0 + 100 && post == m2
                        + seq![Event::Now(t0)] + poll_steps(rs, ts) + seq![
                        Event::Read(rl),
                        Event::Now(tl),
                    ];
                lemma_add_last(
                    m2 + seq![Event::Now(t0)] + poll_steps(rs, ts),
                    seq![Event::Read(rl), Event::Now(tl)],
                );
            } else {
                let (t0, rs, ts) = choose|t0: u64, rs: Seq<u8>, ts: Seq<u64>|
                    poll_iters_ok(rs, ts, t0) && rs.len() == MAX_POLL_FILLERS && post == m2 + seq![
                        Event::Now(t0),
                    ] + poll_steps(rs, ts);
                lemma_poll_steps_last(rs, ts);
                lemma_add_last(m2 + seq![Event::Now(t0)], poll_steps(rs, ts));
            }
        },
        _ => {
        },
    }
}

/// The protocol never leaves the implementation a choice: the outcome
/// of an attempt is decided by the answers the target gave, as the
/// trace records them. Two outcomes that conform to the protocol over
/// the same trace are the same outcome.
pub proof fn lemma_outcome_determined(
    payload: Seq<u8>,
    pre: Seq<Event>,
    post: Seq<Event>,
    r1: Result<(), LoadError>,
    r2: Result<(), LoadError>,
)
    requires
        load_protocol(payload, pre, post, r1),
        load_protocol(payload, pre, post, r2),
    ensures
        r1 == r2,
{
    lemma_post_signature(payload, pre, post, r1);
    lemma_post_signature(payload, pre, post, r2);
    assert(din_pattern(FILLER, 7) == PROGRAM_B_BIT | DIN_BIT) by {
        assert(0xFFu8 & (0x80u8 >> 7u8) != 0) by (bit_vector);
    };
    assert(0x10u8 | 0x02u8 == 0x12u8) by (bit_vector);
    assert((0x12u8 | 0x01u8) != 0x10u8) by (bit_vector);
    let l = post.last();
    match r1 {
        Ok(()) => {
            assert(l == Event::Write(PROGRAM_B_BIT));
            match r2 {
                Ok(()) => {
                    assert(r1 == Ok::<(), LoadError>(r1->Ok_0));
                    assert(r2 == Ok::<(), LoadError>(r2->Ok_0));
                    assert(r1->Ok_0 == r2->Ok_0);
                },
                Err(_) => {
                    assert(!(l is Read) && !(l is Now) && l != Event::Write(
                        din_pattern(FILLER, 7) | CCLK_BIT,
                    ));
                    assert(false);
                },
            }
        },
        Err(LoadError::InitTimeout) => {
            assert(post.len() == pre.len() + 6 && l is Read);
            match r2 {
                Err(LoadError::InitTimeout) => {},
                Err(LoadError::MidStreamAbort) => {
                    assert(post.len() >= pre.len() + 23);
                    assert(false);
                },
                _ => {
                    assert(false);
                },
            }
        },
        Err(LoadError::MidStreamAbort) => {
            assert(post.len() >= pre.len() + 23 && l is Read);
            match r2 {
                Err(LoadError::MidStreamAbort) => {},
                Err(LoadError::InitTimeout) => {
                    assert(post.len() == pre.len() + 6);
                    assert(false);
                },
                _ => {
                    assert(false);
                },
            }
        },
        Err(LoadError::DoneTimeout) => {
            assert(l is Now || l == Event::Write(din_pattern(FILLER, 7) | CCLK_BIT));
            match r2 {
                Err(LoadError::DoneTimeout) => {},
                _ => {
                    assert(false);
                },
            }
        },
        _ => {
            assert(false);
        },
    }
}

/// A target that never raises init-ready can only fail the init wait:
/// if every input sample the attempt recorded reads INIT_B low, the
/// outcome is InitTimeout, and the attempt performed exactly the reset
/// pulse and that single sample — no payload byte was shifted.
pub proof fn lemma_never_ready_init_timeout(
    payload: Seq<u8>,
    pre: Seq<Event>,
    post: Seq<Event>,
    r: Result<(), LoadError>,
)
    requires
        load_protocol(payload, pre, post, r),
        forall|i: int|
            pre.len() <= i < post.len() && (#[trigger] post[i]) is Read ==> post[i]->Read_0
                & INIT_B_BIT == 0,
    ensures
        r == Err::<(), LoadError>(LoadError::InitTimeout),
        post == pre + reset_events().push(Event::Read(post[pre.len() as int + 5]->Read_0)),
{
    match r {
        Ok(()) => {
            let (r0, m1, m2) = choose|r0: u8, m1: Seq<Event>, m2: Seq<Event>|
                r0 & INIT_B_BIT != 0 && m1 == pre + reset_events().push(Event::Read(r0))
                    && shift_phase_ok(payload, m1, m2) && poll_phase_ok(m2, post);
            let rs = choose|rs: Seq<u8>|
                rs.len() == payload.len() && (forall|j: int|
                    0 <= j < rs.len() ==> rs[j] & INIT_B_BIT != 0) && m2 == m1 + payload_steps(
                    payload,
                    rs,
                );
            let (t0, ps, ts, rf) = choose|t0: u64, ps: Seq<u8>, ts: Seq<u64>, rf: u8|
                poll_iters_ok(ps, ts, t0) && rf & DONE_BIT != 0 && post == m2 + seq![
                    Event::Now(t0),
                ] + poll_steps(ps, ts) + seq![Event::Read(rf)] + shift_events(FILLER) + seq![
                    Event::Write(PROGRAM_B_BIT),
                ];
            assert(m1[pre.len() as int + 5] == Event::Read(r0));
            assert(post[pre.len() as int + 5] == Event::Read(r0));
            assert(false);
        },
        Err(LoadError::InitTimeout) => {
            let r0 = choose|r0: u8|
                r0 & INIT_B_BIT == 0 && post == pre + reset_events().push(Event::Read(r0));
            assert(post[pre.len() as int + 5] == Event::Read(r0));
        },
        Err(LoadError::MidStreamAbort) => {
            let (r0, m1) = choose|r0: u8, m1: Seq<Event>|
                r0 & INIT_B_BIT != 0 && m1 == pre + reset_events().push(Event::Read(r0))
                    && shift_phase_abort(payload, m1, post);
            let rs = choose|rs: Seq<u8>|
                1 <= rs.len() <= payload.len() && (forall|j: int|
                    0 <= j < rs.len() - 1 ==> rs[j] & INIT_B_BIT != 0) && rs.last() & INIT_B_BIT
                    == 0 && post == m1 + payload_steps(payload.take(rs.len() as int), rs);
            assert(m1[pre.len() as int + 5] == Event::Read(r0));
            assert(post[pre.len() as int + 5] == Event::Read(r0));
            assert(false);
        },
        Err(LoadError::DoneTimeout) => {
            let (r0, m1, m2) = choose|r0: u8, m1: Seq<Event>, m2: Seq<Event>|
                r0 & INIT_B_BIT != 0 && m1 == pre + reset_events().push(Event::Read(r0))
                    && shift_phase_ok(payload, m1, m2) && (poll_phase_timeout(m2, post)
                    || poll_phase_exhausted(m2, post));
            let rs = choose|rs: Seq<u8>|
                rs.len() == payload.len() && (forall|j: int|
                    0 <= j < rs.len() ==> rs[j] & INIT_B_BIT != 0) && m2 == m1 + payload_steps(
                    payload,
                    rs,
                );
            if poll_phase_timeout(m2, post) {
                let (t0, ps, ts, rl, tl) = choose|
                    t0: u64,
                    ps: Seq<u8>,
                    ts: Seq<u64>,
                    rl: u8,
                    tl: u64,
                |
                    poll_iters_ok(ps, ts, t0) && rl & DONE_BIT == 0 && tl > t0 + 100 && post == m2
                        + seq![Event::Now(t0)] + poll_steps(ps, ts) + seq![
                        Event::Read(rl),
                        Event::Now(tl),
                    ];
                assert(m1[pre.len() as int + 5] == Event::Read(r0));
                assert(post[pre.len() as int + 5] == Event::Read(r0));
            } else {
                let (t0, ps, ts) = choose|t0: u64, ps: Seq<u8>, ts: Seq<u64>|
                    poll_iters_ok(ps, ts, t0) && ps.len() == MAX_POLL_FILLERS && post == m2 + seq![
                        Event::Now(t0),
                    ] + poll_steps(ps, ts);
                assert(m1[pre.len() as int + 5] == Event::Read(r0));
                assert(post[pre.len() as int + 5] == Event::Read(r0));
            }
            assert(false);
        },
        _ => {
            assert(false);
        },
    }
}

/// One whole load attempt. Validate the image header first — on a bad
/// header fail without touching the hardware at all — then reset the
/// target, confirm init-ready, shift the payload MSB-first while
/// watching init-ready, and poll for completion under the 100 ms
/// deadline. The trace of `port` grows by exactly the operations the
/// protocol prescribes for the answers the target gave.
pub fn load<P: Port>(port: &mut P, image: &[u8]) -> (r: Result<(), LoadError>)
    requires
        image@.len() >= 8,
        header_ok(image@) ==> image@.len() >= 8 + length_of(image@),
    ensures
        magic_of(image@) != MAGIC ==> r == Err::<(), LoadError>(LoadError::BadMagic)
            && final(port).trace() == old(port).trace(),
        magic_of(image@) == MAGIC && length_of(image@) > MAX_IMAGE_BYTES ==> r
            == Err::<(), LoadError>(LoadError::ImageTooLarge)
            && final(port).trace() == old(port).trace(),
        header_ok(image@) ==> load_protocol(
            payload_of(image@),
            old(port).trace(),
            final(port).trace(),
            r,
        ),
{
    let ghost pre = port.trace();
    let length = match validate(image) {
        Ok(l) => l,
        Err(e) => {
            return Err(e);
        },
    };
    port.set_output_enable(OUTPUT_LINES);
    port.write_outputs(0);
    port.busy_wait_us(1);
    port.write_outputs(PROGRAM_B_BIT);
    port.busy_wait_us(5000);
    let r0 = port.read_inputs();
    proof {
        assert(port.trace() =~= pre + reset_events().push(Event::Read(r0)));
    }
    if r0 & INIT_B_BIT == 0 {
        return Err(LoadError::InitTimeout);
    }
    let ghost m1 = port.trace();
    let payload = slice_subrange(image, 8, 8 + length as usize);
    proof {
        assert(payload@ =~= payload_of(image@));
    }
    match shift_payload(port, payload) {
        Ok(()) => {},
        Err(e) => {
            return Err(e);
        },
    }
    let ghost m2 = port.trace();
    let r = poll_done(port);
    proof {
        assert(load_protocol(payload_of(image@), pre, port.trace(), r));
    }
    r
}

} // verus!
