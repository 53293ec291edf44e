use slave_fpga::driver::{
    load, shift_u8, CCLK_BIT, DIN_BIT, DONE_BIT, INIT_B_BIT, OUTPUT_LINES, PROGRAM_B_BIT,
};
use slave_fpga::error::LoadError;
use slave_fpga::image::validate;
use slave_fpga::port::Event;
use slave_fpga::sim::SimPort;

/// Build an image buffer with the given header fields and payload.
fn image(magic: u32, length: u32, payload: &[u8]) -> Vec<u8> {
    let mut v = Vec::new();
    v.extend_from_slice(&magic.to_be_bytes());
    v.extend_from_slice(&length.to_be_bytes());
    v.extend_from_slice(payload);
    v
}

/// A port whose target answers every input sample with `default_read`.
fn port_with(reads: Vec<u8>, default_read: u8, times: Vec<u64>, default_time: u64) -> SimPort {
    SimPort::new(reads, default_read, times, default_time)
}

/// The five operations every reset pulse performs.
fn reset_prefix() -> Vec<Event> {
    vec![
        Event::OutputEnable(OUTPUT_LINES),
        Event::Write(0),
        Event::Wait(1),
        Event::Write(PROGRAM_B_BIT),
        Event::Wait(5000),
    ]
}

/// The 16 writes that shift one byte, MSB first.
fn shift_writes(data: u8) -> Vec<Event> {
    let mut v = Vec::new();
    for i in 0..8 {
        let mut bits = PROGRAM_B_BIT;
        if data & (0x80 >> i) != 0 {
            bits |= DIN_BIT;
        }
        v.push(Event::Write(bits));
        v.push(Event::Write(bits | CCLK_BIT));
    }
    v
}

#[test]
fn validator_rejects_bad_magic_without_register_writes() {
    let img = image(0x12345678, 0, &[]);
    assert_eq!(validate(&img), Err(LoadError::BadMagic));

    let mut port = port_with(vec![], INIT_B_BIT, vec![], 0);
    let r = load(&mut port, &img);
    assert_eq!(r, Err(LoadError::BadMagic));
    assert!(port.events.is_empty());
}

#[test]
fn validator_rejects_oversized_image_without_register_writes() {
    let img = image(0x53415231, 0x220001, &[]);
    assert_eq!(validate(&img), Err(LoadError::ImageTooLarge));

    let mut port = port_with(vec![], INIT_B_BIT, vec![], 0);
    let r = load(&mut port, &img);
    assert_eq!(r, Err(LoadError::ImageTooLarge));
    assert!(port.events.is_empty());
}

#[test]
fn validator_accepts_max_length() {
    let img = image(0x53415231, 0x220000, &[]);
    assert_eq!(validate(&img), Ok(0x220000));
}

#[test]
fn header_fields_read_big_endian() {
    let img = image(0x53415231, 256, &[0u8; 256]);
    assert_eq!(validate(&img), Ok(256));
    // The same four magic bytes in the opposite order must be rejected.
    let img = image(0x31524153, 0, &[]);
    assert_eq!(validate(&img), Err(LoadError::BadMagic));
}

#[test]
fn init_timeout_after_reset_pulse_before_any_shift() {
    let img = image(0x53415231, 1, &[0xAB]);
    // The target never raises init-ready.
    let mut port = port_with(vec![], 0x00, vec![], 0);
    let r = load(&mut port, &img);
    assert_eq!(r, Err(LoadError::InitTimeout));

    // Exactly the reset pulse (PROGRAM_B low, then high) and one
    // init-ready sample; no payload byte was shifted.
    let mut expected = reset_prefix();
    expected.push(Event::Read(0x00));
    assert_eq!(port.events, expected);
}

#[test]
fn mid_stream_abort_shifts_exactly_k_bytes() {
    let payload = [0x11, 0x22, 0x33];
    let img = image(0x53415231, 3, &payload);
    // Init-ready is high at the init check and after byte 1, and drops
    // after byte 2 (k == 2).
    let mut port = port_with(vec![INIT_B_BIT, INIT_B_BIT, 0x00], 0x00, vec![], 0);
    let r = load(&mut port, &img);
    assert_eq!(r, Err(LoadError::MidStreamAbort));

    let mut expected = reset_prefix();
    expected.push(Event::Read(INIT_B_BIT));
    expected.extend(shift_writes(0x11));
    expected.push(Event::Read(INIT_B_BIT));
    expected.extend(shift_writes(0x22));
    expected.push(Event::Read(0x00));
    // Exactly 2 bytes were shifted, not 3: nothing follows the low sample.
    assert_eq!(port.events, expected);
}

#[test]
fn done_timeout_just_past_deadline() {
    let img = image(0x53415231, 1, &[0xAB]);
    // Init-ready stays high, DONE never comes. The clock reads 0 at the
    // poll anchor, 100 at the first deadline check (still within the
    // deadline, so one filler byte is clocked), and 101 at the second.
    let mut port = port_with(vec![], INIT_B_BIT, vec![0, 100, 101], 101);
    let r = load(&mut port, &img);
    assert_eq!(r, Err(LoadError::DoneTimeout));

    let mut expected = reset_prefix();
    expected.push(Event::Read(INIT_B_BIT));
    expected.extend(shift_writes(0xAB));
    expected.push(Event::Read(INIT_B_BIT));
    expected.push(Event::Now(0));
    // First poll iteration: DONE low at 100 ms, filler clocked.
    expected.push(Event::Read(INIT_B_BIT));
    expected.push(Event::Now(100));
    expected.extend(shift_writes(0xFF));
    // Second poll iteration: DONE low at 101 ms, past the deadline.
    expected.push(Event::Read(INIT_B_BIT));
    expected.push(Event::Now(101));
    assert_eq!(port.events, expected);
}

#[test]
fn successful_load_full_sequence() {
    let img = image(0x53415231, 1, &[0xB0]);
    // Init-ready at the check and after the payload byte; DONE (with
    // init-ready still high) at the first poll sample.
    let mut port = port_with(
        vec![INIT_B_BIT, INIT_B_BIT, DONE_BIT | INIT_B_BIT],
        INIT_B_BIT,
        vec![0],
        0,
    );
    let r = load(&mut port, &img);
    assert_eq!(r, Ok(()));

    let mut expected = reset_prefix();
    expected.push(Event::Read(INIT_B_BIT));
    expected.extend(shift_writes(0xB0));
    expected.push(Event::Read(INIT_B_BIT));
    expected.push(Event::Now(0));
    expected.push(Event::Read(DONE_BIT | INIT_B_BIT));
    // One post-completion filler byte, then the idle pattern: PROGRAM_B
    // high, DIN and CCLK low.
    expected.extend(shift_writes(0xFF));
    expected.push(Event::Write(PROGRAM_B_BIT));
    assert_eq!(port.events, expected);
    assert_eq!(port.events.last(), Some(&Event::Write(PROGRAM_B_BIT)));
}

#[test]
fn empty_payload_loads() {
    let img = image(0x53415231, 0, &[]);
    let mut port = port_with(vec![INIT_B_BIT, DONE_BIT | INIT_B_BIT], INIT_B_BIT, vec![0], 0);
    let r = load(&mut port, &img);
    assert_eq!(r, Ok(()));

    let mut expected = reset_prefix();
    expected.push(Event::Read(INIT_B_BIT));
    expected.push(Event::Now(0));
    expected.push(Event::Read(DONE_BIT | INIT_B_BIT));
    expected.extend(shift_writes(0xFF));
    expected.push(Event::Write(PROGRAM_B_BIT));
    assert_eq!(port.events, expected);
}

#[test]
fn shift_order_msb_first() {
    let mut port = port_with(vec![], 0, vec![], 0);
    shift_u8(&mut port, 0b10110000);
    assert_eq!(port.events.len(), 16);

    // Sample DIN at each CCLK rising edge: the second write of each pair
    // has CCLK high and carries the bit, MSB first.
    let mut bits = Vec::new();
    for pair in port.events.chunks(2) {
        let (low, high) = match (pair[0], pair[1]) {
            (Event::Write(a), Event::Write(b)) => (a, b),
            other => panic!("unexpected events: {:?}", other),
        };
        assert_eq!(low & CCLK_BIT, 0);
        assert_eq!(high & CCLK_BIT, CCLK_BIT);
        assert_eq!(low & DIN_BIT, high & DIN_BIT);
        assert_eq!(low & PROGRAM_B_BIT, PROGRAM_B_BIT);
        assert_eq!(high & PROGRAM_B_BIT, PROGRAM_B_BIT);
        bits.push(if high & DIN_BIT != 0 { 1 } else { 0 });
    }
    assert_eq!(bits, vec![1, 0, 1, 1, 0, 0, 0, 0]);
}

#[test]
fn error_messages() {
    assert_eq!(LoadError::BadMagic.message(), "Slave FPGA gateware magic not found");
    assert_eq!(
        LoadError::ImageTooLarge.message(),
        "Slave FPGA gateware too large (corrupted?)"
    );
    assert_eq!(LoadError::InitTimeout.message(), "Slave FPGA did not initialize.");
    assert_eq!(LoadError::MidStreamAbort.message(), "Slave FPGA error: INIT_B went low.");
    assert_eq!(LoadError::DoneTimeout.message(), "Slave FPGA not DONE");
}
