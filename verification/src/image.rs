//! The gateware image header: layout, validity, and the validator.
//!
//! An image is `[magic:4][length:4][payload:length]`, both header fields
//! big-endian. The validator must accept an image before any hardware
//! action is taken.

use vstd::prelude::*;
use vstd::slice::slice_subrange;
use crate::error::LoadError;

verus! {

/// The magic tag every gateware image must open with ("SAR1").
pub const MAGIC: u32 = 0x53415231;

/// The largest payload length the target accepts, in bytes.
pub const MAX_IMAGE_BYTES: u32 = 0x220000;

/// The four bytes of `s`, read as one big-endian integer.
pub open spec fn be32(s: Seq<u8>) -> int {
    0x1000000 * (s[0] as int) + 0x10000 * (s[1] as int) + 0x100 * (s[2] as int) + (s[3] as int)
}

/// The magic field of an image: bytes 0..4, big-endian.
pub open spec fn magic_of(image: Seq<u8>) -> int {
    be32(image.subrange(0, 4))
}

/// The declared payload length of an image: bytes 4..8, big-endian.
pub open spec fn length_of(image: Seq<u8>) -> int {
    be32(image.subrange(4, 8))
}

/// A header the validator accepts: the magic tag matches and the declared
/// length is within what the target accepts.
pub open spec fn header_ok(image: Seq<u8>) -> bool {
    &&& image.len() >= 8
    &&& magic_of(image) == MAGIC
    &&& length_of(image) <= MAX_IMAGE_BYTES
}

/// The payload bytes an image declares: bytes 8 .. 8 + length.
pub open spec fn payload_of(image: Seq<u8>) -> Seq<u8> {
    image.subrange(8, 8 + length_of(image))
}

/// Relies on byteorder's `BigEndian::read_u32`: the first four bytes of
/// `buf`, most significant first.
#[verifier::external_body]
fn read_u32_be(buf: &[u8]) -> (r: u32)
    requires
        buf@.len() >= 4,
    ensures
        r as int == be32(buf@.subrange(0, 4)),
{
    <byteorder::BigEndian as byteorder::ByteOrder>::read_u32(buf)
}

/// Inspect the first 8 bytes of `image` as the gateware header. Accept it
/// and yield the exact payload byte count only when the magic tag matches
/// and the declared length is within bounds; no hardware is touched here.
pub fn validate(image: &[u8]) -> (r: Result<u32, LoadError>)
    requires
        image@.len() >= 8,
    ensures
        r == (if magic_of(image@) != MAGIC { Err::<u32, LoadError>(LoadError::BadMagic) }
            else if length_of(image@) > MAX_IMAGE_BYTES { Err::<u32, LoadError>(LoadError::ImageTooLarge) }
            else { Ok::<u32, LoadError>(length_of(image@) as u32) }),
        r is Ok <==> header_ok(image@),
{
    let magic = read_u32_be(slice_subrange(image, 0, 4));
    let length = read_u32_be(slice_subrange(image, 4, 8));
    if magic != MAGIC {
        Err(LoadError::BadMagic)
    } else if length > MAX_IMAGE_BYTES {
        Err(LoadError::ImageTooLarge)
    } else {
        Ok(length)
    }
}

} // verus!
