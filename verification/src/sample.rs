//! Decoding of the nine-byte notification frame that the sensor sends.
//!
//! Layout: bytes 0..4 are the device timestamp in milliseconds, bytes 4..8
//! the measured value (0 meaning "no measurement"), byte 8 the zone; both
//! integers are little-endian two's complement. Bytes past the ninth are
//! ignored.

use vstd::prelude::*;
use crate::NUM_ZONES;
use vstd::arithmetic::div_mod::{lemma_fundamental_div_mod, lemma_fundamental_div_mod_converse};

verus! {

/// Why a frame was rejected.
#[derive(Debug, Clone, Copy, PartialEq, Eq, Structural)]
pub enum SampleError {
    /// Fewer than nine bytes.
    DataTooShort,
    /// The zone byte names no zone of the device.
    InvalidZone,
}

/// One decoded sensor reading.
#[derive(Debug, Clone, Copy, PartialEq, Eq, Structural)]
pub struct Sample {
    /// Device clock, in milliseconds.
    pub timestamp: i32,
    /// Device zone that produced the reading, below `NUM_ZONES`.
    pub zone: usize,
    /// The reading; `None` where the device sent 0.
    pub value: Option<i32>,
}

/// Unsigned value of the four bytes of `data` from `at` on, least significant first.
pub open spec fn le_u32_at(data: Seq<u8>, at: int) -> int {
    data[at] + 256 * data[at + 1] + 65536 * data[at + 2] + 16777216 * data[at + 3]
}

/// The same four bytes read as a two's complement 32-bit integer.
pub open spec fn le_i32_at(data: Seq<u8>, at: int) -> int {
    let u = le_u32_at(data, at);
    if u < 0x8000_0000 { u } else { u - 0x1_0000_0000 }
}

/// What a frame decodes to.
pub open spec fn frame_result(data: Seq<u8>) -> Result<Sample, SampleError> {
    if data.len() < 9 {
        Err(SampleError::DataTooShort)
    } else if data[8] >= NUM_ZONES {
        Err(SampleError::InvalidZone)
    } else {
        let v = le_i32_at(data, 4);
        Ok(Sample {
            timestamp: le_i32_at(data, 0) as i32,
            zone: data[8] as usize,
            value: if v == 0 { None } else { Some(v as i32) },
        })
    }
}

/// Reads a little-endian two's complement `i32` at `at`.
fn read_i32_le(data: &[u8], at: usize) -> (r: i32)
    requires
        at + 4 <= data@.len(),
    ensures
        r == le_i32_at(data@, at as int),
{
    let b0 = data[at] as u32;
    let b1 = data[at + 1] as u32;
    let b2 = data[at + 2] as u32;
    let b3 = data[at + 3] as u32;
    let u: u32 = b0 + b1 * 256 + b2 * 65536 + b3 * 16777216;
    if u < 0x8000_0000 {
        u as i32
    } else {
        let low: i32 = (u - 0x8000_0000) as i32;
        low + i32::MIN
    }
}

impl Sample {
    /// Decodes one notification frame.
    pub fn from_bytes(data: &[u8]) -> (res: Result<Sample, SampleError>)
        ensures
            res == frame_result(data@),
    {
        if data.len() < 9 {
            return Err(SampleError::DataTooShort);
        }
        let timestamp = read_i32_le(data, 0);
        let value = read_i32_le(data, 4);
        let zone: u8 = data[8];
        if zone >= NUM_ZONES as u8 {
            return Err(SampleError::InvalidZone);
        }
        Ok(Sample {
            timestamp,
            value: if value == 0 { None } else { Some(value) },
            zone: zone as usize,
        })
    }
}

/// A frame is accepted exactly when it has at least nine bytes and its zone
/// byte names a zone of the device; an accepted frame never carries a
/// reading of zero (zero stands for "no measurement").
pub proof fn lemma_accepted_frames(data: Seq<u8>)
    ensures
        frame_result(data) is Ok <==> (data.len() >= 9 && data[8] < NUM_ZONES),
        frame_result(data) matches Ok(s) ==> s.zone < NUM_ZONES && s.value != Some(0i32),
        data.len() < 9 ==> frame_result(data) == Err::<Sample, SampleError>(SampleError::DataTooShort),
{
}

/// Only the first nine bytes of a frame count: appending bytes to a frame
/// that is long enough leaves its decoding unchanged.
pub proof fn lemma_trailing_bytes_ignored(data: Seq<u8>, extra: Seq<u8>)
    requires
        data.len() >= 9,
    ensures
        frame_result(data + extra) == frame_result(data),
{
    let whole = data + extra;
    assert(forall|i: int| 0 <= i < 9 ==> whole[i] == data[i]);
}

/// The four bytes that represent `x`, least significant first, two's
/// complement (what `i32::to_le_bytes` gives).
pub open spec fn le_bytes_i32(x: i32) -> Seq<u8> {
    let u: int = if x < 0 { x + 0x1_0000_0000 } else { x as int };
    seq![
        (u % 256) as u8,
        (u / 256 % 256) as u8,
        (u / 256 / 256 % 256) as u8,
        (u / 256 / 256 / 256 % 256) as u8,
    ]
}

/// A number below 2^32 is its four base-256 digits.
proof fn lemma_digits_recompose(u: int)
    requires
        0 <= u < 0x1_0000_0000,
    ensures
        0 <= u / 256 / 256 / 256 < 256,
        u == u % 256 + 256 * (u / 256 % 256) + 65536 * (u / 256 / 256 % 256) + 16777216 * (u / 256 / 256 / 256 % 256),
{
    let q1 = u / 256;
    let q2 = q1 / 256;
    let q3 = q2 / 256;
    lemma_fundamental_div_mod(u, 256);
    lemma_fundamental_div_mod(q1, 256);
    lemma_fundamental_div_mod(q2, 256);
    lemma_fundamental_div_mod(q3, 256);
    assert(0 <= u % 256 < 256);
    assert(0 <= q1 % 256 < 256);
    assert(0 <= q2 % 256 < 256);
    assert(0 <= q3 % 256 < 256);
    assert(0 <= q3 < 256);
    lemma_fundamental_div_mod_converse(q3, 256, 0, q3);
}

/// Four base-256 digits are read back from the number they make.
proof fn lemma_digits_unique(b0: int, b1: int, b2: int, b3: int)
    requires
        0 <= b0 < 256,
        0 <= b1 < 256,
        0 <= b2 < 256,
        0 <= b3 < 256,
    ensures
        ({
            let u = b0 + 256 * b1 + 65536 * b2 + 16777216 * b3;
            &&& u % 256 == b0
            &&& u / 256 % 256 == b1
            &&& u / 256 / 256 % 256 == b2
            &&& u / 256 / 256 / 256 % 256 == b3
        }),
{
    let u = b0 + 256 * b1 + 65536 * b2 + 16777216 * b3;
    let q1 = b1 + 256 * b2 + 65536 * b3;
    let q2 = b2 + 256 * b3;
    lemma_fundamental_div_mod_converse(u, 256, q1, b0);
    lemma_fundamental_div_mod_converse(q1, 256, q2, b1);
    lemma_fundamental_div_mod_converse(q2, 256, b3, b2);
    lemma_fundamental_div_mod_converse(b3, 256, 0, b3);
}

/// Reading the four bytes of `x` gives `x` back.
pub proof fn lemma_read_written_i32(x: i32, rest: Seq<u8>, at: int)
    requires
        0 <= at,
        rest.len() >= at + 4,
        rest.subrange(at, at + 4) == le_bytes_i32(x),
    ensures
        le_i32_at(rest, at) == x,
{
    let u: int = if x < 0 { x + 0x1_0000_0000 } else { x as int };
    lemma_digits_recompose(u);
    let w = le_bytes_i32(x);
    assert(rest[at] == w[0] && rest[at + 1] == w[1] && rest[at + 2] == w[2] && rest[at + 3] == w[3]);
}

/// Writing the value read from four bytes gives those bytes back.
pub proof fn lemma_write_read_i32(data: Seq<u8>, at: int)
    requires
        0 <= at,
        data.len() >= at + 4,
    ensures
        le_bytes_i32(le_i32_at(data, at) as i32) == data.subrange(at, at + 4),
{
    lemma_digits_unique(data[at] as int, data[at + 1] as int, data[at + 2] as int, data[at + 3] as int);
    assert(le_bytes_i32(le_i32_at(data, at) as i32) =~= data.subrange(at, at + 4));
}

/// A frame written from a timestamp, a reading and a zone (integers as
/// `i32::to_le_bytes` lays them out) decodes to exactly that sample,
/// whatever bytes follow; a reading of 0 decodes as no reading.
pub proof fn lemma_decode_written_frame(timestamp: i32, value: i32, zone: u8, rest: Seq<u8>)
    requires
        zone < NUM_ZONES,
    ensures
        frame_result(le_bytes_i32(timestamp) + le_bytes_i32(value) + seq![zone] + rest)
            == Ok::<Sample, SampleError>(Sample {
                timestamp,
                zone: zone as usize,
                value: if value == 0 { None } else { Some(value) },
            }),
{
    let data = le_bytes_i32(timestamp) + le_bytes_i32(value) + seq![zone] + rest;
    assert(data.subrange(0, 4) =~= le_bytes_i32(timestamp));
    assert(data.subrange(4, 8) =~= le_bytes_i32(value));
    assert(data[8] == zone);
    lemma_read_written_i32(timestamp, data, 0);
    lemma_read_written_i32(value, data, 4);
}

/// An accepted frame is its sample written out: the timestamp's bytes are
/// the first four, the reading's bytes the next four (all zero when there
/// is no reading), and the zone is the ninth byte.
pub proof fn lemma_accepted_frame_fields(data: Seq<u8>)
    ensures
        frame_result(data) matches Ok(s) ==> {
            &&& le_bytes_i32(s.timestamp) == data.subrange(0, 4)
            &&& s.zone == data[8] as usize
            &&& match s.value {
                None => data.subrange(4, 8) == seq![0u8, 0u8, 0u8, 0u8],
                Some(v) => le_bytes_i32(v) == data.subrange(4, 8),
            }
        },
{
    if data.len() >= 9 {
        lemma_write_read_i32(data, 0);
        lemma_write_read_i32(data, 4);
        if le_i32_at(data, 4) == 0 {
            assert(le_bytes_i32(0i32) =~= seq![0u8, 0u8, 0u8, 0u8]);
        }
    }
}

} // verus!
