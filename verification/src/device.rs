//! Locating the sensor among scanned Bluetooth peripherals, and its
//! characteristics among those it offers.

use vstd::prelude::*;
use vstd::arithmetic::power::pow;
use std::str::FromStr;

verus! {

/// The sensor's GATT service.
pub const SERVICE_UUID: u128 = 0x64696c640000100080000000cafebabe;

/// The characteristic that notifies sample frames.
pub const CHARACTERISTIC_UUID: u128 = 0x6f6e69630000100080000000cafebabe;

/// The characteristic that holds the zone configuration.
pub const CONFIG_CHARACTERISTIC_UUID: u128 = 0x6f6e69620000100080000000cafebabe;

/// Bluetooth address of the sensor, as an address is written out.
pub const DEVICE_MAC: &'static str = "DB:96:90:70:68:A4";

/// Lower-case hexadecimal digit for `n` in 0..16.
pub open spec fn hex_digit_char(n: int) -> char {
    if n < 10 {
        (48 + n) as char
    } else {
        (87 + n) as char
    }
}

/// Hexadecimal digit `k` of `v`, counting from the most significant (0) to
/// the least significant (31).
pub open spec fn uuid_nibble(v: u128, k: int) -> int {
    (v as int / pow(16, (31 - k) as nat)) % 16
}

/// Which digit stands at position `i` of the hyphenated text.
pub open spec fn hyphenated_digit_index(i: int) -> int {
    if i < 8 {
        i
    } else if i < 13 {
        i - 1
    } else if i < 18 {
        i - 2
    } else if i < 23 {
        i - 3
    } else {
        i - 4
    }
}

/// The hyphenated lower-case text of a UUID, as in
/// `a1a2a3a4-b1b2-c1c2-d1d2-d3d4d5d6d7d8`: its 32 hex digits, most
/// significant first, in groups of 8, 4, 4, 4 and 12.
pub open spec fn uuid_hyphenated_text(v: u128) -> Seq<char> {
    Seq::new(
        36,
        |i: int|
            if i == 8 || i == 13 || i == 18 || i == 23 {
                '-'
            } else {
                hex_digit_char(uuid_nibble(v, hyphenated_digit_index(i)))
            },
    )
}

/// What the `uuid` crate's parser makes of a text: the 128-bit value of the
/// UUID, or `None` where it refuses the text.
pub uninterp spec fn uuid_parse_result(text: Seq<char>) -> Option<u128>;

/// Writes `v` as a `uuid::Uuid` with `Uuid::from_u128` and formats it with
/// its `Display` impl. Trusted: the text is the hyphenated lower-case form
/// (the crate's `Display` writes `Hyphenated` through `encode_lower`, from
/// the big-endian bytes of `v`).
#[verifier::external_body]
fn uuid_text(v: u128) -> (text: String)
    ensures
        text@ == uuid_hyphenated_text(v),
{
    uuid::Uuid::from_u128(v).to_string()
}

/// Parses a text with `uuid::Uuid::from_str` and reads the value back with
/// `Uuid::as_u128`. Trusted: the result is the named parse of the text, and
/// the hyphenated text of a value parses back to that value (the crate's
/// parser accepts the 36-character hyphenated form, and `as_u128` inverts
/// `from_u128`). What it does with other texts is left unsaid.
#[verifier::external_body]
fn uuid_parse(text: &str) -> (r: Option<u128>)
    ensures
        r == uuid_parse_result(text@),
        forall|v: u128| text@ == uuid_hyphenated_text(v) ==> r == Some(v),
{
    match uuid::Uuid::from_str(text) {
        Ok(u) => Some(u.as_u128()),
        Err(_) => None,
    }
}

/// A characteristic identifier as the lookup compares it: written out as
/// UUID text and parsed back, which gives the identifier unchanged.
pub fn characteristic_id(v: u128) -> (r: u128)
    ensures
        r == v,
{
    let text = uuid_text(v);
    match uuid_parse(text.as_str()) {
        Some(u) => u,
        None => {
            proof {
                assert(false);
            }
            v
        },
    }
}

/// `i` is the first index of `x` in `s`.
pub open spec fn is_first_index<T>(s: Seq<T>, x: T, i: int) -> bool {
    &&& 0 <= i < s.len()
    &&& s[i] == x
    &&& forall|j: int| 0 <= j < i ==> s[j] != x
}

/// Among the identifiers of the characteristics a device offers, the
/// position of the first that equals `wanted`.
pub fn find_characteristic(uuids: &[u128], wanted: u128) -> (r: Option<usize>)
    ensures
        match r {
            Some(i) => is_first_index(uuids@, wanted, i as int),
            None => !uuids@.contains(wanted),
        },
{
    let target = characteristic_id(wanted);
    let mut k: usize = 0;
    while k < uuids.len()
        invariant
            k <= uuids@.len(),
            target == wanted,
            forall|j: int| 0 <= j < k ==> uuids@[j] != wanted,
        decreases uuids@.len() - k,
    {
        if uuids[k] == target {
            return Some(k);
        }
        k = k + 1;
    }
    None
}

/// Among the written-out addresses of scanned peripherals, the position of
/// the first that is the sensor's.
pub fn find_device(addresses: &[String]) -> (r: Option<usize>)
    ensures
        match r {
            Some(i) => {
                &&& 0 <= i < addresses@.len()
                &&& addresses@[i as int]@ == DEVICE_MAC@
                &&& forall|j: int| 0 <= j < i ==> addresses@[j]@ != DEVICE_MAC@
            },
            None => forall|j: int| 0 <= j < addresses@.len() ==> addresses@[j]@ != DEVICE_MAC@,
        },
{
    let mac: String = DEVICE_MAC.to_string();
    let mut k: usize = 0;
    while k < addresses.len()
        invariant
            k <= addresses@.len(),
            mac@ == DEVICE_MAC@,
            forall|j: int| 0 <= j < k ==> addresses@[j]@ != DEVICE_MAC@,
        decreases addresses@.len() - k,
    {
        if addresses[k] == mac {
            return Some(k);
        }
        k = k + 1;
    }
    None
}

} // verus!
