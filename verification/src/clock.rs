//! Alignment of the device clock with the host clock. The first sample that
//! arrives fixes the offset `host time - device timestamp` (milliseconds);
//! from then on host time minus the offset is the device's time.

use vstd::prelude::*;

verus! {

/// The offset once a sample stamped `timestamp` arrived at host time `machine_ms`.
pub open spec fn settled_delta(time_delta: Option<i32>, machine_ms: i32, timestamp: i32) -> Option<i32> {
    match time_delta {
        Some(d) => Some(d),
        None => Some((machine_ms - timestamp) as i32),
    }
}

/// Device time at host time `machine_ms`, under the offset (none counts as 0).
pub open spec fn device_time(machine_ms: i32, time_delta: Option<i32>) -> int {
    machine_ms - time_delta.unwrap_or(0)
}

/// Fixes the clock offset from a sample if it is not fixed yet; an offset
/// already fixed is kept.
pub fn settle_time_delta(time_delta: Option<i32>, machine_ms: i32, timestamp: i32) -> (r: Option<i32>)
    requires
        time_delta is None ==> i32::MIN <= machine_ms - timestamp <= i32::MAX,
    ensures
        r == settled_delta(time_delta, machine_ms, timestamp),
{
    match time_delta {
        Some(d) => Some(d),
        None => Some(machine_ms - timestamp),
    }
}

/// Device time, in milliseconds, at host time `machine_ms`.
pub fn device_time_ms(machine_ms: i32, time_delta: Option<i32>) -> (r: i32)
    requires
        i32::MIN <= device_time(machine_ms, time_delta) <= i32::MAX,
    ensures
        r == device_time(machine_ms, time_delta),
{
    let d = match time_delta {
        Some(d) => d,
        None => 0,
    };
    machine_ms - d
}

/// Once fixed, the offset never changes, whatever samples follow.
pub proof fn lemma_offset_fixed_once(d: i32, machine_ms: i32, timestamp: i32)
    ensures
        settled_delta(Some(d), machine_ms, timestamp) == Some(d),
{
}

/// The sample that fixes the offset is placed at its own timestamp: at the
/// host time it arrived, the device time equals the timestamp it carries.
pub proof fn lemma_first_sample_aligned(machine_ms: i32, timestamp: i32)
    requires
        i32::MIN <= machine_ms - timestamp <= i32::MAX,
    ensures
        device_time(machine_ms, settled_delta(None, machine_ms, timestamp)) == timestamp,
{
}

/// The offset after a stream of samples stamped `timestamps`, all received
/// at host time `machine_ms`, each step as `settle_time_delta` takes it.
pub open spec fn settled_over(time_delta: Option<i32>, machine_ms: i32, timestamps: Seq<i32>) -> Option<i32>
    decreases timestamps.len(),
{
    if timestamps.len() == 0 {
        time_delta
    } else {
        settled_over(
            settled_delta(time_delta, machine_ms, timestamps[0]),
            machine_ms,
            timestamps.drop_first(),
        )
    }
}

/// Over any stream of samples the offset is set once, from the first
/// sample ever received, and never changed afterwards: an offset already
/// fixed survives the whole stream, and an unset one becomes host time
/// minus the first sample's timestamp.
pub proof fn lemma_offset_set_by_first_sample(time_delta: Option<i32>, machine_ms: i32, timestamps: Seq<i32>)
    ensures
        settled_over(time_delta, machine_ms, timestamps) == (if time_delta is None && timestamps.len() >= 1 {
            Some((machine_ms - timestamps[0]) as i32)
        } else {
            time_delta
        }),
    decreases timestamps.len(),
{
    if timestamps.len() > 0 {
        let next = settled_delta(time_delta, machine_ms, timestamps[0]);
        lemma_offset_set_by_first_sample(next, machine_ms, timestamps.drop_first());
    }
}

} // verus!
