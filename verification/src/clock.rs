use vstd::prelude::*;

verus! {

/// Relies on `chrono::Utc::now` and `DateTime::timestamp`: the
/// machine clock as Unix seconds. Nothing can be promised of a
/// clock reading.
#[verifier::external_body]
fn unix_seconds_raw() -> i64 {
    chrono::Utc::now().timestamp()
}

/// The clock as an unsigned count of Unix seconds: a reading before
/// the epoch is clamped to it. The bound makes expiry arithmetic
/// overflow-free for every caller.
pub fn now_ts() -> (r: u64)
    ensures
        r <= 0x7fff_ffff_ffff_ffff,
{
    let t = unix_seconds_raw();
    if t < 0 {
        0
    } else {
        t as u64
    }
}

} // verus!
