//! Identifiers and timestamps: fresh random identifiers and the current time
//! come from the `uuid` and `chrono` crates.
use vstd::prelude::*;
use vstd::arithmetic::power2::pow2;

verus! {

/// A moment, as seconds and nanoseconds since the Unix epoch (UTC).
#[derive(Debug, Clone, Copy, PartialEq, Eq, Structural)]
pub struct Timestamp {
    /// Whole seconds since 1970-01-01T00:00:00Z
    pub secs: i64,
    /// Nanoseconds past the second
    pub nanos: u32,
}

/// Calls `uuid::Uuid::new_v4` and returns the identifier's 128-bit value
/// (`Uuid::as_u128`). The value is random; what is claimed is the bit
/// pattern that `new_v4` sets on every result: version 4 in bits 76 to 79
/// and the RFC 4122 variant (binary 10) in bits 62 and 63.
#[verifier::external_body]
pub(crate) fn fresh_uuid() -> (r: u128)
    ensures
        (r >> 76u128) & 0xfu128 == 4,
        (r >> 62u128) & 0x3u128 == 2,
{
    uuid::Uuid::new_v4().as_u128()
}

/// The lowercase hexadecimal digit for `d` (0 to 15).
pub open spec fn hex_digit(d: int) -> char {
    if d < 10 {
        (48 + d) as char
    } else {
        (87 + d) as char
    }
}

/// The 32 hexadecimal digits of `v`, most significant first.
pub open spec fn hex_digits(v: u128) -> Seq<char> {
    Seq::new(32, |i: int| hex_digit((v as int / pow2((4 * (31 - i)) as nat) as int) % 16))
}

/// The hyphenated text of an identifier: its 32 lowercase hexadecimal
/// digits in groups of 8, 4, 4, 4 and 12, joined by `-`.
pub open spec fn uuid_text(v: u128) -> Seq<char> {
    let h = hex_digits(v);
    h.subrange(0, 8) + "-"@ + h.subrange(8, 12) + "-"@ + h.subrange(12, 16) + "-"@ + h.subrange(16, 20) + "-"@
        + h.subrange(20, 32)
}

/// Calls `uuid::Uuid::from_u128` (the value's bytes, most significant
/// first) and `to_string`, which writes the hyphenated lowercase form.
#[verifier::external_body]
pub(crate) fn uuid_string(v: u128) -> (r: String)
    ensures
        r@ == uuid_text(v),
{
    uuid::Uuid::from_u128(v).to_string()
}

/// Whether `t` is a reading of the system clock as `chrono::Utc::now`
/// gives one: not before the Unix epoch, with less than a second of
/// nanoseconds.
pub open spec fn clock_reading(t: Timestamp) -> bool {
    t.secs >= 0 && t.nanos < 1_000_000_000
}

/// Calls `chrono::Utc::now` and returns the moment as seconds
/// (`timestamp`) and nanoseconds (`timestamp_subsec_nanos`). The value
/// depends on the clock; what is claimed is what the source of `now`
/// shows: it is built from the time since the Unix epoch (it panics on a
/// clock set before it), whose nanoseconds stay below one second.
#[verifier::external_body]
pub(crate) fn current_time() -> (r: Timestamp)
    ensures
        clock_reading(r),
{
    let now = chrono::Utc::now();
    Timestamp { secs: now.timestamp(), nanos: now.timestamp_subsec_nanos() }
}

} // verus!
