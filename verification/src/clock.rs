//! The wall clock.
use vstd::prelude::*;

verus! {

/// The system clock's time type.
#[verifier::external_type_specification]
#[verifier::external_body]
pub struct ExSystemTime(std::time::SystemTime);

/// The current time of the system clock (`SystemTime::now`); nothing is
/// stated of it.
#[verifier::external_body]
fn system_now() -> (r: std::time::SystemTime) {
    std::time::SystemTime::now()
}

/// The time elapsed from the Unix epoch to `t`
/// (`SystemTime::duration_since`), `None` for a time before the epoch.
/// Nothing is stated of it: it depends on `t`, which the clock gave.
#[verifier::external_body]
fn since_epoch(t: std::time::SystemTime) -> (r: Option<std::time::Duration>) {
    match t.duration_since(std::time::UNIX_EPOCH) {
        Ok(d) => Some(d),
        Err(_) => None,
    }
}

/// The whole milliseconds of a duration (`Duration::as_millis`).
#[verifier::external_body]
fn duration_millis(d: std::time::Duration) -> (r: u128) {
    d.as_millis()
}

/// Milliseconds since the Unix epoch, as the system clock reports them,
/// kept to 64 bits; 0 for a clock set before the epoch. Nothing is stated
/// of the result: it depends on the machine's clock.
pub(crate) fn now_millis() -> u64 {
    match since_epoch(system_now()) {
        Some(d) => {
            let m = duration_millis(d);
            #[verifier::truncate]
            (m as u64)
        },
        None => 0,
    }
}

} // verus!
