use vstd::prelude::*;

pub mod adopt;
pub mod apps;
pub mod capture;
pub mod cmdline;
pub mod desktop;
pub mod injector;
pub mod input;
pub mod launch;
pub mod laws;
pub mod process;
pub mod render;
pub mod scanner;
pub mod seqs;
pub mod shortcut;
pub mod state;
pub mod text;
pub mod uia;
pub mod wgc;

verus! {

/// Hands out serial numbers from `counter`, which holds the next one to give.
pub fn new_serial(counter: &mut u32) -> (serial: u32)
    ensures
        serial == *old(counter),
        *final(counter) == (if *old(counter) == u32::MAX { 0 } else { *old(counter) + 1 }),
{
    let s = *counter;
    *counter = counter.wrapping_add(1);
    s
}

/// The protocol time stamp for `millis` milliseconds since the Unix epoch:
/// its low 32 bits.
pub fn millis_to_time(millis: u128) -> (t: u32)
    ensures
        t == millis as u32,
{
    millis as u32
}

/// Milliseconds since the Unix epoch, read through `SystemTime::elapsed` on
/// `UNIX_EPOCH`; `None` when the system clock is set before the epoch. Nothing
/// is stated of the value: it is whatever the clock reads.
#[verifier::external_body]
fn unix_millis() -> Option<u128> {
    match std::time::UNIX_EPOCH.elapsed() {
        Ok(d) => Some(d.as_millis()),
        Err(_) => None,
    }
}

/// The current protocol time stamp (see `millis_to_time`), or `None` when
/// the system clock is set before the Unix epoch.
pub fn get_time() -> Option<u32> {
    match unix_millis() {
        Some(ms) => Some(millis_to_time(ms)),
        None => None,
    }
}

} // verus!
