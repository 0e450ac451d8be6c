use vstd::prelude::*;

verus! {

/// Default number of bits in the store.
pub const DEFAULT_STATE_LENGTH: usize = 1_000_000;

/// Process-wide settings, read once before the store is constructed: the
/// number of bits, the socket address to serve on, and how many workers
/// handle requests concurrently.
pub struct Config {
    pub state_length: usize,
    pub bind_address: String,
    pub workers: usize,
}

/// Relies on num_cpus::get: the number of logical CPUs of the current
/// system, documented to always be at least 1.
#[verifier::external_body]
fn cpu_count() -> (r: usize)
    ensures
        r >= 1,
{
    num_cpus::get()
}

/// Twice the given CPU count, saturating at the largest `usize`.
pub fn worker_count(cpus: usize) -> (r: usize)
    ensures
        r == if 2 * (cpus as int) <= usize::MAX as int {
            2 * (cpus as int)
        } else {
            usize::MAX as int
        },
{
    if cpus <= usize::MAX / 2 {
        cpus * 2
    } else {
        usize::MAX
    }
}

impl Config {
    /// The defaults: a million bits, every interface on port 8080, and two
    /// workers per logical CPU.
    pub fn new() -> (r: Config)
        ensures
            r.state_length == DEFAULT_STATE_LENGTH,
            r.bind_address@ == "0.0.0.0:8080"@,
            r.workers >= 2,
    {
        let cpus = cpu_count();
        Config {
            state_length: DEFAULT_STATE_LENGTH,
            bind_address: "0.0.0.0:8080".to_owned(),
            workers: worker_count(cpus),
        }
    }
}

} // verus!
