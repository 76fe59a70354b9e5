//! Options of the load test that drives the Go client.
use vstd::prelude::*;

verus! {

/// Options of the Go client's load test.
#[derive(Debug, Clone)]
pub struct Opt {
    /// Server address to connect to.
    pub server: String,
    /// Number of concurrent workers.
    pub concurrency: u64,
    /// Size of each value written, in bytes.
    pub value_size: u64,
    /// How long to run, in seconds.
    pub duration: u64,
    /// Seconds between reports.
    pub interval: u64,
}

impl Opt {
    /// The options a run takes when none is given: `127.0.0.1:6793`, 100
    /// workers, 1 KiB values, 60 seconds, a report every second.
    pub fn with_defaults() -> (o: Opt)
        ensures
            o.server@ == "127.0.0.1:6793"@,
            o.concurrency == 100,
            o.value_size == 1024,
            o.duration == 60,
            o.interval == 1,
    {
        Opt {
            server: String::from_str("127.0.0.1:6793"),
            concurrency: 100,
            value_size: 1024,
            duration: 60,
            interval: 1,
        }
    }
}

} // verus!
