//! How many worker threads the cache runtime uses.
use vstd::prelude::*;

verus! {

/// The number of CPUs available to this process, from `num_cpus::get`.
///
/// Trusted: the crate documents that the count is always at least 1; the
/// count itself depends on the machine and is not stated.
#[verifier::external_body]
pub(crate) fn available_cpus() -> (n: usize)
    ensures
        n >= 1,
{
    num_cpus::get()
}

/// The worker count for a machine with `cpu_count` CPUs: one CPU is left to
/// the system, and there is always at least one worker.
pub open spec fn worker_count(cpu_count: usize) -> usize {
    if cpu_count > 1 { (cpu_count - 1) as usize } else { 1 }
}

/// The worker count for `cpu_count` CPUs.
pub fn worker_count_for(cpu_count: usize) -> (n: usize)
    ensures
        n == worker_count(cpu_count),
{
    if cpu_count > 1 { cpu_count - 1 } else { 1 }
}

/// The worker count for this machine: one less than its CPU count, and at
/// least one.
pub fn get_optimal_worker_count() -> (n: usize)
    ensures
        n >= 1,
        exists|c: usize| c >= 1 && n == worker_count(c),
{
    let cpus = available_cpus();
    let n = worker_count_for(cpus);
    assert(cpus >= 1 && n == worker_count(cpus));
    n
}

} // verus!
