//! The worker slots that the host offers.

use vstd::prelude::*;

verus! {

/// `num_cpus::get`: the number of logical CPUs available to this process.
/// It is a fact of the machine and of the moment, so nothing is stated of
/// the count.
#[verifier::external_body]
fn available_cpus() -> (count: usize) {
    num_cpus::get()
}

/// The number of worker slots for a host with `cpus` available CPUs: one
/// per CPU, and one at least.
pub fn slots_for(cpus: usize) -> (slots: usize)
    ensures
        slots == if cpus == 0 {
            1
        } else {
            cpus
        },
{
    if cpus == 0 {
        1
    } else {
        cpus
    }
}

/// The number of worker slots for a computation on this host, whatever
/// number of CPUs it reports: one at least.
pub fn worker_slots() -> (slots: usize)
    ensures
        slots >= 1,
{
    slots_for(available_cpus())
}

} // verus!
