use vstd::prelude::*;
use std::time::{Duration, Instant};
use sysinfo::{Pid, ProcessExt, System, SystemExt};

verus! {

#[verifier::external_type_specification]
#[verifier::external_body]
pub struct ExInstant(std::time::Instant);

#[verifier::external_type_specification]
#[verifier::external_body]
pub struct ExSystem(sysinfo::System);

#[verifier::external_type_specification]
#[verifier::external_body]
pub struct ExPid(sysinfo::Pid);

/// The moment a step starts; nothing is known of the value.
pub assume_specification[ std::time::Instant::now ]() -> std::time::Instant;

/// The time since a moment; nothing is known of the value.
pub assume_specification[ std::time::Instant::elapsed ](self_: &std::time::Instant) -> std::time::Duration;

pub const BYTES_PER_KB: u64 = 1024;

/// How far memory grew between two samples, in bytes; zero if it shrank.
pub open spec fn memory_growth(before: u64, after: u64) -> nat {
    if after >= before {
        (after - before) as nat
    } else {
        0
    }
}

/// Memory used between two samples in bytes, reported in whole kilobytes. A
/// process can shrink between samples; the figure is then zero, never negative.
pub fn memory_used_kb(before_bytes: u64, after_bytes: u64) -> (r: u64)
    ensures
        r == memory_growth(before_bytes, after_bytes) / BYTES_PER_KB as nat,
        after_bytes <= before_bytes ==> r == 0,
        r <= after_bytes,
{
    after_bytes.saturating_sub(before_bytes) / BYTES_PER_KB
}

/// What the instrumentation reports of one step.
pub struct StepReport {
    pub name: String,
    pub elapsed: Duration,
    pub before_bytes: u64,
    pub after_bytes: u64,
    pub memory_used_kb: u64,
}

impl StepReport {
    /// The memory figure agrees with the two samples.
    pub open spec fn consistent(&self) -> bool {
        self.memory_used_kb == memory_growth(self.before_bytes, self.after_bytes) / BYTES_PER_KB as nat
    }
}

/// The report of a step from its name, its duration and the two memory samples.
pub fn build_report(name: &str, elapsed: Duration, before_bytes: u64, after_bytes: u64) -> (r: StepReport)
    ensures
        r.name@ == name@,
        r.elapsed == elapsed,
        r.before_bytes == before_bytes,
        r.after_bytes == after_bytes,
        r.consistent(),
{
    StepReport {
        name: name.to_owned(),
        elapsed,
        before_bytes,
        after_bytes,
        memory_used_kb: memory_used_kb(before_bytes, after_bytes),
    }
}

/// Relies on sysinfo's `SystemExt::new_all`: a snapshot of the system.
#[verifier::external_body]
fn new_system() -> System {
    System::new_all()
}

/// Relies on sysinfo's `SystemExt::refresh_all`: takes a fresh snapshot.
#[verifier::external_body]
fn refresh_system(system: &mut System) {
    system.refresh_all()
}

/// Relies on sysinfo's `get_current_pid`: this process's id, where the
/// platform has one.
#[verifier::external_body]
fn current_pid() -> Option<Pid> {
    sysinfo::get_current_pid().ok()
}

/// Relies on sysinfo's `SystemExt::process` and `ProcessExt::memory`: the
/// resident memory in bytes of a process in the snapshot, if it is there.
#[verifier::external_body]
fn process_memory(system: &System, pid: Pid) -> Option<u64> {
    system.process(pid).map(|p| p.memory())
}

/// Samples this process's resident memory.
pub struct MemorySampler {
    system: System,
    pid: Option<Pid>,
}

impl MemorySampler {
    /// Whether the sampler knows which process it samples.
    pub closed spec fn knows_process(&self) -> bool {
        self.pid is Some
    }

    pub fn new() -> (r: MemorySampler) {
        MemorySampler { system: new_system(), pid: current_pid() }
    }

    /// This process's resident memory in bytes, or zero where it cannot be read.
    pub fn sample(&mut self) -> (r: u64)
        ensures
            final(self).knows_process() == old(self).knows_process(),
            !old(self).knows_process() ==> r == 0,
    {
        refresh_system(&mut self.system);
        match self.pid {
            None => 0,
            Some(pid) => match process_memory(&self.system, pid) {
                Some(bytes) => bytes,
                None => 0,
            },
        }
    }
}

/// Runs one step, measuring its duration and memory growth. The step's own
/// result is handed back unchanged, whether it succeeded or failed.
pub fn track_memory_and_time<T, F: FnOnce() -> Result<T, crate::error::EtlError>>(
    operation_name: &str,
    sampler: &mut MemorySampler,
    operation: F,
) -> (r: (Result<T, crate::error::EtlError>, StepReport))
    requires
        operation.requires(()),
    ensures
        operation.ensures((), r.0),
        r.1.name@ == operation_name@,
        r.1.consistent(),
{
    let start = Instant::now();
    let before = sampler.sample();
    let result = operation();
    let after = sampler.sample();
    let elapsed = start.elapsed();
    (result, build_report(operation_name, elapsed, before, after))
}

} // verus!
