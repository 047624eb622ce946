//! Values the kernel hands each process: clock ticks per second, page size.

use vstd::prelude::*;

verus! {

/// `rustix::param::clock_ticks_per_second`: the process' `_SC_CLK_TCK`.
/// With rustix's `use-libc-auxv` feature this is libc's `sysconf`, which does
/// not fail. Nothing is promised of the value: it is what the system reports.
#[verifier::external_body]
fn clock_ticks() -> u64 {
    rustix::param::clock_ticks_per_second()
}

/// `rustix::param::page_size`: the process' page size (`_SC_PAGESIZE`),
/// through libc's `sysconf` with rustix's `use-libc-auxv` feature. Nothing is
/// promised of the value.
#[verifier::external_body]
fn process_page_size() -> usize {
    rustix::param::page_size()
}

/// The number of clock ticks per second (`sysconf(_SC_CLK_TCK)`).
///
/// Several fields of `/proc` files count time in ticks.
pub fn ticks_per_second() -> u64 {
    clock_ticks()
}

/// The memory page size in bytes (`sysconf(_SC_PAGESIZE)`).
pub fn page_size() -> (r: u64) {
    let p = process_page_size();
    p as u64
}

} // verus!
