//! The computing part of a few task system calls: the time value handed to
//! a user, and the checks of a memory-mapping request. Reading the clock,
//! rescheduling and changing the page table are the kernel's.
use vstd::prelude::*;

verus! {

/// Bytes in a page.
pub const PAGE_SIZE: usize = 4096;

/// Page-table permission bit that makes a mapping reachable from user mode.
pub const PERM_USER: u8 = 16;

/// A time in seconds and microseconds.
#[derive(PartialEq, Eq, Structural, Clone, Copy, Debug)]
pub struct TimeVal {
    pub sec: usize,
    pub usec: usize,
}

impl TimeVal {
    /// Splits `us` microseconds into whole seconds and the microseconds left.
    pub fn from_us(us: usize) -> (tv: TimeVal)
        ensures
            tv.sec == us / 1_000_000,
            tv.usec == us % 1_000_000,
            tv.sec * 1_000_000 + tv.usec == us,
            tv.usec < 1_000_000,
    {
        TimeVal { sec: us / 1_000_000, usec: us % 1_000_000 }
    }
}

/// The calling task gives up the processor; the call returns 0.
pub fn sys_yield() -> (r: isize)
    ensures
        r == 0,
{
    0
}

/// A valid mapping request: `start` is page aligned, `start + len` fits, and
/// `port` holds some of the read, write and execute bits (1, 2, 4) and
/// nothing else.
pub open spec fn mmap_valid(start: usize, len: usize, port: usize) -> bool {
    &&& start % PAGE_SIZE == 0
    &&& start + len <= usize::MAX
    &&& 1 <= port <= 7
}

/// Checks a request to map `[start, start + len)` with permissions `port`;
/// returns the range and the page-table permission bits (`port` shifted one
/// up, with the user bit), or `None` for an invalid request.
pub fn sys_mmap(start: usize, len: usize, port: usize) -> (r: Option<(usize, usize, u8)>)
    ensures
        r.is_some() == mmap_valid(start, len, port),
        r.is_some() ==> r == Some((start, (start + len) as usize, (2 * port + PERM_USER) as u8)),
{
    if start % PAGE_SIZE != 0 {
        return None;
    }
    if port & !7usize != 0 || port & 7usize == 0 {
        assert(!(1 <= port <= 7)) by (bit_vector)
            requires
                port & !7usize != 0 || port & 7usize == 0,
        ;
        return None;
    }
    assert(1 <= port <= 7) by (bit_vector)
        requires
            !(port & !7usize != 0 || port & 7usize == 0),
    ;
    if len > usize::MAX - start {
        return None;
    }
    let flags: u8 = ((port as u8) << 1u8) | PERM_USER;
    assert(flags == 2 * port + 16) by (bit_vector)
        requires
            1 <= port <= 7,
            flags == ((port as u8) << 1u8) | 16u8,
    ;
    Some((start, start + len, flags))
}

/// Checks a request to unmap `[start, start + len)`: returns the range, or
/// `None` when `start` is not page aligned or the end does not fit.
pub fn sys_munmap(start: usize, len: usize) -> (r: Option<(usize, usize)>)
    ensures
        r.is_some() == (start % PAGE_SIZE == 0 && start + len <= usize::MAX),
        r.is_some() ==> r == Some((start, (start + len) as usize)),
{
    if start % PAGE_SIZE != 0 || len > usize::MAX - start {
        return None;
    }
    Some((start, start + len))
}

} // verus!
