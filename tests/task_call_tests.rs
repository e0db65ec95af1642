use ksync::task_calls::{sys_mmap, sys_munmap, sys_yield, TimeVal, PAGE_SIZE};

#[test]
fn timeval_splits_microseconds() {
    assert_eq!(TimeVal::from_us(3_250_000), TimeVal { sec: 3, usec: 250_000 });
    assert_eq!(TimeVal::from_us(999_999), TimeVal { sec: 0, usec: 999_999 });
    assert_eq!(TimeVal::from_us(0), TimeVal { sec: 0, usec: 0 });
}

#[test]
fn yield_returns_zero() {
    assert_eq!(sys_yield(), 0);
}

#[test]
fn mmap_checks_alignment_and_permissions() {
    assert_eq!(sys_mmap(0x1000_0000, 4096, 3), Some((0x1000_0000, 0x1000_1000, 0b10110)));
    assert_eq!(sys_mmap(0, PAGE_SIZE, 7), Some((0, 4096, 0b11110)));
    assert_eq!(sys_mmap(0, 1, 1), Some((0, 1, 0b10010)));
    assert_eq!(sys_mmap(4097, 4096, 3), None);
    assert_eq!(sys_mmap(4096, 4096, 0), None);
    assert_eq!(sys_mmap(4096, 4096, 8), None);
    assert_eq!(sys_mmap(4096, 4096, 9), None);
    assert_eq!(sys_mmap(4096, usize::MAX, 1), None);
}

#[test]
fn munmap_checks_alignment() {
    assert_eq!(sys_munmap(8192, 100), Some((8192, 8292)));
    assert_eq!(sys_munmap(8191, 100), None);
    assert_eq!(sys_munmap(8192, usize::MAX), None);
}
