use andromeda_os::align::{align_up_checked, is_power_of_two};
use andromeda_os::interrupts::{InterruptIndex, PIC1_OFFSET, PIC2_OFFSET};
use andromeda_os::AllocError;

#[test]
fn align_up_rounds_to_the_next_multiple() {
    assert_eq!(align_up_checked(0, 8), Some(0));
    assert_eq!(align_up_checked(1, 8), Some(8));
    assert_eq!(align_up_checked(8, 8), Some(8));
    assert_eq!(align_up_checked(9, 8), Some(16));
    assert_eq!(align_up_checked(1000, 1), Some(1000));
    assert_eq!(align_up_checked(0x1001, 4096), Some(0x2000));
}

#[test]
fn align_up_reports_overflow() {
    assert_eq!(align_up_checked(u64::MAX, 2), None);
    assert_eq!(align_up_checked(u64::MAX - 1, 4096), None);
    assert_eq!(align_up_checked(u64::MAX, 1), Some(u64::MAX));
}

#[test]
fn power_of_two_check() {
    assert!(is_power_of_two(1));
    assert!(is_power_of_two(2));
    assert!(is_power_of_two(1024));
    assert!(!is_power_of_two(0));
    assert!(!is_power_of_two(3));
    assert!(!is_power_of_two(12));
}

#[test]
fn allocation_failure_is_comparable() {
    assert_eq!(AllocError::AllocationFailure, AllocError::AllocationFailure);
}

#[test]
fn interrupt_vectors_follow_the_remap_offset() {
    assert_eq!(PIC1_OFFSET, 32);
    assert_eq!(PIC2_OFFSET, 40);
    assert_eq!(InterruptIndex::Timer.as_u8(), 32);
    assert_eq!(InterruptIndex::Keyboard.as_u8(), 33);
    assert_eq!(InterruptIndex::Timer.as_usize(), 32);
    assert_eq!(InterruptIndex::Keyboard.as_usize(), 33);
}
