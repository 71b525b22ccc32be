use xteink::memory::{
    DeviceMemoryFootprint, DEVICE_PERSISTENT_BUDGET_BYTES, DEVICE_STACK_RESERVE_BYTES,
    DEVICE_TOTAL_RAM_BYTES, DEVICE_TRANSIENT_HEADROOM_BYTES,
};

#[test]
fn persistent_budget_is_lower_than_total_ram() {
    assert!(DEVICE_PERSISTENT_BUDGET_BYTES < DEVICE_TOTAL_RAM_BYTES);
    assert_eq!(
        DEVICE_PERSISTENT_BUDGET_BYTES,
        DEVICE_TOTAL_RAM_BYTES - DEVICE_STACK_RESERVE_BYTES - DEVICE_TRANSIENT_HEADROOM_BYTES
    );
}

#[test]
fn footprint_reports_remaining_device_bytes() {
    let footprint = DeviceMemoryFootprint::with_breakdown(100 * 1024, 32 * 1024, 512 * 1024);
    assert!(footprint.fits_device_budget());
    assert_eq!(
        footprint.remaining_device_bytes(),
        DEVICE_PERSISTENT_BUDGET_BYTES - 100 * 1024
    );
    assert_eq!(footprint.device_heap_bytes, 32 * 1024);
}

#[test]
fn over_budget_footprint_saturates_remaining_and_reports_permille() {
    let footprint = DeviceMemoryFootprint::new(DEVICE_PERSISTENT_BUDGET_BYTES + 1);
    assert!(!footprint.fits_device_budget());
    assert_eq!(footprint.remaining_device_bytes(), 0);
    let half = DeviceMemoryFootprint::with_host_overhead(DEVICE_PERSISTENT_BUDGET_BYTES / 2, 7);
    assert_eq!(half.used_device_permille(), 500);
    assert_eq!(half.host_only_bytes, 7);
    assert_eq!(DeviceMemoryFootprint::new(usize::MAX).used_device_permille(), usize::MAX / DEVICE_PERSISTENT_BUDGET_BYTES);
}
