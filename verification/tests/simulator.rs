use xteink::memory::DEVICE_PERSISTENT_BUDGET_BYTES;
use xteink::simulator::{shade_to_rgb, simulator_device_memory_footprint};

#[test]
fn shade_mapping_uses_four_distinct_grayscale_values() {
    assert_eq!(shade_to_rgb(0), 0x00FF_FFFF);
    assert_eq!(shade_to_rgb(1), 0x00AA_AAAA);
    assert_eq!(shade_to_rgb(2), 0x0055_5555);
    assert_eq!(shade_to_rgb(3), 0x0000_0000);
}

#[test]
fn simulator_device_footprint_stays_within_budget() {
    let footprint = simulator_device_memory_footprint(1);
    assert!(footprint.fits_device_budget());
    assert!(footprint.device_bytes <= DEVICE_PERSISTENT_BUDGET_BYTES);
    assert!(footprint.host_only_bytes > 0);
}

#[test]
fn shades_beyond_black_stay_black_and_the_window_scales_quadratically() {
    assert_eq!(shade_to_rgb(200), 0);
    let one = simulator_device_memory_footprint(1);
    let two = simulator_device_memory_footprint(2);
    assert_eq!(one.host_only_bytes, 480 * 800 * 4);
    assert_eq!(two.host_only_bytes, 4 * one.host_only_bytes);
    assert_eq!(one.device_bytes, two.device_bytes);
}
