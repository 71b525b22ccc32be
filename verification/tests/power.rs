use xteink::power::{
    classify_wakeup_reason, should_enter_sleep, ResetReason, WakeCause, WakeupReason,
    AWAKE_TIMEOUT_MS,
};

#[test]
fn classifies_power_button_boot_without_usb() {
    let reason =
        classify_wakeup_reason(WakeCause::Undefined, Some(ResetReason::ChipPowerOn), false);

    assert_eq!(reason, WakeupReason::PowerButton);
}

#[test]
fn classifies_power_button_gpio_wake_with_usb() {
    let reason = classify_wakeup_reason(WakeCause::Gpio, Some(ResetReason::CoreDeepSleep), true);

    assert_eq!(reason, WakeupReason::PowerButton);
}

#[test]
fn classifies_after_flash_boot() {
    let reason = classify_wakeup_reason(WakeCause::Undefined, None, true);

    assert_eq!(reason, WakeupReason::AfterFlash);
}

#[test]
fn classifies_usb_power_boot() {
    let reason =
        classify_wakeup_reason(WakeCause::Undefined, Some(ResetReason::ChipPowerOn), true);

    assert_eq!(reason, WakeupReason::AfterUSBPower);
}

#[test]
fn classifies_unknown_combinations_as_other() {
    let reason = classify_wakeup_reason(WakeCause::Other, Some(ResetReason::Other), false);

    assert_eq!(reason, WakeupReason::Other);
}

#[test]
fn timeout_helper_matches_five_minute_policy() {
    assert!(!should_enter_sleep(AWAKE_TIMEOUT_MS - 1));
    assert!(should_enter_sleep(AWAKE_TIMEOUT_MS));
}

#[test]
fn test_awake_timeout_is_5_minutes() {
    assert_eq!(AWAKE_TIMEOUT_MS, 5 * 60 * 1000);
}

#[test]
fn gpio_wake_without_usb_is_other() {
    assert_eq!(
        classify_wakeup_reason(WakeCause::Gpio, Some(ResetReason::CoreDeepSleep), false),
        WakeupReason::Other
    );
    assert!(should_enter_sleep(u64::MAX));
    assert!(!should_enter_sleep(0));
}
