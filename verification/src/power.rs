//! Boot classification and the idle-sleep policy.
use vstd::prelude::*;

verus! {

/// Idle timeout before the firmware enters deep sleep.
pub const AWAKE_TIMEOUT_MS: u64 = 300000;

/// Simplified wake source.
#[derive(Debug, Clone, Copy, PartialEq, Eq, Structural)]
pub enum WakeCause {
    Undefined,
    Gpio,
    Other,
}

/// Simplified reset reason.
#[derive(Debug, Clone, Copy, PartialEq, Eq, Structural)]
pub enum ResetReason {
    ChipPowerOn,
    CoreDeepSleep,
    Other,
}

/// Derived boot classification used by the firmware.
#[derive(Debug, Clone, Copy, PartialEq, Eq, Structural)]
pub enum WakeupReason {
    PowerButton,
    AfterFlash,
    AfterUSBPower,
    Other,
}

/// The boot classification table.
pub open spec fn wakeup_reason_spec(
    wake_cause: WakeCause,
    reset_reason: Option<ResetReason>,
    usb_connected: bool,
) -> WakeupReason {
    if wake_cause == WakeCause::Undefined && reset_reason == Some(ResetReason::ChipPowerOn)
        && !usb_connected {
        WakeupReason::PowerButton
    } else if wake_cause == WakeCause::Gpio && reset_reason == Some(ResetReason::CoreDeepSleep)
        && usb_connected {
        WakeupReason::PowerButton
    } else if wake_cause == WakeCause::Undefined && reset_reason == None::<ResetReason>
        && usb_connected {
        WakeupReason::AfterFlash
    } else if wake_cause == WakeCause::Undefined && reset_reason == Some(ResetReason::ChipPowerOn)
        && usb_connected {
        WakeupReason::AfterUSBPower
    } else {
        WakeupReason::Other
    }
}

/// Classifies the boot reason from wake source, reset reason and USB presence.
pub fn classify_wakeup_reason(
    wake_cause: WakeCause,
    reset_reason: Option<ResetReason>,
    usb_connected: bool,
) -> (r: WakeupReason)
    ensures
        r == wakeup_reason_spec(wake_cause, reset_reason, usb_connected),
{
    match (wake_cause, reset_reason, usb_connected) {
        (WakeCause::Undefined, Some(ResetReason::ChipPowerOn), false) => WakeupReason::PowerButton,
        (WakeCause::Gpio, Some(ResetReason::CoreDeepSleep), true) => WakeupReason::PowerButton,
        (WakeCause::Undefined, None, true) => WakeupReason::AfterFlash,
        (WakeCause::Undefined, Some(ResetReason::ChipPowerOn), true) => WakeupReason::AfterUSBPower,
        _ => WakeupReason::Other,
    }
}

/// Returns `true` once the idle timeout has been reached.
pub fn should_enter_sleep(elapsed_ms: u64) -> (r: bool)
    ensures
        r == (elapsed_ms >= AWAKE_TIMEOUT_MS),
{
    elapsed_ms >= AWAKE_TIMEOUT_MS
}

} // verus!
