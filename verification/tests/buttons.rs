use xteink::buttons::{
    get_button_from_adc_1, get_button_from_adc_2, Button, ButtonState, ADC_NO_BUTTON,
    USB_DETECT_GPIO,
};
use xteink::power::WakeupReason;

#[test]
fn gpio1_thresholds_map_to_expected_buttons() {
    assert_eq!(get_button_from_adc_1(3500), Some(Button::Back));
    assert_eq!(get_button_from_adc_1(2700), Some(Button::Confirm));
    assert_eq!(get_button_from_adc_1(1500), Some(Button::Left));
    assert_eq!(get_button_from_adc_1(500), Some(Button::Right));
}

#[test]
fn gpio2_thresholds_map_to_expected_buttons() {
    assert_eq!(get_button_from_adc_2(2200), Some(Button::Up));
    assert_eq!(get_button_from_adc_2(500), Some(Button::Down));
}

#[test]
fn button_state_tracks_and_prioritizes_pressed_buttons() {
    let state = ButtonState::default()
        .with_button(Button::Power)
        .with_button(Button::Confirm);

    assert!(state.is_pressed(Button::Power));
    assert!(state.is_pressed(Button::Confirm));
    assert_eq!(state.first_pressed(), Some(Button::Confirm));
}

#[test]
fn no_button_thresholds_return_none() {
    assert_eq!(get_button_from_adc_1(4000), None);
    assert_eq!(get_button_from_adc_2(3900), None);
}

#[test]
fn test_usb_detect_gpio_is_20() {
    assert_eq!(USB_DETECT_GPIO, 20);
}

#[test]
fn test_wakeup_reason_variants() {
    assert_ne!(WakeupReason::PowerButton, WakeupReason::AfterFlash);
    assert_ne!(WakeupReason::AfterFlash, WakeupReason::AfterUSBPower);
    assert_ne!(WakeupReason::AfterUSBPower, WakeupReason::Other);
}

#[test]
fn test_button_state_default_empty() {
    let state = ButtonState::default();
    assert!(!state.any_pressed());
}

#[test]
fn test_button_state_with_button() {
    let state = ButtonState::default().with_button(Button::Power);
    assert!(state.is_pressed(Button::Power));
    assert!(!state.is_pressed(Button::Back));
    assert!(state.any_pressed());
}

#[test]
fn test_button_state_multiple_buttons() {
    let state = ButtonState::default()
        .with_button(Button::Power)
        .with_button(Button::Confirm);
    assert!(state.is_pressed(Button::Power));
    assert!(state.is_pressed(Button::Confirm));
    assert!(!state.is_pressed(Button::Back));
    assert!(state.any_pressed());
}

#[test]
fn test_adc_1_no_button() {
    assert_eq!(get_button_from_adc_1(4000), None);
    assert_eq!(get_button_from_adc_1(3900), None);
}

#[test]
fn test_adc_1_back_button() {
    assert_eq!(get_button_from_adc_1(3500), Some(Button::Back));
    assert_eq!(get_button_from_adc_1(3200), Some(Button::Back));
}

#[test]
fn test_adc_1_confirm_button() {
    assert_eq!(get_button_from_adc_1(2700), Some(Button::Confirm));
    assert_eq!(get_button_from_adc_1(2200), Some(Button::Confirm));
}

#[test]
fn test_adc_1_left_button() {
    assert_eq!(get_button_from_adc_1(1500), Some(Button::Left));
    assert_eq!(get_button_from_adc_1(1000), Some(Button::Left));
}

#[test]
fn test_adc_1_right_button() {
    assert_eq!(get_button_from_adc_1(500), Some(Button::Right));
    assert_eq!(get_button_from_adc_1(5), Some(Button::Right));
}

#[test]
fn test_adc_2_no_button() {
    assert_eq!(get_button_from_adc_2(4000), None);
    assert_eq!(get_button_from_adc_2(3900), None);
}

#[test]
fn test_adc_2_up_button() {
    assert_eq!(get_button_from_adc_2(2200), Some(Button::Up));
    assert_eq!(get_button_from_adc_2(1500), Some(Button::Up));
}

#[test]
fn test_adc_2_down_button() {
    assert_eq!(get_button_from_adc_2(500), Some(Button::Down));
    assert_eq!(get_button_from_adc_2(5), Some(Button::Down));
}

#[test]
fn test_button_first_pressed() {
    let state = ButtonState::default()
        .with_button(Button::Confirm)
        .with_button(Button::Up);
    assert_eq!(state.first_pressed(), Some(Button::Confirm));
}

#[test]
fn test_button_name() {
    assert_eq!(Button::Back.name(), "Back");
    assert_eq!(Button::Confirm.name(), "Confirm");
    assert_eq!(Button::Left.name(), "Left");
    assert_eq!(Button::Right.name(), "Right");
    assert_eq!(Button::Up.name(), "Up");
    assert_eq!(Button::Down.name(), "Down");
    assert_eq!(Button::Power.name(), "Power");
}

#[test]
fn adc_boundaries_are_inclusive_at_the_top_of_each_range() {
    assert_eq!(get_button_from_adc_1(ADC_NO_BUTTON), Some(Button::Back));
    assert_eq!(get_button_from_adc_1(ADC_NO_BUTTON + 1), None);
    assert_eq!(get_button_from_adc_1(3100), Some(Button::Confirm));
    assert_eq!(get_button_from_adc_1(2090), Some(Button::Left));
    assert_eq!(get_button_from_adc_1(750), Some(Button::Right));
    assert_eq!(get_button_from_adc_1(0), None);
    assert_eq!(get_button_from_adc_2(1120), Some(Button::Down));
    assert_eq!(get_button_from_adc_2(0), None);
}

#[test]
fn with_button_is_idempotent_and_first_pressed_of_empty_is_none() {
    let once = ButtonState::default().with_button(Button::Left);
    assert_eq!(once.with_button(Button::Left), once);
    assert_eq!(ButtonState::default().first_pressed(), None);
}
