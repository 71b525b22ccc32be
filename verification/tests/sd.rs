use xteink::sd::{crc7, select_first_working_pin, CardType, SdSpiOptions};

#[test]
fn returns_first_successful_candidate() {
    let pins = [0u8, 9, 18, 19];

    let selected = select_first_working_pin(&pins, |pin| pin >= 18);

    assert_eq!(selected, Some(18));
}

#[test]
fn returns_none_when_all_candidates_fail() {
    let pins = [0u8, 9, 18, 19];

    let selected = select_first_working_pin(&pins, |_| false);

    assert_eq!(selected, None);
}

#[test]
fn crc7_matches_the_fixed_command_checksums() {
    assert_eq!(crc7(&[0x40, 0, 0, 0, 0]), 0x95);
    assert_eq!(crc7(&[0x48, 0, 0, 0x01, 0xAA]), 0x87);
    assert_eq!(crc7(&[]), 0x01);
}

#[test]
fn default_options_check_crc() {
    assert!(SdSpiOptions::default().use_crc);
    assert_ne!(CardType::SD2, CardType::SDHC);
}
