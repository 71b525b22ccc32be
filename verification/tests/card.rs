use std::collections::VecDeque;
use std::convert::Infallible;
use xteink::card::{command_frame_bytes, crc16, Block, BlockIdx, CardPin, DelayUs, SdSpiCard};
use xteink::sd::{CardType, Error, SdSpiOptions, SpiTransport};

#[derive(Default)]
struct MockSpi {
    speeds: Vec<u32>,
    tx: Vec<u8>,
    rx: VecDeque<u8>,
}

impl SpiTransport for MockSpi {
    type Error = Infallible;

    fn set_clock_hz(&mut self, hz: u32) -> Result<(), Self::Error> {
        self.speeds.push(hz);
        Ok(())
    }

    fn transfer_byte(&mut self, byte: u8) -> Result<u8, Self::Error> {
        self.tx.push(byte);
        Ok(self.rx.pop_front().unwrap_or(0xFF))
    }
}

#[derive(Default)]
struct MockPin {
    history: Vec<bool>,
}

impl CardPin for MockPin {
    type Error = Infallible;

    fn set_low(&mut self) -> Result<(), Self::Error> {
        self.history.push(false);
        Ok(())
    }

    fn set_high(&mut self) -> Result<(), Self::Error> {
        self.history.push(true);
        Ok(())
    }
}

#[derive(Default)]
struct MockDelay;

impl DelayUs for MockDelay {
    fn delay_us(&mut self, _us: u32) {}
}

type MockCard = SdSpiCard<MockSpi, MockPin, MockPin, MockDelay>;

fn card_with(rx: VecDeque<u8>, use_crc: bool) -> MockCard {
    SdSpiCard::new(
        MockSpi {
            rx,
            ..Default::default()
        },
        MockPin::default(),
        MockPin::default(),
        MockDelay,
        SdSpiOptions { use_crc },
    )
}

#[test]
fn acquire_sequence_matches_sd_spi_boot_flow() {
    let mut bytes = vec![0xFF; 57];
    bytes[16] = 0x01; // CMD0 -> idle
    bytes[24] = 0x05; // CMD8 -> illegal response bit set
    bytes[32] = 0x01; // CMD55 -> in idle
    bytes[40] = 0x01; // CMD41 -> in idle
    bytes[48] = 0x01; // CMD55 -> in idle
    bytes[56] = 0x00; // CMD41 -> ready
    let mut card = card_with(VecDeque::from(bytes), false);

    let result = card.begin();
    assert!(result.is_ok());

    assert_eq!(card.spi().speeds, vec![400_000, 40_000_000]);
    assert!(card.cs().history.contains(&false));
    assert!(card.cs().history.contains(&true));
    assert!(card.power().history.contains(&true));
}

#[test]
fn single_block_read_uses_cmd17_and_returns_512_bytes() {
    let mut rx = VecDeque::new();
    rx.extend([0xFF; 7]);
    rx.push_back(0x00);
    rx.push_back(0xFF);
    rx.push_back(0xFE);
    rx.extend(0u8..=255);
    rx.extend(0u8..=255);
    rx.push_back(0x12);
    rx.push_back(0x34);

    let mut card = card_with(rx, false);
    card.mark_card_as_init(CardType::SDHC);

    let mut blocks = [Block::new()];
    let result = card.read(&mut blocks, BlockIdx(7));
    assert!(result.is_ok());
    assert_eq!(blocks[0].contents[0], 0);
    assert_eq!(blocks[0].contents[255], 255);
    assert_eq!(blocks[0].contents[256], 0);
    assert_eq!(blocks[0].contents[511], 255);

    assert!(card.spi().tx.iter().any(|&b| b == 0x51));
    assert!(card.cs().history.contains(&false));
    assert!(card.cs().history.contains(&true));
}

#[test]
fn command_frames_carry_the_crc7() {
    assert_eq!(command_frame_bytes(0x00, 0), vec![0x40, 0, 0, 0, 0, 0x95]);
    assert_eq!(command_frame_bytes(0x08, 0x1AA), vec![0x48, 0, 0, 0x01, 0xAA, 0x87]);
}

#[test]
fn crc16_matches_the_ccitt_check_value() {
    assert_eq!(crc16(b"123456789"), 0x31C3);
    assert_eq!(crc16(&[]), 0);
}

#[test]
fn standard_capacity_cards_address_blocks_in_bytes() {
    let mut rx = VecDeque::new();
    rx.extend([0xFF; 7]);
    rx.push_back(0x00);
    rx.push_back(0xFE);
    rx.extend(std::iter::repeat(0xAB).take(512));
    rx.extend([0xFF, 0xFF]);
    let mut card = card_with(rx, false);
    card.mark_card_as_init(CardType::SD2);

    let mut blocks = [Block::new()];
    assert!(card.read(&mut blocks, BlockIdx(2)).is_ok());

    // CMD17 with byte address 1024
    let frame_at = card.spi().tx.iter().position(|&b| b == 0x51).expect("CMD17");
    assert_eq!(&card.spi().tx[frame_at..frame_at + 5], &[0x51, 0x00, 0x00, 0x04, 0x00]);
    assert!(blocks[0].contents.iter().all(|&b| b == 0xAB));
}

#[test]
fn a_block_beyond_byte_addresses_is_unsupported_on_standard_cards() {
    let mut card = card_with(VecDeque::new(), false);
    card.mark_card_as_init(CardType::SD1);

    let mut blocks = [Block::new()];
    let result = card.read(&mut blocks, BlockIdx(u32::MAX / 512 + 1));
    assert!(matches!(result, Err(Error::Unsupported)));
}

#[test]
fn a_wrong_block_crc_is_reported_with_the_expected_value() {
    let mut rx = VecDeque::new();
    rx.extend([0xFF; 7]);
    rx.push_back(0x00);
    rx.push_back(0xFE);
    rx.extend(std::iter::repeat(0x00).take(512));
    rx.extend([0x12, 0x34]);
    let mut card = card_with(rx, true);
    card.mark_card_as_init(CardType::SDHC);

    let mut blocks = [Block::new()];
    let result = card.read(&mut blocks, BlockIdx(0));
    let expected = crc16(&[0u8; 512]);
    assert!(matches!(result, Err(Error::CrcError(0x1234, e)) if e == expected));
}

#[test]
fn capacity_of_a_high_capacity_card_comes_from_its_csd() {
    let mut csd = [0u8; 16];
    csd[0] = 0x40;
    csd[7] = 0x00;
    csd[8] = 0x1D;
    csd[9] = 0x5F;
    let mut rx = VecDeque::new();
    rx.extend([0xFF; 7]);
    rx.push_back(0x00);
    rx.push_back(0xFE);
    rx.extend(csd);
    rx.extend([0xFF, 0xFF]);
    let mut card = card_with(rx, false);
    card.mark_card_as_init(CardType::SDHC);

    let blocks = card.num_blocks().expect("capacity");
    assert_eq!(blocks.0, (0x1D5F + 1) * 1024);
}
