//! An SD card driven over SPI: power-up and identification, command frames and
//! their responses, single and multiple block reads and writes, and the
//! capacity read from the card's CSD register.
use vstd::prelude::*;
use crate::sd::ACMD23;
use crate::sd::ACMD41;
use crate::sd::CMD0;
use crate::sd::CMD8;
use crate::sd::CMD9;
use crate::sd::CMD12;
use crate::sd::CMD13;
use crate::sd::CMD17;
use crate::sd::CMD18;
use crate::sd::CMD24;
use crate::sd::CMD25;
use crate::sd::CMD55;
use crate::sd::CMD58;
use crate::sd::CMD59;
use crate::sd::CardType;
use crate::sd::DATA_CLOCK_HZ;
use crate::sd::DATA_RES_ACCEPTED;
use crate::sd::DATA_RES_MASK;
use crate::sd::DATA_START_BLOCK;
use crate::sd::Error;
use crate::sd::INIT_CLOCK_HZ;
use crate::sd::R1_IDLE_STATE;
use crate::sd::R1_ILLEGAL_COMMAND;
use crate::sd::R1_READY_STATE;
use crate::sd::STOP_TRAN_TOKEN;
use crate::sd::SdSpiOptions;
use crate::sd::SpiTransport;
use crate::sd::WRITE_MULTIPLE_TOKEN;
use crate::sd::crc7;
use crate::sd::crc7_spec;

verus! {

/// The bytes of a block.
pub const BLOCK_LEN: usize = 512;
/// How many times a wait polls before it gives up.
pub const RETRIES: u32 = 10_000;

/// A block of the card.
#[derive(Debug, Clone)]
pub struct Block {
    pub contents: Vec<u8>,
}

impl Block {
    /// A block of zeros.
    pub fn new() -> (r: Self)
        ensures
            r.contents@ == Seq::new(BLOCK_LEN as nat, |i: int| 0u8),
    {
        let mut contents: Vec<u8> = Vec::new();
        let mut i: usize = 0;
        while i < BLOCK_LEN
            invariant
                i <= BLOCK_LEN,
                contents@ == Seq::new(i as nat, |k: int| 0u8),
            decreases BLOCK_LEN - i,
        {
            contents.push(0u8);
            proof {
                assert(contents@ =~= Seq::new((i + 1) as nat, |k: int| 0u8));
            }
            i += 1;
        }
        Block { contents }
    }
}

/// The number of a block on the card.
#[derive(Debug, Clone, Copy, PartialEq, Eq, Structural)]
pub struct BlockIdx(pub u32);

/// A number of blocks.
#[derive(Debug, Clone, Copy, PartialEq, Eq, Structural)]
pub struct BlockCount(pub u32);

/// A chip select or power line of the card.
pub trait CardPin {
    type Error;

    fn set_low(&mut self) -> Result<(), Self::Error>;

    fn set_high(&mut self) -> Result<(), Self::Error>;
}

/// Pauses of microseconds.
pub trait DelayUs {
    fn delay_us(&mut self, us: u32);
}

/// The bytes of a command frame: the start and transmission bits with the
/// command index, the argument most significant byte first, and the CRC-7
/// byte of those five.
pub open spec fn command_frame(command: u8, arg: u32) -> Seq<u8> {
    let head = seq![
        0x40u8 | command,
        (arg / 0x100_0000) as u8,
        ((arg / 0x1_0000) % 256) as u8,
        ((arg / 0x100) % 256) as u8,
        (arg % 256) as u8,
    ];
    head.push(crc7_spec(head))
}

/// One CRC-16 shift: the register moves up a bit, folding in the generator
/// when the top bit was set.
pub open spec fn crc16_bit(crc: u16) -> u16 {
    if crc & 0x8000u16 != 0 {
        ((crc << 1u16) as u16) ^ 0x1021u16
    } else {
        (crc << 1u16) as u16
    }
}

/// `n` shifts of the register.
pub open spec fn crc16_bits(crc: u16, n: nat) -> u16
    decreases n,
{
    if n == 0 {
        crc
    } else {
        crc16_bits(crc16_bit(crc), (n - 1) as nat)
    }
}

/// The CRC-16 (CCITT, from zero) that guards a data block.
pub open spec fn crc16_spec(data: Seq<u8>) -> u16
    decreases data.len(),
{
    if data.len() == 0 {
        0
    } else {
        crc16_bits(crc16_spec(data.drop_last()) ^ (((data.last() as u16) << 8u16) as u16), 8)
    }
}

/// The CRC-16 of a data block.
pub fn crc16(data: &[u8]) -> (r: u16)
    ensures
        r == crc16_spec(data@),
{
    let mut crc: u16 = 0;
    let mut i: usize = 0;
    while i < data.len()
        invariant
            i <= data@.len(),
            crc == crc16_spec(data@.subrange(0, i as int)),
        decreases data@.len() - i,
    {
        let ghost start = crc;
        let folded: u16 = crc ^ (((data[i] as u16) << 8u16) as u16);
        crc = folded;
        let mut k: u32 = 0;
        while k < 8
            invariant
                k <= 8,
                crc16_bits(crc, (8 - k) as nat) == crc16_bits(folded, 8),
            decreases 8 - k,
        {
            crc = if crc & 0x8000u16 != 0 {
                (crc << 1u16) ^ 0x1021u16
            } else {
                crc << 1u16
            };
            k += 1;
        }
        proof {
            let next = data@.subrange(0, i + 1);
            assert(next.drop_last() =~= data@.subrange(0, i as int));
        }
        i += 1;
    }
    assert(data@.subrange(0, data@.len() as int) =~= data@);
    crc
}

/// The command frame for `command` with `arg`.
pub fn command_frame_bytes(command: u8, arg: u32) -> (r: Vec<u8>)
    ensures
        r@ == command_frame(command, arg),
{
    let mut frame: Vec<u8> = Vec::new();
    frame.push(0x40u8 | command);
    frame.push((arg / 0x100_0000) as u8);
    frame.push(((arg / 0x1_0000) % 256) as u8);
    frame.push(((arg / 0x100) % 256) as u8);
    frame.push((arg % 256) as u8);
    let ghost head = frame@;
    assert(head =~= seq![
        0x40u8 | command,
        (arg / 0x100_0000) as u8,
        ((arg / 0x1_0000) % 256) as u8,
        ((arg / 0x100) % 256) as u8,
        (arg % 256) as u8,
    ]);
    let check = crc7(frame.as_slice());
    frame.push(check);
    frame
}

/// The byte address, for a standard capacity card, or block number, for a
/// high capacity card, of block `idx`; none before the card is known or for
/// a block whose byte address does not fit in 32 bits.
pub open spec fn block_address_spec(card_type: Option<CardType>, idx: u32) -> Option<u32> {
    match card_type {
        Some(CardType::SDHC) => Some(idx),
        Some(_) => if idx * 512 <= u32::MAX { Some((idx * 512) as u32) } else { None },
        None => None,
    }
}

/// The size field of a version 1 CSD.
pub open spec fn csd_v1_device_size(csd: Seq<u8>) -> u32 {
    ((csd[6] % 4) as u32 * 1024 + csd[7] as u32 * 4 + csd[8] as u32 / 64) as u32
}

/// The size multiplier plus the read block length of a version 1 CSD, less 7.
pub open spec fn csd_v1_shift(csd: Seq<u8>) -> int {
    ((csd[9] % 4) * 2 + csd[10] / 128) + (csd[5] % 16) - 7
}

/// The blocks of a version 1 card: the size field plus one, shifted up.
pub open spec fn csd_v1_blocks(csd: Seq<u8>) -> u32 {
    (((csd_v1_device_size(csd) + 1) as u32) << (csd_v1_shift(csd) as u32)) as u32
}

/// The size field of a version 2 CSD.
pub open spec fn csd_v2_device_size(csd: Seq<u8>) -> int {
    (csd[7] % 64) * 65536 + csd[8] * 256 + csd[9]
}

/// `CsdV1::card_capacity_blocks` of embedded-sdmmc on these 16 bytes: the
/// size field plus one shifted up by the size multiplier and the read block
/// length less 7. It panics when those two add to less than 7, which
/// `requires` leaves out.
#[verifier::external_body]
fn csd_v1_capacity_blocks(csd: &[u8]) -> (r: u32)
    requires
        csd@.len() == 16,
        csd_v1_shift(csd@) >= 0,
    ensures
        r == csd_v1_blocks(csd@),
{
    let mut parsed = embedded_sdmmc::sdcard::proto::CsdV1::new();
    parsed.data.copy_from_slice(csd);
    parsed.card_capacity_blocks()
}

/// `CsdV2::card_capacity_blocks` of embedded-sdmmc on these 16 bytes: the size
/// field plus one, times 1024. It overflows for the largest size field, which
/// `requires` leaves out.
#[verifier::external_body]
fn csd_v2_capacity_blocks(csd: &[u8]) -> (r: u32)
    requires
        csd@.len() == 16,
        (csd_v2_device_size(csd@) + 1) * 1024 <= u32::MAX,
    ensures
        r == (csd_v2_device_size(csd@) + 1) * 1024,
{
    let mut parsed = embedded_sdmmc::sdcard::proto::CsdV2::new();
    parsed.data.copy_from_slice(csd);
    parsed.card_capacity_blocks()
}

/// `n` bytes of 0xFF.
fn ff_bytes(n: usize) -> (r: Vec<u8>)
    ensures
        r@ == Seq::new(n as nat, |i: int| 0xFFu8),
{
    let mut out: Vec<u8> = Vec::new();
    let mut i: usize = 0;
    while i < n
        invariant
            i <= n,
            out@ == Seq::new(i as nat, |k: int| 0xFFu8),
        decreases n - i,
    {
        out.push(0xFF);
        proof {
            assert(out@ =~= Seq::new((i + 1) as nat, |k: int| 0xFFu8));
        }
        i += 1;
    }
    out
}

/// A count of the polls a wait has left.
struct Timeout {
    retries_left: u32,
}

impl Timeout {
    fn new(retries: u32) -> (r: Self)
        ensures
            r.retries_left == retries,
    {
        Timeout { retries_left: retries }
    }

    /// Pauses 10 microseconds and counts a poll; false when none was left.
    fn delay<D: DelayUs>(&mut self, delay: &mut D) -> (r: bool)
        ensures
            r == (old(self).retries_left > 0),
            r ==> final(self).retries_left == old(self).retries_left - 1,
    {
        if self.retries_left == 0 {
            false
        } else {
            delay.delay_us(10);
            self.retries_left = self.retries_left - 1;
            true
        }
    }
}

/// The card on its SPI link, with chip select and power lines and a delay;
/// what kind of card it is once known; and whether blocks carry CRCs.
pub struct SdSpiCard<SPI, CS, PWR, DELAY> {
    spi: SPI,
    cs: CS,
    power: PWR,
    delay: DELAY,
    card_type: Option<CardType>,
    options: SdSpiOptions,
}

impl<SpiE, PinE, SPI: SpiTransport<Error = SpiE>, CS: CardPin<Error = PinE>, PWR: CardPin<Error = PinE>, DELAY: DelayUs> SdSpiCard<
    SPI,
    CS,
    PWR,
    DELAY,
> {
    /// The kind of card, once known.
    pub closed spec fn card_type_view(&self) -> Option<CardType> {
        self.card_type
    }

    /// A card not yet identified.
    pub fn new(spi: SPI, cs: CS, power: PWR, delay: DELAY, options: SdSpiOptions) -> (r: Self)
        ensures
            r.card_type_view() is None,
    {
        SdSpiCard { spi, cs, power, delay, card_type: None, options }
    }

    /// The kind of card, once known.
    pub fn card_type(&self) -> (r: Option<CardType>)
        ensures
            r == self.card_type_view(),
    {
        self.card_type
    }

    /// The SPI link.
    pub fn spi(&self) -> &SPI {
        &self.spi
    }

    /// The chip select line.
    pub fn cs(&self) -> &CS {
        &self.cs
    }

    /// The power line.
    pub fn power(&self) -> &PWR {
        &self.power
    }

    /// Powers the card up and identifies it; the kind found.
    pub fn begin(&mut self) -> (r: Result<CardType, Error<SpiE, PinE>>)
        ensures
            r matches Ok(t) ==> final(self).card_type_view() == Some(t),
            r is Err ==> final(self).card_type_view() == old(self).card_type_view(),
    {
        self.acquire()
    }

    /// Takes the card as already identified as `card_type`.
    pub fn mark_card_as_init(&mut self, card_type: CardType)
        ensures
            final(self).card_type_view() == Some(card_type),
    {
        self.card_type = Some(card_type);
    }

    /// Reads `blocks` from block `start_block_idx` on, identifying the card first
    /// when it is not yet known.
    pub fn read(&mut self, blocks: &mut [Block], start_block_idx: BlockIdx) -> (r: Result<(), Error<SpiE, PinE>>)
        ensures
            final(blocks)@.len() == old(blocks)@.len(),
            r is Ok ==> final(self).card_type_view() is Some,
    {
        match self.ensure_init() {
            Ok(()) => {},
            Err(e) => return Err(e),
        }
        self.read_blocks(blocks, start_block_idx)
    }

    /// Writes `blocks` from block `start_block_idx` on, identifying the card
    /// first when it is not yet known.
    pub fn write(&mut self, blocks: &[Block], start_block_idx: BlockIdx) -> (r: Result<(), Error<SpiE, PinE>>)
        requires
            blocks@.len() <= u32::MAX,
        ensures
            r is Ok ==> final(self).card_type_view() is Some,
    {
        match self.ensure_init() {
            Ok(()) => {},
            Err(e) => return Err(e),
        }
        self.write_blocks(blocks, start_block_idx)
    }

    /// The card's capacity in blocks, from its CSD register, identifying the
    /// card first when it is not yet known.
    pub fn num_blocks(&mut self) -> (r: Result<BlockCount, Error<SpiE, PinE>>) {
        match self.ensure_init() {
            Ok(()) => {},
            Err(e) => return Err(e),
        }
        match self.read_csd_blocks() {
            Ok(b) => Ok(BlockCount(b)),
            Err(e) => Err(e),
        }
    }

    fn ensure_init(&mut self) -> (r: Result<(), Error<SpiE, PinE>>)
        ensures
            r is Ok ==> final(self).card_type_view() is Some,
            old(self).card_type_view() is Some ==> final(self).card_type_view() == old(self).card_type_view(),
            old(self).card_type_view() is Some ==> r is Ok && *final(self) == *old(self),
    {
        if self.card_type.is_none() {
            match self.acquire() {
                Ok(_) => {},
                Err(e) => return Err(e),
            }
        }
        Ok(())
    }

    fn set_cs(&mut self, high: bool) -> (r: Result<(), Error<SpiE, PinE>>)
        ensures
            final(self).card_type == old(self).card_type,
            final(self).options == old(self).options,
            r matches Err(e) ==> e is Pin,
    {
        let done = if high { self.cs.set_high() } else { self.cs.set_low() };
        match done {
            Ok(()) => Ok(()),
            Err(e) => Err(Error::Pin(e)),
        }
    }

    fn set_clock(&mut self, hz: u32) -> (r: Result<(), Error<SpiE, PinE>>)
        ensures
            final(self).card_type == old(self).card_type,
            final(self).options == old(self).options,
    {
        match self.spi.set_clock_hz(hz) {
            Ok(()) => Ok(()),
            Err(e) => Err(Error::Spi(e)),
        }
    }

    /// Sends `count` idle bytes.
    fn send_fill(&mut self, count: usize) -> (r: Result<(), Error<SpiE, PinE>>)
        ensures
            final(self).card_type == old(self).card_type,
            final(self).options == old(self).options,
    {
        let fill = ff_bytes(count);
        match self.spi.write_bytes(fill.as_slice()) {
            Ok(()) => Ok(()),
            Err(e) => Err(Error::Spi(e)),
        }
    }

    /// Powers the card, clocks it at the slow rate with 80 idle clocks, resets
    /// it into SPI mode, checks its voltage range, waits for it to leave the
    /// idle state, tells high capacity cards apart, and speeds the clock up.
    fn acquire(&mut self) -> (r: Result<CardType, Error<SpiE, PinE>>)
        ensures
            r matches Ok(t) ==> final(self).card_type == Some(t),
            r is Err ==> final(self).card_type == old(self).card_type,
    {
        match self.power.set_high() {
            Ok(()) => {},
            Err(e) => return Err(Error::Pin(e)),
        }
        match self.set_cs(true) {
            Ok(()) => {},
            Err(e) => return Err(e),
        }
        match self.set_clock(INIT_CLOCK_HZ) {
            Ok(()) => {},
            Err(e) => return Err(e),
        }
        match self.send_fill(10) {
            Ok(()) => {},
            Err(e) => return Err(e),
        }
        match self.set_cs(false) {
            Ok(()) => {},
            Err(e) => return Err(e),
        }
        let mut timeout = Timeout::new(RETRIES);
        loop
            invariant
                self.card_type == old(self).card_type,
                self.options == old(self).options,
            decreases timeout.retries_left,
        {
            match self.card_command(CMD0, 0) {
                Ok(status) => {
                    if status == R1_IDLE_STATE {
                        break;
                    }
                },
                Err(Error::TimeoutCommand(c)) => {
                    if c != CMD0 {
                        return Err(Error::TimeoutCommand(c));
                    }
                    match self.send_fill(0xFF) {
                        Ok(()) => {},
                        Err(e) => return Err(e),
                    }
                },
                Err(e) => return Err(e),
            }
            if !timeout.delay(&mut self.delay) {
                return Err(Error::CardNotFound);
            }
        }
        if self.options.use_crc {
            match self.card_command(CMD59, 1) {
                Ok(status) => {
                    if status != R1_IDLE_STATE {
                        return Err(Error::CardNotFound);
                    }
                },
                Err(e) => return Err(e),
            }
        }
        let interface = match self.card_command(CMD8, 0x1AA) {
            Ok(status) => status,
            Err(e) => return Err(e),
        };
        let mut card_type = if interface & R1_ILLEGAL_COMMAND != 0 {
            CardType::SD1
        } else {
            let mut response = ff_bytes(4);
            match self.spi.transfer_bytes(response.as_mut_slice()) {
                Ok(()) => {},
                Err(e) => return Err(Error::Spi(e)),
            }
            if response[3] != 0xAA {
                return Err(Error::CardNotFound);
            }
            CardType::SD2
        };
        let arg: u32 = if card_type == CardType::SD1 { 0 } else { 0x4000_0000 };
        let mut timeout = Timeout::new(RETRIES);
        loop
            invariant
                self.card_type == old(self).card_type,
                self.options == old(self).options,
            decreases timeout.retries_left,
        {
            let status = match self.card_acmd(ACMD41, arg) {
                Ok(s) => s,
                Err(e) => return Err(e),
            };
            if status == R1_READY_STATE {
                break;
            }
            if !timeout.delay(&mut self.delay) {
                return Err(Error::TimeoutACommand(ACMD41));
            }
        }
        if card_type == CardType::SD2 {
            match self.card_command(CMD58, 0) {
                Ok(status) => {
                    if status != 0 {
                        return Err(Error::Cmd58Error);
                    }
                },
                Err(e) => return Err(e),
            }
            let mut ocr = ff_bytes(4);
            match self.spi.transfer_bytes(ocr.as_mut_slice()) {
                Ok(()) => {},
                Err(e) => return Err(Error::Spi(e)),
            }
            if (ocr[0] & 0xC0) == 0xC0 {
                card_type = CardType::SDHC;
            }
        }
        match self.set_cs(true) {
            Ok(()) => {},
            Err(e) => return Err(e),
        }
        match self.set_clock(DATA_CLOCK_HZ) {
            Ok(()) => {},
            Err(e) => return Err(e),
        }
        self.card_type = Some(card_type);
        Ok(card_type)
    }

    /// Where block `idx` is addressed: unknown cards are not found, and a
    /// block beyond the byte addresses of a standard capacity card is not
    /// supported.
    fn block_address(&self, idx: BlockIdx) -> (r: Result<u32, Error<SpiE, PinE>>)
        ensures
            r matches Ok(a) ==> block_address_spec(self.card_type, idx.0) == Some(a),
            r is Err <==> block_address_spec(self.card_type, idx.0) is None,
            self.card_type is None ==> (r matches Err(e) && e == Error::<SpiE, PinE>::CardNotFound),
            self.card_type is Some ==> (r matches Err(e) ==> e == Error::<SpiE, PinE>::Unsupported),
    {
        match self.card_type {
            Some(CardType::SDHC) => Ok(idx.0),
            Some(_) => if idx.0 <= u32::MAX / 512 {
                Ok(idx.0 * 512)
            } else {
                Err(Error::Unsupported)
            },
            None => Err(Error::CardNotFound),
        }
    }

    fn read_blocks(&mut self, blocks: &mut [Block], start_block_idx: BlockIdx) -> (r: Result<(), Error<SpiE, PinE>>)
        ensures
            final(blocks)@.len() == old(blocks)@.len(),
            final(self).card_type == old(self).card_type,
    {
        match self.set_cs(false) {
            Ok(()) => {},
            Err(e) => return Err(e),
        }
        let start = match self.block_address(start_block_idx) {
            Ok(a) => a,
            Err(e) => return Err(e),
        };
        let result = if blocks.len() == 1 {
            match self.card_command(CMD17, start) {
                Ok(_) => {},
                Err(e) => return Err(e),
            }
            self.read_block_into(blocks, 0)
        } else {
            match self.card_command(CMD18, start) {
                Ok(_) => {},
                Err(e) => return Err(e),
            }
            let mut i: usize = 0;
            let mut failed: Option<Error<SpiE, PinE>> = None;
            while i < blocks.len()
                invariant
                    i <= blocks@.len(),
                    blocks@.len() == old(blocks)@.len(),
                    self.card_type == old(self).card_type,
                    self.options == old(self).options,
                decreases blocks@.len() - i,
            {
                match self.read_block_into(blocks, i) {
                    Ok(()) => {},
                    Err(e) => {
                        failed = Some(e);
                        break;
                    },
                }
                i += 1;
            }
            match failed {
                Some(e) => return Err(e),
                None => {},
            }
            match self.card_command(CMD12, 0) {
                Ok(_) => Ok(()),
                Err(e) => Err(e),
            }
        };
        match self.set_cs(true) {
            Ok(()) => {},
            Err(e) => return Err(e),
        }
        result
    }

    /// Reads one data block into `blocks[i]`.
    fn read_block_into(&mut self, blocks: &mut [Block], i: usize) -> (r: Result<(), Error<SpiE, PinE>>)
        requires
            i < old(blocks)@.len(),
        ensures
            final(blocks)@.len() == old(blocks)@.len(),
            final(self).card_type == old(self).card_type,
            final(self).options == old(self).options,
    {
        let mut contents = blocks[i].contents.clone();
        let result = self.read_data(&mut contents);
        blocks[i] = Block { contents };
        result
    }

    fn write_blocks(&mut self, blocks: &[Block], start_block_idx: BlockIdx) -> (r: Result<(), Error<SpiE, PinE>>)
        requires
            blocks@.len() <= u32::MAX,
        ensures
            final(self).card_type == old(self).card_type,
    {
        match self.set_cs(false) {
            Ok(()) => {},
            Err(e) => return Err(e),
        }
        let start = match self.block_address(start_block_idx) {
            Ok(a) => a,
            Err(e) => return Err(e),
        };
        let result = if blocks.len() == 1 {
            match self.write_single(blocks[0].contents.as_slice(), start) {
                Ok(accepted) => if accepted {
                    Ok(())
                } else {
                    Err(Error::WriteError)
                },
                Err(e) => return Err(e),
            }
        } else {
            match self.write_multiple(blocks, start) {
                Ok(()) => Ok(()),
                Err(e) => return Err(e),
            }
        };
        match self.set_cs(true) {
            Ok(()) => {},
            Err(e) => return Err(e),
        }
        result
    }

    /// Writes one block; whether the card reports it written.
    fn write_single(&mut self, contents: &[u8], start: u32) -> (r: Result<bool, Error<SpiE, PinE>>)
        ensures
            final(self).card_type == old(self).card_type,
            final(self).options == old(self).options,
    {
        match self.card_command(CMD24, start) {
            Ok(_) => {},
            Err(e) => return Err(e),
        }
        match self.write_data(DATA_START_BLOCK, contents) {
            Ok(()) => {},
            Err(e) => return Err(e),
        }
        match self.wait_not_busy() {
            Ok(()) => {},
            Err(e) => return Err(e),
        }
        let status = match self.card_command(CMD13, 0) {
            Ok(s) => s,
            Err(e) => return Err(e),
        };
        if status != 0x00 {
            return Ok(false);
        }
        let second = match self.read_byte() {
            Ok(b) => b,
            Err(e) => return Err(e),
        };
        Ok(second == 0x00)
    }

    fn write_multiple(&mut self, blocks: &[Block], start: u32) -> (r: Result<(), Error<SpiE, PinE>>)
        requires
            blocks@.len() <= u32::MAX,
        ensures
            final(self).card_type == old(self).card_type,
            final(self).options == old(self).options,
    {
        match self.card_acmd(ACMD23, blocks.len() as u32) {
            Ok(_) => {},
            Err(e) => return Err(e),
        }
        match self.wait_not_busy() {
            Ok(()) => {},
            Err(e) => return Err(e),
        }
        match self.card_command(CMD25, start) {
            Ok(_) => {},
            Err(e) => return Err(e),
        }
        let mut i: usize = 0;
        while i < blocks.len()
            invariant
                i <= blocks@.len(),
                self.card_type == old(self).card_type,
                self.options == old(self).options,
            decreases blocks@.len() - i,
        {
            match self.wait_not_busy() {
                Ok(()) => {},
                Err(e) => return Err(e),
            }
            match self.write_data(WRITE_MULTIPLE_TOKEN, blocks[i].contents.as_slice()) {
                Ok(()) => {},
                Err(e) => return Err(e),
            }
            i += 1;
        }
        match self.wait_not_busy() {
            Ok(()) => {},
            Err(e) => return Err(e),
        }
        self.write_byte(STOP_TRAN_TOKEN)
    }

    /// Reads the CSD register and works out the capacity from it; a register
    /// whose fields give no capacity is a read error.
    fn read_csd_blocks(&mut self) -> (r: Result<u32, Error<SpiE, PinE>>)
        ensures
            final(self).card_type == old(self).card_type,
            old(self).card_type is None ==> (r matches Err(e) && (e == Error::<SpiE, PinE>::CardNotFound || e is Pin)),
    {
        match self.set_cs(false) {
            Ok(()) => {},
            Err(e) => return Err(e),
        }
        let version_one = match self.card_type {
            Some(CardType::SD1) => true,
            Some(_) => false,
            None => return Err(Error::CardNotFound),
        };
        let status = match self.card_command(CMD9, 0) {
            Ok(s) => s,
            Err(e) => return Err(e),
        };
        if status != 0 {
            match self.set_cs(true) {
                Ok(()) => {},
                Err(e) => return Err(e),
            }
            return Err(Error::RegisterReadError);
        }
        let mut csd = ff_bytes(16);
        match self.read_data(&mut csd) {
            Ok(()) => {},
            Err(e) => return Err(e),
        }
        let blocks = if version_one {
            let shift: i32 = ((csd[9] % 4) as i32) * 2 + (csd[10] / 128) as i32 + (csd[5] % 16) as i32 - 7;
            if shift < 0 {
                return Err(Error::RegisterReadError);
            }
            csd_v1_capacity_blocks(csd.as_slice())
        } else {
            let size: u32 = (csd[7] % 64) as u32 * 65536 + csd[8] as u32 * 256 + csd[9] as u32;
            if size >= 0x3F_FFFF {
                return Err(Error::RegisterReadError);
            }
            csd_v2_capacity_blocks(csd.as_slice())
        };
        match self.set_cs(true) {
            Ok(()) => {},
            Err(e) => return Err(e),
        }
        Ok(blocks)
    }

    /// Waits for the data token, reads `buffer` and its CRC, and checks the CRC
    /// when CRCs are on.
    fn read_data(&mut self, buffer: &mut Vec<u8>) -> (r: Result<(), Error<SpiE, PinE>>)
        ensures
            final(buffer)@.len() == old(buffer)@.len(),
            final(self).card_type == old(self).card_type,
            final(self).options == old(self).options,
            r matches Err(Error::CrcError(_, expected)) ==> expected == crc16_spec(final(buffer)@),
    {
        let mut timeout = Timeout::new(RETRIES);
        let mut token: u8 = 0xFF;
        loop
            invariant
                self.card_type == old(self).card_type,
                self.options == old(self).options,
                buffer@.len() == old(buffer)@.len(),
            decreases timeout.retries_left,
        {
            let byte = match self.read_byte() {
                Ok(b) => b,
                Err(e) => return Err(e),
            };
            if byte != 0xFF {
                token = byte;
                break;
            }
            if !timeout.delay(&mut self.delay) {
                return Err(Error::TimeoutReadBuffer);
            }
        }
        if token != DATA_START_BLOCK {
            return Err(Error::ReadError);
        }
        let mut i: usize = 0;
        while i < buffer.len()
            invariant
                i <= buffer@.len(),
                buffer@.len() == old(buffer)@.len(),
            decreases buffer@.len() - i,
        {
            buffer.set(i, 0xFF);
            i += 1;
        }
        match self.spi.transfer_bytes(buffer.as_mut_slice()) {
            Ok(()) => {},
            Err(e) => return Err(Error::Spi(e)),
        }
        let mut crc = ff_bytes(2);
        match self.spi.transfer_bytes(crc.as_mut_slice()) {
            Ok(()) => {},
            Err(e) => return Err(Error::Spi(e)),
        }
        if self.options.use_crc {
            let received: u16 = (crc[0] as u16) * 256 + crc[1] as u16;
            let expected = crc16(buffer.as_slice());
            if received != expected {
                return Err(Error::CrcError(received, expected));
            }
        }
        Ok(())
    }

    fn card_acmd(&mut self, command: u8, arg: u32) -> (r: Result<u8, Error<SpiE, PinE>>)
        ensures
            final(self).card_type == old(self).card_type,
            final(self).options == old(self).options,
            r matches Ok(v) ==> v < 0x80,
    {
        match self.card_command(CMD55, 0) {
            Ok(_) => {},
            Err(e) => return Err(e),
        }
        self.card_command(command, arg)
    }

    /// Sends `token`, the data, and its CRC (or two filler bytes when CRCs are
    /// off), then checks that the card accepted the block.
    fn write_data(&mut self, token: u8, buffer: &[u8]) -> (r: Result<(), Error<SpiE, PinE>>)
        ensures
            final(self).card_type == old(self).card_type,
            final(self).options == old(self).options,
    {
        match self.write_byte(token) {
            Ok(()) => {},
            Err(e) => return Err(e),
        }
        match self.spi.write_bytes(buffer) {
            Ok(()) => {},
            Err(e) => return Err(Error::Spi(e)),
        }
        let check: u16 = if self.options.use_crc { crc16(buffer) } else { 0xFFFF };
        let mut check_bytes: Vec<u8> = Vec::new();
        check_bytes.push((check / 256) as u8);
        check_bytes.push((check % 256) as u8);
        match self.spi.write_bytes(check_bytes.as_slice()) {
            Ok(()) => {},
            Err(e) => return Err(Error::Spi(e)),
        }
        let status = match self.read_byte() {
            Ok(b) => b,
            Err(e) => return Err(e),
        };
        if (status & DATA_RES_MASK) != DATA_RES_ACCEPTED {
            Err(Error::WriteError)
        } else {
            Ok(())
        }
    }

    /// Sends a command frame and returns the card's R1 response: the first
    /// byte with the top bit clear. Waits for the card to be ready first, but
    /// for a reset or a stop, and skips the byte that follows a stop.
    fn card_command(&mut self, command: u8, arg: u32) -> (r: Result<u8, Error<SpiE, PinE>>)
        ensures
            final(self).card_type == old(self).card_type,
            final(self).options == old(self).options,
            r matches Ok(v) ==> v < 0x80,
    {
        if command != CMD0 && command != CMD12 {
            match self.wait_not_busy() {
                Ok(()) => {},
                Err(e) => return Err(e),
            }
        }
        let frame = command_frame_bytes(command, arg);
        match self.spi.write_bytes(frame.as_slice()) {
            Ok(()) => {},
            Err(e) => return Err(Error::Spi(e)),
        }
        if command == CMD12 {
            match self.read_byte() {
                Ok(_) => {},
                Err(e) => return Err(e),
            }
        }
        let mut timeout = Timeout::new(RETRIES);
        loop
            invariant
                self.card_type == old(self).card_type,
                self.options == old(self).options,
            decreases timeout.retries_left,
        {
            let result = match self.read_byte() {
                Ok(b) => b,
                Err(e) => return Err(e),
            };
            if result < 0x80 {
                return Ok(result);
            }
            if !timeout.delay(&mut self.delay) {
                return Err(Error::TimeoutCommand(command));
            }
        }
    }

    fn read_byte(&mut self) -> (r: Result<u8, Error<SpiE, PinE>>)
        ensures
            final(self).card_type == old(self).card_type,
            final(self).options == old(self).options,
            r matches Err(e) ==> e is Spi,
    {
        match self.spi.transfer_byte(0xFF) {
            Ok(b) => Ok(b),
            Err(e) => Err(Error::Spi(e)),
        }
    }

    fn write_byte(&mut self, byte: u8) -> (r: Result<(), Error<SpiE, PinE>>)
        ensures
            final(self).card_type == old(self).card_type,
            final(self).options == old(self).options,
    {
        match self.spi.transfer_byte(byte) {
            Ok(_) => Ok(()),
            Err(e) => Err(Error::Spi(e)),
        }
    }

    fn wait_not_busy(&mut self) -> (r: Result<(), Error<SpiE, PinE>>)
        ensures
            final(self).card_type == old(self).card_type,
            final(self).options == old(self).options,
    {
        let mut timeout = Timeout::new(RETRIES);
        loop
            invariant
                self.card_type == old(self).card_type,
                self.options == old(self).options,
            decreases timeout.retries_left,
        {
            let byte = match self.read_byte() {
                Ok(b) => b,
                Err(e) => return Err(e),
            };
            if byte == 0xFF {
                return Ok(());
            }
            if !timeout.delay(&mut self.delay) {
                return Err(Error::TimeoutWaitNotBusy);
            }
        }
    }
}

} // verus!
