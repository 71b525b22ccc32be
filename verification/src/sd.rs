//! SD card over SPI: protocol constants, the command checksum, the byte
//! transport the driver talks through, and the choice of a chip-select pin.
use vstd::prelude::*;

verus! {

pub const INIT_CLOCK_HZ: u32 = 400_000;
pub const DATA_CLOCK_HZ: u32 = 40_000_000;

pub const CMD0: u8 = 0x00;
pub const CMD8: u8 = 0x08;
pub const CMD9: u8 = 0x09;
pub const CMD12: u8 = 0x0C;
pub const CMD13: u8 = 0x0D;
pub const CMD17: u8 = 0x11;
pub const CMD18: u8 = 0x12;
pub const CMD24: u8 = 0x18;
pub const CMD25: u8 = 0x19;
pub const CMD55: u8 = 0x37;
pub const CMD58: u8 = 0x3A;
pub const CMD59: u8 = 0x3B;
pub const ACMD23: u8 = 0x17;
pub const ACMD41: u8 = 0x29;

pub const R1_READY_STATE: u8 = 0x00;
pub const R1_IDLE_STATE: u8 = 0x01;
pub const R1_ILLEGAL_COMMAND: u8 = 0x04;

pub const DATA_START_BLOCK: u8 = 0xFE;
pub const STOP_TRAN_TOKEN: u8 = 0xFD;
pub const WRITE_MULTIPLE_TOKEN: u8 = 0xFC;
pub const DATA_RES_MASK: u8 = 0x1F;
pub const DATA_RES_ACCEPTED: u8 = 0x05;

/// The kind of card found during initialisation.
#[derive(Debug, Clone, Copy, PartialEq, Eq, Structural)]
pub enum CardType {
    SD1,
    SD2,
    SDHC,
}

/// Driver options.
#[derive(Debug, Clone, Copy, PartialEq, Eq, Structural)]
pub struct SdSpiOptions {
    pub use_crc: bool,
}

impl Default for SdSpiOptions {
    /// Checksums on.
    fn default() -> (r: Self)
        ensures
            r.use_crc,
    {
        SdSpiOptions { use_crc: true }
    }
}

/// Why a card operation failed.
#[derive(Debug, Clone, Copy, PartialEq, Eq)]
pub enum Error<SpiE, PinE> {
    Spi(SpiE),
    Pin(PinE),
    TimeoutCommand(u8),
    TimeoutACommand(u8),
    TimeoutReadBuffer,
    TimeoutWaitNotBusy,
    Cmd58Error,
    RegisterReadError,
    CrcError(u16, u16),
    ReadError,
    WriteError,
    CardNotFound,
    BadState,
    Unsupported,
}

/// Why the shared SPI link to the card failed: the transfer, or setting the
/// bus configuration.
#[derive(Debug, Clone, Copy, PartialEq, Eq)]
pub enum SdTransportError<E> {
    Spi(E),
    SetConfig,
}

/// One CRC-7 shift: the register moves up a bit, and the generator is folded in
/// when the data bit differs from the bit shifted to the top.
pub open spec fn crc_bit_step(crc: u8, byte: u8) -> u8 {
    let c = (crc << 1u8) as u8;
    if (byte & 0x80u8) ^ (c & 0x80u8) != 0 {
        c ^ 0x09u8
    } else {
        c
    }
}

/// The register after the top `n` bits of `byte`.
pub open spec fn crc_byte_steps(crc: u8, byte: u8, n: nat) -> u8
    decreases n,
{
    if n == 0 {
        crc
    } else {
        crc_byte_steps(crc_bit_step(crc, byte), (byte << 1u8) as u8, (n - 1) as nat)
    }
}

/// The register after all of `data`, from zero.
pub open spec fn crc7_register(data: Seq<u8>) -> u8
    decreases data.len(),
{
    if data.len() == 0 {
        0
    } else {
        crc_byte_steps(crc7_register(data.drop_last()), data.last(), 8)
    }
}

/// The checksum byte that ends an SD command frame: the register shifted up with the end bit set.
pub open spec fn crc7_spec(data: Seq<u8>) -> u8 {
    ((crc7_register(data) << 1u8) | 1u8) as u8
}

/// The CRC-7 byte of an SD command frame.
pub fn crc7(data: &[u8]) -> (r: u8)
    ensures
        r == crc7_spec(data@),
{
    let mut crc: u8 = 0;
    let mut i: usize = 0;
    while i < data.len()
        invariant
            i <= data@.len(),
            crc == crc7_register(data@.subrange(0, i as int)),
        decreases data@.len() - i,
    {
        let ghost start = crc;
        let mut byte = data[i];
        let ghost b0 = byte;
        let mut k: u32 = 0;
        while k < 8
            invariant
                k <= 8,
                crc_byte_steps(crc, byte, (8 - k) as nat) == crc_byte_steps(start, b0, 8),
            decreases 8 - k,
        {
            let c = crc << 1u8;
            crc = if (byte & 0x80u8) ^ (c & 0x80u8) != 0 {
                c ^ 0x09u8
            } else {
                c
            };
            byte = byte << 1u8;
            k += 1;
        }
        proof {
            let next = data@.subrange(0, i + 1);
            assert(next.drop_last() =~= data@.subrange(0, i as int));
            assert(next.last() == b0);
        }
        i += 1;
    }
    assert(data@.subrange(0, data@.len() as int) =~= data@);
    (crc << 1u8) | 1u8
}

/// A full-duplex byte link to the card: each byte sent clocks one byte in.
pub trait SpiTransport {
    type Error;

    /// Sets the bus clock.
    fn set_clock_hz(&mut self, hz: u32) -> Result<(), Self::Error>;

    /// Sends `byte` and returns the byte received meanwhile.
    fn transfer_byte(&mut self, byte: u8) -> Result<u8, Self::Error>;

    /// Sends `bytes`, dropping what comes back; stops at the first failure.
    fn write_bytes(&mut self, bytes: &[u8]) -> Result<(), Self::Error> {
        let mut i: usize = 0;
        while i < bytes.len()
            invariant
                i <= bytes@.len(),
            decreases bytes@.len() - i,
        {
            match self.transfer_byte(bytes[i]) {
                Ok(_) => {},
                Err(e) => return Err(e),
            }
            i += 1;
        }
        Ok(())
    }

    /// Sends `bytes` and replaces each with the byte received for it; stops at
    /// the first failure.
    fn transfer_bytes(&mut self, bytes: &mut [u8]) -> (r: Result<(), Self::Error>)
        ensures
            final(bytes)@.len() == old(bytes)@.len(),
    {
        let mut i: usize = 0;
        while i < bytes.len()
            invariant
                i <= bytes@.len(),
                bytes@.len() == old(bytes)@.len(),
            decreases bytes@.len() - i,
        {
            match self.transfer_byte(bytes[i]) {
                Ok(v) => {
                    bytes[i] = v;
                },
                Err(e) => return Err(e),
            }
            i += 1;
        }
        Ok(())
    }
}

/// The first of `pins` for which `probe` succeeds; every pin before it was
/// probed and failed, and none is probed after it.
pub fn select_first_working_pin<T: Copy, F: Fn(T) -> bool>(pins: &[T], probe: F) -> (r: Option<T>)
    requires
        forall|i: int| 0 <= i < pins@.len() ==> call_requires(probe, (#[trigger] pins@[i],)),
    ensures
        match r {
            Some(p) => exists|i: int|
                0 <= i < pins@.len() && pins@[i] == p && call_ensures(probe, (p,), true) && (forall|j: int|
                    0 <= j < i ==> call_ensures(probe, (#[trigger] pins@[j],), false)),
            None => forall|j: int| 0 <= j < pins@.len() ==> call_ensures(probe, (#[trigger] pins@[j],), false),
        },
{
    let mut i: usize = 0;
    while i < pins.len()
        invariant
            i <= pins@.len(),
            forall|k: int| 0 <= k < pins@.len() ==> call_requires(probe, (#[trigger] pins@[k],)),
            forall|j: int| 0 <= j < i ==> call_ensures(probe, (#[trigger] pins@[j],), false),
        decreases pins@.len() - i,
    {
        let pin = pins[i];
        if probe(pin) {
            return Some(pin);
        }
        i += 1;
    }
    None
}

} // verus!
