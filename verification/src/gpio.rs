//! The card's chip select and power lines as raw GPIO outputs: which pins,
//! the bit of each in the GPIO registers, and the levels they start at.
use vstd::prelude::*;

verus! {

pub const SD_CS_PIN: u8 = 12;
pub const SD_POWER_PIN: u8 = 13;

/// The GPIO registers that set, clear and enable outputs by bit mask, and
/// route a pin to the GPIO matrix.
pub trait GpioRegisters {
    /// Sets the output bits in `mask` high.
    fn write_set(&mut self, mask: u32);

    /// Sets the output bits in `mask` low.
    fn write_clear(&mut self, mask: u32);

    /// Enables the outputs in `mask`.
    fn enable_outputs(&mut self, mask: u32);

    /// Routes `pin` to the GPIO matrix with no pulls and no input.
    fn select_gpio_function(&mut self, pin: u8);
}

/// A pin driven through the GPIO registers.
#[derive(Debug, Clone, Copy, PartialEq, Eq, Structural)]
pub struct RawGpioOutput {
    pub pin: u8,
}

/// The register bit of `pin`.
pub open spec fn pin_mask(pin: u8) -> u32 {
    (1u32 << pin) as u32
}

impl RawGpioOutput {
    /// Makes `pin` an output at `initial_high`: routes it, sets its level, and
    /// enables it.
    pub fn new<G: GpioRegisters>(gpio: &mut G, pin: u8, initial_high: bool) -> (r: Self)
        requires
            pin < 32,
        ensures
            r.pin == pin,
    {
        configure_gpio_output(gpio, pin, initial_high);
        RawGpioOutput { pin }
    }

    /// The register bit of the pin.
    pub fn mask(&self) -> (r: u32)
        requires
            self.pin < 32,
        ensures
            r == pin_mask(self.pin),
    {
        1u32 << self.pin
    }

    /// Drives the pin high or low.
    pub fn set_level<G: GpioRegisters>(&self, gpio: &mut G, high: bool)
        requires
            self.pin < 32,
    {
        if high {
            gpio.write_set(self.mask());
        } else {
            gpio.write_clear(self.mask());
        }
    }
}

/// Routes `pin` to the GPIO matrix, sets its level, then enables it as an output.
pub fn configure_gpio_output<G: GpioRegisters>(gpio: &mut G, pin: u8, initial_high: bool)
    requires
        pin < 32,
{
    let mask: u32 = 1u32 << pin;
    gpio.select_gpio_function(pin);
    if initial_high {
        gpio.write_set(mask);
    } else {
        gpio.write_clear(mask);
    }
    gpio.enable_outputs(mask);
}

/// Powers the card: its power line as an output, high.
pub fn power_on_sd_card<G: GpioRegisters>(gpio: &mut G) -> (r: RawGpioOutput)
    ensures
        r.pin == SD_POWER_PIN,
{
    let power = RawGpioOutput::new(gpio, SD_POWER_PIN, true);
    power.set_level(gpio, true);
    power
}

/// The card's chip select as an output, idle high.
pub fn sd_cs_output<G: GpioRegisters>(gpio: &mut G) -> (r: RawGpioOutput)
    ensures
        r.pin == SD_CS_PIN,
{
    RawGpioOutput::new(gpio, SD_CS_PIN, true)
}

} // verus!
