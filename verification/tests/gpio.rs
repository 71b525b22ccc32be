use xteink::gpio::{power_on_sd_card, sd_cs_output, GpioRegisters, RawGpioOutput, SD_CS_PIN, SD_POWER_PIN};

#[derive(Default)]
struct Registers {
    log: Vec<(&'static str, u32)>,
}

impl GpioRegisters for Registers {
    fn write_set(&mut self, mask: u32) {
        self.log.push(("set", mask));
    }

    fn write_clear(&mut self, mask: u32) {
        self.log.push(("clear", mask));
    }

    fn enable_outputs(&mut self, mask: u32) {
        self.log.push(("enable", mask));
    }

    fn select_gpio_function(&mut self, pin: u8) {
        self.log.push(("select", u32::from(pin)));
    }
}

#[test]
fn a_new_output_is_routed_set_and_enabled() {
    let mut regs = Registers::default();
    let pin = RawGpioOutput::new(&mut regs, 5, false);
    assert_eq!(pin.mask(), 1 << 5);
    assert_eq!(regs.log, vec![("select", 5), ("clear", 32), ("enable", 32)]);
    pin.set_level(&mut regs, true);
    assert_eq!(regs.log.last(), Some(&("set", 32)));
}

#[test]
fn card_lines_use_their_pins_idle_high() {
    let mut regs = Registers::default();
    let power = power_on_sd_card(&mut regs);
    assert_eq!(power.pin, SD_POWER_PIN);
    assert_eq!(
        regs.log,
        vec![("select", 13), ("set", 1 << 13), ("enable", 1 << 13), ("set", 1 << 13)]
    );
    let mut regs = Registers::default();
    let cs = sd_cs_output(&mut regs);
    assert_eq!(cs.pin, SD_CS_PIN);
    assert_eq!(regs.log, vec![("select", 12), ("set", 1 << 12), ("enable", 1 << 12)]);
}
