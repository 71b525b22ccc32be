//! The SSD1677 e-paper controller: the command sequences that set the panel
//! up, load a frame into its memory and refresh it, and put it to sleep, and a
//! driver that sends them over SPI with its control lines.
use vstd::prelude::*;
use crate::framebuffer::BUFFER_SIZE;

verus! {

pub const PHYSICAL_WIDTH: u16 = 800;
pub const PHYSICAL_HEIGHT: u16 = 480;

pub const CMD_SOFT_RESET: u8 = 0x12;
pub const CMD_BOOSTER_SOFT_START: u8 = 0x0C;
pub const CMD_DRIVER_OUTPUT_CONTROL: u8 = 0x01;
pub const CMD_BORDER_WAVEFORM: u8 = 0x3C;
pub const CMD_TEMP_SENSOR_CONTROL: u8 = 0x18;
pub const CMD_DATA_ENTRY_MODE: u8 = 0x11;
pub const CMD_SET_RAM_X_RANGE: u8 = 0x44;
pub const CMD_SET_RAM_Y_RANGE: u8 = 0x45;
pub const CMD_SET_RAM_X_COUNTER: u8 = 0x4E;
pub const CMD_SET_RAM_Y_COUNTER: u8 = 0x4F;
pub const CMD_WRITE_RAM_BW: u8 = 0x24;
pub const CMD_WRITE_RAM_RED: u8 = 0x26;
pub const CMD_DISPLAY_UPDATE_CTRL1: u8 = 0x21;
pub const CMD_DISPLAY_UPDATE_CTRL2: u8 = 0x22;
pub const CMD_MASTER_ACTIVATION: u8 = 0x20;
pub const CMD_WRITE_TEMP: u8 = 0x1A;
pub const CMD_DEEP_SLEEP: u8 = 0x10;

pub const CTRL1_NORMAL: u8 = 0x00;
pub const CTRL1_BYPASS_RED: u8 = 0x40;
pub const DATA_ENTRY_X_INC_Y_DEC: u8 = 0x01;
pub const TEMP_SENSOR_INTERNAL: u8 = 0x80;
pub const DISPLAY_BUSY_TIMEOUT_MS: u16 = 250;
/// The most frame bytes sent in one SPI write.
pub const FRAME_CHUNK: usize = 4096;

/// How the panel redraws.
#[derive(Debug, Clone, Copy, PartialEq, Eq, Structural)]
pub enum RefreshMode {
    Full,
    Half,
    Fast,
}

/// Why a refresh was not started.
#[derive(Debug, Clone, Copy, PartialEq, Eq, Structural)]
pub enum RefreshScheduleError {
    Busy,
}

/// One step of talking to the controller.
#[derive(Debug, Clone, Copy, PartialEq, Eq, Structural)]
pub enum DisplayOp {
    /// A command byte (data/command line low).
    Command(u8),
    /// A data byte (data/command line high).
    Data(u8),
    /// The whole frame as data.
    Frame,
    /// The reset line set high (true) or low.
    ResetLine(bool),
    /// A pause.
    DelayMs(u32),
    /// Polls the busy line until it drops, a millisecond at a time, at most
    /// `DISPLAY_BUSY_TIMEOUT_MS` times.
    WaitWhileBusy,
}

/// The low byte of `v`.
pub open spec fn lo_byte(v: int) -> u8 {
    (v % 256) as u8
}

/// The second byte of `v`.
pub open spec fn hi_byte(v: int) -> u8 {
    ((v / 256) % 256) as u8
}

/// Selects the memory window `w` by `h` at `(x, y)`, counted from the top,
/// with the controller's rows running bottom up.
pub open spec fn set_ram_area_ops(x: u16, y: u16, w: u16, h: u16) -> Seq<DisplayOp> {
    let row = PHYSICAL_HEIGHT - y - h;
    let x_end = x + w - 1;
    let y_end = row + h - 1;
    seq![
        DisplayOp::Command(CMD_DATA_ENTRY_MODE),
        DisplayOp::Data(DATA_ENTRY_X_INC_Y_DEC),
        DisplayOp::Command(CMD_SET_RAM_X_RANGE),
        DisplayOp::Data(lo_byte(x as int)),
        DisplayOp::Data(hi_byte(x as int)),
        DisplayOp::Data(lo_byte(x_end)),
        DisplayOp::Data(hi_byte(x_end)),
        DisplayOp::Command(CMD_SET_RAM_Y_RANGE),
        DisplayOp::Data(lo_byte(y_end)),
        DisplayOp::Data(hi_byte(y_end)),
        DisplayOp::Data(lo_byte(row)),
        DisplayOp::Data(hi_byte(row)),
        DisplayOp::Command(CMD_SET_RAM_X_COUNTER),
        DisplayOp::Data(lo_byte(x as int)),
        DisplayOp::Data(hi_byte(x as int)),
        DisplayOp::Command(CMD_SET_RAM_Y_COUNTER),
        DisplayOp::Data(lo_byte(y_end)),
        DisplayOp::Data(hi_byte(y_end)),
    ]
}

/// The whole panel as the memory window.
pub open spec fn full_area_ops() -> Seq<DisplayOp> {
    set_ram_area_ops(0, 0, PHYSICAL_WIDTH, PHYSICAL_HEIGHT)
}

/// A hardware reset: the reset line pulsed low between pauses.
pub open spec fn reset_ops() -> Seq<DisplayOp> {
    seq![
        DisplayOp::ResetLine(true),
        DisplayOp::DelayMs(20),
        DisplayOp::ResetLine(false),
        DisplayOp::DelayMs(2),
        DisplayOp::ResetLine(true),
        DisplayOp::DelayMs(20),
    ]
}

/// The controller set up: soft reset, internal temperature sensor, booster,
/// gate lines for the panel height, border, and the full memory window.
pub open spec fn controller_setup_ops() -> Seq<DisplayOp> {
    seq![
        DisplayOp::Command(CMD_SOFT_RESET),
        DisplayOp::WaitWhileBusy,
        DisplayOp::DelayMs(10),
        DisplayOp::Command(CMD_TEMP_SENSOR_CONTROL),
        DisplayOp::Data(TEMP_SENSOR_INTERNAL),
        DisplayOp::Command(CMD_BOOSTER_SOFT_START),
        DisplayOp::Data(0xAE),
        DisplayOp::Data(0xC7),
        DisplayOp::Data(0xC3),
        DisplayOp::Data(0xC0),
        DisplayOp::Data(0x40),
        DisplayOp::Command(CMD_DRIVER_OUTPUT_CONTROL),
        DisplayOp::Data(lo_byte(PHYSICAL_HEIGHT - 1)),
        DisplayOp::Data(hi_byte(PHYSICAL_HEIGHT - 1)),
        DisplayOp::Data(0x02),
        DisplayOp::Command(CMD_BORDER_WAVEFORM),
        DisplayOp::Data(0x01),
    ] + full_area_ops()
}

/// What `init` sends: a reset, then the controller set up.
pub open spec fn init_ops() -> Seq<DisplayOp> {
    reset_ops() + controller_setup_ops()
}

/// The update sequence bits of a refresh.
pub open spec fn display_mode_bits(mode: RefreshMode, screen_on: bool, turn_off_screen: bool) -> u8 {
    (if !screen_on { 0xC0u8 } else { 0u8 }) | (if turn_off_screen { 0x03u8 } else { 0u8 }) | (match mode {
        RefreshMode::Full => 0x34u8,
        RefreshMode::Half => 0xD4u8,
        RefreshMode::Fast => 0x1Cu8,
    })
}

/// A refresh of what the memory holds: the update options (the red memory
/// bypassed but for fast refreshes), a temperature for half refreshes, the
/// update sequence, and the activation; the panel is on afterwards unless
/// it is turned off.
pub open spec fn refresh_ops(mode: RefreshMode, screen_on: bool, turn_off_screen: bool) -> Seq<DisplayOp> {
    seq![
        DisplayOp::Command(CMD_DISPLAY_UPDATE_CTRL1),
        DisplayOp::Data(if mode == RefreshMode::Fast { CTRL1_NORMAL } else { CTRL1_BYPASS_RED }),
    ] + (if mode == RefreshMode::Half {
        seq![DisplayOp::Command(CMD_WRITE_TEMP), DisplayOp::Data(0x5A)]
    } else {
        Seq::empty()
    }) + seq![
        DisplayOp::Command(CMD_DISPLAY_UPDATE_CTRL2),
        DisplayOp::Data(display_mode_bits(mode, screen_on, turn_off_screen)),
        DisplayOp::Command(CMD_MASTER_ACTIVATION),
        DisplayOp::DelayMs(10),
        DisplayOp::WaitWhileBusy,
    ]
}

/// What showing a frame sends: the frame into the black and white memory,
/// and into the red one too unless the refresh is fast; the refresh; after a
/// fast refresh the frame into the red memory as the base of the next one;
/// and a wait for the panel when asked.
pub open spec fn display_buffer_ops(mode: RefreshMode, screen_on: bool, wait_for_ready: bool) -> Seq<DisplayOp> {
    full_area_ops() + (if mode != RefreshMode::Fast {
        seq![
            DisplayOp::Command(CMD_WRITE_RAM_BW),
            DisplayOp::Frame,
            DisplayOp::Command(CMD_WRITE_RAM_RED),
            DisplayOp::Frame,
        ]
    } else {
        seq![DisplayOp::Command(CMD_WRITE_RAM_BW), DisplayOp::Frame]
    }) + refresh_ops(mode, screen_on, false) + (if mode == RefreshMode::Fast {
        full_area_ops() + seq![DisplayOp::Command(CMD_WRITE_RAM_RED), DisplayOp::Frame]
    } else {
        Seq::empty()
    }) + (if wait_for_ready {
        seq![DisplayOp::WaitWhileBusy]
    } else {
        Seq::empty()
    })
}

/// What putting the panel to sleep sends: a power down of a panel that is
/// on, then deep sleep.
pub open spec fn deep_sleep_ops(screen_on: bool) -> Seq<DisplayOp> {
    (if screen_on {
        seq![
            DisplayOp::Command(CMD_DISPLAY_UPDATE_CTRL1),
            DisplayOp::Data(CTRL1_BYPASS_RED),
            DisplayOp::Command(CMD_DISPLAY_UPDATE_CTRL2),
            DisplayOp::Data(0x03),
            DisplayOp::Command(CMD_MASTER_ACTIVATION),
            DisplayOp::WaitWhileBusy,
        ]
    } else {
        Seq::empty()
    }) + seq![DisplayOp::Command(CMD_DEEP_SLEEP), DisplayOp::Data(0x01)]
}

fn push_all(ops: &mut Vec<DisplayOp>, more: Vec<DisplayOp>)
    ensures
        final(ops)@ == old(ops)@ + more@,
{
    let mut i: usize = 0;
    while i < more.len()
        invariant
            i <= more@.len(),
            ops@ == old(ops)@ + more@.subrange(0, i as int),
        decreases more@.len() - i,
    {
        ops.push(more[i]);
        proof {
            assert(more@.subrange(0, i + 1) =~= more@.subrange(0, i as int).push(more@[i as int]));
        }
        i += 1;
    }
    assert(more@.subrange(0, more@.len() as int) =~= more@);
}

/// The steps that select a memory window.
pub fn set_ram_area(x: u16, y: u16, w: u16, h: u16) -> (r: Vec<DisplayOp>)
    requires
        y + h <= PHYSICAL_HEIGHT,
        1 <= x + w <= u16::MAX,
        h >= 1,
    ensures
        r@ == set_ram_area_ops(x, y, w, h),
{
    let row = PHYSICAL_HEIGHT - y - h;
    let x_end = x + w - 1;
    let y_end = row + h - 1;
    let mut ops: Vec<DisplayOp> = Vec::new();
    ops.push(DisplayOp::Command(CMD_DATA_ENTRY_MODE));
    ops.push(DisplayOp::Data(DATA_ENTRY_X_INC_Y_DEC));
    ops.push(DisplayOp::Command(CMD_SET_RAM_X_RANGE));
    ops.push(DisplayOp::Data((x % 256) as u8));
    ops.push(DisplayOp::Data((x / 256) as u8));
    ops.push(DisplayOp::Data((x_end % 256) as u8));
    ops.push(DisplayOp::Data((x_end / 256) as u8));
    ops.push(DisplayOp::Command(CMD_SET_RAM_Y_RANGE));
    ops.push(DisplayOp::Data((y_end % 256) as u8));
    ops.push(DisplayOp::Data((y_end / 256) as u8));
    ops.push(DisplayOp::Data((row % 256) as u8));
    ops.push(DisplayOp::Data((row / 256) as u8));
    ops.push(DisplayOp::Command(CMD_SET_RAM_X_COUNTER));
    ops.push(DisplayOp::Data((x % 256) as u8));
    ops.push(DisplayOp::Data((x / 256) as u8));
    ops.push(DisplayOp::Command(CMD_SET_RAM_Y_COUNTER));
    ops.push(DisplayOp::Data((y_end % 256) as u8));
    ops.push(DisplayOp::Data((y_end / 256) as u8));
    assert(ops@ =~= set_ram_area_ops(x, y, w, h));
    ops
}

/// The steps of `init`.
pub fn init_sequence() -> (r: Vec<DisplayOp>)
    ensures
        r@ == init_ops(),
{
    let mut ops: Vec<DisplayOp> = Vec::new();
    ops.push(DisplayOp::ResetLine(true));
    ops.push(DisplayOp::DelayMs(20));
    ops.push(DisplayOp::ResetLine(false));
    ops.push(DisplayOp::DelayMs(2));
    ops.push(DisplayOp::ResetLine(true));
    ops.push(DisplayOp::DelayMs(20));
    ops.push(DisplayOp::Command(CMD_SOFT_RESET));
    ops.push(DisplayOp::WaitWhileBusy);
    ops.push(DisplayOp::DelayMs(10));
    ops.push(DisplayOp::Command(CMD_TEMP_SENSOR_CONTROL));
    ops.push(DisplayOp::Data(TEMP_SENSOR_INTERNAL));
    ops.push(DisplayOp::Command(CMD_BOOSTER_SOFT_START));
    ops.push(DisplayOp::Data(0xAE));
    ops.push(DisplayOp::Data(0xC7));
    ops.push(DisplayOp::Data(0xC3));
    ops.push(DisplayOp::Data(0xC0));
    ops.push(DisplayOp::Data(0x40));
    ops.push(DisplayOp::Command(CMD_DRIVER_OUTPUT_CONTROL));
    ops.push(DisplayOp::Data(((PHYSICAL_HEIGHT - 1) % 256) as u8));
    ops.push(DisplayOp::Data(((PHYSICAL_HEIGHT - 1) / 256) as u8));
    ops.push(DisplayOp::Data(0x02));
    ops.push(DisplayOp::Command(CMD_BORDER_WAVEFORM));
    ops.push(DisplayOp::Data(0x01));
    let ghost head = ops@;
    assert(head =~= reset_ops() + controller_setup_ops().subrange(0, 17));
    push_all(&mut ops, set_ram_area(0, 0, PHYSICAL_WIDTH, PHYSICAL_HEIGHT));
    assert(ops@ =~= init_ops());
    ops
}

/// The steps of a refresh.
pub fn refresh_sequence(mode: RefreshMode, screen_on: bool, turn_off_screen: bool) -> (r: Vec<DisplayOp>)
    ensures
        r@ == refresh_ops(mode, screen_on, turn_off_screen),
{
    let mut ops: Vec<DisplayOp> = Vec::new();
    ops.push(DisplayOp::Command(CMD_DISPLAY_UPDATE_CTRL1));
    ops.push(DisplayOp::Data(if mode == RefreshMode::Fast { CTRL1_NORMAL } else { CTRL1_BYPASS_RED }));
    if mode == RefreshMode::Half {
        ops.push(DisplayOp::Command(CMD_WRITE_TEMP));
        ops.push(DisplayOp::Data(0x5A));
    }
    let bits = (if !screen_on { 0xC0u8 } else { 0u8 }) | (if turn_off_screen { 0x03u8 } else { 0u8 }) | (match mode {
        RefreshMode::Full => 0x34u8,
        RefreshMode::Half => 0xD4u8,
        RefreshMode::Fast => 0x1Cu8,
    });
    ops.push(DisplayOp::Command(CMD_DISPLAY_UPDATE_CTRL2));
    ops.push(DisplayOp::Data(bits));
    ops.push(DisplayOp::Command(CMD_MASTER_ACTIVATION));
    ops.push(DisplayOp::DelayMs(10));
    ops.push(DisplayOp::WaitWhileBusy);
    assert(ops@ =~= refresh_ops(mode, screen_on, turn_off_screen));
    ops
}

/// The steps of showing a frame.
pub fn display_buffer_sequence(mode: RefreshMode, screen_on: bool, wait_for_ready: bool) -> (r: Vec<DisplayOp>)
    ensures
        r@ == display_buffer_ops(mode, screen_on, wait_for_ready),
{
    let mut ops = set_ram_area(0, 0, PHYSICAL_WIDTH, PHYSICAL_HEIGHT);
    ops.push(DisplayOp::Command(CMD_WRITE_RAM_BW));
    ops.push(DisplayOp::Frame);
    if mode != RefreshMode::Fast {
        ops.push(DisplayOp::Command(CMD_WRITE_RAM_RED));
        ops.push(DisplayOp::Frame);
    }
    let ghost loaded = ops@;
    push_all(&mut ops, refresh_sequence(mode, screen_on, false));
    let ghost refreshed = ops@;
    if mode == RefreshMode::Fast {
        push_all(&mut ops, set_ram_area(0, 0, PHYSICAL_WIDTH, PHYSICAL_HEIGHT));
        ops.push(DisplayOp::Command(CMD_WRITE_RAM_RED));
        ops.push(DisplayOp::Frame);
    }
    let ghost based = ops@;
    if wait_for_ready {
        ops.push(DisplayOp::WaitWhileBusy);
    }
    proof {
        let frames: Seq<DisplayOp> = if mode != RefreshMode::Fast {
            seq![
                DisplayOp::Command(CMD_WRITE_RAM_BW),
                DisplayOp::Frame,
                DisplayOp::Command(CMD_WRITE_RAM_RED),
                DisplayOp::Frame,
            ]
        } else {
            seq![DisplayOp::Command(CMD_WRITE_RAM_BW), DisplayOp::Frame]
        };
        assert(loaded =~= full_area_ops() + frames);
        let base: Seq<DisplayOp> = if mode == RefreshMode::Fast {
            full_area_ops() + seq![DisplayOp::Command(CMD_WRITE_RAM_RED), DisplayOp::Frame]
        } else {
            Seq::empty()
        };
        assert(based =~= full_area_ops() + frames + refresh_ops(mode, screen_on, false) + base);
    }
    assert(ops@ =~= display_buffer_ops(mode, screen_on, wait_for_ready));
    ops
}

/// The steps of putting the panel to sleep.
pub fn deep_sleep_sequence(screen_on: bool) -> (r: Vec<DisplayOp>)
    ensures
        r@ == deep_sleep_ops(screen_on),
{
    let mut ops: Vec<DisplayOp> = Vec::new();
    if screen_on {
        ops.push(DisplayOp::Command(CMD_DISPLAY_UPDATE_CTRL1));
        ops.push(DisplayOp::Data(CTRL1_BYPASS_RED));
        ops.push(DisplayOp::Command(CMD_DISPLAY_UPDATE_CTRL2));
        ops.push(DisplayOp::Data(0x03));
        ops.push(DisplayOp::Command(CMD_MASTER_ACTIVATION));
        ops.push(DisplayOp::WaitWhileBusy);
    }
    ops.push(DisplayOp::Command(CMD_DEEP_SLEEP));
    ops.push(DisplayOp::Data(0x01));
    assert(ops@ =~= deep_sleep_ops(screen_on));
    ops
}

/// The SPI link to the controller.
pub trait DisplaySpi {
    fn write(&mut self, words: &[u8]);
}

/// A digital output line: data/command select or reset.
pub trait OutputLine {
    fn set_low(&mut self);

    fn set_high(&mut self);
}

/// A digital input line: the controller's busy signal.
pub trait InputLine {
    fn is_high(&mut self) -> bool;
}

/// Pauses.
pub trait DelayMs {
    fn delay_ms(&mut self, ms: u32);
}

/// The controller on its SPI link, with its data/command, reset and busy
/// lines and a delay, and whether the panel is powered on.
pub struct SSD1677Display<SPI, DC, RST, BUSY, DELAY> {
    spi: SPI,
    dc: DC,
    rst: RST,
    busy: BUSY,
    delay: DELAY,
    is_screen_on: bool,
}

impl<SPI: DisplaySpi, DC: OutputLine, RST: OutputLine, BUSY: InputLine, DELAY: DelayMs> SSD1677Display<
    SPI,
    DC,
    RST,
    BUSY,
    DELAY,
> {
    /// Whether the panel is powered on.
    pub closed spec fn screen_on(&self) -> bool {
        self.is_screen_on
    }

    /// The SPI link.
    pub closed spec fn spi_view(&self) -> SPI {
        self.spi
    }

    /// A driver for a panel that is off.
    pub fn new(spi: SPI, dc: DC, rst: RST, busy: BUSY, delay: DELAY) -> (r: Self)
        ensures
            !r.screen_on(),
            r.spi_view() == spi,
    {
        SSD1677Display { spi, dc, rst, busy, delay, is_screen_on: false }
    }

    /// Resets the controller and sets it up: sends `init_ops()`.
    pub fn init(&mut self)
        ensures
            final(self).screen_on() == old(self).screen_on(),
    {
        let ops = init_sequence();
        self.run(ops.as_slice(), &[]);
    }

    /// The SPI link.
    pub fn spi(&self) -> (r: &SPI)
        ensures
            *r == self.spi_view(),
    {
        &self.spi
    }

    /// Loads `framebuffer` and refreshes the panel in `mode`: sends
    /// `display_buffer_ops` and leaves the panel on. Without waiting, a busy
    /// panel is left alone and the result is `Busy`.
    pub fn display_buffer(&mut self, framebuffer: &[u8; BUFFER_SIZE], mode: RefreshMode, wait_for_ready: bool) -> (r:
        Result<(), RefreshScheduleError>)
        ensures
            r is Err ==> !wait_for_ready && final(self).screen_on() == old(self).screen_on(),
            r is Ok ==> final(self).screen_on(),
    {
        if !wait_for_ready && self.is_busy() {
            return Err(RefreshScheduleError::Busy);
        }
        let ops = display_buffer_sequence(mode, self.is_screen_on, wait_for_ready);
        self.run(ops.as_slice(), framebuffer.as_slice());
        self.is_screen_on = true;
        Ok(())
    }

    /// A full refresh, waiting for the panel.
    pub fn refresh_full(&mut self, framebuffer: &[u8; BUFFER_SIZE])
        ensures
            final(self).screen_on(),
    {
        let _ = self.display_buffer(framebuffer, RefreshMode::Full, true);
    }

    /// A fast refresh, waiting for the panel.
    pub fn refresh_fast(&mut self, framebuffer: &[u8; BUFFER_SIZE])
        ensures
            final(self).screen_on(),
    {
        let _ = self.display_buffer(framebuffer, RefreshMode::Fast, true);
    }

    /// A full refresh started without waiting; `Busy` when the panel still is.
    pub fn refresh_full_nonblocking(&mut self, framebuffer: &[u8; BUFFER_SIZE]) -> (r: Result<(), RefreshScheduleError>)
        ensures
            r is Ok ==> final(self).screen_on(),
            r is Err ==> final(self).screen_on() == old(self).screen_on(),
    {
        self.display_buffer(framebuffer, RefreshMode::Full, false)
    }

    /// A fast refresh started without waiting; `Busy` when the panel still is.
    pub fn refresh_fast_nonblocking(&mut self, framebuffer: &[u8; BUFFER_SIZE]) -> (r: Result<(), RefreshScheduleError>)
        ensures
            r is Ok ==> final(self).screen_on(),
            r is Err ==> final(self).screen_on() == old(self).screen_on(),
    {
        self.display_buffer(framebuffer, RefreshMode::Fast, false)
    }

    /// Whether the busy line is high.
    pub fn is_busy(&mut self) -> (r: bool)
        ensures
            final(self).screen_on() == old(self).screen_on(),
    {
        self.busy.is_high()
    }

    /// Powers the panel down and puts the controller into deep sleep: sends
    /// `deep_sleep_ops`; the panel is off afterwards.
    pub fn deep_sleep(&mut self)
        ensures
            !final(self).screen_on(),
    {
        let ops = deep_sleep_sequence(self.is_screen_on);
        self.run(ops.as_slice(), &[]);
        self.is_screen_on = false;
    }

    /// Sends `ops`, with `framebuffer` as the frame.
    fn run(&mut self, ops: &[DisplayOp], framebuffer: &[u8])
        ensures
            final(self).screen_on() == old(self).screen_on(),
    {
        let mut i: usize = 0;
        while i < ops.len()
            invariant
                i <= ops@.len(),
                self.is_screen_on == old(self).is_screen_on,
            decreases ops@.len() - i,
        {
            match ops[i] {
                DisplayOp::Command(c) => {
                    self.dc.set_low();
                    let word: [u8; 1] = [c];
                    self.spi.write(word.as_slice());
                },
                DisplayOp::Data(d) => {
                    self.dc.set_high();
                    let word: [u8; 1] = [d];
                    self.spi.write(word.as_slice());
                },
                DisplayOp::Frame => self.write_framebuffer(framebuffer),
                DisplayOp::ResetLine(high) => if high {
                    self.rst.set_high();
                } else {
                    self.rst.set_low();
                },
                DisplayOp::DelayMs(ms) => self.delay.delay_ms(ms),
                DisplayOp::WaitWhileBusy => self.wait_while_busy(),
            }
            i += 1;
        }
    }

    fn wait_while_busy(&mut self)
        ensures
            final(self).screen_on() == old(self).screen_on(),
    {
        let mut polls: u16 = 0;
        while polls < DISPLAY_BUSY_TIMEOUT_MS
            invariant
                self.is_screen_on == old(self).is_screen_on,
            decreases DISPLAY_BUSY_TIMEOUT_MS - polls,
        {
            if !self.busy.is_high() {
                break;
            }
            self.delay.delay_ms(1);
            polls += 1;
        }
    }

    /// Sends the frame as data, in writes of at most `FRAME_CHUNK` bytes.
    fn write_framebuffer(&mut self, framebuffer: &[u8])
        ensures
            final(self).screen_on() == old(self).screen_on(),
    {
        self.dc.set_high();
        let mut offset: usize = 0;
        while offset < framebuffer.len()
            invariant
                offset <= framebuffer@.len(),
                self.is_screen_on == old(self).is_screen_on,
            decreases framebuffer@.len() - offset,
        {
            let end = if framebuffer.len() - offset > FRAME_CHUNK { offset + FRAME_CHUNK } else { framebuffer.len() };
            self.spi.write(crate::zip::slice_range(framebuffer, offset, end));
            offset = end;
        }
    }
}

/// How far a demo display has got: set up, cleared, drawn, refreshed.
#[derive(Debug, Clone, Copy, PartialEq, Eq, Structural)]
pub enum DemoPhase {
    Idle,
    Initialized,
    Cleared,
    Drawn,
    Refreshed,
}

/// A display that can show the built-in book's first screen.
pub trait DemoDisplay {
    type Error;

    /// The step the display reached last.
    spec fn phase(&self) -> DemoPhase;

    fn init(&mut self)
        ensures
            final(self).phase() == DemoPhase::Initialized,
    ;

    /// Fills the panel with `color`.
    fn clear(&mut self, color: u8)
        ensures
            final(self).phase() == (if old(self).phase() == DemoPhase::Initialized {
                DemoPhase::Cleared
            } else {
                DemoPhase::Idle
            }),
    ;

    /// Draws the first screen; a failed drawing leaves the phase as it was.
    fn render_embedded_epub_first_screen(&mut self) -> (r: Result<(), Self::Error>)
        ensures
            r is Ok ==> final(self).phase() == (if old(self).phase() == DemoPhase::Cleared {
                DemoPhase::Drawn
            } else {
                DemoPhase::Idle
            }),
            r is Err ==> final(self).phase() == old(self).phase(),
    ;

    fn refresh_full(&mut self)
        ensures
            final(self).phase() == (if old(self).phase() == DemoPhase::Drawn {
                DemoPhase::Refreshed
            } else {
                DemoPhase::Idle
            }),
    ;
}

/// Sets the display up, clears it white, draws the built-in book's first
/// screen and refreshes; stops at a drawing error, which it returns.
pub fn show_embedded_epub_demo<D: DemoDisplay>(display: &mut D) -> (r: Result<(), D::Error>)
    ensures
        r is Ok ==> final(display).phase() == DemoPhase::Refreshed,
        r is Err ==> final(display).phase() == DemoPhase::Cleared,
{
    display.init();
    display.clear(0xFF);
    match display.render_embedded_epub_first_screen() {
        Ok(()) => {},
        Err(e) => return Err(e),
    }
    display.refresh_full();
    Ok(())
}

} // verus!
