use xteink::display::{
    display_buffer_sequence, deep_sleep_sequence, refresh_sequence, set_ram_area, show_embedded_epub_demo, DelayMs,
    DemoDisplay, DemoPhase, DisplayOp, DisplaySpi, InputLine, OutputLine, RefreshMode, RefreshScheduleError, SSD1677Display,
};
use xteink::framebuffer::BUFFER_SIZE;

#[derive(Debug, Default)]
struct FakeSpi {
    writes: Vec<Vec<u8>>,
}

impl DisplaySpi for FakeSpi {
    fn write(&mut self, words: &[u8]) {
        self.writes.push(words.to_vec());
    }
}

#[derive(Debug, Default)]
struct FakeOutputPin {
    states: Vec<bool>,
}

impl OutputLine for FakeOutputPin {
    fn set_low(&mut self) {
        self.states.push(false);
    }

    fn set_high(&mut self) {
        self.states.push(true);
    }
}

#[derive(Debug, Default)]
struct FakeInputPin {
    states: Vec<bool>,
    cursor: usize,
}

impl InputLine for FakeInputPin {
    fn is_high(&mut self) -> bool {
        let value = self.states.get(self.cursor).copied().unwrap_or(false);
        if self.cursor < self.states.len() {
            self.cursor += 1;
        }
        value
    }
}

#[derive(Debug, Default)]
struct FakeDelay {
    ms: Vec<u32>,
}

impl DelayMs for FakeDelay {
    fn delay_ms(&mut self, ms: u32) {
        self.ms.push(ms);
    }
}

type TestDisplay = SSD1677Display<FakeSpi, FakeOutputPin, FakeOutputPin, FakeInputPin, FakeDelay>;

fn new_display() -> TestDisplay {
    SSD1677Display::new(
        FakeSpi::default(),
        FakeOutputPin::default(),
        FakeOutputPin::default(),
        FakeInputPin::default(),
        FakeDelay::default(),
    )
}

fn busy_display(reads: Vec<bool>) -> TestDisplay {
    SSD1677Display::new(
        FakeSpi::default(),
        FakeOutputPin::default(),
        FakeOutputPin::default(),
        FakeInputPin {
            states: reads,
            cursor: 0,
        },
        FakeDelay::default(),
    )
}

#[test]
fn refresh_full_streams_borrowed_framebuffer_bytes() {
    let mut display = new_display();
    let mut framebuffer = [0xFF; BUFFER_SIZE];
    framebuffer[0] = 0x00;
    framebuffer[BUFFER_SIZE - 1] = 0xAA;

    display.refresh_full(&framebuffer);

    assert!(display.spi().writes.iter().any(|chunk| chunk.first() == Some(&0x00)));
    assert!(display.spi().writes.iter().any(|chunk| chunk.last() == Some(&0xAA)));
}

#[test]
fn init_performs_the_expected_reset_and_controller_sequence() {
    let mut display = new_display();

    display.init();

    assert_eq!(
        display.spi().writes,
        vec![
            vec![0x12],
            vec![0x18],
            vec![0x80],
            vec![0x0C],
            vec![0xAE],
            vec![0xC7],
            vec![0xC3],
            vec![0xC0],
            vec![0x40],
            vec![0x01],
            vec![0xDF],
            vec![0x01],
            vec![0x02],
            vec![0x3C],
            vec![0x01],
            vec![0x11],
            vec![0x01],
            vec![0x44],
            vec![0x00],
            vec![0x00],
            vec![0x1F],
            vec![0x03],
            vec![0x45],
            vec![0xDF],
            vec![0x01],
            vec![0x00],
            vec![0x00],
            vec![0x4E],
            vec![0x00],
            vec![0x00],
            vec![0x4F],
            vec![0xDF],
            vec![0x01],
        ]
    );
}

#[test]
fn framebuffer_goes_out_in_chunks_of_at_most_4096_bytes() {
    let mut display = new_display();
    let framebuffer = [0x55; BUFFER_SIZE];

    display.refresh_fast(&framebuffer);

    let frame_writes: Vec<usize> = display.spi().writes.iter().map(|w| w.len()).filter(|n| *n > 1).collect();
    assert!(frame_writes.iter().all(|n| *n <= 4096));
    let total: usize = frame_writes.iter().sum();
    assert_eq!(total, 2 * BUFFER_SIZE);
}

#[test]
fn fast_refresh_writes_the_frame_to_both_memories_around_the_refresh() {
    let ops = display_buffer_sequence(RefreshMode::Fast, true, false);
    let frames = ops.iter().filter(|op| **op == DisplayOp::Frame).count();
    assert_eq!(frames, 2);
    let activation = ops.iter().position(|op| *op == DisplayOp::Command(0x20)).unwrap();
    let red = ops.iter().rposition(|op| *op == DisplayOp::Command(0x26)).unwrap();
    assert!(red > activation);
    assert!(ops.contains(&DisplayOp::Data(0x1C)));
    assert_eq!(ops.iter().filter(|op| **op == DisplayOp::WaitWhileBusy).count(), 1);
}

#[test]
fn full_refresh_of_a_sleeping_panel_powers_it_on() {
    let ops = refresh_sequence(RefreshMode::Full, false, false);
    assert_eq!(
        ops,
        vec![
            DisplayOp::Command(0x21),
            DisplayOp::Data(0x40),
            DisplayOp::Command(0x22),
            DisplayOp::Data(0xF4),
            DisplayOp::Command(0x20),
            DisplayOp::DelayMs(10),
            DisplayOp::WaitWhileBusy,
        ]
    );
}

#[test]
fn half_refresh_sets_the_temperature_first() {
    let ops = refresh_sequence(RefreshMode::Half, true, true);
    assert_eq!(ops[2], DisplayOp::Command(0x1A));
    assert_eq!(ops[3], DisplayOp::Data(0x5A));
    assert_eq!(ops[5], DisplayOp::Data(0xD7));
}

#[test]
fn ram_area_counts_rows_from_the_bottom() {
    let ops = set_ram_area(16, 100, 64, 80);
    // rows 300..=379 of 480
    assert_eq!(ops[8], DisplayOp::Data((379 % 256) as u8));
    assert_eq!(ops[9], DisplayOp::Data(1));
    assert_eq!(ops[10], DisplayOp::Data(44));
    assert_eq!(ops[11], DisplayOp::Data(1));
    assert_eq!(ops[5], DisplayOp::Data(79));
}

#[test]
fn deep_sleep_powers_down_only_a_panel_that_is_on() {
    assert_eq!(deep_sleep_sequence(false), vec![DisplayOp::Command(0x10), DisplayOp::Data(0x01)]);
    assert_eq!(deep_sleep_sequence(true).len(), 8);

    let mut display = new_display();
    display.refresh_full(&[0xFF; BUFFER_SIZE]);
    let before = display.spi().writes.len();
    display.deep_sleep();
    let after: Vec<Vec<u8>> = display.spi().writes[before..].to_vec();
    assert_eq!(after, vec![vec![0x21], vec![0x40], vec![0x22], vec![0x03], vec![0x20], vec![0x10], vec![0x01]]);
}

#[test]
fn nonblocking_refresh_reports_a_busy_panel() {
    let mut display = busy_display(vec![true]);
    let framebuffer = [0xFF; BUFFER_SIZE];

    assert_eq!(display.refresh_full_nonblocking(&framebuffer), Err(RefreshScheduleError::Busy));
    assert!(display.spi().writes.is_empty());
    assert_eq!(display.refresh_fast_nonblocking(&framebuffer), Ok(()));
    assert!(!display.spi().writes.is_empty());
}

#[derive(Default)]
struct RecordingDemo {
    steps: Vec<&'static str>,
    fail: bool,
}

impl DemoDisplay for RecordingDemo {
    type Error = &'static str;

    fn phase(&self) -> DemoPhase {
        let mut phase = DemoPhase::Idle;
        for step in &self.steps {
            phase = match (*step, phase) {
                ("init", _) => DemoPhase::Initialized,
                ("clear", DemoPhase::Initialized) => DemoPhase::Cleared,
                ("render", DemoPhase::Cleared) if !self.fail => DemoPhase::Drawn,
                ("render", p) if self.fail => p,
                ("refresh", DemoPhase::Drawn) => DemoPhase::Refreshed,
                _ => DemoPhase::Idle,
            };
        }
        phase
    }

    fn init(&mut self) {
        self.steps.push("init");
    }

    fn clear(&mut self, color: u8) {
        assert_eq!(color, 0xFF);
        self.steps.push("clear");
    }

    fn render_embedded_epub_first_screen(&mut self) -> Result<(), &'static str> {
        self.steps.push("render");
        if self.fail {
            Err("render failed")
        } else {
            Ok(())
        }
    }

    fn refresh_full(&mut self) {
        self.steps.push("refresh");
    }
}

#[test]
fn demo_sets_up_clears_draws_and_refreshes() {
    let mut demo = RecordingDemo::default();
    assert_eq!(show_embedded_epub_demo(&mut demo), Ok(()));
    assert_eq!(demo.steps, vec!["init", "clear", "render", "refresh"]);
    assert_eq!(demo.phase(), DemoPhase::Refreshed);

    let mut failing = RecordingDemo {
        fail: true,
        ..RecordingDemo::default()
    };
    assert_eq!(show_embedded_epub_demo(&mut failing), Err("render failed"));
    assert_eq!(failing.steps, vec!["init", "clear", "render"]);
    assert_eq!(failing.phase(), DemoPhase::Cleared);
}
