//! Raw button model: ADC threshold decoding and pressed-button bit sets.
use vstd::prelude::*;

verus! {

/// ADC reading at and above which no button is considered pressed.
pub const ADC_NO_BUTTON: u16 = 3800;

/// GPIO used to detect a USB connection.
pub const USB_DETECT_GPIO: u8 = 20;

/// The seven physical buttons of the device.
#[derive(Debug, Clone, Copy, PartialEq, Eq, Structural)]
pub enum Button {
    Back,
    Confirm,
    Left,
    Right,
    Up,
    Down,
    Power,
}

/// The bit index of a button inside a `ButtonState`.
pub open spec fn button_index(b: Button) -> nat {
    match b {
        Button::Back => 0,
        Button::Confirm => 1,
        Button::Left => 2,
        Button::Right => 3,
        Button::Up => 4,
        Button::Down => 5,
        Button::Power => 6,
    }
}

/// The bit index of a button as a shift amount.
pub open spec fn button_bit(b: Button) -> u8 {
    button_index(b) as u8
}

/// The single-bit mask of a button.
pub open spec fn button_mask(b: Button) -> u8 {
    1u8 << button_bit(b)
}

/// Executable form of `button_mask`.
pub fn mask_of(b: Button) -> (m: u8)
    ensures
        m == button_mask(b),
{
    let shift: u8 = match b {
        Button::Back => 0,
        Button::Confirm => 1,
        Button::Left => 2,
        Button::Right => 3,
        Button::Up => 4,
        Button::Down => 5,
        Button::Power => 6,
    };
    1u8 << shift
}

impl Button {
    /// The display name of the button.
    pub fn name(&self) -> (s: &'static str)
        ensures
            s@ == button_name(*self),
    {
        match self {
            Button::Back => "Back",
            Button::Confirm => "Confirm",
            Button::Left => "Left",
            Button::Right => "Right",
            Button::Up => "Up",
            Button::Down => "Down",
            Button::Power => "Power",
        }
    }
}

/// The display names of the buttons.
pub open spec fn button_name(b: Button) -> Seq<char> {
    match b {
        Button::Back => "Back"@,
        Button::Confirm => "Confirm"@,
        Button::Left => "Left"@,
        Button::Right => "Right"@,
        Button::Up => "Up"@,
        Button::Down => "Down"@,
        Button::Power => "Power"@,
    }
}


/// Whether the bit of `b` is set in the raw bit set `state`.
pub open spec fn bit_set(state: u8, b: Button) -> bool {
    state & button_mask(b) != 0
}

/// The set of buttons held down, one bit per button.
#[derive(Debug, Clone, Copy, Default, PartialEq, Eq, Structural)]
pub struct ButtonState {
    pub state: u8,
}

/// The first pressed button in the fixed priority order Back, Confirm, Left,
/// Right, Up, Down, Power.
pub open spec fn first_pressed_spec(state: u8) -> Option<Button> {
    if bit_set(state, Button::Back) {
        Some(Button::Back)
    } else if bit_set(state, Button::Confirm) {
        Some(Button::Confirm)
    } else if bit_set(state, Button::Left) {
        Some(Button::Left)
    } else if bit_set(state, Button::Right) {
        Some(Button::Right)
    } else if bit_set(state, Button::Up) {
        Some(Button::Up)
    } else if bit_set(state, Button::Down) {
        Some(Button::Down)
    } else if bit_set(state, Button::Power) {
        Some(Button::Power)
    } else {
        None
    }
}

impl ButtonState {
    /// Whether `button` is held in this state.
    pub fn is_pressed(&self, button: Button) -> (r: bool)
        ensures
            r == bit_set(self.state, button),
    {
        (self.state & mask_of(button)) != 0
    }

    /// Whether any button is held.
    pub fn any_pressed(&self) -> (r: bool)
        ensures
            r == (self.state != 0),
    {
        self.state != 0
    }

    /// This state with `button` added.
    pub fn with_button(self, button: Button) -> (r: Self)
        ensures
            r.state == self.state | button_mask(button),
            bit_set(r.state, button),
            forall|b: Button| bit_set(self.state, b) ==> #[trigger] bit_set(r.state, b),
            forall|b: Button| b != button ==> (#[trigger] bit_set(r.state, b) == bit_set(self.state, b)),
    {
        let mut s = self;
        s.state = s.state | mask_of(button);
        proof {
            lemma_or_mask(self.state, button);
        }
        s
    }

    /// The pressed button of highest priority, lowest bit first.
    pub fn first_pressed(&self) -> (r: Option<Button>)
        ensures
            r == first_pressed_spec(self.state),
            r is None <==> (forall|b: Button| !#[trigger] bit_set(self.state, b)),
            r matches Some(b) ==> bit_set(self.state, b) && (forall|c: Button|
                button_index(c) < button_index(b) ==> !#[trigger] bit_set(self.state, c)),
    {
        if self.is_pressed(Button::Back) {
            return Some(Button::Back);
        }
        if self.is_pressed(Button::Confirm) {
            return Some(Button::Confirm);
        }
        if self.is_pressed(Button::Left) {
            return Some(Button::Left);
        }
        if self.is_pressed(Button::Right) {
            return Some(Button::Right);
        }
        if self.is_pressed(Button::Up) {
            return Some(Button::Up);
        }
        if self.is_pressed(Button::Down) {
            return Some(Button::Down);
        }
        if self.is_pressed(Button::Power) {
            return Some(Button::Power);
        }
        None
    }
}

/// Setting the bit of one button leaves the bits of every other button alone.
pub proof fn lemma_or_mask(state: u8, button: Button)
    ensures
        bit_set(state | button_mask(button), button),
        forall|b: Button| b != button ==> (#[trigger] bit_set(state | button_mask(button), b)
            == bit_set(state, b)),
        forall|b: Button| bit_set(state, b) ==> #[trigger] bit_set(state | button_mask(button), b),
{
    let j = button_bit(button);
    assert((state | (1u8 << j)) & (1u8 << j) != 0) by (bit_vector)
        requires
            j < 7,
    ;
    assert forall|b: Button| b != button implies (#[trigger] bit_set(state | button_mask(button), b)
        == bit_set(state, b)) by {
        let i = button_bit(b);
        assert(i != j);
        assert(((state | (1u8 << j)) & (1u8 << i) != 0) == (state & (1u8 << i) != 0)) by (bit_vector)
            requires
                i < 7,
                j < 7,
                i != j,
        ;
    }
    assert forall|b: Button| bit_set(state, b) implies #[trigger] bit_set(state | button_mask(button), b) by {
        let i = button_bit(b);
        assert((state & (1u8 << i) != 0) ==> ((state | (1u8 << j)) & (1u8 << i) != 0)) by (bit_vector);
    }
}

/// The lower bound of the ADC window of the `i`-th button on the first ladder.
fn adc_range_1(i: usize) -> (v: u16)
    requires
        i < 5,
    ensures
        v == spec_adc_range_1(i as int),
{
    match i {
        0 => ADC_NO_BUTTON,
        1 => 3100,
        2 => 2090,
        3 => 750,
        _ => 0,
    }
}

/// Thresholds of the first ADC ladder, from no button down to zero.
pub open spec fn spec_adc_range_1(i: int) -> u16 {
    if i == 0 { 3800 } else if i == 1 { 3100 } else if i == 2 { 2090 } else if i == 3 { 750 } else { 0 }
}

/// Thresholds of the second ADC ladder.
pub open spec fn spec_adc_range_2(i: int) -> u16 {
    if i == 0 { 3800 } else if i == 1 { 1120 } else { 0 }
}

fn adc_range_2(i: usize) -> (v: u16)
    requires
        i < 3,
    ensures
        v == spec_adc_range_2(i as int),
{
    match i {
        0 => ADC_NO_BUTTON,
        1 => 1120,
        _ => 0,
    }
}

/// The button that the first ADC ladder (Back, Confirm, Left, Right) reads.
pub open spec fn adc_1_button(v: u16) -> Option<Button> {
    if v > 3800 {
        None
    } else if 3100 < v {
        Some(Button::Back)
    } else if 2090 < v {
        Some(Button::Confirm)
    } else if 750 < v {
        Some(Button::Left)
    } else if 0 < v {
        Some(Button::Right)
    } else {
        None
    }
}

/// The button that the second ADC ladder (Up, Down) reads.
pub open spec fn adc_2_button(v: u16) -> Option<Button> {
    if v > 3800 {
        None
    } else if 1120 < v {
        Some(Button::Up)
    } else if 0 < v {
        Some(Button::Down)
    } else {
        None
    }
}

/// Decodes the button on the first ADC ladder: the `i`-th button is pressed
/// when `ranges[i + 1] < adc_value <= ranges[i]`.
pub fn get_button_from_adc_1(adc_value: u16) -> (r: Option<Button>)
    ensures
        r == adc_1_button(adc_value),
{
    if adc_value > ADC_NO_BUTTON {
        return None;
    }
    let mut i: usize = 0;
    while i < 4
        invariant
            i <= 4,
            adc_value <= 3800,
            adc_value <= spec_adc_range_1(i as int),
        decreases 4 - i,
    {
        if adc_range_1(i + 1) < adc_value && adc_value <= adc_range_1(i) {
            return match i {
                0 => Some(Button::Back),
                1 => Some(Button::Confirm),
                2 => Some(Button::Left),
                3 => Some(Button::Right),
                _ => None,
            };
        }
        i += 1;
    }
    None
}

/// Decodes the button on the second ADC ladder (Up, Down).
pub fn get_button_from_adc_2(adc_value: u16) -> (r: Option<Button>)
    ensures
        r == adc_2_button(adc_value),
{
    if adc_value > ADC_NO_BUTTON {
        return None;
    }
    let mut i: usize = 0;
    while i < 2
        invariant
            i <= 2,
            adc_value <= 3800,
            adc_value <= spec_adc_range_2(i as int),
        decreases 2 - i,
    {
        if adc_range_2(i + 1) < adc_value && adc_value <= adc_range_2(i) {
            return match i {
                0 => Some(Button::Up),
                1 => Some(Button::Down),
                _ => None,
            };
        }
        i += 1;
    }
    None
}

} // verus!
