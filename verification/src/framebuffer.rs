//! The four-level grayscale framebuffer of the 480x800 portrait panel, packed two
//! bits per pixel, and its conversion to the panel's one-bit landscape frame.
use vstd::prelude::*;
use crate::font::Font;
use crate::font::Glyph;
use crate::font::glyph_fits;
use crate::font::row_bytes;
use crate::font::MAX_SHAPED_CHARS;

verus! {

pub const PHYSICAL_WIDTH: u16 = 800;
pub const PHYSICAL_HEIGHT: u16 = 480;
pub const DISPLAY_WIDTH: u16 = 480;
pub const DISPLAY_HEIGHT: u16 = 800;
pub const DISPLAY_WIDTH_BYTES: u16 = 100;
pub const BUFFER_SIZE: usize = 48000;
pub const GRAY_LEVELS: u8 = 4;
pub const SHADE_BITS_PER_PIXEL: u8 = 2;
pub const PIXEL_COUNT: usize = 384000;
pub const SHADE_BUFFER_SIZE: usize = 96000;
pub const SHADE_WHITE: u8 = 0;
pub const SHADE_LIGHT: u8 = 1;
pub const SHADE_DARK: u8 = 2;
pub const SHADE_BLACK: u8 = 3;

/// The shift of pixel `i` inside its byte: the first pixel of a byte is in its top bits.
pub open spec fn pixel_shift(i: int) -> u8 {
    (6 - (i % 4) * 2) as u8
}

/// The shade of pixel `i` in the packed buffer `shades`.
pub open spec fn shade_of(shades: Seq<u8>, i: int) -> u8 {
    (shades[i / 4] >> pixel_shift(i)) & 3u8
}

/// The index of pixel `(x, y)` in row-major order.
pub open spec fn pixel_index(x: int, y: int) -> int {
    y * DISPLAY_WIDTH + x
}

/// Whether `(x, y)` lies on the panel.
pub open spec fn on_panel(x: int, y: int) -> bool {
    0 <= x < DISPLAY_WIDTH && 0 <= y < DISPLAY_HEIGHT
}

/// Writing shade `s` into the two bits at `k` of `b` and reading them back gives
/// `s`; the other pairs of bits keep their value.
proof fn lemma_set_pair(b: u8, s: u8, k: u8, j: u8)
    requires
        s <= 3,
        k == 0 || k == 2 || k == 4 || k == 6,
        j == 0 || j == 2 || j == 4 || j == 6,
    ensures
        (((b & !(3u8 << k)) | (s << k)) >> k) & 3u8 == s,
        j != k ==> (((b & !(3u8 << k)) | (s << k)) >> j) & 3u8 == (b >> j) & 3u8,
{
    assert((((b & !(3u8 << k)) | (s << k)) >> k) & 3u8 == s) by (bit_vector)
        requires
            s <= 3,
            k == 0 || k == 2 || k == 4 || k == 6,
    ;
    assert(j != k ==> (((b & !(3u8 << k)) | (s << k)) >> j) & 3u8 == (b >> j) & 3u8) by (bit_vector)
        requires
            s <= 3,
            k == 0 || k == 2 || k == 4 || k == 6,
            j == 0 || j == 2 || j == 4 || j == 6,
    ;
}

/// Every pair of bits of a byte packed from four copies of `s` holds `s`.
proof fn lemma_packed(s: u8, k: u8)
    requires
        s <= 3,
        k == 0 || k == 2 || k == 4 || k == 6,
    ensures
        ((((s << 6u8) | (s << 4u8) | (s << 2u8) | s) as u8) >> k) & 3u8 == s,
{
    assert(((((s << 6u8) | (s << 4u8) | (s << 2u8) | s) as u8) >> k) & 3u8 == s) by (bit_vector)
        requires
            s <= 3,
            k == 0 || k == 2 || k == 4 || k == 6,
    ;
}

/// The bits of a zero byte are zero.
proof fn lemma_zero_pair(k: u8)
    ensures
        (0u8 >> k) & 3u8 == 0,
{
    assert((0u8 >> k) & 3u8 == 0) by (bit_vector);
}

/// A pair of bits read out of a byte is a shade.
proof fn lemma_pair_bound(b: u8, k: u8)
    ensures
        (b >> k) & 3u8 <= 3,
{
    assert((b >> k) & 3u8 <= 3) by (bit_vector);
}

/// The grayscale frame: one shade from white (0) to black (3) per pixel.
pub struct Framebuffer {
    shades: Vec<u8>,
}

impl View for Framebuffer {
    type V = Seq<u8>;

    /// The shade of every pixel, row by row.
    closed spec fn view(&self) -> Seq<u8> {
        Seq::new(PIXEL_COUNT as nat, |i: int| shade_of(self.shades@, i))
    }
}

impl Framebuffer {
    /// The packed buffer holds every pixel.
    pub closed spec fn wf(&self) -> bool {
        self.shades@.len() == SHADE_BUFFER_SIZE
    }

    /// A white frame.
    pub fn new() -> (r: Self)
        ensures
            r.wf(),
            r@ == Seq::new(PIXEL_COUNT as nat, |i: int| SHADE_WHITE),
    {
        let mut shades: Vec<u8> = Vec::new();
        let mut i: usize = 0;
        while i < SHADE_BUFFER_SIZE
            invariant
                i <= SHADE_BUFFER_SIZE,
                shades@.len() == i,
                forall|j: int| 0 <= j < i ==> shades@[j] == 0,
            decreases SHADE_BUFFER_SIZE - i,
        {
            shades.push(0u8);
            i += 1;
        }
        let r = Framebuffer { shades };
        proof {
            assert forall|p: int| 0 <= p < PIXEL_COUNT implies shade_of(r.shades@, p) == 0 by {
                assert(r.shades@[p / 4] == 0);
                lemma_zero_pair(pixel_shift(p));
            }
            assert(r@ =~= Seq::new(PIXEL_COUNT as nat, |i: int| SHADE_WHITE));
        }
        r
    }

    /// The packed shade buffer: four pixels per byte, first pixel in the top bits.
    pub fn shade_storage(&self) -> (r: &[u8])
        requires
            self.wf(),
        ensures
            r@.len() == SHADE_BUFFER_SIZE,
            forall|i: int| 0 <= i < PIXEL_COUNT ==> #[trigger] shade_of(r@, i) == self@[i],
    {
        self.shades.as_slice()
    }

    /// The shade at `(x, y)`; white off the panel.
    pub fn shade_at(&self, x: u16, y: u16) -> (r: u8)
        requires
            self.wf(),
        ensures
            r == (if on_panel(x as int, y as int) { self@[pixel_index(x as int, y as int)] } else { SHADE_WHITE }),
            r <= 3,
            self@.len() == PIXEL_COUNT,
    {
        proof {
            self.lemma_view_len();
        }
        if x >= DISPLAY_WIDTH || y >= DISPLAY_HEIGHT {
            return SHADE_WHITE;
        }
        let pixel = (y as usize) * (DISPLAY_WIDTH as usize) + (x as usize);
        let byte_index = pixel / 4;
        let shift = (6 - (pixel % 4) * 2) as u8;
        let r = (self.shades[byte_index] >> shift) & 3u8;
        proof {
            lemma_pair_bound(self.shades@[byte_index as int], shift);
        }
        r
    }

    /// Sets `(x, y)` to `shade`, clamped to black; nothing happens off the panel.
    pub fn set_shade(&mut self, x: u16, y: u16, shade: u8)
        requires
            old(self).wf(),
        ensures
            final(self).wf(),
            old(self)@.len() == PIXEL_COUNT,
            final(self)@.len() == PIXEL_COUNT,
            final(self)@ == (if on_panel(x as int, y as int) {
                old(self)@.update(pixel_index(x as int, y as int), if shade < SHADE_BLACK { shade } else { SHADE_BLACK })
            } else {
                old(self)@
            }),
    {
        if x >= DISPLAY_WIDTH || y >= DISPLAY_HEIGHT {
            return;
        }
        let s = if shade < SHADE_BLACK { shade } else { SHADE_BLACK };
        let pixel = (y as usize) * (DISPLAY_WIDTH as usize) + (x as usize);
        let byte_index = pixel / 4;
        let shift = (6 - (pixel % 4) * 2) as u8;
        let ghost before = self.shades@;
        let ghost old_view = self@;
        let b = self.shades[byte_index];
        let nb = (b & !(3u8 << shift)) | (s << shift);
        self.shades.set(byte_index, nb);
        proof {
            let p = pixel as int;
            assert forall|i: int| 0 <= i < PIXEL_COUNT implies #[trigger] shade_of(self.shades@, i) == (if i == p {
                s
            } else {
                shade_of(before, i)
            }) by {
                if i / 4 == p / 4 {
                    lemma_set_pair(b, s, shift, pixel_shift(i));
                } else {
                    assert(self.shades@[i / 4] == before[i / 4]);
                }
            }
            assert(self@ =~= old_view.update(p, s));
        }
    }

    /// Whether some pixel is light or dark gray.
    pub fn has_intermediate_shades(&self) -> (r: bool)
        requires
            self.wf(),
        ensures
            r == exists|i: int| 0 <= i < PIXEL_COUNT && (#[trigger] self@[i] == SHADE_LIGHT || self@[i] == SHADE_DARK),
    {
        let mut i: usize = 0;
        while i < PIXEL_COUNT
            invariant
                i <= PIXEL_COUNT,
                self.shades@.len() == SHADE_BUFFER_SIZE,
                forall|j: int| 0 <= j < i ==> !(#[trigger] self@[j] == SHADE_LIGHT || self@[j] == SHADE_DARK),
            decreases PIXEL_COUNT - i,
        {
            let shade = (self.shades[i / 4] >> ((6 - (i % 4) * 2) as u8)) & 3u8;
            assert(shade == self@[i as int]);
            if shade != SHADE_WHITE && shade != SHADE_BLACK {
                proof {
                    lemma_pair_bound(self.shades@[i as int / 4], pixel_shift(i as int));
                }
                return true;
            }
            i += 1;
        }
        false
    }

    /// Sets every pixel to `shade`, clamped to black.
    pub fn fill_shade(&mut self, shade: u8)
        requires
            old(self).wf(),
        ensures
            final(self).wf(),
            final(self)@ == Seq::new(PIXEL_COUNT as nat, |i: int| if shade < SHADE_BLACK { shade } else { SHADE_BLACK }),
    {
        let s = if shade < SHADE_BLACK { shade } else { SHADE_BLACK };
        let packed: u8 = (s << 6u8) | (s << 4u8) | (s << 2u8) | s;
        let mut i: usize = 0;
        while i < SHADE_BUFFER_SIZE
            invariant
                i <= SHADE_BUFFER_SIZE,
                self.shades@.len() == SHADE_BUFFER_SIZE,
                forall|j: int| 0 <= j < i ==> self.shades@[j] == packed,
            decreases SHADE_BUFFER_SIZE - i,
        {
            self.shades.set(i, packed);
            i += 1;
        }
        proof {
            assert forall|p: int| 0 <= p < PIXEL_COUNT implies shade_of(self.shades@, p) == s by {
                lemma_packed(s, pixel_shift(p));
            }
            assert(self@ =~= Seq::new(PIXEL_COUNT as nat, |i: int| s));
        }
    }

    /// Fills the frame: black for color 0, white for any other color.
    pub fn clear(&mut self, color: u8)
        requires
            old(self).wf(),
        ensures
            final(self).wf(),
            final(self)@ == Seq::new(PIXEL_COUNT as nat, |i: int| if color == 0 { SHADE_BLACK } else { SHADE_WHITE }),
    {
        self.fill_shade(if color == 0 { SHADE_BLACK } else { SHADE_WHITE });
    }

    /// Sets `(x, y)` to black or white.
    pub fn set_pixel(&mut self, x: u16, y: u16, black: bool)
        requires
            old(self).wf(),
        ensures
            final(self).wf(),
            final(self)@ == (if on_panel(x as int, y as int) {
                old(self)@.update(pixel_index(x as int, y as int), if black { SHADE_BLACK } else { SHADE_WHITE })
            } else {
                old(self)@
            }),
    {
        self.set_shade(x, y, if black { SHADE_BLACK } else { SHADE_WHITE });
    }
}


/// `old` with the pixels of columns `[x0, x1)` of rows `[y0, y1)` set to `s`.
pub open spec fn rect_fill(old: Seq<u8>, x0: int, x1: int, y0: int, y1: int, s: u8) -> Seq<u8> {
    Seq::new(old.len(), |i: int| if x0 <= i % 480 < x1 && y0 <= i / 480 < y1 { s } else { old[i] })
}

/// The bit of the panel frame that shows pixel `(x, y)` of the portrait frame:
/// the panel is landscape, so `(x, y)` lands on row `479 - x`, column `y`.
pub open spec fn mask_bit(out: Seq<u8>, x: int, y: int) -> u8 {
    (out[(479 - x) * 100 + y / 8] >> ((7 - y % 8) as u8)) & 1u8
}

/// The coordinates of a pixel index.
proof fn lemma_pixel_coords(x: int, y: int)
    requires
        0 <= x < 480,
    ensures
        (y * 480 + x) % 480 == x,
        (y * 480 + x) / 480 == y,
{
    vstd::arithmetic::div_mod::lemma_fundamental_div_mod_converse(y * 480 + x, 480, y, x);
}

/// A pixel index is its row and its column.
proof fn lemma_split(i: int)
    requires
        0 <= i,
    ensures
        i == (i / 480) * 480 + i % 480,
        0 <= i % 480 < 480,
{
    vstd::arithmetic::div_mod::lemma_fundamental_div_mod(i, 480);
}

/// Clearing one bit of a byte leaves the others.
proof fn lemma_clear_bit(b: u8, k: u8, j: u8)
    requires
        k < 8,
        j < 8,
    ensures
        ((b & !(1u8 << k)) >> k) & 1u8 == 0,
        j != k ==> ((b & !(1u8 << k)) >> j) & 1u8 == (b >> j) & 1u8,
{
    assert(((b & !(1u8 << k)) >> k) & 1u8 == 0) by (bit_vector)
        requires
            k < 8,
    ;
    assert(j != k ==> ((b & !(1u8 << k)) >> j) & 1u8 == (b >> j) & 1u8) by (bit_vector)
        requires
            k < 8,
            j < 8,
    ;
}

/// Every bit of 0xFF is set.
proof fn lemma_full_bit(j: u8)
    requires
        j < 8,
    ensures
        (0xFFu8 >> j) & 1u8 == 1,
{
    assert((0xFFu8 >> j) & 1u8 == 1) by (bit_vector)
        requires
            j < 8,
    ;
}

impl Framebuffer {
    /// Fills the rectangle at `(x, y)` of `width` by `height`, clipped to the
    /// panel: black for color 0, white for any other color.
    pub fn fill_rect(&mut self, x: u16, y: u16, width: u16, height: u16, color: u8)
        requires
            old(self).wf(),
        ensures
            final(self).wf(),
            ({
                let ex = if x + width > u16::MAX { u16::MAX as int } else { x + width };
                let ey = if y + height > u16::MAX { u16::MAX as int } else { y + height };
                let ex = if ex < 480 { ex } else { 480 };
                let ey = if ey < 800 { ey } else { 800 };
                final(self)@ == rect_fill(old(self)@, x as int, ex, y as int, ey, if color == 0 { SHADE_BLACK } else { SHADE_WHITE })
            }),
    {
        let sx = x.saturating_add(width);
        let sy = y.saturating_add(height);
        let end_x = if sx < DISPLAY_WIDTH { sx } else { DISPLAY_WIDTH };
        let end_y = if sy < DISPLAY_HEIGHT { sy } else { DISPLAY_HEIGHT };
        let shade = if color == 0 { SHADE_BLACK } else { SHADE_WHITE };
        let ghost start = self@;
        let mut py = y;
        while py < end_y
            invariant
                self.wf(),
                y <= py,
                end_y <= 800,
                end_x <= 480,
                py <= end_y || py == y,
                self@ == rect_fill(start, x as int, end_x as int, y as int, (if py < end_y { py } else { end_y }) as int, shade),
                start.len() == PIXEL_COUNT,
                shade == (if color == 0 { SHADE_BLACK } else { SHADE_WHITE }),
            decreases end_y - py,
        {
            let mut px = x;
            while px < end_x
                invariant
                    self.wf(),
                    x <= px,
                    py < end_y,
                    end_y <= 800,
                    end_x <= 480,
                    px >= end_x ==> px == x || px == end_x,
                    start.len() == PIXEL_COUNT,
                    shade == (if color == 0 { SHADE_BLACK } else { SHADE_WHITE }),
                    self@ == rect_fill(
                        rect_fill(start, x as int, end_x as int, y as int, py as int, shade),
                        x as int,
                        (if px < end_x { px } else { end_x }) as int,
                        py as int,
                        py + 1,
                        shade,
                    ),
                decreases end_x - px,
            {
                let ghost before = self@;
                self.set_shade(px, py, shade);
                proof {
                    lemma_pixel_coords(px as int, py as int);
                    let r0 = rect_fill(start, x as int, end_x as int, y as int, py as int, shade);
                    let target = rect_fill(r0, x as int, px + 1, py as int, py + 1, shade);
                    assert(before == rect_fill(r0, x as int, px as int, py as int, py + 1, shade));
                    assert(on_panel(px as int, py as int));
                    assert(pixel_index(px as int, py as int) == py * 480 + px);
                    assert((if shade < SHADE_BLACK { shade } else { SHADE_BLACK }) == shade);
                    assert(self@ == before.update(py * 480 + px, shade));
                    assert forall|i: int| 0 <= i < PIXEL_COUNT implies #[trigger] self@[i] == target[i] by {
                        lemma_split(i);
                        if i == py * 480 + px {
                        } else {
                            assert(self@[i] == before[i]);
                        }
                    }
                    assert(self@ =~= target);
                }
                px += 1;
            }
            proof {
                assert(self@ =~= rect_fill(start, x as int, end_x as int, y as int, py + 1, shade));
            }
            py += 1;
        }
        proof {
            assert(self@ =~= rect_fill(start, x as int, end_x as int, y as int, end_y as int, shade)) by {
                if y >= end_y {
                    assert(rect_fill(start, x as int, end_x as int, y as int, end_y as int, shade) =~= start);
                    assert(rect_fill(start, x as int, end_x as int, y as int, y as int, shade) =~= start);
                }
            }
        }
    }
}


/// Whether pixel `(x2, y2)` comes before `(x, y)` in row order.
pub open spec fn before_pixel(x2: int, y2: int, x: int, y: int) -> bool {
    y2 < y || (y2 == y && x2 < x)
}

/// Two pixels that land on the same bit of the panel frame are the same pixel.
proof fn lemma_mask_slot(x1: int, y1: int, x2: int, y2: int)
    requires
        on_panel(x1, y1),
        on_panel(x2, y2),
        (479 - x1) * 100 + y1 / 8 == (479 - x2) * 100 + y2 / 8,
        y1 % 8 == y2 % 8,
    ensures
        x1 == x2 && y1 == y2,
{
    vstd::arithmetic::div_mod::lemma_fundamental_div_mod(y1, 8);
    vstd::arithmetic::div_mod::lemma_fundamental_div_mod(y2, 8);
}

impl Framebuffer {
    /// Writes the one-bit landscape frame of the panel into `out`: a bit is
    /// cleared (black) exactly for the pixels whose shade reaches `threshold`.
    #[verifier::rlimit(60)]
    pub fn write_binary_mask(&self, threshold: u8, out: &mut [u8])
        requires
            self.wf(),
            old(out)@.len() == BUFFER_SIZE,
        ensures
            final(out)@.len() == BUFFER_SIZE,
            forall|x: int, y: int| #![trigger mask_bit(final(out)@, x, y)] on_panel(x, y) ==> mask_bit(final(out)@, x, y) == (if self@[pixel_index(x, y)]
                >= threshold {
                0u8
            } else {
                1u8
            }),
    {
        let mut k: usize = 0;
        while k < BUFFER_SIZE
            invariant
                k <= BUFFER_SIZE,
                out@.len() == BUFFER_SIZE,
                forall|j: int| 0 <= j < k ==> out@[j] == 0xFF,
            decreases BUFFER_SIZE - k,
        {
            out[k] = 0xFF;
            k += 1;
        }
        proof {
            assert forall|x2: int, y2: int| on_panel(x2, y2) implies #[trigger] mask_bit(out@, x2, y2) == 1u8 by {
                let j = (479 - x2) * 100 + y2 / 8;
                assert(0 <= j < BUFFER_SIZE);
                assert(out@[j] == 0xFF);
                lemma_full_bit((7 - y2 % 8) as u8);
            }
        }
        let mut y: u16 = 0;
        while y < DISPLAY_HEIGHT
            invariant
                y <= DISPLAY_HEIGHT,
                self.wf(),
                out@.len() == BUFFER_SIZE,
                forall|x2: int, y2: int| #![trigger mask_bit(out@, x2, y2)] on_panel(x2, y2) ==> mask_bit(out@, x2, y2) == (if before_pixel(x2, y2, 0, y as int)
                    && self@[pixel_index(x2, y2)] >= threshold {
                    0u8
                } else {
                    1u8
                }),
            decreases DISPLAY_HEIGHT - y,
        {
            let mut x: u16 = 0;
            while x < DISPLAY_WIDTH
                invariant
                    x <= DISPLAY_WIDTH,
                    y < DISPLAY_HEIGHT,
                    self.wf(),
                    out@.len() == BUFFER_SIZE,
                    forall|x2: int, y2: int| #![trigger mask_bit(out@, x2, y2)] on_panel(x2, y2) ==> mask_bit(out@, x2, y2) == (if before_pixel(x2, y2, x as int, y as int)
                        && self@[pixel_index(x2, y2)] >= threshold {
                        0u8
                    } else {
                        1u8
                    }),
                decreases DISPLAY_WIDTH - x,
            {
                let shade = self.shade_at(x, y);
                if shade >= threshold {
                    assert((479 - x) * 100 <= 47900) by (nonlinear_arith)
                        requires x < 480;
                    let idx = ((DISPLAY_WIDTH - 1 - x) as usize) * (DISPLAY_WIDTH_BYTES as usize) + (y as usize) / 8;
                    let bit = (7 - y % 8) as u8;
                    let ghost before = out@;
                    let b = out[idx];
                    out[idx] = b & !(1u8 << bit);
                    proof {
                        assert forall|x2: int, y2: int| on_panel(x2, y2) implies #[trigger] mask_bit(out@, x2, y2) == (if before_pixel(
                            x2,
                            y2,
                            x + 1,
                            y as int,
                        ) && self@[pixel_index(x2, y2)] >= threshold {
                            0u8
                        } else {
                            1u8
                        }) by {
                            let j = (479 - x2) * 100 + y2 / 8;
                            let jb = (7 - y2 % 8) as u8;
                            assert(mask_bit(before, x2, y2) == (if before_pixel(x2, y2, x as int, y as int) && self@[pixel_index(x2, y2)]
                                >= threshold {
                                0u8
                            } else {
                                1u8
                            }));
                            if j == idx {
                                if jb == bit {
                                    lemma_mask_slot(x2, y2, x as int, y as int);
                                    lemma_clear_bit(b, bit, jb);
                                } else {
                                    lemma_clear_bit(b, bit, jb);
                                    if x2 == x && y2 == y {
                                    }
                                }
                            } else {
                                assert(out@[j] == before[j]);
                            }
                        }
                    }
                } else {
                    proof {
                        assert forall|x2: int, y2: int| on_panel(x2, y2) implies #[trigger] mask_bit(out@, x2, y2) == (if before_pixel(
                            x2,
                            y2,
                            x + 1,
                            y as int,
                        ) && self@[pixel_index(x2, y2)] >= threshold {
                            0u8
                        } else {
                            1u8
                        }) by {
                            assert(mask_bit(out@, x2, y2) == (if before_pixel(x2, y2, x as int, y as int) && self@[pixel_index(x2, y2)]
                                >= threshold {
                                0u8
                            } else {
                                1u8
                            }));
                        }
                    }
                }
                x += 1;
            }
            y += 1;
        }
    }

    /// The one-bit panel frame, with light gray shown white and dark gray black.
    pub fn bytes(&self) -> (r: Vec<u8>)
        requires
            self.wf(),
        ensures
            r@.len() == BUFFER_SIZE,
            forall|x: int, y: int| #![trigger mask_bit(r@, x, y)] on_panel(x, y) ==> mask_bit(r@, x, y) == (if self@[pixel_index(x, y)]
                >= SHADE_DARK {
                0u8
            } else {
                1u8
            }),
    {
        let mut out: Vec<u8> = Vec::new();
        let mut k: usize = 0;
        while k < BUFFER_SIZE
            invariant
                k <= BUFFER_SIZE,
                out@.len() == k,
            decreases BUFFER_SIZE - k,
        {
            out.push(0xFFu8);
            k += 1;
        }
        self.write_binary_mask(SHADE_DARK, out.as_mut_slice());
        out
    }
}


/// The darker of two shades.
pub open spec fn darker(a: u8, b: u8) -> u8 {
    if a > b { a } else { b }
}

/// The coverage of cell `(col, row)` of `glyph` in `bitmap`.
pub open spec fn cell_coverage(bitmap: Seq<u8>, glyph: Glyph, col: u8, row: u8) -> u8 {
    (bitmap[glyph.data_offset + row * row_bytes(glyph.width) + col / 4] >> ((6 - (col % 4) * 2) as u8)) & 3u8
}

/// The coverage that `glyph`, drawn with its top left at `(x, y)`, puts on pixel
/// `(px, py)`, counting only the cells before cell `(cols, rows)` in row order;
/// a synthetic italic shifts row `row` right by `(height - row - 1) / 4`.
pub open spec fn glyph_ink(
    bitmap: Seq<u8>,
    glyph: Glyph,
    x: int,
    y: int,
    italic: bool,
    px: int,
    py: int,
    rows: int,
    cols: int,
) -> u8 {
    let row = py - y;
    let shift = if italic { (glyph.height - row - 1) / 4 } else { 0 };
    let col = px - x - shift;
    if 0 <= row < glyph.height && 0 <= col < glyph.width && (row < rows || (row == rows && col < cols)) {
        cell_coverage(bitmap, glyph, col as u8, row as u8)
    } else {
        0
    }
}

/// The top left at which glyph `j` of the line `cs` drawn from `(x, y)` is drawn.
pub open spec fn glyph_left(font: Font, cs: Seq<char>, j: int, x: int) -> int {
    x + font.placement(cs, j).x + font.placement(cs, j).glyph.left
}

/// The top of glyph `j` of the line `cs` drawn from `(x, y)`.
pub open spec fn glyph_top(font: Font, cs: Seq<char>, j: int, y: int) -> int {
    y + font.placement(cs, j).y + font.placement(cs, j).glyph.top
}

/// Glyph `j` of the line `cs` drawn from `(x, y)` has a drawable origin.
pub open spec fn glyph_origin_ok(font: Font, cs: Seq<char>, j: int, x: int, y: int) -> bool {
    &&& i32::MIN <= glyph_left(font, cs, j, x) <= i32::MAX - 1
    &&& i32::MIN <= glyph_top(font, cs, j, y) <= i32::MAX
}

/// The coverage that glyph `j` of the line `cs`, drawn from `(x, y)`, puts on pixel `i`.
pub open spec fn glyph_placed_ink(font: Font, cs: Seq<char>, j: int, x: int, y: int, italic: bool, i: int) -> u8 {
    let g = font.placement(cs, j);
    glyph_ink(font.bitmap@, g.glyph, glyph_left(font, cs, j, x), glyph_top(font, cs, j, y), italic, i % 480, i / 480, g.glyph.height as int, 0)
}

/// `cs` holds no line feed.
pub open spec fn one_line(cs: Seq<char>) -> bool {
    forall|k: int| 0 <= k < cs.len() ==> #[trigger] cs[k] != '\n'
}

/// Every pixel of `image` is at least as dark as each glyph of the line `cs`,
/// drawn from `(x, y)`, makes it.
pub open spec fn shows_line(image: Seq<u8>, font: Font, cs: Seq<char>, x: int, y: int, italic: bool) -> bool {
    forall|j: int, i: int|
        #![trigger glyph_placed_ink(font, cs, j, x, y, italic, i)]
        0 <= j < cs.len() && 0 <= i < PIXEL_COUNT && glyph_origin_ok(font, cs, j, x, y) ==> image[i] >= glyph_placed_ink(
            font,
            cs,
            j,
            x,
            y,
            italic,
            i,
        )
}

/// Pixel `i` is `(i % width, i / width)`.
proof fn lemma_pixel_of_index(px: int, py: int)
    requires
        on_panel(px, py),
    ensures
        pixel_index(px, py) % (DISPLAY_WIDTH as int) == px,
        pixel_index(px, py) / (DISPLAY_WIDTH as int) == py,
        0 <= pixel_index(px, py) < PIXEL_COUNT,
{
    assert((py * 480 + px) % 480 == px) by (nonlinear_arith)
        requires 0 <= px < 480, 0 <= py;
    assert((py * 480 + px) / 480 == py) by (nonlinear_arith)
        requires 0 <= px < 480, 0 <= py;
    assert(py * 480 + px < 384000) by (nonlinear_arith)
        requires 0 <= px < 480, 0 <= py < 800;
}

/// Every pixel of `new` is at least as dark as in `old`.
pub open spec fn no_lighter(old: Seq<u8>, new: Seq<u8>) -> bool {
    old.len() == new.len() && forall|i: int| 0 <= i < old.len() ==> #[trigger] new[i] >= old[i]
}

impl Framebuffer {
    /// Whether the packed buffer holds every pixel.
    pub fn is_wf(&self) -> (r: bool)
        ensures
            r == self.wf(),
    {
        self.shades.len() == SHADE_BUFFER_SIZE
    }

    /// Darkens `(x, y)` to at least `coverage`.
    fn darken(&mut self, x: u16, y: u16, coverage: u8)
        requires
            old(self).wf(),
            coverage <= 3,
        ensures
            final(self).wf(),
            no_lighter(old(self)@, final(self)@),
            final(self)@ == (if on_panel(x as int, y as int) {
                old(self)@.update(
                    pixel_index(x as int, y as int),
                    if old(self)@[pixel_index(x as int, y as int)] > coverage {
                        old(self)@[pixel_index(x as int, y as int)]
                    } else {
                        coverage
                    },
                )
            } else {
                old(self)@
            }),
    {
        let current = self.shade_at(x, y);
        let shade = if current > coverage { current } else { coverage };
        self.set_shade(x, y, shade);
        proof {
            assert forall|i: int| 0 <= i < old(self)@.len() implies #[trigger] self@[i] >= old(self)@[i] by {}
        }
    }

    /// Draws `glyph` with its top left at `(x, y)`, each pixel darkened to the
    /// glyph's coverage; a synthetic italic leans rows right by a quarter of
    /// their height above the bottom. Pixels off the panel are skipped.
    pub fn draw_glyph(&mut self, font: &Font, glyph: &Glyph, x: i32, y: i32, synthetic_italic: bool)
        requires
            old(self).wf(),
            glyph_fits(font.bitmap@, *glyph),
        ensures
            final(self).wf(),
            no_lighter(old(self)@, final(self)@),
            forall|i: int| 0 <= i < PIXEL_COUNT ==> #[trigger] final(self)@[i] == darker(
                old(self)@[i],
                glyph_ink(font.bitmap@, *glyph, x as int, y as int, synthetic_italic, i % 480, i / 480, glyph.height as int, 0),
            ),
    {
        let ghost start = self@;
        proof {
            self.lemma_view_len();
        }
        let mut row: u8 = 0;
        while row < glyph.height
            invariant
                self.wf(),
                glyph_fits(font.bitmap@, *glyph),
                no_lighter(start, self@),
                start.len() == PIXEL_COUNT,
                row <= glyph.height,
                forall|i: int| 0 <= i < PIXEL_COUNT ==> #[trigger] self@[i] == darker(
                    start[i],
                    glyph_ink(font.bitmap@, *glyph, x as int, y as int, synthetic_italic, i % 480, i / 480, row as int, 0),
                ),
            decreases glyph.height - row,
        {
            let mut col: u8 = 0;
            while col < glyph.width
                invariant
                    self.wf(),
                    row < glyph.height,
                    col <= glyph.width,
                    glyph_fits(font.bitmap@, *glyph),
                    no_lighter(start, self@),
                    start.len() == PIXEL_COUNT,
                    forall|i: int| 0 <= i < PIXEL_COUNT ==> #[trigger] self@[i] == darker(
                        start[i],
                        glyph_ink(font.bitmap@, *glyph, x as int, y as int, synthetic_italic, i % 480, i / 480, row as int, col as int),
                    ),
                decreases glyph.width - col,
            {
                let coverage = font.glyph_coverage(glyph, col, row);
                if coverage != 0 {
                    let italic_shift: i64 = if synthetic_italic { ((glyph.height - row - 1) / 4) as i64 } else { 0 };
                    let px: i64 = x as i64 + italic_shift + col as i64;
                    let py: i64 = y as i64 + row as i64;
                    if px >= 0 && py >= 0 && px < DISPLAY_WIDTH as i64 && py < DISPLAY_HEIGHT as i64 {
                        let ghost before = self@;
                        self.darken(px as u16, py as u16, coverage);
                        proof {
                            assert forall|i: int| 0 <= i < start.len() implies #[trigger] self@[i] >= start[i] by {
                                assert(self@[i] >= before[i]);
                            }
                            lemma_pixel_of_index(px as int, py as int);
                            assert forall|i: int| 0 <= i < PIXEL_COUNT implies #[trigger] self@[i] == darker(
                                start[i],
                                glyph_ink(font.bitmap@, *glyph, x as int, y as int, synthetic_italic, i % 480, i / 480, row as int, col + 1),
                            ) by {
                                assert(before[i] == darker(
                                    start[i],
                                    glyph_ink(font.bitmap@, *glyph, x as int, y as int, synthetic_italic, i % 480, i / 480, row as int, col as int),
                                ));
                                if i != pixel_index(px as int, py as int) {
                                    assert(i == (i / 480) * 480 + i % 480);
                                }
                            }
                        }
                    } else {
                        proof {
                            assert forall|i: int| 0 <= i < PIXEL_COUNT implies #[trigger] self@[i] == darker(
                                start[i],
                                glyph_ink(font.bitmap@, *glyph, x as int, y as int, synthetic_italic, i % 480, i / 480, row as int, col + 1),
                            ) by {
                                assert(self@[i] == darker(
                                    start[i],
                                    glyph_ink(font.bitmap@, *glyph, x as int, y as int, synthetic_italic, i % 480, i / 480, row as int, col as int),
                                ));
                                assert(0 <= i % 480 < 480 && 0 <= i / 480 < 800);
                            }
                        }
                    }
                } else {
                    proof {
                        assert forall|i: int| 0 <= i < PIXEL_COUNT implies #[trigger] self@[i] == darker(
                            start[i],
                            glyph_ink(font.bitmap@, *glyph, x as int, y as int, synthetic_italic, i % 480, i / 480, row as int, col + 1),
                        ) by {
                            assert(self@[i] == darker(
                                start[i],
                                glyph_ink(font.bitmap@, *glyph, x as int, y as int, synthetic_italic, i % 480, i / 480, row as int, col as int),
                            ));
                        }
                    }
                }
                col += 1;
            }
            proof {
                assert forall|i: int| 0 <= i < PIXEL_COUNT implies #[trigger] self@[i] == darker(
                    start[i],
                    glyph_ink(font.bitmap@, *glyph, x as int, y as int, synthetic_italic, i % 480, i / 480, row + 1, 0),
                ) by {
                    assert(self@[i] == darker(
                        start[i],
                        glyph_ink(font.bitmap@, *glyph, x as int, y as int, synthetic_italic, i % 480, i / 480, row as int, glyph.width as int),
                    ));
                }
            }
            row += 1;
        }
    }

    /// Draws `text` in `font` from `(x, y)`, one panel line per text line; a
    /// synthetic bold draws each glyph again one pixel to the right.
    pub fn draw_text_with_font(&mut self, font: &Font, x: u16, y: u16, text: &str, synthetic_bold: bool, synthetic_italic: bool)
        requires
            old(self).wf(),
            font.wf(),
            text@.len() <= MAX_SHAPED_CHARS,
        ensures
            final(self).wf(),
            no_lighter(old(self)@, final(self)@),
            one_line(text@) ==> shows_line(final(self)@, *font, text@, x as int, y as int, synthetic_italic),
    {
        let cs = crate::font::chars_of(text);
        self.draw_chars_with_font(font, x, y, cs.as_slice(), synthetic_bold, synthetic_italic);
    }

    /// Draws the characters `cs` as `draw_text_with_font` draws text.
    pub fn draw_chars_with_font(&mut self, font: &Font, x: u16, y: u16, cs: &[char], synthetic_bold: bool, synthetic_italic: bool)
        requires
            old(self).wf(),
            font.wf(),
            cs@.len() <= MAX_SHAPED_CHARS,
        ensures
            final(self).wf(),
            no_lighter(old(self)@, final(self)@),
            one_line(cs@) ==> shows_line(final(self)@, *font, cs@, x as int, y as int, synthetic_italic),
    {
        let ghost start = self@;
        let base_x: i64 = x as i64;
        let mut cursor_y: i64 = y as i64;
        let line_height: i64 = font.line_height_px() as i64;
        let n = cs.len();
        let mut line_start: usize = 0;
        let mut i: usize = 0;
        while i <= n
            invariant
                self.wf(),
                font.wf(),
                n == cs@.len(),
                n <= MAX_SHAPED_CHARS,
                line_start <= i,
                i <= n + 1,
                line_start <= n,
                no_lighter(start, self@),
                start.len() == PIXEL_COUNT,
                y as i64 <= cursor_y <= y as i64 + i * 65535,
                base_x == x as i64,
                line_height == font.line_height as i64,
                one_line(cs@) && i <= n ==> line_start == 0 && cursor_y == y as i64,
                one_line(cs@) && i > n ==> shows_line(self@, *font, cs@, x as int, y as int, synthetic_italic),
            decreases n + 1 - i,
        {
            if i == n || cs[i] == '\n' {
                let line = crate::text::char_range(cs, line_start, i);
                let shaped = font.shape_chars(line);
                proof {
                    if one_line(cs@) {
                        assert(line@ =~= cs@);
                    }
                }
                let mut k: usize = 0;
                while k < shaped.glyphs.len()
                    invariant
                        self.wf(),
                        font.wf(),
                        no_lighter(start, self@),
                        start.len() == PIXEL_COUNT,
                        forall|j: int| 0 <= j < shaped.glyphs@.len() ==> #[trigger] shaped.glyphs@[j].glyph == font.glyph_of(line@[j] as u32),
                        forall|j: int| 0 <= j < shaped.glyphs@.len() ==> #[trigger] shaped.glyphs@[j] == font.placement(line@, j),
                        k <= shaped.glyphs@.len(),
                        one_line(cs@) ==> line@ == cs@ && cursor_y == y as i64 && i == n,
                        one_line(cs@) ==> forall|j: int, q: int|
                            #![trigger glyph_placed_ink(*font, cs@, j, x as int, y as int, synthetic_italic, q)]
                            0 <= j < k && 0 <= q < PIXEL_COUNT && glyph_origin_ok(*font, cs@, j, x as int, y as int) ==> self@[q]
                                >= glyph_placed_ink(*font, cs@, j, x as int, y as int, synthetic_italic, q),
                        shaped.glyphs@.len() == line@.len(),
                        y as i64 <= cursor_y <= y as i64 + i * 65535,
                        base_x == x as i64,
                        line_height == font.line_height as i64,
                        i <= n,
                        n <= MAX_SHAPED_CHARS,
                    decreases shaped.glyphs@.len() - k,
                {
                    let placed = shaped.glyphs[k];
                    proof {
                        lemma_glyph_of_fits(font, line@[k as int] as u32);
                    }
                    let left: i64 = base_x + placed.x as i64 + placed.glyph.left as i64;
                    let top: i64 = cursor_y + placed.y as i64 + placed.glyph.top as i64;
                    let ghost b0 = self@;
                    if left >= i32::MIN as i64 && left <= i32::MAX as i64 - 1 && top >= i32::MIN as i64 && top <= i32::MAX as i64 {
                        let ghost b1 = self@;
                        self.draw_glyph(font, &placed.glyph, left as i32, top as i32, synthetic_italic);
                        let ghost b1_after = self@;
                        if synthetic_bold {
                            let ghost b2 = self@;
                            self.draw_glyph(font, &placed.glyph, (left + 1) as i32, top as i32, synthetic_italic);
                            proof {
                                assert forall|q: int| 0 <= q < start.len() implies #[trigger] self@[q] >= start[q] by {
                                    assert(self@[q] >= b2[q]);
                                    assert(b2[q] >= b1[q]);
                                }
                            }
                        } else {
                            proof {
                                assert forall|q: int| 0 <= q < start.len() implies #[trigger] self@[q] >= start[q] by {
                                    assert(self@[q] >= b1[q]);
                                }
                            }
                        }
                        proof {
                            if one_line(cs@) {
                                assert(placed == font.placement(cs@, k as int));
                                assert forall|j: int, q: int|
                                    #![trigger glyph_placed_ink(*font, cs@, j, x as int, y as int, synthetic_italic, q)]
                                    0 <= j < k + 1 && 0 <= q < PIXEL_COUNT && glyph_origin_ok(*font, cs@, j, x as int, y as int)
                                    implies self@[q] >= glyph_placed_ink(*font, cs@, j, x as int, y as int, synthetic_italic, q) by {
                                    assert(self@[q] >= b1_after[q]);
                                    assert(b1_after[q] >= b0[q]);
                                    if j == k {
                                        assert(b1_after[q] == darker(
                                            b0[q],
                                            glyph_ink(font.bitmap@, placed.glyph, left as int, top as int, synthetic_italic, q % 480, q / 480, placed.glyph.height as int, 0),
                                        ));
                                    }
                                }
                            }
                        }
                    } else {
                        proof {
                            if one_line(cs@) {
                                assert(placed == font.placement(cs@, k as int));
                                assert(!glyph_origin_ok(*font, cs@, k as int, x as int, y as int));
                            }
                        }
                    }
                    k += 1;
                }
                cursor_y = cursor_y + line_height;
                line_start = if i < n { i + 1 } else { n };
            }
            i += 1;
        }
    }
}

/// Every glyph a font draws fits its bitmap.
pub proof fn lemma_glyph_of_fits(font: &Font, codepoint: u32)
    requires
        font.wf(),
    ensures
        glyph_fits(font.bitmap@, font.glyph_of(codepoint)),
{
    match font.glyph_index_spec(codepoint) {
        Some(i) => {
            if i < font.glyphs@.len() {
                assert(glyph_fits(font.bitmap@, font.glyphs@[i]));
            } else {
                assert(glyph_fits(font.bitmap@, font.glyphs@[font.replacement_index as int]));
            }
        },
        None => {
            assert(glyph_fits(font.bitmap@, font.glyphs@[font.replacement_index as int]));
        },
    }
}


impl Framebuffer {
    /// The frame has a shade for every pixel.
    pub proof fn lemma_view_len(&self)
        ensures
            self@.len() == PIXEL_COUNT,
    {
    }
}

} // verus!
