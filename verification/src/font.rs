//! Bitmap fonts: glyph lookup by code point, pair kerning and shaping.
use vstd::prelude::*;

verus! {

pub const GLYPH_SHADE_BITS_PER_PIXEL: usize = 2;

/// The characters of `text`, in order.
pub fn chars_of(text: &str) -> (r: Vec<char>)
    ensures
        r@ == text@,
{
    broadcast use vstd::string::axiom_spec_iter;
    let mut out: Vec<char> = Vec::new();
    for c in it: text.chars()
        invariant
            out@ == it.seq().subrange(0, it.index() as int),
    {
        out.push(c);
    }
    assert(out@ =~= text@);
    out
}

/// The metrics of one glyph and where its 2-bit coverage rows lie in the bitmap.
#[derive(Debug, Clone, Copy, PartialEq, Eq, Structural)]
pub struct Glyph {
    pub codepoint: u32,
    pub width: u8,
    pub height: u8,
    pub advance_x: u16,
    pub layout_advance_x: u16,
    pub left: i16,
    pub top: i16,
    pub data_offset: u32,
    pub data_length: u32,
}

/// A run of consecutive code points whose glyphs are stored consecutively from `offset`.
#[derive(Debug, Clone, Copy, PartialEq, Eq, Structural)]
pub struct Interval {
    pub first: u32,
    pub last: u32,
    pub offset: u32,
}

/// The kerning of an ordered pair of characters, found by its key.
#[derive(Debug, Clone, Copy, PartialEq, Eq, Structural)]
pub struct PairPositioning {
    pub key: u64,
    pub pen_adjust: i16,
    pub x_offset: i16,
    pub y_offset: i16,
    pub advance_adjust: i16,
}

impl PairPositioning {
    /// The positioning of a pair without kerning.
    pub open spec fn none_spec() -> PairPositioning {
        PairPositioning { key: 0, pen_adjust: 0, x_offset: 0, y_offset: 0, advance_adjust: 0 }
    }
}

impl Default for PairPositioning {
    fn default() -> (r: Self)
        ensures
            r == PairPositioning::none_spec(),
    {
        PairPositioning { key: 0, pen_adjust: 0, x_offset: 0, y_offset: 0, advance_adjust: 0 }
    }
}

/// A font: glyph bitmaps, glyph metrics, the code point runs that map to them,
/// the kerning pairs and the vertical metrics.
#[derive(Debug, Clone)]
pub struct Font {
    pub bitmap: Vec<u8>,
    pub glyphs: Vec<Glyph>,
    pub intervals: Vec<Interval>,
    pub pair_positioning: Vec<PairPositioning>,
    pub ascender: i16,
    pub descender: i16,
    pub line_height: u16,
    pub replacement_index: usize,
}

/// The bytes of one row of a glyph of `width` pixels.
pub open spec fn row_bytes(width: u8) -> int {
    (width + 3) / 4
}

/// The coverage rows of `glyph` lie in its slice of `bitmap`.
pub open spec fn glyph_fits(bitmap: Seq<u8>, glyph: Glyph) -> bool {
    &&& glyph.data_offset + glyph.data_length <= bitmap.len()
    &&& glyph.height * row_bytes(glyph.width) <= glyph.data_length
}

/// The `key` of the pair `(left, right)`.
pub open spec fn pair_key_spec(left: u32, right: u32) -> u64 {
    (left as int * 0x1_0000_0000 + right as int) as u64
}

/// The key of the ordered pair `(left, right)`: left in the high half.
pub fn pair_key(left: u32, right: u32) -> (r: u64)
    ensures
        r == pair_key_spec(left, right),
        r == left as int * 0x1_0000_0000 + right as int,
{
    (left as u64) * 0x1_0000_0000u64 + (right as u64)
}

impl Font {
    /// The tables are consistent: the replacement glyph exists, the code point
    /// runs are ordered and apart, the kerning keys strictly increase, and every
    /// glyph's coverage rows lie in the bitmap.
    pub open spec fn wf(&self) -> bool {
        &&& self.replacement_index < self.glyphs@.len()
        &&& forall|i: int| 0 <= i < self.intervals@.len() ==> {
            &&& #[trigger] self.intervals@[i].first <= self.intervals@[i].last
            &&& self.intervals@[i].offset + (self.intervals@[i].last - self.intervals@[i].first) <= u32::MAX
        }
        &&& forall|i: int, j: int| 0 <= i < j < self.intervals@.len() ==> #[trigger] self.intervals@[i].last < #[trigger] self.intervals@[j].first
        &&& forall|i: int, j: int| 0 <= i < j < self.pair_positioning@.len() ==> #[trigger] self.pair_positioning@[i].key < #[trigger] self.pair_positioning@[j].key
        &&& forall|i: int| 0 <= i < self.glyphs@.len() ==> glyph_fits(self.bitmap@, #[trigger] self.glyphs@[i])
    }

    /// Checks that the tables are consistent.
    pub fn is_wf(&self) -> (r: bool)
        ensures
            r == self.wf(),
    {
        if self.replacement_index >= self.glyphs.len() {
            return false;
        }
        let mut i: usize = 0;
        while i < self.intervals.len()
            invariant
                i <= self.intervals@.len(),
                forall|k: int| 0 <= k < i ==> {
                    &&& #[trigger] self.intervals@[k].first <= self.intervals@[k].last
                    &&& self.intervals@[k].offset + (self.intervals@[k].last - self.intervals@[k].first) <= u32::MAX
                },
                forall|k: int| 0 <= k < i && k + 1 < self.intervals@.len() ==> #[trigger] self.intervals@[k].last
                    < self.intervals@[k + 1].first,
            decreases self.intervals@.len() - i,
        {
            let iv = self.intervals[i];
            if iv.first > iv.last || iv.last - iv.first > u32::MAX - iv.offset {
                return false;
            }
            if i + 1 < self.intervals.len() && iv.last >= self.intervals[i + 1].first {
                return false;
            }
            i += 1;
        }
        proof {
            lemma_adjacent_sorted_intervals(self.intervals@);
        }
        let mut j: usize = 1;
        while j < self.pair_positioning.len()
            invariant
                1 <= j,
                forall|k: int| 0 <= k && k + 1 < j && k + 1 < self.pair_positioning@.len() ==> #[trigger] self.pair_positioning@[k].key
                    < self.pair_positioning@[k + 1].key,
            decreases self.pair_positioning@.len() - j,
        {
            if self.pair_positioning[j - 1].key >= self.pair_positioning[j].key {
                return false;
            }
            j += 1;
        }
        proof {
            lemma_adjacent_sorted_keys(self.pair_positioning@);
        }
        let mut g: usize = 0;
        while g < self.glyphs.len()
            invariant
                g <= self.glyphs@.len(),
                forall|k: int| 0 <= k < g ==> glyph_fits(self.bitmap@, #[trigger] self.glyphs@[k]),
            decreases self.glyphs@.len() - g,
        {
            let glyph = self.glyphs[g];
            let row = (glyph.width as u64 + 3) / 4;
            assert(glyph.height as u64 * row <= 255 * 65) by (nonlinear_arith)
                requires
                    row <= 65,
                    glyph.height <= 255,
            ;
            if glyph.data_offset as u64 + glyph.data_length as u64 > self.bitmap.len() as u64
                || glyph.height as u64 * row > glyph.data_length as u64 {
                return false;
            }
            g += 1;
        }
        true
    }

    /// The glyph index of `codepoint`: its offset in the run that holds it.
    pub open spec fn glyph_index_spec(&self, codepoint: u32) -> Option<int> {
        if exists|k: int| 0 <= k < self.intervals@.len() && #[trigger] self.intervals@[k].first <= codepoint <= self.intervals@[k].last {
            let k = choose|k: int| 0 <= k < self.intervals@.len() && #[trigger] self.intervals@[k].first <= codepoint <= self.intervals@[k].last;
            Some(self.intervals@[k].offset + (codepoint - self.intervals@[k].first))
        } else {
            None
        }
    }

    /// The glyph drawn for `codepoint`, or the replacement glyph.
    pub open spec fn glyph_of(&self, codepoint: u32) -> Glyph {
        match self.glyph_index_spec(codepoint) {
            Some(i) => if i < self.glyphs@.len() { self.glyphs@[i] } else { self.glyphs@[self.replacement_index as int] },
            None => self.glyphs@[self.replacement_index as int],
        }
    }

    /// The kerning of `(left, right)`: the entry with its key, else no kerning.
    pub open spec fn pair_of(&self, left: u32, right: u32) -> PairPositioning {
        let key = pair_key_spec(left, right);
        if exists|k: int| 0 <= k < self.pair_positioning@.len() && #[trigger] self.pair_positioning@[k].key == key {
            let k = choose|k: int| 0 <= k < self.pair_positioning@.len() && #[trigger] self.pair_positioning@[k].key == key;
            self.pair_positioning@[k]
        } else {
            PairPositioning::none_spec()
        }
    }

    /// The height of a line of text.
    pub fn line_height_px(&self) -> (r: u16)
        ensures
            r == self.line_height,
    {
        self.line_height
    }

    /// The distance from the top of a line to the baseline.
    pub fn ascender_px(&self) -> (r: i16)
        ensures
            r == self.ascender,
    {
        self.ascender
    }

    /// Finds the glyph index of `codepoint` by binary search over the runs.
    pub fn glyph_index_for_codepoint(&self, codepoint: u32) -> (r: Option<usize>)
        requires
            self.wf(),
        ensures
            match self.glyph_index_spec(codepoint) {
                Some(i) => r == Some(i as usize),
                None => r is None,
            },
    {
        let mut left: usize = 0;
        let mut right: usize = self.intervals.len();
        while left < right
            invariant
                self.wf(),
                left <= right <= self.intervals@.len(),
                forall|k: int| 0 <= k < left ==> #[trigger] self.intervals@[k].last < codepoint,
                forall|k: int| right <= k < self.intervals@.len() ==> codepoint < #[trigger] self.intervals@[k].first,
            decreases right - left,
        {
            let mid = left + (right - left) / 2;
            let interval = self.intervals[mid];
            if codepoint < interval.first {
                proof {
                    assert forall|k: int| mid <= k < self.intervals@.len() implies codepoint < #[trigger] self.intervals@[k].first by {
                        if k > mid {
                            assert(self.intervals@[mid as int].last < self.intervals@[k].first);
                        }
                    }
                }
                right = mid;
            } else if codepoint > interval.last {
                proof {
                    assert forall|k: int| 0 <= k <= mid implies #[trigger] self.intervals@[k].last < codepoint by {
                        if k < mid {
                            assert(self.intervals@[k].last < self.intervals@[mid as int].first);
                        }
                    }
                }
                left = mid + 1;
            } else {
                proof {
                    let k = choose|k: int| 0 <= k < self.intervals@.len() && #[trigger] self.intervals@[k].first <= codepoint <= self.intervals@[k].last;
                    assert(self.intervals@[mid as int].first <= codepoint <= self.intervals@[mid as int].last);
                    if k < mid {
                        assert(self.intervals@[k].last < self.intervals@[mid as int].first);
                    } else if k > mid {
                        assert(self.intervals@[mid as int].last < self.intervals@[k].first);
                    }
                }
                return Some((interval.offset + (codepoint - interval.first)) as usize);
            }
        }
        None
    }

    /// The glyph of `codepoint`, when the font has one.
    pub fn glyph_for_codepoint(&self, codepoint: u32) -> (r: Option<&Glyph>)
        requires
            self.wf(),
        ensures
            match self.glyph_index_spec(codepoint) {
                Some(i) => if i < self.glyphs@.len() { r == Some(&self.glyphs@[i]) } else { r is None },
                None => r is None,
            },
    {
        match self.glyph_index_for_codepoint(codepoint) {
            Some(index) => {
                if index < self.glyphs.len() {
                    Some(&self.glyphs[index])
                } else {
                    None
                }
            },
            None => None,
        }
    }

    /// The glyph of `ch`, or the replacement glyph.
    pub fn glyph_for_char(&self, ch: char) -> (r: &Glyph)
        requires
            self.wf(),
        ensures
            *r == self.glyph_of(ch as u32),
    {
        match self.glyph_for_codepoint(ch as u32) {
            Some(g) => g,
            None => &self.glyphs[self.replacement_index],
        }
    }

    /// The kerning of the pair `(left, right)`, by binary search over the keys.
    pub fn positioning_for_pair(&self, left: char, right: char) -> (r: PairPositioning)
        requires
            self.wf(),
        ensures
            r == self.pair_of(left as u32, right as u32),
    {
        let key = pair_key(left as u32, right as u32);
        let mut lo: usize = 0;
        let mut hi: usize = self.pair_positioning.len();
        while lo < hi
            invariant
                self.wf(),
                key == pair_key_spec(left as u32, right as u32),
                lo <= hi <= self.pair_positioning@.len(),
                forall|k: int| 0 <= k < lo ==> #[trigger] self.pair_positioning@[k].key < key,
                forall|k: int| hi <= k < self.pair_positioning@.len() ==> key < #[trigger] self.pair_positioning@[k].key,
            decreases hi - lo,
        {
            let mid = lo + (hi - lo) / 2;
            let entry = self.pair_positioning[mid];
            if key < entry.key {
                proof {
                    assert forall|k: int| mid <= k < self.pair_positioning@.len() implies key < #[trigger] self.pair_positioning@[k].key by {
                        if k > mid {
                            assert(self.pair_positioning@[mid as int].key < self.pair_positioning@[k].key);
                        }
                    }
                }
                hi = mid;
            } else if key > entry.key {
                proof {
                    assert forall|k: int| 0 <= k <= mid implies #[trigger] self.pair_positioning@[k].key < key by {
                        if k < mid {
                            assert(self.pair_positioning@[k].key < self.pair_positioning@[mid as int].key);
                        }
                    }
                }
                lo = mid + 1;
            } else {
                proof {
                    let k = choose|k: int| 0 <= k < self.pair_positioning@.len() && #[trigger] self.pair_positioning@[k].key == key;
                    assert(self.pair_positioning@[mid as int].key == key);
                    if k < mid {
                        assert(self.pair_positioning@[k].key < self.pair_positioning@[mid as int].key);
                    } else if k > mid {
                        assert(self.pair_positioning@[mid as int].key < self.pair_positioning@[k].key);
                    }
                }
                return entry;
            }
        }
        proof {
            assert forall|k: int| 0 <= k < self.pair_positioning@.len() implies #[trigger] self.pair_positioning@[k].key != key by {
                if k < lo {
                } else {
                }
            }
        }
        PairPositioning::default()
    }

    /// The coverage (0 to 3) of pixel `(x, y)` of `glyph`; none outside it.
    pub fn glyph_coverage(&self, glyph: &Glyph, x: u8, y: u8) -> (r: u8)
        requires
            glyph_fits(self.bitmap@, *glyph),
        ensures
            r == (if x >= glyph.width || y >= glyph.height {
                0u8
            } else {
                (self.bitmap@[glyph.data_offset + y * row_bytes(glyph.width) + x / 4] >> ((6 - (x % 4) * 2) as u8)) & 3u8
            }),
            r <= 3,
    {
        if x >= glyph.width || y >= glyph.height {
            return 0;
        }
        let rb = ((glyph.width as usize) + 3) / 4;
        proof {
            assert((y as int) * rb + rb <= glyph.height * rb) by (nonlinear_arith)
                requires y < glyph.height, rb >= 0;
            assert(x / 4 < rb);
        }
        let n = self.bitmap.len();
        assert(rb == row_bytes(glyph.width));
        assert(glyph.data_offset + (y as int) * rb + x / 4 < n);
        let index = glyph.data_offset as usize + (y as usize) * rb + (x as usize) / 4;
        let byte = self.bitmap[index];
        let shift = (6 - (x % 4) * 2) as u8;
        let r = (byte >> shift) & 3u8;
        assert(r <= 3) by (bit_vector)
            requires r == (byte >> shift) & 3u8;
        r
    }
}


/// A glyph placed by shaping: its pen position relative to the start of the run.
#[derive(Debug, Clone, Copy)]
pub struct PlacedGlyph {
    pub glyph: Glyph,
    pub x: i32,
    pub y: i32,
}

/// A shaped run of text: its advance and its placed glyphs in order.
#[derive(Debug, Clone)]
pub struct ShapedText {
    pub width: i32,
    pub glyphs: Vec<PlacedGlyph>,
}

/// The most a character moves the pen, kerning included.
pub const MAX_PEN_STEP: u32 = 98303;

/// The longest run `shape_text` takes: the pen stays well inside `i32`.
pub const MAX_SHAPED_CHARS: usize = 16384;

impl Font {
    /// The pen position before character `i` of `cs`: the advances and pen
    /// adjustments of the characters before it.
    pub open spec fn pen_before(&self, cs: Seq<char>, i: nat) -> int
        decreases i,
    {
        if i == 0 || i > cs.len() {
            0
        } else {
            self.pen_before(cs, (i - 1) as nat) + self.glyph_of(cs[i - 1] as u32).layout_advance_x + self.pair_of(
                cs[i - 1] as u32,
                cs[i as int] as u32,
            ).pen_adjust
        }
    }

    /// The advance of the run `cs`: the pen before its last character, that
    /// character's advance and the advance adjustment of its pair with the one before.
    pub open spec fn shaped_width(&self, cs: Seq<char>) -> int {
        if cs.len() == 0 {
            0
        } else {
            let n = (cs.len() - 1) as nat;
            self.pen_before(cs, n) + self.glyph_of(cs[n as int] as u32).layout_advance_x + (if n > 0 {
                self.pair_of(cs[n - 1] as u32, cs[n as int] as u32).advance_adjust as int
            } else {
                0
            })
        }
    }

    /// Where character `i` of `cs` is placed.
    pub open spec fn placement(&self, cs: Seq<char>, i: int) -> PlacedGlyph {
        PlacedGlyph {
            glyph: self.glyph_of(cs[i] as u32),
            x: (self.pen_before(cs, i as nat) + (if i > 0 {
                self.pair_of(cs[i - 1] as u32, cs[i] as u32).x_offset as int
            } else {
                0
            })) as i32,
            y: (if i > 0 { self.pair_of(cs[i - 1] as u32, cs[i] as u32).y_offset as int } else { 0 }) as i32,
        }
    }

    /// The pen moves at most `MAX_PEN_STEP` per character.
    pub proof fn lemma_pen_bound(&self, cs: Seq<char>, i: nat)
        ensures
            -(i * MAX_PEN_STEP) <= self.pen_before(cs, i) <= i * MAX_PEN_STEP,
        decreases i,
    {
        if i > 0 && i <= cs.len() {
            self.lemma_pen_bound(cs, (i - 1) as nat);
        }
    }

    /// Shapes `text`: places each glyph after the advance and kerning of the
    /// characters before it, and returns the run's advance with the placements.
    pub fn shape_text(&self, text: &str) -> (r: ShapedText)
        requires
            self.wf(),
            text@.len() <= MAX_SHAPED_CHARS,
        ensures
            r.width == self.shaped_width(text@),
            r.glyphs@.len() == text@.len(),
            forall|i: int| 0 <= i < text@.len() ==> #[trigger] r.glyphs@[i] == self.placement(text@, i),
    {
        let chars = chars_of(text);
        self.shape_chars(chars.as_slice())
    }

    /// Shapes the characters `cs`.
    pub fn shape_chars(&self, cs: &[char]) -> (r: ShapedText)
        requires
            self.wf(),
            cs@.len() <= MAX_SHAPED_CHARS,
        ensures
            r.width == self.shaped_width(cs@),
            r.glyphs@.len() == cs@.len(),
            forall|i: int| 0 <= i < cs@.len() ==> #[trigger] r.glyphs@[i] == self.placement(cs@, i),
    {
        let n = cs.len();
        let mut placed: Vec<PlacedGlyph> = Vec::new();
        if n == 0 {
            return ShapedText { width: 0, glyphs: placed };
        }
        let mut pen_x: i32 = 0;
        let mut incoming_x: i32 = 0;
        let mut incoming_y: i32 = 0;
        let mut incoming_adjust: i32 = 0;
        let mut i: usize = 0;
        loop
            invariant
                self.wf(),
                n == cs@.len(),
                1 <= n <= MAX_SHAPED_CHARS,
                i < n,
                placed@.len() == i,
                pen_x == self.pen_before(cs@, i as nat),
                incoming_x == (if i > 0 { self.pair_of(cs@[i - 1] as u32, cs@[i as int] as u32).x_offset as int } else { 0 }),
                incoming_y == (if i > 0 { self.pair_of(cs@[i - 1] as u32, cs@[i as int] as u32).y_offset as int } else { 0 }),
                incoming_adjust == (if i > 0 { self.pair_of(cs@[i - 1] as u32, cs@[i as int] as u32).advance_adjust as int } else { 0 }),
                forall|k: int| 0 <= k < i ==> #[trigger] placed@[k] == self.placement(cs@, k),
            decreases n - i,
        {
            let current = cs[i];
            let glyph = *self.glyph_for_char(current);
            proof {
                self.lemma_pen_bound(cs@, i as nat);
                self.lemma_pen_bound(cs@, (i + 1) as nat);
                assert(i * MAX_PEN_STEP <= MAX_SHAPED_CHARS * MAX_PEN_STEP) by (nonlinear_arith)
                    requires i <= MAX_SHAPED_CHARS;
                assert((i + 1) * MAX_PEN_STEP <= (MAX_SHAPED_CHARS + 1) * MAX_PEN_STEP) by (nonlinear_arith)
                    requires i + 1 <= MAX_SHAPED_CHARS + 1;
            }
            placed.push(PlacedGlyph { glyph, x: pen_x + incoming_x, y: incoming_y });
            if i + 1 == n {
                let width = pen_x + glyph.layout_advance_x as i32 + incoming_adjust;
                return ShapedText { width, glyphs: placed };
            }
            let next = cs[i + 1];
            let pair = self.positioning_for_pair(current, next);
            pen_x = pen_x + glyph.layout_advance_x as i32 + pair.pen_adjust as i32;
            incoming_x = pair.x_offset as i32;
            incoming_y = pair.y_offset as i32;
            incoming_adjust = pair.advance_adjust as i32;
            i += 1;
        }
    }
}


/// A copy of the items of `v`.
fn copy_vec<T: Copy>(v: &Vec<T>) -> (r: Vec<T>)
    ensures
        r@ == v@,
{
    let mut out: Vec<T> = Vec::new();
    let mut i: usize = 0;
    while i < v.len()
        invariant
            i <= v@.len(),
            out@ == v@.subrange(0, i as int),
        decreases v@.len() - i,
    {
        out.push(v[i]);
        i += 1;
    }
    assert(out@ =~= v@);
    out
}

impl Font {
    /// A copy of the font.
    pub fn duplicate(&self) -> (r: Font)
        ensures
            r.bitmap@ == self.bitmap@,
            r.glyphs@ == self.glyphs@,
            r.intervals@ == self.intervals@,
            r.pair_positioning@ == self.pair_positioning@,
            r.ascender == self.ascender,
            r.descender == self.descender,
            r.line_height == self.line_height,
            r.replacement_index == self.replacement_index,
    {
        Font {
            bitmap: copy_vec(&self.bitmap),
            glyphs: copy_vec(&self.glyphs),
            intervals: copy_vec(&self.intervals),
            pair_positioning: copy_vec(&self.pair_positioning),
            ascender: self.ascender,
            descender: self.descender,
            line_height: self.line_height,
            replacement_index: self.replacement_index,
        }
    }
}

/// Adjacent runs in order put all runs in order.
proof fn lemma_adjacent_sorted_intervals(s: Seq<Interval>)
    requires
        forall|k: int| 0 <= k && k + 1 < s.len() ==> #[trigger] s[k].last < s[k + 1].first,
        forall|k: int| 0 <= k < s.len() ==> #[trigger] s[k].first <= s[k].last,
    ensures
        forall|i: int, j: int| 0 <= i < j < s.len() ==> #[trigger] s[i].last < #[trigger] s[j].first,
{
    assert forall|i: int, j: int| 0 <= i < j < s.len() implies #[trigger] s[i].last < #[trigger] s[j].first by {
        lemma_interval_chain(s, i, j);
    }
}

proof fn lemma_interval_chain(s: Seq<Interval>, i: int, j: int)
    requires
        0 <= i < j < s.len(),
        forall|k: int| 0 <= k && k + 1 < s.len() ==> #[trigger] s[k].last < s[k + 1].first,
        forall|k: int| 0 <= k < s.len() ==> #[trigger] s[k].first <= s[k].last,
    ensures
        s[i].last < s[j].first,
    decreases j - i,
{
    if j > i + 1 {
        lemma_interval_chain(s, i, j - 1);
        assert(s[j - 1].last < s[j].first);
    }
}

/// Adjacent keys in order put all keys in order.
proof fn lemma_adjacent_sorted_keys(s: Seq<PairPositioning>)
    requires
        forall|k: int| 0 <= k && k + 1 < s.len() ==> #[trigger] s[k].key < s[k + 1].key,
    ensures
        forall|i: int, j: int| 0 <= i < j < s.len() ==> #[trigger] s[i].key < #[trigger] s[j].key,
{
    assert forall|i: int, j: int| 0 <= i < j < s.len() implies #[trigger] s[i].key < #[trigger] s[j].key by {
        lemma_key_chain(s, i, j);
    }
}

proof fn lemma_key_chain(s: Seq<PairPositioning>, i: int, j: int)
    requires
        0 <= i < j < s.len(),
        forall|k: int| 0 <= k && k + 1 < s.len() ==> #[trigger] s[k].key < s[k + 1].key,
    ensures
        s[i].key < s[j].key,
    decreases j - i,
{
    if j > i + 1 {
        lemma_key_chain(s, i, j - 1);
    }
}

} // verus!
