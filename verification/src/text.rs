//! Greedy word wrapping of text into lines of the panel width, page by page.
use vstd::prelude::*;
use crate::font::Font;
use crate::font::MAX_SHAPED_CHARS;
use crate::framebuffer::DISPLAY_WIDTH;
use vstd::string::StringSliceAdditionalSpecFns;
use vstd::utf8::encode_utf8;
use vstd::utf8::encode_scalar;

verus! {

/// Whether `c` has the Unicode White_Space property, as `char::is_whitespace`
/// decides: tab to carriage return, space, next line, no-break space, Ogham space
/// mark, en quad to hair space, line and paragraph separators, narrow no-break
/// space, medium mathematical space and ideographic space.
pub open spec fn unicode_whitespace(c: char) -> bool {
    let u = c as u32;
    ||| 0x09 <= u <= 0x0D
    ||| u == 0x20
    ||| u == 0x85
    ||| u == 0xA0
    ||| u == 0x1680
    ||| 0x2000 <= u <= 0x200A
    ||| u == 0x2028
    ||| u == 0x2029
    ||| u == 0x202F
    ||| u == 0x205F
    ||| u == 0x3000
}

/// Whether `c` is Unicode whitespace, the White_Space set that
/// `char::is_whitespace` tests. The ASCII space, tab, line feed and carriage
/// return are whitespace; ASCII letters and digits are not.
pub fn is_whitespace(c: char) -> (r: bool)
    ensures
        r == unicode_whitespace(c),
        (c == ' ' || c == '\t' || c == '\n' || c == '\r') ==> r,
        (('a' <= c <= 'z') || ('A' <= c <= 'Z') || ('0' <= c <= '9')) ==> !r,
{
    let u = c as u32;
    (0x09 <= u && u <= 0x0D) || u == 0x20 || u == 0x85 || u == 0xA0 || u == 0x1680 || (0x2000 <= u && u <= 0x200A)
        || u == 0x2028 || u == 0x2029 || u == 0x202F || u == 0x205F || u == 0x3000
}

/// The number of bytes of the UTF-8 encoding of `c`.
pub open spec fn char_utf8_len(c: char) -> nat {
    if (c as u32) < 0x80 {
        1
    } else if (c as u32) < 0x800 {
        2
    } else if (c as u32) < 0x10000 {
        3
    } else {
        4
    }
}

/// The number of bytes of the UTF-8 encoding of `cs`.
pub open spec fn utf8_len_of(cs: Seq<char>) -> nat
    decreases cs.len(),
{
    if cs.len() == 0 {
        0
    } else {
        utf8_len_of(cs.drop_last()) + char_utf8_len(cs.last())
    }
}

/// The UTF-8 length of `c`.
pub fn utf8_len(c: char) -> (r: usize)
    ensures
        r == char_utf8_len(c),
{
    let v = c as u32;
    if v < 0x80 {
        1
    } else if v < 0x800 {
        2
    } else if v < 0x10000 {
        3
    } else {
        4
    }
}

/// The UTF-8 length of the first `k` characters of `cs`.
pub fn utf8_prefix_len(cs: &[char], k: usize) -> (r: usize)
    requires
        k <= cs@.len(),
        4 * cs@.len() <= usize::MAX,
    ensures
        r == utf8_len_of(cs@.subrange(0, k as int)),
        r <= 4 * k,
{
    let mut total: usize = 0;
    let mut i: usize = 0;
    while i < k
        invariant
            i <= k,
            k <= cs@.len(),
            4 * cs@.len() <= usize::MAX,
            total == utf8_len_of(cs@.subrange(0, i as int)),
            total <= 4 * i,
        decreases k - i,
    {
        proof {
            assert(cs@.subrange(0, i + 1).drop_last() =~= cs@.subrange(0, i as int));
        }
        total = total + utf8_len(cs[i]);
        i += 1;
    }
    total
}

/// The characters `cs[start..end]`.
pub fn char_range(cs: &[char], start: usize, end: usize) -> (r: &[char])
    requires
        start <= end <= cs@.len(),
    ensures
        r@ == cs@.subrange(start as int, end as int),
{
    &cs[start..end]
}

/// Adds without leaving `i64`.
fn sat_add(a: i64, b: i64) -> (r: i64)
    ensures
        i64::MIN <= a + b <= i64::MAX ==> r == a + b,
{
    match a.checked_add(b) {
        Some(v) => v,
        None => if b > 0 { i64::MAX } else { i64::MIN },
    }
}

/// A line being assembled: its characters and their advance.
pub struct WrappedLine {
    pub chars: Vec<char>,
    pub width: i64,
    pub capacity: usize,
}

impl WrappedLine {
    /// An empty line that holds at most `capacity` characters.
    pub fn new(capacity: usize) -> (r: Self)
        ensures
            r.chars@.len() == 0,
            r.width == 0,
            r.capacity == capacity,
    {
        WrappedLine { chars: Vec::new(), width: 0, capacity }
    }

    pub fn is_empty(&self) -> (r: bool)
        ensures
            r == (self.chars@.len() == 0),
    {
        self.chars.len() == 0
    }

    pub fn clear(&mut self)
        ensures
            final(self).chars@.len() == 0,
            final(self).width == 0,
            final(self).capacity == old(self).capacity,
    {
        self.chars.clear();
        self.width = 0;
    }

    /// Appends a space, when there is room, and its advance.
    pub fn push_space(&mut self, space_width: i64)
        ensures
            final(self).capacity == old(self).capacity,
            old(self).chars@.len() < old(self).capacity ==> final(self).chars@ == old(self).chars@.push(' '),
            old(self).chars@.len() >= old(self).capacity ==> final(self).chars@ == old(self).chars@,
    {
        if self.chars.len() < self.capacity {
            self.chars.push(' ');
            self.width = sat_add(self.width, space_width);
        }
    }

    /// Appends as much of `word` as there is room for, and its whole advance.
    pub fn push_chars(&mut self, word: &[char], word_width: i64)
        ensures
            final(self).capacity == old(self).capacity,
            final(self).chars@ == old(self).chars@ + word@.subrange(
                0,
                if old(self).chars@.len() >= old(self).capacity {
                    0
                } else if word@.len() <= old(self).capacity - old(self).chars@.len() {
                    word@.len() as int
                } else {
                    old(self).capacity - old(self).chars@.len()
                },
            ),
            final(self).chars@.len() > 0 <== (old(self).chars@.len() > 0 || (word@.len() > 0 && old(self).capacity > 0)),
    {
        let room = if self.chars.len() >= self.capacity { 0 } else { self.capacity - self.chars.len() };
        let take = if word.len() <= room { word.len() } else { room };
        let ghost before = self.chars@;
        let mut i: usize = 0;
        while i < take
            invariant
                i <= take,
                take <= word@.len(),
                self.chars@ == before + word@.subrange(0, i as int),
                self.capacity == old(self).capacity,
            decreases take - i,
        {
            self.chars.push(word[i]);
            proof {
                assert(before + word@.subrange(0, i + 1) =~= (before + word@.subrange(0, i as int)).push(word@[i as int]));
            }
            i += 1;
        }
        self.width = sat_add(self.width, word_width);
    }
}

/// A line placed by wrapping: where it is drawn and what it holds.
#[derive(Debug, Clone)]
pub struct DrawnLine {
    pub x: u16,
    pub y: u16,
    pub chars: Vec<char>,
}

/// The outcome of wrapping text onto a page: where the next line would start,
/// how many bytes of the text were laid out, and the lines drawn.
#[derive(Debug)]
pub struct WrappedTextLayoutResult {
    pub next_y: u16,
    pub consumed: usize,
    pub lines: Vec<DrawnLine>,
}

/// The advance of `cs` in `font`.
pub fn measure_chars(font: &Font, cs: &[char]) -> (r: i64)
    requires
        font.wf(),
        cs@.len() <= MAX_SHAPED_CHARS,
    ensures
        r == font.shaped_width(cs@),
{
    let shaped = font.shape_chars(cs);
    shaped.width as i64
}

/// The advance of `text` in `font`.
pub fn measure_text_width(font: &Font, text: &str) -> (r: i32)
    requires
        font.wf(),
        text@.len() <= MAX_SHAPED_CHARS,
    ensures
        r == font.shaped_width(text@),
{
    font.shape_text(text).width
}

/// `v`, or `u16::MAX` when it is larger.
pub open spec fn sat16(v: int) -> int {
    if v > u16::MAX { u16::MAX as int } else { v }
}

/// The lines are drawn at `x`, one line height apart from `y` (the position
/// saturating at `u16::MAX`), each one a line height above `max_y`, none empty.
pub open spec fn lines_placed(lines: Seq<DrawnLine>, x: u16, y: u16, line_height: u16, max_y: u16) -> bool {
    forall|i: int| 0 <= i < lines.len() ==> {
        &&& #[trigger] lines[i].x == x
        &&& lines[i].y == sat16(y + i * line_height)
        &&& sat16(lines[i].y + line_height) <= max_y
        &&& lines[i].chars@.len() > 0
    }
}

/// The characters of `s` that are not whitespace, in order.
pub open spec fn visible_chars(s: Seq<char>) -> Seq<char>
    decreases s.len(),
{
    if s.len() == 0 {
        seq![]
    } else if unicode_whitespace(s.last()) {
        visible_chars(s.drop_last())
    } else {
        visible_chars(s.drop_last()).push(s.last())
    }
}

/// The characters of `lines`, one line after another.
pub open spec fn lines_chars(lines: Seq<DrawnLine>) -> Seq<char>
    decreases lines.len(),
{
    if lines.len() == 0 {
        seq![]
    } else {
        lines_chars(lines.drop_last()) + lines.last().chars@
    }
}

/// Dropping whitespace distributes over concatenation.
pub proof fn lemma_visible_concat(a: Seq<char>, b: Seq<char>)
    ensures
        visible_chars(a + b) == visible_chars(a) + visible_chars(b),
    decreases b.len(),
{
    if b.len() == 0 {
        assert(a + b =~= a);
        assert(visible_chars(a) + visible_chars(b) =~= visible_chars(a));
    } else {
        lemma_visible_concat(a, b.drop_last());
        assert((a + b).drop_last() =~= a + b.drop_last());
        assert((a + b).last() == b.last());
        if !unicode_whitespace(b.last()) {
            assert(visible_chars(a + b) =~= visible_chars(a) + visible_chars(b));
        }
    }
}

/// Splitting a range at `m` splits what is visible in it.
proof fn lemma_visible_split(s: Seq<char>, i: int, m: int, j: int)
    requires
        0 <= i <= m <= j <= s.len(),
    ensures
        visible_chars(s.subrange(i, j)) == visible_chars(s.subrange(i, m)) + visible_chars(s.subrange(m, j)),
{
    assert(s.subrange(i, j) =~= s.subrange(i, m) + s.subrange(m, j));
    lemma_visible_concat(s.subrange(i, m), s.subrange(m, j));
}

/// A run without whitespace is all visible.
proof fn lemma_visible_word(w: Seq<char>)
    requires
        forall|j: int| 0 <= j < w.len() ==> !unicode_whitespace(#[trigger] w[j]),
    ensures
        visible_chars(w) == w,
    decreases w.len(),
{
    if w.len() > 0 {
        assert forall|j: int| 0 <= j < w.drop_last().len() implies !unicode_whitespace(#[trigger] w.drop_last()[j]) by {
            assert(w.drop_last()[j] == w[j]);
        }
        lemma_visible_word(w.drop_last());
        assert(!unicode_whitespace(w[w.len() - 1]));
        assert(w.drop_last().push(w.last()) =~= w);
    }
}

/// A whitespace run, or one space, is invisible.
proof fn lemma_visible_space()
    ensures
        visible_chars(seq![' ']) == Seq::<char>::empty(),
{
    let sp = seq![' '];
    assert(sp.drop_last() =~= Seq::<char>::empty());
    assert(sp.last() == ' ');
    assert((' ' as u32) == 0x20);
    assert(unicode_whitespace(sp.last()));
    assert(visible_chars(sp) == visible_chars(sp.drop_last()));
    assert(visible_chars(Seq::<char>::empty()) =~= Seq::<char>::empty());
}

/// Extending a range by one character adds it when it is not whitespace.
proof fn lemma_visible_extend(s: Seq<char>, i: int, j: int)
    requires
        0 <= i <= j < s.len(),
    ensures
        visible_chars(s.subrange(i, j + 1)) == (if unicode_whitespace(s[j]) {
            visible_chars(s.subrange(i, j))
        } else {
            visible_chars(s.subrange(i, j)).push(s[j])
        }),
{
    assert(s.subrange(i, j + 1).drop_last() =~= s.subrange(i, j));
    assert(s.subrange(i, j + 1).last() == s[j]);
}

/// The space owed before the next word: one when a space is pending after text.
pub open spec fn pending_extra(pending_space: bool, line: Seq<char>) -> int {
    if pending_space && line.len() > 0 { 1 } else { 0 }
}

/// Where the text not yet placed on the line begins: the pending word, or the cursor.
spec fn run_start(word_start: Option<usize>, idx: usize) -> int {
    match word_start {
        Some(s) => s as int,
        None => idx as int,
    }
}

/// The characters of lines with one more line appended.
proof fn lemma_lines_chars_push(lines: Seq<DrawnLine>, more: Seq<DrawnLine>, last: DrawnLine)
    requires
        more.len() == lines.len() + 1,
        more.subrange(0, lines.len() as int) == lines,
        more.last().chars@ == last.chars@,
    ensures
        lines_chars(more) == lines_chars(lines) + last.chars@,
{
    assert(more.drop_last() =~= lines);
}

/// Placing the word `cs[s..e]` keeps the visible text of the lines and of the
/// line being built equal to that of the text up to the end of the word.
proof fn lemma_place_keeps_text(
    cs: Seq<char>,
    lines0: Seq<DrawnLine>,
    lines1: Seq<DrawnLine>,
    line0: Seq<char>,
    line1: Seq<char>,
    c0: int,
    c1: int,
    s: int,
    e: int,
    pending_space: bool,
)
    requires
        0 <= c0 <= s <= e <= cs.len(),
        forall|j: int| s <= j < e ==> !unicode_whitespace(#[trigger] cs[j]),
        visible_chars(lines_chars(lines0)) == visible_chars(cs.subrange(0, c0)),
        visible_chars(line0) == visible_chars(cs.subrange(c0, s)),
        s >= c0 + line0.len() + pending_extra(pending_space, line0),
        ({
            ||| {
                &&& line0.len() > 0
                &&& lines1.len() == lines0.len() + 1
                &&& lines1.subrange(0, lines0.len() as int) == lines0
                &&& lines1.last().chars@ == line0
                &&& c1 == s
                &&& line1 == cs.subrange(s, e)
            }
            ||| {
                &&& lines1 == lines0
                &&& c1 == c0
                &&& line1 == line0 + (if pending_space && line0.len() > 0 { seq![' '] } else { Seq::<char>::empty() })
                    + cs.subrange(s, e)
            }
        }),
    ensures
        visible_chars(lines_chars(lines1)) == visible_chars(cs.subrange(0, c1)),
        visible_chars(line1) == visible_chars(cs.subrange(c1, e)),
        e >= c1 + line1.len(),
        c0 <= c1 <= s,
{
    assert forall|j: int| 0 <= j < cs.subrange(s, e).len() implies !unicode_whitespace(#[trigger] cs.subrange(s, e)[j]) by {
        assert(cs.subrange(s, e)[j] == cs[s + j]);
    }
    lemma_visible_word(cs.subrange(s, e));
    if lines1 == lines0 && c1 == c0 && line1 == line0 + (if pending_space && line0.len() > 0 { seq![' '] } else {
        Seq::<char>::empty()
    }) + cs.subrange(s, e) {
        let sp = if pending_space && line0.len() > 0 { seq![' '] } else { Seq::<char>::empty() };
        lemma_visible_concat(line0 + sp, cs.subrange(s, e));
        lemma_visible_concat(line0, sp);
        lemma_visible_space();
        assert(visible_chars(Seq::<char>::empty()) =~= Seq::<char>::empty());
        assert(visible_chars(line0) + visible_chars(sp) =~= visible_chars(line0));
        lemma_visible_split(cs, c0, s, e);
    } else {
        lemma_lines_chars_push(lines0, lines1, lines1.last());
        lemma_visible_concat(lines_chars(lines0), line0);
        lemma_visible_split(cs, 0, c0, s);
    }
}

/// The state of one call of `layout_wrapped_text_page`.
struct Wrapper<'a> {
    font: &'a Font,
    x: u16,
    y: u16,
    max_y: u16,
    line_height: u16,
    available_width: i64,
    space_width: i64,
    cursor_y: u16,
    consumed: usize,
    lines: Vec<DrawnLine>,
}

impl<'a> Wrapper<'a> {
    /// The lines so far sit one line height apart from `y`, above `max_y`.
    spec fn wf(&self) -> bool {
        &&& self.cursor_y == sat16(self.y + self.lines@.len() * self.line_height)
        &&& lines_placed(self.lines@, self.x, self.y, self.line_height, self.max_y)
    }

    /// Finishes the current line up to `flush_up_to` characters of the text:
    /// draws it when it fits above `max_y` (true when it does not).
    fn flush(&mut self, line: &mut WrappedLine, flush_up_to: usize) -> (stop: bool)
        requires
            old(self).wf(),
        ensures
            final(self).wf(),
            final(self).x == old(self).x,
            final(self).y == old(self).y,
            final(self).max_y == old(self).max_y,
            final(self).line_height == old(self).line_height,
            final(self).font == old(self).font,
            final(self).available_width == old(self).available_width,
            final(self).space_width == old(self).space_width,
            final(line).capacity == old(line).capacity,
            stop ==> final(self).consumed == old(self).consumed && final(line).chars@ == old(line).chars@
                && final(self).lines@ == old(self).lines@,
            !stop ==> final(self).consumed == flush_up_to && final(line).chars@.len() == 0,
            stop == (old(line).chars@.len() > 0 && sat16(old(self).cursor_y + old(self).line_height) > old(self).max_y),
            old(line).chars@.len() == 0 ==> final(self).lines@ == old(self).lines@,
            !stop && old(line).chars@.len() > 0 ==> {
                &&& final(self).lines@.len() == old(self).lines@.len() + 1
                &&& final(self).lines@.subrange(0, old(self).lines@.len() as int) == old(self).lines@
                &&& final(self).lines@.last().chars@ == old(line).chars@
                &&& final(self).lines@.last().y == old(self).cursor_y
                &&& final(self).lines@.last().x == old(self).x
            },
    {
        if line.is_empty() {
            self.consumed = flush_up_to;
            return false;
        }
        if self.cursor_y.saturating_add(self.line_height) > self.max_y {
            return true;
        }
        let mut drawn: Vec<char> = Vec::new();
        let mut k: usize = 0;
        while k < line.chars.len()
            invariant
                k <= line.chars@.len(),
                drawn@ == line.chars@.subrange(0, k as int),
            decreases line.chars@.len() - k,
        {
            drawn.push(line.chars[k]);
            k += 1;
        }
        proof {
            assert(drawn@ =~= line.chars@);
        }
        let ghost before = self.lines@;
        let ghost k = before.len();
        proof {
            assert(self.y + (k + 1) * self.line_height == self.y + k * self.line_height + self.line_height) by (nonlinear_arith);
        }
        let ghost cy = self.cursor_y;
        self.lines.push(DrawnLine { x: self.x, y: self.cursor_y, chars: drawn });
        proof {
            assert(self.lines@.subrange(0, k as int) =~= before);
            assert(self.lines@.last().y == cy);
        }
        self.cursor_y = self.cursor_y.saturating_add(self.line_height);
        self.consumed = flush_up_to;
        line.clear();
        proof {
            assert forall|i: int| 0 <= i < self.lines@.len() implies {
                &&& #[trigger] self.lines@[i].x == self.x
                &&& self.lines@[i].y == sat16(self.y + i * self.line_height)
                &&& sat16(self.lines@[i].y + self.line_height) <= self.max_y
                &&& self.lines@[i].chars@.len() > 0
            } by {
                if i < k {
                    assert(self.lines@[i] == before[i]);
                }
            }
        }
        false
    }

    /// Places the word `cs[start..end]`: a new line first when it does not fit
    /// after what the line holds (true when that line cannot be drawn).
    fn place_word(&mut self, line: &mut WrappedLine, cs: &[char], start: usize, end: usize, pending_space: bool) -> (stop: bool)
        requires
            old(self).wf(),
            old(self).font.wf(),
            start <= end <= cs@.len(),
            cs@.len() <= MAX_SHAPED_CHARS,
        ensures
            final(self).wf(),
            final(self).x == old(self).x,
            final(self).y == old(self).y,
            final(self).max_y == old(self).max_y,
            final(self).line_height == old(self).line_height,
            final(self).font == old(self).font,
            final(self).available_width == old(self).available_width,
            final(self).space_width == old(self).space_width,
            final(line).capacity == old(line).capacity,
            stop ==> final(self).consumed == old(self).consumed,
            !stop ==> final(self).consumed == old(self).consumed || final(self).consumed == start,
            stop ==> old(line).chars@.len() > 0 && sat16(old(self).cursor_y + old(self).line_height) > old(self).max_y
                && final(self).lines@ == old(self).lines@ && final(line).chars@ == old(line).chars@,
            old(line).chars@.len() == 0 ==> !stop && final(self).lines@ == old(self).lines@ && final(self).consumed
                == old(self).consumed && final(line).chars@ == cs@.subrange(start as int, end as int).subrange(
                0,
                if old(line).capacity >= end - start { (end - start) as int } else { old(line).capacity as int },
            ),
            !stop && old(line).capacity > 0 && start < end ==> final(line).chars@.len() > 0,
            !stop && old(line).chars@.len() + pending_extra(pending_space, old(line).chars@) + (end - start) <= old(
                line,
            ).capacity ==> {
                ||| {
                    &&& old(line).chars@.len() > 0
                    &&& final(self).lines@.len() == old(self).lines@.len() + 1
                    &&& final(self).lines@.subrange(0, old(self).lines@.len() as int) == old(self).lines@
                    &&& final(self).lines@.last().chars@ == old(line).chars@
                    &&& final(self).consumed == start
                    &&& final(line).chars@ == cs@.subrange(start as int, end as int)
                }
                ||| {
                    &&& final(self).lines@ == old(self).lines@
                    &&& final(self).consumed == old(self).consumed
                    &&& final(line).chars@ == old(line).chars@ + (if pending_space && old(line).chars@.len() > 0 {
                        seq![' ']
                    } else {
                        Seq::<char>::empty()
                    }) + cs@.subrange(start as int, end as int)
                }
            },
    {
        let word = char_range(cs, start, end);
        let word_width = measure_chars(self.font, word);
        let fits = if line.is_empty() {
            word_width <= self.available_width
        } else {
            sat_add(sat_add(line.width, self.space_width), word_width) <= self.available_width
        };
        if !fits && !line.is_empty() {
            if self.flush(line, start) {
                return true;
            }
        }
        let ghost mid = line.chars@;
        if !line.is_empty() && pending_space {
            line.push_space(self.space_width);
        }
        let ghost spaced = line.chars@;
        line.push_chars(word, word_width);
        proof {
            if mid.len() + pending_extra(pending_space, mid) + (end - start) <= line.capacity {
                assert(word@.subrange(0, word@.len() as int) =~= word@);
                if mid.len() > 0 && pending_space {
                    assert(spaced == mid.push(' '));
                    assert(mid.push(' ') =~= mid + seq![' ']);
                } else {
                    assert(spaced == mid);
                    assert(mid + Seq::<char>::empty() =~= mid);
                }
            }
        }
        false
    }
}

/// Wraps `text` into lines from `(x, y)`, a word at a time, and lays out as many
/// lines as fit above `max_y`: a line is broken before a word that would pass
/// the panel width, whitespace runs collapse to one space, and a line feed ends
/// a line. Returns the lines drawn, where the next line would start and how
/// many bytes of `text` were consumed by them.
pub fn layout_wrapped_text_page(font: &Font, line_capacity: usize, x: u16, y: u16, text: &str, max_y: u16) -> (r:
    WrappedTextLayoutResult)
    requires
        font.wf(),
        text@.len() <= MAX_SHAPED_CHARS,
    ensures
        r.consumed <= utf8_len_of(text@),
        r.consumed <= text.spec_bytes().len(),
        r.next_y == sat16(y + r.lines@.len() * font.line_height),
        lines_placed(r.lines@, x, y, font.line_height, max_y),
        line_capacity > 0 ==> r.consumed == utf8_len_of(text@) || sat16(r.next_y + font.line_height) > max_y,
        line_capacity >= text@.len() ==> exists|k: int|
            #![trigger text@.subrange(0, k)]
            {
                &&& 0 <= k <= text@.len()
                &&& r.consumed == utf8_len_of(text@.subrange(0, k))
                &&& visible_chars(lines_chars(r.lines@)) == visible_chars(text@.subrange(0, k))
                &&& (k == text@.len() || sat16(r.next_y + font.line_height) > max_y)
            },
{
    proof {
        lemma_str_len(text);
    }
    let cs = chars_vec(text);
    let n = cs.len();
    let line_height = font.line_height_px();
    let avail = DISPLAY_WIDTH.saturating_sub(x) as i64;
    let space: [char; 1] = [' '];
    let space_width = measure_chars(font, space.as_slice());
    let mut w = Wrapper {
        font,
        x,
        y,
        max_y,
        line_height,
        available_width: avail,
        space_width,
        cursor_y: y,
        consumed: 0,
        lines: Vec::new(),
    };
    let mut line = WrappedLine::new(line_capacity);
    let mut word_start: Option<usize> = None;
    let mut after_word: usize = 0;
    let mut pending_space = false;
    let mut idx: usize = 0;
    proof {
        assert(lines_chars(w.lines@) =~= Seq::<char>::empty());
        assert(cs@.subrange(0, 0) =~= Seq::<char>::empty());
        assert(visible_chars(Seq::<char>::empty()) =~= Seq::<char>::empty());
    }
    while idx < n
        invariant
            w.wf(),
            w.font == font,
            font.wf(),
            w.x == x,
            w.y == y,
            w.max_y == max_y,
            w.line_height == font.line_height,
            n == cs@.len(),
            cs@ == text@,
            utf8_len_of(text@) == text.spec_bytes().len(),
            n <= MAX_SHAPED_CHARS,
            idx <= n,
            w.consumed <= idx,
            after_word <= idx,
            word_start matches Some(s) ==> s < after_word,
            word_start is Some ==> idx < n,
            line.capacity == line_capacity,
            line_capacity > 0 && word_start is None && line.chars@.len() == 0 ==> w.consumed == idx,
            word_start is Some ==> after_word == idx,
            word_start matches Some(s) ==> forall|j: int| s <= j < idx ==> !unicode_whitespace(#[trigger] cs@[j]),
            line_capacity >= n ==> {
                &&& visible_chars(lines_chars(w.lines@)) == visible_chars(cs@.subrange(0, w.consumed as int))
                &&& run_start(word_start, idx) >= w.consumed + line.chars@.len() + pending_extra(pending_space, line.chars@)
                &&& visible_chars(line.chars@) == visible_chars(cs@.subrange(w.consumed as int, run_start(word_start, idx)))
            },
        decreases n - idx,
    {
        let ch = cs[idx];
        let ghost c0 = w.consumed as int;
        let ghost lines0 = w.lines@;
        let ghost line0 = line.chars@;
        let ghost big = line_capacity >= n;
        proof {
            if big {
                lemma_visible_extend(cs@, c0, idx as int);
            }
        }
        if ch == '\n' {
            proof {
                assert(unicode_whitespace(ch));
            }
            match word_start {
                Some(start) => {
                    if w.place_word(&mut line, cs.as_slice(), start, after_word, pending_space) {
                        return finish(w, cs.as_slice());
                    }
                    proof {
                        if big {
                            self::lemma_place_keeps_text(cs@, lines0, w.lines@, line0, line.chars@, c0, w.consumed as int,
                                start as int, idx as int, pending_space);
                        }
                    }
                },
                None => {},
            }
            let ghost c1 = w.consumed as int;
            let ghost lines1 = w.lines@;
            let ghost line1 = line.chars@;
            pending_space = false;
            word_start = None;
            after_word = idx + 1;
            if w.flush(&mut line, idx + 1) {
                return finish(w, cs.as_slice());
            }
            proof {
                if big {
                    lemma_visible_extend(cs@, c1, idx as int);
                    lemma_visible_split(cs@, 0, c1, idx + 1);
                    if line1.len() > 0 {
                        lemma_lines_chars_push(lines1, w.lines@, w.lines@.last());
                        lemma_visible_concat(lines_chars(lines1), line1);
                    }
                    assert(cs@.subrange(idx + 1, idx + 1) =~= Seq::<char>::empty());
                }
            }
            idx += 1;
            continue;
        }
        if is_whitespace(ch) {
            match word_start {
                Some(start) => {
                    if w.place_word(&mut line, cs.as_slice(), start, after_word, pending_space) {
                        return finish(w, cs.as_slice());
                    }
                    proof {
                        if big {
                            self::lemma_place_keeps_text(cs@, lines0, w.lines@, line0, line.chars@, c0, w.consumed as int,
                                start as int, idx as int, pending_space);
                            lemma_visible_extend(cs@, w.consumed as int, idx as int);
                        }
                    }
                },
                None => {
                    if line.is_empty() {
                        w.consumed = idx + 1;
                        proof {
                            if big {
                                lemma_visible_split(cs@, 0, c0, idx + 1);
                                assert(cs@.subrange(idx + 1, idx + 1) =~= Seq::<char>::empty());
                            }
                        }
                    }
                },
            }
            pending_space = true;
            word_start = None;
            after_word = idx + 1;
            idx += 1;
            continue;
        }
        if word_start.is_none() {
            word_start = Some(idx);
        }
        after_word = idx + 1;
        if idx + 1 == n {
            let start = match word_start {
                Some(s) => s,
                None => idx,
            };
            word_start = None;
            if w.place_word(&mut line, cs.as_slice(), start, after_word, pending_space) {
                return finish(w, cs.as_slice());
            }
            proof {
                if big {
                    lemma_place_keeps_text(cs@, lines0, w.lines@, line0, line.chars@, c0, w.consumed as int,
                        start as int, idx + 1, pending_space);
                }
            }
            pending_space = false;
        }
        idx += 1;
    }
    let ghost c_end = w.consumed as int;
    let ghost lines_end = w.lines@;
    let ghost line_end = line.chars@;
    if !line.is_empty() {
        let stopped = w.flush(&mut line, n);
        proof {
            if line_capacity >= n && !stopped {
                lemma_lines_chars_push(lines_end, w.lines@, w.lines@.last());
                lemma_visible_concat(lines_chars(lines_end), line_end);
                lemma_visible_split(cs@, 0, c_end, n as int);
            }
        }
    }
    proof {
        assert(cs@.subrange(0, w.consumed as int) == text@.subrange(0, w.consumed as int));
        assert(line_capacity > 0 ==> w.consumed == n || sat16(w.cursor_y + w.line_height) > w.max_y);
    }
    finish(w, cs.as_slice())
}

/// The characters of `text`.
fn chars_vec(text: &str) -> (r: Vec<char>)
    ensures
        r@ == text@,
{
    crate::font::chars_of(text)
}

/// The result of a wrapping pass, with the consumed characters counted in bytes.
fn finish(w: Wrapper, cs: &[char]) -> (r: WrappedTextLayoutResult)
    requires
        w.wf(),
        w.consumed <= cs@.len(),
        cs@.len() <= MAX_SHAPED_CHARS,
    ensures
        r.consumed <= utf8_len_of(cs@),
        r.next_y == sat16(w.y + w.lines@.len() * w.line_height),
        r.lines@ == w.lines@,
        lines_placed(r.lines@, w.x, w.y, w.line_height, w.max_y),
        w.consumed == cs@.len() ==> r.consumed == utf8_len_of(cs@),
        r.consumed == utf8_len_of(cs@.subrange(0, w.consumed as int)),
{
    let consumed = utf8_prefix_len(cs, w.consumed);
    proof {
        lemma_utf8_len_prefix(cs@, w.consumed as int);
        assert(w.consumed == cs@.len() ==> cs@.subrange(0, w.consumed as int) =~= cs@);
    }
    WrappedTextLayoutResult { next_y: w.cursor_y, consumed, lines: w.lines }
}

/// A prefix never encodes to more bytes than the whole.
pub proof fn lemma_utf8_len_prefix(cs: Seq<char>, k: int)
    requires
        0 <= k <= cs.len(),
    ensures
        utf8_len_of(cs.subrange(0, k)) <= utf8_len_of(cs),
    decreases cs.len() - k,
{
    if k < cs.len() {
        lemma_utf8_len_prefix(cs, k + 1);
        assert(cs.subrange(0, k + 1).drop_last() =~= cs.subrange(0, k));
    } else {
        assert(cs.subrange(0, k) =~= cs);
    }
}


/// A character's UTF-8 length is that of its encoding.
proof fn lemma_char_len(c: char)
    ensures
        encode_scalar(c as u32).len() == char_utf8_len(c),
{
    broadcast use vstd::utf8::char_is_scalar;
    assert(vstd::utf8::is_scalar(c as u32));
}

/// Encoding one more character appends its encoding.
proof fn lemma_encode_push(a: Seq<char>, c: char)
    ensures
        encode_utf8(a.push(c)) == encode_utf8(a) + encode_scalar(c as u32),
    decreases a.len(),
{
    if a.len() > 0 {
        lemma_encode_push(a.drop_first(), c);
        assert(a.push(c).drop_first() =~= a.drop_first().push(c));
        assert(a.push(c)[0] == a[0]);
        assert((encode_scalar(a[0] as u32) + encode_utf8(a.drop_first())) + encode_scalar(c as u32) =~= encode_scalar(
            a[0] as u32,
        ) + (encode_utf8(a.drop_first()) + encode_scalar(c as u32)));
    } else {
        assert(a.push(c).drop_first() =~= Seq::<char>::empty());
        assert(a.push(c)[0] == c);
        assert(encode_utf8(Seq::<char>::empty()) =~= Seq::<u8>::empty());
        assert(encode_scalar(c as u32) + Seq::<u8>::empty() =~= encode_scalar(c as u32));
        assert(Seq::<u8>::empty() + encode_scalar(c as u32) =~= encode_scalar(c as u32));
    }
}

/// The UTF-8 length of characters is the length of their encoding.
pub proof fn lemma_utf8_len_matches(cs: Seq<char>)
    ensures
        utf8_len_of(cs) == encode_utf8(cs).len(),
    decreases cs.len(),
{
    if cs.len() > 0 {
        lemma_utf8_len_matches(cs.drop_last());
        lemma_encode_push(cs.drop_last(), cs.last());
        assert(cs.drop_last().push(cs.last()) =~= cs);
        lemma_char_len(cs.last());
    } else {
        assert(encode_utf8(cs) =~= Seq::<u8>::empty());
    }
}

/// Encoding two runs one after the other gives their encodings one after the other.
pub proof fn lemma_encode_concat(a: Seq<char>, b: Seq<char>)
    ensures
        encode_utf8(a + b) == encode_utf8(a) + encode_utf8(b),
    decreases b.len(),
{
    if b.len() == 0 {
        assert(a + b =~= a);
        assert(encode_utf8(b) =~= Seq::<u8>::empty());
        assert(encode_utf8(a) + encode_utf8(b) =~= encode_utf8(a));
    } else {
        let b0 = b.drop_last();
        lemma_encode_concat(a, b0);
        lemma_encode_push(a + b0, b.last());
        lemma_encode_push(b0, b.last());
        assert((a + b0).push(b.last()) =~= a + b);
        assert(b0.push(b.last()) =~= b);
        assert(encode_utf8(a) + encode_utf8(b0) + encode_scalar(b.last() as u32) =~= encode_utf8(a) + (encode_utf8(b0)
            + encode_scalar(b.last() as u32)));
    }
}

/// The encoding of the first `k` characters is the start of the encoding,
/// `utf8_len_of` of them long.
pub proof fn lemma_encode_prefix(cs: Seq<char>, k: int)
    requires
        0 <= k <= cs.len(),
    ensures
        encode_utf8(cs.subrange(0, k)) == encode_utf8(cs).subrange(0, utf8_len_of(cs.subrange(0, k)) as int),
{
    lemma_encode_concat(cs.subrange(0, k), cs.subrange(k, cs.len() as int));
    assert(cs.subrange(0, k) + cs.subrange(k, cs.len() as int) =~= cs);
    lemma_utf8_len_matches(cs.subrange(0, k));
    assert(encode_utf8(cs).subrange(0, utf8_len_of(cs.subrange(0, k)) as int) =~= encode_utf8(cs.subrange(0, k)));
}

/// The UTF-8 length of the characters of `text` is its length in bytes.
pub proof fn lemma_str_len(text: &str)
    ensures
        utf8_len_of(text@) == text.spec_bytes().len(),
{
    lemma_utf8_len_matches(text@);
}

} // verus!

