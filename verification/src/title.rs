//! Spotting a chapter that opens by repeating the title already set above it:
//! while the chapter's opening text reads like the title (letters and digits
//! lowercased, other runs as single spaces), its events are held back; when it
//! has said the whole title they are dropped, and as soon as it departs from
//! the title they are let through.
use vstd::prelude::*;
use vstd::string::StringSliceAdditionalSpecFns;
use crate::font::chars_of;
use crate::text::char_utf8_len;
use crate::text::is_whitespace;
use crate::text::unicode_whitespace;
use crate::text::utf8_len;
use crate::text::utf8_len_of;

verus! {

/// The bytes a held text chunk, the title and the candidate can hold.
pub const DUPLICATE_TITLE_PROBE_TEXT_LEN: usize = 96;
/// The events the probe can hold back.
pub const DUPLICATE_TITLE_PROBE_EVENTS: usize = 12;

/// Whether `c` is alphanumeric, as `char::is_alphanumeric` decides.
pub uninterp spec fn unicode_alphanumeric(c: char) -> bool;

/// `char::is_alphanumeric`: whether `c` is a Unicode letter or number. ASCII
/// letters and digits are; the ASCII space and punctuation are not.
#[verifier::external_body]
fn is_alphanumeric(c: char) -> (r: bool)
    ensures
        r == unicode_alphanumeric(c),
        (('a' <= c <= 'z') || ('A' <= c <= 'Z') || ('0' <= c <= '9')) ==> r,
        (c == ' ' || ascii_punctuation(c)) ==> !r,
{
    c.is_alphanumeric()
}

/// ASCII punctuation: the printable ASCII characters that are neither letters,
/// digits nor the space.
pub open spec fn ascii_punctuation(c: char) -> bool {
    ||| ('!' <= c && c <= '/')
    ||| (':' <= c && c <= '@')
    ||| ('[' <= c && c <= '`')
    ||| ('{' <= c && c <= '~')
}

/// `c` with an ASCII capital lowered.
pub open spec fn ascii_lower(c: char) -> char {
    if 'A' <= c && c <= 'Z' {
        ((c as u32) + 32) as char
    } else {
        c
    }
}

/// `out` with `c` appended when the bytes allow.
pub open spec fn push_capped(out: Seq<char>, c: char) -> Seq<char> {
    if utf8_len_of(out) + char_utf8_len(c) <= DUPLICATE_TITLE_PROBE_TEXT_LEN {
        out.push(c)
    } else {
        out
    }
}

/// One character of normalizing: a letter or digit goes in lowercased, after
/// a space when a separator was seen since the last one; whitespace and ASCII
/// punctuation after something mark a separator; anything else is skipped.
pub open spec fn normalize_step(out: Seq<char>, pending: bool, c: char) -> (Seq<char>, bool) {
    if unicode_alphanumeric(c) {
        let spaced = if pending && out.len() > 0 { push_capped(out, ' ') } else { out };
        (push_capped(spaced, ascii_lower(c)), false)
    } else if (unicode_whitespace(c) || ascii_punctuation(c)) && out.len() > 0 {
        (out, true)
    } else {
        (out, pending)
    }
}

/// Normalizing `text` onto `out`, with whether a separator is pending.
pub open spec fn normalize_scan(out: Seq<char>, text: Seq<char>) -> (Seq<char>, bool)
    decreases text.len(),
{
    if text.len() == 0 {
        (out, false)
    } else {
        let (o, p) = normalize_scan(out, text.drop_last());
        normalize_step(o, p, text.last())
    }
}

/// `text` normalized onto `out`.
pub open spec fn normalized_append(out: Seq<char>, text: Seq<char>) -> Seq<char> {
    normalize_scan(out, text).0
}

/// `s` without its trailing whitespace.
pub open spec fn trim_end_ws(s: Seq<char>) -> Seq<char>
    decreases s.len(),
{
    if s.len() > 0 && unicode_whitespace(s.last()) {
        trim_end_ws(s.drop_last())
    } else {
        s
    }
}

/// Whether `candidate`, trailing whitespace aside, begins `title`.
pub open spec fn title_prefix(title: Seq<char>, candidate: Seq<char>) -> bool {
    let t = trim_end_ws(candidate);
    t.len() <= title.len() && title.subrange(0, t.len() as int) == t
}

/// An event held back while the chapter's opening might repeat its title.
#[derive(Debug, Clone)]
pub enum BufferedChapterEvent {
    Text(String),
    LineBreak,
    ParagraphBreak,
}

/// The title drawn above a chapter, normalized, what the chapter has said so
/// far, normalized, and the events held back meanwhile.
pub struct DuplicateTitleProbe {
    pub normalized_title: Vec<char>,
    pub candidate: Vec<char>,
    pub buffered: Vec<BufferedChapterEvent>,
}

fn push_capped_exec(out: &mut Vec<char>, c: char)
    ensures
        final(out)@ == push_capped(old(out)@, c),
{
    let mut used: usize = 0;
    let mut i: usize = 0;
    while i < out.len()
        invariant
            i <= out@.len(),
            used == utf8_len_of(out@.subrange(0, i as int)),
            used <= DUPLICATE_TITLE_PROBE_TEXT_LEN + 4,
        decreases out@.len() - i,
    {
        proof {
            assert(out@.subrange(0, i + 1).drop_last() =~= out@.subrange(0, i as int));
        }
        if used > DUPLICATE_TITLE_PROBE_TEXT_LEN {
            proof {
                lemma_prefix_bytes_grow(out@, i as int);
            }
            return;
        }
        used = used + utf8_len(out[i]);
        i += 1;
    }
    assert(out@.subrange(0, out@.len() as int) =~= out@);
    if used + utf8_len(c) <= DUPLICATE_TITLE_PROBE_TEXT_LEN {
        out.push(c);
    }
}

/// A prefix takes no more bytes than the whole.
proof fn lemma_prefix_bytes_grow(s: Seq<char>, i: int)
    requires
        0 <= i <= s.len(),
    ensures
        utf8_len_of(s.subrange(0, i)) <= utf8_len_of(s),
    decreases s.len() - i,
{
    if i < s.len() {
        lemma_prefix_bytes_grow(s, i + 1);
        assert(s.subrange(0, i + 1).drop_last() =~= s.subrange(0, i));
    } else {
        assert(s.subrange(0, i) =~= s);
    }
}

fn lower_ascii(c: char) -> (r: char)
    ensures
        r == ascii_lower(c),
{
    if 'A' <= c && c <= 'Z' {
        let b: u8 = ((c as u32) + 32) as u8;
        b as char
    } else {
        c
    }
}

fn is_ascii_punctuation(c: char) -> (r: bool)
    ensures
        r == ascii_punctuation(c),
{
    ('!' <= c && c <= '/') || (':' <= c && c <= '@') || ('[' <= c && c <= '`') || ('{' <= c && c <= '~')
}

/// Normalizes `text` onto `out`.
pub fn append_normalized_title_text(out: &mut Vec<char>, text: &str)
    ensures
        final(out)@ == normalized_append(old(out)@, text@),
{
    let cs = chars_of(text);
    let mut pending = false;
    let mut i: usize = 0;
    while i < cs.len()
        invariant
            i <= cs@.len(),
            cs@ == text@,
            (out@, pending) == normalize_scan(old(out)@, cs@.subrange(0, i as int)),
        decreases cs@.len() - i,
    {
        let c = cs[i];
        proof {
            assert(cs@.subrange(0, i + 1).drop_last() =~= cs@.subrange(0, i as int));
        }
        if is_alphanumeric(c) {
            if pending && out.len() > 0 {
                push_capped_exec(out, ' ');
            }
            push_capped_exec(out, lower_ascii(c));
            pending = false;
        } else if (is_whitespace(c) || is_ascii_punctuation(c)) && out.len() > 0 {
            pending = true;
        }
        i += 1;
    }
    assert(cs@.subrange(0, cs@.len() as int) =~= text@);
}

impl DuplicateTitleProbe {
    /// A probe for the chapter titled `title`, nothing heard yet.
    pub fn new(title: &str) -> (r: Self)
        ensures
            r.normalized_title@ == normalized_append(Seq::empty(), title@),
            r.candidate@.len() == 0,
            r.buffered@.len() == 0,
    {
        let mut normalized_title: Vec<char> = Vec::new();
        append_normalized_title_text(&mut normalized_title, title);
        DuplicateTitleProbe { normalized_title, candidate: Vec::new(), buffered: Vec::new() }
    }

    /// Nothing of the chapter's text has been heard yet.
    pub fn is_empty(&self) -> (r: bool)
        ensures
            r == (self.candidate@.len() == 0),
    {
        self.candidate.len() == 0
    }

    fn trimmed_candidate_len(&self) -> (r: usize)
        ensures
            r == trim_end_ws(self.candidate@).len(),
    {
        let mut n = self.candidate.len();
        assert(self.candidate@.subrange(0, n as int) =~= self.candidate@);
        while n > 0 && is_whitespace(self.candidate[n - 1])
            invariant
                n <= self.candidate@.len(),
                trim_end_ws(self.candidate@) == trim_end_ws(self.candidate@.subrange(0, n as int)),
            decreases n,
        {
            proof {
                assert(self.candidate@.subrange(0, n as int).drop_last() =~= self.candidate@.subrange(0, n - 1));
            }
            n -= 1;
        }
        proof {
            let s = self.candidate@.subrange(0, n as int);
            if n > 0 {
                assert(s.last() == self.candidate@[n - 1]);
            }
        }
        n
    }

    /// What has been heard, trailing whitespace aside, begins the title.
    pub fn matches_prefix(&self) -> (r: bool)
        ensures
            r == title_prefix(self.normalized_title@, self.candidate@),
    {
        let n = self.trimmed_candidate_len();
        if n > self.normalized_title.len() {
            return false;
        }
        let mut i: usize = 0;
        while i < n
            invariant
                i <= n,
                n <= self.normalized_title@.len(),
                n == trim_end_ws(self.candidate@).len(),
                forall|k: int| 0 <= k < i ==> self.normalized_title@[k] == trim_end_ws(self.candidate@)[k],
            decreases n - i,
        {
            proof {
                lemma_trim_is_prefix(self.candidate@);
            }
            if self.normalized_title[i] != self.candidate[i] {
                assert(self.normalized_title@.subrange(0, n as int)[i as int] != trim_end_ws(self.candidate@)[i as int]);
                return false;
            }
            i += 1;
        }
        assert(self.normalized_title@.subrange(0, n as int) =~= trim_end_ws(self.candidate@));
        true
    }

    /// What has been heard, trailing whitespace aside, is the whole title.
    pub fn is_complete(&self) -> (r: bool)
        ensures
            r == (trim_end_ws(self.candidate@) == self.normalized_title@),
    {
        let n = self.trimmed_candidate_len();
        if n != self.normalized_title.len() {
            return false;
        }
        let prefix = self.matches_prefix();
        assert(self.normalized_title@.subrange(0, n as int) =~= self.normalized_title@);
        prefix
    }

    fn hold(&mut self, event: BufferedChapterEvent)
        ensures
            final(self).normalized_title == old(self).normalized_title,
            final(self).candidate == old(self).candidate,
            final(self).buffered@ == (if old(self).buffered@.len() < DUPLICATE_TITLE_PROBE_EVENTS {
                old(self).buffered@.push(event)
            } else {
                old(self).buffered@
            }),
    {
        if self.buffered.len() < DUPLICATE_TITLE_PROBE_EVENTS {
            self.buffered.push(event);
        }
    }

    /// Holds back a text chunk (as empty text when it is longer than a held
    /// chunk can be), adds it to what has been heard, and tells whether that
    /// still begins the title.
    pub fn push_text(&mut self, text: &str) -> (r: bool)
        ensures
            final(self).normalized_title == old(self).normalized_title,
            final(self).candidate@ == normalized_append(old(self).candidate@, text@),
            final(self).buffered@.len() == (if old(self).buffered@.len() < DUPLICATE_TITLE_PROBE_EVENTS {
                old(self).buffered@.len() + 1
            } else {
                old(self).buffered@.len() + 0
            }),
            forall|k: int| 0 <= k < old(self).buffered@.len() ==> #[trigger] final(self).buffered@[k] == old(self).buffered@[k],
            old(self).buffered@.len() < DUPLICATE_TITLE_PROBE_EVENTS ==> (final(self).buffered@.last() matches BufferedChapterEvent::Text(s)
                && s@ == (if text.spec_bytes().len() <= DUPLICATE_TITLE_PROBE_TEXT_LEN { text@ } else { Seq::<char>::empty() })),
            r == title_prefix(final(self).normalized_title@, final(self).candidate@),
    {
        let chunk = if text.as_bytes().len() <= DUPLICATE_TITLE_PROBE_TEXT_LEN { text.to_owned() } else { String::new() };
        self.hold(BufferedChapterEvent::Text(chunk));
        append_normalized_title_text(&mut self.candidate, text);
        self.matches_prefix()
    }

    /// Holds back a break, ends what has been heard with a space, and tells
    /// whether that still begins the title.
    pub fn push_break(&mut self, paragraph: bool) -> (r: bool)
        ensures
            final(self).normalized_title == old(self).normalized_title,
            final(self).candidate@ == (if old(self).candidate@.len() > 0 && old(self).candidate@.last() != ' ' {
                push_capped(old(self).candidate@, ' ')
            } else {
                old(self).candidate@
            }),
            final(self).buffered@ == (if old(self).buffered@.len() < DUPLICATE_TITLE_PROBE_EVENTS {
                old(self).buffered@.push(
                    if paragraph { BufferedChapterEvent::ParagraphBreak } else { BufferedChapterEvent::LineBreak },
                )
            } else {
                old(self).buffered@
            }),
            r == title_prefix(final(self).normalized_title@, final(self).candidate@),
    {
        self.hold(if paragraph { BufferedChapterEvent::ParagraphBreak } else { BufferedChapterEvent::LineBreak });
        let n = self.candidate.len();
        if n > 0 && self.candidate[n - 1] != ' ' {
            push_capped_exec(&mut self.candidate, ' ');
        }
        self.matches_prefix()
    }

    /// Takes the held events, leaving none.
    pub fn take_buffered(&mut self) -> (r: Vec<BufferedChapterEvent>)
        ensures
            r@ == old(self).buffered@,
            final(self).buffered@.len() == 0,
            final(self).candidate == old(self).candidate,
            final(self).normalized_title == old(self).normalized_title,
    {
        let mut taken: Vec<BufferedChapterEvent> = Vec::new();
        std::mem::swap(&mut taken, &mut self.buffered);
        taken
    }
}

/// Trimming keeps a prefix.
proof fn lemma_trim_is_prefix(s: Seq<char>)
    ensures
        trim_end_ws(s).len() <= s.len(),
        forall|k: int| 0 <= k < trim_end_ws(s).len() ==> #[trigger] trim_end_ws(s)[k] == s[k],
    decreases s.len(),
{
    if s.len() > 0 && unicode_whitespace(s.last()) {
        lemma_trim_is_prefix(s.drop_last());
    }
}

} // verus!
