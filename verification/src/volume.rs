//! What the card's FAT volume needs beyond the card itself: the components of
//! a path to open one by one, a file path split into its directory and name,
//! the text of a short 8.3 name, listed entries from directory entries, and
//! the choice of which entries of a directory make up a page.
use vstd::prelude::*;
use vstd::string::StrSliceExecFns;
use vstd::string::StringSliceAdditionalSpecFns;
use vstd::utf8::encode_utf8;
use crate::fs::DirectoryPageInfo;
use crate::fs::FsError;
use crate::fs::LABEL_CAPACITY;
use crate::fs::ListedEntry;
use crate::fs::entry_kind;
use crate::fs::last_slash;
use crate::fs::last_slash_before;
use crate::fs::lemma_slash_literal;
use crate::fs::listed_entry_from_parts;
use crate::fs::trim_end_slashes;
use crate::fs::trim_end_slashes_str;

verus! {

/// The most entries a directory page holds.
pub const MAX_PAGE_ENTRIES: usize = 64;

/// `acc` with `c` added when it names something: not empty and not `.`.
pub open spec fn keep_component(acc: Seq<Seq<char>>, c: Seq<char>) -> Seq<Seq<char>> {
    if c.len() > 0 && c != seq!['.'] {
        acc.push(c)
    } else {
        acc
    }
}

/// The components kept among the first `i` characters of `s`, and where the
/// component being read starts.
pub open spec fn components_scan(s: Seq<char>, i: int) -> (Seq<Seq<char>>, int)
    decreases i,
{
    if i <= 0 {
        (Seq::empty(), 0)
    } else {
        let (acc, start) = components_scan(s, i - 1);
        if s[i - 1] == '/' {
            (keep_component(acc, s.subrange(start, i - 1)), i)
        } else {
            (acc, start)
        }
    }
}

/// The components of `path` between its `/`s, leaving out empty ones and `.`.
pub open spec fn path_components_spec(path: Seq<char>) -> Seq<Seq<char>> {
    let (acc, start) = components_scan(path, path.len() as int);
    keep_component(acc, path.subrange(start, path.len() as int))
}

proof fn lemma_scan_start(s: Seq<char>, i: int)
    requires
        0 <= i <= s.len(),
    ensures
        0 <= components_scan(s, i).1 <= i,
    decreases i,
{
    if i > 0 {
        lemma_scan_start(s, i - 1);
    }
}

fn push_kept<'a>(out: &mut Vec<&'a str>, c: &'a str)
    ensures
        final(out)@.len() == keep_component(old(out)@.map_values(|x: &str| x@), c@).len(),
        final(out)@.map_values(|x: &str| x@) == keep_component(old(out)@.map_values(|x: &str| x@), c@),
{
    proof {
        reveal_strlit(".");
    }
    let dot = c.unicode_len() == 1 && c.get_char(0) == '.';
    if c.unicode_len() > 0 && !dot {
        out.push(c);
        assert(c@ != seq!['.']);
        assert(out@.map_values(|x: &str| x@) =~= old(out)@.map_values(|x: &str| x@).push(c@));
    } else {
        assert(c@.len() == 0 || c@ =~= seq!['.']);
    }
}

/// The components of `path`, in order, without empty ones and `.`.
pub fn path_components<'a>(path: &'a str) -> (r: Vec<&'a str>)
    ensures
        r@.map_values(|x: &str| x@) == path_components_spec(path@),
{
    let n = path.unicode_len();
    let mut out: Vec<&'a str> = Vec::new();
    let mut start: usize = 0;
    let mut i: usize = 0;
    while i < n
        invariant
            i <= n,
            n == path@.len(),
            (out@.map_values(|x: &str| x@), start as int) == components_scan(path@, i as int),
        decreases n - i,
    {
        proof {
            lemma_scan_start(path@, i as int);
        }
        if path.get_char(i) == '/' {
            push_kept(&mut out, path.substring_char(start, i));
            start = i + 1;
        }
        i += 1;
    }
    proof {
        lemma_scan_start(path@, n as int);
    }
    push_kept(&mut out, path.substring_char(start, n));
    out
}

/// The directory and name of the file at `path`: the path without trailing
/// `/`s split at its last `/`, the root when nothing is before it; `None`
/// when there is no `/` or nothing after it.
pub open spec fn split_parent_spec(path: Seq<char>) -> Option<(Seq<char>, Seq<char>)> {
    let t = trim_end_slashes(path);
    let k = last_slash_before(t, t.len() as int);
    if k < 0 || k + 1 >= t.len() {
        None
    } else {
        Some((if k == 0 { seq!['/'] } else { t.subrange(0, k) }, t.subrange(k + 1, t.len() as int)))
    }
}

fn open_failed(message: &str) -> (r: FsError)
    ensures
        r matches FsError::OpenFailed(m) && m@ == message@,
{
    FsError::OpenFailed(message.to_owned())
}

/// Splits the path of a file into its directory and its name; an open error
/// when the path names no file.
pub fn split_parent_path<'a>(path: &'a str) -> (r: Result<(&'a str, &'a str), FsError>)
    ensures
        match r {
            Ok((parent, name)) => split_parent_spec(path@) == Some((parent@, name@)),
            Err(e) => split_parent_spec(path@) is None && e is OpenFailed,
        },
{
    proof {
        lemma_slash_literal();
    }
    let trimmed = trim_end_slashes_str(path);
    let k = match last_slash(trimmed) {
        Some(k) => k,
        None => return Err(open_failed("missing path component")),
    };
    let n = trimmed.unicode_len();
    if k + 1 >= n {
        return Err(open_failed("empty file name"));
    }
    let name = trimmed.substring_char(k + 1, n);
    let parent = if k == 0 { "/" } else { trimmed.substring_char(0, k) };
    Ok((parent, name))
}

/// The text of a short name: the base, then a `.` and the extension when
/// there is one.
pub open spec fn short_name_bytes(base: Seq<u8>, ext: Seq<u8>) -> Seq<u8> {
    if ext.len() == 0 {
        base
    } else {
        base + seq![0x2Eu8] + ext
    }
}

/// The text of the short name with `base` and `ext`; an error when either is
/// not UTF-8 or the name is longer than a label holds.
pub fn short_file_name_to_string(base: &[u8], ext: &[u8]) -> (r: Result<String, FsError>)
    ensures
        r matches Ok(s) ==> encode_utf8(s@) == short_name_bytes(base@, ext@) && short_name_bytes(base@, ext@).len()
            <= LABEL_CAPACITY,
        r matches Err(e) ==> (e == FsError::InvalidUtf8 || e == FsError::TooManyEntries),
        r matches Err(FsError::TooManyEntries) ==> short_name_bytes(base@, ext@).len() > LABEL_CAPACITY,
        r is Ok <==> (vstd::utf8::valid_utf8(base@) && vstd::utf8::valid_utf8(ext@) && short_name_bytes(base@, ext@).len()
            <= LABEL_CAPACITY),
{
    let base_text = match crate::epub::text_of(base) {
        Ok(t) => t,
        Err(_) => return Err(FsError::InvalidUtf8),
    };
    let ext_text = match crate::epub::text_of(ext) {
        Ok(t) => t,
        Err(_) => return Err(FsError::InvalidUtf8),
    };
    let mut bytes: Vec<u8> = Vec::new();
    let mut i: usize = 0;
    while i < base.len()
        invariant
            i <= base@.len(),
            bytes@ == base@.subrange(0, i as int),
        decreases base@.len() - i,
    {
        bytes.push(base[i]);
        i += 1;
    }
    if ext.len() > 0 {
        bytes.push(0x2E);
        let mut j: usize = 0;
        while j < ext.len()
            invariant
                j <= ext@.len(),
                bytes@ == base@ + seq![0x2Eu8] + ext@.subrange(0, j as int),
            decreases ext@.len() - j,
        {
            bytes.push(ext[j]);
            j += 1;
        }
    }
    assert(base@.subrange(0, base@.len() as int) =~= base@);
    assert(ext@.subrange(0, ext@.len() as int) =~= ext@);
    assert(bytes@ =~= short_name_bytes(base@, ext@));
    if bytes.len() > LABEL_CAPACITY {
        return Err(FsError::TooManyEntries);
    }
    let _ = base_text;
    let _ = ext_text;
    proof {
        broadcast use vstd::utf8::valid_utf8_concat;
        let dot = seq![0x2Eu8];
        vstd::utf8::encode_utf8_valid_utf8(seq!['.']);
        vstd::utf8::is_ascii_chars_encode_utf8(seq!['.']);
        assert(vstd::utf8::encode_utf8(seq!['.']) =~= dot);
        assert(vstd::utf8::valid_utf8(base@ + dot));
        assert(vstd::utf8::valid_utf8(base@ + dot + ext@));
    }
    match crate::epub::text_of(bytes.as_slice()) {
        Ok(t) => {
            proof {
                vstd::utf8::decode_utf8_encode_utf8(bytes@);
            }
            Ok(t)
        },
        Err(_) => Err(FsError::InvalidUtf8),
    }
}

/// A listed entry for a directory entry with the short name `base`.`ext`, its
/// long name when it has one, and whether it is a directory: labelled by the
/// long name, else the short one, with the short name as its card name.
pub fn listed_entry_from_dir_entry(base: &[u8], ext: &[u8], long_name: Option<&str>, is_directory: bool) -> (r: Result<
    ListedEntry,
    FsError,
>)
    ensures
        r matches Ok(e) ==> encode_utf8(e.fs_name@) == short_name_bytes(base@, ext@) && e.label@ == (match long_name {
            Some(n) => n@,
            None => e.fs_name@,
        }) && e.kind == entry_kind(encode_utf8(e.label@), encode_utf8(e.fs_name@), is_directory),
        r is Ok <==> (vstd::utf8::valid_utf8(base@) && vstd::utf8::valid_utf8(ext@) && short_name_bytes(base@, ext@).len()
            <= LABEL_CAPACITY && (long_name matches Some(n) ==> n.spec_bytes().len() <= LABEL_CAPACITY)),
{
    let fs_name = match short_file_name_to_string(base, ext) {
        Ok(s) => s,
        Err(e) => return Err(e),
    };
    let label: &str = match long_name {
        Some(n) => n,
        None => fs_name.as_str(),
    };
    listed_entry_from_parts(label, fs_name.as_str(), is_directory)
}

/// Adds `entry` while `entries` holds fewer than `capacity`; `None` when full.
pub fn push_listed_entry(entries: &mut Vec<ListedEntry>, capacity: usize, entry: ListedEntry) -> (r: Option<()>)
    ensures
        r is Some <==> old(entries)@.len() < capacity,
        final(entries)@ == (if old(entries)@.len() < capacity { old(entries)@.push(entry) } else { old(entries)@ }),
{
    if entries.len() < capacity {
        entries.push(entry);
        Some(())
    } else {
        None
    }
}

/// Which entries of a directory walk make up the page from `page_start` of
/// `page_size` entries: long-name records are passed over, the first
/// `page_start` entries skipped, then entries that convert are taken until the
/// page is full, and any entry after that shows there is a next page.
#[derive(Debug, Clone, Copy, PartialEq, Eq, Structural)]
pub struct DirectoryPager {
    pub page_start: usize,
    pub page_size: usize,
    pub skipped: usize,
    pub collected: usize,
    pub has_next: bool,
}

impl DirectoryPager {
    /// A walk for the page from `page_start`, with `page_size` held between 1
    /// and the page capacity.
    pub fn new(page_start: usize, page_size: usize) -> (r: Self)
        ensures
            r.page_start == page_start,
            r.page_size == (if page_size > MAX_PAGE_ENTRIES { MAX_PAGE_ENTRIES } else if page_size < 1 { 1 } else {
                page_size
            }),
            r.skipped == 0,
            r.collected == 0,
            !r.has_next,
    {
        let clamped = if page_size > MAX_PAGE_ENTRIES { MAX_PAGE_ENTRIES } else if page_size < 1 { 1 } else { page_size };
        DirectoryPager { page_start, page_size: clamped, skipped: 0, collected: 0, has_next: false }
    }

    /// One entry of the walk: whether to take it onto the page. `converted`
    /// tells whether the entry made a listed entry.
    pub fn visit(&mut self, is_lfn: bool, converted: bool) -> (r: bool)
        ensures
            r == (!is_lfn && old(self).skipped >= old(self).page_start && old(self).collected < old(self).page_size
                && converted),
            final(self).page_start == old(self).page_start,
            final(self).page_size == old(self).page_size,
            final(self).skipped == (if !is_lfn && old(self).skipped < old(self).page_start {
                old(self).skipped + 1
            } else {
                old(self).skipped as int
            }),
            final(self).collected == old(self).collected + (if r { 1int } else { 0int }),
            final(self).has_next == (old(self).has_next || (!is_lfn && old(self).skipped >= old(self).page_start
                && old(self).collected >= old(self).page_size)),
    {
        if is_lfn {
            return false;
        }
        if self.skipped < self.page_start {
            self.skipped = self.skipped + 1;
            return false;
        }
        if self.collected >= self.page_size {
            self.has_next = true;
            return false;
        }
        if converted {
            self.collected = self.collected + 1;
            true
        } else {
            false
        }
    }

    /// Where the page lies: its start, whether pages come before it, and
    /// whether the walk found a next one.
    pub fn info(&self) -> (r: DirectoryPageInfo)
        ensures
            r == (DirectoryPageInfo {
                page_start: self.page_start,
                has_prev: self.page_start > 0,
                has_next: self.has_next,
            }),
    {
        DirectoryPageInfo { page_start: self.page_start, has_prev: self.page_start > 0, has_next: self.has_next }
    }
}

} // verus!
