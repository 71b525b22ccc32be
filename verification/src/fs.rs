//! Paths on the card and the entries of a directory listing.
use vstd::prelude::*;
use vstd::utf8::encode_utf8;
use vstd::string::StrSliceExecFns;
use vstd::string::StringExecFns;
use vstd::string::StringSliceAdditionalSpecFns;
use crate::browser::EntryKind;

verus! {

/// Longest path, in UTF-8 bytes.
pub const PATH_CAPACITY: usize = 256;
/// Longest entry label or file name, in UTF-8 bytes.
pub const LABEL_CAPACITY: usize = 96;
/// Most entries listed on one directory page.
pub const MAX_ENTRIES: usize = 24;

/// Why a path could not be built.
#[derive(Debug, Clone, Copy, PartialEq, Eq, Structural)]
pub enum PathError {
    TooLong,
}

/// The UTF-8 length of the characters `s`.
pub open spec fn utf8_len(s: Seq<char>) -> nat {
    encode_utf8(s).len()
}

/// The position of the last `/` in `n` before `j`, or -1.
pub open spec fn last_slash_before(n: Seq<char>, j: int) -> int
    decreases j,
{
    if j <= 0 {
        -1
    } else if n[j - 1] == '/' {
        j - 1
    } else {
        last_slash_before(n, j - 1)
    }
}

/// The normalized path after one more component `c`: empty components and `.`
/// change nothing, `..` drops the last component (never above the root), and any
/// other name is appended after a `/`; `None` when the path outgrows the capacity.
pub open spec fn component_step(n: Seq<char>, c: Seq<char>) -> Option<Seq<char>> {
    if c.len() == 0 || c == seq!['.'] {
        Some(n)
    } else if c == seq!['.', '.'] {
        if n == seq!['/'] {
            Some(n)
        } else {
            let k = last_slash_before(n, n.len() as int);
            if k < 0 {
                Some(n)
            } else if k == 0 {
                Some(seq!['/'])
            } else {
                Some(n.subrange(0, k))
            }
        }
    } else if n != seq!['/'] && n.len() > 0 {
        if utf8_len(n) + 1 > PATH_CAPACITY {
            None
        } else if utf8_len(n.push('/')) + utf8_len(c) > PATH_CAPACITY {
            None
        } else {
            Some(n.push('/') + c)
        }
    } else if utf8_len(n) + utf8_len(c) > PATH_CAPACITY {
        None
    } else {
        Some(n + c)
    }
}

/// The path after the components of `p` from the one that starts at `cs`, whose
/// characters before `i` hold no `/`.
pub open spec fn normalize_scan(p: Seq<char>, cs: int, i: int, n: Seq<char>) -> Option<Seq<char>>
    decreases p.len() - i,
{
    if i < 0 || cs < 0 || cs > i || i > p.len() {
        None
    } else if i == p.len() {
        component_step(n, p.subrange(cs, i))
    } else if p[i] == '/' {
        match component_step(n, p.subrange(cs, i)) {
            Some(n2) => normalize_scan(p, i + 1, i + 1, n2),
            None => None,
        }
    } else {
        normalize_scan(p, cs, i + 1, n)
    }
}

/// The normalized form of the path `p`: `/`-separated, without empty or `.`
/// components, with `..` applied, and `/` for nothing; `None` when too long.
pub open spec fn normalize_spec(p: Seq<char>) -> Option<Seq<char>> {
    let absolute = p.len() > 0 && p[0] == '/';
    let start = if absolute { seq!['/'] } else { Seq::<char>::empty() };
    match normalize_scan(p, 0, 0, start) {
        Some(n) => {
            let n1 = if n.len() == 0 { seq!['/'] } else { n };
            if absolute && !(n1.len() > 0 && n1[0] == '/') {
                if utf8_len(n1) + 1 > PATH_CAPACITY {
                    None
                } else {
                    Some(seq!['/'] + n1)
                }
            } else {
                Some(n1)
            }
        },
        None => None,
    }
}

pub proof fn lemma_slash_literal()
    ensures
        "/"@ == seq!['/'],
        "/".spec_bytes().len() == 1,
{
    reveal_strlit("/");
    assert(vstd::utf8::is_ascii_chars("/"@));
    vstd::utf8::is_ascii_chars_encode_utf8("/"@);
}

/// Whether `s` is exactly the one character `c`.
fn is_single(s: &str, c: char) -> (r: bool)
    ensures
        r == (s@ == seq![c]),
{
    if s.unicode_len() == 1 {
        let first = s.get_char(0);
        if first == c {
            assert(s@ =~= seq![c]);
            return true;
        }
    }
    false
}

/// Whether `s` is exactly `..`.
fn is_dot_dot(s: &str) -> (r: bool)
    ensures
        r == (s@ == seq!['.', '.']),
{
    if s.unicode_len() == 2 {
        if s.get_char(0) == '.' && s.get_char(1) == '.' {
            assert(s@ =~= seq!['.', '.']);
            return true;
        }
    }
    false
}

/// The position of the last `/` in `s`, if any.
pub fn last_slash(s: &str) -> (r: Option<usize>)
    ensures
        match r {
            Some(k) => k as int == last_slash_before(s@, s@.len() as int) && k < s@.len(),
            None => last_slash_before(s@, s@.len() as int) < 0,
        },
{
    let n = s.unicode_len();
    let mut j = n;
    while j > 0
        invariant
            j <= n,
            n == s@.len(),
            last_slash_before(s@, n as int) == last_slash_before(s@, j as int),
        decreases j,
    {
        if s.get_char(j - 1) == '/' {
            return Some(j - 1);
        }
        j -= 1;
    }
    None
}

/// Applies one component to the path being built.
fn push_component(out: &mut String, c: &str) -> (r: bool)
    ensures
        r == component_step(old(out)@, c@) is Some,
        r ==> component_step(old(out)@, c@) == Some(final(out)@),
{
    proof {
        lemma_slash_literal();
    }
    if c.unicode_len() == 0 || is_single(c, '.') {
        return true;
    }
    if is_dot_dot(c) {
        if is_single(out.as_str(), '/') {
            return true;
        }
        match last_slash(out.as_str()) {
            None => {
                return true;
            },
            Some(k) => {
                if k == 0 {
                    *out = "/".to_owned();
                } else {
                    *out = out.as_str().substring_char(0, k).to_owned();
                }
                return true;
            },
        }
    }
    if !is_single(out.as_str(), '/') && out.as_str().unicode_len() > 0 {
        if out.as_str().as_bytes().len() >= PATH_CAPACITY {
            return false;
        }
        out.append("/");
        assert(out@ =~= old(out)@.push('/'));
    }
    let ghost mid = out@;
    assert(mid == (if old(out)@ != seq!['/'] && old(out)@.len() > 0 { old(out)@.push('/') } else { old(out)@ }));
    let used = out.as_str().as_bytes().len();
    if used > PATH_CAPACITY || c.as_bytes().len() > PATH_CAPACITY - used {
        return false;
    }
    out.append(c);
    assert(out@ =~= mid + c@);
    assert(c@.len() != 0);
    assert(c@ != seq!['.']);
    assert(c@ != seq!['.', '.']);
    assert(component_step(old(out)@, c@) == Some(out@));
    true
}

/// The normalized form of `path`: no empty or `.` components, `..` applied
/// (never above the root), `/` for an empty result; `TooLong` once it would
/// exceed the path capacity.
pub fn normalize_path(path: &str) -> (r: Result<String, PathError>)
    ensures
        match r {
            Ok(s) => normalize_spec(path@) == Some(s@),
            Err(e) => normalize_spec(path@) is None && e == PathError::TooLong,
        },
{
    proof {
        lemma_slash_literal();
    }
    let n = path.unicode_len();
    let absolute = n > 0 && path.get_char(0) == '/';
    let mut out = String::new();
    if absolute {
        out.append("/");
    }
    let ghost start = out@;
    let mut cs: usize = 0;
    let mut i: usize = 0;
    while i < n
        invariant
            n == path@.len(),
            cs <= i <= n,
            start == (if path@.len() > 0 && path@[0] == '/' { seq!['/'] } else { Seq::<char>::empty() }),
            normalize_scan(path@, cs as int, i as int, out@) == normalize_scan(path@, 0, 0, start),
        decreases n - i,
    {
        if path.get_char(i) == '/' {
            let comp = path.substring_char(cs, i);
            if !push_component(&mut out, comp) {
                return Err(PathError::TooLong);
            }
            cs = i + 1;
        }
        i += 1;
    }
    let comp = path.substring_char(cs, n);
    if !push_component(&mut out, comp) {
        return Err(PathError::TooLong);
    }
    if out.as_str().unicode_len() == 0 {
        out = "/".to_owned();
    }
    if absolute && !(out.as_str().unicode_len() > 0 && out.as_str().get_char(0) == '/') {
        if out.as_str().as_bytes().len() >= PATH_CAPACITY {
            return Err(PathError::TooLong);
        }
        let mut prefixed = "/".to_owned();
        prefixed.append(out.as_str());
        assert(prefixed@ =~= seq!['/'] + out@);
        return Ok(prefixed);
    }
    Ok(out)
}

/// `s` without its trailing `/` characters.
pub open spec fn trim_end_slashes(s: Seq<char>) -> Seq<char>
    decreases s.len(),
{
    if s.len() > 0 && s.last() == '/' {
        trim_end_slashes(s.drop_last())
    } else {
        s
    }
}

/// `s` without its leading `/` characters.
pub open spec fn trim_start_slashes(s: Seq<char>) -> Seq<char>
    decreases s.len(),
{
    if s.len() > 0 && s[0] == '/' {
        trim_start_slashes(s.drop_first())
    } else {
        s
    }
}

/// `parent` and `child` joined by one `/`, made absolute, before normalization;
/// `None` when it outgrows the path capacity.
pub open spec fn joined_path(parent: Seq<char>, child: Seq<char>) -> Option<Seq<char>> {
    let p0 = if !(parent.len() > 0 && parent[0] == '/') { seq!['/'] } else { Seq::<char>::empty() };
    let pt = trim_end_slashes(parent);
    let piece = if pt.len() == 0 { seq!['/'] } else { pt };
    if utf8_len(p0) + utf8_len(piece) > PATH_CAPACITY {
        None
    } else {
        let p1 = p0 + piece;
        let needs_slash = !(p1.len() > 0 && p1.last() == '/');
        if needs_slash && utf8_len(p1) + 1 > PATH_CAPACITY {
            None
        } else {
            let p2 = if needs_slash { p1.push('/') } else { p1 };
            let ct = trim_start_slashes(child);
            if utf8_len(p2) + utf8_len(ct) > PATH_CAPACITY {
                None
            } else {
                Some(p2 + ct)
            }
        }
    }
}

/// The normalized path of `child` inside `parent`.
pub open spec fn join_child_spec(parent: Seq<char>, child: Seq<char>) -> Option<Seq<char>> {
    match joined_path(parent, child) {
        Some(p) => normalize_spec(p),
        None => None,
    }
}

/// `s` without its trailing `/` characters.
pub fn trim_end_slashes_str(s: &str) -> (r: &str)
    ensures
        r@ == trim_end_slashes(s@),
{
    let n = s.unicode_len();
    let mut j = n;
    assert(s@.subrange(0, n as int) =~= s@);
    while j > 0 && s.get_char(j - 1) == '/'
        invariant
            j <= n,
            n == s@.len(),
            trim_end_slashes(s@) == trim_end_slashes(s@.subrange(0, j as int)),
        decreases j,
    {
        let ghost sub = s@.subrange(0, j as int);
        assert(sub.drop_last() =~= s@.subrange(0, j - 1));
        j -= 1;
    }
    s.substring_char(0, j)
}

/// `s` without its leading `/` characters.
pub fn trim_start_slashes_str(s: &str) -> (r: &str)
    ensures
        r@ == trim_start_slashes(s@),
{
    let n = s.unicode_len();
    let mut k: usize = 0;
    assert(s@.subrange(0, n as int) =~= s@);
    while k < n && s.get_char(k) == '/'
        invariant
            k <= n,
            n == s@.len(),
            trim_start_slashes(s@) == trim_start_slashes(s@.subrange(k as int, n as int)),
        decreases n - k,
    {
        let ghost sub = s@.subrange(k as int, n as int);
        assert(sub.drop_first() =~= s@.subrange(k + 1, n as int));
        k += 1;
    }
    s.substring_char(k, n)
}

/// The normalized path of `child` inside `parent`: joined by one `/`, made
/// absolute; `TooLong` once it would exceed the path capacity.
pub fn join_child_path(parent: &str, child: &str) -> (r: Result<String, PathError>)
    ensures
        match r {
            Ok(s) => join_child_spec(parent@, child@) == Some(s@),
            Err(e) => join_child_spec(parent@, child@) is None && e == PathError::TooLong,
        },
{
    match crate::sd_path::join_child_path(parent, child) {
        Ok(path) => normalize_path(path.as_str()),
        Err(e) => Err(e),
    }
}

/// The lower case of an ASCII letter; other bytes unchanged.
pub open spec fn ascii_lower(b: u8) -> u8 {
    if 0x41 <= b <= 0x5a {
        (b + 0x20) as u8
    } else {
        b
    }
}

/// The position of the last `.` in `b` before `j`, or -1.
pub open spec fn last_dot_before(b: Seq<u8>, j: int) -> int
    decreases j,
{
    if j <= 0 {
        -1
    } else if b[j - 1] == 0x2e {
        j - 1
    } else {
        last_dot_before(b, j - 1)
    }
}

/// Whether the name `b` ends in the extension `epub`, in any letter case: the
/// text after its last `.` is exactly those four letters.
pub open spec fn is_epub_name(b: Seq<u8>) -> bool {
    let k = last_dot_before(b, b.len() as int);
    &&& k >= 0
    &&& b.len() == k + 5
    &&& ascii_lower(b[k + 1]) == 0x65
    &&& ascii_lower(b[k + 2]) == 0x70
    &&& ascii_lower(b[k + 3]) == 0x75
    &&& ascii_lower(b[k + 4]) == 0x62
}

fn ascii_lower_exec(b: u8) -> (r: u8)
    ensures
        r == ascii_lower(b),
{
    if b >= 0x41 && b <= 0x5a {
        b + 0x20
    } else {
        b
    }
}

/// Whether `label` names an EPUB file: its extension is `epub` in any letter case.
pub fn is_epub_label(label: &str) -> (r: bool)
    ensures
        r == is_epub_name(label.spec_bytes()),
{
    let b = label.as_bytes();
    let mut j = b.len();
    while j > 0 && b[j - 1] != 0x2eu8
        invariant
            j <= b@.len(),
            last_dot_before(b@, b@.len() as int) == last_dot_before(b@, j as int),
        decreases j,
    {
        j -= 1;
    }
    if j == 0 {
        return false;
    }
    let k = j - 1;
    if b.len() - k != 5 {
        return false;
    }
    ascii_lower_exec(b[k + 1]) == 0x65u8 && ascii_lower_exec(b[k + 2]) == 0x70u8 && ascii_lower_exec(b[k + 3]) == 0x75u8
        && ascii_lower_exec(b[k + 4]) == 0x62u8
}

/// A listed directory entry: the name shown, the name on the card, and its kind.
#[derive(Debug, Clone)]
pub struct ListedEntry {
    pub label: String,
    pub fs_name: String,
    pub kind: EntryKind,
}

impl ListedEntry {
    /// A book entry named `name`: label and card name both `name`, or both
    /// empty when it is longer than an entry holds.
    pub fn epub(name: &str) -> (r: Self)
        ensures
            r.kind == EntryKind::Epub,
            r.label@ == (if utf8_len(name@) <= LABEL_CAPACITY { name@ } else { Seq::empty() }),
            r.fs_name@ == r.label@,
    {
        Self::named(name, EntryKind::Epub)
    }

    /// A directory entry named `name`, as `epub` names one.
    pub fn directory(name: &str) -> (r: Self)
        ensures
            r.kind == EntryKind::Directory,
            r.label@ == (if utf8_len(name@) <= LABEL_CAPACITY { name@ } else { Seq::empty() }),
            r.fs_name@ == r.label@,
    {
        Self::named(name, EntryKind::Directory)
    }

    fn named(name: &str, kind: EntryKind) -> (r: Self)
        ensures
            r.kind == kind,
            r.label@ == (if utf8_len(name@) <= LABEL_CAPACITY { name@ } else { Seq::empty() }),
            r.fs_name@ == r.label@,
    {
        if name.as_bytes().len() <= LABEL_CAPACITY {
            ListedEntry { label: name.to_owned(), fs_name: name.to_owned(), kind }
        } else {
            ListedEntry { label: String::new(), fs_name: String::new(), kind }
        }
    }
}

/// Why a card or file operation failed, with the card's message where it gave one.
#[derive(Debug, Clone, PartialEq, Eq)]
pub enum FsError {
    CardInitFailed(String),
    MountFailed(String),
    TooManyEntries,
    InvalidUtf8,
    OpenFailed(String),
}

/// Where a listed page lies within its directory.
#[derive(Debug, Clone, Copy, PartialEq, Eq, Structural)]
pub struct DirectoryPageInfo {
    pub page_start: usize,
    pub has_prev: bool,
    pub has_next: bool,
}

/// The kind of an entry: a directory by its flag, else an EPUB when the label
/// or the card name has the `epub` extension, else other.
pub open spec fn entry_kind(label: Seq<u8>, fs_name: Seq<u8>, is_directory: bool) -> EntryKind {
    if is_directory {
        EntryKind::Directory
    } else if is_epub_name(label) || is_epub_name(fs_name) {
        EntryKind::Epub
    } else {
        EntryKind::Other
    }
}

/// The entry for a label, a card name and a directory flag; `TooManyEntries`
/// when the label or the name is longer than an entry holds.
pub fn listed_entry_from_parts(label: &str, fs_name: &str, is_directory: bool) -> (r: Result<ListedEntry, FsError>)
    ensures
        r is Ok <==> label.spec_bytes().len() <= LABEL_CAPACITY && fs_name.spec_bytes().len() <= LABEL_CAPACITY,
        r matches Ok(e) ==> e.label@ == label@ && e.fs_name@ == fs_name@ && e.kind == entry_kind(
            label.spec_bytes(),
            fs_name.spec_bytes(),
            is_directory,
        ),
        r matches Err(e) ==> e == FsError::TooManyEntries,
{
    if label.as_bytes().len() > LABEL_CAPACITY || fs_name.as_bytes().len() > LABEL_CAPACITY {
        return Err(FsError::TooManyEntries);
    }
    let kind = if is_directory {
        EntryKind::Directory
    } else if is_epub_label(label) || is_epub_label(fs_name) {
        EntryKind::Epub
    } else {
        EntryKind::Other
    };
    Ok(ListedEntry { label: label.to_owned(), fs_name: fs_name.to_owned(), kind })
}

} // verus!
