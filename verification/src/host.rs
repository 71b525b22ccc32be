//! How the desktop simulator presents a host directory as the device's card:
//! hidden files left out, directories listed before files and each group by
//! name, pages cut from the sorted listing, labels held to an entry's size,
//! and a stable short 8.3 name made up for each file and directory.
use vstd::prelude::*;
use vstd::string::StrSliceExecFns;
use vstd::string::StringSliceAdditionalSpecFns;
use vstd::utf8::encode_utf8;
use crate::cache::hex_digit;
use crate::cache::hex_digit_exec;
use crate::cache::lemma_ascii_bytes_valid;
use crate::cache::utf8_string;
use crate::font::chars_of;
use crate::fs::LABEL_CAPACITY;
use crate::fs::MAX_ENTRIES;
use crate::text::utf8_len;
use crate::text::utf8_len_of;

verus! {

/// One FNV-1a step: the byte mixed in, then a multiplication by the prime,
/// modulo 2^32.
pub open spec fn fnv1a_step(h: u32, b: u8) -> u32 {
    (((h ^ (b as u32)) as nat * 0x0100_0193) % 0x1_0000_0000) as u32
}

/// The 32-bit FNV-1a hash of `s`.
pub open spec fn fnv1a(s: Seq<u8>) -> u32
    decreases s.len(),
{
    if s.len() == 0 {
        0x811C_9DC5
    } else {
        fnv1a_step(fnv1a(s.drop_last()), s.last())
    }
}

/// The FNV-1a hash of the bytes of `name`.
pub fn stable_name_hash(name: &str) -> (r: u32)
    ensures
        r == fnv1a(name.spec_bytes()),
{
    let b = name.as_bytes();
    let mut hash: u32 = 0x811C_9DC5;
    let mut i: usize = 0;
    while i < b.len()
        invariant
            i <= b@.len(),
            b@ == name.spec_bytes(),
            hash == fnv1a(b@.subrange(0, i as int)),
        decreases b@.len() - i,
    {
        proof {
            assert(b@.subrange(0, i + 1).drop_last() =~= b@.subrange(0, i as int));
        }
        hash = (hash ^ (b[i] as u32)).wrapping_mul(0x0100_0193);
        i += 1;
    }
    assert(b@.subrange(0, b@.len() as int) =~= b@);
    hash
}

/// Whether a byte is an ASCII letter or digit.
pub open spec fn ascii_alnum(c: u8) -> bool {
    (0x30 <= c <= 0x39) || (0x41 <= c <= 0x5a) || (0x61 <= c <= 0x7a)
}

/// An ASCII lower-case letter raised.
pub open spec fn ascii_upper(c: u8) -> u8 {
    if 0x61 <= c <= 0x7a {
        (c - 0x20) as u8
    } else {
        c
    }
}

/// The position of the last `.` in `b` before `j`, or -1.
pub open spec fn last_dot(b: Seq<u8>, j: int) -> int
    decreases j,
{
    if j <= 0 {
        -1
    } else if b[j - 1] == 0x2e {
        j - 1
    } else {
        last_dot(b, j - 1)
    }
}

/// The letters and digits of `b` from `i` on, raised, while fewer than eight
/// have been kept in `acc`.
pub open spec fn ext_scan(b: Seq<u8>, i: int, acc: Seq<u8>) -> Seq<u8>
    decreases b.len() - i,
{
    if i >= b.len() || acc.len() >= 8 {
        acc
    } else if ascii_alnum(b[i]) {
        ext_scan(b, i + 1, acc.push(ascii_upper(b[i])))
    } else {
        ext_scan(b, i + 1, acc)
    }
}

/// The short extension of a file name: the first eight letters and digits
/// after its last `.`, raised; none without a `.` or without such characters.
pub open spec fn short_extension(b: Seq<u8>) -> Option<Seq<u8>> {
    let k = last_dot(b, b.len() as int);
    if k < 0 {
        None
    } else {
        let e = ext_scan(b, k + 1, Seq::empty());
        if e.len() == 0 { None } else { Some(e) }
    }
}

/// Seven upper-case hexadecimal digits of the low 28 bits of `h`.
pub open spec fn hex7(h: u32) -> Seq<u8> {
    let v = h & 0x0FFF_FFFF;
    seq![hex_digit((v >> 24) & 0xf), hex_digit((v >> 20) & 0xf), hex_digit((v >> 16) & 0xf),
        hex_digit((v >> 12) & 0xf), hex_digit((v >> 8) & 0xf), hex_digit((v >> 4) & 0xf), hex_digit(v & 0xf)]
}

/// The made-up short name of a host entry: `D` and the hash digits for a
/// directory; `F` and the hash digits for a file, then `.` and its short
/// extension when it has one.
pub open spec fn short_component_bytes(name: Seq<u8>, is_directory: bool) -> Seq<u8> {
    let digits = hex7(fnv1a(name));
    if is_directory {
        seq![0x44u8] + digits
    } else {
        match short_extension(name) {
            Some(e) => seq![0x46u8] + digits + seq![0x2eu8] + e,
            None => seq![0x46u8] + digits,
        }
    }
}

fn short_extension_exec(b: &[u8]) -> (r: Option<Vec<u8>>)
    ensures
        match r {
            Some(e) => short_extension(b@) == Some(e@),
            None => short_extension(b@) is None,
        },
{
    let mut j = b.len();
    while j > 0 && b[j - 1] != 0x2e
        invariant
            j <= b@.len(),
            last_dot(b@, b@.len() as int) == last_dot(b@, j as int),
        decreases j,
    {
        j -= 1;
    }
    if j == 0 {
        return None;
    }
    let mut out: Vec<u8> = Vec::new();
    let mut i = j;
    while i < b.len() && out.len() < 8
        invariant
            j <= i <= b@.len(),
            ext_scan(b@, j as int, Seq::empty()) == ext_scan(b@, i as int, out@),
        decreases b@.len() - i,
    {
        let c = b[i];
        if (c >= 0x30 && c <= 0x39) || (c >= 0x41 && c <= 0x5a) || (c >= 0x61 && c <= 0x7a) {
            out.push(if c >= 0x61 && c <= 0x7a { c - 0x20 } else { c });
        }
        i += 1;
    }
    if out.len() == 0 {
        None
    } else {
        Some(out)
    }
}

fn push_hex7(out: &mut Vec<u8>, h: u32)
    ensures
        final(out)@ == old(out)@ + hex7(h),
{
    let v = h & 0x0FFF_FFFF;
    assert(((v >> 24) & 0xf) < 16 && ((v >> 20) & 0xf) < 16 && ((v >> 16) & 0xf) < 16 && ((v >> 12) & 0xf) < 16
        && ((v >> 8) & 0xf) < 16 && ((v >> 4) & 0xf) < 16 && (v & 0xf) < 16) by (bit_vector);
    out.push(hex_digit_exec((v >> 24) & 0xf));
    out.push(hex_digit_exec((v >> 20) & 0xf));
    out.push(hex_digit_exec((v >> 16) & 0xf));
    out.push(hex_digit_exec((v >> 12) & 0xf));
    out.push(hex_digit_exec((v >> 8) & 0xf));
    out.push(hex_digit_exec((v >> 4) & 0xf));
    out.push(hex_digit_exec(v & 0xf));
    assert(out@ =~= old(out)@ + hex7(h));
}

/// The stable short name the simulator gives a host entry.
pub fn short_component_name(name: &str, is_directory: bool) -> (r: String)
    ensures
        encode_utf8(r@) == short_component_bytes(name.spec_bytes(), is_directory),
{
    let hash = stable_name_hash(name);
    let mut out: Vec<u8> = Vec::new();
    let extension = if is_directory { None } else { short_extension_exec(name.as_bytes()) };
    out.push(if is_directory { 0x44u8 } else { 0x46u8 });
    push_hex7(&mut out, hash);
    match extension {
        Some(e) => {
            out.push(0x2eu8);
            let mut k: usize = 0;
            let ghost head = out@;
            while k < e.len()
                invariant
                    k <= e@.len(),
                    out@ == head + e@.subrange(0, k as int),
                decreases e@.len() - k,
            {
                out.push(e[k]);
                k += 1;
            }
            assert(e@.subrange(0, e@.len() as int) =~= e@);
        },
        None => {},
    }
    assert(out@ =~= short_component_bytes(name.spec_bytes(), is_directory));
    proof {
        lemma_short_component_ascii(name.spec_bytes(), is_directory);
        lemma_ascii_bytes_valid(out@);
    }
    utf8_string(out)
}

proof fn lemma_ext_scan_ascii(b: Seq<u8>, i: int, acc: Seq<u8>)
    requires
        0 <= i,
        forall|k: int| 0 <= k < acc.len() ==> #[trigger] acc[k] < 0x80,
    ensures
        forall|k: int| 0 <= k < ext_scan(b, i, acc).len() ==> #[trigger] ext_scan(b, i, acc)[k] < 0x80,
    decreases b.len() - i,
{
    if i >= b.len() || acc.len() >= 8 {
    } else if ascii_alnum(b[i]) {
        let next = acc.push(ascii_upper(b[i]));
        assert(forall|k: int| 0 <= k < next.len() ==> #[trigger] next[k] < 0x80) by {
            assert forall|k: int| 0 <= k < next.len() implies #[trigger] next[k] < 0x80 by {
                if k < acc.len() {
                    assert(next[k] == acc[k]);
                }
            }
        }
        lemma_ext_scan_ascii(b, i + 1, next);
        assert(ext_scan(b, i, acc) == ext_scan(b, i + 1, next));
    } else {
        lemma_ext_scan_ascii(b, i + 1, acc);
        assert(ext_scan(b, i, acc) == ext_scan(b, i + 1, acc));
    }
}

proof fn lemma_short_component_ascii(name: Seq<u8>, is_directory: bool)
    ensures
        forall|k: int| 0 <= k < short_component_bytes(name, is_directory).len() ==> #[trigger] short_component_bytes(
            name,
            is_directory,
        )[k] < 0x80,
{
    let digits = hex7(fnv1a(name));
    let v = fnv1a(name) & 0x0FFF_FFFF;
    assert(((v >> 24) & 0xf) < 16 && ((v >> 20) & 0xf) < 16 && ((v >> 16) & 0xf) < 16 && ((v >> 12) & 0xf) < 16
        && ((v >> 8) & 0xf) < 16 && ((v >> 4) & 0xf) < 16 && (v & 0xf) < 16) by (bit_vector);
    assert(forall|k: int| 0 <= k < digits.len() ==> #[trigger] digits[k] < 0x80);
    let s = short_component_bytes(name, is_directory);
    if is_directory {
        assert forall|k: int| 0 <= k < s.len() implies #[trigger] s[k] < 0x80 by {
            if k > 0 {
                assert(s[k] == digits[k - 1]);
            }
        }
    } else {
        let k = last_dot(name, name.len() as int);
        if k >= 0 {
            lemma_ext_scan_ascii(name, k + 1, Seq::empty());
        }
        match short_extension(name) {
            Some(e) => {
                assert forall|j: int| 0 <= j < s.len() implies #[trigger] s[j] < 0x80 by {
                    if 1 <= j < 8 {
                        assert(s[j] == digits[j - 1]);
                    } else if j >= 9 {
                        assert(s[j] == e[j - 9]);
                    }
                }
            },
            None => {
                assert forall|j: int| 0 <= j < s.len() implies #[trigger] s[j] < 0x80 by {
                    if j > 0 {
                        assert(s[j] == digits[j - 1]);
                    }
                }
            },
        }
    }
}

/// Where the label of `cs` ends: before the first character that would take
/// it past an entry's label size.
pub open spec fn label_end(cs: Seq<char>, i: int) -> int
    decreases cs.len() - i,
{
    if i >= cs.len() || utf8_len_of(cs.subrange(0, i + 1)) > LABEL_CAPACITY {
        i
    } else {
        label_end(cs, i + 1)
    }
}

/// The label shown for a host entry named `name`: its characters while they
/// fit an entry's label.
pub fn display_label(name: &str) -> (r: String)
    ensures
        r@ == name@.subrange(0, label_end(name@, 0)),
{
    let cs = chars_of(name);
    let mut used: usize = 0;
    let mut i: usize = 0;
    let mut full = false;
    while i < cs.len() && !full
        invariant
            i <= cs@.len(),
            cs@ == name@,
            used == utf8_len_of(cs@.subrange(0, i as int)),
            used <= LABEL_CAPACITY,
            !full ==> label_end(cs@, 0) == label_end(cs@, i as int),
            full ==> label_end(cs@, 0) == i,
        decreases cs@.len() - i, (if full { 0int } else { 1int }),
    {
        proof {
            assert(cs@.subrange(0, i + 1).drop_last() =~= cs@.subrange(0, i as int));
            assert(cs@.subrange(0, i + 1).last() == cs@[i as int]);
        }
        let step = utf8_len(cs[i]);
        if used + step > LABEL_CAPACITY {
            full = true;
        } else {
            used = used + step;
            i += 1;
        }
    }
    name.substring_char(0, i).to_owned()
}

/// Whether `a` comes before `b` byte by byte, a proper prefix first.
pub open spec fn bytes_before(a: Seq<u8>, b: Seq<u8>) -> bool
    decreases a.len(),
{
    if a.len() == 0 {
        b.len() > 0
    } else if b.len() == 0 {
        false
    } else if a[0] != b[0] {
        a[0] < b[0]
    } else {
        bytes_before(a.drop_first(), b.drop_first())
    }
}

/// Whether entry `a` is listed before entry `b`: directories before files,
/// then by name.
pub open spec fn listed_before_spec(a_is_dir: bool, a: Seq<u8>, b_is_dir: bool, b: Seq<u8>) -> bool {
    (a_is_dir && !b_is_dir) || (a_is_dir == b_is_dir && bytes_before(a, b))
}

/// No name comes before itself, and of two names at most one comes first.
proof fn lemma_bytes_before_strict(a: Seq<u8>, b: Seq<u8>)
    ensures
        !bytes_before(a, a),
        !(bytes_before(a, b) && bytes_before(b, a)),
    decreases a.len(),
{
    if a.len() > 0 && b.len() > 0 {
        lemma_bytes_before_strict(a.drop_first(), b.drop_first());
        lemma_bytes_before_strict(a.drop_first(), a.drop_first());
    } else if a.len() > 0 {
        lemma_bytes_before_strict(a.drop_first(), a.drop_first());
    }
}

/// The listing order is strict: no entry is listed before itself, and of two
/// entries at most one is listed before the other, so sorting by it is well
/// defined.
pub proof fn law_listing_order_is_strict(a_is_dir: bool, a: Seq<u8>, b_is_dir: bool, b: Seq<u8>)
    ensures
        !listed_before_spec(a_is_dir, a, a_is_dir, a),
        !(listed_before_spec(a_is_dir, a, b_is_dir, b) && listed_before_spec(b_is_dir, b, a_is_dir, a)),
{
    lemma_bytes_before_strict(a, b);
}

/// Whether the entry named `a` is listed before the one named `b`.
pub fn listed_before(a_is_dir: bool, a: &[u8], b_is_dir: bool, b: &[u8]) -> (r: bool)
    ensures
        r == listed_before_spec(a_is_dir, a@, b_is_dir, b@),
{
    if a_is_dir != b_is_dir {
        return a_is_dir;
    }
    let mut i: usize = 0;
    assert(a@.subrange(0, a@.len() as int) =~= a@);
    assert(b@.subrange(0, b@.len() as int) =~= b@);
    while i < a.len() && i < b.len() && a[i] == b[i]
        invariant
            i <= a@.len(),
            i <= b@.len(),
            bytes_before(a@, b@) == bytes_before(a@.subrange(i as int, a@.len() as int), b@.subrange(
                i as int,
                b@.len() as int,
            )),
        decreases a@.len() - i,
    {
        proof {
            let sa = a@.subrange(i as int, a@.len() as int);
            let sb = b@.subrange(i as int, b@.len() as int);
            assert(sa.drop_first() =~= a@.subrange(i + 1, a@.len() as int));
            assert(sb.drop_first() =~= b@.subrange(i + 1, b@.len() as int));
        }
        i += 1;
    }
    if i == a.len() {
        i < b.len()
    } else if i == b.len() {
        false
    } else {
        a[i] < b[i]
    }
}

/// Whether a host entry shows in listings: names starting with `.` are hidden.
pub fn shown_in_listing(name: &str) -> (r: bool)
    ensures
        r == (name.spec_bytes().len() == 0 || name.spec_bytes()[0] != 0x2e),
{
    let b = name.as_bytes();
    b.len() == 0 || b[0] != 0x2e
}

/// The entries `start..end` of a sorted listing of `total` that make up the
/// page from `page_start` of `page_size` entries, held between 1 and the page
/// capacity.
pub fn page_window(total: usize, page_start: usize, page_size: usize) -> (r: (usize, usize))
    ensures
        r.0 == (if page_start < total { page_start } else { total }),
        r.1 == ({
            let size = if page_size > MAX_ENTRIES { MAX_ENTRIES } else if page_size < 1 { 1 } else { page_size };
            if r.0 + size < total { r.0 + size } else { total as int }
        }),
        r.0 <= r.1 <= total,
{
    let start = if page_start < total { page_start } else { total };
    let size = if page_size > MAX_ENTRIES { MAX_ENTRIES } else if page_size < 1 { 1 } else { page_size };
    let end = if size < total - start { start + size } else { total };
    (start, end)
}

} // verus!
