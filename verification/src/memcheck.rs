use vstd::prelude::*;

use crate::text::{
    chars_of, find_from, find_in, is_hex_digit, is_whitespace, lemma_find_from, lemma_find_shift, lemma_find_skip,
    lemma_trim_end_before_space, lemma_trim_start_after_space, parse_hex, parse_hex_or_zero, parse_hex_range, trim, trim_bounds, trim_end, trim_start,
};

verus! {

/// The text between the address range and the name on a line of `/proc/iomem`.
pub open spec fn range_separator() -> Seq<char> {
    seq![' ', ':', ' ']
}

/// `c[i..j]` is a line of `c`: it starts at the beginning or after a newline, ends
/// at the end or before a newline, and holds no newline.
pub open spec fn is_line(c: Seq<char>, i: int, j: int) -> bool {
    &&& 0 <= i <= j <= c.len()
    &&& (i == 0 || c[i - 1] == '\n')
    &&& (j == c.len() || c[j] == '\n')
    &&& forall|k: int| i <= k < j ==> c[k] != '\n'
}

/// A line of `/proc/iomem` ("start-end : name") whose range, read as
/// hexadecimal (an unreadable bound counting as 0), contains `target`.
pub open spec fn line_covers(line: Seq<char>, target: u64) -> bool {
    match find_from(line, range_separator(), 0) {
        None => false,
        Some(p) => {
            let range = line.take(p);
            match find_from(range, seq!['-'], 0) {
                None => false,
                Some(m) => {
                    let start = parse_hex_or_zero(trim(range.take(m)));
                    let end = parse_hex_or_zero(trim(range.skip(m + 1)));
                    start <= target <= end
                },
            }
        },
    }
}

/// Some line of the `/proc/iomem` text `content` covers `target`. (A carriage
/// return at the end of a line does not change whether the line covers it.)
pub open spec fn iomem_covers(content: Seq<char>, target: u64) -> bool {
    exists|i: int, j: int| is_line(content, i, j) && line_covers(#[trigger] content.subrange(i, j), target)
}

/// White space before a line's address range does not change whether the line
/// covers an address: the bounds are read with surrounding white space taken off.
/// (This needs the line not to start with ':', which the white space could turn
/// into the range separator.)
pub proof fn law_leading_space_keeps_coverage(ws: Seq<char>, line: Seq<char>, target: u64)
    requires
        forall|i: int| 0 <= i < ws.len() ==> is_whitespace(#[trigger] ws[i]),
        line.len() == 0 || line[0] != ':',
    ensures
        line_covers(ws + line, target) == line_covers(line, target),
{
    let n = ws.len() as int;
    let x = ws + line;
    let sep = range_separator();
    assert(!is_whitespace(':')) by {
        assert((':' as u32) == 0x3A);
    }
    assert(!is_whitespace('-')) by {
        assert(('-' as u32) == 0x2D);
    }
    assert forall|q: int| 0 <= q < n && q + sep.len() <= x.len() implies #[trigger] x.subrange(q, q + sep.len())
        != sep by {
        if x.subrange(q, q + sep.len()) == sep {
            assert(x.subrange(q, q + sep.len())[1] == ':');
            assert(x[q + 1] == ':');
            if q + 1 < n {
                assert(is_whitespace(ws[q + 1]));
            } else {
                assert(x[q + 1] == line[0]);
            }
        }
    }
    lemma_find_skip(x, sep, 0, n);
    lemma_find_shift(ws, line, sep, 0);
    assert(n + 0 == n);
    match find_from(line, sep, 0) {
        None => {},
        Some(p) => {
            lemma_find_from(line, sep, 0);
            let r = line.take(p);
            assert(x.take(p + n) =~= ws + r);
            let dash = seq!['-'];
            assert forall|q: int| 0 <= q < n && q + dash.len() <= (ws + r).len() implies #[trigger] (ws + r).subrange(
                q,
                q + dash.len(),
            ) != dash by {
                if (ws + r).subrange(q, q + dash.len()) == dash {
                    assert((ws + r).subrange(q, q + dash.len())[0] == '-');
                    assert(is_whitespace(ws[q]));
                }
            }
            lemma_find_skip(ws + r, dash, 0, n);
            lemma_find_shift(ws, r, dash, 0);
            match find_from(r, dash, 0) {
                None => {},
                Some(m) => {
                    lemma_find_from(r, dash, 0);
                    assert((ws + r).take(m + n) =~= ws + r.take(m));
                    assert((ws + r).skip(m + n + 1) =~= r.skip(m + 1));
                    lemma_trim_start_after_space(ws, r.take(m));
                },
            }
        },
    }
}

/// A line "start-end : name" covers exactly the addresses from `start` to `end`,
/// both read as hexadecimal (an unreadable bound counting as 0), whatever white
/// space stands before the range or between the range and the separator.
pub proof fn law_line_covers_range(
    ws1: Seq<char>,
    start: Seq<char>,
    end: Seq<char>,
    ws2: Seq<char>,
    name: Seq<char>,
    target: u64,
)
    requires
        forall|i: int| 0 <= i < ws1.len() ==> is_whitespace(#[trigger] ws1[i]),
        forall|i: int| 0 <= i < ws2.len() ==> is_whitespace(#[trigger] ws2[i]),
        forall|i: int| 0 <= i < start.len() ==> is_hex_digit(#[trigger] start[i]),
        forall|i: int| 0 <= i < end.len() ==> is_hex_digit(#[trigger] end[i]),
    ensures
        line_covers(ws1 + start + seq!['-'] + end + ws2 + range_separator() + name, target) == (
        parse_hex_or_zero(start) <= target <= parse_hex_or_zero(end)),
{
    let dash = seq!['-'];
    let sep = range_separator();
    let head = ws1 + start;
    let tail = end + ws2;
    let pre = head + dash + tail;
    let x = pre + sep + name;
    let d = head.len() as int;
    let n = pre.len() as int;
    assert(ws1 + start + dash + end + ws2 =~= pre);
    assert(ws1 + start + seq!['-'] + end + ws2 + range_separator() + name =~= x);
    assert(!is_whitespace(':') && !is_hex_digit(':')) by {
        assert((':' as u32) == 0x3A);
    }
    assert(!is_whitespace('-') && !is_hex_digit('-')) by {
        assert(('-' as u32) == 0x2D);
    }
    // No character before the separator is ':' or, before the dash, '-'.
    assert forall|k: int| 0 <= k < n implies #[trigger] pre[k] != ':' && (k < d ==> pre[k] != '-') by {
        if k < ws1.len() {
            assert(pre[k] == ws1[k]);
        } else if k < d {
            assert(pre[k] == start[k - ws1.len()]);
        } else if k == d {
            assert(pre[k] == '-');
        } else if k < d + 1 + end.len() {
            assert(pre[k] == end[k - d - 1]);
        } else {
            assert(pre[k] == ws2[k - d - 1 - end.len()]);
        }
    }
    assert forall|q: int| 0 <= q < n && q + sep.len() <= x.len() implies #[trigger] x.subrange(q, q + sep.len())
        != sep by {
        if x.subrange(q, q + sep.len()) == sep {
            assert(x.subrange(q, q + sep.len())[1] == ':');
            if q + 1 < n {
                assert(x[q + 1] == pre[q + 1]);
            } else {
                assert(x[q + 1] == sep[0]);
            }
        }
    }
    lemma_find_skip(x, sep, 0, n);
    assert(x.subrange(n, n + sep.len()) =~= sep);
    assert(find_from(x, sep, 0) == Some(n));
    assert(x.take(n) =~= pre);
    assert forall|q: int| 0 <= q < d && q + dash.len() <= pre.len() implies #[trigger] pre.subrange(q, q + dash.len())
        != dash by {
        if pre.subrange(q, q + dash.len()) == dash {
            assert(pre.subrange(q, q + dash.len())[0] == '-');
        }
    }
    lemma_find_skip(pre, dash, 0, d);
    assert(pre.subrange(d, d + 1) =~= dash);
    assert(find_from(pre, dash, 0) == Some(d));
    assert(pre.take(d) =~= ws1 + start);
    assert(pre.skip(d + 1) =~= end + ws2);
    lemma_trim_start_after_space(ws1, start);
    if start.len() > 0 {
        assert(is_hex_digit(start[0]) && is_hex_digit(start.last()));
    }
    assert(trim_start(start) == start);
    assert(trim_end(start) == start);
    lemma_trim_end_before_space(end, ws2);
    if end.len() > 0 {
        assert(is_hex_digit(end[0]) && is_hex_digit(end.last()));
        assert((end + ws2)[0] == end[0]);
        assert(trim_start(end + ws2) == end + ws2);
        assert(trim_end(end) == end);
    } else {
        assert(end + ws2 =~= ws2 + end);
        lemma_trim_start_after_space(ws2, end);
    }
}

/// A line that covers `target` makes the whole `/proc/iomem` text cover it,
/// wherever the line stands: first, last (with or without a final newline) or
/// between other lines.
pub proof fn law_covering_line_counts(before: Seq<char>, line: Seq<char>, after: Seq<char>, target: u64)
    requires
        before.len() == 0 || before.last() == '\n',
        after.len() == 0 || after[0] == '\n',
        forall|k: int| 0 <= k < line.len() ==> #[trigger] line[k] != '\n',
        line_covers(line, target),
    ensures
        iomem_covers(before + line + after, target),
{
    let c = before + line + after;
    let i = before.len() as int;
    let j = i + line.len();
    assert(c.subrange(i, j) =~= line);
    if i > 0 {
        assert(c[i - 1] == before.last());
    }
    if j < c.len() {
        assert(c[j] == after[0]);
    }
    assert forall|k: int| i <= k < j implies c[k] != '\n' by {
        assert(c[k] == line[k - i]);
    }
    assert(is_line(c, i, j));
}

/// A text of a single line (no newline) covers `target` exactly when that line
/// does.
pub proof fn law_single_line_text(line: Seq<char>, target: u64)
    requires
        forall|k: int| 0 <= k < line.len() ==> #[trigger] line[k] != '\n',
    ensures
        iomem_covers(line, target) == line_covers(line, target),
{
    assert(line.subrange(0, line.len() as int) =~= line);
    assert(is_line(line, 0, line.len() as int));
    assert forall|i: int, j: int| is_line(line, i, j) implies i == 0 && j == line.len() by {
        if i > 0 {
            assert(line[i - 1] != '\n');
        }
        if j < line.len() {
            assert(line[j] != '\n');
        }
    }
}

fn line_covers_exec(c: &[char], lo: usize, hi: usize, target: u64) -> (b: bool)
    requires
        lo <= hi <= c@.len(),
    ensures
        b == line_covers(c@.subrange(lo as int, hi as int), target),
{
    let ghost line = c@.subrange(lo as int, hi as int);
    let sep = [' ', ':', ' '];
    assert(sep@ == range_separator());
    match find_in(c, lo, hi, &sep) {
        None => false,
        Some(p) => {
            let ghost range = line.take(p - lo);
            assert(range =~= c@.subrange(lo as int, p as int));
            let dash = ['-'];
            assert(dash@ == seq!['-']);
            match find_in(c, lo, p, &dash) {
                None => false,
                Some(m) => {
                    assert(range.take(m - lo) =~= c@.subrange(lo as int, m as int));
                    assert(range.skip(m - lo + 1) =~= c@.subrange(m + 1, p as int));
                    let (a0, a1) = trim_bounds(c, lo, m);
                    let (b0, b1) = trim_bounds(c, m + 1, p);
                    let start = match parse_hex_range(c, a0, a1) {
                        Some(v) => v,
                        None => 0,
                    };
                    let end = match parse_hex_range(c, b0, b1) {
                        Some(v) => v,
                        None => 0,
                    };
                    start <= target && target <= end
                },
            }
        },
    }
}

/// True if some line of the `/proc/iomem` text `content` ("start-end : name",
/// hexadecimal bounds) covers `target`.
pub fn check_iomem(content: &str, target: u64) -> (b: bool)
    ensures
        b == iomem_covers(content@, target),
{
    let c = chars_of(content);
    let ghost cs = c@;
    let n = c.len();
    let mut i: usize = 0;
    let mut k: usize = 0;
    while k < n
        invariant
            n == cs.len(),
            cs == c@,
            cs == content@,
            i <= k <= n,
            i == 0 || cs[i - 1] == '\n',
            forall|m: int| i <= m < k ==> cs[m] != '\n',
            forall|a: int, b: int| is_line(cs, a, b) && b < i ==> !line_covers(#[trigger] cs.subrange(a, b), target),
        decreases n - k,
    {
        if c[k] == '\n' {
            if line_covers_exec(c.as_slice(), i, k, target) {
                assert(is_line(cs, i as int, k as int));
                return true;
            }
            assert forall|a: int, b: int| is_line(cs, a, b) && b < k + 1 implies !line_covers(
                #[trigger] cs.subrange(a, b),
                target,
            ) by {
                if b >= i {
                    if a < i {
                        assert(cs[i - 1] == '\n');
                    }
                    if a > i {
                        assert(cs[a - 1] == '\n');
                    }
                    if b < k {
                        assert(cs[b] == '\n');
                    }
                }
            }
            i = k + 1;
        }
        k = k + 1;
    }
    let last = line_covers_exec(c.as_slice(), i, n, target);
    if last {
        assert(is_line(cs, i as int, n as int));
    } else {
        assert forall|a: int, b: int| is_line(cs, a, b) implies !line_covers(#[trigger] cs.subrange(a, b), target) by {
            if b >= i {
                if a < i {
                    assert(cs[i - 1] == '\n');
                }
                if a > i {
                    assert(cs[a - 1] == '\n');
                }
                if b < n {
                    assert(cs[b] == '\n');
                }
            }
        }
    }
    last
}

/// The big-endian value of the bytes `s`.
pub open spec fn be_value(s: Seq<u8>) -> int
    decreases s.len(),
{
    if s.len() == 0 {
        0
    } else {
        be_value(s.drop_last()) * 256 + s.last()
    }
}

/// The start address that a device tree `reg` entry holds: its first 8 bytes, big-endian.
pub open spec fn reg_start(buf: Seq<u8>) -> int {
    be_value(buf.take(8))
}

/// The region size that a device tree `reg` entry holds: its next 8 bytes, big-endian.
pub open spec fn reg_size(buf: Seq<u8>) -> int {
    be_value(buf.subrange(8, 16))
}

/// `start <= target < start + size`, where the sum is only computed (and so only
/// has to fit in 64 bits) when `start <= target`.
pub open spec fn region_fits(start: int, size: int, target: u64) -> bool {
    target >= start ==> start + size <= u64::MAX
}

proof fn lemma_be_value_bound(s: Seq<u8>)
    ensures
        0 <= be_value(s) < vstd::arithmetic::power2::pow2(8 * s.len()),
    decreases s.len(),
{
    vstd::arithmetic::power2::lemma2_to64();
    if s.len() > 0 {
        lemma_be_value_bound(s.drop_last());
        vstd::arithmetic::power2::lemma_pow2_adds(8 * (s.len() - 1) as nat, 8);
        assert(8 * (s.len() - 1) as nat + 8 == 8 * s.len());
        let p = vstd::arithmetic::power2::pow2(8 * (s.len() - 1) as nat);
        assert(be_value(s.drop_last()) * 256 + s.last() < p * 256) by (nonlinear_arith)
            requires
                be_value(s.drop_last()) < p,
                s.last() < 256,
                be_value(s.drop_last()) >= 0;
    }
}

/// The big-endian value of `buf[lo..lo + 8]`.
fn be_u64(buf: &[u8; 16], lo: usize) -> (v: u64)
    requires
        lo == 0 || lo == 8,
    ensures
        v == be_value(buf@.subrange(lo as int, lo + 8)),
{
    let mut v: u64 = 0;
    let mut k: usize = 0;
    while k < 8
        invariant
            lo == 0 || lo == 8,
            k <= 8,
            v == be_value(buf@.subrange(lo as int, lo + k)),
        decreases 8 - k,
    {
        proof {
            assert(buf@.subrange(lo as int, lo + k + 1).drop_last() =~= buf@.subrange(lo as int, lo + k));
            lemma_be_value_bound(buf@.subrange(lo as int, lo + k + 1));
            vstd::arithmetic::power2::lemma2_to64();
            vstd::arithmetic::power2::lemma2_to64_rest();
        }
        v = v * 256 + buf[lo + k] as u64;
        k = k + 1;
    }
    v
}

/// The start and size that a device tree `reg` entry holds.
pub fn reg_bounds(buf: &[u8; 16]) -> (r: (u64, u64))
    ensures
        r.0 == reg_start(buf@),
        r.1 == reg_size(buf@),
{
    assert(buf@.take(8) =~= buf@.subrange(0, 8));
    (be_u64(buf, 0), be_u64(buf, 8))
}

/// True if `start <= target < start + size`.
pub fn region_contains(start: u64, size: u64, target: u64) -> (b: bool)
    requires
        region_fits(start as int, size as int, target),
    ensures
        b == (start <= target && target < start + size),
{
    target >= start && target < start + size
}

/// The region of a device tree `reg` entry (two big-endian 64-bit numbers: start
/// and size), if it contains `target`.
pub fn check_reg_bytes(buf: &[u8; 16], target: u64) -> (r: Option<(u64, u64)>)
    requires
        region_fits(reg_start(buf@), reg_size(buf@), target),
    ensures
        r == (if reg_start(buf@) <= target < reg_start(buf@) + reg_size(buf@) {
            Some((reg_start(buf@) as u64, reg_size(buf@) as u64))
        } else {
            None
        }),
{
    let (start, size) = reg_bounds(buf);
    if region_contains(start, size, target) {
        Some((start, size))
    } else {
        None
    }
}

/// `s` without one leading "0x" or "0X".
pub open spec fn strip_radix_prefix(s: Seq<char>) -> Seq<char> {
    if s.len() >= 2 && s[0] == '0' && (s[1] == 'x' || s[1] == 'X') {
        s.skip(2)
    } else {
        s
    }
}

/// A number in a sysfs file: `s` without leading and trailing white space and
/// without an optional "0x" or "0X" prefix, read as a hexadecimal `u64`.
pub fn parse_hex_text(s: &str) -> (r: Option<u64>)
    ensures
        r == parse_hex(strip_radix_prefix(trim(s@))),
{
    let c = chars_of(s);
    let (a, b) = trim_bounds(c.as_slice(), 0, c.len());
    assert(c@.subrange(0, c@.len() as int) =~= s@);
    let ghost t = c@.subrange(a as int, b as int);
    if b - a >= 2 && c[a] == '0' && (c[a + 1] == 'x' || c[a + 1] == 'X') {
        assert(t.skip(2) =~= c@.subrange(a + 2, b as int));
        parse_hex_range(c.as_slice(), a + 2, b)
    } else {
        parse_hex_range(c.as_slice(), a, b)
    }
}

/// `s` without leading and trailing white space.
pub fn trimmed(s: &str) -> (r: String)
    ensures
        r@ == trim(s@),
{
    let c = chars_of(s);
    let (a, b) = trim_bounds(c.as_slice(), 0, c.len());
    assert(c@.subrange(0, c@.len() as int) =~= s@);
    s.substring_char(a, b).to_string()
}

} // verus!
