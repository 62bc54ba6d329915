use vstd::prelude::*;

verus! {

/// The characters of `s`, in order.
pub fn chars_of(s: &str) -> (v: Vec<char>)
    ensures
        v@ == s@,
{
    let mut v: Vec<char> = Vec::new();
    for c in it: s.chars()
        invariant
            it.seq() == s@,
            v@ == it.seq().take(it.index() as int),
    {
        v.push(c);
    }
    v
}

/// `c` is white space in the sense of the Unicode property White_Space.
pub open spec fn is_whitespace(c: char) -> bool {
    let u = c as u32;
    ||| 0x09 <= u <= 0x0D
    ||| u == 0x20
    ||| u == 0x85
    ||| u == 0xA0
    ||| u == 0x1680
    ||| 0x2000 <= u <= 0x200A
    ||| u == 0x2028
    ||| u == 0x2029
    ||| u == 0x202F
    ||| u == 0x205F
    ||| u == 0x3000
}

/// `s` without its leading white space.
pub open spec fn trim_start(s: Seq<char>) -> Seq<char>
    decreases s.len(),
{
    if s.len() > 0 && is_whitespace(s[0]) {
        trim_start(s.drop_first())
    } else {
        s
    }
}

/// `s` without its trailing white space.
pub open spec fn trim_end(s: Seq<char>) -> Seq<char>
    decreases s.len(),
{
    if s.len() > 0 && is_whitespace(s.last()) {
        trim_end(s.drop_last())
    } else {
        s
    }
}

/// `s` without its leading and trailing white space.
pub open spec fn trim(s: Seq<char>) -> Seq<char> {
    trim_end(trim_start(s))
}

/// `c` is a hexadecimal digit: `0-9`, `a-f` or `A-F`.
pub open spec fn is_hex_digit(c: char) -> bool {
    let u = c as u32;
    (0x30 <= u <= 0x39) || (0x41 <= u <= 0x46) || (0x61 <= u <= 0x66)
}

/// The value of the hexadecimal digit `c`.
pub open spec fn digit_value(c: char) -> int {
    let u = c as u32;
    if 0x30 <= u <= 0x39 {
        u - 0x30
    } else if 0x41 <= u <= 0x46 {
        u - 0x41 + 10
    } else {
        u - 0x61 + 10
    }
}

/// The value of a string of hexadecimal digits.
pub open spec fn hex_value(d: Seq<char>) -> int
    decreases d.len(),
{
    if d.len() == 0 {
        0
    } else {
        hex_value(d.drop_last()) * 16 + digit_value(d.last())
    }
}

/// The digits of a number: `s` without one leading `+`.
pub open spec fn unsigned_digits(s: Seq<char>) -> Seq<char> {
    if s.len() > 0 && s[0] == '+' {
        s.drop_first()
    } else {
        s
    }
}

/// `s` read as a hexadecimal `u64` as `u64::from_str_radix(s, 16)` reads it: an
/// optional `+`, then at least one hexadecimal digit, and a value that fits.
pub open spec fn parse_hex(s: Seq<char>) -> Option<u64> {
    let d = unsigned_digits(s);
    if d.len() == 0 || !(forall|i: int| 0 <= i < d.len() ==> is_hex_digit(#[trigger] d[i])) || hex_value(d)
        > u64::MAX {
        None
    } else {
        Some(hex_value(d) as u64)
    }
}

/// `s` read as a hexadecimal `u64`, or 0 when it is not one.
pub open spec fn parse_hex_or_zero(s: Seq<char>) -> u64 {
    match parse_hex(s) {
        Some(v) => v,
        None => 0,
    }
}

proof fn lemma_hex_value_nonneg(d: Seq<char>)
    requires
        forall|i: int| 0 <= i < d.len() ==> is_hex_digit(#[trigger] d[i]),
    ensures
        hex_value(d) >= 0,
    decreases d.len(),
{
    if d.len() > 0 {
        lemma_hex_value_nonneg(d.drop_last());
    }
}

/// A string of digits is worth at least any of its prefixes.
proof fn lemma_hex_value_prefix(d: Seq<char>, n: int)
    requires
        0 <= n <= d.len(),
        forall|i: int| 0 <= i < d.len() ==> is_hex_digit(#[trigger] d[i]),
    ensures
        hex_value(d) >= hex_value(d.take(n)),
    decreases d.len(),
{
    if n < d.len() {
        lemma_hex_value_nonneg(d.drop_last());
        lemma_hex_value_prefix(d.drop_last(), n);
        assert(d.drop_last().take(n) =~= d.take(n));
    } else {
        assert(d.take(n) =~= d);
    }
}

/// True if `c` is white space in the sense of the Unicode property White_Space.
pub fn is_whitespace_char(c: char) -> (b: bool)
    ensures
        b == is_whitespace(c),
{
    let u = c as u32;
    (0x09 <= u && u <= 0x0D) || u == 0x20 || u == 0x85 || u == 0xA0 || u == 0x1680 || (0x2000 <= u
        && u <= 0x200A) || u == 0x2028 || u == 0x2029 || u == 0x202F || u == 0x205F || u == 0x3000
}

/// The bounds of `s[lo..hi]` without leading and trailing white space.
pub fn trim_bounds(s: &[char], lo: usize, hi: usize) -> (r: (usize, usize))
    requires
        lo <= hi <= s@.len(),
    ensures
        lo <= r.0 <= r.1 <= hi,
        s@.subrange(r.0 as int, r.1 as int) == trim(s@.subrange(lo as int, hi as int)),
{
    let mut a = lo;
    while a < hi && is_whitespace_char(s[a])
        invariant
            lo <= a <= hi <= s@.len(),
            trim_start(s@.subrange(lo as int, hi as int)) == trim_start(s@.subrange(a as int, hi as int)),
        decreases hi - a,
    {
        assert(s@.subrange(a as int, hi as int).drop_first() =~= s@.subrange(a + 1, hi as int));
        a = a + 1;
    }
    let mut b = hi;
    while b > a && is_whitespace_char(s[b - 1])
        invariant
            lo <= a <= b <= hi <= s@.len(),
            trim_start(s@.subrange(lo as int, hi as int)) == s@.subrange(a as int, hi as int),
            trim_end(s@.subrange(a as int, hi as int)) == trim_end(s@.subrange(a as int, b as int)),
        decreases b - a,
    {
        assert(s@.subrange(a as int, b as int).drop_last() =~= s@.subrange(a as int, b - 1));
        b = b - 1;
    }
    (a, b)
}

fn digit_of(c: char) -> (r: Option<u64>)
    ensures
        r is Some <==> is_hex_digit(c),
        r matches Some(v) ==> v == digit_value(c) && v < 16,
{
    let u = c as u32;
    if 0x30 <= u && u <= 0x39 {
        Some((u - 0x30) as u64)
    } else if 0x41 <= u && u <= 0x46 {
        Some((u - 0x41 + 10) as u64)
    } else if 0x61 <= u && u <= 0x66 {
        Some((u - 0x61 + 10) as u64)
    } else {
        None
    }
}

/// `s[lo..hi]` read as a hexadecimal `u64`, as `u64::from_str_radix(.., 16)` reads it.
pub fn parse_hex_range(s: &[char], lo: usize, hi: usize) -> (r: Option<u64>)
    requires
        lo <= hi <= s@.len(),
    ensures
        r == parse_hex(s@.subrange(lo as int, hi as int)),
{
    let ghost t = s@.subrange(lo as int, hi as int);
    let start = if lo < hi && s[lo] == '+' { lo + 1 } else { lo };
    let ghost d = unsigned_digits(t);
    assert(d =~= s@.subrange(start as int, hi as int));
    if start == hi {
        return None;
    }
    let mut acc: u64 = 0;
    let mut i = start;
    while i < hi
        invariant
            lo <= start <= i <= hi <= s@.len(),
            start < hi,
            d == s@.subrange(start as int, hi as int),
            d == unsigned_digits(t),
            t == s@.subrange(lo as int, hi as int),
            forall|k: int| 0 <= k < i - start ==> is_hex_digit(#[trigger] d[k]),
            acc == hex_value(d.take(i - start)),
        decreases hi - i,
    {
        assert(d.take(i - start + 1).drop_last() =~= d.take(i - start));
        match digit_of(s[i]) {
            None => {
                assert(!is_hex_digit(d[i - start]));
                return None;
            },
            Some(v) => {
                let next = match acc.checked_mul(16) {
                    Some(m) => m.checked_add(v),
                    None => None,
                };
                match next {
                    Some(n) => {
                        acc = n;
                    },
                    None => {
                        proof {
                            if forall|k: int| 0 <= k < d.len() ==> is_hex_digit(#[trigger] d[k]) {
                                lemma_hex_value_prefix(d, i - start + 1);
                            }
                        }
                        return None;
                    },
                }
            },
        }
        i = i + 1;
    }
    assert(d.take(i - start) =~= d);
    Some(acc)
}

/// The first position at or after `k` where `pat` occurs in `s`.
pub open spec fn find_from(s: Seq<char>, pat: Seq<char>, k: int) -> Option<int>
    decreases s.len() + 1 - k,
{
    if k < 0 || k + pat.len() > s.len() {
        None
    } else if s.subrange(k, k + pat.len()) == pat {
        Some(k)
    } else {
        find_from(s, pat, k + 1)
    }
}

/// A position found by `find_from` holds an occurrence within `s`.
pub proof fn lemma_find_from(s: Seq<char>, pat: Seq<char>, k: int)
    ensures
        find_from(s, pat, k) matches Some(p) ==> k <= p && p + pat.len() <= s.len() && s.subrange(p, p + pat.len()) == pat,
    decreases s.len() + 1 - k,
{
    if !(k < 0 || k + pat.len() > s.len()) && s.subrange(k, k + pat.len()) != pat {
        lemma_find_from(s, pat, k + 1);
    }
}

/// A search that meets no occurrence of `pat` before position `n` finds what a
/// search from `n` finds.
pub proof fn lemma_find_skip(s: Seq<char>, pat: Seq<char>, k: int, n: int)
    requires
        0 <= k <= n,
        forall|q: int| k <= q < n && q + pat.len() <= s.len() ==> #[trigger] s.subrange(q, q + pat.len()) != pat,
    ensures
        find_from(s, pat, k) == find_from(s, pat, n),
    decreases n - k,
{
    if k < n && k + pat.len() <= s.len() {
        lemma_find_skip(s, pat, k + 1, n);
    }
}

/// Searching `pre + s` past `pre` finds the occurrences of `s`, moved by the
/// length of `pre`.
pub proof fn lemma_find_shift(pre: Seq<char>, s: Seq<char>, pat: Seq<char>, j: int)
    requires
        j >= 0,
    ensures
        find_from(pre + s, pat, pre.len() + j) == match find_from(s, pat, j) {
            Some(p) => Some(p + pre.len()),
            None => None::<int>,
        },
    decreases s.len() + 1 - j,
{
    let n = pre.len() as int;
    if j + pat.len() <= s.len() {
        assert((pre + s).subrange(n + j, n + j + pat.len()) =~= s.subrange(j, j + pat.len()));
        lemma_find_shift(pre, s, pat, j + 1);
    }
}

/// Leading white space does not change what remains once leading white space is
/// taken off.
pub proof fn lemma_trim_start_after_space(ws: Seq<char>, s: Seq<char>)
    requires
        forall|i: int| 0 <= i < ws.len() ==> is_whitespace(#[trigger] ws[i]),
    ensures
        trim_start(ws + s) == trim_start(s),
    decreases ws.len(),
{
    if ws.len() == 0 {
        assert(ws + s =~= s);
    } else {
        assert((ws + s).drop_first() =~= ws.drop_first() + s);
        lemma_trim_start_after_space(ws.drop_first(), s);
    }
}

/// Trailing white space does not change what remains once trailing white space
/// is taken off.
pub proof fn lemma_trim_end_before_space(s: Seq<char>, ws: Seq<char>)
    requires
        forall|i: int| 0 <= i < ws.len() ==> is_whitespace(#[trigger] ws[i]),
    ensures
        trim_end(s + ws) == trim_end(s),
    decreases ws.len(),
{
    if ws.len() == 0 {
        assert(s + ws =~= s);
    } else {
        assert((s + ws).drop_last() =~= s + ws.drop_last());
        lemma_trim_end_before_space(s, ws.drop_last());
    }
}

/// True if `pat` occurs in `s` at position `p`.
fn occurs_at(s: &[char], p: usize, pat: &[char]) -> (b: bool)
    requires
        p + pat@.len() <= s@.len(),
    ensures
        b == (s@.subrange(p as int, p + pat@.len()) == pat@),
{
    let n = pat.len();
    let len = s.len();
    let mut k: usize = 0;
    while k < n
        invariant
            n == pat@.len(),
            p + n <= s@.len(),
            len == s@.len(),
            k <= n,
            forall|m: int| 0 <= m < k ==> s@[p + m] == pat@[m],
        decreases n - k,
    {
        if s[p + k] != pat[k] {
            assert(s@.subrange(p as int, p + n)[k as int] != pat@[k as int]);
            return false;
        }
        k = k + 1;
    }
    assert(s@.subrange(p as int, p + n) =~= pat@);
    true
}

/// The first position of `pat` in `s[lo..hi]`, counted from `lo`.
pub fn find_in(s: &[char], lo: usize, hi: usize, pat: &[char]) -> (r: Option<usize>)
    requires
        lo <= hi <= s@.len(),
    ensures
        match find_from(s@.subrange(lo as int, hi as int), pat@, 0) {
            Some(k) => r matches Some(p) && p == lo + k,
            None => r is None,
        },
        r matches Some(p) ==> lo <= p && p + pat@.len() <= hi,
{
    proof {
        lemma_find_from(s@.subrange(lo as int, hi as int), pat@, 0);
    }
    let ghost t = s@.subrange(lo as int, hi as int);
    let n = pat.len();
    if n > hi - lo {
        return None;
    }
    if n == 0 {
        assert(t.subrange(0, 0) =~= pat@);
        return Some(lo);
    }
    let mut p = lo;
    while p <= hi - n
        invariant
            lo <= p <= hi <= s@.len(),
            n == pat@.len(),
            0 < n <= hi - lo,
            t == s@.subrange(lo as int, hi as int),
            find_from(t, pat@, 0) == find_from(t, pat@, p - lo),
        decreases hi - p,
    {
        assert(t.subrange(p - lo, p - lo + n) =~= s@.subrange(p as int, p + n));
        if occurs_at(s, p, pat) {
            return Some(p);
        }
        p = p + 1;
    }
    None
}

/// `s` without all leading repetitions of "0x".
pub open spec fn strip_hex_prefixes(s: Seq<char>) -> Seq<char>
    decreases s.len(),
{
    if s.len() >= 2 && s[0] == '0' && s[1] == 'x' {
        strip_hex_prefixes(s.skip(2))
    } else {
        s
    }
}

/// The position in `s` after all leading repetitions of "0x".
fn skip_hex_prefixes(s: &[char]) -> (k: usize)
    ensures
        k <= s@.len(),
        s@.skip(k as int) == strip_hex_prefixes(s@),
{
    let n = s.len();
    let mut k: usize = 0;
    assert(s@.skip(0) =~= s@);
    while k < n && n - k >= 2 && s[k] == '0' && s[k + 1] == 'x'
        invariant
            k <= n,
            n == s@.len(),
            strip_hex_prefixes(s@) == strip_hex_prefixes(s@.skip(k as int)),
        decreases n - k,
    {
        assert(s@.skip(k as int).skip(2) =~= s@.skip(k + 2));
        k = k + 2;
    }
    k
}

/// `s` without its underscores (digit separators).
pub open spec fn without_underscores(s: Seq<char>) -> Seq<char>
    decreases s.len(),
{
    if s.len() == 0 {
        s
    } else if s.last() == '_' {
        without_underscores(s.drop_last())
    } else {
        without_underscores(s.drop_last()).push(s.last())
    }
}

/// An underscore between digits is ignored: "4000_0000" reads as "40000000".
pub proof fn law_underscore_ignored(a: Seq<char>, b: Seq<char>)
    ensures
        without_underscores(a + seq!['_'] + b) == without_underscores(a + b),
    decreases b.len(),
{
    if b.len() == 0 {
        assert((a + seq!['_'] + b).drop_last() =~= a);
        assert(a + b =~= a);
    } else {
        assert((a + seq!['_'] + b).drop_last() =~= a + seq!['_'] + b.drop_last());
        assert((a + b).drop_last() =~= a + b.drop_last());
        law_underscore_ignored(a, b.drop_last());
    }
}

/// A string of hexadecimal digits keeps its digits when underscores are taken out.
proof fn lemma_digits_without_underscores(d: Seq<char>)
    requires
        forall|i: int| 0 <= i < d.len() ==> is_hex_digit(#[trigger] d[i]),
    ensures
        without_underscores(d) == d,
    decreases d.len(),
{
    if d.len() > 0 {
        assert(('_' as u32) == 0x5F);
        assert(is_hex_digit(d.last()));
        lemma_digits_without_underscores(d.drop_last());
        assert(d.drop_last().push(d.last()) =~= d);
    }
}

/// A command-line number made of hexadecimal digits, with or without a leading
/// "0x", is read as the digits' value.
pub proof fn law_hex_argument_digits(d: Seq<char>)
    requires
        d.len() > 0,
        forall|i: int| 0 <= i < d.len() ==> is_hex_digit(#[trigger] d[i]),
        hex_value(d) <= u64::MAX,
    ensures
        hex_value(d) >= 0,
        parse_hex(without_underscores(strip_hex_prefixes(d))) == Some(hex_value(d) as u64),
        parse_hex(without_underscores(strip_hex_prefixes(seq!['0', 'x'] + d))) == Some(hex_value(d) as u64),
{
    assert(('x' as u32) == 0x78 && ('+' as u32) == 0x2B);
    if d.len() >= 2 {
        assert(is_hex_digit(d[1]));
    }
    assert(is_hex_digit(d[0]));
    assert(strip_hex_prefixes(d) == d);
    assert((seq!['0', 'x'] + d).skip(2) =~= d);
    lemma_digits_without_underscores(d);
    lemma_hex_value_nonneg(d);
    assert(unsigned_digits(d) == d);
}

/// A command-line number: hexadecimal, after any leading repetitions of "0x",
/// with underscores allowed between digits as separators (`0x4000_0000`).
pub fn parse_hex_argument(arg: &str) -> (r: Option<u64>)
    ensures
        r == parse_hex(without_underscores(strip_hex_prefixes(arg@))),
{
    let c = chars_of(arg);
    let k = skip_hex_prefixes(c.as_slice());
    let n = c.len();
    let mut digits: Vec<char> = Vec::new();
    let mut i = k;
    assert(c@.subrange(k as int, k as int) =~= Seq::<char>::empty());
    while i < n
        invariant
            k <= i <= n,
            n == c@.len(),
            digits@ == without_underscores(c@.subrange(k as int, i as int)),
        decreases n - i,
    {
        assert(c@.subrange(k as int, i + 1).drop_last() =~= c@.subrange(k as int, i as int));
        if c[i] != '_' {
            digits.push(c[i]);
        }
        i = i + 1;
    }
    assert(c@.subrange(k as int, n as int) =~= c@.skip(k as int));
    assert(digits@.subrange(0, digits@.len() as int) =~= digits@);
    parse_hex_range(digits.as_slice(), 0, digits.len())
}

/// A command-line 32-bit number, read as `parse_hex_argument` reads it, and no
/// more than `u32::MAX`.
pub fn parse_hex_argument_u32(arg: &str) -> (r: Option<u32>)
    ensures
        r == (match parse_hex(without_underscores(strip_hex_prefixes(arg@))) {
            Some(v) => if v <= u32::MAX { Some(v as u32) } else { None },
            None => None,
        }),
{
    match parse_hex_argument(arg) {
        Some(v) => if v <= 0xffff_ffffu64 { Some(v as u32) } else { None },
        None => None,
    }
}

} // verus!
