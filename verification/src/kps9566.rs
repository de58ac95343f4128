//! KPS 9566 to Unicode decoding from a mapping table.
//!
//! The table text has one mapping per line, `0x8141<TAB>0xAC03<TAB># comment`: a KPS 9566 code
//! (big-endian value) and a Unicode scalar value in hexadecimal. Blank lines and `#` comment
//! lines are skipped.
use vstd::prelude::*;
use crate::text::{char_from_u32, chars_to_string, is_scalar_value, str_chars};

verus! {

/// One KPS 9566 to Unicode mapping.
#[derive(Debug, Clone, Copy, PartialEq, Eq)]
pub struct Mapping {
    /// KPS 9566 code as a big-endian value.
    pub kps: u16,
    /// Unicode scalar value.
    pub unicode: u32,
}

/// A table line that could not be read.
#[derive(Debug, Clone, PartialEq, Eq)]
pub struct ParseError {
    /// 1-based line number.
    pub line: usize,
    /// The line, trimmed.
    pub text: String,
}

/// Decoding table, sorted by KPS code.
#[derive(Debug, Clone)]
pub struct Kps9566 {
    map: Vec<Mapping>,
}

/// Unicode white space, as `char::is_whitespace` defines it.
pub open spec fn is_ws(c: char) -> bool {
    ('\u{9}' <= c <= '\u{d}') || c == ' ' || c == '\u{85}' || c == '\u{a0}' || c == '\u{1680}'
        || ('\u{2000}' <= c <= '\u{200a}') || c == '\u{2028}' || c == '\u{2029}' || c == '\u{202f}'
        || c == '\u{205f}' || c == '\u{3000}'
}

fn is_ws_exec(c: char) -> (r: bool)
    ensures
        r == is_ws(c),
{
    ('\u{9}' <= c && c <= '\u{d}') || c == ' ' || c == '\u{85}' || c == '\u{a0}' || c == '\u{1680}'
        || ('\u{2000}' <= c && c <= '\u{200a}') || c == '\u{2028}' || c == '\u{2029}' || c
        == '\u{202f}' || c == '\u{205f}' || c == '\u{3000}'
}

/// First index from `i` on (below `hi`) that is not white space, or `hi`.
pub open spec fn skip_ws(s: Seq<char>, i: int, hi: int) -> int
    decreases hi - i,
{
    if i >= hi {
        hi
    } else if is_ws(s[i]) {
        skip_ws(s, i + 1, hi)
    } else {
        i
    }
}

/// End (exclusive) of the text in `lo..hi` once trailing white space is removed.
pub open spec fn trim_end(s: Seq<char>, lo: int, hi: int) -> int
    decreases hi - lo,
{
    if hi <= lo {
        lo
    } else if is_ws(s[hi - 1]) {
        trim_end(s, lo, hi - 1)
    } else {
        hi
    }
}

/// First index from `i` on (below `hi`) that is white space, or `hi`.
pub open spec fn token_end(s: Seq<char>, i: int, hi: int) -> int
    decreases hi - i,
{
    if i >= hi {
        hi
    } else if is_ws(s[i]) {
        i
    } else {
        token_end(s, i + 1, hi)
    }
}

/// First index from `i` on (below `hi`) holding `c`, or `hi`.
pub open spec fn find_char(s: Seq<char>, c: char, i: int, hi: int) -> int
    decreases hi - i,
{
    if i >= hi {
        hi
    } else if s[i] == c {
        i
    } else {
        find_char(s, c, i + 1, hi)
    }
}

/// Index after any number of leading `0x` pairs in `lo..hi`.
pub open spec fn strip_0x(s: Seq<char>, lo: int, hi: int) -> int
    decreases hi - lo,
{
    if lo + 2 <= hi && s[lo] == '0' && s[lo + 1] == 'x' {
        strip_0x(s, lo + 2, hi)
    } else {
        lo
    }
}

/// Value of a hexadecimal digit.
pub open spec fn hex_digit(c: char) -> Option<int> {
    if '0' <= c <= '9' {
        Some(c as int - '0' as int)
    } else if 'a' <= c <= 'f' {
        Some(c as int - 'a' as int + 10)
    } else if 'A' <= c <= 'F' {
        Some(c as int - 'A' as int + 10)
    } else {
        None
    }
}

/// Value of the hexadecimal digits in `lo..hi`, or `None` at a non-digit.
pub open spec fn hex_value(s: Seq<char>, lo: int, hi: int) -> Option<int>
    decreases hi - lo,
{
    if hi <= lo {
        Some(0)
    } else {
        match (hex_value(s, lo, hi - 1), hex_digit(s[hi - 1])) {
            (Some(v), Some(d)) => Some(v * 16 + d),
            _ => None,
        }
    }
}

/// A `u32` written in hexadecimal in `lo..hi` (after `0x` prefixes, with an optional `+`),
/// as `u32::from_str_radix` reads it.
pub open spec fn parse_hex_spec(s: Seq<char>, lo: int, hi: int) -> Option<u32> {
    let a = strip_0x(s, lo, hi);
    let d = if a < hi && s[a] == '+' {
        a + 1
    } else {
        a
    };
    if d >= hi {
        None
    } else {
        match hex_value(s, d, hi) {
            Some(v) => if v <= u32::MAX {
                Some(v as u32)
            } else {
                None
            },
            None => None,
        }
    }
}

/// The mapping a line in `lo..hi` holds: `Ok(None)` for a blank or comment line.
pub open spec fn line_spec(s: Seq<char>, lo: int, hi: int) -> Result<Option<Mapping>, ()> {
    let a = skip_ws(s, lo, hi);
    let b = trim_end(s, a, hi);
    if a >= b || s[a] == '#' {
        Ok(None)
    } else {
        let body_end = find_char(s, '#', a, b);
        let t1 = skip_ws(s, a, body_end);
        let e1 = token_end(s, t1, body_end);
        let t2 = skip_ws(s, e1, body_end);
        let e2 = token_end(s, t2, body_end);
        match (parse_hex_spec(s, t1, e1), parse_hex_spec(s, t2, e2)) {
            (Some(k), Some(u)) => if k <= 0xFFFF {
                Ok(Some(Mapping { kps: k as u16, unicode: u }))
            } else {
                Err(())
            },
            _ => Err(()),
        }
    }
}

/// Index where the line starting at `start` ends (its `\n`, or the end of the text).
pub open spec fn line_end(s: Seq<char>, start: int) -> int {
    find_char(s, '\n', start, s.len() as int)
}

/// End of a line's content: a `\r` right before its `\n` is not part of it.
pub open spec fn content_end(s: Seq<char>, start: int) -> int {
    let e = line_end(s, start);
    if e < s.len() && e > start && s[e - 1] == '\r' {
        e - 1
    } else {
        e
    }
}

/// Mappings in the lines from `start` on, in order, or the number and start of the first bad
/// line.
pub open spec fn lines_spec(s: Seq<char>, start: int, line_no: int) -> Result<Seq<Mapping>, (int, int)>
    decreases s.len() + 1 - start,
{
    if start < 0 || start >= s.len() {
        Ok(Seq::empty())
    } else {
        let e = line_end(s, start);
        proof {
            lemma_find_char_range(s, '\n', start, s.len() as int);
        }
        match line_spec(s, start, content_end(s, start)) {
            Err(_) => Err((line_no, start)),
            Ok(m) => {
                if e + 1 <= start {
                    Ok(Seq::empty())
                } else {
                    match lines_spec(s, e + 1, line_no + 1) {
                        Err(n) => Err(n),
                        Ok(rest) => Ok(
                            match m {
                                Some(x) => seq![x] + rest,
                                None => rest,
                            },
                        ),
                    }
                }
            },
        }
    }
}

/// The position found lies in the searched range.
pub proof fn lemma_find_char_range(s: Seq<char>, c: char, i: int, hi: int)
    requires
        i <= hi,
    ensures
        i <= find_char(s, c, i, hi) <= hi,
    decreases hi - i,
{
    if i < hi && s[i] != c {
        lemma_find_char_range(s, c, i + 1, hi);
    }
}

proof fn lemma_skip_ws_range(s: Seq<char>, i: int, hi: int)
    requires
        i <= hi,
    ensures
        i <= skip_ws(s, i, hi) <= hi,
    decreases hi - i,
{
    if i < hi && is_ws(s[i]) {
        lemma_skip_ws_range(s, i + 1, hi);
    }
}

proof fn lemma_token_end_range(s: Seq<char>, i: int, hi: int)
    requires
        i <= hi,
    ensures
        i <= token_end(s, i, hi) <= hi,
    decreases hi - i,
{
    if i < hi && !is_ws(s[i]) {
        lemma_token_end_range(s, i + 1, hi);
    }
}

proof fn lemma_trim_end_range(s: Seq<char>, lo: int, hi: int)
    requires
        lo <= hi,
    ensures
        lo <= trim_end(s, lo, hi) <= hi,
    decreases hi - lo,
{
    if hi > lo && is_ws(s[hi - 1]) {
        lemma_trim_end_range(s, lo, hi - 1);
    }
}

proof fn lemma_strip_0x_range(s: Seq<char>, lo: int, hi: int)
    requires
        lo <= hi,
    ensures
        lo <= strip_0x(s, lo, hi) <= hi,
    decreases hi - lo,
{
    if lo + 2 <= hi && s[lo] == '0' && s[lo + 1] == 'x' {
        lemma_strip_0x_range(s, lo + 2, hi);
    }
}

fn find_char_exec(s: &[char], c: char, i: usize, hi: usize) -> (r: usize)
    requires
        i <= hi <= s@.len(),
    ensures
        r == find_char(s@, c, i as int, hi as int),
        i <= r <= hi,
{
    let mut k = i;
    while k < hi
        invariant
            i <= k <= hi,
            hi <= s@.len(),
            find_char(s@, c, i as int, hi as int) == find_char(s@, c, k as int, hi as int),
        decreases hi - k,
    {
        if s[k] == c {
            return k;
        }
        k = k + 1;
    }
    k
}

fn skip_ws_exec(s: &[char], i: usize, hi: usize) -> (r: usize)
    requires
        i <= hi <= s@.len(),
    ensures
        r == skip_ws(s@, i as int, hi as int),
        i <= r <= hi,
{
    let mut k = i;
    while k < hi
        invariant
            i <= k <= hi,
            hi <= s@.len(),
            skip_ws(s@, i as int, hi as int) == skip_ws(s@, k as int, hi as int),
        decreases hi - k,
    {
        if !is_ws_exec(s[k]) {
            return k;
        }
        k = k + 1;
    }
    k
}

fn token_end_exec(s: &[char], i: usize, hi: usize) -> (r: usize)
    requires
        i <= hi <= s@.len(),
    ensures
        r == token_end(s@, i as int, hi as int),
        i <= r <= hi,
{
    let mut k = i;
    while k < hi
        invariant
            i <= k <= hi,
            hi <= s@.len(),
            token_end(s@, i as int, hi as int) == token_end(s@, k as int, hi as int),
        decreases hi - k,
    {
        if is_ws_exec(s[k]) {
            return k;
        }
        k = k + 1;
    }
    k
}

fn trim_end_exec(s: &[char], lo: usize, hi: usize) -> (r: usize)
    requires
        lo <= hi <= s@.len(),
    ensures
        r == trim_end(s@, lo as int, hi as int),
        lo <= r <= hi,
{
    let mut k = hi;
    while k > lo
        invariant
            lo <= k <= hi,
            hi <= s@.len(),
            trim_end(s@, lo as int, hi as int) == trim_end(s@, lo as int, k as int),
        decreases k - lo,
    {
        if !is_ws_exec(s[k - 1]) {
            return k;
        }
        k = k - 1;
    }
    k
}

fn parse_hex(s: &[char], lo: usize, hi: usize) -> (r: Option<u32>)
    requires
        lo <= hi <= s@.len(),
    ensures
        r == parse_hex_spec(s@, lo as int, hi as int),
{
    let mut a = lo;
    while a < hi && hi - a >= 2 && s[a] == '0' && s[a + 1] == 'x'
        invariant
            lo <= a <= hi,
            hi <= s@.len(),
            strip_0x(s@, lo as int, hi as int) == strip_0x(s@, a as int, hi as int),
        decreases hi - a,
    {
        a = a + 2;
    }
    let d = if a < hi && s[a] == '+' {
        a + 1
    } else {
        a
    };
    if d >= hi {
        return None;
    }
    assert(parse_hex_spec(s@, lo as int, hi as int) == match hex_value(s@, d as int, hi as int) {
        Some(v) => if v <= u32::MAX {
            Some(v as u32)
        } else {
            None
        },
        None => None,
    });
    let mut v: u64 = 0;
    let mut k = d;
    while k < hi
        invariant
            parse_hex_spec(s@, lo as int, hi as int) == match hex_value(s@, d as int, hi as int) {
                Some(v) => if v <= u32::MAX {
                    Some(v as u32)
                } else {
                    None
                },
                None => None,
            },
            d <= k <= hi,
            d < hi,
            hi <= s@.len(),
            hex_value(s@, d as int, k as int) == Some(v as int),
            v <= u32::MAX,
        decreases hi - k,
    {
        let c = s[k];
        let dig: u64 = if '0' <= c && c <= '9' {
            (c as u32 - '0' as u32) as u64
        } else if 'a' <= c && c <= 'f' {
            (c as u32 - 'a' as u32 + 10) as u64
        } else if 'A' <= c && c <= 'F' {
            (c as u32 - 'A' as u32 + 10) as u64
        } else {
            proof {
                lemma_hex_value_none(s@, d as int, k as int, hi as int);
            }
            return None;
        };
        assert(hex_digit(c) == Some(dig as int));
        let nv = v * 16 + dig;
        assert(hex_value(s@, d as int, k + 1) == Some(nv as int));
        k = k + 1;
        if nv > 0xFFFF_FFFF {
            proof {
                lemma_hex_value_big(s@, d as int, k as int, hi as int);
            }
            return None;
        }
        v = nv;
    }
    Some(v as u32)
}

proof fn lemma_hex_value_none(s: Seq<char>, d: int, k: int, hi: int)
    requires
        d <= k < hi,
        hex_digit(s[k]) is None,
    ensures
        hex_value(s, d, hi) is None,
    decreases hi - k,
{
    if k + 1 < hi {
        lemma_hex_value_none(s, d, k, hi - 1);
    }
}

proof fn lemma_hex_value_nonneg(s: Seq<char>, d: int, hi: int)
    ensures
        hex_value(s, d, hi) matches Some(v) ==> v >= 0,
    decreases hi - d,
{
    if hi > d {
        lemma_hex_value_nonneg(s, d, hi - 1);
    }
}

proof fn lemma_hex_value_mono(s: Seq<char>, d: int, k: int, hi: int)
    requires
        d <= k <= hi,
        hex_value(s, d, k) is Some,
        hex_value(s, d, hi) is Some,
    ensures
        hex_value(s, d, hi).unwrap() >= hex_value(s, d, k).unwrap(),
    decreases hi - k,
{
    if k < hi {
        assert(hex_value(s, d, hi - 1) is Some);
        lemma_hex_value_mono(s, d, k, hi - 1);
        lemma_hex_value_nonneg(s, d, hi - 1);
        let v = hex_value(s, d, hi - 1).unwrap();
        let dg = hex_digit(s[hi - 1]).unwrap();
        assert(dg >= 0);
        assert(v * 16 + dg >= v) by (nonlinear_arith)
            requires
                v >= 0,
                dg >= 0,
        ;
    }
}

proof fn lemma_hex_value_some_prefix(s: Seq<char>, d: int, k: int, hi: int)
    requires
        d <= k <= hi,
        hex_value(s, d, hi) is Some,
    ensures
        hex_value(s, d, k) is Some,
    decreases hi - k,
{
    if k < hi {
        lemma_hex_value_some_prefix(s, d, k, hi - 1);
    }
}

proof fn lemma_hex_value_big(s: Seq<char>, d: int, k: int, hi: int)
    requires
        d < k <= hi,
        hex_value(s, d, k) matches Some(v) && v > u32::MAX,
    ensures
        match hex_value(s, d, hi) {
            Some(v) => v > u32::MAX,
            None => true,
        },
{
    if hex_value(s, d, hi) is Some {
        lemma_hex_value_mono(s, d, k, hi);
    }
}

fn parse_line(s: &[char], lo: usize, hi: usize) -> (r: Result<Option<Mapping>, ()>)
    requires
        lo <= hi <= s@.len(),
    ensures
        r == line_spec(s@, lo as int, hi as int),
{
    let a = skip_ws_exec(s, lo, hi);
    let b = trim_end_exec(s, a, hi);
    if a >= b || s[a] == '#' {
        return Ok(None);
    }
    let body_end = find_char_exec(s, '#', a, b);
    let t1 = skip_ws_exec(s, a, body_end);
    let e1 = token_end_exec(s, t1, body_end);
    let t2 = skip_ws_exec(s, e1, body_end);
    let e2 = token_end_exec(s, t2, body_end);
    let k = parse_hex(s, t1, e1);
    let u = parse_hex(s, t2, e2);
    match (k, u) {
        (Some(k), Some(u)) => if k <= 0xFFFF {
            Ok(Some(Mapping { kps: k as u16, unicode: u }))
        } else {
            Err(())
        },
        _ => Err(()),
    }
}

/// Whether a sequence of mappings is sorted by KPS code.
pub open spec fn sorted_by_kps(m: Seq<Mapping>) -> bool {
    forall|i: int, j: int| 0 <= i <= j < m.len() ==> m[i].kps <= m[j].kps
}

/// Index after the last mapping whose code is at most `k` (the table being sorted).
fn upper_bound(m: &Vec<Mapping>, k: u16) -> (r: usize)
    requires
        sorted_by_kps(m@),
    ensures
        r <= m@.len(),
        forall|i: int| 0 <= i < r ==> m@[i].kps <= k,
        forall|i: int| r <= i < m@.len() ==> m@[i].kps > k,
{
    let mut lo: usize = 0;
    let mut hi: usize = m.len();
    while lo < hi
        invariant
            lo <= hi <= m@.len(),
            sorted_by_kps(m@),
            forall|i: int| 0 <= i < lo ==> m@[i].kps <= k,
            forall|i: int| hi <= i < m@.len() ==> m@[i].kps > k,
        decreases hi - lo,
    {
        let mid = lo + (hi - lo) / 2;
        if m[mid].kps <= k {
            lo = mid + 1;
        } else {
            hi = mid;
        }
    }
    lo
}

/// Lines of a table text from `start` on, read one by one.
fn parse_text(s: &[char]) -> (r: Result<Vec<Mapping>, (usize, usize)>)
    ensures
        match r {
            Ok(v) => lines_spec(s@, 0, 1) matches Ok(m) && v@ == m,
            Err((n, st)) => lines_spec(s@, 0, 1) == Err::<Seq<Mapping>, (int, int)>((n as int, st as int))
                && st < s@.len(),
        },
{
    let len = s.len();
    let mut out: Vec<Mapping> = Vec::new();
    let mut start: usize = 0;
    let mut done: usize = 0;
    while start < len
        invariant
            len == s@.len(),
            start <= len,
            done <= start,
            lines_spec(s@, 0, 1) == match lines_spec(s@, start as int, done + 1) {
                Ok(rest) => Ok::<Seq<Mapping>, (int, int)>(out@ + rest),
                Err(n) => Err(n),
            },
        decreases len - start,
    {
        let e = find_char_exec(s, '\n', start, len);
        let ce = if e < len && e > start && s[e - 1] == '\r' {
            e - 1
        } else {
            e
        };
        let ghost gstart = start as int;
        let ghost before = out@;
        match parse_line(s, start, ce) {
            Err(_) => {
                return Err((done + 1, start));
            },
            Ok(m) => {
                match m {
                    Some(x) => {
                        out.push(x);
                    },
                    None => {},
                }
            },
        }
        let ghost gdone = done as int;
        if e >= len {
            start = len;
        } else {
            start = e + 1;
        }
        done = done + 1;
        proof {
            assert(lines_spec(s@, e + 1, gdone + 2) == lines_spec(s@, start as int, done + 1));
            match lines_spec(s@, start as int, done + 1) {
                Ok(rest) => {
                    assert(out@ + rest =~= before + (match line_spec(s@, gstart, content_end(s@, gstart)) {
                        Ok(Some(x)) => seq![x] + rest,
                        _ => rest,
                    }));
                },
                Err(_) => {},
            }
        }
    }
    assert(out@ + Seq::<Mapping>::empty() =~= out@);
    Ok(out)
}

/// The line starting at `start`, trimmed of white space at both ends.
pub open spec fn trimmed_line(s: Seq<char>, start: int) -> Seq<char> {
    let ce = content_end(s, start);
    let a = skip_ws(s, start, ce);
    s.subrange(a, trim_end(s, a, ce))
}

fn trimmed_text(s: &[char], start: usize) -> (r: String)
    requires
        start < s@.len(),
    ensures
        r@ == trimmed_line(s@, start as int),
{
    let len = s.len();
    let e = find_char_exec(s, '\n', start, len);
    let ce = if e < len && e > start && s[e - 1] == '\r' {
        e - 1
    } else {
        e
    };
    let a = skip_ws_exec(s, start, ce);
    let b = trim_end_exec(s, a, ce);
    let mut v: Vec<char> = Vec::new();
    let mut k = a;
    while k < b
        invariant
            a <= k <= b,
            b <= s@.len(),
            v@ == s@.subrange(a as int, k as int),
        decreases b - k,
    {
        v.push(s[k]);
        k = k + 1;
        assert(v@ =~= s@.subrange(a as int, k as int));
    }
    chars_to_string(&v)
}

impl Kps9566 {
    /// The mappings, sorted by code.
    pub closed spec fn mappings(&self) -> Seq<Mapping> {
        self.map@
    }

    /// Parse a table text. `Err` names the first line that is neither blank, a comment, nor two
    /// hexadecimal numbers (a code up to 0xFFFF and a value); the mappings come out sorted by
    /// code and hold exactly the mappings of the text.
    pub fn from_txt(text: &str) -> (r: Result<Self, ParseError>)
        ensures
            match r {
                Ok(t) => lines_spec(text@, 0, 1) matches Ok(m) && sorted_by_kps(t.mappings())
                    && t.mappings().len() == m.len() && forall|x: Mapping| t.mappings().contains(x) <==> m.contains(x),
                Err(e) => lines_spec(text@, 0, 1) matches Err((n, st)) && e.line == n
                    && e.text@ == trimmed_line(text@, st),
            },
    {
        let chars = str_chars(text);
        let parsed = match parse_text(chars.as_slice()) {
            Ok(v) => v,
            Err((n, st)) => {
                let line = trimmed_text(chars.as_slice(), st);
                return Err(ParseError { line: n, text: line });
            },
        };
        let mut map: Vec<Mapping> = Vec::new();
        let mut i: usize = 0;
        while i < parsed.len()
            invariant
                i <= parsed@.len(),
                sorted_by_kps(map@),
                map@.len() == i,
                forall|x: Mapping| map@.contains(x) <==> parsed@.subrange(0, i as int).contains(x),
            decreases parsed@.len() - i,
        {
            let x = parsed[i];
            let pos = upper_bound(&map, x.kps);
            let ghost old_map = map@;
            map.insert(pos, x);
            assert(map@ == old_map.insert(pos as int, x));
            assert forall|a: int, b: int| 0 <= a <= b < map@.len() implies map@[a].kps <= map@[b].kps by {
                if a < pos && b < pos {
                    assert(map@[a] == old_map[a] && map@[b] == old_map[b]);
                } else if a < pos && b == pos {
                    assert(map@[a] == old_map[a]);
                } else if a < pos {
                    assert(map@[a] == old_map[a] && map@[b] == old_map[b - 1]);
                } else if a == pos && b > pos {
                    assert(map@[b] == old_map[b - 1]);
                } else if a > pos {
                    assert(map@[a] == old_map[a - 1] && map@[b] == old_map[b - 1]);
                }
            }
            let ghost pre = parsed@.subrange(0, i as int);
            let ghost pre1 = parsed@.subrange(0, i + 1);
            assert(pre1 =~= pre.push(x));
            assert forall|y: Mapping| #[trigger] map@.contains(y) <==> (old_map.contains(y) || y == x) by {
                if map@.contains(y) {
                    let j = choose|j: int| 0 <= j < map@.len() && #[trigger] map@[j] == y;
                    if j < pos {
                        assert(old_map[j] == y);
                    } else if j > pos {
                        assert(old_map[j - 1] == y);
                    }
                }
                if old_map.contains(y) {
                    let j = choose|j: int| 0 <= j < old_map.len() && #[trigger] old_map[j] == y;
                    if j < pos {
                        assert(map@[j] == y);
                    } else {
                        assert(map@[j + 1] == y);
                    }
                }
                if y == x {
                    assert(map@[pos as int] == y);
                }
            }
            assert forall|y: Mapping| #[trigger] pre1.contains(y) <==> (pre.contains(y) || y == x) by {
                if pre1.contains(y) {
                    let j = choose|j: int| 0 <= j < pre1.len() && #[trigger] pre1[j] == y;
                    if j < i {
                        assert(pre[j] == y);
                    }
                }
                if pre.contains(y) {
                    let j = choose|j: int| 0 <= j < pre.len() && #[trigger] pre[j] == y;
                    assert(pre1[j] == y);
                }
                if y == x {
                    assert(pre1[i as int] == y);
                }
            }
            assert forall|y: Mapping| #[trigger] map@.contains(y) <==> pre1.contains(y) by {
                assert(old_map.contains(y) <==> pre.contains(y));
            }
            i = i + 1;
        }
        assert(parsed@.subrange(0, parsed@.len() as int) =~= parsed@);
        Ok(Kps9566 { map })
    }

    /// Number of mappings.
    pub fn len(&self) -> (r: usize)
        ensures
            r == self.mappings().len(),
    {
        self.map.len()
    }

    /// Whether the table is empty.
    pub fn is_empty(&self) -> (r: bool)
        ensures
            r == (self.mappings().len() == 0),
    {
        self.map.len() == 0
    }

    /// Unicode value of a code (its first mapping), or `None` when the code is unmapped.
    pub fn lookup(&self, code: u16) -> (r: Option<u32>)
        requires
            sorted_by_kps(self.mappings()),
        ensures
            r == first_value(self.mappings(), code, 0),
    {
        let m = &self.map;
        let mut lo: usize = 0;
        let mut hi: usize = m.len();
        while lo < hi
            invariant
                lo <= hi <= m@.len(),
                m@ == self.mappings(),
                sorted_by_kps(m@),
                forall|i: int| 0 <= i < lo ==> m@[i].kps < code,
                forall|i: int| hi <= i < m@.len() ==> m@[i].kps >= code,
            decreases hi - lo,
        {
            let mid = lo + (hi - lo) / 2;
            if m[mid].kps < code {
                lo = mid + 1;
            } else {
                hi = mid;
            }
        }
        proof {
            lemma_first_value_skip(m@, code, 0, lo as int);
        }
        if lo < m.len() && m[lo].kps == code {
            Some(m[lo].unicode)
        } else {
            proof {
                if lo < m@.len() {
                    lemma_first_value_none(m@, code, lo as int);
                }
            }
            None
        }
    }

    /// Character of a code, or `None` when the code is unmapped or maps to no scalar value.
    pub fn get(&self, code: u16) -> (r: Option<char>)
        requires
            sorted_by_kps(self.mappings()),
        ensures
            r == char_of_code(self.mappings(), code),
    {
        match self.lookup(code) {
            Some(u) => {
                let c = char_from_u32(u);
                proof {
                    if let Some(ch) = c {
                        vstd::utf8::char_u32_cast(ch, u);
                    }
                }
                c
            },
            None => None,
        }
    }

    /// Decode KPS 9566 bytes: ASCII bytes stand for themselves, other bytes start a two-byte
    /// code; unmapped and truncated codes decode to U+FFFD.
    pub fn decode(&self, bytes: &[u8]) -> (r: String)
        requires
            sorted_by_kps(self.mappings()),
        ensures
            r@ == decode_from(self.mappings(), bytes@, 0),
    {
        let mut out: Vec<char> = Vec::new();
        let n = bytes.len();
        let mut i: usize = 0;
        while i < n
            invariant
                n == bytes@.len(),
                i <= n,
                sorted_by_kps(self.mappings()),
                decode_from(self.mappings(), bytes@, 0) == out@ + decode_from(self.mappings(), bytes@, i as int),
            decreases n - i,
        {
            let ghost before = out@;
            let ghost gi = i as int;
            let b0 = bytes[i];
            if b0 < 0x80 {
                out.push(b0 as char);
                i = i + 1;
            } else if i + 1 >= n {
                out.push('\u{FFFD}');
                assert(decode_from(self.mappings(), bytes@, gi) == seq!['\u{FFFD}']);
                i = n;
            } else {
                let code: u16 = (b0 as u16) * 256 + (bytes[i + 1] as u16);
                match self.get(code) {
                    Some(c) => out.push(c),
                    None => out.push('\u{FFFD}'),
                }
                i = i + 2;
            }
            assert(out@ + decode_from(self.mappings(), bytes@, i as int) =~= before + decode_from(self.mappings(), bytes@, gi));
        }
        assert(out@ + Seq::<char>::empty() =~= out@);
        chars_to_string(&out)
    }
}

/// Value of the first mapping of `code` at or after `i`.
pub open spec fn first_value(m: Seq<Mapping>, code: u16, i: int) -> Option<u32>
    decreases m.len() - i,
{
    if i < 0 || i >= m.len() {
        None
    } else if m[i].kps == code {
        Some(m[i].unicode)
    } else {
        first_value(m, code, i + 1)
    }
}

proof fn lemma_first_value_skip(m: Seq<Mapping>, code: u16, i: int, j: int)
    requires
        0 <= i <= j <= m.len(),
        forall|k: int| i <= k < j ==> m[k].kps != code,
    ensures
        first_value(m, code, i) == first_value(m, code, j),
    decreases j - i,
{
    if i < j {
        lemma_first_value_skip(m, code, i + 1, j);
    }
}

proof fn lemma_first_value_none(m: Seq<Mapping>, code: u16, i: int)
    requires
        0 <= i <= m.len(),
        forall|k: int| i <= k < m.len() ==> m[k].kps != code,
    ensures
        first_value(m, code, i) is None,
    decreases m.len() - i,
{
    if i < m.len() {
        lemma_first_value_none(m, code, i + 1);
    }
}

/// Character of the first mapping of a code, when it is a scalar value.
pub open spec fn char_of_code(m: Seq<Mapping>, code: u16) -> Option<char> {
    match first_value(m, code, 0) {
        Some(u) => if is_scalar_value(u) {
            Some(u as char)
        } else {
            None
        },
        None => None,
    }
}

/// Decoded characters of `b` from byte `i` on.
pub open spec fn decode_from(m: Seq<Mapping>, b: Seq<u8>, i: int) -> Seq<char>
    decreases b.len() - i,
{
    if i < 0 || i >= b.len() {
        Seq::empty()
    } else if b[i] < 0x80 {
        seq![b[i] as char] + decode_from(m, b, i + 1)
    } else if i + 1 >= b.len() {
        seq!['\u{FFFD}']
    } else {
        let code = (b[i] * 256 + b[i + 1]) as u16;
        seq![
            match char_of_code(m, code) {
                Some(c) => c,
                None => '\u{FFFD}',
            },
        ] + decode_from(m, b, i + 2)
    }
}

} // verus!
