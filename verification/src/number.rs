//! Digit runs read out in Korean: native short forms, Sino-Korean long forms, decimals and times.
use vstd::prelude::*;
use crate::text::{chars_to_string, str_chars};

verus! {

/// Sino-Korean digit names 0..=9.
pub const DIGIT_SINO: [char; 10] = ['령', '일', '이', '삼', '사', '오', '륙', '칠', '팔', '구'];

/// Place names by number of remaining digits (0 = none).
pub const LARGE_SCALE: [char; 16] = [
    '\0', '일', '십', '백', '천', '만', '억', '조', '\0', '\0', '\0', '한', '\0', '두', '\0', '세',
];

/// Native readings: units 1..=9, then tens 0..=90 (`'\0'` = no character).
pub const SHORT_NUM_TABLE: [(char, char); 19] = [
    ('한', '\0'),
    ('두', '\0'),
    ('세', '\0'),
    ('네', '\0'),
    ('다', '섯'),
    ('여', '섯'),
    ('일', '곱'),
    ('여', '덟'),
    ('아', '홉'),
    ('\0', '\0'),
    ('열', '\0'),
    ('스', '물'),
    ('서', '른'),
    ('마', '흔'),
    ('쉰', '\0'),
    ('예', '순'),
    ('일', '흔'),
    ('여', '든'),
    ('아', '흔'),
];

/// Value of an ASCII digit or a fullwidth digit (U+FF10..=U+FF19).
pub open spec fn digit_value_spec(ch: char) -> Option<int> {
    if '0' <= ch <= '9' {
        Some(ch as int - '0' as int)
    } else if '\u{FF10}' <= ch <= '\u{FF19}' {
        Some(ch as int - 0xFF10)
    } else {
        None
    }
}

fn digit_value(ch: char) -> (r: Option<usize>)
    ensures
        match r {
            Some(d) => digit_value_spec(ch) == Some(d as int) && d < 10,
            None => digit_value_spec(ch) is None,
        },
{
    if '0' <= ch && ch <= '9' {
        return Some((ch as u32 - '0' as u32) as usize);
    }
    if '\u{FF10}' <= ch && ch <= '\u{FF19}' {
        return Some((ch as u32 - 0xFF10) as usize);
    }
    None
}

/// `[c]`, or nothing for the empty character.
pub open spec fn opt_char(c: char) -> Seq<char> {
    if c != '\0' {
        seq![c]
    } else {
        Seq::empty()
    }
}

/// Place name for `remaining` digits left (the empty character beyond the table).
pub open spec fn scale_spec(remaining: int) -> char {
    if 0 <= remaining < 16 {
        LARGE_SCALE[remaining]
    } else {
        '\0'
    }
}

/// Output of the long (Sino-Korean) reading for the digit at `idx`.
pub open spec fn long_piece(run: Seq<char>, idx: int) -> Seq<char> {
    match digit_value_spec(run[idx]) {
        None => Seq::empty(),
        Some(d) => {
            let scale = scale_spec(run.len() - idx);
            if d == 1 {
                opt_char(scale)
            } else if d != 0 {
                seq![DIGIT_SINO[d]] + (if idx + 1 != run.len() {
                    opt_char(scale)
                } else {
                    Seq::empty()
                })
            } else {
                Seq::empty()
            }
        },
    }
}

/// Long reading of the first `n` digits of a run.
pub open spec fn long_prefix(run: Seq<char>, n: int) -> Seq<char>
    decreases n,
{
    if n <= 0 {
        Seq::empty()
    } else {
        long_prefix(run, n - 1) + long_piece(run, n - 1)
    }
}

fn push_opt(out: &mut Vec<char>, c: char)
    ensures
        final(out)@ == old(out)@ + opt_char(c),
{
    if c != '\0' {
        out.push(c);
    }
}

fn convert_long_run(run: &[char]) -> (r: Vec<char>)
    ensures
        r@ == long_prefix(run@, run@.len() as int),
{
    let len = run.len();
    let mut out: Vec<char> = Vec::new();
    let mut idx: usize = 0;
    while idx < len
        invariant
            len == run@.len(),
            idx <= len,
            out@ == long_prefix(run@, idx as int),
        decreases len - idx,
    {
        let ghost before = out@;
        match digit_value(run[idx]) {
            None => {},
            Some(d) => {
                let remaining = len - idx;
                let scale = if remaining < 16 {
                    LARGE_SCALE[remaining]
                } else {
                    '\0'
                };
                if d == 1 {
                    push_opt(&mut out, scale);
                } else if d != 0 {
                    out.push(DIGIT_SINO[d]);
                    if idx + 1 != len {
                        push_opt(&mut out, scale);
                    }
                }
            },
        }
        assert(out@ =~= before + long_piece(run@, idx as int));
        idx = idx + 1;
    }
    out
}

/// Output of the short (native) reading for the digit at `idx`.
pub open spec fn short_piece(run: Seq<char>, idx: int) -> Seq<char> {
    match digit_value_spec(run[idx]) {
        None => Seq::empty(),
        Some(d) => {
            let t = (run.len() - idx - 1) * 10 + (d - 1);
            if d == 0 || t >= 19 {
                Seq::empty()
            } else {
                opt_char(SHORT_NUM_TABLE[t].0) + opt_char(SHORT_NUM_TABLE[t].1)
            }
        },
    }
}

/// Short reading of the first `n` digits of a run (before the final fix-up).
pub open spec fn short_prefix(run: Seq<char>, n: int) -> Seq<char>
    decreases n,
{
    if n <= 0 {
        Seq::empty()
    } else {
        short_prefix(run, n - 1) + short_piece(run, n - 1)
    }
}

/// A final '물' is read '무' (as in 스무).
pub open spec fn fix_mul(s: Seq<char>) -> Seq<char> {
    if s.len() > 0 && s.last() == '물' {
        s.update(s.len() - 1, '무')
    } else {
        s
    }
}

fn convert_short_run(run: &[char]) -> (r: Vec<char>)
    ensures
        r@ == fix_mul(short_prefix(run@, run@.len() as int)),
{
    let len = run.len();
    let mut out: Vec<char> = Vec::new();
    let mut idx: usize = 0;
    while idx < len
        invariant
            len == run@.len(),
            idx <= len,
            out@ == short_prefix(run@, idx as int),
        decreases len - idx,
    {
        let ghost before = out@;
        match digit_value(run[idx]) {
            None => {},
            Some(d) => {
                if d != 0 {
                    let remaining = len - idx;
                    if remaining <= 2 {
                        let t = (remaining - 1) * 10 + (d - 1);
                        if t < 19 {
                            let (a, b) = SHORT_NUM_TABLE[t];
                            push_opt(&mut out, a);
                            push_opt(&mut out, b);
                        }
                    }
                }
            },
        }
        assert(out@ =~= before + short_piece(run@, idx as int));
        idx = idx + 1;
    }
    let n = out.len();
    if n > 0 && out[n - 1] == '물' {
        out.set(n - 1, '무');
    }
    out
}

/// Sino-Korean digit names of the digits of a run, other characters dropped.
pub open spec fn sino_digits(run: Seq<char>) -> Seq<char>
    decreases run.len(),
{
    if run.len() == 0 {
        Seq::empty()
    } else {
        sino_digits(run.drop_last()) + match digit_value_spec(run.last()) {
            Some(d) => seq![DIGIT_SINO[d]],
            None => Seq::empty(),
        }
    }
}

fn map_digits_sino(run: &[char]) -> (r: Vec<char>)
    ensures
        r@ == sino_digits(run@),
{
    let mut out: Vec<char> = Vec::new();
    let mut i: usize = 0;
    while i < run.len()
        invariant
            i <= run@.len(),
            out@ == sino_digits(run@.subrange(0, i as int)),
        decreases run@.len() - i,
    {
        assert(run@.subrange(0, i + 1).drop_last() =~= run@.subrange(0, i as int));
        match digit_value(run[i]) {
            Some(d) => out.push(DIGIT_SINO[d]),
            None => {},
        }
        i = i + 1;
    }
    assert(run@.subrange(0, run@.len() as int) =~= run@);
    out
}

/// Reading of a digit run by its length: 1–2 digits native (or Sino-Korean when forced),
/// 3–5 digits with place names, longer runs digit by digit.
pub open spec fn dispatch_spec(run: Seq<char>, force_sino_short: bool) -> Seq<char> {
    if run.len() == 0 {
        Seq::empty()
    } else if run.len() == 1 {
        if force_sino_short {
            sino_digits(run)
        } else {
            fix_mul(short_prefix(run, 1))
        }
    } else if run.len() == 2 {
        if force_sino_short {
            long_prefix(run, 2)
        } else {
            fix_mul(short_prefix(run, 2))
        }
    } else if run.len() <= 5 {
        long_prefix(run, run.len() as int)
    } else {
        sino_digits(run)
    }
}

fn dispatch_convert(run: &[char], force_sino_short: bool) -> (r: Vec<char>)
    ensures
        r@ == dispatch_spec(run@, force_sino_short),
{
    let n = run.len();
    if n == 0 {
        Vec::new()
    } else if n == 1 {
        if force_sino_short {
            map_digits_sino(run)
        } else {
            convert_short_run(run)
        }
    } else if n == 2 {
        if force_sino_short {
            convert_long_run(run)
        } else {
            convert_short_run(run)
        }
    } else if n <= 5 {
        convert_long_run(run)
    } else {
        map_digits_sino(run)
    }
}

/// Whether `c[i]` exists and is a digit.
pub open spec fn digit_at(c: Seq<char>, i: int) -> bool {
    0 <= i < c.len() && digit_value_spec(c[i]) is Some
}

/// Converted text from position `i` on, given whether a digit run is open (and where it
/// started) and whether a decimal point was just read.
pub open spec fn convert_from(
    c: Seq<char>,
    force: bool,
    i: int,
    in_digits: bool,
    start: int,
    after_point: bool,
) -> Seq<char>
    decreases c.len() - i,
{
    if i < 0 || i >= c.len() {
        if in_digits {
            dispatch_spec(c.subrange(start, c.len() as int), force)
        } else {
            Seq::empty()
        }
    } else {
        let ch = c[i];
        let is_digit = digit_value_spec(ch) is Some;
        if after_point && is_digit {
            dispatch_spec(c.subrange(i, i + 1), true) + convert_from(c, force, i + 1, false, start, true)
        } else if is_digit {
            if in_digits {
                convert_from(c, force, i + 1, true, start, false)
            } else {
                convert_from(c, force, i + 1, true, i, false)
            }
        } else {
            let flushed = if in_digits {
                dispatch_spec(c.subrange(start, i), force)
            } else {
                Seq::empty()
            };
            if ch == '．' || ch == '.' {
                if in_digits || digit_at(c, i + 1) {
                    flushed + seq!['쩜'] + convert_from(c, force, i + 1, false, start, true)
                } else {
                    seq![ch] + convert_from(c, force, i + 1, false, start, false)
                }
            } else if ch == '：' || ch == ':' {
                if in_digits || digit_at(c, i + 1) {
                    flushed + seq!['대'] + convert_from(c, force, i + 1, false, start, false)
                } else {
                    seq![ch] + convert_from(c, force, i + 1, false, start, false)
                }
            } else {
                flushed + seq![ch] + convert_from(c, force, i + 1, false, start, false)
            }
        }
    }
}

fn append_chars(out: &mut Vec<char>, more: Vec<char>)
    ensures
        final(out)@ == old(out)@ + more@,
{
    let mut i: usize = 0;
    while i < more.len()
        invariant
            i <= more@.len(),
            out@ == old(out)@ + more@.subrange(0, i as int),
        decreases more@.len() - i,
    {
        out.push(more[i]);
        i = i + 1;
        assert(out@ =~= old(out)@ + more@.subrange(0, i as int));
    }
    assert(more@.subrange(0, more@.len() as int) =~= more@);
}

/// Text with each digit run, decimal point and time colon read out in Korean.
pub fn convert_number_chars(chars: &[char], force_sino_short: bool) -> (r: Vec<char>)
    ensures
        r@ == convert_from(chars@, force_sino_short, 0, false, 0, false),
{
    let len = chars.len();
    let mut out: Vec<char> = Vec::new();
    let mut i: usize = 0;
    let mut in_digits = false;
    let mut digit_start: usize = 0;
    let mut after_point = false;
    while i < len
        invariant
            len == chars@.len(),
            i <= len,
            digit_start <= i,
            convert_from(chars@, force_sino_short, 0, false, 0, false) == out@ + convert_from(
                chars@,
                force_sino_short,
                i as int,
                in_digits,
                digit_start as int,
                after_point,
            ),
        decreases len - i,
    {
        let ghost before = out@;
        let ghost (gi, gin, gst, gaft) = (i as int, in_digits, digit_start as int, after_point);
        let ch = chars[i];
        let is_digit = digit_value(ch).is_some();
        if after_point && is_digit {
            let rep = dispatch_convert(&chars[i..i + 1], true);
            append_chars(&mut out, rep);
            in_digits = false;
            i = i + 1;
            assert(out@ + convert_from(chars@, force_sino_short, i as int, false, digit_start as int, true)
                =~= before + convert_from(chars@, force_sino_short, gi, gin, gst, gaft));
            continue;
        }
        after_point = false;
        if is_digit {
            if !in_digits {
                digit_start = i;
                in_digits = true;
            }
            i = i + 1;
            continue;
        }
        if in_digits {
            let rep = dispatch_convert(&chars[digit_start..i], force_sino_short);
            append_chars(&mut out, rep);
        }
        let next_is_digit = i + 1 < len && digit_value(chars[i + 1]).is_some();
        if ch == '．' || ch == '.' {
            if in_digits || next_is_digit {
                out.push('쩜');
                after_point = true;
            } else {
                out.push(ch);
            }
        } else if ch == '：' || ch == ':' {
            if in_digits || next_is_digit {
                out.push('대');
            } else {
                out.push(ch);
            }
        } else {
            out.push(ch);
        }
        in_digits = false;
        i = i + 1;
        assert(out@ + convert_from(chars@, force_sino_short, i as int, false, digit_start as int, after_point)
            =~= before + convert_from(chars@, force_sino_short, gi, gin, gst, gaft));
    }
    if in_digits {
        let rep = dispatch_convert(&chars[digit_start..len], force_sino_short);
        append_chars(&mut out, rep);
    } else {
        assert(out@ + Seq::<char>::empty() =~= out@);
    }
    out
}

/// Apply the number-reading stage to a text. With `force_sino_short`, runs of one or two
/// digits are read in Sino-Korean (`1` → 일, `12` → 십이); otherwise natively (`1` → 한,
/// `12` → 열두). A text without digits comes back unchanged.
pub fn apply_number_conversion(text: &str, force_sino_short: bool) -> (r: String)
    ensures
        r@ == convert_from(text@, force_sino_short, 0, false, 0, false),
        digit_free(text@) ==> r@ == text@,
        ascii_digit_text(text@) && 1 <= text@.len() <= 2 ==> r@ == short_reading(text@, force_sino_short),
        ascii_digit_text(text@) && 3 <= text@.len() <= 5 ==> r@ == place_reading(text@),
        ascii_digit_text(text@) && text@.len() >= 6 ==> r@.len() == text@.len() && forall|k: int|
            0 <= k < text@.len() ==> #[trigger] r@[k] == sino_name(value_of(text@[k])),
{
    let chars = str_chars(text);
    let out = convert_number_chars(chars.as_slice(), force_sino_short);
    proof {
        if digit_free(text@) {
            lemma_digit_free_unchanged(text@, force_sino_short);
        }
        if ascii_digit_text(text@) && 1 <= text@.len() <= 2 {
            lemma_short_numbers(text@, force_sino_short);
        }
        if ascii_digit_text(text@) && 3 <= text@.len() <= 5 {
            lemma_three_to_five_digits_read_with_places(text@, force_sino_short);
        }
        if ascii_digit_text(text@) && text@.len() >= 6 {
            lemma_long_numbers_read_digit_by_digit(text@, force_sino_short);
        }
    }
    chars_to_string(&out)
}

/// Whether every character is an ASCII digit.
pub open spec fn ascii_digit_text(c: Seq<char>) -> bool {
    forall|k: int| 0 <= k < c.len() ==> '0' <= #[trigger] c[k] <= '9'
}

/// Value of an ASCII digit character.
pub open spec fn value_of(ch: char) -> int {
    ch as int - 48
}

/// Sino-Korean name of a digit: 령 일 이 삼 사 오 륙 칠 팔 구.
pub open spec fn sino_name(d: int) -> char {
    if d == 0 {
        '령'
    } else if d == 1 {
        '일'
    } else if d == 2 {
        '이'
    } else if d == 3 {
        '삼'
    } else if d == 4 {
        '사'
    } else if d == 5 {
        '오'
    } else if d == 6 {
        '륙'
    } else if d == 7 {
        '칠'
    } else if d == 8 {
        '팔'
    } else {
        '구'
    }
}

/// Name of the place of a digit with `k` digits from it to the end of the number: 십 for the
/// tens, 백 for the hundreds, 천 for the thousands, 만 for the ten thousands.
pub open spec fn place_name(k: int) -> Seq<char> {
    if k == 2 {
        seq!['십']
    } else if k == 3 {
        seq!['백']
    } else if k == 4 {
        seq!['천']
    } else if k == 5 {
        seq!['만']
    } else {
        Seq::empty()
    }
}

/// How a digit `d` in place `k` is read in a number read with place names: nothing for 0, the
/// digit's name in the units place, the place name alone for 1, else the digit's name and the
/// place name.
pub open spec fn place_piece(d: int, k: int) -> Seq<char> {
    if d == 0 {
        Seq::empty()
    } else if k == 1 {
        seq![sino_name(d)]
    } else if d == 1 {
        place_name(k)
    } else {
        seq![sino_name(d)] + place_name(k)
    }
}

/// A number of three to five ASCII digits read with place names, digit by digit from the
/// highest place (12345 → 만이천삼백사십오, 105 → 백오).
pub open spec fn place_reading(c: Seq<char>) -> Seq<char> {
    if c.len() == 3 {
        place_piece(value_of(c[0]), 3) + place_piece(value_of(c[1]), 2) + place_piece(value_of(c[2]), 1)
    } else if c.len() == 4 {
        place_piece(value_of(c[0]), 4) + place_piece(value_of(c[1]), 3) + place_piece(value_of(c[2]), 2)
            + place_piece(value_of(c[3]), 1)
    } else {
        place_piece(value_of(c[0]), 5) + place_piece(value_of(c[1]), 4) + place_piece(value_of(c[2]), 3)
            + place_piece(value_of(c[3]), 2) + place_piece(value_of(c[4]), 1)
    }
}

proof fn lemma_long_piece_is_place_piece(c: Seq<char>, i: int)
    requires
        ascii_digit_text(c),
        0 <= i < c.len() <= 5,
    ensures
        long_piece(c, i) == place_piece(value_of(c[i]), c.len() - i),
{
    let d = value_of(c[i]);
    assert('0' <= c[i] <= '9');
    assert(digit_value_spec(c[i]) == Some(d));
    assert(LARGE_SCALE[1] == '일' && LARGE_SCALE[2] == '십' && LARGE_SCALE[3] == '백' && LARGE_SCALE[4] == '천'
        && LARGE_SCALE[5] == '만');
    assert(DIGIT_SINO[2] == '이' && DIGIT_SINO[3] == '삼' && DIGIT_SINO[4] == '사' && DIGIT_SINO[5] == '오'
        && DIGIT_SINO[6] == '륙' && DIGIT_SINO[7] == '칠' && DIGIT_SINO[8] == '팔' && DIGIT_SINO[9] == '구');
    if 2 <= d {
        assert(DIGIT_SINO[d] == sino_name(d));
    }
}

/// Whole texts of digits are one digit run: the conversion reads them as [`dispatch_spec`]
/// does.
proof fn lemma_digit_text_is_one_run(c: Seq<char>, force: bool, i: int)
    requires
        ascii_digit_text(c),
        1 <= i <= c.len(),
    ensures
        convert_from(c, force, i, true, 0, false) == dispatch_spec(c, force),
    decreases c.len() - i,
{
    if i < c.len() {
        assert('0' <= c[i] <= '9');
        lemma_digit_text_is_one_run(c, force, i + 1);
    } else {
        assert(c.subrange(0, c.len() as int) =~= c);
    }
}

/// A number of three to five ASCII digits is read with place names (see [`place_reading`]),
/// whether or not short numbers are read the Sino-Korean way.
pub proof fn lemma_three_to_five_digits_read_with_places(c: Seq<char>, force: bool)
    requires
        ascii_digit_text(c),
        3 <= c.len() <= 5,
    ensures
        convert_from(c, force, 0, false, 0, false) == place_reading(c),
{
    assert('0' <= c[0] <= '9');
    lemma_digit_text_is_one_run(c, force, 1);
    reveal_with_fuel(long_prefix, 6);
    lemma_long_piece_is_place_piece(c, 0);
    lemma_long_piece_is_place_piece(c, 1);
    lemma_long_piece_is_place_piece(c, 2);
    if c.len() > 3 {
        lemma_long_piece_is_place_piece(c, 3);
    }
    if c.len() > 4 {
        lemma_long_piece_is_place_piece(c, 4);
    }
    assert(long_prefix(c, c.len() as int) =~= place_reading(c));
}

proof fn lemma_sino_digits_names(c: Seq<char>)
    requires
        ascii_digit_text(c),
    ensures
        sino_digits(c).len() == c.len(),
        forall|k: int| 0 <= k < c.len() ==> #[trigger] sino_digits(c)[k] == sino_name(value_of(c[k])),
    decreases c.len(),
{
    if c.len() > 0 {
        let p = c.drop_last();
        assert forall|k: int| 0 <= k < p.len() implies '0' <= #[trigger] p[k] <= '9' by {
            assert(p[k] == c[k]);
        }
        lemma_sino_digits_names(p);
        let d = value_of(c.last());
        assert('0' <= c[c.len() - 1] <= '9');
        assert(digit_value_spec(c.last()) == Some(d));
        assert(DIGIT_SINO[0] == '령' && DIGIT_SINO[1] == '일' && DIGIT_SINO[2] == '이' && DIGIT_SINO[3] == '삼'
            && DIGIT_SINO[4] == '사' && DIGIT_SINO[5] == '오' && DIGIT_SINO[6] == '륙' && DIGIT_SINO[7] == '칠'
            && DIGIT_SINO[8] == '팔' && DIGIT_SINO[9] == '구');
        assert(DIGIT_SINO[d] == sino_name(d));
        assert forall|k: int| 0 <= k < c.len() implies #[trigger] sino_digits(c)[k] == sino_name(value_of(c[k])) by {
            if k < p.len() {
                assert(p[k] == c[k]);
            }
        }
    }
}

/// A number of six or more ASCII digits is read digit by digit, each digit by its
/// Sino-Korean name.
pub proof fn lemma_long_numbers_read_digit_by_digit(c: Seq<char>, force: bool)
    requires
        ascii_digit_text(c),
        c.len() >= 6,
    ensures
        convert_from(c, force, 0, false, 0, false).len() == c.len(),
        forall|k: int|
            0 <= k < c.len() ==> #[trigger] convert_from(c, force, 0, false, 0, false)[k] == sino_name(
                value_of(c[k]),
            ),
{
    assert('0' <= c[0] <= '9');
    lemma_digit_text_is_one_run(c, force, 1);
    lemma_sino_digits_names(c);
}

/// Native name of a units digit: 한 두 세 네 다섯 여섯 일곱 여덟 아홉 (nothing for 0).
pub open spec fn native_unit(d: int) -> Seq<char> {
    if d == 1 {
        seq!['한']
    } else if d == 2 {
        seq!['두']
    } else if d == 3 {
        seq!['세']
    } else if d == 4 {
        seq!['네']
    } else if d == 5 {
        seq!['다', '섯']
    } else if d == 6 {
        seq!['여', '섯']
    } else if d == 7 {
        seq!['일', '곱']
    } else if d == 8 {
        seq!['여', '덟']
    } else if d == 9 {
        seq!['아', '홉']
    } else {
        Seq::empty()
    }
}

/// Native name of a tens digit: 열 스물 서른 마흔 쉰 예순 일흔 여든 아흔 (nothing for 0).
pub open spec fn native_tens(d: int) -> Seq<char> {
    if d == 1 {
        seq!['열']
    } else if d == 2 {
        seq!['스', '물']
    } else if d == 3 {
        seq!['서', '른']
    } else if d == 4 {
        seq!['마', '흔']
    } else if d == 5 {
        seq!['쉰']
    } else if d == 6 {
        seq!['예', '순']
    } else if d == 7 {
        seq!['일', '흔']
    } else if d == 8 {
        seq!['여', '든']
    } else if d == 9 {
        seq!['아', '흔']
    } else {
        Seq::empty()
    }
}

/// A number of one or two ASCII digits: read natively (7 → 일곱, 12 → 열두, 20 → 스무), or
/// with Sino-Korean names and places when `force` is set (7 → 칠, 0 → 령, 12 → 십이).
pub open spec fn short_reading(c: Seq<char>, force: bool) -> Seq<char> {
    if c.len() == 1 {
        if force {
            seq![sino_name(value_of(c[0]))]
        } else {
            native_unit(value_of(c[0]))
        }
    } else if force {
        place_piece(value_of(c[0]), 2) + place_piece(value_of(c[1]), 1)
    } else if value_of(c[0]) == 2 && value_of(c[1]) == 0 {
        seq!['스', '무']
    } else {
        native_tens(value_of(c[0])) + native_unit(value_of(c[1]))
    }
}

proof fn lemma_short_piece_native(c: Seq<char>, i: int)
    requires
        ascii_digit_text(c),
        0 <= i < c.len() <= 2,
    ensures
        short_piece(c, i) == (if c.len() - i == 1 { native_unit(value_of(c[i])) } else { native_tens(value_of(c[i])) }),
{
    let d = value_of(c[i]);
    assert('0' <= c[i] <= '9');
    assert(digit_value_spec(c[i]) == Some(d));
    assert(SHORT_NUM_TABLE[0] == ('한', '\0') && SHORT_NUM_TABLE[1] == ('두', '\0') && SHORT_NUM_TABLE[2] == ('세', '\0')
        && SHORT_NUM_TABLE[3] == ('네', '\0') && SHORT_NUM_TABLE[4] == ('다', '섯') && SHORT_NUM_TABLE[5] == ('여', '섯')
        && SHORT_NUM_TABLE[6] == ('일', '곱') && SHORT_NUM_TABLE[7] == ('여', '덟') && SHORT_NUM_TABLE[8] == ('아', '홉'));
    assert(SHORT_NUM_TABLE[10] == ('열', '\0') && SHORT_NUM_TABLE[11] == ('스', '물') && SHORT_NUM_TABLE[12] == ('서', '른')
        && SHORT_NUM_TABLE[13] == ('마', '흔') && SHORT_NUM_TABLE[14] == ('쉰', '\0') && SHORT_NUM_TABLE[15] == ('예', '순')
        && SHORT_NUM_TABLE[16] == ('일', '흔') && SHORT_NUM_TABLE[17] == ('여', '든') && SHORT_NUM_TABLE[18] == ('아', '흔'));
    if d != 0 {
        assert(short_piece(c, i) =~= (if c.len() - i == 1 { native_unit(d) } else { native_tens(d) }));
    }
}

/// A number of one or two ASCII digits is read natively, or with Sino-Korean names when
/// `force` is set (see [`short_reading`]).
pub proof fn lemma_short_numbers(c: Seq<char>, force: bool)
    requires
        ascii_digit_text(c),
        1 <= c.len() <= 2,
    ensures
        convert_from(c, force, 0, false, 0, false) == short_reading(c, force),
{
    assert('0' <= c[0] <= '9');
    lemma_digit_text_is_one_run(c, force, 1);
    reveal_with_fuel(short_prefix, 3);
    reveal_with_fuel(long_prefix, 3);
    lemma_short_piece_native(c, 0);
    lemma_long_piece_is_place_piece(c, 0);
    if c.len() == 2 {
        lemma_short_piece_native(c, 1);
        lemma_long_piece_is_place_piece(c, 1);
        assert(long_prefix(c, 2) =~= place_piece(value_of(c[0]), 2) + place_piece(value_of(c[1]), 1));
        let sp = short_prefix(c, 2);
        assert(sp =~= native_tens(value_of(c[0])) + native_unit(value_of(c[1])));
        if value_of(c[0]) == 2 && value_of(c[1]) == 0 {
            assert(sp =~= seq!['스', '물']);
            assert(fix_mul(sp) =~= seq!['스', '무']);
        } else {
            assert(fix_mul(sp) =~= sp) by {
                if sp.len() > 0 && sp.last() == '물' {
                    assert(false);
                }
            }
        }
    } else {
        assert(short_prefix(c, 1) =~= native_unit(value_of(c[0])));
        assert(fix_mul(native_unit(value_of(c[0]))) =~= native_unit(value_of(c[0])));
        lemma_sino_digits_names(c);
        assert(sino_digits(c) =~= seq![sino_name(value_of(c[0]))]);
    }
}

/// The conversion of a whole text (see [`apply_number_conversion`]).
pub open spec fn converted(c: Seq<char>, force: bool) -> Seq<char> {
    convert_from(c, force, 0, false, 0, false)
}

/// Sino-Korean names of the digits of a text of ASCII digits, one per digit.
pub open spec fn digit_names(c: Seq<char>) -> Seq<char> {
    Seq::new(c.len(), |k: int| sino_name(value_of(c[k])))
}

proof fn lemma_run_to(c: Seq<char>, force: bool, lo: int, i: int, hi: int)
    requires
        0 <= lo < i <= hi <= c.len(),
        forall|k: int| lo <= k < hi ==> '0' <= #[trigger] c[k] <= '9',
    ensures
        convert_from(c, force, i, true, lo, false) == convert_from(c, force, hi, true, lo, false),
    decreases hi - i,
{
    if i < hi {
        assert('0' <= c[i] <= '9');
        lemma_run_to(c, force, lo, i + 1, hi);
    }
}

proof fn lemma_after_point(c: Seq<char>, force: bool, j: int, s: int)
    requires
        0 <= j <= c.len(),
        forall|k: int| j <= k < c.len() ==> '0' <= #[trigger] c[k] <= '9',
    ensures
        convert_from(c, force, j, false, s, true) == digit_names(c.subrange(j, c.len() as int)),
    decreases c.len() - j,
{
    if j < c.len() {
        lemma_after_point(c, force, j + 1, s);
        let one = c.subrange(j, j + 1);
        assert('0' <= c[j] <= '9');
        assert(one[0] == c[j]);
        lemma_sino_digits_names(one);
        assert(dispatch_spec(one, true) =~= seq![sino_name(value_of(c[j]))]);
        assert(digit_names(c.subrange(j, c.len() as int)) =~= seq![sino_name(value_of(c[j]))] + digit_names(
            c.subrange(j + 1, c.len() as int),
        ));
    } else {
        assert(digit_names(c.subrange(j, c.len() as int)) =~= Seq::<char>::empty());
    }
}

/// A decimal number is read as its whole part, then 쩜, then each digit of the fraction by
/// its Sino-Korean name (3.14 → 삼쩜일사).
pub proof fn lemma_decimal_reading(a: Seq<char>, b: Seq<char>, force: bool)
    requires
        ascii_digit_text(a),
        ascii_digit_text(b),
        a.len() >= 1,
        b.len() >= 1,
    ensures
        converted(a + seq!['.'] + b, force) == converted(a, force) + seq!['쩜'] + digit_names(b),
{
    let c = a + seq!['.'] + b;
    let n = a.len() as int;
    assert(c[0] == a[0]);
    assert('0' <= a[0] <= '9');
    assert forall|k: int| 0 <= k < n implies '0' <= #[trigger] c[k] <= '9' by {
        assert(c[k] == a[k]);
    }
    assert forall|k: int| n + 1 <= k < c.len() implies '0' <= #[trigger] c[k] <= '9' by {
        assert(c[k] == b[k - n - 1]);
    }
    if n > 1 {
        lemma_run_to(c, force, 0, 1, n);
    }
    assert(c[n] == '.');
    assert(c.subrange(0, n) =~= a);
    assert(digit_at(c, n + 1)) by {
        assert(c[n + 1] == b[0]);
    }
    lemma_after_point(c, force, n + 1, 0);
    assert(c.subrange(n + 1, c.len() as int) =~= b);
    lemma_digit_text_is_one_run(a, force, 1);
    assert(digit_value_spec(c[0]) is Some);
    assert(convert_from(c, force, 0, false, 0, false) == convert_from(c, force, 1, true, 0, false));
    assert(digit_value_spec(c[n]) is None);
    assert(convert_from(c, force, n, true, 0, false) == dispatch_spec(a, force) + seq!['쩜'] + convert_from(
        c,
        force,
        n + 1,
        false,
        0,
        true,
    ));
    assert(converted(a, force) == dispatch_spec(a, force));
}

/// A time is read as its hours, then 대, then its minutes, each part as a number on its own
/// (12:30 → 열두대서른 when short numbers are read natively).
pub proof fn lemma_time_reading(a: Seq<char>, b: Seq<char>, force: bool)
    requires
        ascii_digit_text(a),
        ascii_digit_text(b),
        a.len() >= 1,
        b.len() >= 1,
    ensures
        converted(a + seq![':'] + b, force) == converted(a, force) + seq!['대'] + converted(b, force),
{
    let c = a + seq![':'] + b;
    let n = a.len() as int;
    assert(c[0] == a[0]);
    assert('0' <= a[0] <= '9');
    assert forall|k: int| 0 <= k < n implies '0' <= #[trigger] c[k] <= '9' by {
        assert(c[k] == a[k]);
    }
    assert forall|k: int| n + 1 <= k < c.len() implies '0' <= #[trigger] c[k] <= '9' by {
        assert(c[k] == b[k - n - 1]);
    }
    if n > 1 {
        lemma_run_to(c, force, 0, 1, n);
    }
    assert(c[n] == ':');
    assert(c.subrange(0, n) =~= a);
    assert('0' <= c[n + 1] <= '9');
    if n + 2 <= c.len() {
        lemma_run_to(c, force, n + 1, n + 2, c.len() as int);
    }
    assert(c.subrange(n + 1, c.len() as int) =~= b);
    lemma_digit_text_is_one_run(a, force, 1);
    assert('0' <= b[0] <= '9');
    lemma_digit_text_is_one_run(b, force, 1);
    assert(digit_value_spec(c[0]) is Some);
    assert(convert_from(c, force, 0, false, 0, false) == convert_from(c, force, 1, true, 0, false));
    assert(digit_value_spec(c[n]) is None);
    assert(convert_from(c, force, n, true, 0, false) == dispatch_spec(a, force) + seq!['대'] + convert_from(
        c,
        force,
        n + 1,
        false,
        0,
        false,
    ));
    assert(digit_value_spec(c[n + 1]) is Some);
    assert(convert_from(c, force, n + 1, false, 0, false) == convert_from(c, force, n + 2, true, n + 1, false));
    assert(convert_from(c, force, c.len() as int, true, n + 1, false) == dispatch_spec(b, force));
    assert(converted(a, force) == dispatch_spec(a, force));
    assert(converted(b, force) == dispatch_spec(b, force));
}

/// Text without ASCII or fullwidth digits.
pub open spec fn digit_free(c: Seq<char>) -> bool {
    forall|k: int| 0 <= k < c.len() ==> digit_value_spec(#[trigger] c[k]) is None
}

proof fn lemma_digit_free_from(c: Seq<char>, force: bool, i: int, start: int)
    requires
        digit_free(c),
        0 <= i <= c.len(),
    ensures
        convert_from(c, force, i, false, start, false) == c.subrange(i, c.len() as int),
    decreases c.len() - i,
{
    if i < c.len() {
        lemma_digit_free_from(c, force, i + 1, start);
        assert(digit_value_spec(c[i]) is None);
        assert(!digit_at(c, i + 1)) by {
            if i + 1 < c.len() {
                assert(digit_value_spec(c[i + 1]) is None);
            }
        }
        assert(c.subrange(i, c.len() as int) =~= seq![c[i]] + c.subrange(i + 1, c.len() as int));
        assert(Seq::<char>::empty() + seq![c[i]] =~= seq![c[i]]);
    } else {
        assert(c.subrange(i, c.len() as int) =~= Seq::<char>::empty());
    }
}

/// Text without digits comes out of the number conversion unchanged, whatever the mode:
/// points, colons and every other character are copied when no digit is next to them.
pub proof fn lemma_digit_free_unchanged(c: Seq<char>, force: bool)
    requires
        digit_free(c),
    ensures
        convert_from(c, force, 0, false, 0, false) == c,
{
    lemma_digit_free_from(c, force, 0, 0);
    assert(c.subrange(0, c.len() as int) =~= c);
}

} // verus!
