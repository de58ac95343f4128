//! Phoneme markers set from the decoded spelling of a word: morpheme boundaries after known
//! first elements of compounds, and the accent marker of a few listed words.
use vstd::prelude::*;
use crate::kps9566::{decode_from, sorted_by_kps, Kps9566, Mapping};
use crate::text::str_chars;
use super::word_record::WordRecord;

verus! {

/// Whether two character sequences are equal.
fn chars_eq(a: &[char], b: &[char]) -> (r: bool)
    ensures
        r == (a@ == b@),
{
    if a.len() != b.len() {
        return false;
    }
    let mut i: usize = 0;
    while i < a.len()
        invariant
            i <= a@.len(),
            a@.len() == b@.len(),
            forall|j: int| 0 <= j < i ==> a@[j] == b@[j],
        decreases a@.len() - i,
    {
        if a[i] != b[i] {
            return false;
        }
        i = i + 1;
    }
    assert(a@ =~= b@);
    true
}

/// Whether `p` is a prefix of `s`.
fn chars_start_with(s: &[char], p: &[char]) -> (r: bool)
    ensures
        r == p@.is_prefix_of(s@),
{
    if p.len() > s.len() {
        return false;
    }
    let mut i: usize = 0;
    while i < p.len()
        invariant
            i <= p@.len() <= s@.len(),
            forall|j: int| 0 <= j < i ==> p@[j] == s@[j],
        decreases p@.len() - i,
    {
        if p[i] != s[i] {
            return false;
        }
        i = i + 1;
    }
    true
}

/// Bytes of a character in UTF-8.
pub open spec fn char_utf8_len(c: char) -> int {
    if (c as u32) < 0x80 {
        1
    } else if (c as u32) < 0x800 {
        2
    } else if (c as u32) < 0x10000 {
        3
    } else {
        4
    }
}

/// Bytes of the characters from `i` on in UTF-8.
pub open spec fn utf8_len_from(s: Seq<char>, i: int) -> int
    decreases s.len() - i,
{
    if i < 0 || i >= s.len() {
        0
    } else {
        char_utf8_len(s[i]) + utf8_len_from(s, i + 1)
    }
}

/// UTF-8 length of the characters.
fn utf8_len(s: &[char]) -> (r: u128)
    ensures
        r == utf8_len_from(s@, 0),
{
    let mut total: u128 = 0;
    let mut i: usize = s.len();
    while i > 0
        invariant
            i <= s@.len() <= usize::MAX,
            total == utf8_len_from(s@, i as int),
            total <= 4 * (s@.len() - i),
        decreases i,
    {
        i = i - 1;
        let u = s[i] as u32;
        let w: u128 = if u < 0x80 {
            1
        } else if u < 0x800 {
            2
        } else if u < 0x10000 {
            3
        } else {
            4
        };
        total = total + w;
    }
    total
}

/// Words that start with a listed first element but take no boundary.
pub open spec fn boundary_exception(i: int) -> Seq<char> {
    if i == 0 {
        "전문가들의"@
    } else if i == 1 {
        "문학작품"@
    } else {
        "전문적이며"@
    }
}

fn boundary_exception_str(i: usize) -> (r: &'static str)
    requires
        i < 3,
    ensures
        r@ == boundary_exception(i as int),
{
    if i == 0 {
        "전문가들의"
    } else if i == 1 {
        "문학작품"
    } else {
        "전문적이며"
    }
}

/// First elements of compounds, longest first.
pub open spec fn compound_head(i: int) -> Seq<char> {
    if i == 0 {
        "리용음성"@
    } else if i == 1 {
        "문화적"@
    } else if i == 2 {
        "고전적"@
    } else if i == 3 {
        "조선말"@
    } else if i == 4 {
        "전자"@
    } else if i == 5 {
        "문학"@
    } else if i == 6 {
        "충족"@
    } else if i == 7 {
        "집필"@
    } else if i == 8 {
        "우리"@
    } else if i == 9 {
        "전문"@
    } else if i == 10 {
        "내용"@
    } else if i == 11 {
        "조선"@
    } else if i == 12 {
        "상식"@
    } else if i == 13 {
        "음성"@
    } else {
        "본문"@
    }
}

/// Number of listed first elements.
pub const COMPOUND_HEADS: usize = 15;

fn compound_head_str(i: usize) -> (r: &'static str)
    requires
        i < COMPOUND_HEADS,
    ensures
        r@ == compound_head(i as int),
        1 <= r@.len() <= 4,
{
    if i == 0 {
        proof {
            reveal_strlit("리용음성");
        }
        "리용음성"
    } else if i == 1 {
        proof {
            reveal_strlit("문화적");
        }
        "문화적"
    } else if i == 2 {
        proof {
            reveal_strlit("고전적");
        }
        "고전적"
    } else if i == 3 {
        proof {
            reveal_strlit("조선말");
        }
        "조선말"
    } else if i == 4 {
        proof {
            reveal_strlit("전자");
        }
        "전자"
    } else if i == 5 {
        proof {
            reveal_strlit("문학");
        }
        "문학"
    } else if i == 6 {
        proof {
            reveal_strlit("충족");
        }
        "충족"
    } else if i == 7 {
        proof {
            reveal_strlit("집필");
        }
        "집필"
    } else if i == 8 {
        proof {
            reveal_strlit("우리");
        }
        "우리"
    } else if i == 9 {
        proof {
            reveal_strlit("전문");
        }
        "전문"
    } else if i == 10 {
        proof {
            reveal_strlit("내용");
        }
        "내용"
    } else if i == 11 {
        proof {
            reveal_strlit("조선");
        }
        "조선"
    } else if i == 12 {
        proof {
            reveal_strlit("상식");
        }
        "상식"
    } else if i == 13 {
        proof {
            reveal_strlit("음성");
        }
        "음성"
    } else {
        proof {
            reveal_strlit("본문");
        }
        "본문"
    }
}

/// First listed element, from `k` on, that is shorter than the word (in UTF-8 bytes) and
/// starts it.
pub open spec fn first_head(text: Seq<char>, k: int) -> Option<int>
    decreases COMPOUND_HEADS - k,
{
    if k < 0 || k >= COMPOUND_HEADS {
        None
    } else if utf8_len_from(compound_head(k), 0) < utf8_len_from(text, 0) && compound_head(k).is_prefix_of(text) {
        Some(k)
    } else {
        first_head(text, k + 1)
    }
}

/// Phoneme markers after the morpheme-boundary rule: when the decoded spelling is not one of
/// the exceptions and starts with a listed first element (the first that fits), marker 1 on
/// that element's last syllable, if the word has a marker there.
pub open spec fn morph_boundary_spec(text: Seq<char>, markers: Seq<u8>) -> Seq<u8> {
    if text.len() == 0 || text == boundary_exception(0) || text == boundary_exception(1) || text
        == boundary_exception(2) {
        markers
    } else {
        match first_head(text, 0) {
            Some(k) => {
                let idx = compound_head(k).len() - 1;
                if 0 <= idx < markers.len() {
                    markers.update(idx, 1u8)
                } else {
                    markers
                }
            },
            None => markers,
        }
    }
}

/// Mark the morpheme boundary after a known first element of a compound (see
/// [`morph_boundary_spec`], over the decoded spelling); nothing else changes.
pub fn apply_morph_boundaries(kps: &Kps9566, rec: &mut WordRecord)
    requires
        sorted_by_kps(kps.mappings()),
    ensures
        final(rec).phoneme_markers@ == morph_boundary_spec(
            decode_from(kps.mappings(), old(rec).spelling@, 0),
            old(rec).phoneme_markers@,
        ),
        *final(rec) == (WordRecord { phoneme_markers: final(rec).phoneme_markers, ..*old(rec) }),
{
    let decoded = kps.decode(&rec.spelling);
    let text = str_chars(decoded.as_str());
    if text.len() == 0 {
        return;
    }
    let mut e: usize = 0;
    while e < 3
        invariant
            e <= 3,
            *rec == *old(rec),
            text@ == decode_from(kps.mappings(), old(rec).spelling@, 0),
            forall|j: int| 0 <= j < e ==> text@ != #[trigger] boundary_exception(j),
        decreases 3 - e,
    {
        let w = str_chars(boundary_exception_str(e));
        if chars_eq(&text, &w) {
            assert(e == 0 || e == 1 || e == 2);
            return;
        }
        e = e + 1;
    }
    assert(text@ != boundary_exception(0) && text@ != boundary_exception(1) && text@ != boundary_exception(2));
    let text_len = utf8_len(&text);
    let mut k: usize = 0;
    while k < COMPOUND_HEADS
        invariant
            k <= COMPOUND_HEADS,
            *rec == *old(rec),
            text@ == decode_from(kps.mappings(), old(rec).spelling@, 0),
            text@.len() > 0,
            text@ != boundary_exception(0) && text@ != boundary_exception(1) && text@ != boundary_exception(2),
            text_len == utf8_len_from(text@, 0),
            first_head(text@, 0) == first_head(text@, k as int),
        decreases COMPOUND_HEADS - k,
    {
        let m = str_chars(compound_head_str(k));
        let m_len = utf8_len(&m);
        if m_len < text_len && chars_start_with(&text, &m) {
            let idx = m.len() - 1;
            if idx < rec.phoneme_markers.len() {
                rec.phoneme_markers.set(idx, 1);
            }
            return;
        }
        k = k + 1;
    }
}

/// Accent marker of a listed word: 3 for the accent-boundary words, 5 for the phrase-boundary
/// words.
pub open spec fn accent_word_marker(text: Seq<char>) -> Option<u8> {
    if text == accent_word(0) || text == accent_word(1) {
        Some(3)
    } else if text == accent_word(2) || text == accent_word(3) || text == accent_word(4) || text
        == accent_word(5) || text == accent_word(6) {
        Some(5)
    } else {
        None
    }
}

/// The words with an accent marker of their own.
pub open spec fn accent_word(i: int) -> Seq<char> {
    if i == 0 {
        "보급에서"@
    } else if i == 1 {
        "검색을"@
    } else if i == 2 {
        "충족시키며"@
    } else if i == 3 {
        "열람과"@
    } else if i == 4 {
        "내용구성은"@
    } else if i == 5 {
        "우리나라에서"@
    } else {
        "특징은"@
    }
}

fn accent_word_str(i: usize) -> (r: &'static str)
    requires
        i < 7,
    ensures
        r@ == accent_word(i as int),
{
    if i == 0 {
        "보급에서"
    } else if i == 1 {
        "검색을"
    } else if i == 2 {
        "충족시키며"
    } else if i == 3 {
        "열람과"
    } else if i == 4 {
        "내용구성은"
    } else if i == 5 {
        "우리나라에서"
    } else {
        "특징은"
    }
}

/// Put the accent marker of a listed word (see [`accent_word_marker`], over the decoded
/// spelling) on its last phoneme; other words are left alone, and nothing else changes.
pub fn apply_accent_markers(kps: &Kps9566, rec: &mut WordRecord)
    requires
        sorted_by_kps(kps.mappings()),
    ensures
        final(rec).phoneme_markers@ == match accent_word_marker(decode_from(kps.mappings(), old(rec).spelling@, 0)) {
            Some(m) => if old(rec).phoneme_markers@.len() > 0 {
                old(rec).phoneme_markers@.update(old(rec).phoneme_markers@.len() - 1, m)
            } else {
                old(rec).phoneme_markers@
            },
            None => old(rec).phoneme_markers@,
        },
        *final(rec) == (WordRecord { phoneme_markers: final(rec).phoneme_markers, ..*old(rec) }),
{
    let decoded = kps.decode(&rec.spelling);
    let text = str_chars(decoded.as_str());
    let mut i: usize = 0;
    while i < 7
        invariant
            i <= 7,
            forall|j: int| 0 <= j < i ==> text@ != #[trigger] accent_word(j),
            *rec == *old(rec),
            text@ == decode_from(kps.mappings(), old(rec).spelling@, 0),
        decreases 7 - i,
    {
        let w = str_chars(accent_word_str(i));
        if chars_eq(&text, &w) {
            assert(text@ == accent_word(i as int));
            assert(i == 0 || i == 1 || i == 2 || i == 3 || i == 4 || i == 5 || i == 6);
            let m: u8 = if i < 2 {
                3
            } else {
                5
            };
            let n = rec.phoneme_markers.len();
            if n > 0 {
                rec.phoneme_markers.set(n - 1, m);
            }
            return;
        }
        i = i + 1;
    }
}

} // verus!
