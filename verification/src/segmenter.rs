//! Tokenizer / sentence splitter over internal-code bytes.
//!
//! ASCII bytes are 1-byte tokens and KPS 9566 characters 2-byte tokens. Sentences end at
//! `.`, `!`, `?` (ASCII or KPS) followed by a non-continuation token, with exceptions for a
//! period between syllables, digits or jamo; long sentences are force-broken.
use vstd::prelude::*;

verus! {

/// One sentence: its bytes and the input offset where it began.
#[derive(Debug, Clone, PartialEq, Eq)]
pub struct Sentence {
    pub text: Vec<u8>,
    pub start: usize,
}

/// Size of the tokenizer's text buffer.
pub const TOKEN_BUFFER_SIZE: usize = 50000;

/// Hard flush limit: a sentence is flushed once it holds more than this many bytes.
pub const HARD_FLUSH_LIMIT: usize = 0xC34C;

/// Forced sentence break once the current sentence exceeds this many bytes.
pub const MAX_SENTENCE_BYTES: usize = 0x1F0;

/// KPS ideographic space.
pub const KPS_SPACE: u16 = 0xA1A1;
/// KPS full stop.
pub const KPS_FULL_STOP: u16 = 0xA1A5;
/// KPS question mark.
pub const KPS_QUESTION: u16 = 0xA1A9;
/// KPS exclamation mark.
pub const KPS_EXCLAMATION: u16 = 0xA1AA;

/// KPS 9566 code standing for each byte value (the upper half as the engine's table has it).
pub const ASCII_TO_KPS: [u16; 256] = [
    0x0000, 0x0000, 0x0000, 0x0000, 0x0000, 0x0000, 0x0000, 0x0000, 0x0000, 0x0009, 0x0000, 0x0000,
    0x0000, 0x0000, 0x0000, 0x0000, 0x0000, 0x0000, 0x0000, 0x0000, 0x0000, 0x0000, 0x0000, 0x0000,
    0x0000, 0x0000, 0x0000, 0x0000, 0x0000, 0x0000, 0x0000, 0x0000, 0xA1A1, 0xA1AA, 0xA1D4, 0xA2D7,
    0xA8A8, 0xA8AC, 0xA2D8, 0xA1BB, 0xA1CA, 0xA1CB, 0xA2D9, 0xA2A1, 0xA1A4, 0xA1AF, 0xA1A5, 0xA1B3,
    0xA3B0, 0xA3B1, 0xA3B2, 0xA3B3, 0xA3B4, 0xA3B5, 0xA3B6, 0xA3B7, 0xA3B8, 0xA3B9, 0xA1A7, 0xA1A8,
    0xA2A8, 0xA2A6, 0xA2A9, 0xA1A9, 0xA2DA, 0xA3C1, 0xA3C2, 0xA3C3, 0xA3C4, 0xA3C5, 0xA3C6, 0xA3C7,
    0xA3C8, 0xA3C9, 0xA3CA, 0xA3CB, 0xA3CC, 0xA3CD, 0xA3CE, 0xA3CF, 0xA3D0, 0xA3D1, 0xA3D2, 0xA3D3,
    0xA3D4, 0xA3D5, 0xA3D6, 0xA3D7, 0xA3D8, 0xA3D9, 0xA3DA, 0xA1CE, 0xA1B4, 0xA1CF, 0xA1BE, 0xA1B1,
    0xA1BC, 0xA3E1, 0xA3E2, 0xA3E3, 0xA3E4, 0xA3E5, 0xA3E6, 0xA3E7, 0xA3E8, 0xA3E9, 0xA3EA, 0xA3EB,
    0xA3EC, 0xA3ED, 0xA3EE, 0xA3EF, 0xA3F0, 0xA3F1, 0xA3F2, 0xA3F3, 0xA3F4, 0xA3F5, 0xA3F6, 0xA3F7,
    0xA3F8, 0xA3F9, 0xA3FA, 0xA1D0, 0xA1D0, 0xA1B5, 0xA1D1, 0x0000, 0x0200, 0x0202, 0x0403, 0x0704,
    0x0001, 0x0000, 0x0000, 0x0500, 0x0505, 0x0000, 0x0006, 0x0000, 0x0100, 0x0000, 0x7520, 0x0047,
    0x751C, 0x0047, 0x7518, 0x0047, 0x7514, 0x0047, 0x68C7, 0x0047, 0x7510, 0x0047, 0x750C, 0x0047,
    0x7508, 0x0047, 0x7504, 0x0047, 0x68C7, 0x0047, 0x7500, 0x0047, 0x74FC, 0x0047, 0x74F8, 0x0047,
    0x74F4, 0x0047, 0x74F0, 0x0047, 0x74EC, 0x0047, 0x74E8, 0x0047, 0x74E4, 0x0047, 0x74E0, 0x0047,
    0x74DC, 0x0047, 0x68C7, 0x0047, 0x74D8, 0x0047, 0x74D4, 0x0047, 0x74D0, 0x0047, 0x74CC, 0x0047,
    0x68C7, 0x0047, 0x0000, 0x0000, 0x6718, 0x0047, 0x74C8, 0x0047, 0x74C4, 0x0047, 0x74C0, 0x0047,
    0x74BC, 0x0047, 0x74B8, 0x0047, 0x74B4, 0x0047, 0x66D4, 0x0047, 0x74B0, 0x0047, 0x74AC, 0x0047,
    0x6704, 0x0047, 0x74A8, 0x0047, 0x74A4, 0x0047, 0x74A0, 0x0047, 0x749C, 0x0047, 0x7498, 0x0047,
    0x7494, 0x0047, 0x7490, 0x0047, 0x748C, 0x0047, 0x7488, 0x0047, 0x7484, 0x0047, 0x7480, 0x0047,
    0x747C, 0x0047, 0x7478, 0x0047, 0x7474, 0x0047, 0x7470, 0x0047, 0x746C, 0x0047, 0x7468, 0x0047,
    0x7464, 0x0047, 0x7460, 0x0047,
];

/// A KPS code in the Hangul syllable grid: lead byte 0xA1..0xCC, trail byte 0xA0..0xFE.
pub open spec fn is_syllable_code_spec(ch: u16) -> bool {
    0xA0 < ch / 256 && ch / 256 < 0xCD && 0x9F < ch % 256 && ch % 256 < 0xFF
}

/// Character class of a 16-bit code: the index of the code range it falls in, 0 when none.
pub open spec fn char_class_spec(ch: u16) -> u8 {
    if 0xA1A0 < ch && ch < 0xA1F4 {
        1
    } else if 0xA2A0 < ch && ch < 0xA2DD {
        2
    } else if 0xA2DC < ch && ch < 0xA2FF {
        3
    } else if 0xA3AF < ch && ch < 0xA3BA {
        4
    } else if 0xA3C0 < ch && ch < 0xA3DB {
        5
    } else if 0xA3E0 < ch && ch < 0xA3FB {
        6
    } else if 0xA4A0 < ch && ch < 0xA4D4 {
        7
    } else if 0xA4E7 < ch && ch < 0xA4EE {
        8
    } else if 0xA5A0 < ch && ch < 0xA5C2 {
        9
    } else if 0xA5D0 < ch && ch < 0xA5F2 {
        10
    } else if 0xA6A0 < ch && ch < 0xA6B9 {
        0xB
    } else if 0xA6C0 < ch && ch < 0xA6D9 {
        0xC
    } else if 0xA6E0 < ch && ch < 0xA6EB {
        0xD
    } else if 0xA6F0 < ch && ch < 0xA6FB {
        0xE
    } else if 0xA7A0 < ch && ch < 0xA7BF {
        0xF
    } else if 0xA7C0 < ch && ch < 0xA7CF {
        0x10
    } else if 0xA7D0 < ch && ch < 0xA7DF {
        0x11
    } else if 0xA7DF < ch && ch < 0xA7EF {
        0x12
    } else if 0xA7EF < ch && ch < 0xA7FF {
        0x13
    } else if 0xA8A0 < ch && ch < 0xA8FF {
        0x14
    } else if 0xA9A0 < ch && ch < 0xA9E5 {
        0x15
    } else if 0xAAA0 < ch && ch < 0xAAF4 {
        0x16
    } else if 0xABA0 < ch && ch < 0xABF7 {
        0x17
    } else if 0xACA0 < ch && ch < 0xACE1 {
        0x18
    } else if 0xB0A0 < ch && ch < 0xCCD0 && is_syllable_code_spec(ch) {
        0x19
    } else if 0xCDA0 < ch && ch < 0xFED0 {
        0x1A
    } else {
        0
    }
}

/// Character class of a 16-bit code.
pub fn char_class_16(ch: u16) -> (r: u8)
    ensures
        r == char_class_spec(ch),
{
    if (0xA1A0 < ch) && (ch < 0xA1F4) {
        return 1;
    }
    if (0xA2A0 < ch) && (ch < 0xA2DD) {
        return 2;
    }
    if (0xA2DC < ch) && (ch < 0xA2FF) {
        return 3;
    }
    if (0xA3AF < ch) && (ch < 0xA3BA) {
        return 4;
    }
    if (0xA3C0 < ch) && (ch < 0xA3DB) {
        return 5;
    }
    if (0xA3E0 < ch) && (ch < 0xA3FB) {
        return 6;
    }
    if (0xA4A0 < ch) && (ch < 0xA4D4) {
        return 7;
    }
    if (0xA4E7 < ch) && (ch < 0xA4EE) {
        return 8;
    }
    if (0xA5A0 < ch) && (ch < 0xA5C2) {
        return 9;
    }
    if (0xA5D0 < ch) && (ch < 0xA5F2) {
        return 10;
    }
    if (0xA6A0 < ch) && (ch < 0xA6B9) {
        return 0xB;
    }
    if (0xA6C0 < ch) && (ch < 0xA6D9) {
        return 0xC;
    }
    if (0xA6E0 < ch) && (ch < 0xA6EB) {
        return 0xD;
    }
    if (0xA6F0 < ch) && (ch < 0xA6FB) {
        return 0xE;
    }
    if (0xA7A0 < ch) && (ch < 0xA7BF) {
        return 0xF;
    }
    if (0xA7C0 < ch) && (ch < 0xA7CF) {
        return 0x10;
    }
    if (0xA7D0 < ch) && (ch < 0xA7DF) {
        return 0x11;
    }
    if (0xA7DF < ch) && (ch < 0xA7EF) {
        return 0x12;
    }
    if (0xA7EF < ch) && (ch < 0xA7FF) {
        return 0x13;
    }
    if (0xA8A0 < ch) && (ch < 0xA8FF) {
        return 0x14;
    }
    if (0xA9A0 < ch) && (ch < 0xA9E5) {
        return 0x15;
    }
    if (0xAAA0 < ch) && (ch < 0xAAF4) {
        return 0x16;
    }
    if (0xABA0 < ch) && (ch < 0xABF7) {
        return 0x17;
    }
    if (0xACA0 < ch) && (ch < 0xACE1) {
        return 0x18;
    }
    if (0xB0A0 < ch) && (ch < 0xCCD0) && is_syllable_code(ch) {
        return 0x19;
    }
    if (0xCDA0 < ch) && (ch < 0xFED0) {
        return 0x1A;
    }
    0
}

/// Class of an ASCII byte (the class of its KPS equivalent).
pub open spec fn byte_class_spec(b: u8) -> u8 {
    char_class_spec(ASCII_TO_KPS@[b as int])
}

/// Character class of a single byte via its KPS 9566 equivalent.
pub fn char_class(byte: u8) -> (r: u8)
    ensures
        r == byte_class_spec(byte),
{
    char_class_16(ASCII_TO_KPS[byte as usize])
}

/// ASCII sentence punctuation: `!`, `.`, `?`.
pub open spec fn is_sentence_punct_ascii_spec(b: u8) -> bool {
    b == 0x21 || b == 0x2E || b == 0x3F
}

/// ASCII sentence punctuation: `!`, `.`, `?`.
pub fn is_sentence_punct_ascii(b: u8) -> (r: bool)
    ensures
        r == is_sentence_punct_ascii_spec(b),
{
    b == 0x21 || b == 0x2E || b == 0x3F
}

/// ASCII bytes that continue a sentence after punctuation: tab, space, `(`, `<`.
pub open spec fn is_continue_ascii_spec(b: u8) -> bool {
    b == 0x09 || b == 0x20 || b == 0x28 || b == 0x3C
}

/// ASCII bytes that continue a sentence after punctuation: tab, space, `(`, `<`.
pub fn is_continue_ascii(b: u8) -> (r: bool)
    ensures
        r == is_continue_ascii_spec(b),
{
    b == 0x09 || b == 0x20 || b == 0x28 || b == 0x3C
}

/// KPS characters that continue a sentence after punctuation.
pub open spec fn is_continue_kps_spec(ch: u16) -> bool {
    ch == 0xA1A1 || ch == 0xA1CA || ch == 0xA1D2 || ch == 0xA1D4 || ch == 0xA2A8 || ch == 0xA2B8
}

/// KPS characters that continue a sentence after punctuation.
pub fn is_continue_kps(ch: u16) -> (r: bool)
    ensures
        r == is_continue_kps_spec(ch),
{
    ch == 0xA1A1 || ch == 0xA1CA || ch == 0xA1D2 || ch == 0xA1D4 || ch == 0xA2A8 || ch == 0xA2B8
}

/// KPS sentence punctuation: full stop, question mark, exclamation mark.
pub open spec fn is_sentence_punct_kps_spec(ch: u16) -> bool {
    ch == KPS_FULL_STOP || ch == KPS_QUESTION || ch == KPS_EXCLAMATION
}

/// KPS sentence punctuation: full stop, question mark, exclamation mark.
pub fn is_sentence_punct_kps(ch: u16) -> (r: bool)
    ensures
        r == is_sentence_punct_kps_spec(ch),
{
    ch == KPS_FULL_STOP || ch == KPS_QUESTION || ch == KPS_EXCLAMATION
}

/// A code in the KPS Hangul syllable grid.
pub fn is_syllable_code(ch: u16) -> (r: bool)
    ensures
        r == is_syllable_code_spec(ch),
{
    (0xA0 < ch / 256) && (ch / 256 < 0xCD) && (0x9F < ch % 256) && (ch % 256 < 0xFF)
}

/// Two bytes as a big-endian 16-bit code.
pub open spec fn be16(hi: u8, lo: u8) -> u16 {
    (hi * 256 + lo) as u16
}

/// Class and byte length of the token at the start of `b` (`(0, 0)` when there is none).
pub open spec fn next_token_class_spec(b: Seq<u8>) -> (u8, usize) {
    if b.len() == 0 {
        (0, 0)
    } else if b[0] < 0x80 {
        let c = byte_class_spec(b[0]);
        if c != 0 {
            (c, 1)
        } else {
            (0, 0)
        }
    } else if b[0] < 0xA1 {
        (0, 0)
    } else {
        let c = char_class_spec(be16(b[0], if b.len() > 1 { b[1] } else { 0 }));
        if c != 0 {
            (c, 2)
        } else {
            (0, 0)
        }
    }
}

/// Whether the bytes from `i` on are whole characters: an ASCII byte alone, any other byte
/// followed by its second byte.
pub open spec fn whole_chars_from(b: Seq<u8>, i: int) -> bool
    decreases b.len() - i,
{
    if i < 0 || i >= b.len() {
        true
    } else if b[i] < 0x80 {
        whole_chars_from(b, i + 1)
    } else {
        i + 1 < b.len() && whole_chars_from(b, i + 2)
    }
}

/// Whether the bytes are whole characters (see [`whole_chars_from`]).
pub fn is_whole_chars(b: &[u8]) -> (r: bool)
    ensures
        r == whole_chars_from(b@, 0),
{
    let mut i: usize = 0;
    while i < b.len()
        invariant
            i <= b@.len(),
            whole_chars_from(b@, 0) == whole_chars_from(b@, i as int),
        decreases b@.len() - i,
    {
        if b[i] < 0x80 {
            i = i + 1;
        } else if i + 1 < b.len() {
            i = i + 2;
        } else {
            return false;
        }
    }
    true
}

/// Class and byte length of the next token.
pub fn next_token_class(bytes: &[u8]) -> (r: (u8, usize))
    ensures
        r == next_token_class_spec(bytes@),
{
    if bytes.len() == 0 {
        return (0, 0);
    }
    let b0 = bytes[0];
    let code: u16 = if b0 < 0x80 {
        ASCII_TO_KPS[b0 as usize]
    } else if b0 < 0xA1 {
        return (0, 0);
    } else {
        let b1: u8 = if bytes.len() > 1 {
            bytes[1]
        } else {
            0
        };
        (b0 as u16) * 256 + b1 as u16
    };
    let class = char_class_16(code);
    if class != 0 {
        let len: usize = if b0 < 0x80 {
            1
        } else {
            2
        };
        (class, len)
    } else {
        (0, 0)
    }
}

/// Tokenizer state: finished sentences (text, start), current bytes, current start, last class.
pub type TokState = (Seq<(Seq<u8>, int)>, Seq<u8>, int, u8);

/// The (text, start) pairs of a list of sentences.
pub open spec fn sentences_view(v: Seq<Sentence>) -> Seq<(Seq<u8>, int)> {
    v.map_values(|s: Sentence| (s.text@, s.start as int))
}

/// Length of the input up to (not including) its first NUL byte, scanning from `i`.
pub open spec fn nul_len_from(t: Seq<u8>, i: int) -> int
    decreases t.len() - i,
{
    if i < 0 || i >= t.len() {
        t.len() as int
    } else if t[i] == 0 {
        i
    } else {
        nul_len_from(t, i + 1)
    }
}

/// Close the current sentence (appending `delim`) when it is non-empty.
pub open spec fn tflush(st: TokState, delim: Seq<u8>) -> TokState {
    if st.1.len() == 0 {
        st
    } else {
        (st.0.push((st.1 + delim, st.2)), Seq::empty(), st.2, 0)
    }
}

/// Append `bytes` to the current sentence (which starts at `pos` if it was empty).
pub open spec fn tpush(st: TokState, pos: int, bytes: Seq<u8>, cls: u8) -> TokState {
    (st.0, st.1 + bytes, if st.1.len() == 0 {
        pos
    } else {
        st.2
    }, cls)
}

/// Byte `i` of `t`, or 0 past the end.
pub open spec fn byte_at(t: Seq<u8>, i: int) -> u8 {
    if 0 <= i < t.len() {
        t[i]
    } else {
        0
    }
}

/// In line-break mode: the position of the last byte of the whitespace run after `pos`.
pub open spec fn crlf_skip(t: Seq<u8>, pos: int) -> int
    decreases t.len() - pos,
{
    if pos + 1 < t.len() && pos >= 0 {
        let c = t[pos + 1];
        let ks = pos + 2 < t.len() && be16(c, t[pos + 2]) == KPS_SPACE;
        if c != 13 && c != 10 && c != 9 && c != 32 && !ks {
            pos
        } else {
            crlf_skip(
                t,
                pos + 1 + if c >= 0xA1 {
                    1int
                } else {
                    0int
                },
            )
        }
    } else {
        pos
    }
}

/// A period between two tokens of the same digit / jamo / syllable-and-space kinds stays inline.
pub open spec fn period_stays(prev: u8, nc: u8) -> bool {
    (prev == 0x19 && nc == 1) || (prev == 4 && nc == 4) || (prev == 7 && nc == 7)
}

/// Step for an ASCII byte at `pos`.
pub open spec fn ascii_step(t: Seq<u8>, pos: int, st: TokState) -> TokState {
    let b0 = t[pos];
    let b1 = byte_at(t, pos + 1);
    let b2 = byte_at(t, pos + 2);
    if !is_sentence_punct_ascii_spec(b0) {
        tpush(st, pos, seq![b0], byte_class_spec(b0))
    } else if st.1.len() == 0 || pos + 1 >= t.len() || ((b1 > 0x7F || !is_continue_ascii_spec(b1))
        && (b1 < 0xA1 || !is_continue_kps_spec(be16(b1, b2)))) {
        let nc = next_token_class_spec(t.subrange(pos + 1, t.len() as int)).0;
        if st.1.len() == 0 || b0 != 0x2E || period_stays(st.3, nc) {
            tpush(st, pos, seq![b0], byte_class_spec(b0))
        } else {
            tflush(st, seq![0x2Eu8])
        }
    } else {
        tflush(st, seq![b0])
    }
}

/// A sentence mark (`.`, `!` or `?`) that follows text and is followed by a space, a tab, `(`
/// or `<` ends the sentence there: the finished sentence is the text so far with the mark,
/// starting where the text started, and the next sentence is still empty.
pub proof fn lemma_ascii_mark_ends_sentence(t: Seq<u8>, pos: int, st: TokState)
    requires
        0 <= pos,
        pos + 1 < t.len(),
        t[pos] == 0x2E || t[pos] == 0x21 || t[pos] == 0x3F,
        t[pos + 1] == 0x20 || t[pos + 1] == 0x09 || t[pos + 1] == 0x28 || t[pos + 1] == 0x3C,
        st.1.len() > 0,
    ensures
        ascii_step(t, pos, st) == (st.0.push((st.1.push(t[pos]), st.2)), Seq::<u8>::empty(), st.2, 0u8),
{
    assert(st.1 + seq![t[pos]] =~= st.1.push(t[pos]));
}

/// Any other ASCII byte joins the current sentence: the finished sentences stay, the byte is
/// appended, and the sentence starts at the byte when it was empty.
pub proof fn lemma_ascii_byte_joins_sentence(t: Seq<u8>, pos: int, st: TokState)
    requires
        0 <= pos < t.len(),
        t[pos] < 0x80,
        t[pos] != 0x2E && t[pos] != 0x21 && t[pos] != 0x3F,
    ensures
        ascii_step(t, pos, st).0 == st.0,
        ascii_step(t, pos, st).1 == st.1.push(t[pos]),
        ascii_step(t, pos, st).2 == (if st.1.len() == 0 { pos } else { st.2 }),
{
    assert(st.1 + seq![t[pos]] =~= st.1.push(t[pos]));
}

/// At the end of the text, or when the sentence is still empty, a `!` or `?` joins the
/// current sentence instead of ending it.
pub proof fn lemma_ascii_mark_without_text_joins(t: Seq<u8>, pos: int, st: TokState)
    requires
        0 <= pos < t.len(),
        t[pos] == 0x21 || t[pos] == 0x3F,
        st.1.len() == 0 || pos + 1 == t.len(),
    ensures
        ascii_step(t, pos, st).0 == st.0,
        ascii_step(t, pos, st).1 == st.1.push(t[pos]),
{
    assert(st.1 + seq![t[pos]] =~= st.1.push(t[pos]));
}

/// Step for a 2-byte KPS character at `pos`.
pub open spec fn kps_step(t: Seq<u8>, pos: int, st: TokState) -> TokState {
    let b0 = t[pos];
    let b1 = t[pos + 1];
    let b2 = byte_at(t, pos + 2);
    let b3 = byte_at(t, pos + 3);
    let ch = be16(b0, b1);
    if !is_sentence_punct_kps_spec(ch) {
        tpush(st, pos, seq![b0, b1], char_class_spec(ch))
    } else if st.1.len() == 0 || pos + 2 >= t.len() || ((b2 > 0x7F || !is_continue_ascii_spec(b2))
        && (b2 < 0xA1 || !is_continue_kps_spec(be16(b2, b3)))) {
        let nc = next_token_class_spec(t.subrange(pos + 2, t.len() as int)).0;
        if st.1.len() == 0 || ch != KPS_FULL_STOP || period_stays(st.3, nc) {
            tpush(st, pos, seq![b0, b1], char_class_spec(ch))
        } else {
            tflush(st, seq![b0, b1])
        }
    } else {
        tflush(st, seq![b0, b1])
    }
}

/// A two-byte sentence mark (KPS full stop A1A5, question mark A1A9 or exclamation mark A1AA)
/// that follows text and is followed by an ASCII space, tab, `(` or `<`, or by a KPS space
/// (A1A1), ends the sentence there with the mark's two bytes.
pub proof fn lemma_kps_mark_ends_sentence(t: Seq<u8>, pos: int, st: TokState)
    requires
        0 <= pos,
        pos + 3 < t.len(),
        t[pos] == 0xA1,
        t[pos + 1] == 0xA5 || t[pos + 1] == 0xA9 || t[pos + 1] == 0xAA,
        t[pos + 2] == 0x20 || t[pos + 2] == 0x09 || t[pos + 2] == 0x28 || t[pos + 2] == 0x3C || (t[pos + 2]
            == 0xA1 && t[pos + 3] == 0xA1),
        st.1.len() > 0,
    ensures
        kps_step(t, pos, st) == (st.0.push((st.1 + seq![t[pos], t[pos + 1]], st.2)), Seq::<u8>::empty(), st.2, 0u8),
{
    assert(be16(t[pos], t[pos + 1]) == t[pos] * 256 + t[pos + 1]);
    if t[pos + 2] == 0xA1 {
        assert(be16(t[pos + 2], t[pos + 3]) == 0xA1A1);
    }
}

/// A full stop between two digits, read as a decimal point, stays inside the sentence: after
/// a digit and before a digit, `.` joins the current sentence.
pub proof fn lemma_decimal_point_stays(t: Seq<u8>, pos: int, st: TokState)
    requires
        0 <= pos,
        pos + 1 < t.len(),
        t[pos] == 0x2E,
        0x30 <= t[pos + 1] <= 0x39,
        st.1.len() > 0,
        st.3 == 4,
    ensures
        ascii_step(t, pos, st).0 == st.0,
        ascii_step(t, pos, st).1 == st.1.push(0x2Eu8),
{
    assert(st.1 + seq![t[pos]] =~= st.1.push(0x2Eu8));
    let rest = t.subrange(pos + 1, t.len() as int);
    assert(rest[0] == t[pos + 1]);
    assert(next_token_class_spec(rest).0 == 4);
}

/// One tokenizer step at `pos`: the next position and state.
pub open spec fn tok_step(t: Seq<u8>, crlf: bool, max: int, pos: int, st: TokState) -> (int, TokState)
    recommends
        0 <= pos < t.len(),
{
    if crlf && (t[pos] == 13 || t[pos] == 10) {
        (crlf_skip(t, pos) + 1, tflush(st, Seq::empty()))
    } else {
        let st1 = if st.1.len() > HARD_FLUSH_LIMIT || st.1.len() > max {
            tflush(st, Seq::empty())
        } else {
            st
        };
        let b0 = t[pos];
        let b1 = byte_at(t, pos + 1);
        if b0 < 0x80 {
            (pos + 1, ascii_step(t, pos, st1))
        } else if b0 > 0xA0 && b0 != 0xFF && b1 > 0xA0 {
            (pos + 2, kps_step(t, pos, st1))
        } else {
            (pos + 1, st1)
        }
    }
}

/// In a tokenizer step, a sentence mark after text and before a space, tab, `(` or `<` ends
/// the sentence (see [`lemma_ascii_mark_ends_sentence`]) and the scan moves past the mark,
/// as long as the sentence has not reached a forced break.
pub proof fn lemma_step_mark_ends_sentence(t: Seq<u8>, crlf: bool, max: int, pos: int, st: TokState)
    requires
        0 <= pos,
        pos + 1 < t.len(),
        t[pos] == 0x2E || t[pos] == 0x21 || t[pos] == 0x3F,
        t[pos + 1] == 0x20 || t[pos + 1] == 0x09 || t[pos + 1] == 0x28 || t[pos + 1] == 0x3C,
        0 < st.1.len() <= HARD_FLUSH_LIMIT,
        st.1.len() <= max,
    ensures
        tok_step(t, crlf, max, pos, st) == (pos + 1, (st.0.push((st.1.push(t[pos]), st.2)), Seq::<u8>::empty(), st.2, 0u8)),
{
    lemma_ascii_mark_ends_sentence(t, pos, st);
}

/// The tokenizer loop from `pos` to the end of `t`.
pub open spec fn tok_loop(t: Seq<u8>, crlf: bool, max: int, pos: int, st: TokState) -> TokState
    decreases t.len() - pos,
{
    if pos < 0 || pos >= t.len() {
        st
    } else {
        let (p2, st2) = tok_step(t, crlf, max, pos, st);
        if p2 <= pos {
            st
        } else if p2 >= t.len() {
            st2
        } else {
            tok_loop(t, crlf, max, p2, st2)
        }
    }
}

/// Sentences of `text` (up to its first NUL), as (bytes, start offset) pairs.
pub open spec fn tokenize_spec(text: Seq<u8>, crlf: bool, max: int) -> Seq<(Seq<u8>, int)> {
    let t = text.take(nul_len_from(text, 0));
    tflush(tok_loop(t, crlf, max, 0, (Seq::empty(), Seq::empty(), 0, 0)), Seq::empty()).0
}

/// Mutable tokenizer state.
struct Tok {
    sentences: Vec<Sentence>,
    buf: Vec<u8>,
    start: usize,
    prev_class: u8,
}

/// The abstract state of a [`Tok`].
spec fn tok_view(tk: &Tok) -> TokState {
    (sentences_view(tk.sentences@), tk.buf@, tk.start as int, tk.prev_class)
}

/// Close the current sentence with `delim` appended (no effect when it is empty).
fn flush(tk: &mut Tok, delim: &[u8])
    ensures
        tok_view(final(tk)) == tflush(tok_view(old(tk)), delim@),
{
    if tk.buf.len() == 0 {
        return;
    }
    let mut text: Vec<u8> = Vec::new();
    std::mem::swap(&mut text, &mut tk.buf);
    let ghost b0 = text@;
    let mut i: usize = 0;
    while i < delim.len()
        invariant
            i <= delim@.len(),
            text@ == b0 + delim@.take(i as int),
        decreases delim@.len() - i,
    {
        text.push(delim[i]);
        i = i + 1;
        assert(text@ =~= b0 + delim@.take(i as int));
    }
    assert(delim@.take(delim@.len() as int) =~= delim@);
    let ghost old_sents = tk.sentences@;
    tk.sentences.push(Sentence { text, start: tk.start });
    tk.prev_class = 0;
    assert(sentences_view(tk.sentences@) =~= sentences_view(old_sents).push(
        (b0 + delim@, tk.start as int),
    ));
    assert(tk.buf@ =~= Seq::<u8>::empty());
}

/// Append one or two bytes read at `pos` to the current sentence.
fn push_token(tk: &mut Tok, pos: usize, b0: u8, b1: Option<u8>, cls: u8)
    ensures
        tok_view(final(tk)) == tpush(
            tok_view(old(tk)),
            pos as int,
            match b1 {
                Some(x) => seq![b0, x],
                None => seq![b0],
            },
            cls,
        ),
{
    if tk.buf.len() == 0 {
        tk.start = pos;
    }
    tk.buf.push(b0);
    match b1 {
        Some(x) => {
            tk.buf.push(x);
        },
        None => {},
    }
    tk.prev_class = cls;
    proof {
        let bytes = match b1 {
            Some(x) => seq![b0, x],
            None => seq![b0],
        };
        assert(tk.buf@ =~= old(tk).buf@ + bytes);
    }
}

/// Byte `pos + off` of `t`, or 0 past the end.
fn byte_at_exec(t: &[u8], pos: usize, off: usize) -> (r: u8)
    requires
        pos < t@.len(),
    ensures
        r == byte_at(t@, pos + off),
{
    if off < t.len() - pos {
        t[pos + off]
    } else {
        0
    }
}

/// Step for an ASCII byte at `pos` (see [`ascii_step`]).
fn ascii_step_exec(tk: &mut Tok, t: &[u8], pos: usize)
    requires
        pos < t@.len(),
    ensures
        tok_view(final(tk)) == ascii_step(t@, pos as int, tok_view(old(tk))),
{
    let b0 = t[pos];
    let b1 = byte_at_exec(t, pos, 1);
    let b2 = byte_at_exec(t, pos, 2);
    if !is_sentence_punct_ascii(b0) {
        push_token(tk, pos, b0, None, char_class(b0));
    } else if tk.buf.len() == 0 || pos + 1 >= t.len() || ((b1 > 0x7F || !is_continue_ascii(b1)) && (
    b1 < 0xA1 || !is_continue_kps((b1 as u16) * 256 + b2 as u16))) {
        let (nc, _) = next_token_class(&t[pos + 1..t.len()]);
        if tk.buf.len() == 0 || b0 != 0x2E || (tk.prev_class == 0x19 && nc == 1) || (tk.prev_class
            == 4 && nc == 4) || (tk.prev_class == 7 && nc == 7) {
            push_token(tk, pos, b0, None, char_class(b0));
        } else {
            flush(tk, &[0x2Eu8]);
            assert(seq![0x2Eu8] =~= [0x2Eu8]@);
        }
    } else {
        flush(tk, &[b0]);
        assert(seq![b0] =~= [b0]@);
    }
}

/// Step for a 2-byte KPS character at `pos` (see [`kps_step`]).
fn kps_step_exec(tk: &mut Tok, t: &[u8], pos: usize)
    requires
        pos + 1 < t@.len(),
    ensures
        tok_view(final(tk)) == kps_step(t@, pos as int, tok_view(old(tk))),
{
    let b0 = t[pos];
    let b1 = t[pos + 1];
    let b2 = byte_at_exec(t, pos, 2);
    let b3 = byte_at_exec(t, pos, 3);
    let ch: u16 = (b0 as u16) * 256 + b1 as u16;
    if !is_sentence_punct_kps(ch) {
        push_token(tk, pos, b0, Some(b1), char_class_16(ch));
    } else if tk.buf.len() == 0 || pos + 2 >= t.len() || ((b2 > 0x7F || !is_continue_ascii(b2)) && (
    b2 < 0xA1 || !is_continue_kps((b2 as u16) * 256 + b3 as u16))) {
        let (nc, _) = next_token_class(&t[pos + 2..t.len()]);
        if tk.buf.len() == 0 || ch != KPS_FULL_STOP || (tk.prev_class == 0x19 && nc == 1) || (
        tk.prev_class == 4 && nc == 4) || (tk.prev_class == 7 && nc == 7) {
            push_token(tk, pos, b0, Some(b1), char_class_16(ch));
        } else {
            flush(tk, &[b0, b1]);
            assert(seq![b0, b1] =~= [b0, b1]@);
        }
    } else {
        flush(tk, &[b0, b1]);
        assert(seq![b0, b1] =~= [b0, b1]@);
    }
}

/// Position of the last byte of the whitespace run after a line break at `pos`.
fn crlf_skip_exec(t: &[u8], pos: usize) -> (r: usize)
    requires
        pos < t@.len(),
    ensures
        r == crlf_skip(t@, pos as int),
        pos <= r < t@.len(),
{
    let mut p = pos;
    while p < t.len() - 1
        invariant
            pos <= p < t@.len(),
            crlf_skip(t@, p as int) == crlf_skip(t@, pos as int),
        decreases t@.len() - p,
    {
        let c = t[p + 1];
        let ks = p < t.len() - 2 && (c as u16) * 256 + (t[p + 2] as u16) == KPS_SPACE;
        if c != 13 && c != 10 && c != 9 && c != 32 && !ks {
            return p;
        }
        if c >= 0xA1 && p + 2 >= t.len() {
            return p + 1;
        }
        p = p + 1;
        if c >= 0xA1 {
            p = p + 1;
        }
    }
    p
}

/// Index of the first NUL byte of `text`, or its length.
fn nul_len(text: &[u8]) -> (r: usize)
    ensures
        r == nul_len_from(text@, 0),
        r <= text@.len(),
{
    let mut i: usize = 0;
    while i < text.len()
        invariant
            i <= text@.len(),
            nul_len_from(text@, i as int) == nul_len_from(text@, 0),
        decreases text@.len() - i,
    {
        if text[i] == 0 {
            return i;
        }
        i = i + 1;
    }
    i
}

/// Tokenize the internal-code bytes into sentences (up to the first NUL byte).
///
/// With `crlf_breaks`, a CR or LF also ends a sentence and the whitespace run after it is
/// skipped. A sentence longer than `max_sentence_bytes` (or the hard buffer limit) is closed
/// before the next token is added. Bytes 0x80..=0xA0 and 0xFF (and a lead byte without a KPS
/// trail byte) are dropped.
pub fn tokenize_with(text: &[u8], crlf_breaks: bool, max_sentence_bytes: usize) -> (r: Vec<
    Sentence,
>)
    ensures
        sentences_view(r@) == tokenize_spec(text@, crlf_breaks, max_sentence_bytes as int),
{
    let len = nul_len(text);
    let t = &text[0..len];
    assert(t@ == text@.take(nul_len_from(text@, 0)));
    let mut tk = Tok { sentences: Vec::new(), buf: Vec::new(), start: 0, prev_class: 0 };
    assert(sentences_view(tk.sentences@) =~= Seq::<(Seq<u8>, int)>::empty());
    assert(tk.buf@ =~= Seq::<u8>::empty());
    let ghost init = tok_view(&tk);
    let mut pos: usize = 0;
    while pos < len
        invariant
            len == t@.len(),
            pos <= len,
            tok_loop(t@, crlf_breaks, max_sentence_bytes as int, pos as int, tok_view(&tk))
                == tok_loop(t@, crlf_breaks, max_sentence_bytes as int, 0, init),
        decreases len - pos,
    {
        let ghost st = tok_view(&tk);
        let ghost p0 = pos as int;
        if crlf_breaks && (t[pos] == 13 || t[pos] == 10) {
            flush(&mut tk, &[]);
            assert([]@ =~= Seq::<u8>::empty());
            pos = crlf_skip_exec(t, pos) + 1;
        } else {
            if tk.buf.len() > HARD_FLUSH_LIMIT || tk.buf.len() > max_sentence_bytes {
                flush(&mut tk, &[]);
                assert([]@ =~= Seq::<u8>::empty());
            }
            let b0 = t[pos];
            let b1 = byte_at_exec(t, pos, 1);
            if b0 < 0x80 {
                ascii_step_exec(&mut tk, t, pos);
                pos = pos + 1;
            } else if b0 > 0xA0 && b0 != 0xFF && b1 > 0xA0 {
                kps_step_exec(&mut tk, t, pos);
                pos = pos + 2;
            } else {
                pos = pos + 1;
            }
        }
        assert((pos as int, tok_view(&tk)) == tok_step(
            t@,
            crlf_breaks,
            max_sentence_bytes as int,
            p0,
            st,
        ));
    }
    flush(&mut tk, &[]);
    assert([]@ =~= Seq::<u8>::empty());
    tk.sentences
}

/// Tokenize with the default sentence limit and no line-break sentences.
pub fn tokenize(text: &[u8]) -> (r: Vec<Sentence>)
    ensures
        sentences_view(r@) == tokenize_spec(text@, false, MAX_SENTENCE_BYTES as int),
{
    tokenize_with(text, false, MAX_SENTENCE_BYTES)
}

/// Tokenize with line breaks also ending sentences.
pub fn tokenize_crlf(text: &[u8]) -> (r: Vec<Sentence>)
    ensures
        sentences_view(r@) == tokenize_spec(text@, true, MAX_SENTENCE_BYTES as int),
{
    tokenize_with(text, true, MAX_SENTENCE_BYTES)
}

/// The bytes the tokenizer keeps: ASCII bytes and well-formed 2-byte KPS characters, in order.
pub open spec fn kept_bytes(t: Seq<u8>) -> Seq<u8>
    decreases t.len(),
{
    if t.len() == 0 {
        Seq::empty()
    } else if t[0] < 0x80 {
        seq![t[0]] + kept_bytes(t.subrange(1, t.len() as int))
    } else if t[0] > 0xA0 && t[0] != 0xFF && t.len() > 1 && t[1] > 0xA0 {
        seq![t[0], t[1]] + kept_bytes(t.subrange(2, t.len() as int))
    } else {
        kept_bytes(t.subrange(1, t.len() as int))
    }
}

/// All sentence texts, concatenated in order.
pub open spec fn concat_texts(s: Seq<(Seq<u8>, int)>) -> Seq<u8>
    decreases s.len(),
{
    if s.len() == 0 {
        Seq::empty()
    } else {
        concat_texts(s.drop_last()) + s.last().0
    }
}

/// Everything emitted so far: closed sentences followed by the open one.
pub open spec fn emitted(st: TokState) -> Seq<u8> {
    concat_texts(st.0) + st.1
}

/// Every closed sentence is non-empty.
pub open spec fn all_nonempty(s: Seq<(Seq<u8>, int)>) -> bool {
    forall|k: int| 0 <= k < s.len() ==> #[trigger] s[k].0.len() > 0
}

proof fn lemma_flush_emitted(st: TokState, d: Seq<u8>)
    requires
        st.1.len() > 0 || d.len() == 0,
    ensures
        emitted(tflush(st, d)) == emitted(st) + d,
        all_nonempty(st.0) ==> all_nonempty(tflush(st, d).0),
{
    if st.1.len() > 0 {
        let s2 = tflush(st, d).0;
        assert(s2.drop_last() =~= st.0);
        assert(emitted(tflush(st, d)) =~= emitted(st) + d);
    } else {
        assert(emitted(st) + d =~= emitted(st));
    }
}

proof fn lemma_kept_step(t: Seq<u8>, pos: int)
    requires
        0 <= pos < t.len(),
    ensures
        ({
            let r = t.subrange(pos, t.len() as int);
            let b0 = t[pos];
            &&& b0 < 0x80 ==> kept_bytes(r) == seq![b0] + kept_bytes(
                t.subrange(pos + 1, t.len() as int),
            )
            &&& (!(b0 < 0x80) && b0 > 0xA0 && b0 != 0xFF && byte_at(t, pos + 1) > 0xA0)
                ==> kept_bytes(r) == seq![b0, t[pos + 1]] + kept_bytes(
                t.subrange(pos + 2, t.len() as int),
            )
            &&& (!(b0 < 0x80) && !(b0 > 0xA0 && b0 != 0xFF && byte_at(t, pos + 1) > 0xA0))
                ==> kept_bytes(r) == kept_bytes(t.subrange(pos + 1, t.len() as int))
        }),
{
    let r = t.subrange(pos, t.len() as int);
    assert(r.subrange(1, r.len() as int) =~= t.subrange(pos + 1, t.len() as int));
    if r.len() > 1 {
        assert(r.subrange(2, r.len() as int) =~= t.subrange(pos + 2, t.len() as int));
    }
}

proof fn lemma_step_emitted(t: Seq<u8>, max: int, pos: int, st: TokState)
    requires
        0 <= pos < t.len(),
        all_nonempty(st.0),
    ensures
        ({
            let (p2, st2) = tok_step(t, false, max, pos, st);
            &&& pos < p2 <= t.len()
            &&& emitted(st2) + kept_bytes(t.subrange(p2, t.len() as int)) == emitted(st)
                + kept_bytes(t.subrange(pos, t.len() as int))
            &&& all_nonempty(st2.0)
        }),
{
    let st1 = if st.1.len() > HARD_FLUSH_LIMIT || st.1.len() > max {
        tflush(st, Seq::empty())
    } else {
        st
    };
    lemma_flush_emitted(st, Seq::empty());
    assert(emitted(st1) == emitted(st));
    lemma_kept_step(t, pos);
    let b0 = t[pos];
    let b1 = byte_at(t, pos + 1);
    let (p2, st2) = tok_step(t, false, max, pos, st);
    if b0 < 0x80 {
        let b1 = byte_at(t, pos + 1);
        let b2 = byte_at(t, pos + 2);
        if !is_sentence_punct_ascii_spec(b0) {
            assert(emitted(st2) =~= emitted(st1) + seq![b0]);
        } else if st1.1.len() == 0 || pos + 1 >= t.len() || ((b1 > 0x7F || !is_continue_ascii_spec(b1))
            && (b1 < 0xA1 || !is_continue_kps_spec(be16(b1, b2)))) {
            let nc = next_token_class_spec(t.subrange(pos + 1, t.len() as int)).0;
            if st1.1.len() == 0 || b0 != 0x2E || period_stays(st1.3, nc) {
                assert(emitted(st2) =~= emitted(st1) + seq![b0]);
            } else {
                lemma_flush_emitted(st1, seq![0x2Eu8]);
            }
        } else {
            lemma_flush_emitted(st1, seq![b0]);
        }
        assert(emitted(st2) + kept_bytes(t.subrange(p2, t.len() as int)) =~= emitted(st)
            + kept_bytes(t.subrange(pos, t.len() as int)));
    } else if b0 > 0xA0 && b0 != 0xFF && b1 > 0xA0 {
        let b1 = t[pos + 1];
        let b2 = byte_at(t, pos + 2);
        let b3 = byte_at(t, pos + 3);
        let ch = be16(b0, b1);
        if !is_sentence_punct_kps_spec(ch) {
            assert(emitted(st2) =~= emitted(st1) + seq![b0, b1]);
        } else if st1.1.len() == 0 || pos + 2 >= t.len() || ((b2 > 0x7F || !is_continue_ascii_spec(b2))
            && (b2 < 0xA1 || !is_continue_kps_spec(be16(b2, b3)))) {
            let nc = next_token_class_spec(t.subrange(pos + 2, t.len() as int)).0;
            if st1.1.len() == 0 || ch != KPS_FULL_STOP || period_stays(st1.3, nc) {
                assert(emitted(st2) =~= emitted(st1) + seq![b0, b1]);
            } else {
                lemma_flush_emitted(st1, seq![b0, b1]);
            }
        } else {
            lemma_flush_emitted(st1, seq![b0, b1]);
        }
        assert(emitted(st2) + kept_bytes(t.subrange(p2, t.len() as int)) =~= emitted(st)
            + kept_bytes(t.subrange(pos, t.len() as int)));
    } else {
    }
}

proof fn lemma_loop_emitted(t: Seq<u8>, max: int, pos: int, st: TokState)
    requires
        0 <= pos <= t.len(),
        all_nonempty(st.0),
    ensures
        emitted(tok_loop(t, false, max, pos, st)) == emitted(st) + kept_bytes(
            t.subrange(pos, t.len() as int),
        ),
        all_nonempty(tok_loop(t, false, max, pos, st).0),
    decreases t.len() - pos,
{
    if pos >= t.len() {
        assert(t.subrange(pos, t.len() as int) =~= Seq::<u8>::empty());
        assert(emitted(st) + Seq::<u8>::empty() =~= emitted(st));
    } else {
        lemma_step_emitted(t, max, pos, st);
        let (p2, st2) = tok_step(t, false, max, pos, st);
        if p2 >= t.len() {
            assert(t.subrange(p2, t.len() as int) =~= Seq::<u8>::empty());
            assert(emitted(st2) + Seq::<u8>::empty() =~= emitted(st2));
        } else {
            lemma_loop_emitted(t, max, p2, st2);
        }
    }
}

/// Without line-break mode the sentences, concatenated, are exactly the kept bytes of the input
/// before its first NUL (nothing is lost, reordered or invented), and no sentence is empty.
pub proof fn lemma_tokenize_keeps_bytes(text: Seq<u8>, max: int)
    ensures
        concat_texts(tokenize_spec(text, false, max)) == kept_bytes(
            text.take(nul_len_from(text, 0)),
        ),
        all_nonempty(tokenize_spec(text, false, max)),
{
    let t = text.take(nul_len_from(text, 0));
    let init: TokState = (Seq::empty(), Seq::empty(), 0, 0);
    assert(concat_texts(init.0) =~= Seq::<u8>::empty());
    lemma_loop_emitted(t, max, 0, init);
    let fin = tok_loop(t, false, max, 0, init);
    lemma_flush_emitted(fin, Seq::empty());
    let out = tflush(fin, Seq::empty());
    if fin.1.len() > 0 {
        assert(out.1 =~= Seq::<u8>::empty());
    }
    assert(out.1.len() == 0);
    assert(t.subrange(0, t.len() as int) =~= t);
    assert(emitted(init) =~= Seq::<u8>::empty());
    assert(concat_texts(out.0) =~= emitted(out));
}

} // verus!
