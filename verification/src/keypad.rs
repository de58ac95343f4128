//! UTF-16 to internal-code conversion table: 65536 entries of 3 bytes `[len, b0, b1]`.
//!
//! Without a table the conversion is the plain KPS 9566 encoding, which callers perform with
//! an encoder of their own; the verified conversions below cover the table.
use vstd::prelude::*;
use crate::text::{slice_to_vec, str_chars};

verus! {

/// Size of the conversion table in bytes.
pub const TABLE_BYTES: usize = 65536 * 3;

/// Usual location of the conversion table.
pub const DEFAULT_PATH: &'static str = "Data/Dictionary/KeyPad.Ebd";

/// Output of an unmapped code unit without a table.
pub const FALLBACK_QM: [u8; 1] = [0x3F];

/// The conversion table, or none (plain KPS 9566 encoding).
#[derive(Debug, Clone)]
pub struct KeyPad {
    table: Option<Vec<u8>>,
}

/// Bytes a code unit converts to: up to two bytes after its length byte.
pub open spec fn entry_bytes(t: Seq<u8>, code: u16) -> Seq<u8> {
    let off = code * 3;
    let len = if t[off] < 2 {
        t[off] as int
    } else {
        2
    };
    t.subrange(off + 1, off + 1 + len)
}

/// Conversion of the first `n` code units through a table.
pub open spec fn convert_spec(t: Seq<u8>, units: Seq<u16>, n: int) -> Seq<u8>
    decreases n,
{
    if n <= 0 {
        Seq::empty()
    } else {
        convert_spec(t, units, n - 1) + entry_bytes(t, units[n - 1])
    }
}

/// UTF-16 code units of a character.
pub open spec fn utf16_of(c: char) -> Seq<u16> {
    let v = c as u32;
    if v < 0x10000 {
        seq![v as u16]
    } else {
        let w = (v - 0x10000) as u32;
        seq![(0xD800 + w / 0x400) as u16, (0xDC00 + w % 0x400) as u16]
    }
}

/// UTF-16 code units of a character sequence.
pub open spec fn utf16_spec(s: Seq<char>) -> Seq<u16>
    decreases s.len(),
{
    if s.len() == 0 {
        Seq::empty()
    } else {
        utf16_spec(s.drop_last()) + utf16_of(s.last())
    }
}

/// UTF-16 encoding of a character sequence.
pub fn encode_utf16(chars: &[char]) -> (r: Vec<u16>)
    ensures
        r@ == utf16_spec(chars@),
{
    let mut out: Vec<u16> = Vec::new();
    let mut i: usize = 0;
    while i < chars.len()
        invariant
            i <= chars@.len(),
            out@ == utf16_spec(chars@.subrange(0, i as int)),
        decreases chars@.len() - i,
    {
        let c = chars[i];
        let v = c as u32;
        proof {
            vstd::utf8::char_is_scalar(c);
        }
        assert(chars@.subrange(0, i + 1).drop_last() =~= chars@.subrange(0, i as int));
        if v < 0x10000 {
            out.push(v as u16);
        } else {
            assert(v <= 0x10FFFF);
            let w = v - 0x10000;
            out.push((0xD800 + w / 0x400) as u16);
            out.push((0xDC00 + w % 0x400) as u16);
        }
        i = i + 1;
    }
    assert(chars@.subrange(0, chars@.len() as int) =~= chars@);
    out
}

impl KeyPad {
    /// The table, when there is one.
    pub closed spec fn table_spec(&self) -> Option<Seq<u8>> {
        match self.table {
            Some(t) => Some(t@),
            None => None,
        }
    }

    /// A table holds exactly 65536 entries.
    pub closed spec fn wf(&self) -> bool {
        match self.table {
            Some(t) => t@.len() == TABLE_BYTES,
            None => true,
        }
    }

    /// A keypad over a table buffer; `None` unless it is exactly [`TABLE_BYTES`] long.
    pub fn parse(data: &[u8]) -> (r: Option<Self>)
        ensures
            r is Some <==> data@.len() == TABLE_BYTES,
            r matches Some(k) ==> k.wf() && k.table_spec() == Some(data@),
    {
        if data.len() == TABLE_BYTES {
            Some(KeyPad { table: Some(slice_to_vec(data)) })
        } else {
            None
        }
    }

    /// A keypad without a table.
    pub fn fallback() -> (r: Self)
        ensures
            r.wf(),
            r.table_spec() is None,
    {
        KeyPad { table: None }
    }

    /// Whether a table is in use.
    pub fn uses_real_table(&self) -> (r: bool)
        ensures
            r == self.table_spec() is Some,
    {
        self.table.is_some()
    }

    /// Length and bytes of the entry of a code unit; without a table every unit reports `?`.
    pub fn entry(&self, code: u16) -> (r: (u8, &[u8]))
        requires
            self.wf(),
        ensures
            match self.table_spec() {
                Some(t) => r.1@ == entry_bytes(t, code) && r.0 == r.1@.len(),
                None => r.0 == 1 && r.1@ == seq![0x3Fu8],
            },
    {
        match &self.table {
            Some(t) => {
                let off = code as usize * 3;
                let b = t[off];
                let len: usize = if b < 2 {
                    b as usize
                } else {
                    2
                };
                let s = t.as_slice();
                (len as u8, &s[off + 1..off + 1 + len])
            },
            None => {
                assert(FALLBACK_QM@ =~= seq![0x3Fu8]);
                (1, FALLBACK_QM.as_slice())
            },
        }
    }

    /// Convert UTF-16 code units through the table; `None` without a table (the text is then
    /// plain KPS 9566 encoded by the caller).
    pub fn convert(&self, text: &[u16]) -> (r: Option<Vec<u8>>)
        requires
            self.wf(),
        ensures
            match self.table_spec() {
                Some(t) => r matches Some(v) && v@ == convert_spec(t, text@, text@.len() as int),
                None => r is None,
            },
            self.table_spec() matches Some(t) ==> forall|i: int|
                0 <= i <= text@.len() ==> convert_spec(t, text@, text@.len() as int) == #[trigger] convert_spec(
                    t,
                    text@.take(i),
                    i,
                ) + convert_spec(t, text@.skip(i), text@.len() - i),
    {
        proof {
            if let Some(t) = self.table_spec() {
                assert forall|i: int| 0 <= i <= text@.len() implies convert_spec(
                    t,
                    text@,
                    text@.len() as int,
                ) == #[trigger] convert_spec(t, text@.take(i), i) + convert_spec(
                    t,
                    text@.skip(i),
                    text@.len() - i,
                ) by {
                    lemma_convert_concat(t, text@.take(i), text@.skip(i));
                    assert(text@.take(i) + text@.skip(i) =~= text@);
                }
            }
        }
        match &self.table {
            Some(t) => Some(convert_table(t.as_slice(), text)),
            None => None,
        }
    }

    /// Convert a string (as UTF-16) through the table; `None` without a table.
    pub fn convert_str(&self, text: &str) -> (r: Option<Vec<u8>>)
        requires
            self.wf(),
        ensures
            match self.table_spec() {
                Some(t) => r matches Some(v) && v@ == convert_spec(t, utf16_spec(text@), utf16_spec(text@).len() as int),
                None => r is None,
            },
    {
        let chars = str_chars(text);
        let units = encode_utf16(chars.as_slice());
        self.convert(units.as_slice())
    }
}

fn convert_table(t: &[u8], units: &[u16]) -> (r: Vec<u8>)
    requires
        t@.len() == TABLE_BYTES,
    ensures
        r@ == convert_spec(t@, units@, units@.len() as int),
{
    let mut out: Vec<u8> = Vec::new();
    let mut i: usize = 0;
    while i < units.len()
        invariant
            t@.len() == TABLE_BYTES,
            i <= units@.len(),
            out@ == convert_spec(t@, units@, i as int),
        decreases units@.len() - i,
    {
        let code = units[i];
        let off = code as usize * 3;
        let len: usize = if t[off] < 2 {
            t[off] as usize
        } else {
            2
        };
        let mut k: usize = 0;
        let ghost before = out@;
        while k < len
            invariant
                t@.len() == TABLE_BYTES,
                off == code * 3,
                len <= 2,
                k <= len,
                out@ == before + t@.subrange(off + 1, off + 1 + k),
            decreases len - k,
        {
            out.push(t[off + 1 + k]);
            k = k + 1;
            assert(out@ =~= before + t@.subrange(off + 1, off + 1 + k));
        }
        assert(t@.subrange(off + 1, off + 1 + len) == entry_bytes(t@, code));
        i = i + 1;
    }
    out
}

/// Converting a run of code units converts each unit in turn: the conversion of `a` followed
/// by `b` is that of `a` followed by that of `b`.
pub proof fn lemma_convert_concat(t: Seq<u8>, a: Seq<u16>, b: Seq<u16>)
    ensures
        convert_spec(t, a + b, (a + b).len() as int) == convert_spec(t, a, a.len() as int) + convert_spec(
            t,
            b,
            b.len() as int,
        ),
    decreases b.len(),
{
    if b.len() == 0 {
        assert(a + b =~= a);
        assert(convert_spec(t, a, a.len() as int) + Seq::<u8>::empty() =~= convert_spec(t, a, a.len() as int));
    } else {
        let b1 = b.drop_last();
        lemma_convert_concat(t, a, b1);
        assert((a + b).drop_last() =~= a + b1);
        lemma_convert_prefix(t, a + b, a + b1, (a + b1).len() as int);
        lemma_convert_prefix(t, b, b1, b1.len() as int);
        assert((a + b)[(a + b).len() - 1] == b[b.len() - 1]);
    }
}

/// Conversion of the first `n` units depends only on those units.
proof fn lemma_convert_prefix(t: Seq<u8>, u: Seq<u16>, v: Seq<u16>, n: int)
    requires
        0 <= n <= u.len(),
        n <= v.len(),
        forall|k: int| 0 <= k < n ==> u[k] == v[k],
    ensures
        convert_spec(t, u, n) == convert_spec(t, v, n),
    decreases n,
{
    if n > 0 {
        lemma_convert_prefix(t, u, v, n - 1);
    }
}

} // verus!
