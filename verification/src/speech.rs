//! Pronunciation overrides: lines of `word<TAB>reading` in KPS 9566, decoded to text.
use vstd::prelude::*;
use crate::kps9566::{decode_from, sorted_by_kps, Kps9566, Mapping};
use crate::text::sub_vec;

verus! {

/// Word → reading table.
#[derive(Debug, Default)]
pub struct SpeechDict {
    entries: Vec<(String, String)>,
}

/// Whether some entry has word `k`.
pub open spec fn has_word(e: Seq<(String, String)>, k: Seq<char>) -> bool {
    exists|i: int| 0 <= i < e.len() && (#[trigger] e[i]).0@ == k
}

/// The entries as a map from word to reading.
pub open spec fn entries_map(e: Seq<(String, String)>) -> Map<Seq<char>, Seq<char>> {
    Map::new(
        |k: Seq<char>| has_word(e, k),
        |k: Seq<char>| e[choose|i: int| 0 <= i < e.len() && (#[trigger] e[i]).0@ == k].1@,
    )
}

/// Words occur once each.
pub open spec fn unique_words(e: Seq<(String, String)>) -> bool {
    forall|i: int, j: int| 0 <= i < e.len() && 0 <= j < e.len() && (#[trigger] e[i]).0@ == (#[trigger] e[j]).0@ ==> i == j
}

proof fn lemma_entry_in_map(e: Seq<(String, String)>, j: int)
    requires
        unique_words(e),
        0 <= j < e.len(),
    ensures
        entries_map(e).dom().contains(e[j].0@),
        entries_map(e)[e[j].0@] == e[j].1@,
{
    let k = e[j].0@;
    assert(has_word(e, k));
    let c = choose|i: int| 0 <= i < e.len() && (#[trigger] e[i]).0@ == k;
    assert(c == j);
}

/// First index from `i` on where `\r\n` starts, or `None`.
pub open spec fn find_crlf(b: Seq<u8>, i: int) -> Option<int>
    decreases b.len() - i,
{
    if i < 0 || i + 1 >= b.len() {
        None
    } else if b[i] == 0x0d && b[i + 1] == 0x0a {
        Some(i)
    } else {
        find_crlf(b, i + 1)
    }
}

/// First index from `i` on holding `c`, or `None`.
pub open spec fn find_byte(b: Seq<u8>, c: u8, i: int) -> Option<int>
    decreases b.len() - i,
{
    if i < 0 || i >= b.len() {
        None
    } else if b[i] == c {
        Some(i)
    } else {
        find_byte(b, c, i + 1)
    }
}

/// End of the line starting at `start`: the next `\r\n`, else the next `\n`, else the end.
pub open spec fn speech_line_end(b: Seq<u8>, start: int) -> int {
    match find_crlf(b, start) {
        Some(e) => e,
        None => match find_byte(b, 0x0a, start) {
            Some(e) => e,
            None => b.len() as int,
        },
    }
}

/// Start of the next line: after the line end, skipping one `\r` and then one `\n`.
pub open spec fn next_line_start(b: Seq<u8>, end: int) -> int {
    let s1 = if end < b.len() && b[end] == 0x0d {
        end + 1
    } else {
        end
    };
    if s1 < b.len() && b[s1] == 0x0a {
        s1 + 1
    } else {
        s1
    }
}

/// The table after reading the line `lo..hi`: a `word<TAB>reading` line with both parts
/// non-empty once decoded sets the word's reading.
pub open spec fn apply_line(
    m: Seq<Mapping>,
    b: Seq<u8>,
    lo: int,
    hi: int,
    d: Map<Seq<char>, Seq<char>>,
) -> Map<Seq<char>, Seq<char>> {
    let line = b.subrange(lo, hi);
    match find_byte(line, 0x09, 0) {
        None => d,
        Some(t) => {
            let word = decode_from(m, line.subrange(0, t), 0);
            let pron = decode_from(m, line.subrange(t + 1, line.len() as int), 0);
            if word.len() > 0 && pron.len() > 0 {
                d.insert(word, pron)
            } else {
                d
            }
        },
    }
}

/// The search results lie in the searched range.
pub proof fn lemma_find_crlf_range(b: Seq<u8>, i: int)
    ensures
        find_crlf(b, i) matches Some(e) ==> i <= e && e + 1 < b.len(),
    decreases b.len() - i,
{
    if !(i < 0 || i + 1 >= b.len()) && !(b[i] == 0x0d && b[i + 1] == 0x0a) {
        lemma_find_crlf_range(b, i + 1);
    }
}

/// The search results lie in the searched range.
pub proof fn lemma_find_byte_range(b: Seq<u8>, c: u8, i: int)
    ensures
        find_byte(b, c, i) matches Some(e) ==> i <= e < b.len(),
    decreases b.len() - i,
{
    if !(i < 0 || i >= b.len()) && b[i] != c {
        lemma_find_byte_range(b, c, i + 1);
    }
}

/// A line ends at or after its start and within the text.
pub proof fn lemma_line_end_range(b: Seq<u8>, start: int)
    requires
        0 <= start <= b.len(),
    ensures
        start <= speech_line_end(b, start) <= b.len(),
        next_line_start(b, speech_line_end(b, start)) <= b.len(),
{
    lemma_find_crlf_range(b, start);
    lemma_find_byte_range(b, 0x0a, start);
}

/// The table after reading the lines from `start` on.
pub open spec fn parse_from(m: Seq<Mapping>, b: Seq<u8>, start: int, d: Map<Seq<char>, Seq<char>>) -> Map<Seq<char>, Seq<char>>
    decreases b.len() - start,
{
    if start < 0 || start >= b.len() {
        d
    } else {
        let end = speech_line_end(b, start);
        proof {
            lemma_line_end_range(b, start);
        }
        let d2 = if end > start {
            apply_line(m, b, start, end, d)
        } else {
            d
        };
        let next = next_line_start(b, end);
        if next <= start {
            d2
        } else {
            parse_from(m, b, next, d2)
        }
    }
}

fn find_crlf_exec(b: &[u8], i: usize) -> (r: Option<usize>)
    requires
        i <= b@.len(),
    ensures
        match r {
            Some(e) => find_crlf(b@, i as int) == Some(e as int) && i <= e && e + 1 < b@.len(),
            None => find_crlf(b@, i as int) is None,
        },
{
    let n = b.len();
    let mut k = i;
    while k < n && n - k > 1
        invariant
            i <= k <= n,
            n == b@.len(),
            find_crlf(b@, i as int) == find_crlf(b@, k as int),
        decreases n - k,
    {
        if b[k] == 0x0d && b[k + 1] == 0x0a {
            return Some(k);
        }
        k = k + 1;
    }
    None
}

fn find_byte_exec(b: &[u8], c: u8, i: usize) -> (r: Option<usize>)
    requires
        i <= b@.len(),
    ensures
        match r {
            Some(e) => find_byte(b@, c, i as int) == Some(e as int) && i <= e < b@.len(),
            None => find_byte(b@, c, i as int) is None,
        },
{
    let n = b.len();
    let mut k = i;
    while k < n
        invariant
            i <= k <= n,
            n == b@.len(),
            find_byte(b@, c, i as int) == find_byte(b@, c, k as int),
        decreases n - k,
    {
        if b[k] == c {
            return Some(k);
        }
        k = k + 1;
    }
    None
}

impl SpeechDict {
    /// The table as a map from word to reading.
    pub closed spec fn view_map(&self) -> Map<Seq<char>, Seq<char>> {
        entries_map(self.entries@)
    }

    /// Words occur once each.
    pub closed spec fn wf(&self) -> bool {
        unique_words(self.entries@)
    }

    /// An empty table.
    pub fn new() -> (r: Self)
        ensures
            r.wf(),
            r.view_map() == Map::<Seq<char>, Seq<char>>::empty(),
    {
        let r = SpeechDict { entries: Vec::new() };
        assert(r.view_map() =~= Map::<Seq<char>, Seq<char>>::empty());
        r
    }

    /// Set the reading of a word (replacing an earlier one).
    fn insert(&mut self, k: String, v: String)
        requires
            old(self).wf(),
        ensures
            final(self).wf(),
            final(self).view_map() == old(self).view_map().insert(k@, v@),
    {
        let ghost old_e = self.entries@;
        let n = self.entries.len();
        let mut i: usize = 0;
        while i < n
            invariant
                n == self.entries@.len(),
                self.entries@ == old_e,
                old_e == old(self).entries@,
                unique_words(old_e),
                i <= n,
                forall|j: int| 0 <= j < i ==> (#[trigger] old_e[j]).0@ != k@,
            decreases n - i,
        {
            if self.entries[i].0 == k {
                let ghost ki = old_e[i as int].0@;
                self.entries.set(i, (k, v));
                let ghost ne = self.entries@;
                assert(unique_words(ne)) by {
                    assert forall|a: int, b: int| 0 <= a < ne.len() && 0 <= b < ne.len() && (#[trigger] ne[a]).0@ == (#[trigger] ne[b]).0@ implies a == b by {
                        if a != i && b != i {
                            assert(old_e[a] == ne[a] && old_e[b] == ne[b]);
                        } else if a == i && b != i {
                            assert(old_e[b] == ne[b]);
                            assert(old_e[b].0@ == old_e[i as int].0@);
                        } else if a != i && b == i {
                            assert(old_e[a] == ne[a]);
                            assert(old_e[a].0@ == old_e[i as int].0@);
                        }
                    }
                }
                assert(entries_map(ne) =~= entries_map(old_e).insert(k@, v@)) by {
                    assert forall|q: Seq<char>| #[trigger] entries_map(ne).dom().contains(q) <==> entries_map(old_e).insert(k@, v@).dom().contains(q) by {
                        if has_word(ne, q) {
                            let a = choose|a: int| 0 <= a < ne.len() && (#[trigger] ne[a]).0@ == q;
                            if a != i {
                                assert(old_e[a] == ne[a]);
                            }
                        }
                        if has_word(old_e, q) {
                            let a = choose|a: int| 0 <= a < old_e.len() && (#[trigger] old_e[a]).0@ == q;
                            if a != i {
                                assert(old_e[a] == ne[a]);
                            } else {
                                assert(ne[a].0@ == k@);
                            }
                        }
                        if q == k@ {
                            assert(ne[i as int].0@ == k@);
                        }
                    }
                    assert forall|q: Seq<char>| entries_map(ne).dom().contains(q) implies #[trigger] entries_map(ne)[q] == entries_map(old_e).insert(k@, v@)[q] by {
                        let a = choose|a: int| 0 <= a < ne.len() && (#[trigger] ne[a]).0@ == q;
                        lemma_entry_in_map(ne, a);
                        if a != i {
                            assert(old_e[a] == ne[a]);
                            lemma_entry_in_map(old_e, a);
                        }
                    }
                }
                return;
            }
            i = i + 1;
        }
        self.entries.push((k, v));
        let ghost ne = self.entries@;
        assert(unique_words(ne)) by {
            assert forall|a: int, b: int| 0 <= a < ne.len() && 0 <= b < ne.len() && (#[trigger] ne[a]).0@ == (#[trigger] ne[b]).0@ implies a == b by {
                if a < n && b < n {
                    assert(old_e[a] == ne[a] && old_e[b] == ne[b]);
                } else if a < n {
                    assert(old_e[a] == ne[a]);
                } else if b < n {
                    assert(old_e[b] == ne[b]);
                }
            }
        }
        assert(entries_map(ne) =~= entries_map(old_e).insert(k@, v@)) by {
            assert forall|q: Seq<char>| #[trigger] entries_map(ne).dom().contains(q) <==> entries_map(old_e).insert(k@, v@).dom().contains(q) by {
                if has_word(ne, q) {
                    let a = choose|a: int| 0 <= a < ne.len() && (#[trigger] ne[a]).0@ == q;
                    if a < n {
                        assert(old_e[a] == ne[a]);
                    }
                }
                if has_word(old_e, q) {
                    let a = choose|a: int| 0 <= a < old_e.len() && (#[trigger] old_e[a]).0@ == q;
                    assert(old_e[a] == ne[a]);
                }
                if q == k@ {
                    assert(ne[n as int].0@ == k@);
                }
            }
            assert forall|q: Seq<char>| entries_map(ne).dom().contains(q) implies #[trigger] entries_map(ne)[q] == entries_map(old_e).insert(k@, v@)[q] by {
                let a = choose|a: int| 0 <= a < ne.len() && (#[trigger] ne[a]).0@ == q;
                lemma_entry_in_map(ne, a);
                if a < n {
                    assert(old_e[a] == ne[a]);
                    lemma_entry_in_map(old_e, a);
                }
            }
        }
    }

    /// Read a whole table text: each line (ended by `\r\n`, else by `\n`, else by the end of
    /// the text) of the form `word<TAB>reading` sets the word's reading, decoded from KPS 9566;
    /// other lines are skipped.
    pub fn parse_bytes(&mut self, bytes: &[u8], kps: &Kps9566)
        requires
            old(self).wf(),
            sorted_by_kps(kps.mappings()),
        ensures
            final(self).wf(),
            final(self).view_map() == parse_from(kps.mappings(), bytes@, 0, old(self).view_map()),
    {
        let ghost m = kps.mappings();
        let n = bytes.len();
        let mut start: usize = 0;
        while start < n
            invariant
                n == bytes@.len(),
                start <= n,
                self.wf(),
                sorted_by_kps(kps.mappings()),
                m == kps.mappings(),
                parse_from(m, bytes@, 0, old(self).view_map()) == parse_from(m, bytes@, start as int, self.view_map()),
            decreases n - start,
        {
            let ghost d0 = self.view_map();
            proof {
                lemma_line_end_range(bytes@, start as int);
            }
            let end = match find_crlf_exec(bytes, start) {
                Some(e) => e,
                None => match find_byte_exec(bytes, 0x0a, start) {
                    Some(e) => e,
                    None => n,
                },
            };
            assert(end == speech_line_end(bytes@, start as int));
            if end > start {
                let line = sub_vec(bytes, start, end);
                self.parse_line(&line, kps);
                assert(line@.subrange(0, line@.len() as int) =~= bytes@.subrange(start as int, end as int));
            }
            let mut next = end;
            if next < n && bytes[next] == 0x0d {
                next = next + 1;
            }
            if next < n && bytes[next] == 0x0a {
                next = next + 1;
            }
            assert(next == next_line_start(bytes@, end as int));
            if next <= start {
                return;
            }
            start = next;
        }
    }

    /// Read one `word<TAB>reading` line; a line without a tab, or with an empty word or
    /// reading once decoded, changes nothing.
    fn parse_line(&mut self, line: &[u8], kps: &Kps9566)
        requires
            old(self).wf(),
            sorted_by_kps(kps.mappings()),
        ensures
            final(self).wf(),
            final(self).view_map() == apply_line(kps.mappings(), line@, 0, line@.len() as int, old(self).view_map()),
    {
        assert(line@.subrange(0, line@.len() as int) =~= line@);
        let found = find_byte_exec(line, 0x09, 0);
        let t = match found {
            Some(p) => p,
            None => return,
        };
        let n = line.len();
        let wb = sub_vec(line, 0, t);
        let pb = sub_vec(line, t + 1, n);
        let word = kps.decode(&wb);
        let pron = kps.decode(&pb);
        if !word.as_str().is_empty() && !pron.as_str().is_empty() {
            self.insert(word, pron);
        }
    }

    /// Reading of a word, or `None`.
    pub fn lookup(&self, word: &str) -> (r: Option<&str>)
        requires
            self.wf(),
        ensures
            match r {
                Some(p) => self.view_map().dom().contains(word@) && p@ == self.view_map()[word@],
                None => !self.view_map().dom().contains(word@),
            },
    {
        let w = word.to_owned();
        let n = self.entries.len();
        let mut i: usize = 0;
        while i < n
            invariant
                n == self.entries@.len(),
                i <= n,
                w@ == word@,
                unique_words(self.entries@),
                forall|j: int| 0 <= j < i ==> (#[trigger] self.entries@[j]).0@ != word@,
            decreases n - i,
        {
            if self.entries[i].0 == w {
                proof {
                    lemma_entry_in_map(self.entries@, i as int);
                }
                return Some(self.entries[i].1.as_str());
            }
            i = i + 1;
        }
        None
    }

    /// Number of words.
    pub fn len(&self) -> (r: usize)
        requires
            self.wf(),
        ensures
            r == self.view_map().dom().len(),
    {
        proof {
            lemma_dom_len(self.entries@);
        }
        self.entries.len()
    }

    /// Whether the table is empty.
    pub fn is_empty(&self) -> (r: bool)
        requires
            self.wf(),
        ensures
            r == (self.view_map().dom().len() == 0),
    {
        proof {
            lemma_dom_len(self.entries@);
        }
        self.entries.len() == 0
    }

    /// Every (word, reading) pair.
    pub fn iter(&self) -> (r: Vec<(&str, &str)>)
        requires
            self.wf(),
        ensures
            r@.len() == self.view_map().dom().len(),
            forall|i: int| 0 <= i < r@.len() ==> self.view_map().dom().contains((#[trigger] r@[i]).0@)
                && self.view_map()[r@[i].0@] == r@[i].1@,
    {
        proof {
            lemma_dom_len(self.entries@);
        }
        let n = self.entries.len();
        let mut out: Vec<(&str, &str)> = Vec::new();
        let mut i: usize = 0;
        while i < n
            invariant
                n == self.entries@.len(),
                i <= n,
                unique_words(self.entries@),
                out@.len() == i,
                forall|j: int| 0 <= j < i ==> (#[trigger] out@[j]).0@ == self.entries@[j].0@ && out@[j].1@ == self.entries@[j].1@,
            decreases n - i,
        {
            out.push((self.entries[i].0.as_str(), self.entries[i].1.as_str()));
            i = i + 1;
        }
        assert forall|i: int| 0 <= i < out@.len() implies self.view_map().dom().contains((#[trigger] out@[i]).0@)
            && self.view_map()[out@[i].0@] == out@[i].1@ by {
            lemma_entry_in_map(self.entries@, i);
        }
        out
    }
}

/// The number of words equals the number of entries.
proof fn lemma_dom_len(e: Seq<(String, String)>)
    requires
        unique_words(e),
    ensures
        entries_map(e).dom().finite(),
        entries_map(e).dom().len() == e.len(),
    decreases e.len(),
{
    let words = e.map_values(|p: (String, String)| p.0@);
    assert(entries_map(e).dom() =~= words.to_set()) by {
        assert forall|q: Seq<char>| #[trigger] entries_map(e).dom().contains(q) <==> words.to_set().contains(q) by {
            if has_word(e, q) {
                let a = choose|a: int| 0 <= a < e.len() && (#[trigger] e[a]).0@ == q;
                assert(words[a] == q);
            }
            if words.to_set().contains(q) {
                assert(words.contains(q));
                let a = choose|a: int| 0 <= a < words.len() && words[a] == q;
                assert(e[a].0@ == q);
            }
        }
    }
    assert(words.no_duplicates()) by {
        assert forall|a: int, b: int| 0 <= a < words.len() && 0 <= b < words.len() && a != b implies words[a] != words[b] by {
            assert(words[a] == e[a].0@ && words[b] == e[b].0@);
        }
    }
    words.unique_seq_to_set();
}

} // verus!
