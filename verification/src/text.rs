//! Character-level access to strings for the verified text passes.
use vstd::prelude::*;

verus! {

/// The characters of a string, in order.
pub fn str_chars(s: &str) -> (r: Vec<char>)
    ensures
        r@ == s@,
{
    broadcast use vstd::string::axiom_spec_iter;
    let mut out: Vec<char> = Vec::new();
    for c in it: s.chars()
        invariant
            it.seq() == s@,
            out@ == s@.take(it.index() as int),
    {
        out.push(c);
        assert(out@ =~= s@.take(it.index() + 1));
    }
    assert(out@ =~= s@);
    out
}

/// The string holding `chars`, in order, made by std's `String::from_iter`; its contract (the
/// string's characters are `chars`) is what std documents and is not proved here.
#[verifier::external_body]
pub(crate) fn chars_to_string(chars: &Vec<char>) -> (r: String)
    ensures
        r@ == chars@,
{
    String::from_iter(chars.iter())
}

/// A Unicode scalar value: at most 0x10FFFF and outside the surrogate range.
pub open spec fn is_scalar_value(u: u32) -> bool {
    u <= 0x10FFFF && !(0xD800 <= u <= 0xDFFF)
}

/// The character with scalar value `u`, made by std's `char::from_u32`, which returns `Some`
/// exactly for scalar values; that contract is taken from std's documentation, not proved.
#[verifier::external_body]
pub(crate) fn char_from_u32(u: u32) -> (r: Option<char>)
    ensures
        r is Some <==> is_scalar_value(u),
        r matches Some(c) ==> c as u32 == u,
{
    char::from_u32(u)
}

/// A copy of a slice.
pub fn slice_to_vec<T: Copy>(s: &[T]) -> (r: Vec<T>)
    ensures
        r@ == s@,
{
    let mut out: Vec<T> = Vec::new();
    let mut i: usize = 0;
    while i < s.len()
        invariant
            i <= s@.len(),
            out@ == s@.subrange(0, i as int),
        decreases s@.len() - i,
    {
        out.push(s[i]);
        i = i + 1;
        assert(out@ =~= s@.subrange(0, i as int));
    }
    assert(out@ =~= s@);
    out
}

/// A copy of `s[lo..hi]`.
pub fn sub_vec<T: Copy>(s: &[T], lo: usize, hi: usize) -> (r: Vec<T>)
    requires
        lo <= hi <= s@.len(),
    ensures
        r@ == s@.subrange(lo as int, hi as int),
{
    let mut out: Vec<T> = Vec::new();
    let mut k = lo;
    while k < hi
        invariant
            lo <= k <= hi,
            hi <= s@.len(),
            out@ == s@.subrange(lo as int, k as int),
        decreases hi - k,
    {
        out.push(s[k]);
        k = k + 1;
        assert(out@ =~= s@.subrange(lo as int, k as int));
    }
    out
}

/// Whether two byte strings are equal.
pub fn bytes_eq(a: &[u8], b: &[u8]) -> (r: bool)
    ensures
        r == (a@ == b@),
{
    if a.len() != b.len() {
        return false;
    }
    let mut i: usize = 0;
    while i < a.len()
        invariant
            a@.len() == b@.len(),
            i <= a@.len(),
            forall|j: int| 0 <= j < i ==> a@[j] == b@[j],
        decreases a@.len() - i,
    {
        if a[i] != b[i] {
            return false;
        }
        i = i + 1;
    }
    assert(a@ =~= b@);
    true
}

/// Whether `pat` occurs in `input` at position `p`.
pub open spec fn occurs_at(input: Seq<u8>, pat: Seq<u8>, p: int) -> bool {
    0 <= p && p + pat.len() <= input.len() && input.subrange(p, p + pat.len()) == pat
}

/// First position from `p` on where `pat` occurs in `input`.
pub open spec fn find_from(input: Seq<u8>, pat: Seq<u8>, p: int) -> Option<int>
    decreases input.len() + 1 - p,
{
    if p < 0 || p + pat.len() > input.len() {
        None
    } else if occurs_at(input, pat, p) {
        Some(p)
    } else {
        find_from(input, pat, p + 1)
    }
}

/// The position found from `p` on is a first occurrence at or after `p`.
pub proof fn lemma_find_from(input: Seq<u8>, pat: Seq<u8>, p: int)
    requires
        p >= 0,
    ensures
        find_from(input, pat, p) matches Some(q) ==> p <= q && occurs_at(input, pat, q) && forall|
            r: int,
        | p <= r < q ==> !occurs_at(input, pat, r),
        find_from(input, pat, p) is None ==> forall|r: int|
            p <= r && r + pat.len() <= input.len() ==> !occurs_at(input, pat, r),
    decreases input.len() + 1 - p,
{
    if !(p < 0 || p + pat.len() > input.len()) && !occurs_at(input, pat, p) {
        lemma_find_from(input, pat, p + 1);
    }
}

/// First position of a non-empty `pat` in `input` (`None` for an empty pattern).
pub open spec fn find_bytes_spec(input: Seq<u8>, pat: Seq<u8>) -> Option<int> {
    if pat.len() == 0 || pat.len() > input.len() {
        None
    } else {
        find_from(input, pat, 0)
    }
}

/// First position of a non-empty `pat` in `input`; `None` for an empty or longer pattern.
pub fn find_bytes(input: &[u8], pat: &[u8]) -> (r: Option<usize>)
    ensures
        match r {
            Some(p) => find_bytes_spec(input@, pat@) == Some(p as int) && p + pat@.len()
                <= input@.len() && occurs_at(input@, pat@, p as int),
            None => find_bytes_spec(input@, pat@) is None,
        },
{
    proof {
        lemma_find_from(input@, pat@, 0);
    }
    if pat.len() == 0 || pat.len() > input.len() {
        return None;
    }
    let len = input.len();
    let n = len - pat.len();
    let mut p: usize = 0;
    while p <= n
        invariant
            len == input@.len(),
            n == input@.len() - pat@.len(),
            0 < pat@.len() <= input@.len(),
            p <= n + 1,
            find_from(input@, pat@, 0) == find_from(input@, pat@, p as int),
        decreases n + 1 - p,
    {
        let w = &input[p..p + pat.len()];
        if bytes_eq(w, pat) {
            return Some(p);
        }
        p = p + 1;
    }
    None
}

} // verus!
