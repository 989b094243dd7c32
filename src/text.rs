//! Character-level helpers: decoding, escape stripping and searching.
use vstd::prelude::*;
use vstd::std_specs::iter::IteratorSpec;

verus! {

/// The text that lossy UTF-8 decoding gives for a byte sequence.
pub uninterp spec fn lossy_text(bytes: Seq<u8>) -> Seq<char>;

/// The bytes that remain of a text once terminal escape sequences are removed.
pub uninterp spec fn ansi_stripped(text: Seq<char>) -> Seq<u8>;

/// Relies on `String::from_utf8_lossy`: decodes the bytes, replacing each
/// invalid sequence by U+FFFD; the result depends on the bytes alone, and
/// no bytes give no text.
#[verifier::external_body]
pub(crate) fn decode_lossy(bytes: &[u8]) -> (r: String)
    ensures
        r@ == lossy_text(bytes@),
        bytes@.len() == 0 ==> r@.len() == 0,
{
    String::from_utf8_lossy(bytes).into_owned()
}

/// Relies on `strip_ansi_escapes::strip`: the bytes of the text with terminal
/// escape sequences removed; the result depends on the text alone.
#[verifier::external_body]
pub(crate) fn strip_escapes(text: &str) -> (r: Vec<u8>)
    ensures
        r@ == ansi_stripped(text@),
{
    strip_ansi_escapes::strip(text)
}

/// The characters of a string, in order.
pub fn chars_of(s: &str) -> (r: Vec<char>)
    ensures
        r@ == s@,
{
    let mut v: Vec<char> = Vec::new();
    let mut it = s.chars();
    proof {
        broadcast use vstd::string::axiom_spec_iter, vstd::string::next_postcondition;
    }
    loop
        invariant
            it.decrease() is Some,
            v@ + it.remaining() == s@,
        ensures
            v@ == s@,
        decreases it.decrease()->0,
    {
        match it.next() {
            Some(c) => {
                v.push(c);
            },
            None => {
                assert(v@ + it.remaining() =~= v@);
                break ;
            },
        }
    }
    v
}

/// Whether `pat` occurs in `text` starting at position `i`.
pub open spec fn occurs_at(text: Seq<char>, pat: Seq<char>, i: int) -> bool {
    0 <= i && i + pat.len() <= text.len() && text.subrange(i, i + pat.len()) == pat
}

/// The first position at or after `from` where `pat` occurs in `text`.
pub open spec fn find_from(text: Seq<char>, pat: Seq<char>, from: int) -> Option<int>
    decreases text.len() + 1 - from,
{
    if from < 0 || from + pat.len() > text.len() {
        None
    } else if occurs_at(text, pat, from) {
        Some(from)
    } else {
        find_from(text, pat, from + 1)
    }
}

/// The first position at or after `from` that holds `c`, or the length of
/// `s` where there is none.
pub open spec fn first_index(s: Seq<char>, c: char, from: int) -> int
    decreases s.len() - from,
{
    if from < 0 || from >= s.len() {
        s.len() as int
    } else if s[from] == c {
        from
    } else {
        first_index(s, c, from + 1)
    }
}

/// A search finds an occurrence at or after its start, and finds one
/// wherever one lies ahead.
pub proof fn lemma_find_from_occurs(text: Seq<char>, pat: Seq<char>, from: int)
    ensures
        find_from(text, pat, from) matches Some(k) ==> from <= k && occurs_at(text, pat, k),
        forall|k: int| #![trigger occurs_at(text, pat, k)]
            0 <= from <= k && occurs_at(text, pat, k) ==> find_from(text, pat, from) is Some,
    decreases text.len() + 1 - from,
{
    if from < 0 || from + pat.len() > text.len() {
    } else if occurs_at(text, pat, from) {
    } else {
        lemma_find_from_occurs(text, pat, from + 1);
    }
}

/// The position found lies within the text, at or after the start, and
/// holds the character looked for unless it is the end.
pub proof fn lemma_first_index_bounds(s: Seq<char>, c: char, from: int)
    requires
        0 <= from,
    ensures
        from <= first_index(s, c, from) || (from > s.len() && first_index(s, c, from) == s.len()),
        first_index(s, c, from) <= s.len(),
        first_index(s, c, from) < s.len() ==> s[first_index(s, c, from)] == c,
    decreases s.len() - from,
{
    if from >= s.len() {
    } else if s[from] == c {
    } else {
        lemma_first_index_bounds(s, c, from + 1);
    }
}

/// Whether `pat` occurs in `text` at position `i`.
pub fn matches_at(text: &Vec<char>, pat: &Vec<char>, i: usize) -> (r: bool)
    ensures
        r == occurs_at(text@, pat@, i as int),
{
    if pat.len() > text.len() || i > text.len() - pat.len() {
        return false;
    }
    let mut k: usize = 0;
    while k < pat.len()
        invariant
            i + pat@.len() <= text@.len(),
            text@.len() <= usize::MAX,
            k <= pat@.len(),
            forall|m: int| 0 <= m < k ==> text@[i + m] == pat@[m],
        decreases pat@.len() - k,
    {
        if text[i + k] != pat[k] {
            assert(text@.subrange(i as int, i + pat@.len())[k as int] != pat@[k as int]);
            return false;
        }
        k = k + 1;
    }
    assert(text@.subrange(i as int, i + pat@.len()) =~= pat@);
    true
}

/// The first position at or after `from` where `pat` occurs in `text`.
pub fn find(text: &Vec<char>, pat: &Vec<char>, from: usize) -> (r: Option<usize>)
    ensures
        r matches Some(k) ==> find_from(text@, pat@, from as int) == Some(k as int),
        r is None ==> find_from(text@, pat@, from as int) is None,
{
    if pat.len() > text.len() {
        return None;
    }
    let last: usize = text.len() - pat.len();
    let mut i: usize = from;
    while i <= last
        invariant
            from <= i,
            last == text@.len() - pat@.len(),
            find_from(text@, pat@, from as int) == find_from(text@, pat@, i as int),
        decreases last - i,
    {
        if matches_at(text, pat, i) {
            return Some(i);
        }
        if i == last {
            assert(find_from(text@, pat@, i + 1) is None);
            return None;
        }
        i = i + 1;
    }
    None
}

/// The first position at or after `from` that holds `c`, or the length of
/// `s` where there is none.
pub fn index_of(s: &Vec<char>, c: char, from: usize) -> (r: usize)
    ensures
        r as int == first_index(s@, c, from as int),
{
    if from >= s.len() {
        return s.len();
    }
    let mut i: usize = from;
    while i < s.len()
        invariant
            from <= i <= s@.len(),
            first_index(s@, c, from as int) == first_index(s@, c, i as int),
        decreases s@.len() - i,
    {
        if s[i] == c {
            return i;
        }
        i = i + 1;
    }
    i
}

} // verus!
