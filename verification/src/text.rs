//! Searching and slicing of character sequences.
//!
//! Strings are modelled by their view, a `Seq<char>`. The executable
//! functions scan a `Vec<char>` copy of the text and cut results out of the
//! text itself.

use vstd::prelude::*;

verus! {

/// `pat` stands in `s` at index `i`.
pub open spec fn occurs_at(s: Seq<char>, pat: Seq<char>, i: int) -> bool {
    &&& 0 <= i
    &&& i + pat.len() <= s.len()
    &&& s.subrange(i, i + pat.len()) == pat
}

/// `s` begins with `pat`.
pub open spec fn starts_with(s: Seq<char>, pat: Seq<char>) -> bool {
    occurs_at(s, pat, 0)
}

/// The least index at or after `from` at which `pat` stands in `s`, where
/// there is one.
pub open spec fn find_from(s: Seq<char>, pat: Seq<char>, from: int) -> Option<int>
    decreases s.len() - from + 1,
{
    if from < 0 || from + pat.len() > s.len() {
        None
    } else if occurs_at(s, pat, from) {
        Some(from)
    } else {
        find_from(s, pat, from + 1)
    }
}

/// The least index at which `pat` stands in `s`, where there is one.
pub open spec fn find(s: Seq<char>, pat: Seq<char>) -> Option<int> {
    find_from(s, pat, 0)
}

/// The text before and the text after the first occurrence of `pat` in `s`.
pub open spec fn split_once(s: Seq<char>, pat: Seq<char>) -> Option<(Seq<char>, Seq<char>)> {
    match find(s, pat) {
        Some(i) => Some((s.subrange(0, i), s.subrange(i + pat.len(), s.len() as int))),
        None => None,
    }
}

/// What is left of `s` behind the prefix `pat`, where `s` begins with it.
pub open spec fn strip_prefix(s: Seq<char>, pat: Seq<char>) -> Option<Seq<char>> {
    if starts_with(s, pat) {
        Some(s.subrange(pat.len() as int, s.len() as int))
    } else {
        None
    }
}

/// `s` ends with `pat`.
pub open spec fn ends_with(s: Seq<char>, pat: Seq<char>) -> bool {
    pat.len() <= s.len() && occurs_at(s, pat, s.len() - pat.len())
}

/// What is left of `s` before the suffix `pat`, where `s` ends with it.
pub open spec fn strip_suffix(s: Seq<char>, pat: Seq<char>) -> Option<Seq<char>> {
    if ends_with(s, pat) {
        Some(s.subrange(0, s.len() - pat.len()))
    } else {
        None
    }
}

/// What `find_from` returns is the first occurrence, and `None` means that
/// there is none.
pub proof fn lemma_find_from(s: Seq<char>, pat: Seq<char>, from: int)
    requires
        0 <= from,
    ensures
        match find_from(s, pat, from) {
            Some(i) => {
                &&& from <= i
                &&& occurs_at(s, pat, i)
                &&& forall|j: int| from <= j < i ==> !occurs_at(s, pat, j)
            },
            None => forall|j: int| from <= j ==> !occurs_at(s, pat, j),
        },
    decreases s.len() - from + 1,
{
    if from + pat.len() > s.len() {
    } else if occurs_at(s, pat, from) {
    } else {
        lemma_find_from(s, pat, from + 1);
    }
}

/// An occurrence with none before it is the one that `find_from` returns.
pub proof fn lemma_find_from_is(s: Seq<char>, pat: Seq<char>, from: int, i: int)
    requires
        0 <= from <= i,
        occurs_at(s, pat, i),
        forall|j: int| from <= j < i ==> !occurs_at(s, pat, j),
    ensures
        find_from(s, pat, from) == Some(i),
    decreases i - from,
{
    if from < i {
        lemma_find_from_is(s, pat, from + 1, i);
    }
}

/// A pattern of one character stands where that character stands.
pub proof fn lemma_occurs_at_char(s: Seq<char>, pat: Seq<char>, i: int)
    requires
        pat.len() == 1,
    ensures
        occurs_at(s, pat, i) <==> (0 <= i < s.len() && s[i] == pat[0]),
{
    if 0 <= i < s.len() {
        let window = s.subrange(i, i + 1);
        assert(window[0] == s[i]);
        if s[i] == pat[0] {
            assert(window =~= pat);
        }
    }
}

/// A text begins with what a prefix of it begins with.
pub proof fn lemma_starts_with_prefix(head: Seq<char>, tail: Seq<char>, pat: Seq<char>)
    requires
        starts_with(head, pat),
    ensures
        starts_with(head + tail, pat),
{
    assert((head + tail).subrange(0, pat.len() as int) =~= head.subrange(0, pat.len() as int));
}

/// The characters of `s`, in order.
pub fn chars_of(s: &str) -> (chars: Vec<char>)
    ensures
        chars@ == s@,
{
    let mut chars: Vec<char> = Vec::new();
    let it = s.chars();
    for c in iter: it
        invariant
            chars@ == s@.take(iter.index() as int),
            iter.seq() == s@,
    {
        chars.push(c);
    }
    chars
}

/// Whether `pat` stands in `chars` at index `at`.
pub fn matches_at(chars: &Vec<char>, pat: &Vec<char>, at: usize) -> (found: bool)
    ensures
        found == occurs_at(chars@, pat@, at as int),
{
    if at > chars.len() || pat.len() > chars.len() - at {
        return false;
    }
    let mut k: usize = 0;
    while k < pat.len()
        invariant
            at + pat.len() <= chars.len(),
            k <= pat.len(),
            forall|j: int| 0 <= j < k ==> chars@[at + j] == pat@[j],
        decreases pat.len() - k,
    {
        if chars[at + k] != pat[k] {
            proof {
                let window = chars@.subrange(at as int, at + pat.len());
                assert(window[k as int] == chars@[at + k]);
            }
            return false;
        }
        k += 1;
    }
    proof {
        assert(chars@.subrange(at as int, at + pat.len()) =~= pat@);
    }
    true
}

/// The first index at or after `from` at which `pat` stands in `chars`.
pub fn find_in(chars: &Vec<char>, pat: &Vec<char>, from: usize) -> (found: Option<usize>)
    ensures
        match found {
            Some(i) => find_from(chars@, pat@, from as int) == Some(i as int),
            None => find_from(chars@, pat@, from as int) is None,
        },
{
    if pat.len() == 0 {
        if from <= chars.len() {
            proof {
                assert(chars@.subrange(from as int, from as int) =~= pat@);
            }
            return Some(from);
        }
        return None;
    }
    let mut i: usize = from;
    while i < chars.len() && pat.len() <= chars.len() - i
        invariant
            from <= i,
            pat.len() > 0,
            find_from(chars@, pat@, from as int) == find_from(chars@, pat@, i as int),
        decreases chars.len() - i,
    {
        if matches_at(chars, pat, i) {
            return Some(i);
        }
        i += 1;
    }
    None
}

/// Whether two texts hold the same characters.
pub fn same_text(a: &str, b: &str) -> (same: bool)
    ensures
        same == (a@ == b@),
{
    let left = chars_of(a);
    let right = chars_of(b);
    if left.len() != right.len() {
        return false;
    }
    let mut k: usize = 0;
    while k < left.len()
        invariant
            left@ == a@,
            right@ == b@,
            left.len() == right.len(),
            k <= left.len(),
            forall|j: int| 0 <= j < k ==> left@[j] == right@[j],
        decreases left.len() - k,
    {
        if left[k] != right[k] {
            proof {
                assert(a@[k as int] != b@[k as int]);
            }
            return false;
        }
        k += 1;
    }
    proof {
        assert(left@ =~= right@);
    }
    true
}

/// The characters of `s` from index `from` up to, not including, index `to`.
pub fn slice<'a>(s: &'a str, from: usize, to: usize) -> (part: &'a str)
    requires
        from <= to <= s@.len(),
    ensures
        part@ == s@.subrange(from as int, to as int),
{
    s.substring_char(from, to)
}

/// Splits `s` at the first occurrence of `pat`, which belongs to neither
/// part.
pub fn split_once_text<'a>(s: &'a str, pat: &str) -> (parts: Option<(&'a str, &'a str)>)
    ensures
        match parts {
            Some((before, after)) => split_once(s@, pat@) == Some((before@, after@)),
            None => split_once(s@, pat@) is None,
        },
{
    let chars = chars_of(s);
    let pattern = chars_of(pat);
    match find_in(&chars, &pattern, 0) {
        Some(i) => {
            proof {
                lemma_find_from(chars@, pattern@, 0);
                assert(occurs_at(chars@, pattern@, i as int));
            }
            let end: usize = chars.len();
            Some((slice(s, 0, i), slice(s, i + pattern.len(), end)))
        },
        None => None,
    }
}

/// Takes the prefix `pat` off `s`.
pub fn strip_prefix_text<'a>(s: &'a str, pat: &str) -> (rest: Option<&'a str>)
    ensures
        match rest {
            Some(r) => strip_prefix(s@, pat@) == Some(r@),
            None => strip_prefix(s@, pat@) is None,
        },
{
    let chars = chars_of(s);
    let pattern = chars_of(pat);
    if matches_at(&chars, &pattern, 0) {
        Some(slice(s, pattern.len(), chars.len()))
    } else {
        None
    }
}

/// Takes the suffix `pat` off `s`.
pub fn strip_suffix_text<'a>(s: &'a str, pat: &str) -> (rest: Option<&'a str>)
    ensures
        match rest {
            Some(r) => strip_suffix(s@, pat@) == Some(r@),
            None => strip_suffix(s@, pat@) is None,
        },
{
    let chars = chars_of(s);
    let pattern = chars_of(pat);
    if pattern.len() > chars.len() {
        return None;
    }
    let cut: usize = chars.len() - pattern.len();
    if matches_at(&chars, &pattern, cut) {
        Some(slice(s, 0, cut))
    } else {
        None
    }
}

/// Whether `s` begins with `pat`.
pub fn has_prefix(s: &str, pat: &str) -> (found: bool)
    ensures
        found == starts_with(s@, pat@),
{
    let chars = chars_of(s);
    let pattern = chars_of(pat);
    matches_at(&chars, &pattern, 0)
}

} // verus!
