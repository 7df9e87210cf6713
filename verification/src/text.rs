//! Character-level helpers shared by the markup and template scanners.
//!
//! All text is modelled as `Seq<char>`; the executable side works on
//! `Vec<char>` so that positions are plain indices.

use vstd::prelude::*;

verus! {

/// `String::push` appends exactly one character to the end of the string and
/// leaves everything before it untouched.
pub assume_specification[ String::push ](s: &mut String, c: char)
    ensures
        final(s)@ == old(s)@.push(c),
;

/// `pat` occurs in `s` starting at position `i`.
pub open spec fn has_at(s: Seq<char>, i: int, pat: Seq<char>) -> bool {
    0 <= i && i + pat.len() <= s.len() && s.subrange(i, i + pat.len()) == pat
}

/// `pat` occurs somewhere in `s`.
pub open spec fn occurs_in(s: Seq<char>, pat: Seq<char>) -> bool {
    exists|i: int| has_at(s, i, pat)
}

/// The characters of a string slice, in order.
pub fn to_chars(s: &str) -> (v: Vec<char>)
    ensures
        v@ == s@,
{
    let mut v: Vec<char> = Vec::new();
    for c in it: s.chars()
        invariant
            v@ == it.seq().take(it.index() as int),
            it.seq() == s@,
    {
        v.push(c);
    }
    v
}

/// The string made of the characters `v[from..to]`; the range is cut down to
/// the vector where it reaches past its end.
pub fn text_of_range(v: &Vec<char>, from: usize, to: usize) -> (s: String)
    ensures
        from <= to <= v.len() ==> s@ == v@.subrange(from as int, to as int),
        from > to || from > v.len() ==> s@ == Seq::<char>::empty(),
        from <= v.len() < to ==> s@ == v@.subrange(from as int, v.len() as int),
{
    let mut s = String::new();
    let end: usize = if to <= v.len() { to } else { v.len() };
    if from > end {
        return s;
    }
    let mut i: usize = from;
    while i < end
        invariant
            from <= i <= end <= v.len(),
            s@ == v@.subrange(from as int, i as int),
        decreases end - i,
    {
        s.push(v[i]);
        i += 1;
        assert(v@.subrange(from as int, i as int) =~= v@.subrange(from as int, i - 1).push(
            v@[i - 1],
        ));
    }
    s
}

/// The string made of all characters of `v`.
pub fn from_chars(v: &Vec<char>) -> (s: String)
    ensures
        s@ == v@,
{
    let s = text_of_range(v, 0, v.len());
    assert(v@.subrange(0, v.len() as int) =~= v@);
    s
}

/// Whether `pat` occurs in `v` at position `i`.
pub fn matches_at(v: &Vec<char>, i: usize, pat: &Vec<char>) -> (r: bool)
    ensures
        r == has_at(v@, i as int, pat@),
{
    if pat.len() > v.len() || i > v.len() - pat.len() {
        return false;
    }
    let mut k: usize = 0;
    while k < pat.len()
        invariant
            k <= pat.len(),
            i + pat.len() <= v.len(),
            forall|j: int| 0 <= j < k ==> v@[i + j] == pat@[j],
        decreases pat.len() - k,
    {
        if v[i + k] != pat[k] {
            proof {
                let sub = v@.subrange(i as int, i + pat.len());
                assert(sub[k as int] == v@[i + k]);
            }
            return false;
        }
        k += 1;
    }
    assert(v@.subrange(i as int, i + pat.len()) =~= pat@);
    true
}

/// The first position at or after `i` where `pat` occurs in `s`.
pub open spec fn first_occurrence(s: Seq<char>, pat: Seq<char>, i: int) -> Option<int>
    decreases s.len() - i,
{
    if i < 0 || i > s.len() {
        None
    } else if has_at(s, i, pat) {
        Some(i)
    } else if i == s.len() {
        None
    } else {
        first_occurrence(s, pat, i + 1)
    }
}

/// What [`first_occurrence`] gives is an occurrence at or after `i` with none
/// between; where it gives none, there is none at or after `i`.
pub proof fn lemma_first_occurrence(s: Seq<char>, pat: Seq<char>, i: int)
    requires
        0 <= i,
    ensures
        match first_occurrence(s, pat, i) {
            Some(k) => i <= k && k + pat.len() <= s.len() && has_at(s, k, pat) && forall|j: int|
                i <= j < k ==> !has_at(s, j, pat),
            None => forall|j: int| i <= j ==> !has_at(s, j, pat),
        },
    decreases s.len() - i,
{
    if i <= s.len() && !has_at(s, i, pat) && i != s.len() {
        lemma_first_occurrence(s, pat, i + 1);
    }
}

/// The first position at or after `from` where `pat` occurs in `v`.
pub fn find_from(v: &Vec<char>, pat: &Vec<char>, from: usize) -> (r: Option<usize>)
    ensures
        match r {
            Some(k) => first_occurrence(v@, pat@, from as int) == Some(k as int),
            None => first_occurrence(v@, pat@, from as int) is None,
        },
        match r {
            Some(k) => from <= k && k + pat.len() <= v.len() && has_at(v@, k as int, pat@)
                && forall|j: int| from <= j < k ==> !has_at(v@, j, pat@),
            None => forall|j: int| from <= j ==> !has_at(v@, j, pat@),
        },
{
    let mut i: usize = from;
    while i <= v.len()
        invariant
            from <= i,
            first_occurrence(v@, pat@, from as int) == first_occurrence(v@, pat@, i as int),
        decreases v.len() + 1 - i,
    {
        proof {
            lemma_first_occurrence(v@, pat@, from as int);
        }
        if matches_at(v, i, pat) {
            return Some(i);
        }
        if i == v.len() {
            return None;
        }
        i += 1;
    }
    proof {
        lemma_first_occurrence(v@, pat@, from as int);
    }
    None
}

/// Whether `pat` occurs anywhere in `v`.
pub fn contains_text(v: &Vec<char>, pat: &Vec<char>) -> (r: bool)
    ensures
        r == occurs_in(v@, pat@),
{
    match find_from(v, pat, 0) {
        Some(k) => {
            assert(has_at(v@, k as int, pat@));
            true
        },
        None => false,
    }
}

} // verus!
