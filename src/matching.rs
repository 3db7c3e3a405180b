//! Leftmost byte-wise substring search, with an ASCII case-insensitive
//! fallback.
use vstd::prelude::*;
use crate::options::CliOptions;

verus! {

/// An ASCII upper-case letter lowered; every other byte unchanged.
pub open spec fn lower_byte(b: u8) -> u8 {
    if 65 <= b <= 90 {
        (b + 32) as u8
    } else {
        b
    }
}

/// The ASCII-lowercased form of `s`, byte for byte.
pub open spec fn lower_bytes(s: Seq<u8>) -> Seq<u8> {
    s.map_values(|b: u8| lower_byte(b))
}

/// `needle` occurs in `hay` starting at byte offset `i`.
pub open spec fn occurs_at(hay: Seq<u8>, needle: Seq<u8>, i: int) -> bool {
    0 <= i && i + needle.len() <= hay.len() && hay.subrange(i, i + needle.len()) == needle
}

/// `needle` occurs somewhere in `hay`.
pub open spec fn contains(hay: Seq<u8>, needle: Seq<u8>) -> bool {
    exists|i: int| occurs_at(hay, needle, i)
}

/// The first offset at or after `i` where `needle` occurs in `hay`.
pub open spec fn first_from(hay: Seq<u8>, needle: Seq<u8>, i: nat) -> Option<nat>
    decreases hay.len() + 1 - i,
{
    if i + needle.len() > hay.len() {
        None
    } else if occurs_at(hay, needle, i as int) {
        Some(i)
    } else {
        first_from(hay, needle, i + 1)
    }
}

/// The leftmost offset where `needle` occurs in `hay`.
pub open spec fn first_occurrence(hay: Seq<u8>, needle: Seq<u8>) -> Option<nat> {
    first_from(hay, needle, 0)
}

/// Where a line matches the search term: the leftmost verbatim occurrence;
/// failing that, when case is ignored, the leftmost occurrence of the
/// lowercased term in the lowercased line.
pub open spec fn match_start(line: Seq<u8>, term: Seq<u8>, ignore_case: bool) -> Option<nat> {
    match first_occurrence(line, term) {
        Some(k) => Some(k),
        None => if ignore_case {
            first_occurrence(lower_bytes(line), lower_bytes(term))
        } else {
            None
        },
    }
}

/// What `first_from` returns: the least occurrence at or after `i`, if any.
pub proof fn lemma_first_from(hay: Seq<u8>, needle: Seq<u8>, i: nat)
    ensures
        match first_from(hay, needle, i) {
            Some(k) => i <= k && occurs_at(hay, needle, k as int) && forall|j: int|
                i <= j < k ==> !occurs_at(hay, needle, j),
            None => forall|j: int| i <= j ==> !occurs_at(hay, needle, j),
        },
    decreases hay.len() + 1 - i,
{
    if i + needle.len() > hay.len() {
    } else if occurs_at(hay, needle, i as int) {
    } else {
        lemma_first_from(hay, needle, i + 1);
    }
}

/// The leftmost occurrence is an occurrence with none before it, and there
/// is one exactly when the needle occurs at all.
pub proof fn lemma_first_occurrence(hay: Seq<u8>, needle: Seq<u8>)
    ensures
        first_occurrence(hay, needle) is Some <==> contains(hay, needle),
        match first_occurrence(hay, needle) {
            Some(k) => occurs_at(hay, needle, k as int) && forall|j: int|
                0 <= j < k ==> !occurs_at(hay, needle, j),
            None => true,
        },
{
    lemma_first_from(hay, needle, 0);
    if let Some(k) = first_occurrence(hay, needle) {
        assert(occurs_at(hay, needle, k as int));
    }
}

/// An occurrence stays an occurrence, at the same offset, once both sides
/// are lowercased.
pub proof fn lemma_lowering_keeps_occurrence(hay: Seq<u8>, needle: Seq<u8>, i: int)
    requires
        occurs_at(hay, needle, i),
    ensures
        occurs_at(lower_bytes(hay), lower_bytes(needle), i),
{
    assert(lower_bytes(hay).subrange(i, i + needle.len()) =~= lower_bytes(
        hay.subrange(i, i + needle.len()),
    ));
}

/// Without case folding a line matches exactly when it holds the term's
/// bytes, and the match is at the leftmost such place.
pub proof fn lemma_case_sensitive_match(line: Seq<u8>, term: Seq<u8>)
    ensures
        match_start(line, term, false) is Some <==> contains(line, term),
        match_start(line, term, false) == first_occurrence(line, term),
{
    lemma_first_occurrence(line, term);
}

/// With case folding a line matches exactly when its lowercased form holds
/// the lowercased term; a verbatim occurrence is preferred, and otherwise
/// the match is the leftmost one between the lowercased forms.
pub proof fn lemma_case_insensitive_match(line: Seq<u8>, term: Seq<u8>)
    ensures
        match_start(line, term, true) is Some <==> contains(lower_bytes(line), lower_bytes(term)),
        contains(line, term) ==> match_start(line, term, true) == first_occurrence(line, term),
        !contains(line, term) ==> match_start(line, term, true) == first_occurrence(
            lower_bytes(line),
            lower_bytes(term),
        ),
{
    lemma_first_occurrence(line, term);
    lemma_first_occurrence(lower_bytes(line), lower_bytes(term));
    if contains(line, term) {
        let i = choose|i: int| occurs_at(line, term, i);
        lemma_lowering_keeps_occurrence(line, term, i);
    }
}

/// The empty term matches every line at offset 0.
pub proof fn lemma_empty_term_matches_at_start(line: Seq<u8>, ignore_case: bool)
    ensures
        match_start(line, Seq::empty(), ignore_case) == Some(0nat),
{
    assert(line.subrange(0, 0) =~= Seq::<u8>::empty());
}

/// A term longer than the line never matches it.
pub proof fn lemma_long_term_never_matches(line: Seq<u8>, term: Seq<u8>, ignore_case: bool)
    requires
        term.len() > line.len(),
    ensures
        match_start(line, term, ignore_case) is None,
{
    assert(first_occurrence(line, term) is None);
    assert(first_occurrence(lower_bytes(line), lower_bytes(term)) is None);
}

/// A match lies within the line.
pub proof fn lemma_match_within_line(line: Seq<u8>, term: Seq<u8>, ignore_case: bool)
    ensures
        match_start(line, term, ignore_case) matches Some(k) ==> k + term.len() <= line.len(),
{
    lemma_first_occurrence(line, term);
    lemma_first_occurrence(lower_bytes(line), lower_bytes(term));
}

/// Lowers one byte.
pub fn lower_ascii_byte(b: u8) -> (r: u8)
    ensures
        r == lower_byte(b),
{
    if 65 <= b && b <= 90 {
        b + 32
    } else {
        b
    }
}

/// The ASCII-lowercased copy of `s`.
pub fn lowercase_ascii(s: &[u8]) -> (r: Vec<u8>)
    ensures
        r@ == lower_bytes(s@),
{
    let mut r: Vec<u8> = Vec::with_capacity(s.len());
    let mut i: usize = 0;
    while i < s.len()
        invariant
            i <= s@.len(),
            r@ =~= lower_bytes(s@.subrange(0, i as int)),
        decreases s@.len() - i,
    {
        r.push(lower_ascii_byte(s[i]));
        i = i + 1;
        assert(lower_bytes(s@.subrange(0, i as int)) =~= lower_bytes(
            s@.subrange(0, i - 1),
        ).push(lower_byte(s@[i - 1])));
    }
    assert(s@.subrange(0, s@.len() as int) =~= s@);
    r
}

/// Tells whether `needle` occurs in `hay` at offset `i`.
pub fn occurs_at_offset(hay: &[u8], needle: &[u8], i: usize) -> (r: bool)
    ensures
        r == occurs_at(hay@, needle@, i as int),
{
    if needle.len() > hay.len() || i > hay.len() - needle.len() {
        return false;
    }
    let mut j: usize = 0;
    while j < needle.len()
        invariant
            j <= needle@.len(),
            i + needle@.len() <= hay@.len(),
            needle@.len() == needle.len(),
            hay@.len() == hay.len(),
            forall|k: int| 0 <= k < j ==> hay@[i + k] == needle@[k],
        decreases needle@.len() - j,
    {
        if hay[i + j] != needle[j] {
            assert(hay@.subrange(i as int, i + needle@.len())[j as int] != needle@[j as int]);
            return false;
        }
        j = j + 1;
    }
    assert(hay@.subrange(i as int, i + needle@.len()) =~= needle@);
    true
}

/// The leftmost byte offset at which `needle` occurs in `hay`; an empty
/// needle occurs at offset 0.
pub fn find_bytes(hay: &[u8], needle: &[u8]) -> (r: Option<usize>)
    ensures
        match r {
            Some(k) => first_occurrence(hay@, needle@) == Some(k as nat),
            None => first_occurrence(hay@, needle@) is None,
        },
{
    if needle.len() > hay.len() {
        return None;
    }
    let last = hay.len() - needle.len();
    let mut i: usize = 0;
    loop
        invariant
            last + needle@.len() == hay@.len(),
            i <= last,
            first_occurrence(hay@, needle@) == first_from(hay@, needle@, i as nat),
        decreases last - i,
    {
        if occurs_at_offset(hay, needle, i) {
            return Some(i);
        }
        if i == last {
            assert(first_from(hay@, needle@, (i + 1) as nat) is None);
            return None;
        }
        i = i + 1;
    }
}

/// Locates the term in a line, given the term's lowercased form.
pub(crate) fn locate(line: &[u8], term: &[u8], folded_term: &[u8], ignore_case: bool) -> (r: Option<
    usize,
>)
    requires
        folded_term@ == lower_bytes(term@),
    ensures
        match r {
            Some(k) => match_start(line@, term@, ignore_case) == Some(k as nat),
            None => match_start(line@, term@, ignore_case) is None,
        },
{
    match find_bytes(line, term) {
        Some(k) => Some(k),
        None => {
            if ignore_case {
                let folded_line = lowercase_ascii(line);
                find_bytes(folded_line.as_slice(), folded_term)
            } else {
                None
            }
        },
    }
}

/// The byte offset at which `term` is found in `line` under `opt`: the
/// leftmost verbatim occurrence, else (case ignored) the leftmost occurrence
/// of the lowercased term in the lowercased line.
pub fn find_match(line: &[u8], term: &[u8], opt: &CliOptions) -> (r: Option<usize>)
    ensures
        match r {
            Some(k) => match_start(line@, term@, opt.ignore_case) == Some(k as nat),
            None => match_start(line@, term@, opt.ignore_case) is None,
        },
{
    let folded_term = lowercase_ascii(term);
    locate(line, term, folded_term.as_slice(), opt.ignore_case)
}

} // verus!
