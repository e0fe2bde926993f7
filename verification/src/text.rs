//! Searching and cutting text, over sequences of characters.

use vstd::prelude::*;

verus! {

/// Whether `pattern` stands in `text` starting at index `at`.
pub open spec fn occurs_at(text: Seq<char>, pattern: Seq<char>, at: int) -> bool {
    &&& 0 <= at
    &&& at + pattern.len() <= text.len()
    &&& text.subrange(at, at + pattern.len()) == pattern
}

/// The least index at or after `from` at which `pattern` stands in `text`.
pub open spec fn first_index(text: Seq<char>, pattern: Seq<char>, from: int) -> Option<int>
    decreases text.len() - from + 1,
{
    if from < 0 || from + pattern.len() > text.len() {
        None
    } else if occurs_at(text, pattern, from) {
        Some(from)
    } else {
        first_index(text, pattern, from + 1)
    }
}

/// The greatest index at or before `upto` at which `pattern` stands in `text`.
pub open spec fn last_index(text: Seq<char>, pattern: Seq<char>, upto: int) -> Option<int>
    decreases upto + 1,
{
    if upto < 0 {
        None
    } else if occurs_at(text, pattern, upto) {
        Some(upto)
    } else {
        last_index(text, pattern, upto - 1)
    }
}

/// `text` cut at the first place where `pattern` stands: what is before it and
/// what is after it.
pub open spec fn split_first(text: Seq<char>, pattern: Seq<char>) -> Option<(Seq<char>, Seq<char>)> {
    match first_index(text, pattern, 0) {
        Some(at) => Some((text.take(at), text.skip(at + pattern.len()))),
        None => None,
    }
}

/// `text` cut at the last place where `pattern` stands.
pub open spec fn split_last(text: Seq<char>, pattern: Seq<char>) -> Option<(Seq<char>, Seq<char>)> {
    match last_index(text, pattern, text.len() - pattern.len()) {
        Some(at) => Some((text.take(at), text.skip(at + pattern.len()))),
        None => None,
    }
}

/// `first_index` finds an occurrence, and no occurrence from `from` on lies
/// before it; it finds none only where there is none.
pub proof fn lemma_first_index(text: Seq<char>, pattern: Seq<char>, from: int)
    requires
        0 <= from,
    ensures
        match first_index(text, pattern, from) {
            Some(at) => from <= at && occurs_at(text, pattern, at) && forall|j: int|
                from <= j < at ==> !occurs_at(text, pattern, j),
            None => forall|j: int| from <= j ==> !occurs_at(text, pattern, j),
        },
    decreases text.len() - from + 1,
{
    if from + pattern.len() > text.len() {
    } else if occurs_at(text, pattern, from) {
    } else {
        lemma_first_index(text, pattern, from + 1);
    }
}

/// `last_index` finds an occurrence, and no occurrence up to `upto` lies after
/// it; it finds none only where there is none.
pub proof fn lemma_last_index(text: Seq<char>, pattern: Seq<char>, upto: int)
    ensures
        match last_index(text, pattern, upto) {
            Some(at) => at <= upto && occurs_at(text, pattern, at) && forall|j: int|
                at < j <= upto ==> !occurs_at(text, pattern, j),
            None => forall|j: int| j <= upto ==> !occurs_at(text, pattern, j),
        },
    decreases upto + 1,
{
    if upto < 0 {
    } else if occurs_at(text, pattern, upto) {
    } else {
        lemma_last_index(text, pattern, upto - 1);
    }
}

/// The characters of a string, one by one.
pub fn chars_of(s: &str) -> (chars: Vec<char>)
    ensures
        chars@ == s@,
{
    let n: usize = s.unicode_len();
    let mut chars: Vec<char> = Vec::new();
    let mut i: usize = 0;
    while i < n
        invariant
            n == s@.len(),
            i <= n,
            chars@ == s@.take(i as int),
        decreases n - i,
    {
        chars.push(s.get_char(i));
        assert(s@.take(i + 1) =~= s@.take(i as int).push(s@[i as int]));
        i += 1;
    }
    assert(s@.take(n as int) =~= s@);
    chars
}

/// Whether `pattern` stands in `text` at index `at`.
pub fn matches_at(text: &Vec<char>, pattern: &Vec<char>, at: usize) -> (found: bool)
    ensures
        found == occurs_at(text@, pattern@, at as int),
{
    let n: usize = text.len();
    let m: usize = pattern.len();
    if m > n || at > n - m {
        return false;
    }
    let mut k: usize = 0;
    while k < m
        invariant
            n == text@.len(),
            m == pattern@.len(),
            at + m <= n,
            k <= m,
            forall|j: int| 0 <= j < k ==> text@[at + j] == pattern@[j],
        decreases m - k,
    {
        if text[at + k] != pattern[k] {
            proof {
                let sub = text@.subrange(at as int, at + m);
                assert(sub[k as int] == text@[at + k]);
            }
            return false;
        }
        k += 1;
    }
    assert(text@.subrange(at as int, at + m) =~= pattern@);
    true
}

/// The first place in `text` where `pattern` stands.
pub fn find_first(text: &Vec<char>, pattern: &Vec<char>) -> (found: Option<usize>)
    ensures
        match found {
            Some(at) => first_index(text@, pattern@, 0) == Some(at as int) && occurs_at(
                text@,
                pattern@,
                at as int,
            ),
            None => first_index(text@, pattern@, 0) is None,
        },
{
    let n: usize = text.len();
    let m: usize = pattern.len();
    if m > n {
        return None;
    }
    let mut at: usize = 0;
    loop
        invariant
            n == text@.len(),
            m == pattern@.len(),
            m <= n,
            at <= n - m,
            first_index(text@, pattern@, 0) == first_index(text@, pattern@, at as int),
        decreases n - m - at,
    {
        if matches_at(text, pattern, at) {
            return Some(at);
        }
        if at == n - m {
            assert(first_index(text@, pattern@, at + 1) is None);
            return None;
        }
        at += 1;
    }
}

/// The last place in `text` where `pattern` stands.
pub fn find_last(text: &Vec<char>, pattern: &Vec<char>) -> (found: Option<usize>)
    ensures
        match found {
            Some(at) => last_index(text@, pattern@, text@.len() - pattern@.len()) == Some(
                at as int,
            ) && occurs_at(text@, pattern@, at as int),
            None => last_index(text@, pattern@, text@.len() - pattern@.len()) is None,
        },
{
    let n: usize = text.len();
    let m: usize = pattern.len();
    if m > n {
        return None;
    }
    let mut at: usize = n - m;
    loop
        invariant
            n == text@.len(),
            m == pattern@.len(),
            m <= n,
            at <= n - m,
            last_index(text@, pattern@, n - m) == last_index(text@, pattern@, at as int),
        decreases at,
    {
        if matches_at(text, pattern, at) {
            return Some(at);
        }
        if at == 0 {
            assert(last_index(text@, pattern@, -1) is None);
            return None;
        }
        at -= 1;
    }
}

/// The characters of `text` from index `from` up to, not including, `to`.
pub(crate) fn slice_of(text: &Vec<char>, from: usize, to: usize) -> (part: Vec<char>)
    requires
        from <= to <= text@.len(),
    ensures
        part@ == text@.subrange(from as int, to as int),
{
    let mut part: Vec<char> = Vec::new();
    let mut i: usize = from;
    while i < to
        invariant
            from <= i <= to <= text@.len(),
            part@ == text@.subrange(from as int, i as int),
        decreases to - i,
    {
        part.push(text[i]);
        assert(text@.subrange(from as int, i + 1) =~= text@.subrange(from as int, i as int).push(
            text@[i as int],
        ));
        i += 1;
    }
    part
}

} // verus!
