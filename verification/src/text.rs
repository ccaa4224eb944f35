//! Character sequences: the searches, cuts and joins that path handling needs.
//!
//! Every function here is stated over `Seq<char>`, the view of a string.

use vstd::prelude::*;

verus! {

/// `part` stands in `text` at position `at`.
pub open spec fn occurs_at(text: Seq<char>, part: Seq<char>, at: int) -> bool {
    &&& 0 <= at
    &&& at + part.len() <= text.len()
    &&& text.subrange(at, at + part.len()) == part
}

/// `text` begins with `part`.
pub open spec fn starts_with(text: Seq<char>, part: Seq<char>) -> bool {
    occurs_at(text, part, 0)
}

/// `text` ends with `part`.
pub open spec fn ends_with(text: Seq<char>, part: Seq<char>) -> bool {
    occurs_at(text, part, text.len() - part.len())
}

/// `at` is the leftmost position at which `part` stands in `text`.
pub open spec fn first_occurrence(text: Seq<char>, part: Seq<char>, at: int) -> bool {
    &&& occurs_at(text, part, at)
    &&& forall|j: int| 0 <= j < at ==> !occurs_at(text, part, j)
}

/// `part` stands nowhere in `text`.
pub open spec fn absent(text: Seq<char>, part: Seq<char>) -> bool {
    forall|j: int| !occurs_at(text, part, j)
}

/// The leftmost position at which `part` stands in `text`, if it stands
/// anywhere.
pub open spec fn position(text: Seq<char>, part: Seq<char>) -> Option<int> {
    if exists|at: int| occurs_at(text, part, at) {
        Some(choose|at: int| first_occurrence(text, part, at))
    } else {
        None
    }
}

/// A leftmost position is the position.
pub proof fn position_is_first(text: Seq<char>, part: Seq<char>, at: int)
    requires
        first_occurrence(text, part, at),
    ensures
        position(text, part) == Some(at),
{
    let chosen = choose|k: int| first_occurrence(text, part, k);
    assert(first_occurrence(text, part, chosen));
    if chosen < at {
        assert(!occurs_at(text, part, chosen));
    }
    if at < chosen {
        assert(!occurs_at(text, part, at));
    }
}

/// The characters of a string slice, in order.
pub fn chars_of(s: &str) -> (v: Vec<char>)
    ensures
        v@ == s@,
{
    let mut v: Vec<char> = Vec::new();
    for c in it: s.chars()
        invariant
            it.seq() == s@,
            v@ == it.seq().take(it.index()),
    {
        v.push(c);
    }
    v
}

/// The part of `s` from character `from` up to, not including, character `to`.
pub fn cut(s: &str, from: usize, to: usize) -> (r: String)
    requires
        from <= to <= s@.len(),
    ensures
        r@ == s@.subrange(from as int, to as int),
{
    String::from_str(s.substring_char(from, to))
}

/// `head` followed by `tail`.
pub fn append(head: &str, tail: &str) -> (r: String)
    ensures
        r@ == head@ + tail@,
{
    let mut r = String::from_str(head);
    r.append(tail);
    r
}

/// Whether `part` stands in `text` at position `at`.
pub fn matches_at(text: &Vec<char>, part: &Vec<char>, at: usize) -> (r: bool)
    ensures
        r == occurs_at(text@, part@, at as int),
{
    if part.len() > text.len() || at > text.len() - part.len() {
        return false;
    }
    let mut i: usize = 0;
    while i < part.len()
        invariant
            i <= part.len(),
            at + part.len() <= text.len(),
            forall|k: int| 0 <= k < i ==> text@[at + k] == part@[k],
        decreases part.len() - i,
    {
        if text[at + i] != part[i] {
            assert(text@.subrange(at as int, at + part.len())[i as int] != part@[i as int]);
            return false;
        }
        i = i + 1;
    }
    assert(text@.subrange(at as int, at + part.len()) =~= part@);
    true
}

/// The leftmost position at which `part` stands in `text`, if it stands anywhere.
pub fn find(text: &Vec<char>, part: &Vec<char>) -> (r: Option<usize>)
    ensures
        match r {
            Some(at) => first_occurrence(text@, part@, at as int),
            None => absent(text@, part@),
        },
        position(text@, part@) == match r {
            Some(at) => Some(at as int),
            None => None,
        },
{
    if part.len() > text.len() {
        return None;
    }
    let last: usize = text.len() - part.len();
    let mut at: usize = 0;
    loop
        invariant
            at <= last,
            last == text.len() - part.len(),
            forall|j: int| 0 <= j < at ==> !occurs_at(text@, part@, j),
        decreases last - at,
    {
        if matches_at(text, part, at) {
            proof {
                position_is_first(text@, part@, at as int);
            }
            return Some(at);
        }
        if at == last {
            return None;
        }
        at = at + 1;
    }
}

/// Whether `text` begins with `part`.
pub fn has_prefix(text: &Vec<char>, part: &Vec<char>) -> (r: bool)
    ensures
        r == starts_with(text@, part@),
{
    matches_at(text, part, 0)
}

/// Whether `text` ends with `part`.
pub fn has_suffix(text: &Vec<char>, part: &Vec<char>) -> (r: bool)
    ensures
        r == ends_with(text@, part@),
{
    if part.len() > text.len() {
        return false;
    }
    matches_at(text, part, text.len() - part.len())
}

} // verus!
