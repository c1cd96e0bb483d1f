//! Finding characters and bytes, and cutting text at them.

use vstd::prelude::*;
use vstd::slice::{slice_subrange, slice_to_vec};

use crate::text::{is_space, spec_is_space, spec_pieces};

verus! {

// ---------------------------------------------------------------------------
// Searching
// ---------------------------------------------------------------------------

/// The first index at or after `from` that holds `x`.
pub open spec fn spec_find_from<T>(s: Seq<T>, x: T, from: int) -> Option<int>
    decreases s.len() - from,
{
    if from < 0 || from >= s.len() {
        None
    } else if s[from] == x {
        Some(from)
    } else {
        spec_find_from(s, x, from + 1)
    }
}

/// The first index that holds `x`.
pub open spec fn spec_find<T>(s: Seq<T>, x: T) -> Option<int> {
    spec_find_from(s, x, 0)
}

/// The last index below `to` that holds `x`.
pub open spec fn spec_rfind_below<T>(s: Seq<T>, x: T, to: int) -> Option<int>
    decreases to,
{
    if to <= 0 || to > s.len() {
        None
    } else if s[to - 1] == x {
        Some(to - 1)
    } else {
        spec_rfind_below(s, x, to - 1)
    }
}

/// The last index that holds `x`.
pub open spec fn spec_rfind<T>(s: Seq<T>, x: T) -> Option<int> {
    spec_rfind_below(s, x, s.len() as int)
}

/// The first index at or after `from` that holds white space.
pub open spec fn spec_find_space_from(s: Seq<char>, from: int) -> Option<int>
    decreases s.len() - from,
{
    if from < 0 || from >= s.len() {
        None
    } else if spec_is_space(s[from]) {
        Some(from)
    } else {
        spec_find_space_from(s, from + 1)
    }
}

/// The first index at or after `from` where `pattern` occurs.
pub open spec fn spec_find_text_from(s: Seq<char>, pattern: Seq<char>, from: int) -> Option<int>
    decreases s.len() - from,
{
    if from < 0 || from + pattern.len() > s.len() || from >= s.len() {
        None
    } else if s.subrange(from, from + pattern.len()) == pattern {
        Some(from)
    } else {
        spec_find_text_from(s, pattern, from + 1)
    }
}

/// The found index holds `x`, and nothing between `from` and it does.
pub proof fn lemma_find_from<T>(s: Seq<T>, x: T, from: int)
    requires
        0 <= from,
    ensures
        match spec_find_from(s, x, from) {
            Some(i) => {
                &&& from <= i < s.len()
                &&& s[i] == x
                &&& forall|j: int| from <= j < i ==> s[j] != x
            },
            None => forall|j: int| from <= j < s.len() ==> s[j] != x,
        },
    decreases s.len() - from,
{
    if from < s.len() && s[from] != x {
        lemma_find_from(s, x, from + 1);
    }
}

/// An index that holds `x` with none before it is the one that is found.
pub proof fn lemma_find_from_is<T>(s: Seq<T>, x: T, from: int, at: int)
    requires
        0 <= from <= at < s.len(),
        s[at] == x,
        forall|j: int| from <= j < at ==> s[j] != x,
    ensures
        spec_find_from(s, x, from) == Some(at),
{
    lemma_find_from(s, x, from);
}

/// Nothing is found where `x` does not occur.
pub proof fn lemma_find_from_none<T>(s: Seq<T>, x: T, from: int)
    requires
        0 <= from,
        forall|j: int| from <= j < s.len() ==> s[j] != x,
    ensures
        spec_find_from(s, x, from) is None,
{
    lemma_find_from(s, x, from);
}

/// The found index holds `x`, and nothing between it and `to` does.
pub proof fn lemma_rfind_below<T>(s: Seq<T>, x: T, to: int)
    requires
        to <= s.len(),
    ensures
        match spec_rfind_below(s, x, to) {
            Some(i) => {
                &&& 0 <= i < to
                &&& s[i] == x
                &&& forall|j: int| i < j < to ==> s[j] != x
            },
            None => forall|j: int| 0 <= j < to ==> s[j] != x,
        },
    decreases to,
{
    if to > 0 && s[to - 1] != x {
        lemma_rfind_below(s, x, to - 1);
    }
}

pub fn find(s: &[char], c: char) -> (r: Option<usize>)
    ensures
        match r {
            Some(i) => spec_find(s@, c) == Some(i as int) && i < s@.len(),
            None => spec_find(s@, c) is None,
        },
{
    for i in 0..s.len()
        invariant
            spec_find(s@, c) == spec_find_from(s@, c, i as int),
    {
        if s[i] == c {
            return Some(i);
        }
    }
    None
}

pub fn find_byte(s: &[u8], b: u8) -> (r: Option<usize>)
    ensures
        match r {
            Some(i) => spec_find(s@, b) == Some(i as int) && i < s@.len(),
            None => spec_find(s@, b) is None,
        },
{
    for i in 0..s.len()
        invariant
            spec_find(s@, b) == spec_find_from(s@, b, i as int),
    {
        if s[i] == b {
            return Some(i);
        }
    }
    None
}

pub fn rfind(s: &[char], c: char) -> (r: Option<usize>)
    ensures
        match r {
            Some(i) => spec_rfind(s@, c) == Some(i as int) && i < s@.len(),
            None => spec_rfind(s@, c) is None,
        },
{
    let mut i: usize = s.len();
    while i > 0
        invariant
            i <= s@.len(),
            spec_rfind(s@, c) == spec_rfind_below(s@, c, i as int),
        decreases i,
    {
        if s[i - 1] == c {
            return Some(i - 1);
        }
        i -= 1;
    }
    None
}

pub fn find_space(s: &[char]) -> (r: Option<usize>)
    ensures
        match r {
            Some(i) => spec_find_space_from(s@, 0) == Some(i as int) && i < s@.len(),
            None => spec_find_space_from(s@, 0) is None,
        },
{
    for i in 0..s.len()
        invariant
            spec_find_space_from(s@, 0) == spec_find_space_from(s@, i as int),
    {
        if is_space(s[i]) {
            return Some(i);
        }
    }
    None
}

/// Finds `pattern` in `s`.
pub fn find_text(s: &[char], pattern: &str) -> (r: Option<usize>)
    ensures
        match r {
            Some(i) => spec_find_text_from(s@, pattern@, 0) == Some(i as int) && i + pattern@.len()
                <= s@.len(),
            None => spec_find_text_from(s@, pattern@, 0) is None,
        },
{
    let p = crate::text::chars_of(pattern);
    let mut i: usize = 0;
    while i < s.len() && p.len() <= s.len() - i
        invariant
            i <= s@.len(),
            p@ == pattern@,
            spec_find_text_from(s@, pattern@, 0) == spec_find_text_from(s@, pattern@, i as int),
        decreases s@.len() - i,
    {
        if crate::text::same_chars(slice_subrange(s, i, i + p.len()), p.as_slice()) {
            return Some(i);
        }
        i += 1;
    }
    None
}

// ---------------------------------------------------------------------------
// Cutting
// ---------------------------------------------------------------------------

/// The text before and after the first `c`.
pub open spec fn spec_split_once(s: Seq<char>, c: char) -> Option<(Seq<char>, Seq<char>)> {
    match spec_find(s, c) {
        Some(i) => Some((s.take(i), s.skip(i + 1))),
        None => None,
    }
}

/// The text before and after the first white space character.
pub open spec fn spec_split_space(s: Seq<char>) -> Option<(Seq<char>, Seq<char>)> {
    match spec_find_space_from(s, 0) {
        Some(i) => Some((s.take(i), s.skip(i + 1))),
        None => None,
    }
}

/// The text before the first `c`, or all of it.
pub open spec fn spec_before(s: Seq<char>, c: char) -> Seq<char> {
    match spec_find(s, c) {
        Some(i) => s.take(i),
        None => s,
    }
}

/// The pieces of `s` from `from` on, cut at each `c`.
pub open spec fn spec_split_from(s: Seq<char>, c: char, from: int) -> Seq<Seq<char>>
    decreases s.len() - from,
    when 0 <= from <= s.len()
{
    proof {
        lemma_find_from(s, c, from);
    }
    match spec_find_from(s, c, from) {
        Some(i) => seq![s.subrange(from, i)] + spec_split_from(s, c, i + 1),
        None => seq![s.subrange(from, s.len() as int)],
    }
}

/// The pieces of `s` cut at each `c`: always one more than there are `c`s.
pub open spec fn spec_split(s: Seq<char>, c: char) -> Seq<Seq<char>> {
    spec_split_from(s, c, 0)
}

pub fn split_once<'a>(s: &'a [char], c: char) -> (r: Option<(&'a [char], &'a [char])>)
    ensures
        match r {
            Some((a, b)) => spec_split_once(s@, c) == Some((a@, b@)),
            None => spec_split_once(s@, c) is None,
        },
{
    match find(s, c) {
        Some(i) => {
            let n: usize = s.len();
            let a = slice_subrange(s, 0, i);
            let b = slice_subrange(s, i + 1, n);
            assert(a@ =~= s@.take(i as int));
            assert(b@ =~= s@.skip(i + 1));
            Some((a, b))
        },
        None => None,
    }
}

pub fn split_space<'a>(s: &'a [char]) -> (r: Option<(&'a [char], &'a [char])>)
    ensures
        match r {
            Some((a, b)) => spec_split_space(s@) == Some((a@, b@)),
            None => spec_split_space(s@) is None,
        },
{
    match find_space(s) {
        Some(i) => {
            let n: usize = s.len();
            let a = slice_subrange(s, 0, i);
            let b = slice_subrange(s, i + 1, n);
            assert(a@ =~= s@.take(i as int));
            assert(b@ =~= s@.skip(i + 1));
            Some((a, b))
        },
        None => None,
    }
}

pub fn before(s: &[char], c: char) -> (r: &[char])
    ensures
        r@ == spec_before(s@, c),
{
    match find(s, c) {
        Some(i) => {
            let a = slice_subrange(s, 0, i);
            assert(a@ =~= s@.take(i as int));
            a
        },
        None => s,
    }
}

pub fn split(s: &[char], c: char) -> (r: Vec<Vec<char>>)
    ensures
        spec_pieces(r@) == spec_split(s@, c),
        r@.len() > 0,
{
    let mut out: Vec<Vec<char>> = Vec::new();
    let mut start: usize = 0;
    let mut i: usize = 0;
    assert(spec_pieces(out@) + spec_split_from(s@, c, 0) =~= spec_split(s@, c));
    while i < s.len()
        invariant
            start <= i <= s@.len(),
            spec_find_from(s@, c, start as int) == spec_find_from(s@, c, i as int),
            spec_pieces(out@) + spec_split_from(s@, c, start as int) == spec_split(s@, c),
        decreases s@.len() - i,
    {
        if s[i] == c {
            let piece = slice_to_vec(slice_subrange(s, start, i));
            let ghost before = out@;
            out.push(piece);
            assert(spec_pieces(out@) =~= spec_pieces(before).push(piece@));
            assert(spec_pieces(before) + (seq![piece@] + spec_split_from(s@, c, i + 1))
                =~= spec_pieces(out@) + spec_split_from(s@, c, i + 1));
            start = i + 1;
        }
        i += 1;
    }
    let piece = slice_to_vec(slice_subrange(s, start, s.len()));
    let ghost before = out@;
    out.push(piece);
    assert(spec_pieces(out@) =~= spec_pieces(before).push(piece@));
    assert(spec_pieces(before) + seq![piece@] =~= spec_pieces(out@));
    out
}

} // verus!
