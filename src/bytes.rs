//! Byte-level scanning: locating a byte, skipping and trimming spaces.

use vstd::prelude::*;

verus! {

pub const SP: u8 = 0x20;

pub const LF: u8 = 0x0a;

pub const CR: u8 = 0x0d;

pub const COLON: u8 = 0x3a;

/// `i` is the position of the first `b` in `s`.
pub open spec fn is_first_index(s: Seq<u8>, b: u8, i: int) -> bool {
    &&& 0 <= i < s.len()
    &&& s[i] == b
    &&& forall|j: int| 0 <= j < i ==> s[j] != b
}

/// The position of the first `b` in `s`, if `s` holds one.
pub open spec fn first_index(s: Seq<u8>, b: u8) -> Option<int> {
    if exists|i: int| is_first_index(s, b, i) {
        Some(choose|i: int| is_first_index(s, b, i))
    } else {
        None
    }
}

/// Two first positions of one byte are the same position.
pub proof fn lemma_first_index_unique(s: Seq<u8>, b: u8, i: int)
    requires
        is_first_index(s, b, i),
    ensures
        first_index(s, b) == Some(i),
{
    let k = choose|k: int| is_first_index(s, b, k);
    assert(is_first_index(s, b, k));
    if k < i {
        assert(s[k] != b);
    } else if i < k {
        assert(s[i] != b);
    }
}

/// A sequence without `b` has no first position of it.
pub proof fn lemma_first_index_none(s: Seq<u8>, b: u8)
    requires
        forall|j: int| 0 <= j < s.len() ==> s[j] != b,
    ensures
        first_index(s, b) == None::<int>,
{
    assert(!exists|i: int| is_first_index(s, b, i));
}

/// The position of the first `b` in `s[from..]`, counted from the start of `s`.
pub fn find_byte(s: &[u8], from: usize, b: u8) -> (r: Option<usize>)
    requires
        from <= s@.len(),
    ensures
        match first_index(s@.subrange(from as int, s@.len() as int), b) {
            Some(k) => r == Some((from + k) as usize),
            None => r is None,
        },
        r matches Some(i) ==> from <= i < s@.len() && s@[i as int] == b,
{
    let ghost rest = s@.subrange(from as int, s@.len() as int);
    let mut i: usize = from;
    while i < s.len()
        invariant
            from <= i <= s@.len(),
            rest == s@.subrange(from as int, s@.len() as int),
            forall|j: int| 0 <= j < i - from ==> rest[j] != b,
        decreases s.len() - i,
    {
        if s[i] == b {
            proof {
                lemma_first_index_unique(rest, b, i - from);
            }
            return Some(i);
        }
        i = i + 1;
    }
    proof {
        lemma_first_index_none(rest, b);
    }
    None
}

/// The first position at or after `i` that holds no space (`s.len()` if none).
pub open spec fn skip_spaces(s: Seq<u8>, i: int) -> int
    decreases s.len() - i,
{
    if 0 <= i < s.len() && s[i] == SP {
        skip_spaces(s, i + 1)
    } else {
        i
    }
}

/// The first position at or after `i` that holds a space (`s.len()` if none).
pub open spec fn token_end(s: Seq<u8>, i: int) -> int
    decreases s.len() - i,
{
    if 0 <= i < s.len() && s[i] != SP {
        token_end(s, i + 1)
    } else {
        i
    }
}

/// The end of `s[lo..e]` once the spaces at its end are dropped.
pub open spec fn trim_end(s: Seq<u8>, lo: int, e: int) -> int
    decreases e - lo,
{
    if lo < e && s[e - 1] == SP {
        trim_end(s, lo, e - 1)
    } else {
        e
    }
}

/// `s` without the spaces at its start and at its end.
pub open spec fn trim_spaces(s: Seq<u8>) -> Seq<u8> {
    let a = skip_spaces(s, 0);
    s.subrange(a, trim_end(s, a, s.len() as int))
}

/// `s` without one carriage return at its end.
pub open spec fn strip_cr(s: Seq<u8>) -> Seq<u8> {
    if s.len() > 0 && s.last() == CR {
        s.drop_last()
    } else {
        s
    }
}

/// `skip_spaces` stops at the first byte from `i` on that is no space.
pub proof fn lemma_skip_spaces_at(s: Seq<u8>, i: int, j: int)
    requires
        0 <= i <= j <= s.len(),
        forall|k: int| i <= k < j ==> s[k] == SP,
        j == s.len() || s[j] != SP,
    ensures
        skip_spaces(s, i) == j,
    decreases j - i,
{
    if i < j {
        lemma_skip_spaces_at(s, i + 1, j);
    }
}

/// `token_end` stops at the first space from `i` on.
pub proof fn lemma_token_end_at(s: Seq<u8>, i: int, j: int)
    requires
        0 <= i <= j <= s.len(),
        forall|k: int| i <= k < j ==> s[k] != SP,
        j == s.len() || s[j] == SP,
    ensures
        token_end(s, i) == j,
    decreases j - i,
{
    if i < j {
        lemma_token_end_at(s, i + 1, j);
    }
}

/// `trim_end` stops after the last byte before `e` that is no space.
pub proof fn lemma_trim_end_at(s: Seq<u8>, lo: int, e: int, j: int)
    requires
        0 <= lo <= j <= e <= s.len(),
        forall|k: int| j <= k < e ==> s[k] == SP,
        j == lo || s[j - 1] != SP,
    ensures
        trim_end(s, lo, e) == j,
    decreases e - j,
{
    if j < e {
        lemma_trim_end_at(s, lo, e - 1, j);
    }
}

/// What `skip_spaces` passes over is spaces, and where it stops is none.
pub proof fn lemma_skip_spaces_bounds(s: Seq<u8>, i: int)
    requires
        0 <= i <= s.len(),
    ensures
        i <= skip_spaces(s, i) <= s.len(),
        skip_spaces(s, i) < s.len() ==> s[skip_spaces(s, i)] != SP,
        forall|k: int| i <= k < skip_spaces(s, i) ==> s[k] == SP,
    decreases s.len() - i,
{
    if i < s.len() && s[i] == SP {
        lemma_skip_spaces_bounds(s, i + 1);
    }
}

/// What `token_end` passes over is no space, and where it stops is one.
pub proof fn lemma_token_end_bounds(s: Seq<u8>, i: int)
    requires
        0 <= i <= s.len(),
    ensures
        i <= token_end(s, i) <= s.len(),
        token_end(s, i) < s.len() ==> s[token_end(s, i)] == SP,
        forall|k: int| i <= k < token_end(s, i) ==> s[k] != SP,
    decreases s.len() - i,
{
    if i < s.len() && s[i] != SP {
        lemma_token_end_bounds(s, i + 1);
    }
}

/// Skips the spaces of `s` from `i` on.
pub fn skip_spaces_from(s: &[u8], i: usize) -> (r: usize)
    requires
        i <= s@.len(),
    ensures
        r == skip_spaces(s@, i as int),
        i <= r <= s@.len(),
{
    let mut k: usize = i;
    while k < s.len() && s[k] == SP
        invariant
            i <= k <= s@.len(),
            skip_spaces(s@, k as int) == skip_spaces(s@, i as int),
        decreases s.len() - k,
    {
        k = k + 1;
    }
    k
}

/// Finds the end of the token of `s` that starts at `i`.
pub fn token_end_from(s: &[u8], i: usize) -> (r: usize)
    requires
        i <= s@.len(),
    ensures
        r == token_end(s@, i as int),
        i <= r <= s@.len(),
{
    let mut k: usize = i;
    while k < s.len() && s[k] != SP
        invariant
            i <= k <= s@.len(),
            token_end(s@, k as int) == token_end(s@, i as int),
        decreases s.len() - k,
    {
        k = k + 1;
    }
    k
}

/// The bounds of `s` once the spaces at both of its ends are dropped.
pub fn trim_bounds(s: &[u8]) -> (r: (usize, usize))
    ensures
        r.0 <= r.1 <= s@.len(),
        s@.subrange(r.0 as int, r.1 as int) == trim_spaces(s@),
{
    let a = skip_spaces_from(s, 0);
    let mut e: usize = s.len();
    while a < e && s[e - 1] == SP
        invariant
            a <= e <= s@.len(),
            trim_end(s@, a as int, e as int) == trim_end(s@, a as int, s@.len() as int),
        decreases e,
    {
        e = e - 1;
    }
    (a, e)
}

} // verus!
