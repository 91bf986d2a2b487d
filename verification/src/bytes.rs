//! Byte-level helpers shared by the parser and the response builder:
//! searching for a byte, copying subranges, whitespace classification
//! and trimming.

use vstd::prelude::*;
use vstd::slice::{slice_subrange, slice_to_vec};

verus! {

/// ASCII whitespace as the tokenizer sees it: space and the control
/// characters HT, LF, VT, FF, CR.
pub open spec fn is_ws(b: u8) -> bool {
    b == 0x20 || (0x09 <= b && b <= 0x0d)
}

/// Runtime counterpart of `is_ws`.
pub fn is_ws_exec(b: u8) -> (r: bool)
    ensures
        r == is_ws(b),
{
    b == 0x20 || (0x09 <= b && b <= 0x0d)
}

/// Index of the first occurrence of `b` in `s` at or after `from`;
/// `s.len()` when there is none.
pub open spec fn first_at(s: Seq<u8>, from: int, b: u8) -> int
    decreases s.len() - from,
{
    if from < 0 {
        first_at(s, 0, b)
    } else if from >= s.len() {
        s.len() as int
    } else if s[from] == b {
        from
    } else {
        first_at(s, from + 1, b)
    }
}

/// A position that carries `b` and has no earlier occurrence of `b`
/// is exactly `first_at`.
pub proof fn lemma_first_at_is(s: Seq<u8>, from: int, b: u8, j: int)
    requires
        0 <= from <= j <= s.len(),
        j < s.len() ==> s[j] == b,
        forall|k: int| from <= k < j ==> s[k] != b,
    ensures
        first_at(s, from, b) == j,
    decreases j - from,
{
    if from < j {
        lemma_first_at_is(s, from + 1, b, j);
    }
}

pub proof fn lemma_first_at_bounds(s: Seq<u8>, from: int, b: u8)
    requires
        0 <= from <= s.len(),
    ensures
        from <= first_at(s, from, b) <= s.len(),
        first_at(s, from, b) < s.len() ==> s[first_at(s, from, b)] == b,
        forall|k: int| from <= k < first_at(s, from, b) ==> s[k] != b,
    decreases s.len() - from,
{
    if from < s.len() && s[from] != b {
        lemma_first_at_bounds(s, from + 1, b);
    }
}

/// Finds the first occurrence of `b` in `v` at or after `from`.
pub fn find_from(v: &Vec<u8>, from: usize, b: u8) -> (r: Option<usize>)
    requires
        from <= v@.len(),
    ensures
        match r {
            Some(i) => i == first_at(v@, from as int, b) && i < v@.len(),
            None => first_at(v@, from as int, b) == v@.len(),
        },
{
    let mut i: usize = from;
    while i < v.len()
        invariant
            from <= i <= v@.len(),
            first_at(v@, from as int, b) == first_at(v@, i as int, b),
        decreases v@.len() - i,
    {
        if v[i] == b {
            return Some(i);
        }
        i = i + 1;
    }
    None
}

/// Index of the first whitespace byte in `s` at or after `from`;
/// `s.len()` when there is none.
pub open spec fn first_ws_at(s: Seq<u8>, from: int) -> int
    decreases s.len() - from,
{
    if from < 0 {
        first_ws_at(s, 0)
    } else if from >= s.len() {
        s.len() as int
    } else if is_ws(s[from]) {
        from
    } else {
        first_ws_at(s, from + 1)
    }
}

pub proof fn lemma_first_ws_at_is(s: Seq<u8>, from: int, j: int)
    requires
        0 <= from <= j <= s.len(),
        j < s.len() ==> is_ws(s[j]),
        forall|k: int| from <= k < j ==> !is_ws(s[k]),
    ensures
        first_ws_at(s, from) == j,
    decreases j - from,
{
    if from < j {
        lemma_first_ws_at_is(s, from + 1, j);
    }
}

pub proof fn lemma_first_ws_at_bounds(s: Seq<u8>, from: int)
    requires
        0 <= from <= s.len(),
    ensures
        from <= first_ws_at(s, from) <= s.len(),
        first_ws_at(s, from) < s.len() ==> is_ws(s[first_ws_at(s, from)]),
        forall|k: int| from <= k < first_ws_at(s, from) ==> !is_ws(s[k]),
    decreases s.len() - from,
{
    if from < s.len() && !is_ws(s[from]) {
        lemma_first_ws_at_bounds(s, from + 1);
    }
}

/// Finds the first whitespace byte in `v` at or after `from`;
/// returns `v.len()` when there is none.
pub fn find_ws_from(v: &Vec<u8>, from: usize) -> (r: usize)
    requires
        from <= v@.len(),
    ensures
        r == first_ws_at(v@, from as int),
        from <= r <= v@.len(),
{
    let mut i: usize = from;
    while i < v.len()
        invariant
            from <= i <= v@.len(),
            first_ws_at(v@, from as int) == first_ws_at(v@, i as int),
        decreases v@.len() - i,
    {
        if is_ws_exec(v[i]) {
            return i;
        }
        i = i + 1;
    }
    i
}

/// `s` with leading whitespace removed.
pub open spec fn trim_start(s: Seq<u8>) -> Seq<u8>
    decreases s.len(),
{
    if s.len() > 0 && is_ws(s[0]) {
        trim_start(s.drop_first())
    } else {
        s
    }
}

/// `s` with trailing whitespace removed.
pub open spec fn trim_end(s: Seq<u8>) -> Seq<u8>
    decreases s.len(),
{
    if s.len() > 0 && is_ws(s.last()) {
        trim_end(s.drop_last())
    } else {
        s
    }
}

/// `s` with leading and trailing whitespace removed.
pub open spec fn trim(s: Seq<u8>) -> Seq<u8> {
    trim_end(trim_start(s))
}

/// Copies `v[from..to]` with leading and trailing whitespace removed.
pub fn trim_range(v: &Vec<u8>, from: usize, to: usize) -> (r: Vec<u8>)
    requires
        from <= to <= v@.len(),
    ensures
        r@ == trim(v@.subrange(from as int, to as int)),
{
    let ghost s = v@.subrange(from as int, to as int);
    let mut a: usize = from;
    while a < to && is_ws_exec(v[a])
        invariant
            from <= a <= to <= v@.len(),
            trim_start(s) == trim_start(v@.subrange(a as int, to as int)),
        decreases to - a,
    {
        proof {
            let cur = v@.subrange(a as int, to as int);
            assert(cur.drop_first() =~= v@.subrange(a as int + 1, to as int));
        }
        a = a + 1;
    }
    proof {
        let cur = v@.subrange(a as int, to as int);
        if a == to {
            assert(cur.len() == 0);
        }
        assert(trim_start(s) == cur);
    }
    let mut b: usize = to;
    while b > a && is_ws_exec(v[b - 1])
        invariant
            from <= a <= b <= to <= v@.len(),
            trim_end(v@.subrange(a as int, to as int)) == trim_end(
                v@.subrange(a as int, b as int),
            ),
        decreases b,
    {
        proof {
            let cur = v@.subrange(a as int, b as int);
            assert(cur.drop_last() =~= v@.subrange(a as int, b as int - 1));
        }
        b = b - 1;
    }
    proof {
        let cur = v@.subrange(a as int, b as int);
        if b == a {
            assert(cur.len() == 0);
        }
        assert(trim_end(v@.subrange(a as int, to as int)) == cur);
    }
    subvec(v, a, b)
}

/// The sequence of views of a sequence of byte vectors.
pub open spec fn views_of(vs: Seq<Vec<u8>>) -> Seq<Seq<u8>> {
    vs.map_values(|v: Vec<u8>| v@)
}

/// Copies `v[from..to]` into a fresh vector.
pub fn subvec(v: &Vec<u8>, from: usize, to: usize) -> (r: Vec<u8>)
    requires
        from <= to <= v@.len(),
    ensures
        r@ == v@.subrange(from as int, to as int),
{
    slice_to_vec(slice_subrange(v.as_slice(), from, to))
}

/// Appends all of `s` to `out`.
pub fn push_all(out: &mut Vec<u8>, s: &Vec<u8>)
    ensures
        final(out)@ == old(out)@ + s@,
{
    let mut i: usize = 0;
    while i < s.len()
        invariant
            i <= s@.len(),
            out@ == old(out)@ + s@.take(i as int),
        decreases s@.len() - i,
    {
        out.push(s[i]);
        i = i + 1;
        assert(out@ =~= old(out)@ + s@.take(i as int));
    }
    assert(out@ =~= old(out)@ + s@);
}

} // verus!
