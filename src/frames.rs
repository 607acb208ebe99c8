//! Splitting a byte stream into blank-line delimited frames.
use vstd::prelude::*;
use vstd::slice::{slice_subrange, slice_to_vec};

verus! {

/// The line feed byte.
pub const LF: u8 = 10;

/// A frame delimiter (two line feeds) starts at index `i` of `s`.
pub open spec fn is_delim_at(s: Seq<u8>, i: int) -> bool {
    0 <= i && i + 1 < s.len() && s[i] == LF && s[i + 1] == LF
}

/// The index of the first frame delimiter in `s` at or after `from`.
pub open spec fn find_delim_from(s: Seq<u8>, from: nat) -> Option<nat>
    decreases s.len() - from,
{
    if from + 1 >= s.len() {
        None
    } else if is_delim_at(s, from as int) {
        Some(from)
    } else {
        find_delim_from(s, from + 1)
    }
}

/// The complete frames at the front of `s`, in order, and the bytes after the
/// last delimiter, which wait for more input.
pub open spec fn split_frames(s: Seq<u8>) -> (Seq<Seq<u8>>, Seq<u8>)
    decreases s.len(),
{
    match find_delim_from(s, 0) {
        Some(i) => if i + 2 <= s.len() {
            let rest = split_frames(s.subrange(i + 2 as int, s.len() as int));
            (seq![s.subrange(0, i as int)] + rest.0, rest.1)
        } else {
            (seq![], s)
        },
        None => (seq![], s),
    }
}

pub proof fn lemma_find_delim_bounds(s: Seq<u8>, from: nat)
    ensures
        match find_delim_from(s, from) {
            Some(i) => from <= i && is_delim_at(s, i as int)
                && forall|k: int| from <= k < i ==> !is_delim_at(s, k),
            None => forall|k: int| from <= k < s.len() ==> !is_delim_at(s, k),
        },
    decreases s.len() - from,
{
    if from + 1 < s.len() && !is_delim_at(s, from as int) {
        lemma_find_delim_bounds(s, from + 1);
    }
}

/// A delimiter with none before it is the first one found.
pub proof fn lemma_find_delim_first(s: Seq<u8>, from: nat, i: nat)
    requires
        from <= i,
        is_delim_at(s, i as int),
        forall|k: int| from <= k < i ==> !is_delim_at(s, k),
    ensures
        find_delim_from(s, from) == Some(i),
    decreases i - from,
{
    if from < i {
        lemma_find_delim_first(s, from + 1, i);
    }
}

/// A delimiter found in `x` is found at the same place once more bytes follow.
pub proof fn lemma_find_delim_extend(x: Seq<u8>, y: Seq<u8>, from: nat)
    requires
        find_delim_from(x, from).is_some(),
    ensures
        find_delim_from(x + y, from) == find_delim_from(x, from),
    decreases x.len() - from,
{
    let xy = x + y;
    assert(xy[from as int] == x[from as int]);
    assert(xy[from + 1 as int] == x[from + 1 as int]);
    if !is_delim_at(x, from as int) {
        lemma_find_delim_extend(x, y, from + 1);
    }
}

/// Splitting `x + y` yields the frames of `x`, then the frames of what `x`
/// left pending followed by `y`.
pub proof fn lemma_split_frames_append(x: Seq<u8>, y: Seq<u8>)
    ensures
        split_frames(x + y) == (
            split_frames(x).0 + split_frames(split_frames(x).1 + y).0,
            split_frames(split_frames(x).1 + y).1,
        ),
    decreases x.len(),
{
    lemma_find_delim_bounds(x, 0);
    match find_delim_from(x, 0) {
        Some(i) => {
            lemma_find_delim_extend(x, y, 0);
            let x2 = x.subrange(i + 2 as int, x.len() as int);
            assert((x + y).subrange(i + 2 as int, (x + y).len() as int) =~= x2 + y);
            assert((x + y).subrange(0, i as int) =~= x.subrange(0, i as int));
            lemma_split_frames_append(x2, y);
            let r = split_frames(x2).1 + y;
            assert(seq![x.subrange(0, i as int)] + split_frames(x2).0 + split_frames(r).0
                =~= seq![x.subrange(0, i as int)] + (split_frames(x2).0 + split_frames(r).0));
        },
        None => {
            assert(Seq::<Seq<u8>>::empty() + split_frames(x + y).0 =~= split_frames(x + y).0);
        },
    }
}

/// What splitting leaves pending holds no delimiter.
pub proof fn lemma_pending_has_no_delim(s: Seq<u8>)
    ensures
        find_delim_from(split_frames(s).1, 0).is_none(),
    decreases s.len(),
{
    lemma_find_delim_bounds(s, 0);
    match find_delim_from(s, 0) {
        Some(i) => {
            lemma_pending_has_no_delim(s.subrange(i + 2 as int, s.len() as int));
        },
        None => {},
    }
}

/// A copy of `v[lo..hi]`.
pub fn copy_range(v: &Vec<u8>, lo: usize, hi: usize) -> (r: Vec<u8>)
    requires
        lo <= hi <= v@.len(),
    ensures
        r@ == v@.subrange(lo as int, hi as int),
{
    slice_to_vec(slice_subrange(v.as_slice(), lo, hi))
}

/// Find the first frame delimiter in `buf` at or after `from`.
pub fn find_delim(buf: &Vec<u8>, from: usize) -> (r: Option<usize>)
    ensures
        match r {
            Some(i) => find_delim_from(buf@, from as nat) == Some(i as nat),
            None => find_delim_from(buf@, from as nat).is_none(),
        },
{
    let n = buf.len();
    let mut i: usize = from;
    while i < n && i + 1 < n
        invariant
            n == buf@.len(),
            from <= i,
            find_delim_from(buf@, from as nat) == find_delim_from(buf@, i as nat),
        decreases n - i,
    {
        if buf[i] == LF && buf[i + 1] == LF {
            return Some(i);
        }
        i = i + 1;
    }
    None
}

} // verus!
