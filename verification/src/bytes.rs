//! Searching sequences, and comparing and joining byte strings.

use vstd::prelude::*;
use vstd::slice::*;

verus! {

/// The index of the first occurrence of `b` in `s`, or the length of `s`
/// when `b` does not occur.
pub open spec fn first_index<A>(s: Seq<A>, b: A) -> int
    decreases s.len(),
{
    if s.len() == 0 || s[0] == b {
        0
    } else {
        1 + first_index(s.skip(1), b)
    }
}

/// `first_index` is in range, nothing before it equals `b`, and where it is
/// an index the byte there is `b`.
pub proof fn lemma_first_index<A>(s: Seq<A>, b: A)
    ensures
        0 <= first_index(s, b) <= s.len(),
        forall|j: int| 0 <= j < first_index(s, b) ==> s[j] != b,
        first_index(s, b) < s.len() ==> s[first_index(s, b)] == b,
        first_index(s, b) == s.len() <==> !s.contains(b),
    decreases s.len(),
{
    if s.len() == 0 || s[0] == b {
    } else {
        let t = s.skip(1);
        lemma_first_index(t, b);
        assert forall|j: int| 0 <= j < first_index(s, b) implies s[j] != b by {
            if j > 0 {
                assert(t[j - 1] == s[j]);
            }
        }
        if first_index(s, b) < s.len() {
            assert(t[first_index(t, b)] == s[first_index(s, b)]);
        }
    }
}

/// Any position that has the three properties of a first occurrence is the
/// first occurrence.
pub proof fn lemma_first_index_unique<A>(s: Seq<A>, b: A, i: int)
    requires
        0 <= i <= s.len(),
        forall|j: int| 0 <= j < i ==> s[j] != b,
        i < s.len() ==> s[i] == b,
    ensures
        first_index(s, b) == i,
{
    lemma_first_index(s, b);
}

/// In `head + [b] + tail`, where `head` is free of `b`, the first `b` is the
/// one in the middle.
pub proof fn lemma_first_index_joined<A>(head: Seq<A>, b: A, tail: Seq<A>)
    requires
        !head.contains(b),
    ensures
        first_index(head.push(b) + tail, b) == head.len(),
        (head.push(b) + tail).take(head.len() as int) == head,
        (head.push(b) + tail).skip(head.len() as int + 1) == tail,
{
    let s = head.push(b) + tail;
    assert forall|j: int| 0 <= j < head.len() implies s[j] != b by {
        assert(s[j] == head[j]);
    }
    lemma_first_index_unique(s, b, head.len() as int);
    assert(s.take(head.len() as int) =~= head);
    assert(s.skip(head.len() as int + 1) =~= tail);
}

/// Finds the first occurrence of `b` in `s`.
pub fn find_byte(s: &[u8], b: u8) -> (i: usize)
    ensures
        i == first_index(s@, b),
{
    let mut i: usize = 0;
    while i < s.len() && s[i] != b
        invariant
            i <= s@.len(),
            forall|j: int| 0 <= j < i ==> s@[j] != b,
        decreases s@.len() - i,
    {
        i += 1;
    }
    proof {
        lemma_first_index_unique(s@, b, i as int);
    }
    i
}

/// Whether two byte strings hold the same bytes.
pub fn bytes_eq(a: &[u8], b: &[u8]) -> (same: bool)
    ensures
        same == (a@ == b@),
{
    if a.len() != b.len() {
        return false;
    }
    let mut i: usize = 0;
    while i < a.len()
        invariant
            i <= a@.len(),
            a@.len() == b@.len(),
            forall|j: int| 0 <= j < i ==> a@[j] == b@[j],
        decreases a@.len() - i,
    {
        if a[i] != b[i] {
            return false;
        }
        i += 1;
    }
    assert(a@ =~= b@);
    true
}

/// Appends `src` to `dst`.
pub fn append_bytes(dst: &mut Vec<u8>, src: &[u8])
    ensures
        final(dst)@ == old(dst)@ + src@,
{
    let mut i: usize = 0;
    while i < src.len()
        invariant
            i <= src@.len(),
            dst@ == old(dst)@ + src@.take(i as int),
        decreases src@.len() - i,
    {
        dst.push(src[i]);
        i += 1;
        assert(dst@ =~= old(dst)@ + src@.take(i as int));
    }
    assert(src@.take(src@.len() as int) =~= src@);
}

/// A copy of the bytes of `s` from `from` up to, not including, `to`.
pub fn copy_range(s: &[u8], from: usize, to: usize) -> (v: Vec<u8>)
    requires
        from <= to <= s@.len(),
    ensures
        v@ == s@.subrange(from as int, to as int),
{
    slice_to_vec(slice_subrange(s, from, to))
}

} // verus!
