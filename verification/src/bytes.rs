//! Byte strings.
use vstd::prelude::*;

use crate::text;

verus! {

/// The views of a list of byte strings.
pub open spec fn byte_lists(v: Seq<Vec<u8>>) -> Seq<Seq<u8>> {
    v.map_values(|b: Vec<u8>| b@)
}

/// A copy of `s[from..to]`.
pub fn copy_bytes(s: &[u8], from: usize, to: usize) -> (r: Vec<u8>)
    requires
        from <= to <= s@.len(),
    ensures
        r@ == s@.subrange(from as int, to as int),
        from == 0 && to == s@.len() ==> r@ == s@,
{
    let mut r: Vec<u8> = Vec::new();
    let mut i: usize = from;
    while i < to
        invariant
            from <= i <= to <= s@.len(),
            r@ == s@.subrange(from as int, i as int),
        decreases to - i,
    {
        r.push(s[i]);
        assert(s@.subrange(from as int, i as int).push(s@[i as int]) =~= s@.subrange(
            from as int,
            i + 1,
        ));
        i = i + 1;
    }
    assert(s@.subrange(0, s@.len() as int) =~= s@);
    r
}

/// Whether two byte strings are equal.
pub fn bytes_eq(a: &Vec<u8>, b: &Vec<u8>) -> (r: bool)
    ensures
        r == (a@ == b@),
{
    if a.len() != b.len() {
        return false;
    }
    let mut i: usize = 0;
    while i < a.len()
        invariant
            i <= a@.len(),
            a@.len() == b@.len(),
            forall|j: int| 0 <= j < i ==> a@[j] == b@[j],
        decreases a@.len() - i,
    {
        if a[i] != b[i] {
            return false;
        }
        i = i + 1;
    }
    assert(a@ =~= b@);
    true
}

/// The pieces of a byte string between the occurrences of `c`.
pub fn split_bytes(s: &[u8], c: u8) -> (r: Vec<Vec<u8>>)
    ensures
        byte_lists(r@) == text::split_on(s@, c),
{
    let mut done: Vec<Vec<u8>> = Vec::new();
    let mut piece: Vec<u8> = Vec::new();
    let mut i: usize = 0;
    assert(s@.take(0) =~= piece@);
    assert(byte_lists(done@).push(piece@) =~= text::split_on(s@.take(0), c));
    while i < s.len()
        invariant
            i <= s@.len(),
            byte_lists(done@).push(piece@) == text::split_on(s@.take(i as int), c),
        decreases s@.len() - i,
    {
        let ghost so_far = byte_lists(done@).push(piece@);
        assert(s@.take(i + 1).drop_last() =~= s@.take(i as int));
        if s[i] == c {
            done.push(piece);
            piece = Vec::new();
            assert(byte_lists(done@) =~= so_far);
            assert(piece@ =~= Seq::<u8>::empty());
        } else {
            piece.push(s[i]);
            assert(byte_lists(done@).push(piece@) =~= so_far.update(
                so_far.len() - 1,
                so_far.last().push(s@[i as int]),
            ));
        }
        i = i + 1;
    }
    assert(s@.take(i as int) =~= s@);
    let ghost all = byte_lists(done@).push(piece@);
    done.push(piece);
    assert(byte_lists(done@) =~= all);
    done
}

} // verus!
