//! Extents that are sequences: how they split, and why splitting loses nothing.
//!
//! Slices and integer ranges both stand for a sequence of items. They share the
//! definitions below, so that "split at `index`" means the same thing for all
//! of them.
use vstd::prelude::*;

verus! {

/// The first `index` items of `s`, and the items after them.
pub open spec fn seq_split<T>(s: Seq<T>, index: nat) -> (Seq<T>, Seq<T>) {
    (s.subrange(0, index as int), s.subrange(index as int, s.len() as int))
}

/// `s` split at its midpoint: when the length is odd, the left part is the
/// shorter one.
pub open spec fn seq_halves<T>(s: Seq<T>) -> (Seq<T>, Seq<T>) {
    seq_split(s, s.len() / 2)
}

/// Splitting a sequence inside its bounds yields a prefix of the asked length
/// and the rest, and the two put back together are the sequence.
pub proof fn lemma_seq_split<T>(s: Seq<T>, index: nat)
    requires
        index <= s.len(),
    ensures
        seq_split(s, index).0.len() == index,
        seq_split(s, index).1.len() == s.len() - index,
        seq_split(s, index).0 + seq_split(s, index).1 == s,
{
    assert(seq_split(s, index).0 + seq_split(s, index).1 =~= s);
}

/// The halves of a sequence have lengths `len / 2` and `len - len / 2`, and put
/// back together they are the sequence.
pub proof fn lemma_seq_halves<T>(s: Seq<T>)
    ensures
        seq_halves(s).0.len() == s.len() / 2,
        seq_halves(s).1.len() == s.len() - s.len() / 2,
        seq_halves(s).0 + seq_halves(s).1 == s,
{
    lemma_seq_split(s, s.len() / 2);
}

} // verus!
