//! How partial outputs recombine.
//!
//! The output computed on the left part of a split and the output computed on
//! the right part are fused into the output for the whole. A [`Mergeable`]
//! value stands for a mathematical *content*; the trait fixes what fusing two
//! contents gives, and every implementation proves that fusing is associative,
//! so that folding the outputs of a divide tree gives one result however the
//! fusions are grouped.
use crate::sequences::seq_split;
use crate::traits::DivisibleIntoBlocks;
use vstd::prelude::*;

verus! {

/// An output that can be fused with the output of the extent next to it.
pub trait Mergeable: Sized + Send {
    /// The mathematical object that a value of this type stands for.
    type Content;

    /// The content that this value stands for.
    spec fn content(&self) -> Self::Content;

    /// The content of `left` fused with `right`, `left` coming first.
    spec fn content_fuse(left: Self::Content, right: Self::Content) -> Self::Content;

    /// For three outputs in order, fusing the first two and then the third
    /// gives what fusing the first with the fusion of the last two gives.
    proof fn lemma_fuse_associative(a: Self::Content, b: Self::Content, c: Self::Content)
        ensures
            Self::content_fuse(Self::content_fuse(a, b), c) == Self::content_fuse(
                a,
                Self::content_fuse(b, c),
            ),
    ;

    /// Fuse `self`, computed on a left part, with `other`, computed on the part
    /// to its right.
    fn fuse(self, other: Self) -> (fused: Self)
        ensures
            fused.content() == Self::content_fuse(self.content(), other.content()),
    ;
}

/// The unit value carries nothing: fusing changes nothing.
impl Mergeable for () {
    type Content = ();

    open spec fn content(&self) -> () {
        ()
    }

    open spec fn content_fuse(left: (), right: ()) -> () {
        ()
    }

    proof fn lemma_fuse_associative(a: (), b: (), c: ()) {
    }

    fn fuse(self, other: ()) -> (fused: ())
        ensures
            fused == (),
    {
        ()
    }
}

/// A list of outputs stands for the sequence of its items; fusing two lists
/// puts the items of the right one after those of the left one.
impl<T: Send> Mergeable for Vec<T> {
    type Content = Seq<T>;

    open spec fn content(&self) -> Seq<T> {
        self@
    }

    open spec fn content_fuse(left: Seq<T>, right: Seq<T>) -> Seq<T> {
        left + right
    }

    proof fn lemma_fuse_associative(a: Seq<T>, b: Seq<T>, c: Seq<T>) {
        assert((a + b) + c =~= a + (b + c));
    }

    fn fuse(self, other: Vec<T>) -> (fused: Vec<T>)
        ensures
            fused@ == self@ + other@,
    {
        let mut left = self;
        let mut right = other;
        left.append(&mut right);
        left
    }
}

/// Work done item by item survives splitting: when a sequence is split at any
/// offset inside it and `work` is applied to every item of each part, the two
/// lists of outputs fused are the list that applying `work` to the items of the
/// whole sequence, in order, would have given.
pub proof fn lemma_fused_outputs_of_split<T, U: Send>(
    items: Seq<T>,
    index: nat,
    work: spec_fn(T) -> U,
)
    requires
        index <= items.len(),
    ensures
        <Vec<U> as Mergeable>::content_fuse(
            seq_split(items, index).0.map_values(work),
            seq_split(items, index).1.map_values(work),
        ) == items.map_values(work),
{
    assert(seq_split(items, index).0.map_values(work) + seq_split(items, index).1.map_values(work)
        =~= items.map_values(work));
}

/// Fusing is consistent with splitting: when `work` turns the join of two
/// extents into the fusion of their outputs, then however an extent is split,
/// the outputs of its two parts fused are the output of the whole.
pub proof fn lemma_fuse_consistent_with_split<D: DivisibleIntoBlocks, M: Mergeable>(
    e: D::Extent,
    index: nat,
    work: spec_fn(D::Extent) -> M::Content,
)
    requires
        index <= D::extent_len(e),
        forall|left: D::Extent, right: D::Extent| #[trigger]
            work(D::extent_join(left, right)) == M::content_fuse(work(left), work(right)),
    ensures
        M::content_fuse(work(D::extent_split(e, index).0), work(D::extent_split(e, index).1))
            == work(e),
{
    D::lemma_split(e, index);
}

} // verus!
