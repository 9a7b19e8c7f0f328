//! Sequential chunks of a divisible value.
//!
//! [`Chunks`] holds what is left of a value and the sizes still to serve. Each
//! step pulls one size and cuts a chunk of that size off the front of what is
//! left, in place. The iteration is over when nothing is left or when the
//! sizes run out. A size larger than what is left is never truncated: the step
//! hands back an [`OversizedChunk`] and cuts nothing.
//!
//! [`chunk_extents`], [`chunk_leftover`] and [`chunk_rejection`] say what a
//! whole run produces; the laws at the end of the file say why a run loses
//! nothing.
use crate::traits::DivisibleIntoBlocks;
use vstd::prelude::*;
use vstd::std_specs::iter::IteratorSpec;

verus! {

/// A requested chunk was larger than what was left to cut it from.
#[derive(Clone, Copy, Debug, PartialEq, Eq, Structural)]
pub struct OversizedChunk {
    /// The size that was asked for.
    pub requested: usize,
    /// The length that was left.
    pub remaining: usize,
}

/// Iterator state: what is left of the value, and the sizes still to serve.
pub struct Chunks<D: DivisibleIntoBlocks, S: Iterator<Item = usize>> {
    /// What has not been handed out yet.
    pub remaining: D,
    /// The sizes of the chunks still to cut, in order.
    pub remaining_sizes: S,
}

/// What serving one request does to a value: `before` and `after` are the
/// value before and after, `outcome` is what is handed back.
pub open spec fn request_served<D: DivisibleIntoBlocks>(
    before: D,
    requested: Option<usize>,
    outcome: Result<Option<D>, OversizedChunk>,
    after: D,
) -> bool {
    match requested {
        None => outcome == Ok::<Option<D>, OversizedChunk>(None) && after == before,
        Some(size) => if size <= D::extent_len(before.extent()) {
            &&& outcome matches Ok(Some(chunk))
            &&& (chunk.extent(), after.extent()) == D::extent_split(before.extent(), size as nat)
        } else {
            &&& outcome == Err::<Option<D>, OversizedChunk>(
                OversizedChunk {
                    requested: size,
                    remaining: D::extent_len(before.extent()) as usize,
                },
            )
            &&& after == before
        },
    }
}

/// Serves one request on `remaining`: with no size there is nothing to cut;
/// a size that fits is cut off the front and handed back; a size that does
/// not fit is rejected and `remaining` stays as it is.
pub fn serve_request<D: DivisibleIntoBlocks>(
    remaining: &mut D,
    requested: Option<usize>,
) -> (outcome: Result<Option<D>, OversizedChunk>)
    ensures
        request_served(*old(remaining), requested, outcome, *final(remaining)),
{
    match requested {
        None => Ok(None),
        Some(size) => {
            let left: usize = remaining.base_length();
            if size <= left {
                Ok(Some(remaining.cut_left_at(size)))
            } else {
                Err(OversizedChunk { requested: size, remaining: left })
            }
        },
    }
}

impl<D: DivisibleIntoBlocks, S: Iterator<Item = usize>> Chunks<D, S> {
    /// One step of the iteration.
    ///
    /// Once nothing is left this is `Ok(None)` and no size is pulled.
    /// Otherwise one size is pulled and served as [`serve_request`] says. For
    /// sizes that come from a well-behaved iterator the contract names the
    /// size that is pulled: the first of those still to come.
    pub fn next_chunk(&mut self) -> (outcome: Result<Option<D>, OversizedChunk>)
        ensures
            D::extent_len(old(self).remaining.extent()) == 0 ==> outcome == Ok::<
                Option<D>,
                OversizedChunk,
            >(None) && *final(self) == *old(self),
            D::extent_len(old(self).remaining.extent()) > 0 ==> exists|requested: Option<usize>|
                request_served(
                    old(self).remaining,
                    requested,
                    outcome,
                    final(self).remaining,
                ),
            D::extent_len(old(self).remaining.extent()) > 0 && old(
                self,
            ).remaining_sizes.obeys_prophetic_iter_laws() ==> {
                let sizes = old(self).remaining_sizes.remaining();
                &&& request_served(
                    old(self).remaining,
                    if sizes.len() > 0 {
                        Some(sizes[0])
                    } else {
                        None
                    },
                    outcome,
                    final(self).remaining,
                )
                &&& final(self).remaining_sizes.remaining() == if sizes.len() > 0 {
                    sizes.drop_first()
                } else {
                    sizes
                }
            },
            final(self).remaining_sizes.obeys_prophetic_iter_laws() == old(
                self,
            ).remaining_sizes.obeys_prophetic_iter_laws(),
            old(self).remaining_sizes.obeys_prophetic_iter_laws() ==> (old(
                self,
            ).remaining_sizes.decrease() is Some <==> final(self).remaining_sizes.decrease() is Some),
            outcome matches Ok(Some(_)) && old(self).remaining_sizes.obeys_prophetic_iter_laws()
                && old(self).remaining_sizes.decrease() is Some ==> decreases_to!(
                old(self).remaining_sizes.decrease()->0 => final(self).remaining_sizes.decrease()->0
            ),
    {
        if self.remaining.is_empty() {
            Ok(None)
        } else {
            let requested: Option<usize> = self.remaining_sizes.next();
            let outcome = serve_request(&mut self.remaining, requested);
            // the size that was pulled is the witness
            assert(request_served(old(self).remaining, requested, outcome, self.remaining));
            outcome
        }
    }
}

/// Whether cutting `e` by `sizes` stops before its first chunk: nothing is
/// left, no size is left, or the first size is larger than what is left.
pub open spec fn chunking_stops<D: DivisibleIntoBlocks>(e: D::Extent, sizes: Seq<usize>) -> bool {
    D::extent_len(e) == 0 || sizes.len() == 0 || sizes[0] > D::extent_len(e)
}

/// The extents of the chunks that are handed out, in order, when a value of
/// extent `e` is cut by the sizes `sizes`.
pub open spec fn chunk_extents<D: DivisibleIntoBlocks>(e: D::Extent, sizes: Seq<usize>) -> Seq<
    D::Extent,
>
    decreases sizes.len(),
{
    if chunking_stops::<D>(e, sizes) {
        Seq::empty()
    } else {
        seq![D::extent_split(e, sizes[0] as nat).0] + chunk_extents::<D>(
            D::extent_split(e, sizes[0] as nat).1,
            sizes.drop_first(),
        )
    }
}

/// The extent that is left when cutting `e` by `sizes` has stopped.
pub open spec fn chunk_leftover<D: DivisibleIntoBlocks>(e: D::Extent, sizes: Seq<usize>) -> D::Extent
    decreases sizes.len(),
{
    if chunking_stops::<D>(e, sizes) {
        e
    } else {
        chunk_leftover::<D>(D::extent_split(e, sizes[0] as nat).1, sizes.drop_first())
    }
}

/// The rejection that cutting `e` by `sizes` stops on, if it stops on one.
pub open spec fn chunk_rejection<D: DivisibleIntoBlocks>(e: D::Extent, sizes: Seq<usize>) -> Option<
    OversizedChunk,
>
    decreases sizes.len(),
{
    if D::extent_len(e) == 0 || sizes.len() == 0 {
        None
    } else if sizes[0] > D::extent_len(e) {
        Some(OversizedChunk { requested: sizes[0], remaining: D::extent_len(e) as usize })
    } else {
        chunk_rejection::<D>(D::extent_split(e, sizes[0] as nat).1, sizes.drop_first())
    }
}

impl<D: DivisibleIntoBlocks, S: Iterator<Item = usize>> Chunks<D, S> {
    /// Runs the iteration to its end and gathers the chunks, or stops at the
    /// first request that is rejected.
    ///
    /// The sizes must come from an iterator that ends, so that the run does.
    pub fn collect(self) -> (outcome: Result<Vec<D>, OversizedChunk>)
        requires
            self.remaining_sizes.obeys_prophetic_iter_laws(),
            self.remaining_sizes.decrease() is Some,
        ensures
            match outcome {
                Ok(chunks) => {
                    &&& chunk_rejection::<D>(
                        self.remaining.extent(),
                        self.remaining_sizes.remaining(),
                    ) is None
                    &&& chunks@.len() == chunk_extents::<D>(
                        self.remaining.extent(),
                        self.remaining_sizes.remaining(),
                    ).len()
                    &&& forall|i: int|
                        0 <= i < chunks@.len() ==> (#[trigger] chunks@[i]).extent()
                            == chunk_extents::<D>(
                            self.remaining.extent(),
                            self.remaining_sizes.remaining(),
                        )[i]
                },
                Err(rejection) => chunk_rejection::<D>(
                    self.remaining.extent(),
                    self.remaining_sizes.remaining(),
                ) == Some(rejection),
            },
    {
        let ghost start = self;
        let mut state = self;
        let mut chunks: Vec<D> = Vec::new();
        loop
            invariant
                start == self,
                state.remaining_sizes.obeys_prophetic_iter_laws(),
                state.remaining_sizes.decrease() is Some,
                chunk_rejection::<D>(start.remaining.extent(), start.remaining_sizes.remaining())
                    == chunk_rejection::<D>(
                    state.remaining.extent(),
                    state.remaining_sizes.remaining(),
                ),
                chunk_extents::<D>(start.remaining.extent(), start.remaining_sizes.remaining())
                    == chunks@.map_values(|c: D| c.extent()) + chunk_extents::<D>(
                    state.remaining.extent(),
                    state.remaining_sizes.remaining(),
                ),
            decreases state.remaining_sizes.decrease()->0,
        {
            match state.next_chunk() {
                Err(rejection) => {
                    return Err(rejection);
                },
                Ok(None) => {
                    return Ok(chunks);
                },
                Ok(Some(chunk)) => {
                    proof {
                        let done = chunks@.map_values(|c: D| c.extent());
                        let to_come = chunk_extents::<D>(
                            state.remaining.extent(),
                            state.remaining_sizes.remaining(),
                        );
                        assert(chunks@.push(chunk).map_values(|c: D| c.extent()) =~= done.push(
                            chunk.extent(),
                        ));
                        assert(done + (seq![chunk.extent()] + to_come) =~= done.push(
                            chunk.extent(),
                        ) + to_come);
                    }
                    chunks.push(chunk);
                },
            }
        }
    }
}

/// The sum of the sizes in `sizes`.
pub open spec fn sizes_sum(sizes: Seq<usize>) -> nat
    decreases sizes.len(),
{
    if sizes.len() == 0 {
        0
    } else {
        sizes[0] as nat + sizes_sum(sizes.drop_first())
    }
}

/// The extent made of the extents in `chunks`, in order, followed by
/// `leftover`.
pub open spec fn rejoined<D: DivisibleIntoBlocks>(
    chunks: Seq<D::Extent>,
    leftover: D::Extent,
) -> D::Extent
    decreases chunks.len(),
{
    if chunks.len() == 0 {
        leftover
    } else {
        D::extent_join(chunks[0], rejoined::<D>(chunks.drop_first(), leftover))
    }
}

/// Whatever the sizes, cutting loses nothing: every chunk handed out has the
/// size that was asked for in its turn, the lengths of the chunks and of what
/// is left add up to the length of the value, and the chunks followed by what
/// is left, joined in order, are the value.
pub proof fn lemma_chunks_partition<D: DivisibleIntoBlocks>(e: D::Extent, sizes: Seq<usize>)
    ensures
        chunk_extents::<D>(e, sizes).len() <= sizes.len(),
        forall|i: int|
            0 <= i < chunk_extents::<D>(e, sizes).len() ==> D::extent_len(
                #[trigger] chunk_extents::<D>(e, sizes)[i],
            ) == sizes[i],
        sizes_sum(sizes.take(chunk_extents::<D>(e, sizes).len() as int)) + D::extent_len(
            chunk_leftover::<D>(e, sizes),
        ) == D::extent_len(e),
        rejoined::<D>(chunk_extents::<D>(e, sizes), chunk_leftover::<D>(e, sizes)) == e,
    decreases sizes.len(),
{
    if chunking_stops::<D>(e, sizes) {
        assert(sizes.take(0) =~= Seq::<usize>::empty());
    } else {
        let first = sizes[0] as nat;
        let parts = D::extent_split(e, first);
        let rest = sizes.drop_first();
        let tail = chunk_extents::<D>(parts.1, rest);
        let all = chunk_extents::<D>(e, sizes);
        D::lemma_split(e, first);
        lemma_chunks_partition::<D>(parts.1, rest);
        assert(all.drop_first() =~= tail);
        assert forall|i: int| 0 <= i < all.len() implies D::extent_len(#[trigger] all[i])
            == sizes[i] by {
            if i > 0 {
                assert(all[i] == tail[i - 1]);
                assert(rest[i - 1] == sizes[i]);
            }
        }
        assert(sizes.take(all.len() as int).drop_first() =~= rest.take(tail.len() as int));
    }
}

/// When the sizes add up to exactly the length of the value, no request is
/// rejected and nothing is left over: the chunks have the sizes that were asked
/// for, in order, any size that is not served is zero, and the chunks joined in
/// order (onto the empty rest) are the value.
pub proof fn lemma_chunks_of_exact_sizes<D: DivisibleIntoBlocks>(e: D::Extent, sizes: Seq<usize>)
    requires
        sizes_sum(sizes) == D::extent_len(e),
    ensures
        chunk_rejection::<D>(e, sizes) is None,
        chunk_extents::<D>(e, sizes).len() <= sizes.len(),
        forall|i: int|
            0 <= i < chunk_extents::<D>(e, sizes).len() ==> D::extent_len(
                #[trigger] chunk_extents::<D>(e, sizes)[i],
            ) == sizes[i],
        forall|i: int|
            chunk_extents::<D>(e, sizes).len() <= i < sizes.len() ==> #[trigger] sizes[i] == 0,
        D::extent_len(chunk_leftover::<D>(e, sizes)) == 0,
        rejoined::<D>(chunk_extents::<D>(e, sizes), chunk_leftover::<D>(e, sizes)) == e,
    decreases sizes.len(),
{
    lemma_chunks_partition::<D>(e, sizes);
    if sizes.len() == 0 {
    } else if D::extent_len(e) == 0 {
        lemma_sum_zero(sizes);
    } else {
        let first = sizes[0] as nat;
        let parts = D::extent_split(e, first);
        let rest = sizes.drop_first();
        let tail = chunk_extents::<D>(parts.1, rest);
        let all = chunk_extents::<D>(e, sizes);
        D::lemma_split(e, first);
        lemma_chunks_of_exact_sizes::<D>(parts.1, rest);
        assert(all.drop_first() =~= tail);
        assert forall|i: int| all.len() <= i < sizes.len() implies #[trigger] sizes[i] == 0 by {
            assert(rest[i - 1] == sizes[i]);
        }
    }
}

/// Sizes that add up to zero are all zero.
pub proof fn lemma_sum_zero(sizes: Seq<usize>)
    requires
        sizes_sum(sizes) == 0,
    ensures
        forall|i: int| 0 <= i < sizes.len() ==> #[trigger] sizes[i] == 0,
    decreases sizes.len(),
{
    if sizes.len() > 0 {
        lemma_sum_zero(sizes.drop_first());
        assert forall|i: int| 0 <= i < sizes.len() implies #[trigger] sizes[i] == 0 by {
            if i > 0 {
                assert(sizes.drop_first()[i - 1] == sizes[i]);
            }
        }
    }
}

/// Where extents are sequences and joining is concatenation, the chunks
/// followed by what is left, joined in order, are the chunks written one after
/// the other, followed by what is left.
pub proof fn lemma_rejoined_sequences<T, D: DivisibleIntoBlocks<Extent = Seq<T>>>(
    chunks: Seq<Seq<T>>,
    leftover: Seq<T>,
)
    requires
        forall|left: Seq<T>, right: Seq<T>| #[trigger] D::extent_join(left, right) == left + right,
    ensures
        rejoined::<D>(chunks, leftover) == chunks.flatten() + leftover,
    decreases chunks.len(),
{
    if chunks.len() == 0 {
        assert(chunks.flatten() + leftover =~= leftover);
    } else {
        lemma_rejoined_sequences::<T, D>(chunks.drop_first(), leftover);
        assert(chunks[0] + (chunks.drop_first().flatten() + leftover) =~= chunks.flatten()
            + leftover);
    }
}

} // verus!
