//! The levels of the contrastive loss.

use vstd::prelude::*;

use crate::model::EMBED_DIM;

verus! {

/// The levels at which the contrastive loss is taken. Each is a number of leading
/// dimensions of an embedding.
pub open spec fn matryoshka_levels() -> Seq<usize> {
    seq![384usize, 256usize, 128usize, 64usize]
}

/// The levels at which the contrastive loss is taken: the whole embedding, and
/// ever shorter prefixes of it.
pub fn matryoshka_dims() -> (r: Vec<usize>)
    ensures
        r@ == matryoshka_levels(),
{
    let dims: Vec<usize> = vec![384, 256, 128, 64];
    assert(dims@ =~= matryoshka_levels());
    dims
}

/// The first level is the whole embedding, and each further one is a shorter
/// prefix with something in it.
pub proof fn law_levels_are_nested()
    ensures
        matryoshka_levels()[0] == EMBED_DIM,
        forall|i: int, j: int|
            0 <= i < j < matryoshka_levels().len() ==> 0 < #[trigger] matryoshka_levels()[j]
                < #[trigger] matryoshka_levels()[i],
{
}

} // verus!
