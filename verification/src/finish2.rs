//! Assembly of the tick's public transition relation from its parts.

use vstd::prelude::*;

use crate::assembly::{tick_pipeline, tick_post, StagedTag};
use crate::finish::{lemma_tick_evolve, lemma_tick_frames};
use crate::tick_intents::{lemma_tick_me, lemma_tick_to};
use crate::tick_records::lemma_tick_joints;
use crate::world::World;

verus! {

/// What the two passes together give: the tick's public transition
/// relation, and preservation of well-formedness.
pub proof fn lemma_tick(w0: World, w1: World, w2: World, staged: Seq<StagedTag>)
    requires
        tick_pipeline(w0, w1, w2, staged),
    ensures
        w2.wf(),
        tick_post(w0, w2),
{
    reveal(tick_post);
    lemma_tick_frames(w0, w1, w2, staged);
    lemma_tick_evolve(w0, w1, w2, staged);
    lemma_tick_me(w0, w1, w2, staged);
    lemma_tick_to(w0, w1, w2, staged);
    lemma_tick_joints(w0, w1, w2, staged);
}

} // verus!
