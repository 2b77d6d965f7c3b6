//! The fate of the root and child intents over one tick.

use vstd::prelude::*;

use crate::assembly::{
    apply_staged, committed_body, expected_joint, in_staged, pass_one_post, pass_two_post,
    resolved, root_body, staged_competitor, staged_ok, tick_children,
    tick_children_progress, tick_children_resolved, tick_joints_recorded,
    tick_roots, to_ready, StagedTag,
};
use crate::attachment::Attachment;
use crate::finish::{ex_complete, ex_parts, ex_prov, ex_staged_ok, lemma_tick_resolved,
    lemma_untouched_attachments};
use crate::tags::ParentEntity;
use crate::world::{WantToAttach, World};

verus! {

/// A committed root got its own tag and placement, and a dead entity
/// resolved nothing.
pub(crate) proof fn lemma_tick_me(w0: World, w1: World, w2: World, staged: Seq<StagedTag>)
    requires
        w0.wf(),
        pass_one_post(w0, w1, staged),
        pass_two_post(w1, w2, staged),
    ensures
        tick_roots(w0, w2),

{
    reveal(tick_roots);
    ex_parts(w0, w1, staged);
    ex_staged_ok(w0, w1, staged);
    ex_complete(w0, w1, staged);
    let n = w0.num_entities();
    lemma_tick_resolved(w0, w1, w2, staged);
    assert forall|e: int|
        0 <= e < n && (#[trigger] w0.ent(e)).request == Some(WantToAttach::Me) && w0.ent(
        e,
    ).alive implies {
        &&& resolved(w0, w2, e)
        &&& w2.ent(e).tag == ParentEntity::Robot(e as usize)
        &&& w2.ent(e).body == root_body(w0.ent(e))
        &&& w2.ent(e).visible
    } by {
        assert(in_staged(staged, e));
        let idx = choose|idx: int|
            0 <= idx < staged.len() && #[trigger] staged[idx].entity as int == e;
        assert(staged_ok(w0, w1, staged[idx]));
        assert(w2.ent(e) == apply_staged(w1.ent(e), staged[idx]));
    }
    assert forall|e: int|
        0 <= e < n && (#[trigger] w0.ent(e)).request is Some && !w0.ent(e).alive implies
        !resolved(w0, w2, e) by {
        if in_staged(staged, e) {
            let idx = choose|idx: int|
                0 <= idx < staged.len() && #[trigger] staged[idx].entity as int == e;
            assert(staged_ok(w0, w1, staged[idx]));
        }
    }
}

/// A committed child inherited its parent's tag, placement at the point,
/// and a fresh joint.
#[verifier::spinoff_prover]
#[verifier::rlimit(40)]
pub(crate) proof fn lemma_tick_to_resolved(w0: World, w1: World, w2: World, staged: Seq<StagedTag>)
    requires
        w0.wf(),
        pass_one_post(w0, w1, staged),
        pass_two_post(w1, w2, staged),
    ensures
        tick_children_resolved(w0, w2),
{
    reveal(tick_children_resolved);
    ex_parts(w0, w1, staged);
    ex_staged_ok(w0, w1, staged);
    ex_prov(w0, w1, staged);
    lemma_tick_resolved(w0, w1, w2, staged);
    lemma_untouched_attachments(w1, w2, staged);
    let n = w0.num_entities();
    assert forall|e: int| 0 <= e < n implies match (#[trigger] w0.ent(e)).request {
        Some(WantToAttach::To { parent, aid }) => {
            let p = parent as int;
            let point = w0.ent(p).attachments.spec_get(aid)->Some_0;
            resolved(w0, w2, e) ==> {
                let a1 = w2.ent(p).attachments.spec_get(aid)->Some_0;
                let jid = a1.attached->Some_0.1 as int;
                &&& w0.ent(e).alive
                &&& to_ready(w0, e, p, aid)
                &&& w2.ent(e).tag == w0.ent(p).tag
                &&& w2.ent(e).body == committed_body(w0.ent(p).body, point, w0.ent(e))
                &&& w2.ent(e).visible
                &&& a1 == (Attachment {
                    attached: Some((e as usize, jid as usize)),
                    ..point
                })
                &&& w0.num_joints() <= jid < w2.num_joints()
                &&& w2.joint(jid) == expected_joint(e as usize, parent, point, w0.ent(e))
            }
        },
        _ => true,
    } by {
        match w0.ent(e).request {
            Some(WantToAttach::To { parent, aid }) => {
                let p = parent as int;
                if resolved(w0, w2, e) {
                    assert(in_staged(staged, e));
                    let idx = choose|idx: int|
                        0 <= idx < staged.len() && #[trigger] staged[idx].entity as int == e;
                    assert(staged_ok(w0, w1, staged[idx]));
                    assert(w2.ent(e) == apply_staged(w1.ent(e), staged[idx]));
                    assert(w2.ent(p).attachments == w1.ent(p).attachments);
                    assert(w2.joints@ == w1.joints@);
                    // The occupant's joint records this child, so the
                    // per-joint record is this commit's.
                    let a1 = w1.ent(p).attachments.spec_get(aid)->Some_0;
                    let jid = a1.attached->Some_0.1 as int;
                    assert(w1.joint(jid).child == e as usize);
                    assert(0 <= jid <= usize::MAX);
                    assert(w1.joint(jid) == expected_joint(
                        e as usize,
                        parent,
                        w0.ent(p).attachments.spec_get(aid)->Some_0,
                        w0.ent(e),
                    ));
                }
            },
            _ => {},
        }
    }
}

/// An uncontested ready child intent committed this tick.
#[verifier::spinoff_prover]
#[verifier::rlimit(40)]
pub(crate) proof fn lemma_tick_to_progress(w0: World, w1: World, w2: World, staged: Seq<StagedTag>)
    requires
        w0.wf(),
        pass_one_post(w0, w1, staged),
        pass_two_post(w1, w2, staged),
    ensures
        tick_children_progress(w0, w2),
{
    reveal(tick_children_progress);
    ex_parts(w0, w1, staged);
    ex_staged_ok(w0, w1, staged);
    ex_complete(w0, w1, staged);
    lemma_tick_resolved(w0, w1, w2, staged);
    let n = w0.num_entities();
    assert forall|e: int| 0 <= e < n implies match (#[trigger] w0.ent(e)).request {
        Some(WantToAttach::To { parent, aid }) => {
            w0.ent(e).alive && to_ready(w0, e, parent as int, aid) && (forall|k: int|
                0 <= k < n && k != e ==> !((#[trigger] w0.ent(k)).alive && w0.ent(k).request
                    == Some(WantToAttach::To { parent, aid }))) ==> resolved(w0, w2, e)
        },
        _ => true,
    } by {
        match w0.ent(e).request {
            Some(WantToAttach::To { parent, aid }) => {
                if w0.ent(e).alive && to_ready(w0, e, parent as int, aid) && (forall|k: int|
                    0 <= k < n && k != e ==> !((#[trigger] w0.ent(k)).alive && w0.ent(
                    k,
                ).request == Some(WantToAttach::To { parent, aid }))) {
                    if !in_staged(staged, e) {
                        assert(staged_competitor(w0, staged, e, parent, aid));
                        let idx = choose|idx: int|
                            {
                                &&& 0 <= idx < staged.len()
                                &&& (#[trigger] staged[idx]).entity as int != e
                                &&& w0.ent(staged[idx].entity as int).request == Some(
                                    WantToAttach::To { parent, aid },
                                )
                            };
                        assert(staged_ok(w0, w1, staged[idx]));
                        assert(false);
                    }
                }
            },
            _ => {},
        }
    }
}

/// The fate of the child intents, assembled from its two directions.
pub(crate) proof fn lemma_tick_to(w0: World, w1: World, w2: World, staged: Seq<StagedTag>)
    requires
        w0.wf(),
        pass_one_post(w0, w1, staged),
        pass_two_post(w1, w2, staged),
    ensures
        tick_children(w0, w2),
{
    reveal(tick_children);
    lemma_tick_to_resolved(w0, w1, w2, staged);
    lemma_tick_to_progress(w0, w1, w2, staged);
}

} // verus!
