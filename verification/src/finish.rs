//! The finishing lemmas of a tick: from what the two passes of the joint
//! spawner guarantee, derive the tick's public transition relation.

use vstd::prelude::*;

use crate::assembly::{
    apply_staged, attachments_evolve, attachments_evolve_staged, committed_body, expected_joint,
    in_staged, pass_one_post, pass_two_post, resolved, root_body, same_core,
    same_except_attachments, staged_competitor, staged_ok, tick_pipeline, tick_post, to_ready,
    pass_one_inv, tick_children, tick_evolved, tick_frames, tick_joints_recorded,
    tick_roots, StagedTag,
};
use crate::attachment::Attachment;
use crate::tags::ParentEntity;
use crate::world::{WantToAttach, World};

verus! {

/// Sizes, joint prefix, framing and well-formedness, extracted from the
/// pass-one invariant.
pub(crate) proof fn ex_parts(w0: World, w1: World, staged: Seq<StagedTag>)
    requires
        pass_one_post(w0, w1, staged),
    ensures
        w1.wf(),
        w1.num_entities() == w0.num_entities(),
        w0.num_joints() <= w1.num_joints(),
        forall|j: int| 0 <= j < w0.num_joints() ==> w1.joint(j) == w0.joint(j),
        forall|k: int|
            0 <= k < w0.num_entities() ==> same_except_attachments(
                #[trigger] w1.ent(k),
                w0.ent(k),
            ),
{
    reveal(pass_one_inv);
}

/// The staged entries' correctness, extracted from the pass-one invariant.
pub(crate) proof fn ex_staged_ok(w0: World, w1: World, staged: Seq<StagedTag>)
    requires
        pass_one_post(w0, w1, staged),
    ensures
        forall|idx: int| 0 <= idx < staged.len() ==> staged_ok(w0, w1, #[trigger] staged[idx]),
{
    reveal(pass_one_inv);
}

/// Completeness of the staging pass, extracted from the pass-one
/// invariant.
pub(crate) proof fn ex_complete(w0: World, w1: World, staged: Seq<StagedTag>)
    requires
        pass_one_post(w0, w1, staged),
    ensures
        forall|e: int|
            0 <= e < w0.num_entities() && w0.ent(e).request == Some(WantToAttach::Me) && w0.ent(
                e,
            ).alive ==> in_staged(staged, e),
        forall|e: int|
            0 <= e < w0.num_entities() ==> match (#[trigger] w0.ent(e)).request {
                Some(WantToAttach::To { parent, aid }) => {
                    w0.ent(e).alive && to_ready(w0, e, parent as int, aid) ==> in_staged(
                        staged,
                        e,
                    ) || staged_competitor(w0, staged, e, parent, aid)
                },
                _ => true,
            },
{
    reveal(pass_one_inv);
}

/// The evolution of the attachment maps, extracted from the pass-one
/// invariant.
pub(crate) proof fn ex_evolve(w0: World, w1: World, staged: Seq<StagedTag>)
    requires
        pass_one_post(w0, w1, staged),
    ensures
        attachments_evolve_staged(w0, w1, staged),
{
    reveal(pass_one_inv);
}

/// The record of fresh joints, extracted from the pass-one invariant.
pub(crate) proof fn ex_prov(w0: World, w1: World, staged: Seq<StagedTag>)
    requires
        pass_one_post(w0, w1, staged),
    ensures
        forall|j: int|
            w0.num_joints() <= j < w1.num_joints() ==> {
                let c = (#[trigger] w1.joint(j)).child as int;
                &&& w1.joint(j).alive
                &&& 0 <= c < w0.num_entities()
                &&& in_staged(staged, c)
                &&& match w0.ent(c).request {
                    Some(WantToAttach::To { parent, aid }) => {
                        let point = w0.ent(parent as int).attachments.spec_get(aid)->Some_0;
                        &&& w1.joint(j).parent == parent
                        &&& w1.joint(j) == expected_joint(c as usize, parent, point, w0.ent(c))
                        &&& w1.ent(parent as int).attachments.spec_get(aid)->Some_0.attached
                            == Some((c as usize, j as usize))
                    },
                    _ => false,
                }
            },
{
    reveal(pass_one_inv);
}


/// Pass two leaves every attachment map as pass one left it.
pub(crate) proof fn lemma_untouched_attachments(w1: World, w2: World, staged: Seq<StagedTag>)
    requires
        pass_two_post(w1, w2, staged),
    ensures
        forall|k: int|
            0 <= k < w1.num_entities() ==> (#[trigger] w2.ent(k)).attachments == w1.ent(
                k,
            ).attachments,
{
    assert forall|k: int|
        0 <= k < w1.num_entities() implies (#[trigger] w2.ent(k)).attachments == w1.ent(
        k,
    ).attachments by {
        if in_staged(staged, k) {
            let idx = choose|idx: int|
                0 <= idx < staged.len() && #[trigger] staged[idx].entity as int == k;
            assert(w2.ent(k) == apply_staged(w1.ent(k), staged[idx]));
        }
    }
}

/// Pass two leaves every attachment map and every joint as pass one left
/// them, so the final world is still well-formed.
#[verifier::spinoff_prover]
pub(crate) proof fn lemma_tick_attachments(w0: World, w1: World, w2: World, staged: Seq<StagedTag>)
    requires
        w0.wf(),
        pass_one_post(w0, w1, staged),
        pass_two_post(w1, w2, staged),
    ensures
        forall|k: int|
            0 <= k < w0.num_entities() ==> (#[trigger] w2.ent(k)).attachments == w1.ent(
                k,
            ).attachments,
        w2.wf(),
        w2.num_entities() == w0.num_entities(),
        w0.num_joints() <= w2.num_joints(),
        forall|j: int| 0 <= j < w0.num_joints() ==> w2.joint(j) == w0.joint(j),
{
    ex_parts(w0, w1, staged);
    let n = w0.num_entities();
    assert forall|k: int|
        0 <= k < n implies (#[trigger] w2.ent(k)).attachments == w1.ent(k).attachments by {
        if in_staged(staged, k) {
            let idx = choose|idx: int|
                0 <= idx < staged.len() && #[trigger] staged[idx].entity as int == k;
            assert(w2.ent(k) == apply_staged(w1.ent(k), staged[idx]));
        }
    }
    assert(w2.wf()) by {
        assert forall|k: int| 0 <= k < w2.num_entities() implies {
            &&& (#[trigger] w2.ent(k)).attachments.wf()
            &&& forall|kk: int|
                0 <= kk < w2.ent(k).attachments.0@.len() ==> {
                    let at = #[trigger] w2.ent(k).attachments.0@[kk];
                    at.attached matches Some((c, j)) ==> 0 <= c < w2.num_entities() && 0 <= j
                        < w2.num_joints()
                }
        } by {
            assert(w2.ent(k).attachments == w1.ent(k).attachments);
            assert(w1.wf());
        }
    }
}

/// The entities that resolved this tick are exactly the staged ones, and
/// everything else about an entity is framed.
#[verifier::spinoff_prover]
pub(crate) proof fn lemma_tick_resolved(w0: World, w1: World, w2: World, staged: Seq<StagedTag>)
    requires
        w0.wf(),
        pass_one_post(w0, w1, staged),
        pass_two_post(w1, w2, staged),
    ensures
        forall|e: int|
            0 <= e < w0.num_entities() ==> (resolved(w0, w2, e) == in_staged(staged, e)),
        forall|e: int|
            0 <= e < w0.num_entities() && !resolved(w0, w2, e) ==> same_except_attachments(
                #[trigger] w2.ent(e),
                w0.ent(e),
            ),
        forall|e: int|
            0 <= e < w0.num_entities() ==> same_core(#[trigger] w2.ent(e), w0.ent(e)),
{
    ex_parts(w0, w1, staged);
    ex_staged_ok(w0, w1, staged);
    let n = w0.num_entities();
    assert forall|e: int| 0 <= e < n implies (resolved(w0, w2, e) == in_staged(staged, e)) && (
    !resolved(w0, w2, e) ==> same_except_attachments(#[trigger] w2.ent(e), w0.ent(e)))
        && same_core(w2.ent(e), w0.ent(e)) by {
        if in_staged(staged, e) {
            let idx = choose|idx: int|
                0 <= idx < staged.len() && #[trigger] staged[idx].entity as int == e;
            assert(w2.ent(e) == apply_staged(w1.ent(e), staged[idx]));
            assert(staged_ok(w0, w1, staged[idx]));
            assert(same_except_attachments(w1.ent(e), w0.ent(e)));
        } else {
            assert(w2.ent(e) == w1.ent(e));
            assert(same_except_attachments(w1.ent(e), w0.ent(e)));
        }
    }
}

/// The attachment maps of the final world evolved correctly from the
/// pre-tick world: a freshly gained occupant is a child that resolved this
/// tick against exactly that point, paired with a fresh joint recording
/// this parent and child.
#[verifier::spinoff_prover]
#[verifier::rlimit(100)]
pub(crate) proof fn lemma_tick_evolve(w0: World, w1: World, w2: World, staged: Seq<StagedTag>)
    requires
        w0.wf(),
        pass_one_post(w0, w1, staged),
        pass_two_post(w1, w2, staged),
    ensures
        tick_evolved(w0, w2),
{
    reveal(tick_evolved);
    ex_parts(w0, w1, staged);
    ex_evolve(w0, w1, staged);
    ex_staged_ok(w0, w1, staged);
    let n = w0.num_entities();
    assert forall|idx: int|
        0 <= idx < staged.len() implies 0 <= (#[trigger] staged[idx]).entity < n && w0.ent(
        staged[idx].entity as int,
    ).request is Some by {
        assert(staged_ok(w0, w1, staged[idx]));
    }
    lemma_tick_resolved(w0, w1, w2, staged);
    lemma_untouched_attachments(w1, w2, staged);
    assert forall|pp: int|
        0 <= pp < n implies (#[trigger] w2.ent(pp).attachments).0@.len() == w0.ent(
        pp,
    ).attachments.0@.len() by {
        assert(w2.ent(pp).attachments == w1.ent(pp).attachments);
    }
    assert forall|pp: int, k: int|
        0 <= pp < n && 0 <= k < w0.ent(pp).attachments.0@.len() implies {
            let a0 = w0.ent(pp).attachments.0@[k];
            let a1 = #[trigger] w2.ent(pp).attachments.0@[k];
            &&& a1.id == a0.id
            &&& a1.max_size == a0.max_size
            &&& a1.transform == a0.transform
            &&& a1.accepted_types == a0.accepted_types
            &&& (a0.attached is Some ==> a1.attached == a0.attached)
            &&& match a1.attached {
                Some((c, jid)) => a0.attached == a1.attached || {
                    &&& a0.attached is None
                    &&& 0 <= c < n
                    &&& resolved(w0, w2, c as int)
                    &&& w0.ent(c as int).request == Some(
                        WantToAttach::To { parent: pp as usize, aid: a0.id },
                    )
                    &&& w0.num_joints() <= jid < w2.num_joints()
                    &&& w2.joint(jid as int).child == c
                    &&& w2.joint(jid as int).parent == pp as usize
                },
                None => a0.attached is None,
            }
        } by {
        assert(w2.ent(pp).attachments == w1.ent(pp).attachments);
        assert(attachments_evolve_staged(w0, w1, staged));
        let a0 = w0.ent(pp).attachments.0@[k];
        let a1 = w1.ent(pp).attachments.0@[k];
        match a1.attached {
            Some((c, jid)) => {
                if a0.attached != a1.attached {
                    // The gained occupant is staged; its own entry pins the
                    // same point and so the same joint id.
                    assert(in_staged(staged, c as int));
                    assert(resolved(w0, w2, c as int));
                    let idx = choose|idx: int|
                        0 <= idx < staged.len() && #[trigger] staged[idx].entity as int
                            == c as int;
                    assert(staged_ok(w0, w1, staged[idx]));
                    match w0.ent(c as int).request {
                        Some(WantToAttach::To { parent, aid }) => {
                            assert(parent == pp as usize && aid == a0.id);
                            let m1 = w1.ent(pp).attachments;
                            assert(m1.wf());
                            assert(m1.0@[k].id == a0.id);
                            assert(m1.contains_id(a0.id));
                            assert(m1.index_of(a0.id) == k) by {
                                let kk = m1.index_of(a0.id);
                                assert(0 <= kk < m1.0@.len() && m1.0@[kk].id == a0.id);
                                if kk != k {
                                    assert(false);
                                }
                            }
                            assert(m1.spec_get(a0.id) == Some(a1));
                            assert(w1.joint(jid as int).child == c);
                            assert(w1.joint(jid as int).parent == pp as usize);
                            assert(w2.joints@ == w1.joints@);
                        },
                        _ => {
                            assert(false);
                        },
                    }
                }
            },
            None => {},
        }
    }
}

/// The frame facts of one tick, and preservation of well-formedness.
#[verifier::spinoff_prover]
pub(crate) proof fn lemma_tick_frames(w0: World, w1: World, w2: World, staged: Seq<StagedTag>)
    requires
        w0.wf(),
        pass_one_post(w0, w1, staged),
        pass_two_post(w1, w2, staged),
    ensures
        w2.wf(),
        tick_frames(w0, w2),
{
    reveal(tick_frames);
    lemma_tick_attachments(w0, w1, w2, staged);
    lemma_tick_resolved(w0, w1, w2, staged);
}

} // verus!
