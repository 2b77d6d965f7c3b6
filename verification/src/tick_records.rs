//! The record of every fresh joint over one tick.

use vstd::prelude::*;

use crate::assembly::{
    apply_staged, committed_body, expected_joint, in_staged, pass_one_post, pass_two_post,
    resolved, root_body, staged_competitor, staged_ok, tick_children, tick_joints_recorded,
    tick_roots, to_ready, StagedTag,
};
use crate::attachment::Attachment;
use crate::finish::{ex_complete, ex_parts, ex_prov, ex_staged_ok, lemma_tick_resolved,
    lemma_untouched_attachments};
use crate::tags::ParentEntity;
use crate::world::{WantToAttach, World};

verus! {

/// Every fresh joint is the record of exactly one commit.
#[verifier::spinoff_prover]
#[verifier::rlimit(40)]
pub(crate) proof fn lemma_tick_joints(w0: World, w1: World, w2: World, staged: Seq<StagedTag>)
    requires
        w0.wf(),
        pass_one_post(w0, w1, staged),
        pass_two_post(w1, w2, staged),
    ensures
        tick_joints_recorded(w0, w2),

{
    reveal(tick_joints_recorded);
    ex_parts(w0, w1, staged);
    ex_staged_ok(w0, w1, staged);
    ex_prov(w0, w1, staged);
    let n = w0.num_entities();
    lemma_tick_resolved(w0, w1, w2, staged);
    lemma_untouched_attachments(w1, w2, staged);
    assert forall|j: int|
        w0.num_joints() <= j < w2.num_joints() implies {
            let c = (#[trigger] w2.joint(j)).child as int;
            &&& w2.joint(j).alive
            &&& 0 <= c < w0.num_entities()
            &&& resolved(w0, w2, c)
            &&& match w0.ent(c).request {
                Some(WantToAttach::To { parent, aid }) => {
                    let point = w0.ent(parent as int).attachments.spec_get(aid)->Some_0;
                    &&& w2.joint(j) == expected_joint(c as usize, parent, point, w0.ent(c))
                    &&& w2.ent(parent as int).attachments.spec_get(aid) == Some(Attachment {
                        attached: Some((c as usize, j as usize)),
                        ..point
                    })
                },
                _ => false,
            }
        } by {
        assert(w2.joint(j) == w1.joint(j));
        let c = w1.joint(j).child as int;
        assert(in_staged(staged, c));
        assert(resolved(w0, w2, c));
        match w0.ent(c).request {
            Some(WantToAttach::To { parent, aid }) => {
                let p = parent as int;
                assert(w2.ent(p).attachments == w1.ent(p).attachments);
            },
            _ => {
                assert(false);
            },
        }
    }
}



} // verus!
