//! The global laws of the assembly protocol: occupied points are never
//! evicted, and a built tree resolves to one shared root tag.

use vstd::prelude::*;

use crate::assembly::{
    tick_children, tick_children_resolved, tick_evolved, tick_frames, tick_post, tick_roots,
    attachments_evolve, resolved, same_core, same_except_attachments,
};
use crate::builder::{
    built_shape, lemma_valid_tree_all_pending, pending_node, spawn_count, tree_spawned,
    tree_valid, SpawnItem,
};
use crate::catalog::ItemCatalog;
use crate::tags::ParentEntity;
use crate::types::AttachmentPointId;
use crate::world::{WantToAttach, World};

verus! {

/// At most one child per point, tick over tick: a point that holds an
/// occupant holds exactly that `(child, joint)` pair after any tick — the
/// protocol never evicts, so replacing a child takes an explicit detach.
pub proof fn lemma_at_most_one_child(w0: World, w2: World, p: int, aid: AttachmentPointId)
    requires
        w0.wf(),
        tick_post(w0, w2),
        0 <= p < w0.num_entities(),
        w0.ent(p).attachments.spec_get(aid) matches Some(at) && at.attached is Some,
    ensures
        w2.ent(p).attachments.spec_get(aid) == w0.ent(p).attachments.spec_get(aid),
{
    reveal(tick_post);
    reveal(tick_evolved);
    let m0 = w0.ent(p).attachments;
    let m2 = w2.ent(p).attachments;
    let k0 = m0.index_of(aid);
    assert(m0.contains_id(aid));
    assert(0 <= k0 < m0.0@.len() && m0.0@[k0].id == aid);
    assert(attachments_evolve(w0, w2));
    assert(m2.0@.len() == m0.0@.len());
    assert forall|k: int| 0 <= k < m0.0@.len() implies #[trigger] m2.0@[k].id == m0.0@[k].id by {}
    assert(m2.0@[k0].attached == m0.0@[k0].attached);
    assert(m2.0@[k0] == m0.0@[k0]);
    assert(m2.contains_id(aid));
    assert(m2.index_of(aid) == k0) by {
        let kk = m2.index_of(aid);
        assert(0 <= kk < m2.0@.len() && m2.0@[kk].id == aid);
        if kk != k0 {
            assert(m0.0@[kk].id == aid);
            assert(w0.wf());
            assert(m0.wf());
            assert(false);
        }
    }
}

/// A tree of entities mid-assembly: every member either still waits, its
/// intent naming the tree's root or another member, or already carries the
/// tree's own root tag.
pub open spec fn tree_consistent(w: World, root: int, lo: int, hi: int) -> bool {
    &&& 0 <= lo <= root < hi <= w.num_entities()
    &&& forall|i: int|
        lo <= i < hi ==> {
            ||| ((#[trigger] w.ent(i)).tag == ParentEntity::WaitForAttach && w.ent(i).alive
                && match w.ent(i).request {
                Some(WantToAttach::Me) => i == root,
                Some(WantToAttach::To { parent, aid }) => lo <= parent < hi,
                None => false,
            })
            ||| (w.ent(i).tag == ParentEntity::Robot(root as usize) && w.ent(i).request
                is None)
        }
}

/// A freshly built tree whose every node spawned successfully is
/// consistent: all nodes wait, the root intends to stand alone, and every
/// other intent names an earlier node.
pub proof fn lemma_build_tree_consistent(w0: World, w1: World, lo: int, root: int)
    requires
        built_shape(w0, w1, lo, root, None),
        forall|i: int|
            lo <= i < w1.num_entities() ==> pending_node(#[trigger] w1.ent(i)),
    ensures
        tree_consistent(w1, root, lo, w1.num_entities()),
{
    reveal(pending_node);
    let hi = w1.num_entities();
    assert forall|i: int| lo <= i < hi implies {
        ||| ((#[trigger] w1.ent(i)).tag == ParentEntity::WaitForAttach && w1.ent(i).alive
            && match w1.ent(i).request {
            Some(WantToAttach::Me) => i == root,
            Some(WantToAttach::To { parent, aid }) => lo <= parent < hi,
            None => false,
        })
        ||| (w1.ent(i).tag == ParentEntity::Robot(root as usize) && w1.ent(i).request is None)
    } by {
        assert(pending_node(w1.ent(i)));
        if i == root {
            assert(w1.ent(root).request == Some(WantToAttach::Me));
        } else {
            assert(match w1.ent(i).request {
                Some(WantToAttach::To { parent, aid }) => lo <= parent < i,
                _ => false,
            });
        }
    }
}

/// A built tree whose every declared handle resolved in the catalog is
/// consistent: the builder's contract pins every node as pending, so the
/// tag-propagation induction applies with no further hypothesis.
pub proof fn lemma_valid_build_consistent(
    w0: World,
    w1: World,
    lo: int,
    root: int,
    item: SpawnItem,
    cat: ItemCatalog,
)
    requires
        built_shape(w0, w1, lo, root, None),
        tree_spawned(item, None, w1, lo, cat),
        tree_valid(item, cat),
        w1.num_entities() == lo + spawn_count(item, cat),
    ensures
        tree_consistent(w1, root, lo, w1.num_entities()),
{
    lemma_valid_tree_all_pending(item, None, w1, lo, cat);
    lemma_build_tree_consistent(w0, w1, lo, root);
}

/// The frame facts of a tick, read out of its transition relation.
proof fn law_frames(w0: World, w2: World)
    requires
        tick_post(w0, w2),
    ensures
        w2.num_entities() == w0.num_entities(),
        forall|i: int| 0 <= i < w0.num_entities() ==> same_core(#[trigger] w2.ent(i), w0.ent(i)),
        forall|i: int|
            0 <= i < w0.num_entities() && !resolved(w0, w2, i) ==> same_except_attachments(
                #[trigger] w2.ent(i),
                w0.ent(i),
            ),
{
    reveal(tick_post);
    reveal(tick_frames);
}

/// The fate of root intents, read out of a tick's transition relation.
proof fn law_roots(w0: World, w2: World)
    requires
        tick_post(w0, w2),
    ensures
        forall|i: int|
            0 <= i < w0.num_entities() && (#[trigger] w0.ent(i)).request == Some(
                WantToAttach::Me,
            ) && w0.ent(i).alive ==> resolved(w0, w2, i) && w2.ent(i).tag
                == ParentEntity::Robot(i as usize) && w2.ent(i).request is None,
{
    reveal(tick_post);
    reveal(tick_roots);
}

/// The fate of resolved child intents, read out of a tick's transition
/// relation.
proof fn law_children(w0: World, w2: World)
    requires
        tick_post(w0, w2),
    ensures
        forall|i: int|
            0 <= i < w0.num_entities() ==> match (#[trigger] w0.ent(i)).request {
                Some(WantToAttach::To { parent, aid }) => resolved(w0, w2, i) ==> {
                    &&& w0.ent(parent as int).tag != ParentEntity::WaitForAttach
                    &&& w2.ent(i).tag == w0.ent(parent as int).tag
                    &&& w2.ent(i).request is None
                },
                _ => true,
            },
{
    reveal(tick_post);
    reveal(tick_children);
    reveal(tick_children_resolved);
}

/// Tag propagation, one tick at a time: a consistent tree stays
/// consistent. A member that commits this tick inherits its parent's tag,
/// which — the parent being a committed member — is the tree's root tag.
#[verifier::spinoff_prover]
#[verifier::rlimit(100)]
pub proof fn lemma_tag_propagation_step(w0: World, w2: World, root: int, lo: int, hi: int)
    requires
        tick_post(w0, w2),
        tree_consistent(w0, root, lo, hi),
    ensures
        tree_consistent(w2, root, lo, hi),
{
    law_frames(w0, w2);
    law_roots(w0, w2);
    law_children(w0, w2);
    assert forall|i: int| lo <= i < hi implies {
        ||| ((#[trigger] w2.ent(i)).tag == ParentEntity::WaitForAttach && w2.ent(i).alive
            && match w2.ent(i).request {
            Some(WantToAttach::Me) => i == root,
            Some(WantToAttach::To { parent, aid }) => lo <= parent < hi,
            None => false,
        })
        ||| (w2.ent(i).tag == ParentEntity::Robot(root as usize) && w2.ent(i).request is None)
    } by {
        assert(same_core(w2.ent(i), w0.ent(i)));
        if w0.ent(i).tag == ParentEntity::Robot(root as usize) && w0.ent(i).request is None {
            assert(!resolved(w0, w2, i));
            assert(same_except_attachments(w2.ent(i), w0.ent(i)));
        } else {
            assert(w0.ent(i).tag == ParentEntity::WaitForAttach && w0.ent(i).alive);
            if !resolved(w0, w2, i) {
                assert(same_except_attachments(w2.ent(i), w0.ent(i)));
            } else {
                match w0.ent(i).request {
                    Some(WantToAttach::Me) => {
                        assert(i == root);
                        assert(w2.ent(i).tag == ParentEntity::Robot(i as usize));
                        assert(w2.ent(i).request is None);
                    },
                    Some(WantToAttach::To { parent, aid }) => {
                        let p = parent as int;
                        assert(w0.ent(p).tag != ParentEntity::WaitForAttach);
                        assert(lo <= p < hi);
                        assert(w0.ent(p).tag == ParentEntity::Robot(root as usize));
                        assert(w2.ent(i).tag == w0.ent(p).tag);
                        assert(w2.ent(i).request is None);
                    },
                    None => {
                        assert(false);
                    },
                }
            }
        }
    }
}

/// Tag propagation, concluded: once every member's intent has resolved, a
/// consistent tree's members all carry the identical root tag.
pub proof fn lemma_tree_resolved_tags(w: World, root: int, lo: int, hi: int)
    requires
        tree_consistent(w, root, lo, hi),
        forall|i: int| lo <= i < hi ==> (#[trigger] w.ent(i)).request is None,
    ensures
        forall|i: int|
            lo <= i < hi ==> (#[trigger] w.ent(i)).tag == ParentEntity::Robot(root as usize),
{
    assert forall|i: int|
        lo <= i < hi implies (#[trigger] w.ent(i)).tag == ParentEntity::Robot(
        root as usize,
    ) by {
        assert(w.ent(i).request is None);
    }
}

} // verus!
