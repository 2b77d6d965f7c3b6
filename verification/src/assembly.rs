//! The joint spawner: the protocol that turns pending attachment intents
//! into committed joints, once per tick.
//!
//! A tick works in two passes. The first pass walks every entity with a
//! pending intent, validates it against the parent's attachment map and
//! collision tag, creates the joint, records the occupant, and stages the
//! child's future tag and placement. The second pass applies every staged
//! tag atomically and removes the resolved intents. Staging is what keeps
//! the tick order-independent: a parent that itself commits this tick is
//! still seen as "waiting" by its children, which simply retry next tick.
//!
//! A request that cannot commit — parent not ready, point occupied or
//! missing, size or type incompatible — is left pending and retried every
//! tick; there is no bounded retry count and no failure surface.

use vstd::prelude::*;

use crate::attachment::Attachment;
use crate::tags::ParentEntity;
use crate::types::{AttachmentPointId, JointType};
use crate::util::{clamp_add, clamp_add_sub, sat64};
use crate::world::{EntityRec, JointMotor, JointRec, RigidBody, WantToAttach, World};

verus! {

/// Damping (thousandths) pre-configured on a ball joint's motor when the
/// joint is created.
pub const BALL_MOTOR_DAMPING: i64 = 200;

/// Z layer (thousandths) a root body is placed at when it commits.
pub const ROOT_Z: i64 = 90_000;

/// Whether the pending intent `To { parent: p, aid }` of entity `i` is
/// resolvable against the world as it stands at the start of a tick: the
/// parent is in the arena and alive, is itself committed, offers the point,
/// the point is empty, and the child is size- and type-compatible with it.
pub open spec fn to_ready(w: World, i: int, p: int, aid: AttachmentPointId) -> bool {
    &&& 0 <= p < w.num_entities()
    &&& w.ent(p).alive
    &&& w.ent(p).tag != ParentEntity::WaitForAttach
    &&& w.ent(p).attachments.contains_id(aid)
    &&& w.ent(p).attachments.spec_get(aid)->Some_0.attached is None
    &&& w.ent(p).attachments.spec_get(aid)->Some_0.spec_compatible(
        w.ent(i).item_size,
        w.ent(i).item_type,
    )
}

/// The joint record created when child `c` commits to `point` on parent
/// `p`: anchored at the point's placement on the parent and at the child's
/// origin, of the child's joint kind; a ball joint's motor starts with zero
/// target velocity and preset damping.
pub open spec fn expected_joint(c: usize, p: usize, point: Attachment, child: EntityRec) -> JointRec {
    JointRec {
        alive: true,
        parent: p,
        child: c,
        kind: child.joint_type,
        anchor_x: point.transform.x,
        anchor_y: point.transform.y,
        anchor_rot: point.transform.rot,
        child_anchor_x: child.origin_x,
        child_anchor_y: child.origin_y,
        motor: JointMotor {
            target_velocity: 0,
            damping: if child.joint_type == JointType::Ball {
                BALL_MOTOR_DAMPING
            } else {
                0
            },
            position: 0,
            limit_min: 0,
            limit_max: 0,
        },
    }
}

/// Placement of a child once committed: the parent's placement, offset by
/// the attachment point and pulled back by the child's own origin; the
/// force accumulator is untouched.
pub open spec fn committed_body(parent_body: RigidBody, point: Attachment, child: EntityRec) -> RigidBody {
    RigidBody {
        x: sat64(parent_body.x + point.transform.x - child.origin_x),
        y: sat64(parent_body.y + point.transform.y - child.origin_y),
        z: sat64(parent_body.z + point.transform.z),
        rot: sat64(parent_body.rot + point.transform.rot),
        force_x: child.body.force_x,
        force_y: child.body.force_y,
        torque: child.body.torque,
    }
}

/// Placement of a root once committed: at its own origin, on the root z
/// layer; the force accumulator is untouched.
pub open spec fn root_body(child: EntityRec) -> RigidBody {
    RigidBody {
        x: child.origin_x,
        y: child.origin_y,
        z: ROOT_Z,
        rot: 0,
        force_x: child.body.force_x,
        force_y: child.body.force_y,
        torque: child.body.torque,
    }
}

/// Entity `i` held a pending intent before the tick and holds none after.
pub open spec fn resolved(w0: World, w1: World, i: int) -> bool {
    w0.ent(i).request is Some && w1.ent(i).request is None
}

/// The fields the tick never touches: everything an entity is except its
/// attachment map, tag, intent, visibility and placement.
pub open spec fn same_core(a: EntityRec, b: EntityRec) -> bool {
    a == (EntityRec {
        attachments: a.attachments,
        tag: a.tag,
        request: a.request,
        visible: a.visible,
        body: a.body,
        ..b
    })
}

/// The fields pass one never touches: everything except the attachment
/// map.
pub open spec fn same_except_attachments(a: EntityRec, b: EntityRec) -> bool {
    a == (EntityRec { attachments: a.attachments, ..b })
}

/// One staged tag application: the child entity, its future tag, and its
/// future placement.
#[derive(Clone, Copy, PartialEq, Eq, Structural, Debug)]
pub struct StagedTag {
    pub entity: usize,
    pub tag: ParentEntity,
    pub body: RigidBody,
}

/// What a correct staged entry promises, relative to the pre-tick world
/// `w0` and the world `w` after pass one.
pub open spec fn staged_ok(w0: World, w: World, st: StagedTag) -> bool {
    let e = st.entity as int;
    &&& 0 <= e < w0.num_entities()
    &&& w0.ent(e).alive
    &&& match w0.ent(e).request {
        Some(WantToAttach::Me) => {
            &&& st.tag == ParentEntity::Robot(st.entity)
            &&& st.body == root_body(w0.ent(e))
        },
        Some(WantToAttach::To { parent, aid }) => {
            let p = parent as int;
            let point = w0.ent(p).attachments.spec_get(aid)->Some_0;
            let a1 = w.ent(p).attachments.spec_get(aid)->Some_0;
            let jid = a1.attached->Some_0.1 as int;
            &&& to_ready(w0, e, p, aid)
            &&& st.tag == w0.ent(p).tag
            &&& st.body == committed_body(w0.ent(p).body, point, w0.ent(e))
            &&& w.ent(p).attachments.contains_id(aid)
            &&& a1 == (Attachment { attached: Some((st.entity, jid as usize)), ..point })
            &&& w0.num_joints() <= jid < w.num_joints()
            &&& w.joint(jid).child == st.entity
            &&& w.joint(jid).parent == parent
        },
        None => false,
    }
}

/// Whether some staged entry is for entity `e`.
pub open spec fn in_staged(staged: Seq<StagedTag>, e: int) -> bool {
    exists|idx: int| 0 <= idx < staged.len() && #[trigger] staged[idx].entity as int == e
}

/// Whether some staged entry's entity holds, pre-tick, the intent
/// `To { parent: p, aid }`.
pub open spec fn staged_competitor(
    w0: World,
    staged: Seq<StagedTag>,
    e: int,
    p: usize,
    aid: AttachmentPointId,
) -> bool {
    exists|idx: int|
        {
            &&& 0 <= idx < staged.len()
            &&& (#[trigger] staged[idx]).entity as int != e
            &&& w0.ent(staged[idx].entity as int).request == Some(
                WantToAttach::To { parent: p, aid },
            )
        }
}

/// The record of entity `e` after its staged tag is applied: new tag,
/// placement and visibility, intent removed, everything else kept.
pub open spec fn apply_staged(e: EntityRec, st: StagedTag) -> EntityRec {
    EntityRec { tag: st.tag, body: st.body, visible: true, request: None, ..e }
}

/// How the attachment maps may evolve during a tick: lengths, identities
/// and rule fields stay; an occupied point keeps its occupant; an empty
/// point may gain, as occupant, only a child that resolved this tick, whose
/// pre-tick intent named exactly this point, paired with a fresh joint that
/// itself records this parent and child.
pub open spec fn attachments_evolve(w0: World, w: World) -> bool {
    &&& forall|pp: int|
        0 <= pp < w0.num_entities() ==> (#[trigger] w.ent(pp).attachments).0@.len() == w0.ent(
            pp,
        ).attachments.0@.len()
    &&& forall|pp: int, k: int|
        0 <= pp < w0.num_entities() && 0 <= k < w0.ent(pp).attachments.0@.len() ==> {
            let a0 = w0.ent(pp).attachments.0@[k];
            let a1 = #[trigger] w.ent(pp).attachments.0@[k];
            &&& a1.id == a0.id
            &&& a1.max_size == a0.max_size
            &&& a1.transform == a0.transform
            &&& a1.accepted_types == a0.accepted_types
            &&& (a0.attached is Some ==> a1.attached == a0.attached)
            &&& match a1.attached {
                Some((c, jid)) => a0.attached == a1.attached || {
                    &&& a0.attached is None
                    &&& 0 <= c < w0.num_entities()
                    &&& resolved(w0, w, c as int)
                    &&& w0.ent(c as int).request == Some(
                        WantToAttach::To { parent: pp as usize, aid: a0.id },
                    )
                    &&& w0.num_joints() <= jid < w.num_joints()
                    &&& w.joint(jid as int).child == c
                    &&& w.joint(jid as int).parent == pp as usize
                },
                None => a0.attached is None,
            }
        }
}

/// Like [`attachments_evolve`], but every freshly gained occupant is also
/// one of the staged children. Pass one maintains this; the plain form is
/// what the tick promises.
pub open spec fn attachments_evolve_staged(w0: World, w: World, staged: Seq<StagedTag>) -> bool {
    &&& forall|pp: int|
        0 <= pp < w0.num_entities() ==> (#[trigger] w.ent(pp).attachments).0@.len() == w0.ent(
            pp,
        ).attachments.0@.len()
    &&& forall|pp: int, k: int|
        0 <= pp < w0.num_entities() && 0 <= k < w0.ent(pp).attachments.0@.len() ==> {
            let a0 = w0.ent(pp).attachments.0@[k];
            let a1 = #[trigger] w.ent(pp).attachments.0@[k];
            &&& a1.id == a0.id
            &&& a1.max_size == a0.max_size
            &&& a1.transform == a0.transform
            &&& a1.accepted_types == a0.accepted_types
            &&& (a0.attached is Some ==> a1.attached == a0.attached)
            &&& match a1.attached {
                Some((c, jid)) => a0.attached == a1.attached || {
                    &&& a0.attached is None
                    &&& 0 <= c < w0.num_entities()
                    &&& w0.ent(c as int).request == Some(
                        WantToAttach::To { parent: pp as usize, aid: a0.id },
                    )
                    &&& in_staged(staged, c as int)
                },
                None => a0.attached is None,
            }
        }
}


/// Invariant of the staging pass after the first `upto` entities have been
/// examined, relating the pre-tick world `w0`, the current world `w` and
/// the staged tags gathered so far.
#[verifier::opaque]
pub open spec fn pass_one_inv(w0: World, w: World, staged: Seq<StagedTag>, upto: int) -> bool {
    &&& w.wf()
    &&& w.num_entities() == w0.num_entities()
    &&& w0.num_joints() <= w.num_joints()
    &&& forall|j: int| 0 <= j < w0.num_joints() ==> w.joint(j) == w0.joint(j)
    &&& forall|k: int|
        0 <= k < w0.num_entities() ==> same_except_attachments(#[trigger] w.ent(k), w0.ent(k))
    &&& attachments_evolve_staged(w0, w, staged)
    &&& forall|idx: int| 0 <= idx < staged.len() ==> staged_ok(w0, w, #[trigger] staged[idx])
    &&& forall|idx1: int, idx2: int|
        0 <= idx1 < idx2 < staged.len() ==> staged[idx1].entity < staged[idx2].entity
    &&& forall|idx: int| 0 <= idx < staged.len() ==> (#[trigger] staged[idx]).entity < upto
    &&& forall|e: int|
        0 <= e < upto && w0.ent(e).request == Some(WantToAttach::Me) && w0.ent(e).alive
            ==> in_staged(staged, e)
    &&& forall|e: int|
        0 <= e < upto ==> match (#[trigger] w0.ent(e)).request {
            Some(WantToAttach::To { parent, aid }) => {
                w0.ent(e).alive && to_ready(w0, e, parent as int, aid) ==> in_staged(staged, e)
                    || staged_competitor(w0, staged, e, parent, aid)
            },
            _ => true,
        }
    &&& forall|j: int|
        w0.num_joints() <= j < w.num_joints() ==> {
            let c = (#[trigger] w.joint(j)).child as int;
            &&& w.joint(j).alive
            &&& 0 <= c < w0.num_entities()
            &&& in_staged(staged, c)
            &&& match w0.ent(c).request {
                Some(WantToAttach::To { parent, aid }) => {
                    let point = w0.ent(parent as int).attachments.spec_get(aid)->Some_0;
                    &&& w.joint(j).parent == parent
                    &&& w.joint(j) == expected_joint(c as usize, parent, point, w0.ent(c))
                    &&& w.ent(parent as int).attachments.spec_get(aid)->Some_0.attached
                        == Some((c as usize, j as usize))
                },
                _ => false,
            }
        }
}

/// What the staging pass guarantees: its invariant, with every entity
/// examined.
pub open spec fn pass_one_post(w0: World, w1: World, staged: Seq<StagedTag>) -> bool {
    pass_one_inv(w0, w1, staged, w0.num_entities())
}

/// What the application pass guarantees, relating the world `w1` it
/// started from and the final world `w2`: unstaged entities and all joints
/// are untouched, and each staged entity got exactly its staged tag,
/// placement and visibility, with the intent removed.
pub open spec fn pass_two_post(w1: World, w2: World, staged: Seq<StagedTag>) -> bool {
    &&& w2.num_entities() == w1.num_entities()
    &&& w2.joints@ == w1.joints@
    &&& forall|k: int|
        0 <= k < w1.num_entities() && !in_staged(staged, k) ==> #[trigger] w2.ent(k) == w1.ent(k)
    &&& forall|idx: int|
        0 <= idx < staged.len() ==> #[trigger] w2.ent(staged[idx].entity as int) == apply_staged(
            w1.ent(staged[idx].entity as int),
            staged[idx],
        )
}

/// Frame facts of one tick: arena sizes, old joints, the core of every
/// entity, unresolved entities, and dead entities are all untouched.
#[verifier::opaque]
pub open spec fn tick_frames(w0: World, w2: World) -> bool {
    &&& w2.num_entities() == w0.num_entities()
    &&& w0.num_joints() <= w2.num_joints()
    &&& forall|j: int| 0 <= j < w0.num_joints() ==> w2.joint(j) == w0.joint(j)
    &&& forall|i: int| 0 <= i < w0.num_entities() ==> same_core(#[trigger] w2.ent(i), w0.ent(i))
    &&& forall|i: int|
        0 <= i < w0.num_entities() && !resolved(w0, w2, i) ==> same_except_attachments(
            #[trigger] w2.ent(i),
            w0.ent(i),
        )
}

/// The attachment maps evolved correctly over one tick.
#[verifier::opaque]
pub open spec fn tick_evolved(w0: World, w2: World) -> bool {
    attachments_evolve(w0, w2)
}

/// Every alive root intent committed, with its own entity as root tag; a
/// dead entity resolved nothing.
#[verifier::opaque]
pub open spec fn tick_roots(w0: World, w2: World) -> bool {
    &&& forall|i: int|
        0 <= i < w0.num_entities() && (#[trigger] w0.ent(i)).request == Some(WantToAttach::Me)
            && w0.ent(i).alive ==> {
            &&& resolved(w0, w2, i)
            &&& w2.ent(i).tag == ParentEntity::Robot(i as usize)
            &&& w2.ent(i).body == root_body(w0.ent(i))
            &&& w2.ent(i).visible
        }
    &&& forall|i: int|
        0 <= i < w0.num_entities() && (#[trigger] w0.ent(i)).request is Some && !w0.ent(i).alive
            ==> !resolved(w0, w2, i)
}

/// Every child intent that resolved did so against a ready target,
/// inheriting the parent's tag and placement and gaining a fresh joint.
#[verifier::opaque]
pub open spec fn tick_children_resolved(w0: World, w2: World) -> bool {
    forall|i: int|
        0 <= i < w0.num_entities() ==> match (#[trigger] w0.ent(i)).request {
            Some(WantToAttach::To { parent, aid }) => {
                let p = parent as int;
                let point = w0.ent(p).attachments.spec_get(aid)->Some_0;
                resolved(w0, w2, i) ==> {
                    let a1 = w2.ent(p).attachments.spec_get(aid)->Some_0;
                    let jid = a1.attached->Some_0.1 as int;
                    &&& w0.ent(i).alive
                    &&& to_ready(w0, i, p, aid)
                    &&& w2.ent(i).tag == w0.ent(p).tag
                    &&& w2.ent(i).body == committed_body(w0.ent(p).body, point, w0.ent(i))
                    &&& w2.ent(i).visible
                    &&& a1 == (Attachment {
                        attached: Some((i as usize, jid as usize)),
                        ..point
                    })
                    &&& w0.num_joints() <= jid < w2.num_joints()
                    &&& w2.joint(jid) == expected_joint(i as usize, parent, point, w0.ent(i))
                }
            },
            _ => true,
        }
}

/// Every alive child intent whose target was ready at the start of the
/// tick, and for which no other alive intent competed, resolved.
#[verifier::opaque]
pub open spec fn tick_children_progress(w0: World, w2: World) -> bool {
    forall|i: int|
        0 <= i < w0.num_entities() ==> match (#[trigger] w0.ent(i)).request {
            Some(WantToAttach::To { parent, aid }) => {
                w0.ent(i).alive && to_ready(w0, i, parent as int, aid) && (forall|k: int|
                    0 <= k < w0.num_entities() && k != i ==> !((#[trigger] w0.ent(k)).alive
                        && w0.ent(k).request == Some(WantToAttach::To { parent, aid })))
                    ==> resolved(w0, w2, i)
            },
            _ => true,
        }
}

/// The fate of the child intents over one tick.
#[verifier::opaque]
pub open spec fn tick_children(w0: World, w2: World) -> bool {
    &&& tick_children_resolved(w0, w2)
    &&& tick_children_progress(w0, w2)
}

/// Every joint beyond the pre-tick ones is the record of exactly one
/// commit, readable from the joint's own child field.
#[verifier::opaque]
pub open spec fn tick_joints_recorded(w0: World, w2: World) -> bool {
    forall|j: int|
        w0.num_joints() <= j < w2.num_joints() ==> {
            let c = (#[trigger] w2.joint(j)).child as int;
            &&& w2.joint(j).alive
            &&& 0 <= c < w0.num_entities()
            &&& resolved(w0, w2, c)
            &&& match w0.ent(c).request {
                Some(WantToAttach::To { parent, aid }) => {
                    let point = w0.ent(parent as int).attachments.spec_get(aid)->Some_0;
                    &&& w2.joint(j) == expected_joint(c as usize, parent, point, w0.ent(c))
                    &&& w2.ent(parent as int).attachments.spec_get(aid) == Some(Attachment {
                        attached: Some((c as usize, j as usize)),
                        ..point
                    })
                },
                _ => false,
            }
        }
}

/// The transition one tick of the protocol makes, from the pre-tick world
/// `w0` to the post-tick world `w2`: the frame facts, the evolution of the
/// attachment maps, and the fate of the root intents, the child intents
/// and the fresh joints. This is the contract of [`spawn_joints`], stated
/// once so that multi-tick reasoning can reuse it.
#[verifier::opaque]
pub open spec fn tick_post(w0: World, w2: World) -> bool {
    &&& tick_frames(w0, w2)
    &&& tick_evolved(w0, w2)
    &&& tick_roots(w0, w2)
    &&& tick_children(w0, w2)
    &&& tick_joints_recorded(w0, w2)
}

/// The point with identity `aid` on entity `p` sits at the same index
/// before and after pass-one evolution, and exists in one world exactly
/// when it exists in the other.
proof fn lemma_point_index_transfer(
    w0: World,
    w: World,
    staged: Seq<StagedTag>,
    p: int,
    aid: AttachmentPointId,
)
    requires
        w0.wf(),
        w.wf(),
        w.num_entities() == w0.num_entities(),
        0 <= p < w0.num_entities(),
        attachments_evolve_staged(w0, w, staged),
    ensures
        w.ent(p).attachments.contains_id(aid) == w0.ent(p).attachments.contains_id(aid),
        w.ent(p).attachments.contains_id(aid) ==> {
            let k = w.ent(p).attachments.index_of(aid);
            &&& 0 <= k < w0.ent(p).attachments.0@.len()
            &&& w0.ent(p).attachments.index_of(aid) == k
            &&& w.ent(p).attachments.spec_get(aid) == Some(w.ent(p).attachments.0@[k])
            &&& w0.ent(p).attachments.spec_get(aid) == Some(w0.ent(p).attachments.0@[k])
        },
{
    let m1 = w.ent(p).attachments;
    let m0 = w0.ent(p).attachments;
    assert(m1.0@.len() == m0.0@.len());
    assert forall|k: int| 0 <= k < m0.0@.len() implies #[trigger] m1.0@[k].id == m0.0@[k].id by {}
    if m0.contains_id(aid) {
        let k = choose|k: int| 0 <= k < m0.0@.len() && m0.0@[k].id == aid;
        assert(m1.0@[k].id == aid);
        assert(m1.contains_id(aid));
    }
    if m1.contains_id(aid) {
        let k = m1.index_of(aid);
        assert(0 <= k < m1.0@.len() && m1.0@[k].id == aid);
        assert(m0.0@[k].id == aid);
        assert(m0.contains_id(aid));
        let k0 = m0.index_of(aid);
        assert(0 <= k0 < m0.0@.len() && m0.0@[k0].id == aid);
        assert(m1.0@[k0].id == aid);
        assert(k0 == k);
    }
}

/// Extending the staged list never loses membership or competitors.
proof fn lemma_staged_monotone(staged: Seq<StagedTag>, st: StagedTag, w0: World)
    ensures
        forall|e: int| in_staged(staged, e) ==> in_staged(staged.push(st), e),
        in_staged(staged.push(st), st.entity as int),
        forall|e: int, p: usize, aid: AttachmentPointId|
            staged_competitor(w0, staged, e, p, aid) ==> staged_competitor(
                w0,
                staged.push(st),
                e,
                p,
                aid,
            ),
{
    assert forall|e: int| in_staged(staged, e) implies in_staged(staged.push(st), e) by {
        let idx = choose|idx: int|
            0 <= idx < staged.len() && #[trigger] staged[idx].entity as int == e;
        assert(staged.push(st)[idx].entity as int == e);
    }
    assert(staged.push(st)[staged.len() as int] == st);
    assert forall|e: int, p: usize, aid: AttachmentPointId|
        staged_competitor(w0, staged, e, p, aid) implies staged_competitor(
        w0,
        staged.push(st),
        e,
        p,
        aid,
    ) by {
        let idx = choose|idx: int|
            {
                &&& 0 <= idx < staged.len()
                &&& (#[trigger] staged[idx]).entity as int != e
                &&& w0.ent(staged[idx].entity as int).request == Some(
                    WantToAttach::To { parent: p, aid },
                )
            };
        assert((staged.push(st)[idx]).entity as int != e);
        assert(0 <= idx < staged.push(st).len());
    }
}

/// The pass-one invariant holds at the start of the pass, before any
/// entity is examined.
proof fn lemma_inv_init(w0: World)
    requires
        w0.wf(),
    ensures
        pass_one_inv(w0, w0, Seq::<StagedTag>::empty(), 0),
{
    reveal(pass_one_inv);
    assert forall|k: int|
        0 <= k < w0.num_entities() implies same_except_attachments(
        #[trigger] w0.ent(k),
        w0.ent(k),
    ) by {}
}

/// The facts of the pass-one invariant that the staging loop reads
/// directly: sizes, framing, and well-formedness.
proof fn lemma_inv_parts(w0: World, w: World, staged: Seq<StagedTag>, upto: int)
    requires
        pass_one_inv(w0, w, staged, upto),
    ensures
        w.wf(),
        w.num_entities() == w0.num_entities(),
        forall|k: int|
            0 <= k < w0.num_entities() ==> same_except_attachments(
                #[trigger] w.ent(k),
                w0.ent(k),
            ),
{
    reveal(pass_one_inv);
}

/// Stepping past an entity that stages nothing keeps the pass-one
/// invariant, provided the entity itself demanded nothing: a root intent
/// must not be alive, and a ready child intent must already be staged or
/// outrun by a staged competitor.
proof fn lemma_skip_step(w0: World, w: World, staged: Seq<StagedTag>, i: int)
    requires
        0 <= i < w0.num_entities(),
        pass_one_inv(w0, w, staged, i),
        match w0.ent(i).request {
            Some(WantToAttach::Me) => !w0.ent(i).alive,
            Some(WantToAttach::To { parent, aid }) => {
                w0.ent(i).alive && to_ready(w0, i, parent as int, aid) ==> in_staged(staged, i)
                    || staged_competitor(w0, staged, i, parent, aid)
            },
            None => true,
        },
    ensures
        pass_one_inv(w0, w, staged, i + 1),
{
    reveal(pass_one_inv);
}

/// Stepping past an alive root intent that was just staged keeps the
/// pass-one invariant.
#[verifier::spinoff_prover]
#[verifier::rlimit(100)]
proof fn lemma_me_step(w0: World, w: World, staged: Seq<StagedTag>, st: StagedTag, i: usize)
    requires
        0 <= i < w0.num_entities(),
        pass_one_inv(w0, w, staged, i as int),
        w0.ent(i as int).request == Some(WantToAttach::Me),
        w0.ent(i as int).alive,
        st == (StagedTag {
            entity: i,
            tag: ParentEntity::Robot(i),
            body: root_body(w0.ent(i as int)),
        }),
    ensures
        pass_one_inv(w0, w, staged.push(st), i as int + 1),
{
    reveal(pass_one_inv);
    let n = w0.num_entities();
    let staged2 = staged.push(st);
    lemma_staged_monotone(staged, st, w0);
    assert(staged_ok(w0, w, st));
    assert forall|idx: int|
        0 <= idx < staged2.len() implies staged_ok(w0, w, #[trigger] staged2[idx]) by {
        if idx < staged.len() {
            assert(staged2[idx] == staged[idx]);
            assert(staged_ok(w0, w, staged[idx]));
        } else {
            assert(staged2[idx] == st);
        }
    }
    assert(attachments_evolve_staged(w0, w, staged2)) by {
        assert forall|pp: int, k: int|
            0 <= pp < n && 0 <= k < w0.ent(pp).attachments.0@.len() implies {
                let a0 = w0.ent(pp).attachments.0@[k];
                let a1 = #[trigger] w.ent(pp).attachments.0@[k];
                &&& a1.id == a0.id
                &&& a1.max_size == a0.max_size
                &&& a1.transform == a0.transform
                &&& a1.accepted_types == a0.accepted_types
                &&& (a0.attached is Some ==> a1.attached == a0.attached)
                &&& match a1.attached {
                    Some((c, j2)) => a0.attached == a1.attached || {
                        &&& a0.attached is None
                        &&& 0 <= c < n
                        &&& w0.ent(c as int).request == Some(
                            WantToAttach::To { parent: pp as usize, aid: a0.id },
                        )
                        &&& in_staged(staged2, c as int)
                    },
                    None => a0.attached is None,
                }
            } by {
            assert(attachments_evolve_staged(w0, w, staged));
        }
    }
    assert forall|e: int|
        0 <= e < i as int + 1 && w0.ent(e).request == Some(WantToAttach::Me) && w0.ent(e).alive
            implies in_staged(staged2, e) by {
        if e < i as int {
            assert(in_staged(staged, e));
        } else {
            assert(staged2[staged.len() as int].entity as int == e);
        }
    }
    assert forall|j: int|
        w0.num_joints() <= j < w.num_joints() implies {
            let c = (#[trigger] w.joint(j)).child as int;
            &&& w.joint(j).alive
            &&& 0 <= c < w0.num_entities()
            &&& in_staged(staged2, c)
            &&& match w0.ent(c).request {
                Some(WantToAttach::To { parent, aid }) => {
                    let point = w0.ent(parent as int).attachments.spec_get(aid)->Some_0;
                    &&& w.joint(j).parent == parent
                    &&& w.joint(j) == expected_joint(c as usize, parent, point, w0.ent(c))
                    &&& w.ent(parent as int).attachments.spec_get(aid)->Some_0.attached
                        == Some((c as usize, j as usize))
                },
                _ => false,
            }
        } by {
        let c = w.joint(j).child as int;
        assert(in_staged(staged, c));
    }
}

/// Stepping past a child intent whose target is not ready in the current
/// world keeps the pass-one invariant: either it was never ready, or a
/// staged competitor filled the point this very tick.
#[verifier::spinoff_prover]
#[verifier::rlimit(100)]
proof fn lemma_reject_step(
    w0: World,
    w: World,
    staged: Seq<StagedTag>,
    i: usize,
    parent: usize,
    aid: AttachmentPointId,
)
    requires
        w0.wf(),
        0 <= i < w0.num_entities(),
        pass_one_inv(w0, w, staged, i as int),
        w0.ent(i as int).request == Some(WantToAttach::To { parent, aid }),
        !to_ready(w, i as int, parent as int, aid),
    ensures
        pass_one_inv(w0, w, staged, i as int + 1),
{
    reveal(pass_one_inv);
    let n = w0.num_entities();
    let p = parent as int;
    if w0.ent(i as int).alive && to_ready(w0, i as int, p, aid) {
        assert(same_except_attachments(w.ent(p), w0.ent(p)));
        assert(same_except_attachments(w.ent(i as int), w0.ent(i as int)));
        lemma_point_index_transfer(w0, w, staged, p, aid);
        assert(w.ent(p).attachments.contains_id(aid));
        let k0 = w.ent(p).attachments.index_of(aid);
        let a0 = w0.ent(p).attachments.0@[k0];
        let a1 = w.ent(p).attachments.0@[k0];
        assert(a0.attached is None);
        assert(a1.spec_compatible(w.ent(i as int).item_size, w.ent(i as int).item_type)) by {
            assert(a1.accepted_types == a0.accepted_types);
            assert(a0.spec_compatible(w0.ent(i as int).item_size, w0.ent(i as int).item_type));
        }
        match a1.attached {
            Some((c, j2)) => {
                assert(in_staged(staged, c as int));
                assert(w0.ent(c as int).request == Some(WantToAttach::To { parent, aid }));
                assert(c as int != i as int) by {
                    let idx = choose|idx: int|
                        0 <= idx < staged.len() && #[trigger] staged[idx].entity as int
                            == c as int;
                    assert(staged[idx].entity < i);
                }
                assert(staged_competitor(w0, staged, i as int, parent, aid)) by {
                    let idx = choose|idx: int|
                        0 <= idx < staged.len() && #[trigger] staged[idx].entity as int
                            == c as int;
                    assert((staged[idx]).entity as int != i as int);
                }
            },
            None => {
                assert(!to_ready(w, i as int, p, aid));
                assert(false);
            },
        }
    }
}

/// The exact shape of one commit: relative to the world `wpre` at the
/// start of the step, the world `w` holds one appended joint, the filled
/// point on the parent, and nothing else changed; `st` is the staged entry
/// built for the committing child `i`.
#[verifier::opaque]
pub open spec fn commit_shape(
    w0: World,
    wpre: World,
    w: World,
    st: StagedTag,
    i: usize,
    parent: usize,
    aid: AttachmentPointId,
    jid: usize,
) -> bool {
    let point1 = wpre.ent(parent as int).attachments.spec_get(aid)->Some_0;
    let m1 = wpre.ent(parent as int).attachments;
    let m2 = w.ent(parent as int).attachments;
    &&& i < w0.num_entities()
    &&& parent < w0.num_entities()
    &&& wpre.ent(i as int).request == Some(WantToAttach::To { parent, aid })
    &&& wpre.ent(i as int).alive
    &&& wpre.ent(parent as int).alive
    &&& wpre.ent(parent as int).tag != ParentEntity::WaitForAttach
    &&& wpre.ent(parent as int).attachments.contains_id(aid)
    &&& point1.attached is None
    &&& point1.spec_compatible(wpre.ent(i as int).item_size, wpre.ent(i as int).item_type)
    &&& jid == wpre.num_joints()
    &&& w.num_entities() == wpre.num_entities()
    &&& w.num_joints() <= usize::MAX
    &&& w.joints@ == wpre.joints@.push(expected_joint(i, parent, point1, wpre.ent(i as int)))
    &&& forall|k: int|
        0 <= k < w.num_entities() && k != parent as int ==> #[trigger] w.ent(k) == wpre.ent(k)
    &&& same_except_attachments(w.ent(parent as int), wpre.ent(parent as int))
    &&& m2.wf()
    &&& m2.0@.len() == m1.0@.len()
    &&& forall|q: AttachmentPointId| m2.contains_id(q) == m1.contains_id(q)
    &&& m2.spec_get(aid) == Some(Attachment { attached: Some((i, jid)), ..point1 })
    &&& forall|q: AttachmentPointId| q != aid ==> m2.spec_get(q) == m1.spec_get(q)
    &&& forall|k: int| 0 <= k < m1.0@.len() && m1.0@[k].id != aid ==> m2.0@[k] == m1.0@[k]
    &&& st == (StagedTag {
        entity: i,
        tag: wpre.ent(parent as int).tag,
        body: committed_body(wpre.ent(parent as int).body, point1, wpre.ent(i as int)),
    })
}

/// Ground facts of a commit: the filled point sits at one index in both
/// worlds, the pre-step point equals the pre-tick point, and the child's
/// intent was ready at the start of the tick.
proof fn lemma_commit_ground(
    w0: World,
    wpre: World,
    w: World,
    staged: Seq<StagedTag>,
    st: StagedTag,
    i: usize,
    parent: usize,
    aid: AttachmentPointId,
    jid: usize,
)
    requires
        w0.wf(),
        wpre.wf(),
        wpre.num_entities() == w0.num_entities(),
        w0.num_joints() <= wpre.num_joints(),
        forall|k: int|
            0 <= k < w0.num_entities() ==> same_except_attachments(
                #[trigger] wpre.ent(k),
                w0.ent(k),
            ),
        attachments_evolve_staged(w0, wpre, staged),
        commit_shape(w0, wpre, w, st, i, parent, aid, jid),
    ensures
        ({
            let k0 = wpre.ent(parent as int).attachments.index_of(aid);
            let point0 = w0.ent(parent as int).attachments.0@[k0];
            &&& 0 <= k0 < w0.ent(parent as int).attachments.0@.len()
            &&& w0.ent(parent as int).attachments.index_of(aid) == k0
            &&& wpre.ent(parent as int).attachments.spec_get(aid) == Some(point0)
            &&& w0.ent(parent as int).attachments.spec_get(aid) == Some(point0)
            &&& point0.attached is None
            &&& point0.id == aid
            &&& w.ent(parent as int).attachments.index_of(aid) == k0
            &&& w.ent(parent as int).attachments.0@[k0] == (Attachment {
                attached: Some((i, jid)),
                ..point0
            })
            &&& w0.ent(i as int).request == Some(WantToAttach::To { parent, aid })
            &&& w0.ent(i as int).alive
            &&& to_ready(w0, i as int, parent as int, aid)
            &&& w.joint(jid as int) == expected_joint(i, parent, point0, w0.ent(i as int))
            &&& st.tag == w0.ent(parent as int).tag
            &&& st.body == committed_body(
                w0.ent(parent as int).body,
                point0,
                w0.ent(i as int),
            )
        }),
{
    reveal(commit_shape);
    let p = parent as int;
    let m1 = wpre.ent(p).attachments;
    let m2 = w.ent(p).attachments;
    let point1 = m1.spec_get(aid)->Some_0;
    lemma_point_index_transfer(w0, wpre, staged, p, aid);
    let k0 = m1.index_of(aid);
    let point0 = w0.ent(p).attachments.0@[k0];
    assert(point1 == m1.0@[k0]);
    assert(point1.id == point0.id && point1.max_size == point0.max_size && point1.transform
        == point0.transform && point1.accepted_types == point0.accepted_types);
    assert(point0.attached is None);
    assert(point1 == point0);
    assert(m2.contains_id(aid));
    assert(m2.index_of(aid) == k0) by {
        let kk = m2.index_of(aid);
        assert(0 <= kk < m2.0@.len() && m2.0@[kk].id == aid);
        if kk != k0 {
            assert(m1.0@[kk].id != aid) by {
                assert(m1.wf());
                assert(m1.0@[k0].id == aid);
            }
            assert(m2.0@[kk] == m1.0@[kk]);
            assert(false);
        }
    }
    assert(m2.0@[k0] == Attachment { attached: Some((i, jid)), ..point0 });
    assert(same_except_attachments(wpre.ent(i as int), w0.ent(i as int)));
    assert(same_except_attachments(wpre.ent(p), w0.ent(p)));
    assert(to_ready(w0, i as int, p, aid)) by {
        assert(point0.spec_compatible(w0.ent(i as int).item_size, w0.ent(i as int).item_type));
    }
    assert(w.joint(jid as int) == expected_joint(i, parent, point0, w0.ent(i as int))) by {
        assert(wpre.ent(i as int) == (EntityRec {
            attachments: wpre.ent(i as int).attachments,
            ..w0.ent(i as int)
        }));
    }
}

/// After a commit, every staged entry — the old ones and the new one — is
/// correct.
#[verifier::spinoff_prover]
proof fn lemma_commit_staged_ok(
    w0: World,
    wpre: World,
    w: World,
    staged: Seq<StagedTag>,
    st: StagedTag,
    i: usize,
    parent: usize,
    aid: AttachmentPointId,
    jid: usize,
)
    requires
        w0.wf(),
        wpre.wf(),
        wpre.num_entities() == w0.num_entities(),
        w0.num_joints() <= wpre.num_joints(),
        forall|k: int|
            0 <= k < w0.num_entities() ==> same_except_attachments(
                #[trigger] wpre.ent(k),
                w0.ent(k),
            ),
        attachments_evolve_staged(w0, wpre, staged),
        commit_shape(w0, wpre, w, st, i, parent, aid, jid),
        forall|idx: int| 0 <= idx < staged.len() ==> staged_ok(w0, wpre, #[trigger] staged[idx]),
    ensures
        forall|idx: int|
            0 <= idx < staged.push(st).len() ==> staged_ok(
                w0,
                w,
                #[trigger] staged.push(st)[idx],
            ),
{
    reveal(commit_shape);
    let p = parent as int;
    lemma_commit_ground(w0, wpre, w, staged, st, i, parent, aid, jid);
    let k0 = wpre.ent(p).attachments.index_of(aid);
    let point0 = w0.ent(p).attachments.0@[k0];
    assert(staged_ok(w0, w, st)) by {
        assert(w0.num_joints() <= jid as int && (jid as int) < w.num_joints());
        assert(w.ent(p).attachments.spec_get(aid) == Some(Attachment {
            attached: Some((i, jid)),
            ..point0
        }));
        assert(w.joint(jid as int) == expected_joint(i, parent, point0, w0.ent(i as int)));
        assert(w.joint(jid as int).child == i);
        assert(w.joint(jid as int).parent == parent);
    }
    assert forall|idx: int|
        0 <= idx < staged.len() implies staged_ok(w0, w, #[trigger] staged[idx]) by {
        let e = staged[idx].entity as int;
        assert(staged_ok(w0, wpre, staged[idx]));
        match w0.ent(e).request {
            Some(WantToAttach::To { parent: p2, aid: aid2 }) => {
                let pp = p2 as int;
                assert(to_ready(w0, e, pp, aid2));
                if pp == p && aid2 == aid {
                    assert(wpre.ent(p).attachments.spec_get(aid)->Some_0.attached is None);
                    assert(false);
                }
                if pp != p {
                    assert(w.ent(pp) == wpre.ent(pp));
                }
                assert(w.ent(pp).attachments.spec_get(aid2) == wpre.ent(
                    pp,
                ).attachments.spec_get(aid2));
                assert(w.ent(pp).attachments.contains_id(aid2) == wpre.ent(
                    pp,
                ).attachments.contains_id(aid2));
                let jid2 = wpre.ent(pp).attachments.spec_get(aid2)->Some_0.attached->Some_0.1;
                assert(w.joint(jid2 as int) == wpre.joint(jid2 as int));
            },
            _ => {},
        }
    }
    assert forall|idx: int|
        0 <= idx < staged.push(st).len() implies staged_ok(
        w0,
        w,
        #[trigger] staged.push(st)[idx],
    ) by {
        if idx < staged.len() {
            assert(staged.push(st)[idx] == staged[idx]);
        } else {
            assert(staged.push(st)[idx] == st);
        }
    }
}

/// After a commit, the attachment maps still evolve correctly, the fresh
/// occupant being staged.
#[verifier::spinoff_prover]
proof fn lemma_commit_evolve(
    w0: World,
    wpre: World,
    w: World,
    staged: Seq<StagedTag>,
    st: StagedTag,
    i: usize,
    parent: usize,
    aid: AttachmentPointId,
    jid: usize,
)
    requires
        w0.wf(),
        wpre.wf(),
        wpre.num_entities() == w0.num_entities(),
        w0.num_joints() <= wpre.num_joints(),
        forall|k: int|
            0 <= k < w0.num_entities() ==> same_except_attachments(
                #[trigger] wpre.ent(k),
                w0.ent(k),
            ),
        attachments_evolve_staged(w0, wpre, staged),
        commit_shape(w0, wpre, w, st, i, parent, aid, jid),
    ensures
        attachments_evolve_staged(w0, w, staged.push(st)),
{
    reveal(commit_shape);
    let n = w0.num_entities();
    let p = parent as int;
    let m1 = wpre.ent(p).attachments;
    let m2 = w.ent(p).attachments;
    lemma_commit_ground(w0, wpre, w, staged, st, i, parent, aid, jid);
    lemma_staged_monotone(staged, st, w0);
    let staged2 = staged.push(st);
    let k0 = m1.index_of(aid);
    let point0 = w0.ent(p).attachments.0@[k0];
    assert forall|pp: int|
        0 <= pp < n implies (#[trigger] w.ent(pp).attachments).0@.len() == w0.ent(
        pp,
    ).attachments.0@.len() by {
        if pp != p {
            assert(w.ent(pp) == wpre.ent(pp));
        }
    }
    assert forall|pp: int, k: int|
        0 <= pp < n && 0 <= k < w0.ent(pp).attachments.0@.len() implies {
            let a0 = w0.ent(pp).attachments.0@[k];
            let a1 = #[trigger] w.ent(pp).attachments.0@[k];
            &&& a1.id == a0.id
            &&& a1.max_size == a0.max_size
            &&& a1.transform == a0.transform
            &&& a1.accepted_types == a0.accepted_types
            &&& (a0.attached is Some ==> a1.attached == a0.attached)
            &&& match a1.attached {
                Some((c, j2)) => a0.attached == a1.attached || {
                    &&& a0.attached is None
                    &&& 0 <= c < n
                    &&& w0.ent(c as int).request == Some(
                        WantToAttach::To { parent: pp as usize, aid: a0.id },
                    )
                    &&& in_staged(staged2, c as int)
                },
                None => a0.attached is None,
            }
        } by {
        if pp != p {
            assert(w.ent(pp) == wpre.ent(pp));
        } else {
            if k != k0 {
                assert(m1.0@[k].id != aid) by {
                    assert(m1.wf());
                    assert(m1.0@[k0].id == aid);
                }
                assert(m2.0@[k] == m1.0@[k]);
            } else {
                assert(m2.0@[k0] == Attachment { attached: Some((i, jid)), ..point0 });
                assert(in_staged(staged2, i as int));
            }
        }
    }
}

/// After a commit, every joint beyond the pre-tick ones is recorded at its
/// point, and the world is still well-formed.
#[verifier::spinoff_prover]
#[verifier::rlimit(100)]
proof fn lemma_commit_joints_wf(
    w0: World,
    wpre: World,
    w: World,
    staged: Seq<StagedTag>,
    st: StagedTag,
    i: usize,
    parent: usize,
    aid: AttachmentPointId,
    jid: usize,
)
    requires
        w0.wf(),
        wpre.wf(),
        wpre.num_entities() == w0.num_entities(),
        w0.num_joints() <= wpre.num_joints(),
        forall|k: int|
            0 <= k < w0.num_entities() ==> same_except_attachments(
                #[trigger] wpre.ent(k),
                w0.ent(k),
            ),
        attachments_evolve_staged(w0, wpre, staged),
        commit_shape(w0, wpre, w, st, i, parent, aid, jid),
        forall|idx: int| 0 <= idx < staged.len() ==> staged_ok(w0, wpre, #[trigger] staged[idx]),
        forall|j: int|
            w0.num_joints() <= j < wpre.num_joints() ==> {
                let c = (#[trigger] wpre.joint(j)).child as int;
                &&& wpre.joint(j).alive
                &&& 0 <= c < w0.num_entities()
                &&& in_staged(staged, c)
                &&& match w0.ent(c).request {
                    Some(WantToAttach::To { parent: p3, aid: aid3 }) => {
                        let point = w0.ent(p3 as int).attachments.spec_get(aid3)->Some_0;
                        &&& wpre.joint(j).parent == p3
                        &&& wpre.joint(j) == expected_joint(c as usize, p3, point, w0.ent(c))
                        &&& wpre.ent(p3 as int).attachments.spec_get(aid3)->Some_0.attached
                            == Some((c as usize, j as usize))
                    },
                    _ => false,
                }
            },
    ensures
        w.wf(),
        forall|j: int|
            w0.num_joints() <= j < w.num_joints() ==> {
                let c = (#[trigger] w.joint(j)).child as int;
                &&& w.joint(j).alive
                &&& 0 <= c < w0.num_entities()
                &&& in_staged(staged.push(st), c)
                &&& match w0.ent(c).request {
                    Some(WantToAttach::To { parent: p2, aid: aid2 }) => {
                        let point = w0.ent(p2 as int).attachments.spec_get(aid2)->Some_0;
                        &&& w.joint(j).parent == p2
                        &&& w.joint(j) == expected_joint(c as usize, p2, point, w0.ent(c))
                        &&& w.ent(p2 as int).attachments.spec_get(aid2)->Some_0.attached
                            == Some((c as usize, j as usize))
                    },
                    _ => false,
                }
            },
{
    reveal(commit_shape);
    let n = w0.num_entities();
    let p = parent as int;
    let m1 = wpre.ent(p).attachments;
    let m2 = w.ent(p).attachments;
    lemma_commit_ground(w0, wpre, w, staged, st, i, parent, aid, jid);
    let staged2 = staged.push(st);
    let k0 = m1.index_of(aid);
    let point0 = w0.ent(p).attachments.0@[k0];
    lemma_staged_monotone(staged, st, w0);
    assert forall|j: int|
        w0.num_joints() <= j < w.num_joints() implies {
            let c = (#[trigger] w.joint(j)).child as int;
            &&& w.joint(j).alive
            &&& 0 <= c < w0.num_entities()
            &&& in_staged(staged2, c)
            &&& match w0.ent(c).request {
                Some(WantToAttach::To { parent: p2, aid: aid2 }) => {
                    let point = w0.ent(p2 as int).attachments.spec_get(aid2)->Some_0;
                    &&& w.joint(j).parent == p2
                    &&& w.joint(j) == expected_joint(c as usize, p2, point, w0.ent(c))
                    &&& w.ent(p2 as int).attachments.spec_get(aid2)->Some_0.attached
                        == Some((c as usize, j as usize))
                },
                _ => false,
            }
        } by {
        if j < wpre.num_joints() {
            assert(w.joint(j) == wpre.joint(j));
            let c = wpre.joint(j).child as int;
            assert(in_staged(staged, c));
            assert(in_staged(staged2, c));
            match w0.ent(c).request {
                Some(WantToAttach::To { parent: p2, aid: aid2 }) => {
                    let idx = choose|idx: int|
                        0 <= idx < staged.len() && #[trigger] staged[idx].entity as int == c;
                    assert(staged_ok(w0, wpre, staged[idx]));
                    assert(to_ready(w0, c, p2 as int, aid2));
                    assert(0 <= p2 as int && (p2 as int) < w0.num_entities());
                    if p2 as int == p && aid2 == aid {
                        assert(wpre.ent(p).attachments.spec_get(aid)->Some_0.attached
                            is None);
                        assert(false);
                    }
                    if p2 as int != p {
                        assert(w.ent(p2 as int) == wpre.ent(p2 as int));
                    }
                    assert(w.ent(p2 as int).attachments.spec_get(aid2) == wpre.ent(
                        p2 as int,
                    ).attachments.spec_get(aid2));
                },
                _ => {
                    assert(false);
                },
            }
        } else {
            assert(j == jid as int);
            assert(w.joint(j).child == i);
            assert(in_staged(staged2, i as int));
            assert(w.ent(p).attachments.spec_get(aid)->Some_0.attached == Some((i, jid)));
        }
    }
    assert(w.wf()) by {
        assert forall|k: int| 0 <= k < w.num_entities() implies {
            &&& (#[trigger] w.ent(k)).attachments.wf()
            &&& forall|kk: int|
                0 <= kk < w.ent(k).attachments.0@.len() ==> {
                    let at = #[trigger] w.ent(k).attachments.0@[kk];
                    at.attached matches Some((c, j)) ==> 0 <= c < w.num_entities() && 0 <= j
                        < w.num_joints()
                }
        } by {
            if k != p {
                assert(w.ent(k) == wpre.ent(k));
                assert(wpre.wf());
                assert forall|kk: int|
                    0 <= kk < w.ent(k).attachments.0@.len() implies {
                        let at = #[trigger] w.ent(k).attachments.0@[kk];
                        at.attached matches Some((c, j)) ==> 0 <= c < w.num_entities() && 0
                            <= j < w.num_joints()
                    } by {
                    assert(wpre.ent(k).attachments.0@[kk] == w.ent(k).attachments.0@[kk]);
                }
            } else {
                assert(m2.wf());
                assert forall|kk: int|
                    0 <= kk < m2.0@.len() implies {
                        let at = #[trigger] m2.0@[kk];
                        at.attached matches Some((c, j)) ==> 0 <= c < w.num_entities() && 0
                            <= j < w.num_joints()
                    } by {
                    if kk == k0 {
                        assert(m2.0@[k0].attached == Some((i, jid)));
                    } else {
                        assert(m1.0@[kk].id != aid) by {
                            assert(m1.wf());
                            assert(m1.0@[k0].id == aid);
                        }
                        assert(m2.0@[kk] == m1.0@[kk]);
                        assert(wpre.wf());
                    }
                }
            }
        }
    }
}

/// Stepping past the entity `i` whose child intent just committed keeps
/// the pass-one invariant.
#[verifier::spinoff_prover]
#[verifier::rlimit(100)]
proof fn lemma_commit_step(
    w0: World,
    wpre: World,
    w: World,
    staged: Seq<StagedTag>,
    st: StagedTag,
    i: usize,
    parent: usize,
    aid: AttachmentPointId,
    jid: usize,
)
    requires
        w0.wf(),
        pass_one_inv(w0, wpre, staged, i as int),
        commit_shape(w0, wpre, w, st, i, parent, aid, jid),
    ensures
        pass_one_inv(w0, w, staged.push(st), i as int + 1),
{
    reveal(pass_one_inv);
    reveal(commit_shape);
    let n = w0.num_entities();
    let staged2 = staged.push(st);
    lemma_commit_ground(w0, wpre, w, staged, st, i, parent, aid, jid);
    lemma_commit_staged_ok(w0, wpre, w, staged, st, i, parent, aid, jid);
    lemma_commit_evolve(w0, wpre, w, staged, st, i, parent, aid, jid);
    lemma_commit_joints_wf(w0, wpre, w, staged, st, i, parent, aid, jid);
    lemma_staged_monotone(staged, st, w0);
    assert forall|k: int|
        0 <= k < n implies same_except_attachments(#[trigger] w.ent(k), w0.ent(k)) by {
        if k != parent as int {
            assert(w.ent(k) == wpre.ent(k));
        } else {
            assert(same_except_attachments(w.ent(k), wpre.ent(k)));
        }
    }
    assert forall|e: int|
        0 <= e < i as int + 1 && w0.ent(e).request == Some(WantToAttach::Me) && w0.ent(e).alive
            implies in_staged(staged2, e) by {
        if e < i as int {
            assert(in_staged(staged, e));
        } else {
            assert(w0.ent(i as int).request == Some(WantToAttach::To { parent, aid }));
        }
    }
    assert forall|e: int| 0 <= e < i as int + 1 implies match (#[trigger] w0.ent(e)).request {
        Some(WantToAttach::To { parent: p2, aid: aid2 }) => {
            w0.ent(e).alive && to_ready(w0, e, p2 as int, aid2) ==> in_staged(staged2, e)
                || staged_competitor(w0, staged2, e, p2, aid2)
        },
        _ => true,
    } by {
        match w0.ent(e).request {
            Some(WantToAttach::To { parent: p2, aid: aid2 }) => {
                if e < i as int {
                    if w0.ent(e).alive && to_ready(w0, e, p2 as int, aid2) {
                        assert(in_staged(staged, e) || staged_competitor(
                            w0,
                            staged,
                            e,
                            p2,
                            aid2,
                        ));
                    }
                } else {
                    assert(in_staged(staged2, e));
                }
            },
            _ => {},
        }
    }
}

/// Commit one resolvable child intent: create its joint, record it as the
/// occupant of the point, and hand back the staged tag for pass two.
#[verifier::spinoff_prover]
#[verifier::loop_isolation(false)]
#[verifier::rlimit(40)]
fn commit_request(
    w: &mut World,
    i: usize,
    parent: usize,
    aid: AttachmentPointId,
    Ghost(w0): Ghost<World>,
    Ghost(staged_pre): Ghost<Seq<StagedTag>>,
) -> (st: StagedTag)
    requires
        w0.wf(),
        pass_one_inv(w0, *old(w), staged_pre, i as int),
        i < w0.num_entities(),
        old(w).ent(i as int).request == Some(WantToAttach::To { parent, aid }),
        old(w).ent(i as int).alive,
        to_ready(*old(w), i as int, parent as int, aid),
    ensures
        pass_one_inv(w0, *final(w), staged_pre.push(st), i as int + 1),
{
    let ghost wpre = *old(w);
    proof {
        reveal(commit_shape);
        lemma_inv_parts(w0, wpre, staged_pre, i as int);
        assert(wpre.ent(parent as int).attachments.wf());
    }
    let mut ptx: i64 = 0;
    let mut pty: i64 = 0;
    let mut ptz: i64 = 0;
    let mut ptrot: i64 = 0;
    match w.entities[parent].attachments.get(aid) {
        Some(point) => {
            ptx = point.transform.x;
            pty = point.transform.y;
            ptz = point.transform.z;
            ptrot = point.transform.rot;
        },
        None => {
            proof {
                assert(false);
            }
        },
    }
    let jt_i = w.entities[i].joint_type;
    let ox = w.entities[i].origin_x;
    let oy = w.entities[i].origin_y;
    let body_i = w.entities[i].body;
    let p_tag = w.entities[parent].tag;
    let p_body = w.entities[parent].body;
    let jid = w.joints.len();
    let joint = JointRec {
        alive: true,
        parent,
        child: i,
        kind: jt_i,
        anchor_x: ptx,
        anchor_y: pty,
        anchor_rot: ptrot,
        child_anchor_x: ox,
        child_anchor_y: oy,
        motor: JointMotor {
            target_velocity: 0,
            damping: if jt_i == JointType::Ball {
                BALL_MOTOR_DAMPING
            } else {
                0
            },
            position: 0,
            limit_min: 0,
            limit_max: 0,
        },
    };
    proof {
        let point1 = wpre.ent(parent as int).attachments.spec_get(aid)->Some_0;
        assert(joint == expected_joint(i, parent, point1, wpre.ent(i as int)));
    }
    w.joints.push(joint);
    let total_joints = w.joints.len();
    proof {
        assert(w.num_joints() == total_joints as int);
    }
    let pe = &mut w.entities[parent];
    pe.attachments.set_attached(aid, i, jid);
    let st = StagedTag {
        entity: i,
        tag: p_tag,
        body: RigidBody {
            x: clamp_add_sub(p_body.x, ptx, ox),
            y: clamp_add_sub(p_body.y, pty, oy),
            z: clamp_add(p_body.z, ptz),
            rot: clamp_add(p_body.rot, ptrot),
            force_x: body_i.force_x,
            force_y: body_i.force_y,
            torque: body_i.torque,
        },
    };
    proof {
        let point1 = wpre.ent(parent as int).attachments.spec_get(aid)->Some_0;
        assert(st.body == committed_body(
            wpre.ent(parent as int).body,
            point1,
            wpre.ent(i as int),
        ));
        assert(w.joints@ == wpre.joints@.push(
            expected_joint(i, parent, point1, wpre.ent(i as int)),
        ));
        assert forall|k: int|
            0 <= k < w.num_entities() && k != parent as int implies #[trigger] w.ent(k)
                == wpre.ent(k) by {}
        assert(same_except_attachments(w.ent(parent as int), wpre.ent(parent as int)));
        assert(commit_shape(w0, wpre, *w, st, i, parent, aid, jid));
        lemma_commit_step(w0, wpre, *w, staged_pre, st, i, parent, aid, jid);
    }
    st
}

/// Pass one of a tick: examine every entity in id order, commit each
/// resolvable child intent — joint created, occupant recorded — and gather
/// the staged tag of every intent that resolves this tick.
#[verifier::spinoff_prover]
#[verifier::loop_isolation(false)]
#[verifier::rlimit(40)]
fn stage_requests(w: &mut World) -> (staged: Vec<StagedTag>)
    requires
        old(w).wf(),
    ensures
        pass_one_post(*old(w), *final(w), staged@),
{
    let ghost w0 = *old(w);
    let n = w.entities.len();
    let mut staged: Vec<StagedTag> = Vec::new();
    proof {
        lemma_inv_init(w0);
        assert(staged@ =~= Seq::<StagedTag>::empty());
    }
    let mut i: usize = 0;
    while i < n
        invariant
            i <= n,
            n == w0.num_entities(),
            pass_one_inv(w0, *w, staged@, i as int),
        decreases n - i,
    {
        let ghost wpre = *w;
        let ghost staged_pre = staged@;
        proof {
            lemma_inv_parts(w0, *w, staged@, i as int);
            assert(same_except_attachments(w.ent(i as int), w0.ent(i as int)));
        }
        let req = w.entities[i].request;
        let alive_i = w.entities[i].alive;
        match req {
            None => {
                proof {
                    lemma_skip_step(w0, *w, staged@, i as int);
                }
            },
            Some(WantToAttach::Me) => {
                if alive_i {
                    let ox = w.entities[i].origin_x;
                    let oy = w.entities[i].origin_y;
                    let body0 = w.entities[i].body;
                    let st = StagedTag {
                        entity: i,
                        tag: ParentEntity::Robot(i),
                        body: RigidBody {
                            x: ox,
                            y: oy,
                            z: ROOT_Z,
                            rot: 0,
                            force_x: body0.force_x,
                            force_y: body0.force_y,
                            torque: body0.torque,
                        },
                    };
                    staged.push(st);
                    proof {
                        assert(st.body == root_body(w0.ent(i as int)));
                        lemma_me_step(w0, *w, staged_pre, st, i);
                    }
                } else {
                    proof {
                        lemma_skip_step(w0, *w, staged@, i as int);
                    }
                }
            },
            Some(WantToAttach::To { parent, aid }) => {
                let mut commit = false;
                let mut ptx: i64 = 0;
                let mut pty: i64 = 0;
                let mut ptz: i64 = 0;
                let mut ptrot: i64 = 0;
                if alive_i && parent < n {
                    let p_alive = w.entities[parent].alive;
                    let p_tag = w.entities[parent].tag;
                    if p_alive && p_tag != ParentEntity::WaitForAttach {
                        let size_i = w.entities[i].item_size;
                        let type_i = w.entities[i].item_type;
                        proof {
                            assert(w.ent(parent as int).attachments.wf());
                            assert(same_except_attachments(
                                w.ent(parent as int),
                                w0.ent(parent as int),
                            ));
                        }
                        match w.entities[parent].attachments.get(aid) {
                            None => {},
                            Some(point) => {
                                let occupied = point.is_attached();
                                let compatible = point.is_compatible(&size_i, &type_i);
                                if !occupied && compatible {
                                    ptx = point.transform.x;
                                    pty = point.transform.y;
                                    ptz = point.transform.z;
                                    ptrot = point.transform.rot;
                                    commit = true;
                                }
                            },
                        }
                    }
                }
                if commit {
                    proof {
                        assert(to_ready(*w, i as int, parent as int, aid));
                    }
                    let st = commit_request(w, i, parent, aid, Ghost(w0), Ghost(staged@));
                    staged.push(st);
                } else {
                    proof {
                        if alive_i {
                            assert(!to_ready(*w, i as int, parent as int, aid));
                            lemma_reject_step(w0, *w, staged@, i, parent, aid);
                        } else {
                            lemma_skip_step(w0, *w, staged@, i as int);
                        }
                    }
                }
            },
        }
        i = i + 1;
    }
    staged
}

/// The facts about the staged list that pass two needs: every entry names
/// an entity of the arena, in strictly increasing order.
proof fn lemma_inv_staged_parts(w0: World, w1: World, staged: Seq<StagedTag>)
    requires
        pass_one_post(w0, w1, staged),
    ensures
        w1.num_entities() == w0.num_entities(),
        forall|idx: int|
            0 <= idx < staged.len() ==> (#[trigger] staged[idx]).entity < w0.num_entities(),
        forall|idx1: int, idx2: int|
            0 <= idx1 < idx2 < staged.len() ==> staged[idx1].entity < staged[idx2].entity,
{
    reveal(pass_one_inv);
}

/// Pass two of a tick: apply every staged tag atomically — tag, placement,
/// visibility — and remove the resolved intents.
#[verifier::loop_isolation(false)]
fn apply_staged_tags(w: &mut World, staged: &Vec<StagedTag>)
    requires
        forall|idx: int|
            0 <= idx < staged@.len() ==> (#[trigger] staged@[idx]).entity < old(w).num_entities(),
        forall|idx1: int, idx2: int|
            0 <= idx1 < idx2 < staged@.len() ==> staged@[idx1].entity < staged@[idx2].entity,
    ensures
        pass_two_post(*old(w), *final(w), staged@),
{
    let ghost w1 = *old(w);
    let m = staged.len();
    let mut s: usize = 0;
    while s < m
        invariant
            s <= m,
            w.num_entities() == w1.num_entities(),
            w.joints@ == w1.joints@,
            forall|k: int|
                0 <= k < w1.num_entities() && !in_staged(staged@, k) ==> #[trigger] w.ent(k)
                    == w1.ent(k),
            forall|idx: int|
                0 <= idx < s ==> #[trigger] w.ent(staged@[idx].entity as int) == apply_staged(
                    w1.ent(staged@[idx].entity as int),
                    staged@[idx],
                ),
            forall|idx: int|
                s <= idx < m ==> #[trigger] w.ent(staged@[idx].entity as int) == w1.ent(
                    staged@[idx].entity as int,
                ),
        decreases m - s,
    {
        let st = staged[s];
        let e = st.entity;
        proof {
            assert(staged@[s as int].entity == e);
            assert(in_staged(staged@, e as int));
            assert(w.ent(staged@[s as int].entity as int) == w1.ent(
                staged@[s as int].entity as int,
            ));
            assert(w.ent(e as int) == w1.ent(e as int));
        }
        let ghost w_before = *w;
        let pe = &mut w.entities[e];
        pe.tag = st.tag;
        pe.body = st.body;
        pe.visible = true;
        pe.request = None;
        proof {
            assert(w.entities@ == w_before.entities@.update(e as int, w.ent(e as int)));
            assert(w.ent(e as int) == apply_staged(w1.ent(e as int), staged@[s as int]));
            assert forall|idx: int|
                0 <= idx < m && idx != s implies (#[trigger] staged@[idx]).entity != e by {
                if idx < s as int {
                    assert(staged@[idx].entity < staged@[s as int].entity);
                } else {
                    assert(staged@[s as int].entity < staged@[idx].entity);
                }
            }
            assert forall|k: int|
                0 <= k < w1.num_entities() && !in_staged(staged@, k) implies #[trigger] w.ent(k)
                    == w1.ent(k) by {
                assert(k != e as int);
                assert(w.ent(k) == w_before.ent(k));
            }
            assert forall|idx: int|
                0 <= idx < s + 1 implies #[trigger] w.ent(staged@[idx].entity as int)
                    == apply_staged(w1.ent(staged@[idx].entity as int), staged@[idx]) by {
                if idx != s as int {
                    assert(staged@[idx].entity != e);
                    assert(w_before.ent(staged@[idx].entity as int) == apply_staged(
                        w1.ent(staged@[idx].entity as int),
                        staged@[idx],
                    ));
                    assert(w.ent(staged@[idx].entity as int) == w_before.ent(
                        staged@[idx].entity as int,
                    ));
                }
            }
            assert forall|idx: int|
                s + 1 <= idx < m implies #[trigger] w.ent(staged@[idx].entity as int) == w1.ent(
                staged@[idx].entity as int,
            ) by {
                assert(staged@[idx].entity != e);
                assert(w_before.ent(staged@[idx].entity as int) == w1.ent(
                    staged@[idx].entity as int,
                ));
                assert(w.ent(staged@[idx].entity as int) == w_before.ent(
                    staged@[idx].entity as int,
                ));
            }
        }
        s = s + 1;
    }
}

/// Context shared by the finishing lemmas: the pre-tick world, the world
/// after pass one, and the final world, tied together by the two passes.
pub open spec fn tick_pipeline(w0: World, w1: World, w2: World, staged: Seq<StagedTag>) -> bool {
    &&& w0.wf()
    &&& pass_one_post(w0, w1, staged)
    &&& pass_two_post(w1, w2, staged)
}

/// Run one tick of the attachment protocol over every pending intent.
///
/// A root intent always commits, taking its own entity as root tag; a
/// child intent commits exactly when its target was ready at the start of
/// the tick and no other pending intent competed for the same point. A
/// committed child atomically receives the tag of its parent — inheriting
/// the root, not the immediate parent id — its placement at the point, its
/// visibility, and a fresh joint recorded in the parent's map; an intent
/// that cannot commit is left pending, untouched, for a later tick.
/// Occupied points are never evicted, and no joint is created except by a
/// commit. [`tick_post`] states all of this precisely.
pub fn spawn_joints(w: &mut World)
    requires
        old(w).wf(),
    ensures
        final(w).wf(),
        tick_post(*old(w), *final(w)),
{
    let ghost w0 = *old(w);
    let staged = stage_requests(w);
    let ghost w1 = *w;
    proof {
        lemma_inv_staged_parts(w0, w1, staged@);
    }
    apply_staged_tags(w, &staged);
    proof {
        crate::finish2::lemma_tick(w0, w1, *w, staged@);
    }
}

} // verus!
