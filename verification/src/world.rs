//! The arena of assembled entities and joints.
//!
//! An entity-component-system engine references entities by opaque id; here
//! the world is an arena and an entity id is an index into it, which is the
//! same pattern with the ownership made explicit. Records are never removed
//! from the arena — despawning marks them dead — so ids stay stable.

use vstd::prelude::*;

use crate::attachment::{Attachment, AttachmentMap};
use crate::components::{Battery, CameraLens, ImageQuality, Manometer, Motors};
use crate::tags::ParentEntity;
use crate::types::{AttachmentPointId, ItemSize, ItemType, JointType};

verus! {

/// Transient declaration of attachment intent, resolved and removed by the
/// joint spawner: either "I am a root" or "attach me to that point of that
/// parent".
#[derive(Clone, Copy, PartialEq, Eq, Structural, Debug)]
pub enum WantToAttach {
    Me,
    To { parent: usize, aid: AttachmentPointId },
}

impl WantToAttach {
    /// Intent to attach to `aid` on `parent`.
    pub fn to(parent: usize, aid: AttachmentPointId) -> (r: WantToAttach)
        ensures
            r == (WantToAttach::To { parent, aid }),
    {
        WantToAttach::To { parent, aid }
    }

    /// Intent to stand as a root.
    pub fn me() -> (r: WantToAttach)
        ensures
            r == WantToAttach::Me,
    {
        WantToAttach::Me
    }
}

/// Physics state of an entity: placement, and the force accumulator the
/// command executor writes into. Offsets and rotation in thousandths.
#[derive(Clone, Copy, PartialEq, Eq, Structural, Debug)]
pub struct RigidBody {
    pub x: i64,
    pub y: i64,
    pub z: i64,
    pub rot: i64,
    pub force_x: i64,
    pub force_y: i64,
    pub torque: i64,
}

impl RigidBody {
    /// A body at rest at the origin.
    pub fn at_origin() -> (r: RigidBody)
        ensures
            r == (RigidBody { x: 0, y: 0, z: 0, rot: 0, force_x: 0, force_y: 0, torque: 0 }),
    {
        RigidBody { x: 0, y: 0, z: 0, rot: 0, force_x: 0, force_y: 0, torque: 0 }
    }
}

/// Motor state of a joint: the parts the command executor drives.
#[derive(Clone, Copy, PartialEq, Eq, Structural, Debug)]
pub struct JointMotor {
    pub target_velocity: i64,
    pub damping: i64,
    pub position: i64,
    pub limit_min: i64,
    pub limit_max: i64,
}

impl JointMotor {
    /// A motor with every setting at zero.
    pub fn zeroed() -> (r: JointMotor)
        ensures
            r == (JointMotor {
                target_velocity: 0,
                damping: 0,
                position: 0,
                limit_min: 0,
                limit_max: 0,
            }),
    {
        JointMotor { target_velocity: 0, damping: 0, position: 0, limit_min: 0, limit_max: 0 }
    }
}

/// A joint entity: the physics construct linking a parent and a child body
/// at a computed offset.
#[derive(Clone, Copy, PartialEq, Eq, Structural, Debug)]
pub struct JointRec {
    pub alive: bool,
    pub parent: usize,
    pub child: usize,
    pub kind: JointType,
    /// Anchor on the parent: the attachment point's placement.
    pub anchor_x: i64,
    pub anchor_y: i64,
    pub anchor_rot: i64,
    /// Anchor on the child: its origin offset.
    pub child_anchor_x: i64,
    pub child_anchor_y: i64,
    pub motor: JointMotor,
}

/// One assembled entity: its catalog-derived identity, its attachment
/// points, its collision tag, a pending attachment intent if any, and the
/// components its item type granted it.
#[verifier::ext_equal]
pub struct EntityRec {
    pub alive: bool,
    pub item_type: ItemType,
    pub item_size: ItemSize,
    pub joint_type: JointType,
    pub origin_x: i64,
    pub origin_y: i64,
    pub visible: bool,
    pub attachments: AttachmentMap,
    pub tag: ParentEntity,
    pub request: Option<WantToAttach>,
    pub motors: Option<Motors>,
    pub camera_lens: Option<CameraLens>,
    pub image_quality: Option<ImageQuality>,
    pub battery: Option<Battery>,
    pub manometer: Option<Manometer>,
    pub body: RigidBody,
}

/// The world: every entity and joint spawned so far.
#[verifier::ext_equal]
pub struct World {
    pub entities: Vec<EntityRec>,
    pub joints: Vec<JointRec>,
}

impl World {
    /// The entity record at index `i`.
    pub open spec fn ent(self, i: int) -> EntityRec {
        self.entities@[i]
    }

    /// The joint record at index `j`.
    pub open spec fn joint(self, j: int) -> JointRec {
        self.joints@[j]
    }

    /// Number of entities spawned so far.
    pub open spec fn num_entities(self) -> int {
        self.entities@.len() as int
    }

    /// Number of joints spawned so far.
    pub open spec fn num_joints(self) -> int {
        self.joints@.len() as int
    }

    /// Well-formed: the arena sizes are representable, every attachment
    /// map is well-formed, and every recorded occupant names an entity and
    /// a joint inside the arena.
    pub open spec fn wf(self) -> bool {
        &&& self.num_entities() <= usize::MAX
        &&& self.num_joints() <= usize::MAX
        &&& forall|i: int|
            0 <= i < self.num_entities() ==> {
                &&& (#[trigger] self.ent(i)).attachments.wf()
                &&& forall|k: int|
                    0 <= k < self.ent(i).attachments.0@.len() ==> {
                        let at = #[trigger] self.ent(i).attachments.0@[k];
                        at.attached matches Some((c, j))
                            ==> 0 <= c < self.num_entities() && 0 <= j < self.num_joints()
                    }
            }
    }

    /// An empty world.
    pub fn new() -> (r: World)
        ensures
            r.num_entities() == 0,
            r.num_joints() == 0,
            r.wf(),
    {
        World { entities: Vec::new(), joints: Vec::new() }
    }

    /// Spawn an entity, returning its id. The record may not claim
    /// occupants that the arena does not hold.
    pub fn spawn(&mut self, rec: EntityRec) -> (id: usize)
        requires
            old(self).wf(),
            rec.attachments.wf(),
            forall|k: int|
                0 <= k < rec.attachments.0@.len() ==> {
                    let at = #[trigger] rec.attachments.0@[k];
                    at.attached matches Some((c, j))
                        ==> 0 <= c < old(self).num_entities() && 0 <= j < old(self).num_joints()
                },
        ensures
            final(self).wf(),
            id == old(self).num_entities(),
            final(self).entities@ == old(self).entities@.push(rec),
            final(self).joints@ == old(self).joints@,
    {
        let id = self.entities.len();
        self.entities.push(rec);
        let total = self.entities.len();
        proof {
            assert(self.num_entities() == total as int);
            assert forall|i: int| 0 <= i < self.num_entities() implies {
                &&& (#[trigger] self.ent(i)).attachments.wf()
                &&& forall|k: int|
                    0 <= k < self.ent(i).attachments.0@.len() ==> {
                        let at = #[trigger] self.ent(i).attachments.0@[k];
                        at.attached matches Some((c, j))
                            ==> 0 <= c < self.num_entities() && 0 <= j < self.num_joints()
                    }
            } by {
                if i < old(self).num_entities() {
                    assert(self.ent(i) == old(self).ent(i));
                } else {
                    assert(self.ent(i) == rec);
                }
            }
        }
        id
    }

    /// Detach whatever occupies point `aid` on entity `parent`: clear the
    /// record and despawn the old child and joint, as the menu-driven
    /// replace flow demands before a new attachment.
    pub fn detach(&mut self, parent: usize, aid: AttachmentPointId) -> (r: Option<(usize, usize)>)
        requires
            old(self).wf(),
            parent < old(self).num_entities(),
        ensures
            final(self).wf(),
            final(self).num_entities() == old(self).num_entities(),
            final(self).num_joints() == old(self).num_joints(),
            r == match old(self).ent(parent as int).attachments.spec_get(aid) {
                Some(at) => at.attached,
                None => None,
            },
            match r {
                Some((child, joint)) => {
                    &&& final(self).ent(parent as int).attachments.spec_get(aid) == Some(
                        Attachment {
                            attached: None,
                            ..old(self).ent(parent as int).attachments.spec_get(aid)->Some_0
                        },
                    )
                    &&& !final(self).ent(child as int).alive
                    &&& !final(self).joint(joint as int).alive
                },
                None => {
                    &&& forall|k: int|
                        0 <= k < old(self).num_entities() && k != parent as int
                            ==> #[trigger] final(self).ent(k) == old(self).ent(k)
                    &&& final(self).ent(parent as int) == (EntityRec {
                        attachments: final(self).ent(parent as int).attachments,
                        ..old(self).ent(parent as int)
                    })
                    &&& forall|q: AttachmentPointId|
                        final(self).ent(parent as int).attachments.spec_get(q) == old(
                            self,
                        ).ent(parent as int).attachments.spec_get(q)
                    &&& final(self).joints@ == old(self).joints@
                },
            },
    {
        let ghost w0 = *old(self);
        proof {
            assert(w0.ent(parent as int).attachments.wf());
        }
        let pe = &mut self.entities[parent];
        let pair = pe.attachments.clear_attached(aid);
        match pair {
            Some((child, joint)) => {
                proof {
                    let m0 = w0.ent(parent as int).attachments;
                    let k0 = m0.index_of(aid);
                    assert(m0.spec_get(aid) == Some(m0.0@[k0]));
                    assert(0 <= child < self.num_entities() && 0 <= joint
                        < self.num_joints());
                    assert(self.wf()) by {
                        assert forall|i: int| 0 <= i < self.num_entities() implies {
                            &&& (#[trigger] self.ent(i)).attachments.wf()
                            &&& forall|k: int|
                                0 <= k < self.ent(i).attachments.0@.len() ==> {
                                    let at = #[trigger] self.ent(i).attachments.0@[k];
                                    at.attached matches Some((c, j)) ==> 0 <= c
                                        < self.num_entities() && 0 <= j < self.num_joints()
                                }
                        } by {
                            if i != parent as int {
                                assert(self.ent(i) == w0.ent(i));
                            } else {
                                assert forall|k: int|
                                    0 <= k < self.ent(i).attachments.0@.len() implies {
                                        let at = #[trigger] self.ent(i).attachments.0@[k];
                                        at.attached matches Some((c, j)) ==> 0 <= c
                                            < self.num_entities() && 0 <= j
                                            < self.num_joints()
                                    } by {
                                    if self.ent(i).attachments.0@[k] != w0.ent(
                                        i,
                                    ).attachments.0@[k] {
                                        assert(self.ent(i).attachments.0@[k].attached
                                            is None);
                                    }
                                }
                            }
                        }
                    }
                }
                let ghost w_mid = *self;
                let ce = &mut self.entities[child];
                ce.alive = false;
                let je = &mut self.joints[joint];
                je.alive = false;
                proof {
                    assert(self.ent(parent as int).attachments == w_mid.ent(
                        parent as int,
                    ).attachments);
                    assert(self.ent(parent as int).attachments.spec_get(aid) == Some(
                        Attachment {
                            attached: None,
                            ..w0.ent(parent as int).attachments.spec_get(aid)->Some_0
                        },
                    ));
                    assert(!self.ent(child as int).alive);
                    assert(!self.joint(joint as int).alive);
                    assert(self.wf()) by {
                        assert forall|i: int| 0 <= i < self.num_entities() implies {
                            &&& (#[trigger] self.ent(i)).attachments.wf()
                            &&& forall|k: int|
                                0 <= k < self.ent(i).attachments.0@.len() ==> {
                                    let at = #[trigger] self.ent(i).attachments.0@[k];
                                    at.attached matches Some((c, j)) ==> 0 <= c
                                        < self.num_entities() && 0 <= j < self.num_joints()
                                }
                        } by {
                            assert(self.ent(i).attachments == w_mid.ent(i).attachments);
                        }
                    }
                }
                Some((child, joint))
            },
            None => {
                proof {
                    let m0 = w0.ent(parent as int).attachments;
                    if m0.contains_id(aid) {
                        let k0 = m0.index_of(aid);
                        assert(m0.0@[k0].attached is None);
                        assert((Attachment { attached: None, ..m0.0@[k0] }) == m0.0@[k0]);
                        assert(m0.spec_get(aid) == Some(m0.0@[k0]));
                    }
                    assert(self.wf()) by {
                        assert forall|i: int| 0 <= i < self.num_entities() implies {
                            &&& (#[trigger] self.ent(i)).attachments.wf()
                            &&& forall|k: int|
                                0 <= k < self.ent(i).attachments.0@.len() ==> {
                                    let at = #[trigger] self.ent(i).attachments.0@[k];
                                    at.attached matches Some((c, j)) ==> 0 <= c
                                        < self.num_entities() && 0 <= j < self.num_joints()
                                }
                        } by {
                            if i != parent as int {
                                assert(self.ent(i) == w0.ent(i));
                            } else {
                                assert forall|k: int|
                                    0 <= k < self.ent(i).attachments.0@.len() implies {
                                        let at = #[trigger] self.ent(i).attachments.0@[k];
                                        at.attached matches Some((c, j)) ==> 0 <= c
                                            < self.num_entities() && 0 <= j
                                            < self.num_joints()
                                    } by {
                                    if self.ent(i).attachments.0@[k] != w0.ent(
                                        i,
                                    ).attachments.0@[k] {
                                        assert(self.ent(i).attachments.0@[k].attached
                                            is None);
                                    }
                                }
                            }
                        }
                    }
                }
                None
            },
        }
    }

    /// The maintenance sweep: mark dead every joint either of whose
    /// endpoint entities no longer exists, so no dangling joint outlives
    /// an ad-hoc despawn.
    pub fn despawn_detached_items(&mut self)
        requires
            old(self).wf(),
        ensures
            final(self).wf(),
            final(self).entities@ == old(self).entities@,
            final(self).num_joints() == old(self).num_joints(),
            forall|j: int|
                0 <= j < old(self).num_joints() ==> #[trigger] final(self).joint(j) == (JointRec {
                    alive: old(self).joint(j).alive && {
                        let jr = old(self).joint(j);
                        &&& jr.parent < old(self).num_entities()
                        &&& jr.child < old(self).num_entities()
                        &&& old(self).ent(jr.parent as int).alive
                        &&& old(self).ent(jr.child as int).alive
                    },
                    ..old(self).joint(j)
                }),
    {
        let ghost w0 = *old(self);
        let n = self.entities.len();
        let m = self.joints.len();
        let mut j: usize = 0;
        while j < m
            invariant
                j <= m,
                n == w0.num_entities(),
                m == w0.num_joints(),
                self.entities@ == w0.entities@,
                self.num_joints() == m,
                forall|q: int| j <= q < m ==> #[trigger] self.joint(q) == w0.joint(q),
                forall|q: int|
                    0 <= q < j ==> #[trigger] self.joint(q) == (JointRec {
                        alive: w0.joint(q).alive && {
                            let jr = w0.joint(q);
                            &&& jr.parent < w0.num_entities()
                            &&& jr.child < w0.num_entities()
                            &&& w0.ent(jr.parent as int).alive
                            &&& w0.ent(jr.child as int).alive
                        },
                        ..w0.joint(q)
                    }),
            decreases m - j,
        {
            let ghost before = *self;
            let jr = self.joints[j];
            let endpoints_ok = jr.parent < n && jr.child < n && self.entities[jr.parent].alive
                && self.entities[jr.child].alive;
            if !endpoints_ok {
                let pj = &mut self.joints[j];
                pj.alive = false;
            }
            proof {
                assert forall|q: int|
                    0 <= q < m && q != j as int implies #[trigger] self.joint(q) == before.joint(
                    q,
                ) by {}
            }
            j = j + 1;
        }
        proof {
            assert(self.wf()) by {
                assert forall|i: int| 0 <= i < self.num_entities() implies {
                    &&& (#[trigger] self.ent(i)).attachments.wf()
                    &&& forall|k: int|
                        0 <= k < self.ent(i).attachments.0@.len() ==> {
                            let at = #[trigger] self.ent(i).attachments.0@[k];
                            at.attached matches Some((c, jj)) ==> 0 <= c < self.num_entities()
                                && 0 <= jj < self.num_joints()
                        }
                } by {
                    assert(self.ent(i) == w0.ent(i));
                }
            }
        }
    }

}

} // verus!
