//! Attachment points and the per-entity attachment map.
//!
//! An attachment point is a named, typed socket on an assembled item where
//! at most one compatible child may be joined. The map records, per point,
//! which child and joint entity currently occupy it; it performs no implicit
//! eviction — replacing an occupied point requires an explicit detach first.

use vstd::prelude::*;

use crate::types::{same_kind, AttachmentPointId, ItemSize, ItemType};

verus! {

/// Placement of an attachment point relative to its owning item: offsets and
/// rotation in thousandths, plus a z layer.
#[derive(Clone, Copy, PartialEq, Eq, Structural, Debug)]
pub struct RelTransform {
    pub x: i64,
    pub y: i64,
    pub z: i64,
    pub rot: i64,
}

impl RelTransform {
    /// The identity placement.
    pub fn origin() -> (r: RelTransform)
        ensures
            r == (RelTransform { x: 0, y: 0, z: 0, rot: 0 }),
    {
        RelTransform { x: 0, y: 0, z: 0, rot: 0 }
    }
}

/// One attachment point at runtime: its identity, compatibility rules,
/// placement, and the child/joint pair currently occupying it, if any.
pub struct Attachment {
    pub id: AttachmentPointId,
    pub max_size: ItemSize,
    pub transform: RelTransform,
    pub accepted_types: Vec<ItemType>,
    /// The occupying `(child entity, joint entity)` pair.
    pub attached: Option<(usize, usize)>,
}

impl Attachment {
    /// Whether some accepted type has the same variant as `t`.
    pub open spec fn accepts_type(self, t: ItemType) -> bool {
        exists|i: int|
            0 <= i < self.accepted_types@.len() && same_kind(self.accepted_types@[i], t)
    }

    /// Compatibility of an item with this point: its size class does not
    /// exceed the point's maximum, and its type variant is accepted.
    pub open spec fn spec_compatible(self, size: ItemSize, t: ItemType) -> bool {
        size.0 <= self.max_size.0 && self.accepts_type(t)
    }

    /// Decide whether an item of the given size and type may be attached
    /// here. Payload fields of the type play no part in the answer.
    pub fn is_compatible(&self, item_size: &ItemSize, item_type: &ItemType) -> (r: bool)
        ensures
            r == self.spec_compatible(*item_size, *item_type),
    {
        if !self.max_size.compatible(item_size) {
            return false;
        }
        let n = self.accepted_types.len();
        let mut i: usize = 0;
        while i < n
            invariant
                n == self.accepted_types@.len(),
                i <= n,
                item_size.0 <= self.max_size.0,
                forall|k: int| 0 <= k < i ==> !same_kind(self.accepted_types@[k], *item_type),
            decreases n - i,
        {
            if self.accepted_types[i].kind_eq(item_type) {
                proof {
                    assert(same_kind(self.accepted_types@[i as int], *item_type));
                }
                return true;
            }
            i = i + 1;
        }
        false
    }

    /// Record `(item, joint)` as the occupant of this point. Callers must
    /// have checked compatibility and occupancy already: the record is
    /// overwritten unconditionally.
    pub fn attach(&mut self, item: usize, joint: usize)
        ensures
            final(self).attached == Some((item, joint)),
            final(self).id == old(self).id,
            final(self).max_size == old(self).max_size,
            final(self).transform == old(self).transform,
            final(self).accepted_types == old(self).accepted_types,
    {
        self.attached = Some((item, joint));
    }

    /// Clear the occupant, returning the pair that was there. Despawning the
    /// detached child and joint is the caller's task.
    pub fn detach(&mut self) -> (r: Option<(usize, usize)>)
        ensures
            r == old(self).attached,
            final(self).attached is None,
            final(self).id == old(self).id,
            final(self).max_size == old(self).max_size,
            final(self).transform == old(self).transform,
            final(self).accepted_types == old(self).accepted_types,
    {
        self.attached.take()
    }

    /// Whether the point currently holds a child.
    pub fn is_attached(&self) -> (r: bool)
        ensures
            r == (self.attached is Some),
    {
        self.attached.is_some()
    }
}

/// The attachment points of one entity, keyed by point identity.
#[verifier::ext_equal]
pub struct AttachmentMap(pub Vec<Attachment>);

impl AttachmentMap {
    /// Well-formed: no two points share an identity.
    pub open spec fn wf(self) -> bool {
        forall|i: int, j: int|
            0 <= i < j < self.0@.len() ==> self.0@[i].id != self.0@[j].id
    }

    /// Whether a point with the given identity exists.
    pub open spec fn contains_id(self, id: AttachmentPointId) -> bool {
        exists|i: int| 0 <= i < self.0@.len() && self.0@[i].id == id
    }

    /// Index of the point with the given identity, when one exists.
    pub open spec fn index_of(self, id: AttachmentPointId) -> int {
        choose|i: int| 0 <= i < self.0@.len() && self.0@[i].id == id
    }

    /// The point with the given identity, if any.
    pub open spec fn spec_get(self, id: AttachmentPointId) -> Option<Attachment> {
        if self.contains_id(id) {
            Some(self.0@[self.index_of(id)])
        } else {
            None
        }
    }

    /// An empty map.
    pub fn new() -> (r: AttachmentMap)
        ensures
            r.0@.len() == 0,
            r.wf(),
    {
        AttachmentMap(Vec::new())
    }

    /// Add a point under a fresh identity.
    pub fn push_point(&mut self, at: Attachment)
        requires
            old(self).wf(),
            !old(self).contains_id(at.id),
        ensures
            final(self).wf(),
            final(self).0@.len() == old(self).0@.len() + 1,
            final(self).0@[old(self).0@.len() as int] == at,
            forall|k: int| 0 <= k < old(self).0@.len() ==> final(self).0@[k] == old(self).0@[k],
            final(self).contains_id(at.id),
            forall|id: AttachmentPointId|
                final(self).contains_id(id) == (old(self).contains_id(id) || id == at.id),
    {
        let ghost pre = *self;
        self.0.push(at);
        proof {
            assert forall|id: AttachmentPointId|
                final(self).contains_id(id) == (pre.contains_id(id) || id == at.id) by {
                if pre.contains_id(id) {
                    let i = choose|i: int| 0 <= i < pre.0@.len() && pre.0@[i].id == id;
                    assert(self.0@[i].id == id);
                }
                if id == at.id {
                    assert(self.0@[pre.0@.len() as int].id == id);
                }
                if self.contains_id(id) {
                    let i = choose|i: int| 0 <= i < self.0@.len() && self.0@[i].id == id;
                    if i < pre.0@.len() {
                        assert(pre.0@[i].id == id);
                    }
                }
            }
        }
    }

    /// Look up a point by identity.
    pub fn get(&self, id: AttachmentPointId) -> (r: Option<&Attachment>)
        requires
            self.wf(),
        ensures
            match r {
                Some(at) => self.spec_get(id) == Some(*at),
                None => self.spec_get(id) is None,
            },
    {
        let n = self.0.len();
        let mut i: usize = 0;
        while i < n
            invariant
                self.wf(),
                n == self.0@.len(),
                i <= n,
                forall|k: int| 0 <= k < i ==> self.0@[k].id != id,
            decreases n - i,
        {
            if self.0[i].id == id {
                return Some(&self.0[i]);
            }
            i = i + 1;
        }
        None
    }

    /// Record `(child, joint)` as the occupant of the point `id`.
    pub fn set_attached(&mut self, id: AttachmentPointId, child: usize, joint: usize)
        requires
            old(self).wf(),
            old(self).contains_id(id),
        ensures
            final(self).wf(),
            final(self).0@.len() == old(self).0@.len(),
            final(self).contains_id(id),
            forall|q: AttachmentPointId|
                final(self).contains_id(q) == old(self).contains_id(q),
            ({
                let at = old(self).spec_get(id)->Some_0;
                final(self).spec_get(id) == Some(Attachment {
                    attached: Some((child, joint)),
                    ..at
                })
            }),
            forall|q: AttachmentPointId|
                q != id ==> final(self).spec_get(q) == old(self).spec_get(q),
            forall|k: int|
                0 <= k < old(self).0@.len() && old(self).0@[k].id != id
                    ==> final(self).0@[k] == old(self).0@[k],
    {
        let ghost pre = *old(self);
        let n = self.0.len();
        let mut i: usize = 0;
        while i < n
            invariant
                *self == pre,
                pre == *old(self),
                pre.wf(),
                pre.contains_id(id),
                n == self.0@.len(),
                i <= n,
                forall|k: int| 0 <= k < i ==> self.0@[k].id != id,
            decreases n - i,
        {
            if self.0[i].id == id {
                let at = &mut self.0[i];
                at.attach(child, joint);
                proof {
                    assert(self.0@ == pre.0@.update(
                        i as int,
                        Attachment { attached: Some((child, joint)), ..pre.0@[i as int] },
                    ));
                    assert(self.0@[i as int].id == id);
                    assert(pre.index_of(id) == i as int) by {
                        let j = pre.index_of(id);
                        assert(0 <= j < pre.0@.len() && pre.0@[j].id == id);
                    }
                    assert(self.contains_id(id));
                    assert(self.index_of(id) == i as int) by {
                        let j = self.index_of(id);
                        assert(0 <= j < self.0@.len() && self.0@[j].id == id);
                    }
                    assert forall|q: AttachmentPointId|
                        q != id implies self.spec_get(q) == pre.spec_get(q)
                            && self.contains_id(q) == pre.contains_id(q) by {
                        if pre.contains_id(q) {
                            let j = pre.index_of(q);
                            assert(0 <= j < pre.0@.len() && pre.0@[j].id == q);
                            assert(j != i as int);
                            assert(self.0@[j].id == q);
                            assert(self.index_of(q) == j) by {
                                let k = self.index_of(q);
                                assert(0 <= k < self.0@.len() && self.0@[k].id == q);
                            }
                        } else {
                            assert(!self.contains_id(q)) by {
                                if self.contains_id(q) {
                                    let k = self.index_of(q);
                                    assert(0 <= k < self.0@.len() && self.0@[k].id == q);
                                    assert(pre.0@[k].id == q);
                                }
                            }
                        }
                    }
                }
                return;
            }
            i = i + 1;
        }
        proof {
            let j = pre.index_of(id);
            assert(0 <= j < pre.0@.len() && pre.0@[j].id == id);
            assert(false);
        }
    }
}

/// Clear the occupant of the point `id`, returning the pair that was
/// there; a missing point or an empty point yields `None` and leaves the
/// map untouched.
impl AttachmentMap {
    pub fn clear_attached(&mut self, id: AttachmentPointId) -> (r: Option<(usize, usize)>)
        requires
            old(self).wf(),
        ensures
            final(self).wf(),
            final(self).0@.len() == old(self).0@.len(),
            forall|q: AttachmentPointId|
                final(self).contains_id(q) == old(self).contains_id(q),
            r == match old(self).spec_get(id) {
                Some(at) => at.attached,
                None => None,
            },
            match old(self).spec_get(id) {
                Some(at) => final(self).spec_get(id) == Some(
                    Attachment { attached: None, ..at },
                ),
                None => *final(self) == *old(self),
            },
            forall|q: AttachmentPointId|
                q != id ==> final(self).spec_get(q) == old(self).spec_get(q),
            forall|k: int|
                0 <= k < old(self).0@.len() && old(self).0@[k].id != id
                    ==> final(self).0@[k] == old(self).0@[k],
            old(self).contains_id(id) ==> final(self).0@[old(self).index_of(id)] == (Attachment {
                attached: None,
                ..old(self).0@[old(self).index_of(id)]
            }),
    {
        let ghost pre = *old(self);
        let n = self.0.len();
        let mut i: usize = 0;
        while i < n
            invariant
                *self == pre,
                pre == *old(self),
                pre.wf(),
                n == self.0@.len(),
                i <= n,
                forall|k: int| 0 <= k < i ==> self.0@[k].id != id,
            decreases n - i,
        {
            if self.0[i].id == id {
                let at = &mut self.0[i];
                let r = at.detach();
                proof {
                    assert(self.0@ == pre.0@.update(
                        i as int,
                        Attachment { attached: None, ..pre.0@[i as int] },
                    ));
                    assert(self.0@[i as int].id == id);
                    assert(pre.index_of(id) == i as int) by {
                        let j = pre.index_of(id);
                        assert(0 <= j < pre.0@.len() && pre.0@[j].id == id);
                    }
                    assert(self.contains_id(id));
                    assert(self.index_of(id) == i as int) by {
                        let j = self.index_of(id);
                        assert(0 <= j < self.0@.len() && self.0@[j].id == id);
                    }
                    assert forall|q: AttachmentPointId|
                        q != id implies self.spec_get(q) == pre.spec_get(q)
                            && self.contains_id(q) == pre.contains_id(q) by {
                        if pre.contains_id(q) {
                            let j = pre.index_of(q);
                            assert(0 <= j < pre.0@.len() && pre.0@[j].id == q);
                            assert(j != i as int);
                            assert(self.0@[j].id == q);
                            assert(self.index_of(q) == j) by {
                                let k = self.index_of(q);
                                assert(0 <= k < self.0@.len() && self.0@[k].id == q);
                            }
                        } else {
                            assert(!self.contains_id(q)) by {
                                if self.contains_id(q) {
                                    let k = self.index_of(q);
                                    assert(0 <= k < self.0@.len() && self.0@[k].id == q);
                                    assert(pre.0@[k].id == q);
                                }
                            }
                        }
                    }
                }
                return r;
            }
            i = i + 1;
        }
        proof {
            assert(!pre.contains_id(id));
        }
        None
    }
}

/// Changing only the payload fields of an item type — not its variant —
/// never changes whether a point accepts it.
pub proof fn lemma_compatibility_payload_irrelevant(
    p: Attachment,
    s: ItemSize,
    t1: ItemType,
    t2: ItemType,
)
    requires
        same_kind(t1, t2),
    ensures
        p.spec_compatible(s, t1) == p.spec_compatible(s, t2),
{
    assert forall|i: int|
        0 <= i < p.accepted_types@.len() implies
        same_kind(p.accepted_types@[i], t1) == same_kind(p.accepted_types@[i], t2) by {}
    if p.accepts_type(t1) {
        let i = choose|i: int|
            0 <= i < p.accepted_types@.len() && same_kind(p.accepted_types@[i], t1);
        assert(same_kind(p.accepted_types@[i], t2));
    }
    if p.accepts_type(t2) {
        let i = choose|i: int|
            0 <= i < p.accepted_types@.len() && same_kind(p.accepted_types@[i], t2);
        assert(same_kind(p.accepted_types@[i], t1));
    }
}

} // verus!
