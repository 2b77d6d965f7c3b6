//! The collision/parent tag and the contact-filter predicate.
//!
//! Every assembled entity carries one tag: still assembling, free-standing,
//! or committed to a robot rooted at some entity. The physics engine asks,
//! for every candidate colliding pair, whether the contact should be
//! suppressed; the answer is a pure function of the two tags.

use vstd::prelude::*;

verus! {

/// Collision/parent tag of an entity.
#[derive(Clone, Copy, PartialEq, Eq, Structural, Debug)]
pub enum ParentEntity {
    /// Still assembling: must not collide with anything.
    WaitForAttach,
    /// Free-standing: collides normally.
    Free,
    /// Committed part of the robot rooted at the given entity.
    Robot(usize),
}

/// The same tag as seen by the physics engine's contact filter.
pub type CollisionFilter = ParentEntity;

impl Default for ParentEntity {
    fn default() -> (r: Self)
        ensures
            r == ParentEntity::Free,
    {
        ParentEntity::Free
    }
}

/// The root entity a tag commits to, if any.
pub fn get_robot_body(tag: &ParentEntity) -> (r: Option<usize>)
    ensures
        r == match *tag {
            ParentEntity::Robot(root) => Some(root),
            _ => None::<usize>,
        },
{
    match tag {
        ParentEntity::Robot(root) => Some(*root),
        _ => None,
    }
}

/// Whether a contact between entities carrying these two tags is
/// suppressed: one side is still assembling, or both sides belong to the
/// same robot.
pub open spec fn spec_suppress(a: ParentEntity, b: ParentEntity) -> bool {
    a == ParentEntity::WaitForAttach || b == ParentEntity::WaitForAttach || (a is Robot && a == b)
}

/// The contact-filter hook: `true` means the pair is suppressed, `false`
/// that the engine processes the contact normally.
pub fn filter_contact_pair(a: &ParentEntity, b: &ParentEntity) -> (r: bool)
    ensures
        r == spec_suppress(*a, *b),
{
    match (a, b) {
        (ParentEntity::WaitForAttach, _) => true,
        (_, ParentEntity::WaitForAttach) => true,
        (ParentEntity::Robot(x), ParentEntity::Robot(y)) => x == y,
        _ => false,
    }
}

/// An entity that is still assembling collides with nothing: against every
/// other tag, the filter suppresses the pair, whichever side it stands on.
pub proof fn lemma_no_collision_while_assembling(other: ParentEntity)
    ensures
        spec_suppress(ParentEntity::WaitForAttach, other),
        spec_suppress(other, ParentEntity::WaitForAttach),
{
}

/// Once assembled, two parts of the same robot never collide with each
/// other, while entities with differing tags — or with a free tag on either
/// side — do collide.
pub proof fn lemma_sibling_collision_rules(a: ParentEntity, b: ParentEntity)
    requires
        a != ParentEntity::WaitForAttach,
        b != ParentEntity::WaitForAttach,
    ensures
        (a is Robot && a == b) ==> spec_suppress(a, b),
        a != b ==> !spec_suppress(a, b),
        (a == ParentEntity::Free || b == ParentEntity::Free) ==> !spec_suppress(a, b),
{
}

} // verus!
