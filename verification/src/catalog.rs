//! The immutable item catalog: one definition per loadable item, with the
//! attachment points the item offers. Definitions are loaded once at
//! startup and only read afterwards; a catalog handle is an index.

use vstd::prelude::*;

use crate::attachment::{Attachment, AttachmentMap, RelTransform};
use crate::types::{AttachmentPointId, ItemSize, ItemType, JointType};

verus! {

/// Catalog description of one attachment point: placement, accepted item
/// types and the maximum size class of a child.
pub struct AttachmentPointSpec {
    pub transform: RelTransform,
    pub item_types: Vec<ItemType>,
    pub max_item_size: usize,
}

/// Catalog definition of an item: its size class, type, the joint kind its
/// children are connected with, placement metadata and its attachment
/// points.
pub struct ItemDef {
    pub item_size: ItemSize,
    pub item_type: ItemType,
    pub joint_type: JointType,
    /// Base z layer the item is drawn and placed at.
    pub z_index: i64,
    /// Offset of the item's anchor from its body centre, in thousandths.
    pub origin_x: i64,
    pub origin_y: i64,
    /// Half extents of the item's collider footprint, in thousandths.
    pub extent_x: i64,
    pub extent_y: i64,
    pub attachment_points: Vec<(AttachmentPointId, AttachmentPointSpec)>,
}

impl ItemDef {
    /// Well-formed: no two attachment points share an identity.
    pub open spec fn wf(self) -> bool {
        forall|i: int, j: int|
            0 <= i < j < self.attachment_points@.len()
                ==> self.attachment_points@[i].0 != self.attachment_points@[j].0
    }

    /// Build the runtime attachment map for a freshly spawned entity of
    /// this item: one empty point per catalog point, with the catalog's
    /// placement and compatibility rules.
    pub fn instantiate_points(&self) -> (r: AttachmentMap)
        requires
            self.wf(),
        ensures
            r.wf(),
            r.0@.len() == self.attachment_points@.len(),
            forall|k: int|
                0 <= k < r.0@.len() ==> {
                    &&& r.0@[k].id == self.attachment_points@[k].0
                    &&& r.0@[k].max_size == ItemSize(self.attachment_points@[k].1.max_item_size)
                    &&& r.0@[k].transform == self.attachment_points@[k].1.transform
                    &&& r.0@[k].accepted_types@ == self.attachment_points@[k].1.item_types@
                    &&& r.0@[k].attached is None
                },
    {
        let n = self.attachment_points.len();
        let mut r = AttachmentMap::new();
        let mut i: usize = 0;
        while i < n
            invariant
                n == self.attachment_points@.len(),
                self.wf(),
                i <= n,
                r.wf(),
                r.0@.len() == i,
                forall|k: int|
                    0 <= k < i ==> {
                        &&& r.0@[k].id == self.attachment_points@[k].0
                        &&& r.0@[k].max_size == ItemSize(
                            self.attachment_points@[k].1.max_item_size,
                        )
                        &&& r.0@[k].transform == self.attachment_points@[k].1.transform
                        &&& r.0@[k].accepted_types@ == self.attachment_points@[k].1.item_types@
                        &&& r.0@[k].attached is None
                    },
            decreases n - i,
        {
            let (id, spec) = &self.attachment_points[i];
            let accepted = copy_types(&spec.item_types);
            let at = Attachment {
                id: *id,
                max_size: ItemSize(spec.max_item_size),
                transform: spec.transform,
                accepted_types: accepted,
                attached: None,
            };
            proof {
                assert(!r.contains_id(*id)) by {
                    if r.contains_id(*id) {
                        let k = choose|k: int| 0 <= k < r.0@.len() && r.0@[k].id == *id;
                        assert(self.attachment_points@[k].0 == self.attachment_points@[i as int].0);
                    }
                }
            }
            r.push_point(at);
            i = i + 1;
        }
        r
    }
}

/// Copy a list of item types element by element.
fn copy_types(src: &Vec<ItemType>) -> (r: Vec<ItemType>)
    ensures
        r@ == src@,
{
    let n = src.len();
    let mut r: Vec<ItemType> = Vec::new();
    let mut i: usize = 0;
    while i < n
        invariant
            n == src@.len(),
            i <= n,
            r@ == src@.subrange(0, i as int),
        decreases n - i,
    {
        r.push(src[i]);
        proof {
            assert(r@ =~= src@.subrange(0, i + 1 as int));
        }
        i = i + 1;
    }
    proof {
        assert(r@ =~= src@);
    }
    r
}

/// The loaded catalog. A handle into it is an index; looking a handle up
/// never panics — a stale or foreign handle yields `None`.
pub struct ItemCatalog {
    pub defs: Vec<ItemDef>,
}

impl ItemCatalog {
    /// Well-formed: every definition is.
    pub open spec fn wf(self) -> bool {
        forall|i: int| 0 <= i < self.defs@.len() ==> #[trigger] self.defs@[i].wf()
    }

    /// An empty catalog.
    pub fn new() -> (r: ItemCatalog)
        ensures
            r.defs@.len() == 0,
            r.wf(),
    {
        ItemCatalog { defs: Vec::new() }
    }

    /// Register a definition, returning its handle.
    pub fn register(&mut self, def: ItemDef) -> (handle: usize)
        requires
            old(self).wf(),
            def.wf(),
        ensures
            final(self).wf(),
            handle == old(self).defs@.len(),
            final(self).defs@ == old(self).defs@.push(def),
    {
        let handle = self.defs.len();
        self.defs.push(def);
        handle
    }

    /// Look a handle up; a miss is reported, never a panic.
    pub fn lookup(&self, handle: usize) -> (r: Option<&ItemDef>)
        ensures
            match r {
                Some(def) => handle < self.defs@.len() && *def == self.defs@[handle as int],
                None => handle >= self.defs@.len(),
            },
    {
        if handle < self.defs.len() {
            Some(&self.defs[handle])
        } else {
            None
        }
    }
}

} // verus!
