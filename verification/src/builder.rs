//! The robot builder: declare a whole intended tree of items in one value,
//! then spawn it into the world, one pending entity per node.
//!
//! Every spawned node starts invisible, tagged as still assembling, and
//! carrying one attachment intent — the root an intent to stand alone (or
//! to join a given attachment point of an existing entity), every other
//! node an intent to join its parent. The joint spawner then resolves the
//! intents over the following ticks. Each node is also granted the extra
//! components its item type calls for: motors for ground propulsion, image
//! quality for cameras, lens state for camera lenses, an energy store for
//! batteries, and a progress gauge for inspectable icons.

use vstd::prelude::*;

use crate::catalog::{ItemCatalog, ItemDef};
use crate::components::{Battery, CameraLens, ImageQuality, Manometer, Motors};
use crate::tags::ParentEntity;
use crate::types::{
    AttachmentPointId, CameraLensType, ItemSize, ItemType, JointType, ManometerItemType,
    RobotItemType,
};
use crate::world::{EntityRec, RigidBody, WantToAttach, World};

verus! {

/// Default drive parameters granted to a ground-propulsion item.
pub open spec fn granted_motors(t: ItemType) -> Option<Motors> {
    if t == ItemType::Robot(RobotItemType::GroundPropulsion) {
        Some(
            Motors {
                linear_speed: 4_000_000,
                angular_speed: 2_000_000,
                linear_damping: 500,
                angular_damping: 500,
            },
        )
    } else {
        None
    }
}

/// Default picture quality granted to a camera item.
pub open spec fn granted_quality(t: ItemType) -> Option<ImageQuality> {
    if t == ItemType::Robot(RobotItemType::Camera) {
        Some(ImageQuality { width: 1000, height: 1000, noise: 0 })
    } else {
        None
    }
}

/// Lens state granted to a camera-lens item, from its payload.
pub open spec fn granted_lens(t: ItemType) -> Option<CameraLens> {
    match t {
        ItemType::Robot(RobotItemType::CameraLens(lens)) => match lens {
            CameraLensType::Wide { focal_length } => Some(
                CameraLens {
                    focal_length_min: focal_length,
                    focal_length_max: focal_length,
                    focus_speed: 0,
                    focal_length,
                    sensor_offset: 0,
                },
            ),
            CameraLensType::Telephoto { focal_length_min, focal_length_max, focus_speed } => Some(
                CameraLens {
                    focal_length_min,
                    focal_length_max,
                    focus_speed,
                    focal_length: focal_length_min,
                    sensor_offset: 0,
                },
            ),
            CameraLensType::Unspecified => None,
        },
        _ => None,
    }
}

/// Energy store granted to a battery item, from its payload; the charge is
/// clamped into `[0, capacity]` so the ledger invariant holds from birth.
pub open spec fn granted_battery(t: ItemType) -> Option<Battery> {
    match t {
        ItemType::Robot(RobotItemType::Battery { capacity, charge, charge_speed }) => {
            let cap = if capacity >= 0 {
                capacity as int
            } else {
                0
            };
            let ch = if charge < 0 {
                0int
            } else if charge as int > cap {
                cap
            } else {
                charge as int
            };
            Some(Battery { capacity: cap as i64, charge_speed, charge: ch as i64 })
        },
        _ => None,
    }
}

/// Progress gauge granted to an inspectable icon item, from its payload.
pub open spec fn granted_manometer(t: ItemType) -> Option<Manometer> {
    match t {
        ItemType::Manometer(ManometerItemType::Icon { progress }) => Some(
            Manometer { inspections: 0, progress },
        ),
        _ => None,
    }
}

/// Grant an entity the extra components its item type calls for.
pub fn attach_additional_components(rec: &mut EntityRec)
    ensures
        *final(rec) == (EntityRec {
            motors: granted_motors(old(rec).item_type),
            image_quality: granted_quality(old(rec).item_type),
            camera_lens: granted_lens(old(rec).item_type),
            battery: granted_battery(old(rec).item_type),
            manometer: granted_manometer(old(rec).item_type),
            ..*old(rec)
        }),
{
    let t = rec.item_type;
    rec.motors = match t {
        ItemType::Robot(RobotItemType::GroundPropulsion) => Some(
            Motors {
                linear_speed: 4_000_000,
                angular_speed: 2_000_000,
                linear_damping: 500,
                angular_damping: 500,
            },
        ),
        _ => None,
    };
    rec.image_quality = match t {
        ItemType::Robot(RobotItemType::Camera) => Some(
            ImageQuality { width: 1000, height: 1000, noise: 0 },
        ),
        _ => None,
    };
    rec.camera_lens = match t {
        ItemType::Robot(RobotItemType::CameraLens(CameraLensType::Wide { focal_length })) => Some(
            CameraLens {
                focal_length_min: focal_length,
                focal_length_max: focal_length,
                focus_speed: 0,
                focal_length,
                sensor_offset: 0,
            },
        ),
        ItemType::Robot(
            RobotItemType::CameraLens(
                CameraLensType::Telephoto { focal_length_min, focal_length_max, focus_speed },
            ),
        ) => Some(
            CameraLens {
                focal_length_min,
                focal_length_max,
                focus_speed,
                focal_length: focal_length_min,
                sensor_offset: 0,
            },
        ),
        _ => None,
    };
    rec.battery = match t {
        ItemType::Robot(RobotItemType::Battery { capacity, charge, charge_speed }) => {
            let cap = if capacity >= 0 {
                capacity
            } else {
                0
            };
            let ch = if charge < 0 {
                0
            } else if charge > cap {
                cap
            } else {
                charge
            };
            Some(Battery { capacity: cap, charge_speed, charge: ch })
        },
        _ => None,
    };
    rec.manometer = match t {
        ItemType::Manometer(ManometerItemType::Icon { progress }) => Some(
            Manometer { inspections: 0, progress },
        ),
        _ => None,
    };
}

/// One node of an intended tree: the catalog handle of its item, the point
/// of its parent it should join, and its own children.
pub struct SpawnItem {
    pub handle: usize,
    pub ap: Option<AttachmentPointId>,
    pub children: Vec<SpawnItem>,
}

impl SpawnItem {
    /// A root node.
    pub fn root(handle: usize) -> (r: SpawnItem)
        ensures
            r.handle == handle,
            r.ap is None,
            r.children@.len() == 0,
    {
        SpawnItem { handle, ap: None, children: Vec::new() }
    }

    /// A child node, destined for point `ap` of its parent.
    pub fn child(handle: usize, ap: AttachmentPointId) -> (r: SpawnItem)
        ensures
            r.handle == handle,
            r.ap == Some(ap),
            r.children@.len() == 0,
    {
        SpawnItem { handle, ap: Some(ap), children: Vec::new() }
    }

    /// Add a child under this node.
    pub fn add_child(&mut self, child: SpawnItem)
        ensures
            final(self).handle == old(self).handle,
            final(self).ap == old(self).ap,
            final(self).children@ == old(self).children@.push(child),
    {
        self.children.push(child);
    }
}

/// A freshly spawned node: alive, invisible, still assembling, carrying
/// one attachment intent.
#[verifier::opaque]
pub open spec fn pending_node(e: EntityRec) -> bool {
    &&& e.alive
    &&& !e.visible
    &&& e.tag == ParentEntity::WaitForAttach
    &&& e.request is Some
    &&& e.motors == granted_motors(e.item_type)
    &&& e.image_quality == granted_quality(e.item_type)
    &&& e.camera_lens == granted_lens(e.item_type)
    &&& e.battery == granted_battery(e.item_type)
    &&& e.manometer == granted_manometer(e.item_type)
}

/// The placeholder spawned when a catalog lookup misses: an empty,
/// free-standing entity with no intent, so the failed spawn degrades
/// instead of raising.
#[verifier::opaque]
pub open spec fn blank_node(e: EntityRec) -> bool {
    &&& e.alive
    &&& e.request is None
    &&& e.tag == ParentEntity::Free
    &&& e.attachments.0@.len() == 0
}

/// The attachment intent a spawned tree root carries: join the given
/// point of an existing entity, or stand alone.
pub open spec fn declared_intent(sup: Option<(usize, AttachmentPointId)>) -> WantToAttach {
    match sup {
        Some((p, aid)) => WantToAttach::To { parent: p, aid },
        None => WantToAttach::Me,
    }
}

/// The point a declared child is destined for; a child without one falls
/// back to the main camera point, as the spawn walk does.
pub open spec fn declared_aid(child: SpawnItem) -> AttachmentPointId {
    match child.ap {
        Some(aid) => aid,
        None => AttachmentPointId::MainCamera,
    }
}

/// How many entities the first `k` declared children of `item` spawn.
pub open spec fn csum(item: SpawnItem, k: int, cat: ItemCatalog) -> nat
    decreases item, k,
{
    if k <= 0 || k > item.children@.len() {
        0
    } else {
        csum(item, k - 1, cat) + spawn_count(item.children@[k - 1], cat)
    }
}

/// How many entities spawning this declared tree creates: one for the
/// node itself, plus its children's trees when the node's handle hits the
/// catalog — a miss spawns the placeholder alone, and no children.
pub open spec fn spawn_count(item: SpawnItem, cat: ItemCatalog) -> nat
    decreases item, item.children@.len() as int + 1,
{
    if item.handle >= cat.defs@.len() {
        1
    } else {
        1 + csum(item, item.children@.len() as int, cat)
    }
}

/// The first `k` declared children of the node spawned at `parent` stand,
/// in declaration order, in consecutive blocks from `base`.
pub open spec fn children_prefix(
    item: SpawnItem,
    k: int,
    parent: usize,
    base: int,
    w: World,
    cat: ItemCatalog,
) -> bool
    decreases item, k,
{
    if k <= 0 || k > item.children@.len() {
        true
    } else {
        &&& children_prefix(item, k - 1, parent, base, w, cat)
        &&& tree_spawned(
            item.children@[k - 1],
            Some((parent, declared_aid(item.children@[k - 1]))),
            w,
            base + csum(item, k - 1, cat),
            cat,
        )
    }
}

/// The declared tree stands spawned at `at`. A handle that misses the
/// catalog left one blank placeholder and nothing else; a handle that hit
/// left a pending node carrying exactly the declared intent and the
/// definition's identity, followed by each declared child's tree in
/// order.
pub open spec fn tree_spawned(
    item: SpawnItem,
    sup: Option<(usize, AttachmentPointId)>,
    w: World,
    at: int,
    cat: ItemCatalog,
) -> bool
    decreases item, item.children@.len() as int + 2,
{
    if item.handle >= cat.defs@.len() {
        blank_node(w.ent(at))
    } else {
        let def = cat.defs@[item.handle as int];
        &&& pending_node(w.ent(at))
        &&& w.ent(at).request == Some(declared_intent(sup))
        &&& w.ent(at).item_type == def.item_type
        &&& w.ent(at).item_size == def.item_size
        &&& w.ent(at).joint_type == def.joint_type
        &&& children_prefix(item, item.children@.len() as int, at as usize, at + 1, w, cat)
    }
}

/// Every handle of the declared tree resolves in the catalog.
pub open spec fn tree_valid(item: SpawnItem, cat: ItemCatalog) -> bool
    decreases item, item.children@.len() as int + 1,
{
    &&& (item.handle as int) < cat.defs@.len()
    &&& children_valid(item, item.children@.len() as int, cat)
}

/// Every handle among the first `k` children's subtrees resolves.
pub open spec fn children_valid(item: SpawnItem, k: int, cat: ItemCatalog) -> bool
    decreases item, k,
{
    if k <= 0 || k > item.children@.len() {
        true
    } else {
        children_valid(item, k - 1, cat) && tree_valid(item.children@[k - 1], cat)
    }
}

/// A spawned tree stays spawned when the world only appends entities
/// beyond it.
proof fn lemma_tree_spawned_grow(
    item: SpawnItem,
    sup: Option<(usize, AttachmentPointId)>,
    wb: World,
    wa: World,
    at: int,
    cat: ItemCatalog,
)
    requires
        tree_spawned(item, sup, wb, at, cat),
        0 <= at,
        at + spawn_count(item, cat) <= wb.num_entities(),
        forall|i: int| 0 <= i < wb.num_entities() ==> #[trigger] wa.ent(i) == wb.ent(i),
    ensures
        tree_spawned(item, sup, wa, at, cat),
    decreases item, item.children@.len() as int + 2,
{
    if item.handle >= cat.defs@.len() {
        assert(wa.ent(at) == wb.ent(at));
    } else {
        assert(wa.ent(at) == wb.ent(at));
        lemma_children_prefix_grow(
            item,
            item.children@.len() as int,
            at as usize,
            at + 1,
            wb,
            wa,
            cat,
        );
    }
}

/// As [`lemma_tree_spawned_grow`], for a prefix of children.
proof fn lemma_children_prefix_grow(
    item: SpawnItem,
    k: int,
    parent: usize,
    base: int,
    wb: World,
    wa: World,
    cat: ItemCatalog,
)
    requires
        children_prefix(item, k, parent, base, wb, cat),
        0 <= base,
        base + csum(item, k, cat) <= wb.num_entities(),
        forall|i: int| 0 <= i < wb.num_entities() ==> #[trigger] wa.ent(i) == wb.ent(i),
    ensures
        children_prefix(item, k, parent, base, wa, cat),
    decreases item, k,
{
    if 0 < k <= item.children@.len() {
        lemma_children_prefix_grow(item, k - 1, parent, base, wb, wa, cat);
        lemma_tree_spawned_grow(
            item.children@[k - 1],
            Some((parent, declared_aid(item.children@[k - 1]))),
            wb,
            wa,
            base + csum(item, k - 1, cat),
            cat,
        );
    }
}

/// In a spawned tree whose every handle hit the catalog, every entity of
/// the tree's block is a pending node.
pub proof fn lemma_valid_tree_all_pending(
    item: SpawnItem,
    sup: Option<(usize, AttachmentPointId)>,
    w: World,
    at: int,
    cat: ItemCatalog,
)
    requires
        tree_spawned(item, sup, w, at, cat),
        tree_valid(item, cat),
    ensures
        forall|i: int|
            at <= i < at + spawn_count(item, cat) ==> pending_node(#[trigger] w.ent(i)),
    decreases item, item.children@.len() as int + 2,
{
    lemma_children_all_pending(
        item,
        item.children@.len() as int,
        at as usize,
        at + 1,
        w,
        cat,
    );
    assert forall|i: int|
        at <= i < at + spawn_count(item, cat) implies pending_node(#[trigger] w.ent(i)) by {
        if i > at {
            assert(at + 1 <= i < at + 1 + csum(item, item.children@.len() as int, cat));
        }
    }
}

/// As [`lemma_valid_tree_all_pending`], for a prefix of children.
proof fn lemma_children_all_pending(
    item: SpawnItem,
    k: int,
    parent: usize,
    base: int,
    w: World,
    cat: ItemCatalog,
)
    requires
        children_prefix(item, k, parent, base, w, cat),
        children_valid(item, k, cat),
    ensures
        forall|i: int| base <= i < base + csum(item, k, cat) ==> pending_node(#[trigger] w.ent(i)),
    decreases item, k,
{
    if 0 < k <= item.children@.len() {
        lemma_children_all_pending(item, k - 1, parent, base, w, cat);
        lemma_valid_tree_all_pending(
            item.children@[k - 1],
            Some((parent, declared_aid(item.children@[k - 1]))),
            w,
            base + csum(item, k - 1, cat),
            cat,
        );
    }
}

/// What one spawned tree guarantees: the old arena is untouched, its
/// joints too; the new entities start at `lo` with the subtree root first;
/// every new node is pending (or a blank placeholder); and every pending
/// non-root node's intent names an earlier new node as parent, so the
/// intents form a tree over the fresh range.
pub open spec fn built_shape(
    w0: World,
    w1: World,
    lo: int,
    root: int,
    sup: Option<(usize, AttachmentPointId)>,
) -> bool {
    &&& w1.wf()
    &&& root == lo
    &&& lo + 1 <= w1.num_entities()
    &&& w0.num_entities() == lo
    &&& forall|k: int| 0 <= k < lo ==> #[trigger] w1.ent(k) == w0.ent(k)
    &&& w1.joints@ == w0.joints@
    &&& forall|i: int|
        lo <= i < w1.num_entities() ==> pending_node(#[trigger] w1.ent(i)) || blank_node(
            w1.ent(i),
        )
    &&& (pending_node(w1.ent(root)) ==> w1.ent(root).request == (match sup {
        Some((p, aid)) => Some(WantToAttach::To { parent: p, aid }),
        None => Some(WantToAttach::Me),
    }))
    &&& forall|i: int|
        lo < i < w1.num_entities() && pending_node(#[trigger] w1.ent(i)) ==> match w1.ent(
            i,
        ).request {
            Some(WantToAttach::To { parent, aid }) => lo <= parent < i,
            _ => false,
        }
}

/// Build the entity record for one catalog item, carrying the given
/// attachment intent.
fn make_entity(def: &ItemDef, request: WantToAttach) -> (rec: EntityRec)
    requires
        def.wf(),
    ensures
        pending_node(rec),
        rec.request == Some(request),
        rec.attachments.wf(),
        rec.attachments.0@.len() == def.attachment_points@.len(),
        forall|k: int|
            0 <= k < rec.attachments.0@.len() ==> (#[trigger] rec.attachments.0@[k]).attached
                is None,
        rec.item_type == def.item_type,
        rec.item_size == def.item_size,
        rec.joint_type == def.joint_type,
{
    proof {
        reveal(pending_node);
    }
    let attachments = def.instantiate_points();
    let mut rec = EntityRec {
        alive: true,
        item_type: def.item_type,
        item_size: def.item_size,
        joint_type: def.joint_type,
        origin_x: def.origin_x,
        origin_y: def.origin_y,
        visible: false,
        attachments,
        tag: ParentEntity::WaitForAttach,
        request: Some(request),
        motors: None,
        camera_lens: None,
        image_quality: None,
        battery: None,
        manometer: None,
        body: RigidBody::at_origin(),
    };
    attach_additional_components(&mut rec);
    rec
}

/// A subtree freshly built under a node extends that node's own built
/// shape.
#[verifier::spinoff_prover]
proof fn lemma_grow_shape(
    w0: World,
    wb: World,
    wa: World,
    lo: int,
    id: usize,
    sup: Option<(usize, AttachmentPointId)>,
    aid: AttachmentPointId,
    sub_root: int,
)
    requires
        built_shape(w0, wb, lo, id as int, sup),
        built_shape(wb, wa, wb.num_entities(), sub_root, Some((id, aid))),
    ensures
        built_shape(w0, wa, lo, id as int, sup),
{
    let mid = wb.num_entities();
    assert forall|k: int| 0 <= k < lo implies #[trigger] wa.ent(k) == w0.ent(k) by {
        assert(wa.ent(k) == wb.ent(k));
    }
    assert(wa.ent(id as int) == wb.ent(id as int));
    assert forall|i: int|
        lo <= i < wa.num_entities() implies pending_node(#[trigger] wa.ent(i)) || blank_node(
        wa.ent(i),
    ) by {
        if i < mid {
            assert(wa.ent(i) == wb.ent(i));
        }
    }
    assert forall|i: int|
        lo < i < wa.num_entities() && pending_node(#[trigger] wa.ent(i)) implies match wa.ent(
        i,
    ).request {
        Some(WantToAttach::To { parent, aid: aid2 }) => lo <= parent < i,
        _ => false,
    } by {
        if i < mid {
            assert(wa.ent(i) == wb.ent(i));
        } else {
            if i == sub_root {
                assert(pending_node(wa.ent(i)) ==> wa.ent(i).request == Some(
                    WantToAttach::To { parent: id, aid },
                ));
            } else {
                match wa.ent(i).request {
                    Some(WantToAttach::To { parent, aid: aid2 }) => {
                        assert(mid <= parent < i);
                    },
                    _ => {},
                }
            }
        }
    }
}

/// Spawn one tree of items: the node itself first, then, recursively,
/// each of its children with an intent to join it.
#[verifier::spinoff_prover]
#[verifier::loop_isolation(false)]
#[verifier::rlimit(60)]
fn spawn_tree(
    item: &SpawnItem,
    sup: Option<(usize, AttachmentPointId)>,
    w: &mut World,
    catalog: &ItemCatalog,
) -> (root: usize)
    requires
        old(w).wf(),
        catalog.wf(),
    ensures
        built_shape(*old(w), *final(w), old(w).num_entities(), root as int, sup),
        final(w).num_entities() == old(w).num_entities() + spawn_count(*item, *catalog),
        tree_spawned(*item, sup, *final(w), old(w).num_entities(), *catalog),
    decreases *item,
{
    let ghost w0 = *old(w);
    let ghost lo = w0.num_entities();
    match catalog.lookup(item.handle) {
        None => {
            let rec = EntityRec {
                alive: true,
                item_type: ItemType::Item,
                item_size: ItemSize(0),
                joint_type: JointType::Fixed,
                origin_x: 0,
                origin_y: 0,
                visible: false,
                attachments: crate::attachment::AttachmentMap::new(),
                tag: ParentEntity::Free,
                request: None,
                motors: None,
                camera_lens: None,
                image_quality: None,
                battery: None,
                manometer: None,
                body: RigidBody::at_origin(),
            };
            let id = w.spawn(rec);
            proof {
                reveal(blank_node);
                reveal(pending_node);
                assert(blank_node(w.ent(id as int)));
                assert(!pending_node(w.ent(id as int)));
                assert forall|i: int|
                    lo <= i < w.num_entities() implies pending_node(#[trigger] w.ent(i))
                        || blank_node(w.ent(i)) by {
                    assert(i == id as int);
                }
                assert(spawn_count(*item, *catalog) == 1);
                assert(tree_spawned(*item, sup, *w, lo, *catalog));
            }
            id
        },
        Some(def) => {
            let request = match sup {
                Some((p, aid)) => WantToAttach::To { parent: p, aid },
                None => WantToAttach::Me,
            };
            let rec = make_entity(def, request);
            let id = w.spawn(rec);
            let ghost root_rec = w.ent(id as int);
            proof {
                assert(pending_node(root_rec));
                assert(root_rec.request == Some(declared_intent(sup)));
                assert forall|i: int|
                    lo <= i < w.num_entities() implies pending_node(#[trigger] w.ent(i))
                        || blank_node(w.ent(i)) by {
                    assert(i == id as int);
                }
                assert(built_shape(w0, *w, lo, id as int, sup));
                assert(csum(*item, 0, *catalog) == 0);
            }
            let n_children = item.children.len();
            let mut k: usize = 0;
            while k < n_children
                invariant
                    k <= n_children,
                    id as int == lo,
                    built_shape(w0, *w, lo, id as int, sup),
                    w.num_entities() == lo + 1 + csum(*item, k as int, *catalog),
                    children_prefix(*item, k as int, id, lo + 1, *w, *catalog),
                    w.ent(lo) == root_rec,
                decreases n_children - k,
            {
                let ghost w_before = *w;
                let child = &item.children[k];
                let aid = match child.ap {
                    Some(aid) => aid,
                    None => AttachmentPointId::MainCamera,
                };
                let sub_root = spawn_tree(child, Some((id, aid)), w, catalog);
                proof {
                    lemma_grow_shape(
                        w0,
                        w_before,
                        *w,
                        lo,
                        id,
                        sup,
                        aid,
                        sub_root as int,
                    );
                    assert(aid == declared_aid(item.children@[k as int]));
                    assert(csum(*item, k + 1, *catalog) == csum(*item, k as int, *catalog)
                        + spawn_count(item.children@[k as int], *catalog));
                    lemma_children_prefix_grow(
                        *item,
                        k as int,
                        id,
                        lo + 1,
                        w_before,
                        *w,
                        *catalog,
                    );
                    assert(tree_spawned(
                        item.children@[k as int],
                        Some((id, aid)),
                        *w,
                        lo + 1 + csum(*item, k as int, *catalog),
                        *catalog,
                    ));
                    assert(children_prefix(*item, k + 1, id, lo + 1, *w, *catalog));
                    assert(w.ent(lo) == w_before.ent(lo));
                }
                k = k + 1;
            }
            proof {
                assert((item.handle as int) < catalog.defs@.len());
                assert(spawn_count(*item, *catalog) == 1 + csum(
                    *item,
                    item.children@.len() as int,
                    *catalog,
                ));
                assert(tree_spawned(*item, sup, *w, lo, *catalog)) by {
                    assert(w.ent(lo) == root_rec);
                    assert(*def == catalog.defs@[item.handle as int]);
                    assert(children_prefix(
                        *item,
                        item.children@.len() as int,
                        id,
                        lo + 1,
                        *w,
                        *catalog,
                    ));
                }
            }
            id
        },
    }
}

/// The staged description of a robot: what to spawn, where to hang it, and
/// whether to mark it selected.
pub struct RobotBuilder {
    pub spawn_item: Option<SpawnItem>,
    pub super_parent: Option<(usize, AttachmentPointId)>,
    pub selected: bool,
}

impl RobotBuilder {
    /// An empty builder.
    pub fn new() -> (r: RobotBuilder)
        ensures
            r.spawn_item is None,
            r.super_parent is None,
            !r.selected,
    {
        RobotBuilder { spawn_item: None, super_parent: None, selected: false }
    }

    /// Declare the root item of a free-standing robot. A second root
    /// declaration is ignored.
    pub fn robot(self, handle: usize) -> (r: RobotBuilder)
        ensures
            self.spawn_item is None ==> {
                &&& r.spawn_item matches Some(si)
                &&& si.handle == handle
                &&& si.ap is None
                &&& si.children@.len() == 0
                &&& r.super_parent == self.super_parent
                &&& r.selected == self.selected
            },
            self.spawn_item is Some ==> r == self,
    {
        match self.spawn_item {
            None => RobotBuilder { spawn_item: Some(SpawnItem::root(handle)), ..self },
            Some(_) => self,
        }
    }

    /// Declare the root item of a robot hung on an existing attachment
    /// point. A second declaration is ignored.
    pub fn attachment(self, handle: usize, aid: AttachmentPointId, parent: usize) -> (r:
        RobotBuilder)
        ensures
            self.spawn_item is None ==> {
                &&& r.spawn_item matches Some(si)
                &&& si.handle == handle
                &&& si.ap is None
                &&& si.children@.len() == 0
                &&& r.super_parent == Some((parent, aid))
                &&& r.selected == self.selected
            },
            self.spawn_item is Some ==> r == self,
    {
        match self.spawn_item {
            None => RobotBuilder {
                spawn_item: Some(SpawnItem::root(handle)),
                super_parent: Some((parent, aid)),
                ..self
            },
            Some(_) => self,
        }
    }

    /// Attach one child item under the declared root. Without a root the
    /// call is ignored.
    pub fn attach(self, handle: usize, aid: AttachmentPointId) -> (r: RobotBuilder)
        ensures
            match self.spawn_item {
                Some(si) => {
                    &&& r.spawn_item matches Some(si2)
                    &&& si2.handle == si.handle
                    &&& si2.ap == si.ap
                    &&& si2.children@.len() == si.children@.len() + 1
                    &&& forall|k: int|
                        0 <= k < si.children@.len() ==> si2.children@[k] == si.children@[k]
                    &&& si2.children@[si.children@.len() as int].handle == handle
                    &&& si2.children@[si.children@.len() as int].ap == Some(aid)
                    &&& si2.children@[si.children@.len() as int].children@.len() == 0
                    &&& r.super_parent == self.super_parent
                    &&& r.selected == self.selected
                },
                None => r == self,
            },
    {
        match self.spawn_item {
            Some(mut si) => {
                si.add_child(SpawnItem::child(handle, aid));
                RobotBuilder { spawn_item: Some(si), ..self }
            },
            None => self,
        }
    }

    /// Attach one child item and describe its own subtree through `f`,
    /// which receives a builder rooted at the child. Without a root, or if
    /// `f` discards the child, the call is ignored.
    pub fn attach_then<F: FnOnce(RobotBuilder) -> RobotBuilder>(
        self,
        handle: usize,
        aid: AttachmentPointId,
        f: F,
    ) -> (r: RobotBuilder)
        requires
            forall|sub: RobotBuilder| #[trigger] f.requires((sub,)),
        ensures
            exists|sub: RobotBuilder, b: RobotBuilder|
                {
                    &&& sub.spawn_item matches Some(ssi)
                    &&& ssi.handle == handle
                    &&& ssi.ap == Some(aid)
                    &&& ssi.children@.len() == 0
                    &&& sub.super_parent is None
                    &&& !sub.selected
                    &&& #[trigger] f.ensures((sub,), b)
                    &&& match (self.spawn_item, b.spawn_item) {
                        (Some(si), Some(ci)) => {
                            &&& r.spawn_item matches Some(si2)
                            &&& si2.handle == si.handle
                            &&& si2.ap == si.ap
                            &&& si2.children@ == si.children@.push(ci)
                            &&& r.super_parent == self.super_parent
                            &&& r.selected == self.selected
                        },
                        _ => r == self,
                    }
                },
    {
        let sub = RobotBuilder {
            spawn_item: Some(SpawnItem::child(handle, aid)),
            super_parent: None,
            selected: false,
        };
        let ghost sub0 = sub;
        let b = f(sub);
        match self.spawn_item {
            Some(mut si) => {
                match b.spawn_item {
                    Some(ci) => {
                        si.add_child(ci);
                        let r = RobotBuilder { spawn_item: Some(si), ..self };
                        r
                    },
                    None => RobotBuilder { spawn_item: Some(si), ..self },
                }
            },
            None => self,
        }
    }

    /// Mark the robot as selected once spawned.
    pub fn select(self) -> (r: RobotBuilder)
        ensures
            r == (RobotBuilder { selected: true, ..self }),
    {
        RobotBuilder { selected: true, ..self }
    }

    /// Spawn the declared tree into the world, returning the root entity.
    /// With nothing declared, or on a catalog miss, a blank placeholder
    /// entity is spawned instead of raising.
    pub fn build(&self, w: &mut World, catalog: &ItemCatalog) -> (root: usize)
        requires
            old(w).wf(),
            catalog.wf(),
        ensures
            final(w).wf(),
            root as int == old(w).num_entities(),
            match self.spawn_item {
                Some(si) => {
                    &&& built_shape(
                        *old(w),
                        *final(w),
                        old(w).num_entities(),
                        root as int,
                        self.super_parent,
                    )
                    &&& final(w).num_entities() == old(w).num_entities() + spawn_count(
                        si,
                        *catalog,
                    )
                    &&& tree_spawned(
                        si,
                        self.super_parent,
                        *final(w),
                        old(w).num_entities(),
                        *catalog,
                    )
                },
                None => final(w).num_entities() == old(w).num_entities() + 1 && blank_node(
                    final(w).ent(root as int),
                ) && final(w).joints@ == old(w).joints@ && (forall|k: int|
                    0 <= k < old(w).num_entities() ==> #[trigger] final(w).ent(k) == old(
                        w,
                    ).ent(k)),
            },
    {
        match &self.spawn_item {
            Some(si) => spawn_tree(si, self.super_parent, w, catalog),
            None => {
                let rec = EntityRec {
                    alive: true,
                    item_type: ItemType::Item,
                    item_size: ItemSize(0),
                    joint_type: JointType::Fixed,
                    origin_x: 0,
                    origin_y: 0,
                    visible: false,
                    attachments: crate::attachment::AttachmentMap::new(),
                    tag: ParentEntity::Free,
                    request: None,
                    motors: None,
                    camera_lens: None,
                    image_quality: None,
                    battery: None,
                    manometer: None,
                    body: RigidBody::at_origin(),
                };
                let id = w.spawn(rec);
                proof {
                    reveal(blank_node);
                }
                id
            },
        }
    }
}

} // verus!
