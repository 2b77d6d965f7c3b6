//! The closed vocabulary of the item catalog: item kinds, size classes,
//! attachment-point identities and joint kinds.
//!
//! Scalar payloads (focal lengths, battery capacity, gauge progress) are
//! integers in thousandths of the engine's fractional unit.

use vstd::prelude::*;

verus! {

/// Size class of an item. An attachment point carries a maximum size and
/// accepts only children whose size class does not exceed it.
#[derive(Clone, Copy, PartialEq, Eq, Structural, Debug)]
pub struct ItemSize(pub usize);

impl ItemSize {
    /// True when a point whose maximum is `self` accepts an item of size
    /// `other`.
    pub fn compatible(self, other: &ItemSize) -> (r: bool)
        ensures
            r == (other.0 <= self.0),
    {
        self.0 >= other.0
    }
}

/// Kind of lens mounted on a camera item.
#[derive(Clone, Copy, PartialEq, Eq, Structural, Debug)]
pub enum CameraLensType {
    Unspecified,
    Wide { focal_length: i64 },
    Telephoto { focal_length_min: i64, focal_length_max: i64, focus_speed: i64 },
}

/// Kind of a robot part.
#[derive(Clone, Copy, PartialEq, Eq, Structural, Debug)]
pub enum RobotItemType {
    Unspecified,
    Camera,
    CameraLens(CameraLensType),
    Body,
    GroundPropulsion,
    Connector,
    Battery { capacity: i64, charge: i64, charge_speed: i64 },
}

/// Kind of a gauge (manometer) part.
#[derive(Clone, Copy, PartialEq, Eq, Structural, Debug)]
pub enum ManometerItemType {
    Unspecified,
    Background,
    Frame,
    Pointer,
    Markings,
    Icon { progress: i64 },
}

/// Kind of a map marker.
#[derive(Clone, Copy, PartialEq, Eq, Structural, Debug)]
pub enum MarkerItemType {
    Unspecified,
    Waypoint,
}

/// Kind of an environment tile.
#[derive(Clone, Copy, PartialEq, Eq, Structural, Debug)]
pub enum EnvironmentItemType {
    Unspecified,
    Ground,
    Wall,
    Pipe,
}

/// The type of an item. Payload fields (focal length, battery charge, gauge
/// progress) describe one concrete item; compatibility of an item with an
/// attachment point looks only at the variant, never at the payload.
#[derive(Clone, Copy, PartialEq, Eq, Structural, Debug)]
pub enum ItemType {
    Item,
    Marker(MarkerItemType),
    Robot(RobotItemType),
    Environment(EnvironmentItemType),
    Manometer(ManometerItemType),
}

impl Default for ItemType {
    fn default() -> (r: Self)
        ensures
            r == ItemType::Item,
    {
        ItemType::Item
    }
}

/// Variant identity of two camera-lens types: payload fields are ignored.
pub open spec fn same_lens_kind(a: CameraLensType, b: CameraLensType) -> bool {
    match (a, b) {
        (CameraLensType::Unspecified, CameraLensType::Unspecified) => true,
        (CameraLensType::Wide { .. }, CameraLensType::Wide { .. }) => true,
        (CameraLensType::Telephoto { .. }, CameraLensType::Telephoto { .. }) => true,
        _ => false,
    }
}

/// Variant identity of two robot part types: payload fields are ignored, and
/// all lenses count as the one kind "camera lens".
pub open spec fn same_robot_kind(a: RobotItemType, b: RobotItemType) -> bool {
    match (a, b) {
        (RobotItemType::Unspecified, RobotItemType::Unspecified) => true,
        (RobotItemType::Camera, RobotItemType::Camera) => true,
        (RobotItemType::CameraLens(..), RobotItemType::CameraLens(..)) => true,
        (RobotItemType::Body, RobotItemType::Body) => true,
        (RobotItemType::GroundPropulsion, RobotItemType::GroundPropulsion) => true,
        (RobotItemType::Connector, RobotItemType::Connector) => true,
        (RobotItemType::Battery { .. }, RobotItemType::Battery { .. }) => true,
        _ => false,
    }
}

/// Variant identity of two gauge part types: payload fields are ignored.
pub open spec fn same_manometer_kind(a: ManometerItemType, b: ManometerItemType) -> bool {
    match (a, b) {
        (ManometerItemType::Unspecified, ManometerItemType::Unspecified) => true,
        (ManometerItemType::Background, ManometerItemType::Background) => true,
        (ManometerItemType::Frame, ManometerItemType::Frame) => true,
        (ManometerItemType::Pointer, ManometerItemType::Pointer) => true,
        (ManometerItemType::Markings, ManometerItemType::Markings) => true,
        (ManometerItemType::Icon { .. }, ManometerItemType::Icon { .. }) => true,
        _ => false,
    }
}

/// Structural identity of two item types: the same variant tree, with every
/// scalar payload ignored. This is the identity under which an attachment
/// point's accepted-type list is searched.
pub open spec fn same_kind(a: ItemType, b: ItemType) -> bool {
    match (a, b) {
        (ItemType::Item, ItemType::Item) => true,
        (ItemType::Marker(x), ItemType::Marker(y)) => x == y,
        (ItemType::Robot(x), ItemType::Robot(y)) => same_robot_kind(x, y),
        (ItemType::Environment(x), ItemType::Environment(y)) => x == y,
        (ItemType::Manometer(x), ItemType::Manometer(y)) => same_manometer_kind(x, y),
        _ => false,
    }
}

impl ItemType {
    /// Decide structural identity with another item type.
    pub fn kind_eq(&self, other: &ItemType) -> (r: bool)
        ensures
            r == same_kind(*self, *other),
    {
        match (self, other) {
            (ItemType::Item, ItemType::Item) => true,
            (ItemType::Marker(x), ItemType::Marker(y)) => x == y,
            (ItemType::Robot(x), ItemType::Robot(y)) => match (x, y) {
                (RobotItemType::Unspecified, RobotItemType::Unspecified) => true,
                (RobotItemType::Camera, RobotItemType::Camera) => true,
                (RobotItemType::CameraLens(..), RobotItemType::CameraLens(..)) => true,
                (RobotItemType::Body, RobotItemType::Body) => true,
                (RobotItemType::GroundPropulsion, RobotItemType::GroundPropulsion) => true,
                (RobotItemType::Connector, RobotItemType::Connector) => true,
                (RobotItemType::Battery { .. }, RobotItemType::Battery { .. }) => true,
                _ => false,
            },
            (ItemType::Environment(x), ItemType::Environment(y)) => x == y,
            (ItemType::Manometer(x), ItemType::Manometer(y)) => match (x, y) {
                (ManometerItemType::Unspecified, ManometerItemType::Unspecified) => true,
                (ManometerItemType::Background, ManometerItemType::Background) => true,
                (ManometerItemType::Frame, ManometerItemType::Frame) => true,
                (ManometerItemType::Pointer, ManometerItemType::Pointer) => true,
                (ManometerItemType::Markings, ManometerItemType::Markings) => true,
                (ManometerItemType::Icon { .. }, ManometerItemType::Icon { .. }) => true,
                _ => false,
            },
            _ => false,
        }
    }

    /// Short name of the variant, ignoring payload fields.
    pub fn name(&self) -> (r: &'static str) {
        match self {
            ItemType::Item => "Item",
            ItemType::Marker(t) => match t {
                MarkerItemType::Unspecified => "None",
                MarkerItemType::Waypoint => "Waypoint",
            },
            ItemType::Robot(t) => match t {
                RobotItemType::Unspecified => "None",
                RobotItemType::Camera => "Camera",
                RobotItemType::CameraLens(..) => "Camera Lens",
                RobotItemType::Body => "Body",
                RobotItemType::GroundPropulsion => "Ground Propulsion",
                RobotItemType::Connector => "Connector",
                RobotItemType::Battery { .. } => "Battery",
            },
            ItemType::Environment(t) => match t {
                EnvironmentItemType::Unspecified => "None",
                EnvironmentItemType::Ground => "Ground",
                EnvironmentItemType::Wall => "Wall",
                EnvironmentItemType::Pipe => "Pipe",
            },
            ItemType::Manometer(t) => match t {
                ManometerItemType::Unspecified => "None",
                ManometerItemType::Background => "Background",
                ManometerItemType::Frame => "Frame",
                ManometerItemType::Pointer => "Pointer",
                ManometerItemType::Markings => "Markings",
                ManometerItemType::Icon { .. } => "Icon",
            },
        }
    }
}

/// Identity of an attachment point on its owning item: a closed set of named
/// sockets.
#[derive(Clone, Copy, PartialEq, Eq, Structural, Debug, Hash)]
pub enum AttachmentPointId {
    MainCamera,
    GroundPropulsionRight,
    GroundPropulsionLeft,
    LineFollowerCamera,
    FirstCamera,
    SecondCamera,
    MainBattery,
    CameraLens,
    Manometer,
    ManometerBackground,
    ManometerFrame,
    ManometerPointer,
    ManometerMarkings,
    Next,
    Previous,
}

impl Default for AttachmentPointId {
    fn default() -> (r: Self)
        ensures
            r == AttachmentPointId::MainCamera,
    {
        AttachmentPointId::MainCamera
    }
}

impl AttachmentPointId {
    /// Human-readable name of the point.
    pub fn name(&self) -> (r: &'static str) {
        match self {
            AttachmentPointId::MainCamera => "Main Camera",
            AttachmentPointId::GroundPropulsionRight => "Ground Propulsion Right",
            AttachmentPointId::GroundPropulsionLeft => "Ground Propulsion Left",
            AttachmentPointId::LineFollowerCamera => "Line Follower Camera",
            AttachmentPointId::FirstCamera => "First Camera",
            AttachmentPointId::SecondCamera => "Second Camera",
            AttachmentPointId::MainBattery => "Main Battery",
            AttachmentPointId::CameraLens => "Camera Lens",
            AttachmentPointId::Manometer => "Manometer",
            AttachmentPointId::ManometerBackground => "Manometer Background",
            AttachmentPointId::ManometerFrame => "Manometer Frame",
            AttachmentPointId::ManometerPointer => "Manometer Pointer",
            AttachmentPointId::ManometerMarkings => "Manometer Markings",
            AttachmentPointId::Next => "Next",
            AttachmentPointId::Previous => "Previous",
        }
    }
}

/// Kind of physics joint created when a child commits to an attachment
/// point.
#[derive(Clone, Copy, PartialEq, Eq, Structural, Debug)]
pub enum JointType {
    Fixed,
    Ball,
    Prismatic,
    Revolute,
}

impl Default for JointType {
    fn default() -> (r: Self)
        ensures
            r == JointType::Fixed,
    {
        JointType::Fixed
    }
}

} // verus!
