//! End-to-end scenarios of the assembly protocol and the command executor.

use robot_assembly::assembly::spawn_joints;
use robot_assembly::attachment::{Attachment, RelTransform};
use robot_assembly::builder::RobotBuilder;
use robot_assembly::catalog::{AttachmentPointSpec, ItemCatalog, ItemDef};
use robot_assembly::commands::{handle_command, RobotCommand, RobotCommandType, RobotCommands};
use robot_assembly::tags::{filter_contact_pair, get_robot_body, ParentEntity};
use robot_assembly::types::{
    AttachmentPointId, EnvironmentItemType, ItemSize, ItemType, JointType, MarkerItemType,
    RobotItemType,
};
use robot_assembly::world::{WantToAttach, World};

fn point(aid: AttachmentPointId, max: usize, accepted: Vec<ItemType>) -> (
    AttachmentPointId,
    AttachmentPointSpec,
) {
    (
        aid,
        AttachmentPointSpec {
            transform: RelTransform { x: 1000, y: 2000, z: 10, rot: 0 },
            item_types: accepted,
            max_item_size: max,
        },
    )
}

fn def(t: ItemType, size: usize, points: Vec<(AttachmentPointId, AttachmentPointSpec)>) -> ItemDef {
    ItemDef {
        item_size: ItemSize(size),
        item_type: t,
        joint_type: JointType::Ball,
        z_index: 0,
        origin_x: 0,
        origin_y: 0,
        extent_x: 1000,
        extent_y: 1000,
        attachment_points: points,
    }
}

/// A catalog with a body (size 3) offering a camera point, a camera
/// (size 1) offering a lens point, a lens, and a battery.
fn catalog() -> ItemCatalog {
    let mut c = ItemCatalog::new();
    let body = def(
        ItemType::Robot(RobotItemType::Body),
        3,
        vec![point(
            AttachmentPointId::MainCamera,
            2,
            vec![ItemType::Robot(RobotItemType::Camera)],
        )],
    );
    let camera = def(
        ItemType::Robot(RobotItemType::Camera),
        1,
        vec![
            point(
                AttachmentPointId::FirstCamera,
                2,
                vec![ItemType::Robot(RobotItemType::Camera)],
            ),
            point(
                AttachmentPointId::CameraLens,
                1,
                vec![ItemType::Robot(RobotItemType::CameraLens(
                    robot_assembly::types::CameraLensType::Unspecified,
                ))],
            ),
        ],
    );
    let lens = def(
        ItemType::Robot(RobotItemType::CameraLens(
            robot_assembly::types::CameraLensType::Wide { focal_length: 5000 },
        )),
        1,
        vec![],
    );
    let battery = def(
        ItemType::Robot(RobotItemType::Battery {
            capacity: 100,
            charge: 50,
            charge_speed: 1,
        }),
        1,
        vec![],
    );
    c.register(body);
    c.register(camera);
    c.register(lens);
    c.register(battery);
    c
}

const BODY: usize = 0;
const CAMERA: usize = 1;
const LENS: usize = 2;
const BATTERY: usize = 3;

#[test]
fn simple_attach() {
    let cat = catalog();
    let mut w = World::new();
    let b = RobotBuilder::new().robot(BODY).attach(CAMERA, AttachmentPointId::MainCamera);
    let root = b.build(&mut w, &cat);
    assert_eq!(root, 0);
    assert_eq!(w.entities.len(), 2);
    // Tick one: the root commits; the child still sees a waiting parent.
    spawn_joints(&mut w);
    assert_eq!(w.entities[0].tag, ParentEntity::Robot(0));
    assert_eq!(w.entities[1].tag, ParentEntity::WaitForAttach);
    // Tick two: the child commits against the now-ready parent.
    spawn_joints(&mut w);
    assert_eq!(w.entities[1].tag, ParentEntity::Robot(0));
    assert!(w.entities[1].request.is_none());
    assert!(w.entities[1].visible);
    let at = &w.entities[0].attachments.0[0];
    assert_eq!(at.attached, Some((1, 0)));
    assert_eq!(w.joints.len(), 1);
    assert!(w.joints[0].alive);
    assert_eq!(w.joints[0].parent, 0);
    assert_eq!(w.joints[0].child, 1);
    assert_eq!(w.joints[0].kind, JointType::Ball);
    // A ball joint's motor is preset to zero velocity with damping.
    assert_eq!(w.joints[0].motor.target_velocity, 0);
    assert_eq!(w.joints[0].motor.damping, 200);
    // Placement: the child sits at the point's offset.
    assert_eq!(w.entities[1].body.x, w.entities[0].body.x + 1000);
    assert_eq!(w.entities[1].body.y, w.entities[0].body.y + 2000);
}

#[test]
fn incompatible_attach_stays_pending() {
    let cat = catalog();
    let mut w = World::new();
    // A battery offered at the camera point, which does not accept it.
    let b = RobotBuilder::new().robot(BODY).attach(BATTERY, AttachmentPointId::MainCamera);
    let _root = b.build(&mut w, &cat);
    for _ in 0..5 {
        spawn_joints(&mut w);
    }
    assert_eq!(w.entities[1].tag, ParentEntity::WaitForAttach);
    assert!(matches!(
        w.entities[1].request,
        Some(WantToAttach::To { parent: 0, aid: AttachmentPointId::MainCamera })
    ));
    assert!(w.entities[0].attachments.0[0].attached.is_none());
    assert_eq!(w.joints.len(), 0);
}

#[test]
fn nested_attach_shares_one_root_tag() {
    let cat = catalog();
    let mut w = World::new();
    // root body -> mast camera at MainCamera -> zoom camera at FirstCamera
    // on the mast -> lens at CameraLens on the zoom camera.
    let b = RobotBuilder::new().robot(BODY).attach_then(
        CAMERA,
        AttachmentPointId::MainCamera,
        |mast| {
            mast.attach_then(CAMERA, AttachmentPointId::FirstCamera, |zoom| {
                zoom.attach(LENS, AttachmentPointId::CameraLens)
            })
        },
    );
    let root = b.build(&mut w, &cat);
    assert_eq!(w.entities.len(), 4);
    for _ in 0..4 {
        spawn_joints(&mut w);
    }
    for i in 0..4 {
        assert_eq!(w.entities[i].tag, ParentEntity::Robot(root));
        assert!(w.entities[i].request.is_none());
    }
    assert_eq!(w.joints.len(), 3);
    // Each joint parented correctly: mast->root, zoom->mast, lens->zoom.
    assert_eq!((w.joints[0].parent, w.joints[0].child), (0, 1));
    assert_eq!((w.joints[1].parent, w.joints[1].child), (1, 2));
    assert_eq!((w.joints[2].parent, w.joints[2].child), (2, 3));
}

#[test]
fn occupied_point_is_never_evicted() {
    let cat = catalog();
    let mut w = World::new();
    let b = RobotBuilder::new().robot(BODY).attach(CAMERA, AttachmentPointId::MainCamera);
    let _ = b.build(&mut w, &cat);
    spawn_joints(&mut w);
    spawn_joints(&mut w);
    assert_eq!(w.entities[0].attachments.0[0].attached, Some((1, 0)));
    // A rival camera aimed at the same, now occupied point stays pending.
    let rival = RobotBuilder::new().attachment(CAMERA, AttachmentPointId::MainCamera, 0);
    let rv = rival.build(&mut w, &cat);
    for _ in 0..3 {
        spawn_joints(&mut w);
    }
    assert_eq!(w.entities[0].attachments.0[0].attached, Some((1, 0)));
    assert_eq!(w.entities[rv].tag, ParentEntity::WaitForAttach);
    assert_eq!(w.joints.len(), 1);
}

#[test]
fn detach_then_reattach() {
    let cat = catalog();
    let mut w = World::new();
    let b = RobotBuilder::new().robot(BODY).attach(CAMERA, AttachmentPointId::MainCamera);
    let _ = b.build(&mut w, &cat);
    spawn_joints(&mut w);
    spawn_joints(&mut w);
    let pair = w.detach(0, AttachmentPointId::MainCamera);
    assert_eq!(pair, Some((1, 0)));
    assert!(!w.entities[1].alive);
    assert!(!w.joints[0].alive);
    // The point is free again: a replacement camera can commit.
    let rep = RobotBuilder::new().attachment(CAMERA, AttachmentPointId::MainCamera, 0);
    let rv = rep.build(&mut w, &cat);
    spawn_joints(&mut w);
    assert_eq!(w.entities[0].attachments.0[0].attached, Some((rv, 1)));
    assert_eq!(w.entities[rv].tag, ParentEntity::Robot(0));
}

#[test]
fn sweep_removes_dangling_joints() {
    let cat = catalog();
    let mut w = World::new();
    let b = RobotBuilder::new().robot(BODY).attach(CAMERA, AttachmentPointId::MainCamera);
    let _ = b.build(&mut w, &cat);
    spawn_joints(&mut w);
    spawn_joints(&mut w);
    // Kill the child out of band; the sweep then despawns its joint.
    w.entities[1].alive = false;
    w.despawn_detached_items();
    assert!(!w.joints[0].alive);
}

#[test]
fn power_starved_motor_command_changes_nothing() {
    let cat = catalog();
    let mut w = World::new();
    let b = RobotBuilder::new()
        .robot(BODY)
        .attach(CAMERA, AttachmentPointId::MainCamera);
    let _ = b.build(&mut w, &cat);
    spawn_joints(&mut w);
    spawn_joints(&mut w);
    // Give the root a battery with charge 5 by hand.
    w.entities[0].battery = Some(robot_assembly::components::Battery {
        capacity: 100,
        charge_speed: 0,
        charge: 5,
    });
    w.entities[0].motors = Some(robot_assembly::components::Motors {
        linear_speed: 1,
        angular_speed: 1,
        linear_damping: 1,
        angular_damping: 1,
    });
    let mut bus = RobotCommands::new();
    bus.send(RobotCommand {
        robot_entity: ParentEntity::Robot(0),
        command: RobotCommandType::MoveMotors { entity: 0, force_x: 1, force_y: 0, torque: 0 },
        power_consumption: 10,
    });
    handle_command(&mut w, &mut bus);
    assert_eq!(bus.queue.len(), 0);
    // Cost 10 exceeds charge 5: nothing is debited, nothing moves.
    assert_eq!(w.entities[0].battery.unwrap().charge, 5);
    assert_eq!(w.entities[0].body.force_x, 0);
}

#[test]
fn affordable_command_debits_and_applies() {
    let cat = catalog();
    let mut w = World::new();
    let b = RobotBuilder::new().robot(BODY).attach(CAMERA, AttachmentPointId::MainCamera);
    let _ = b.build(&mut w, &cat);
    spawn_joints(&mut w);
    spawn_joints(&mut w);
    w.entities[0].battery = Some(robot_assembly::components::Battery {
        capacity: 100,
        charge_speed: 0,
        charge: 50,
    });
    w.entities[0].motors = Some(robot_assembly::components::Motors {
        linear_speed: 1,
        angular_speed: 1,
        linear_damping: 1,
        angular_damping: 1,
    });
    let mut bus = RobotCommands::new();
    bus.send(RobotCommand {
        robot_entity: ParentEntity::Robot(0),
        command: RobotCommandType::MoveMotors { entity: 0, force_x: 7, force_y: -3, torque: 2 },
        power_consumption: 10,
    });
    // Two commands in one tick add up on the accumulator.
    bus.send(RobotCommand {
        robot_entity: ParentEntity::Robot(0),
        command: RobotCommandType::MoveMotors { entity: 0, force_x: 1, force_y: 1, torque: 0 },
        power_consumption: 10,
    });
    handle_command(&mut w, &mut bus);
    assert_eq!(w.entities[0].battery.unwrap().charge, 30);
    assert_eq!(w.entities[0].body.force_x, 8);
    assert_eq!(w.entities[0].body.force_y, -2);
    assert_eq!(w.entities[0].body.torque, 2);
}

#[test]
fn move_joint_command_sets_motor() {
    let cat = catalog();
    let mut w = World::new();
    let b = RobotBuilder::new().robot(BODY).attach(CAMERA, AttachmentPointId::MainCamera);
    let _ = b.build(&mut w, &cat);
    spawn_joints(&mut w);
    spawn_joints(&mut w);
    w.entities[0].battery = Some(robot_assembly::components::Battery {
        capacity: 100,
        charge_speed: 0,
        charge: 50,
    });
    let mut bus = RobotCommands::new();
    bus.send(RobotCommand {
        robot_entity: ParentEntity::Robot(0),
        command: RobotCommandType::MoveJoint { joint: 0, velocity: 9, damping: 300 },
        power_consumption: 1,
    });
    handle_command(&mut w, &mut bus);
    assert_eq!(w.joints[0].motor.target_velocity, 9);
    assert_eq!(w.joints[0].motor.damping, 300);
    assert_eq!(w.entities[0].battery.unwrap().charge, 49);
}

#[test]
fn collision_filter_rules() {
    let wait = ParentEntity::WaitForAttach;
    let free = ParentEntity::Free;
    let r0 = ParentEntity::Robot(0);
    let r1 = ParentEntity::Robot(1);
    // Still-assembling entities collide with nothing.
    assert!(filter_contact_pair(&wait, &free));
    assert!(filter_contact_pair(&wait, &r0));
    assert!(filter_contact_pair(&r1, &wait));
    assert!(filter_contact_pair(&wait, &wait));
    // One machine's parts never collide with each other.
    assert!(filter_contact_pair(&r0, &r0));
    // Different robots, and free-standing entities, do collide.
    assert!(!filter_contact_pair(&r0, &r1));
    assert!(!filter_contact_pair(&r0, &free));
    assert!(!filter_contact_pair(&free, &free));
}

#[test]
fn compatibility_ignores_payload() {
    let at = Attachment {
        id: AttachmentPointId::MainBattery,
        max_size: ItemSize(2),
        transform: RelTransform { x: 0, y: 0, z: 0, rot: 0 },
        accepted_types: vec![ItemType::Robot(RobotItemType::Battery {
            capacity: 0,
            charge: 0,
            charge_speed: 0,
        })],
        attached: None,
    };
    // Same variant, different payload: accepted either way.
    let offered = ItemType::Robot(RobotItemType::Battery {
        capacity: 999,
        charge: 7,
        charge_speed: 3,
    });
    assert!(at.is_compatible(&ItemSize(1), &offered));
    assert!(at.is_compatible(&ItemSize(2), &offered));
    // Size above the point's maximum: rejected.
    assert!(!at.is_compatible(&ItemSize(3), &offered));
    // A different variant: rejected.
    assert!(!at.is_compatible(&ItemSize(1), &ItemType::Robot(RobotItemType::Camera)));
}

#[test]
fn builder_grants_components() {
    let cat = catalog();
    let mut w = World::new();
    let b = RobotBuilder::new().robot(BATTERY);
    let root = b.build(&mut w, &cat);
    let bat = w.entities[root].battery.unwrap();
    assert_eq!(bat.capacity, 100);
    assert_eq!(bat.charge, 50);
    let c = RobotBuilder::new().robot(LENS);
    let lr = c.build(&mut w, &cat);
    let lens = w.entities[lr].camera_lens.unwrap();
    assert_eq!(lens.focal_length, 5000);
    assert_eq!(lens.focal_length_min, 5000);
}

#[test]
fn catalog_miss_spawns_blank_placeholder() {
    let cat = catalog();
    let mut w = World::new();
    let b = RobotBuilder::new().robot(99);
    let root = b.build(&mut w, &cat);
    assert!(w.entities[root].request.is_none());
    assert_eq!(w.entities[root].tag, ParentEntity::Free);
}

#[test]
fn catalog_miss_spawns_no_children() {
    let cat = catalog();
    let mut w = World::new();
    // The root handle misses: only the placeholder appears; the declared
    // child is never spawned.
    let b = RobotBuilder::new().robot(99).attach(CAMERA, AttachmentPointId::MainCamera);
    let root = b.build(&mut w, &cat);
    assert_eq!(w.entities.len(), 1);
    assert!(w.entities[root].request.is_none());
    // A valid root with a missing child handle spawns both: the child as a
    // blank placeholder with no intent.
    let c = RobotBuilder::new().robot(BODY).attach(99, AttachmentPointId::MainCamera);
    let r2 = c.build(&mut w, &cat);
    assert_eq!(w.entities.len(), 3);
    assert!(w.entities[r2].request.is_some());
    assert!(w.entities[r2 + 1].request.is_none());
    assert_eq!(w.entities[r2 + 1].tag, ParentEntity::Free);
}

#[test]
fn get_robot_body_reads_the_root() {
    assert_eq!(get_robot_body(&ParentEntity::Robot(7)), Some(7));
    assert_eq!(get_robot_body(&ParentEntity::Free), None);
    assert_eq!(get_robot_body(&ParentEntity::WaitForAttach), None);
}

#[test]
fn closed_enums_carry_their_variants() {
    // The marker and environment vocabularies exist with their variants.
    let m = MarkerItemType::Waypoint;
    assert_ne!(m, MarkerItemType::Unspecified);
    let e = EnvironmentItemType::Pipe;
    assert_ne!(e, EnvironmentItemType::Ground);
    assert_ne!(e, EnvironmentItemType::Wall);
}

#[test]
fn zoom_command_moves_lens_within_travel() {
    let cat = catalog();
    let mut w = World::new();
    let b = RobotBuilder::new().robot(BODY);
    let root = b.build(&mut w, &cat);
    spawn_joints(&mut w);
    w.entities[root].battery = Some(robot_assembly::components::Battery {
        capacity: 10,
        charge_speed: 0,
        charge: 10,
    });
    w.entities[root].camera_lens = Some(robot_assembly::components::CameraLens {
        focal_length_min: 1000,
        focal_length_max: 2000,
        focus_speed: 100,
        focal_length: 1500,
        sensor_offset: 0,
    });
    let mut bus = RobotCommands::new();
    bus.send(RobotCommand {
        robot_entity: ParentEntity::Robot(root),
        command: RobotCommandType::ZoomCamera { entity: root, delta: 5000 },
        power_consumption: 0,
    });
    handle_command(&mut w, &mut bus);
    let lens = w.entities[root].camera_lens.unwrap();
    // Clamped to the far end of the travel, sensor at the new midpoint.
    assert_eq!(lens.focal_length, 2000);
    assert_eq!(lens.sensor_offset, 1000 + 2000 + (2000 + 2000 - 1000 + 2000) / 2);
}
