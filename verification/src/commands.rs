//! The command bus and its power-gated executor.
//!
//! Input systems push motor, joint and zoom commands onto a single-tick
//! queue, each tagged with the robot it belongs to and a precomputed power
//! cost. Once per tick the executor drains the queue in order; for each
//! command it checks whether the robot's batteries together cover the cost,
//! and only then debits them — greedily, in entity order — and applies the
//! payload. A command that cannot be paid for in full is dropped without
//! touching any charge: no partial motion, no partial debit.

use vstd::prelude::*;

use crate::components::{Battery, CameraLens, LENS_SCALAR_MAX};
use crate::tags::ParentEntity;
use crate::types::JointType;
use crate::util::{clamp_add, sat64};
use crate::world::{EntityRec, JointMotor, JointRec, RigidBody, World};

verus! {

/// Payload of one robot command.
#[derive(Clone, Copy, PartialEq, Eq, Structural, Debug)]
pub enum RobotCommandType {
    /// Add force and torque to a drive body's accumulator.
    MoveMotors { entity: usize, force_x: i64, force_y: i64, torque: i64 },
    /// Set a joint motor's target velocity and damping.
    MoveJoint { joint: usize, velocity: i64, damping: i64 },
    /// Set a joint motor's absolute position.
    SetJoint { joint: usize, position: i64 },
    /// Set a prismatic joint's travel limits.
    SetJointLimits { joint: usize, limit_min: i64, limit_max: i64 },
    /// Change a camera lens's focal length within its travel, repositioning
    /// its field-of-view sensor.
    ZoomCamera { entity: usize, delta: i64 },
}

/// One command: the robot it addresses, the payload, and the power cost
/// the producer computed for it.
#[derive(Clone, Copy, PartialEq, Eq, Structural, Debug)]
pub struct RobotCommand {
    pub robot_entity: ParentEntity,
    pub command: RobotCommandType,
    pub power_consumption: i64,
}

/// The single-tick queue of pending commands.
pub struct RobotCommands {
    pub queue: Vec<RobotCommand>,
}

impl RobotCommands {
    /// Every queued cost is non-negative.
    pub open spec fn wf(self) -> bool {
        forall|k: int| 0 <= k < self.queue@.len() ==> (#[trigger] self.queue@[k]).power_consumption >= 0
    }

    /// An empty bus.
    pub fn new() -> (r: RobotCommands)
        ensures
            r.queue@.len() == 0,
            r.wf(),
    {
        RobotCommands { queue: Vec::new() }
    }

    /// Queue a command for this tick.
    pub fn send(&mut self, command: RobotCommand)
        requires
            old(self).wf(),
            command.power_consumption >= 0,
        ensures
            final(self).wf(),
            final(self).queue@ == old(self).queue@.push(command),
    {
        self.queue.push(command);
    }
}

/// Whether entity `i` holds a battery that serves the robot tagged `tag`.
pub open spec fn battery_serves(w: World, i: int, tag: ParentEntity) -> bool {
    &&& 0 <= i < w.num_entities()
    &&& w.ent(i).alive
    &&& w.ent(i).battery is Some
    &&& w.ent(i).tag == tag
}

/// The part of `cost` still unpaid after draining, in entity order, the
/// batteries of the first `upto` entities that serve `tag`.
pub open spec fn unpaid(w: World, tag: ParentEntity, cost: int, upto: int) -> int
    decreases upto,
{
    if upto <= 0 {
        cost
    } else {
        let rem = unpaid(w, tag, cost, upto - 1);
        if battery_serves(w, upto - 1, tag) {
            let charge = w.ent(upto - 1).battery->Some_0.charge as int;
            if rem <= charge {
                0
            } else {
                rem - charge
            }
        } else {
            rem
        }
    }
}

/// What remains unpaid of `cost` after every battery of the robot has been
/// offered: zero exactly when the robot can afford the command.
pub open spec fn total_unpaid(w: World, tag: ParentEntity, cost: int) -> int {
    unpaid(w, tag, cost, w.num_entities())
}

/// The unpaid amount never goes negative and never exceeds the cost.
pub proof fn lemma_unpaid_bounds(w: World, tag: ParentEntity, cost: int, upto: int)
    requires
        cost >= 0,
        forall|i: int|
            0 <= i < w.num_entities() && (#[trigger] w.ent(i)).battery is Some ==> w.ent(
                i,
            ).battery->Some_0.charge >= 0,
    ensures
        0 <= unpaid(w, tag, cost, upto) <= cost,
    decreases upto,
{
    if upto > 0 {
        lemma_unpaid_bounds(w, tag, cost, upto - 1);
    }
}

/// Walk the batteries and report how much of `cost` the robot cannot pay.
fn deficit_scan(w: &World, tag: ParentEntity, cost: i64) -> (r: i64)
    requires
        cost >= 0,
        forall|i: int|
            0 <= i < w.num_entities() && (#[trigger] w.ent(i)).battery is Some ==> w.ent(
                i,
            ).battery->Some_0.charge >= 0,
    ensures
        r == total_unpaid(*w, tag, cost as int),
{
    let n = w.entities.len();
    let mut rem: i64 = cost;
    let mut i: usize = 0;
    while i < n
        invariant
            i <= n,
            n == w.num_entities(),
            cost >= 0,
            0 <= rem <= cost,
            rem == unpaid(*w, tag, cost as int, i as int),
            forall|k: int|
                0 <= k < w.num_entities() && (#[trigger] w.ent(k)).battery is Some ==> w.ent(
                    k,
                ).battery->Some_0.charge >= 0,
        decreases n - i,
    {
        proof {
            assert(w.ent(i as int).battery is Some ==> w.ent(
                i as int,
            ).battery->Some_0.charge >= 0);
        }
        let e = &w.entities[i];
        match (&e.battery, e.alive) {
            (Some(b), true) => {
                if e.tag == tag {
                    if rem <= b.charge {
                        rem = 0;
                    } else {
                        rem = rem - b.charge;
                    }
                }
            },
            _ => {},
        }
        i = i + 1;
    }
    rem
}

/// Every battery's charge after a full debit of `cost`: what it held,
/// less the slice of the cost that reached it.
pub open spec fn debited_charge(w: World, tag: ParentEntity, cost: int, i: int) -> int {
    let rem = unpaid(w, tag, cost, i);
    let charge = w.ent(i).battery->Some_0.charge as int;
    if rem <= charge {
        charge - rem
    } else {
        0
    }
}

/// Drain `cost` from the robot's batteries in entity order. Callers must
/// have checked that the robot can pay in full.
#[verifier::loop_isolation(false)]
fn debit_batteries(w: &mut World, tag: ParentEntity, cost: i64)
    requires
        cost >= 0,
        total_unpaid(*old(w), tag, cost as int) == 0,
        forall|i: int|
            0 <= i < old(w).num_entities() && (#[trigger] old(w).ent(i)).battery is Some
                ==> old(w).ent(i).battery->Some_0.charge >= 0,
    ensures
        final(w).num_entities() == old(w).num_entities(),
        final(w).joints@ == old(w).joints@,
        forall|i: int|
            0 <= i < old(w).num_entities() && !battery_serves(*old(w), i, tag)
                ==> #[trigger] final(w).ent(i) == old(w).ent(i),
        forall|i: int|
            battery_serves(*old(w), i, tag) ==> #[trigger] final(w).ent(i) == (EntityRec {
                battery: Some(Battery {
                    charge: debited_charge(*old(w), tag, cost as int, i) as i64,
                    ..old(w).ent(i).battery->Some_0
                }),
                ..old(w).ent(i)
            }),
{
    let ghost w0 = *old(w);
    let n = w.entities.len();
    let mut rem: i64 = cost;
    let mut i: usize = 0;
    while i < n
        invariant
            i <= n,
            0 <= rem <= cost,
            rem == unpaid(w0, tag, cost as int, i as int),
            w.num_entities() == n,
            w.joints@ == w0.joints@,
            forall|k: int|
                i <= k < n ==> #[trigger] w.ent(k) == w0.ent(k),
            forall|k: int|
                0 <= k < i && !battery_serves(w0, k, tag) ==> #[trigger] w.ent(k) == w0.ent(k),
            forall|k: int|
                0 <= k < i && battery_serves(w0, k, tag) ==> #[trigger] w.ent(k) == (EntityRec {
                    battery: Some(Battery {
                        charge: debited_charge(w0, tag, cost as int, k) as i64,
                        ..w0.ent(k).battery->Some_0
                    }),
                    ..w0.ent(k)
                }),
        decreases n - i,
    {
        proof {
            lemma_unpaid_bounds(w0, tag, cost as int, i as int);
        }
        let ghost w_before = *w;
        proof {
            assert(w.ent(i as int) == w0.ent(i as int));
            assert(w0.ent(i as int).battery is Some ==> w0.ent(
                i as int,
            ).battery->Some_0.charge >= 0);
        }
        let e = &w.entities[i];
        let is_match = e.alive && e.battery.is_some() && e.tag == tag;
        if is_match {
            let bcharge = match &e.battery {
                Some(b) => b.charge,
                None => 0,
            };
            let take = if rem <= bcharge {
                rem
            } else {
                bcharge
            };
            let pe = &mut w.entities[i];
            match &mut pe.battery {
                Some(b) => {
                    b.charge = bcharge - take;
                },
                None => {},
            }
            rem = rem - take;
            proof {
                assert(w.ent(i as int).battery == Some(Battery {
                    charge: debited_charge(w0, tag, cost as int, i as int) as i64,
                    ..w0.ent(i as int).battery->Some_0
                }));
                assert(w.ent(i as int) == (EntityRec {
                    battery: Some(Battery {
                        charge: debited_charge(w0, tag, cost as int, i as int) as i64,
                        ..w0.ent(i as int).battery->Some_0
                    }),
                    ..w0.ent(i as int)
                }));
                assert forall|k: int|
                    i as int + 1 <= k < n implies #[trigger] w.ent(k) == w0.ent(k) by {
                    assert(w.ent(k) == w_before.ent(k));
                }
                assert forall|k: int|
                    0 <= k < i as int ==> #[trigger] w.ent(k) == w_before.ent(k) by {}
            }
        }
        i = i + 1;
    }
}

/// Clamp `v` into `[lo, hi]`.
pub open spec fn clamped(v: int, lo: int, hi: int) -> int {
    if v < lo {
        lo
    } else if v > hi {
        hi
    } else {
        v
    }
}

/// The effect of a `MoveMotors` payload: force and torque are added to the
/// target drive body's accumulator; a target without motors is skipped.
pub open spec fn motors_applied(
    w0: World,
    w1: World,
    entity: usize,
    fx: i64,
    fy: i64,
    tq: i64,
) -> bool {
    let e = entity as int;
    if 0 <= e < w0.num_entities() && w0.ent(e).alive && w0.ent(e).motors is Some {
        w1.entities@ == w0.entities@.update(
            e,
            EntityRec {
                body: RigidBody {
                    force_x: sat64(w0.ent(e).body.force_x + fx),
                    force_y: sat64(w0.ent(e).body.force_y + fy),
                    torque: sat64(w0.ent(e).body.torque + tq),
                    ..w0.ent(e).body
                },
                ..w0.ent(e)
            },
        ) && w1.joints@ == w0.joints@
    } else {
        w1 == w0
    }
}

/// The effect of a `MoveJoint` payload: a ball or prismatic joint's motor
/// takes the new target velocity and damping; other joints are skipped.
pub open spec fn joint_moved(w0: World, w1: World, joint: usize, velocity: i64, damping: i64) -> bool {
    let j = joint as int;
    if 0 <= j < w0.num_joints() && w0.joint(j).alive && (w0.joint(j).kind == JointType::Ball
        || w0.joint(j).kind == JointType::Prismatic) {
        w1.joints@ == w0.joints@.update(
            j,
            JointRec {
                motor: JointMotor {
                    target_velocity: velocity,
                    damping,
                    ..w0.joint(j).motor
                },
                ..w0.joint(j)
            },
        ) && w1.entities@ == w0.entities@
    } else {
        w1 == w0
    }
}

/// The effect of a `SetJoint` payload: a ball, prismatic or fixed joint's
/// motor takes the new absolute position; a revolute joint is skipped.
pub open spec fn joint_set(w0: World, w1: World, joint: usize, position: i64) -> bool {
    let j = joint as int;
    if 0 <= j < w0.num_joints() && w0.joint(j).alive && w0.joint(j).kind != JointType::Revolute {
        w1.joints@ == w0.joints@.update(
            j,
            JointRec { motor: JointMotor { position, ..w0.joint(j).motor }, ..w0.joint(j) },
        ) && w1.entities@ == w0.entities@
    } else {
        w1 == w0
    }
}

/// The effect of a `SetJointLimits` payload: a prismatic joint takes the
/// new travel limits; every other kind is skipped.
pub open spec fn joint_limits_set(
    w0: World,
    w1: World,
    joint: usize,
    limit_min: i64,
    limit_max: i64,
) -> bool {
    let j = joint as int;
    if 0 <= j < w0.num_joints() && w0.joint(j).alive && w0.joint(j).kind
        == JointType::Prismatic {
        w1.joints@ == w0.joints@.update(
            j,
            JointRec {
                motor: JointMotor { limit_min, limit_max, ..w0.joint(j).motor },
                ..w0.joint(j)
            },
        ) && w1.entities@ == w0.entities@
    } else {
        w1 == w0
    }
}

/// The effect of a `ZoomCamera` payload: the lens's focal length moves by
/// `delta`, clamped to its travel, and the field-of-view sensor is
/// repositioned to the new midpoint distance.
pub open spec fn camera_zoomed(w0: World, w1: World, entity: usize, delta: i64) -> bool {
    let e = entity as int;
    let lens = w0.ent(e).camera_lens->Some_0;
    let fl2 = clamped(
        lens.focal_length + delta,
        lens.focal_length_min as int,
        lens.focal_length_max as int,
    );
    let mid = lens.focal_length_min + fl2 + (lens.focal_length_max + fl2
        - lens.focal_length_min + fl2) / 2;
    if 0 <= e < w0.num_entities() && w0.ent(e).alive && w0.ent(e).camera_lens is Some
        && lens.wf() {
        w1.entities@ == w0.entities@.update(
            e,
            EntityRec {
                camera_lens: Some(CameraLens {
                    focal_length: fl2 as i64,
                    sensor_offset: mid as i64,
                    ..lens
                }),
                ..w0.ent(e)
            },
        ) && w1.joints@ == w0.joints@
    } else {
        w1 == w0
    }
}

/// The effect of one payload on the world.
pub open spec fn payload_applied(w0: World, w1: World, cmd: RobotCommandType) -> bool {
    match cmd {
        RobotCommandType::MoveMotors { entity, force_x, force_y, torque } => motors_applied(
            w0,
            w1,
            entity,
            force_x,
            force_y,
            torque,
        ),
        RobotCommandType::MoveJoint { joint, velocity, damping } => joint_moved(
            w0,
            w1,
            joint,
            velocity,
            damping,
        ),
        RobotCommandType::SetJoint { joint, position } => joint_set(w0, w1, joint, position),
        RobotCommandType::SetJointLimits { joint, limit_min, limit_max } => joint_limits_set(
            w0,
            w1,
            joint,
            limit_min,
            limit_max,
        ),
        RobotCommandType::ZoomCamera { entity, delta } => camera_zoomed(w0, w1, entity, delta),
    }
}

/// Apply one payload to the world.
fn apply_command(w: &mut World, cmd: RobotCommandType)
    ensures
        payload_applied(*old(w), *final(w), cmd),
{
    let n = w.entities.len();
    match cmd {
        RobotCommandType::MoveMotors { entity, force_x, force_y, torque } => {
            if entity < n && w.entities[entity].alive && w.entities[entity].motors.is_some() {
                let body0 = w.entities[entity].body;
                let fx = clamp_add(body0.force_x, force_x);
                let fy = clamp_add(body0.force_y, force_y);
                let tq = clamp_add(body0.torque, torque);
                let pe = &mut w.entities[entity];
                pe.body.force_x = fx;
                pe.body.force_y = fy;
                pe.body.torque = tq;
            }
        },
        RobotCommandType::MoveJoint { joint, velocity, damping } => {
            let m = w.joints.len();
            if joint < m {
                let j0 = w.joints[joint];
                if j0.alive && (j0.kind == JointType::Ball || j0.kind == JointType::Prismatic) {
                    let pj = &mut w.joints[joint];
                    pj.motor.target_velocity = velocity;
                    pj.motor.damping = damping;
                }
            }
        },
        RobotCommandType::SetJoint { joint, position } => {
            let m = w.joints.len();
            if joint < m {
                let j0 = w.joints[joint];
                if j0.alive && j0.kind != JointType::Revolute {
                    let pj = &mut w.joints[joint];
                    pj.motor.position = position;
                }
            }
        },
        RobotCommandType::SetJointLimits { joint, limit_min, limit_max } => {
            let m = w.joints.len();
            if joint < m {
                let j0 = w.joints[joint];
                if j0.alive && j0.kind == JointType::Prismatic {
                    let pj = &mut w.joints[joint];
                    pj.motor.limit_min = limit_min;
                    pj.motor.limit_max = limit_max;
                }
            }
        },
        RobotCommandType::ZoomCamera { entity, delta } => {
            if entity < n && w.entities[entity].alive {
                let lens_opt = w.entities[entity].camera_lens;
                match lens_opt {
                    Some(lens) => {
                        if lens.check_wf() {
                            let moved = clamp_add(lens.focal_length, delta);
                            let fl2 = if moved < lens.focal_length_min {
                                lens.focal_length_min
                            } else if moved > lens.focal_length_max {
                                lens.focal_length_max
                            } else {
                                moved
                            };
                            proof {
                                assert(fl2 == clamped(
                                    lens.focal_length + delta,
                                    lens.focal_length_min as int,
                                    lens.focal_length_max as int,
                                ));
                            }
                            let lens2 = CameraLens { focal_length: fl2, ..lens };
                            let mid = lens2.middle();
                            let pe = &mut w.entities[entity];
                            pe.camera_lens = Some(
                                CameraLens { focal_length: fl2, sensor_offset: mid, ..lens },
                            );
                        }
                    },
                    None => {},
                }
            }
        },
    }
}

/// Every battery in the world holds a charge within `[0, capacity]`.
pub open spec fn batteries_ok(w: World) -> bool {
    forall|i: int|
        0 <= i < w.num_entities() && (#[trigger] w.ent(i)).battery is Some ==> w.ent(
            i,
        ).battery->Some_0.wf()
}

/// The batteries of the robot were debited by `cost`, greedily in entity
/// order, and nothing else changed.
pub open spec fn batteries_debited(w0: World, w1: World, tag: ParentEntity, cost: int) -> bool {
    &&& w1.num_entities() == w0.num_entities()
    &&& w1.joints@ == w0.joints@
    &&& forall|i: int|
        0 <= i < w0.num_entities() && !battery_serves(w0, i, tag) ==> #[trigger] w1.ent(i)
            == w0.ent(i)
    &&& forall|i: int|
        battery_serves(w0, i, tag) ==> #[trigger] w1.ent(i) == (EntityRec {
            battery: Some(Battery {
                charge: debited_charge(w0, tag, cost, i) as i64,
                ..w0.ent(i).battery->Some_0
            }),
            ..w0.ent(i)
        })
}

/// What one command does: if the robot's batteries together cover the
/// cost, they are debited and the payload is applied; otherwise the
/// command is dropped and the world is untouched.
pub open spec fn command_executed(w0: World, w1: World, cmd: RobotCommand) -> bool {
    if total_unpaid(w0, cmd.robot_entity, cmd.power_consumption as int) == 0 {
        exists|wm: World|
            #[trigger] batteries_debited(w0, wm, cmd.robot_entity, cmd.power_consumption as int)
                && payload_applied(wm, w1, cmd.command)
    } else {
        w1 == w0
    }
}

/// Execute one command against the world.
pub fn handle_one_command(w: &mut World, cmd: &RobotCommand)
    requires
        cmd.power_consumption >= 0,
        batteries_ok(*old(w)),
    ensures
        command_executed(*old(w), *final(w), *cmd),
        batteries_ok(*final(w)),
        final(w).num_entities() == old(w).num_entities(),
        final(w).num_joints() == old(w).num_joints(),
{
    let ghost w0 = *old(w);
    proof {
        assert forall|i: int|
            0 <= i < w0.num_entities() && (#[trigger] w0.ent(i)).battery is Some implies w0.ent(
            i,
        ).battery->Some_0.charge >= 0 by {}
    }
    let deficit = deficit_scan(w, cmd.robot_entity, cmd.power_consumption);
    if deficit == 0 {
        debit_batteries(w, cmd.robot_entity, cmd.power_consumption);
        let ghost wm = *w;
        proof {
            assert(batteries_debited(w0, wm, cmd.robot_entity, cmd.power_consumption as int));
            assert(batteries_ok(wm)) by {
                assert forall|i: int|
                    0 <= i < wm.num_entities() && (#[trigger] wm.ent(i)).battery is Some
                        implies wm.ent(i).battery->Some_0.wf() by {
                    if battery_serves(w0, i, cmd.robot_entity) {
                        lemma_unpaid_bounds(
                            w0,
                            cmd.robot_entity,
                            cmd.power_consumption as int,
                            i,
                        );
                    } else {
                        assert(wm.ent(i) == w0.ent(i));
                    }
                }
            }
        }
        apply_command(w, cmd.command);
        proof {
            assert(payload_applied(wm, *w, cmd.command));
            assert(command_executed(w0, *w, *cmd));
            assert(batteries_ok(*w)) by {
                assert forall|i: int|
                    0 <= i < w.num_entities() && (#[trigger] w.ent(i)).battery is Some
                        implies w.ent(i).battery->Some_0.wf() by {
                    if w.ent(i) != wm.ent(i) {
                        assert(w.ent(i).battery == wm.ent(i).battery);
                    }
                }
            }
        }
    }
}

/// The worlds a queue of commands steps through: each consecutive pair is
/// one executed command.
pub open spec fn commands_chain(ws: Seq<World>, w0: World, w1: World, q: Seq<RobotCommand>) -> bool {
    &&& ws.len() == q.len() + 1
    &&& ws[0] == w0
    &&& ws[q.len() as int] == w1
    &&& forall|k: int| 0 <= k < q.len() ==> command_executed(ws[k], ws[k + 1], #[trigger] q[k])
}

/// Drain the command bus in order, executing each command power-gated.
#[verifier::loop_isolation(false)]
pub fn handle_command(w: &mut World, robot_commands: &mut RobotCommands)
    requires
        old(robot_commands).wf(),
        batteries_ok(*old(w)),
    ensures
        final(robot_commands).queue@.len() == 0,
        final(robot_commands).wf(),
        batteries_ok(*final(w)),
        exists|ws: Seq<World>|
            #[trigger] commands_chain(ws, *old(w), *final(w), old(robot_commands).queue@),
{
    let ghost w0 = *old(w);
    let ghost q = robot_commands.queue@;
    let ghost mut ws: Seq<World> = seq![w0];
    let n = robot_commands.queue.len();
    let mut k: usize = 0;
    while k < n
        invariant
            k <= n,
            ws.len() == k + 1,
            ws[0] == w0,
            ws[k as int] == *w,
            batteries_ok(*w),
            forall|j: int| 0 <= j < k ==> command_executed(ws[j], ws[j + 1], #[trigger] q[j]),
        decreases n - k,
    {
        let cmd = robot_commands.queue[k];
        handle_one_command(w, &cmd);
        proof {
            ws = ws.push(*w);
        }
        k = k + 1;
    }
    robot_commands.queue.clear();
    proof {
        assert(commands_chain(ws, w0, *w, q));
    }
}

/// Power gating on a robot with a single battery: a command it can afford
/// debits exactly its cost and applies the payload; one it cannot afford
/// leaves the whole world — the charge included — untouched.
pub proof fn lemma_power_gated_command(w0: World, w1: World, cmd: RobotCommand, i: int)
    requires
        cmd.power_consumption >= 0,
        command_executed(w0, w1, cmd),
        battery_serves(w0, i, cmd.robot_entity),
        forall|k: int| k != i ==> !battery_serves(w0, k, cmd.robot_entity),
    ensures
        cmd.power_consumption <= w0.ent(i).battery->Some_0.charge ==> exists|wm: World|
            {
                &&& (#[trigger] wm.ent(i)).battery->Some_0.charge as int == w0.ent(
                    i,
                ).battery->Some_0.charge - cmd.power_consumption
                &&& payload_applied(wm, w1, cmd.command)
            },
        cmd.power_consumption > w0.ent(i).battery->Some_0.charge ==> w1 == w0,
{
    let tag = cmd.robot_entity;
    let cost = cmd.power_consumption as int;
    let charge = w0.ent(i).battery->Some_0.charge as int;
    assert forall|upto: int| upto <= i implies #[trigger] unpaid(w0, tag, cost, upto)
        == cost by {
        lemma_unpaid_constant_below(w0, tag, cost, upto, i);
    }
    assert forall|upto: int| i < upto implies #[trigger] unpaid(w0, tag, cost, upto) == (
    if cost <= charge {
        0int
    } else {
        cost - charge
    }) by {
        lemma_unpaid_constant_above(w0, tag, cost, upto, i);
    }
    assert(i < w0.num_entities());
    if cost <= charge {
        assert(total_unpaid(w0, tag, cost) == 0);
        let wm = choose|wm: World|
            #[trigger] batteries_debited(w0, wm, tag, cost) && payload_applied(
                wm,
                w1,
                cmd.command,
            );
        assert(wm.ent(i) == (EntityRec {
            battery: Some(Battery {
                charge: debited_charge(w0, tag, cost, i) as i64,
                ..w0.ent(i).battery->Some_0
            }),
            ..w0.ent(i)
        }));
        assert(unpaid(w0, tag, cost, i) == cost);
        assert(debited_charge(w0, tag, cost, i) == charge - cost);
    } else {
        assert(total_unpaid(w0, tag, cost) == cost - charge > 0);
    }
}

/// Below the single serving battery, nothing is paid.
proof fn lemma_unpaid_constant_below(w0: World, tag: ParentEntity, cost: int, upto: int, i: int)
    requires
        upto <= i,
        forall|k: int| k != i ==> !battery_serves(w0, k, tag),
    ensures
        unpaid(w0, tag, cost, upto) == cost,
    decreases
            if upto >= 0 {
                upto
            } else {
                0
            },
{
    if upto > 0 {
        lemma_unpaid_constant_below(w0, tag, cost, upto - 1, i);
    }
}

/// Above the single serving battery, what it could not pay remains.
proof fn lemma_unpaid_constant_above(w0: World, tag: ParentEntity, cost: int, upto: int, i: int)
    requires
        i < upto,
        battery_serves(w0, i, tag),
        forall|k: int| k != i ==> !battery_serves(w0, k, tag),
    ensures
        unpaid(w0, tag, cost, upto) == (
        if cost <= w0.ent(i).battery->Some_0.charge as int {
            0int
        } else {
            cost - w0.ent(i).battery->Some_0.charge as int
        }),
    decreases upto - i,
{
    if upto - 1 == i {
        lemma_unpaid_constant_below(w0, tag, cost, i, i);
    } else {
        lemma_unpaid_constant_above(w0, tag, cost, upto - 1, i);
    }
}

} // verus!
