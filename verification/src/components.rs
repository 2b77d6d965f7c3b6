//! Runtime components granted to assembled entities according to their item
//! type: drive motors, camera lenses, image quality, batteries and gauges.
//!
//! Scalar fields are integers in thousandths of the engine's fractional
//! unit.

use vstd::prelude::*;

verus! {

/// Drive parameters of a ground-propulsion item.
#[derive(Clone, Copy, PartialEq, Eq, Structural, Debug)]
pub struct Motors {
    pub linear_speed: i64,
    pub angular_speed: i64,
    pub linear_damping: i64,
    pub angular_damping: i64,
}

/// Optics of a camera-lens item: the travel range of its focal length, the
/// speed at which it refocuses, and the current focal length offset.
#[derive(Clone, Copy, PartialEq, Eq, Structural, Debug)]
pub struct CameraLens {
    pub focal_length_min: i64,
    pub focal_length_max: i64,
    pub focus_speed: i64,
    pub focal_length: i64,
    /// Distance of the field-of-view sensor, kept at the lens's midpoint.
    pub sensor_offset: i64,
}

/// Bound on lens scalars under which the midpoint arithmetic stays well
/// inside `i64`.
pub const LENS_SCALAR_MAX: i64 = 1_000_000_000;

impl CameraLens {
    /// Decide whether the lens scalars are within the accepted range.
    pub fn check_wf(&self) -> (r: bool)
        ensures
            r == self.wf(),
    {
        0 <= self.focal_length_min && self.focal_length_min <= LENS_SCALAR_MAX
            && self.focal_length_min <= self.focal_length_max
            && self.focal_length_max <= LENS_SCALAR_MAX && 0 <= self.focus_speed
            && self.focus_speed <= LENS_SCALAR_MAX && 0 <= self.focal_length
            && self.focal_length <= LENS_SCALAR_MAX
    }

    /// Lens scalars that the optics arithmetic accepts.
    pub open spec fn wf(self) -> bool {
        &&& 0 <= self.focal_length_min <= LENS_SCALAR_MAX
        &&& self.focal_length_min <= self.focal_length_max <= LENS_SCALAR_MAX
        &&& 0 <= self.focus_speed <= LENS_SCALAR_MAX
        &&& 0 <= self.focal_length <= LENS_SCALAR_MAX
    }

    /// A fixed lens: no travel, no refocus speed.
    pub fn new_wide(focal_length: i64) -> (r: CameraLens)
        ensures
            r == (CameraLens {
                focal_length_min: focal_length,
                focal_length_max: focal_length,
                focus_speed: 0,
                focal_length,
                sensor_offset: 0,
            }),
    {
        CameraLens {
            focal_length_min: focal_length,
            focal_length_max: focal_length,
            focus_speed: 0,
            focal_length,
            sensor_offset: 0,
        }
    }

    /// A zoom lens, starting at the near end of its travel.
    pub fn new_telephoto(focal_length_min: i64, focal_length_max: i64, focus_speed: i64) -> (r:
        CameraLens)
        ensures
            r == (CameraLens {
                focal_length_min,
                focal_length_max,
                focus_speed,
                focal_length: focal_length_min,
                sensor_offset: 0,
            }),
    {
        CameraLens {
            focal_length_min,
            focal_length_max,
            focus_speed,
            focal_length: focal_length_min,
            sensor_offset: 0,
        }
    }

    /// Distance from the camera to the middle of the lens's field of view
    /// at the current focal length; the field-of-view sensor is repositioned
    /// here after a zoom.
    pub fn middle(&self) -> (r: i64)
        requires
            self.wf(),
        ensures
            r == self.focal_length_min + self.focal_length + (self.focal_length_max
                + self.focal_length - self.focal_length_min + self.focal_length) / 2,
    {
        self.focal_length_min + self.focal_length + (self.focal_length_max + self.focal_length
            - self.focal_length_min + self.focal_length) / 2
    }
}

/// Rendering quality of a camera item's picture.
#[derive(Clone, Copy, PartialEq, Eq, Structural, Debug)]
pub struct ImageQuality {
    pub width: i64,
    pub height: i64,
    pub noise: i64,
}

/// Energy store of a battery item.
#[derive(Clone, Copy, PartialEq, Eq, Structural, Debug)]
pub struct Battery {
    pub capacity: i64,
    pub charge_speed: i64,
    pub charge: i64,
}

impl Battery {
    /// The charge always stays within `[0, capacity]`.
    pub open spec fn wf(self) -> bool {
        0 <= self.charge <= self.capacity
    }
}

/// Progress state of an inspectable gauge item.
#[derive(Clone, Copy, PartialEq, Eq, Structural, Debug)]
pub struct Manometer {
    pub inspections: i64,
    pub progress: i64,
}

} // verus!
