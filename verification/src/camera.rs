//! The camera: a position, two angles, and the four operations that a frame
//! loop applies to them.

use vstd::prelude::*;
use crate::fixed::{lemma_product_bound, magnitude, plus_product, product, saturate, times, SCALE};
use crate::trig::{cosine, lemma_range, sin_cos, sine, MAJOR};
use crate::vector::{lemma_unit_length, Vec3};

verus! {

/// Units per second that a new camera moves at: 2.5.
pub const DEFAULT_SPEED: i64 = 2_500_000;

/// Degrees that a new camera turns per unit of mouse travel: 0.1.
pub const DEFAULT_SENSITIVITY: i64 = 100_000;

/// The vertical acceleration, in units per second squared: -9.8.
pub const GRAVITY: i64 = -9_800_000;

/// The pitch never leaves `-PITCH_LIMIT ..= PITCH_LIMIT` once the mouse has
/// moved: 89 degrees.
pub const PITCH_LIMIT: i64 = 89_000_000;

/// A direction of travel, relative to where the camera faces.
#[derive(Clone, Copy, Debug, PartialEq, Eq, Structural)]
pub enum CameraMovement {
    Forward,
    Backward,
    Left,
    Right,
}

/// A free-flying first-person camera. All fields are fixed-point numbers:
/// the angles in degrees, `speed` in units per second, `sensitivity` in
/// degrees per unit of mouse travel, `vertical_velocity` in units per second.
#[derive(Clone, Copy, Debug, PartialEq, Eq, Structural)]
pub struct Camera {
    pub position: Vec3,
    pub yaw: i64,
    pub pitch: i64,
    pub speed: i64,
    pub sensitivity: i64,
    pub vertical_velocity: i64,
}

/// `p` brought into the range that the pitch may take.
pub open spec fn clamp_pitch(p: int) -> int {
    if p < -PITCH_LIMIT {
        -PITCH_LIMIT
    } else if p > PITCH_LIMIT {
        PITCH_LIMIT as int
    } else {
        p
    }
}

/// The direction `(cos yaw · cos pitch, sin yaw · cos pitch, sin pitch)`,
/// before it is normalized.
pub open spec fn pointing(yaw: i64, pitch: i64) -> Vec3 {
    Vec3 {
        x: product(cosine(yaw as int), cosine(pitch as int)) as i64,
        y: product(sine(yaw as int), cosine(pitch as int)) as i64,
        z: sine(pitch as int) as i64,
    }
}

/// The horizontal direction `(cos yaw, sin yaw, 0)`, before it is normalized.
pub open spec fn level(yaw: i64) -> Vec3 {
    Vec3 { x: cosine(yaw as int) as i64, y: sine(yaw as int) as i64, z: 0 }
}

/// The horizontal unit vector that a camera with this yaw walks along.
pub open spec fn heading(yaw: i64) -> Vec3 {
    level(yaw).unit()
}

/// `heading(yaw)` turned by a quarter of a turn in the horizontal plane.
pub open spec fn sideways(yaw: i64) -> Vec3 {
    let f = heading(yaw);
    Vec3 { x: (-f.y) as i64, y: f.x, z: 0 }
}

impl Camera {
    /// The unit vector along which the camera looks.
    pub open spec fn direction(self) -> Vec3 {
        pointing(self.yaw, self.pitch).unit()
    }

    /// The distance covered in `dt` seconds.
    pub open spec fn stride(self, dt: i64) -> i64 {
        saturate(product(self.speed as int, dt as int)) as i64
    }

    /// The displacement that `dt` seconds of travel in `direction` add to
    /// the position.
    pub open spec fn displacement(self, direction: CameraMovement, dt: i64) -> Vec3 {
        match direction {
            CameraMovement::Forward | CameraMovement::Backward => heading(self.yaw).scaling(
                self.stride(dt),
            ),
            CameraMovement::Left | CameraMovement::Right => sideways(self.yaw).scaling(
                self.stride(dt),
            ),
        }
    }

    /// The camera after `dt` seconds of travel in `direction`.
    pub open spec fn after_keyboard(self, direction: CameraMovement, dt: i64) -> Camera {
        let step = self.displacement(direction, dt);
        let position = match direction {
            CameraMovement::Forward | CameraMovement::Right => self.position.sum(step),
            CameraMovement::Backward | CameraMovement::Left => self.position.difference(step),
        };
        Camera { position, ..self }
    }

    /// The camera after the mouse has travelled by `(dx, dy)`.
    pub open spec fn after_mouse(self, dx: i64, dy: i64) -> Camera {
        Camera {
            yaw: saturate(self.yaw + product(dx as int, self.sensitivity as int)) as i64,
            pitch: clamp_pitch(self.pitch + product(dy as int, self.sensitivity as int)) as i64,
            ..self
        }
    }

    /// The camera after `dt` seconds of free fall: the velocity changes
    /// first, and the height then changes by the new velocity.
    pub open spec fn after_update(self, dt: i64) -> Camera {
        let v = saturate(self.vertical_velocity + product(GRAVITY as int, dt as int)) as i64;
        let z = saturate(self.position.z + product(v as int, dt as int)) as i64;
        Camera { position: Vec3 { z, ..self.position }, vertical_velocity: v, ..self }
    }

    /// A camera at `position` that looks along `yaw` and `pitch`, at rest,
    /// with the default speed and sensitivity. The pitch is taken as it is.
    pub fn new(position: Vec3, yaw: i64, pitch: i64) -> (c: Camera)
        ensures
            c == (Camera {
                position,
                yaw,
                pitch,
                speed: DEFAULT_SPEED,
                sensitivity: DEFAULT_SENSITIVITY,
                vertical_velocity: 0,
            }),
    {
        Camera {
            position,
            yaw,
            pitch,
            speed: DEFAULT_SPEED,
            sensitivity: DEFAULT_SENSITIVITY,
            vertical_velocity: 0,
        }
    }

    /// The unit vector along which the camera looks. Its length is one to
    /// within four millionths, whatever the angles.
    pub fn front(&self) -> (f: Vec3)
        ensures
            f == self.direction(),
            (SCALE - 4) * (SCALE - 4) <= f.norm_squared() <= (SCALE + 1) * (SCALE + 1),
    {
        let (sy, cy) = sin_cos(self.yaw);
        let (sp, cp) = sin_cos(self.pitch);
        proof {
            lemma_pointing(self.yaw, self.pitch);
        }
        let raw = Vec3 { x: times(cy, cp), y: times(sy, cp), z: sp };
        raw.normalized()
    }

    /// The point one unit ahead of the camera: with the position and the
    /// vertical axis it fixes the view transform.
    pub fn view_target(&self) -> (t: Vec3)
        ensures
            t == self.position.sum(self.direction()),
    {
        self.position.plus(self.front())
    }

    /// Moves the camera for `dt` seconds in `direction`, in the horizontal
    /// plane and without regard to the pitch.
    pub fn process_keyboard(&mut self, direction: CameraMovement, dt: i64)
        ensures
            *final(self) == old(self).after_keyboard(direction, dt),
            final(self).position.z == old(self).position.z,
    {
        let velocity: i64 = times(self.speed, dt);
        let (s, c) = sin_cos(self.yaw);
        proof {
            lemma_heading(self.yaw);
        }
        let forward = Vec3 { x: c, y: s, z: 0 }.normalized();
        let right = Vec3 { x: -forward.y, y: forward.x, z: 0 };
        match direction {
            CameraMovement::Forward => {
                self.position = self.position.plus(forward.scaled(velocity));
            },
            CameraMovement::Backward => {
                self.position = self.position.minus(forward.scaled(velocity));
            },
            CameraMovement::Left => {
                self.position = self.position.minus(right.scaled(velocity));
            },
            CameraMovement::Right => {
                self.position = self.position.plus(right.scaled(velocity));
            },
        }
    }

    /// Turns the camera by a mouse travel of `(dx, dy)`: the yaw grows by
    /// `dx · sensitivity`, the pitch by `dy · sensitivity` and is then held
    /// within `PITCH_LIMIT`.
    pub fn process_mouse(&mut self, dx: i64, dy: i64)
        ensures
            *final(self) == old(self).after_mouse(dx, dy),
            -PITCH_LIMIT <= final(self).pitch <= PITCH_LIMIT,
    {
        self.yaw = plus_product(self.yaw, dx, self.sensitivity);
        let pitch: i64 = plus_product(self.pitch, dy, self.sensitivity);
        self.pitch = if pitch < -PITCH_LIMIT {
            -PITCH_LIMIT
        } else if pitch > PITCH_LIMIT {
            PITCH_LIMIT
        } else {
            pitch
        };
    }

    /// Lets the camera fall for `dt` seconds: one step of semi-implicit
    /// Euler integration under `GRAVITY`.
    pub fn update(&mut self, dt: i64)
        ensures
            *final(self) == old(self).after_update(dt),
    {
        self.vertical_velocity = plus_product(self.vertical_velocity, GRAVITY, dt);
        self.position.z = plus_product(self.position.z, self.vertical_velocity, dt);
    }
}

/// The direction before normalizing has components between minus one and
/// one and is not zero, whatever the angles.
pub proof fn lemma_pointing(yaw: i64, pitch: i64)
    ensures
        pointing(yaw, pitch).x == product(cosine(yaw as int), cosine(pitch as int)),
        pointing(yaw, pitch).y == product(sine(yaw as int), cosine(pitch as int)),
        pointing(yaw, pitch).z == sine(pitch as int),
        pointing(yaw, pitch).norm_squared() > 0,
{
    let (sy, cy) = (sine(yaw as int), cosine(yaw as int));
    let (sp, cp) = (sine(pitch as int), cosine(pitch as int));
    lemma_range(yaw as int);
    lemma_range(pitch as int);
    lemma_product_bound(cy, cp);
    lemma_product_bound(sy, cp);
    let v = pointing(yaw, pitch);
    if magnitude(sp) < MAJOR {
        if magnitude(cy) >= MAJOR {
            lemma_major_product(cy, cp);
        } else {
            lemma_major_product(sy, cp);
        }
    }
    assert(v.norm_squared() > 0) by (nonlinear_arith)
        requires
            v.norm_squared() == v.x * v.x + v.y * v.y + v.z * v.z,
            v.x != 0 || v.y != 0 || v.z != 0,
    ;
}

/// The product of two numbers of magnitude `MAJOR` or more is not zero.
proof fn lemma_major_product(a: int, b: int)
    requires
        magnitude(a) >= MAJOR,
        magnitude(b) >= MAJOR,
    ensures
        magnitude(product(a, b)) >= 476_100,
{
    let p = a * b;
    let m = magnitude(a) * magnitude(b);
    assert(m >= MAJOR * MAJOR) by (nonlinear_arith)
        requires
            m == magnitude(a) * magnitude(b),
            magnitude(a) >= MAJOR,
            magnitude(b) >= MAJOR,
            MAJOR > 0,
    ;
    assert(p == m || p == -m) by (nonlinear_arith)
        requires
            p == a * b,
            m == magnitude(a) * magnitude(b),
            magnitude(a) == a || magnitude(a) == -a,
            magnitude(b) == b || magnitude(b) == -b,
    ;
    assert(MAJOR * MAJOR == 476_100_000_000int);
    assert(m / (SCALE as int) >= 476_100);
}

/// The heading is horizontal, and so is the vector a quarter of a turn from
/// it; neither is longer than one along any axis.
pub proof fn lemma_heading(yaw: i64)
    ensures
        level(yaw).norm_squared() > 0,
        heading(yaw).z == 0,
        -SCALE <= heading(yaw).x <= SCALE,
        -SCALE <= heading(yaw).y <= SCALE,
        forall|k: i64| (#[trigger] heading(yaw).scaling(k)).z == 0,
        forall|k: i64| (#[trigger] sideways(yaw).scaling(k)).z == 0,
{
    lemma_range(yaw as int);
    let c = cosine(yaw as int);
    let s = sine(yaw as int);
    let v = level(yaw);
    assert(v.norm_squared() > 0) by (nonlinear_arith)
        requires
            v.norm_squared() == c * c + s * s + 0 * 0,
            c != 0 || s != 0,
    ;
    lemma_unit_length(v);
    assert forall|k: i64| (#[trigger] heading(yaw).scaling(k)).z == 0 by {
        assert(0 * k == 0);
    }
    assert forall|k: i64| (#[trigger] sideways(yaw).scaling(k)).z == 0 by {
        assert(0 * k == 0);
    }
}

} // verus!
