//! Rigid transforms: 3-vectors, quaternions, and isometries.
//!
//! Every operation is mirrored by a spec function written over the named
//! scalar operations, so a transform computed twice from the same data is
//! known to be the same value.

use vstd::prelude::*;

use crate::scalar::{
    radd, radd_of, rcos, rcos_of, rdiv, rdiv_of, rint, rmul, rmul_of, rof_int, rsin, rsin_of,
    rsub, rsub_of, Real,
};

verus! {

/// A 3-vector of scalars.
#[derive(Clone, Copy)]
pub struct Vector3 {
    pub x: Real,
    pub y: Real,
    pub z: Real,
}

/// A rotation as a quaternion `w + xi + yj + zk`; the library keeps unit
/// quaternions here, built from unit axes and angles.
#[derive(Clone, Copy)]
pub struct UnitQuaternion {
    pub w: Real,
    pub x: Real,
    pub y: Real,
    pub z: Real,
}

/// A rigid transform: a rotation followed by a translation.
#[derive(Clone, Copy)]
pub struct Isometry {
    pub rotation: UnitQuaternion,
    pub translation: Vector3,
}

pub open spec fn vec3_zero_spec() -> Vector3 {
    Vector3 { x: rof_int(0), y: rof_int(0), z: rof_int(0) }
}

pub open spec fn vec3_add_spec(a: Vector3, b: Vector3) -> Vector3 {
    Vector3 { x: radd_of(a.x, b.x), y: radd_of(a.y, b.y), z: radd_of(a.z, b.z) }
}

pub open spec fn vec3_scale_spec(a: Vector3, s: Real) -> Vector3 {
    Vector3 { x: rmul_of(a.x, s), y: rmul_of(a.y, s), z: rmul_of(a.z, s) }
}

pub open spec fn vec3_cross_spec(a: Vector3, b: Vector3) -> Vector3 {
    Vector3 {
        x: rsub_of(rmul_of(a.y, b.z), rmul_of(a.z, b.y)),
        y: rsub_of(rmul_of(a.z, b.x), rmul_of(a.x, b.z)),
        z: rsub_of(rmul_of(a.x, b.y), rmul_of(a.y, b.x)),
    }
}

pub open spec fn quat_identity_spec() -> UnitQuaternion {
    UnitQuaternion { w: rof_int(1), x: rof_int(0), y: rof_int(0), z: rof_int(0) }
}

/// The Hamilton product, each component grouped left to right.
pub open spec fn quat_mul_spec(a: UnitQuaternion, b: UnitQuaternion) -> UnitQuaternion {
    UnitQuaternion {
        w: rsub_of(
            rsub_of(rsub_of(rmul_of(a.w, b.w), rmul_of(a.x, b.x)), rmul_of(a.y, b.y)),
            rmul_of(a.z, b.z),
        ),
        x: rsub_of(
            radd_of(radd_of(rmul_of(a.w, b.x), rmul_of(a.x, b.w)), rmul_of(a.y, b.z)),
            rmul_of(a.z, b.y),
        ),
        y: radd_of(
            radd_of(rsub_of(rmul_of(a.w, b.y), rmul_of(a.x, b.z)), rmul_of(a.y, b.w)),
            rmul_of(a.z, b.x),
        ),
        z: radd_of(
            rsub_of(radd_of(rmul_of(a.w, b.z), rmul_of(a.x, b.y)), rmul_of(a.y, b.x)),
            rmul_of(a.z, b.w),
        ),
    }
}

/// Rotation of a vector by a quaternion: `v + w*t + q x t` with
/// `t = 2 * (q x v)`, `q` the vector part.
pub open spec fn quat_rotate_spec(q: UnitQuaternion, v: Vector3) -> Vector3 {
    let qv = Vector3 { x: q.x, y: q.y, z: q.z };
    let t = vec3_scale_spec(vec3_cross_spec(qv, v), rof_int(2));
    vec3_add_spec(vec3_add_spec(v, vec3_scale_spec(t, q.w)), vec3_cross_spec(qv, t))
}

pub open spec fn half_spec() -> Real {
    rdiv_of(rof_int(1), rof_int(2))
}

/// A rotation by `angle` about `axis` (a unit vector): the half-angle form.
pub open spec fn quat_from_axis_angle_spec(axis: Vector3, angle: Real) -> UnitQuaternion {
    let h = rmul_of(angle, half_spec());
    let s = rsin_of(h);
    UnitQuaternion {
        w: rcos_of(h),
        x: rmul_of(axis.x, s),
        y: rmul_of(axis.y, s),
        z: rmul_of(axis.z, s),
    }
}

pub open spec fn vec3_x_axis_spec() -> Vector3 {
    Vector3 { x: rof_int(1), y: rof_int(0), z: rof_int(0) }
}

pub open spec fn vec3_y_axis_spec() -> Vector3 {
    Vector3 { x: rof_int(0), y: rof_int(1), z: rof_int(0) }
}

pub open spec fn vec3_z_axis_spec() -> Vector3 {
    Vector3 { x: rof_int(0), y: rof_int(0), z: rof_int(1) }
}

/// Roll about x, then pitch about y, then yaw about z: `Rz * Ry * Rx`.
pub open spec fn quat_from_euler_spec(roll: Real, pitch: Real, yaw: Real) -> UnitQuaternion {
    quat_mul_spec(
        quat_mul_spec(
            quat_from_axis_angle_spec(vec3_z_axis_spec(), yaw),
            quat_from_axis_angle_spec(vec3_y_axis_spec(), pitch),
        ),
        quat_from_axis_angle_spec(vec3_x_axis_spec(), roll),
    )
}

pub open spec fn iso_identity_spec() -> Isometry {
    Isometry { rotation: quat_identity_spec(), translation: vec3_zero_spec() }
}

/// Composition of rigid transforms: rotations multiply, the right
/// translation is carried through the left rotation.
pub open spec fn iso_mul_spec(a: Isometry, b: Isometry) -> Isometry {
    Isometry {
        rotation: quat_mul_spec(a.rotation, b.rotation),
        translation: vec3_add_spec(a.translation, quat_rotate_spec(a.rotation, b.translation)),
    }
}

impl Vector3 {
    pub fn zero() -> (r: Vector3)
        ensures
            r == vec3_zero_spec(),
    {
        let z = rint(0);
        Vector3 { x: z, y: z, z }
    }

    pub fn new(x: Real, y: Real, z: Real) -> (r: Vector3)
        ensures
            r == (Vector3 { x, y, z }),
    {
        Vector3 { x, y, z }
    }

    pub fn x_axis() -> (r: Vector3)
        ensures
            r == vec3_x_axis_spec(),
    {
        Vector3 { x: rint(1), y: rint(0), z: rint(0) }
    }

    pub fn y_axis() -> (r: Vector3)
        ensures
            r == vec3_y_axis_spec(),
    {
        Vector3 { x: rint(0), y: rint(1), z: rint(0) }
    }

    pub fn z_axis() -> (r: Vector3)
        ensures
            r == vec3_z_axis_spec(),
    {
        Vector3 { x: rint(0), y: rint(0), z: rint(1) }
    }

    pub fn add(self, b: Vector3) -> (r: Vector3)
        ensures
            r == vec3_add_spec(self, b),
    {
        Vector3 { x: radd(self.x, b.x), y: radd(self.y, b.y), z: radd(self.z, b.z) }
    }

    pub fn scale(self, s: Real) -> (r: Vector3)
        ensures
            r == vec3_scale_spec(self, s),
    {
        Vector3 { x: rmul(self.x, s), y: rmul(self.y, s), z: rmul(self.z, s) }
    }

    pub fn cross(self, b: Vector3) -> (r: Vector3)
        ensures
            r == vec3_cross_spec(self, b),
    {
        Vector3 {
            x: rsub(rmul(self.y, b.z), rmul(self.z, b.y)),
            y: rsub(rmul(self.z, b.x), rmul(self.x, b.z)),
            z: rsub(rmul(self.x, b.y), rmul(self.y, b.x)),
        }
    }
}

impl UnitQuaternion {
    pub fn identity() -> (r: UnitQuaternion)
        ensures
            r == quat_identity_spec(),
    {
        UnitQuaternion { w: rint(1), x: rint(0), y: rint(0), z: rint(0) }
    }

    pub fn mul(self, b: UnitQuaternion) -> (r: UnitQuaternion)
        ensures
            r == quat_mul_spec(self, b),
    {
        let a = self;
        UnitQuaternion {
            w: rsub(
                rsub(rsub(rmul(a.w, b.w), rmul(a.x, b.x)), rmul(a.y, b.y)),
                rmul(a.z, b.z),
            ),
            x: rsub(
                radd(radd(rmul(a.w, b.x), rmul(a.x, b.w)), rmul(a.y, b.z)),
                rmul(a.z, b.y),
            ),
            y: radd(
                radd(rsub(rmul(a.w, b.y), rmul(a.x, b.z)), rmul(a.y, b.w)),
                rmul(a.z, b.x),
            ),
            z: radd(
                rsub(radd(rmul(a.w, b.z), rmul(a.x, b.y)), rmul(a.y, b.x)),
                rmul(a.z, b.w),
            ),
        }
    }

    pub fn rotate(self, v: Vector3) -> (r: Vector3)
        ensures
            r == quat_rotate_spec(self, v),
    {
        let qv = Vector3 { x: self.x, y: self.y, z: self.z };
        let t = qv.cross(v).scale(rint(2));
        v.add(t.scale(self.w)).add(qv.cross(t))
    }

    pub fn from_axis_angle(axis: Vector3, angle: Real) -> (r: UnitQuaternion)
        ensures
            r == quat_from_axis_angle_spec(axis, angle),
    {
        let one = rint(1);
        let two = rint(2);
        let h = rmul(angle, rdiv(one, two));
        let s = rsin(h);
        UnitQuaternion { w: rcos(h), x: rmul(axis.x, s), y: rmul(axis.y, s), z: rmul(axis.z, s) }
    }

    pub fn from_euler_angles(roll: Real, pitch: Real, yaw: Real) -> (r: UnitQuaternion)
        ensures
            r == quat_from_euler_spec(roll, pitch, yaw),
    {
        let qx = UnitQuaternion::from_axis_angle(Vector3::x_axis(), roll);
        let qy = UnitQuaternion::from_axis_angle(Vector3::y_axis(), pitch);
        let qz = UnitQuaternion::from_axis_angle(Vector3::z_axis(), yaw);
        qz.mul(qy).mul(qx)
    }
}

impl Isometry {
    pub fn identity() -> (r: Isometry)
        ensures
            r == iso_identity_spec(),
    {
        Isometry { rotation: UnitQuaternion::identity(), translation: Vector3::zero() }
    }

    pub fn from_parts(translation: Vector3, rotation: UnitQuaternion) -> (r: Isometry)
        ensures
            r == (Isometry { rotation, translation }),
    {
        Isometry { rotation, translation }
    }

    pub fn mul(self, b: Isometry) -> (r: Isometry)
        ensures
            r == iso_mul_spec(self, b),
    {
        Isometry {
            rotation: self.rotation.mul(b.rotation),
            translation: self.translation.add(self.rotation.rotate(b.translation)),
        }
    }
}

} // verus!
