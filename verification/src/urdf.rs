//! The robot-description boundary: the flat link/joint data a description
//! file carries, and the construction of chains and trees from it.
//!
//! Numbers arrive as text ("0 1 -1"); a verified decimal parser turns them
//! into scalars, pinned to the digits it read.  The graph work - finding
//! the root link, walking joints to the root, building the star and the
//! tree - is plain verified logic over these types.

use vstd::prelude::*;

use crate::links::{LinkedFrame, LinkedJoint, LinkedJointBuilder, RobotFrame};
use crate::tree::{node_view, set_parent_child, tree_wf, LinkedJointTree};
use crate::scalar::{radd, radd_of, rdiv, rdiv_of, req, req_of, rint, rmul, rmul_of, rof_int,
    rsqrt, rsqrt_of, Real};
use crate::transform::{iso_identity_spec, quat_from_euler_spec, Isometry, UnitQuaternion, Vector3};
use vstd::string::StringSliceAdditionalSpecFns;
use vstd::utf8::encode_utf8;

verus! {

/// A color as the description writes it: four numbers in a string.
pub struct Color {
    pub rgba: String,
}

/// A texture reference.
pub struct Texture {
    pub filename: String,
}

/// A named material: a color and a texture.
pub struct Material {
    pub name: String,
    pub color: Color,
    pub texture: Texture,
}

/// A mass.
pub struct Mass {
    pub value: Real,
}

/// A rotational inertia.
pub struct Inertia {
    pub ixx: Real,
    pub ixy: Real,
    pub ixz: Real,
    pub iyy: Real,
    pub iyz: Real,
    pub izz: Real,
}

/// Inertial data of a link.
pub struct Inertial {
    pub origin: Pose,
    pub mass: Mass,
    pub inertia: Inertia,
}

/// A shape of a link.
pub enum Geometry {
    Box { size: String },
    Cylinder { radius: Real, length: Real },
    Sphere { radius: Real },
    Mesh { filename: String, scale: Real },
}

/// What a link looks like.
pub struct Visual {
    pub name: String,
    pub origin: Pose,
    pub geometry: Geometry,
    pub material: Material,
}

/// What a link collides as.
pub struct Collision {
    pub name: String,
    pub origin: Pose,
    pub geometry: Geometry,
}

/// A named link of the description.
pub struct Link {
    pub name: String,
    pub inertial: Option<Inertial>,
    pub visual: Option<Visual>,
    pub collision: Option<Collision>,
}

/// An axis as the description writes it: three numbers in a string.
pub struct Axis {
    pub xyz: String,
}

/// An offset pose as the description writes it: two triples of numbers.
pub struct Pose {
    pub xyz: String,
    pub rpy: String,
}

/// A reference to a link by name.
pub struct LinkName {
    pub link: String,
}

/// The kind tag a description joint carries.
#[derive(Clone, Copy, PartialEq, Eq, Structural)]
pub enum JointType {
    Revolute,
    Continuous,
    Prismatic,
    Fixed,
    Floating,
    Planar,
}

/// The limits of a description joint.
pub struct JointLimit {
    pub lower: Real,
    pub upper: Real,
    pub effort: Real,
    pub velocity: Real,
}

/// A joint of the description: a kind, an offset, an axis, and the two
/// links it connects.
pub struct Joint {
    pub name: String,
    pub joint_type: JointType,
    pub origin: Pose,
    pub parent: LinkName,
    pub child: LinkName,
    pub axis: Axis,
    pub limit: Option<JointLimit>,
}

/// A whole description: a name, the links, and the joints.
pub struct Robot {
    pub name: String,
    pub links: Vec<Link>,
    pub joints: Vec<Joint>,
}

/// An ASCII digit.
pub open spec fn is_digit(b: u8) -> bool {
    48 <= b <= 57
}

/// Digits read from position `p` on, folded onto `acc` in base ten; stops
/// at the first non-digit.  Returns the value and the next position.
pub open spec fn scan_digits_spec(s: Seq<u8>, p: int, acc: int) -> (int, int)
    decreases s.len() - p,
{
    if p < 0 || p >= s.len() || !is_digit(s[p]) {
        (acc, p)
    } else {
        scan_digits_spec(s, p + 1, acc * 10 + (s[p] - 48))
    }
}

/// Ten to the `k`.
pub open spec fn pow10_spec(k: nat) -> Real
    decreases k,
{
    if k == 0 {
        rof_int(1)
    } else {
        rmul_of(pow10_spec((k - 1) as nat), rof_int(10))
    }
}

/// The largest mantissa the parser accepts; far below 2^53, so the
/// conversion to a double is exact.
pub const MANT_MAX: u64 = 1000000000000000;

/// The largest exponent the parser accepts.
pub const EXP_MAX: u64 = 400;

/// What a byte string parses to: an optional sign, digits with one
/// optional point, and an optional exponent; nothing when the shape is
/// wrong or the number is out of the parser's range.
pub open spec fn parse_real_spec(s: Seq<u8>) -> Option<Real> {
    let p0: int = if s.len() > 0 && (s[0] == 45 || s[0] == 43) {
        1
    } else {
        0
    };
    let neg = s.len() > 0 && s[0] == 45;
    let ip = scan_digits_spec(s, p0, 0);
    let fp = if ip.1 < s.len() && s[ip.1] == 46 {
        scan_digits_spec(s, ip.1 + 1, ip.0)
    } else {
        ip
    };
    let fraclen: int = if ip.1 < s.len() && s[ip.1] == 46 {
        fp.1 - ip.1 - 1
    } else {
        0
    };
    let some_digit = ip.1 > p0 || fraclen > 0;
    if !some_digit || fp.0 > MANT_MAX as int || fraclen > EXP_MAX as int {
        None
    } else {
        let has_exp = fp.1 < s.len() && (s[fp.1] == 101 || s[fp.1] == 69);
        let ep0: int = if has_exp && fp.1 + 1 < s.len() && (s[fp.1 + 1] == 45 || s[fp.1 + 1]
            == 43) {
            fp.1 + 2
        } else {
            fp.1 + 1
        };
        let eneg = has_exp && fp.1 + 1 < s.len() && s[fp.1 + 1] == 45;
        let ex = scan_digits_spec(s, ep0, 0);
        if has_exp && (ex.1 == ep0 || ex.0 > EXP_MAX as int) {
            None
        } else if has_exp && ex.1 != s.len() {
            None
        } else if !has_exp && fp.1 != s.len() {
            None
        } else {
            let e: int = if has_exp {
                ex.0
            } else {
                0
            };
            let k: int = if has_exp && eneg {
                fraclen + e
            } else {
                fraclen - e
            };
            let sm: int = if neg {
                -fp.0
            } else {
                fp.0
            };
            if k >= 0 {
                if req_of(pow10_spec(k as nat), rof_int(0)) {
                    None
                } else {
                    Some(rdiv_of(rof_int(sm), pow10_spec(k as nat)))
                }
            } else {
                Some(rmul_of(rof_int(sm), pow10_spec((-k) as nat)))
            }
        }
    }
}

/// The values of the space-separated pieces that parse, in order; pieces
/// that do not parse are dropped.
pub open spec fn parse_list_spec(s: Seq<u8>, p: int) -> Seq<Real>
    decreases s.len() - p,
{
    if p < 0 || p >= s.len() {
        Seq::<Real>::empty()
    } else {
        let q0 = next_space_spec(s, p);
        let q: int = if q0 < p {
            p
        } else if q0 > s.len() {
            s.len() as int
        } else {
            q0
        };
        let rest = if q + 1 <= s.len() {
            parse_list_spec(s, q + 1)
        } else {
            Seq::<Real>::empty()
        };
        match parse_real_spec(s.subrange(p, q)) {
            Option::Some(v) => seq![v] + rest,
            Option::None => rest,
        }
    }
}

/// The first space at or after `p`, or the end.
pub open spec fn next_space_spec(s: Seq<u8>, p: int) -> int
    decreases s.len() - p,
{
    if p < 0 || p >= s.len() {
        s.len() as int
    } else if s[p] == 32 {
        p
    } else {
        next_space_spec(s, p + 1)
    }
}

/// Once the running value passes the bound it can only grow.
proof fn lemma_scan_monotone(s: Seq<u8>, p: int, acc: int, bound: int)
    requires
        acc > bound,
        bound >= 0,
    ensures
        scan_digits_spec(s, p, acc).0 > bound,
    decreases s.len() - p,
{
    if !(p < 0 || p >= s.len() || !is_digit(s[p])) {
        lemma_scan_monotone(s, p + 1, acc * 10 + (s[p] - 48), bound);
    }
}

/// Mirrors `scan_digits_spec`; bails out once the value passes the largest
/// accepted mantissa.
fn scan_digits(s: &[u8], p: usize, acc: u64) -> (r: Option<(u64, usize)>)
    requires
        p <= s@.len(),
        acc <= MANT_MAX,
    ensures
        match r {
            Some(v) => scan_digits_spec(s@, p as int, acc as int) == (v.0 as int, v.1 as int)
                && v.0 <= MANT_MAX && p <= v.1 <= s@.len(),
            None => scan_digits_spec(s@, p as int, acc as int).0 > MANT_MAX as int,
        },
    decreases s@.len() - p,
{
    if p >= s.len() {
        return Some((acc, p));
    }
    let b = s[p];
    if b < 48 || b > 57 {
        return Some((acc, p));
    }
    let next = acc * 10 + ((b - 48) as u64);
    if next > MANT_MAX {
        proof {
            lemma_scan_monotone(s@, p as int + 1, next as int, MANT_MAX as int);
        }
        return None;
    }
    scan_digits(s, p + 1, next)
}

/// Mirrors `next_space_spec`.
fn next_space(s: &[u8], p: usize) -> (r: usize)
    requires
        p <= s@.len(),
    ensures
        r == next_space_spec(s@, p as int),
        p <= r <= s@.len(),
    decreases s@.len() - p,
{
    if p >= s.len() {
        return s.len();
    }
    if s[p] == 32 {
        return p;
    }
    next_space(s, p + 1)
}

/// Ten to the `k`, by repeated multiplication.
fn pow10(k: usize) -> (r: Real)
    ensures
        r == pow10_spec(k as nat),
    decreases k,
{
    if k == 0 {
        rint(1)
    } else {
        rmul(pow10(k - 1), rint(10))
    }
}

/// Parses one decimal number from bytes; the result is pinned to the
/// digits, the sign, the point's position and the exponent that were read.
pub fn parse_real_bytes(s: &[u8]) -> (r: Option<Real>)
    ensures
        r == parse_real_spec(s@),
{
    let n = s.len();
    let p0: usize = if n > 0 && (s[0] == 45 || s[0] == 43) {
        1
    } else {
        0
    };
    let neg = n > 0 && s[0] == 45;
    let ip = match scan_digits(s, p0, 0) {
        Some(v) => v,
        None => {
            proof {
                let ips = scan_digits_spec(s@, p0 as int, 0);
                if ips.1 < s@.len() && s@[ips.1] == 46 {
                    lemma_scan_monotone(s@, ips.1 + 1, ips.0, MANT_MAX as int);
                }
            }
            return None;
        },
    };
    let has_frac = ip.1 < n && s[ip.1] == 46;
    let fp = if has_frac {
        match scan_digits(s, ip.1 + 1, ip.0) {
            Some(v) => v,
            None => {
                return None;
            },
        }
    } else {
        ip
    };
    let fraclen: usize = if has_frac {
        fp.1 - ip.1 - 1
    } else {
        0
    };
    let some_digit = ip.1 > p0 || fraclen > 0;
    if !some_digit {
        return None;
    }
    if fraclen as u64 > EXP_MAX {
        return None;
    }
    let has_exp = fp.1 < n && (s[fp.1] == 101 || s[fp.1] == 69);
    let mut e: u64 = 0;
    let mut eneg = false;
    if has_exp {
        let ep0: usize = if fp.1 + 1 < n && (s[fp.1 + 1] == 45 || s[fp.1 + 1] == 43) {
            fp.1 + 2
        } else {
            fp.1 + 1
        };
        eneg = fp.1 + 1 < n && s[fp.1 + 1] == 45;
        let ex = match scan_digits(s, ep0, 0) {
            Some(v) => v,
            None => {
                proof {
                    assert(scan_digits_spec(s@, ep0 as int, 0).0 > MANT_MAX as int);
                }
                return None;
            },
        };
        if ex.1 == ep0 || ex.0 > EXP_MAX {
            return None;
        }
        if ex.1 != n {
            return None;
        }
        e = ex.0;
    } else {
        if fp.1 != n {
            return None;
        }
    }
    let mant = rint(fp.0 as i64);
    let sm = if neg {
        rneg_int(fp.0)
    } else {
        mant
    };
    let k_abs: usize;
    let k_nonneg: bool;
    if has_exp && eneg {
        k_abs = fraclen + (e as usize);
        k_nonneg = true;
    } else {
        if fraclen as u64 >= e {
            k_abs = fraclen - (e as usize);
            k_nonneg = true;
        } else {
            k_abs = (e as usize) - fraclen;
            k_nonneg = false;
        }
    }
    let p = pow10(k_abs);
    if k_nonneg {
        if req(p, rint(0)) {
            return None;
        }
        Some(rdiv(sm, p))
    } else {
        proof {
            assert(0 - (k_abs as int) < 0);
        }
        Some(rmul(sm, p))
    }
}

/// The negated conversion of a mantissa.
fn rneg_int(v: u64) -> (r: Real)
    requires
        v <= MANT_MAX,
    ensures
        r == rof_int(-(v as int)),
{
    rint(-(v as i64))
}

/// Parses every space-separated number in the bytes, dropping pieces that
/// do not parse.
pub fn parse_reals_bytes(s: &[u8], p: usize) -> (r: Vec<Real>)
    requires
        p <= s@.len(),
    ensures
        r@ == parse_list_spec(s@, p as int),
    decreases s@.len() - p,
{
    if p >= s.len() {
        return Vec::new();
    }
    let q = next_space(s, p);
    let mut seg: Vec<u8> = Vec::new();
    let mut i: usize = p;
    while i < q
        invariant
            p <= i <= q,
            q <= s@.len(),
            seg@ == s@.subrange(p as int, i as int),
        decreases q - i,
    {
        seg.push(s[i]);
        proof {
            assert(s@.subrange(p as int, i as int + 1) =~= s@.subrange(p as int, i as int).push(
                s@[i as int],
            ));
        }
        i = i + 1;
    }
    let head = parse_real_bytes(seg.as_slice());
    let mut rest = if q >= s.len() {
        Vec::new()
    } else {
        parse_reals_bytes(s, q + 1)
    };
    proof {
        if q >= s@.len() {
            assert(parse_list_spec(s@, q as int + 1) =~= Seq::<Real>::empty());
        }
    }
    match head {
        Some(v) => {
            let mut out: Vec<Real> = Vec::new();
            out.push(v);
            out.append(&mut rest);
            proof {
                assert(out@ =~= parse_list_spec(s@, p as int));
            }
            out
        },
        None => rest,
    }
}

/// The three components of a string of exactly three numbers; nothing
/// otherwise.
pub open spec fn parse3_spec(s: Seq<u8>) -> Option<Vector3> {
    let vs = parse_list_spec(s, 0);
    if vs.len() == 3 {
        Some(Vector3 { x: vs[0], y: vs[1], z: vs[2] })
    } else {
        None
    }
}

/// Parses a string of exactly three numbers into a vector.  The rejected
/// cases are exactly those where the pieces that parse number other than
/// three.
pub fn parse_array_from_string(s: &str) -> (r: Option<Vector3>)
    ensures
        r == parse3_spec(s.spec_bytes()),
{
    let bytes = s.as_bytes();
    let vs = parse_reals_bytes(bytes, 0);
    if vs.len() == 3 {
        Some(Vector3 { x: vs[0], y: vs[1], z: vs[2] })
    } else {
        None
    }
}

impl Axis {
    /// The axis string as a vector.
    pub fn xyz_as_array(&self) -> (r: Option<Vector3>)
        ensures
            r == parse3_spec(encode_utf8(self.xyz@)),
    {
        parse_array_from_string(self.xyz.as_str())
    }
}

impl Pose {
    /// The translation string as a vector.
    pub fn xyz_as_array(&self) -> (r: Option<Vector3>)
        ensures
            r == parse3_spec(encode_utf8(self.xyz@)),
    {
        parse_array_from_string(self.xyz.as_str())
    }

    /// The roll/pitch/yaw string as a vector.
    pub fn rpy_as_array(&self) -> (r: Option<Vector3>)
        ensures
            r == parse3_spec(encode_utf8(self.rpy@)),
    {
        parse_array_from_string(self.rpy.as_str())
    }
}


/// The squared length of a vector, grouped left to right.
pub open spec fn sumsq3_spec(v: Vector3) -> Real {
    radd_of(radd_of(rmul_of(v.x, v.x), rmul_of(v.y, v.y)), rmul_of(v.z, v.z))
}

/// A vector scaled to unit length; left alone when its length reads as
/// exactly zero.
pub open spec fn vec3_normalize_spec(v: Vector3) -> Vector3 {
    let n = rsqrt_of(sumsq3_spec(v));
    if req_of(n, rof_int(0)) {
        v
    } else {
        Vector3 { x: rdiv_of(v.x, n), y: rdiv_of(v.y, n), z: rdiv_of(v.z, n) }
    }
}

/// Scales a vector to unit length, as an axis read from a description.
pub fn vec3_normalize(v: Vector3) -> (r: Vector3)
    ensures
        r == vec3_normalize_spec(v),
{
    let n = rsqrt(radd(radd(rmul(v.x, v.x), rmul(v.y, v.y)), rmul(v.z, v.z)));
    if req(n, rint(0)) {
        v
    } else {
        Vector3 { x: rdiv(v.x, n), y: rdiv(v.y, n), z: rdiv(v.z, n) }
    }
}

/// The chain joint type a description joint maps to: revolute and
/// continuous turn, prismatic slides, everything else is fixed; the axis
/// is parsed and scaled to unit length.
pub open spec fn joint_type_from_spec(j: Joint) -> Option<crate::links::JointType> {
    match j.joint_type {
        JointType::Revolute | JointType::Continuous => match parse3_spec(
            encode_utf8(j.axis.xyz@),
        ) {
            Option::Some(a) => Some(
                crate::links::JointType::Rotational { axis: vec3_normalize_spec(a) },
            ),
            Option::None => None,
        },
        JointType::Prismatic => match parse3_spec(encode_utf8(j.axis.xyz@)) {
            Option::Some(a) => Some(crate::links::JointType::Linear { axis: vec3_normalize_spec(a) }),
            Option::None => None,
        },
        _ => Some(crate::links::JointType::Fixed),
    }
}

/// Whether a description joint converts: its kind resolves and its origin
/// strings parse.
pub open spec fn can_convert(j: Joint) -> bool {
    &&& joint_type_from_spec(j) is Some
    &&& parse3_spec(encode_utf8(j.origin.rpy@)) is Some
    &&& parse3_spec(encode_utf8(j.origin.xyz@)) is Some
}

/// How a converted unit relates to the description joint it came from.
pub open spec fn lj_matches(lj: LinkedJoint, j: Joint) -> bool {
    &&& joint_type_from_spec(j) == Some(lj.joint.joint_type)
    &&& lj.joint.name@ == j.name@
    &&& lj.joint.angle == rof_int(0)
    &&& lj.joint.limits is None
    &&& lj.name@ == j.child.link@
    &&& lj.world_transform_cache is None
    &&& (parse3_spec(encode_utf8(j.origin.rpy@)) matches Some(rpy) && parse3_spec(
        encode_utf8(j.origin.xyz@),
    ) matches Some(xyz) && lj.transform == (Isometry {
        rotation: quat_from_euler_spec(rpy.x, rpy.y, rpy.z),
        translation: xyz,
    }))
}

/// Converts one description joint into a unit: the joint keeps its name,
/// the unit is named after the child link, and the origin pose becomes the
/// fixed link offset.
pub fn create_linked_joint_from_urdf_joint(joint: &Joint) -> (r: Option<LinkedJoint>)
    ensures
        r is Some <==> can_convert(*joint),
        r matches Some(lj) ==> lj_matches(lj, *joint),
{
    let jt = match joint.joint_type {
        JointType::Revolute | JointType::Continuous => {
            match joint.axis.xyz_as_array() {
                Some(a) => crate::links::JointType::Rotational { axis: vec3_normalize(a) },
                None => {
                    return None;
                },
            }
        },
        JointType::Prismatic => {
            match joint.axis.xyz_as_array() {
                Some(a) => crate::links::JointType::Linear { axis: vec3_normalize(a) },
                None => {
                    return None;
                },
            }
        },
        _ => crate::links::JointType::Fixed,
    };
    let rpy = match joint.origin.rpy_as_array() {
        Some(v) => v,
        None => {
            return None;
        },
    };
    let xyz = match joint.origin.xyz_as_array() {
        Some(v) => v,
        None => {
            return None;
        },
    };
    Some(
        LinkedJointBuilder::new().joint(joint.name.as_str(), jt).name(
            joint.child.link.as_str(),
        ).rotation(UnitQuaternion::from_euler_angles(rpy.x, rpy.y, rpy.z)).translation(
            xyz,
        ).finalize(),
    )
}

/// The last description joint whose child is the named link.
pub open spec fn find_last_child(js: Seq<Joint>, name: Seq<char>) -> Option<usize>
    decreases js.len(),
{
    if js.len() == 0 {
        None
    } else if js.last().child.link@ == name {
        Some((js.len() - 1) as usize)
    } else {
        find_last_child(js.drop_last(), name)
    }
}

/// Every index the search can return points into the joints.
pub proof fn lemma_find_last_bound(js: Seq<Joint>, name: Seq<char>)
    requires
        js.len() <= usize::MAX,
    ensures
        ({
            match find_last_child(js, name) {
                Option::Some(j) => j < js.len() && js[j as int].child.link@ == name,
                Option::None => true,
            }
        }),
    decreases js.len(),
{
    if js.len() > 0 && !(js.last().child.link@ == name) {
        lemma_find_last_bound(js.drop_last(), name);
        match find_last_child(js.drop_last(), name) {
            Option::None => {},
            Option::Some(j) => {
                assert(js.drop_last()[j as int] == js[j as int]);
            },
        }
    }
}

/// Every index on a walk to the root points into the joints.
pub proof fn lemma_joints_to_root_bounds(js: Seq<Joint>, name: Seq<char>, fuel: nat)
    requires
        js.len() <= usize::MAX,
    ensures
        forall|k: int|
            0 <= k < joints_to_root(js, name, fuel).len() ==> (#[trigger] joints_to_root(
                js,
                name,
                fuel,
            )[k]) < js.len(),
    decreases fuel,
{
    if fuel > 0 {
        match find_last_child(js, name) {
            Option::None => {},
            Option::Some(j) => {
                lemma_find_last_bound(js, name);
                lemma_joints_to_root_bounds(js, js[j as int].parent.link@, (fuel - 1) as nat);
                let res = joints_to_root(js, name, fuel);
                let rec = joints_to_root(js, js[j as int].parent.link@, (fuel - 1) as nat);
                assert forall|k: int| 0 <= k < res.len() implies res[k] < js.len() by {
                    if k < rec.len() {
                        assert(res[k] == rec[k]);
                    } else {
                        assert(res[k] == j);
                    }
                }
            },
        }
    }
}

/// Mirrors `find_last_child` by a backward scan.
pub fn find_last_child_exec(joints: &Vec<Joint>, name: &String) -> (r: Option<usize>)
    ensures
        r == find_last_child(joints@, name@),
        r matches Some(j) ==> j < joints@.len(),
{
    let n = joints.len();
    let mut i: usize = n;
    proof {
        assert(joints@.take(n as int) =~= joints@);
    }
    while i > 0
        invariant
            n == joints@.len(),
            0 <= i <= n,
            find_last_child(joints@, name@) == find_last_child(joints@.take(i as int), name@),
        decreases i,
    {
        proof {
            assert(joints@.take(i as int).last() == joints@[i as int - 1]);
            assert(joints@.take(i as int).drop_last() =~= joints@.take(i as int - 1));
        }
        if joints[i - 1].child.link == *name {
            return Some(i - 1);
        }
        i = i - 1;
    }
    None
}

/// The joint indices from the link named `name` up to the root, root
/// first: repeatedly the last joint whose child is the current link.
pub open spec fn joints_to_root(js: Seq<Joint>, name: Seq<char>, fuel: nat) -> Seq<usize>
    decreases fuel,
{
    if fuel == 0 {
        Seq::<usize>::empty()
    } else {
        match find_last_child(js, name) {
            Option::None => Seq::<usize>::empty(),
            Option::Some(j) => joints_to_root(js, js[j as int].parent.link@, (fuel - 1) as nat).push(
                j,
            ),
        }
    }
}

/// Collects the joints from an end link up to the root, root first.
pub fn get_joint_until_root(joints: &Vec<Joint>, end_name: &String) -> (r: Vec<usize>)
    ensures
        r@ == joints_to_root(joints@, end_name@, joints@.len() as nat),
{
    let n = joints.len();
    get_joint_until_root_rec(joints, end_name, n)
}

/// Mirrors `joints_to_root` by direct recursion.
fn get_joint_until_root_rec(joints: &Vec<Joint>, name: &String, fuel: usize) -> (r: Vec<usize>)
    ensures
        r@ == joints_to_root(joints@, name@, fuel as nat),
    decreases fuel,
{
    if fuel == 0 {
        return Vec::new();
    }
    match find_last_child_exec(joints, name) {
        None => Vec::new(),
        Some(j) => {
            let mut rest = get_joint_until_root_rec(joints, &joints[j].parent.link, fuel - 1);
            rest.push(j);
            rest
        },
    }
}

/// The name reached from `cur` by walking child-to-parent joints until no
/// joint has the current link as its child.
pub open spec fn root_name_spec(js: Seq<Joint>, cur: Seq<char>, fuel: nat) -> Seq<char>
    decreases fuel,
{
    if fuel == 0 {
        cur
    } else {
        match find_last_child(js, cur) {
            Option::None => cur,
            Option::Some(j) => root_name_spec(js, js[j as int].parent.link@, (fuel - 1) as nat),
        }
    }
}

/// The name of the unique root link: the walk up from the first link's
/// name until no joint claims the current link as its child.
pub fn get_root_link_name(robot: &Robot) -> (r: String)
    requires
        robot.links@.len() > 0,
    ensures
        r@ == root_name_spec(robot.joints@, robot.links@[0].name@, robot.joints@.len() as nat),
{
    let n = robot.joints.len();
    let start = robot.links[0].name.clone();
    root_name_rec(&robot.joints, start, n)
}

/// Mirrors `root_name_spec` by direct recursion.
fn root_name_rec(joints: &Vec<Joint>, cur: String, fuel: usize) -> (r: String)
    ensures
        r@ == root_name_spec(joints@, cur@, fuel as nat),
    decreases fuel,
{
    if fuel == 0 {
        return cur;
    }
    match find_last_child_exec(joints, &cur) {
        None => cur,
        Some(j) => root_name_rec(joints, joints[j].parent.link.clone(), fuel - 1),
    }
}

/// Whether some joint names the link as its parent: such a link is not an
/// end link.
pub open spec fn is_parent_link(js: Seq<Joint>, name: Seq<char>) -> bool {
    exists|k: int| 0 <= k < js.len() && (#[trigger] js[k]).parent.link@ == name
}

fn is_parent_link_exec(joints: &Vec<Joint>, name: &String) -> (r: bool)
    ensures
        r == is_parent_link(joints@, name@),
{
    let n = joints.len();
    let mut i: usize = 0;
    while i < n
        invariant
            n == joints@.len(),
            0 <= i <= n,
            forall|k: int| 0 <= k < i ==> (#[trigger] joints@[k]).parent.link@ != name@,
        decreases n - i,
    {
        if joints[i].parent.link == *name {
            return true;
        }
        i = i + 1;
    }
    false
}

/// The indices of the end links, from `i` on: links that no joint names as
/// its parent.
pub open spec fn end_links_spec(ls: Seq<Link>, js: Seq<Joint>, i: int) -> Seq<usize>
    decreases ls.len() - i,
{
    if i < 0 || i >= ls.len() {
        Seq::<usize>::empty()
    } else if !is_parent_link(js, ls[i].name@) {
        seq![i as usize] + end_links_spec(ls, js, i + 1)
    } else {
        end_links_spec(ls, js, i + 1)
    }
}

/// A failed conversion on the walk from end link `e`: the `u`-th joint of
/// its chain does not convert.
pub open spec fn robot_frame_failure(ls: Seq<Link>, js: Seq<Joint>, e: int, u: int) -> bool {
    let ends = end_links_spec(ls, js, 0);
    &&& 0 <= e < ends.len()
    &&& 0 <= u < joints_to_root(js, ls[ends[e] as int].name@, js.len() as nat).len()
    &&& !can_convert(js[joints_to_root(js, ls[ends[e] as int].name@, js.len() as nat)[u] as int])
}

/// One serial chain of converted units for the chain of joints from an end
/// link to the root.
pub open spec fn frame_ok(frame: LinkedFrame, js: Seq<Joint>, end_name: Seq<char>) -> bool {
    let chain = joints_to_root(js, end_name, js.len() as nat);
    &&& frame.linked_joints@.len() == chain.len()
    &&& forall|u: int|
        0 <= u < chain.len() ==> lj_matches(
            #[trigger] frame.linked_joints@[u],
            js[chain[u] as int],
        )
    &&& frame.transform == iso_identity_spec()
}

/// Builds the star: one serial chain per end link, all joints converted;
/// nothing when a joint on some chain does not convert.
pub fn create_robot(robot: &Robot) -> (r: Option<RobotFrame>)
    ensures
        ({
            let ends = end_links_spec(robot.links@, robot.joints@, 0);
            match r {
                Some(rf) => {
                    &&& rf.name@ == robot.name@
                    &&& rf.transform == iso_identity_spec()
                    &&& rf.frames@.len() == ends.len()
                    &&& forall|f: int|
                        0 <= f < ends.len() ==> frame_ok(
                            #[trigger] rf.frames@[f],
                            robot.joints@,
                            robot.links@[ends[f] as int].name@,
                        )
                },
                None => exists|e: int, u: int|
                    robot_frame_failure(robot.links@, robot.joints@, e, u),
            }
        }),
{
    let ghost ends = end_links_spec(robot.links@, robot.joints@, 0);
    let nl = robot.links.len();
    let mut frames: Vec<LinkedFrame> = Vec::new();
    let mut i: usize = 0;
    proof {
        assert(frames_index_prefix(robot.links@, robot.joints@, 0) =~= Seq::<usize>::empty());
        assert(frames_index_prefix(robot.links@, robot.joints@, 0) + end_links_spec(
            robot.links@,
            robot.joints@,
            0,
        ) =~= end_links_spec(robot.links@, robot.joints@, 0));
    }
    while i < nl
        invariant
            nl == robot.links@.len(),
            0 <= i <= nl,
            ends == end_links_spec(robot.links@, robot.joints@, 0),
            end_links_spec(robot.links@, robot.joints@, 0) == frames_index_prefix(
                robot.links@,
                robot.joints@,
                i as int,
            ) + end_links_spec(robot.links@, robot.joints@, i as int),
            frames@.len() == frames_index_prefix(robot.links@, robot.joints@, i as int).len(),
            forall|f: int|
                0 <= f < frames@.len() ==> frame_ok(
                    #[trigger] frames@[f],
                    robot.joints@,
                    robot.links@[
                        frames_index_prefix(robot.links@, robot.joints@, i as int)[f] as int
                    ].name@,
                ),
        decreases nl - i,
    {
        let ghost pre = frames@;
        if !is_parent_link_exec(&robot.joints, &robot.links[i].name) {
            let nj = robot.joints.len();
            let chain = get_joint_until_root(&robot.joints, &robot.links[i].name);
            proof {
                assert(robot.joints@.len() == nj as int);
                lemma_joints_to_root_bounds(
                    robot.joints@,
                    robot.links@[i as int].name@,
                    robot.joints@.len() as nat,
                );
            }
            let mut units: Vec<LinkedJoint> = Vec::new();
            let m = chain.len();
            let mut u: usize = 0;
            while u < m
                invariant
                    nl == robot.links@.len(),
                    m == chain@.len(),
                    0 <= u <= m,
                    chain@ == joints_to_root(
                        robot.joints@,
                        robot.links@[i as int].name@,
                        robot.joints@.len() as nat,
                    ),
                    forall|k: int| 0 <= k < m ==> (#[trigger] chain@[k]) < robot.joints@.len(),
                    units@.len() == u,
                    forall|k: int|
                        0 <= k < u ==> lj_matches(
                            #[trigger] units@[k],
                            robot.joints@[chain@[k] as int],
                        ),
                    i < nl,
                    !is_parent_link(robot.joints@, robot.links@[i as int].name@),
                    ends == end_links_spec(robot.links@, robot.joints@, 0),
                    end_links_spec(robot.links@, robot.joints@, 0) == frames_index_prefix(
                        robot.links@,
                        robot.joints@,
                        i as int,
                    ) + end_links_spec(robot.links@, robot.joints@, i as int),
                decreases m - u,
            {
                match create_linked_joint_from_urdf_joint(&robot.joints[chain[u]]) {
                    Some(lj) => units.push(lj),
                    None => {
                        proof {
                            let pre = frames_index_prefix(
                                robot.links@,
                                robot.joints@,
                                i as int,
                            );
                            assert(end_links_spec(robot.links@, robot.joints@, i as int)[0] == (
                            i as usize));
                            assert(ends[pre.len() as int] == i as usize);
                            assert(robot_frame_failure(
                                robot.links@,
                                robot.joints@,
                                pre.len() as int,
                                u as int,
                            ));
                        }
                        return None;
                    },
                }
                u = u + 1;
            }
            frames.push(LinkedFrame::new("", units));
            proof {
                assert(seq![i] + end_links_spec(robot.links@, robot.joints@, i as int + 1)
                    =~= end_links_spec(robot.links@, robot.joints@, i as int));
                assert(frames_index_prefix(robot.links@, robot.joints@, i as int + 1)
                    =~= frames_index_prefix(robot.links@, robot.joints@, i as int).push(i));
            }
        } else {
            proof {
                assert(frames_index_prefix(robot.links@, robot.joints@, i as int + 1)
                    =~= frames_index_prefix(robot.links@, robot.joints@, i as int));
            }
        }
        i = i + 1;
    }
    proof {
        assert(end_links_spec(robot.links@, robot.joints@, nl as int) =~= Seq::<usize>::empty());
        assert(frames_index_prefix(robot.links@, robot.joints@, nl as int) + Seq::<usize>::empty()
            =~= frames_index_prefix(robot.links@, robot.joints@, nl as int));
    }
    Some(RobotFrame::new(robot.name.as_str(), frames))
}

/// The end links already passed when the scan stands at `i`.
pub open spec fn frames_index_prefix(ls: Seq<Link>, js: Seq<Joint>, i: int) -> Seq<usize> {
    end_links_spec(ls, js, 0).take(
        end_links_spec(ls, js, 0).len() - end_links_spec(ls, js, i).len(),
    )
}


/// Whether one of the links up to `upto` carries the name.
pub open spec fn link_named_below(ls: Seq<Link>, name: Seq<char>, upto: int) -> bool {
    exists|li: int| 0 <= li < upto && (#[trigger] ls[li]).name@ == name
}

/// The parent a joint node has after the links up to `upto` were wired:
/// the node of the last joint whose child is this joint's parent link,
/// provided such a link name occurs and the match is not the joint itself.
pub open spec fn linked_parent_spec(ls: Seq<Link>, js: Seq<Joint>, j: int, upto: int) -> Option<
    usize,
> {
    if link_named_below(ls, js[j].parent.link@, upto) {
        match find_last_child(js, js[j].parent.link@) {
            Option::Some(k) => if k == j {
                None
            } else {
                Some((k + 1) as usize)
            },
            Option::None => None,
        }
    } else {
        None
    }
}

/// The parent a joint node ends up with: the wired one, or the synthetic
/// root when nothing wired it.
pub open spec fn tree_parent_spec(ls: Seq<Link>, js: Seq<Joint>, j: int) -> usize {
    match linked_parent_spec(ls, js, j, ls.len() as int) {
        Option::Some(p) => p,
        Option::None => 0,
    }
}

/// The children node `c` gains from wiring link `l`, scanning the joints
/// up to `ju`: each joint naming the link as its parent, in joint order,
/// when the link's node is `c` and the joint is not its own match.
pub open spec fn link_children(ls: Seq<Link>, js: Seq<Joint>, c: int, l: int, ju: int) -> Seq<
    usize,
>
    decreases ju,
{
    if ju <= 0 {
        Seq::<usize>::empty()
    } else {
        let pre = link_children(ls, js, c, l, ju - 1);
        let j = ju - 1;
        let add = match find_last_child(js, ls[l].name@) {
            Option::Some(k) => js[j].parent.link@ == ls[l].name@ && k != j && c == k + 1,
            Option::None => false,
        };
        if add {
            pre.push((j + 1) as usize)
        } else {
            pre
        }
    }
}

/// The children node `c` holds once the links up to `lu` are wired; a
/// link name that occurs twice wires its children twice, as the insertion
/// order records.
pub open spec fn wired_children(ls: Seq<Link>, js: Seq<Joint>, c: int, lu: int) -> Seq<usize>
    decreases lu,
{
    if lu <= 0 {
        Seq::<usize>::empty()
    } else {
        wired_children(ls, js, c, lu - 1) + link_children(ls, js, c, lu - 1, js.len() as int)
    }
}

/// The joint nodes attached under the synthetic root, scanning the joints
/// up to `ju`: those that no link wired, in joint order.
pub open spec fn root_children(ls: Seq<Link>, js: Seq<Joint>, ju: int) -> Seq<usize>
    decreases ju,
{
    if ju <= 0 {
        Seq::<usize>::empty()
    } else {
        let pre = root_children(ls, js, ju - 1);
        if linked_parent_spec(ls, js, ju - 1, ls.len() as int) is None {
            pre.push(ju as usize)
        } else {
            pre
        }
    }
}

/// The children a node of the built tree ends up with: for the root, the
/// unwired joint nodes; for a joint node, the joints wired onto it.
pub open spec fn tree_children_spec(ls: Seq<Link>, js: Seq<Joint>, c: int) -> Seq<usize> {
    if c == 0 {
        root_children(ls, js, js.len() as int)
    } else {
        wired_children(ls, js, c, ls.len() as int)
    }
}

/// A link whose node is not `c` wires no children onto `c`.
proof fn lemma_link_children_empty(ls: Seq<Link>, js: Seq<Joint>, c: int, l: int, ju: int)
    requires
        match find_last_child(js, ls[l].name@) {
            Option::Some(k) => c != k + 1,
            Option::None => true,
        },
    ensures
        link_children(ls, js, c, l, ju) == Seq::<usize>::empty(),
    decreases ju,
{
    if ju > 0 {
        lemma_link_children_empty(ls, js, c, l, ju - 1);
    }
}

/// Builds the tree: one node per joint under a synthetic fixed root named
/// after the root link, wired child to parent; nothing when a joint does
/// not convert.
pub fn create_tree(robot: &Robot) -> (r: Option<LinkedJointTree>)
    requires
        robot.links@.len() > 0,
    ensures
        ({
            let js = robot.joints@;
            let ls = robot.links@;
            match r {
                Some(tree) => {
                    &&& tree.name@ == robot.name@
                    &&& tree.root == 0
                    &&& tree_wf(tree.view_spec())
                    &&& tree.view_spec().len() == js.len() + 1
                    &&& tree.view_spec()[0].0.joint.joint_type is Fixed
                    &&& tree.view_spec()[0].0.joint.name@ == "root"@
                    &&& tree.view_spec()[0].0.name@ == root_name_spec(
                        js,
                        ls[0].name@,
                        js.len() as nat,
                    )
                    &&& tree.view_spec()[0].1 is None
                    &&& forall|j: int|
                        0 <= j < js.len() ==> lj_matches(
                            (#[trigger] tree.view_spec()[j + 1]).0,
                            js[j],
                        ) && tree.view_spec()[j + 1].1 == Some(tree_parent_spec(ls, js, j))
                    &&& forall|c: int|
                        0 <= c <= js.len() ==> (#[trigger] tree.view_spec()[c]).2
                            == tree_children_spec(ls, js, c)
                },
                None => exists|j: int| 0 <= j < js.len() && !can_convert(#[trigger] js[j]),
            }
        }),
{
    let ghost js = robot.joints@;
    let ghost ls = robot.links@;
    let root_name = get_root_link_name(robot);
    let mut tree = LinkedJointTree::new(robot.name.as_str());
    let root_lj = LinkedJointBuilder::new().joint("root", crate::links::JointType::Fixed).name(
        root_name.as_str(),
    ).finalize();
    let ghost root_data = root_lj;
    tree.create_node(root_lj);
    let nj = robot.joints.len();
    let nl = robot.links.len();
    let mut j: usize = 0;
    while j < nj
        invariant
            js == robot.joints@,
            nj == js.len(),
            0 <= j <= nj,
            tree.name@ == robot.name@,
            tree.root == 0,
            tree.view_spec().len() == j + 1,
            tree.view_spec()[0].0 == root_data,
            tree.view_spec()[0].1 is None,
            tree.view_spec()[0].2 == Seq::<usize>::empty(),
            forall|t: int|
                1 <= t <= j ==> lj_matches((#[trigger] tree.view_spec()[t]).0, js[t - 1]) && tree
                    .view_spec()[t].1 is None && (#[trigger] tree.view_spec()[t]).2 == Seq::<
                    usize,
                >::empty(),
        decreases nj - j,
    {
        match create_linked_joint_from_urdf_joint(&robot.joints[j]) {
            Some(lj) => {
                tree.create_node(lj);
            },
            None => {
                proof {
                    assert(0 <= j < js.len() && !can_convert(js[j as int]));
                }
                return None;
            },
        }
        j = j + 1;
    }
    let ghost t1 = tree.view_spec();
    proof {
        assert forall|t: int| 0 <= t < t1.len() implies ((#[trigger] t1[t]).1 matches Some(p)
            ==> p < t1.len()) && forall|kk: int| 0 <= kk < t1[t].2.len() ==> t1[t].2[kk]
            < t1.len() by {
            assert(t1[t].1 is None);
            assert(t1[t].2 == Seq::<usize>::empty());
        }
        assert(tree_wf(t1));
    }
    // wire each link's node to the joints that name it as their parent
    let mut l: usize = 0;
    while l < nl
        invariant
            js == robot.joints@,
            ls == robot.links@,
            nj == js.len(),
            nl == ls.len(),
            tree.name@ == robot.name@,
            tree.root == 0,
            tree.view_spec().len() == nj + 1,
            t1.len() == nj + 1,
            0 <= l <= nl,
            forall|t: int| 0 <= t <= nj ==> (#[trigger] tree.view_spec()[t]).0 == t1[t].0,
            tree.view_spec()[0].1 is None,
            forall|jj: int|
                0 <= jj < nj ==> (#[trigger] tree.view_spec()[jj + 1]).1 == linked_parent_spec(
                    ls,
                    js,
                    jj,
                    l as int,
                ),
            tree.view_spec()[0].2 == Seq::<usize>::empty(),
            forall|c: int|
                1 <= c <= nj ==> (#[trigger] tree.view_spec()[c]).2 == wired_children(
                    ls,
                    js,
                    c,
                    l as int,
                ),
            tree_wf(tree.view_spec()),
        decreases nl - l,
    {
        let ghost tl = tree.view_spec();
        match find_last_child_exec(&robot.joints, &robot.links[l].name) {
            None => {
                proof {
                    assert forall|jj: int| 0 <= jj < nj implies linked_parent_spec(
                        ls,
                        js,
                        jj,
                        l as int + 1,
                    ) == linked_parent_spec(ls, js, jj, l as int) by {
                        if js[jj].parent.link@ == ls[l as int].name@ {
                            assert(find_last_child(js, js[jj].parent.link@) is None);
                        } else {
                            assert(link_named_below(ls, js[jj].parent.link@, l as int + 1)
                                == link_named_below(ls, js[jj].parent.link@, l as int));
                        }
                    }
                    assert forall|c: int| 1 <= c <= nj implies wired_children(
                        ls,
                        js,
                        c,
                        l as int + 1,
                    ) == wired_children(ls, js, c, l as int) by {
                        lemma_link_children_empty(ls, js, c, l as int, nj as int);
                        assert(wired_children(ls, js, c, l as int) + Seq::<usize>::empty()
                            =~= wired_children(ls, js, c, l as int));
                    }
                }
            },
            Some(k) => {
                let mut j2: usize = 0;
                proof {
                    assert forall|c: int| 1 <= c <= nj implies wired_children(ls, js, c, l as int)
                        + link_children(ls, js, c, l as int, 0) =~= wired_children(
                        ls,
                        js,
                        c,
                        l as int,
                    ) by {}
                }
                while j2 < nj
                    invariant
                        js == robot.joints@,
                        ls == robot.links@,
                        nj == js.len(),
                        nl == ls.len(),
                        l < nl,
                        k < nj,
                        Some(k) == find_last_child(js, ls[l as int].name@),
                        tree.name@ == robot.name@,
                        tree.root == 0,
                        tree.view_spec().len() == nj + 1,
                        t1.len() == nj + 1,
                        0 <= j2 <= nj,
                        forall|t: int|
                            0 <= t <= nj ==> (#[trigger] tree.view_spec()[t]).0 == t1[t].0,
                        tree.view_spec()[0].1 is None,
                        forall|jj: int|
                            0 <= jj < nj ==> (#[trigger] tree.view_spec()[jj + 1]).1 == (if jj
                                < j2 {
                                linked_parent_spec(ls, js, jj, l as int + 1)
                            } else {
                                linked_parent_spec(ls, js, jj, l as int)
                            }),
                        tree.view_spec()[0].2 == Seq::<usize>::empty(),
                        forall|c: int|
                            1 <= c <= nj ==> (#[trigger] tree.view_spec()[c]).2
                                == wired_children(ls, js, c, l as int) + link_children(
                                ls,
                                js,
                                c,
                                l as int,
                                j2 as int,
                            ),
                        tree_wf(tree.view_spec()),
                    decreases nj - j2,
                {
                    let ghost tb = tree.view_spec();
                    if robot.joints[j2].parent.link == robot.links[l].name {
                        if k != j2 {
                            set_parent_child(&mut tree, k + 1, j2 + 1);
                            proof {
                                assert(link_named_below(ls, js[j2 as int].parent.link@, l as int
                                    + 1));
                                assert(tree.view_spec()[j2 as int + 1].1 == Some((k + 1) as usize));
                                assert forall|c: int| 1 <= c <= nj implies (
                                #[trigger] tree.view_spec()[c]).2 == wired_children(
                                    ls,
                                    js,
                                    c,
                                    l as int,
                                ) + link_children(ls, js, c, l as int, j2 as int + 1) by {
                                    if c == k + 1 {
                                        assert((wired_children(ls, js, c, l as int)
                                            + link_children(ls, js, c, l as int, j2 as int)).push(
                                            (j2 + 1) as usize,
                                        ) =~= wired_children(ls, js, c, l as int)
                                            + link_children(ls, js, c, l as int, j2 as int).push(
                                            (j2 + 1) as usize,
                                        ));
                                    }
                                }
                            }
                        } else {
                            proof {
                                assert(linked_parent_spec(ls, js, j2 as int, l as int + 1)
                                    is None);
                                assert(linked_parent_spec(ls, js, j2 as int, l as int) is None);
                            }
                        }
                    } else {
                        proof {
                            assert(link_named_below(ls, js[j2 as int].parent.link@, l as int + 1)
                                == link_named_below(ls, js[j2 as int].parent.link@, l as int));
                        }
                    }
                    j2 = j2 + 1;
                }
            },
        }
        l = l + 1;
    }
    // attach every still parentless joint node under the synthetic root
    let mut j3: usize = 0;
    while j3 < nj
        invariant
            js == robot.joints@,
            ls == robot.links@,
            nj == js.len(),
            nl == ls.len(),
            tree.name@ == robot.name@,
            tree.root == 0,
            tree.view_spec().len() == nj + 1,
            t1.len() == nj + 1,
            0 <= j3 <= nj,
            forall|t: int| 0 <= t <= nj ==> (#[trigger] tree.view_spec()[t]).0 == t1[t].0,
            tree.view_spec()[0].1 is None,
            forall|jj: int|
                0 <= jj < nj ==> (#[trigger] tree.view_spec()[jj + 1]).1 == (if jj < j3 {
                    Some(tree_parent_spec(ls, js, jj))
                } else {
                    linked_parent_spec(ls, js, jj, nl as int)
                }),
            tree.view_spec()[0].2 == root_children(ls, js, j3 as int),
            forall|c: int|
                1 <= c <= nj ==> (#[trigger] tree.view_spec()[c]).2 == wired_children(
                    ls,
                    js,
                    c,
                    nl as int,
                ),
            tree_wf(tree.view_spec()),
        decreases nj - j3,
    {
        let has_parent = match tree.nodes[j3 + 1].parent {
            Some(_) => true,
            None => false,
        };
        proof {
            assert(tree.view_spec()[j3 as int + 1] == node_view(tree.nodes@[j3 as int + 1]));
        }
        if !has_parent {
            set_parent_child(&mut tree, 0, j3 + 1);
        }
        j3 = j3 + 1;
    }
    proof {
        assert forall|jj: int| 0 <= jj < nj implies lj_matches(
            (#[trigger] tree.view_spec()[jj + 1]).0,
            js[jj],
        ) by {
            assert(tree.view_spec()[jj + 1].0 == t1[jj + 1].0);
        }
        assert forall|c: int| 0 <= c <= js.len() implies (#[trigger] tree.view_spec()[c]).2
            == tree_children_spec(ls, js, c) by {
            if c == 0 {
                assert(tree.view_spec()[0].2 == root_children(ls, js, nj as int));
            }
        }
    }
    Some(tree)
}

} // verus!
