use nkinematics::links::{
    Joint, JointError, JointType, KinematicChain, LinkedFrame, LinkedJointBuilder, Range,
    RobotFrame,
};
use nkinematics::scalar::{rbits, Real};
use nkinematics::transform::{Isometry, Vector3};
use nkinematics::urdf::parse_real_bytes;

fn r(s: &str) -> Real {
    parse_real_bytes(s.as_bytes()).unwrap()
}

fn f(v: Real) -> f64 {
    f64::from_bits(rbits(v))
}

fn v3(x: &str, y: &str, z: &str) -> Vector3 {
    Vector3::new(r(x), r(y), r(z))
}

fn arm6() -> LinkedFrame {
    let l0 = LinkedJointBuilder::new()
        .name("shoulder_link1")
        .joint("shoulder_pitch", JointType::Rotational { axis: Vector3::y_axis() })
        .finalize();
    let l1 = LinkedJointBuilder::new()
        .name("shoulder_link2")
        .joint("shoulder_roll", JointType::Rotational { axis: Vector3::x_axis() })
        .translation(v3("0.0", "0.1", "0.0"))
        .finalize();
    let l2 = LinkedJointBuilder::new()
        .name("shoulder_link3")
        .joint("shoulder_yaw", JointType::Rotational { axis: Vector3::z_axis() })
        .translation(v3("0.0", "0.0", "-0.30"))
        .finalize();
    let l3 = LinkedJointBuilder::new()
        .name("elbow_link1")
        .joint("elbow_pitch", JointType::Rotational { axis: Vector3::y_axis() })
        .translation(v3("0.0", "0.0", "-0.15"))
        .finalize();
    let l4 = LinkedJointBuilder::new()
        .name("wrist_link1")
        .joint("wrist_yaw", JointType::Rotational { axis: Vector3::z_axis() })
        .translation(v3("0.0", "0.0", "-0.15"))
        .finalize();
    let l5 = LinkedJointBuilder::new()
        .name("wrist_link2")
        .joint("wrist_pitch", JointType::Rotational { axis: Vector3::y_axis() })
        .translation(v3("0.0", "0.0", "-0.15"))
        .finalize();
    LinkedFrame::new("arm6", vec![l0, l1, l2, l3, l4, l5])
}

#[test]
fn set_joint_angles_wrong_length_changes_nothing() {
    let mut arm = arm6();
    let good = vec![r("0.1"), r("0.2"), r("0.3"), r("0.4"), r("0.5"), r("0.6")];
    arm.set_joint_angles(&good).unwrap();
    let before: Vec<u64> = arm.get_joint_angles().iter().map(|a| rbits(*a)).collect();

    let short = vec![r("0.9"), r("0.9"), r("0.9"), r("0.9"), r("0.9")];
    let res = arm.set_joint_angles(&short);
    assert!(matches!(res, Err(JointError::SizeMisMatch)));
    let after: Vec<u64> = arm.get_joint_angles().iter().map(|a| rbits(*a)).collect();
    assert_eq!(before, after);

    let long = vec![r("0.9"); 7];
    let res = arm.set_joint_angles(&long);
    assert!(matches!(res, Err(JointError::SizeMisMatch)));
    let after: Vec<u64> = arm.get_joint_angles().iter().map(|a| rbits(*a)).collect();
    assert_eq!(before, after);
}

#[test]
fn fixed_joint_never_has_an_angle() {
    let mut j = Joint::new("base", JointType::Fixed);
    assert!(j.get_angle().is_none());
    assert!(matches!(j.set_angle(r("0.5")), Err(JointError::OutOfLimit)));
    assert!(matches!(j.set_angle(r("-27.25")), Err(JointError::OutOfLimit)));
    assert!(matches!(j.set_angle(r("0")), Err(JointError::OutOfLimit)));
    assert!(j.get_angle().is_none());
}

#[test]
fn limits_reject_and_keep_the_old_angle() {
    let mut j = Joint::new("elbow", JointType::Rotational { axis: Vector3::y_axis() });
    j.set_limits(Some(Range { min: r("-1"), max: r("1") }));
    j.set_angle(r("0.5")).unwrap();
    assert_eq!(f(j.get_angle().unwrap()), 0.5);
    assert!(matches!(j.set_angle(r("1.5")), Err(JointError::OutOfLimit)));
    assert_eq!(f(j.get_angle().unwrap()), 0.5);
    // the interval is open: the bound itself is rejected
    assert!(matches!(j.set_angle(r("1")), Err(JointError::OutOfLimit)));
    assert_eq!(f(j.get_angle().unwrap()), 0.5);
}

#[test]
fn out_of_limit_stops_at_the_first_bad_angle() {
    let mut arm = arm6();
    // limit the fourth joint only
    let mut limited = arm6();
    limited.linked_joints[3].joint.set_limits(Some(Range { min: r("-0.5"), max: r("0.5") }));
    let angles = vec![r("0.1"), r("0.2"), r("0.3"), r("0.9"), r("0.5"), r("0.6")];
    let res = limited.set_joint_angles(&angles);
    assert!(matches!(res, Err(JointError::OutOfLimit)));
    let got = limited.get_joint_angles();
    // the first three were assigned, the fourth and later kept their zeros
    assert_eq!(f(got[0]), 0.1);
    assert_eq!(f(got[1]), 0.2);
    assert_eq!(f(got[2]), 0.3);
    assert_eq!(f(got[3]), 0.0);
    assert_eq!(f(got[4]), 0.0);
    assert_eq!(f(got[5]), 0.0);
    // and the unlimited arm takes the same vector whole
    arm.set_joint_angles(&angles).unwrap();
    assert_eq!(f(arm.get_joint_angles()[3]), 0.9);
}

#[test]
fn end_transform_is_pure() {
    let mut arm = arm6();
    arm.set_joint_angles(&vec![r("0.8"), r("0.2"), r("0"), r("-1.5"), r("0"), r("-0.3")])
        .unwrap();
    let t1 = arm.calc_end_transform();
    let t2 = arm.calc_end_transform();
    assert_eq!(rbits(t1.translation.x), rbits(t2.translation.x));
    assert_eq!(rbits(t1.translation.y), rbits(t2.translation.y));
    assert_eq!(rbits(t1.translation.z), rbits(t2.translation.z));
    assert_eq!(rbits(t1.rotation.w), rbits(t2.rotation.w));
    assert_eq!(rbits(t1.rotation.x), rbits(t2.rotation.x));
    assert_eq!(rbits(t1.rotation.y), rbits(t2.rotation.y));
    assert_eq!(rbits(t1.rotation.z), rbits(t2.rotation.z));
}

#[test]
fn rotation_moves_the_next_link() {
    // one joint about z, then a link one unit along x: at ninety degrees
    // the tip stands one unit along y
    let l0 = LinkedJointBuilder::new()
        .name("base")
        .joint("turn", JointType::Rotational { axis: Vector3::z_axis() })
        .finalize();
    let l1 = LinkedJointBuilder::new()
        .name("tip")
        .joint("tip_fixed", JointType::Fixed)
        .translation(v3("1", "0", "0"))
        .finalize();
    let mut arm = LinkedFrame::new("planar", vec![l0, l1]);
    arm.set_joint_angles(&vec![r("1.57079632679490")]).unwrap();
    let t = arm.calc_end_transform();
    assert!(f(t.translation.x).abs() < 1e-12);
    assert!((f(t.translation.y) - 1.0).abs() < 1e-12);
    assert!(f(t.translation.z).abs() < 1e-12);
}

#[test]
fn linear_joint_slides_along_its_axis() {
    let l0 = LinkedJointBuilder::new()
        .name("slider")
        .joint("slide", JointType::Linear { axis: Vector3::z_axis() })
        .finalize();
    let mut arm = LinkedFrame::new("lift", vec![l0]);
    arm.set_joint_angles(&vec![r("0.25")]).unwrap();
    let t = arm.calc_end_transform();
    assert_eq!(f(t.translation.z), 0.25);
    assert_eq!(f(t.rotation.w), 1.0);
}

#[test]
fn end_transform_matches_nalgebra() {
    let mut arm = arm6();
    arm.set_joint_angles(&vec![r("0.8"), r("0.2"), r("0"), r("-1.5"), r("0"), r("-0.3")])
        .unwrap();
    let t = arm.calc_end_transform();

    let angles = [0.8f64, 0.2, 0.0, -1.5, 0.0, -0.3];
    let axes = [
        nalgebra::Vector3::y_axis(),
        nalgebra::Vector3::x_axis(),
        nalgebra::Vector3::z_axis(),
        nalgebra::Vector3::y_axis(),
        nalgebra::Vector3::z_axis(),
        nalgebra::Vector3::y_axis(),
    ];
    let offsets = [
        [0.0, 0.0, 0.0],
        [0.0, 0.1, 0.0],
        [0.0, 0.0, -0.30],
        [0.0, 0.0, -0.15],
        [0.0, 0.0, -0.15],
        [0.0, 0.0, -0.15],
    ];
    let mut pose = nalgebra::Isometry3::identity();
    for k in 0..6 {
        let link = nalgebra::Isometry3::from_parts(
            nalgebra::Translation3::new(offsets[k][0], offsets[k][1], offsets[k][2]),
            nalgebra::UnitQuaternion::identity(),
        );
        let joint = nalgebra::Isometry3::from_parts(
            nalgebra::Translation3::new(0.0, 0.0, 0.0),
            nalgebra::UnitQuaternion::from_axis_angle(&axes[k], angles[k]),
        );
        pose = pose * (link * joint);
    }
    assert!((f(t.translation.x) - pose.translation.x).abs() < 1e-12);
    assert!((f(t.translation.y) - pose.translation.y).abs() < 1e-12);
    assert!((f(t.translation.z) - pose.translation.z).abs() < 1e-12);
}

#[test]
fn star_applies_the_shared_base() {
    let mut star = RobotFrame::new("robo", vec![arm6(), arm6()]);
    let lists = star.calc_link_transforms();
    assert_eq!(lists.len(), 2);
    assert_eq!(lists[0].len(), 6);
    star.set_transform(Isometry::from_parts(
        v3("0", "0", "1"),
        nkinematics::transform::UnitQuaternion::identity(),
    ));
    let t = star.get_transform();
    assert_eq!(f(t.translation.z), 1.0);
    let lists = star.calc_link_transforms();
    let base_line = f(lists[0][0].translation.z);
    assert_eq!(base_line, 1.0);
}
