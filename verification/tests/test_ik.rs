use nkinematics::ik::{IKError, InverseKinematicsSolver, JacobianIKSolver};
use nkinematics::links::{JointError, JointType, KinematicChain, LinkedFrame, LinkedJointBuilder, Range};
use nkinematics::scalar::{rbits, Real};
use nkinematics::transform::Vector3;
use nkinematics::urdf::parse_real_bytes;

fn r(s: &str) -> Real {
    parse_real_bytes(s.as_bytes()).unwrap()
}

fn f(v: Real) -> f64 {
    f64::from_bits(rbits(v))
}

fn v3(x: &str, y: &str, z: &str) -> Vector3 {
    Vector3::new(r(x), r(y), r(z))
}

fn create_linked_frame6(name: &str) -> LinkedFrame {
    let l0 = LinkedJointBuilder::new()
        .name("shoulder_link1")
        .joint("shoulder_pitch", JointType::Rotational { axis: Vector3::y_axis() })
        .finalize();
    let l1 = LinkedJointBuilder::new()
        .name("shoulder_link2")
        .joint("shoulder_roll", JointType::Rotational { axis: Vector3::x_axis() })
        .translation(v3("0.0", "0.1", "0.0"))
        .finalize();
    let l2 = LinkedJointBuilder::new()
        .name("shoulder_link3")
        .joint("shoulder_yaw", JointType::Rotational { axis: Vector3::z_axis() })
        .translation(v3("0.0", "0.0", "-0.30"))
        .finalize();
    let l3 = LinkedJointBuilder::new()
        .name("elbow_link1")
        .joint("elbow_pitch", JointType::Rotational { axis: Vector3::y_axis() })
        .translation(v3("0.0", "0.0", "-0.15"))
        .finalize();
    let l4 = LinkedJointBuilder::new()
        .name("wrist_link1")
        .joint("wrist_yaw", JointType::Rotational { axis: Vector3::z_axis() })
        .translation(v3("0.0", "0.0", "-0.15"))
        .finalize();
    let l5 = LinkedJointBuilder::new()
        .name("wrist_link2")
        .joint("wrist_pitch", JointType::Rotational { axis: Vector3::y_axis() })
        .translation(v3("0.0", "0.0", "-0.15"))
        .finalize();
    LinkedFrame::new(name, vec![l0, l1, l2, l3, l4, l5])
}

fn create_linked_frame7(name: &str) -> LinkedFrame {
    let mut frame = create_linked_frame6("");
    let l6 = LinkedJointBuilder::new()
        .name("wrist_link3")
        .joint("wrist_roll", JointType::Rotational { axis: Vector3::x_axis() })
        .translation(v3("0.0", "0.0", "-0.10"))
        .finalize();
    frame.linked_joints.push(l6);
    LinkedFrame::new(name, frame.linked_joints)
}

#[test]
fn ik_fk7() {
    let mut arm = create_linked_frame7("arm7");
    let angles = vec![r("0.8"), r("0.2"), r("0.0"), r("-1.5"), r("0.0"), r("-0.3"), r("0.0")];
    arm.set_joint_angles(&angles).unwrap();
    let init_pose = arm.calc_end_transform();
    let solver = JacobianIKSolver::new(r("0.001"), r("0.001"), 100);
    solver.solve(&mut arm, &init_pose).unwrap();
    let end_angles = arm.get_joint_angles();
    for (init, end) in angles.iter().zip(end_angles.iter()) {
        assert!((f(*init) - f(*end)).abs() < 0.001);
    }
}

#[test]
fn ik_fk6() {
    let mut arm = create_linked_frame6("arm6");
    let angles = vec![r("0.8"), r("0.2"), r("0.0"), r("-1.2"), r("0.0"), r("0.1")];
    arm.set_joint_angles(&angles).unwrap();
    let init_pose = arm.calc_end_transform();
    let solver = JacobianIKSolver::new(r("0.001"), r("0.001"), 100);
    // set different angles
    arm.set_joint_angles(&vec![r("0.4"), r("0.1"), r("0.1"), r("-1.0"), r("0.1"), r("0.1")])
        .unwrap();
    solver.solve(&mut arm, &init_pose).unwrap();
    let end_angles = arm.get_joint_angles();
    for (init, end) in angles.iter().zip(end_angles.iter()) {
        assert!((f(*init) - f(*end)).abs() < 0.001);
    }
}

#[test]
fn ik_round_trip_seven_dof_from_elsewhere() {
    // the redundant arm: the update goes through the right pseudo-inverse
    let mut arm = create_linked_frame7("arm7");
    let angles = vec![r("0.8"), r("0.2"), r("0.0"), r("-1.5"), r("0.0"), r("-0.3"), r("0.0")];
    arm.set_joint_angles(&angles).unwrap();
    let target = arm.calc_end_transform();
    arm.set_joint_angles(&vec![
        r("0.4"),
        r("0.1"),
        r("0.1"),
        r("-1.0"),
        r("0.1"),
        r("0.1"),
        r("0.0"),
    ])
    .unwrap();
    let solver = JacobianIKSolver::new(r("0.001"), r("0.001"), 100);
    let dist = solver.solve(&mut arm, &target).unwrap();
    // a redundant arm reaches the pose; with seven angles for six pose
    // components the angles themselves may settle elsewhere
    assert!(f(dist) < 0.001);
    let reached = arm.calc_end_transform();
    assert!((f(reached.translation.x) - f(target.translation.x)).abs() < 0.01);
    assert!((f(reached.translation.y) - f(target.translation.y)).abs() < 0.01);
    assert!((f(reached.translation.z) - f(target.translation.z)).abs() < 0.01);
}

#[test]
fn ik_five_dof_is_rejected_unchanged() {
    let mut arm = create_linked_frame6("arm5");
    arm.linked_joints.pop();
    let mut arm = LinkedFrame::new("arm5", arm.linked_joints);
    arm.set_joint_angles(&vec![r("0.1"), r("0.2"), r("0.3"), r("0.4"), r("0.5")]).unwrap();
    let before: Vec<u64> = arm.get_joint_angles().iter().map(|a| rbits(*a)).collect();
    let target = arm.calc_end_transform();
    let solver = JacobianIKSolver::new(r("0.001"), r("0.001"), 100);
    let res = solver.solve(&mut arm, &target);
    assert!(matches!(res, Err(IKError::PreconditionError)));
    let after: Vec<u64> = arm.get_joint_angles().iter().map(|a| rbits(*a)).collect();
    assert_eq!(before, after);
}

#[test]
fn ik_singular_jacobian_fails() {
    // six joints about the same axis with no offsets: every column of the
    // estimate is the same, so the inverse must fail
    let mut units = Vec::new();
    for _ in 0..6 {
        units.push(
            LinkedJointBuilder::new()
                .name("seg")
                .joint("j", JointType::Rotational { axis: Vector3::y_axis() })
                .finalize(),
        );
    }
    let mut arm = LinkedFrame::new("flat", units);
    let mut target = arm.calc_end_transform();
    target.translation = v3("0", "0", "0.5");
    let solver = JacobianIKSolver::new(r("0.001"), r("0.001"), 10);
    let res = solver.solve(&mut arm, &target);
    assert!(matches!(res, Err(IKError::InverseMatrixError)));
}

#[test]
fn ik_not_converged_restores_the_angles() {
    let mut arm = create_linked_frame6("arm6");
    let start = vec![r("0.4"), r("0.1"), r("0.1"), r("-1.0"), r("0.1"), r("0.1")];
    arm.set_joint_angles(&start).unwrap();
    let target = arm.calc_end_transform();
    // a tolerance of zero can never be undercut
    let solver = JacobianIKSolver::new(r("0.001"), r("0"), 3);
    let res = solver.solve(&mut arm, &target);
    assert!(matches!(res, Err(IKError::NotConverged)));
    let after: Vec<u64> = arm.get_joint_angles().iter().map(|a| rbits(*a)).collect();
    let expect: Vec<u64> = start.iter().map(|a| rbits(*a)).collect();
    assert_eq!(after, expect);
}

#[test]
fn ik_joint_limit_stops_the_solver() {
    let mut arm = create_linked_frame6("arm6");
    // a band so narrow that the finite-difference nudge already leaves it
    arm.linked_joints[0]
        .joint
        .set_limits(Some(Range { min: r("-0.0005"), max: r("0.0005") }));
    let mut target = arm.calc_end_transform();
    target.translation = v3("0.2", "0.2", "-0.2");
    let solver = JacobianIKSolver::new(r("0.001"), r("0.001"), 10);
    let res = solver.solve(&mut arm, &target);
    assert!(matches!(res, Err(IKError::JointOutOfLimit(JointError::OutOfLimit))));
}
