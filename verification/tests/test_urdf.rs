use nkinematics::ik::{InverseKinematicsSolver, JacobianIKSolver};
use nkinematics::links::KinematicChain;
use nkinematics::scalar::{rbits, Real};
use nkinematics::tree::RefKinematicChain;
use nkinematics::urdf::{
    create_robot, create_tree, get_joint_until_root, get_root_link_name, parse_array_from_string,
    parse_real_bytes, Axis, Joint, JointType, Link, LinkName, Pose, Robot,
};

fn f(v: Real) -> f64 {
    f64::from_bits(rbits(v))
}

fn link(name: &str) -> Link {
    Link { name: name.to_string(), inertial: None, visual: None, collision: None }
}

fn joint(name: &str, parent: &str, child: &str, axis: &str, xyz: &str) -> Joint {
    Joint {
        name: name.to_string(),
        joint_type: JointType::Revolute,
        origin: Pose { xyz: xyz.to_string(), rpy: "0 0 0".to_string() },
        parent: LinkName { link: parent.to_string() },
        child: LinkName { link: child.to_string() },
        axis: Axis { xyz: axis.to_string() },
        limit: None,
    }
}

/// Two six-joint limbs hanging off one root link.
fn sample_robot() -> Robot {
    let mut links = vec![link("root")];
    let mut joints = Vec::new();
    for arm in ["l", "r"] {
        let mut parent = "root".to_string();
        for seg in 0..6 {
            let child = format!("{}_link{}", arm, seg);
            links.push(link(&child));
            joints.push(joint(
                &format!("{}_joint{}", arm, seg),
                &parent,
                &child,
                "0 1 0",
                "0.0 0.0 0.1",
            ));
            parent = child;
        }
    }
    Robot { name: "robo".to_string(), links, joints }
}

#[test]
fn parse_numbers() {
    let v = parse_array_from_string("0 1 -1").unwrap();
    assert_eq!(f(v.x), 0.0);
    assert_eq!(f(v.y), 1.0);
    assert_eq!(f(v.z), -1.0);

    let v = parse_array_from_string("0.0 0.0 0.1").unwrap();
    assert_eq!(f(v.x), 0.0);
    assert_eq!(f(v.y), 0.0);
    assert_eq!(f(v.z), 0.1);

    assert_eq!(f(parse_real_bytes(b"-0.3").unwrap()), -0.3);
    assert_eq!(f(parse_real_bytes(b"1e3").unwrap()), 1000.0);
    assert_eq!(f(parse_real_bytes(b"2.5e-2").unwrap()), 0.025);
    assert_eq!(f(parse_real_bytes(b"+4.75").unwrap()), 4.75);
    assert!(parse_real_bytes(b"x").is_none());
    assert!(parse_real_bytes(b"").is_none());
    assert!(parse_real_bytes(b"1.2.3").is_none());
    assert!(parse_array_from_string("1 2").is_none());
    assert!(parse_array_from_string("1 2 3 4").is_none());
    // pieces that do not parse are dropped, as the description reader did
    let v = parse_array_from_string("1 x 2 3").unwrap();
    assert_eq!(f(v.x), 1.0);
    assert_eq!(f(v.y), 2.0);
    assert_eq!(f(v.z), 3.0);
}

#[test]
fn urdf_it_works() {
    let robo = sample_robot();
    assert_eq!(robo.links.len(), 1 + 6 + 6);

    let rf = create_robot(&robo).unwrap();
    assert_eq!(rf.frames.len(), 2);
    assert_eq!(rf.frames[0].len(), 6);
    assert_eq!(rf.frames[1].len(), 6);

    assert_eq!(get_root_link_name(&robo), "root".to_string());
}

#[test]
fn urdf_test_tree() {
    let robo = sample_robot();
    assert_eq!(robo.name, "robo");
    assert_eq!(robo.links.len(), 1 + 6 + 6);

    let mut tree = create_tree(&robo).unwrap();
    assert_eq!(tree.nodes.len(), 13);
    let poses = tree.calc_link_transforms();
    assert_eq!(poses.len(), 13);
}

#[test]
fn chain_walk_reaches_the_root() {
    let robo = sample_robot();
    let chain = get_joint_until_root(&robo.joints, &"l_link5".to_string());
    assert_eq!(chain.len(), 6);
    // root first: the first joint hangs off the root link
    assert_eq!(robo.joints[chain[0]].parent.link, "root");
    assert_eq!(robo.joints[chain[5]].child.link, "l_link5");
}

fn r(s: &str) -> Real {
    parse_real_bytes(s.as_bytes()).unwrap()
}

#[test]
fn solved_tree_chain_round_trip() {
    // the tree built from the description can drive the same chain type
    let robo = sample_robot();
    let tree = create_tree(&robo).unwrap();
    let end = tree.find_by_joint_name(&"l_joint5".to_string()).unwrap();
    let mut arm = RefKinematicChain::new("left", &tree, end);
    assert_eq!(arm.get_joint_angles().len(), 6);

    // the description uses one shared axis, so spread the reachable target
    let angles = vec![r("0.4"), r("0.2"), r("-0.3"), r("0.1"), r("0.2"), r("-0.1")];
    let res = arm.set_joint_angles(&angles);
    assert!(res.is_ok());
    let t = arm.calc_end_transform();
    assert!(!f(t.translation.z).is_nan());
}

#[test]
fn overflowing_numbers_do_not_panic() {
    // an exponent past the double range parses to an infinity; every
    // later operation stays total, so building the robot still succeeds
    let v = parse_real_bytes(b"1e400").unwrap();
    assert!(f(v).is_infinite());

    let mut robo = sample_robot();
    robo.joints[0].axis = Axis { xyz: "1e400 0 0".to_string() };
    let rf = create_robot(&robo).unwrap();
    assert_eq!(rf.frames.len(), 2);
    let tree = create_tree(&robo).unwrap();
    assert_eq!(tree.nodes.len(), 13);
}

#[test]
fn lib_it_works() {
    let robo = sample_robot();
    let tree = create_tree(&robo).unwrap();
    assert_eq!(tree.root, 0);
}
