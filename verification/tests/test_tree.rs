use nkinematics::links::{JointType, KinematicChain, LinkedJoint, LinkedJointBuilder};
use nkinematics::scalar::{rbits, Real};
use nkinematics::transform::Vector3;
use nkinematics::tree::{set_parent_child, LinkedJointTree, RefKinematicChain};
use nkinematics::urdf::parse_real_bytes;

fn r(s: &str) -> Real {
    parse_real_bytes(s.as_bytes()).unwrap()
}

fn f(v: Real) -> f64 {
    f64::from_bits(rbits(v))
}

fn v3(x: &str, y: &str, z: &str) -> Vector3 {
    Vector3::new(r(x), r(y), r(z))
}

fn unit(link_name: &str, joint_name: &str, translation: Vector3) -> LinkedJoint {
    LinkedJointBuilder::new()
        .name(link_name)
        .joint(joint_name, JointType::Rotational { axis: Vector3::y_axis() })
        .translation(translation)
        .finalize()
}

#[test]
fn tree_it_works() {
    let mut tree = LinkedJointTree::new("robo");
    let j0 = tree.add_link(None, unit("link1", "j0", v3("0.0", "0.1", "0.0"))).unwrap();
    assert_eq!(j0, 0);
    let names: Vec<String> = vec!["j0".to_string(), "j1".to_string(), "j2".to_string(), "j3"
        .to_string()];
    tree.add_link(Some(&names[0]), unit("link1", "j1", v3("0.0", "0.1", "0.0"))).unwrap();
    tree.add_link(Some(&names[1]), unit("link1", "j2", v3("0.0", "0.1", "0.0"))).unwrap();
    tree.add_link(Some(&names[0]), unit("link3", "j3", v3("0.0", "0.1", "0.0"))).unwrap();
    tree.add_link(Some(&names[2]), unit("link4", "j4", v3("0.0", "0.1", "0.0"))).unwrap();
    tree.add_link(Some(&names[3]), unit("link5", "j5", v3("0.0", "0.1", "0.0"))).unwrap();

    let all_poses = tree.calc_link_transforms();
    assert_eq!(all_poses.len(), 6);

    let link_vec = tree
        .create_link_vec(&"j0".to_string(), &"j4".to_string())
        .unwrap();
    assert_eq!(link_vec.len(), 4);

    let roots = tree.get_roots();
    assert_eq!(roots, vec![0]);

    let i = tree.find_by_joint_name(&"j0".to_string()).unwrap();
    tree.set_joint_angle(i, r("1.0")).unwrap();
    let poses_after = tree.calc_link_transforms();
    assert_eq!(poses_after.len(), 6);
    // the turned root reorients its descendants
    assert!((f(all_poses[2].rotation.w) - f(poses_after[2].rotation.w)).abs() > 1e-6);
}

#[test]
fn rctree_it_works() {
    let mut tree = LinkedJointTree::new("links");
    let ljn0 = tree.create_node(unit("link1", "j0", v3("0.0", "0.1", "0.0")));
    let ljn1 = tree.create_node(unit("link1", "j1", v3("0.0", "0.1", "0.1")));
    let ljn2 = tree.create_node(unit("link1", "j2", v3("0.0", "0.1", "0.1")));
    let ljn3 = tree.create_node(unit("link3", "j3", v3("0.0", "0.1", "0.2")));
    let ljn4 = tree.create_node(unit("link4", "j4", v3("0.0", "0.1", "0.1")));
    let ljn5 = tree.create_node(unit("link5", "j5", v3("0.0", "0.1", "0.1")));
    set_parent_child(&mut tree, ljn0, ljn1);
    set_parent_child(&mut tree, ljn1, ljn2);
    set_parent_child(&mut tree, ljn2, ljn3);
    set_parent_child(&mut tree, ljn0, ljn4);
    set_parent_child(&mut tree, ljn4, ljn5);

    assert_eq!(tree.get_name(ljn0), "j0");
    assert_eq!(tree.get_name(ljn5), "j5");
    let roots = tree.get_roots();
    assert_eq!(roots, vec![ljn0]);
    for i in 0..6 {
        tree.set_joint_angle(i, r("-0.5")).unwrap();
    }
    let poses = tree.calc_link_transforms();
    assert_eq!(poses.len(), 6);
}

#[test]
fn unknown_end_name_gives_the_empty_chain() {
    let mut tree = LinkedJointTree::new("links");
    tree.create_node(unit("link1", "j0", v3("0.0", "0.1", "0.0")));
    let v = tree
        .create_link_vec(&"j0".to_string(), &"no_such_joint".to_string())
        .unwrap();
    assert!(v.is_empty());
}

#[test]
fn solved_angles_write_back_into_the_tree() {
    let mut tree = LinkedJointTree::new("links");
    let ljn0 = tree.create_node(unit("link1", "j0", v3("0.0", "0.1", "0.0")));
    let ljn1 = tree.create_node(unit("link1", "j1", v3("0.0", "0.1", "0.1")));
    let ljn2 = tree.create_node(unit("link1", "j2", v3("0.0", "0.1", "0.1")));
    let ljn3 = tree.create_node(unit("link3", "j3", v3("0.0", "0.1", "0.2")));
    set_parent_child(&mut tree, ljn0, ljn1);
    set_parent_child(&mut tree, ljn1, ljn2);
    set_parent_child(&mut tree, ljn2, ljn3);

    let mut arm = RefKinematicChain::new("chain1", &tree, ljn3);
    let moved = vec![r("0.1"), r("0.2"), r("0.3"), r("0.4")];
    arm.set_joint_angles(&moved).unwrap();
    tree.set_joint_angles_from(ljn3, &arm.get_joint_angles()).unwrap();

    // a chain read afresh from the tree now carries the same angles
    let again = RefKinematicChain::new("chain1", &tree, ljn3);
    let a1: Vec<u64> = arm.get_joint_angles().iter().map(|v| rbits(*v)).collect();
    let a2: Vec<u64> = again.get_joint_angles().iter().map(|v| rbits(*v)).collect();
    assert_eq!(a1, a2);

    // a wrong length is rejected and changes nothing
    let before: Vec<u64> = again.get_joint_angles().iter().map(|v| rbits(*v)).collect();
    let res = tree.set_joint_angles_from(ljn3, &vec![r("9")]);
    assert!(res.is_err());
    let after = RefKinematicChain::new("chain1", &tree, ljn3);
    let a3: Vec<u64> = after.get_joint_angles().iter().map(|v| rbits(*v)).collect();
    assert_eq!(before, a3);
}

#[test]
fn rctree_links_it_works() {
    let mut tree = LinkedJointTree::new("links");
    let ljn0 = tree.create_node(unit("link1", "j0", v3("0.0", "0.1", "0.0")));
    let ljn1 = tree.create_node(unit("link1", "j1", v3("0.0", "0.1", "0.1")));
    let ljn2 = tree.create_node(unit("link1", "j2", v3("0.0", "0.1", "0.1")));
    let ljn3 = tree.create_node(unit("link3", "j3", v3("0.0", "0.1", "0.2")));
    let ljn4 = tree.create_node(unit("link4", "j4", v3("0.0", "0.1", "0.1")));
    let ljn5 = tree.create_node(unit("link5", "j5", v3("0.0", "0.1", "0.1")));
    set_parent_child(&mut tree, ljn0, ljn1);
    set_parent_child(&mut tree, ljn1, ljn2);
    set_parent_child(&mut tree, ljn2, ljn3);
    set_parent_child(&mut tree, ljn0, ljn4);
    set_parent_child(&mut tree, ljn4, ljn5);

    let arm = RefKinematicChain::new("chain1", &tree, ljn3);
    assert_eq!(arm.get_joint_angles().len(), 4);
    let t = arm.calc_end_transform();
    // four segments, each lifting by a tenth
    assert!((f(t.translation.y) - 0.4).abs() < 1e-12);
    let _ = ljn5;
}
