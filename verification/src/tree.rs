//! Branching kinematic structures as an arena of nodes.
//!
//! Nodes live in one vector and point at each other by index: each node
//! holds its parent, its children in insertion order, and a
//! [`LinkedJoint`].  In specs a node is read as the triple of its unit, its
//! parent and its children.  Walks up and down carry an explicit step
//! budget of the node count, so they return on any input; a well-formed
//! tree never exhausts it.  A chain is materialized from the walk from a
//! chosen end node up to the root.

use vstd::prelude::*;

use crate::links::{
    angles_of, angles_ok_from, apply_angles_from, end_transform_spec, get_joint_angles_vec,
    has_angle_spec, joint_angle_ok, lj_transform_spec, set_joint_angles_vec, with_angle_spec,
    JointError, KinematicChain, LinkedJoint,
};
use crate::transform::{iso_identity_spec, iso_mul_spec, Isometry};
use crate::scalar::Real;

verus! {

/// One node of the arena: a unit, its parent, and its children in
/// insertion order.
pub struct LinkedJointNode {
    pub data: LinkedJoint,
    pub parent: Option<usize>,
    pub children: Vec<usize>,
}

/// What a node is in specs: its unit, its parent, and its children.
pub type NodeView = (LinkedJoint, Option<usize>, Seq<usize>);

pub open spec fn node_view(n: LinkedJointNode) -> NodeView {
    (n.data, n.parent, n.children@)
}

/// The arena as a sequence of node views.
pub open spec fn tree_view(nodes: Seq<LinkedJointNode>) -> Seq<NodeView> {
    nodes.map_values(|n: LinkedJointNode| node_view(n))
}

/// A branching structure: the arena, a designated root, and a name.
pub struct LinkedJointTree {
    pub name: String,
    pub root: usize,
    pub nodes: Vec<LinkedJointNode>,
}

impl LinkedJointTree {
    /// The spec view of the arena.
    pub open spec fn view_spec(&self) -> Seq<NodeView> {
        tree_view(self.nodes@)
    }
}

/// Every parent and child index points into the arena.
pub open spec fn tree_wf(t: Seq<NodeView>) -> bool {
    forall|i: int|
        0 <= i < t.len() ==> {
            &&& ((#[trigger] t[i]).1 matches Some(p) ==> p < t.len())
            &&& forall|k: int| 0 <= k < t[i].2.len() ==> (#[trigger] t[i].2[k]) < t.len()
        }
}

/// The units along the walk from node `i` up to its root, root first; an
/// exhausted budget yields what was reached.
pub open spec fn chain_from_end(t: Seq<NodeView>, i: int, fuel: nat) -> Seq<LinkedJoint>
    decreases fuel,
{
    if fuel == 0 {
        Seq::<LinkedJoint>::empty()
    } else {
        match t[i].1 {
            Option::None => seq![t[i].0],
            Option::Some(p) => chain_from_end(t, p as int, (fuel - 1) as nat).push(t[i].0),
        }
    }
}

/// The indices along the walk from node `i` up to its root, root first; an
/// exhausted budget yields what was reached.
pub open spec fn chain_idx_from_end(t: Seq<NodeView>, i: int, fuel: nat) -> Seq<usize>
    decreases fuel,
{
    if fuel == 0 {
        Seq::<usize>::empty()
    } else {
        match t[i].1 {
            Option::None => seq![i as usize],
            Option::Some(p) => chain_idx_from_end(t, p as int, (fuel - 1) as nat).push(i as usize),
        }
    }
}

/// The walk's units are exactly the data of the walk's indices: what a
/// chain materializes and what an in-tree assignment along the same walk
/// touches agree, position by position.
pub proof fn lemma_chain_idx_data(t: Seq<NodeView>, i: int, fuel: nat)
    requires
        tree_wf(t),
        t.len() <= usize::MAX,
        0 <= i < t.len(),
    ensures
        chain_idx_from_end(t, i, fuel).len() == chain_from_end(t, i, fuel).len(),
        forall|k: int|
            0 <= k < chain_idx_from_end(t, i, fuel).len() ==> (#[trigger] chain_idx_from_end(
                t,
                i,
                fuel,
            )[k]) < t.len() && t[chain_idx_from_end(t, i, fuel)[k] as int].0 == chain_from_end(
                t,
                i,
                fuel,
            )[k],
    decreases fuel,
{
    if fuel > 0 {
        match t[i].1 {
            Option::None => {},
            Option::Some(p) => {
                assert(p < t.len());
                lemma_chain_idx_data(t, p as int, (fuel - 1) as nat);
                let idx = chain_idx_from_end(t, i, fuel);
                let dat = chain_from_end(t, i, fuel);
                let rec_idx = chain_idx_from_end(t, p as int, (fuel - 1) as nat);
                let rec_dat = chain_from_end(t, p as int, (fuel - 1) as nat);
                assert forall|k: int| 0 <= k < idx.len() implies (#[trigger] idx[k]) < t.len()
                    && t[idx[k] as int].0 == dat[k] by {
                    if k < rec_idx.len() {
                        assert(idx[k] == rec_idx[k]);
                        assert(dat[k] == rec_dat[k]);
                    } else {
                        assert(idx[k] == i as usize);
                        assert(dat[k] == t[i].0);
                    }
                }
            },
        }
    }
}

/// The number of non-fixed units along a walk.
pub open spec fn path_dof(t: Seq<NodeView>, idxs: Seq<usize>) -> int
    decreases idxs.len(),
{
    if idxs.len() == 0 {
        0
    } else {
        (if has_angle_spec(t[idxs[0] as int].0) {
            1int
        } else {
            0int
        }) + path_dof(t, idxs.subrange(1, idxs.len() as int))
    }
}

/// Angles assigned along a walk, front to back over the indices: the tree
/// reached and the result, with the same fail-fast behavior an assignment
/// over a chain has.
pub open spec fn path_assign_spec(t: Seq<NodeView>, idxs: Seq<usize>, a: Seq<Real>) -> (
    Seq<NodeView>,
    Result<(), JointError>,
)
    decreases idxs.len(),
{
    if idxs.len() == 0 {
        (t, Ok(()))
    } else {
        let i = idxs[0] as int;
        if has_angle_spec(t[i].0) {
            if a.len() > 0 && joint_angle_ok(t[i].0.joint, a[0]) {
                let t1 = t.update(i, (with_angle_spec(t[i].0, a[0]), t[i].1, t[i].2));
                path_assign_spec(
                    t1,
                    idxs.subrange(1, idxs.len() as int),
                    a.subrange(1, a.len() as int),
                )
            } else {
                (t, Err(JointError::OutOfLimit))
            }
        } else {
            path_assign_spec(t, idxs.subrange(1, idxs.len() as int), a)
        }
    }
}

/// The walk from `i` up to the first node named `root_name`, inclusive and
/// root first; nothing when the name is never met.
pub open spec fn chain_to_named_root(t: Seq<NodeView>, i: int, root_name: Seq<char>, fuel: nat)
    -> Option<Seq<LinkedJoint>>
    decreases fuel,
{
    if fuel == 0 {
        None
    } else if t[i].0.joint.name@ == root_name {
        Some(seq![t[i].0])
    } else {
        match t[i].1 {
            Option::None => None,
            Option::Some(p) => match chain_to_named_root(
                t,
                p as int,
                root_name,
                (fuel - 1) as nat,
            ) {
                Option::None => None,
                Option::Some(rest) => Some(rest.push(t[i].0)),
            },
        }
    }
}

/// The first node at or after `i` whose joint carries the name.
pub open spec fn find_joint_named(t: Seq<NodeView>, name: Seq<char>, i: int) -> Option<usize>
    decreases t.len() - i,
{
    if i < 0 || i >= t.len() {
        None
    } else if t[i].0.joint.name@ == name {
        Some(i as usize)
    } else {
        find_joint_named(t, name, i + 1)
    }
}

/// The indices of the parentless nodes, from `i` on.
pub open spec fn roots_from_spec(t: Seq<NodeView>, i: int) -> Seq<usize>
    decreases t.len() - i,
{
    if i < 0 || i >= t.len() {
        Seq::<usize>::empty()
    } else if t[i].1 is None {
        seq![i as usize] + roots_from_spec(t, i + 1)
    } else {
        roots_from_spec(t, i + 1)
    }
}

/// The world poses of the subtree under `i`, in first-visit order, with the
/// caches the walk writes along the way: the pair of the updated arena and
/// the list of poses.
pub open spec fn walk_spec(t: Seq<NodeView>, i: int, pw: Isometry, fuel: nat) -> (
    Seq<NodeView>,
    Seq<Isometry>,
)
    decreases fuel, 0nat,
{
    if fuel == 0 || !(0 <= i < t.len()) {
        (t, Seq::<Isometry>::empty())
    } else {
        let w = iso_mul_spec(pw, lj_transform_spec(t[i].0));
        let t1 = t.update(
            i,
            (LinkedJoint { world_transform_cache: Some(w), ..t[i].0 }, t[i].1, t[i].2),
        );
        let step = walk_list_spec(t1, t[i].2, w, (fuel - 1) as nat);
        (step.0, seq![w] + step.1)
    }
}

/// The same walk over a list of sibling subtrees, left to right.
pub open spec fn walk_list_spec(t: Seq<NodeView>, cs: Seq<usize>, pw: Isometry, fuel: nat) -> (
    Seq<NodeView>,
    Seq<Isometry>,
)
    decreases fuel, cs.len() + 1,
{
    if cs.len() == 0 {
        (t, Seq::<Isometry>::empty())
    } else {
        let head = walk_spec(t, cs[0] as int, pw, fuel);
        let rest = walk_list_spec(head.0, cs.subrange(1, cs.len() as int), pw, fuel);
        (rest.0, head.1 + rest.1)
    }
}

/// Links a parent and a child: the child points up, and joins the parent's
/// children in insertion order.
pub fn set_parent_child(tree: &mut LinkedJointTree, parent: usize, child: usize)
    requires
        parent < old(tree).view_spec().len(),
        child < old(tree).view_spec().len(),
        parent != child,
    ensures
        final(tree).name == old(tree).name,
        final(tree).root == old(tree).root,
        final(tree).view_spec() == old(tree).view_spec().update(
            child as int,
            (
                old(tree).view_spec()[child as int].0,
                Some(parent),
                old(tree).view_spec()[child as int].2,
            ),
        ).update(
            parent as int,
            (
                old(tree).view_spec()[parent as int].0,
                old(tree).view_spec()[parent as int].1,
                old(tree).view_spec()[parent as int].2.push(child),
            ),
        ),
{
    let ghost t0 = tree.view_spec();
    proof {
        assert(t0[child as int] == node_view(tree.nodes@[child as int]));
    }
    let cnode = &tree.nodes[child];
    let new_child = LinkedJointNode {
        data: cnode.data.clone(),
        parent: Some(parent),
        children: copy_indices(&cnode.children),
    };
    tree.nodes.set(child, new_child);
    proof {
        assert(tree.view_spec() =~= t0.update(
            child as int,
            (t0[child as int].0, Some(parent), t0[child as int].2),
        ));
    }
    let ghost t1 = tree.view_spec();
    proof {
        assert(t1[parent as int] == node_view(tree.nodes@[parent as int]));
    }
    let pnode = &tree.nodes[parent];
    let mut pc = copy_indices(&pnode.children);
    pc.push(child);
    let new_parent = LinkedJointNode {
        data: pnode.data.clone(),
        parent: pnode.parent,
        children: pc,
    };
    tree.nodes.set(parent, new_parent);
    proof {
        assert(tree.view_spec() =~= t1.update(
            parent as int,
            (t1[parent as int].0, t1[parent as int].1, t1[parent as int].2.push(child)),
        ));
    }
}

/// A fresh copy of an index list.
fn copy_indices(v: &Vec<usize>) -> (r: Vec<usize>)
    ensures
        r@ == v@,
{
    let mut out: Vec<usize> = Vec::new();
    let n = v.len();
    let mut i: usize = 0;
    while i < n
        invariant
            n == v@.len(),
            0 <= i <= n,
            out@ == v@.take(i as int),
        decreases n - i,
    {
        out.push(v[i]);
        proof {
            assert(v@.take(i as int + 1) =~= v@.take(i as int).push(v@[i as int]));
        }
        i = i + 1;
    }
    proof {
        assert(v@.take(n as int) =~= v@);
    }
    out
}

/// The list without its first element.
fn split_first(v: &Vec<usize>) -> (r: Vec<usize>)
    requires
        v@.len() > 0,
    ensures
        r@ == v@.subrange(1, v@.len() as int),
{
    let mut out: Vec<usize> = Vec::new();
    let n = v.len();
    let mut i: usize = 1;
    while i < n
        invariant
            n == v@.len(),
            1 <= i <= n,
            out@ == v@.subrange(1, i as int),
        decreases n - i,
    {
        out.push(v[i]);
        proof {
            assert(v@.subrange(1, i as int + 1) =~= v@.subrange(1, i as int).push(v@[i as int]));
        }
        i = i + 1;
    }
    out
}

impl LinkedJointTree {
    /// An empty tree; nodes are added and linked afterwards.
    pub fn new(name: &str) -> (r: LinkedJointTree)
        ensures
            r.name@ == name@,
            r.root == 0,
            r.view_spec().len() == 0,
    {
        LinkedJointTree { name: name.to_owned(), root: 0, nodes: Vec::new() }
    }

    /// Adds an unlinked node and hands its index back.
    pub fn create_node(&mut self, data: LinkedJoint) -> (r: usize)
        ensures
            r == old(self).view_spec().len(),
            final(self).name == old(self).name,
            final(self).root == old(self).root,
            final(self).view_spec() == old(self).view_spec().push(
                (data, None::<usize>, Seq::<usize>::empty()),
            ),
    {
        let ghost t0 = self.view_spec();
        let idx = self.nodes.len();
        self.nodes.push(LinkedJointNode { data, parent: None, children: Vec::new() });
        proof {
            assert(self.view_spec() =~= t0.push((data, None::<usize>, Seq::<usize>::empty())));
        }
        idx
    }

    pub fn get_name(&self, i: usize) -> (r: &str)
        requires
            i < self.view_spec().len(),
        ensures
            r@ == self.view_spec()[i as int].0.joint.name@,
    {
        proof {
            assert(self.view_spec()[i as int] == node_view(self.nodes@[i as int]));
        }
        self.nodes[i].data.get_joint_name()
    }

    /// The first node whose joint carries the name.
    pub fn find_by_joint_name(&self, name: &String) -> (r: Option<usize>)
        ensures
            r == find_joint_named(self.view_spec(), name@, 0),
            r matches Some(i) ==> i < self.view_spec().len() && self.view_spec()[
                i as int
            ].0.joint.name@ == name@,
    {
        let n = self.nodes.len();
        let mut i: usize = 0;
        while i < n
            invariant
                n == self.nodes@.len(),
                0 <= i <= n,
                find_joint_named(self.view_spec(), name@, 0) == find_joint_named(
                    self.view_spec(),
                    name@,
                    i as int,
                ),
            decreases n - i,
        {
            proof {
                assert(self.view_spec()[i as int] == node_view(self.nodes@[i as int]));
            }
            if self.nodes[i].data.joint.name == *name {
                return Some(i);
            }
            i = i + 1;
        }
        None
    }

    /// Adds a unit under the named parent, or as a parentless node when no
    /// parent is named; fails only when a named parent is missing.
    pub fn add_link(&mut self, parent_name: Option<&String>, linked_joint: LinkedJoint) -> (r:
        Option<usize>)
        ensures
            ({
                let t0 = old(self).view_spec();
                let pushed = t0.push((linked_joint, None::<usize>, Seq::<usize>::empty()));
                match r {
                    Some(i) => {
                        &&& i == t0.len()
                        &&& match parent_name {
                            Option::None => final(self).view_spec() == pushed,
                            Option::Some(pn) => (find_joint_named(t0, pn@, 0) matches Some(p)
                                && final(self).view_spec() == pushed.update(
                                i as int,
                                (linked_joint, Some(p), Seq::<usize>::empty()),
                            ).update(p as int, (t0[p as int].0, t0[p as int].1, t0[
                                p as int
                            ].2.push(i)))),
                        }
                    },
                    None => *final(self) == *old(self),
                }
            }),
            r is None <==> (parent_name matches Some(pn) && find_joint_named(
                old(self).view_spec(),
                pn@,
                0,
            ) is None),
            final(self).name == old(self).name,
            final(self).root == old(self).root,
    {
        match parent_name {
            None => Some(self.create_node(linked_joint)),
            Some(pn) => {
                match self.find_by_joint_name(pn) {
                    None => None,
                    Some(p) => {
                        let idx = self.create_node(linked_joint);
                        set_parent_child(self, p, idx);
                        Some(idx)
                    },
                }
            },
        }
    }

    /// The indices of the parentless nodes, in index order.
    pub fn get_roots(&self) -> (r: Vec<usize>)
        ensures
            r@ == roots_from_spec(self.view_spec(), 0),
    {
        let ghost tv = self.view_spec();
        let n = self.nodes.len();
        let mut out: Vec<usize> = Vec::new();
        let mut i: usize = 0;
        proof {
            assert(out@ + roots_from_spec(tv, 0) =~= roots_from_spec(tv, 0));
        }
        while i < n
            invariant
                tv == self.view_spec(),
                n == self.nodes@.len(),
                0 <= i <= n,
                roots_from_spec(tv, 0) == out@ + roots_from_spec(tv, i as int),
            decreases n - i,
        {
            proof {
                assert(tv[i as int] == node_view(self.nodes@[i as int]));
            }
            let ghost pre = out@;
            match self.nodes[i].parent {
                None => {
                    out.push(i);
                    proof {
                        assert(pre + (seq![i] + roots_from_spec(tv, i as int + 1)) =~= out@
                            + roots_from_spec(tv, i as int + 1));
                    }
                },
                Some(_) => {},
            }
            i = i + 1;
        }
        proof {
            assert(roots_from_spec(tv, n as int) =~= Seq::<usize>::empty());
            assert(out@ + Seq::<usize>::empty() =~= out@);
        }
        out
    }

    /// The units from the named end up to the named root, root first, as
    /// fresh copies.  An unknown end name yields the empty chain; nothing
    /// only when the walk up from the end never meets the root name.
    pub fn create_link_vec(&self, root_name: &String, end_name: &String) -> (r: Option<
        Vec<LinkedJoint>,
    >)
        requires
            tree_wf(self.view_spec()),
        ensures
            ({
                let sr = match find_joint_named(self.view_spec(), end_name@, 0) {
                    Option::None => Some(Seq::<LinkedJoint>::empty()),
                    Option::Some(e) => chain_to_named_root(
                        self.view_spec(),
                        e as int,
                        root_name@,
                        self.view_spec().len() as nat,
                    ),
                };
                match r {
                    Some(v) => sr == Some(v@),
                    None => sr is None,
                }
            }),
    {
        match self.find_by_joint_name(end_name) {
            None => {
                let v: Vec<LinkedJoint> = Vec::new();
                proof {
                    assert(v@ =~= Seq::<LinkedJoint>::empty());
                }
                Some(v)
            },
            Some(e) => {
                let n = self.nodes.len();
                self.chain_to_root_rec(e, root_name, n)
            },
        }
    }

    /// Mirrors `chain_to_named_root` by direct recursion.
    fn chain_to_root_rec(&self, i: usize, root_name: &String, fuel: usize) -> (r: Option<
        Vec<LinkedJoint>,
    >)
        requires
            tree_wf(self.view_spec()),
            i < self.view_spec().len(),
        ensures
            match r {
                Some(v) => Some(v@) == chain_to_named_root(
                    self.view_spec(),
                    i as int,
                    root_name@,
                    fuel as nat,
                ),
                None => chain_to_named_root(self.view_spec(), i as int, root_name@, fuel as nat)
                    is None,
            },
        decreases fuel,
    {
        if fuel == 0 {
            return None;
        }
        proof {
            assert(self.view_spec()[i as int] == node_view(self.nodes@[i as int]));
        }
        if self.nodes[i].data.joint.name == *root_name {
            let mut v: Vec<LinkedJoint> = Vec::new();
            v.push(self.nodes[i].data.clone());
            proof {
                assert(v@ =~= seq![self.view_spec()[i as int].0]);
            }
            return Some(v);
        }
        match self.nodes[i].parent {
            None => None,
            Some(p) => {
                match self.chain_to_root_rec(p, root_name, fuel - 1) {
                    None => None,
                    Some(mut rest) => {
                        rest.push(self.nodes[i].data.clone());
                        Some(rest)
                    },
                }
            },
        }
    }

    /// Mirrors `chain_from_end` by direct recursion.
    fn chain_from_end_rec(&self, i: usize, fuel: usize) -> (r: Vec<LinkedJoint>)
        requires
            tree_wf(self.view_spec()),
            i < self.view_spec().len(),
        ensures
            r@ == chain_from_end(self.view_spec(), i as int, fuel as nat),
        decreases fuel,
    {
        if fuel == 0 {
            return Vec::new();
        }
        proof {
            assert(self.view_spec()[i as int] == node_view(self.nodes@[i as int]));
        }
        match self.nodes[i].parent {
            None => {
                let mut v: Vec<LinkedJoint> = Vec::new();
                v.push(self.nodes[i].data.clone());
                proof {
                    assert(v@ =~= seq![self.view_spec()[i as int].0]);
                }
                v
            },
            Some(p) => {
                let mut rest = self.chain_from_end_rec(p, fuel - 1);
                rest.push(self.nodes[i].data.clone());
                rest
            },
        }
    }

    /// Moves one joint of the tree; fails as the joint itself would, and
    /// on failure nothing changes.
    pub fn set_joint_angle(&mut self, i: usize, angle: Real) -> (r: Result<(), JointError>)
        requires
            i < old(self).view_spec().len(),
        ensures
            final(self).name == old(self).name,
            final(self).root == old(self).root,
            r is Ok <==> crate::links::joint_angle_ok(old(self).view_spec()[i as int].0.joint, angle),
            r is Ok ==> final(self).view_spec() == old(self).view_spec().update(
                i as int,
                (
                    crate::links::with_angle_spec(old(self).view_spec()[i as int].0, angle),
                    old(self).view_spec()[i as int].1,
                    old(self).view_spec()[i as int].2,
                ),
            ),
            !(r is Ok) ==> final(self).view_spec() == old(self).view_spec() && r == Err::<
                (),
                JointError,
            >(JointError::OutOfLimit),
    {
        let ghost t0 = self.view_spec();
        proof {
            assert(t0[i as int] == node_view(self.nodes@[i as int]));
        }
        let node = &self.nodes[i];
        let mut data = node.data.clone();
        let res = data.set_joint_angle(angle);
        let new_node = LinkedJointNode {
            data,
            parent: node.parent,
            children: copy_indices(&node.children),
        };
        self.nodes.set(i, new_node);
        match res {
            Ok(()) => {
                proof {
                    assert(self.view_spec() =~= t0.update(
                        i as int,
                        (
                            crate::links::with_angle_spec(t0[i as int].0, angle),
                            t0[i as int].1,
                            t0[i as int].2,
                        ),
                    ));
                }
                Ok(())
            },
            Err(e) => {
                proof {
                    assert(self.view_spec() =~= t0);
                }
                Err(e)
            },
        }
    }

    /// Mirrors `chain_idx_from_end` by direct recursion.
    fn chain_idx_rec(&self, i: usize, fuel: usize) -> (r: Vec<usize>)
        requires
            tree_wf(self.view_spec()),
            i < self.view_spec().len(),
        ensures
            r@ == chain_idx_from_end(self.view_spec(), i as int, fuel as nat),
        decreases fuel,
    {
        if fuel == 0 {
            return Vec::new();
        }
        proof {
            assert(self.view_spec()[i as int] == node_view(self.nodes@[i as int]));
        }
        match self.nodes[i].parent {
            None => {
                let mut v: Vec<usize> = Vec::new();
                v.push(i);
                proof {
                    assert(v@ =~= seq![i]);
                }
                v
            },
            Some(p) => {
                let mut rest = self.chain_idx_rec(p, fuel - 1);
                rest.push(i);
                rest
            },
        }
    }

    /// Writes an angle vector back into the tree along the walk from `end`
    /// up to the root - the same walk, in the same root-first order, that a
    /// chain materialized from `end` reads.  The length must match the
    /// walk's degrees of freedom; the first angle a joint rejects stops the
    /// assignment there, exactly as on a chain.
    pub fn set_joint_angles_from(&mut self, end: usize, angles: &Vec<Real>) -> (r: Result<
        (),
        JointError,
    >)
        requires
            tree_wf(old(self).view_spec()),
            end < old(self).view_spec().len(),
        ensures
            ({
                let t0 = old(self).view_spec();
                let idxs = chain_idx_from_end(t0, end as int, t0.len() as nat);
                &&& (r == Err::<(), JointError>(JointError::SizeMisMatch) <==> angles@.len()
                    != path_dof(t0, idxs))
                &&& (angles@.len() != path_dof(t0, idxs) ==> final(self).view_spec() == t0)
                &&& (angles@.len() == path_dof(t0, idxs) ==> {
                    let st = path_assign_spec(t0, idxs, angles@);
                    &&& final(self).view_spec() == st.0
                    &&& r == st.1
                })
                &&& final(self).name == old(self).name
                &&& final(self).root == old(self).root
            }),
    {
        let ghost t0 = self.view_spec();
        let n = self.nodes.len();
        let idxs = self.chain_idx_rec(end, n);
        proof {
            lemma_chain_idx_data(t0, end as int, n as nat);
        }
        let m = idxs.len();
        let mut dof: usize = 0;
        let mut k: usize = 0;
        proof {
            assert(idxs@.skip(0) =~= idxs@);
        }
        while k < m
            invariant
                t0 == self.view_spec(),
                m == idxs@.len(),
                forall|q: int| 0 <= q < m ==> (#[trigger] idxs@[q]) < t0.len(),
                0 <= k <= m,
                dof <= k,
                dof + path_dof(t0, idxs@.skip(k as int)) == path_dof(t0, idxs@),
            decreases m - k,
        {
            proof {
                assert(idxs@.skip(k as int)[0] == idxs@[k as int]);
                assert(idxs@.skip(k as int).subrange(1, idxs@.skip(k as int).len() as int)
                    =~= idxs@.skip(k as int + 1));
                assert(self.view_spec()[idxs@[k as int] as int] == node_view(
                    self.nodes@[idxs@[k as int] as int],
                ));
            }
            if self.nodes[idxs[k]].data.has_joint_angle() {
                dof = dof + 1;
            }
            k = k + 1;
        }
        proof {
            assert(idxs@.skip(m as int) =~= Seq::<usize>::empty());
        }
        if angles.len() != dof {
            return Err(JointError::SizeMisMatch);
        }
        let mut k2: usize = 0;
        let mut c: usize = 0;
        proof {
            assert(idxs@.skip(0) =~= idxs@);
            assert(angles@.skip(0) =~= angles@);
        }
        while k2 < m
            invariant
                t0 == old(self).view_spec(),
                idxs@ == chain_idx_from_end(t0, end as int, t0.len() as nat),
                angles@.len() == path_dof(t0, idxs@),
                m == idxs@.len(),
                forall|q: int| 0 <= q < m ==> (#[trigger] idxs@[q]) < t0.len(),
                self.view_spec().len() == t0.len(),
                0 <= k2 <= m,
                0 <= c <= angles@.len(),
                self.name == old(self).name,
                self.root == old(self).root,
                path_assign_spec(t0, idxs@, angles@) == path_assign_spec(
                    self.view_spec(),
                    idxs@.skip(k2 as int),
                    angles@.skip(c as int),
                ),
            decreases m - k2,
        {
            proof {
                assert(idxs@.skip(k2 as int)[0] == idxs@[k2 as int]);
                assert(idxs@.skip(k2 as int).subrange(1, idxs@.skip(k2 as int).len() as int)
                    =~= idxs@.skip(k2 as int + 1));
                assert(self.view_spec()[idxs@[k2 as int] as int] == node_view(
                    self.nodes@[idxs@[k2 as int] as int],
                ));
            }
            let i = idxs[k2];
            if self.nodes[i].data.has_joint_angle() {
                if c >= angles.len() {
                    // a non-fixed node with no angle left: the assignment
                    // stops here, exactly as the mirror does
                    proof {
                        assert(angles@.skip(c as int).len() == 0);
                    }
                    return Err(JointError::OutOfLimit);
                }
                proof {
                    assert(angles@.skip(c as int)[0] == angles@[c as int]);
                    assert(angles@.skip(c as int).subrange(
                        1,
                        angles@.skip(c as int).len() as int,
                    ) =~= angles@.skip(c as int + 1));
                }
                let res = self.set_joint_angle(i, angles[c]);
                match res {
                    Ok(()) => {
                        c = c + 1;
                    },
                    Err(e) => {
                        proof {
                            assert(e == JointError::OutOfLimit);
                        }
                        return Err(e);
                    },
                }
            }
            k2 = k2 + 1;
        }
        proof {
            assert(idxs@.skip(m as int) =~= Seq::<usize>::empty());
        }
        Ok(())
    }

    /// The world pose of every node of the subtree under the root, in
    /// first-visit order; each visited unit's cache is set to its pose.
    pub fn calc_link_transforms(&mut self) -> (r: Vec<Isometry>)
        requires
            tree_wf(old(self).view_spec()),
            old(self).root < old(self).view_spec().len(),
        ensures
            ({
                let step = walk_spec(
                    old(self).view_spec(),
                    old(self).root as int,
                    iso_identity_spec(),
                    old(self).view_spec().len() as nat,
                );
                &&& final(self).view_spec() == step.0
                &&& r@ == step.1
                &&& final(self).name == old(self).name
                &&& final(self).root == old(self).root
            }),
    {
        let root = self.root;
        let n = self.nodes.len();
        let base = Isometry::identity();
        self.walk_rec(root, base, n)
    }

    /// Mirrors `walk_spec`: computes this node's world pose, stores it in
    /// the cache, and recurses into the children.
    fn walk_rec(&mut self, i: usize, pw: Isometry, fuel: usize) -> (r: Vec<Isometry>)
        requires
            tree_wf(old(self).view_spec()),
        ensures
            ({
                let step = walk_spec(old(self).view_spec(), i as int, pw, fuel as nat);
                &&& final(self).view_spec() == step.0
                &&& r@ == step.1
                &&& final(self).name == old(self).name
                &&& final(self).root == old(self).root
                &&& tree_wf(final(self).view_spec())
            }),
        decreases fuel, 0nat,
    {
        if fuel == 0 || i >= self.nodes.len() {
            return Vec::new();
        }
        let ghost t0 = self.view_spec();
        proof {
            assert(t0[i as int] == node_view(self.nodes@[i as int]));
        }
        let node = &self.nodes[i];
        let w = pw.mul(node.data.calc_transform());
        let cs = copy_indices(&node.children);
        let new_node = LinkedJointNode {
            data: LinkedJoint {
                name: node.data.name.clone(),
                joint: node.data.joint.clone(),
                transform: node.data.transform,
                world_transform_cache: Some(w),
            },
            parent: node.parent,
            children: copy_indices(&node.children),
        };
        self.nodes.set(i, new_node);
        proof {
            assert(self.view_spec() =~= t0.update(
                i as int,
                (
                    LinkedJoint {
                        world_transform_cache: Some(
                            iso_mul_spec(pw, lj_transform_spec(t0[i as int].0)),
                        ),
                        ..t0[i as int].0
                    },
                    t0[i as int].1,
                    t0[i as int].2,
                ),
            ));
        }
        let mut rest = self.walk_list_rec(&cs, w, fuel - 1);
        let mut out: Vec<Isometry> = Vec::new();
        out.push(w);
        out.append(&mut rest);
        proof {
            let step = walk_spec(t0, i as int, pw, fuel as nat);
            assert(out@ =~= step.1);
        }
        out
    }

    /// Mirrors `walk_list_spec` over a list of children.
    fn walk_list_rec(&mut self, cs: &Vec<usize>, pw: Isometry, fuel: usize) -> (r: Vec<Isometry>)
        requires
            tree_wf(old(self).view_spec()),
        ensures
            ({
                let step = walk_list_spec(old(self).view_spec(), cs@, pw, fuel as nat);
                &&& final(self).view_spec() == step.0
                &&& r@ == step.1
                &&& final(self).name == old(self).name
                &&& final(self).root == old(self).root
                &&& tree_wf(final(self).view_spec())
            }),
        decreases fuel, cs@.len() + 1,
    {
        if cs.len() == 0 {
            return Vec::new();
        }
        let head_idx = cs[0];
        let mut head = self.walk_rec(head_idx, pw, fuel);
        let tail = split_first(cs);
        let mut rest = self.walk_list_rec(&tail, pw, fuel);
        head.append(&mut rest);
        proof {
            let step = walk_list_spec(old(self).view_spec(), cs@, pw, fuel as nat);
            assert(head@ =~= step.1);
        }
        head
    }
}

/// A chain materialized from a tree: the walk from a chosen end node up to
/// the root, root first, behind its own base transform.
///
/// The chain holds fresh copies of the walked units, so moving its joints
/// does not reach the tree.  To carry a solved chain's angles back, hand
/// `get_joint_angles`'s vector to the tree's
/// [`LinkedJointTree::set_joint_angles_from`] with the same end node: it
/// assigns along the same walk in the same order.
pub struct RefKinematicChain {
    pub name: String,
    pub linked_joints: Vec<LinkedJoint>,
    pub transform: Isometry,
}

impl RefKinematicChain {
    /// Copies the units along the walk from `end` to the root, reversed
    /// into root-to-tip order, with the identity base.  The copies are the
    /// chain's own: see the type's note on writing angles back.
    pub fn new(name: &str, tree: &LinkedJointTree, end: usize) -> (r: RefKinematicChain)
        requires
            tree_wf(tree.view_spec()),
            end < tree.view_spec().len(),
        ensures
            r.name@ == name@,
            r.linked_joints@ == chain_from_end(
                tree.view_spec(),
                end as int,
                tree.view_spec().len() as nat,
            ),
            r.transform == iso_identity_spec(),
    {
        let n = tree.nodes.len();
        let links = tree.chain_from_end_rec(end, n);
        RefKinematicChain {
            name: name.to_owned(),
            linked_joints: links,
            transform: Isometry::identity(),
        }
    }
}

impl KinematicChain for RefKinematicChain {
    open spec fn joints_view(&self) -> Seq<LinkedJoint> {
        self.linked_joints@
    }

    open spec fn base_view(&self) -> Isometry {
        self.transform
    }

    fn calc_end_transform(&self) -> (r: Isometry)
        ensures
            r == end_transform_spec(self.base_view(), self.joints_view()),
    {
        let mut trans = self.transform;
        let n = self.linked_joints.len();
        let mut i: usize = 0;
        while i < n
            invariant
                n == self.linked_joints@.len(),
                0 <= i <= n,
                trans == end_transform_spec(self.transform, self.linked_joints@.take(i as int)),
            decreases n - i,
        {
            trans = trans.mul(self.linked_joints[i].calc_transform());
            proof {
                crate::links::lemma_take_step(self.linked_joints@, i as int);
            }
            i = i + 1;
        }
        proof {
            assert(self.linked_joints@.take(n as int) =~= self.linked_joints@);
        }
        trans
    }

    fn set_joint_angles(&mut self, angles: &Vec<Real>) -> (r: Result<(), JointError>)
        ensures
            ({
                let s = old(self).joints_view();
                &&& (r == Err::<(), JointError>(JointError::SizeMisMatch) <==> angles@.len()
                    != angles_of(s).len())
                &&& (angles@.len() != angles_of(s).len() ==> final(self).joints_view() == s)
                &&& (angles@.len() == angles_of(s).len() ==> {
                    &&& (r is Ok <==> angles_ok_from(s, angles@))
                    &&& (!angles_ok_from(s, angles@) ==> r == Err::<(), JointError>(
                        JointError::OutOfLimit,
                    ))
                    &&& final(self).joints_view() == apply_angles_from(s, angles@)
                })
                &&& final(self).base_view() == old(self).base_view()
            }),
    {
        set_joint_angles_vec(&mut self.linked_joints, angles)
    }

    fn get_joint_angles(&self) -> (r: Vec<Real>)
        ensures
            r@ == angles_of(self.joints_view()),
    {
        get_joint_angles_vec(&self.linked_joints)
    }
}

} // verus!
