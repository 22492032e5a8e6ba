//! Scene-import and resource-management core for a 3D renderer.
//!
//! The crate reads a decoded glTF document, deduplicates and prepares its
//! renderable resources (meshes, materials, textures), and reconstructs the
//! node hierarchy with composed transforms and optional skinning data.

use vstd::prelude::*;

pub mod catalog;
pub mod gltf;
pub mod graphics;
pub mod import_gltf;
pub mod transform;

pub use catalog::Catalog;
pub use catalog::Id;

use transform::Transform;
use transform::mat_mul_of;

verus! {

/// Skeletal-skinning data of one node: joint node indices, an optional
/// skeleton root, and one inverse-bind matrix per joint.
#[derive(Debug, Clone)]
pub struct Skin {
    pub joints: Vec<u16>,
    pub skeleton: Option<u16>,
    pub inverse_bind_matrices: Vec<Transform>,
}

impl Skin {
    /// One inverse-bind matrix per joint.
    pub open spec fn wf(&self) -> bool {
        self.joints@.len() == self.inverse_bind_matrices@.len()
    }
}

/// One entry of a scene's dense node array. Parent and children are indices
/// into that same array.
#[derive(Debug, Clone)]
pub struct Node {
    pub parent: Option<u16>,
    pub children: Vec<u16>,
    pub transform: Transform,
    pub meshes: Vec<(Id<graphics::Mesh>, Id<graphics::Material>)>,
    pub skin: Option<Skin>,
    pub name: Option<String>,
}

/// The imported scene: a dense node array, the declared root set, and a
/// whole-scene base transform. Read-only after import.
#[derive(Debug, Clone)]
pub struct Scene {
    pub nodes: Vec<Node>,
    pub root_nodes: Vec<u16>,
    pub transform: Transform,
}

impl Scene {
    /// Every node, root, joint and skeleton index stays inside the node
    /// array.
    pub open spec fn nodes_in_range(&self) -> bool {
        let n = self.nodes@.len();
        &&& forall|k: int| 0 <= k < self.root_nodes@.len() ==> (#[trigger] self.root_nodes@[k])
            < n
        &&& forall|i: int| 0 <= i < n ==> match (#[trigger] self.nodes@[i]).parent {
            Some(p) => p < n,
            None => true,
        }
        &&& forall|i: int, k: int|
            0 <= i < n && 0 <= k < self.nodes@[i].children@.len() ==> (
            #[trigger] self.nodes@[i].children@[k]) < n
        &&& forall|i: int, k: int|
            0 <= i < n && self.nodes@[i].skin is Some && 0 <= k
                < self.nodes@[i].skin.unwrap().joints@.len() ==> (#[trigger] self.nodes@[
            i].skin.unwrap().joints@[k]) < n
        &&& forall|i: int| 0 <= i < n ==> match (#[trigger] self.nodes@[i]).skin {
            Some(sk) => match sk.skeleton {
                Some(r) => r < n,
                None => true,
            },
            None => true,
        }
    }

    /// Every listed child names this node as its parent.
    pub open spec fn children_consistent(&self) -> bool {
        forall|i: int, k: int|
            0 <= i < self.nodes@.len() && 0 <= k < self.nodes@[i].children@.len() ==> {
                let c = #[trigger] self.nodes@[i].children@[k];
                &&& i < 0x10000
                &&& c < self.nodes@.len()
                &&& self.nodes@[c as int].parent == Some(i as u16)
            }
    }

    /// Every node with a parent is listed among that parent's children.
    pub open spec fn parents_linked(&self) -> bool {
        forall|i: int|
            0 <= i < self.nodes@.len() && (#[trigger] self.nodes@[i]).parent is Some ==> {
                let p = self.nodes@[i].parent->0;
                &&& i < 0x10000
                &&& p < self.nodes@.len()
                &&& self.nodes@[p as int].children@.contains(i as u16)
            }
    }

    /// `d` ranks every node strictly above its parent and below the node
    /// count; such a ranking witnesses that the parent graph has no cycle.
    pub open spec fn ranked(&self, d: Map<int, nat>) -> bool {
        forall|i: int| 0 <= i < self.nodes@.len() ==> {
            &&& d.contains_key(i)
            &&& (#[trigger] d[i]) < self.nodes@.len()
            &&& match self.nodes@[i].parent {
                Some(p) => d.contains_key(p as int) && d[p as int] < d[i],
                None => true,
            }
        }
    }

    /// The parent graph is a forest: some ranking witnesses it.
    pub open spec fn acyclic(&self) -> bool {
        exists|d: Map<int, nat>| self.ranked(d)
    }

    /// All skins carry one inverse-bind matrix per joint.
    pub open spec fn skins_wf(&self) -> bool {
        forall|i: int|
            0 <= i < self.nodes@.len() && (#[trigger] self.nodes@[i]).skin is Some
                ==> self.nodes@[i].skin->0.wf()
    }

    /// Well-formedness of a built scene: indices in range, bidirectional
    /// parent/child consistency, an acyclic hierarchy, and sound skins.
    pub open spec fn wf(&self) -> bool {
        &&& self.nodes_in_range()
        &&& self.children_consistent()
        &&& self.parents_linked()
        &&& self.acyclic()
        &&& self.skins_wf()
    }

    /// One step up the parent chain, `None` at a root or outside the array.
    pub open spec fn parent_step(&self, i: int) -> Option<int> {
        if 0 <= i < self.nodes@.len() {
            match self.nodes@[i].parent {
                Some(p) => Some(p as int),
                None => None,
            }
        } else {
            None
        }
    }

    /// The node reached after `k` steps up the parent chain from `i`, if the
    /// chain is that long.
    pub open spec fn parent_iter(&self, i: int, k: nat) -> Option<int>
        decreases k,
    {
        if k == 0 {
            Some(i)
        } else {
            match self.parent_iter(i, (k - 1) as nat) {
                Some(j) => self.parent_step(j),
                None => None,
            }
        }
    }

    /// The world matrix of node `i`: local transforms composed root-first
    /// down the parent chain, with the scene's base transform outermost.
    /// `fuel` only bounds the recursion; any value above the ranking of `i`
    /// yields the same matrix.
    pub open spec fn world_fuel(&self, i: int, fuel: nat) -> Seq<u32>
        decreases fuel,
    {
        if 0 <= i < self.nodes@.len() {
            match self.nodes@[i].parent {
                None => mat_mul_of(self.transform@, self.nodes@[i].transform@),
                Some(p) => if fuel > 0 {
                    mat_mul_of(self.world_fuel(p as int, (fuel - 1) as nat),
                        self.nodes@[i].transform@)
                } else {
                    Seq::empty()
                },
            }
        } else {
            Seq::empty()
        }
    }

    /// The resolved world transform of node `i`.
    pub open spec fn spec_world_transform(&self, i: int) -> Seq<u32> {
        self.world_fuel(i, self.nodes@.len() as nat)
    }

    proof fn lemma_world_fuel_agrees(&self, d: Map<int, nat>, i: int, f1: nat, f2: nat)
        requires
            self.ranked(d),
            0 <= i < self.nodes@.len(),
            f1 >= d[i],
            f2 >= d[i],
        ensures
            self.world_fuel(i, f1) == self.world_fuel(i, f2),
        decreases d[i],
    {
        match self.nodes@[i].parent {
            None => {},
            Some(p) => {
                assert(d.contains_key(p as int) && d[p as int] < d[i]);
                assert(f1 > 0 && f2 > 0);
                if 0 <= p < self.nodes@.len() {
                    self.lemma_world_fuel_agrees(d, p as int, (f1 - 1) as nat, (f2 - 1) as nat);
                    assert(self.world_fuel(i, f1) == mat_mul_of(
                        self.world_fuel(p as int, (f1 - 1) as nat), self.nodes@[i].transform@));
                    assert(self.world_fuel(i, f2) == mat_mul_of(
                        self.world_fuel(p as int, (f2 - 1) as nat), self.nodes@[i].transform@));
                } else {
                    assert(self.world_fuel(p as int, (f1 - 1) as nat) == Seq::<u32>::empty());
                    assert(self.world_fuel(p as int, (f2 - 1) as nat) == Seq::<u32>::empty());
                }
            },
        }
    }

    /// Following parent indices from any node reaches a root within fewer
    /// steps than there are nodes.
    pub proof fn lemma_parent_chain_terminates(&self, i: int)
        requires
            self.nodes_in_range(),
            self.acyclic(),
            0 <= i < self.nodes@.len(),
        ensures
            exists|k: nat|
                k < self.nodes@.len() && ((#[trigger] self.parent_iter(i, k)) matches Some(j)
                    && self.nodes@[j].parent is None),
    {
        let d = choose|d: Map<int, nat>| self.ranked(d);
        assert(self.ranked(d));
        self.lemma_parent_chain_terminates_ranked(d, i);
    }

    proof fn lemma_parent_chain_terminates_ranked(&self, d: Map<int, nat>, i: int)
        requires
            self.nodes_in_range(),
            self.ranked(d),
            0 <= i < self.nodes@.len(),
        ensures
            exists|k: nat|
                k <= d[i] && ((#[trigger] self.parent_iter(i, k)) matches Some(j)
                    && self.nodes@[j].parent is None),
            exists|k: nat|
                k < self.nodes@.len() && ((#[trigger] self.parent_iter(i, k)) matches Some(j)
                    && self.nodes@[j].parent is None),
        decreases d[i],
    {
        match self.nodes@[i].parent {
            None => {
                assert(self.parent_iter(i, 0) == Some(i));
            },
            Some(p) => {
                assert(d.contains_key(p as int) && d[p as int] < d[i]);
                assert(p < self.nodes@.len());
                self.lemma_parent_chain_terminates_ranked(d, p as int);
                let kp = choose|k: nat|
                    k <= d[p as int] && ((#[trigger] self.parent_iter(p as int, k)) matches Some(j)
                        && self.nodes@[j].parent is None);
                self.lemma_parent_iter_unfold_front(i, p as int, kp);
                assert(self.parent_iter(i, kp + 1) == self.parent_iter(p as int, kp));
                assert((kp + 1) as nat <= d[i]);
                assert(d[i] < self.nodes@.len());
            },
        }
    }

    proof fn lemma_parent_iter_unfold_front(&self, i: int, p: int, k: nat)
        requires
            self.parent_step(i) == Some(p),
        ensures
            self.parent_iter(i, (k + 1) as nat) == self.parent_iter(p, k),
        decreases k,
    {
        if k > 0 {
            self.lemma_parent_iter_unfold_front(i, p, (k - 1) as nat);
        } else {
            assert(self.parent_iter(i, 0) == Some(i));
            assert(self.parent_iter(p, 0) == Some(p));
            assert(self.parent_iter(i, 1) == self.parent_step(i));
        }
    }

    /// Walks from node `index` up through its parent chain, composing local
    /// transforms in parent-then-child order, and applies the scene's base
    /// transform last.
    pub fn world_transform(&self, index: u16) -> (r: Transform)
        requires
            self.nodes_in_range(),
            self.acyclic(),
            index < self.nodes@.len(),
        ensures
            r@ == self.spec_world_transform(index as int),
    {
        let ghost d = choose|d: Map<int, nat>| self.ranked(d);
        proof {
            assert(self.ranked(d));
        }
        let n = self.nodes.len();

        let mut chain: Vec<u16> = Vec::new();
        chain.push(index);
        let mut cur: u16 = index;
        while self.nodes[cur as usize].parent.is_some()
            invariant
                self.nodes_in_range(),
                self.ranked(d),
                n == self.nodes@.len(),
                cur < n,
                chain@.len() >= 1,
                chain@[0] == index,
                chain@[chain@.len() - 1] == cur,
                forall|j: int| 0 <= j < chain@.len() ==> (#[trigger] chain@[j]) < n,
                forall|j: int|
                    0 <= j < chain@.len() - 1 ==> self.nodes@[(#[trigger] chain@[j]) as int].parent
                        == Some(chain@[j + 1]),
            decreases d[cur as int],
        {
            let p = self.nodes[cur as usize].parent.unwrap();
            chain.push(p);
            proof {
                assert(d.contains_key(p as int) && d[p as int] < d[cur as int]);
            }
            cur = p;
        }

        let mut acc = self.transform;
        let mut j = chain.len();
        assert(self.nodes@[chain@[j - 1] as int].parent is None);
        while j > 0
            invariant
                self.nodes_in_range(),
                self.ranked(d),
                n == self.nodes@.len(),
                chain@.len() >= 1,
                0 <= j <= chain@.len(),
                chain@[0] == index,
                forall|k: int| 0 <= k < chain@.len() ==> (#[trigger] chain@[k]) < n,
                forall|k: int|
                    0 <= k < chain@.len() - 1 ==> self.nodes@[(#[trigger] chain@[k]) as int].parent
                        == Some(chain@[k + 1]),
                self.nodes@[chain@[chain@.len() - 1] as int].parent is None,
                j == chain@.len() ==> acc@ == self.transform@,
                j < chain@.len() ==> acc@ == self.spec_world_transform(chain@[j as int] as int),
            decreases j,
        {
            j = j - 1;
            let node_index = chain[j];
            acc = acc.compose(&self.nodes[node_index as usize].transform);
            proof {
                let ci = node_index as int;
                if j == chain@.len() - 1 {
                    assert(self.nodes@[ci].parent is None);
                    assert(acc@ == self.spec_world_transform(ci));
                } else {
                    let p = chain@[j + 1] as int;
                    assert(self.nodes@[ci].parent == Some(chain@[j + 1]));
                    self.lemma_world_fuel_agrees(d, p, (n - 1) as nat, n as nat);
                    assert(acc@ == self.spec_world_transform(ci));
                }
            }
        }
        acc
    }

    /// The triples the render loop consumes: node order, one entry per
    /// attached (mesh, material) pair, as the pair's node-index, handles and
    /// resolved world transform.
    pub open spec fn spec_draw_seq(&self, upto: int) -> Seq<
        (Id<graphics::Mesh>, Id<graphics::Material>, Seq<u32>),
    >
        decreases upto,
    {
        if upto <= 0 {
            Seq::empty()
        } else {
            self.spec_draw_seq(upto - 1) + self.spec_node_draws(upto - 1)
        }
    }

    /// The draw entries one node contributes.
    pub open spec fn spec_node_draws(&self, i: int) -> Seq<
        (Id<graphics::Mesh>, Id<graphics::Material>, Seq<u32>),
    > {
        Seq::new(self.nodes@[i].meshes@.len(), |k: int|
            (self.nodes@[i].meshes@[k].0, self.nodes@[i].meshes@[k].1,
            self.spec_world_transform(i)))
    }

    /// Resolves, for every node with at least one attached (mesh, material)
    /// pair, the pair plus the node's world transform. Nodes without meshes
    /// contribute nothing but still shape their descendants' transforms.
    pub fn draw_items(&self) -> (r: Vec<(Id<graphics::Mesh>, Id<graphics::Material>, Transform)>)
        requires
            self.nodes_in_range(),
            self.acyclic(),
            self.nodes@.len() <= 0x10000,
        ensures
            r@.len() == self.spec_draw_seq(self.nodes@.len() as int).len(),
            forall|k: int| 0 <= k < r@.len() ==> {
                let s = self.spec_draw_seq(self.nodes@.len() as int);
                &&& (#[trigger] r@[k]).0 == s[k].0
                &&& r@[k].1 == s[k].1
                &&& r@[k].2@ == s[k].2
            },
    {
        let mut r: Vec<(Id<graphics::Mesh>, Id<graphics::Material>, Transform)> = Vec::new();
        let n = self.nodes.len();
        for i in 0..n
            invariant
                self.nodes_in_range(),
                self.acyclic(),
                n == self.nodes@.len(),
                n <= 0x10000,
                r@.len() == self.spec_draw_seq(i as int).len(),
                forall|k: int| 0 <= k < r@.len() ==> {
                    let s = self.spec_draw_seq(i as int);
                    &&& (#[trigger] r@[k]).0 == s[k].0
                    &&& r@[k].1 == s[k].1
                    &&& r@[k].2@ == s[k].2
                },
        {
            let node = &self.nodes[i];
            if node.meshes.len() > 0 {
                let world = self.world_transform(i as u16);
                let m = node.meshes.len();
                for k in 0..m
                    invariant
                        self.nodes_in_range(),
                        self.acyclic(),
                        n == self.nodes@.len(),
                        n <= 0x10000,
                        i < n,
                        m == self.nodes@[i as int].meshes@.len(),
                        world@ == self.spec_world_transform(i as int),
                        r@.len() == self.spec_draw_seq(i as int).len() + k,
                        forall|q: int| 0 <= q < r@.len() ==> {
                            let s = self.spec_draw_seq(i as int)
                                + self.spec_node_draws(i as int);
                            &&& (#[trigger] r@[q]).0 == s[q].0
                            &&& r@[q].1 == s[q].1
                            &&& r@[q].2@ == s[q].2
                        },
                {
                    let pair = self.nodes[i].meshes[k];
                    r.push((pair.0, pair.1, world));
                    proof {
                        let s = self.spec_draw_seq(i as int) + self.spec_node_draws(i as int);
                        assert(s[r@.len() - 1] == (self.nodes@[i as int].meshes@[k as int].0,
                            self.nodes@[i as int].meshes@[k as int].1,
                            self.spec_world_transform(i as int)));
                    }
                }
            }
            proof {
                assert(self.spec_draw_seq(i + 1) == self.spec_draw_seq(i as int)
                    + self.spec_node_draws(i as int));
                if self.nodes@[i as int].meshes@.len() == 0 {
                    assert(self.spec_node_draws(i as int) =~= Seq::empty());
                    assert(self.spec_draw_seq(i + 1) =~= self.spec_draw_seq(i as int));
                }
                assert forall|q: int| 0 <= q < r@.len() implies {
                    let s = self.spec_draw_seq(i + 1);
                    &&& (#[trigger] r@[q]).0 == s[q].0
                    &&& r@[q].1 == s[q].1
                    &&& r@[q].2@ == s[q].2
                } by {
                    let s0 = self.spec_draw_seq(i as int) + self.spec_node_draws(i as int);
                    assert(self.spec_draw_seq(i + 1)[q] == s0[q]);
                }
            }
        }
        r
    }
}

} // verus!
