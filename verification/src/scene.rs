//! The imported scene: an immutable node tree plus flat mesh and animation
//! lists, as handed over by the import adapter.
//!
//! Nodes live in one flat list; a node's children are indices into that
//! list, and every child index is strictly greater than its parent's, which
//! both rules out cycles and makes the depth-first walk terminate. The node
//! at index 0 is the root.

use vstd::prelude::*;
use crate::curve::{Animation, VAL_MAX};
use crate::pon::{M4, V2, V3};

verus! {

/// A triangulated face: three vertex indices.
#[derive(Clone, Copy, PartialEq, Eq, Structural, Debug)]
pub struct Tri {
    pub a: u32,
    pub b: u32,
    pub c: u32,
}

/// One imported mesh. Texture coordinates and normals are per-vertex
/// attributes that the source may lack.
#[derive(Debug)]
pub struct SceneMesh {
    pub positions: Vec<V3>,
    pub texcoords: Option<Vec<V2>>,
    pub normals: Option<Vec<V3>>,
    pub faces: Vec<Tri>,
}

/// One node of the hierarchy.
#[derive(Debug)]
pub struct SceneNode {
    pub name: String,
    pub local_transform: M4,
    pub mesh_indices: Vec<usize>,
    pub children: Vec<usize>,
}

/// An imported scene.
#[derive(Debug)]
pub struct SceneGraph {
    pub nodes: Vec<SceneNode>,
    pub meshes: Vec<SceneMesh>,
    pub animations: Vec<Animation>,
}

pub open spec fn v2_bounded(v: V2) -> bool {
    &&& -VAL_MAX <= v.x <= VAL_MAX
    &&& -VAL_MAX <= v.y <= VAL_MAX
}

/// Mesh attribute values stay within the admitted fixed-point range.
pub open spec fn mesh_bounded(m: SceneMesh) -> bool {
    match m.texcoords {
        Some(tc) => forall|i: int| 0 <= i < tc@.len() ==> v2_bounded(#[trigger] tc@[i]),
        None => true,
    }
}

impl SceneGraph {
    /// What the import adapter guarantees of a scene it hands over: a root
    /// exists, child links point forward into the node list, animations are
    /// admissible and their names are distinct, and mesh texture
    /// coordinates are in range.
    pub open spec fn valid(&self) -> bool {
        &&& self.nodes@.len() >= 1
        &&& forall|n: int, c: int|
            0 <= n < self.nodes@.len() && 0 <= c < self.nodes@[n].children@.len()
                ==> n < #[trigger] self.nodes@[n].children@[c] < self.nodes@.len()
        &&& forall|a: int|
            0 <= a < self.animations@.len() ==> (#[trigger] self.animations@[a]).valid()
        &&& forall|a: int, b: int|
            0 <= a < b < self.animations@.len() ==> (#[trigger] self.animations@[a]).name@ != (
            #[trigger] self.animations@[b]).name@
        &&& forall|m: int|
            0 <= m < self.meshes@.len() ==> mesh_bounded(#[trigger] self.meshes@[m])
    }
}


fn check_mesh_bounded(m: &SceneMesh) -> (r: bool)
    ensures
        r == mesh_bounded(*m),
{
    match &m.texcoords {
        None => true,
        Some(tc) => {
            let n = tc.len();
            let mut i: usize = 0;
            while i < n
                invariant
                    i <= n,
                    n == tc@.len(),
                    m.texcoords == Some(*tc),
                    forall|t: int| 0 <= t < i ==> v2_bounded(#[trigger] tc@[t]),
                decreases n - i,
            {
                let v = tc[i];
                if v.x < -VAL_MAX || v.x > VAL_MAX || v.y < -VAL_MAX || v.y > VAL_MAX {
                    proof {
                        assert(!v2_bounded(tc@[i as int]));
                        assert(!mesh_bounded(*m)) by {
                            if mesh_bounded(*m) {
                                assert(match m.texcoords {
                                    Some(tc2) => v2_bounded(tc2@[i as int]),
                                    None => true,
                                });
                            }
                        }
                    }
                    return false;
                }
                i = i + 1;
            }
            true
        },
    }
}

impl SceneGraph {
    /// Decides [`SceneGraph::valid`], so that a caller holding a scene from
    /// an arbitrary importer can establish every admission condition by
    /// running this check.
    pub fn check_valid(&self) -> (r: bool)
        ensures
            r == self.valid(),
    {
        if self.nodes.len() == 0 {
            return false;
        }
        let nn = self.nodes.len();
        let mut n: usize = 0;
        while n < nn
            invariant
                n <= nn,
                nn == self.nodes@.len(),
                forall|t: int, c: int|
                    0 <= t < n && 0 <= c < self.nodes@[t].children@.len() ==> t < (
                    #[trigger] self.nodes@[t].children@[c]) < self.nodes@.len(),
            decreases nn - n,
        {
            let node = &self.nodes[n];
            let nc = node.children.len();
            let mut c: usize = 0;
            while c < nc
                invariant
                    c <= nc,
                    n < nn,
                    nn == self.nodes@.len(),
                    nc == node.children@.len(),
                    node == &self.nodes[n as int],
                    forall|cc: int|
                        0 <= cc < c ==> n < (#[trigger] node.children@[cc])
                            < self.nodes@.len(),
                decreases nc - c,
            {
                let child = node.children[c];
                if child <= n || child >= nn {
                    return false;
                }
                c = c + 1;
            }
            n = n + 1;
        }
        let na = self.animations.len();
        let mut a: usize = 0;
        while a < na
            invariant
                a <= na,
                na == self.animations@.len(),
                forall|t: int| 0 <= t < a ==> (#[trigger] self.animations@[t]).valid(),
            decreases na - a,
        {
            if !self.animations[a].check_valid() {
                return false;
            }
            a = a + 1;
        }
        let mut a1: usize = 0;
        while a1 < na
            invariant
                a1 <= na,
                na == self.animations@.len(),
                forall|t: int, u: int|
                    0 <= t < u < na && t < a1 ==> (#[trigger] self.animations@[t]).name@ != (
                    #[trigger] self.animations@[u]).name@,
            decreases na - a1,
        {
            let mut a2: usize = a1 + 1;
            while a2 < na
                invariant
                    a1 < a2 <= na || (a1 + 1 == a2 && a2 > na),
                    a1 < na,
                    na == self.animations@.len(),
                    forall|t: int, u: int|
                        0 <= t < u < na && t < a1 ==> (#[trigger] self.animations@[t]).name@
                            != (#[trigger] self.animations@[u]).name@,
                    forall|u: int|
                        a1 < u < a2 ==> self.animations@[a1 as int].name@ != (
                        #[trigger] self.animations@[u]).name@,
                decreases na - a2,
            {
                if self.animations[a1].name.eq(&self.animations[a2].name) {
                    return false;
                }
                a2 = a2 + 1;
            }
            a1 = a1 + 1;
        }
        let nm = self.meshes.len();
        let mut m: usize = 0;
        while m < nm
            invariant
                m <= nm,
                nm == self.meshes@.len(),
                forall|t: int| 0 <= t < m ==> mesh_bounded(#[trigger] self.meshes@[t]),
            decreases nm - m,
        {
            if !check_mesh_bounded(&self.meshes[m]) {
                return false;
            }
            m = m + 1;
        }
        true
    }
}

} // verus!
