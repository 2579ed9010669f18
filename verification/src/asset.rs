//! One loaded asset: an imported scene under a deterministic id, with the
//! mesh extractor, the resource registrar and the graph mapper.

use vstd::prelude::*;
use crate::UNIT;
use crate::curve::{TrackSet, track_set_from_animation, track_set_ok};
use crate::doc3d::{Document, Entity, Resource, VertexBuffer, plookup};
use crate::keys::{
    anim_key,
    anim_key_spec,
    anim_prop_key,
    anim_prop_key_spec,
    lemma_anim_keys_distinct,
    lemma_anim_prop_key_not_node_key,
    lemma_anim_prop_keys_distinct,
    lemma_key_kinds_distinct,
    lemma_mesh_keys_distinct,
    mesh_key,
    mesh_key_spec,
};
use crate::pon::{
    Pon,
    V2,
    V3,
    V4,
    is_parent_ref,
    is_resource_ref,
    is_this_ref,
    is_transform_chain,
    parent_ref,
    resource_ref,
    this_ref,
    transform_chain,
};
use crate::scene::{SceneGraph, SceneMesh, SceneNode, mesh_bounded, v2_bounded};

verus! {

broadcast use vstd::string::group_string_axioms;

/// Why a mesh was rejected by the extractor.
#[derive(Clone, Copy, PartialEq, Eq, Structural, Debug)]
pub enum MeshError {
    MissingTexcoords,
    MissingNormals,
    AttributeCountMismatch,
}

/// An asset: the scene imported from `id`, plus whether the source format
/// requires the texture-coordinate V-axis correction.
#[derive(Debug)]
pub struct Asset3d {
    pub id: String,
    pub scene: SceneGraph,
    pub invert_texcoord_y: bool,
}

/// A mesh the extractor accepts: both optional attribute arrays present and
/// as long as the position array.
pub open spec fn mesh_extractable(m: SceneMesh) -> bool {
    match (m.texcoords, m.normals) {
        (Some(tc), Some(nr)) => tc@.len() == m.positions@.len() && nr@.len()
            == m.positions@.len(),
        _ => false,
    }
}

/// The error reported for an inextractable mesh, missing attributes first.
pub open spec fn mesh_error_of(m: SceneMesh) -> MeshError {
    if m.texcoords is None {
        MeshError::MissingTexcoords
    } else if m.normals is None {
        MeshError::MissingNormals
    } else {
        MeshError::AttributeCountMismatch
    }
}

/// The V coordinate as stored: inverted about 1.0 for the one format that
/// needs it.
pub open spec fn flip_tc(y: int, invert: bool) -> int {
    if invert {
        UNIT - y
    } else {
        y
    }
}

/// Vertex `i` of the buffer holds position, texcoord (V possibly
/// inverted) and normal, in that order.
pub open spec fn vertex_ok(vd: Seq<i64>, i: int, p: V3, t: V2, nr: V3, invert: bool) -> bool {
    &&& vd[8 * i] == p.x
    &&& vd[8 * i + 1] == p.y
    &&& vd[8 * i + 2] == p.z
    &&& vd[8 * i + 3] == t.x
    &&& vd[8 * i + 4] as int == flip_tc(t.y as int, invert)
    &&& vd[8 * i + 5] == nr.x
    &&& vd[8 * i + 6] == nr.y
    &&& vd[8 * i + 7] == nr.z
}

/// The extracted buffer is a direct transcription of the mesh: eight values
/// per vertex and the flattened triangle list in source order.
pub open spec fn vb_ok(vb: VertexBuffer, m: SceneMesh, invert: bool) -> bool {
    &&& vb.vertex_data@.len() == 8 * m.positions@.len()
    &&& (match (m.texcoords, m.normals) {
        (Some(tc), Some(nr)) => forall|i: int|
            0 <= i < m.positions@.len() ==> #[trigger] vertex_ok(
                vb.vertex_data@,
                i,
                m.positions@[i],
                tc@[i],
                nr@[i],
                invert,
            ),
        _ => false,
    })
    &&& vb.element_data@.len() == 3 * m.faces@.len()
    &&& forall|i: int|
        0 <= i < m.faces@.len() ==> vb.element_data@[3 * i] == (#[trigger] m.faces@[i]).a
            && vb.element_data@[3 * i + 1] == m.faces@[i].b && vb.element_data@[3 * i + 2]
            == m.faces@[i].c
}

impl Asset3d {
    pub open spec fn valid(&self) -> bool {
        self.scene.valid()
    }

    pub fn new(id: String, scene: SceneGraph, invert_texcoord_y: bool) -> (a: Asset3d)
        requires
            scene.valid(),
        ensures
            a.id == id,
            a.scene == scene,
            a.invert_texcoord_y == invert_texcoord_y,
            a.valid(),
    {
        Asset3d { id, scene, invert_texcoord_y }
    }

    /// Transcribes one mesh into the host's vertex buffer layout, applying
    /// the V-axis correction when this asset's format requires it. Rejects
    /// the mesh if an attribute array is missing or mismatched.
    pub fn mesh_from_scene_mesh(&self, m: &SceneMesh) -> (r: Result<VertexBuffer, MeshError>)
        requires
            mesh_bounded(*m),
        ensures
            (match r {
                Ok(vb) => mesh_extractable(*m) && vb_ok(vb, *m, self.invert_texcoord_y),
                Err(e) => !mesh_extractable(*m) && e == mesh_error_of(*m),
            }),
    {
        let tc = match &m.texcoords {
            Some(t) => t,
            None => {
                return Err(MeshError::MissingTexcoords);
            },
        };
        let nr = match &m.normals {
            Some(n) => n,
            None => {
                return Err(MeshError::MissingNormals);
            },
        };
        if tc.len() != m.positions.len() || nr.len() != m.positions.len() {
            return Err(MeshError::AttributeCountMismatch);
        }
        let mut vd: Vec<i64> = Vec::new();
        let mut i: usize = 0;
        while i < m.positions.len()
            invariant
                i <= m.positions@.len(),
                mesh_bounded(*m),
                m.texcoords == Some(*tc),
                m.normals == Some(*nr),
                tc@.len() == m.positions@.len(),
                nr@.len() == m.positions@.len(),
                vd@.len() == 8 * i,
                forall|k: int|
                    0 <= k < i ==> #[trigger] vertex_ok(
                        vd@,
                        k,
                        m.positions@[k],
                        tc@[k],
                        nr@[k],
                        self.invert_texcoord_y,
                    ),
            decreases m.positions@.len() - i,
        {
            let ghost vd0 = vd@;
            let p = m.positions[i];
            let t = tc[i];
            let n2 = nr[i];
            proof {
                assert(v2_bounded(tc@[i as int])) by {
                    assert(match m.texcoords {
                        Some(tc2) => v2_bounded(tc2@[i as int]),
                        None => false,
                    });
                }
            }
            vd.push(p.x);
            vd.push(p.y);
            vd.push(p.z);
            vd.push(t.x);
            if self.invert_texcoord_y {
                vd.push(UNIT - t.y);
            } else {
                vd.push(t.y);
            }
            vd.push(n2.x);
            vd.push(n2.y);
            vd.push(n2.z);
            proof {
                assert(forall|j: int| 0 <= j < vd0.len() ==> vd@[j] == vd0[j]);
                assert(vertex_ok(
                    vd@,
                    i as int,
                    m.positions@[i as int],
                    tc@[i as int],
                    nr@[i as int],
                    self.invert_texcoord_y,
                ));
                assert forall|k: int|
                    0 <= k < i implies #[trigger] vertex_ok(
                    vd@,
                    k,
                    m.positions@[k],
                    tc@[k],
                    nr@[k],
                    self.invert_texcoord_y,
                ) by {
                    assert(vertex_ok(
                        vd0,
                        k,
                        m.positions@[k],
                        tc@[k],
                        nr@[k],
                        self.invert_texcoord_y,
                    ));
                }
            }
            i = i + 1;
        }
        let mut ed: Vec<u32> = Vec::new();
        let mut f: usize = 0;
        while f < m.faces.len()
            invariant
                f <= m.faces@.len(),
                ed@.len() == 3 * f,
                forall|k: int|
                    0 <= k < f ==> ed@[3 * k] == (#[trigger] m.faces@[k]).a && ed@[3 * k + 1]
                        == m.faces@[k].b && ed@[3 * k + 2] == m.faces@[k].c,
            decreases m.faces@.len() - f,
        {
            let face = m.faces[f];
            ed.push(face.a);
            ed.push(face.b);
            ed.push(face.c);
            f = f + 1;
        }
        Ok(VertexBuffer { vertex_data: vd, element_data: ed })
    }
}

/// A key that none of this asset's registrations touch.
pub open spec fn unrelated_key(a: Asset3d, k: Seq<char>) -> bool {
    &&& !(exists|i: int|
        0 <= i < a.scene.meshes@.len() && k == #[trigger] mesh_key_spec(a.id@, i as nat))
    &&& !(exists|an: int|
        0 <= an < a.scene.animations@.len() && k == #[trigger] anim_key_spec(
            a.id@,
            a.scene.animations@[an].name@,
        ))
}

/// Mesh `k` of asset `a` is registered: its key resolves to an extracted
/// buffer in the layout [`vb_ok`] demands.
pub open spec fn mesh_registered(a: Asset3d, res: Seq<(String, Resource)>, k: int) -> bool {
    match plookup(res, mesh_key_spec(a.id@, k as nat)) {
        Some(Resource::Mesh(vb)) => vb_ok(vb, a.scene.meshes@[k], a.invert_texcoord_y),
        _ => false,
    }
}

/// Animation `k` of asset `a` is registered: its key resolves to the baked
/// track set that [`track_set_ok`] pins down.
pub open spec fn anim_registered(a: Asset3d, res: Seq<(String, Resource)>, k: int) -> bool {
    match plookup(res, anim_key_spec(a.id@, a.scene.animations@[k].name@)) {
        Some(Resource::Animation(ts)) => track_set_ok(ts, a.scene.animations@[k]),
        _ => false,
    }
}

/// What registering asset `a` does to the resource table: one mesh buffer
/// per mesh index, one baked track set per named animation, every other
/// binding and all entities untouched.
pub open spec fn resources_registered(a: Asset3d, d0: Document, d1: Document) -> bool {
    &&& d1.entities == d0.entities
    &&& d1.resources@.len() == d0.resources@.len() + a.scene.meshes@.len()
        + a.scene.animations@.len()
    &&& forall|i: int|
        0 <= i < a.scene.meshes@.len() ==> #[trigger] mesh_registered(a, d1.resources@, i)
    &&& forall|an: int|
        0 <= an < a.scene.animations@.len() ==> #[trigger] anim_registered(a, d1.resources@, an)
    &&& forall|k: Seq<char>|
        unrelated_key(a, k) ==> plookup(d1.resources@, k) == plookup(d0.resources@, k)
}

impl Asset3d {
    /// Extracts every mesh and bakes every animation of this asset, then
    /// registers them under their deterministic keys. All or nothing: the
    /// first inextractable mesh fails the whole asset and leaves the
    /// document untouched.
    pub fn add_resources_to_document(&self, doc: &mut Document) -> (r: Result<(), MeshError>)
        requires
            self.valid(),
        ensures
            (match r {
                Ok(()) => {
                    &&& forall|i: int|
                        0 <= i < self.scene.meshes@.len() ==> mesh_extractable(
                            #[trigger] self.scene.meshes@[i],
                        )
                    &&& resources_registered(*self, *old(doc), *final(doc))
                },
                Err(e) => {
                    &&& *final(doc) == *old(doc)
                    &&& exists|i: int|
                        0 <= i < self.scene.meshes@.len() && !mesh_extractable(
                            #[trigger] self.scene.meshes@[i],
                        ) && e == mesh_error_of(self.scene.meshes@[i])
                },
            }),
    {
        let n_meshes = self.scene.meshes.len();
        let n_anims = self.scene.animations.len();
        let mut vbs: Vec<VertexBuffer> = Vec::new();
        let mut i: usize = 0;
        while i < n_meshes
            invariant
                i <= n_meshes,
                n_meshes == self.scene.meshes@.len(),
                self.valid(),
                vbs@.len() == i,
                forall|k: int| 0 <= k < i ==> mesh_extractable(#[trigger] self.scene.meshes@[k]),
                forall|k: int|
                    0 <= k < i ==> vb_ok(
                        #[trigger] vbs@[k],
                        self.scene.meshes@[k],
                        self.invert_texcoord_y,
                    ),
            decreases n_meshes - i,
        {
            match self.mesh_from_scene_mesh(&self.scene.meshes[i]) {
                Ok(vb) => {
                    vbs.push(vb);
                },
                Err(e) => {
                    return Err(e);
                },
            }
            i = i + 1;
        }
        let mut tss: Vec<TrackSet> = Vec::new();
        let mut an: usize = 0;
        while an < n_anims
            invariant
                an <= n_anims,
                n_anims == self.scene.animations@.len(),
                self.valid(),
                tss@.len() == an,
                forall|k: int|
                    0 <= k < an ==> track_set_ok(#[trigger] tss@[k], self.scene.animations@[k]),
            decreases n_anims - an,
        {
            tss.push(track_set_from_animation(&self.scene.animations[an]));
            an = an + 1;
        }
        // Registration: meshes from the highest index down, then
        // animations; distinct keys keep every earlier binding visible.
        while vbs.len() > 0
            invariant
                vbs@.len() <= n_meshes,
                n_meshes == self.scene.meshes@.len(),
                self.valid(),
                forall|k: int|
                    0 <= k < vbs@.len() ==> vb_ok(
                        #[trigger] vbs@[k],
                        self.scene.meshes@[k],
                        self.invert_texcoord_y,
                    ),
                doc.entities == old(doc).entities,
                doc.resources@.len() == old(doc).resources@.len() + (n_meshes - vbs@.len()),
                forall|k: int|
                    vbs@.len() <= k < n_meshes ==> #[trigger] mesh_registered(
                        *self,
                        doc.resources@,
                        k,
                    ),
                forall|k2: Seq<char>|
                    !(exists|mi: int|
                        vbs@.len() <= mi < n_meshes && k2 == #[trigger] mesh_key_spec(
                            self.id@,
                            mi as nat,
                        )) ==> plookup(doc.resources@, k2) == plookup(old(doc).resources@, k2),
            decreases vbs@.len(),
        {
            let idx = vbs.len() - 1;
            let vb = match vbs.pop() {
                Some(v) => v,
                None => {
                    return Err(MeshError::AttributeCountMismatch);
                },
            };
            let ghost pre = doc.resources@;
            doc.register_resource(mesh_key(self.id.as_str(), idx), Resource::Mesh(vb));
            proof {
                assert(mesh_registered(*self, doc.resources@, idx as int));
                assert forall|k: int|
                    idx + 1 <= k < n_meshes implies #[trigger] mesh_registered(
                    *self,
                    doc.resources@,
                    k,
                ) by {
                    lemma_mesh_keys_distinct(self.id@, k as nat, idx as nat);
                    assert(plookup(doc.resources@, mesh_key_spec(self.id@, k as nat)) == plookup(
                        pre,
                        mesh_key_spec(self.id@, k as nat),
                    ));
                    assert(mesh_registered(*self, pre, k));
                }
                assert forall|k2: Seq<char>|
                    !(exists|mi: int|
                        idx <= mi < n_meshes && k2 == #[trigger] mesh_key_spec(
                            self.id@,
                            mi as nat,
                        )) implies plookup(doc.resources@, k2) == plookup(
                    old(doc).resources@,
                    k2,
                ) by {
                    assert(k2 != mesh_key_spec(self.id@, idx as nat));
                    assert(plookup(doc.resources@, k2) == plookup(pre, k2));
                }
            }
        }
        // Animations, from the highest index down.
        while tss.len() > 0
            invariant
                tss@.len() <= n_anims,
                n_anims == self.scene.animations@.len(),
                n_meshes == self.scene.meshes@.len(),
                self.valid(),
                forall|k: int|
                    0 <= k < tss@.len() ==> track_set_ok(
                        #[trigger] tss@[k],
                        self.scene.animations@[k],
                    ),
                doc.entities == old(doc).entities,
                doc.resources@.len() == old(doc).resources@.len() + n_meshes + (n_anims
                    - tss@.len()),
                forall|k: int|
                    0 <= k < n_meshes ==> #[trigger] mesh_registered(*self, doc.resources@, k),
                forall|k: int|
                    tss@.len() <= k < n_anims ==> #[trigger] anim_registered(
                        *self,
                        doc.resources@,
                        k,
                    ),
                forall|k2: Seq<char>|
                    (!(exists|mi: int|
                        0 <= mi < n_meshes && k2 == #[trigger] mesh_key_spec(
                            self.id@,
                            mi as nat,
                        )) && !(exists|ai: int|
                        tss@.len() <= ai < n_anims && k2 == #[trigger] anim_key_spec(
                            self.id@,
                            self.scene.animations@[ai].name@,
                        ))) ==> plookup(doc.resources@, k2) == plookup(old(doc).resources@, k2),
            decreases tss@.len(),
        {
            let idx = tss.len() - 1;
            let ts = match tss.pop() {
                Some(v) => v,
                None => {
                    return Err(MeshError::AttributeCountMismatch);
                },
            };
            let ghost pre = doc.resources@;
            let name_key = anim_key(self.id.as_str(), self.scene.animations[idx].name.as_str());
            doc.register_resource(name_key, Resource::Animation(ts));
            proof {
                let this_key = anim_key_spec(self.id@, self.scene.animations@[idx as int].name@);
                assert(anim_registered(*self, doc.resources@, idx as int));
                assert forall|k: int|
                    0 <= k < n_meshes implies #[trigger] mesh_registered(
                    *self,
                    doc.resources@,
                    k,
                ) by {
                    lemma_key_kinds_distinct(
                        self.id@,
                        k as nat,
                        self.scene.animations@[idx as int].name@,
                    );
                    assert(plookup(doc.resources@, mesh_key_spec(self.id@, k as nat)) == plookup(
                        pre,
                        mesh_key_spec(self.id@, k as nat),
                    ));
                    assert(mesh_registered(*self, pre, k));
                }
                assert forall|k: int|
                    idx + 1 <= k < n_anims implies #[trigger] anim_registered(
                    *self,
                    doc.resources@,
                    k,
                ) by {
                    lemma_anim_keys_distinct(
                        self.id@,
                        self.scene.animations@[k].name@,
                        self.scene.animations@[idx as int].name@,
                    );
                    assert(plookup(
                        doc.resources@,
                        anim_key_spec(self.id@, self.scene.animations@[k].name@),
                    ) == plookup(pre, anim_key_spec(self.id@, self.scene.animations@[k].name@)));
                    assert(anim_registered(*self, pre, k));
                }
                assert forall|k2: Seq<char>|
                    (!(exists|mi: int|
                        0 <= mi < n_meshes && k2 == #[trigger] mesh_key_spec(
                            self.id@,
                            mi as nat,
                        )) && !(exists|ai: int|
                        idx <= ai < n_anims && k2 == #[trigger] anim_key_spec(
                            self.id@,
                            self.scene.animations@[ai].name@,
                        ))) implies plookup(doc.resources@, k2) == plookup(
                    old(doc).resources@,
                    k2,
                ) by {
                    assert(k2 != this_key);
                    assert(plookup(doc.resources@, k2) == plookup(pre, k2));
                }
            }
        }
        Ok(())
    }
}



/// The ten property keys the mapper writes are pairwise distinct.
proof fn lemma_prop_keys_distinct()
    ensures
        "diffuse"@ != "translation"@,
        "diffuse"@ != "rotation"@,
        "diffuse"@ != "scale"@,
        "diffuse"@ != "local_transform"@,
        "diffuse"@ != "transform"@,
        "diffuse"@ != "shader"@,
        "diffuse"@ != "uniforms"@,
        "diffuse"@ != "alpha"@,
        "diffuse"@ != "mesh"@,
        "translation"@ != "rotation"@,
        "translation"@ != "scale"@,
        "translation"@ != "local_transform"@,
        "translation"@ != "transform"@,
        "translation"@ != "shader"@,
        "translation"@ != "uniforms"@,
        "translation"@ != "alpha"@,
        "translation"@ != "mesh"@,
        "rotation"@ != "scale"@,
        "rotation"@ != "local_transform"@,
        "rotation"@ != "transform"@,
        "rotation"@ != "shader"@,
        "rotation"@ != "uniforms"@,
        "rotation"@ != "alpha"@,
        "rotation"@ != "mesh"@,
        "scale"@ != "local_transform"@,
        "scale"@ != "transform"@,
        "scale"@ != "shader"@,
        "scale"@ != "uniforms"@,
        "scale"@ != "alpha"@,
        "scale"@ != "mesh"@,
        "local_transform"@ != "transform"@,
        "local_transform"@ != "shader"@,
        "local_transform"@ != "uniforms"@,
        "local_transform"@ != "alpha"@,
        "local_transform"@ != "mesh"@,
        "transform"@ != "shader"@,
        "transform"@ != "uniforms"@,
        "transform"@ != "alpha"@,
        "transform"@ != "mesh"@,
        "shader"@ != "uniforms"@,
        "shader"@ != "alpha"@,
        "shader"@ != "mesh"@,
        "uniforms"@ != "alpha"@,
        "uniforms"@ != "mesh"@,
        "alpha"@ != "mesh"@,
{
    reveal_strlit("diffuse");
    reveal_strlit("translation");
    reveal_strlit("rotation");
    reveal_strlit("scale");
    reveal_strlit("local_transform");
    reveal_strlit("transform");
    reveal_strlit("shader");
    reveal_strlit("uniforms");
    reveal_strlit("alpha");
    reveal_strlit("mesh");
    assert("diffuse"@[0] == 'd');
    assert("translation"@[0] == 't');
    assert("rotation"@[0] == 'r');
    assert("scale"@[0] == 's');
    assert("local_transform"@[0] == 'l');
    assert("transform"@[0] == 't');
    assert("shader"@[0] == 's');
    assert("uniforms"@[0] == 'u');
    assert("alpha"@[0] == 'a');
    assert("mesh"@[0] == 'm');
    assert("diffuse"@.len() == 7);
    assert("translation"@.len() == 11);
    assert("rotation"@.len() == 8);
    assert("scale"@.len() == 5);
    assert("local_transform"@.len() == 15);
    assert("transform"@.len() == 9);
    assert("shader"@.len() == 6);
    assert("uniforms"@.len() == 8);
    assert("alpha"@.len() == 5);
    assert("mesh"@.len() == 4);
    assert("translation"@[5] == 'l');
    assert("transform"@[5] == 'f');
}

/// The fixed property set every mapped node's entity carries: inherited
/// material references, identity transform components, the verbatim local
/// matrix and the lazy transform composition chain.
pub open spec fn fixed_props_ok(node: SceneNode, props: Seq<(String, Pon)>) -> bool {
    &&& (match plookup(props, "diffuse"@) {
        Some(p) => is_parent_ref(p, "diffuse"@),
        _ => false,
    })
    &&& plookup(props, "translation"@) == Some(Pon::Vector3(V3 { x: 0, y: 0, z: 0 }))
    &&& plookup(props, "rotation"@) == Some(Pon::Vector4(V4 { x: 0, y: 0, z: 0, w: UNIT }))
    &&& plookup(props, "scale"@) == Some(Pon::Vector3(V3 { x: UNIT, y: UNIT, z: UNIT }))
    &&& plookup(props, "local_transform"@) == Some(Pon::Matrix4(node.local_transform))
    &&& (match plookup(props, "transform"@) {
        Some(p) => is_transform_chain(p),
        _ => false,
    })
    &&& (match plookup(props, "shader"@) {
        Some(p) => is_parent_ref(p, "shader"@),
        _ => false,
    })
    &&& (match plookup(props, "uniforms"@) {
        Some(p) => is_parent_ref(p, "uniforms"@),
        _ => false,
    })
    &&& (match plookup(props, "alpha"@) {
        Some(p) => is_parent_ref(p, "alpha"@),
        _ => false,
    })
}

/// Node entities carry no animation binding: those keys live only on the
/// asset's top-level entity, once per asset.
pub open spec fn no_anim_bindings(a: Asset3d, props: Seq<(String, Pon)>) -> bool {
    forall|an: int|
        0 <= an < a.scene.animations@.len() ==> plookup(
            props,
            anim_prop_key_spec((#[trigger] a.scene.animations@[an]).name@),
        ) is None
}

/// All properties of a mapped node's entity: the fixed set, plus a mesh
/// binding exactly when the node references meshes (the last reference
/// wins, as repeated writes overwrite), and nothing bound under any of the
/// asset's animation keys.
pub open spec fn node_props_ok(a: Asset3d, node: SceneNode, props: Seq<(String, Pon)>) -> bool {
    &&& fixed_props_ok(node, props)
    &&& no_anim_bindings(a, props)
    &&& (if node.mesh_indices@.len() > 0 {
        match plookup(props, "mesh"@) {
            Some(p) => is_resource_ref(
                p,
                "mesh_from_resource"@,
                mesh_key_spec(a.id@, node.mesh_indices@.last() as nat),
            ),
            _ => false,
        }
    } else {
        plookup(props, "mesh"@) is None
    })
}

/// The entity a mapped node becomes: named after the node, parented to the
/// walk's current parent, carrying [`node_props_ok`].
pub open spec fn node_entity_ok(a: Asset3d, node: SceneNode, e: Entity, parent: int) -> bool {
    &&& e.parent == Some(parent as usize)
    &&& e.kind@ == "Entity"@
    &&& (match e.name {
        Some(n) => n@ == node.name@,
        None => false,
    })
    &&& node_props_ok(a, node, e.props@)
}


/// The number of entities the subtree at `idx` emits: the node itself plus
/// its children's subtrees (ill-formed indices count as empty).
pub open spec fn node_size(nodes: Seq<SceneNode>, idx: int) -> int
    decreases nodes.len() - idx, 1int, 0int,
{
    if idx < 0 || idx >= nodes.len() {
        1
    } else {
        1 + forest_size(nodes, nodes[idx].children@, 0, idx)
    }
}

/// The number of entities the subtrees of `children[ci..]` emit.
pub open spec fn forest_size(nodes: Seq<SceneNode>, children: Seq<usize>, ci: int, lo: int) -> int
    decreases nodes.len() - lo, 0int, children.len() - ci,
{
    if ci < 0 || ci >= children.len() {
        0
    } else if children[ci] <= lo || children[ci] >= nodes.len() {
        0
    } else {
        node_size(nodes, children[ci] as int) + forest_size(nodes, children, ci + 1, lo)
    }
}

/// `ents` is exactly the depth-first, pre-order emission of the subtree at
/// `idx`: the node's own entity first (its id is `base`), then each child's
/// subtree in order.
pub open spec fn emits_node(
    a: Asset3d,
    nodes: Seq<SceneNode>,
    idx: int,
    parent: int,
    base: int,
    ents: Seq<Entity>,
) -> bool
    decreases nodes.len() - idx, 1int, 0int,
{
    if idx < 0 || idx >= nodes.len() {
        false
    } else {
        &&& ents.len() >= 1
        &&& ents.len() == node_size(nodes, idx)
        &&& node_entity_ok(a, nodes[idx], ents[0], parent)
        &&& emits_forest(a, nodes, nodes[idx].children@, 0, idx, base, base + 1, ents.skip(1))
    }
}

/// `ents` is the concatenated emission of the subtrees of
/// `children[ci..]`, all parented to the entity `parent`, ids starting at
/// `base`; `lo` bounds the child indices from below (children always point
/// forward), which is what makes the walk well founded.
pub open spec fn emits_forest(
    a: Asset3d,
    nodes: Seq<SceneNode>,
    children: Seq<usize>,
    ci: int,
    lo: int,
    parent: int,
    base: int,
    ents: Seq<Entity>,
) -> bool
    decreases nodes.len() - lo, 0int, children.len() - ci,
{
    if ci == children.len() {
        ents.len() == 0
    } else if ci < 0 || ci > children.len() {
        false
    } else if children[ci] <= lo || children[ci] >= nodes.len() {
        false
    } else {
        let m = node_size(nodes, children[ci] as int);
        &&& m <= ents.len()
        &&& emits_node(a, nodes, children[ci] as int, parent, base, ents.take(m))
        &&& emits_forest(a, nodes, children, ci + 1, lo, parent, base + m, ents.skip(m))
    }
}


/// Prepending one child subtree's emission to the emission of the later
/// children yields the emission of the whole remaining forest.
proof fn lemma_forest_cons(
    a: Asset3d,
    nodes: Seq<SceneNode>,
    children: Seq<usize>,
    ci: int,
    lo: int,
    parent: int,
    base: int,
    head: Seq<Entity>,
    tail: Seq<Entity>,
)
    requires
        0 <= ci < children.len(),
        lo < children[ci] < nodes.len(),
        emits_node(a, nodes, children[ci] as int, parent, base, head),
        emits_forest(a, nodes, children, ci + 1, lo, parent, base + head.len(), tail),
    ensures
        emits_forest(a, nodes, children, ci, lo, parent, base, head + tail),
{
    let ents = head + tail;
    let m = node_size(nodes, children[ci] as int);
    assert(head.len() == m);
    assert(ents.take(m) =~= head);
    assert(ents.skip(m) =~= tail);
    assert(emits_node(a, nodes, children[ci] as int, parent, base, ents.take(m)));
    assert(emits_forest(a, nodes, children, ci + 1, lo, parent, base + m, ents.skip(m)));
}

impl Asset3d {
    /// Maps the subtree rooted at `node_idx` onto the document, depth
    /// first, parenting the root of the subtree to `parent_id`.
    fn append_node_to_entity(&self, doc: &mut Document, node_idx: usize, parent_id: usize)
        requires
            self.valid(),
            node_idx < self.scene.nodes@.len(),
            parent_id < old(doc).entities@.len(),
        ensures
            final(doc).resources == old(doc).resources,
            final(doc).entities@.len() > old(doc).entities@.len(),
            forall|i: int|
                0 <= i < old(doc).entities@.len() ==> final(doc).entities@[i] == old(
                    doc,
                ).entities@[i],
            emits_node(
                *self,
                self.scene.nodes@,
                node_idx as int,
                parent_id as int,
                old(doc).entities@.len() as int,
                final(doc).entities@.skip(old(doc).entities@.len() as int),
            ),
        decreases self.scene.nodes@.len() - node_idx,
    {
        let node = &self.scene.nodes[node_idx];
        let entity_id = doc.append_entity(Some(parent_id), "Entity", Some(node.name.clone()));
        let ghost p0 = doc.entities@[entity_id as int].props@;
        doc.set_property(entity_id, "diffuse", parent_ref("diffuse"));
        let ghost p1 = doc.entities@[entity_id as int].props@;
        doc.set_property(entity_id, "translation", Pon::Vector3(V3 { x: 0, y: 0, z: 0 }));
        let ghost p2 = doc.entities@[entity_id as int].props@;
        doc.set_property(entity_id, "rotation", Pon::Vector4(V4 { x: 0, y: 0, z: 0, w: UNIT }));
        let ghost p3 = doc.entities@[entity_id as int].props@;
        doc.set_property(entity_id, "scale", Pon::Vector3(V3 { x: UNIT, y: UNIT, z: UNIT }));
        let ghost p4 = doc.entities@[entity_id as int].props@;
        doc.set_property(entity_id, "local_transform", Pon::Matrix4(node.local_transform));
        let ghost p5 = doc.entities@[entity_id as int].props@;
        doc.set_property(entity_id, "transform", transform_chain());
        let ghost p6 = doc.entities@[entity_id as int].props@;
        doc.set_property(entity_id, "shader", parent_ref("shader"));
        let ghost p7 = doc.entities@[entity_id as int].props@;
        doc.set_property(entity_id, "uniforms", parent_ref("uniforms"));
        let ghost p8 = doc.entities@[entity_id as int].props@;
        doc.set_property(entity_id, "alpha", parent_ref("alpha"));
        let ghost p9 = doc.entities@[entity_id as int].props@;
        proof {
            lemma_prop_keys_distinct();
            assert(p9.drop_first() == p8);
            assert(p8.drop_first() == p7);
            assert(p7.drop_first() == p6);
            assert(p6.drop_first() == p5);
            assert(p5.drop_first() == p4);
            assert(p4.drop_first() == p3);
            assert(p3.drop_first() == p2);
            assert(p2.drop_first() == p1);
            assert(p1.drop_first() == p0);
            assert(plookup(p9, "diffuse"@) == plookup(p8, "diffuse"@));
            assert(plookup(p8, "diffuse"@) == plookup(p7, "diffuse"@));
            assert(plookup(p7, "diffuse"@) == plookup(p6, "diffuse"@));
            assert(plookup(p6, "diffuse"@) == plookup(p5, "diffuse"@));
            assert(plookup(p5, "diffuse"@) == plookup(p4, "diffuse"@));
            assert(plookup(p4, "diffuse"@) == plookup(p3, "diffuse"@));
            assert(plookup(p3, "diffuse"@) == plookup(p2, "diffuse"@));
            assert(plookup(p2, "diffuse"@) == plookup(p1, "diffuse"@));
            assert(plookup(p9, "translation"@) == plookup(p8, "translation"@));
            assert(plookup(p8, "translation"@) == plookup(p7, "translation"@));
            assert(plookup(p7, "translation"@) == plookup(p6, "translation"@));
            assert(plookup(p6, "translation"@) == plookup(p5, "translation"@));
            assert(plookup(p5, "translation"@) == plookup(p4, "translation"@));
            assert(plookup(p4, "translation"@) == plookup(p3, "translation"@));
            assert(plookup(p3, "translation"@) == plookup(p2, "translation"@));
            assert(plookup(p9, "rotation"@) == plookup(p8, "rotation"@));
            assert(plookup(p8, "rotation"@) == plookup(p7, "rotation"@));
            assert(plookup(p7, "rotation"@) == plookup(p6, "rotation"@));
            assert(plookup(p6, "rotation"@) == plookup(p5, "rotation"@));
            assert(plookup(p5, "rotation"@) == plookup(p4, "rotation"@));
            assert(plookup(p4, "rotation"@) == plookup(p3, "rotation"@));
            assert(plookup(p9, "scale"@) == plookup(p8, "scale"@));
            assert(plookup(p8, "scale"@) == plookup(p7, "scale"@));
            assert(plookup(p7, "scale"@) == plookup(p6, "scale"@));
            assert(plookup(p6, "scale"@) == plookup(p5, "scale"@));
            assert(plookup(p5, "scale"@) == plookup(p4, "scale"@));
            assert(plookup(p9, "local_transform"@) == plookup(p8, "local_transform"@));
            assert(plookup(p8, "local_transform"@) == plookup(p7, "local_transform"@));
            assert(plookup(p7, "local_transform"@) == plookup(p6, "local_transform"@));
            assert(plookup(p6, "local_transform"@) == plookup(p5, "local_transform"@));
            assert(plookup(p9, "transform"@) == plookup(p8, "transform"@));
            assert(plookup(p8, "transform"@) == plookup(p7, "transform"@));
            assert(plookup(p7, "transform"@) == plookup(p6, "transform"@));
            assert(plookup(p9, "shader"@) == plookup(p8, "shader"@));
            assert(plookup(p8, "shader"@) == plookup(p7, "shader"@));
            assert(plookup(p9, "uniforms"@) == plookup(p8, "uniforms"@));
            assert(plookup(p9, "mesh"@) == plookup(p8, "mesh"@));
            assert(plookup(p8, "mesh"@) == plookup(p7, "mesh"@));
            assert(plookup(p7, "mesh"@) == plookup(p6, "mesh"@));
            assert(plookup(p6, "mesh"@) == plookup(p5, "mesh"@));
            assert(plookup(p5, "mesh"@) == plookup(p4, "mesh"@));
            assert(plookup(p4, "mesh"@) == plookup(p3, "mesh"@));
            assert(plookup(p3, "mesh"@) == plookup(p2, "mesh"@));
            assert(plookup(p2, "mesh"@) == plookup(p1, "mesh"@));
            assert(plookup(p1, "mesh"@) == plookup(p0, "mesh"@));
            assert(plookup(p0, "mesh"@) is None);
            assert(fixed_props_ok(*node, p9));
            assert(plookup(p9, "mesh"@) is None);
            assert forall|an: int|
                0 <= an < self.scene.animations@.len() implies plookup(
                p9,
                anim_prop_key_spec((#[trigger] self.scene.animations@[an]).name@),
            ) is None by {
                let kk = anim_prop_key_spec(self.scene.animations@[an].name@);
                lemma_anim_prop_key_not_node_key(self.scene.animations@[an].name@);
                assert(plookup(p9, kk) == plookup(p8, kk));
                assert(plookup(p8, kk) == plookup(p7, kk));
                assert(plookup(p7, kk) == plookup(p6, kk));
                assert(plookup(p6, kk) == plookup(p5, kk));
                assert(plookup(p5, kk) == plookup(p4, kk));
                assert(plookup(p4, kk) == plookup(p3, kk));
                assert(plookup(p3, kk) == plookup(p2, kk));
                assert(plookup(p2, kk) == plookup(p1, kk));
                assert(plookup(p1, kk) == plookup(p0, kk));
                assert(plookup(p0, kk) is None);
            }
            assert(no_anim_bindings(*self, p9));
        }
        let mut mi: usize = 0;
        while mi < node.mesh_indices.len()
            invariant
                mi <= node.mesh_indices@.len(),
                self.valid(),
                node == &self.scene.nodes[node_idx as int],
                node_idx < self.scene.nodes@.len(),
                entity_id == old(doc).entities@.len(),
                doc.entities@.len() == old(doc).entities@.len() + 1,
                forall|i: int|
                    0 <= i < old(doc).entities@.len() ==> doc.entities@[i] == old(
                        doc,
                    ).entities@[i],
                doc.resources == old(doc).resources,
                doc.entities@[entity_id as int].parent == Some(parent_id),
                doc.entities@[entity_id as int].kind@ == "Entity"@,
                (match doc.entities@[entity_id as int].name {
                    Some(n) => n@ == node.name@,
                    None => false,
                }),
                fixed_props_ok(*node, doc.entities@[entity_id as int].props@),
                no_anim_bindings(*self, doc.entities@[entity_id as int].props@),
                (if mi > 0 {
                    match plookup(doc.entities@[entity_id as int].props@, "mesh"@) {
                        Some(p) => is_resource_ref(
                            p,
                            "mesh_from_resource"@,
                            mesh_key_spec(self.id@, node.mesh_indices@[mi - 1] as nat),
                        ),
                        _ => false,
                    }
                } else {
                    plookup(doc.entities@[entity_id as int].props@, "mesh"@) is None
                }),
            decreases node.mesh_indices@.len() - mi,
        {
            let key = mesh_key(self.id.as_str(), node.mesh_indices[mi]);
            let ghost qpre = doc.entities@[entity_id as int].props@;
            doc.set_property(entity_id, "mesh", resource_ref("mesh_from_resource", key));
            proof {
                lemma_prop_keys_distinct();
                let q1 = doc.entities@[entity_id as int].props@;
                assert(q1.drop_first() == qpre);
                assert(plookup(q1, "alpha"@) == plookup(qpre, "alpha"@));
                assert(plookup(q1, "uniforms"@) == plookup(qpre, "uniforms"@));
                assert(plookup(q1, "shader"@) == plookup(qpre, "shader"@));
                assert(plookup(q1, "transform"@) == plookup(qpre, "transform"@));
                assert(plookup(q1, "local_transform"@) == plookup(qpre, "local_transform"@));
                assert(plookup(q1, "scale"@) == plookup(qpre, "scale"@));
                assert(plookup(q1, "rotation"@) == plookup(qpre, "rotation"@));
                assert(plookup(q1, "translation"@) == plookup(qpre, "translation"@));
                assert(plookup(q1, "diffuse"@) == plookup(qpre, "diffuse"@));
                assert(fixed_props_ok(*node, q1));
                assert forall|an: int|
                    0 <= an < self.scene.animations@.len() implies plookup(
                    q1,
                    anim_prop_key_spec((#[trigger] self.scene.animations@[an]).name@),
                ) is None by {
                    let kk = anim_prop_key_spec(self.scene.animations@[an].name@);
                    lemma_anim_prop_key_not_node_key(self.scene.animations@[an].name@);
                    assert(plookup(q1, kk) == plookup(qpre, kk));
                    assert(plookup(qpre, kk) is None);
                }
                assert(no_anim_bindings(*self, q1));
                assert(match plookup(q1, "mesh"@) {
                    Some(p) => is_resource_ref(
                        p,
                        "mesh_from_resource"@,
                        mesh_key_spec(self.id@, node.mesh_indices@[mi as int] as nat),
                    ),
                    _ => false,
                });
            }
            mi = mi + 1;
        }
        proof {
            assert(node_props_ok(*self, *node, doc.entities@[entity_id as int].props@));
        }
        let ghost d1 = *doc;
        let mut ci: usize = 0;
        while ci < node.children.len()
            invariant
                ci <= node.children@.len(),
                self.valid(),
                node == &self.scene.nodes[node_idx as int],
                node_idx < self.scene.nodes@.len(),
                entity_id < d1.entities@.len(),
                d1.entities@.len() == old(doc).entities@.len() + 1,
                doc.entities@.len() >= d1.entities@.len(),
                forall|i: int|
                    0 <= i < d1.entities@.len() ==> doc.entities@[i] == d1.entities@[i],
                doc.resources == d1.resources,
                forest_size(self.scene.nodes@, node.children@, ci as int, node_idx as int) + (
                doc.entities@.len() - d1.entities@.len()) == forest_size(
                    self.scene.nodes@,
                    node.children@,
                    0,
                    node_idx as int,
                ),
                forall|rest: Seq<Entity>|
                    #[trigger] emits_forest(
                        *self,
                        self.scene.nodes@,
                        node.children@,
                        ci as int,
                        node_idx as int,
                        entity_id as int,
                        doc.entities@.len() as int,
                        rest,
                    ) ==> emits_forest(
                        *self,
                        self.scene.nodes@,
                        node.children@,
                        0,
                        node_idx as int,
                        entity_id as int,
                        d1.entities@.len() as int,
                        doc.entities@.skip(d1.entities@.len() as int) + rest,
                    ),
            decreases node.children@.len() - ci,
        {
            let child = node.children[ci];
            let ghost dpre = *doc;
            self.append_node_to_entity(doc, child, entity_id);
            proof {
                let nodes = self.scene.nodes@;
                let children = node.children@;
                let newents = doc.entities@.skip(dpre.entities@.len() as int);
                let appended_old = dpre.entities@.skip(d1.entities@.len() as int);
                let appended_new = doc.entities@.skip(d1.entities@.len() as int);
                assert(appended_new =~= appended_old + newents);
                assert(forest_size(nodes, children, ci as int, node_idx as int) == node_size(
                    nodes,
                    children[ci as int] as int,
                ) + forest_size(nodes, children, ci as int + 1, node_idx as int)) by {
                    assert(node_idx < children[ci as int] < nodes.len());
                }
                assert(emits_node(
                    *self,
                    nodes,
                    child as int,
                    entity_id as int,
                    dpre.entities@.len() as int,
                    newents,
                ));
                assert forall|rest: Seq<Entity>|
                    #[trigger] emits_forest(
                        *self,
                        nodes,
                        children,
                        ci + 1,
                        node_idx as int,
                        entity_id as int,
                        doc.entities@.len() as int,
                        rest,
                    ) implies emits_forest(
                    *self,
                    nodes,
                    children,
                    0,
                    node_idx as int,
                    entity_id as int,
                    d1.entities@.len() as int,
                    appended_new + rest,
                ) by {
                    assert(node_idx < children[ci as int] < nodes.len());
                    let combined = newents + rest;
                    let b = dpre.entities@.len() as int;
                    assert(b + newents.len() == doc.entities@.len() as int);
                    lemma_forest_cons(
                        *self,
                        nodes,
                        children,
                        ci as int,
                        node_idx as int,
                        entity_id as int,
                        b,
                        newents,
                        rest,
                    );
                    assert(appended_old + combined =~= appended_new + rest);
                }
            }
            ci = ci + 1;
        }
        proof {
            let nodes = self.scene.nodes@;
            let appended = doc.entities@.skip(d1.entities@.len() as int);
            let empty: Seq<Entity> = Seq::empty();
            assert(emits_forest(
                *self,
                nodes,
                node.children@,
                node.children@.len() as int,
                node_idx as int,
                entity_id as int,
                doc.entities@.len() as int,
                empty,
            ));
            assert(emits_forest(
                *self,
                nodes,
                node.children@,
                0,
                node_idx as int,
                entity_id as int,
                d1.entities@.len() as int,
                appended + empty,
            ));
            assert(appended + empty =~= appended);
            assert(forest_size(nodes, node.children@, node.children@.len() as int, node_idx as int)
                == 0);
            assert(appended.len() == forest_size(nodes, node.children@, 0, node_idx as int));
            let ents = doc.entities@.skip(old(doc).entities@.len() as int);
            assert(ents[0] == doc.entities@[entity_id as int]);
            assert(ents.skip(1) =~= appended);
            assert(ents.len() == 1 + appended.len());
            assert(node_size(nodes, node_idx as int) == 1 + forest_size(
                nodes,
                nodes[node_idx as int].children@,
                0,
                node_idx as int,
            ));
            assert(node_entity_ok(*self, nodes[node_idx as int], ents[0], parent_id as int));
        }
    }
}


/// The top-level entity of an asset binds every named animation:
/// `animation_<name>` resolves to the baked track set registered under the
/// asset's animation key; every other property is untouched.
pub open spec fn anim_props_ok(a: Asset3d, newp: Seq<(String, Pon)>, oldp: Seq<(String, Pon)>) -> bool {
    &&& forall|an: int|
        0 <= an < a.scene.animations@.len() ==> (match plookup(
            newp,
            anim_prop_key_spec((#[trigger] a.scene.animations@[an]).name@),
        ) {
            Some(p) => is_resource_ref(
                p,
                "track_set_from_resource"@,
                anim_key_spec(a.id@, a.scene.animations@[an].name@),
            ),
            _ => false,
        })
    &&& forall|k2: Seq<char>|
        !(exists|ai: int|
            0 <= ai < a.scene.animations@.len() && k2 == #[trigger] anim_prop_key_spec(
                a.scene.animations@[ai].name@,
            )) ==> plookup(newp, k2) == plookup(oldp, k2)
}

/// What mapping asset `a` onto document `d0` yields (`d1`): under an
/// existing parent, that entity gains the animation bindings and the
/// scene's node tree is appended beneath it; with no parent, a fresh
/// synthetic root is created first. Resources are untouched.
pub open spec fn scene_appended(a: Asset3d, d0: Document, d1: Document, parent: Option<usize>) -> bool {
    &&& d1.resources == d0.resources
    &&& (match parent {
        Some(p) => {
            &&& p < d0.entities@.len()
            &&& d1.entities@.len() > d0.entities@.len()
            &&& forall|i: int|
                0 <= i < d0.entities@.len() && i != p ==> d1.entities@[i] == d0.entities@[i]
            &&& d1.entities@[p as int].parent == d0.entities@[p as int].parent
            &&& d1.entities@[p as int].kind == d0.entities@[p as int].kind
            &&& d1.entities@[p as int].name == d0.entities@[p as int].name
            &&& anim_props_ok(a, d1.entities@[p as int].props@, d0.entities@[p as int].props@)
            &&& emits_node(
                a,
                a.scene.nodes@,
                0,
                p as int,
                d0.entities@.len() as int,
                d1.entities@.skip(d0.entities@.len() as int),
            )
        },
        None => {
            &&& d1.entities@.len() > d0.entities@.len() + 1
            &&& forall|i: int|
                0 <= i < d0.entities@.len() ==> d1.entities@[i] == d0.entities@[i]
            &&& d1.entities@[d0.entities@.len() as int].parent is None
            &&& d1.entities@[d0.entities@.len() as int].kind@ == "RootEntity"@
            &&& d1.entities@[d0.entities@.len() as int].name is None
            &&& anim_props_ok(
                a,
                d1.entities@[d0.entities@.len() as int].props@,
                Seq::<(String, Pon)>::empty(),
            )
            &&& emits_node(
                a,
                a.scene.nodes@,
                0,
                d0.entities@.len() as int,
                d0.entities@.len() as int + 1,
                d1.entities@.skip(d0.entities@.len() as int + 1),
            )
        },
    })
}

impl Asset3d {
    /// Maps this asset's scene onto the document: animation bindings on the
    /// top-level entity (an existing parent, or a fresh synthetic root),
    /// then the node tree, depth first.
    pub fn append_to_document(&self, doc: &mut Document, parent_id: Option<usize>)
        requires
            self.valid(),
            (match parent_id {
                Some(p) => p < old(doc).entities@.len(),
                None => true,
            }),
        ensures
            scene_appended(*self, *old(doc), *final(doc), parent_id),
    {
        let root: usize = match parent_id {
            Some(p) => p,
            None => doc.append_entity(None, "RootEntity", None),
        };
        let ghost dstart = *doc;
        let n_anims = self.scene.animations.len();
        let mut an: usize = 0;
        while an < n_anims
            invariant
                an <= n_anims,
                n_anims == self.scene.animations@.len(),
                self.valid(),
                root < dstart.entities@.len(),
                doc.entities@.len() == dstart.entities@.len(),
                forall|i: int|
                    0 <= i < dstart.entities@.len() && i != root ==> doc.entities@[i]
                        == dstart.entities@[i],
                doc.entities@[root as int].parent == dstart.entities@[root as int].parent,
                doc.entities@[root as int].kind == dstart.entities@[root as int].kind,
                doc.entities@[root as int].name == dstart.entities@[root as int].name,
                doc.resources == dstart.resources,
                forall|k: int|
                    0 <= k < an ==> (match plookup(
                        doc.entities@[root as int].props@,
                        anim_prop_key_spec((#[trigger] self.scene.animations@[k]).name@),
                    ) {
                        Some(p) => is_resource_ref(
                            p,
                            "track_set_from_resource"@,
                            anim_key_spec(self.id@, self.scene.animations@[k].name@),
                        ),
                        _ => false,
                    }),
                forall|k2: Seq<char>|
                    !(exists|ai: int|
                        0 <= ai < an && k2 == #[trigger] anim_prop_key_spec(
                            self.scene.animations@[ai].name@,
                        )) ==> plookup(doc.entities@[root as int].props@, k2) == plookup(
                        dstart.entities@[root as int].props@,
                        k2,
                    ),
            decreases n_anims - an,
        {
            let name = &self.scene.animations[an].name;
            let pk = anim_prop_key(name.as_str());
            let binding = resource_ref(
                "track_set_from_resource",
                anim_key(self.id.as_str(), name.as_str()),
            );
            let ghost qpre = doc.entities@[root as int].props@;
            doc.set_property(root, pk.as_str(), binding);
            proof {
                let q1 = doc.entities@[root as int].props@;
                assert(q1.drop_first() == qpre);
                let this_key = anim_prop_key_spec(self.scene.animations@[an as int].name@);
                assert(q1[0].0@ == this_key);
                assert forall|k: int|
                    0 <= k < an implies (match plookup(
                    q1,
                    anim_prop_key_spec((#[trigger] self.scene.animations@[k]).name@),
                ) {
                    Some(p) => is_resource_ref(
                        p,
                        "track_set_from_resource"@,
                        anim_key_spec(self.id@, self.scene.animations@[k].name@),
                    ),
                    _ => false,
                }) by {
                    lemma_anim_prop_keys_distinct(
                        self.scene.animations@[k].name@,
                        self.scene.animations@[an as int].name@,
                    );
                    assert(plookup(q1, anim_prop_key_spec(self.scene.animations@[k].name@))
                        == plookup(qpre, anim_prop_key_spec(self.scene.animations@[k].name@)));
                }
                assert forall|k2: Seq<char>|
                    !(exists|ai: int|
                        0 <= ai < an + 1 && k2 == #[trigger] anim_prop_key_spec(
                            self.scene.animations@[ai].name@,
                        )) implies plookup(q1, k2) == plookup(
                    dstart.entities@[root as int].props@,
                    k2,
                ) by {
                    assert(k2 != this_key);
                    assert(plookup(q1, k2) == plookup(qpre, k2));
                }
            }
            an = an + 1;
        }
        let ghost dmid = *doc;
        self.append_node_to_entity(doc, 0, root);
        proof {
            let d0 = *old(doc);
            assert(doc.entities@[root as int] == dmid.entities@[root as int]);
            assert(anim_props_ok(
                *self,
                doc.entities@[root as int].props@,
                dstart.entities@[root as int].props@,
            ));
            match parent_id {
                Some(p) => {
                    assert(dstart == d0);
                    assert(emits_node(
                        *self,
                        self.scene.nodes@,
                        0,
                        p as int,
                        d0.entities@.len() as int,
                        doc.entities@.skip(d0.entities@.len() as int),
                    ));
                },
                None => {
                    assert(root == d0.entities@.len());
                    assert(dstart.entities@[root as int].props@
                        =~= Seq::<(String, Pon)>::empty());
                    assert(emits_node(
                        *self,
                        self.scene.nodes@,
                        0,
                        root as int,
                        d0.entities@.len() as int + 1,
                        doc.entities@.skip(d0.entities@.len() as int + 1),
                    ));
                },
            }
        }
    }
}

} // verus!
