use subdoc3d::asset::{Asset3d, MeshError};
use subdoc3d::curve::{AnimChannel, Animation, Key3, Key4, LoopMode, CurveTime, track_set_from_animation};
use subdoc3d::doc3d::{Document, Resource};
use subdoc3d::keys::{anim_key, anim_prop_key, mesh_key, path_is_x_format, u64_to_dec};
use subdoc3d::pon::{EntityPath, Pon, V2, V3, V4, m4_identity, parent_ref, resource_ref, transform_chain};
use subdoc3d::scene::{SceneGraph, SceneMesh, SceneNode, Tri};
use subdoc3d::system::{ImportError, LoadState, PropRef, RequestOutcome, ResolveOutcome, SubdocSubSystem};
use subdoc3d::UNIT;

fn v3(x: i64, y: i64, z: i64) -> V3 {
    V3 { x, y, z }
}

fn simple_mesh() -> SceneMesh {
    SceneMesh {
        positions: vec![v3(1000, 0, 0), v3(0, 1000, 0), v3(0, 0, 1000)],
        texcoords: Some(vec![
            V2 { x: 0, y: 0 },
            V2 { x: 1000, y: 0 },
            V2 { x: 0, y: 250 },
        ]),
        normals: Some(vec![v3(0, 0, 1000), v3(0, 0, 1000), v3(0, 0, 1000)]),
        faces: vec![Tri { a: 0, b: 1, c: 2 }],
    }
}

fn walk_animation() -> Animation {
    Animation {
        name: String::from("walk"),
        duration_ticks: 2,
        ticks_per_second: 1,
        channels: vec![AnimChannel {
            target_node: String::from("B"),
            position_keys: vec![
                Key3 { time_ticks: 0, value: v3(0, 0, 0) },
                Key3 { time_ticks: 2, value: v3(2000, 0, 0) },
            ],
            rotation_keys: vec![],
            scaling_keys: vec![
                Key3 { time_ticks: 0, value: v3(1000, 1000, 1000) },
                Key3 { time_ticks: 2, value: v3(3000, 1000, 1000) },
            ],
        }],
    }
}

/// A two-node scene: A (root) with child B; B references mesh 0.
fn two_node_scene() -> SceneGraph {
    SceneGraph {
        nodes: vec![
            SceneNode {
                name: String::from("A"),
                local_transform: m4_identity(),
                mesh_indices: vec![],
                children: vec![1],
            },
            SceneNode {
                name: String::from("B"),
                local_transform: m4_identity(),
                mesh_indices: vec![0],
                children: vec![],
            },
        ],
        meshes: vec![simple_mesh()],
        animations: vec![walk_animation()],
    }
}

#[test]
fn decimal_rendering() {
    assert_eq!(u64_to_dec(0).as_str(), "0");
    assert_eq!(u64_to_dec(7).as_str(), "7");
    assert_eq!(u64_to_dec(1234).as_str(), "1234");
    assert_eq!(u64_to_dec(1000000).as_str(), "1000000");
}

#[test]
fn resource_keys() {
    assert_eq!(mesh_key("palm.x", 0).as_str(), "palm.x.meshes.0");
    assert_eq!(mesh_key("palm.x", 12).as_str(), "palm.x.meshes.12");
    assert_eq!(anim_key("palm.x", "walk").as_str(), "palm.x.animations.walk");
    assert_eq!(anim_prop_key("walk").as_str(), "animation_walk");
}

#[test]
fn x_format_detection() {
    assert!(path_is_x_format("tree.x"));
    assert!(path_is_x_format("assets/Palmtree1.x"));
    assert!(!path_is_x_format("tree.obj"));
    assert!(!path_is_x_format("x"));
    assert!(!path_is_x_format(""));
}

#[test]
fn mesh_extraction_layout() {
    let scene = two_node_scene();
    let asset = Asset3d::new(String::from("id"), scene, false);
    let vb = asset.mesh_from_scene_mesh(&simple_mesh()).unwrap();
    assert_eq!(vb.vertex_data.len(), 24);
    // vertex 1: position (0,1000,0), texcoord (1000,0), normal (0,0,1000)
    assert_eq!(&vb.vertex_data[8..16], &[0, 1000, 0, 1000, 0, 0, 0, 1000]);
    assert_eq!(vb.element_data, vec![0, 1, 2]);
}

#[test]
fn mesh_extraction_inverts_v_for_x_format() {
    let scene = two_node_scene();
    let asset = Asset3d::new(String::from("id.x"), scene, true);
    let vb = asset.mesh_from_scene_mesh(&simple_mesh()).unwrap();
    // vertex 2 texcoord y was 250; inverted about 1.0 it is 750.
    assert_eq!(vb.vertex_data[16 + 4], UNIT - 250);
    // vertex 0 texcoord y was 0; inverted it is exactly 1.0.
    assert_eq!(vb.vertex_data[4], UNIT);
}

#[test]
fn mesh_extraction_errors() {
    let scene = two_node_scene();
    let asset = Asset3d::new(String::from("id"), scene, false);
    let mut m = simple_mesh();
    m.texcoords = None;
    assert_eq!(asset.mesh_from_scene_mesh(&m).unwrap_err(), MeshError::MissingTexcoords);
    let mut m = simple_mesh();
    m.normals = None;
    assert_eq!(asset.mesh_from_scene_mesh(&m).unwrap_err(), MeshError::MissingNormals);
    let mut m = simple_mesh();
    m.normals = Some(vec![v3(0, 0, 1000)]);
    assert_eq!(
        asset.mesh_from_scene_mesh(&m).unwrap_err(),
        MeshError::AttributeCountMismatch
    );
}

#[test]
fn baked_curve_has_sixty_hertz_samples() {
    // Duration 2 s at 60 Hz: round(2 * 60) == 120 samples over [0, 2 s].
    let ts = track_set_from_animation(&walk_animation());
    assert_eq!(ts.tracks.len(), 3);
    let t = &ts.tracks[0];
    assert_eq!(t.curve.samples.len(), 120);
    assert_eq!(t.duration_ms, 2000);
    assert_eq!(t.curve.duration_ms, 2000);
    assert_eq!(t.loop_mode, LoopMode::Forever);
    assert_eq!(t.curve_time, CurveTime::Absolute);
    assert_eq!(t.offset_ms, 0);
    // First sample is the first key, last sample the last key.
    assert_eq!(t.curve.samples[0], vec![0, 0, 0]);
    assert_eq!(t.curve.samples[119], vec![2000, 0, 0]);
    // Sample 17 sits at 2_000_000 * 17 / 119 = 285714 microseconds, and the
    // linear interpolation of 0..2000 over [0, 2_000_000] there is 285.
    assert_eq!(t.curve.samples[17], vec![285, 0, 0]);
}

#[test]
fn baked_track_targets_and_fallbacks() {
    let ts = track_set_from_animation(&walk_animation());
    // Rotation channel has no keys: every sample holds the identity
    // quaternion in (w, x, y, z) order.
    let r = &ts.tracks[1];
    assert_eq!(r.curve.samples.len(), 120);
    for s in &r.curve.samples {
        assert_eq!(s, &vec![UNIT, 0, 0, 0]);
    }
    // Track targets search for the channel's node from the owning entity.
    match &ts.tracks[2].property.entity_path {
        EntityPath::Search(base, name) => {
            assert!(matches!(**base, EntityPath::This));
            assert_eq!(name.as_str(), "B");
        }
        _ => panic!("expected a search path"),
    }
    assert_eq!(ts.tracks[0].property.property_key.as_str(), "translation");
    assert_eq!(ts.tracks[1].property.property_key.as_str(), "rotation");
    assert_eq!(ts.tracks[2].property.property_key.as_str(), "scale");
}

#[test]
fn document_properties_overwrite() {
    let mut doc = Document::new();
    let e = doc.append_entity(None, "Entity", Some(String::from("n")));
    doc.set_property(e, "k", Pon::Str(String::from("a")));
    doc.set_property(e, "k", Pon::Str(String::from("b")));
    assert_eq!(doc.get_property(e, "k"), Some(&Pon::Str(String::from("b"))));
    assert_eq!(doc.get_property(e, "missing"), None);
}

#[test]
fn entity_lookup_by_name_is_first_match() {
    let mut doc = Document::new();
    let a = doc.append_entity(None, "Entity", Some(String::from("n")));
    let _b = doc.append_entity(None, "Entity", Some(String::from("n")));
    assert_eq!(doc.get_entity_by_name("n"), Some(a));
    assert_eq!(doc.get_entity_by_name("zzz"), None);
}

#[test]
fn resources_registered_per_mesh_and_animation() {
    // An asset with 2 meshes and 1 animation registers exactly 3 resources,
    // under "<id>.meshes.<i>" and "<id>.animations.<name>".
    let mut scene = two_node_scene();
    scene.meshes.push(simple_mesh());
    let asset = Asset3d::new(String::from("palm.x"), scene, false);
    let mut doc = Document::new();
    asset.add_resources_to_document(&mut doc).unwrap();
    assert_eq!(doc.resources.len(), 3);
    assert!(matches!(doc.get_resource("palm.x.meshes.0"), Some(Resource::Mesh(_))));
    assert!(matches!(doc.get_resource("palm.x.meshes.1"), Some(Resource::Mesh(_))));
    assert!(matches!(
        doc.get_resource("palm.x.animations.walk"),
        Some(Resource::Animation(_))
    ));
    assert!(doc.get_resource("palm.x.meshes.2").is_none());
}

#[test]
fn failed_mesh_fails_whole_asset() {
    let mut scene = two_node_scene();
    let mut bad = simple_mesh();
    bad.texcoords = None;
    scene.meshes.push(bad);
    let asset = Asset3d::new(String::from("id"), scene, false);
    let mut doc = Document::new();
    assert_eq!(
        asset.add_resources_to_document(&mut doc).unwrap_err(),
        MeshError::MissingTexcoords
    );
    // All or nothing: the extractable first mesh was not registered either.
    assert_eq!(doc.resources.len(), 0);
}

#[test]
fn scene_mapping_emits_hierarchy() {
    // A (root) -> B (child); B references mesh 0; animation "walk".
    let asset = Asset3d::new(String::from("id"), two_node_scene(), false);
    let mut doc = Document::new();
    asset.add_resources_to_document(&mut doc).unwrap();
    asset.append_to_document(&mut doc, None);
    let root = doc.get_entity_by_name("A").is_some();
    assert!(root);
    let a = doc.get_entity_by_name("A").unwrap();
    let b = doc.get_entity_by_name("B").unwrap();
    // The synthetic root is entity 0; A under it; B under A.
    assert_eq!(doc.entities[0].kind.as_str(), "RootEntity");
    assert_eq!(doc.entities[a].parent, Some(0));
    assert_eq!(doc.entities[b].parent, Some(a));
    // A references no mesh; B's mesh binding resolves to "id.meshes.0".
    assert_eq!(doc.get_property(a, "mesh"), None);
    assert_eq!(
        doc.get_property(b, "mesh"),
        Some(&resource_ref("mesh_from_resource", mesh_key("id", 0)))
    );
    // The animation binding sits once on the top-level entity.
    assert_eq!(
        doc.get_property(0, "animation_walk"),
        Some(&resource_ref("track_set_from_resource", anim_key("id", "walk")))
    );
    assert_eq!(doc.get_property(a, "animation_walk"), None);
    // B's transform is the lazy composition chain over identity components.
    assert_eq!(doc.get_property(b, "transform"), Some(&transform_chain()));
    assert_eq!(doc.get_property(b, "translation"), Some(&Pon::Vector3(v3(0, 0, 0))));
    assert_eq!(
        doc.get_property(b, "rotation"),
        Some(&Pon::Vector4(V4 { x: 0, y: 0, z: 0, w: UNIT }))
    );
    assert_eq!(
        doc.get_property(b, "scale"),
        Some(&Pon::Vector3(v3(UNIT, UNIT, UNIT)))
    );
    assert_eq!(
        doc.get_property(b, "local_transform"),
        Some(&Pon::Matrix4(m4_identity()))
    );
    assert_eq!(doc.get_property(b, "diffuse"), Some(&parent_ref("diffuse")));
    assert_eq!(doc.get_property(b, "shader"), Some(&parent_ref("shader")));
}

#[test]
fn concurrent_requests_trigger_one_import() {
    // P-style scenario: E1, E2 both ask for "tree.x" before it resolves;
    // only one import is dispatched, and after resolution plus one tick
    // both end up with equivalent bindings.
    let mut doc = Document::new();
    let e1 = doc.append_entity(None, "Entity", None);
    let e2 = doc.append_entity(None, "Entity", None);
    let mut sys = SubdocSubSystem::new(String::from("root"));
    let o1 = sys.on_load_request(&mut doc, e1, "tree.x");
    assert_eq!(o1, RequestOutcome::Dispatched);
    let o2 = sys.on_load_request(&mut doc, e2, "tree.x");
    assert_eq!(o2, RequestOutcome::Enqueued);
    assert_eq!(sys.assets.len(), 1);
    let r = sys.resolve_import(&mut doc, "tree.x", Ok(two_node_scene()));
    assert_eq!(r, ResolveOutcome::Resolved);
    sys.update(&mut doc);
    // Both requesters carry the marker and the animation binding.
    let expect = resource_ref("track_set_from_resource", anim_key("tree.x", "walk"));
    assert_eq!(doc.get_property(e1, "animation_walk"), Some(&expect));
    assert_eq!(doc.get_property(e2, "animation_walk"), Some(&expect));
    assert_eq!(
        doc.get_property(e1, "subdoc_loaded"),
        Some(&Pon::Str(String::from("tree.x")))
    );
    // Two copies of the hierarchy were instantiated, one per requester.
    let named_b: Vec<usize> = (0..doc.entities.len())
        .filter(|i| doc.entities[*i].name.as_deref() == Some("B"))
        .collect();
    assert_eq!(named_b.len(), 2);
    assert_eq!(
        doc.get_property(named_b[0], "mesh"),
        doc.get_property(named_b[1], "mesh")
    );
}

#[test]
fn marked_entity_rejects_second_load() {
    // An entity that already loaded an asset rejects a new distinct request
    // and keeps its bindings unchanged.
    let mut doc = Document::new();
    let e1 = doc.append_entity(None, "Entity", None);
    let mut sys = SubdocSubSystem::new(String::from("root"));
    assert_eq!(sys.on_load_request(&mut doc, e1, "tree.x"), RequestOutcome::Dispatched);
    sys.resolve_import(&mut doc, "tree.x", Ok(two_node_scene()));
    sys.update(&mut doc);
    let expect = resource_ref("track_set_from_resource", anim_key("tree.x", "walk"));
    assert_eq!(doc.get_property(e1, "animation_walk"), Some(&expect));
    let n_entities = doc.entities.len();
    assert_eq!(sys.on_load_request(&mut doc, e1, "other.x"), RequestOutcome::Rejected);
    assert_eq!(sys.assets.len(), 1);
    assert_eq!(doc.entities.len(), n_entities);
    assert_eq!(doc.get_property(e1, "animation_walk"), Some(&expect));
    assert_eq!(
        doc.get_property(e1, "subdoc_loaded"),
        Some(&Pon::Str(String::from("tree.x")))
    );
}

#[test]
fn loaded_asset_applies_immediately() {
    let mut doc = Document::new();
    let e1 = doc.append_entity(None, "Entity", None);
    let e2 = doc.append_entity(None, "Entity", None);
    let mut sys = SubdocSubSystem::new(String::from("root"));
    sys.on_load_request(&mut doc, e1, "tree.x");
    sys.resolve_import(&mut doc, "tree.x", Ok(two_node_scene()));
    sys.update(&mut doc);
    let before = doc.resources.len();
    // A later request for the same key does no new import work.
    assert_eq!(sys.on_load_request(&mut doc, e2, "tree.x"), RequestOutcome::AppliedNow);
    assert_eq!(sys.assets.len(), 1);
    assert_eq!(doc.resources.len(), before);
    assert!(doc.get_property(e2, "animation_walk").is_some());
}

#[test]
fn import_error_leaves_no_trace() {
    // A nonexistent path: the import fails, no entities or resources are
    // created, the cache entry is Failed (never Loaded), and the load is
    // not retried.
    let mut doc = Document::new();
    let e1 = doc.append_entity(None, "Entity", None);
    let e2 = doc.append_entity(None, "Entity", None);
    let mut sys = SubdocSubSystem::new(String::from("root"));
    assert_eq!(sys.on_load_request(&mut doc, e1, "missing.x"), RequestOutcome::Dispatched);
    let r = sys.resolve_import(&mut doc, "missing.x", Err(ImportError::UnreadablePath));
    assert_eq!(r, ResolveOutcome::ResolvedFailed);
    assert_eq!(doc.resources.len(), 0);
    assert_eq!(doc.entities.len(), 2);
    assert!(matches!(sys.assets[0].state, LoadState::Failed));
    sys.update(&mut doc);
    assert_eq!(doc.entities.len(), 2);
    assert_eq!(sys.on_load_request(&mut doc, e2, "missing.x"), RequestOutcome::KnownFailed);
    assert_eq!(sys.assets.len(), 1);
}

#[test]
fn rejected_mesh_fails_resolution() {
    let mut doc = Document::new();
    let e1 = doc.append_entity(None, "Entity", None);
    let mut sys = SubdocSubSystem::new(String::from("root"));
    sys.on_load_request(&mut doc, e1, "bad.x");
    let mut scene = two_node_scene();
    scene.meshes[0].normals = None;
    let r = sys.resolve_import(&mut doc, "bad.x", Ok(scene));
    assert_eq!(r, ResolveOutcome::ResolvedFailed);
    assert_eq!(doc.resources.len(), 0);
    assert!(matches!(sys.assets[0].state, LoadState::Failed));
}

#[test]
fn change_notification_drives_requests() {
    let mut doc = Document::new();
    let e1 = doc.append_entity(None, "Entity", None);
    doc.set_property(e1, "subdoc", Pon::Str(String::from("tree.x")));
    let mut sys = SubdocSubSystem::new(String::from("root"));
    let refs = vec![
        PropRef { entity_id: e1, property_key: String::from("subdoc") },
        PropRef { entity_id: e1, property_key: String::from("unrelated") },
    ];
    let outcomes = sys.on_property_value_change(&mut doc, &refs);
    assert_eq!(outcomes, vec![Some(RequestOutcome::Dispatched), None]);
    assert_eq!(sys.assets.len(), 1);
    assert_eq!(sys.assets[0].key.as_str(), "tree.x");
    assert!(matches!(sys.assets[0].state, LoadState::Loading));
    assert!(doc.get_property(e1, "subdoc_loaded").is_some());
}

#[test]
fn notification_batch_dedups_and_rejects() {
    // Two "subdoc" changes for the same path through the notification
    // entry point: one dispatch, one enqueue, a single cache entry; a
    // later distinct request on a marked entity is rejected unchanged, and
    // references with other keys do nothing.
    let mut doc = Document::new();
    let e1 = doc.append_entity(None, "Entity", None);
    let e2 = doc.append_entity(None, "Entity", None);
    doc.set_property(e1, "subdoc", Pon::Str(String::from("tree.x")));
    doc.set_property(e2, "subdoc", Pon::Str(String::from("tree.x")));
    let mut sys = SubdocSubSystem::new(String::from("root"));
    let refs = vec![
        PropRef { entity_id: e1, property_key: String::from("subdoc") },
        PropRef { entity_id: e2, property_key: String::from("subdoc") },
    ];
    let outcomes = sys.on_property_value_change(&mut doc, &refs);
    assert_eq!(
        outcomes,
        vec![Some(RequestOutcome::Dispatched), Some(RequestOutcome::Enqueued)]
    );
    assert_eq!(sys.assets.len(), 1);
    sys.resolve_import(&mut doc, "tree.x", Ok(two_node_scene()));
    sys.update(&mut doc);
    // A distinct request on the now-marked entity, plus an unrelated key.
    doc.set_property(e1, "subdoc", Pon::Str(String::from("other.x")));
    let n_entities = doc.entities.len();
    let n_resources = doc.resources.len();
    let refs2 = vec![
        PropRef { entity_id: e1, property_key: String::from("subdoc") },
        PropRef { entity_id: e2, property_key: String::from("diffuse") },
    ];
    let outcomes2 = sys.on_property_value_change(&mut doc, &refs2);
    assert_eq!(outcomes2, vec![Some(RequestOutcome::Rejected), None]);
    assert_eq!(sys.assets.len(), 1);
    assert_eq!(doc.entities.len(), n_entities);
    assert_eq!(doc.resources.len(), n_resources);
}

#[test]
fn scene_validity_check_is_exact() {
    assert!(two_node_scene().check_valid());
    let mut s = two_node_scene();
    s.nodes[0].children = vec![0];
    assert!(!s.check_valid());
    let mut s = two_node_scene();
    s.animations[0].ticks_per_second = 0;
    assert!(!s.check_valid());
    let mut s = two_node_scene();
    s.animations[0].channels[0].position_keys[1].time_ticks = 0;
    assert!(!s.check_valid());
    let mut s = two_node_scene();
    s.animations.push(walk_animation());
    assert!(!s.check_valid());
}

#[test]
fn zero_duration_animation_bakes_empty_curves() {
    // round(0 s * 60 Hz) == 0 samples, but still three tracks.
    let anim = Animation {
        name: String::from("still"),
        duration_ticks: 0,
        ticks_per_second: 30,
        channels: vec![AnimChannel {
            target_node: String::from("B"),
            position_keys: vec![Key3 { time_ticks: 0, value: V3 { x: 5, y: 6, z: 7 } }],
            rotation_keys: vec![Key4 {
                time_ticks: 0,
                value: V4 { x: 0, y: 0, z: 0, w: 1000 },
            }],
            scaling_keys: vec![],
        }],
    };
    let ts = track_set_from_animation(&anim);
    assert_eq!(ts.tracks.len(), 3);
    assert_eq!(ts.tracks[0].duration_ms, 0);
    assert_eq!(ts.tracks[0].curve.samples.len(), 0);
}

#[test]
fn interpolation_clamps_outside_keyed_range() {
    // Keys start late and end early relative to the duration: samples
    // before the first key hold the first value, samples after the last
    // key hold the last value.
    let anim = Animation {
        name: String::from("clamped"),
        duration_ticks: 4,
        ticks_per_second: 1,
        channels: vec![AnimChannel {
            target_node: String::from("B"),
            position_keys: vec![
                Key3 { time_ticks: 1, value: v3(100, 0, 0) },
                Key3 { time_ticks: 3, value: v3(300, 0, 0) },
            ],
            rotation_keys: vec![],
            scaling_keys: vec![],
        }],
    };
    let ts = track_set_from_animation(&anim);
    let t = &ts.tracks[0];
    // 4 s at 60 Hz: 240 samples over [0, 4 s].
    assert_eq!(t.curve.samples.len(), 240);
    assert_eq!(t.curve.samples[0], vec![100, 0, 0]);
    assert_eq!(t.curve.samples[239], vec![300, 0, 0]);
    // The exact midpoint of the keyed range interpolates halfway:
    // sample 120 sits at 4_000_000 * 120 / 239 = 2008368 us; the keys span
    // [1_000_000, 3_000_000] us, so the value is 100 + 200 * 1008368 / 2000000 = 200.
    assert_eq!(t.curve.samples[120], vec![200, 0, 0]);
}
