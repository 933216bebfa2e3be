use std::collections::HashSet;

use porter::codec::CastFile;
use porter::export::{cast_root, select_width, to_cast, IndexWidth, ModelError};
use porter::model::{
    Axis, BlendShape, Bone, Constraint, ConstraintType, Face, IKHandle, Material,
    MaterialTextureRef, MaterialTextureRefUsage, Mesh, Model, Skeleton, SkinningMethod, Vertex,
    VertexWeight,
};
use porter::node::{Node, NodeKind};
use porter::property::{Property, PropertyType, PropertyValue};
use porter::vector::{Vector2, Vector3, Vector4};

fn v3(x: f32, y: f32, z: f32) -> Vector3 {
    Vector3 { x: x.to_bits(), y: y.to_bits(), z: z.to_bits() }
}

fn add(a: Vector3, b: Vector3) -> Vector3 {
    let f = |p: u32, q: u32| (f32::from_bits(p) + f32::from_bits(q)).to_bits();
    Vector3 { x: f(a.x, b.x), y: f(a.y, b.y), z: f(a.z, b.z) }
}

fn bare_bone(name: Option<&str>, parent: i32) -> Bone {
    Bone {
        name: name.map(String::from),
        parent,
        segment_scale_compensate: true,
        local_position: None,
        local_rotation: None,
        local_scale: None,
        world_position: None,
        world_rotation: None,
        world_scale: None,
    }
}

fn vertex(position: Vector3) -> Vertex {
    Vertex { position, normal: v3(0.0, 1.0, 0.0), colors: vec![], uvs: vec![], weights: vec![] }
}

fn mesh_with(count: usize) -> Mesh {
    Mesh {
        name: Some(String::from("body")),
        vertices: (0..count).map(|i| vertex(v3(i as f32, 0.0, 0.0))).collect(),
        uv_layers: 0,
        color_layers: 0,
        maximum_influence: 0,
        faces: vec![],
        material: None,
        skinning_method: SkinningMethod::Linear,
        blend_shapes: vec![],
    }
}

fn empty_model() -> Model {
    Model {
        up_axis: Axis::Y,
        skeleton: Skeleton { bones: vec![], ik_handles: vec![], constraints: vec![] },
        materials: vec![],
        meshes: vec![],
    }
}

fn prop<'a>(node: &'a Node, name: &str) -> Option<&'a Property> {
    node.properties().iter().find(|p| p.name().as_slice() == name.as_bytes())
}

fn prop_names(node: &Node) -> Vec<String> {
    node.properties().iter().map(|p| String::from_utf8(p.name().clone()).unwrap()).collect()
}

fn model_node(root: &Node) -> &Node {
    &root.children()[1]
}

fn collect_hashes(node: &Node, out: &mut Vec<u64>) {
    out.push(node.hash());
    for c in node.children() {
        collect_hashes(c, out);
    }
}

#[test]
fn width_is_the_smallest_that_holds_the_bound() {
    assert_eq!(select_width(0), IndexWidth::Byte);
    assert_eq!(select_width(250), IndexWidth::Byte);
    assert_eq!(select_width(255), IndexWidth::Byte);
    assert_eq!(select_width(256), IndexWidth::Short);
    assert_eq!(select_width(65535), IndexWidth::Short);
    assert_eq!(select_width(65536), IndexWidth::Integer32);
    assert_eq!(select_width(70000), IndexWidth::Integer32);
}

#[test]
fn faces_of_250_vertices_are_bytes_and_reversed() {
    let mut model = empty_model();
    let mut mesh = mesh_with(250);
    mesh.faces = vec![Face { i1: 0, i2: 1, i3: 249 }];
    model.meshes.push(mesh);
    let root = cast_root(&model, &add).unwrap();
    let mesh_node = &model_node(&root).children()[0];
    let faces = prop(mesh_node, "f").unwrap();
    assert_eq!(faces.tag(), PropertyType::Byte);
    assert_eq!(
        faces.values(),
        &vec![PropertyValue::Byte(249), PropertyValue::Byte(1), PropertyValue::Byte(0)]
    );
}

#[test]
fn faces_of_70000_vertices_are_32_bit() {
    let mut model = empty_model();
    let mut mesh = mesh_with(70000);
    mesh.faces = vec![Face { i1: 69999, i2: 5, i3: 300 }];
    model.meshes.push(mesh);
    let root = cast_root(&model, &add).unwrap();
    let faces = prop(&model_node(&root).children()[0], "f").unwrap();
    assert_eq!(faces.tag(), PropertyType::Integer32);
    assert_eq!(
        faces.values(),
        &vec![
            PropertyValue::Integer32(300),
            PropertyValue::Integer32(5),
            PropertyValue::Integer32(69999)
        ]
    );
}

#[test]
fn faces_of_300_vertices_are_16_bit() {
    let mut model = empty_model();
    let mut mesh = mesh_with(300);
    mesh.faces = vec![Face { i1: 1, i2: 2, i3: 299 }];
    model.meshes.push(mesh);
    let root = cast_root(&model, &add).unwrap();
    let faces = prop(&model_node(&root).children()[0], "f").unwrap();
    assert_eq!(faces.tag(), PropertyType::Short);
    assert_eq!(faces.values()[0], PropertyValue::Short(299));
}

#[test]
fn second_albedo_texture_takes_its_positional_name() {
    let mut model = empty_model();
    model.materials.push(Material {
        name: String::from("skin"),
        textures: vec![
            MaterialTextureRef { file_name: String::from("a.png"), texture_usage: MaterialTextureRefUsage::Albedo },
            MaterialTextureRef { file_name: String::from("b.png"), texture_usage: MaterialTextureRefUsage::Albedo },
            MaterialTextureRef { file_name: String::from("n.png"), texture_usage: MaterialTextureRefUsage::Normal },
            MaterialTextureRef { file_name: String::from("x.png"), texture_usage: MaterialTextureRefUsage::Unknown },
        ],
    });
    let root = cast_root(&model, &add).unwrap();
    let material = &model_node(&root).children()[0];
    assert_eq!(material.kind(), NodeKind::Material);
    assert_eq!(prop_names(material), vec!["n", "t", "albedo", "extra1", "normal", "extra3"]);
    let files = material.children();
    assert_eq!(files.len(), 4);
    assert_eq!(prop(material, "albedo").unwrap().values()[0], PropertyValue::Integer64(files[0].hash()));
    assert_eq!(prop(material, "extra1").unwrap().values()[0], PropertyValue::Integer64(files[1].hash()));
    assert_ne!(files[0].hash(), files[1].hash());
    assert_eq!(prop(&files[1], "p").unwrap().values()[0], PropertyValue::String(b"b.png".to_vec()));
    assert_eq!(prop(material, "t").unwrap().values()[0], PropertyValue::String(b"pbr".to_vec()));
}

#[test]
fn blend_shape_emits_only_touched_vertices() {
    let mut model = empty_model();
    let mut mesh = mesh_with(1000);
    mesh.blend_shapes.push(BlendShape {
        name: String::from("smile"),
        target_scale: 1.0f32.to_bits(),
        vertex_deltas: vec![(3, v3(0.5, 1.0, 0.0)), (999, v3(-1.0, 0.0, 2.0))],
    });
    model.meshes.push(mesh);
    let root = cast_root(&model, &add).unwrap();
    let children = model_node(&root).children();
    assert_eq!(children.len(), 2);
    let mesh_node = &children[0];
    let shape = &children[1];
    assert_eq!(shape.kind(), NodeKind::BlendShape);
    assert_eq!(prop_names(shape), vec!["n", "b", "ts", "vi", "vp"]);
    let indices = prop(shape, "vi").unwrap();
    assert_eq!(indices.tag(), PropertyType::Short);
    assert_eq!(indices.values(), &vec![PropertyValue::Short(3), PropertyValue::Short(999)]);
    let positions = prop(shape, "vp").unwrap();
    assert_eq!(positions.len(), 2);
    assert_eq!(positions.values()[0], PropertyValue::Vector3(v3(3.5, 1.0, 0.0)));
    assert_eq!(positions.values()[1], PropertyValue::Vector3(v3(998.0, 0.0, 2.0)));
    assert_eq!(prop(shape, "b").unwrap().values()[0], PropertyValue::Integer64(mesh_node.hash()));
    assert_eq!(prop(shape, "ts").unwrap().values()[0], PropertyValue::Float(1.0f32.to_bits()));
}

#[test]
fn blend_shape_indices_below_256_are_bytes() {
    let mut model = empty_model();
    let mut mesh = mesh_with(1000);
    mesh.blend_shapes.push(BlendShape { name: String::from("s"), target_scale: 0, vertex_deltas: vec![(200, v3(1.0, 0.0, 0.0))] });
    mesh.blend_shapes.push(BlendShape { name: String::from("e"), target_scale: 0, vertex_deltas: vec![] });
    model.meshes.push(mesh);
    let root = cast_root(&model, &add).unwrap();
    let children = model_node(&root).children();
    assert_eq!(prop(&children[1], "vi").unwrap().tag(), PropertyType::Byte);
    assert_eq!(prop(&children[2], "vi").unwrap().len(), 0);
    assert_eq!(prop(&children[2], "vi").unwrap().tag(), PropertyType::Byte);
}

#[test]
fn blend_shape_on_a_missing_vertex_fails() {
    let mut model = empty_model();
    let mut mesh = mesh_with(4);
    mesh.blend_shapes.push(BlendShape { name: String::from("s"), target_scale: 0, vertex_deltas: vec![(4, v3(1.0, 0.0, 0.0))] });
    model.meshes.push(mesh);
    assert_eq!(cast_root(&model, &add).err(), Some(ModelError::ReferenceNotFound));
}

#[test]
fn bone_transforms_are_written_in_pairs() {
    let mut model = empty_model();
    let mut only_position = bare_bone(Some("root"), -1);
    only_position.local_position = Some(v3(1.0, 2.0, 3.0));
    only_position.local_scale = Some(v3(2.0, 2.0, 2.0));
    let mut full = bare_bone(None, 0);
    full.local_position = Some(v3(1.0, 0.0, 0.0));
    full.local_rotation = Some(Vector4 { x: 0, y: 0, z: 0, w: 1.0f32.to_bits() });
    full.world_rotation = Some(Vector4 { x: 0, y: 0, z: 0, w: 1.0f32.to_bits() });
    model.skeleton.bones = vec![only_position, full];
    let root = cast_root(&model, &add).unwrap();
    let skeleton = &model_node(&root).children()[0];
    assert_eq!(skeleton.kind(), NodeKind::Skeleton);
    let bones = skeleton.children();
    assert_eq!(prop_names(&bones[0]), vec!["n", "p", "s"]);
    assert_eq!(prop_names(&bones[1]), vec!["n", "p", "lp", "lr"]);
    assert_eq!(prop(&bones[0], "p").unwrap().values()[0], PropertyValue::Integer32(u32::MAX));
    assert_eq!(prop(&bones[1], "n").unwrap().values()[0], PropertyValue::String(b"porter_bone_1".to_vec()));
    assert_eq!(prop(&bones[0], "s").unwrap().values()[0], PropertyValue::Vector3(v3(2.0, 2.0, 2.0)));
}

#[test]
fn ik_handle_naming_a_missing_bone_fails() {
    let mut model = empty_model();
    model.skeleton.bones = vec![bare_bone(Some("a"), -1), bare_bone(Some("b"), 0)];
    model.skeleton.ik_handles.push(IKHandle {
        name: None,
        start_bone: 0,
        end_bone: 2,
        target_bone: None,
        pole_vector_bone: None,
        pole_bone: None,
        use_target_rotation: false,
    });
    assert_eq!(cast_root(&model, &add).err(), Some(ModelError::ReferenceNotFound));
    assert_eq!(to_cast(&model, &add).err(), Some(ModelError::ReferenceNotFound));
}

#[test]
fn optional_ik_bone_out_of_range_fails_too() {
    let mut model = empty_model();
    model.skeleton.bones = vec![bare_bone(Some("a"), -1)];
    model.skeleton.ik_handles.push(IKHandle {
        name: Some(String::from("leg")),
        start_bone: 0,
        end_bone: 0,
        target_bone: None,
        pole_vector_bone: Some(5),
        pole_bone: None,
        use_target_rotation: true,
    });
    assert_eq!(cast_root(&model, &add).err(), Some(ModelError::ReferenceNotFound));
}

fn rigged_model() -> Model {
    let mut model = empty_model();
    model.skeleton.bones = vec![bare_bone(Some("a"), -1), bare_bone(Some("b"), 0), bare_bone(Some("c"), 1)];
    model.skeleton.ik_handles.push(IKHandle {
        name: Some(String::from("leg")),
        start_bone: 0,
        end_bone: 2,
        target_bone: Some(1),
        pole_vector_bone: None,
        pole_bone: None,
        use_target_rotation: true,
    });
    model.skeleton.constraints.push(Constraint {
        name: None,
        constraint_type: ConstraintType::Orient,
        constraint_bone: 2,
        target_bone: 0,
        maintain_offset: true,
        skip_x: false,
        skip_y: true,
        skip_z: false,
    });
    model.materials.push(Material {
        name: String::from("m0"),
        textures: vec![MaterialTextureRef { file_name: String::from("d.png"), texture_usage: MaterialTextureRefUsage::Diffuse }],
    });
    let mut mesh = mesh_with(3);
    mesh.material = Some(0);
    mesh.uv_layers = 1;
    mesh.color_layers = 1;
    mesh.maximum_influence = 2;
    for (i, v) in mesh.vertices.iter_mut().enumerate() {
        v.colors = vec![0xFF00FF00 + i as u32];
        v.uvs = vec![Vector2 { x: i as u32, y: 7 }];
        v.weights = vec![
            VertexWeight { bone: 2, value: 0.75f32.to_bits() },
            VertexWeight { bone: 1, value: 0.25f32.to_bits() },
        ];
    }
    mesh.faces = vec![Face { i1: 0, i2: 1, i3: 2 }];
    mesh.blend_shapes.push(BlendShape { name: String::from("up"), target_scale: 0, vertex_deltas: vec![(1, v3(0.0, 1.0, 0.0))] });
    model.meshes.push(mesh);
    model
}

#[test]
fn rigging_refers_to_bones_by_identity() {
    let model = rigged_model();
    let root = cast_root(&model, &add).unwrap();
    let skeleton = &model_node(&root).children()[0];
    let bones = &skeleton.children()[..3];
    let handle = &skeleton.children()[3];
    assert_eq!(handle.kind(), NodeKind::IKHandle);
    assert_eq!(prop_names(handle), vec!["n", "sb", "eb", "tb", "tr"]);
    assert_eq!(prop(handle, "sb").unwrap().values()[0], PropertyValue::Integer64(bones[0].hash()));
    assert_eq!(prop(handle, "eb").unwrap().values()[0], PropertyValue::Integer64(bones[2].hash()));
    assert_eq!(prop(handle, "tb").unwrap().values()[0], PropertyValue::Integer64(bones[1].hash()));
    assert_eq!(prop(handle, "tr").unwrap().values()[0], PropertyValue::Byte(1));
    let constraint = &skeleton.children()[4];
    assert_eq!(prop_names(constraint), vec!["ct", "cb", "tb", "mo", "sx", "sy", "sz"]);
    assert_eq!(prop(constraint, "ct").unwrap().values()[0], PropertyValue::String(b"or".to_vec()));
    assert_eq!(prop(constraint, "cb").unwrap().values()[0], PropertyValue::Integer64(bones[2].hash()));
    assert_eq!(prop(constraint, "sy").unwrap().values()[0], PropertyValue::Byte(1));
}

#[test]
fn scene_is_laid_out_in_order() {
    let model = rigged_model();
    let root = cast_root(&model, &add).unwrap();
    assert_eq!(root.kind(), NodeKind::Root);
    let meta = &root.children()[0];
    assert_eq!(meta.kind(), NodeKind::Metadata);
    assert_eq!(prop(meta, "up").unwrap().values()[0], PropertyValue::String(b"y".to_vec()));
    let kinds: Vec<NodeKind> = model_node(&root).children().iter().map(|c| c.kind()).collect();
    assert_eq!(kinds, vec![NodeKind::Skeleton, NodeKind::Material, NodeKind::Mesh, NodeKind::BlendShape]);
    let children = model_node(&root).children();
    let mesh = &children[2];
    assert_eq!(prop_names(mesh), vec!["n", "ul", "mi", "cl", "sm", "vp", "vn", "c0", "u0", "wb", "wv", "f", "m"]);
    assert_eq!(prop(mesh, "m").unwrap().values()[0], PropertyValue::Integer64(children[1].hash()));
    let wb = prop(mesh, "wb").unwrap();
    assert_eq!(wb.tag(), PropertyType::Byte);
    assert_eq!(wb.values().len(), 6);
    assert_eq!(wb.values()[0], PropertyValue::Byte(2));
    assert_eq!(wb.values()[1], PropertyValue::Byte(1));
    assert_eq!(prop(mesh, "wv").unwrap().values()[1], PropertyValue::Float(0.25f32.to_bits()));
    assert_eq!(prop(mesh, "c0").unwrap().values()[2], PropertyValue::Integer32(0xFF00FF02));
    assert_eq!(prop(mesh, "u0").unwrap().values()[1], PropertyValue::Vector2(Vector2 { x: 1, y: 7 }));
    assert_eq!(prop(mesh, "sm").unwrap().values()[0], PropertyValue::String(b"linear".to_vec()));
    assert_eq!(prop(mesh, "mi").unwrap().values()[0], PropertyValue::Byte(2));
}

#[test]
fn no_two_nodes_share_an_identity() {
    let model = rigged_model();
    let root = cast_root(&model, &add).unwrap();
    let mut all = Vec::new();
    collect_hashes(&root, &mut all);
    let distinct: HashSet<u64> = all.iter().copied().collect();
    assert_eq!(all.len(), 13);
    assert_eq!(distinct.len(), all.len());
}

#[test]
fn missing_material_reference_fails() {
    let mut model = empty_model();
    let mut mesh = mesh_with(3);
    mesh.material = Some(4);
    model.meshes.push(mesh);
    assert_eq!(cast_root(&model, &add).err(), Some(ModelError::ReferenceNotFound));
    assert_eq!(to_cast(&model, &add).err(), Some(ModelError::ReferenceNotFound));
}

#[test]
fn rigging_without_bones_fails() {
    let mut model = empty_model();
    model.skeleton.ik_handles.push(IKHandle {
        name: None,
        start_bone: 0,
        end_bone: 0,
        target_bone: None,
        pole_vector_bone: None,
        pole_bone: None,
        use_target_rotation: false,
    });
    assert_eq!(cast_root(&model, &add).err(), Some(ModelError::ReferenceNotFound));
    let mut model = empty_model();
    model.skeleton.constraints.push(Constraint {
        name: None,
        constraint_type: ConstraintType::Point,
        constraint_bone: 0,
        target_bone: 0,
        maintain_offset: false,
        skip_x: false,
        skip_y: false,
        skip_z: false,
    });
    assert_eq!(to_cast(&model, &add).err(), Some(ModelError::ReferenceNotFound));
}

#[test]
fn repeated_blend_shape_index_is_not_well_formed() {
    let mut model = empty_model();
    let mut mesh = mesh_with(10);
    mesh.blend_shapes.push(BlendShape {
        name: String::from("s"),
        target_scale: 0,
        vertex_deltas: vec![(2, v3(1.0, 0.0, 0.0)), (5, v3(0.0, 1.0, 0.0)), (2, v3(0.0, 0.0, 1.0))],
    });
    model.meshes.push(mesh);
    assert!(!model.layout_consistent());
    model.meshes[0].blend_shapes[0].vertex_deltas.pop();
    assert!(model.layout_consistent());
}

#[test]
fn without_bones_there_is_no_skeleton_and_no_weights() {
    let mut model = empty_model();
    let mut mesh = mesh_with(2);
    mesh.maximum_influence = 1;
    for v in mesh.vertices.iter_mut() {
        v.weights = vec![VertexWeight { bone: 0, value: 0 }];
    }
    model.meshes.push(mesh);
    let root = cast_root(&model, &add).unwrap();
    let children = model_node(&root).children();
    assert_eq!(children.len(), 1);
    assert!(prop(&children[0], "wb").is_none());
}

#[test]
fn exported_bytes_read_back_to_the_same_tree() {
    let model = rigged_model();
    let bytes = to_cast(&model, &add).unwrap();
    let file = CastFile::read(&bytes).unwrap();
    let expected = cast_root(&model, &add).unwrap();
    let back = &file.roots()[0];
    let mut a = Vec::new();
    let mut b = Vec::new();
    collect_hashes(back, &mut a);
    collect_hashes(&expected, &mut b);
    assert_eq!(a, b);
    assert_eq!(model_node(back).children()[2].properties(), model_node(&expected).children()[2].properties());
}

#[test]
fn bone_names_are_sanitized() {
    assert_eq!(Bone::new(Some(String::from("left arm")), 0).name, Some(String::from("left_arm")));
    assert_eq!(Bone::new(Some(String::from("default")), 0).name, Some(String::from("_default")));
    assert_eq!(Bone::new(Some(String::from("")), 0).name, Some(String::from("_default")));
    assert_eq!(Bone::new(Some(String::from("3 toes")), 0).name, Some(String::from("_3_toes")));
    let b = Bone::new(None, 4).local_position(v3(1.0, 0.0, 0.0)).segment_scale_compensate(false);
    assert_eq!(b.name, None);
    assert_eq!(b.parent, 4);
    assert!(!b.segment_scale_compensate);
    assert_eq!(b.local_position, Some(v3(1.0, 0.0, 0.0)));
    assert_eq!(b.local_rotation, None);
}

#[test]
fn layout_check_finds_a_short_vertex() {
    let mut model = empty_model();
    let mut mesh = mesh_with(2);
    mesh.uv_layers = 1;
    mesh.vertices[0].uvs = vec![Vector2 { x: 0, y: 0 }];
    model.meshes.push(mesh);
    assert!(!model.layout_consistent());
    model.meshes[0].vertices[1].uvs = vec![Vector2 { x: 0, y: 0 }];
    assert!(model.layout_consistent());
}

#[test]
fn name_with_a_zero_byte_is_refused() {
    let mut model = empty_model();
    model.materials.push(Material { name: String::from("bad\0name"), textures: vec![] });
    assert!(cast_root(&model, &add).is_ok());
    assert_eq!(to_cast(&model, &add).err(), Some(ModelError::InvalidName));
}
