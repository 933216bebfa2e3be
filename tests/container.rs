use porter::codec::CastFile;
use porter::node::{Node, NodeIds, NodeKind};
use porter::property::{CastError, Property, PropertyType, PropertyValue};
use porter::vector::{Vector2, Vector3, Vector4};

fn same_tree(a: &Node, b: &Node) -> bool {
    if a.kind() != b.kind() || a.hash() != b.hash() || a.properties() != b.properties() {
        return false;
    }
    if a.children().len() != b.children().len() {
        return false;
    }
    a.children().iter().zip(b.children().iter()).all(|(x, y)| same_tree(x, y))
}

fn sample_tree(ids: &mut NodeIds) -> Node {
    let mut root = Node::new(NodeKind::Root, ids);
    let mut mesh = Node::new(NodeKind::Mesh, ids);
    let mut name = Property::new(PropertyType::String, "n");
    name.push(PropertyValue::String(b"body".to_vec())).unwrap();
    mesh.push_property(name);
    let mut bytes = Property::new(PropertyType::Byte, "f");
    for v in [0u8, 7, 255] {
        bytes.push(PropertyValue::Byte(v)).unwrap();
    }
    mesh.push_property(bytes);
    let mut shorts = Property::new(PropertyType::Short, "s");
    shorts.push(PropertyValue::Short(0xBEEF)).unwrap();
    mesh.push_property(shorts);
    let mut ints = Property::new(PropertyType::Integer32, "c0");
    ints.push(PropertyValue::Integer32(0xDEADBEEF)).unwrap();
    mesh.push_property(ints);
    let mut floats = Property::new(PropertyType::Float, "wv");
    floats.push(PropertyValue::Float(1.5f32.to_bits())).unwrap();
    mesh.push_property(floats);
    let mut v2 = Property::new(PropertyType::Vector2, "u0");
    v2.push(PropertyValue::Vector2(Vector2 { x: 1, y: 2 })).unwrap();
    mesh.push_property(v2);
    let mut v3 = Property::new(PropertyType::Vector3, "vp");
    v3.push(PropertyValue::Vector3(Vector3 { x: 3, y: 4, z: 5 })).unwrap();
    v3.push(PropertyValue::Vector3(Vector3 { x: 6, y: 7, z: 8 })).unwrap();
    mesh.push_property(v3);
    let mut v4 = Property::new(PropertyType::Vector4, "lr");
    v4.push(PropertyValue::Vector4(Vector4 { x: 9, y: 10, z: 11, w: 12 })).unwrap();
    mesh.push_property(v4);
    let material = Node::new(NodeKind::Material, ids);
    let mut link = Property::new(PropertyType::Integer64, "m");
    link.push(material.hash_ref()).unwrap();
    mesh.push_property(link);
    let mut model = Node::new(NodeKind::Model, ids);
    model.push_child(material);
    model.push_child(mesh);
    root.push_child(model);
    root
}

#[test]
fn push_rejects_a_value_of_another_type() {
    let mut p = Property::new(PropertyType::Short, "f");
    assert_eq!(p.push(PropertyValue::Byte(1)), Err(CastError::TypeMismatch));
    assert_eq!(p.len(), 0);
    assert_eq!(p.push(PropertyValue::Short(1)), Ok(()));
    assert_eq!(p.len(), 1);
    assert_eq!(p.tag(), PropertyType::Short);
}

#[test]
fn identities_are_distinct_and_increasing() {
    let mut ids = NodeIds::new();
    let a = Node::new(NodeKind::Bone, &mut ids);
    let b = Node::new(NodeKind::Bone, &mut ids);
    assert_eq!(a.hash(), 1);
    assert_eq!(b.hash(), 2);
    assert_eq!(ids.peek(), 3);
    assert_eq!(a.hash_ref(), PropertyValue::Integer64(1));
}

#[test]
fn round_trip_reproduces_the_tree() {
    let mut ids = NodeIds::new();
    let root = sample_tree(&mut ids);
    let expected = sample_tree(&mut NodeIds::new());
    let mut file = CastFile::new();
    file.push(root);
    let bytes = file.write().unwrap();
    let back = CastFile::read(&bytes).unwrap();
    assert_eq!(back.roots().len(), 1);
    assert!(same_tree(&back.roots()[0], &expected));
    let mesh = &back.roots()[0].children()[0].children()[1];
    let link = &mesh.properties()[8];
    let material = &back.roots()[0].children()[0].children()[0];
    assert_eq!(link.values()[0], PropertyValue::Integer64(material.hash()));
}

#[test]
fn write_lays_out_one_node_exactly() {
    let mut ids = NodeIds::new();
    let mut node = Node::new(NodeKind::Bone, &mut ids);
    let mut p = Property::new(PropertyType::String, "n");
    p.push(PropertyValue::String(b"ab".to_vec())).unwrap();
    node.push_property(p);
    let mut file = CastFile::new();
    file.push(node);
    let bytes = file.write().unwrap();
    let mut expected: Vec<u8> = Vec::new();
    expected.extend_from_slice(&0x74736163u32.to_le_bytes());
    expected.extend_from_slice(&1u32.to_le_bytes());
    expected.extend_from_slice(&0x656E6F62u32.to_le_bytes());
    expected.extend_from_slice(&1u64.to_le_bytes());
    expected.extend_from_slice(&1u32.to_le_bytes());
    expected.extend_from_slice(&1u32.to_le_bytes());
    expected.push(b'n');
    expected.extend_from_slice(&0x73u16.to_le_bytes());
    expected.extend_from_slice(&1u32.to_le_bytes());
    expected.extend_from_slice(b"ab\0");
    expected.extend_from_slice(&0u32.to_le_bytes());
    assert_eq!(bytes, expected);
}

#[test]
fn read_rejects_an_unknown_kind() {
    let mut ids = NodeIds::new();
    let mut file = CastFile::new();
    file.push(Node::new(NodeKind::Bone, &mut ids));
    let mut bytes = file.write().unwrap();
    bytes[8] = b'x';
    assert_eq!(CastFile::read(&bytes).err(), Some(CastError::Malformed));
}

#[test]
fn read_rejects_an_unknown_type_tag() {
    let mut ids = NodeIds::new();
    let mut node = Node::new(NodeKind::Bone, &mut ids);
    let mut p = Property::new(PropertyType::Byte, "b");
    p.push(PropertyValue::Byte(1)).unwrap();
    node.push_property(p);
    let mut file = CastFile::new();
    file.push(node);
    let mut bytes = file.write().unwrap();
    // tag sits after magic, count, kind, hash, property count, name length and name
    bytes[8 + 16 + 4 + 1] = 0x7A;
    assert_eq!(CastFile::read(&bytes).err(), Some(CastError::Malformed));
}

#[test]
fn read_rejects_a_payload_shorter_than_its_count() {
    let mut ids = NodeIds::new();
    let mut node = Node::new(NodeKind::Mesh, &mut ids);
    let mut p = Property::new(PropertyType::Vector3, "vp");
    p.push(PropertyValue::Vector3(Vector3 { x: 1, y: 2, z: 3 })).unwrap();
    node.push_property(p);
    let mut file = CastFile::new();
    file.push(node);
    let bytes = file.write().unwrap();
    let cut = bytes[..bytes.len() - 8].to_vec();
    assert_eq!(CastFile::read(&cut).err(), Some(CastError::Malformed));
}

#[test]
fn read_rejects_trailing_bytes_and_a_bad_magic() {
    let mut ids = NodeIds::new();
    let mut file = CastFile::new();
    file.push(Node::new(NodeKind::Root, &mut ids));
    let bytes = file.write().unwrap();
    let mut longer = bytes.clone();
    longer.push(0);
    assert_eq!(CastFile::read(&longer).err(), Some(CastError::Malformed));
    let mut bad = bytes.clone();
    bad[0] = 0;
    assert_eq!(CastFile::read(&bad).err(), Some(CastError::Malformed));
    assert!(CastFile::read(&bytes).is_ok());
    assert_eq!(CastFile::read(&Vec::new()).err(), Some(CastError::Malformed));
}

#[test]
fn empty_file_round_trips() {
    let file = CastFile::new();
    let bytes = file.write().unwrap();
    assert_eq!(bytes.len(), 8);
    assert_eq!(CastFile::read(&bytes).unwrap().roots().len(), 0);
}
