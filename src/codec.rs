use vstd::prelude::*;
use vstd::seq_lib::*;

use crate::bytes::{
    get_u16, get_u32, get_u64, holds_at, lemma_holds_index, lemma_holds_split, lemma_read_u16,
    lemma_read_u32, lemma_read_u64, read_u16, read_u32, read_u64, u16_le, u32_le, u64_le, write_u16,
    write_u32, write_u64,
};
use crate::node::{Node, NodeKind, NodeModel, properties_view};
use crate::property::{
    CastError, Property, PropertyModel, PropertyType, PropertyValue, ValueModel, values_view,
};
use crate::vector::{Vector2, Vector3, Vector4};

verus! {

/// The four bytes that open every container stream ("cast").
pub const CAST_MAGIC: u32 = 0x74736163;

/// The identifier written for each node kind.
pub open spec fn kind_id(k: NodeKind) -> u32 {
    match k {
        NodeKind::Root => 0x746F6F72u32,
        NodeKind::Metadata => 0x6174656Du32,
        NodeKind::Model => 0x6C646F6Du32,
        NodeKind::Skeleton => 0x6C656B73u32,
        NodeKind::Bone => 0x656E6F62u32,
        NodeKind::IKHandle => 0x64686B69u32,
        NodeKind::Constraint => 0x74736E63u32,
        NodeKind::Material => 0x6C74616Du32,
        NodeKind::File => 0x656C6966u32,
        NodeKind::Mesh => 0x6873656Du32,
        NodeKind::BlendShape => 0x68736C62u32,
    }
}

/// The node kind an identifier stands for, if any.
pub open spec fn kind_of_id(id: u32) -> Option<NodeKind> {
    if id == 0x746F6F72u32 {
        Some(NodeKind::Root)
    } else if id == 0x6174656Du32 {
        Some(NodeKind::Metadata)
    } else if id == 0x6C646F6Du32 {
        Some(NodeKind::Model)
    } else if id == 0x6C656B73u32 {
        Some(NodeKind::Skeleton)
    } else if id == 0x656E6F62u32 {
        Some(NodeKind::Bone)
    } else if id == 0x64686B69u32 {
        Some(NodeKind::IKHandle)
    } else if id == 0x74736E63u32 {
        Some(NodeKind::Constraint)
    } else if id == 0x6C74616Du32 {
        Some(NodeKind::Material)
    } else if id == 0x656C6966u32 {
        Some(NodeKind::File)
    } else if id == 0x6873656Du32 {
        Some(NodeKind::Mesh)
    } else if id == 0x68736C62u32 {
        Some(NodeKind::BlendShape)
    } else {
        None
    }
}

/// The identifier written for each element type.
pub open spec fn tag_id(t: PropertyType) -> u16 {
    match t {
        PropertyType::Byte => 0x62u16,
        PropertyType::Short => 0x68u16,
        PropertyType::Integer32 => 0x69u16,
        PropertyType::Integer64 => 0x6Cu16,
        PropertyType::Float => 0x66u16,
        PropertyType::String => 0x73u16,
        PropertyType::Vector2 => 0x3276u16,
        PropertyType::Vector3 => 0x3376u16,
        PropertyType::Vector4 => 0x3476u16,
    }
}

/// The element type an identifier stands for, if any.
pub open spec fn tag_of_id(id: u16) -> Option<PropertyType> {
    if id == 0x62u16 {
        Some(PropertyType::Byte)
    } else if id == 0x68u16 {
        Some(PropertyType::Short)
    } else if id == 0x69u16 {
        Some(PropertyType::Integer32)
    } else if id == 0x6Cu16 {
        Some(PropertyType::Integer64)
    } else if id == 0x66u16 {
        Some(PropertyType::Float)
    } else if id == 0x73u16 {
        Some(PropertyType::String)
    } else if id == 0x3276u16 {
        Some(PropertyType::Vector2)
    } else if id == 0x3376u16 {
        Some(PropertyType::Vector3)
    } else if id == 0x3476u16 {
        Some(PropertyType::Vector4)
    } else {
        None
    }
}

fn kind_to_id(k: NodeKind) -> (r: u32)
    ensures
        r == kind_id(k),
{
    match k {
        NodeKind::Root => 0x746F6F72u32,
        NodeKind::Metadata => 0x6174656Du32,
        NodeKind::Model => 0x6C646F6Du32,
        NodeKind::Skeleton => 0x6C656B73u32,
        NodeKind::Bone => 0x656E6F62u32,
        NodeKind::IKHandle => 0x64686B69u32,
        NodeKind::Constraint => 0x74736E63u32,
        NodeKind::Material => 0x6C74616Du32,
        NodeKind::File => 0x656C6966u32,
        NodeKind::Mesh => 0x6873656Du32,
        NodeKind::BlendShape => 0x68736C62u32,
    }
}

fn kind_from_id(id: u32) -> (r: Option<NodeKind>)
    ensures
        r == kind_of_id(id),
{
    if id == 0x746F6F72u32 {
        Some(NodeKind::Root)
    } else if id == 0x6174656Du32 {
        Some(NodeKind::Metadata)
    } else if id == 0x6C646F6Du32 {
        Some(NodeKind::Model)
    } else if id == 0x6C656B73u32 {
        Some(NodeKind::Skeleton)
    } else if id == 0x656E6F62u32 {
        Some(NodeKind::Bone)
    } else if id == 0x64686B69u32 {
        Some(NodeKind::IKHandle)
    } else if id == 0x74736E63u32 {
        Some(NodeKind::Constraint)
    } else if id == 0x6C74616Du32 {
        Some(NodeKind::Material)
    } else if id == 0x656C6966u32 {
        Some(NodeKind::File)
    } else if id == 0x6873656Du32 {
        Some(NodeKind::Mesh)
    } else if id == 0x68736C62u32 {
        Some(NodeKind::BlendShape)
    } else {
        None
    }
}

fn tag_to_id(t: PropertyType) -> (r: u16)
    ensures
        r == tag_id(t),
{
    match t {
        PropertyType::Byte => 0x62u16,
        PropertyType::Short => 0x68u16,
        PropertyType::Integer32 => 0x69u16,
        PropertyType::Integer64 => 0x6Cu16,
        PropertyType::Float => 0x66u16,
        PropertyType::String => 0x73u16,
        PropertyType::Vector2 => 0x3276u16,
        PropertyType::Vector3 => 0x3376u16,
        PropertyType::Vector4 => 0x3476u16,
    }
}

fn tag_from_id(id: u16) -> (r: Option<PropertyType>)
    ensures
        r == tag_of_id(id),
{
    if id == 0x62u16 {
        Some(PropertyType::Byte)
    } else if id == 0x68u16 {
        Some(PropertyType::Short)
    } else if id == 0x69u16 {
        Some(PropertyType::Integer32)
    } else if id == 0x6Cu16 {
        Some(PropertyType::Integer64)
    } else if id == 0x66u16 {
        Some(PropertyType::Float)
    } else if id == 0x73u16 {
        Some(PropertyType::String)
    } else if id == 0x3276u16 {
        Some(PropertyType::Vector2)
    } else if id == 0x3376u16 {
        Some(PropertyType::Vector3)
    } else if id == 0x3476u16 {
        Some(PropertyType::Vector4)
    } else {
        None
    }
}

// ----- the byte layout -----

/// The packed bytes of one element: fixed width per type; a string is its bytes and a zero.
pub open spec fn enc_value(v: ValueModel) -> Seq<u8> {
    match v {
        ValueModel::Byte(x) => seq![x],
        ValueModel::Short(x) => u16_le(x),
        ValueModel::Integer32(x) => u32_le(x),
        ValueModel::Integer64(x) => u64_le(x),
        ValueModel::Float(x) => u32_le(x),
        ValueModel::String(s) => s.push(0u8),
        ValueModel::Vector2(v) => u32_le(v.x) + u32_le(v.y),
        ValueModel::Vector3(v) => u32_le(v.x) + u32_le(v.y) + u32_le(v.z),
        ValueModel::Vector4(v) => u32_le(v.x) + u32_le(v.y) + u32_le(v.z) + u32_le(v.w),
    }
}

/// The packed elements of a property, in order.
pub open spec fn enc_values(vs: Seq<ValueModel>) -> Seq<u8> {
    vs.map_values(|v: ValueModel| enc_value(v)).flatten()
}

/// A property: name length, name, element type, element count, then the packed elements.
pub open spec fn enc_property(p: PropertyModel) -> Seq<u8> {
    u32_le(p.name.len() as u32) + p.name + u16_le(tag_id(p.tag)) + u32_le(p.values.len() as u32)
        + enc_values(p.values)
}

/// The properties of a node, in order.
pub open spec fn enc_properties(ps: Seq<PropertyModel>) -> Seq<u8> {
    ps.map_values(|p: PropertyModel| enc_property(p)).flatten()
}

/// A node: kind, identity, property count, the properties, child count, then each child.
pub open spec fn enc_node(n: NodeModel) -> Seq<u8>
    decreases n,
{
    u32_le(kind_id(n.kind)) + u64_le(n.hash) + u32_le(n.properties.len() as u32) + enc_properties(
        n.properties,
    ) + u32_le(n.children.len() as u32) + enc_nodes(n.children)
}

/// A run of nodes, one after another.
pub open spec fn enc_nodes(cs: Seq<NodeModel>) -> Seq<u8>
    decreases cs,
{
    if cs.len() == 0 {
        Seq::empty()
    } else {
        enc_node(cs[0]) + enc_nodes(cs.subrange(1, cs.len() as int))
    }
}

/// A whole stream: the magic, the number of roots, then each root.
pub open spec fn enc_file(roots: Seq<NodeModel>) -> Seq<u8> {
    u32_le(CAST_MAGIC) + u32_le(roots.len() as u32) + enc_nodes(roots)
}

/// Every count a property writes fits in 32 bits.
pub open spec fn property_fits(p: PropertyModel) -> bool {
    p.name.len() <= u32::MAX && p.values.len() <= u32::MAX
}

/// Every count the node and its descendants write fits in 32 bits.
pub open spec fn node_fits(n: NodeModel) -> bool
    decreases n,
{
    &&& n.properties.len() <= u32::MAX
    &&& n.children.len() <= u32::MAX
    &&& forall|i: int| 0 <= i < n.properties.len() ==> property_fits(#[trigger] n.properties[i])
    &&& forall|i: int| 0 <= i < n.children.len() ==> node_fits(#[trigger] n.children[i])
}

/// Every count a stream of these roots writes fits in 32 bits.
pub open spec fn file_fits(roots: Seq<NodeModel>) -> bool {
    &&& roots.len() <= u32::MAX
    &&& forall|i: int| 0 <= i < roots.len() ==> node_fits(#[trigger] roots[i])
}

proof fn lemma_enc_nodes_flatten(cs: Seq<NodeModel>)
    ensures
        enc_nodes(cs) == cs.map_values(|c: NodeModel| enc_node(c)).flatten(),
    decreases cs.len(),
{
    let m = cs.map_values(|c: NodeModel| enc_node(c));
    if cs.len() > 0 {
        let rest = cs.subrange(1, cs.len() as int);
        lemma_enc_nodes_flatten(rest);
        assert(m.drop_first() =~= rest.map_values(|c: NodeModel| enc_node(c)));
    } else {
        assert(m =~= Seq::<Seq<u8>>::empty());
    }
}

proof fn lemma_flatten_step<A>(s: Seq<A>, f: spec_fn(A) -> Seq<u8>, i: int)
    requires
        0 <= i < s.len(),
    ensures
        s.subrange(0, i + 1).map_values(f).flatten() == s.subrange(0, i).map_values(f).flatten()
            + f(s[i]),
{
    let a = s.subrange(0, i).map_values(f);
    assert(s.subrange(0, i + 1).map_values(f) =~= a.push(f(s[i])));
    a.lemma_flatten_push(f(s[i]));
}

// ----- reading -----

/// The position of the first zero byte at or after `pos`, if any.
pub open spec fn nul_at(b: Seq<u8>, pos: int) -> Option<int>
    decreases b.len() - pos,
{
    if pos < 0 || pos >= b.len() {
        None
    } else if b[pos] == 0 {
        Some(pos)
    } else {
        nul_at(b, pos + 1)
    }
}

/// Reads one element of type `tag` at `pos`: the element and the position after it.
pub open spec fn parse_value(b: Seq<u8>, pos: int, tag: PropertyType) -> Option<(ValueModel, int)> {
    if pos < 0 {
        None
    } else {
        match tag {
            PropertyType::Byte => if pos + 1 <= b.len() {
                Some((ValueModel::Byte(b[pos]), pos + 1))
            } else {
                None
            },
            PropertyType::Short => if pos + 2 <= b.len() {
                Some((ValueModel::Short(read_u16(b, pos)), pos + 2))
            } else {
                None
            },
            PropertyType::Integer32 => if pos + 4 <= b.len() {
                Some((ValueModel::Integer32(read_u32(b, pos)), pos + 4))
            } else {
                None
            },
            PropertyType::Integer64 => if pos + 8 <= b.len() {
                Some((ValueModel::Integer64(read_u64(b, pos)), pos + 8))
            } else {
                None
            },
            PropertyType::Float => if pos + 4 <= b.len() {
                Some((ValueModel::Float(read_u32(b, pos)), pos + 4))
            } else {
                None
            },
            PropertyType::String => match nul_at(b, pos) {
                Some(e) => Some((ValueModel::String(b.subrange(pos, e)), e + 1)),
                None => None,
            },
            PropertyType::Vector2 => if pos + 8 <= b.len() {
                Some((ValueModel::Vector2(Vector2 { x: read_u32(b, pos), y: read_u32(b, pos + 4) }), pos + 8))
            } else {
                None
            },
            PropertyType::Vector3 => if pos + 12 <= b.len() {
                Some((ValueModel::Vector3(Vector3 {
                    x: read_u32(b, pos),
                    y: read_u32(b, pos + 4),
                    z: read_u32(b, pos + 8),
                }), pos + 12))
            } else {
                None
            },
            PropertyType::Vector4 => if pos + 16 <= b.len() {
                Some((ValueModel::Vector4(Vector4 {
                    x: read_u32(b, pos),
                    y: read_u32(b, pos + 4),
                    z: read_u32(b, pos + 8),
                    w: read_u32(b, pos + 12),
                }), pos + 16))
            } else {
                None
            },
        }
    }
}

/// Reads `n` elements of type `tag` from `pos`.
pub open spec fn parse_values(b: Seq<u8>, pos: int, tag: PropertyType, n: nat) -> Option<(Seq<ValueModel>, int)>
    decreases n,
{
    if n == 0 {
        Some((Seq::empty(), pos))
    } else {
        match parse_value(b, pos, tag) {
            None => None,
            Some((v, p1)) => match parse_values(b, p1, tag, (n - 1) as nat) {
                None => None,
                Some((vs, p2)) => Some((seq![v] + vs, p2)),
            },
        }
    }
}

/// Reads one property at `pos`; an unknown element type is rejected.
pub open spec fn parse_property(b: Seq<u8>, pos: int) -> Option<(PropertyModel, int)> {
    if pos < 0 || pos + 4 > b.len() {
        None
    } else {
        let p1 = pos + 4 + read_u32(b, pos) as int;
        if p1 + 6 > b.len() {
            None
        } else {
            match tag_of_id(read_u16(b, p1)) {
                None => None,
                Some(tag) => match parse_values(b, p1 + 6, tag, read_u32(b, p1 + 2) as nat) {
                    None => None,
                    Some((vs, p2)) => Some((PropertyModel { name: b.subrange(pos + 4, p1), tag, values: vs }, p2)),
                },
            }
        }
    }
}

/// Reads `n` properties from `pos`.
pub open spec fn parse_properties(b: Seq<u8>, pos: int, n: nat) -> Option<(Seq<PropertyModel>, int)>
    decreases n,
{
    if n == 0 {
        Some((Seq::empty(), pos))
    } else {
        match parse_property(b, pos) {
            None => None,
            Some((p, p1)) => match parse_properties(b, p1, (n - 1) as nat) {
                None => None,
                Some((ps, p2)) => Some((seq![p] + ps, p2)),
            },
        }
    }
}

/// Reads one node, with all its descendants, at `pos`; an unknown kind is rejected.
pub open spec fn parse_node(b: Seq<u8>, pos: int) -> Option<(NodeModel, int)>
    decreases b.len() - pos, 0nat,
{
    if pos < 0 || pos + 16 > b.len() {
        None
    } else {
        match kind_of_id(read_u32(b, pos)) {
            None => None,
            Some(kind) => match parse_properties(b, pos + 16, read_u32(b, pos + 12) as nat) {
                None => None,
                Some((props, p1)) => if p1 < pos + 16 || p1 + 4 > b.len() {
                    None
                } else {
                    match parse_nodes(b, p1 + 4, read_u32(b, p1) as nat) {
                        None => None,
                        Some((cs, p2)) => Some((NodeModel {
                            kind,
                            hash: read_u64(b, pos + 4),
                            properties: props,
                            children: cs,
                        }, p2)),
                    }
                },
            },
        }
    }
}

/// Reads `n` nodes, one after another, from `pos`.
pub open spec fn parse_nodes(b: Seq<u8>, pos: int, n: nat) -> Option<(Seq<NodeModel>, int)>
    decreases b.len() - pos, n,
{
    if n == 0 {
        Some((Seq::empty(), pos))
    } else if pos < 0 || pos > b.len() {
        None
    } else {
        match parse_node(b, pos) {
            None => None,
            Some((c, p1)) => if p1 <= pos || p1 > b.len() {
                None
            } else {
                match parse_nodes(b, p1, (n - 1) as nat) {
                    None => None,
                    Some((cs, p2)) => Some((seq![c] + cs, p2)),
                }
            },
        }
    }
}

/// The roots a whole stream holds, if it is well formed: the magic, the root count, the roots,
/// and nothing after them.
pub open spec fn parse_file(b: Seq<u8>) -> Option<Seq<NodeModel>> {
    if b.len() < 8 || read_u32(b, 0) != CAST_MAGIC {
        None
    } else {
        match parse_nodes(b, 8, read_u32(b, 4) as nat) {
            Some((roots, p)) => if p == b.len() {
                Some(roots)
            } else {
                None
            },
            None => None,
        }
    }
}

// ----- the round trip -----

/// A value reads back as itself: a string holds no zero byte.
pub open spec fn value_ok(v: ValueModel) -> bool {
    match v {
        ValueModel::String(s) => forall|k: int| 0 <= k < s.len() ==> #[trigger] s[k] != 0,
        _ => true,
    }
}

/// A property reads back as itself: its elements have its type and read back, and its counts
/// fit.
pub open spec fn property_ok(p: PropertyModel) -> bool {
    &&& p.wf()
    &&& property_fits(p)
    &&& forall|i: int| 0 <= i < p.values.len() ==> value_ok(#[trigger] p.values[i])
}

/// A node and all its descendants read back as themselves.
pub open spec fn node_ok(n: NodeModel) -> bool
    decreases n,
{
    &&& n.properties.len() <= u32::MAX
    &&& n.children.len() <= u32::MAX
    &&& forall|i: int| 0 <= i < n.properties.len() ==> property_ok(#[trigger] n.properties[i])
    &&& forall|i: int| 0 <= i < n.children.len() ==> node_ok(#[trigger] n.children[i])
}

proof fn lemma_nul_at(b: Seq<u8>, pos: int, e: int)
    requires
        0 <= pos <= e < b.len(),
        b[e] == 0,
        forall|k: int| pos <= k < e ==> b[k] != 0,
    ensures
        nul_at(b, pos) == Some(e),
    decreases e - pos,
{
    if pos < e {
        lemma_nul_at(b, pos + 1, e);
    }
}

proof fn lemma_flatten_first<A>(s: Seq<A>, f: spec_fn(A) -> Seq<u8>)
    requires
        s.len() > 0,
    ensures
        s.map_values(f).flatten() == f(s[0]) + s.subrange(1, s.len() as int).map_values(f).flatten(),
{
    assert(s.map_values(f).drop_first() =~= s.subrange(1, s.len() as int).map_values(f));
}

proof fn lemma_parse_value(b: Seq<u8>, pos: int, v: ValueModel)
    requires
        value_ok(v),
        holds_at(b, pos, enc_value(v)),
    ensures
        parse_value(b, pos, crate::property::type_of(v)) == Some((v, pos + enc_value(v).len())),
{
    match v {
        ValueModel::Byte(x) => {
            lemma_holds_index(b, pos, enc_value(v), 0);
        },
        ValueModel::Short(x) => lemma_read_u16(b, pos, x),
        ValueModel::Integer32(x) => lemma_read_u32(b, pos, x),
        ValueModel::Integer64(x) => lemma_read_u64(b, pos, x),
        ValueModel::Float(x) => lemma_read_u32(b, pos, x),
        ValueModel::String(s) => {
            let e = pos + s.len();
            lemma_holds_index(b, pos, s.push(0u8), s.len() as int);
            assert forall|k: int| pos <= k < e implies b[k] != 0 by {
                lemma_holds_index(b, pos, s.push(0u8), k - pos);
                assert(s.push(0u8)[k - pos] == s[k - pos]);
            }
            lemma_nul_at(b, pos, e);
            assert(s.push(0u8) =~= s + seq![0u8]);
            lemma_holds_split(b, pos, s, seq![0u8]);
        },
        ValueModel::Vector2(w) => {
            lemma_holds_split(b, pos, u32_le(w.x), u32_le(w.y));
            lemma_read_u32(b, pos, w.x);
            lemma_read_u32(b, pos + 4, w.y);
        },
        ValueModel::Vector3(w) => {
            lemma_holds_split(b, pos, u32_le(w.x) + u32_le(w.y), u32_le(w.z));
            lemma_holds_split(b, pos, u32_le(w.x), u32_le(w.y));
            lemma_read_u32(b, pos, w.x);
            lemma_read_u32(b, pos + 4, w.y);
            lemma_read_u32(b, pos + 8, w.z);
        },
        ValueModel::Vector4(w) => {
            lemma_holds_split(b, pos, u32_le(w.x) + u32_le(w.y) + u32_le(w.z), u32_le(w.w));
            lemma_holds_split(b, pos, u32_le(w.x) + u32_le(w.y), u32_le(w.z));
            lemma_holds_split(b, pos, u32_le(w.x), u32_le(w.y));
            lemma_read_u32(b, pos, w.x);
            lemma_read_u32(b, pos + 4, w.y);
            lemma_read_u32(b, pos + 8, w.z);
            lemma_read_u32(b, pos + 12, w.w);
        },
    }
}

proof fn lemma_parse_values(b: Seq<u8>, pos: int, vs: Seq<ValueModel>, tag: PropertyType)
    requires
        forall|i: int| 0 <= i < vs.len() ==> value_ok(#[trigger] vs[i]) && crate::property::type_of(vs[i]) == tag,
        holds_at(b, pos, enc_values(vs)),
    ensures
        parse_values(b, pos, tag, vs.len()) == Some((vs, pos + enc_values(vs).len())),
    decreases vs.len(),
{
    if vs.len() == 0 {
        assert(vs =~= Seq::<ValueModel>::empty());
        assert(enc_values(vs) =~= Seq::<u8>::empty());
    } else {
        let f = |v: ValueModel| enc_value(v);
        let rest = vs.subrange(1, vs.len() as int);
        lemma_flatten_first(vs, f);
        assert(vs.map_values(f) == vs.map_values(|v: ValueModel| enc_value(v)));
        assert(enc_values(vs) == enc_value(vs[0]) + enc_values(rest));
        lemma_holds_split(b, pos, enc_value(vs[0]), enc_values(rest));
        assert(value_ok(vs[0]));
        lemma_parse_value(b, pos, vs[0]);
        lemma_parse_values(b, pos + enc_value(vs[0]).len(), rest, tag);
        assert(seq![vs[0]] + rest =~= vs);
    }
}

proof fn lemma_parse_property(b: Seq<u8>, pos: int, p: PropertyModel)
    requires
        property_ok(p),
        holds_at(b, pos, enc_property(p)),
    ensures
        parse_property(b, pos) == Some((p, pos + enc_property(p).len())),
{
    let a = u32_le(p.name.len() as u32);
    let c = u16_le(tag_id(p.tag));
    let d = u32_le(p.values.len() as u32);
    let e = enc_values(p.values);
    lemma_holds_split(b, pos, a + p.name + c + d, e);
    lemma_holds_split(b, pos, a + p.name + c, d);
    lemma_holds_split(b, pos, a + p.name, c);
    lemma_holds_split(b, pos, a, p.name);
    lemma_read_u32(b, pos, p.name.len() as u32);
    let p1 = pos + 4 + p.name.len();
    lemma_read_u16(b, p1, tag_id(p.tag));
    lemma_read_u32(b, p1 + 2, p.values.len() as u32);
    assert(tag_of_id(tag_id(p.tag)) == Some(p.tag));
    lemma_parse_values(b, p1 + 6, p.values, p.tag);
}

proof fn lemma_parse_properties(b: Seq<u8>, pos: int, ps: Seq<PropertyModel>)
    requires
        forall|i: int| 0 <= i < ps.len() ==> property_ok(#[trigger] ps[i]),
        holds_at(b, pos, enc_properties(ps)),
    ensures
        parse_properties(b, pos, ps.len()) == Some((ps, pos + enc_properties(ps).len())),
    decreases ps.len(),
{
    if ps.len() == 0 {
        assert(ps =~= Seq::<PropertyModel>::empty());
        assert(enc_properties(ps) =~= Seq::<u8>::empty());
    } else {
        let f = |p: PropertyModel| enc_property(p);
        let rest = ps.subrange(1, ps.len() as int);
        lemma_flatten_first(ps, f);
        assert(ps.map_values(f) == ps.map_values(|p: PropertyModel| enc_property(p)));
        assert(enc_properties(ps) == enc_property(ps[0]) + enc_properties(rest));
        lemma_holds_split(b, pos, enc_property(ps[0]), enc_properties(rest));
        assert(property_ok(ps[0]));
        lemma_parse_property(b, pos, ps[0]);
        lemma_parse_properties(b, pos + enc_property(ps[0]).len(), rest);
        assert(seq![ps[0]] + rest =~= ps);
    }
}

proof fn lemma_parse_node(b: Seq<u8>, pos: int, n: NodeModel)
    requires
        node_ok(n),
        holds_at(b, pos, enc_node(n)),
    ensures
        parse_node(b, pos) == Some((n, pos + enc_node(n).len())),
    decreases n,
{
    let a = u32_le(kind_id(n.kind));
    let h = u64_le(n.hash);
    let pc = u32_le(n.properties.len() as u32);
    let ps = enc_properties(n.properties);
    let cc = u32_le(n.children.len() as u32);
    let cs = enc_nodes(n.children);
    lemma_holds_split(b, pos, a + h + pc + ps + cc, cs);
    lemma_holds_split(b, pos, a + h + pc + ps, cc);
    lemma_holds_split(b, pos, a + h + pc, ps);
    lemma_holds_split(b, pos, a + h, pc);
    lemma_holds_split(b, pos, a, h);
    lemma_read_u32(b, pos, kind_id(n.kind));
    lemma_read_u64(b, pos + 4, n.hash);
    lemma_read_u32(b, pos + 12, n.properties.len() as u32);
    assert(kind_of_id(kind_id(n.kind)) == Some(n.kind));
    lemma_parse_properties(b, pos + 16, n.properties);
    let p1 = pos + 16 + ps.len();
    lemma_read_u32(b, p1, n.children.len() as u32);
    lemma_parse_nodes(b, p1 + 4, n.children);
}

proof fn lemma_parse_nodes(b: Seq<u8>, pos: int, cs: Seq<NodeModel>)
    requires
        forall|i: int| 0 <= i < cs.len() ==> node_ok(#[trigger] cs[i]),
        holds_at(b, pos, enc_nodes(cs)),
    ensures
        parse_nodes(b, pos, cs.len()) == Some((cs, pos + enc_nodes(cs).len())),
    decreases cs,
{
    if cs.len() == 0 {
        assert(cs =~= Seq::<NodeModel>::empty());
    } else {
        let rest = cs.subrange(1, cs.len() as int);
        lemma_holds_split(b, pos, enc_node(cs[0]), enc_nodes(rest));
        assert(node_ok(cs[0]));
        lemma_parse_node(b, pos, cs[0]);
        lemma_enc_node_nonempty(cs[0]);
        lemma_parse_nodes(b, pos + enc_node(cs[0]).len(), rest);
        assert(seq![cs[0]] + rest =~= cs);
    }
}

proof fn lemma_enc_node_nonempty(n: NodeModel)
    ensures
        enc_node(n).len() >= 20,
{
}

/// Round trip: for any forest whose elements match their properties' types, whose strings hold
/// no zero byte and whose counts fit in 32 bits, reading the stream written for it gives back
/// the same forest: kinds, identities, property names, types and values, and the order of
/// properties and children.
pub proof fn lemma_round_trip(roots: Seq<NodeModel>)
    requires
        roots.len() <= u32::MAX,
        forall|i: int| 0 <= i < roots.len() ==> node_ok(#[trigger] roots[i]),
    ensures
        parse_file(enc_file(roots)) == Some(roots),
{
    let b = enc_file(roots);
    let a = u32_le(CAST_MAGIC);
    let c = u32_le(roots.len() as u32);
    assert(b.subrange(0, b.len() as int) =~= b);
    lemma_holds_split(b, 0, a + c, enc_nodes(roots));
    lemma_holds_split(b, 0, a, c);
    lemma_read_u32(b, 0, CAST_MAGIC);
    lemma_read_u32(b, 4, roots.len() as u32);
    lemma_parse_nodes(b, 8, roots);
}

// ----- writing -----

fn write_value(out: &mut Vec<u8>, v: &PropertyValue)
    ensures
        final(out)@ == old(out)@ + enc_value(v@),
{
    match v {
        PropertyValue::Byte(x) => {
            out.push(*x);
            assert(out@ =~= old(out)@ + seq![*x]);
        },
        PropertyValue::Short(x) => write_u16(out, *x),
        PropertyValue::Integer32(x) => write_u32(out, *x),
        PropertyValue::Integer64(x) => write_u64(out, *x),
        PropertyValue::Float(x) => write_u32(out, *x),
        PropertyValue::String(s) => {
            let mut i: usize = 0;
            while i < s.len()
                invariant
                    i <= s@.len(),
                    out@ == old(out)@ + s@.subrange(0, i as int),
                decreases s@.len() - i,
            {
                out.push(s[i]);
                i = i + 1;
                assert(out@ =~= old(out)@ + s@.subrange(0, i as int));
            }
            out.push(0u8);
            assert(out@ =~= old(out)@ + s@.push(0u8));
        },
        PropertyValue::Vector2(v) => {
            write_u32(out, v.x);
            write_u32(out, v.y);
            assert(out@ =~= old(out)@ + (u32_le(v.x) + u32_le(v.y)));
        },
        PropertyValue::Vector3(v) => {
            write_u32(out, v.x);
            write_u32(out, v.y);
            write_u32(out, v.z);
            assert(out@ =~= old(out)@ + (u32_le(v.x) + u32_le(v.y) + u32_le(v.z)));
        },
        PropertyValue::Vector4(v) => {
            write_u32(out, v.x);
            write_u32(out, v.y);
            write_u32(out, v.z);
            write_u32(out, v.w);
            assert(out@ =~= old(out)@ + (u32_le(v.x) + u32_le(v.y) + u32_le(v.z) + u32_le(v.w)));
        },
    }
}

fn write_property(out: &mut Vec<u8>, p: &Property) -> (r: Result<(), CastError>)
    ensures
        r is Ok <==> property_fits(p@),
        r is Ok ==> final(out)@ == old(out)@ + enc_property(p@),
        r is Err ==> r == Err::<(), CastError>(CastError::TooLarge),
{
    let name = p.name();
    let values = p.values();
    if name.len() > 0xFFFF_FFFFusize || values.len() > 0xFFFF_FFFFusize {
        return Err(CastError::TooLarge);
    }
    write_u32(out, name.len() as u32);
    let mut i: usize = 0;
    while i < name.len()
        invariant
            i <= name@.len(),
            name@ == p@.name,
            out@ == old(out)@ + u32_le(p@.name.len() as u32) + name@.subrange(0, i as int),
        decreases name@.len() - i,
    {
        out.push(name[i]);
        i = i + 1;
        assert(out@ =~= old(out)@ + u32_le(p@.name.len() as u32) + name@.subrange(0, i as int));
    }
    assert(name@.subrange(0, name@.len() as int) =~= name@);
    write_u16(out, tag_to_id(p.tag()));
    write_u32(out, values.len() as u32);
    let ghost head = out@;
    let ghost f = |v: ValueModel| enc_value(v);
    let mut j: usize = 0;
    while j < values.len()
        invariant
            j <= values@.len(),
            values_view(values@) == p@.values,
            out@ == head + enc_values(p@.values.subrange(0, j as int)),
            f == (|v: ValueModel| enc_value(v)),
        decreases values@.len() - j,
    {
        proof {
            lemma_flatten_step(p@.values, f, j as int);
            assert(p@.values[j as int] == values@[j as int]@);
        }
        write_value(out, &values[j]);
        j = j + 1;
    }
    proof {
        assert(p@.values.subrange(0, j as int) =~= p@.values);
        assert(out@ =~= old(out)@ + enc_property(p@));
    }
    Ok(())
}

fn write_node(out: &mut Vec<u8>, n: &Node) -> (r: Result<(), CastError>)
    ensures
        r is Ok <==> node_fits(n@),
        r is Ok ==> final(out)@ == old(out)@ + enc_node(n@),
        r is Err ==> r == Err::<(), CastError>(CastError::TooLarge),
    decreases n@,
{
    let props = n.properties();
    let children = n.children();
    if props.len() > 0xFFFF_FFFFusize || children.len() > 0xFFFF_FFFFusize {
        return Err(CastError::TooLarge);
    }
    write_u32(out, kind_to_id(n.kind()));
    write_u64(out, n.hash());
    write_u32(out, props.len() as u32);
    let ghost head = out@;
    let ghost fp = |p: PropertyModel| enc_property(p);
    let mut i: usize = 0;
    while i < props.len()
        invariant
            i <= props@.len(),
            properties_view(props@) == n@.properties,
            out@ == head + enc_properties(n@.properties.subrange(0, i as int)),
            forall|k: int| 0 <= k < i ==> property_fits(#[trigger] n@.properties[k]),
            fp == (|p: PropertyModel| enc_property(p)),
        decreases props@.len() - i,
    {
        proof {
            lemma_flatten_step(n@.properties, fp, i as int);
            assert(n@.properties[i as int] == props@[i as int]@);
        }
        match write_property(out, &props[i]) {
            Ok(()) => {},
            Err(e) => {
                return Err(e);
            },
        }
        i = i + 1;
    }
    assert(n@.properties.subrange(0, i as int) =~= n@.properties);
    write_u32(out, children.len() as u32);
    let ghost mid = out@;
    let ghost fc = |c: NodeModel| enc_node(c);
    let mut j: usize = 0;
    while j < children.len()
        invariant
            j <= children@.len(),
            children@.map_values(|c: Node| c@) == n@.children,
            out@ == mid + enc_nodes(n@.children.subrange(0, j as int)),
            forall|k: int| 0 <= k < j ==> node_fits(#[trigger] n@.children[k]),
            fc == (|c: NodeModel| enc_node(c)),
        decreases children@.len() - j,
    {
        proof {
            lemma_enc_nodes_flatten(n@.children.subrange(0, j as int));
            lemma_enc_nodes_flatten(n@.children.subrange(0, j + 1));
            lemma_flatten_step(n@.children, fc, j as int);
            assert(n@.children[j as int] == children@[j as int]@);
        }
        match write_node(out, &children[j]) {
            Ok(()) => {},
            Err(e) => {
                return Err(e);
            },
        }
        j = j + 1;
    }
    proof {
        assert(n@.children.subrange(0, j as int) =~= n@.children);
        assert(out@ =~= old(out)@ + enc_node(n@));
    }
    Ok(())
}

// ----- decoding -----

fn find_nul(b: &Vec<u8>, pos: usize) -> (r: Option<usize>)
    ensures
        match r {
            Some(e) => nul_at(b@, pos as int) == Some(e as int),
            None => nul_at(b@, pos as int) is None,
        },
{
    let mut k: usize = pos;
    while k < b.len()
        invariant
            pos <= k,
            nul_at(b@, pos as int) == nul_at(b@, k as int),
        decreases b@.len() - k,
    {
        if b[k] == 0 {
            return Some(k);
        }
        k = k + 1;
    }
    None
}

fn read_value(b: &Vec<u8>, pos: usize, tag: PropertyType) -> (r: Option<(PropertyValue, usize)>)
    ensures
        match r {
            Some((v, p)) => parse_value(b@, pos as int, tag) == Some((v@, p as int)) && crate::property::type_of(v@) == tag,
            None => parse_value(b@, pos as int, tag) is None,
        },
{
    let len = b.len();
    if pos > len {
        return None;
    }
    let room = len - pos;
    match tag {
        PropertyType::Byte => if room >= 1 {
            Some((PropertyValue::Byte(b[pos]), pos + 1))
        } else {
            None
        },
        PropertyType::Short => if room >= 2 {
            Some((PropertyValue::Short(get_u16(b, pos)), pos + 2))
        } else {
            None
        },
        PropertyType::Integer32 => if room >= 4 {
            Some((PropertyValue::Integer32(get_u32(b, pos)), pos + 4))
        } else {
            None
        },
        PropertyType::Integer64 => if room >= 8 {
            Some((PropertyValue::Integer64(get_u64(b, pos)), pos + 8))
        } else {
            None
        },
        PropertyType::Float => if room >= 4 {
            Some((PropertyValue::Float(get_u32(b, pos)), pos + 4))
        } else {
            None
        },
        PropertyType::String => match find_nul(b, pos) {
            Some(e) => {
                proof {
                    lemma_nul_at_bounds(b@, pos as int);
                }
                let mut s: Vec<u8> = Vec::new();
                let mut k: usize = pos;
                while k < e
                    invariant
                        pos <= k <= e < b@.len(),
                        s@ == b@.subrange(pos as int, k as int),
                    decreases e - k,
                {
                    s.push(b[k]);
                    k = k + 1;
                    assert(s@ =~= b@.subrange(pos as int, k as int));
                }
                Some((PropertyValue::String(s), e + 1))
            },
            None => None,
        },
        PropertyType::Vector2 => if room >= 8 {
            Some((PropertyValue::Vector2(Vector2 { x: get_u32(b, pos), y: get_u32(b, pos + 4) }), pos + 8))
        } else {
            None
        },
        PropertyType::Vector3 => if room >= 12 {
            Some((PropertyValue::Vector3(Vector3 {
                x: get_u32(b, pos),
                y: get_u32(b, pos + 4),
                z: get_u32(b, pos + 8),
            }), pos + 12))
        } else {
            None
        },
        PropertyType::Vector4 => if room >= 16 {
            Some((PropertyValue::Vector4(Vector4 {
                x: get_u32(b, pos),
                y: get_u32(b, pos + 4),
                z: get_u32(b, pos + 8),
                w: get_u32(b, pos + 12),
            }), pos + 16))
        } else {
            None
        },
    }
}

proof fn lemma_nul_at_bounds(b: Seq<u8>, pos: int)
    ensures
        match nul_at(b, pos) {
            Some(e) => pos <= e < b.len() && b[e] == 0,
            None => true,
        },
    decreases b.len() - pos,
{
    if 0 <= pos < b.len() && b[pos] != 0 {
        lemma_nul_at_bounds(b, pos + 1);
    }
}

fn read_values(b: &Vec<u8>, pos: usize, tag: PropertyType, n: u32) -> (r: Option<(Vec<PropertyValue>, usize)>)
    ensures
        match r {
            Some((vs, p)) => parse_values(b@, pos as int, tag, n as nat) == Some((values_view(vs@), p as int))
                && forall|k: int| 0 <= k < vs@.len() ==> crate::property::type_of(#[trigger] vs@[k]@) == tag,
            None => parse_values(b@, pos as int, tag, n as nat) is None,
        },
{
    let mut acc: Vec<PropertyValue> = Vec::new();
    let mut cur: usize = pos;
    let mut i: u32 = 0;
    assert(values_view(acc@) =~= Seq::<ValueModel>::empty());
    proof {
        match parse_values(b@, pos as int, tag, n as nat) {
            Some((rest, e)) => {
                assert(values_view(acc@) + rest =~= rest);
            },
            None => {},
        }
    }
    while i < n
        invariant
            i <= n,
            forall|k: int| 0 <= k < acc@.len() ==> crate::property::type_of(#[trigger] acc@[k]@) == tag,
            match parse_values(b@, cur as int, tag, (n - i) as nat) {
                Some((rest, e)) => parse_values(b@, pos as int, tag, n as nat) == Some((values_view(acc@) + rest, e)),
                None => parse_values(b@, pos as int, tag, n as nat) is None,
            },
        decreases n - i,
    {
        match read_value(b, cur, tag) {
            Some((v, c1)) => {
                proof {
                    assert(values_view(acc@.push(v)) =~= values_view(acc@).push(v@));
                    match parse_values(b@, c1 as int, tag, (n - i - 1) as nat) {
                        Some((vs, e)) => {
                            assert(values_view(acc@).push(v@) + vs =~= values_view(acc@) + (seq![v@] + vs));
                        },
                        None => {},
                    }
                }
                acc.push(v);
                cur = c1;
                i = i + 1;
            },
            None => {
                return None;
            },
        }
    }
    assert(values_view(acc@) + Seq::<ValueModel>::empty() =~= values_view(acc@));
    Some((acc, cur))
}

fn read_property(b: &Vec<u8>, pos: usize) -> (r: Option<(Property, usize)>)
    ensures
        match r {
            Some((p, q)) => parse_property(b@, pos as int) == Some((p@, q as int)),
            None => parse_property(b@, pos as int) is None,
        },
{
    let len = b.len();
    if pos > len || len - pos < 4 {
        return None;
    }
    let name_len = get_u32(b, pos) as usize;
    if len - pos - 4 < name_len || len - pos - 4 - name_len < 6 {
        return None;
    }
    let p1 = pos + 4 + name_len;
    let tag = match tag_from_id(get_u16(b, p1)) {
        Some(t) => t,
        None => {
            return None;
        },
    };
    let count = get_u32(b, p1 + 2);
    match read_values(b, p1 + 6, tag, count) {
        Some((vs, p2)) => {
            let mut name: Vec<u8> = Vec::new();
            let mut k: usize = pos + 4;
            while k < p1
                invariant
                    pos + 4 <= k <= p1 <= b@.len(),
                    name@ == b@.subrange(pos + 4, k as int),
                decreases p1 - k,
            {
                name.push(b[k]);
                k = k + 1;
                assert(name@ =~= b@.subrange(pos + 4, k as int));
            }
            Some((Property::from_parts(tag, name, vs), p2))
        },
        None => None,
    }
}

fn read_properties(b: &Vec<u8>, pos: usize, n: u32) -> (r: Option<(Vec<Property>, usize)>)
    ensures
        match r {
            Some((ps, p)) => parse_properties(b@, pos as int, n as nat) == Some((properties_view(ps@), p as int)),
            None => parse_properties(b@, pos as int, n as nat) is None,
        },
{
    let mut acc: Vec<Property> = Vec::new();
    let mut cur: usize = pos;
    let mut i: u32 = 0;
    assert(properties_view(acc@) =~= Seq::<PropertyModel>::empty());
    proof {
        match parse_properties(b@, pos as int, n as nat) {
            Some((rest, e)) => {
                assert(properties_view(acc@) + rest =~= rest);
            },
            None => {},
        }
    }
    while i < n
        invariant
            i <= n,
            match parse_properties(b@, cur as int, (n - i) as nat) {
                Some((rest, e)) => parse_properties(b@, pos as int, n as nat) == Some((properties_view(acc@) + rest, e)),
                None => parse_properties(b@, pos as int, n as nat) is None,
            },
        decreases n - i,
    {
        match read_property(b, cur) {
            Some((p, c1)) => {
                proof {
                    assert(properties_view(acc@.push(p)) =~= properties_view(acc@).push(p@));
                    match parse_properties(b@, c1 as int, (n - i - 1) as nat) {
                        Some((ps, e)) => {
                            assert(properties_view(acc@).push(p@) + ps =~= properties_view(acc@) + (seq![p@] + ps));
                        },
                        None => {},
                    }
                }
                acc.push(p);
                cur = c1;
                i = i + 1;
            },
            None => {
                return None;
            },
        }
    }
    assert(properties_view(acc@) + Seq::<PropertyModel>::empty() =~= properties_view(acc@));
    Some((acc, cur))
}

fn read_node(b: &Vec<u8>, pos: usize) -> (r: Option<(Node, usize)>)
    ensures
        match r {
            Some((n, p)) => parse_node(b@, pos as int) == Some((n@, p as int)),
            None => parse_node(b@, pos as int) is None,
        },
    decreases b@.len() - pos, 0nat,
{
    let len = b.len();
    if pos > len || len - pos < 16 {
        return None;
    }
    let kind = match kind_from_id(get_u32(b, pos)) {
        Some(k) => k,
        None => {
            return None;
        },
    };
    let hash = get_u64(b, pos + 4);
    let (props, p1) = match read_properties(b, pos + 16, get_u32(b, pos + 12)) {
        Some(x) => x,
        None => {
            return None;
        },
    };
    if p1 < pos + 16 || p1 > len || len - p1 < 4 {
        return None;
    }
    let (children, p2) = match read_nodes(b, p1 + 4, get_u32(b, p1)) {
        Some(x) => x,
        None => {
            return None;
        },
    };
    Some((Node::from_parts(kind, hash, props, children), p2))
}

fn read_nodes(b: &Vec<u8>, pos: usize, n: u32) -> (r: Option<(Vec<Node>, usize)>)
    ensures
        match r {
            Some((cs, p)) => parse_nodes(b@, pos as int, n as nat) == Some((cs@.map_values(|c: Node| c@), p as int)),
            None => parse_nodes(b@, pos as int, n as nat) is None,
        },
    decreases b@.len() - pos, n,
{
    if n == 0 {
        let none: Vec<Node> = Vec::new();
        assert(none@.map_values(|c: Node| c@) =~= Seq::<NodeModel>::empty());
        return Some((none, pos));
    }
    if pos > b.len() {
        return None;
    }
    let mut acc: Vec<Node> = Vec::new();
    let mut cur: usize = pos;
    let mut i: u32 = 0;
    assert(acc@.map_values(|c: Node| c@) =~= Seq::<NodeModel>::empty());
    proof {
        match parse_nodes(b@, pos as int, n as nat) {
            Some((rest, e)) => {
                assert(acc@.map_values(|c: Node| c@) + rest =~= rest);
            },
            None => {},
        }
    }
    while i < n
        invariant
            i <= n,
            pos <= cur <= b@.len(),
            i > 0 ==> pos < cur,
            match parse_nodes(b@, cur as int, (n - i) as nat) {
                Some((rest, e)) => parse_nodes(b@, pos as int, n as nat) == Some((acc@.map_values(|c: Node| c@) + rest, e)),
                None => parse_nodes(b@, pos as int, n as nat) is None,
            },
        decreases n - i,
    {
        match read_node(b, cur) {
            Some((c, c1)) => {
                if c1 <= cur || c1 > b.len() {
                    return None;
                }
                proof {
                    assert(acc@.push(c).map_values(|c: Node| c@) =~= acc@.map_values(|c: Node| c@).push(c@));
                    match parse_nodes(b@, c1 as int, (n - i - 1) as nat) {
                        Some((cs, e)) => {
                            assert(acc@.map_values(|c: Node| c@).push(c@) + cs =~= acc@.map_values(|c: Node| c@) + (seq![c@] + cs));
                        },
                        None => {},
                    }
                }
                acc.push(c);
                cur = c1;
                i = i + 1;
            },
            None => {
                return None;
            },
        }
    }
    assert(acc@.map_values(|c: Node| c@) + Seq::<NodeModel>::empty() =~= acc@.map_values(|c: Node| c@));
    Some((acc, cur))
}


// ----- checking that a tree reads back -----

fn value_reads_back(v: &PropertyValue) -> (r: bool)
    ensures
        r == value_ok(v@),
{
    match v {
        PropertyValue::String(s) => {
            assert(v@ == ValueModel::String(s@));
            let mut k: usize = 0;
            while k < s.len()
                invariant
                    k <= s@.len(),
                    v@ == ValueModel::String(s@),
                    forall|j: int| 0 <= j < k ==> #[trigger] s@[j] != 0,
                decreases s@.len() - k,
            {
                if s[k] == 0 {
                    proof {
                        let q = match v@ {
                            ValueModel::String(q) => q,
                            _ => s@,
                        };
                        assert(q == s@);
                        assert(q[k as int] == 0);
                        assert(!(forall|j: int| 0 <= j < q.len() ==> #[trigger] q[j] != 0));
                    }
                    return false;
                }
                k = k + 1;
            }
            true
        },
        _ => true,
    }
}

fn property_reads_back(p: &Property) -> (r: bool)
    ensures
        r == property_ok(p@),
{
    let values = p.values();
    if p.name().len() > 0xFFFF_FFFFusize || values.len() > 0xFFFF_FFFFusize {
        return false;
    }
    let tag = p.tag();
    let mut k: usize = 0;
    while k < values.len()
        invariant
            k <= values@.len(),
            values_view(values@) == p@.values,
            tag == p@.tag,
            forall|j: int| 0 <= j < k ==> crate::property::type_of(#[trigger] p@.values[j]) == tag && value_ok(p@.values[j]),
        decreases values@.len() - k,
    {
        assert(p@.values[k as int] == values@[k as int]@);
        if values[k].property_type() != tag || !value_reads_back(&values[k]) {
            return false;
        }
        k = k + 1;
    }
    true
}

/// Whether a node and all its descendants read back as themselves.
pub fn node_reads_back(n: &Node) -> (r: bool)
    ensures
        r == node_ok(n@),
    decreases n@,
{
    let props = n.properties();
    let children = n.children();
    if props.len() > 0xFFFF_FFFFusize || children.len() > 0xFFFF_FFFFusize {
        return false;
    }
    let mut i: usize = 0;
    while i < props.len()
        invariant
            i <= props@.len(),
            properties_view(props@) == n@.properties,
            forall|k: int| 0 <= k < i ==> property_ok(#[trigger] n@.properties[k]),
        decreases props@.len() - i,
    {
        assert(n@.properties[i as int] == props@[i as int]@);
        if !property_reads_back(&props[i]) {
            return false;
        }
        i = i + 1;
    }
    let mut j: usize = 0;
    while j < children.len()
        invariant
            j <= children@.len(),
            children@.map_values(|c: Node| c@) == n@.children,
            forall|k: int| 0 <= k < j ==> node_ok(#[trigger] n@.children[k]),
        decreases children@.len() - j,
    {
        assert(n@.children[j as int] == children@[j as int]@);
        if !node_reads_back(&children[j]) {
            return false;
        }
        j = j + 1;
    }
    true
}

/// An ordered sequence of root nodes: what one stream holds.
#[derive(Debug)]
pub struct CastFile {
    roots: Vec<Node>,
}

impl View for CastFile {
    type V = Seq<NodeModel>;

    closed spec fn view(&self) -> Seq<NodeModel> {
        self.roots@.map_values(|c: Node| c@)
    }
}

impl CastFile {
    /// A container with no roots.
    pub fn new() -> (r: CastFile)
        ensures
            r@ == Seq::<NodeModel>::empty(),
    {
        let r = CastFile { roots: Vec::new() };
        assert(r@ =~= Seq::<NodeModel>::empty());
        r
    }

    /// Appends a root node.
    pub fn push(&mut self, root: Node)
        ensures
            final(self)@ == old(self)@.push(root@),
    {
        self.roots.push(root);
        assert(self@ =~= old(self)@.push(root@));
    }

    /// The root nodes, in order.
    pub fn roots(&self) -> (r: &Vec<Node>)
        ensures
            r@.map_values(|c: Node| c@) == self@,
    {
        &self.roots
    }

    /// Reads a whole stream. Fails, returning no partial forest, where the stream does not open
    /// with the magic, names an unknown node kind or element type, ends before a declared count
    /// of elements, properties or children is complete, or goes on after the last root.
    pub fn read(bytes: &Vec<u8>) -> (r: Result<CastFile, CastError>)
        ensures
            r is Ok <==> parse_file(bytes@) is Some,
            r is Ok ==> r->Ok_0@ == parse_file(bytes@)->Some_0,
            r is Err ==> r == Err::<CastFile, CastError>(CastError::Malformed),
    {
        if bytes.len() < 8 || get_u32(bytes, 0) != CAST_MAGIC {
            return Err(CastError::Malformed);
        }
        match read_nodes(bytes, 8, get_u32(bytes, 4)) {
            Some((roots, p)) => if p == bytes.len() {
                Ok(CastFile { roots })
            } else {
                Err(CastError::Malformed)
            },
            None => Err(CastError::Malformed),
        }
    }

    /// Serializes the whole forest depth-first. Fails only where a count does not fit in 32
    /// bits.
    pub fn write(&self) -> (r: Result<Vec<u8>, CastError>)
        ensures
            r is Ok <==> file_fits(self@),
            r is Ok ==> r->Ok_0@ == enc_file(self@),
            r is Err ==> r == Err::<Vec<u8>, CastError>(CastError::TooLarge),
    {
        let mut out: Vec<u8> = Vec::new();
        if self.roots.len() > 0xFFFF_FFFFusize {
            return Err(CastError::TooLarge);
        }
        write_u32(&mut out, CAST_MAGIC);
        write_u32(&mut out, self.roots.len() as u32);
        let ghost head = out@;
        let ghost fc = |c: NodeModel| enc_node(c);
        let mut j: usize = 0;
        while j < self.roots.len()
            invariant
                j <= self@.len(),
                self.roots@.len() == self@.len(),
                out@ == head + enc_nodes(self@.subrange(0, j as int)),
                forall|k: int| 0 <= k < j ==> node_fits(#[trigger] self@[k]),
                fc == (|c: NodeModel| enc_node(c)),
            decreases self@.len() - j,
        {
            proof {
                lemma_enc_nodes_flatten(self@.subrange(0, j as int));
                lemma_enc_nodes_flatten(self@.subrange(0, j + 1));
                lemma_flatten_step(self@, fc, j as int);
            }
            match write_node(&mut out, &self.roots[j]) {
                Ok(()) => {},
                Err(e) => {
                    return Err(e);
                },
            }
            j = j + 1;
        }
        proof {
            assert(self@.subrange(0, j as int) =~= self@);
            assert(out@ =~= enc_file(self@));
        }
        Ok(out)
    }
}

} // verus!
