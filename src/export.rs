use vstd::prelude::*;
use vstd::string::StringSliceAdditionalSpecFns;
use vstd::utf8::encode_utf8;

use crate::model::{
    Axis, BlendShape, Bone, Constraint, ConstraintType, IKHandle, Material, MaterialTextureRef,
    MaterialTextureRefUsage, Mesh, Model, SkinningMethod, Skeleton,
};
use crate::node::{
    Node, NodeIds, NodeKind, NodeModel, fresh_range, hashes, lemma_append_children_fresh, lemma_leaf_fresh,
    lemma_push_child_fresh,
};
use crate::codec::{CastFile, enc_file, file_fits, lemma_round_trip, node_ok, node_reads_back, parse_file};
use crate::property::{Property, PropertyModel, PropertyType, PropertyValue, ValueModel, type_of};
use crate::vector::{Vector3, Vector4};

verus! {

/// Why a scene could not be converted.
#[derive(Clone, Copy, Debug, PartialEq, Eq, Structural)]
pub enum ModelError {
    /// A required reference (a bone of a handle or constraint, a vertex of a blend shape) does
    /// not exist.
    ReferenceNotFound,
    /// The scene needs more nodes than there are identities, or a count does not fit in 32 bits.
    CapacityExceeded,
    /// A name holds a zero byte, which the stream's zero-terminated strings cannot carry.
    InvalidName,
}

// ----- text -----

/// The UTF-8 bytes of a string.
pub open spec fn text(s: String) -> Seq<u8> {
    encode_utf8(s@)
}

/// The decimal digits of `n`, most significant first.
pub open spec fn decimal(n: nat) -> Seq<u8>
    decreases n,
{
    if n < 10 {
        seq![(48 + n) as u8]
    } else {
        decimal(n / 10).push((48 + n % 10) as u8)
    }
}

fn str_bytes(s: &str) -> (r: Vec<u8>)
    ensures
        r@ == s.spec_bytes(),
{
    let bytes = s.as_bytes();
    let mut copy: Vec<u8> = Vec::new();
    let mut i: usize = 0;
    while i < bytes.len()
        invariant
            i <= bytes@.len(),
            copy@ == bytes@.subrange(0, i as int),
        decreases bytes@.len() - i,
    {
        copy.push(bytes[i]);
        i = i + 1;
        assert(copy@ =~= bytes@.subrange(0, i as int));
    }
    assert(copy@ =~= bytes@);
    copy
}

fn string_bytes(s: &String) -> (r: Vec<u8>)
    ensures
        r@ == text(*s),
{
    str_bytes(s.as_str())
}

fn push_decimal(out: &mut Vec<u8>, n: usize)
    ensures
        final(out)@ == old(out)@ + decimal(n as nat),
    decreases n,
{
    if n >= 10 {
        push_decimal(out, n / 10);
    }
    out.push((48 + n % 10) as u8);
    assert(out@ =~= old(out)@ + decimal(n as nat));
}

/// `prefix` followed by the decimal digits of `n`.
fn numbered(prefix: &str, n: usize) -> (r: Vec<u8>)
    ensures
        r@ == prefix.spec_bytes() + decimal(n as nat),
{
    let mut r = str_bytes(prefix);
    push_decimal(&mut r, n);
    r
}

// ----- single-valued properties -----

/// A property holding one value.
pub open spec fn one(name: Seq<u8>, tag: PropertyType, v: ValueModel) -> PropertyModel {
    PropertyModel { name, tag, values: seq![v] }
}

/// A string property holding one string.
pub open spec fn text_prop(name: Seq<u8>, value: Seq<u8>) -> PropertyModel {
    one(name, PropertyType::String, ValueModel::String(value))
}

/// An `Integer64` property holding a reference to the node with identity `hash`.
pub open spec fn ref_prop(name: Seq<u8>, hash: u64) -> PropertyModel {
    one(name, PropertyType::Integer64, ValueModel::Integer64(hash))
}

/// A `Byte` property holding a flag as 0 or 1.
pub open spec fn flag_prop(name: Seq<u8>, b: bool) -> PropertyModel {
    one(name, PropertyType::Byte, ValueModel::Byte(if b { 1u8 } else { 0u8 }))
}

fn single_named(tag: PropertyType, name: Vec<u8>, v: PropertyValue) -> (r: Property)
    requires
        type_of(v@) == tag,
    ensures
        r@ == one(name@, tag, v@),
{
    let mut p = Property::from_name_bytes(tag, name);
    let _ = p.push(v);
    assert(p@.values =~= seq![v@]);
    p
}

fn single(tag: PropertyType, name: &str, v: PropertyValue) -> (r: Property)
    requires
        type_of(v@) == tag,
    ensures
        r@ == one(name.spec_bytes(), tag, v@),
{
    single_named(tag, str_bytes(name), v)
}

fn str_prop(name: &str, value: &str) -> (r: Property)
    ensures
        r@ == text_prop(name.spec_bytes(), value.spec_bytes()),
{
    single(PropertyType::String, name, PropertyValue::String(str_bytes(value)))
}

fn string_prop(name: &str, value: &String) -> (r: Property)
    ensures
        r@ == text_prop(name.spec_bytes(), text(*value)),
{
    single(PropertyType::String, name, PropertyValue::String(string_bytes(value)))
}

fn flag(name: &str, b: bool) -> (r: Property)
    ensures
        r@ == flag_prop(name.spec_bytes(), b),
{
    single(PropertyType::Byte, name, PropertyValue::Byte(if b { 1u8 } else { 0u8 }))
}

fn reference(name: &str, hash: u64) -> (r: Property)
    ensures
        r@ == ref_prop(name.spec_bytes(), hash),
{
    single(PropertyType::Integer64, name, PropertyValue::Integer64(hash))
}

/// The name property of an optionally named item: present only when the name is.
pub open spec fn name_props(name: Option<String>) -> Seq<PropertyModel> {
    match name {
        Some(s) => seq![text_prop("n".spec_bytes(), text(s))],
        None => seq![],
    }
}

/// A reference to an optional bone: present only when the bone is.
pub open spec fn opt_ref(name: Seq<u8>, index: Option<usize>, bone_hashes: Seq<u64>) -> Seq<PropertyModel> {
    match index {
        Some(i) => seq![ref_prop(name, bone_hashes[i as int])],
        None => seq![],
    }
}

// ----- minimal-width indices -----

/// An integer width for an index stream.
#[derive(Clone, Copy, Debug, PartialEq, Eq, Structural)]
pub enum IndexWidth {
    Byte,
    Short,
    Integer32,
}

/// The number of bits of a width.
pub open spec fn width_bits(w: IndexWidth) -> nat {
    match w {
        IndexWidth::Byte => 8,
        IndexWidth::Short => 16,
        IndexWidth::Integer32 => 32,
    }
}

/// The largest value a width holds.
pub open spec fn width_max(w: IndexWidth) -> int {
    match w {
        IndexWidth::Byte => 0xFF,
        IndexWidth::Short => 0xFFFF,
        IndexWidth::Integer32 => 0xFFFF_FFFF,
    }
}

/// The width chosen for a stream whose values are bounded by `bound`.
pub open spec fn width_for(bound: int) -> IndexWidth {
    if bound <= 0xFF {
        IndexWidth::Byte
    } else if bound <= 0xFFFF {
        IndexWidth::Short
    } else {
        IndexWidth::Integer32
    }
}

/// The element type of a width.
pub open spec fn width_tag(w: IndexWidth) -> PropertyType {
    match w {
        IndexWidth::Byte => PropertyType::Byte,
        IndexWidth::Short => PropertyType::Short,
        IndexWidth::Integer32 => PropertyType::Integer32,
    }
}

/// An index written at a width.
pub open spec fn index_at(w: IndexWidth, x: u32) -> ValueModel {
    match w {
        IndexWidth::Byte => ValueModel::Byte(x as u8),
        IndexWidth::Short => ValueModel::Short(x as u16),
        IndexWidth::Integer32 => ValueModel::Integer32(x),
    }
}

/// Selects the smallest of the 8, 16 and 32 bit widths that holds `bound`.
pub fn select_width(bound: u64) -> (r: IndexWidth)
    ensures
        r == width_for(bound as int),
        bound <= 0xFFFF_FFFF ==> bound <= width_max(r),
        forall|w: IndexWidth| bound <= width_max(w) ==> width_bits(r) <= width_bits(w),
{
    if bound <= 0xFF {
        IndexWidth::Byte
    } else if bound <= 0xFFFF {
        IndexWidth::Short
    } else {
        IndexWidth::Integer32
    }
}

/// The chosen width holds the bound, and no narrower width does; a larger bound never gets a
/// narrower width.
pub proof fn lemma_width_minimal_monotone(m1: int, m2: int)
    requires
        0 <= m1 <= m2,
    ensures
        m1 <= 0xFFFF_FFFF ==> m1 <= width_max(width_for(m1)),
        forall|w: IndexWidth| m1 <= width_max(w) ==> width_bits(width_for(m1)) <= width_bits(w),
        width_bits(width_for(m1)) <= width_bits(width_for(m2)),
{
}

fn index_value(w: IndexWidth, x: u32) -> (r: PropertyValue)
    ensures
        r@ == index_at(w, x),
        type_of(r@) == width_tag(w),
{
    match w {
        IndexWidth::Byte => PropertyValue::Byte(x as u8),
        IndexWidth::Short => PropertyValue::Short(x as u16),
        IndexWidth::Integer32 => PropertyValue::Integer32(x),
    }
}

fn width_type(w: IndexWidth) -> (r: PropertyType)
    ensures
        r == width_tag(w),
{
    match w {
        IndexWidth::Byte => PropertyType::Byte,
        IndexWidth::Short => PropertyType::Short,
        IndexWidth::Integer32 => PropertyType::Integer32,
    }
}

// ----- bones -----

/// The name written for a bone: its own, or `porter_bone_<index>`.
pub open spec fn bone_name(bone: Bone, index: int) -> Seq<u8> {
    match bone.name {
        Some(s) => text(s),
        None => "porter_bone_".spec_bytes() + decimal(index as nat),
    }
}

/// The properties of a bone node: name and parent; the local position and rotation only when
/// both are present, the same for the world pair; and the scale whenever it is present.
pub open spec fn bone_props(bone: Bone, index: int) -> Seq<PropertyModel> {
    let base = seq![
        text_prop("n".spec_bytes(), bone_name(bone, index)),
        one("p".spec_bytes(), PropertyType::Integer32, ValueModel::Integer32(bone.parent as u32)),
    ];
    let local = match (bone.local_position, bone.local_rotation) {
        (Some(p), Some(r)) => seq![
            one("lp".spec_bytes(), PropertyType::Vector3, ValueModel::Vector3(p)),
            one("lr".spec_bytes(), PropertyType::Vector4, ValueModel::Vector4(r)),
        ],
        _ => seq![],
    };
    let world = match (bone.world_position, bone.world_rotation) {
        (Some(p), Some(r)) => seq![
            one("wp".spec_bytes(), PropertyType::Vector3, ValueModel::Vector3(p)),
            one("wr".spec_bytes(), PropertyType::Vector4, ValueModel::Vector4(r)),
        ],
        _ => seq![],
    };
    let scale = match bone.local_scale {
        Some(s) => seq![one("s".spec_bytes(), PropertyType::Vector3, ValueModel::Vector3(s))],
        None => seq![],
    };
    base + local + world + scale
}

/// Builds the node of the bone at `index`.
pub fn bone_node(bone: &Bone, index: usize, ids: &mut NodeIds) -> (r: Node)
    requires
        old(ids)@ < u64::MAX,
    ensures
        r@ == (NodeModel {
            kind: NodeKind::Bone,
            hash: old(ids)@,
            properties: bone_props(*bone, index as int),
            children: seq![],
        }),
        final(ids)@ == old(ids)@ + 1,
{
    let mut node = Node::new(NodeKind::Bone, ids);
    let name = match &bone.name {
        Some(s) => string_bytes(s),
        None => numbered("porter_bone_", index),
    };
    node.push_property(single_named(PropertyType::String, str_bytes("n"), PropertyValue::String(name)));
    node.push_property(single(PropertyType::Integer32, "p", PropertyValue::Integer32(bone.parent as u32)));
    let ghost base = node@.properties;
    match (bone.local_position, bone.local_rotation) {
        (Some(p), Some(r)) => {
            node.push_property(single(PropertyType::Vector3, "lp", PropertyValue::Vector3(p)));
            node.push_property(single(PropertyType::Vector4, "lr", PropertyValue::Vector4(r)));
        },
        _ => {},
    }
    let ghost local = node@.properties;
    match (bone.world_position, bone.world_rotation) {
        (Some(p), Some(r)) => {
            node.push_property(single(PropertyType::Vector3, "wp", PropertyValue::Vector3(p)));
            node.push_property(single(PropertyType::Vector4, "wr", PropertyValue::Vector4(r)));
        },
        _ => {},
    }
    let ghost world = node@.properties;
    match bone.local_scale {
        Some(s) => {
            node.push_property(single(PropertyType::Vector3, "s", PropertyValue::Vector3(s)));
        },
        None => {},
    }
    assert(node@.properties =~= bone_props(*bone, index as int));
    node
}

// ----- rigging -----

/// Every bone an IK handle names exists among `count` bones.
pub open spec fn ik_refs_ok(h: IKHandle, count: int) -> bool {
    &&& h.start_bone < count
    &&& h.end_bone < count
    &&& (h.target_bone matches Some(i) ==> i < count)
    &&& (h.pole_vector_bone matches Some(i) ==> i < count)
    &&& (h.pole_bone matches Some(i) ==> i < count)
}

/// The properties of an IK handle node, with each bone given by the identity of its node.
pub open spec fn ik_props(h: IKHandle, bone_hashes: Seq<u64>) -> Seq<PropertyModel> {
    name_props(h.name) + seq![
        ref_prop("sb".spec_bytes(), bone_hashes[h.start_bone as int]),
        ref_prop("eb".spec_bytes(), bone_hashes[h.end_bone as int]),
    ] + opt_ref("tb".spec_bytes(), h.target_bone, bone_hashes) + opt_ref(
        "pv".spec_bytes(),
        h.pole_vector_bone,
        bone_hashes,
    ) + opt_ref("pb".spec_bytes(), h.pole_bone, bone_hashes) + seq![
        flag_prop("tr".spec_bytes(), h.use_target_rotation),
    ]
}

/// Every bone a constraint names exists among `count` bones.
pub open spec fn constraint_refs_ok(c: Constraint, count: int) -> bool {
    c.constraint_bone < count && c.target_bone < count
}

/// The code written for a constraint type.
pub open spec fn constraint_code(t: ConstraintType) -> Seq<u8> {
    match t {
        ConstraintType::Point => "pt".spec_bytes(),
        ConstraintType::Orient => "or".spec_bytes(),
        ConstraintType::Scale => "sc".spec_bytes(),
    }
}

/// The properties of a constraint node, with each bone given by the identity of its node.
pub open spec fn constraint_props(c: Constraint, bone_hashes: Seq<u64>) -> Seq<PropertyModel> {
    name_props(c.name) + seq![
        text_prop("ct".spec_bytes(), constraint_code(c.constraint_type)),
        ref_prop("cb".spec_bytes(), bone_hashes[c.constraint_bone as int]),
        ref_prop("tb".spec_bytes(), bone_hashes[c.target_bone as int]),
        flag_prop("mo".spec_bytes(), c.maintain_offset),
        flag_prop("sx".spec_bytes(), c.skip_x),
        flag_prop("sy".spec_bytes(), c.skip_y),
        flag_prop("sz".spec_bytes(), c.skip_z),
    ]
}

fn push_name(node: &mut Node, name: &Option<String>)
    ensures
        final(node)@ == (NodeModel { properties: old(node)@.properties + name_props(*name), ..old(node)@ }),
{
    match name {
        Some(s) => node.push_property(string_prop("n", s)),
        None => {},
    }
    assert(node@.properties =~= old(node)@.properties + name_props(*name));
}

fn push_opt_ref(node: &mut Node, name: &str, index: Option<usize>, bone_hashes: &Vec<u64>)
    requires
        index matches Some(i) ==> i < bone_hashes@.len(),
    ensures
        final(node)@ == (NodeModel {
            properties: old(node)@.properties + opt_ref(name.spec_bytes(), index, bone_hashes@),
            ..old(node)@
        }),
{
    match index {
        Some(i) => node.push_property(reference(name, bone_hashes[i])),
        None => {},
    }
    assert(node@.properties =~= old(node)@.properties + opt_ref(name.spec_bytes(), index, bone_hashes@));
}

fn opt_in_range(index: Option<usize>, count: usize) -> (r: bool)
    ensures
        r == (index matches Some(i) ==> i < count),
{
    match index {
        Some(i) => i < count,
        None => true,
    }
}

/// Builds the node of an IK handle. Fails when a bone it names is not among the bones whose
/// identities are given.
pub fn ik_handle_node(h: &IKHandle, bone_hashes: &Vec<u64>, ids: &mut NodeIds) -> (r: Result<Node, ModelError>)
    requires
        old(ids)@ < u64::MAX,
    ensures
        r is Ok <==> ik_refs_ok(*h, bone_hashes@.len() as int),
        r is Err ==> r == Err::<Node, ModelError>(ModelError::ReferenceNotFound),
        r is Ok ==> r->Ok_0@ == (NodeModel {
            kind: NodeKind::IKHandle,
            hash: old(ids)@,
            properties: ik_props(*h, bone_hashes@),
            children: seq![],
        }),
        r is Ok ==> final(ids)@ == old(ids)@ + 1,
{
    let count = bone_hashes.len();
    if h.start_bone >= count || h.end_bone >= count || !opt_in_range(h.target_bone, count)
        || !opt_in_range(h.pole_vector_bone, count) || !opt_in_range(h.pole_bone, count) {
        return Err(ModelError::ReferenceNotFound);
    }
    let mut node = Node::new(NodeKind::IKHandle, ids);
    push_name(&mut node, &h.name);
    node.push_property(reference("sb", bone_hashes[h.start_bone]));
    node.push_property(reference("eb", bone_hashes[h.end_bone]));
    push_opt_ref(&mut node, "tb", h.target_bone, bone_hashes);
    push_opt_ref(&mut node, "pv", h.pole_vector_bone, bone_hashes);
    push_opt_ref(&mut node, "pb", h.pole_bone, bone_hashes);
    node.push_property(flag("tr", h.use_target_rotation));
    assert(node@.properties =~= ik_props(*h, bone_hashes@));
    Ok(node)
}

/// Builds the node of a constraint. Fails when a bone it names is not among the bones whose
/// identities are given.
pub fn constraint_node(c: &Constraint, bone_hashes: &Vec<u64>, ids: &mut NodeIds) -> (r: Result<Node, ModelError>)
    requires
        old(ids)@ < u64::MAX,
    ensures
        r is Ok <==> constraint_refs_ok(*c, bone_hashes@.len() as int),
        r is Err ==> r == Err::<Node, ModelError>(ModelError::ReferenceNotFound),
        r is Ok ==> r->Ok_0@ == (NodeModel {
            kind: NodeKind::Constraint,
            hash: old(ids)@,
            properties: constraint_props(*c, bone_hashes@),
            children: seq![],
        }),
        r is Ok ==> final(ids)@ == old(ids)@ + 1,
{
    if c.constraint_bone >= bone_hashes.len() || c.target_bone >= bone_hashes.len() {
        return Err(ModelError::ReferenceNotFound);
    }
    let mut node = Node::new(NodeKind::Constraint, ids);
    push_name(&mut node, &c.name);
    let code = match c.constraint_type {
        ConstraintType::Point => "pt",
        ConstraintType::Orient => "or",
        ConstraintType::Scale => "sc",
    };
    node.push_property(str_prop("ct", code));
    node.push_property(reference("cb", bone_hashes[c.constraint_bone]));
    node.push_property(reference("tb", bone_hashes[c.target_bone]));
    node.push_property(flag("mo", c.maintain_offset));
    node.push_property(flag("sx", c.skip_x));
    node.push_property(flag("sy", c.skip_y));
    node.push_property(flag("sz", c.skip_z));
    assert(node@.properties =~= constraint_props(*c, bone_hashes@));
    Ok(node)
}

// ----- the skeleton -----

/// The identities of `k` consecutive children of `n`, from child `lo` on.
pub open spec fn child_hashes(n: NodeModel, lo: int, k: int) -> Seq<u64> {
    Seq::new(k as nat, |i: int| n.children[lo + i].hash)
}

/// `c` is a childless node of kind `kind` with the given properties.
pub open spec fn leaf_ok(c: NodeModel, kind: NodeKind, properties: Seq<PropertyModel>) -> bool {
    c == NodeModel { kind, hash: c.hash, properties, children: seq![] }
}

/// Every bone that the skeleton's handles and constraints name exists.
pub open spec fn skeleton_refs_ok(s: Skeleton) -> bool {
    &&& forall|j: int| 0 <= j < s.ik_handles@.len() ==> ik_refs_ok(#[trigger] s.ik_handles@[j], s.bones@.len() as int)
    &&& forall|j: int| 0 <= j < s.constraints@.len() ==> constraint_refs_ok(#[trigger] s.constraints@[j], s.bones@.len() as int)
}

/// The number of nodes the skeleton takes: none without bones.
pub open spec fn skeleton_count(s: Skeleton) -> int {
    if s.bones@.len() == 0 {
        0
    } else {
        (1 + s.bones@.len() + s.ik_handles@.len() + s.constraints@.len()) as int
    }
}

/// `n` is the skeleton node of `s`: one bone node per bone, in order, then one node per IK
/// handle, then one per constraint, with every bone reference the identity of that bone's node.
pub open spec fn skeleton_ok(n: NodeModel, s: Skeleton) -> bool {
    let nb = s.bones@.len() as int;
    let ni = s.ik_handles@.len() as int;
    let nc = s.constraints@.len() as int;
    let bh = child_hashes(n, 0, nb);
    &&& n.kind == NodeKind::Skeleton
    &&& n.properties == Seq::<PropertyModel>::empty()
    &&& n.children.len() == nb + ni + nc
    &&& forall|i: int| 0 <= i < nb ==> leaf_ok(#[trigger] n.children[i], NodeKind::Bone, bone_props(s.bones@[i], i))
    &&& forall|j: int| 0 <= j < ni ==> leaf_ok(#[trigger] n.children[nb + j], NodeKind::IKHandle, ik_props(s.ik_handles@[j], bh))
    &&& forall|j: int| 0 <= j < nc ==> leaf_ok(#[trigger] n.children[nb + ni + j], NodeKind::Constraint, constraint_props(s.constraints@[j], bh))
}

/// Builds the skeleton node of a skeleton with at least one bone. The bone table (the identity
/// of each bone's node, by index) is built before any handle or constraint is; a handle or
/// constraint naming a bone outside it fails the whole skeleton.
pub fn skeleton_node(s: &Skeleton, ids: &mut NodeIds) -> (r: Result<Node, ModelError>)
    requires
        s.bones@.len() > 0,
        old(ids)@ + skeleton_count(*s) <= u64::MAX,
    ensures
        r is Ok <==> skeleton_refs_ok(*s),
        r is Err ==> r == Err::<Node, ModelError>(ModelError::ReferenceNotFound),
        r is Ok ==> skeleton_ok(r->Ok_0@, *s),
        r is Ok ==> final(ids)@ == old(ids)@ + skeleton_count(*s),
        r is Ok ==> fresh_range(hashes(r->Ok_0@), old(ids)@ as int, final(ids)@ as int),
{
    let ghost start = ids@;
    let mut node = Node::new(NodeKind::Skeleton, ids);
    proof {
        lemma_leaf_fresh(node@);
    }
    let ghost nb = s.bones@.len() as int;
    let ghost ni = s.ik_handles@.len() as int;
    let mut bone_hashes: Vec<u64> = Vec::new();
    let mut i: usize = 0;
    while i < s.bones.len()
        invariant
            i <= nb,
            nb == s.bones@.len(),
            ids@ == start + 1 + i,
            start + skeleton_count(*s) <= u64::MAX,
            skeleton_count(*s) == 1 + s.bones@.len() + s.ik_handles@.len() + s.constraints@.len(),
            node@.kind == NodeKind::Skeleton,
            node@.properties == Seq::<PropertyModel>::empty(),
            node@.children.len() == i,
            bone_hashes@ == child_hashes(node@, 0, i as int),
            forall|k: int| 0 <= k < i ==> leaf_ok(#[trigger] node@.children[k], NodeKind::Bone, bone_props(s.bones@[k], k)),
            fresh_range(hashes(node@), start as int, ids@ as int),
        decreases nb - i,
    {
        let ghost before = node@;
        let ghost mid = ids@;
        let b = bone_node(&s.bones[i], i, ids);
        proof {
            lemma_leaf_fresh(b@);
            lemma_push_child_fresh(before, b@, start as int, mid as int, ids@ as int);
        }
        bone_hashes.push(b.hash());
        node.push_child(b);
        i = i + 1;
        assert(bone_hashes@ =~= child_hashes(node@, 0, i as int));
    }
    let mut j: usize = 0;
    while j < s.ik_handles.len()
        invariant
            j <= ni,
            ni == s.ik_handles@.len(),
            nb == s.bones@.len(),
            ids@ == start + 1 + nb + j,
            start + skeleton_count(*s) <= u64::MAX,
            skeleton_count(*s) == 1 + s.bones@.len() + s.ik_handles@.len() + s.constraints@.len(),
            node@.kind == NodeKind::Skeleton,
            node@.properties == Seq::<PropertyModel>::empty(),
            node@.children.len() == nb + j,
            bone_hashes@ == child_hashes(node@, 0, nb),
            forall|k: int| 0 <= k < nb ==> leaf_ok(#[trigger] node@.children[k], NodeKind::Bone, bone_props(s.bones@[k], k)),
            forall|k: int| 0 <= k < j ==> leaf_ok(#[trigger] node@.children[nb + k], NodeKind::IKHandle, ik_props(s.ik_handles@[k], bone_hashes@)),
            forall|k: int| 0 <= k < j ==> ik_refs_ok(#[trigger] s.ik_handles@[k], nb),
            fresh_range(hashes(node@), start as int, ids@ as int),
        decreases ni - j,
    {
        let ghost before = node@;
        let ghost mid = ids@;
        let h = match ik_handle_node(&s.ik_handles[j], &bone_hashes, ids) {
            Ok(h) => h,
            Err(e) => {
                return Err(e);
            },
        };
        proof {
            lemma_leaf_fresh(h@);
            lemma_push_child_fresh(before, h@, start as int, mid as int, ids@ as int);
        }
        node.push_child(h);
        j = j + 1;
        assert(bone_hashes@ =~= child_hashes(node@, 0, nb));
        assert forall|k: int| 0 <= k < nb implies leaf_ok(#[trigger] node@.children[k], NodeKind::Bone, bone_props(s.bones@[k], k)) by {
            assert(node@.children[k] == before.children[k]);
        }
        assert forall|k: int| 0 <= k < j implies leaf_ok(#[trigger] node@.children[nb + k], NodeKind::IKHandle, ik_props(s.ik_handles@[k], bone_hashes@)) by {
            if k < j - 1 {
                assert(node@.children[nb + k] == before.children[nb + k]);
            }
        }
    }
    let mut c: usize = 0;
    while c < s.constraints.len()
        invariant
            c <= s.constraints@.len(),
            ni == s.ik_handles@.len(),
            nb == s.bones@.len(),
            ids@ == start + 1 + nb + ni + c,
            start + skeleton_count(*s) <= u64::MAX,
            skeleton_count(*s) == 1 + s.bones@.len() + s.ik_handles@.len() + s.constraints@.len(),
            node@.kind == NodeKind::Skeleton,
            node@.properties == Seq::<PropertyModel>::empty(),
            node@.children.len() == nb + ni + c,
            bone_hashes@ == child_hashes(node@, 0, nb),
            forall|k: int| 0 <= k < nb ==> leaf_ok(#[trigger] node@.children[k], NodeKind::Bone, bone_props(s.bones@[k], k)),
            forall|k: int| 0 <= k < ni ==> leaf_ok(#[trigger] node@.children[nb + k], NodeKind::IKHandle, ik_props(s.ik_handles@[k], bone_hashes@)),
            forall|k: int| 0 <= k < ni ==> ik_refs_ok(#[trigger] s.ik_handles@[k], nb),
            forall|k: int| 0 <= k < c ==> leaf_ok(#[trigger] node@.children[nb + ni + k], NodeKind::Constraint, constraint_props(s.constraints@[k], bone_hashes@)),
            forall|k: int| 0 <= k < c ==> constraint_refs_ok(#[trigger] s.constraints@[k], nb),
            fresh_range(hashes(node@), start as int, ids@ as int),
        decreases s.constraints@.len() - c,
    {
        let ghost before = node@;
        let ghost mid = ids@;
        let k = match constraint_node(&s.constraints[c], &bone_hashes, ids) {
            Ok(k) => k,
            Err(e) => {
                return Err(e);
            },
        };
        proof {
            lemma_leaf_fresh(k@);
            lemma_push_child_fresh(before, k@, start as int, mid as int, ids@ as int);
        }
        node.push_child(k);
        c = c + 1;
        assert(bone_hashes@ =~= child_hashes(node@, 0, nb));
        assert forall|k: int| 0 <= k < nb implies leaf_ok(#[trigger] node@.children[k], NodeKind::Bone, bone_props(s.bones@[k], k)) by {
            assert(node@.children[k] == before.children[k]);
        }
        assert forall|k: int| 0 <= k < ni implies leaf_ok(#[trigger] node@.children[nb + k], NodeKind::IKHandle, ik_props(s.ik_handles@[k], bone_hashes@)) by {
            assert(node@.children[nb + k] == before.children[nb + k]);
        }
        assert forall|k: int| 0 <= k < c implies leaf_ok(#[trigger] node@.children[nb + ni + k], NodeKind::Constraint, constraint_props(s.constraints@[k], bone_hashes@)) by {
            if k < c - 1 {
                assert(node@.children[nb + ni + k] == before.children[nb + ni + k]);
            }
        }
    }
    Ok(node)
}

// ----- materials -----

/// The positional name of texture `i`: `extra<i>`.
pub open spec fn extra_name(i: int) -> Seq<u8> {
    "extra".spec_bytes() + decimal(i as nat)
}

/// The semantic slot of a texture usage; an unknown usage takes its positional name.
pub open spec fn semantic_slot(u: MaterialTextureRefUsage, i: int) -> Seq<u8> {
    match u {
        MaterialTextureRefUsage::Albedo => "albedo".spec_bytes(),
        MaterialTextureRefUsage::Diffuse => "diffuse".spec_bytes(),
        MaterialTextureRefUsage::Specular => "specular".spec_bytes(),
        MaterialTextureRefUsage::Normal => "normal".spec_bytes(),
        MaterialTextureRefUsage::Emissive => "emissive".spec_bytes(),
        MaterialTextureRefUsage::Gloss => "gloss".spec_bytes(),
        MaterialTextureRefUsage::Roughness => "roughness".spec_bytes(),
        MaterialTextureRefUsage::AmbientOcclusion => "ao".spec_bytes(),
        MaterialTextureRefUsage::Cavity => "cavity".spec_bytes(),
        MaterialTextureRefUsage::Metalness => "metal".spec_bytes(),
        MaterialTextureRefUsage::Anisotropy => "aniso".spec_bytes(),
        MaterialTextureRefUsage::Unknown | MaterialTextureRefUsage::Count => extra_name(i),
    }
}

/// The slot name of each texture of a material, in order: its semantic slot, unless an earlier
/// texture already took that name, in which case its positional name.
pub open spec fn slot_names(ts: Seq<MaterialTextureRef>) -> Seq<Seq<u8>>
    decreases ts.len(),
{
    if ts.len() == 0 {
        seq![]
    } else {
        let prev = slot_names(ts.drop_last());
        let i = ts.len() - 1;
        let s = semantic_slot(ts.last().texture_usage, i);
        prev.push(if prev.contains(s) { extra_name(i) } else { s })
    }
}

proof fn lemma_slot_names_len(ts: Seq<MaterialTextureRef>)
    ensures
        slot_names(ts).len() == ts.len(),
    decreases ts.len(),
{
    if ts.len() > 0 {
        lemma_slot_names_len(ts.drop_last());
    }
}

proof fn lemma_slot_names_prefix(ts: Seq<MaterialTextureRef>, i: int)
    requires
        0 <= i < ts.len(),
    ensures
        slot_names(ts.subrange(0, i + 1)) == slot_names(ts.subrange(0, i)).push(
            if slot_names(ts.subrange(0, i)).contains(semantic_slot(ts[i].texture_usage, i)) {
                extra_name(i)
            } else {
                semantic_slot(ts[i].texture_usage, i)
            },
        ),
{
    assert(ts.subrange(0, i + 1).drop_last() =~= ts.subrange(0, i));
}

proof fn lemma_slot_names_stable(ts: Seq<MaterialTextureRef>, i: int, k: int)
    requires
        0 <= k < i <= ts.len(),
    ensures
        slot_names(ts.subrange(0, i))[k] == slot_names(ts)[k],
    decreases ts.len() - i,
{
    lemma_slot_names_len(ts.subrange(0, i));
    if i < ts.len() {
        lemma_slot_names_prefix(ts, i);
        lemma_slot_names_stable(ts, i + 1, k);
    } else {
        assert(ts.subrange(0, i) =~= ts);
    }
}

/// `s` opens with the bytes `ex`.
pub open spec fn opens_with_ex(s: Seq<u8>) -> bool {
    s.len() >= 2 && s[0] == 101u8 && s[1] == 120u8
}

proof fn lemma_decimal_len(n: nat)
    ensures
        decimal(n).len() >= 1,
        n >= 10 ==> decimal(n).len() >= 2,
    decreases n,
{
    if n >= 10 {
        lemma_decimal_len(n / 10);
    }
}

proof fn lemma_decimal_injective(a: nat, b: nat)
    requires
        decimal(a) == decimal(b),
    ensures
        a == b,
    decreases a,
{
    lemma_decimal_len(a);
    lemma_decimal_len(b);
    if a < 10 && b < 10 {
        assert(decimal(a)[0] == decimal(b)[0]);
        assert(decimal(a)[0] == (48 + a) as u8);
        assert(decimal(b)[0] == (48 + b) as u8);
    } else if a >= 10 && b >= 10 {
        let da = decimal(a);
        let db = decimal(b);
        assert(da == decimal(a / 10).push((48 + a % 10) as u8));
        assert(db == decimal(b / 10).push((48 + b % 10) as u8));
        assert(da.last() == db.last());
        assert(a % 10 == b % 10);
        assert(da.drop_last() =~= decimal(a / 10));
        assert(db.drop_last() =~= decimal(b / 10));
        lemma_decimal_injective(a / 10, b / 10);
        assert(a == 10 * (a / 10) + a % 10);
        assert(b == 10 * (b / 10) + b % 10);
    } else {
        assert(decimal(a).len() == decimal(b).len());
    }
}

proof fn lemma_extra_name(i: int)
    requires
        i >= 0,
    ensures
        opens_with_ex(extra_name(i)),
        extra_name(i).subrange(5, extra_name(i).len() as int) == decimal(i as nat),
{
    reveal_strlit("extra");
    broadcast use vstd::string::is_ascii_spec_bytes;
    assert(vstd::string::is_ascii("extra"));
    assert("extra".spec_bytes().len() == 5);
    assert(extra_name(i).subrange(5, extra_name(i).len() as int) =~= decimal(i as nat));
}

proof fn lemma_extra_name_injective(i: int, j: int)
    requires
        i >= 0,
        j >= 0,
        extra_name(i) == extra_name(j),
    ensures
        i == j,
{
    lemma_extra_name(i);
    lemma_extra_name(j);
    lemma_decimal_injective(i as nat, j as nat);
}

proof fn lemma_semantic_slot_shape(u: MaterialTextureRefUsage, i: int)
    requires
        i >= 0,
    ensures
        opens_with_ex(semantic_slot(u, i)) ==> semantic_slot(u, i) == extra_name(i),
{
    broadcast use vstd::string::is_ascii_spec_bytes;
    match u {
        MaterialTextureRefUsage::Albedo => {
            reveal_strlit("albedo");
            assert(vstd::string::is_ascii("albedo"));
        },
        MaterialTextureRefUsage::Diffuse => {
            reveal_strlit("diffuse");
            assert(vstd::string::is_ascii("diffuse"));
        },
        MaterialTextureRefUsage::Specular => {
            reveal_strlit("specular");
            assert(vstd::string::is_ascii("specular"));
        },
        MaterialTextureRefUsage::Normal => {
            reveal_strlit("normal");
            assert(vstd::string::is_ascii("normal"));
        },
        MaterialTextureRefUsage::Emissive => {
            reveal_strlit("emissive");
            assert(vstd::string::is_ascii("emissive"));
        },
        MaterialTextureRefUsage::Gloss => {
            reveal_strlit("gloss");
            assert(vstd::string::is_ascii("gloss"));
        },
        MaterialTextureRefUsage::Roughness => {
            reveal_strlit("roughness");
            assert(vstd::string::is_ascii("roughness"));
        },
        MaterialTextureRefUsage::AmbientOcclusion => {
            reveal_strlit("ao");
            assert(vstd::string::is_ascii("ao"));
        },
        MaterialTextureRefUsage::Cavity => {
            reveal_strlit("cavity");
            assert(vstd::string::is_ascii("cavity"));
        },
        MaterialTextureRefUsage::Metalness => {
            reveal_strlit("metal");
            assert(vstd::string::is_ascii("metal"));
        },
        MaterialTextureRefUsage::Anisotropy => {
            reveal_strlit("aniso");
            assert(vstd::string::is_ascii("aniso"));
        },
        _ => {},
    }
}

proof fn lemma_slot_names_shape(ts: Seq<MaterialTextureRef>)
    ensures
        slot_names(ts).len() == ts.len(),
        slot_names(ts).no_duplicates(),
        forall|k: int|
            0 <= k < ts.len() && opens_with_ex(#[trigger] slot_names(ts)[k]) ==> slot_names(ts)[k] == extra_name(k),
    decreases ts.len(),
{
    if ts.len() > 0 {
        let prev = slot_names(ts.drop_last());
        let i = ts.len() - 1;
        let s = semantic_slot(ts.last().texture_usage, i);
        lemma_slot_names_shape(ts.drop_last());
        lemma_semantic_slot_shape(ts.last().texture_usage, i);
        lemma_extra_name(i);
        let x = if prev.contains(s) { extra_name(i) } else { s };
        let sn = slot_names(ts);
        assert(sn == prev.push(x));
        if prev.contains(s) {
            assert forall|k: int| 0 <= k < prev.len() implies prev[k] != x by {
                if prev[k] == x {
                    lemma_extra_name_injective(k, i);
                }
            }
        }
        assert forall|a: int, b: int| 0 <= a < sn.len() && 0 <= b < sn.len() && a != b implies sn[a] != sn[b] by {
            if a < i && b < i {
                assert(sn[a] == prev[a] && sn[b] == prev[b]);
            } else if a == i {
                assert(sn[b] == prev[b]);
            } else {
                assert(sn[a] == prev[a]);
            }
        }
        assert forall|k: int|
            0 <= k < ts.len() && opens_with_ex(#[trigger] sn[k]) implies sn[k] == extra_name(k) by {
            if k < i {
                assert(sn[k] == prev[k]);
            }
        }
    }
}

/// Slot names are unique per material: whatever the textures and their usages, no two
/// textures of one material get the same slot name, so every texture stays reachable.
pub proof fn lemma_slot_names_distinct(ts: Seq<MaterialTextureRef>)
    ensures
        slot_names(ts).len() == ts.len(),
        slot_names(ts).no_duplicates(),
{
    lemma_slot_names_shape(ts);
}

/// `n` is the node of material `m`: its name and shader type, then for each texture a
/// reference named by its slot to the file node of that texture, the file nodes being its
/// children, in texture order.
#[verifier::opaque]
pub open spec fn material_ok(n: NodeModel, m: Material) -> bool {
    let nt = m.textures@.len() as int;
    &&& n.kind == NodeKind::Material
    &&& n.children.len() == nt
    &&& forall|i: int| 0 <= i < nt ==> leaf_ok(#[trigger] n.children[i], NodeKind::File, seq![text_prop("p".spec_bytes(), text(m.textures@[i].file_name))])
    &&& n.properties == seq![text_prop("n".spec_bytes(), text(m.name)), text_prop("t".spec_bytes(), "pbr".spec_bytes())]
        + Seq::new(nt as nat, |i: int| ref_prop(slot_names(m.textures@)[i], n.children[i].hash))
}

fn semantic_slot_of(u: MaterialTextureRefUsage, i: usize) -> (r: Vec<u8>)
    ensures
        r@ == semantic_slot(u, i as int),
{
    match u {
        MaterialTextureRefUsage::Albedo => str_bytes("albedo"),
        MaterialTextureRefUsage::Diffuse => str_bytes("diffuse"),
        MaterialTextureRefUsage::Specular => str_bytes("specular"),
        MaterialTextureRefUsage::Normal => str_bytes("normal"),
        MaterialTextureRefUsage::Emissive => str_bytes("emissive"),
        MaterialTextureRefUsage::Gloss => str_bytes("gloss"),
        MaterialTextureRefUsage::Roughness => str_bytes("roughness"),
        MaterialTextureRefUsage::AmbientOcclusion => str_bytes("ao"),
        MaterialTextureRefUsage::Cavity => str_bytes("cavity"),
        MaterialTextureRefUsage::Metalness => str_bytes("metal"),
        MaterialTextureRefUsage::Anisotropy => str_bytes("aniso"),
        MaterialTextureRefUsage::Unknown | MaterialTextureRefUsage::Count => numbered("extra", i),
    }
}

fn bytes_eq(a: &Vec<u8>, b: &Vec<u8>) -> (r: bool)
    ensures
        r == (a@ == b@),
{
    if a.len() != b.len() {
        return false;
    }
    let mut i: usize = 0;
    while i < a.len()
        invariant
            i <= a@.len(),
            a@.len() == b@.len(),
            a@.subrange(0, i as int) == b@.subrange(0, i as int),
        decreases a@.len() - i,
    {
        if a[i] != b[i] {
            assert(a@[i as int] != b@[i as int]);
            return false;
        }
        i = i + 1;
        assert(a@.subrange(0, i as int) =~= b@.subrange(0, i as int)) by {
            assert forall|k: int| 0 <= k < i implies a@[k] == b@[k] by {
                if k < i - 1 {
                    assert(a@.subrange(0, i - 1)[k] == b@.subrange(0, i - 1)[k]);
                }
            }
        }
    }
    assert(a@ =~= a@.subrange(0, i as int));
    assert(b@ =~= b@.subrange(0, i as int));
    true
}

fn contains_name(names: &Vec<Vec<u8>>, s: &Vec<u8>) -> (r: bool)
    ensures
        r == names@.map_values(|v: Vec<u8>| v@).contains(s@),
{
    let ghost m = names@.map_values(|v: Vec<u8>| v@);
    let mut i: usize = 0;
    while i < names.len()
        invariant
            i <= names@.len(),
            m == names@.map_values(|v: Vec<u8>| v@),
            forall|k: int| 0 <= k < i ==> m[k] != s@,
        decreases names@.len() - i,
    {
        if bytes_eq(&names[i], s) {
            assert(m[i as int] == s@);
            return true;
        }
        i = i + 1;
    }
    false
}

/// The number of nodes a material takes: itself and one file node per texture.
pub open spec fn material_count(m: Material) -> int {
    (1 + m.textures@.len()) as int
}

/// Builds the node of a material, with one file node per texture.
pub fn material_node(m: &Material, ids: &mut NodeIds) -> (r: Node)
    requires
        old(ids)@ + material_count(*m) <= u64::MAX,
    ensures
        material_ok(r@, *m),
        final(ids)@ == old(ids)@ + material_count(*m),
        fresh_range(hashes(r@), old(ids)@ as int, final(ids)@ as int),
{
    let ghost start = ids@;
    let ghost ts = m.textures@;
    let mut node = Node::new(NodeKind::Material, ids);
    proof {
        lemma_leaf_fresh(node@);
    }
    node.push_property(string_prop("n", &m.name));
    node.push_property(str_prop("t", "pbr"));
    let ghost head = node@.properties;
    let mut used: Vec<Vec<u8>> = Vec::new();
    let mut i: usize = 0;
    assert(used@.map_values(|v: Vec<u8>| v@) =~= slot_names(ts.subrange(0, 0)));
    while i < m.textures.len()
        invariant
            i <= ts.len(),
            ts == m.textures@,
            ids@ == start + 1 + i,
            start + material_count(*m) <= u64::MAX,
            node@.kind == NodeKind::Material,
            node@.children.len() == i,
            head == seq![text_prop("n".spec_bytes(), text(m.name)), text_prop("t".spec_bytes(), "pbr".spec_bytes())],
            forall|k: int| 0 <= k < i ==> leaf_ok(#[trigger] node@.children[k], NodeKind::File, seq![text_prop("p".spec_bytes(), text(ts[k].file_name))]),
            used@.map_values(|v: Vec<u8>| v@) == slot_names(ts.subrange(0, i as int)),
            node@.properties == head + Seq::new(i as nat, |k: int| ref_prop(slot_names(ts.subrange(0, i as int))[k], node@.children[k].hash)),
            fresh_range(hashes(node@), start as int, ids@ as int),
        decreases ts.len() - i,
    {
        let ghost before = node@;
        let ghost mid = ids@;
        let mut file = Node::new(NodeKind::File, ids);
        file.push_property(string_prop("p", &m.textures[i].file_name));
        proof {
            lemma_leaf_fresh(file@);
            lemma_push_child_fresh(before, file@, start as int, mid as int, ids@ as int);
        }
        let semantic = semantic_slot_of(m.textures[i].texture_usage, i);
        let slot = if contains_name(&used, &semantic) {
            numbered("extra", i)
        } else {
            semantic
        };
        let hash = file.hash();
        node.push_child(file);
        node.push_property(single_named(PropertyType::Integer64, slot.clone(), PropertyValue::Integer64(hash)));
        proof {
            lemma_slot_names_prefix(ts, i as int);
            lemma_slot_names_len(ts.subrange(0, i as int));
            lemma_slot_names_len(ts.subrange(0, i + 1));
        }
        used.push(slot);
        i = i + 1;
        proof {
            let sn = slot_names(ts.subrange(0, i as int));
            let prev = slot_names(ts.subrange(0, i - 1));
            assert(used@.map_values(|v: Vec<u8>| v@) =~= sn);
            assert forall|k: int| 0 <= k < i - 1 implies sn[k] == prev[k] by {}
            assert(node@.properties =~= head + Seq::new(i as nat, |k: int| ref_prop(sn[k], node@.children[k].hash)));
            assert forall|k: int| 0 <= k < i implies leaf_ok(#[trigger] node@.children[k], NodeKind::File, seq![text_prop("p".spec_bytes(), text(ts[k].file_name))]) by {
                if k < i - 1 {
                    assert(node@.children[k] == before.children[k]);
                }
            }
        }
    }
    proof {
        assert(ts.subrange(0, i as int) =~= ts);
        reveal(material_ok);
    }
    node
}

// ----- meshes -----

/// A property with the given elements.
pub open spec fn stream(name: Seq<u8>, tag: PropertyType, values: Seq<ValueModel>) -> PropertyModel {
    PropertyModel { name, tag, values }
}

/// The position of each vertex, in order.
pub open spec fn position_values(vs: Seq<crate::model::Vertex>) -> Seq<ValueModel> {
    Seq::new(vs.len(), |i: int| ValueModel::Vector3(vs[i].position))
}

/// The normal of each vertex, in order.
pub open spec fn normal_values(vs: Seq<crate::model::Vertex>) -> Seq<ValueModel> {
    Seq::new(vs.len(), |i: int| ValueModel::Vector3(vs[i].normal))
}

/// The color of each vertex in one color layer, in order.
pub open spec fn color_values(vs: Seq<crate::model::Vertex>, layer: int) -> Seq<ValueModel> {
    Seq::new(vs.len(), |i: int| ValueModel::Integer32(vs[i].colors@[layer]))
}

/// The UV of each vertex in one UV layer, in order.
pub open spec fn uv_values(vs: Seq<crate::model::Vertex>, layer: int) -> Seq<ValueModel> {
    Seq::new(vs.len(), |i: int| ValueModel::Vector2(vs[i].uvs@[layer]))
}

/// One property per color layer, `c0`, `c1`, ...
pub open spec fn color_props(vs: Seq<crate::model::Vertex>, layers: int) -> Seq<PropertyModel> {
    Seq::new(layers as nat, |l: int| stream("c".spec_bytes() + decimal(l as nat), PropertyType::Integer32, color_values(vs, l)))
}

/// One property per UV layer, `u0`, `u1`, ...
pub open spec fn uv_props(vs: Seq<crate::model::Vertex>, layers: int) -> Seq<PropertyModel> {
    Seq::new(layers as nat, |l: int| stream("u".spec_bytes() + decimal(l as nat), PropertyType::Vector2, uv_values(vs, l)))
}

/// The bone indices of a vertex's first `mi` weights, at width `w`.
pub open spec fn weight_bone_row(v: crate::model::Vertex, mi: int, w: IndexWidth) -> Seq<ValueModel> {
    Seq::new(mi as nat, |k: int| index_at(w, v.weights@[k].bone as u32))
}

/// The values of a vertex's first `mi` weights.
pub open spec fn weight_value_row(v: crate::model::Vertex, mi: int) -> Seq<ValueModel> {
    Seq::new(mi as nat, |k: int| ValueModel::Float(v.weights@[k].value))
}

/// The weight bone indices of all vertices, `mi` per vertex, in vertex order.
pub open spec fn weight_bone_values(vs: Seq<crate::model::Vertex>, mi: int, w: IndexWidth) -> Seq<ValueModel> {
    Seq::new(vs.len(), |i: int| weight_bone_row(vs[i], mi, w)).flatten()
}

/// The weight values of all vertices, `mi` per vertex, in vertex order.
pub open spec fn weight_value_values(vs: Seq<crate::model::Vertex>, mi: int) -> Seq<ValueModel> {
    Seq::new(vs.len(), |i: int| weight_value_row(vs[i], mi)).flatten()
}

/// The indices of each face, third first, at width `w`.
pub open spec fn face_values(fs: Seq<crate::model::Face>, w: IndexWidth) -> Seq<ValueModel> {
    Seq::new(fs.len(), |j: int| seq![index_at(w, fs[j].i3), index_at(w, fs[j].i2), index_at(w, fs[j].i1)]).flatten()
}

/// The weight streams: present only when the skeleton has bones, their width chosen from the
/// bone count.
pub open spec fn weight_props(m: Mesh, bone_count: int) -> Seq<PropertyModel> {
    if bone_count == 0 {
        seq![]
    } else {
        let w = width_for(bone_count);
        seq![
            stream("wb".spec_bytes(), width_tag(w), weight_bone_values(m.vertices@, m.maximum_influence as int, w)),
            stream("wv".spec_bytes(), PropertyType::Float, weight_value_values(m.vertices@, m.maximum_influence as int)),
        ]
    }
}

/// The material reference: present only when the mesh names a material that exists.
pub open spec fn material_ref_props(material: Option<usize>, material_hashes: Seq<u64>) -> Seq<PropertyModel> {
    match material {
        Some(i) => if i < material_hashes.len() {
            seq![ref_prop("m".spec_bytes(), material_hashes[i as int])]
        } else {
            seq![]
        },
        None => seq![],
    }
}

/// The code written for a skinning method.
pub open spec fn skinning_code(s: SkinningMethod) -> Seq<u8> {
    match s {
        SkinningMethod::Linear => "linear".spec_bytes(),
        SkinningMethod::DualQuaternion => "quaternion".spec_bytes(),
    }
}

/// The leading properties of a mesh node: name, layer counts, skinning method, positions and
/// normals.
pub open spec fn mesh_head_props(m: Mesh) -> Seq<PropertyModel> {
    let vs = m.vertices@;
    name_props(m.name) + seq![
        one("ul".spec_bytes(), PropertyType::Byte, ValueModel::Byte(m.uv_layers as u8)),
        one("mi".spec_bytes(), PropertyType::Byte, ValueModel::Byte(m.maximum_influence as u8)),
        one("cl".spec_bytes(), PropertyType::Byte, ValueModel::Byte(m.color_layers as u8)),
        text_prop("sm".spec_bytes(), skinning_code(m.skinning_method)),
        stream("vp".spec_bytes(), PropertyType::Vector3, position_values(vs)),
        stream("vn".spec_bytes(), PropertyType::Vector3, normal_values(vs)),
    ]
}

/// The face property: the width is chosen from the vertex count.
pub open spec fn face_prop(m: Mesh) -> PropertyModel {
    let fw = width_for(m.vertices@.len() as int);
    stream("f".spec_bytes(), width_tag(fw), face_values(m.faces@, fw))
}

/// The properties of a mesh node, in order: the leading ones, colors, UVs, weights, faces and
/// material.
pub open spec fn mesh_props(m: Mesh, bone_count: int, material_hashes: Seq<u64>) -> Seq<PropertyModel> {
    mesh_head_props(m) + color_props(m.vertices@, m.color_layers as int) + uv_props(m.vertices@, m.uv_layers as int)
        + weight_props(m, bone_count) + seq![face_prop(m)] + material_ref_props(m.material, material_hashes)
}

fn vector_stream(name: &str, vs: &Vec<crate::model::Vertex>, normals: bool) -> (r: Property)
    ensures
        r@ == stream(name.spec_bytes(), PropertyType::Vector3, if normals { normal_values(vs@) } else { position_values(vs@) }),
{
    let ghost target = if normals { normal_values(vs@) } else { position_values(vs@) };
    let mut p = Property::new(PropertyType::Vector3, name);
    let mut i: usize = 0;
    assert(target.subrange(0, 0) =~= Seq::<ValueModel>::empty());
    while i < vs.len()
        invariant
            i <= vs@.len(),
            target == (if normals { normal_values(vs@) } else { position_values(vs@) }),
            p@ == stream(name.spec_bytes(), PropertyType::Vector3, target.subrange(0, i as int)),
        decreases vs@.len() - i,
    {
        let v = if normals { vs[i].normal } else { vs[i].position };
        let _ = p.push(PropertyValue::Vector3(v));
        i = i + 1;
        assert(p@.values =~= target.subrange(0, i as int));
    }
    assert(target.subrange(0, i as int) =~= target);
    p
}

fn color_stream(vs: &Vec<crate::model::Vertex>, layer: usize) -> (r: Property)
    requires
        forall|i: int| 0 <= i < vs@.len() ==> layer < (#[trigger] vs@[i]).colors@.len(),
    ensures
        r@ == stream("c".spec_bytes() + decimal(layer as nat), PropertyType::Integer32, color_values(vs@, layer as int)),
{
    let mut p = Property::from_name_bytes(PropertyType::Integer32, numbered("c", layer));
    let mut i: usize = 0;
    assert(color_values(vs@, layer as int).subrange(0, 0) =~= Seq::<ValueModel>::empty());
    while i < vs.len()
        invariant
            i <= vs@.len(),
            forall|i: int| 0 <= i < vs@.len() ==> layer < (#[trigger] vs@[i]).colors@.len(),
            p@ == stream("c".spec_bytes() + decimal(layer as nat), PropertyType::Integer32, color_values(vs@, layer as int).subrange(0, i as int)),
        decreases vs@.len() - i,
    {
        let _ = p.push(PropertyValue::Integer32(vs[i].colors[layer]));
        i = i + 1;
        assert(p@.values =~= color_values(vs@, layer as int).subrange(0, i as int));
    }
    assert(color_values(vs@, layer as int).subrange(0, i as int) =~= color_values(vs@, layer as int));
    p
}

fn uv_stream(vs: &Vec<crate::model::Vertex>, layer: usize) -> (r: Property)
    requires
        forall|i: int| 0 <= i < vs@.len() ==> layer < (#[trigger] vs@[i]).uvs@.len(),
    ensures
        r@ == stream("u".spec_bytes() + decimal(layer as nat), PropertyType::Vector2, uv_values(vs@, layer as int)),
{
    let mut p = Property::from_name_bytes(PropertyType::Vector2, numbered("u", layer));
    let mut i: usize = 0;
    assert(uv_values(vs@, layer as int).subrange(0, 0) =~= Seq::<ValueModel>::empty());
    while i < vs.len()
        invariant
            i <= vs@.len(),
            forall|i: int| 0 <= i < vs@.len() ==> layer < (#[trigger] vs@[i]).uvs@.len(),
            p@ == stream("u".spec_bytes() + decimal(layer as nat), PropertyType::Vector2, uv_values(vs@, layer as int).subrange(0, i as int)),
        decreases vs@.len() - i,
    {
        let _ = p.push(PropertyValue::Vector2(vs[i].uvs[layer]));
        i = i + 1;
        assert(p@.values =~= uv_values(vs@, layer as int).subrange(0, i as int));
    }
    assert(uv_values(vs@, layer as int).subrange(0, i as int) =~= uv_values(vs@, layer as int));
    p
}

fn weight_streams(vs: &Vec<crate::model::Vertex>, mi: usize, w: IndexWidth) -> (r: (Property, Property))
    requires
        forall|i: int| 0 <= i < vs@.len() ==> (#[trigger] vs@[i]).weights@.len() == mi,
    ensures
        r.0@ == stream("wb".spec_bytes(), width_tag(w), weight_bone_values(vs@, mi as int, w)),
        r.1@ == stream("wv".spec_bytes(), PropertyType::Float, weight_value_values(vs@, mi as int)),
{
    let ghost fb = |i: int| weight_bone_row(vs@[i], mi as int, w);
    let ghost fv = |i: int| weight_value_row(vs@[i], mi as int);
    let mut pb = Property::new(width_type(w), "wb");
    let mut pv = Property::new(PropertyType::Float, "wv");
    let mut i: usize = 0;
    assert(Seq::new(0, fb).flatten() =~= Seq::<ValueModel>::empty());
    assert(Seq::new(0, fv).flatten() =~= Seq::<ValueModel>::empty());
    while i < vs.len()
        invariant
            i <= vs@.len(),
            forall|i: int| 0 <= i < vs@.len() ==> (#[trigger] vs@[i]).weights@.len() == mi,
            fb == (|i: int| weight_bone_row(vs@[i], mi as int, w)),
            fv == (|i: int| weight_value_row(vs@[i], mi as int)),
            pb@ == stream("wb".spec_bytes(), width_tag(w), Seq::new(i as nat, fb).flatten()),
            pv@ == stream("wv".spec_bytes(), PropertyType::Float, Seq::new(i as nat, fv).flatten()),
        decreases vs@.len() - i,
    {
        let ghost head_b = pb@.values;
        let ghost head_v = pv@.values;
        let v = &vs[i];
        let mut k: usize = 0;
        while k < mi
            invariant
                k <= mi,
                v.weights@.len() == mi,
                i < vs@.len(),
                *v == vs@[i as int],
                pb@ == stream("wb".spec_bytes(), width_tag(w), head_b + fb(i as int).subrange(0, k as int)),
                pv@ == stream("wv".spec_bytes(), PropertyType::Float, head_v + fv(i as int).subrange(0, k as int)),
                fb == (|i: int| weight_bone_row(vs@[i], mi as int, w)),
                fv == (|i: int| weight_value_row(vs@[i], mi as int)),
            decreases mi - k,
        {
            let weight = v.weights[k];
            let _ = pb.push(index_value(w, weight.bone as u32));
            let _ = pv.push(PropertyValue::Float(weight.value));
            k = k + 1;
            assert(pb@.values =~= head_b + fb(i as int).subrange(0, k as int));
            assert(pv@.values =~= head_v + fv(i as int).subrange(0, k as int));
        }
        proof {
            assert(fb(i as int).subrange(0, k as int) =~= fb(i as int));
            assert(fv(i as int).subrange(0, k as int) =~= fv(i as int));
            Seq::new(i as nat, fb).lemma_flatten_push(fb(i as int));
            Seq::new(i as nat, fv).lemma_flatten_push(fv(i as int));
            assert(Seq::new(i as nat, fb).push(fb(i as int)) =~= Seq::new((i + 1) as nat, fb));
            assert(Seq::new(i as nat, fv).push(fv(i as int)) =~= Seq::new((i + 1) as nat, fv));
        }
        i = i + 1;
    }
    (pb, pv)
}

fn face_stream(faces: &Vec<crate::model::Face>, w: IndexWidth) -> (r: Property)
    ensures
        r@ == stream("f".spec_bytes(), width_tag(w), face_values(faces@, w)),
{
    let ghost f = |j: int| seq![index_at(w, faces@[j].i3), index_at(w, faces@[j].i2), index_at(w, faces@[j].i1)];
    let mut p = Property::new(width_type(w), "f");
    let mut j: usize = 0;
    assert(Seq::new(0, f).flatten() =~= Seq::<ValueModel>::empty());
    while j < faces.len()
        invariant
            j <= faces@.len(),
            f == (|j: int| seq![index_at(w, faces@[j].i3), index_at(w, faces@[j].i2), index_at(w, faces@[j].i1)]),
            p@ == stream("f".spec_bytes(), width_tag(w), Seq::new(j as nat, f).flatten()),
        decreases faces@.len() - j,
    {
        let face = faces[j];
        let ghost head = p@.values;
        let _ = p.push(index_value(w, face.i3));
        let _ = p.push(index_value(w, face.i2));
        let _ = p.push(index_value(w, face.i1));
        proof {
            assert(p@.values =~= head + f(j as int));
            Seq::new(j as nat, f).lemma_flatten_push(f(j as int));
            assert(Seq::new(j as nat, f).push(f(j as int)) =~= Seq::new((j + 1) as nat, f));
        }
        j = j + 1;
    }
    p
}

fn push_mesh_head(node: &mut Node, m: &Mesh)
    requires
        old(node)@.properties == Seq::<PropertyModel>::empty(),
    ensures
        final(node)@ == (NodeModel { properties: mesh_head_props(*m), ..old(node)@ }),
{
    push_name(node, &m.name);
    node.push_property(single(PropertyType::Byte, "ul", PropertyValue::Byte(m.uv_layers as u8)));
    node.push_property(single(PropertyType::Byte, "mi", PropertyValue::Byte(m.maximum_influence as u8)));
    node.push_property(single(PropertyType::Byte, "cl", PropertyValue::Byte(m.color_layers as u8)));
    let sm = match m.skinning_method {
        SkinningMethod::Linear => "linear",
        SkinningMethod::DualQuaternion => "quaternion",
    };
    node.push_property(str_prop("sm", sm));
    node.push_property(vector_stream("vp", &m.vertices, false));
    node.push_property(vector_stream("vn", &m.vertices, true));
    assert(node@.properties =~= mesh_head_props(*m));
}

fn push_color_layers(node: &mut Node, m: &Mesh)
    requires
        m.wf(),
    ensures
        final(node)@ == (NodeModel { properties: old(node)@.properties + color_props(m.vertices@, m.color_layers as int), ..old(node)@ }),
{
    let ghost vs = m.vertices@;
    let ghost head = node@.properties;
    let mut cl: usize = 0;
    assert(head + color_props(vs, 0) =~= head);
    while cl < m.color_layers
        invariant
            cl <= m.color_layers,
            m.wf(),
            vs == m.vertices@,
            node@ == (NodeModel { properties: head + color_props(vs, cl as int), ..old(node)@ }),
        decreases m.color_layers - cl,
    {
        node.push_property(color_stream(&m.vertices, cl));
        cl = cl + 1;
        assert(node@.properties =~= head + color_props(vs, cl as int));
    }
}

fn push_uv_layers(node: &mut Node, m: &Mesh)
    requires
        m.wf(),
    ensures
        final(node)@ == (NodeModel { properties: old(node)@.properties + uv_props(m.vertices@, m.uv_layers as int), ..old(node)@ }),
{
    let ghost vs = m.vertices@;
    let ghost head = node@.properties;
    let mut uv: usize = 0;
    assert(head + uv_props(vs, 0) =~= head);
    while uv < m.uv_layers
        invariant
            uv <= m.uv_layers,
            m.wf(),
            vs == m.vertices@,
            node@ == (NodeModel { properties: head + uv_props(vs, uv as int), ..old(node)@ }),
        decreases m.uv_layers - uv,
    {
        node.push_property(uv_stream(&m.vertices, uv));
        uv = uv + 1;
        assert(node@.properties =~= head + uv_props(vs, uv as int));
    }
}

/// Builds the node of a mesh. `bone_count` is the number of bones of the skeleton and
/// `material_hashes` the identity of each material's node, by material index.
pub fn mesh_node(m: &Mesh, bone_count: usize, material_hashes: &Vec<u64>, ids: &mut NodeIds) -> (r: Node)
    requires
        m.wf(),
        old(ids)@ < u64::MAX,
    ensures
        r@ == (NodeModel {
            kind: NodeKind::Mesh,
            hash: old(ids)@,
            properties: mesh_props(*m, bone_count as int, material_hashes@),
            children: seq![],
        }),
        final(ids)@ == old(ids)@ + 1,
{
    let mut node = Node::new(NodeKind::Mesh, ids);
    push_mesh_head(&mut node, m);
    let ghost p0 = node@.properties;
    push_color_layers(&mut node, m);
    let ghost p1 = node@.properties;
    push_uv_layers(&mut node, m);
    let ghost p2 = node@.properties;
    if bone_count > 0 {
        let (wb, wv) = weight_streams(&m.vertices, m.maximum_influence, select_width(bone_count as u64));
        node.push_property(wb);
        node.push_property(wv);
    }
    assert(node@.properties =~= p2 + weight_props(*m, bone_count as int));
    let ghost p3 = node@.properties;
    node.push_property(face_stream(&m.faces, select_width(m.vertices.len() as u64)));
    assert(node@.properties =~= p3 + seq![face_prop(*m)]);
    let ghost p4 = node@.properties;
    match m.material {
        Some(i) => if i < material_hashes.len() {
            node.push_property(reference("m", material_hashes[i]));
        },
        None => {},
    }
    assert(node@.properties =~= p4 + material_ref_props(m.material, material_hashes@));
    node
}

// ----- blend shapes -----

/// The largest vertex index a blend shape touches, or 0 when it touches none.
pub open spec fn max_index(ds: Seq<(u32, Vector3)>) -> u32
    decreases ds.len(),
{
    if ds.len() == 0 {
        0
    } else {
        let m = max_index(ds.drop_last());
        if ds.last().0 > m {
            ds.last().0
        } else {
            m
        }
    }
}

/// Every vertex a blend shape touches exists among `vertex_count` vertices.
pub open spec fn blend_refs_ok(shape: BlendShape, vertex_count: int) -> bool {
    forall|k: int| 0 <= k < shape.vertex_deltas@.len() ==> (#[trigger] shape.vertex_deltas@[k]).0 < vertex_count
}

/// The vertex indices of a blend shape, in order, at the width chosen from the largest one.
pub open spec fn blend_index_prop(shape: BlendShape) -> PropertyModel {
    let ds = shape.vertex_deltas@;
    let w = width_for(max_index(ds) as int);
    stream("vi".spec_bytes(), width_tag(w), Seq::new(ds.len(), |k: int| index_at(w, ds[k].0)))
}

/// `n` is the node of blend shape `shape` of mesh `mesh`, whose node has identity `mesh_hash`:
/// name, back-reference to the mesh, target scale, the touched vertex indices, and for each
/// touched vertex the position `displace` gives for its base position and its delta.
pub open spec fn blend_ok<F: Fn(Vector3, Vector3) -> Vector3>(
    n: NodeModel,
    shape: BlendShape,
    mesh: Mesh,
    mesh_hash: u64,
    displace: F,
) -> bool {
    let ds = shape.vertex_deltas@;
    let vp = n.properties[4];
    &&& n.kind == NodeKind::BlendShape
    &&& n.children == Seq::<NodeModel>::empty()
    &&& n.properties.len() == 5
    &&& n.properties[0] == text_prop("n".spec_bytes(), text(shape.name))
    &&& n.properties[1] == ref_prop("b".spec_bytes(), mesh_hash)
    &&& n.properties[2] == one("ts".spec_bytes(), PropertyType::Float, ValueModel::Float(shape.target_scale))
    &&& n.properties[3] == blend_index_prop(shape)
    &&& vp.name == "vp".spec_bytes()
    &&& vp.tag == PropertyType::Vector3
    &&& vp.values.len() == ds.len()
    &&& forall|k: int|
        0 <= k < ds.len() ==> (#[trigger] vp.values[k] matches ValueModel::Vector3(p) && displace.ensures(
            (mesh.vertices@[ds[k].0 as int].position, ds[k].1),
            p,
        ))
}

fn blend_indices(shape: &BlendShape, vertex_count: usize) -> (r: Result<u32, ModelError>)
    ensures
        r is Ok <==> blend_refs_ok(*shape, vertex_count as int),
        r is Ok ==> r->Ok_0 == max_index(shape.vertex_deltas@),
        r is Err ==> r == Err::<u32, ModelError>(ModelError::ReferenceNotFound),
{
    let ghost ds = shape.vertex_deltas@;
    let mut m: u32 = 0;
    let mut k: usize = 0;
    assert(ds.subrange(0, 0) =~= Seq::<(u32, Vector3)>::empty());
    while k < shape.vertex_deltas.len()
        invariant
            k <= ds.len(),
            ds == shape.vertex_deltas@,
            m == max_index(ds.subrange(0, k as int)),
            forall|j: int| 0 <= j < k ==> (#[trigger] ds[j]).0 < vertex_count,
        decreases ds.len() - k,
    {
        let index = shape.vertex_deltas[k].0;
        if index as usize >= vertex_count {
            return Err(ModelError::ReferenceNotFound);
        }
        assert(ds.subrange(0, k + 1).drop_last() =~= ds.subrange(0, k as int));
        if index > m {
            m = index;
        }
        k = k + 1;
    }
    assert(ds.subrange(0, k as int) =~= ds);
    Ok(m)
}

/// Builds the node of a blend shape of `mesh`, whose node has identity `mesh_hash`. Each
/// emitted position is what `displace` gives for the base position and the delta. Fails when the
/// shape touches a vertex the mesh does not have.
pub fn blend_shape_node<F: Fn(Vector3, Vector3) -> Vector3>(
    shape: &BlendShape,
    mesh: &Mesh,
    mesh_hash: u64,
    ids: &mut NodeIds,
    displace: &F,
) -> (r: Result<Node, ModelError>)
    requires
        old(ids)@ < u64::MAX,
        forall|a: Vector3, b: Vector3| displace.requires((a, b)),
    ensures
        r is Ok <==> blend_refs_ok(*shape, mesh.vertices@.len() as int),
        r is Err ==> r == Err::<Node, ModelError>(ModelError::ReferenceNotFound),
        r is Ok ==> blend_ok(r->Ok_0@, *shape, *mesh, mesh_hash, *displace),
        r is Ok ==> r->Ok_0@.hash == old(ids)@,
        r is Ok ==> final(ids)@ == old(ids)@ + 1,
{
    let ghost ds = shape.vertex_deltas@;
    let largest = match blend_indices(shape, mesh.vertices.len()) {
        Ok(m) => m,
        Err(e) => {
            return Err(e);
        },
    };
    let mut node = Node::new(NodeKind::BlendShape, ids);
    node.push_property(string_prop("n", &shape.name));
    node.push_property(reference("b", mesh_hash));
    node.push_property(single(PropertyType::Float, "ts", PropertyValue::Float(shape.target_scale)));
    let w = select_width(largest as u64);
    let mut indices = Property::new(width_type(w), "vi");
    let mut positions = Property::new(PropertyType::Vector3, "vp");
    let ghost fi = |k: int| index_at(w, ds[k].0);
    let mut k: usize = 0;
    assert(Seq::new(0, fi) =~= Seq::<ValueModel>::empty());
    while k < shape.vertex_deltas.len()
        invariant
            k <= ds.len(),
            ds == shape.vertex_deltas@,
            blend_refs_ok(*shape, mesh.vertices@.len() as int),
            forall|a: Vector3, b: Vector3| displace.requires((a, b)),
            fi == (|k: int| index_at(w, ds[k].0)),
            indices@ == stream("vi".spec_bytes(), width_tag(w), Seq::new(k as nat, fi)),
            positions@.name == "vp".spec_bytes(),
            positions@.tag == PropertyType::Vector3,
            positions@.values.len() == k,
            forall|j: int|
                0 <= j < k ==> (#[trigger] positions@.values[j] matches ValueModel::Vector3(p) && displace.ensures(
                    (mesh.vertices@[ds[j].0 as int].position, ds[j].1),
                    p,
                )),
        decreases ds.len() - k,
    {
        let (index, delta) = shape.vertex_deltas[k];
        assert(ds[k as int].0 < mesh.vertices@.len());
        let _ = indices.push(index_value(w, index));
        let p = displace(mesh.vertices[index as usize].position, delta);
        let ghost before = positions@.values;
        let _ = positions.push(PropertyValue::Vector3(p));
        k = k + 1;
        assert(indices@.values =~= Seq::new(k as nat, fi));
        assert forall|j: int|
            0 <= j < k implies (#[trigger] positions@.values[j] matches ValueModel::Vector3(p) && displace.ensures(
                (mesh.vertices@[ds[j].0 as int].position, ds[j].1),
                p,
            )) by {
            if j < k - 1 {
                assert(positions@.values[j] == before[j]);
            }
        }
    }
    node.push_property(indices);
    node.push_property(positions);
    Ok(node)
}

// ----- mesh groups -----

/// The number of nodes a mesh takes: itself and one per blend shape.
pub open spec fn mesh_count(m: Mesh) -> int {
    (1 + m.blend_shapes@.len()) as int
}

/// Every vertex each blend shape of the mesh touches exists.
pub open spec fn mesh_refs_ok(m: Mesh) -> bool {
    forall|b: int| 0 <= b < m.blend_shapes@.len() ==> blend_refs_ok(#[trigger] m.blend_shapes@[b], m.vertices@.len() as int)
}

/// `g` is the mesh node of `m` followed by the node of each of its blend shapes, in order.
#[verifier::opaque]
pub open spec fn group_ok<F: Fn(Vector3, Vector3) -> Vector3>(
    g: Seq<NodeModel>,
    m: Mesh,
    bone_count: int,
    material_hashes: Seq<u64>,
    displace: F,
) -> bool {
    &&& g.len() == mesh_count(m)
    &&& g[0] == NodeModel { kind: NodeKind::Mesh, hash: g[0].hash, properties: mesh_props(m, bone_count, material_hashes), children: seq![] }
    &&& forall|b: int| 0 <= b < m.blend_shapes@.len() ==> blend_ok(#[trigger] g[1 + b], m.blend_shapes@[b], m, g[0].hash, displace)
}

/// The models of a run of nodes.
pub open spec fn views(ns: Seq<Node>) -> Seq<NodeModel> {
    ns.map_values(|c: Node| c@)
}

/// Builds the node of a mesh followed by the nodes of its blend shapes.
pub fn mesh_group<F: Fn(Vector3, Vector3) -> Vector3>(
    m: &Mesh,
    bone_count: usize,
    material_hashes: &Vec<u64>,
    ids: &mut NodeIds,
    displace: &F,
) -> (r: Result<Vec<Node>, ModelError>)
    requires
        m.wf(),
        old(ids)@ + mesh_count(*m) <= u64::MAX,
        forall|a: Vector3, b: Vector3| displace.requires((a, b)),
    ensures
        r is Ok <==> mesh_refs_ok(*m),
        r is Err ==> r == Err::<Vec<Node>, ModelError>(ModelError::ReferenceNotFound),
        r is Ok ==> group_ok(views(r->Ok_0@), *m, bone_count as int, material_hashes@, *displace),
        r is Ok ==> r->Ok_0@.len() == mesh_count(*m),
        r is Ok ==> final(ids)@ == old(ids)@ + mesh_count(*m),
        r is Ok ==> fresh_range(crate::node::hashes_of(views(r->Ok_0@)), old(ids)@ as int, final(ids)@ as int),
{
    let ghost start = ids@;
    let mesh = mesh_node(m, bone_count, material_hashes, ids);
    let mesh_hash = mesh.hash();
    let ghost mm = mesh@;
    let mut group: Vec<Node> = Vec::new();
    proof {
        lemma_leaf_fresh(mesh@);
        crate::node::lemma_hashes_of_push(views(group@), mesh@);
        assert(views(group@) =~= Seq::<NodeModel>::empty());
        assert(crate::node::hashes_of(Seq::<NodeModel>::empty()) =~= Seq::<u64>::empty());
        crate::node::lemma_fresh_concat(Seq::<u64>::empty(), hashes(mesh@), start as int, start as int, ids@ as int);
        assert(Seq::<u64>::empty() + hashes(mesh@) =~= hashes(mesh@));
    }
    group.push(mesh);
    assert(views(group@) =~= seq![mm]);
    let mut b: usize = 0;
    while b < m.blend_shapes.len()
        invariant
            b <= m.blend_shapes@.len(),
            m.wf(),
            start + mesh_count(*m) <= u64::MAX,
            ids@ == start + 1 + b,
            forall|a: Vector3, b: Vector3| displace.requires((a, b)),
            group@.len() == 1 + b,
            views(group@)[0] == mm,
            mm == (NodeModel { kind: NodeKind::Mesh, hash: mesh_hash, properties: mesh_props(*m, bone_count as int, material_hashes@), children: seq![] }),
            forall|k: int| 0 <= k < b ==> blend_refs_ok(#[trigger] m.blend_shapes@[k], m.vertices@.len() as int),
            forall|k: int| 0 <= k < b ==> blend_ok(#[trigger] views(group@)[1 + k], m.blend_shapes@[k], *m, mesh_hash, *displace),
            fresh_range(crate::node::hashes_of(views(group@)), start as int, ids@ as int),
        decreases m.blend_shapes@.len() - b,
    {
        let ghost before = views(group@);
        let ghost mid = ids@;
        let shape = match blend_shape_node(&m.blend_shapes[b], m, mesh_hash, ids, displace) {
            Ok(n) => n,
            Err(e) => {
                return Err(e);
            },
        };
        proof {
            lemma_leaf_fresh(shape@);
            crate::node::lemma_hashes_of_push(before, shape@);
            crate::node::lemma_fresh_concat(crate::node::hashes_of(before), hashes(shape@), start as int, mid as int, ids@ as int);
        }
        group.push(shape);
        assert(views(group@) =~= before.push(shape@));
        b = b + 1;
        assert forall|k: int| 0 <= k < b implies blend_ok(#[trigger] views(group@)[1 + k], m.blend_shapes@[k], *m, mesh_hash, *displace) by {
            if k < b - 1 {
                assert(views(group@)[1 + k] == before[1 + k]);
            }
        }
    }
    proof {
        reveal(group_ok);
    }
    Ok(group)
}

// ----- the whole scene -----

/// The number of nodes a run of materials takes.
#[verifier::opaque]
pub open spec fn materials_count(ms: Seq<Material>) -> int
    decreases ms.len(),
{
    if ms.len() == 0 {
        0
    } else {
        materials_count(ms.drop_last()) + material_count(ms.last())
    }
}

/// The number of nodes a run of meshes takes, blend shapes included.
#[verifier::opaque]
pub open spec fn meshes_count(ms: Seq<Mesh>) -> int
    decreases ms.len(),
{
    if ms.len() == 0 {
        0
    } else {
        meshes_count(ms.drop_last()) + mesh_count(ms.last())
    }
}

/// The number of nodes the conversion of a scene takes: root, metadata, model, skeleton,
/// materials and meshes.
pub open spec fn node_count(model: Model) -> int {
    3 + skeleton_count(model.skeleton) + materials_count(model.materials@) + meshes_count(model.meshes@)
}

proof fn lemma_materials_count_step(ms: Seq<Material>, i: int)
    requires
        0 <= i < ms.len(),
    ensures
        materials_count(ms.subrange(0, i + 1)) == materials_count(ms.subrange(0, i)) + material_count(ms[i]),
{
    reveal(materials_count);
    assert(ms.subrange(0, i + 1).drop_last() =~= ms.subrange(0, i));
}

proof fn lemma_materials_count_nonneg(ms: Seq<Material>)
    ensures
        0 <= materials_count(ms),
        ms.len() == 0 ==> materials_count(ms) == 0,
    decreases ms.len(),
{
    reveal(materials_count);
    if ms.len() > 0 {
        lemma_materials_count_nonneg(ms.drop_last());
    }
}

proof fn lemma_materials_count_mono(ms: Seq<Material>, i: int)
    requires
        0 <= i <= ms.len(),
    ensures
        0 <= materials_count(ms.subrange(0, i)) <= materials_count(ms),
    decreases ms.len() - i,
{
    lemma_materials_count_nonneg(ms.subrange(0, i));
    if i == ms.len() {
        assert(ms.subrange(0, i) =~= ms);
    } else {
        lemma_materials_count_step(ms, i);
        lemma_materials_count_mono(ms, i + 1);
    }
}

proof fn lemma_meshes_count_step(ms: Seq<Mesh>, i: int)
    requires
        0 <= i < ms.len(),
    ensures
        meshes_count(ms.subrange(0, i + 1)) == meshes_count(ms.subrange(0, i)) + mesh_count(ms[i]),
{
    reveal(meshes_count);
    assert(ms.subrange(0, i + 1).drop_last() =~= ms.subrange(0, i));
}

proof fn lemma_meshes_count_nonneg(ms: Seq<Mesh>)
    ensures
        0 <= meshes_count(ms),
        ms.len() == 0 ==> meshes_count(ms) == 0,
    decreases ms.len(),
{
    reveal(meshes_count);
    if ms.len() > 0 {
        lemma_meshes_count_nonneg(ms.drop_last());
    }
}

proof fn lemma_meshes_count_mono(ms: Seq<Mesh>, i: int, j: int)
    requires
        0 <= i <= j <= ms.len(),
    ensures
        0 <= meshes_count(ms.subrange(0, i)) <= meshes_count(ms.subrange(0, j)),
    decreases j - i,
{
    lemma_meshes_count_nonneg(ms.subrange(0, i));
    if i < j {
        lemma_meshes_count_step(ms, j - 1);
        lemma_meshes_count_mono(ms, i, j - 1);
    }
}

/// The number of nodes the scene takes, or `None` when it exceeds `u64::MAX`.
fn count_nodes(model: &Model) -> (r: Option<u64>)
    ensures
        r is Some <==> node_count(*model) <= u64::MAX,
        r is Some ==> r->Some_0 == node_count(*model),
{
    let ghost mats = model.materials@;
    let ghost meshes = model.meshes@;
    proof {
        lemma_materials_count_mono(mats, 0);
        lemma_meshes_count_mono(meshes, 0, meshes.len() as int);
        assert(meshes.subrange(0, meshes.len() as int) =~= meshes);
    }
    let s = &model.skeleton;
    let mut total: u64 = 3;
    if s.bones.len() > 0 {
        total = 4;
        match total.checked_add(s.bones.len() as u64) {
            Some(t) => total = t,
            None => return None,
        }
        match total.checked_add(s.ik_handles.len() as u64) {
            Some(t) => total = t,
            None => return None,
        }
        match total.checked_add(s.constraints.len() as u64) {
            Some(t) => total = t,
            None => return None,
        }
    }
    let ghost base = total as int;
    assert(base == 3 + skeleton_count(*s));
    proof {
        lemma_materials_count_nonneg(mats.subrange(0, 0));
        lemma_meshes_count_nonneg(meshes.subrange(0, 0));
    }
    let mut i: usize = 0;
    assert(mats.subrange(0, 0).len() == 0);
    while i < model.materials.len()
        invariant
            i <= mats.len(),
            mats == model.materials@,
            base == 3 + skeleton_count(model.skeleton),
            total == base + materials_count(mats.subrange(0, i as int)),
            0 <= materials_count(mats),
            0 <= meshes_count(meshes),
            meshes == model.meshes@,
        decreases mats.len() - i,
    {
        proof {
            lemma_materials_count_step(mats, i as int);
            lemma_materials_count_mono(mats, i + 1);
        }
        match total.checked_add(1) {
            Some(t) => total = t,
            None => return None,
        }
        match total.checked_add(model.materials[i].textures.len() as u64) {
            Some(t) => total = t,
            None => return None,
        }
        i = i + 1;
    }
    assert(mats.subrange(0, i as int) =~= mats);
    let ghost mid = total as int;
    let mut g: usize = 0;
    while g < model.meshes.len()
        invariant
            g <= meshes.len(),
            meshes == model.meshes@,
            mid == 3 + skeleton_count(model.skeleton) + materials_count(model.materials@),
            total == mid + meshes_count(meshes.subrange(0, g as int)),
        decreases meshes.len() - g,
    {
        proof {
            lemma_meshes_count_step(meshes, g as int);
            lemma_meshes_count_mono(meshes, g + 1, meshes.len() as int);
            assert(meshes.subrange(0, meshes.len() as int) =~= meshes);
        }
        match total.checked_add(1) {
            Some(t) => total = t,
            None => return None,
        }
        match total.checked_add(model.meshes[g].blend_shapes.len() as u64) {
            Some(t) => total = t,
            None => return None,
        }
        g = g + 1;
    }
    assert(meshes.subrange(0, g as int) =~= meshes);
    Some(total)
}

/// Where the nodes of mesh `g` start, counted from the first mesh node.
pub open spec fn mesh_offset(ms: Seq<Mesh>, g: int) -> int {
    meshes_count(ms.subrange(0, g))
}

/// Every required reference of the scene resolves: every bone of every IK handle and constraint
/// (so rigging without bones fails), the material of every mesh, and every vertex of every
/// blend shape.
pub open spec fn model_refs_ok(model: Model) -> bool {
    &&& skeleton_refs_ok(model.skeleton)
    &&& forall|g: int| 0 <= g < model.meshes@.len() ==> mesh_refs_ok(#[trigger] model.meshes@[g])
        && material_index_ok(model.meshes@[g], model.materials@.len() as int)
}

/// The material a mesh names, if any, exists among `count` materials.
pub open spec fn material_index_ok(m: Mesh, count: int) -> bool {
    m.material matches Some(i) ==> i < count
}

/// Whether the scene has a skeleton node: 1 when it has bones, else 0.
pub open spec fn skeleton_slots(model: Model) -> int {
    if model.skeleton.bones@.len() > 0 {
        1
    } else {
        0
    }
}

/// The children of the model node from `k` on are the material nodes, in order.
pub open spec fn materials_ok(n: NodeModel, k: int, ms: Seq<Material>) -> bool {
    &&& n.children.len() >= k + ms.len()
    &&& forall|i: int| 0 <= i < ms.len() ==> material_ok(#[trigger] n.children[k + i], ms[i])
}

/// From `base` on, the children are the groups of the first `count` meshes, in order.
pub open spec fn groups_ok<F: Fn(Vector3, Vector3) -> Vector3>(
    n: NodeModel,
    base: int,
    ms: Seq<Mesh>,
    count: int,
    bone_count: int,
    material_hashes: Seq<u64>,
    displace: F,
) -> bool {
    forall|g: int|
        0 <= g < count ==> group_ok(
            n.children.subrange(base + mesh_offset(ms, g), base + mesh_offset(ms, g + 1)),
            #[trigger] ms[g],
            bone_count,
            material_hashes,
            displace,
        )
}

/// `n` is the model node of `model`: the skeleton node when there are bones, then the material
/// nodes, then for each mesh its node followed by its blend shapes' nodes; a mesh's material
/// reference is the identity of that material's node.
pub open spec fn model_node_ok<F: Fn(Vector3, Vector3) -> Vector3>(n: NodeModel, model: Model, displace: F) -> bool {
    let k = skeleton_slots(model);
    let ms = model.materials@;
    let base = k + ms.len();
    &&& n.kind == NodeKind::Model
    &&& n.properties == Seq::<PropertyModel>::empty()
    &&& n.children.len() == base + meshes_count(model.meshes@)
    &&& (k == 1 ==> skeleton_ok(n.children[0], model.skeleton))
    &&& materials_ok(n, k, ms)
    &&& groups_ok(n, base, model.meshes@, model.meshes@.len() as int, model.skeleton.bones@.len() as int, child_hashes(n, k, ms.len() as int), displace)
}

/// The code written for an up axis.
pub open spec fn axis_code(a: Axis) -> Seq<u8> {
    match a {
        Axis::X => "x".spec_bytes(),
        Axis::Y => "y".spec_bytes(),
        Axis::Z => "z".spec_bytes(),
    }
}

/// The properties of the metadata node: author, software and up axis.
pub open spec fn metadata_props(model: Model) -> Seq<PropertyModel> {
    seq![
        text_prop("a".spec_bytes(), "DTZxPorter".spec_bytes()),
        text_prop("s".spec_bytes(), "Exported by PorterLib".spec_bytes()),
        text_prop("up".spec_bytes(), axis_code(model.up_axis)),
    ]
}

/// `r` is the conversion of `model`: a root holding the metadata node, then the model node.
pub open spec fn cast_ok<F: Fn(Vector3, Vector3) -> Vector3>(r: NodeModel, model: Model, displace: F) -> bool {
    &&& r.kind == NodeKind::Root
    &&& r.properties == Seq::<PropertyModel>::empty()
    &&& r.children.len() == 2
    &&& leaf_ok(r.children[0], NodeKind::Metadata, metadata_props(model))
    &&& model_node_ok(r.children[1], model, displace)
}

fn push_materials(node: &mut Node, ms: &Vec<Material>, ids: &mut NodeIds) -> (r: Vec<u64>)
    requires
        old(ids)@ + materials_count(ms@) <= u64::MAX,
        fresh_range(hashes(old(node)@), old(node)@.hash as int, old(ids)@ as int),
        old(node)@.hash <= old(ids)@,
    ensures
        final(node)@.kind == old(node)@.kind,
        final(node)@.hash == old(node)@.hash,
        final(node)@.properties == old(node)@.properties,
        final(node)@.children.len() == old(node)@.children.len() + ms@.len(),
        final(node)@.children.subrange(0, old(node)@.children.len() as int) == old(node)@.children,
        materials_ok(final(node)@, old(node)@.children.len() as int, ms@),
        r@ == child_hashes(final(node)@, old(node)@.children.len() as int, ms@.len() as int),
        final(ids)@ == old(ids)@ + materials_count(ms@),
        fresh_range(hashes(final(node)@), old(node)@.hash as int, final(ids)@ as int),
{
    let ghost k = old(node)@.children.len() as int;
    let ghost lo = node@.hash as int;
    let ghost start = ids@;
    let mut hashes_out: Vec<u64> = Vec::new();
    let mut i: usize = 0;
    proof {
        lemma_materials_count_nonneg(ms@.subrange(0, 0));
        lemma_materials_count_mono(ms@, 0);
    }
    while i < ms.len()
        invariant
            i <= ms@.len(),
            start + materials_count(ms@) <= u64::MAX,
            ids@ == start + materials_count(ms@.subrange(0, i as int)),
            lo <= start,
            node@.kind == old(node)@.kind,
            node@.hash == old(node)@.hash,
            lo == node@.hash,
            node@.properties == old(node)@.properties,
            k == old(node)@.children.len(),
            node@.children.len() == k + i,
            forall|j: int| 0 <= j < k ==> node@.children[j] == old(node)@.children[j],
            forall|j: int| 0 <= j < i ==> material_ok(#[trigger] node@.children[k + j], ms@[j]),
            hashes_out@ == child_hashes(node@, k, i as int),
            fresh_range(hashes(node@), lo, ids@ as int),
        decreases ms@.len() - i,
    {
        proof {
            lemma_materials_count_step(ms@, i as int);
            lemma_materials_count_mono(ms@, i + 1);
            lemma_materials_count_mono(ms@, i as int);
        }
        let ghost before = node@;
        let ghost mid = ids@;
        let m = material_node(&ms[i], ids);
        let ghost mv = m@;
        proof {
            lemma_push_child_fresh(before, m@, lo, mid as int, ids@ as int);
        }
        hashes_out.push(m.hash());
        node.push_child(m);
        assert(node@.children == before.children.push(mv));
        i = i + 1;
        proof {
            assert(before.children.len() == k + i - 1);
            assert(node@.children.len() == k + i);
            assert forall|j: int| 0 <= j < k implies node@.children[j] == before.children[j] by {}
            assert(hashes_out@ =~= child_hashes(node@, k, i as int));
            assert forall|j: int| 0 <= j < i implies material_ok(#[trigger] node@.children[k + j], ms@[j]) by {
                if j < i - 1 {
                    assert(node@.children[k + j] == before.children[k + j]);
                }
            }
        }
    }
    assert(ms@.subrange(0, i as int) =~= ms@);
    assert(node@.children.subrange(0, k) =~= old(node)@.children);
    assert(materials_ok(node@, k, ms@));
    hashes_out
}

#[verifier::rlimit(50)]
proof fn lemma_groups_extend<F: Fn(Vector3, Vector3) -> Vector3>(
    before: NodeModel,
    gv: Seq<NodeModel>,
    base: int,
    ms: Seq<Mesh>,
    g: int,
    bone_count: int,
    material_hashes: Seq<u64>,
    displace: F,
)
    requires
        0 <= g < ms.len(),
        0 <= base,
        before.children.len() == base + mesh_offset(ms, g),
        groups_ok(before, base, ms, g, bone_count, material_hashes, displace),
        group_ok(gv, ms[g], bone_count, material_hashes, displace),
        gv.len() == mesh_count(ms[g]),
    ensures
        groups_ok(NodeModel { children: before.children + gv, ..before }, base, ms, g + 1, bone_count, material_hashes, displace),
{
    let after = NodeModel { children: before.children + gv, ..before };
    lemma_meshes_count_step(ms, g);
    lemma_meshes_count_mono(ms, g, g + 1);
    assert forall|j: int| 0 <= j < g + 1 implies group_ok(
        after.children.subrange(base + mesh_offset(ms, j), base + mesh_offset(ms, j + 1)),
        #[trigger] ms[j],
        bone_count,
        material_hashes,
        displace,
    ) by {
        lemma_meshes_count_mono(ms, j, j + 1);
        if j < g {
            lemma_meshes_count_mono(ms, j + 1, g);
            assert(after.children.subrange(base + mesh_offset(ms, j), base + mesh_offset(ms, j + 1))
                =~= before.children.subrange(base + mesh_offset(ms, j), base + mesh_offset(ms, j + 1)));
        } else {
            assert(after.children.subrange(base + mesh_offset(ms, j), base + mesh_offset(ms, j + 1)) =~= gv);
        }
    }
}

#[verifier::rlimit(50)]
fn push_meshes<F: Fn(Vector3, Vector3) -> Vector3>(
    node: &mut Node,
    ms: &Vec<Mesh>,
    bone_count: usize,
    material_hashes: &Vec<u64>,
    ids: &mut NodeIds,
    displace: &F,
) -> (r: Result<(), ModelError>)
    requires
        forall|g: int| 0 <= g < ms@.len() ==> (#[trigger] ms@[g]).wf(),
        old(ids)@ + meshes_count(ms@) <= u64::MAX,
        fresh_range(hashes(old(node)@), old(node)@.hash as int, old(ids)@ as int),
        old(node)@.hash <= old(ids)@,
        forall|a: Vector3, b: Vector3| displace.requires((a, b)),
    ensures
        r is Ok <==> forall|g: int| 0 <= g < ms@.len() ==> mesh_refs_ok(#[trigger] ms@[g])
            && material_index_ok(ms@[g], material_hashes@.len() as int),
        r is Err ==> r == Err::<(), ModelError>(ModelError::ReferenceNotFound),
        r is Ok ==> final(node)@.kind == old(node)@.kind,
        r is Ok ==> final(node)@.hash == old(node)@.hash,
        r is Ok ==> final(node)@.properties == old(node)@.properties,
        r is Ok ==> final(node)@.children.len() == old(node)@.children.len() + meshes_count(ms@),
        r is Ok ==> final(node)@.children.subrange(0, old(node)@.children.len() as int) == old(node)@.children,
        r is Ok ==> groups_ok(final(node)@, old(node)@.children.len() as int, ms@, ms@.len() as int, bone_count as int, material_hashes@, *displace),
        r is Ok ==> final(ids)@ == old(ids)@ + meshes_count(ms@),
        r is Ok ==> fresh_range(hashes(final(node)@), old(node)@.hash as int, final(ids)@ as int),
{
    let ghost base = old(node)@.children.len() as int;
    let ghost lo = node@.hash as int;
    let ghost start = ids@;
    let mut g: usize = 0;
    proof {
        lemma_meshes_count_nonneg(ms@.subrange(0, 0));
        lemma_meshes_count_mono(ms@, 0, ms@.len() as int);
        assert(ms@.subrange(0, ms@.len() as int) =~= ms@);
    }
    while g < ms.len()
        invariant
            g <= ms@.len(),
            forall|g: int| 0 <= g < ms@.len() ==> (#[trigger] ms@[g]).wf(),
            forall|a: Vector3, b: Vector3| displace.requires((a, b)),
            start + meshes_count(ms@) <= u64::MAX,
            ids@ == start + mesh_offset(ms@, g as int),
            lo <= start,
            node@.kind == old(node)@.kind,
            node@.hash == old(node)@.hash,
            lo == node@.hash,
            node@.properties == old(node)@.properties,
            base == old(node)@.children.len(),
            0 <= mesh_offset(ms@, g as int),
            node@.children.len() == base + mesh_offset(ms@, g as int),
            forall|j: int| 0 <= j < base ==> node@.children[j] == old(node)@.children[j],
            forall|j: int| 0 <= j < g ==> mesh_refs_ok(#[trigger] ms@[j])
                && material_index_ok(ms@[j], material_hashes@.len() as int),
            groups_ok(node@, base, ms@, g as int, bone_count as int, material_hashes@, *displace),
            fresh_range(hashes(node@), lo, ids@ as int),
        decreases ms@.len() - g,
    {
        proof {
            lemma_meshes_count_step(ms@, g as int);
            lemma_meshes_count_mono(ms@, g + 1, ms@.len() as int);
            lemma_meshes_count_mono(ms@, g as int, g + 1);
            assert(ms@.subrange(0, ms@.len() as int) =~= ms@);
        }
        match ms[g].material {
            Some(i) => if i >= material_hashes.len() {
                return Err(ModelError::ReferenceNotFound);
            },
            None => {},
        }
        let ghost before = node@;
        let ghost mid = ids@;
        let group = match mesh_group(&ms[g], bone_count, material_hashes, ids, displace) {
            Ok(group) => group,
            Err(e) => {
                return Err(e);
            },
        };
        let ghost gv = views(group@);
        proof {
            lemma_append_children_fresh(before, gv, lo, mid as int, ids@ as int);
        }
        node.append_children(group);
        g = g + 1;
        proof {
            assert(node@.children =~= before.children + gv);
            assert forall|j: int| 0 <= j < base implies node@.children[j] == before.children[j] by {}
            lemma_groups_extend(before, gv, base, ms@, g - 1, bone_count as int, material_hashes@, *displace);
        }
    }
    assert(ms@.subrange(0, g as int) =~= ms@);
    assert(node@.children.subrange(0, base) =~= old(node)@.children);
    Ok(())
}

/// Converts a scene into a container tree under one root: metadata, then the model node with
/// the skeleton (when there are bones), materials, and meshes each followed by its blend shapes.
/// `displace` gives a blend shape's emitted position from a base position and a delta.
///
/// Fails with `CapacityExceeded` exactly when the scene needs more nodes than there are
/// identities, and otherwise with `ReferenceNotFound` exactly when a required reference does
/// not resolve. No two nodes of the tree share an identity.
pub fn cast_root<F: Fn(Vector3, Vector3) -> Vector3>(model: &Model, displace: &F) -> (r: Result<Node, ModelError>)
    requires
        model.wf(),
        forall|a: Vector3, b: Vector3| displace.requires((a, b)),
    ensures
        (r == Err::<Node, ModelError>(ModelError::CapacityExceeded)) <==> node_count(*model) >= u64::MAX,
        (r == Err::<Node, ModelError>(ModelError::ReferenceNotFound)) <==> (node_count(*model) < u64::MAX && !model_refs_ok(*model)),
        r is Err ==> r == Err::<Node, ModelError>(ModelError::CapacityExceeded) || r == Err::<Node, ModelError>(
            ModelError::ReferenceNotFound,
        ),
        r is Ok ==> cast_ok(r->Ok_0@, *model, *displace),
        r is Ok ==> hashes(r->Ok_0@).no_duplicates(),
{
    match count_nodes(model) {
        Some(c) => if c == u64::MAX {
            return Err(ModelError::CapacityExceeded);
        },
        None => {
            return Err(ModelError::CapacityExceeded);
        },
    }
    proof {
        lemma_materials_count_nonneg(model.materials@);
        lemma_meshes_count_nonneg(model.meshes@);
    }
    let mut ids = NodeIds::new();
    let mut root = Node::new(NodeKind::Root, &mut ids);
    let mut meta = Node::new(NodeKind::Metadata, &mut ids);
    meta.push_property(str_prop("a", "DTZxPorter"));
    meta.push_property(str_prop("s", "Exported by PorterLib"));
    let up = match model.up_axis {
        Axis::X => "x",
        Axis::Y => "y",
        Axis::Z => "z",
    };
    meta.push_property(str_prop("up", up));
    assert(meta@.properties =~= metadata_props(*model));
    let mut model_node = Node::new(NodeKind::Model, &mut ids);
    proof {
        lemma_leaf_fresh(root@);
        lemma_leaf_fresh(meta@);
        lemma_leaf_fresh(model_node@);
    }
    let s = &model.skeleton;
    if s.bones.len() > 0 {
        let ghost before = model_node@;
        let ghost mid = ids@;
        let skeleton = match skeleton_node(s, &mut ids) {
            Ok(n) => n,
            Err(e) => {
                return Err(e);
            },
        };
        proof {
            lemma_push_child_fresh(before, skeleton@, 3, mid as int, ids@ as int);
        }
        model_node.push_child(skeleton);
    } else if s.ik_handles.len() > 0 || s.constraints.len() > 0 {
        proof {
            if s.ik_handles@.len() > 0 {
                assert(!ik_refs_ok(s.ik_handles@[0], 0));
            } else {
                assert(!constraint_refs_ok(s.constraints@[0], 0));
            }
        }
        return Err(ModelError::ReferenceNotFound);
    }
    let ghost k = skeleton_slots(*model);
    let ghost after_skeleton = model_node@;
    let material_hashes = push_materials(&mut model_node, &model.materials, &mut ids);
    let ghost after_materials = model_node@;
    let ghost nm = model.materials@.len() as int;
    match push_meshes(&mut model_node, &model.meshes, s.bones.len(), &material_hashes, &mut ids, displace) {
        Ok(()) => {},
        Err(e) => {
            return Err(e);
        },
    }
    proof {
        let fin = model_node@;
        assert forall|j: int| 0 <= j < k + nm implies fin.children[j] == after_materials.children[j] by {
            assert(fin.children.subrange(0, k + nm)[j] == fin.children[j]);
        }
        assert forall|j: int| 0 <= j < k implies fin.children[j] == after_skeleton.children[j] by {
            assert(after_materials.children.subrange(0, k)[j] == after_materials.children[j]);
        }
        assert(child_hashes(fin, k, nm) =~= child_hashes(after_materials, k, nm));
        assert(materials_ok(fin, k, model.materials@));
        assert(model_node_ok(fin, *model, *displace));
    }
    let ghost r0 = root@;
    let ghost mv = meta@;
    proof {
        lemma_push_child_fresh(r0, mv, 1, 2, 3);
    }
    root.push_child(meta);
    let ghost r1 = root@;
    let ghost nv = model_node@;
    proof {
        lemma_push_child_fresh(r1, nv, 1, 3, ids@ as int);
    }
    root.push_child(model_node);
    assert(root@.children =~= seq![mv, nv]);
    Ok(root)
}

/// Converts a scene and serializes it as one container stream.
///
/// Fails with `ReferenceNotFound` exactly when `cast_root` does; with `CapacityExceeded` when
/// the scene needs more nodes than there are identities, or when some count of the built tree
/// does not fit in 32 bits; with `InvalidName` when a string of the built tree holds a zero
/// byte. On success the bytes read back as exactly the built tree.
pub fn to_cast<F: Fn(Vector3, Vector3) -> Vector3>(model: &Model, displace: &F) -> (r: Result<Vec<u8>, ModelError>)
    requires
        model.wf(),
        forall|a: Vector3, b: Vector3| displace.requires((a, b)),
    ensures
        (r == Err::<Vec<u8>, ModelError>(ModelError::ReferenceNotFound)) <==> (node_count(*model) < u64::MAX && !model_refs_ok(*model)),
        node_count(*model) >= u64::MAX ==> r == Err::<Vec<u8>, ModelError>(ModelError::CapacityExceeded),
        r == Err::<Vec<u8>, ModelError>(ModelError::CapacityExceeded) ==> node_count(*model) >= u64::MAX || exists|t: NodeModel|
            cast_ok(t, *model, *displace) && !file_fits(seq![t]),
        r == Err::<Vec<u8>, ModelError>(ModelError::InvalidName) ==> exists|t: NodeModel|
            cast_ok(t, *model, *displace) && file_fits(seq![t]) && !node_ok(t),
        r is Ok ==> exists|t: NodeModel|
            cast_ok(t, *model, *displace) && hashes(t).no_duplicates() && file_fits(seq![t]) && node_ok(t)
                && r->Ok_0@ == enc_file(seq![t]) && parse_file(r->Ok_0@) == Some(seq![t]),
{
    let root = match cast_root(model, displace) {
        Ok(root) => root,
        Err(e) => {
            return Err(e);
        },
    };
    let ghost t = root@;
    let reads_back = node_reads_back(&root);
    let mut file = CastFile::new();
    file.push(root);
    assert(file@ =~= seq![t]);
    match file.write() {
        Ok(bytes) => {
            if !reads_back {
                assert(cast_ok(t, *model, *displace) && file_fits(seq![t]) && !node_ok(t));
                return Err(ModelError::InvalidName);
            }
            proof {
                lemma_round_trip(seq![t]);
            }
            assert(cast_ok(t, *model, *displace) && hashes(t).no_duplicates() && file_fits(seq![t]) && node_ok(t)
                && bytes@ == enc_file(seq![t]) && parse_file(bytes@) == Some(seq![t]));
            Ok(bytes)
        },
        Err(_) => {
            assert(cast_ok(t, *model, *displace) && !file_fits(seq![t]));
            Err(ModelError::CapacityExceeded)
        },
    }
}

} // verus!
