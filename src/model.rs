use vstd::prelude::*;

use vstd::string::StrSliceExecFns;

use crate::vector::{Vector2, Vector3, Vector4};

verus! {

/// The axis that points up in a scene.
#[derive(Clone, Copy, Debug, PartialEq, Eq, Structural)]
pub enum Axis {
    X,
    Y,
    Z,
}

/// A bone of a skeleton. Transforms are optional: a channel missing its position or its
/// rotation is not written.
#[derive(Clone, Debug)]
pub struct Bone {
    pub name: Option<String>,
    pub parent: i32,
    pub segment_scale_compensate: bool,
    pub local_position: Option<Vector3>,
    pub local_rotation: Option<Vector4>,
    pub local_scale: Option<Vector3>,
    pub world_position: Option<Vector3>,
    pub world_rotation: Option<Vector4>,
    pub world_scale: Option<Vector3>,
}

/// An inverse-kinematics handle; every bone is given by its index in the skeleton.
#[derive(Clone, Debug)]
pub struct IKHandle {
    pub name: Option<String>,
    pub start_bone: usize,
    pub end_bone: usize,
    pub target_bone: Option<usize>,
    pub pole_vector_bone: Option<usize>,
    pub pole_bone: Option<usize>,
    pub use_target_rotation: bool,
}

/// The kind of a constraint.
#[derive(Clone, Copy, Debug, PartialEq, Eq, Structural)]
pub enum ConstraintType {
    Point,
    Orient,
    Scale,
}

/// A constraint between two bones, given by their indices in the skeleton.
#[derive(Clone, Debug)]
pub struct Constraint {
    pub name: Option<String>,
    pub constraint_type: ConstraintType,
    pub constraint_bone: usize,
    pub target_bone: usize,
    pub maintain_offset: bool,
    pub skip_x: bool,
    pub skip_y: bool,
    pub skip_z: bool,
}

/// The bones of a model, with the rigging that refers to them.
#[derive(Clone, Debug)]
pub struct Skeleton {
    pub bones: Vec<Bone>,
    pub ik_handles: Vec<IKHandle>,
    pub constraints: Vec<Constraint>,
}

/// What a texture is used for on a material.
#[derive(Clone, Copy, Debug, PartialEq, Eq, Structural)]
pub enum MaterialTextureRefUsage {
    Unknown,
    Albedo,
    Diffuse,
    Specular,
    Normal,
    Emissive,
    Gloss,
    Roughness,
    AmbientOcclusion,
    Cavity,
    Metalness,
    Anisotropy,
    Count,
}

/// A texture used by a material.
#[derive(Clone, Debug)]
pub struct MaterialTextureRef {
    pub file_name: String,
    pub texture_usage: MaterialTextureRefUsage,
}

/// A material: a name and its textures, in order.
#[derive(Clone, Debug)]
pub struct Material {
    pub name: String,
    pub textures: Vec<MaterialTextureRef>,
}

/// How a mesh is skinned.
#[derive(Clone, Copy, Debug, PartialEq, Eq, Structural)]
pub enum SkinningMethod {
    Linear,
    DualQuaternion,
}

/// One influence on a vertex: a bone index and a weight (the bit pattern of a float).
#[derive(Clone, Copy, Debug, PartialEq, Eq, Structural)]
pub struct VertexWeight {
    pub bone: u16,
    pub value: u32,
}

/// A vertex: position, normal, one packed color per color layer, one UV per UV layer and one
/// weight per influence.
#[derive(Clone, Debug)]
pub struct Vertex {
    pub position: Vector3,
    pub normal: Vector3,
    pub colors: Vec<u32>,
    pub uvs: Vec<Vector2>,
    pub weights: Vec<VertexWeight>,
}

/// A triangle, as three vertex indices.
#[derive(Clone, Copy, Debug, PartialEq, Eq, Structural)]
pub struct Face {
    pub i1: u32,
    pub i2: u32,
    pub i3: u32,
}

/// A sparse blend shape: for each vertex it moves, the vertex index and the offset from the
/// base position, each index at most once. `target_scale` is the bit pattern of a float.
#[derive(Clone, Debug)]
pub struct BlendShape {
    pub name: String,
    pub target_scale: u32,
    pub vertex_deltas: Vec<(u32, Vector3)>,
}

/// A mesh. Every vertex carries exactly `color_layers` colors, `uv_layers` UVs and
/// `maximum_influence` weights, and each blend shape names a vertex at most once.
#[derive(Clone, Debug)]
pub struct Mesh {
    pub name: Option<String>,
    pub vertices: Vec<Vertex>,
    pub uv_layers: usize,
    pub color_layers: usize,
    pub maximum_influence: usize,
    pub faces: Vec<Face>,
    pub material: Option<usize>,
    pub skinning_method: SkinningMethod,
    pub blend_shapes: Vec<BlendShape>,
}

/// A scene: its up axis, skeleton, materials and meshes.
#[derive(Clone, Debug)]
pub struct Model {
    pub up_axis: Axis,
    pub skeleton: Skeleton,
    pub materials: Vec<Material>,
    pub meshes: Vec<Mesh>,
}

/// No vertex index appears twice among a blend shape's deltas.
pub open spec fn unique_indices(ds: Seq<(u32, Vector3)>) -> bool {
    forall|i: int, j: int| 0 <= i < j < ds.len() ==> (#[trigger] ds[i]).0 != (#[trigger] ds[j]).0
}

impl BlendShape {
    /// Whether no vertex index appears twice among the deltas.
    pub fn indices_unique(&self) -> (r: bool)
        ensures
            r == unique_indices(self.vertex_deltas@),
    {
        let mut j: usize = 0;
        while j < self.vertex_deltas.len()
            invariant
                j <= self.vertex_deltas@.len(),
                forall|a: int, b: int| 0 <= a < b < j ==> (#[trigger] self.vertex_deltas@[a]).0 != (#[trigger] self.vertex_deltas@[b]).0,
            decreases self.vertex_deltas@.len() - j,
        {
            let mut i: usize = 0;
            while i < j
                invariant
                    i <= j < self.vertex_deltas@.len(),
                    forall|a: int, b: int| 0 <= a < b < j ==> (#[trigger] self.vertex_deltas@[a]).0 != (#[trigger] self.vertex_deltas@[b]).0,
                    forall|a: int| 0 <= a < i ==> (#[trigger] self.vertex_deltas@[a]).0 != self.vertex_deltas@[j as int].0,
                decreases j - i,
            {
                if self.vertex_deltas[i].0 == self.vertex_deltas[j].0 {
                    assert(!unique_indices(self.vertex_deltas@)) by {
                        assert(self.vertex_deltas@[i as int].0 == self.vertex_deltas@[j as int].0);
                    }
                    return false;
                }
                i = i + 1;
            }
            j = j + 1;
        }
        true
    }
}

impl Mesh {
    /// Every vertex has the mesh's layout, and no blend shape names a vertex twice.
    pub open spec fn wf(&self) -> bool {
        &&& forall|i: int|
            0 <= i < self.vertices@.len() ==> {
                &&& (#[trigger] self.vertices@[i]).colors@.len() == self.color_layers
                &&& self.vertices@[i].uvs@.len() == self.uv_layers
                &&& self.vertices@[i].weights@.len() == self.maximum_influence
            }
        &&& forall|b: int| 0 <= b < self.blend_shapes@.len() ==> unique_indices(#[trigger] self.blend_shapes@[b].vertex_deltas@)
    }

    /// Whether every vertex has the mesh's layout and no blend shape names a vertex twice.
    pub fn layout_consistent(&self) -> (r: bool)
        ensures
            r == self.wf(),
    {
        let mut b: usize = 0;
        while b < self.blend_shapes.len()
            invariant
                b <= self.blend_shapes@.len(),
                forall|k: int| 0 <= k < b ==> unique_indices(#[trigger] self.blend_shapes@[k].vertex_deltas@),
            decreases self.blend_shapes@.len() - b,
        {
            if !self.blend_shapes[b].indices_unique() {
                return false;
            }
            b = b + 1;
        }
        let mut i: usize = 0;
        while i < self.vertices.len()
            invariant
                i <= self.vertices@.len(),
                forall|k: int|
                    0 <= k < i ==> {
                        &&& (#[trigger] self.vertices@[k]).colors@.len() == self.color_layers
                        &&& self.vertices@[k].uvs@.len() == self.uv_layers
                        &&& self.vertices@[k].weights@.len() == self.maximum_influence
                    },
            decreases self.vertices@.len() - i,
        {
            let v = &self.vertices[i];
            if v.colors.len() != self.color_layers || v.uvs.len() != self.uv_layers
                || v.weights.len() != self.maximum_influence {
                return false;
            }
            i = i + 1;
        }
        true
    }
}

impl Model {
    /// Every mesh is well formed.
    pub open spec fn wf(&self) -> bool {
        forall|i: int| 0 <= i < self.meshes@.len() ==> (#[trigger] self.meshes@[i]).wf()
    }

    /// Whether every mesh is well formed.
    pub fn layout_consistent(&self) -> (r: bool)
        ensures
            r == self.wf(),
    {
        let mut i: usize = 0;
        while i < self.meshes.len()
            invariant
                i <= self.meshes@.len(),
                forall|k: int| 0 <= k < i ==> (#[trigger] self.meshes@[k]).wf(),
            decreases self.meshes@.len() - i,
        {
            if !self.meshes[i].layout_consistent() {
                return false;
            }
            i = i + 1;
        }
        true
    }
}

/// A bone name with spaces replaced by underscores; an empty name or `default` becomes
/// `_default`, and a name that starts with a digit gets a leading underscore.
pub open spec fn sanitized_name(s: Seq<char>) -> Seq<char> {
    let t = s.map_values(|c: char| if c == ' ' { '_' } else { c });
    if t.len() == 0 || t == "default"@ {
        "_default"@
    } else if '0' <= t[0] && t[0] <= '9' {
        seq!['_'] + t
    } else {
        t
    }
}

/// The sanitized form of an optional bone name.
pub open spec fn sanitized_opt(name: Option<String>) -> Option<Seq<char>> {
    match name {
        Some(s) => Some(sanitized_name(s@)),
        None => None,
    }
}

/// The name of a bone as characters.
pub open spec fn name_chars(name: Option<String>) -> Option<Seq<char>> {
    match name {
        Some(s) => Some(s@),
        None => None,
    }
}

/// Relies on `String::push`: appends one char to the string.
#[verifier::external_body]
fn push_char(s: &mut String, c: char)
    ensures
        final(s)@ == old(s)@.push(c),
{
    s.push(c);
}

/// Cleans a bone name.
fn sanitize_bone_name(name: String) -> (r: String)
    ensures
        r@ == sanitized_name(name@),
{
    let ghost t = name@.map_values(|c: char| if c == ' ' { '_' } else { c });
    let src = name.as_str();
    let n = src.unicode_len();
    let mut cleaned = String::new();
    let mut i: usize = 0;
    while i < n
        invariant
            i <= n,
            n == name@.len(),
            src@ == name@,
            t == name@.map_values(|c: char| if c == ' ' { '_' } else { c }),
            cleaned@ == t.subrange(0, i as int),
        decreases n - i,
    {
        let c = src.get_char(i);
        push_char(&mut cleaned, if c == ' ' { '_' } else { c });
        i = i + 1;
        assert(cleaned@ =~= t.subrange(0, i as int));
    }
    assert(t.subrange(0, n as int) =~= t);
    let default_name = "default";
    proof {
        reveal_strlit("default");
    }
    let is_default = n == 7 && is_word(&cleaned, default_name);
    if n == 0 || is_default {
        let mut r = String::new();
        push_char(&mut r, '_');
        push_char(&mut r, 'd');
        push_char(&mut r, 'e');
        push_char(&mut r, 'f');
        push_char(&mut r, 'a');
        push_char(&mut r, 'u');
        push_char(&mut r, 'l');
        push_char(&mut r, 't');
        proof {
            reveal_strlit("_default");
        }
        assert(r@ =~= "_default"@);
        return r;
    }
    let first = cleaned.as_str().get_char(0);
    if '0' <= first && first <= '9' {
        let mut r = String::new();
        push_char(&mut r, '_');
        let mut k: usize = 0;
        while k < n
            invariant
                k <= n,
                n == t.len(),
                cleaned@ == t,
                r@ == seq!['_'] + t.subrange(0, k as int),
            decreases n - k,
        {
            push_char(&mut r, cleaned.as_str().get_char(k));
            k = k + 1;
            assert(r@ =~= seq!['_'] + t.subrange(0, k as int));
        }
        assert(t.subrange(0, n as int) =~= t);
        return r;
    }
    cleaned
}

/// Whether the characters of `s` are those of `w`.
fn is_word(s: &String, w: &str) -> (r: bool)
    ensures
        r == (s@ == w@),
{
    let a = s.as_str();
    let n = a.unicode_len();
    if n != w.unicode_len() {
        return false;
    }
    let mut i: usize = 0;
    while i < n
        invariant
            i <= n,
            n == a@.len(),
            n == w@.len(),
            a@ == s@,
            a@.subrange(0, i as int) == w@.subrange(0, i as int),
        decreases n - i,
    {
        if a.get_char(i) != w.get_char(i) {
            return false;
        }
        i = i + 1;
        assert(a@.subrange(0, i as int) =~= w@.subrange(0, i as int)) by {
            assert forall|k: int| 0 <= k < i implies a@[k] == w@[k] by {
                if k < i - 1 {
                    assert(a@.subrange(0, i - 1)[k] == w@.subrange(0, i - 1)[k]);
                }
            }
        }
    }
    assert(a@ =~= a@.subrange(0, i as int));
    assert(w@ =~= w@.subrange(0, i as int));
    true
}

fn sanitize_opt(name: Option<String>) -> (r: Option<String>)
    ensures
        name_chars(r) == sanitized_opt(name),
{
    match name {
        Some(s) => Some(sanitize_bone_name(s)),
        None => None,
    }
}

impl Bone {
    /// A bone with a sanitized name, the given parent, segment scale compensation on, and no
    /// transforms.
    pub fn new(name: Option<String>, parent: i32) -> (r: Bone)
        ensures
            name_chars(r.name) == sanitized_opt(name),
            r.parent == parent,
            r.segment_scale_compensate,
            r.local_position is None && r.local_rotation is None && r.local_scale is None,
            r.world_position is None && r.world_rotation is None && r.world_scale is None,
    {
        Bone {
            name: sanitize_opt(name),
            parent,
            segment_scale_compensate: true,
            local_position: None,
            local_rotation: None,
            local_scale: None,
            world_position: None,
            world_rotation: None,
            world_scale: None,
        }
    }

    /// Sets the name, sanitized.
    pub fn name(self, name: Option<String>) -> (r: Bone)
        ensures
            name_chars(r.name) == sanitized_opt(name),
            r == (Bone { name: r.name, ..self }),
    {
        Bone { name: sanitize_opt(name), ..self }
    }

    /// Sets segment scale compensation.
    pub fn segment_scale_compensate(self, ssc: bool) -> (r: Bone)
        ensures
            r == (Bone { segment_scale_compensate: ssc, ..self }),
    {
        Bone { segment_scale_compensate: ssc, ..self }
    }

    /// Sets the local position.
    pub fn local_position(self, position: Vector3) -> (r: Bone)
        ensures
            r == (Bone { local_position: Some(position), ..self }),
    {
        Bone { local_position: Some(position), ..self }
    }

    /// Sets the local rotation.
    pub fn local_rotation(self, rotation: Vector4) -> (r: Bone)
        ensures
            r == (Bone { local_rotation: Some(rotation), ..self }),
    {
        Bone { local_rotation: Some(rotation), ..self }
    }

    /// Sets the local scale.
    pub fn local_scale(self, scale: Vector3) -> (r: Bone)
        ensures
            r == (Bone { local_scale: Some(scale), ..self }),
    {
        Bone { local_scale: Some(scale), ..self }
    }

    /// Sets the world position.
    pub fn world_position(self, position: Vector3) -> (r: Bone)
        ensures
            r == (Bone { world_position: Some(position), ..self }),
    {
        Bone { world_position: Some(position), ..self }
    }

    /// Sets the world rotation.
    pub fn world_rotation(self, rotation: Vector4) -> (r: Bone)
        ensures
            r == (Bone { world_rotation: Some(rotation), ..self }),
    {
        Bone { world_rotation: Some(rotation), ..self }
    }

    /// Sets the world scale.
    pub fn world_scale(self, scale: Vector3) -> (r: Bone)
        ensures
            r == (Bone { world_scale: Some(scale), ..self }),
    {
        Bone { world_scale: Some(scale), ..self }
    }
}

} // verus!
