use vstd::prelude::*;

use vstd::string::StringSliceAdditionalSpecFns;

use crate::vector::{Vector2, Vector3, Vector4};

verus! {

/// The closed set of element types a property can hold.
#[derive(Clone, Copy, Debug, PartialEq, Eq, Structural)]
pub enum PropertyType {
    Byte,
    Short,
    Integer32,
    Integer64,
    Float,
    String,
    Vector2,
    Vector3,
    Vector4,
}

/// One element of a property. `Float` holds the bit pattern of a single-precision float;
/// `String` holds the UTF-8 bytes of one string, without its terminator.
#[derive(Clone, Debug, PartialEq, Eq)]
pub enum PropertyValue {
    Byte(u8),
    Short(u16),
    Integer32(u32),
    Integer64(u64),
    Float(u32),
    String(Vec<u8>),
    Vector2(Vector2),
    Vector3(Vector3),
    Vector4(Vector4),
}

/// The mathematical value of a `PropertyValue`.
pub enum ValueModel {
    Byte(u8),
    Short(u16),
    Integer32(u32),
    Integer64(u64),
    Float(u32),
    String(Seq<u8>),
    Vector2(Vector2),
    Vector3(Vector3),
    Vector4(Vector4),
}

impl View for PropertyValue {
    type V = ValueModel;

    open spec fn view(&self) -> ValueModel {
        match self {
            PropertyValue::Byte(v) => ValueModel::Byte(*v),
            PropertyValue::Short(v) => ValueModel::Short(*v),
            PropertyValue::Integer32(v) => ValueModel::Integer32(*v),
            PropertyValue::Integer64(v) => ValueModel::Integer64(*v),
            PropertyValue::Float(v) => ValueModel::Float(*v),
            PropertyValue::String(s) => ValueModel::String(s@),
            PropertyValue::Vector2(v) => ValueModel::Vector2(*v),
            PropertyValue::Vector3(v) => ValueModel::Vector3(*v),
            PropertyValue::Vector4(v) => ValueModel::Vector4(*v),
        }
    }
}

/// The element type a value belongs to.
pub open spec fn type_of(v: ValueModel) -> PropertyType {
    match v {
        ValueModel::Byte(_) => PropertyType::Byte,
        ValueModel::Short(_) => PropertyType::Short,
        ValueModel::Integer32(_) => PropertyType::Integer32,
        ValueModel::Integer64(_) => PropertyType::Integer64,
        ValueModel::Float(_) => PropertyType::Float,
        ValueModel::String(_) => PropertyType::String,
        ValueModel::Vector2(_) => PropertyType::Vector2,
        ValueModel::Vector3(_) => PropertyType::Vector3,
        ValueModel::Vector4(_) => PropertyType::Vector4,
    }
}

impl PropertyValue {
    /// The element type of this value.
    pub fn property_type(&self) -> (r: PropertyType)
        ensures
            r == type_of(self@),
    {
        match self {
            PropertyValue::Byte(_) => PropertyType::Byte,
            PropertyValue::Short(_) => PropertyType::Short,
            PropertyValue::Integer32(_) => PropertyType::Integer32,
            PropertyValue::Integer64(_) => PropertyType::Integer64,
            PropertyValue::Float(_) => PropertyType::Float,
            PropertyValue::String(_) => PropertyType::String,
            PropertyValue::Vector2(_) => PropertyType::Vector2,
            PropertyValue::Vector3(_) => PropertyType::Vector3,
            PropertyValue::Vector4(_) => PropertyType::Vector4,
        }
    }
}

/// The mathematical value of a property: its name, its fixed element type and its elements in
/// push order.
pub struct PropertyModel {
    pub name: Seq<u8>,
    pub tag: PropertyType,
    pub values: Seq<ValueModel>,
}

impl PropertyModel {
    /// Every element has the property's element type.
    pub open spec fn wf(self) -> bool {
        forall|i: int| 0 <= i < self.values.len() ==> #[trigger] type_of(self.values[i]) == self.tag
    }
}

/// A named, homogeneously typed, append-only array of values.
#[derive(Clone, Debug, PartialEq, Eq)]
pub struct Property {
    name: Vec<u8>,
    tag: PropertyType,
    values: Vec<PropertyValue>,
}

/// The models of a run of values.
pub open spec fn values_view(vs: Seq<PropertyValue>) -> Seq<ValueModel> {
    vs.map_values(|v: PropertyValue| v@)
}

impl View for Property {
    type V = PropertyModel;

    closed spec fn view(&self) -> PropertyModel {
        PropertyModel { name: self.name@, tag: self.tag, values: values_view(self.values@) }
    }
}

/// Errors of the container: a value pushed onto a property of another type, a tree too large
/// for the stream's 32-bit counts, or a stream that does not decode.
#[derive(Clone, Copy, Debug, PartialEq, Eq, Structural)]
pub enum CastError {
    TypeMismatch,
    TooLarge,
    Malformed,
}

impl Property {
    /// Creates an empty property of the given element type.
    pub fn new(tag: PropertyType, name: &str) -> (r: Property)
        ensures
            r@ == (PropertyModel { name: name.spec_bytes(), tag, values: Seq::empty() }),
            r@.wf(),
    {
        let bytes = name.as_bytes();
        let mut copy: Vec<u8> = Vec::new();
        let mut i: usize = 0;
        while i < bytes.len()
            invariant
                i <= bytes@.len(),
                copy@ == bytes@.subrange(0, i as int),
            decreases bytes@.len() - i,
        {
            copy.push(bytes[i]);
            i = i + 1;
            assert(copy@ =~= bytes@.subrange(0, i as int));
        }
        assert(copy@ =~= bytes@);
        let r = Property { name: copy, tag, values: Vec::new() };
        assert(r@.values =~= Seq::<ValueModel>::empty());
        r
    }

    /// Creates an empty property whose name is given as bytes.
    pub fn from_name_bytes(tag: PropertyType, name: Vec<u8>) -> (r: Property)
        ensures
            r@ == (PropertyModel { name: name@, tag, values: Seq::empty() }),
            r@.wf(),
    {
        let r = Property { name, tag, values: Vec::new() };
        assert(r@.values =~= Seq::<ValueModel>::empty());
        r
    }

    /// Creates a property from all of its parts at once; every element has the given type.
    pub fn from_parts(tag: PropertyType, name: Vec<u8>, values: Vec<PropertyValue>) -> (r: Property)
        requires
            forall|i: int| 0 <= i < values@.len() ==> type_of(#[trigger] values@[i]@) == tag,
        ensures
            r@ == (PropertyModel { name: name@, tag, values: values_view(values@) }),
    {
        Property { name, tag, values }
    }

    /// The name of the property.
    pub fn name(&self) -> (r: &Vec<u8>)
        ensures
            r@ == self@.name,
    {
        &self.name
    }

    /// The element type of the property.
    pub fn tag(&self) -> (r: PropertyType)
        ensures
            r == self@.tag,
    {
        self.tag
    }

    /// The elements of the property, in push order.
    pub fn values(&self) -> (r: &Vec<PropertyValue>)
        ensures
            values_view(r@) == self@.values,
    {
        &self.values
    }

    /// The number of elements.
    pub fn len(&self) -> (r: usize)
        ensures
            r == self@.values.len(),
    {
        self.values.len()
    }

    /// Appends one element. Fails, leaving the property as it was, when the value's type is not
    /// the property's element type.
    pub fn push(&mut self, value: PropertyValue) -> (r: Result<(), CastError>)
        ensures
            r is Ok <==> type_of(value@) == old(self)@.tag,
            r is Ok ==> final(self)@ == (PropertyModel {
                values: old(self)@.values.push(value@),
                ..old(self)@
            }),
            r is Err ==> r == Err::<(), CastError>(CastError::TypeMismatch) && final(self)@ == old(self)@,
            old(self)@.wf() ==> final(self)@.wf(),
    {
        if value.property_type() != self.tag {
            return Err(CastError::TypeMismatch);
        }
        self.values.push(value);
        proof {
            assert(values_view(self.values@) =~= values_view(old(self).values@).push(value@));
        }
        Ok(())
    }
}

} // verus!
