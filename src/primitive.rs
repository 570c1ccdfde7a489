use vstd::prelude::*;

verus! {

/// The scalar kinds of the schema language.
#[derive(Clone, Copy, Debug, PartialEq, Eq, Structural)]
pub enum PrimitiveKind {
    Float,
    Double,
    Int32,
    Int64,
    Uint32,
    Uint64,
    Sint32,
    Sint64,
    Fixed32,
    Fixed64,
    Bool,
    Str,
    Bytes,
}

/// The key under which a scalar kind is looked up in a type mapping.
pub open spec fn primitive_key(kind: PrimitiveKind) -> Seq<char> {
    match kind {
        PrimitiveKind::Float => "float"@,
        PrimitiveKind::Double => "double"@,
        PrimitiveKind::Int32 => "int32"@,
        PrimitiveKind::Int64 => "int64"@,
        PrimitiveKind::Uint32 => "uint32"@,
        PrimitiveKind::Uint64 => "uint64"@,
        PrimitiveKind::Sint32 => "sint32"@,
        PrimitiveKind::Sint64 => "sint64"@,
        PrimitiveKind::Fixed32 => "fixed32"@,
        PrimitiveKind::Fixed64 => "fixed64"@,
        PrimitiveKind::Bool => "bool"@,
        PrimitiveKind::Str => "string"@,
        PrimitiveKind::Bytes => "bytes"@,
    }
}

impl PrimitiveKind {
    /// The mapping key of this kind.
    pub fn key(&self) -> (r: String)
        ensures
            r@ == primitive_key(*self),
    {
        match self {
            PrimitiveKind::Float => String::from_str("float"),
            PrimitiveKind::Double => String::from_str("double"),
            PrimitiveKind::Int32 => String::from_str("int32"),
            PrimitiveKind::Int64 => String::from_str("int64"),
            PrimitiveKind::Uint32 => String::from_str("uint32"),
            PrimitiveKind::Uint64 => String::from_str("uint64"),
            PrimitiveKind::Sint32 => String::from_str("sint32"),
            PrimitiveKind::Sint64 => String::from_str("sint64"),
            PrimitiveKind::Fixed32 => String::from_str("fixed32"),
            PrimitiveKind::Fixed64 => String::from_str("fixed64"),
            PrimitiveKind::Bool => String::from_str("bool"),
            PrimitiveKind::Str => String::from_str("string"),
            PrimitiveKind::Bytes => String::from_str("bytes"),
        }
    }
}

} // verus!
