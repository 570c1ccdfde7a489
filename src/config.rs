use vstd::prelude::*;

use crate::primitive::{primitive_key, PrimitiveKind};
use crate::table::NameTable;

verus! {

/// Run-wide settings of the renderer, read once and passed to every step.
pub struct RendererConfig {
    /// Extension of the generated files.
    pub file_extension: String,
    /// Target-language type for each primitive key, and overrides keyed by
    /// fully-qualified type name.
    pub type_config: NameTable,
    /// Base name of the per-directory metadata files.
    pub metadata_file_name: String,
    /// Separator between the segments of a qualified name.
    pub package_separator: String,
    /// When set, every package is written as a single file.
    pub one_file_per_package: bool,
    /// File name used for messages of files that declare no package.
    pub default_package_file_name: String,
    /// Replacement names for fields, keyed by the declared name.
    pub field_name_override: NameTable,
    /// When set, types in an ancestor scope are named relative to the
    /// referencing scope with this token once per level.
    pub field_relative_parent_prefix: Option<String>,
}

/// A mapping in which every primitive key maps to itself.
pub open spec fn maps_primitives_to_themselves(t: NameTable) -> bool {
    forall|k: PrimitiveKind| #[trigger] t.spec_get(primitive_key(k)) == Some(primitive_key(k))
}

/// The default metadata file base name.
pub fn default_metadata_file_name() -> (r: String)
    ensures
        r@ == "metadata"@,
{
    String::from_str("metadata")
}

/// The default separator of qualified names.
pub fn default_package_separator() -> (r: String)
    ensures
        r@ == "."@,
{
    String::from_str(".")
}

/// The default file name for messages without a package.
pub fn default_package_file_name() -> (r: String)
    ensures
        r@ == "_"@,
{
    String::from_str("_")
}

/// The entry that maps the key of `kind` to itself.
pub open spec fn identity_entry(kind: PrimitiveKind) -> (Seq<char>, Seq<char>) {
    (primitive_key(kind), primitive_key(kind))
}

/// The entries of the default type mapping, in order.
pub open spec fn default_type_entries() -> Seq<(Seq<char>, Seq<char>)> {
    seq![
        identity_entry(PrimitiveKind::Float),
        identity_entry(PrimitiveKind::Double),
        identity_entry(PrimitiveKind::Int32),
        identity_entry(PrimitiveKind::Int64),
        identity_entry(PrimitiveKind::Uint32),
        identity_entry(PrimitiveKind::Uint64),
        identity_entry(PrimitiveKind::Sint32),
        identity_entry(PrimitiveKind::Sint64),
        identity_entry(PrimitiveKind::Fixed32),
        identity_entry(PrimitiveKind::Fixed64),
        identity_entry(PrimitiveKind::Bool),
        identity_entry(PrimitiveKind::Str),
        identity_entry(PrimitiveKind::Bytes),
    ]
}

fn insert_identity(t: &mut NameTable, kind: PrimitiveKind)
    ensures
        final(t)@ == old(t)@.push(identity_entry(kind)),
        forall|k: Seq<char>|
            #[trigger] final(t).spec_get(k) == if k == primitive_key(kind) {
                Some(primitive_key(kind))
            } else {
                old(t).spec_get(k)
            },
{
    t.insert(kind.key(), kind.key());
}

/// The default type mapping: each primitive key maps to itself.
pub fn default_type_config() -> (r: NameTable)
    ensures
        r@ == default_type_entries(),
        maps_primitives_to_themselves(r),
{
    let mut t = NameTable::new();
    insert_identity(&mut t, PrimitiveKind::Float);
    insert_identity(&mut t, PrimitiveKind::Double);
    insert_identity(&mut t, PrimitiveKind::Int32);
    insert_identity(&mut t, PrimitiveKind::Int64);
    insert_identity(&mut t, PrimitiveKind::Uint32);
    insert_identity(&mut t, PrimitiveKind::Uint64);
    insert_identity(&mut t, PrimitiveKind::Sint32);
    insert_identity(&mut t, PrimitiveKind::Sint64);
    insert_identity(&mut t, PrimitiveKind::Fixed32);
    insert_identity(&mut t, PrimitiveKind::Fixed64);
    insert_identity(&mut t, PrimitiveKind::Bool);
    insert_identity(&mut t, PrimitiveKind::Str);
    insert_identity(&mut t, PrimitiveKind::Bytes);
    proof {
        assert forall|k: PrimitiveKind| #[trigger] t.spec_get(primitive_key(k)) == Some(primitive_key(k)) by {}
        assert(t@ =~= default_type_entries());
    }
    t
}

impl Default for RendererConfig {
    fn default() -> (r: Self)
        ensures
            r.file_extension@.len() == 0,
            r.type_config@ == default_type_entries(),
            maps_primitives_to_themselves(r.type_config),
            r.metadata_file_name@ == "metadata"@,
            r.package_separator@ == "."@,
            !r.one_file_per_package,
            r.default_package_file_name@ == "_"@,
            r.field_name_override@.len() == 0,
            r.field_relative_parent_prefix is None,
    {
        RendererConfig {
            file_extension: String::new(),
            type_config: default_type_config(),
            metadata_file_name: default_metadata_file_name(),
            package_separator: default_package_separator(),
            one_file_per_package: false,
            default_package_file_name: default_package_file_name(),
            field_name_override: NameTable::new(),
            field_relative_parent_prefix: None,
        }
    }
}

} // verus!
