use idlx::config::{default_metadata_file_name, default_package_file_name, default_package_separator, default_type_config, RendererConfig};
use idlx::table::NameTable;

#[test]
fn defaults() {
    let config = RendererConfig::default();
    assert_eq!(config.file_extension, "");
    assert_eq!(config.metadata_file_name, "metadata");
    assert_eq!(config.package_separator, ".");
    assert!(!config.one_file_per_package);
    assert_eq!(config.default_package_file_name, "_");
    assert_eq!(config.field_name_override.len(), 0);
    assert!(config.field_relative_parent_prefix.is_none());
    assert_eq!(default_metadata_file_name(), "metadata");
    assert_eq!(default_package_separator(), ".");
    assert_eq!(default_package_file_name(), "_");
}

#[test]
fn default_type_config_maps_every_primitive_to_itself() {
    let t = default_type_config();
    for key in ["float", "double", "int32", "int64", "uint32", "uint64", "sint32", "sint64", "fixed32", "fixed64", "bool", "string", "bytes"] {
        assert_eq!(t.get(&key.to_string()), Some(&key.to_string()));
    }
    assert_eq!(t.get(&"sfixed32".to_string()), None);
    assert_eq!(t.len(), 13);
}

#[test]
fn table_later_entry_wins() {
    let mut t = NameTable::new();
    t.insert("k".to_string(), "1".to_string());
    t.insert("j".to_string(), "2".to_string());
    t.insert("k".to_string(), "3".to_string());
    assert_eq!(t.get(&"k".to_string()), Some(&"3".to_string()));
    assert_eq!(t.get(&"j".to_string()), Some(&"2".to_string()));
    assert_eq!(t.get(&"x".to_string()), None);
    assert_eq!(t.entry(0), (&"k".to_string(), &"1".to_string()));
}
