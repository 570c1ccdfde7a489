use idlx::config::RendererConfig;
use idlx::primitive::PrimitiveKind;
use idlx::resolver::{field_name, fully_qualified_name, is_ancestor, parse_type_name, resolve, split_string, QualifiedTypeName, ResolveError, TypeRef};
use idlx::table::NameTable;

fn scope(s: &[&str]) -> Vec<String> {
    s.iter().map(|x| x.to_string()).collect()
}

fn named(s: &[&str], name: &str) -> TypeRef {
    TypeRef::Named(QualifiedTypeName { scope: scope(s), name: name.to_string() })
}

fn with_prefix(prefix: &str) -> RendererConfig {
    let mut config = RendererConfig::default();
    config.field_relative_parent_prefix = Some(prefix.to_string());
    config
}

#[test]
fn primitive_uses_mapping() {
    let mut config = RendererConfig::default();
    config.type_config.insert("int64".to_string(), "i64".to_string());
    let r = resolve(&TypeRef::Primitive(PrimitiveKind::Int64), &Vec::new(), &config);
    assert_eq!(r, Ok("i64".to_string()));
    let r = resolve(&TypeRef::Primitive(PrimitiveKind::Uint32), &Vec::new(), &config);
    assert_eq!(r, Ok("uint32".to_string()));
}

#[test]
fn missing_primitive_is_error() {
    let mut config = RendererConfig::default();
    config.type_config = NameTable::new();
    config.type_config.insert("int32".to_string(), "i32".to_string());
    for kind in [PrimitiveKind::Float, PrimitiveKind::Sint32, PrimitiveKind::Bytes] {
        let r = resolve(&TypeRef::Primitive(kind), &Vec::new(), &config);
        assert_eq!(r, Err(ResolveError::MissingPrimitiveMapping(kind)));
    }
}

#[test]
fn ancestors_use_prefix() {
    let config = with_prefix("super");
    let me = scope(&["grand", "parent", "me"]);
    assert_eq!(resolve(&named(&["grand", "parent"], "Name"), &me, &config), Ok("super.Name".to_string()));
    assert_eq!(resolve(&named(&["grand"], "Root"), &me, &config), Ok("super.super.Root".to_string()));
    assert_eq!(resolve(&named(&["grand", "parent", "me"], "Me"), &me, &config), Ok("Me".to_string()));
}

#[test]
fn unrelated_scopes_are_fully_qualified() {
    let config = with_prefix("super");
    let me = scope(&["grand", "parent", "me"]);
    assert_eq!(resolve(&named(&["other"], "Other"), &me, &config), Ok("other.Other".to_string()));
    assert_eq!(resolve(&named(&["grand", "uncle"], "U"), &me, &config), Ok("grand.uncle.U".to_string()));
    assert_eq!(resolve(&named(&[], "Top"), &me, &config), Ok("Top".to_string()));
    assert_eq!(
        resolve(&named(&["grand", "parent", "me", "child"], "C"), &me, &config),
        Ok("grand.parent.me.child.C".to_string())
    );
}

#[test]
fn no_prefix_is_fully_qualified() {
    let config = RendererConfig::default();
    let me = scope(&["a", "b"]);
    assert_eq!(resolve(&named(&["a"], "T"), &me, &config), Ok("a.T".to_string()));
    assert_eq!(resolve(&named(&["a", "b"], "T"), &me, &config), Ok("a.b.T".to_string()));
}

#[test]
fn override_beats_prefix() {
    let mut config = with_prefix("super");
    config.type_config.insert("a.T".to_string(), "MyFancyType".to_string());
    let me = scope(&["a", "b"]);
    assert_eq!(resolve(&named(&["a"], "T"), &me, &config), Ok("MyFancyType".to_string()));
}

#[test]
fn separator_and_prefix_are_configurable() {
    let mut config = with_prefix("parent");
    config.package_separator = "::".to_string();
    let me = scope(&["x", "y"]);
    assert_eq!(resolve(&named(&["x"], "T"), &me, &config), Ok("parent::T".to_string()));
    assert_eq!(resolve(&named(&["z"], "T"), &me, &config), Ok("z::T".to_string()));
}

#[test]
fn fully_qualified_and_ancestry() {
    let q = QualifiedTypeName { scope: scope(&["a", "b"]), name: "C".to_string() };
    assert_eq!(fully_qualified_name(&q, "."), "a.b.C");
    assert!(is_ancestor(&scope(&["a"]), &scope(&["a", "b"])));
    assert!(is_ancestor(&scope(&["a", "b"]), &scope(&["a", "b"])));
    assert!(!is_ancestor(&scope(&[]), &scope(&["a"])));
    assert!(!is_ancestor(&scope(&["b"]), &scope(&["a", "b"])));
}

#[test]
fn field_name_override_lookup() {
    let mut config = RendererConfig::default();
    config.field_name_override.insert("type".to_string(), "kind".to_string());
    assert_eq!(field_name(&"type".to_string(), &config), "kind");
    assert_eq!(field_name(&"name".to_string(), &config), "name");
}

#[test]
fn parse_compiler_type_names() {
    let q = parse_type_name(".grand.parent.Name");
    assert_eq!(q.scope, scope(&["grand", "parent"]));
    assert_eq!(q.name, "Name");
    let q = parse_type_name("Top");
    assert!(q.scope.is_empty());
    assert_eq!(q.name, "Top");
    assert_eq!(split_string("a::b", ':'), scope(&["a", "", "b"]));
    assert_eq!(split_string("", '.'), scope(&[""]));
}
