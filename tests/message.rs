use idlx::config::RendererConfig;
use idlx::context::{build_all, missing_primitive, Attribute, ContextError, FieldContext, FieldDescriptor, FileContext, FileDescriptor, MessageContext, MessageDescriptor};
use idlx::primitive::PrimitiveKind;
use idlx::resolver::{QualifiedTypeName, TypeRef};
use idlx::table::NameTable;

fn default_message() -> MessageDescriptor {
    MessageDescriptor { name: None, fields: vec![] }
}

fn field(name: &str, t: TypeRef) -> FieldDescriptor {
    FieldDescriptor { name: Some(name.to_string()), type_ref: Some(t), repeated: false }
}

#[test]
fn name() {
    let config = RendererConfig::default();
    let msg_name = "msg_name".to_string();
    let mut message = default_message();
    message.name = Some(msg_name.clone());
    let context = MessageContext::new(&message, &config).unwrap();
    assert_eq!(context.name, msg_name);
}

#[test]
fn missing_name_errors() {
    let config = RendererConfig::default();
    let message = default_message();
    let result = MessageContext::new(&message, &config);
    assert!(result.is_err());
}

#[test]
fn field_override_ignores_type() {
    let mut config = RendererConfig::default();
    let mut overrides = NameTable::new();
    overrides.insert("enum".to_string(), "enum_".to_string());
    config.field_name_override = overrides;
    let scope = vec!["pkg".to_string()];
    let a = FieldContext::build(&field("enum", TypeRef::Primitive(PrimitiveKind::Int32)), &scope, &config).unwrap();
    let named = TypeRef::Named(QualifiedTypeName { scope: vec!["x".to_string()], name: "Y".to_string() });
    let b = FieldContext::build(&field("enum", named), &scope, &config).unwrap();
    assert_eq!(a.name, "enum_");
    assert_eq!(b.name, "enum_");
    assert_eq!(a.type_text, "int32");
    assert_eq!(b.type_text, "x.Y");
    let c = FieldContext::build(&field("other", TypeRef::Primitive(PrimitiveKind::Bool)), &scope, &config).unwrap();
    assert_eq!(c.name, "other");
}

#[test]
fn build_keeps_field_order_and_flags() {
    let config = RendererConfig::default();
    let mut message = default_message();
    message.name = Some("M".to_string());
    message.fields.push(field("b", TypeRef::Primitive(PrimitiveKind::Str)));
    let mut repeated = field("a", TypeRef::Primitive(PrimitiveKind::Bytes));
    repeated.repeated = true;
    message.fields.push(repeated);
    let context = MessageContext::build(&message, &Vec::new(), &config).unwrap();
    assert_eq!(context.name, "M");
    assert_eq!(context.fields.len(), 2);
    assert_eq!(context.fields[0].name, "b");
    assert_eq!(context.fields[0].type_text, "string");
    assert!(!context.fields[0].repeated);
    assert_eq!(context.fields[1].name, "a");
    assert_eq!(context.fields[1].type_text, "bytes");
    assert!(context.fields[1].repeated);
}

#[test]
fn build_reports_missing_attributes() {
    let config = RendererConfig::default();
    let mut message = default_message();
    assert_eq!(
        MessageContext::build(&message, &Vec::new(), &config).err(),
        Some(ContextError::MissingRequiredAttribute(Attribute::MessageName))
    );
    message.name = Some("M".to_string());
    message.fields.push(FieldDescriptor { name: None, type_ref: Some(TypeRef::Primitive(PrimitiveKind::Bool)), repeated: false });
    assert_eq!(
        MessageContext::build(&message, &Vec::new(), &config).err(),
        Some(ContextError::MissingRequiredAttribute(Attribute::FieldName))
    );
    message.fields[0] = FieldDescriptor { name: Some("f".to_string()), type_ref: None, repeated: false };
    assert_eq!(
        MessageContext::build(&message, &Vec::new(), &config).err(),
        Some(ContextError::MissingRequiredAttribute(Attribute::FieldType))
    );
}

#[test]
fn build_reports_missing_primitive() {
    let mut config = RendererConfig::default();
    config.type_config = NameTable::new();
    let mut message = default_message();
    message.name = Some("M".to_string());
    message.fields.push(field("f", TypeRef::Primitive(PrimitiveKind::Fixed64)));
    assert_eq!(
        MessageContext::build(&message, &Vec::new(), &config).err(),
        Some(ContextError::MissingPrimitiveMapping(PrimitiveKind::Fixed64))
    );
}

#[test]
fn file_context_dedups_imports() {
    let config = RendererConfig::default();
    let file = FileDescriptor {
        path: "a/b.proto".to_string(),
        package: vec!["a".to_string()],
        messages: vec![MessageDescriptor { name: Some("M".to_string()), fields: vec![] }],
        imports: vec!["x.proto".to_string(), "y.proto".to_string(), "x.proto".to_string()],
    };
    let context = FileContext::build(&file, &config).unwrap();
    assert_eq!(context.path, "a/b.proto");
    assert_eq!(context.package, vec!["a".to_string()]);
    assert_eq!(context.messages.len(), 1);
    assert_eq!(context.messages[0].name, "M");
    assert_eq!(context.imports, vec!["x.proto".to_string(), "y.proto".to_string()]);
}

fn file_desc(path: &str, message: Option<&str>, fields: Vec<FieldDescriptor>) -> FileDescriptor {
    FileDescriptor {
        path: path.to_string(),
        package: vec![],
        messages: vec![MessageDescriptor { name: message.map(|m| m.to_string()), fields }],
        imports: vec![],
    }
}

#[test]
fn build_all_records_file_failures_and_goes_on() {
    let config = RendererConfig::default();
    let files = vec![
        file_desc("a.proto", Some("A"), vec![]),
        file_desc("b.proto", None, vec![]),
        file_desc("c.proto", Some("C"), vec![field("x", TypeRef::Primitive(PrimitiveKind::Double))]),
    ];
    let (built, failed) = build_all(&files, &config).unwrap();
    assert_eq!(built.len(), 2);
    assert_eq!(built[0].path, "a.proto");
    assert_eq!(built[1].path, "c.proto");
    assert_eq!(built[1].messages[0].fields[0].type_text, "double");
    assert_eq!(failed, vec![(1, ContextError::MissingRequiredAttribute(Attribute::MessageName))]);
}

#[test]
fn build_all_aborts_on_missing_primitive() {
    let mut config = RendererConfig::default();
    config.type_config = NameTable::new();
    let files = vec![
        file_desc("a.proto", None, vec![]),
        file_desc("b.proto", Some("B"), vec![field("x", TypeRef::Primitive(PrimitiveKind::Sint64))]),
        file_desc("c.proto", Some("C"), vec![]),
    ];
    assert_eq!(build_all(&files, &config).err(), Some(ContextError::MissingPrimitiveMapping(PrimitiveKind::Float)));
}

#[test]
fn build_all_missing_primitive_beats_missing_name() {
    let mut config = RendererConfig::default();
    config.type_config = NameTable::new();
    let file = FileDescriptor {
        path: "a.proto".to_string(),
        package: vec![],
        messages: vec![
            MessageDescriptor { name: None, fields: vec![] },
            MessageDescriptor { name: Some("B".to_string()), fields: vec![field("x", TypeRef::Primitive(PrimitiveKind::Int32))] },
        ],
        imports: vec![],
    };
    assert!(matches!(build_all(&vec![file], &config), Err(ContextError::MissingPrimitiveMapping(_))));
    assert!(matches!(build_all(&Vec::new(), &config), Err(ContextError::MissingPrimitiveMapping(_))));
}

#[test]
fn missing_primitive_names_first_absent_kind() {
    let mut config = RendererConfig::default();
    assert_eq!(missing_primitive(&config), None);
    let mut t = NameTable::new();
    t.insert("float".to_string(), "f32".to_string());
    config.type_config = t;
    assert_eq!(missing_primitive(&config), Some(PrimitiveKind::Double));
}
