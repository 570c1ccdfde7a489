use vstd::prelude::*;

use crate::config::RendererConfig;
use crate::primitive::{primitive_key, PrimitiveKind};
use crate::table::lookup;
use crate::resolver::{field_name, field_name_spec, resolve, resolve_spec, ResolveError, TypeRef};
use crate::strings::texts;

verus! {

/// A mandatory attribute of a descriptor.
#[derive(Clone, Copy, Debug, PartialEq, Eq, Structural)]
pub enum Attribute {
    MessageName,
    FieldName,
    FieldType,
}

/// Why a context could not be built.
#[derive(Clone, Copy, Debug, PartialEq, Eq, Structural)]
pub enum ContextError {
    /// A descriptor lacks this mandatory attribute.
    MissingRequiredAttribute(Attribute),
    /// The type mapping has no entry for this primitive kind.
    MissingPrimitiveMapping(PrimitiveKind),
}

/// One field as the schema compiler describes it.
pub struct FieldDescriptor {
    pub name: Option<String>,
    pub type_ref: Option<TypeRef>,
    pub repeated: bool,
}

/// One message as the schema compiler describes it.
pub struct MessageDescriptor {
    pub name: Option<String>,
    pub fields: Vec<FieldDescriptor>,
}

/// One schema file as the schema compiler describes it.
pub struct FileDescriptor {
    /// Path of the schema file, relative to the input root.
    pub path: String,
    /// Segments of the declared package; empty when none is declared.
    pub package: Vec<String>,
    pub messages: Vec<MessageDescriptor>,
    /// Paths of the imported schema files, as declared.
    pub imports: Vec<String>,
}

/// A field ready for rendering.
pub struct FieldContext {
    /// The emitted name, after overrides.
    pub name: String,
    /// The resolved target-language type.
    pub type_text: String,
    pub repeated: bool,
}

/// A message ready for rendering: its name and its fields in declaration
/// order.
pub struct MessageContext {
    pub name: String,
    pub fields: Vec<FieldContext>,
}

/// One schema file ready for rendering.
pub struct FileContext {
    pub path: String,
    pub package: Vec<String>,
    pub messages: Vec<MessageContext>,
    pub imports: Vec<String>,
}

/// What a built field holds: emitted name, type text, repeated flag.
pub type FieldView = (Seq<char>, Seq<char>, bool);

/// What a built message holds: its name and its fields.
pub type MessageView = (Seq<char>, Seq<FieldView>);

impl FieldContext {
    pub open spec fn view_of(&self) -> FieldView {
        (self.name@, self.type_text@, self.repeated)
    }
}

/// The fields of each context.
pub open spec fn field_views(v: Seq<FieldContext>) -> Seq<FieldView> {
    v.map_values(|f: FieldContext| f.view_of())
}

impl MessageContext {
    pub open spec fn view_of(&self) -> MessageView {
        (self.name@, field_views(self.fields@))
    }
}

/// The messages of each context.
pub open spec fn message_views(v: Seq<MessageContext>) -> Seq<MessageView> {
    v.map_values(|m: MessageContext| m.view_of())
}

/// The context built for field `f` of a message in scope `scope`.
pub open spec fn build_field_spec(f: FieldDescriptor, scope: Seq<Seq<char>>, config: RendererConfig) -> Result<FieldView, ContextError> {
    match f.name {
        None => Err(ContextError::MissingRequiredAttribute(Attribute::FieldName)),
        Some(n) => match f.type_ref {
            None => Err(ContextError::MissingRequiredAttribute(Attribute::FieldType)),
            Some(t) => match resolve_spec(t, scope, config) {
                Ok(ty) => Ok((field_name_spec(n@, config), ty, f.repeated)),
                Err(ResolveError::MissingPrimitiveMapping(k)) => Err(ContextError::MissingPrimitiveMapping(k)),
            },
        },
    }
}

/// The contexts built for `fs` in order, or the error of the first field
/// that fails.
pub open spec fn build_fields_spec(fs: Seq<FieldDescriptor>, scope: Seq<Seq<char>>, config: RendererConfig) -> Result<Seq<FieldView>, ContextError>
    decreases fs.len(),
{
    if fs.len() == 0 {
        Ok(Seq::empty())
    } else {
        match build_fields_spec(fs.drop_last(), scope, config) {
            Err(e) => Err(e),
            Ok(prev) => match build_field_spec(fs.last(), scope, config) {
                Err(e) => Err(e),
                Ok(f) => Ok(prev.push(f)),
            },
        }
    }
}

/// The context built for message `m` in scope `scope`.
pub open spec fn build_message_spec(m: MessageDescriptor, scope: Seq<Seq<char>>, config: RendererConfig) -> Result<MessageView, ContextError> {
    match m.name {
        None => Err(ContextError::MissingRequiredAttribute(Attribute::MessageName)),
        Some(n) => match build_fields_spec(m.fields@, scope, config) {
            Err(e) => Err(e),
            Ok(fs) => Ok((n@, fs)),
        },
    }
}

/// The contexts built for `ms` in order, or the error of the first message
/// that fails.
pub open spec fn build_messages_spec(ms: Seq<MessageDescriptor>, scope: Seq<Seq<char>>, config: RendererConfig) -> Result<Seq<MessageView>, ContextError>
    decreases ms.len(),
{
    if ms.len() == 0 {
        Ok(Seq::empty())
    } else {
        match build_messages_spec(ms.drop_last(), scope, config) {
            Err(e) => Err(e),
            Ok(prev) => match build_message_spec(ms.last(), scope, config) {
                Err(e) => Err(e),
                Ok(m) => Ok(prev.push(m)),
            },
        }
    }
}

/// `s` with every repeated item after its first occurrence removed.
pub open spec fn dedup(s: Seq<Seq<char>>) -> Seq<Seq<char>>
    decreases s.len(),
{
    if s.len() == 0 {
        Seq::empty()
    } else if dedup(s.drop_last()).contains(s.last()) {
        dedup(s.drop_last())
    } else {
        dedup(s.drop_last()).push(s.last())
    }
}

proof fn lemma_fields_error_persists(fs: Seq<FieldDescriptor>, j: int, scope: Seq<Seq<char>>, config: RendererConfig)
    requires
        0 <= j <= fs.len(),
        build_fields_spec(fs.subrange(0, j), scope, config) is Err,
    ensures
        build_fields_spec(fs, scope, config) == build_fields_spec(fs.subrange(0, j), scope, config),
    decreases fs.len() - j,
{
    if j == fs.len() {
        assert(fs.subrange(0, j) =~= fs);
    } else {
        assert(fs.drop_last().subrange(0, j) =~= fs.subrange(0, j));
        lemma_fields_error_persists(fs.drop_last(), j, scope, config);
    }
}

proof fn lemma_messages_error_persists(ms: Seq<MessageDescriptor>, j: int, scope: Seq<Seq<char>>, config: RendererConfig)
    requires
        0 <= j <= ms.len(),
        build_messages_spec(ms.subrange(0, j), scope, config) is Err,
    ensures
        build_messages_spec(ms, scope, config) == build_messages_spec(ms.subrange(0, j), scope, config),
    decreases ms.len() - j,
{
    if j == ms.len() {
        assert(ms.subrange(0, j) =~= ms);
    } else {
        assert(ms.drop_last().subrange(0, j) =~= ms.subrange(0, j));
        lemma_messages_error_persists(ms.drop_last(), j, scope, config);
    }
}

/// A field whose declared name has an override is emitted under that
/// override, whatever its type resolves to.
pub proof fn lemma_override_ignores_type(
    f: FieldDescriptor,
    scope: Seq<Seq<char>>,
    config: RendererConfig,
    replacement: Seq<char>,
)
    requires
        f.name is Some,
        crate::table::lookup(config.field_name_override@, f.name.unwrap()@) == Some(replacement),
        build_field_spec(f, scope, config) is Ok,
    ensures
        build_field_spec(f, scope, config).unwrap().0 == replacement,
{
}

impl FieldContext {
    /// The context of field `f` in a message of scope `scope`.
    pub fn build(f: &FieldDescriptor, scope: &Vec<String>, config: &RendererConfig) -> (r: Result<FieldContext, ContextError>)
        ensures
            match r {
                Ok(c) => build_field_spec(*f, texts(scope@), *config) == Ok::<FieldView, ContextError>(c.view_of()),
                Err(e) => build_field_spec(*f, texts(scope@), *config) == Err::<FieldView, ContextError>(e),
            },
    {
        let n = match &f.name {
            None => return Err(ContextError::MissingRequiredAttribute(Attribute::FieldName)),
            Some(n) => n,
        };
        let t = match &f.type_ref {
            None => return Err(ContextError::MissingRequiredAttribute(Attribute::FieldType)),
            Some(t) => t,
        };
        match resolve(t, scope, config) {
            Ok(ty) => Ok(FieldContext { name: field_name(n, config), type_text: ty, repeated: f.repeated }),
            Err(ResolveError::MissingPrimitiveMapping(k)) => Err(ContextError::MissingPrimitiveMapping(k)),
        }
    }
}

impl MessageContext {
    /// The context of `message` with its name alone; fields are supplied
    /// later.
    pub fn new(message: &MessageDescriptor, _config: &RendererConfig) -> (r: Result<MessageContext, ContextError>)
        ensures
            match r {
                Ok(c) => message.name matches Some(n) && c.name@ == n@ && c.fields@.len() == 0,
                Err(e) => message.name is None && e == ContextError::MissingRequiredAttribute(Attribute::MessageName),
            },
    {
        match &message.name {
            None => Err(ContextError::MissingRequiredAttribute(Attribute::MessageName)),
            Some(n) => Ok(MessageContext { name: n.clone(), fields: Vec::new() }),
        }
    }

    /// The context of `message` in scope `scope`, with every field built in
    /// declaration order.
    pub fn build(message: &MessageDescriptor, scope: &Vec<String>, config: &RendererConfig) -> (r: Result<MessageContext, ContextError>)
        ensures
            match r {
                Ok(c) => build_message_spec(*message, texts(scope@), *config) == Ok::<MessageView, ContextError>(c.view_of()),
                Err(e) => build_message_spec(*message, texts(scope@), *config) == Err::<MessageView, ContextError>(e),
            },
    {
        let name = match &message.name {
            None => return Err(ContextError::MissingRequiredAttribute(Attribute::MessageName)),
            Some(n) => n.clone(),
        };
        let ghost sc = texts(scope@);
        let mut fields: Vec<FieldContext> = Vec::new();
        let mut i: usize = 0;
        proof {
            assert(message.fields@.subrange(0, 0) =~= Seq::<FieldDescriptor>::empty());
            assert(field_views(fields@) =~= Seq::<FieldView>::empty());
        }
        while i < message.fields.len()
            invariant
                i <= message.fields@.len(),
                message.name is Some,
                sc == texts(scope@),
                build_fields_spec(message.fields@.subrange(0, i as int), sc, *config) == Ok::<Seq<FieldView>, ContextError>(field_views(fields@)),
            decreases message.fields@.len() - i,
        {
            let ghost before = fields@;
            proof {
                assert(message.fields@.subrange(0, i + 1).drop_last() =~= message.fields@.subrange(0, i as int));
            }
            let f = FieldContext::build(&message.fields[i], scope, config);
            match f {
                Err(e) => {
                    proof {
                        assert(message.fields@.subrange(0, i + 1).last() == message.fields@[i as int]);
                        assert(build_fields_spec(message.fields@.subrange(0, i + 1), sc, *config) == Err::<Seq<FieldView>, ContextError>(e));
                        lemma_fields_error_persists(message.fields@, i + 1, sc, *config);
                    }
                    return Err(e);
                },
                Ok(f) => {
                    fields.push(f);
                    proof {
                        assert(field_views(fields@) =~= field_views(before).push(f.view_of()));
                    }
                },
            }
            i = i + 1;
        }
        proof {
            assert(message.fields@.subrange(0, message.fields@.len() as int) =~= message.fields@);
        }
        Ok(MessageContext { name, fields })
    }
}

/// Appends `x` to `out` unless it is already there.
fn push_unique(out: &mut Vec<String>, x: &String)
    ensures
        texts(final(out)@) == if texts(old(out)@).contains(x@) {
            texts(old(out)@)
        } else {
            texts(old(out)@).push(x@)
        },
{
    let mut j: usize = 0;
    while j < out.len()
        invariant
            j <= out@.len(),
            forall|k: int| 0 <= k < j ==> out@[k]@ != x@,
        decreases out@.len() - j,
    {
        if out[j] == *x {
            proof {
                assert(texts(out@)[j as int] == x@);
            }
            return;
        }
        j = j + 1;
    }
    proof {
        assert forall|k: int| 0 <= k < texts(out@).len() implies texts(out@)[k] != x@ by {
            assert(texts(out@)[k] == out@[k]@);
        }
    }
    let ghost before = out@;
    out.push(x.clone());
    proof {
        assert(texts(out@) =~= texts(before).push(x@));
    }
}

/// `v` with repeated entries after the first removed.
pub fn dedup_strings(v: &Vec<String>) -> (r: Vec<String>)
    ensures
        texts(r@) == dedup(texts(v@)),
{
    let mut out: Vec<String> = Vec::new();
    let mut i: usize = 0;
    while i < v.len()
        invariant
            i <= v@.len(),
            texts(out@) == dedup(texts(v@.subrange(0, i as int))),
        decreases v@.len() - i,
    {
        proof {
            assert(texts(v@.subrange(0, i + 1)).drop_last() =~= texts(v@.subrange(0, i as int)));
            assert(texts(v@.subrange(0, i + 1)).last() == v@[i as int]@);
        }
        push_unique(&mut out, &v[i]);
        i = i + 1;
    }
    proof {
        assert(v@.subrange(0, v@.len() as int) =~= v@);
    }
    out
}

impl FileContext {
    /// The context of the schema file `file`: its messages built in
    /// declaration order within its package, and its imports without
    /// repeats.
    pub fn build(file: &FileDescriptor, config: &RendererConfig) -> (r: Result<FileContext, ContextError>)
        ensures
            match r {
                Ok(c) => build_file_spec(*file, *config) == Ok::<FileView, ContextError>(c.view_of()),
                Err(e) => build_file_spec(*file, *config) == Err::<FileView, ContextError>(e),
            },
    {
        let ghost sc = texts(file.package@);
        let mut messages: Vec<MessageContext> = Vec::new();
        let mut i: usize = 0;
        proof {
            assert(file.messages@.subrange(0, 0) =~= Seq::<MessageDescriptor>::empty());
            assert(message_views(messages@) =~= Seq::<MessageView>::empty());
        }
        while i < file.messages.len()
            invariant
                i <= file.messages@.len(),
                sc == texts(file.package@),
                build_messages_spec(file.messages@.subrange(0, i as int), sc, *config) == Ok::<Seq<MessageView>, ContextError>(message_views(messages@)),
            decreases file.messages@.len() - i,
        {
            let ghost before = messages@;
            proof {
                assert(file.messages@.subrange(0, i + 1).drop_last() =~= file.messages@.subrange(0, i as int));
            }
            match MessageContext::build(&file.messages[i], &file.package, config) {
                Err(e) => {
                    proof {
                        lemma_messages_error_persists(file.messages@, i + 1, sc, *config);
                    }
                    return Err(e);
                },
                Ok(m) => {
                    messages.push(m);
                    proof {
                        assert(message_views(messages@) =~= message_views(before).push(m.view_of()));
                    }
                },
            }
            i = i + 1;
        }
        proof {
            assert(file.messages@.subrange(0, file.messages@.len() as int) =~= file.messages@);
        }
        let package = file.package.clone();
        proof {
            assert(package@ =~= file.package@);
        }
        Ok(FileContext { path: file.path.clone(), package, messages, imports: dedup_strings(&file.imports) })
    }
}

/// What a built file holds: path, package, messages, imports.
pub type FileView = (Seq<char>, Seq<Seq<char>>, Seq<MessageView>, Seq<Seq<char>>);

impl FileContext {
    pub open spec fn view_of(&self) -> FileView {
        (self.path@, texts(self.package@), message_views(self.messages@), texts(self.imports@))
    }
}

/// The context built for the schema file `f`.
pub open spec fn build_file_spec(f: FileDescriptor, config: RendererConfig) -> Result<FileView, ContextError> {
    match build_messages_spec(f.messages@, texts(f.package@), config) {
        Err(e) => Err(e),
        Ok(ms) => Ok((f.path@, texts(f.package@), ms, dedup(texts(f.imports@)))),
    }
}

/// The error aborts the whole run rather than one file.
pub open spec fn is_run_fatal(e: ContextError) -> bool {
    e is MissingPrimitiveMapping
}

/// The outcome of building every file of `fs`: the contexts of the files
/// that built and the index and error of each that did not, or the first
/// error that aborts the run.
pub open spec fn build_all_spec(fs: Seq<FileDescriptor>, config: RendererConfig) -> Result<(Seq<FileView>, Seq<(int, ContextError)>), ContextError>
    decreases fs.len(),
{
    if fs.len() == 0 {
        Ok((Seq::empty(), Seq::empty()))
    } else {
        match build_all_spec(fs.drop_last(), config) {
            Err(e) => Err(e),
            Ok((built, failed)) => match build_file_spec(fs.last(), config) {
                Ok(v) => Ok((built.push(v), failed)),
                Err(e) => if is_run_fatal(e) {
                    Err(e)
                } else {
                    Ok((built, failed.push((fs.len() - 1, e))))
                },
            },
        }
    }
}

/// The views of built files.
pub open spec fn file_views(v: Seq<FileContext>) -> Seq<FileView> {
    v.map_values(|f: FileContext| f.view_of())
}

/// The index and error of each failed file.
pub open spec fn failure_views(v: Seq<(usize, ContextError)>) -> Seq<(int, ContextError)> {
    v.map_values(|p: (usize, ContextError)| (p.0 as int, p.1))
}

proof fn lemma_fields_error_not_primitive(fs: Seq<FieldDescriptor>, scope: Seq<Seq<char>>, config: RendererConfig)
    requires
        maps_every_primitive(config),
    ensures
        build_fields_spec(fs, scope, config) matches Err(e) ==> e is MissingRequiredAttribute,
    decreases fs.len(),
{
    if fs.len() > 0 {
        lemma_fields_error_not_primitive(fs.drop_last(), scope, config);
        let f = fs.last();
        if let Some(TypeRef::Primitive(k)) = f.type_ref {
            assert(lookup(config.type_config@, primitive_key(k)) is Some);
        }
    }
}

proof fn lemma_messages_error_not_primitive(ms: Seq<MessageDescriptor>, scope: Seq<Seq<char>>, config: RendererConfig)
    requires
        maps_every_primitive(config),
    ensures
        build_messages_spec(ms, scope, config) matches Err(e) ==> e is MissingRequiredAttribute,
    decreases ms.len(),
{
    if ms.len() > 0 {
        lemma_messages_error_not_primitive(ms.drop_last(), scope, config);
        lemma_fields_error_not_primitive(ms.last().fields@, scope, config);
    }
}

/// With every primitive kind mapped, a file can only fail for a missing
/// attribute.
proof fn lemma_file_error_not_primitive(f: FileDescriptor, config: RendererConfig)
    requires
        maps_every_primitive(config),
    ensures
        build_file_spec(f, config) matches Err(e) ==> e is MissingRequiredAttribute,
{
    lemma_messages_error_not_primitive(f.messages@, texts(f.package@), config);
}

/// Every primitive kind has an entry in the type mapping.
pub open spec fn maps_every_primitive(config: RendererConfig) -> bool {
    forall|k: PrimitiveKind| #[trigger] lookup(config.type_config@, primitive_key(k)) is Some
}

/// The first primitive kind, in declaration order, that the type mapping
/// lacks.
pub fn missing_primitive(config: &RendererConfig) -> (r: Option<PrimitiveKind>)
    ensures
        r is None <==> maps_every_primitive(*config),
        r matches Some(k) ==> lookup(config.type_config@, primitive_key(k)) is None,
{
    let kinds = [
        PrimitiveKind::Float,
        PrimitiveKind::Double,
        PrimitiveKind::Int32,
        PrimitiveKind::Int64,
        PrimitiveKind::Uint32,
        PrimitiveKind::Uint64,
        PrimitiveKind::Sint32,
        PrimitiveKind::Sint64,
        PrimitiveKind::Fixed32,
        PrimitiveKind::Fixed64,
        PrimitiveKind::Bool,
        PrimitiveKind::Str,
        PrimitiveKind::Bytes,
    ];
    let mut i: usize = 0;
    while i < 13
        invariant
            i <= 13,
            kinds@.len() == 13,
            kinds@ == seq![
                PrimitiveKind::Float,
                PrimitiveKind::Double,
                PrimitiveKind::Int32,
                PrimitiveKind::Int64,
                PrimitiveKind::Uint32,
                PrimitiveKind::Uint64,
                PrimitiveKind::Sint32,
                PrimitiveKind::Sint64,
                PrimitiveKind::Fixed32,
                PrimitiveKind::Fixed64,
                PrimitiveKind::Bool,
                PrimitiveKind::Str,
                PrimitiveKind::Bytes,
            ],
            forall|j: int| 0 <= j < i ==> lookup(config.type_config@, primitive_key(#[trigger] kinds@[j])) is Some,
        decreases 13 - i,
    {
        let key = kinds[i].key();
        if config.type_config.get(&key).is_none() {
            return Some(kinds[i]);
        }
        i = i + 1;
    }
    proof {
        assert forall|k: PrimitiveKind| #[trigger] lookup(config.type_config@, primitive_key(k)) is Some by {
            match k {
                PrimitiveKind::Float => assert(kinds@[0] == k),
                PrimitiveKind::Double => assert(kinds@[1] == k),
                PrimitiveKind::Int32 => assert(kinds@[2] == k),
                PrimitiveKind::Int64 => assert(kinds@[3] == k),
                PrimitiveKind::Uint32 => assert(kinds@[4] == k),
                PrimitiveKind::Uint64 => assert(kinds@[5] == k),
                PrimitiveKind::Sint32 => assert(kinds@[6] == k),
                PrimitiveKind::Sint64 => assert(kinds@[7] == k),
                PrimitiveKind::Fixed32 => assert(kinds@[8] == k),
                PrimitiveKind::Fixed64 => assert(kinds@[9] == k),
                PrimitiveKind::Bool => assert(kinds@[10] == k),
                PrimitiveKind::Str => assert(kinds@[11] == k),
                PrimitiveKind::Bytes => assert(kinds@[12] == k),
            }
        }
    }
    None
}

/// Builds the context of every file of `files`. A type mapping that lacks
/// a primitive kind aborts the whole run before any file is built, whatever
/// else the files lack; otherwise a file whose descriptor lacks a mandatory
/// attribute is recorded with its index and skipped.
pub fn build_all(files: &Vec<FileDescriptor>, config: &RendererConfig) -> (r: Result<(Vec<FileContext>, Vec<(usize, ContextError)>), ContextError>)
    ensures
        !maps_every_primitive(*config) <==> r is Err,
        r matches Err(e) ==> (e matches ContextError::MissingPrimitiveMapping(k) && lookup(config.type_config@, primitive_key(k)) is None),
        r matches Ok((built, failed)) ==> build_all_spec(files@, *config) == Ok::<(Seq<FileView>, Seq<(int, ContextError)>), ContextError>(
            (file_views(built@), failure_views(failed@)),
        ),
{
    if let Some(k) = missing_primitive(config) {
        return Err(ContextError::MissingPrimitiveMapping(k));
    }
    let mut built: Vec<FileContext> = Vec::new();
    let mut failed: Vec<(usize, ContextError)> = Vec::new();
    let mut i: usize = 0;
    proof {
        assert(files@.subrange(0, 0) =~= Seq::<FileDescriptor>::empty());
        assert(file_views(built@) =~= Seq::<FileView>::empty());
        assert(failure_views(failed@) =~= Seq::<(int, ContextError)>::empty());
    }
    while i < files.len()
        invariant
            i <= files@.len(),
            maps_every_primitive(*config),
            build_all_spec(files@.subrange(0, i as int), *config) == Ok::<(Seq<FileView>, Seq<(int, ContextError)>), ContextError>(
                (file_views(built@), failure_views(failed@)),
            ),
        decreases files@.len() - i,
    {
        let ghost pre = files@.subrange(0, i + 1);
        let ghost bv = file_views(built@);
        let ghost fv = failure_views(failed@);
        proof {
            assert(pre.drop_last() =~= files@.subrange(0, i as int));
            assert(pre.last() == files@[i as int]);
            assert(pre.len() - 1 == i);
        }
        match FileContext::build(&files[i], config) {
            Ok(c) => {
                built.push(c);
                proof {
                    assert(file_views(built@) =~= bv.push(c.view_of()));
                }
            },
            Err(e) => {
                match e {
                    ContextError::MissingPrimitiveMapping(_) => {
                        proof {
                            lemma_file_error_not_primitive(files@[i as int], *config);
                        }
                        return Err(e);
                    },
                    ContextError::MissingRequiredAttribute(_) => {
                        failed.push((i, e));
                        proof {
                            assert(failure_views(failed@) =~= fv.push((i as int, e)));
                        }
                    },
                }
            },
        }
        i = i + 1;
    }
    proof {
        assert(files@.subrange(0, files@.len() as int) =~= files@);
    }
    Ok((built, failed))
}

} // verus!
