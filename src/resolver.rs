use vstd::prelude::*;

use crate::config::RendererConfig;
use crate::primitive::{primitive_key, PrimitiveKind};
use crate::strings::{join, join_strings, texts};
use crate::paths::{find_last, last_index, lemma_last_index_bounds};
use crate::table::lookup;

verus! {

/// A schema type named by its scope (package path) and its terminal name.
pub struct QualifiedTypeName {
    pub scope: Vec<String>,
    pub name: String,
}

/// A reference to a type from a field.
pub enum TypeRef {
    Primitive(PrimitiveKind),
    Named(QualifiedTypeName),
}

/// Why a type could not be resolved.
#[derive(Clone, Copy, Debug, PartialEq, Eq, Structural)]
pub enum ResolveError {
    /// The type mapping has no entry for this primitive kind.
    MissingPrimitiveMapping(PrimitiveKind),
}

/// The fully-qualified name of `name` in `scope`.
pub open spec fn fully_qualified(scope: Seq<Seq<char>>, name: Seq<char>, sep: Seq<char>) -> Seq<char> {
    join(scope.push(name), sep)
}

/// `t` is `a` itself or one of its ancestors, other than the root.
pub open spec fn is_ancestor_scope(t: Seq<Seq<char>>, a: Seq<Seq<char>>) -> bool {
    0 < t.len() <= a.len() && a.subrange(0, t.len() as int) == t
}

/// `k` copies of `prefix` followed by `name`, joined by `sep`.
pub open spec fn relative_name(prefix: Seq<char>, k: nat, name: Seq<char>, sep: Seq<char>) -> Seq<char> {
    join(Seq::new(k, |i: int| prefix).push(name), sep)
}

/// The text a reference from `referencing` to `name` in `scope` resolves to.
pub open spec fn resolve_named(
    scope: Seq<Seq<char>>,
    name: Seq<char>,
    referencing: Seq<Seq<char>>,
    config: RendererConfig,
) -> Seq<char> {
    let sep = config.package_separator@;
    let fq = fully_qualified(scope, name, sep);
    match lookup(config.type_config@, fq) {
        Some(v) => v,
        None => match config.field_relative_parent_prefix {
            Some(p) if is_ancestor_scope(scope, referencing) => relative_name(
                p@,
                (referencing.len() - scope.len()) as nat,
                name,
                sep,
            ),
            _ => fq,
        },
    }
}

/// The result of resolving `t` from `referencing`.
pub open spec fn resolve_spec(t: TypeRef, referencing: Seq<Seq<char>>, config: RendererConfig) -> Result<Seq<char>, ResolveError> {
    match t {
        TypeRef::Primitive(k) => match lookup(config.type_config@, primitive_key(k)) {
            Some(v) => Ok(v),
            None => Err(ResolveError::MissingPrimitiveMapping(k)),
        },
        TypeRef::Named(q) => Ok(resolve_named(texts(q.scope@), q.name@, referencing, config)),
    }
}

proof fn lemma_texts_push(v: Seq<String>, s: String)
    ensures
        texts(v.push(s)) == texts(v).push(s@),
{
    assert(texts(v.push(s)) =~= texts(v).push(s@));
}

/// The fully-qualified name of `q`.
pub fn fully_qualified_name(q: &QualifiedTypeName, sep: &str) -> (r: String)
    ensures
        r@ == fully_qualified(texts(q.scope@), q.name@, sep@),
{
    let mut segs = q.scope.clone();
    proof {
        assert(segs@ =~= q.scope@);
    }
    segs.push(q.name.clone());
    proof {
        lemma_texts_push(q.scope@, q.name);
    }
    join_strings(&segs, sep)
}

/// Whether scope `t` is `a` or a non-root ancestor of `a`.
pub fn is_ancestor(t: &Vec<String>, a: &Vec<String>) -> (r: bool)
    ensures
        r == is_ancestor_scope(texts(t@), texts(a@)),
{
    if t.len() == 0 || t.len() > a.len() {
        return false;
    }
    let mut i: usize = 0;
    while i < t.len()
        invariant
            0 < t@.len() <= a@.len(),
            i <= t@.len(),
            forall|j: int| 0 <= j < i ==> t@[j]@ == a@[j]@,
        decreases t@.len() - i,
    {
        if t[i] != a[i] {
            proof {
                assert(texts(a@).subrange(0, t@.len() as int)[i as int] != texts(t@)[i as int]);
            }
            return false;
        }
        i = i + 1;
    }
    proof {
        assert(texts(a@).subrange(0, t@.len() as int) =~= texts(t@));
    }
    true
}

/// `k` copies of `prefix` followed by `name`, joined by `sep`.
fn relative_type_name(prefix: &String, k: usize, name: &String, sep: &str) -> (r: String)
    ensures
        r@ == relative_name(prefix@, k as nat, name@, sep@),
{
    let mut segs: Vec<String> = Vec::new();
    let mut i: usize = 0;
    while i < k
        invariant
            i <= k,
            texts(segs@) == Seq::new(i as nat, |j: int| prefix@),
        decreases k - i,
    {
        let ghost before = segs@;
        segs.push(prefix.clone());
        proof {
            lemma_texts_push(before, *prefix);
            assert(texts(segs@) =~= Seq::new((i + 1) as nat, |j: int| prefix@));
        }
        i = i + 1;
    }
    let ghost before = segs@;
    segs.push(name.clone());
    proof {
        lemma_texts_push(before, *name);
    }
    join_strings(&segs, sep)
}

/// The literal target-language text for a reference to `t` from scope
/// `referencing`. A primitive kind is looked up by its key and is an error
/// when absent; a named type takes an override keyed by its fully-qualified
/// name first, then the relative form for an ancestor scope when a prefix is
/// configured, and its fully-qualified name otherwise.
pub fn resolve(t: &TypeRef, referencing: &Vec<String>, config: &RendererConfig) -> (r: Result<String, ResolveError>)
    ensures
        match r {
            Ok(s) => resolve_spec(*t, texts(referencing@), *config) == Ok::<Seq<char>, ResolveError>(s@),
            Err(e) => resolve_spec(*t, texts(referencing@), *config) == Err::<Seq<char>, ResolveError>(e),
        },
{
    match t {
        TypeRef::Primitive(k) => {
            let key = k.key();
            match config.type_config.get(&key) {
                Some(v) => Ok(v.clone()),
                None => Err(ResolveError::MissingPrimitiveMapping(*k)),
            }
        },
        TypeRef::Named(q) => {
            let fq = fully_qualified_name(q, config.package_separator.as_str());
            if let Some(v) = config.type_config.get(&fq) {
                return Ok(v.clone());
            }
            match &config.field_relative_parent_prefix {
                Some(p) => {
                    if is_ancestor(&q.scope, referencing) {
                        let k: usize = referencing.len() - q.scope.len();
                        Ok(relative_type_name(p, k, &q.name, config.package_separator.as_str()))
                    } else {
                        Ok(fq)
                    }
                },
                None => Ok(fq),
            }
        },
    }
}

/// The pieces of `p` between occurrences of `c`.
pub open spec fn split_on(p: Seq<char>, c: char) -> Seq<Seq<char>>
    decreases p.len(),
{
    let li = last_index(p, c);
    if li < 0 || li >= p.len() {
        seq![p]
    } else {
        split_on(p.subrange(0, li), c).push(p.subrange(li + 1, p.len() as int))
    }
}

/// The segments of a type name as the schema compiler writes it, with an
/// optional leading dot: the last is the terminal name, the others the scope.
pub open spec fn type_name_segments(s: Seq<char>) -> Seq<Seq<char>> {
    if s.len() > 0 && s[0] == '.' {
        split_on(s.drop_first(), '.')
    } else {
        split_on(s, '.')
    }
}

proof fn lemma_split_nonempty(p: Seq<char>, c: char)
    ensures
        split_on(p, c).len() >= 1,
    decreases p.len(),
{
}

/// The pieces of `s` between occurrences of `c`.
pub fn split_string(s: &str, c: char) -> (r: Vec<String>)
    ensures
        texts(r@) == split_on(s@, c),
    decreases s@.len(),
{
    let n = s.unicode_len();
    proof {
        lemma_last_index_bounds(s@, c);
    }
    match find_last(s, c) {
        None => {
            let v = vec![String::from_str(s)];
            proof {
                assert(texts(v@) =~= seq![s@]);
            }
            v
        },
        Some(i) => {
            let mut v = split_string(s.substring_char(0, i), c);
            let ghost before = v@;
            v.push(String::from_str(s.substring_char(i + 1, n)));
            proof {
                lemma_texts_push(before, v@.last());
                assert(before.push(v@.last()) =~= v@);
            }
            v
        },
    }
}

/// The type named by `qualified` as the schema compiler writes it
/// (`.pkg.sub.Msg`): its last segment is the terminal name, the rest the scope.
pub fn parse_type_name(qualified: &str) -> (r: QualifiedTypeName)
    ensures
        texts(r.scope@) == type_name_segments(qualified@).drop_last(),
        r.name@ == type_name_segments(qualified@).last(),
{
    let n = qualified.unicode_len();
    let body = if n > 0 && qualified.get_char(0) == '.' {
        proof {
            assert(qualified@.subrange(1, n as int) =~= qualified@.drop_first());
        }
        qualified.substring_char(1, n)
    } else {
        proof {
            assert(qualified@.subrange(0, n as int) =~= qualified@);
        }
        qualified.substring_char(0, n)
    };
    let mut segs = split_string(body, '.');
    proof {
        lemma_split_nonempty(body@, '.');
    }
    let ghost all = segs@;
    let name = segs.pop().unwrap();
    proof {
        assert(texts(segs@) =~= texts(all).drop_last());
    }
    QualifiedTypeName { scope: segs, name }
}

/// The name a field is emitted under: its override when one exists, else
/// the declared name.
pub open spec fn field_name_spec(name: Seq<char>, config: RendererConfig) -> Seq<char> {
    match lookup(config.field_name_override@, name) {
        Some(n) => n,
        None => name,
    }
}

/// The name a field declared as `name` is emitted under.
pub fn field_name(name: &String, config: &RendererConfig) -> (r: String)
    ensures
        r@ == field_name_spec(name@, *config),
{
    match config.field_name_override.get(name) {
        Some(n) => n.clone(),
        None => name.clone(),
    }
}

/// A type whose scope is neither the referencing scope nor one of its
/// non-root ancestors resolves to its fully-qualified name, whatever relative
/// prefix is configured, unless the mapping overrides that name.
pub proof fn lemma_unrelated_scope_is_fully_qualified(
    scope: Seq<Seq<char>>,
    name: Seq<char>,
    referencing: Seq<Seq<char>>,
    config: RendererConfig,
)
    requires
        !is_ancestor_scope(scope, referencing),
        lookup(config.type_config@, fully_qualified(scope, name, config.package_separator@)) is None,
    ensures
        resolve_named(scope, name, referencing, config) == fully_qualified(
            scope,
            name,
            config.package_separator@,
        ),
{
}

/// With a relative prefix configured, a type in the `k`-th ancestor of the
/// referencing scope (not the root) resolves to `k` copies of the prefix and
/// the terminal name, joined by the separator, unless the mapping overrides
/// its fully-qualified name; for `k == 0` that is the bare terminal name.
pub proof fn lemma_ancestor_scope_is_relative(
    name: Seq<char>,
    referencing: Seq<Seq<char>>,
    k: nat,
    config: RendererConfig,
)
    requires
        config.field_relative_parent_prefix is Some,
        k < referencing.len(),
        lookup(
            config.type_config@,
            fully_qualified(
                referencing.subrange(0, referencing.len() - k),
                name,
                config.package_separator@,
            ),
        ) is None,
    ensures
        resolve_named(referencing.subrange(0, referencing.len() - k), name, referencing, config)
            == join(
            Seq::new(k, |i: int| config.field_relative_parent_prefix.unwrap()@).push(name),
            config.package_separator@,
        ),
        k == 0 ==> resolve_named(referencing.subrange(0, referencing.len() - k), name, referencing, config)
            == name,
{
    let scope = referencing.subrange(0, referencing.len() - k);
    assert(scope.len() == referencing.len() - k);
    assert(referencing.subrange(0, scope.len() as int) =~= scope);
    assert(is_ancestor_scope(scope, referencing));
    if k == 0 {
        let p = config.field_relative_parent_prefix.unwrap()@;
        assert(Seq::new(0, |i: int| p).push(name) =~= seq![name]);
    }
}

/// A primitive kind that the type mapping lacks is always an error naming
/// that kind, never a substitute.
pub proof fn lemma_missing_primitive_is_error(
    kind: PrimitiveKind,
    referencing: Seq<Seq<char>>,
    config: RendererConfig,
)
    requires
        lookup(config.type_config@, primitive_key(kind)) is None,
    ensures
        resolve_spec(TypeRef::Primitive(kind), referencing, config) == Err::<Seq<char>, ResolveError>(
            ResolveError::MissingPrimitiveMapping(kind),
        ),
{
}

} // verus!
