use vstd::prelude::*;
use vstd::seq_lib::group_to_multiset_ensures;

use crate::config::RendererConfig;
use crate::context::{message_views, FileContext, MessageContext, MessageView};
use crate::paths::{file_name, file_name_of, find_last, last_index, stem, stem_of};
use crate::strings::{join, join_strings, texts};

verus! {

/// `a` comes strictly before `b` in lexicographic order of code points.
pub open spec fn lex_lt(a: Seq<char>, b: Seq<char>) -> bool
    decreases a.len(),
{
    if a.len() == 0 {
        b.len() > 0
    } else if b.len() == 0 {
        false
    } else if a[0] != b[0] {
        (a[0] as int) < (b[0] as int)
    } else {
        lex_lt(a.drop_first(), b.drop_first())
    }
}

/// `a` comes no later than `b` in lexicographic order.
pub open spec fn lex_le(a: Seq<char>, b: Seq<char>) -> bool {
    a == b || lex_lt(a, b)
}

proof fn lemma_lex_total(a: Seq<char>, b: Seq<char>)
    ensures
        a == b || lex_lt(a, b) || lex_lt(b, a),
    decreases a.len(),
{
    if a.len() > 0 && b.len() > 0 && a[0] == b[0] {
        lemma_lex_total(a.drop_first(), b.drop_first());
        if a.drop_first() == b.drop_first() {
            assert(a =~= seq![a[0]] + a.drop_first());
            assert(b =~= seq![b[0]] + b.drop_first());
        }
    } else if a.len() == 0 && b.len() == 0 {
        assert(a =~= b);
    } else if a.len() > 0 && b.len() > 0 {
        assert((a[0] as int) != (b[0] as int));
    }
}

proof fn lemma_lex_trans(a: Seq<char>, b: Seq<char>, c: Seq<char>)
    requires
        lex_lt(a, b),
        lex_lt(b, c),
    ensures
        lex_lt(a, c),
    decreases a.len(),
{
    if a.len() > 0 && b.len() > 0 && c.len() > 0 && a[0] == b[0] && b[0] == c[0] {
        lemma_lex_trans(a.drop_first(), b.drop_first(), c.drop_first());
    }
}

proof fn lemma_lex_irrefl(a: Seq<char>)
    ensures
        !lex_lt(a, a),
    decreases a.len(),
{
    if a.len() > 0 {
        lemma_lex_irrefl(a.drop_first());
    }
}

/// Whether `a` comes strictly before `b`.
pub fn str_lt(a: &str, b: &str) -> (r: bool)
    ensures
        r == lex_lt(a@, b@),
{
    let na = a.unicode_len();
    let nb = b.unicode_len();
    let mut i: usize = 0;
    proof {
        assert(a@.subrange(0, na as int) =~= a@);
        assert(b@.subrange(0, nb as int) =~= b@);
    }
    while i < na && i < nb
        invariant
            na == a@.len(),
            nb == b@.len(),
            i <= na,
            i <= nb,
            lex_lt(a@, b@) == lex_lt(a@.subrange(i as int, na as int), b@.subrange(i as int, nb as int)),
        decreases na - i,
    {
        let ca = a.get_char(i);
        let cb = b.get_char(i);
        if ca != cb {
            return (ca as u32) < (cb as u32);
        }
        proof {
            assert(a@.subrange(i as int, na as int).drop_first() =~= a@.subrange(i + 1, na as int));
            assert(b@.subrange(i as int, nb as int).drop_first() =~= b@.subrange(i + 1, nb as int));
        }
        i = i + 1;
    }
    i == na && i < nb
}

/// Files in order of their paths.
pub open spec fn sorted_by_path(fs: Seq<FileContext>) -> bool {
    forall|i: int, j: int| 0 <= i < j < fs.len() ==> lex_le(#[trigger] fs[i].path@, #[trigger] fs[j].path@)
}

/// The first position in `out` whose path comes strictly after `p`.
fn insertion_point(out: &Vec<FileContext>, p: &String) -> (pos: usize)
    ensures
        pos <= out@.len(),
        forall|k: int| 0 <= k < pos ==> !lex_lt(p@, #[trigger] out@[k].path@),
        pos < out@.len() ==> lex_lt(p@, out@[pos as int].path@),
{
    let mut pos: usize = 0;
    while pos < out.len() && !str_lt(p.as_str(), out[pos].path.as_str())
        invariant
            pos <= out@.len(),
            forall|k: int| 0 <= k < pos ==> !lex_lt(p@, #[trigger] out@[k].path@),
        decreases out@.len() - pos,
    {
        pos = pos + 1;
    }
    pos
}

/// `files` in lexicographic order of their paths; files with equal paths
/// keep their relative order.
pub fn sort_by_path(files: Vec<FileContext>) -> (r: Vec<FileContext>)
    ensures
        sorted_by_path(r@),
        r@.to_multiset() == files@.to_multiset(),
{
    broadcast use group_to_multiset_ensures;

    let mut rest = files;
    let _n = rest.len();
    let mut out: Vec<FileContext> = Vec::new();
    let ghost all = rest@;
    proof {
        assert(all.subrange(0, 0) =~= Seq::<FileContext>::empty());
        assert(rest@ =~= all.subrange(0, all.len() as int));
    }
    let mut taken: usize = 0;
    while rest.len() > 0
        invariant
            taken <= all.len(),
            rest@ == all.subrange(taken as int, all.len() as int),
            taken + rest@.len() == all.len(),
            all.len() <= usize::MAX,
            sorted_by_path(out@),
            out@.to_multiset() == all.subrange(0, taken as int).to_multiset(),
        decreases rest@.len(),
    {
        let x = rest.remove(0);
        proof {
            assert(all.subrange(0, taken + 1) =~= all.subrange(0, taken as int).push(x));
        }
        let pos = insertion_point(&out, &x.path);
        let ghost old_out = out@;
        out.insert(pos, x);
        proof {
            assert(out@ == old_out.insert(pos as int, x));
            vstd::seq_lib::to_multiset_insert(old_out, pos as int, x);
            vstd::seq_lib::to_multiset_build(all.subrange(0, taken as int), x);
            assert(out@.to_multiset() == all.subrange(0, taken + 1).to_multiset());
            assert forall|i: int, j: int| 0 <= i < j < out@.len() implies lex_le(#[trigger] out@[i].path@, #[trigger] out@[j].path@) by {
                if j == pos {
                    lemma_lex_total(out@[i].path@, x.path@);
                    assert(old_out[i] == out@[i]);
                } else if i == pos {
                    assert(out@[j] == old_out[j - 1]);
                    assert(lex_lt(x.path@, old_out[pos as int].path@));
                    if j - 1 > pos {
                        assert(lex_le(old_out[pos as int].path@, old_out[j - 1].path@));
                        if old_out[pos as int].path@ != old_out[j - 1].path@ {
                            lemma_lex_trans(x.path@, old_out[pos as int].path@, old_out[j - 1].path@);
                        }
                    }
                } else if i < pos && j < pos {
                    assert(out@[i] == old_out[i] && out@[j] == old_out[j]);
                } else if i < pos {
                    assert(out@[i] == old_out[i] && out@[j] == old_out[j - 1]);
                } else {
                    assert(out@[i] == old_out[i - 1] && out@[j] == old_out[j - 1]);
                }
            }
        }
        taken = taken + 1;
    }
    proof {
        assert(all.subrange(0, all.len() as int) =~= all);
    }
    out
}

/// One planned output file: its path relative to the output root and the
/// messages it holds, in order.
pub struct OutputFile {
    pub path: String,
    pub messages: Vec<MessageContext>,
}

/// What a planned output file holds: its path and its messages.
pub type OutputView = (Seq<char>, Seq<MessageView>);

impl OutputFile {
    pub open spec fn view_of(&self) -> OutputView {
        (self.path@, message_views(self.messages@))
    }
}

/// The view of each planned output file.
pub open spec fn output_views(v: Seq<OutputFile>) -> Seq<OutputView> {
    v.map_values(|o: OutputFile| o.view_of())
}

/// Why the output could not be planned.
#[derive(Clone, Copy, Debug, PartialEq, Eq, Structural)]
pub enum LayoutError {
    /// The merged output file holds two messages of one name.
    NamingCollision,
}

/// `base` with the extension `ext`, when there is one.
pub open spec fn with_extension(base: Seq<char>, ext: Seq<char>) -> Seq<char> {
    if ext.len() == 0 {
        base
    } else {
        base + "."@ + ext
    }
}

/// The base name of the merged file of package `pkg`.
pub open spec fn package_file_name(pkg: Seq<Seq<char>>, config: RendererConfig) -> Seq<char> {
    if pkg.len() == 0 {
        config.default_package_file_name@
    } else {
        join(pkg, config.package_separator@)
    }
}

/// The path of the merged file of package `pkg`.
pub open spec fn package_output_path(pkg: Seq<Seq<char>>, config: RendererConfig) -> Seq<char> {
    with_extension(package_file_name(pkg, config), config.file_extension@)
}

/// The output path that mirrors the schema file at `p`: same directory and
/// base name, with the configured extension.
pub open spec fn mirrored_path(p: Seq<char>, config: RendererConfig) -> Seq<char> {
    with_extension(
        p.subrange(0, last_index(p, '/') + 1) + stem_of(file_name_of(p)),
        config.file_extension@,
    )
}

/// Index of the output with path `k` in `g`, or -1.
pub open spec fn find_output(g: Seq<OutputView>, k: Seq<char>) -> int
    decreases g.len(),
{
    if g.len() == 0 {
        -1
    } else if g.last().0 == k {
        g.len() - 1
    } else {
        find_output(g.drop_last(), k)
    }
}

/// The merged files of `fs` taken in order: one per package, created when
/// its first file is met, each file's messages appended to it.
pub open spec fn group_spec(fs: Seq<FileContext>, config: RendererConfig) -> Seq<OutputView>
    decreases fs.len(),
{
    if fs.len() == 0 {
        Seq::empty()
    } else {
        let g = group_spec(fs.drop_last(), config);
        let f = fs.last();
        let k = package_output_path(texts(f.package@), config);
        let i = find_output(g, k);
        if i < 0 {
            g.push((k, message_views(f.messages@)))
        } else {
            g.update(i, (k, g[i].1 + message_views(f.messages@)))
        }
    }
}

/// Two messages of `ms` share a name.
pub open spec fn has_name_collision(ms: Seq<MessageView>) -> bool {
    exists|i: int, j: int| 0 <= i < j < ms.len() && (#[trigger] ms[i]).0 == (#[trigger] ms[j]).0
}

/// The mirrored output files of `files`, one per file, in order.
pub open spec fn mirrored_spec(fs: Seq<FileContext>, config: RendererConfig) -> Seq<OutputView> {
    fs.map_values(|f: FileContext| (mirrored_path(f.path@, config), message_views(f.messages@)))
}

proof fn lemma_find_output_bounds(g: Seq<OutputView>, k: Seq<char>)
    ensures
        -1 <= find_output(g, k) < g.len(),
        find_output(g, k) >= 0 ==> g[find_output(g, k)].0 == k,
    decreases g.len(),
{
    if g.len() > 0 && g.last().0 != k {
        lemma_find_output_bounds(g.drop_last(), k);
    }
}

/// `base` with the extension `ext`, when there is one.
fn add_extension(base: String, ext: &String) -> (r: String)
    ensures
        r@ == with_extension(base@, ext@),
{
    if ext.unicode_len() == 0 {
        base
    } else {
        let mut r = base;
        r.append(".");
        r.append(ext.as_str());
        r
    }
}

/// The path of the merged file of package `pkg`.
pub fn package_output(pkg: &Vec<String>, config: &RendererConfig) -> (r: String)
    ensures
        r@ == package_output_path(texts(pkg@), *config),
{
    let base = if pkg.len() == 0 {
        config.default_package_file_name.clone()
    } else {
        join_strings(pkg, config.package_separator.as_str())
    };
    add_extension(base, &config.file_extension)
}

/// The output path that mirrors the schema file at `p`.
pub fn mirrored_output(p: &String, config: &RendererConfig) -> (r: String)
    ensures
        r@ == mirrored_path(p@, *config),
{
    let name = file_name(p.as_str());
    let _n = p.as_str().unicode_len();
    let mut base = match find_last(p.as_str(), '/') {
        Some(i) => {
            proof {
                assert(i < p@.len()) by {
                    crate::paths::lemma_last_index_bounds(p@, '/');
                }
            }
            String::from_str(p.as_str().substring_char(0, i + 1))
        },
        None => {
            proof {
                assert(p@.subrange(0, 0) =~= Seq::<char>::empty());
            }
            String::new()
        },
    };
    let s = stem(name.as_str());
    base.append(s.as_str());
    add_extension(base, &config.file_extension)
}

/// Index of the output with path `k` in `g`.
fn find_output_index(g: &Vec<OutputFile>, k: &String) -> (r: Option<usize>)
    ensures
        match r {
            Some(i) => find_output(output_views(g@), k@) == i,
            None => find_output(output_views(g@), k@) == -1,
        },
{
    let mut i: usize = g.len();
    proof {
        assert(output_views(g@).subrange(0, i as int) =~= output_views(g@));
    }
    while i > 0
        invariant
            i <= g@.len(),
            find_output(output_views(g@), k@) == find_output(output_views(g@).subrange(0, i as int), k@),
        decreases i,
    {
        proof {
            assert(output_views(g@).subrange(0, i as int).drop_last() =~= output_views(g@).subrange(0, i - 1));
        }
        if g[i - 1].path == *k {
            return Some(i - 1);
        }
        i = i - 1;
    }
    None
}

/// The merged files of `files` in the order given: one per package, its
/// messages in file order, then declaration order.
pub fn group_by_package(files: Vec<FileContext>, config: &RendererConfig) -> (r: Vec<OutputFile>)
    ensures
        output_views(r@) == group_spec(files@, *config),
{
    let mut rest = files;
    let _n = rest.len();
    let ghost all = rest@;
    let mut groups: Vec<OutputFile> = Vec::new();
    let mut taken: usize = 0;
    proof {
        assert(rest@ =~= all.subrange(0, all.len() as int));
        assert(output_views(groups@) =~= Seq::<OutputView>::empty());
    }
    while rest.len() > 0
        invariant
            taken <= all.len(),
            taken + rest@.len() == all.len(),
            all.len() <= usize::MAX,
            rest@ == all.subrange(taken as int, all.len() as int),
            output_views(groups@) == group_spec(all.subrange(0, taken as int), *config),
        decreases rest@.len(),
    {
        let f = rest.remove(0);
        let ghost prefix = all.subrange(0, taken + 1);
        proof {
            assert(prefix.drop_last() =~= all.subrange(0, taken as int));
            assert(prefix.last() == f);
        }
        let ghost g = output_views(groups@);
        let k = package_output(&f.package, config);
        let FileContext { path: _, package: _, messages, imports: _ } = f;
        let mut messages = messages;
        let ghost mv = message_views(messages@);
        match find_output_index(&groups, &k) {
            None => {
                groups.push(OutputFile { path: k, messages });
                proof {
                    assert(output_views(groups@) =~= g.push((k@, mv)));
                }
            },
            Some(i) => {
                proof {
                    lemma_find_output_bounds(g, k@);
                }
                let mut o = groups.remove(i);
                let ghost om = message_views(o.messages@);
                o.messages.append(&mut messages);
                proof {
                    assert(message_views(o.messages@) =~= om + mv);
                    assert(o.path@ == k@);
                }
                groups.insert(i, o);
                proof {
                    assert(output_views(groups@) =~= g.update(i as int, (k@, g[i as int].1 + mv)));
                }
            },
        }
        taken = taken + 1;
    }
    proof {
        assert(all.subrange(0, all.len() as int) =~= all);
    }
    groups
}

/// Whether two messages of `ms` share a name.
fn name_collision(ms: &Vec<MessageContext>) -> (r: bool)
    ensures
        r == has_name_collision(message_views(ms@)),
{
    let ghost v = message_views(ms@);
    let mut j: usize = 0;
    while j < ms.len()
        invariant
            j <= ms@.len(),
            v == message_views(ms@),
            forall|a: int, b: int| 0 <= a < b < j ==> v[a].0 != v[b].0,
        decreases ms@.len() - j,
    {
        let mut i: usize = 0;
        while i < j
            invariant
                i <= j < ms@.len(),
                v == message_views(ms@),
                forall|a: int| 0 <= a < i ==> v[a].0 != v[j as int].0,
            decreases j - i,
        {
            if ms[i].name == ms[j].name {
                proof {
                    assert(v[i as int].0 == v[j as int].0);
                }
                return true;
            }
            i = i + 1;
        }
        j = j + 1;
    }
    false
}

/// The merged files of `g` that hold no two messages of one name, in order.
pub open spec fn kept_outputs(g: Seq<OutputView>) -> Seq<OutputView>
    decreases g.len(),
{
    if g.len() == 0 {
        Seq::empty()
    } else if has_name_collision(g.last().1) {
        kept_outputs(g.drop_last())
    } else {
        kept_outputs(g.drop_last()).push(g.last())
    }
}

/// The paths of the merged files of `g` that hold two messages of one name,
/// in order.
pub open spec fn collided_paths(g: Seq<OutputView>) -> Seq<Seq<char>>
    decreases g.len(),
{
    if g.len() == 0 {
        Seq::empty()
    } else if has_name_collision(g.last().1) {
        collided_paths(g.drop_last()).push(g.last().0)
    } else {
        collided_paths(g.drop_last())
    }
}

/// The paths named by each failure.
pub open spec fn failure_paths(v: Seq<(String, LayoutError)>) -> Seq<Seq<char>> {
    v.map_values(|p: (String, LayoutError)| p.0@)
}

/// `outputs` split into those without a name collision, in order, and the
/// path and error of each of the others.
pub fn drop_collisions(outputs: Vec<OutputFile>) -> (r: (Vec<OutputFile>, Vec<(String, LayoutError)>))
    ensures
        output_views(r.0@) == kept_outputs(output_views(outputs@)),
        failure_paths(r.1@) == collided_paths(output_views(outputs@)),
        forall|i: int| 0 <= i < r.1@.len() ==> (#[trigger] r.1@[i]).1 == LayoutError::NamingCollision,
{
    let mut rest = outputs;
    let _n = rest.len();
    let ghost all = output_views(rest@);
    let mut kept: Vec<OutputFile> = Vec::new();
    let mut failed: Vec<(String, LayoutError)> = Vec::new();
    let mut taken: usize = 0;
    proof {
        assert(output_views(rest@) =~= all.subrange(0, all.len() as int));
        assert(all.subrange(0, 0) =~= Seq::<OutputView>::empty());
        assert(output_views(kept@) =~= Seq::<OutputView>::empty());
        assert(failure_paths(failed@) =~= Seq::<Seq<char>>::empty());
    }
    while rest.len() > 0
        invariant
            taken <= all.len(),
            taken + rest@.len() == all.len(),
            all.len() <= usize::MAX,
            output_views(rest@) == all.subrange(taken as int, all.len() as int),
            output_views(kept@) == kept_outputs(all.subrange(0, taken as int)),
            failure_paths(failed@) == collided_paths(all.subrange(0, taken as int)),
            forall|i: int| 0 <= i < failed@.len() ==> (#[trigger] failed@[i]).1 == LayoutError::NamingCollision,
        decreases rest@.len(),
    {
        let ghost rv = output_views(rest@);
        let o = rest.remove(0);
        proof {
            assert(rv[0] == o.view_of());
            assert(output_views(rest@) =~= rv.drop_first());
            assert(all.subrange(0, taken + 1).drop_last() =~= all.subrange(0, taken as int));
            assert(all.subrange(0, taken + 1).last() == all[taken as int]);
            assert(all[taken as int] == rv[0]);
            assert(all.subrange(taken + 1, all.len() as int) =~= rv.drop_first());
        }
        let ghost kv = output_views(kept@);
        let ghost fv = failure_paths(failed@);
        let ghost ov = o.view_of();
        if name_collision(&o.messages) {
            failed.push((o.path, LayoutError::NamingCollision));
            proof {
                assert(failure_paths(failed@) =~= fv.push(ov.0));
            }
        } else {
            kept.push(o);
            proof {
                assert(output_views(kept@) =~= kv.push(ov));
            }
        }
        taken = taken + 1;
    }
    proof {
        assert(all.subrange(0, all.len() as int) =~= all);
    }
    (kept, failed)
}

/// The output files of `files` when every package is merged into one file:
/// files are taken in lexicographic order of their paths. A merged file
/// that holds two messages of one name is left out and reported by its
/// path; every other merged file is returned.
pub fn plan_packages(files: Vec<FileContext>, config: &RendererConfig) -> (r: (Vec<OutputFile>, Vec<(String, LayoutError)>))
    ensures
        exists|s: Seq<FileContext>| {
            &&& sorted_by_path(s)
            &&& s.to_multiset() == files@.to_multiset()
            &&& output_views(r.0@) == kept_outputs(group_spec(s, *config))
            &&& failure_paths(r.1@) == collided_paths(group_spec(s, *config))
        },
        forall|i: int| 0 <= i < r.1@.len() ==> (#[trigger] r.1@[i]).1 == LayoutError::NamingCollision,
{
    let sorted = sort_by_path(files);
    let ghost s = sorted@;
    let groups = group_by_package(sorted, config);
    let r = drop_collisions(groups);
    proof {
        assert(sorted_by_path(s) && s.to_multiset() == files@.to_multiset());
    }
    r
}

/// The output files of `files` when the output mirrors the input: one per
/// schema file, in the order given.
pub fn plan_mirrored(files: Vec<FileContext>, config: &RendererConfig) -> (r: Vec<OutputFile>)
    ensures
        output_views(r@) == mirrored_spec(files@, *config),
{
    let mut rest = files;
    let _n = rest.len();
    let ghost all = rest@;
    let mut out: Vec<OutputFile> = Vec::new();
    let mut taken: usize = 0;
    proof {
        assert(rest@ =~= all.subrange(0, all.len() as int));
        assert(output_views(out@) =~= mirrored_spec(all.subrange(0, 0), *config));
    }
    while rest.len() > 0
        invariant
            taken <= all.len(),
            taken + rest@.len() == all.len(),
            all.len() <= usize::MAX,
            rest@ == all.subrange(taken as int, all.len() as int),
            output_views(out@) == mirrored_spec(all.subrange(0, taken as int), *config),
        decreases rest@.len(),
    {
        let f = rest.remove(0);
        let ghost before = out@;
        proof {
            assert(all.subrange(0, taken + 1) =~= all.subrange(0, taken as int).push(f));
        }
        let path = mirrored_output(&f.path, config);
        let FileContext { path: _, package: _, messages, imports: _ } = f;
        let ghost mv = message_views(messages@);
        out.push(OutputFile { path, messages });
        proof {
            assert(output_views(out@) =~= output_views(before).push((path@, mv)));
            assert(mirrored_spec(all.subrange(0, taken + 1), *config) =~= mirrored_spec(all.subrange(0, taken as int), *config).push((mirrored_path(f.path@, *config), message_views(f.messages@))));
        }
        taken = taken + 1;
    }
    proof {
        assert(all.subrange(0, all.len() as int) =~= all);
    }
    out
}

/// The output files of `files` under the configured layout, with the path
/// and error of each merged file that could not be produced: merged by
/// package when one file per package is configured, mirrored otherwise.
pub fn plan_outputs(files: Vec<FileContext>, config: &RendererConfig) -> (r: (Vec<OutputFile>, Vec<(String, LayoutError)>))
    ensures
        !config.one_file_per_package ==> output_views(r.0@) == mirrored_spec(files@, *config) && r.1@.len() == 0,
        config.one_file_per_package ==> exists|s: Seq<FileContext>| {
            &&& sorted_by_path(s)
            &&& s.to_multiset() == files@.to_multiset()
            &&& output_views(r.0@) == kept_outputs(group_spec(s, *config))
            &&& failure_paths(r.1@) == collided_paths(group_spec(s, *config))
        },
        forall|i: int| 0 <= i < r.1@.len() ==> (#[trigger] r.1@[i]).1 == LayoutError::NamingCollision,
{
    if config.one_file_per_package {
        plan_packages(files, config)
    } else {
        (plan_mirrored(files, config), Vec::new())
    }
}

proof fn lemma_sorted_pair(a: FileContext, b: FileContext, s: Seq<FileContext>)
    requires
        lex_lt(a.path@, b.path@),
        sorted_by_path(s),
        s.to_multiset() == seq![a, b].to_multiset(),
    ensures
        s == seq![a, b],
{
    broadcast use group_to_multiset_ensures;

    let m = seq![a, b].to_multiset();
    assert(seq![a, b] =~= seq![a].push(b));
    assert(seq![a] =~= Seq::<FileContext>::empty().push(a));
    lemma_lex_irrefl(a.path@);
    assert(a != b);
    assert(m.count(a) == 1);
    assert(m.count(b) == 1);
    assert(seq![a, b].len() == 2);
    assert(seq![a, b].to_multiset().len() == 2);
    assert(s.to_multiset().len() == s.len());
    assert(s.len() == 2);
    assert(s.contains(a));
    assert(s.contains(b));
    assert(s =~= seq![s[0]].push(s[1]));
    assert(seq![s[0]] =~= Seq::<FileContext>::empty().push(s[0]));
    if s[0] == b {
        assert(s[1] == a);
        assert(lex_le(b.path@, a.path@));
        if b.path@ != a.path@ {
            lemma_lex_trans(a.path@, b.path@, a.path@);
        }
    }
    assert(s[0] == a);
    assert(s[1] == b);
    assert(s =~= seq![a, b]);
}

/// Two files of one package, given in either order, merge into a single
/// output file that holds the messages of the file with the earlier path,
/// then those of the other, each in declaration order.
pub proof fn lemma_one_package_merges_in_path_order(
    a: FileContext,
    b: FileContext,
    s: Seq<FileContext>,
    config: RendererConfig,
)
    requires
        texts(a.package@) == texts(b.package@),
        lex_lt(a.path@, b.path@),
        sorted_by_path(s),
        s.to_multiset() == seq![a, b].to_multiset() || s.to_multiset() == seq![b, a].to_multiset(),
    ensures
        group_spec(s, config) == seq![
            (package_output_path(texts(a.package@), config), message_views(a.messages@) + message_views(b.messages@)),
        ],
{
    broadcast use group_to_multiset_ensures;

    if s.to_multiset() == seq![b, a].to_multiset() {
        assert(seq![b, a] =~= seq![b].push(a));
        assert(seq![a, b] =~= seq![a].push(b));
        assert(seq![a] =~= Seq::<FileContext>::empty().push(a));
        assert(seq![b] =~= Seq::<FileContext>::empty().push(b));
        assert(seq![b, a].to_multiset() =~= seq![a, b].to_multiset());
    }
    lemma_sorted_pair(a, b, s);
    let k = package_output_path(texts(a.package@), config);
    assert(s.drop_last() =~= seq![a]);
    assert(seq![a].drop_last() =~= Seq::<FileContext>::empty());
    let g1 = group_spec(seq![a], config);
    assert(group_spec(Seq::<FileContext>::empty(), config) == Seq::<OutputView>::empty());
    assert(find_output(Seq::<OutputView>::empty(), k) == -1);
    assert(seq![a].last() == a);
    assert(g1 =~= Seq::<OutputView>::empty().push((k, message_views(a.messages@))));
    assert(g1 =~= seq![(k, message_views(a.messages@))]);
    assert(g1.drop_last() =~= Seq::<OutputView>::empty());
    assert(find_output(g1, k) == 0);
}

/// A file that declares no package goes to the output file named by the
/// configured default package file name.
pub proof fn lemma_no_package_uses_default(f: FileContext, config: RendererConfig)
    requires
        f.package@.len() == 0,
    ensures
        group_spec(seq![f], config) == seq![
            (with_extension(config.default_package_file_name@, config.file_extension@), message_views(f.messages@)),
        ],
{
    assert(seq![f].drop_last() =~= Seq::<FileContext>::empty());
    assert(texts(f.package@).len() == 0);
    assert(group_spec(Seq::<FileContext>::empty(), config) == Seq::<OutputView>::empty());
    assert(find_output(Seq::<OutputView>::empty(), package_output_path(texts(f.package@), config)) == -1);
    assert(seq![f].last() == f);
    assert(group_spec(seq![f], config) =~= seq![
        (with_extension(config.default_package_file_name@, config.file_extension@), message_views(f.messages@)),
    ]);
}

/// The messages of the files of `fs` whose merged output path is `k`, file
/// after file in the order of `fs`, each in declaration order.
pub open spec fn messages_for(fs: Seq<FileContext>, k: Seq<char>, config: RendererConfig) -> Seq<MessageView>
    decreases fs.len(),
{
    if fs.len() == 0 {
        Seq::empty()
    } else if package_output_path(texts(fs.last().package@), config) == k {
        messages_for(fs.drop_last(), k, config) + message_views(fs.last().messages@)
    } else {
        messages_for(fs.drop_last(), k, config)
    }
}

proof fn lemma_find_output_absent(g: Seq<OutputView>, k: Seq<char>)
    ensures
        find_output(g, k) < 0 <==> forall|i: int| 0 <= i < g.len() ==> (#[trigger] g[i]).0 != k,
    decreases g.len(),
{
    if g.len() > 0 {
        let dl = g.drop_last();
        lemma_find_output_absent(dl, k);
        if g.last().0 == k {
            assert(g[g.len() - 1].0 == k);
        } else {
            if forall|i: int| 0 <= i < dl.len() ==> (#[trigger] dl[i]).0 != k {
                assert forall|i: int| 0 <= i < g.len() implies (#[trigger] g[i]).0 != k by {
                    if i < g.len() - 1 {
                        assert(dl[i] == g[i]);
                    }
                }
            }
            if forall|i: int| 0 <= i < g.len() ==> (#[trigger] g[i]).0 != k {
                assert forall|i: int| 0 <= i < dl.len() implies (#[trigger] dl[i]).0 != k by {
                    assert(dl[i] == g[i]);
                }
            }
        }
    }
}

/// Merging files by package gives one output per distinct path, and each
/// holds exactly the messages of the files of that package, in the order of
/// the files, then of declaration. Taken over files sorted by path (as
/// `plan_packages` does), each merged output lists its package's messages in
/// lexicographic order of the input paths; files without a package share
/// the output named after the default package file name.
pub proof fn lemma_package_messages_in_file_order(fs: Seq<FileContext>, config: RendererConfig)
    ensures
        forall|i: int, j: int| 0 <= i < j < group_spec(fs, config).len() ==> (#[trigger] group_spec(fs, config)[i]).0 != (#[trigger] group_spec(fs, config)[j]).0,
        forall|i: int| 0 <= i < group_spec(fs, config).len() ==> (#[trigger] group_spec(fs, config)[i]).1 == messages_for(fs, group_spec(fs, config)[i].0, config),
        forall|k: Seq<char>| find_output(group_spec(fs, config), k) < 0 ==> #[trigger] messages_for(fs, k, config) == Seq::<MessageView>::empty(),
    decreases fs.len(),
{
    let g = group_spec(fs, config);
    if fs.len() == 0 {
        assert forall|k: Seq<char>| find_output(g, k) < 0 implies #[trigger] messages_for(fs, k, config) == Seq::<MessageView>::empty() by {}
    } else {
        let dl = fs.drop_last();
        lemma_package_messages_in_file_order(dl, config);
        let gp = group_spec(dl, config);
        let f = fs.last();
        let kf = package_output_path(texts(f.package@), config);
        let mv = message_views(f.messages@);
        let i0 = find_output(gp, kf);
        lemma_find_output_bounds(gp, kf);
        lemma_find_output_absent(gp, kf);
        if i0 < 0 {
            assert(g == gp.push((kf, mv)));
            assert(messages_for(dl, kf, config) == Seq::<MessageView>::empty());
            assert(messages_for(fs, kf, config) =~= mv);
            assert forall|i: int, j: int| 0 <= i < j < g.len() implies (#[trigger] g[i]).0 != (#[trigger] g[j]).0 by {
                if j == g.len() - 1 {
                    assert(gp[i].0 != kf);
                } else {
                    assert(g[i] == gp[i] && g[j] == gp[j]);
                }
            }
            assert forall|i: int| 0 <= i < g.len() implies (#[trigger] g[i]).1 == messages_for(fs, g[i].0, config) by {
                if i < g.len() - 1 {
                    assert(g[i] == gp[i]);
                    assert(gp[i].0 != kf);
                }
            }
            assert forall|k: Seq<char>| find_output(g, k) < 0 implies #[trigger] messages_for(fs, k, config) == Seq::<MessageView>::empty() by {
                lemma_find_output_absent(g, k);
                lemma_find_output_absent(gp, k);
                assert(g[g.len() - 1].0 == kf);
                assert(kf != k);
                assert forall|i: int| 0 <= i < gp.len() implies (#[trigger] gp[i]).0 != k by {
                    assert(g[i] == gp[i]);
                }
                assert(find_output(gp, k) < 0);
                assert(messages_for(dl, k, config) == Seq::<MessageView>::empty());
                assert(messages_for(fs, k, config) == messages_for(dl, k, config));
            }
        } else {
            assert(g == gp.update(i0, (kf, gp[i0].1 + mv)));
            assert forall|i: int, j: int| 0 <= i < j < g.len() implies (#[trigger] g[i]).0 != (#[trigger] g[j]).0 by {
                assert(g[i].0 == gp[i].0 && g[j].0 == gp[j].0);
            }
            assert forall|i: int| 0 <= i < g.len() implies (#[trigger] g[i]).1 == messages_for(fs, g[i].0, config) by {
                if i != i0 {
                    assert(g[i] == gp[i]);
                    assert(gp[i].0 != gp[i0].0);
                }
            }
            assert forall|k: Seq<char>| find_output(g, k) < 0 implies #[trigger] messages_for(fs, k, config) == Seq::<MessageView>::empty() by {
                lemma_find_output_absent(g, k);
                lemma_find_output_absent(gp, k);
                assert(g[i0].0 == kf);
                assert(kf != k);
                assert forall|i: int| 0 <= i < gp.len() implies (#[trigger] gp[i]).0 != k by {
                    assert(g[i].0 == gp[i].0);
                }
                assert(find_output(gp, k) < 0);
                assert(messages_for(dl, k, config) == Seq::<MessageView>::empty());
                assert(messages_for(fs, k, config) == messages_for(dl, k, config));
            }
        }
    }
}

} // verus!
