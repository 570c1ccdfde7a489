use vstd::prelude::*;

use crate::context::{dedup, dedup_strings};
use crate::strings::texts;
use crate::paths::{entry_name_ok, file_name, file_name_of, is_entry_name, parent_of, parent_path, stem, stem_of};

verus! {

/// Why a path could not be registered.
#[derive(Clone, Copy, Debug, PartialEq, Eq, Structural)]
pub enum MetadataError {
    /// The path's last segment is empty, `.` or `..`.
    InvalidFileName,
}

/// What templates learn about one output directory: its path and its direct
/// children.
pub struct MetadataContext {
    directory: String,
    file_names: Vec<String>,
    file_names_with_ext: Vec<String>,
    subdirectories: Vec<String>,
}

/// `p` lies directly inside `dir`.
pub open spec fn is_direct_child_of(dir: Seq<char>, p: Seq<char>) -> bool {
    parent_path(p) == Some(dir)
}

impl MetadataContext {
    /// The relative path of the directory.
    pub closed spec fn spec_directory(&self) -> Seq<char> {
        self.directory@
    }

    /// Names of the direct-child files, without extensions.
    pub closed spec fn spec_file_names(&self) -> Seq<Seq<char>> {
        texts(self.file_names@)
    }

    /// Names of the direct-child files, with extensions.
    pub closed spec fn spec_file_names_with_ext(&self) -> Seq<Seq<char>> {
        texts(self.file_names_with_ext@)
    }

    /// Names of the direct-child directories.
    pub closed spec fn spec_subdirectories(&self) -> Seq<Seq<char>> {
        texts(self.subdirectories@)
    }

    /// A context for `directory` with no children yet.
    pub fn with_relative_dir(directory: &str) -> (r: MetadataContext)
        ensures
            r.spec_directory() == directory@,
            r.spec_file_names().len() == 0,
            r.spec_file_names_with_ext().len() == 0,
            r.spec_subdirectories().len() == 0,
    {
        MetadataContext {
            directory: String::from_str(directory),
            file_names: Vec::new(),
            file_names_with_ext: Vec::new(),
            subdirectories: Vec::new(),
        }
    }

    /// The relative path of the directory.
    pub fn relative_dir(&self) -> (r: &String)
        ensures
            r@ == self.spec_directory(),
    {
        &self.directory
    }

    /// Names of the direct-child files, without extensions.
    pub fn file_names(&self) -> (r: &Vec<String>)
        ensures
            texts(r@) == self.spec_file_names(),
    {
        &self.file_names
    }

    /// Names of the direct-child files, with extensions.
    pub fn file_names_with_ext(&self) -> (r: &Vec<String>)
        ensures
            texts(r@) == self.spec_file_names_with_ext(),
    {
        &self.file_names_with_ext
    }

    /// Names of the direct-child directories.
    pub fn subdirectories(&self) -> (r: &Vec<String>)
        ensures
            texts(r@) == self.spec_subdirectories(),
    {
        &self.subdirectories
    }

    /// Whether `path` lies directly inside this directory. A path without a
    /// parent lies inside none.
    pub fn is_direct_child(&self, path: &str) -> (r: bool)
        ensures
            r == is_direct_child_of(self.spec_directory(), path@),
    {
        match parent_of(path) {
            Some(parent) => parent == self.directory,
            None => false,
        }
    }

    /// Registers the file at `path` when it lies directly inside this
    /// directory, by its name with and without extension; any other path
    /// leaves the context as it was.
    pub fn push_file(&mut self, path: &str) -> (r: Result<(), MetadataError>)
        ensures
            final(self).spec_directory() == old(self).spec_directory(),
            final(self).spec_subdirectories() == old(self).spec_subdirectories(),
            is_direct_child_of(old(self).spec_directory(), path@) && is_entry_name(file_name_of(path@)) ==> {
                &&& r is Ok
                &&& final(self).spec_file_names_with_ext() == old(self).spec_file_names_with_ext().push(
                    file_name_of(path@),
                )
                &&& final(self).spec_file_names() == old(self).spec_file_names().push(
                    stem_of(file_name_of(path@)),
                )
            },
            is_direct_child_of(old(self).spec_directory(), path@) && !is_entry_name(file_name_of(path@)) ==> {
                &&& r == Err::<(), MetadataError>(MetadataError::InvalidFileName)
                &&& final(self).spec_file_names_with_ext() == old(self).spec_file_names_with_ext()
                &&& final(self).spec_file_names() == old(self).spec_file_names()
            },
            !is_direct_child_of(old(self).spec_directory(), path@) ==> {
                &&& r is Ok
                &&& final(self).spec_file_names_with_ext() == old(self).spec_file_names_with_ext()
                &&& final(self).spec_file_names() == old(self).spec_file_names()
            },
    {
        if self.is_direct_child(path) {
            let name = file_name(path);
            if !entry_name_ok(name.as_str()) {
                return Err(MetadataError::InvalidFileName);
            }
            let no_ext = stem(name.as_str());
            let ghost n = name@;
            let ghost e = no_ext@;
            self.file_names_with_ext.push(name);
            self.file_names.push(no_ext);
            proof {
                assert(texts(self.file_names_with_ext@) =~= texts(old(self).file_names_with_ext@).push(n));
                assert(texts(self.file_names@) =~= texts(old(self).file_names@).push(e));
            }
        }
        Ok(())
    }

    /// Registers the directory at `path` by its name when it lies directly
    /// inside this directory; any other path leaves the context as it was.
    pub fn push_subdirectory(&mut self, path: &str) -> (r: Result<(), MetadataError>)
        ensures
            final(self).spec_directory() == old(self).spec_directory(),
            final(self).spec_file_names() == old(self).spec_file_names(),
            final(self).spec_file_names_with_ext() == old(self).spec_file_names_with_ext(),
            is_direct_child_of(old(self).spec_directory(), path@) && is_entry_name(file_name_of(path@)) ==> {
                &&& r is Ok
                &&& final(self).spec_subdirectories() == old(self).spec_subdirectories().push(
                    file_name_of(path@),
                )
            },
            is_direct_child_of(old(self).spec_directory(), path@) && !is_entry_name(file_name_of(path@)) ==> {
                &&& r == Err::<(), MetadataError>(MetadataError::InvalidFileName)
                &&& final(self).spec_subdirectories() == old(self).spec_subdirectories()
            },
            !is_direct_child_of(old(self).spec_directory(), path@) ==> {
                &&& r is Ok
                &&& final(self).spec_subdirectories() == old(self).spec_subdirectories()
            },
    {
        if self.is_direct_child(path) {
            let name = file_name(path);
            if !entry_name_ok(name.as_str()) {
                return Err(MetadataError::InvalidFileName);
            }
            let ghost n = name@;
            self.subdirectories.push(name);
            proof {
                assert(texts(self.subdirectories@) =~= texts(old(self).subdirectories@).push(n));
            }
        }
        Ok(())
    }
}

/// Names of the entries of `ps` that lie directly inside `dir`, in order.
pub open spec fn child_names(dir: Seq<char>, ps: Seq<Seq<char>>) -> Seq<Seq<char>>
    decreases ps.len(),
{
    if ps.len() == 0 {
        Seq::empty()
    } else if is_direct_child_of(dir, ps.last()) {
        child_names(dir, ps.drop_last()).push(file_name_of(ps.last()))
    } else {
        child_names(dir, ps.drop_last())
    }
}

/// Every entry of `ps` that lies directly inside `dir` has a proper name.
pub open spec fn children_named(dir: Seq<char>, ps: Seq<Seq<char>>) -> bool {
    forall|i: int| 0 <= i < ps.len() && is_direct_child_of(dir, #[trigger] ps[i]) ==> is_entry_name(file_name_of(ps[i]))
}

/// The metadata of directory `dir`: the output files among `files` and the
/// directories among `subdirectories` that lie directly inside it. Fails
/// when one of those has no proper name.
pub fn directory_metadata(dir: &str, files: &Vec<String>, subdirectories: &Vec<String>) -> (r: Result<MetadataContext, MetadataError>)
    ensures
        r is Ok <==> children_named(dir@, texts(files@)) && children_named(dir@, texts(subdirectories@)),
        r matches Ok(m) ==> {
            &&& m.spec_directory() == dir@
            &&& m.spec_file_names_with_ext() == child_names(dir@, texts(files@))
            &&& m.spec_file_names() == child_names(dir@, texts(files@)).map_values(|n: Seq<char>| stem_of(n))
            &&& m.spec_subdirectories() == child_names(dir@, texts(subdirectories@))
        },
{
    let mut m = MetadataContext::with_relative_dir(dir);
    let ghost fs = texts(files@);
    let ghost ds = texts(subdirectories@);
    proof {
        assert(fs.subrange(0, 0) =~= Seq::<Seq<char>>::empty());
        assert(m.spec_file_names() =~= child_names(dir@, fs.subrange(0, 0)).map_values(|n: Seq<char>| stem_of(n)));
    }
    let mut i: usize = 0;
    while i < files.len()
        invariant
            i <= files@.len(),
            fs == texts(files@),
            m.spec_directory() == dir@,
            m.spec_subdirectories().len() == 0,
            children_named(dir@, fs.subrange(0, i as int)),
            m.spec_file_names_with_ext() == child_names(dir@, fs.subrange(0, i as int)),
            m.spec_file_names() == child_names(dir@, fs.subrange(0, i as int)).map_values(|n: Seq<char>| stem_of(n)),
        decreases files@.len() - i,
    {
        let ghost pre = fs.subrange(0, i + 1);
        proof {
            assert(pre.drop_last() =~= fs.subrange(0, i as int));
            assert(pre.last() == files@[i as int]@);
        }
        let ghost old_names = m.spec_file_names();
        match m.push_file(files[i].as_str()) {
            Err(e) => {
                proof {
                    assert(!children_named(dir@, fs)) by {
                        assert(fs[i as int] == files@[i as int]@);
                    }
                }
                return Err(e);
            },
            Ok(()) => {},
        }
        proof {
            assert(children_named(dir@, pre)) by {
                assert forall|k: int| 0 <= k < pre.len() && is_direct_child_of(dir@, #[trigger] pre[k]) implies is_entry_name(file_name_of(pre[k])) by {
                    if k < i {
                        assert(pre[k] == fs.subrange(0, i as int)[k]);
                    }
                }
            }
            assert(m.spec_file_names() =~= child_names(dir@, pre).map_values(|n: Seq<char>| stem_of(n)));
        }
        i = i + 1;
    }
    proof {
        assert(fs.subrange(0, fs.len() as int) =~= fs);
        assert(ds.subrange(0, 0) =~= Seq::<Seq<char>>::empty());
        assert(m.spec_subdirectories() =~= child_names(dir@, ds.subrange(0, 0)));
    }
    let mut j: usize = 0;
    while j < subdirectories.len()
        invariant
            j <= subdirectories@.len(),
            ds == texts(subdirectories@),
            m.spec_directory() == dir@,
            children_named(dir@, fs),
            m.spec_file_names_with_ext() == child_names(dir@, fs),
            m.spec_file_names() == child_names(dir@, fs).map_values(|n: Seq<char>| stem_of(n)),
            children_named(dir@, ds.subrange(0, j as int)),
            m.spec_subdirectories() == child_names(dir@, ds.subrange(0, j as int)),
        decreases subdirectories@.len() - j,
    {
        let ghost pre = ds.subrange(0, j + 1);
        proof {
            assert(pre.drop_last() =~= ds.subrange(0, j as int));
            assert(pre.last() == subdirectories@[j as int]@);
        }
        match m.push_subdirectory(subdirectories[j].as_str()) {
            Err(e) => {
                proof {
                    assert(!children_named(dir@, ds)) by {
                        assert(ds[j as int] == subdirectories@[j as int]@);
                    }
                }
                return Err(e);
            },
            Ok(()) => {},
        }
        proof {
            assert(children_named(dir@, pre)) by {
                assert forall|k: int| 0 <= k < pre.len() && is_direct_child_of(dir@, #[trigger] pre[k]) implies is_entry_name(file_name_of(pre[k])) by {
                    if k < j {
                        assert(pre[k] == ds.subrange(0, j as int)[k]);
                    }
                }
            }
        }
        j = j + 1;
    }
    proof {
        assert(ds.subrange(0, ds.len() as int) =~= ds);
    }
    Ok(m)
}

/// The directories that hold `p`, nearest first, up to the top.
pub open spec fn ancestors(p: Seq<char>) -> Seq<Seq<char>>
    decreases p.len(),
{
    match parent_path(p) {
        None => Seq::empty(),
        Some(q) => if q.len() < p.len() {
            seq![q] + ancestors(q)
        } else {
            Seq::empty()
        },
    }
}

/// The directories that hold any of `ps`, path after path.
pub open spec fn all_ancestors(ps: Seq<Seq<char>>) -> Seq<Seq<char>>
    decreases ps.len(),
{
    if ps.len() == 0 {
        Seq::empty()
    } else {
        all_ancestors(ps.drop_last()) + ancestors(ps.last())
    }
}

/// The output directories of the files at `ps`, each once, in order of
/// first appearance.
pub open spec fn output_directories(ps: Seq<Seq<char>>) -> Seq<Seq<char>> {
    dedup(all_ancestors(ps))
}

/// No two items of `s` are equal.
pub open spec fn no_repeats(s: Seq<Seq<char>>) -> bool {
    forall|i: int, j: int| 0 <= i < j < s.len() ==> #[trigger] s[i] != #[trigger] s[j]
}

proof fn lemma_dedup_no_repeats(s: Seq<Seq<char>>)
    ensures
        no_repeats(dedup(s)),
    decreases s.len(),
{
    if s.len() > 0 {
        lemma_dedup_no_repeats(s.drop_last());
        let d = dedup(s.drop_last());
        if !d.contains(s.last()) {
            let e = d.push(s.last());
            assert forall|i: int, j: int| 0 <= i < j < e.len() implies #[trigger] e[i] != #[trigger] e[j] by {
                if j == e.len() - 1 {
                    assert(e[i] == d[i]);
                } else {
                    assert(e[i] == d[i] && e[j] == d[j]);
                }
            }
        }
    }
}

proof fn lemma_parent_shorter(p: Seq<char>)
    ensures
        parent_path(p) matches Some(q) ==> q.len() < p.len(),
{
    crate::paths::lemma_last_index_bounds(p, '/');
}

/// The directories that hold `p`, nearest first.
pub fn ancestors_of(p: &str) -> (r: Vec<String>)
    ensures
        texts(r@) == ancestors(p@),
    decreases p@.len(),
{
    proof {
        lemma_parent_shorter(p@);
    }
    match parent_of(p) {
        None => Vec::new(),
        Some(q) => {
            let mut rest = ancestors_of(q.as_str());
            let mut v: Vec<String> = Vec::new();
            v.push(q);
            let ghost a = v@;
            let ghost b = rest@;
            v.append(&mut rest);
            proof {
                assert(texts(v@) =~= texts(a) + texts(b));
                assert(texts(a) =~= seq![parent_path(p@).unwrap()]);
            }
            v
        },
    }
}

/// The metadata of every output directory of the files at `paths`: the
/// directories, each once, and for each the metadata that
/// `directory_metadata` gives it, with the directories among them as the
/// candidate subdirectories.
pub fn plan_metadata(paths: &Vec<String>) -> (r: (Vec<String>, Vec<Result<MetadataContext, MetadataError>>))
    ensures
        texts(r.0@) == output_directories(texts(paths@)),
        no_repeats(texts(r.0@)),
        r.1@.len() == r.0@.len(),
        forall|i: int| 0 <= i < r.1@.len() ==> {
            let d = #[trigger] texts(r.0@)[i];
            let ds = texts(r.0@);
            &&& (r.1@[i] is Ok <==> children_named(d, texts(paths@)) && children_named(d, ds))
            &&& (r.1@[i] matches Ok(m) ==> {
                &&& m.spec_directory() == d
                &&& m.spec_file_names_with_ext() == child_names(d, texts(paths@))
                &&& m.spec_file_names() == child_names(d, texts(paths@)).map_values(|n: Seq<char>| stem_of(n))
                &&& m.spec_subdirectories() == child_names(d, ds)
            })
        },
{
    let ghost ps = texts(paths@);
    let mut all: Vec<String> = Vec::new();
    let mut i: usize = 0;
    proof {
        assert(ps.subrange(0, 0) =~= Seq::<Seq<char>>::empty());
        assert(texts(all@) =~= Seq::<Seq<char>>::empty());
    }
    while i < paths.len()
        invariant
            i <= paths@.len(),
            ps == texts(paths@),
            texts(all@) == all_ancestors(ps.subrange(0, i as int)),
        decreases paths@.len() - i,
    {
        let mut a = ancestors_of(paths[i].as_str());
        let ghost before = all@;
        let ghost av = a@;
        all.append(&mut a);
        proof {
            assert(texts(all@) =~= texts(before) + texts(av));
            assert(ps.subrange(0, i + 1).drop_last() =~= ps.subrange(0, i as int));
            assert(ps.subrange(0, i + 1).last() == paths@[i as int]@);
        }
        i = i + 1;
    }
    proof {
        assert(ps.subrange(0, ps.len() as int) =~= ps);
    }
    let dirs = dedup_strings(&all);
    proof {
        lemma_dedup_no_repeats(texts(all@));
    }
    let mut out: Vec<Result<MetadataContext, MetadataError>> = Vec::new();
    let mut j: usize = 0;
    while j < dirs.len()
        invariant
            j <= dirs@.len(),
            out@.len() == j,
            ps == texts(paths@),
            forall|k: int| 0 <= k < j ==> {
                let d = #[trigger] texts(dirs@)[k];
                let ds = texts(dirs@);
                &&& (out@[k] is Ok <==> children_named(d, ps) && children_named(d, ds))
                &&& (out@[k] matches Ok(m) ==> {
                    &&& m.spec_directory() == d
                    &&& m.spec_file_names_with_ext() == child_names(d, ps)
                    &&& m.spec_file_names() == child_names(d, ps).map_values(|n: Seq<char>| stem_of(n))
                    &&& m.spec_subdirectories() == child_names(d, ds)
                })
            },
        decreases dirs@.len() - j,
    {
        let m = directory_metadata(dirs[j].as_str(), paths, &dirs);
        proof {
            assert(texts(dirs@)[j as int] == dirs@[j as int]@);
        }
        out.push(m);
        j = j + 1;
    }
    (dirs, out)
}

} // verus!
