use vstd::prelude::*;

use crate::strings::texts;

verus! {

/// `--arg=value`.
pub open spec fn arg_with_value_spec(arg: Seq<char>, value: Seq<char>) -> Seq<char> {
    "--"@ + arg + "="@ + value
}

/// The compiler argument that names the root of the schema files.
pub open spec fn proto_path_spec(input: Seq<char>) -> Seq<char> {
    arg_with_value_spec("proto_path"@, input)
}

/// `arg` without its first and last character.
pub open spec fn unquote_spec(arg: Seq<char>) -> Seq<char> {
    arg.subrange(1, arg.len() - 1)
}

/// Every argument has room for a pair of quotes.
pub open spec fn all_quoted(args: Seq<String>) -> bool {
    forall|i: int| 0 <= i < args.len() ==> #[trigger] args[i]@.len() >= 2
}

/// The text of each argument with its quotes removed.
pub open spec fn unquoted_all(args: Seq<String>) -> Seq<Seq<char>> {
    args.map_values(|s: String| unquote_spec(s@))
}

/// Whether every argument has room for a pair of quotes.
pub fn all_quoted_check(args: &Vec<String>) -> (r: bool)
    ensures
        r == all_quoted(args@),
{
    let mut i: usize = 0;
    while i < args.len()
        invariant
            i <= args@.len(),
            forall|k: int| 0 <= k < i ==> #[trigger] args@[k]@.len() >= 2,
        decreases args@.len() - i,
    {
        if args[i].as_str().unicode_len() < 2 {
            return false;
        }
        i = i + 1;
    }
    true
}

/// Removes the quotes around a pass-through compiler argument.
pub fn unquote_arg(arg: &str) -> (r: String)
    requires
        arg@.len() >= 2,
    ensures
        r@ == unquote_spec(arg@),
{
    let n = arg.unicode_len();
    String::from_str(arg.substring_char(1, n - 1))
}

/// The argument `--arg=value`.
pub fn arg_with_value(arg: &str, value: &str) -> (r: String)
    ensures
        r@ == arg_with_value_spec(arg@, value@),
{
    let mut r = String::from_str("--");
    r.append(arg);
    r.append("=");
    r.append(value);
    r
}

/// The compiler argument that names `input` as the root of the schema files.
pub fn proto_path_arg(input: &str) -> (r: String)
    ensures
        r@ == proto_path_spec(input@),
{
    arg_with_value("proto_path", input)
}

/// The extra compiler arguments, each with its quotes removed, in order.
pub fn collect_extra_protoc_args(extra: &Vec<String>) -> (r: Vec<String>)
    requires
        all_quoted(extra@),
    ensures
        texts(r@) == unquoted_all(extra@),
{
    let mut r: Vec<String> = Vec::new();
    let mut i: usize = 0;
    while i < extra.len()
        invariant
            i <= extra@.len(),
            all_quoted(extra@),
            texts(r@) == unquoted_all(extra@.subrange(0, i as int)),
        decreases extra@.len() - i,
    {
        let u = unquote_arg(extra[i].as_str());
        let ghost before = r@;
        r.push(u);
        proof {
            assert(texts(r@) =~= texts(before).push(u@));
            assert(unquoted_all(extra@.subrange(0, i + 1)) =~= unquoted_all(extra@.subrange(0, i as int)).push(
                unquote_spec(extra@[i as int]@),
            ));
        }
        i = i + 1;
    }
    proof {
        assert(extra@.subrange(0, extra@.len() as int) =~= extra@);
    }
    r
}

/// The arguments of one run of the schema compiler. Input files are kept
/// apart until the run, since they must come last.
pub struct Protoc {
    args: Vec<String>,
    input_files: Vec<String>,
    should_execute: bool,
}

impl Protoc {
    /// The arguments, input files excluded.
    pub closed spec fn spec_args(&self) -> Seq<Seq<char>> {
        texts(self.args@)
    }

    /// The input files.
    pub closed spec fn spec_input_files(&self) -> Seq<Seq<char>> {
        texts(self.input_files@)
    }

    /// Whether the compiler is to run.
    pub closed spec fn spec_should_execute(&self) -> bool {
        self.should_execute
    }

    /// A compiler run rooted at `proto_path`, with the quoted pass-through
    /// arguments `extra_protoc_args`, not yet flagged to run.
    pub fn new(proto_path: &str, extra_protoc_args: &Vec<String>) -> (r: Protoc)
        requires
            all_quoted(extra_protoc_args@),
        ensures
            r.spec_args() == seq![proto_path_spec(proto_path@)] + unquoted_all(extra_protoc_args@),
            r.spec_input_files().len() == 0,
            !r.spec_should_execute(),
    {
        let mut args: Vec<String> = Vec::new();
        args.push(proto_path_arg(proto_path));
        let mut extra = collect_extra_protoc_args(extra_protoc_args);
        let ghost first = args@;
        let ghost rest = extra@;
        args.append(&mut extra);
        proof {
            assert(texts(args@) =~= texts(first) + texts(rest));
            assert(texts(first) =~= seq![proto_path_spec(proto_path@)]);
        }
        Protoc { args, input_files: Vec::new(), should_execute: false }
    }

    /// Marks the compiler to run.
    pub fn flag_for_execution(&mut self)
        ensures
            final(self).spec_should_execute(),
            final(self).spec_args() == old(self).spec_args(),
            final(self).spec_input_files() == old(self).spec_input_files(),
    {
        self.should_execute = true;
    }

    /// Moves `args` to the end of the arguments.
    pub fn add_args(&mut self, args: &mut Vec<String>)
        ensures
            final(self).spec_args() == old(self).spec_args() + texts(old(args)@),
            final(args)@.len() == 0,
            final(self).spec_input_files() == old(self).spec_input_files(),
            final(self).spec_should_execute() == old(self).spec_should_execute(),
    {
        self.args.append(args);
        proof {
            assert(texts(self.args@) =~= texts(old(self).args@) + texts(old(args)@));
        }
    }

    /// Moves `input_files` to the end of the input files.
    pub fn add_input_files(&mut self, input_files: &mut Vec<String>)
        ensures
            final(self).spec_input_files() == old(self).spec_input_files() + texts(old(input_files)@),
            final(input_files)@.len() == 0,
            final(self).spec_args() == old(self).spec_args(),
            final(self).spec_should_execute() == old(self).spec_should_execute(),
    {
        self.input_files.append(input_files);
        proof {
            assert(texts(self.input_files@) =~= texts(old(self).input_files@) + texts(
                old(input_files)@,
            ));
        }
    }

    /// The input files.
    pub fn input_files(&self) -> (r: &Vec<String>)
        ensures
            texts(r@) == self.spec_input_files(),
    {
        &self.input_files
    }

    /// The arguments, input files excluded.
    pub fn args(&self) -> (r: &Vec<String>)
        ensures
            texts(r@) == self.spec_args(),
    {
        &self.args
    }

    /// The full command line of the run, input files last, or `None` when
    /// the compiler is not flagged to run.
    pub fn execution_args(&self) -> (r: Option<Vec<String>>)
        ensures
            match r {
                Some(v) => self.spec_should_execute() && texts(v@) == self.spec_args() + self.spec_input_files(),
                None => !self.spec_should_execute(),
            },
    {
        if !self.should_execute {
            return None;
        }
        let mut all = self.args.clone();
        let mut files = self.input_files.clone();
        proof {
            assert(all@ =~= self.args@);
            assert(files@ =~= self.input_files@);
        }
        let ghost a = all@;
        let ghost f = files@;
        all.append(&mut files);
        proof {
            assert(texts(all@) =~= texts(a) + texts(f));
        }
        Some(all)
    }
}

} // verus!
