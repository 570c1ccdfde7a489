use vstd::prelude::*;

verus! {

// Paths here are relative, in normal form: segments separated by '/', with no
// trailing separator.

/// Index of the last `c` in `p`, or -1 when there is none.
pub open spec fn last_index(p: Seq<char>, c: char) -> int
    decreases p.len(),
{
    if p.len() == 0 {
        -1
    } else if p.last() == c {
        p.len() - 1
    } else {
        last_index(p.drop_last(), c)
    }
}

/// The directory that holds `p`: everything before its last separator, or
/// the empty path for a single relative segment, or the root `/` for a
/// single absolute one. The empty path and the root have no parent.
pub open spec fn parent_path(p: Seq<char>) -> Option<Seq<char>> {
    if p.len() == 0 {
        None
    } else if last_index(p, '/') < 0 {
        Some(Seq::empty())
    } else if last_index(p, '/') == 0 {
        if p.len() == 1 {
            None
        } else {
            Some(seq!['/'])
        }
    } else {
        Some(p.subrange(0, last_index(p, '/')))
    }
}

/// The last segment of `p`.
pub open spec fn file_name_of(p: Seq<char>) -> Seq<char> {
    p.subrange(last_index(p, '/') + 1, p.len() as int)
}

/// A last segment that names an entry: not empty, `.` or `..`.
pub open spec fn is_entry_name(n: Seq<char>) -> bool {
    n.len() > 0 && n != seq!['.'] && n != seq!['.', '.']
}

/// `name` without its extension: everything before its last dot, unless
/// that dot is the first character.
pub open spec fn stem_of(name: Seq<char>) -> Seq<char> {
    if last_index(name, '.') > 0 {
        name.subrange(0, last_index(name, '.'))
    } else {
        name
    }
}

pub proof fn lemma_last_index_bounds(p: Seq<char>, c: char)
    ensures
        -1 <= last_index(p, c) < p.len(),
        last_index(p, c) >= 0 ==> p[last_index(p, c)] == c,
    decreases p.len(),
{
    if p.len() > 0 && p.last() != c {
        lemma_last_index_bounds(p.drop_last(), c);
    }
}

/// Index of the last `c` in `s`.
pub fn find_last(s: &str, c: char) -> (r: Option<usize>)
    ensures
        match r {
            Some(i) => last_index(s@, c) == i,
            None => last_index(s@, c) == -1,
        },
{
    let n = s.unicode_len();
    let mut i: usize = n;
    proof {
        assert(s@.subrange(0, n as int) =~= s@);
    }
    while i > 0
        invariant
            i <= n,
            n == s@.len(),
            last_index(s@, c) == last_index(s@.subrange(0, i as int), c),
        decreases i,
    {
        proof {
            assert(s@.subrange(0, i as int).drop_last() =~= s@.subrange(0, i - 1));
        }
        if s.get_char(i - 1) == c {
            return Some(i - 1);
        }
        i = i - 1;
    }
    None
}

/// The parent of `p`, if it has one.
pub fn parent_of(p: &str) -> (r: Option<String>)
    ensures
        match r {
            Some(q) => parent_path(p@) == Some(q@),
            None => parent_path(p@) is None,
        },
{
    if p.unicode_len() == 0 {
        return None;
    }
    proof {
        lemma_last_index_bounds(p@, '/');
    }
    match find_last(p, '/') {
        Some(i) => {
            if i == 0 {
                if p.unicode_len() == 1 {
                    None
                } else {
                    let r = String::from_str(p.substring_char(0, 1));
                    proof {
                        assert(r@ =~= seq!['/']);
                    }
                    Some(r)
                }
            } else {
                Some(String::from_str(p.substring_char(0, i)))
            }
        },
        None => Some(String::new()),
    }
}

/// The last segment of `p`.
pub fn file_name(p: &str) -> (r: String)
    ensures
        r@ == file_name_of(p@),
{
    let n = p.unicode_len();
    proof {
        lemma_last_index_bounds(p@, '/');
    }
    match find_last(p, '/') {
        Some(i) => String::from_str(p.substring_char(i + 1, n)),
        None => String::from_str(p.substring_char(0, n)),
    }
}

/// Whether `n` names an entry.
pub fn entry_name_ok(n: &str) -> (r: bool)
    ensures
        r == is_entry_name(n@),
{
    let len = n.unicode_len();
    if len == 0 {
        return false;
    }
    if len == 1 {
        let c = n.get_char(0);
        proof {
            assert(c == '.' ==> n@ =~= seq!['.']);
        }
        return c != '.';
    }
    if len == 2 {
        let a = n.get_char(0);
        let b = n.get_char(1);
        proof {
            assert(a == '.' && b == '.' ==> n@ =~= seq!['.', '.']);
        }
        return !(a == '.' && b == '.');
    }
    true
}

/// `name` without its extension.
pub fn stem(name: &str) -> (r: String)
    ensures
        r@ == stem_of(name@),
{
    proof {
        lemma_last_index_bounds(name@, '.');
    }
    match find_last(name, '.') {
        Some(i) => {
            if i > 0 {
                String::from_str(name.substring_char(0, i))
            } else {
                String::from_str(name)
            }
        },
        None => String::from_str(name),
    }
}

} // verus!
