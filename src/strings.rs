use vstd::prelude::*;

verus! {

/// The text of each string in `v`.
pub open spec fn texts(v: Seq<String>) -> Seq<Seq<char>> {
    v.map_values(|s: String| s@)
}

/// Joins `segs` with `sep` between consecutive segments.
pub open spec fn join(segs: Seq<Seq<char>>, sep: Seq<char>) -> Seq<char>
    decreases segs.len(),
{
    if segs.len() == 0 {
        Seq::empty()
    } else if segs.len() == 1 {
        segs[0]
    } else {
        join(segs.drop_last(), sep) + sep + segs.last()
    }
}

/// Joins the segments of `segs` with `sep`.
pub fn join_strings(segs: &Vec<String>, sep: &str) -> (r: String)
    ensures
        r@ == join(texts(segs@), sep@),
{
    let mut r = String::new();
    let mut i: usize = 0;
    while i < segs.len()
        invariant
            i <= segs@.len(),
            r@ == join(texts(segs@.subrange(0, i as int)), sep@),
        decreases segs@.len() - i,
    {
        let ghost prev = texts(segs@.subrange(0, i as int));
        if i > 0 {
            r.append(sep);
        }
        r.append(segs[i].as_str());
        i = i + 1;
        proof {
            let cur = texts(segs@.subrange(0, i as int));
            assert(cur.drop_last() =~= prev);
        }
    }
    proof {
        assert(segs@.subrange(0, segs@.len() as int) =~= segs@);
    }
    r
}

} // verus!
