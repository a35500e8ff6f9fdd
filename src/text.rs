//! Small helpers on strings and lists of names.
use vstd::prelude::*;

verus! {

/// The names held by a sequence of strings.
pub open spec fn names_view(v: Seq<String>) -> Seq<Seq<char>> {
    v.map_values(|s: String| s@)
}

/// Dropping the last name drops the last string.
pub proof fn lemma_names_drop_last(v: Seq<String>)
    requires
        v.len() > 0,
    ensures
        names_view(v.drop_last()) == names_view(v).drop_last(),
{
    assert(names_view(v.drop_last()) =~= names_view(v).drop_last());
}

/// Copies a list of names.
pub fn copy_names(v: &Vec<String>) -> (r: Vec<String>)
    ensures
        names_view(r@) == names_view(v@),
{
    let mut r: Vec<String> = Vec::new();
    let mut i: usize = 0;
    while i < v.len()
        invariant
            i <= v.len(),
            r@.len() == i,
            forall|k: int| 0 <= k < i ==> #[trigger] r@[k]@ == v@[k]@,
        decreases v.len() - i,
    {
        r.push(v[i].clone());
        i += 1;
    }
    proof {
        assert(names_view(r@) =~= names_view(v@));
    }
    r
}

/// The text of an optional string.
pub open spec fn opt_view(s: Option<String>) -> Option<Seq<char>> {
    match s {
        Some(t) => Some(t@),
        None => None,
    }
}

/// The names joined by `sep`.
pub open spec fn join(names: Seq<Seq<char>>, sep: Seq<char>) -> Seq<char>
    decreases names.len(),
{
    if names.len() == 0 {
        seq![]
    } else if names.len() == 1 {
        names[0]
    } else {
        join(names.drop_last(), sep) + sep + names.last()
    }
}

/// Appends the names, joined by `sep`, to `out`.
pub fn push_joined(out: &mut String, names: &Vec<String>, sep: &str)
    ensures
        final(out)@ == old(out)@ + join(names_view(names@), sep@),
{
    let ghost start = out@;
    let mut i: usize = 0;
    proof {
        assert(names_view(names@).subrange(0, 0) =~= seq![]);
        assert(start + seq![] =~= start);
    }
    while i < names.len()
        invariant
            i <= names@.len(),
            out@ == start + join(names_view(names@).subrange(0, i as int), sep@),
        decreases names.len() - i,
    {
        proof {
            let s = names_view(names@).subrange(0, i + 1);
            assert(s.drop_last() =~= names_view(names@).subrange(0, i as int));
            assert(s.last() == names@[i as int]@);
            if i == 0 {
                assert(s[0] == names@[0]@);
            }
        }
        if i > 0 {
            out.append(sep);
        }
        out.append(names[i].as_str());
        proof {
            assert(out@ =~= start + join(names_view(names@).subrange(0, i + 1), sep@));
        }
        i += 1;
    }
    proof {
        assert(names_view(names@).subrange(0, names@.len() as int) =~= names_view(names@));
    }
}

/// Whether two strings hold the same text.
pub fn text_eq(a: &str, b: &str) -> (r: bool)
    ensures
        r == (a@ == b@),
{
    let x = a.to_string();
    let y = b.to_string();
    x == y
}

} // verus!
