//! Strings as character sequences, and paths joined from their parts.

use vstd::prelude::*;

verus! {

/// The character sequences of a list of strings.
pub open spec fn texts(strings: Seq<String>) -> Seq<Seq<char>> {
    Seq::new(strings.len(), |i: int| strings[i]@)
}

/// The parts of a path, in order, with a `/` between neighbours.
pub open spec fn joined(parts: Seq<Seq<char>>) -> Seq<char>
    decreases parts.len(),
{
    if parts.len() == 0 {
        Seq::empty()
    } else if parts.len() == 1 {
        parts[0]
    } else {
        joined(parts.drop_last()) + seq!['/'] + parts.last()
    }
}

/// Joins the parts of a path with `/`.
pub fn join_path(parts: &Vec<String>) -> (path: String)
    ensures
        path@ == joined(texts(parts@)),
{
    let mut path = String::new();
    let mut i: usize = 0;
    proof {
        assert(texts(parts@).take(0) =~= Seq::empty());
    }
    while i < parts.len()
        invariant
            i <= parts.len(),
            path@ == joined(texts(parts@).take(i as int)),
        decreases parts.len() - i,
    {
        proof {
            reveal_strlit("/");
            assert(texts(parts@).take(i + 1).drop_last() =~= texts(parts@).take(i as int));
            assert("/"@ =~= seq!['/']);
        }
        if i > 0 {
            path.append("/");
        }
        path.append(parts[i].as_str());
        proof {
            assert(i == 0 ==> path@ =~= parts@[i as int]@);
        }
        i += 1;
    }
    proof {
        assert(texts(parts@).take(i as int) =~= texts(parts@));
    }
    path
}

} // verus!
