//! Sequences that are read piece by piece and may end in an error.

use vstd::prelude::*;

verus! {

/// What was read in all, where `head` was read first and `rest` came of reading on: `head`
/// followed by what `rest` holds, or the error of `rest`.
pub open spec fn behind<T, E>(head: Seq<T>, rest: Result<Seq<T>, E>) -> Result<Seq<T>, E> {
    match rest {
        Ok(items) => Ok(head + items),
        Err(e) => Err(e),
    }
}

/// Where nothing was read first, what was read in all is what came of reading on.
pub proof fn lemma_behind_nothing<T, E>(head: Seq<T>, rest: Result<Seq<T>, E>)
    requires
        head.len() == 0,
    ensures
        behind(head, rest) == rest,
{
    if let Ok(items) = rest {
        assert(head + items =~= items);
    }
}

/// Reading `a`, then `b`, then on is reading `a` followed by `b`, then on.
pub proof fn lemma_behind_twice<T, E>(a: Seq<T>, b: Seq<T>, rest: Result<Seq<T>, E>)
    ensures
        behind(a, behind(b, rest)) == behind(a + b, rest),
{
    if let Ok(items) = rest {
        assert(a + (b + items) =~= (a + b) + items);
    }
}

} // verus!
