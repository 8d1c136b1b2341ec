//! Searching a range of positions for the first that has a property.

use vstd::prelude::*;

verus! {

/// The least `i` in `0..n` for which `p` holds, or `n` when there is none.
pub open spec fn first_where(n: int, p: spec_fn(int) -> bool) -> int
    decreases n,
{
    if n <= 0 {
        0
    } else {
        let before = first_where(n - 1, p);
        if before < n - 1 {
            before
        } else if p(n - 1) {
            n - 1
        } else {
            n
        }
    }
}

pub proof fn lemma_first_where(n: int, p: spec_fn(int) -> bool)
    requires
        0 <= n,
    ensures
        0 <= first_where(n, p) <= n,
        first_where(n, p) < n ==> p(first_where(n, p)),
        forall|i: int| 0 <= i < first_where(n, p) ==> !#[trigger] p(i),
    decreases n,
{
    if n > 0 {
        lemma_first_where(n - 1, p);
    }
}

pub proof fn lemma_first_where_is(n: int, p: spec_fn(int) -> bool, at: int)
    requires
        0 <= at <= n,
        at < n ==> p(at),
        forall|i: int| 0 <= i < at ==> !#[trigger] p(i),
    ensures
        first_where(n, p) == at,
    decreases n,
{
    if n > 0 {
        lemma_first_where(n - 1, p);
        if at < n {
            lemma_first_where_is(n - 1, p, at);
        } else {
            lemma_first_where_is(n - 1, p, n - 1);
        }
    }
}

} // verus!
