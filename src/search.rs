use vstd::prelude::*;

verus! {

/// The least index `i` with `lo <= i < hi` at which `p` holds, if any.
pub open spec fn first_where(lo: int, hi: int, p: spec_fn(int) -> bool) -> Option<int>
    decreases hi - lo,
{
    if lo >= hi {
        None
    } else if p(lo) {
        Some(lo)
    } else {
        first_where(lo + 1, hi, p)
    }
}

/// What `first_where` returns: an index where `p` holds and before which it
/// does not, or nothing when `p` holds nowhere in the range.
pub proof fn lemma_first_where(lo: int, hi: int, p: spec_fn(int) -> bool)
    ensures
        match first_where(lo, hi, p) {
            Some(i) => lo <= i < hi && p(i) && forall|j: int| lo <= j < i ==> !#[trigger] p(j),
            None => forall|j: int| lo <= j < hi ==> !#[trigger] p(j),
        },
    decreases hi - lo,
{
    if lo < hi && !p(lo) {
        lemma_first_where(lo + 1, hi, p);
    }
}

/// An index where `p` holds and before which it does not is the one that
/// `first_where` returns.
pub proof fn lemma_first_where_at(lo: int, hi: int, p: spec_fn(int) -> bool, i: int)
    requires
        lo <= i < hi,
        p(i),
        forall|j: int| lo <= j < i ==> !#[trigger] p(j),
    ensures
        first_where(lo, hi, p) == Some(i),
    decreases hi - lo,
{
    if lo < i {
        lemma_first_where_at(lo + 1, hi, p, i);
    }
}

} // verus!
