use vstd::prelude::*;

verus! {

/// One page of a result sequence: skip `offset` elements, yield at most
/// `limit`. A negative offset reads as 0 and a negative limit as an empty
/// page; an offset past the end gives an empty page.
pub open spec fn page<A>(s: Seq<A>, offset: int, limit: int) -> Seq<A> {
    let o = if offset < 0 {
        0
    } else if offset > s.len() {
        s.len() as int
    } else {
        offset
    };
    let e = if limit < 0 {
        o
    } else if o + limit > s.len() {
        s.len() as int
    } else {
        o + limit
    };
    s.subrange(o, e)
}

/// Adjacent pages concatenate to one page of the combined size: paging never
/// duplicates, drops or reorders elements.
pub proof fn lemma_page_concat<A>(s: Seq<A>, offset: int, l1: int, l2: int)
    requires
        offset >= 0,
        l1 >= 0,
        l2 >= 0,
    ensures
        page(s, offset, l1 + l2) == page(s, offset, l1) + page(s, offset + l1, l2),
{
    assert(page(s, offset, l1 + l2) =~= page(s, offset, l1) + page(s, offset + l1, l2));
}

/// Paging with offset 0 and a limit covering the whole sequence yields the
/// sequence itself.
pub proof fn lemma_page_all<A>(s: Seq<A>, limit: int)
    requires
        limit >= s.len(),
    ensures
        page(s, 0, limit) == s,
{
    assert(page(s, 0, limit) =~= s);
}

} // verus!
