//! Byte-level, truncating prefix matching and candidate filtering.
//!
//! A candidate path matches a query when no byte differs within the
//! overlapping length of the two sequences.  The comparison deliberately
//! truncates: a candidate shorter than the query still matches as long
//! as no byte of the overlap disagrees.

use vstd::prelude::*;

verus! {

/// The query matches the candidate when no mismatching byte occurs
/// within the shorter sequence's length, regardless of which of the
/// two is longer.
pub open spec fn overlap_matches(query: Seq<u8>, candidate: Seq<u8>) -> bool {
    forall|i: int|
        0 <= i < query.len() && i < candidate.len() ==> query[i] == candidate[i]
}

/// The query is a true byte prefix of the candidate.
pub open spec fn extends_query(query: Seq<u8>, candidate: Seq<u8>) -> bool {
    query.len() <= candidate.len() && candidate.take(query.len() as int) == query
}

/// The children whose bytes match the query over the overlapping length,
/// in enumeration order.
pub open spec fn matching_paths(query: Seq<u8>, children: Seq<Seq<u8>>) -> Seq<Seq<u8>> {
    children.filter(|c: Seq<u8>| overlap_matches(query, c))
}

/// Checks whether `base`'s bytes match `path`'s bytes over the
/// overlapping length, comparing byte by byte and ignoring whatever
/// remains of the longer sequence.
pub fn starts_with_incomplete(path: &Vec<u8>, base: &Vec<u8>) -> (r: bool)
    ensures
        r == overlap_matches(base@, path@),
{
    let n: usize = if base.len() < path.len() {
        base.len()
    } else {
        path.len()
    };
    let mut i: usize = 0;
    while i < n
        invariant
            i <= n,
            n == if base@.len() < path@.len() {
                base@.len()
            } else {
                path@.len()
            },
            forall|j: int| 0 <= j < i ==> base@[j] == path@[j],
        decreases n - i,
    {
        if base[i] != path[i] {
            return false;
        }
        i += 1;
    }
    true
}

/// Copies a byte vector; the copy holds exactly the same bytes.
pub(crate) fn clone_bytes(v: &Vec<u8>) -> (r: Vec<u8>)
    ensures
        r@ == v@,
{
    let r = v.clone();
    proof {
        assert(r@ =~= v@);
    }
    r
}

/// Keeps exactly the children whose bytes match the query over the
/// overlapping length, in their original order.
pub fn filter_matching(query: &Vec<u8>, children: &Vec<Vec<u8>>) -> (r: Vec<Vec<u8>>)
    ensures
        r.deep_view() == matching_paths(query@, children.deep_view()),
{
    let ghost pred = |c: Seq<u8>| overlap_matches(query@, c);
    let mut r: Vec<Vec<u8>> = Vec::new();
    let mut i: usize = 0;
    while i < children.len()
        invariant
            i <= children@.len(),
            r.deep_view() == children.deep_view().take(i as int).filter(pred),
            pred == (|c: Seq<u8>| overlap_matches(query@, c)),
        decreases children@.len() - i,
    {
        let ghost prev = r.deep_view();
        let child = &children[i];
        let keep = starts_with_incomplete(child, query);
        if keep {
            r.push(clone_bytes(child));
        }
        proof {
            let cs = children.deep_view();
            let step = cs.take(i as int + 1);
            assert(step.drop_last() =~= cs.take(i as int));
            assert(step.last() == cs[i as int]);
            assert(cs[i as int] =~= child@);
            reveal(Seq::filter);
            if keep {
                assert(r.deep_view() =~= prev.push(cs[i as int]));
                assert(step.filter(pred) == step.drop_last().filter(pred).push(step.last()));
            } else {
                assert(r.deep_view() =~= prev);
                assert(step.filter(pred) == step.drop_last().filter(pred));
            }
        }
        i += 1;
    }
    proof {
        assert(children.deep_view().take(children@.len() as int) =~= children.deep_view());
    }
    r
}

/// A filter whose predicate holds of every element keeps the sequence
/// unchanged.
proof fn lemma_filter_retains_all(s: Seq<Seq<u8>>, pred: spec_fn(Seq<u8>) -> bool)
    requires
        forall|i: int| 0 <= i < s.len() ==> pred(#[trigger] s[i]),
    ensures
        s.filter(pred) == s,
    decreases s.len(),
{
    reveal(Seq::filter);
    if s.len() == 0 {
        assert(s.filter(pred) =~= s);
    } else {
        let front = s.drop_last();
        assert(forall|i: int| 0 <= i < front.len() ==> (#[trigger] front[i]) == s[i]);
        lemma_filter_retains_all(front, pred);
        assert(s.filter(pred) =~= s);
    }
}

/// A query that is a true byte prefix of a candidate matches it over
/// the overlapping length.
pub proof fn lemma_extension_matches(query: Seq<u8>, candidate: Seq<u8>)
    requires
        extends_query(query, candidate),
    ensures
        overlap_matches(query, candidate),
{
    assert forall|i: int| 0 <= i < query.len() && i < candidate.len() implies query[i]
        == candidate[i] by {
        assert(candidate.take(query.len() as int)[i] == candidate[i]);
    }
}

/// When every child of the anchor directory literally extends the
/// query — as the children of the very directory the query names do —
/// filtering drops nothing: autocompletion returns the full listing.
pub proof fn lemma_full_listing_when_children_extend(query: Seq<u8>, children: Seq<Seq<u8>>)
    requires
        forall|i: int| 0 <= i < children.len() ==> extends_query(query, #[trigger] children[i]),
    ensures
        matching_paths(query, children) == children,
{
    let pred = |c: Seq<u8>| overlap_matches(query, c);
    assert forall|i: int| 0 <= i < children.len() implies pred(#[trigger] children[i]) by {
        lemma_extension_matches(query, children[i]);
    }
    lemma_filter_retains_all(children, pred);
}

/// An empty query matches every candidate trivially: filtering against
/// it keeps the whole listing.
pub proof fn lemma_empty_query_keeps_all(children: Seq<Seq<u8>>)
    ensures
        matching_paths(Seq::empty(), children) == children,
{
    let pred = |c: Seq<u8>| overlap_matches(Seq::<u8>::empty(), c);
    lemma_filter_retains_all(children, pred);
}

/// Every candidate that the filter returns agrees with the query
/// byte for byte over their overlapping length.
pub proof fn lemma_candidates_overlap_query(query: Seq<u8>, children: Seq<Seq<u8>>)
    ensures
        forall|i: int|
            0 <= i < matching_paths(query, children).len() ==> overlap_matches(
                query,
                #[trigger] matching_paths(query, children)[i],
            ),
{
    let pred = |c: Seq<u8>| overlap_matches(query, c);
    assert forall|i: int| 0 <= i < matching_paths(query, children).len() implies overlap_matches(
        query,
        #[trigger] matching_paths(query, children)[i],
    ) by {
        children.lemma_filter_pred(pred, i);
    }
}

/// Autocompletion is idempotent: two computations over the same query
/// and the same directory contents yield the same candidates.
pub proof fn lemma_autocomplete_idempotent(
    query: Seq<u8>,
    children: Seq<Seq<u8>>,
    first: Seq<Seq<u8>>,
    second: Seq<Seq<u8>>,
)
    requires
        first == matching_paths(query, children),
        second == matching_paths(query, children),
    ensures
        first == second,
{
}

} // verus!
