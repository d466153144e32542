//! Collecting a directory listing from per-entry enumeration results.
//!
//! Enumerating a directory yields one result per entry, and an entry
//! can fail individually (a permission change or a race while the
//! directory is read).  A failed entry is dropped and enumeration goes
//! on; the listing holds exactly the readable entries' paths, in
//! enumeration order.  No entry is fabricated.

use vstd::prelude::*;

verus! {

use crate::prefix::clone_bytes;

/// The paths of the readable entries, in enumeration order; a `None`
/// stands for an entry that failed to be read and is dropped.
pub open spec fn kept_entries(entries: Seq<Option<Seq<u8>>>) -> Seq<Seq<u8>>
    decreases entries.len(),
{
    if entries.len() == 0 {
        Seq::empty()
    } else {
        let rest = kept_entries(entries.drop_last());
        match entries.last() {
            Some(p) => rest.push(p),
            None => rest,
        }
    }
}

/// Builds the listing out of per-entry results: each readable entry's
/// path is kept in order, each failed entry is skipped.
pub fn collect_entries(entries: &Vec<Option<Vec<u8>>>) -> (r: Vec<Vec<u8>>)
    ensures
        r.deep_view() == kept_entries(entries.deep_view()),
{
    let mut r: Vec<Vec<u8>> = Vec::new();
    let mut i: usize = 0;
    while i < entries.len()
        invariant
            i <= entries@.len(),
            r.deep_view() == kept_entries(entries.deep_view().take(i as int)),
        decreases entries@.len() - i,
    {
        let ghost prev = r.deep_view();
        match &entries[i] {
            Some(p) => {
                r.push(clone_bytes(p));
            },
            None => {},
        }
        proof {
            let es = entries.deep_view();
            let step = es.take(i as int + 1);
            assert(step.drop_last() =~= es.take(i as int));
            assert(step.last() == es[i as int]);
            assert(es[i as int] == entries@[i as int].deep_view());
            match entries@[i as int] {
                Some(p) => {
                    assert(r.deep_view() =~= prev.push(p.deep_view()));
                },
                None => {
                    assert(r.deep_view() =~= prev);
                },
            }
        }
        i += 1;
    }
    proof {
        assert(entries.deep_view().take(entries@.len() as int) =~= entries.deep_view());
    }
    r
}

/// No entry is fabricated and none is lost: when every entry of the
/// enumeration is readable, the listing holds exactly their paths.
pub proof fn lemma_all_readable_entries_kept(entries: Seq<Option<Seq<u8>>>)
    requires
        forall|i: int| 0 <= i < entries.len() ==> (#[trigger] entries[i]) is Some,
    ensures
        kept_entries(entries) == entries.map_values(|e: Option<Seq<u8>>| e->Some_0),
    decreases entries.len(),
{
    let mapped = entries.map_values(|e: Option<Seq<u8>>| e->Some_0);
    if entries.len() == 0 {
        assert(kept_entries(entries) =~= mapped);
    } else {
        let front = entries.drop_last();
        assert(forall|i: int| 0 <= i < front.len() ==> (#[trigger] front[i]) == entries[i]);
        lemma_all_readable_entries_kept(front);
        assert(kept_entries(entries) =~= mapped);
    }
}

/// Listing is idempotent: two collections over the same enumeration
/// results yield the same listing.
pub proof fn lemma_listing_idempotent(
    entries: Seq<Option<Seq<u8>>>,
    first: Seq<Seq<u8>>,
    second: Seq<Seq<u8>>,
)
    requires
        first == kept_entries(entries),
        second == kept_entries(entries),
    ensures
        first == second,
{
}

} // verus!
