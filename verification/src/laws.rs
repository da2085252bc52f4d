//! Properties that relate several runs of the pipeline.

use vstd::prelude::*;
use vstd::relations::sorted_by;
use vstd::seq_lib::group_to_multiset_ensures;
use vstd::seq_lib::lemma_sorted_unique;

use crate::entry::EntryModel;
use crate::order::entry_order;
use crate::order::lemma_entry_order_total;
use crate::paginate::page_len;
use crate::paginate::spec_list_dir;
use crate::paginate::sorted_entries;

verus! {

/// Sorting entries that already stand in order changes nothing: with this,
/// a caller that knows its entry sequence is sorted can read the rendered
/// window off [`spec_list_dir`] directly.
pub proof fn lemma_sorted_entries_of_sorted(s: Seq<EntryModel>)
    requires
        sorted_by(s, entry_order()),
    ensures
        sorted_entries(s) == s,
{
    broadcast use group_to_multiset_ensures;

    lemma_entry_order_total();
    s.lemma_sort_by_ensures(entry_order());
    lemma_sorted_unique(s.sort_by(entry_order()), s, entry_order());
}

/// A page asked for with a smaller limit is a prefix of the page asked for
/// with a larger one: the same ordinals map to the same lines, so a caller
/// can grow `limit` without re-shuffling what it already saw.  Success and
/// failure do not depend on the limit at all.
pub proof fn lemma_limit_monotone(entries: Seq<EntryModel>, offset: int, l1: int, l2: int)
    requires
        1 <= offset,
        1 <= l1 <= l2,
    ensures
        spec_list_dir(entries, offset, l1) is Ok <==> spec_list_dir(entries, offset, l2) is Ok,
        spec_list_dir(entries, offset, l1) is Err ==> spec_list_dir(entries, offset, l1)
            == spec_list_dir(entries, offset, l2),
        spec_list_dir(entries, offset, l1) is Ok ==> spec_list_dir(entries, offset, l1)->Ok_0
            == spec_list_dir(entries, offset, l2)->Ok_0.take(
            spec_list_dir(entries, offset, l1)->Ok_0.len() as int,
        ),
{
    if entries.len() == 0 {
        assert(spec_list_dir(entries, offset, l1)->Ok_0.take(0) =~= Seq::<Seq<u8>>::empty());
        assert(spec_list_dir(entries, offset, l2)->Ok_0.take(0) =~= Seq::<Seq<u8>>::empty());
    } else if offset > entries.len() {
    } else {
        let s = sorted_entries(entries);
        let p1 = spec_list_dir(entries, offset, l1)->Ok_0;
        let p2 = spec_list_dir(entries, offset, l2)->Ok_0;
        assert(page_len(s.len() as int, offset, l1) <= page_len(s.len() as int, offset, l2));
        assert(p1 =~= p2.take(p1.len() as int));
    }
}

/// The listing is a function of the collected entry multiset alone: two
/// traversals of an unmodified tree may discover the entries in different
/// orders, yet sort to the same sequence and render the same lines (or
/// fail with the same error).
pub proof fn lemma_multiset_determines_listing(
    a: Seq<EntryModel>,
    b: Seq<EntryModel>,
    offset: int,
    limit: int,
)
    requires
        a.to_multiset() == b.to_multiset(),
    ensures
        spec_list_dir(a, offset, limit) == spec_list_dir(b, offset, limit),
{
    broadcast use group_to_multiset_ensures;

    lemma_entry_order_total();
    a.lemma_sort_by_ensures(entry_order());
    b.lemma_sort_by_ensures(entry_order());
    assert(a.len() == a.to_multiset().len());
    assert(b.len() == b.to_multiset().len());
    lemma_sorted_unique(a.sort_by(entry_order()), b.sort_by(entry_order()), entry_order());
    assert(sorted_entries(a) == sorted_entries(b));
}

} // verus!
