//! Deterministic ordering of the collected entries.
//!
//! Entries are sorted by their relative path, byte-wise lexicographically;
//! the entry kind breaks ties so that the order is total on entry values.
//! The executable sort is proved to return exactly the mathematical
//! [`Seq::sort_by`] of its input under this order, which makes the listing a
//! pure function of the collected entry multiset.

use vstd::prelude::*;
use vstd::relations::sorted_by;
use vstd::relations::total_ordering;
use vstd::seq_lib::lemma_sorted_unique;
use vstd::seq_lib::group_to_multiset_ensures;

use crate::entry::DirEntry;
use crate::entry::EntryModel;
use crate::kind::DirEntryKind;

verus! {

/// Byte-wise lexicographic `<=` on names.
pub open spec fn lex_le(a: Seq<u8>, b: Seq<u8>) -> bool
    decreases a.len(),
{
    if a.len() == 0 {
        true
    } else if b.len() == 0 {
        false
    } else if a[0] < b[0] {
        true
    } else if a[0] > b[0] {
        false
    } else {
        lex_le(a.drop_first(), b.drop_first())
    }
}

/// Rank used only to break ties between entries of equal name, so that the
/// entry order is total.  Two entries of equal name never arise from one
/// traversal, since filesystem paths are unique.
pub open spec fn kind_rank(k: DirEntryKind) -> int {
    match k {
        DirEntryKind::Directory => 0,
        DirEntryKind::File => 1,
        DirEntryKind::Symlink => 2,
        DirEntryKind::Other => 3,
    }
}

/// Total order on entries: by name, byte-wise lexicographically; ties on the
/// name are broken by the kind.
pub open spec fn entry_le(a: EntryModel, b: EntryModel) -> bool {
    if a.name == b.name {
        kind_rank(a.kind) <= kind_rank(b.kind)
    } else {
        lex_le(a.name, b.name)
    }
}

/// [`entry_le`] as a relation value, for use with `sort_by` and `sorted_by`.
pub open spec fn entry_order() -> spec_fn(EntryModel, EntryModel) -> bool {
    |a: EntryModel, b: EntryModel| entry_le(a, b)
}

proof fn lemma_lex_le_total(a: Seq<u8>, b: Seq<u8>)
    ensures
        lex_le(a, b) || lex_le(b, a),
    decreases a.len(),
{
    if a.len() > 0 && b.len() > 0 && a[0] == b[0] {
        lemma_lex_le_total(a.drop_first(), b.drop_first());
    }
}

proof fn lemma_lex_le_antisymmetric(a: Seq<u8>, b: Seq<u8>)
    requires
        lex_le(a, b),
        lex_le(b, a),
    ensures
        a == b,
    decreases a.len(),
{
    if a.len() == 0 {
        assert(b.len() == 0);
        assert(a =~= b);
    } else {
        assert(b.len() > 0);
        assert(a[0] == b[0]);
        lemma_lex_le_antisymmetric(a.drop_first(), b.drop_first());
        assert forall|i: int| 0 <= i < a.len() implies a[i] == b[i] by {
            if i > 0 {
                assert(a[i] == a.drop_first()[i - 1]);
                assert(b[i] == b.drop_first()[i - 1]);
            }
        }
        assert(a =~= b);
    }
}

proof fn lemma_lex_le_transitive(a: Seq<u8>, b: Seq<u8>, c: Seq<u8>)
    requires
        lex_le(a, b),
        lex_le(b, c),
    ensures
        lex_le(a, c),
    decreases a.len(),
{
    if a.len() > 0 {
        assert(b.len() > 0);
        assert(c.len() > 0);
        if a[0] == b[0] && b[0] == c[0] {
            lemma_lex_le_transitive(a.drop_first(), b.drop_first(), c.drop_first());
        }
    }
}

/// The entry order is reflexive, antisymmetric, transitive and strongly
/// connected: a total order, as `sort_by` requires.
pub proof fn lemma_entry_order_total()
    ensures
        total_ordering(entry_order()),
{
    let leq = entry_order();
    assert forall|x: EntryModel| #[trigger] leq(x, x) by {
        lemma_lex_le_total(x.name, x.name);
    }
    assert forall|x: EntryModel, y: EntryModel| #[trigger] leq(x, y) && #[trigger] leq(y, x)
        implies x == y by {
        if x.name == y.name {
            assert(kind_rank(x.kind) == kind_rank(y.kind));
            assert(x.kind == y.kind);
            assert(x =~= y);
        } else {
            lemma_lex_le_antisymmetric(x.name, y.name);
        }
    }
    assert forall|x: EntryModel, y: EntryModel, z: EntryModel|
        #[trigger] leq(x, y) && #[trigger] leq(y, z) implies leq(x, z) by {
        if x.name == y.name && y.name == z.name {
        } else if x.name == y.name {
            assert(lex_le(x.name, z.name));
        } else if y.name == z.name {
            assert(lex_le(x.name, z.name));
        } else {
            lemma_lex_le_transitive(x.name, y.name, z.name);
            if x.name == z.name {
                lemma_lex_le_antisymmetric(x.name, y.name);
                assert(false);
            }
        }
    }
    assert forall|x: EntryModel, y: EntryModel| #[trigger] leq(x, y) || #[trigger] leq(y, x) by {
        if x.name == y.name {
        } else {
            lemma_lex_le_total(x.name, y.name);
        }
    }
}

proof fn lemma_lex_le_skip(a: Seq<u8>, b: Seq<u8>, i: int)
    requires
        0 <= i <= a.len(),
        i <= b.len(),
        forall|j: int| 0 <= j < i ==> a[j] == b[j],
    ensures
        lex_le(a, b) == lex_le(a.skip(i), b.skip(i)),
    decreases i,
{
    if i == 0 {
        assert(a.skip(0) =~= a);
        assert(b.skip(0) =~= b);
    } else {
        assert(a[0] == b[0]);
        assert forall|j: int| 0 <= j < i - 1 implies a.drop_first()[j] == b.drop_first()[j] by {
            assert(a.drop_first()[j] == a[j + 1]);
            assert(b.drop_first()[j] == b[j + 1]);
        }
        lemma_lex_le_skip(a.drop_first(), b.drop_first(), i - 1);
        assert(a.drop_first().skip(i - 1) =~= a.skip(i));
        assert(b.drop_first().skip(i - 1) =~= b.skip(i));
    }
}

/// Rank used to break ties between entries of equal name, as a machine value.
pub fn kind_rank_exec(k: DirEntryKind) -> (r: u8)
    ensures
        r as int == kind_rank(k),
{
    match k {
        DirEntryKind::Directory => 0,
        DirEntryKind::File => 1,
        DirEntryKind::Symlink => 2,
        DirEntryKind::Other => 3,
    }
}

/// Decides [`entry_le`] on two entries.
pub fn entry_le_exec(a: &DirEntry, b: &DirEntry) -> (r: bool)
    ensures
        r == entry_le(a@, b@),
{
    let alen = a.name.len();
    let blen = b.name.len();
    let shorter = if alen < blen {
        alen
    } else {
        blen
    };
    let mut i: usize = 0;
    while i < shorter
        invariant
            0 <= i <= shorter,
            shorter <= a.name@.len(),
            shorter <= b.name@.len(),
            shorter == alen || shorter == blen,
            alen == a.name@.len(),
            blen == b.name@.len(),
            forall|j: int| 0 <= j < i ==> a.name@[j] == b.name@[j],
        decreases shorter - i,
    {
        let x = a.name[i];
        let y = b.name[i];
        if x != y {
            proof {
                lemma_lex_le_skip(a.name@, b.name@, i as int);
                assert(a.name@.skip(i as int)[0] == x);
                assert(b.name@.skip(i as int)[0] == y);
                assert(a.name@ != b.name@);
            }
            return x < y;
        }
        i = i + 1;
    }
    proof {
        lemma_lex_le_skip(a.name@, b.name@, shorter as int);
    }
    if alen == blen {
        proof {
            assert(a.name@ =~= b.name@);
        }
        kind_rank_exec(a.kind) <= kind_rank_exec(b.kind)
    } else if alen < blen {
        proof {
            assert(a.name@.skip(shorter as int).len() == 0);
            assert(a.name@.len() != b.name@.len());
            assert(a.name@ != b.name@);
        }
        true
    } else {
        proof {
            assert(b.name@.skip(shorter as int).len() == 0);
            assert(a.name@.skip(shorter as int).len() > 0);
            assert(a.name@ != b.name@);
        }
        false
    }
}

/// Sorts the collected entries into the order of [`entry_order`].  The
/// result is exactly the mathematical sort of the input, so any two inputs
/// holding the same entries in any order sort to the same sequence.
#[verifier::loop_isolation(false)]
pub fn sort_entries(entries: Vec<DirEntry>) -> (r: Vec<DirEntry>)
    ensures
        r.deep_view() == entries.deep_view().sort_by(entry_order()),
        r.deep_view().to_multiset() == entries.deep_view().to_multiset(),
        r@.len() == entries@.len(),
        sorted_by(r.deep_view(), entry_order()),
{
    broadcast use group_to_multiset_ensures;
    broadcast use vstd::multiset::group_multiset_axioms;

    let ghost full = entries.deep_view();
    proof {
        lemma_entry_order_total();
    }
    let mut rest = entries;
    let mut out: Vec<DirEntry> = Vec::new();
    while rest.len() > 0
        invariant
            total_ordering(entry_order()),
            sorted_by(out.deep_view(), entry_order()),
            out.deep_view().to_multiset().add(rest.deep_view().to_multiset())
                == full.to_multiset(),
            out@.len() + rest@.len() == full.len(),
        decreases rest@.len(),
    {
        let ghost rest_before = rest.deep_view();
        let e = rest.pop().unwrap();
        let ghost ev = e@;
        proof {
            assert(rest_before =~= rest.deep_view().push(ev));
            assert(rest.deep_view().push(ev).to_multiset()
                =~= rest.deep_view().to_multiset().insert(ev));
            assert(rest_before.to_multiset() == rest.deep_view().to_multiset().insert(ev));
        }
        let mut p: usize = 0;
        while p < out.len() && !entry_le_exec(&e, &out[p])
            invariant
                total_ordering(entry_order()),
                0 <= p <= out@.len(),
                forall|q: int|
                    0 <= q < p ==> !(#[trigger] entry_order()(ev, out.deep_view()[q])),
            decreases out@.len() - p,
        {
            proof {
                assert(out.deep_view()[p as int] == out@[p as int]@);
                assert(!entry_le(ev, out.deep_view()[p as int]));
            }
            p = p + 1;
        }
        let ghost out_before = out.deep_view();
        let ghost pos = p as int;
        out.insert(p, e);
        proof {
            assert(out.deep_view() =~= out_before.insert(pos, ev));
            out_before.insert_ensures(pos, ev);
            let leq = entry_order();
            assert forall|i: int, j: int|
                0 <= i < j < out.deep_view().len() implies #[trigger] leq(
                out.deep_view()[i],
                out.deep_view()[j],
            ) by {
                let s = out.deep_view();
                if j < pos {
                    assert(s[i] == out_before[i] && s[j] == out_before[j]);
                } else if i > pos {
                    assert(s[i] == out_before[i - 1] && s[j] == out_before[j - 1]);
                } else if i == pos {
                    // ev against a later element: ev <= out_before[pos] <= out_before[j-1]
                    assert(s[j] == out_before[j - 1]);
                    assert(pos < out_before.len());
                    assert(leq(ev, out_before[pos]));
                    if j - 1 > pos {
                        assert(leq(out_before[pos], out_before[j - 1]));
                    }
                } else if j == pos {
                    // an earlier element against ev: !(ev <= x) gives x <= ev
                    assert(s[i] == out_before[i]);
                    assert(!leq(ev, out_before[i]));
                } else {
                    // i < pos < j, so both stand in out_before, i before j - 1
                    assert(s[i] == out_before[i] && s[j] == out_before[j - 1]);
                    assert(leq(out_before[i], out_before[j - 1]));
                }
            }
            assert(out_before.insert(pos, ev).to_multiset()
                == out_before.to_multiset().insert(ev));
            assert(out.deep_view().to_multiset() == out_before.to_multiset().insert(ev));
            assert(out.deep_view().to_multiset().add(rest.deep_view().to_multiset())
                =~= full.to_multiset());
        }
    }
    proof {
        assert(rest.deep_view() =~= Seq::<EntryModel>::empty());
        assert forall|x: EntryModel| out.deep_view().to_multiset().count(x)
            == full.to_multiset().count(x) by {
            assert(!rest.deep_view().contains(x));
            assert(rest.deep_view().to_multiset().count(x) == 0);
        }
        assert(out.deep_view().to_multiset() =~= full.to_multiset());
        full.lemma_sort_by_ensures(entry_order());
        lemma_sorted_unique(out.deep_view(), full.sort_by(entry_order()), entry_order());
        assert(out.deep_view() =~= full.sort_by(entry_order()));
    }
    out
}

} // verus!
