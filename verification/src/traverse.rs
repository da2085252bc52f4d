//! The traversal engine: a work-stack state machine over a directory tree.
//!
//! The engine never touches the filesystem itself.  The caller pops one
//! pending work item at a time with [`Traversal::next_item`], reads that
//! directory, and hands the children back through [`Traversal::expand`],
//! which records one entry per child and schedules subdirectories whose
//! remaining depth budget allows another level.  Failure to read a directory
//! or to inspect a child aborts the whole operation on the caller's side;
//! the partial state is simply dropped.

use vstd::prelude::*;

use crate::entry::DirEntry;
use crate::entry::EntryModel;
use crate::entry::clone_bytes;
use crate::entry::format_entry_name;
use crate::entry::joined_path;
use crate::entry::spec_joined_path;
use crate::entry::truncated_name;
use crate::kind::DirEntryKind;
use crate::kind::spec_kind_from_flags;

verus! {

/// One pending unit of work: a directory still to be read, the relative
/// prefix accumulated for it, and its remaining depth budget.
pub struct WorkItem {
    /// The directory's absolute path, as bytes the engine hands back
    /// unread.
    pub dir: Vec<u8>,
    /// The directory's path relative to the traversal root (empty for the
    /// root itself), not truncated.
    pub prefix: Vec<u8>,
    /// How many more levels may be read from here; the children of this
    /// directory are read when it is 1 or more, and expanded further only
    /// when it is 2 or more.
    pub remaining_depth: usize,
}

/// Mathematical value of a [`WorkItem`].
#[verifier::ext_equal]
pub ghost struct ItemModel {
    pub dir: Seq<u8>,
    pub prefix: Seq<u8>,
    pub remaining_depth: int,
}

impl View for WorkItem {
    type V = ItemModel;

    open spec fn view(&self) -> ItemModel {
        ItemModel {
            dir: self.dir@,
            prefix: self.prefix@,
            remaining_depth: self.remaining_depth as int,
        }
    }
}

impl DeepView for WorkItem {
    type V = ItemModel;

    open spec fn deep_view(&self) -> ItemModel {
        self@
    }
}

/// What the caller reports about one child found in a directory: its own
/// name, its absolute path, and its file-type flags read from the child's
/// own metadata (never from a symlink's target).
pub struct ChildInfo {
    pub name: Vec<u8>,
    pub path: Vec<u8>,
    pub is_symlink: bool,
    pub is_dir: bool,
    pub is_file: bool,
}

/// Mathematical value of a [`ChildInfo`].
#[verifier::ext_equal]
pub ghost struct ChildModel {
    pub name: Seq<u8>,
    pub path: Seq<u8>,
    pub is_symlink: bool,
    pub is_dir: bool,
    pub is_file: bool,
}

impl View for ChildInfo {
    type V = ChildModel;

    open spec fn view(&self) -> ChildModel {
        ChildModel {
            name: self.name@,
            path: self.path@,
            is_symlink: self.is_symlink,
            is_dir: self.is_dir,
            is_file: self.is_file,
        }
    }
}

impl DeepView for ChildInfo {
    type V = ChildModel;

    open spec fn deep_view(&self) -> ChildModel {
        self@
    }
}

/// The kind recorded for a child, from its file-type flags.
pub open spec fn child_kind(c: ChildModel) -> DirEntryKind {
    spec_kind_from_flags(c.is_symlink, c.is_dir, c.is_file)
}

/// The entry recorded for a child found under `prefix`: the joined relative
/// path, truncated for display, with the child's kind.
pub open spec fn child_entry(prefix: Seq<u8>, c: ChildModel) -> EntryModel {
    EntryModel { name: truncated_name(spec_joined_path(prefix, c.name)), kind: child_kind(c) }
}

/// Whether the child becomes a new work item: only a directory proper (not
/// a symlink to one), and only while the depth budget allows one more
/// level.  A directory found with a budget of 1 is recorded but not read.
pub open spec fn child_expands(item: ItemModel, c: ChildModel) -> bool {
    child_kind(c) == DirEntryKind::Directory && item.remaining_depth > 1
}

/// The work item scheduled for an expanding child: its absolute path, its
/// untruncated relative path as the new prefix, and one level less of depth
/// budget.
pub open spec fn child_item(item: ItemModel, c: ChildModel) -> ItemModel {
    ItemModel {
        dir: c.path,
        prefix: spec_joined_path(item.prefix, c.name),
        remaining_depth: item.remaining_depth - 1,
    }
}

/// The work items that expanding `item` with children `cs` pushes, in
/// order: one per child that [`child_expands`].
pub open spec fn pushed_items(item: ItemModel, cs: Seq<ChildModel>) -> Seq<ItemModel>
    decreases cs.len(),
{
    if cs.len() == 0 {
        Seq::empty()
    } else if child_expands(item, cs.last()) {
        pushed_items(item, cs.drop_last()).push(child_item(item, cs.last()))
    } else {
        pushed_items(item, cs.drop_last())
    }
}

/// The entries that expanding under `prefix` with children `cs` records, in
/// order: one per child, whatever its kind.
pub open spec fn recorded_entries(prefix: Seq<u8>, cs: Seq<ChildModel>) -> Seq<EntryModel> {
    cs.map_values(|c: ChildModel| child_entry(prefix, c))
}

/// Every item that expanding `item` pushes keeps a depth budget of at
/// least 1: a child is only scheduled while the budget is greater than 1,
/// and it receives one level less.
proof fn lemma_pushed_items_depth(item: ItemModel, cs: Seq<ChildModel>)
    ensures
        forall|i: int|
            0 <= i < pushed_items(item, cs).len() ==> #[trigger] pushed_items(
                item,
                cs,
            )[i].remaining_depth >= 1,
    decreases cs.len(),
{
    if cs.len() > 0 {
        lemma_pushed_items_depth(item, cs.drop_last());
        let p = pushed_items(item, cs.drop_last());
        assert forall|i: int|
            0 <= i < pushed_items(item, cs).len() implies #[trigger] pushed_items(
            item,
            cs,
        )[i].remaining_depth >= 1 by {
            if child_expands(item, cs.last()) {
                if i < p.len() {
                    assert(pushed_items(item, cs)[i] == p[i]);
                } else {
                    assert(pushed_items(item, cs)[i] == child_item(item, cs.last()));
                }
            } else {
                assert(pushed_items(item, cs)[i] == p[i]);
            }
        }
    }
}

/// The traversal state: the stack of directories still to read, and the
/// entries recorded so far.
pub struct Traversal {
    stack: Vec<WorkItem>,
    entries: Vec<DirEntry>,
}

impl Traversal {
    /// The pending work items, bottom of the stack first.
    pub closed spec fn stack_model(&self) -> Seq<ItemModel> {
        self.stack.deep_view()
    }

    /// The entries recorded so far, in discovery order.
    pub closed spec fn entries_model(&self) -> Seq<EntryModel> {
        self.entries.deep_view()
    }

    /// Well-formedness: every pending work item still has at least one
    /// level of depth budget, so a directory is only ever read when the
    /// bound allows its children to be recorded.
    pub open spec fn wf(&self) -> bool {
        forall|i: int|
            0 <= i < self.stack_model().len() ==> #[trigger] self.stack_model()[
                i
            ].remaining_depth >= 1
    }

    /// Starts a traversal of the directory at `root` with the given depth
    /// bound: one pending work item for the root itself, with an empty
    /// relative prefix, and no entries yet.
    pub fn new(root: Vec<u8>, depth: usize) -> (t: Self)
        requires
            depth >= 1,
        ensures
            t.stack_model() == seq![
                ItemModel { dir: root@, prefix: Seq::<u8>::empty(), remaining_depth: depth as int },
            ],
            t.entries_model() == Seq::<EntryModel>::empty(),
            t.wf(),
    {
        let prefix: Vec<u8> = Vec::new();
        let mut stack: Vec<WorkItem> = Vec::new();
        stack.push(WorkItem { dir: root, prefix, remaining_depth: depth });
        let t = Traversal { stack, entries: Vec::new() };
        proof {
            assert(t.stack_model() =~= seq![
                ItemModel { dir: root@, prefix: Seq::<u8>::empty(), remaining_depth: depth as int },
            ]);
            assert(t.entries_model() =~= Seq::<EntryModel>::empty());
        }
        t
    }

    /// Pops the next directory to read, or reports that the traversal is
    /// complete.  Recorded entries are untouched.
    pub fn next_item(&mut self) -> (r: Option<WorkItem>)
        ensures
            final(self).entries_model() == old(self).entries_model(),
            old(self).wf() ==> final(self).wf(),
            old(self).wf() && r is Some ==> r->0@.remaining_depth >= 1,
            match r {
                Some(item) => old(self).stack_model().len() > 0 && item@ == old(
                    self,
                ).stack_model().last() && final(self).stack_model() == old(
                    self,
                ).stack_model().drop_last(),
                None => old(self).stack_model().len() == 0 && final(self).stack_model() == old(
                    self,
                ).stack_model(),
            },
    {
        let r = self.stack.pop();
        proof {
            if old(self).stack_model().len() > 0 {
                assert(self.stack_model() =~= old(self).stack_model().drop_last());
                assert(old(self).stack_model().last() == old(self).stack_model()[old(
                    self,
                ).stack_model().len() - 1]);
            } else {
                assert(self.stack_model() =~= old(self).stack_model());
            }
        }
        r
    }

    /// Records one entry per child of the directory that `item` stood for,
    /// and pushes a new work item for each child directory whose remaining
    /// depth budget is greater than 1, with one level less of budget.
    #[verifier::loop_isolation(false)]
    pub fn expand(&mut self, item: &WorkItem, children: &Vec<ChildInfo>)
        ensures
            final(self).entries_model() == old(self).entries_model() + recorded_entries(
                item@.prefix,
                children.deep_view(),
            ),
            final(self).stack_model() == old(self).stack_model() + pushed_items(
                item@,
                children.deep_view(),
            ),
            old(self).wf() ==> final(self).wf(),
    {
        let ghost cs = children.deep_view();
        let mut i: usize = 0;
        while i < children.len()
            invariant
                0 <= i <= cs.len(),
                self.entries_model() == old(self).entries_model() + recorded_entries(
                    item@.prefix,
                    cs.take(i as int),
                ),
                self.stack_model() == old(self).stack_model() + pushed_items(
                    item@,
                    cs.take(i as int),
                ),
            decreases cs.len() - i,
        {
            let c = &children[i];
            proof {
                assert(c@ == cs[i as int]);
            }
            let rel = joined_path(&item.prefix, &c.name);
            let kind = DirEntryKind::from_flags(c.is_symlink, c.is_dir, c.is_file);
            let ghost stack_before = self.stack_model();
            let ghost entries_before = self.entries_model();
            if kind == DirEntryKind::Directory && item.remaining_depth > 1 {
                let dir = clone_bytes(&c.path);
                let child_prefix = clone_bytes(&rel);
                self.stack.push(
                    WorkItem { dir, prefix: child_prefix, remaining_depth: item.remaining_depth - 1 },
                );
                proof {
                    assert(self.stack_model() =~= stack_before.push(child_item(item@, cs[i as int])));
                }
            }
            let display = format_entry_name(rel);
            self.entries.push(DirEntry { name: display, kind });
            proof {
                assert(self.entries_model() =~= entries_before.push(
                    child_entry(item@.prefix, cs[i as int]),
                ));
                assert(cs.take(i as int + 1).drop_last() =~= cs.take(i as int));
                assert(cs.take(i as int + 1).last() == cs[i as int]);
                assert(self.entries_model() =~= old(self).entries_model() + recorded_entries(
                    item@.prefix,
                    cs.take(i as int + 1),
                ));
                if !child_expands(item@, cs[i as int]) {
                    assert(self.stack_model() == stack_before);
                }
                assert(self.stack_model() =~= old(self).stack_model() + pushed_items(
                    item@,
                    cs.take(i as int + 1),
                ));
            }
            i = i + 1;
        }
        proof {
            assert(cs.take(cs.len() as int) =~= cs);
            if old(self).wf() {
                lemma_pushed_items_depth(item@, cs);
                assert forall|k: int|
                    0 <= k < self.stack_model().len() implies #[trigger] self.stack_model()[
                    k
                ].remaining_depth >= 1 by {
                    if k < old(self).stack_model().len() {
                        assert(self.stack_model()[k] == old(self).stack_model()[k]);
                    } else {
                        assert(self.stack_model()[k] == pushed_items(item@, cs)[
                            k - old(self).stack_model().len()
                        ]);
                    }
                }
            }
        }
    }

    /// True when no directory is left to read.
    pub fn is_finished(&self) -> (r: bool)
        ensures
            r == (self.stack_model().len() == 0),
    {
        self.stack.len() == 0
    }

    /// Gives up the traversal state and hands out the recorded entries.
    pub fn into_entries(self) -> (r: Vec<DirEntry>)
        ensures
            r.deep_view() == self.entries_model(),
    {
        self.entries
    }
}

} // verus!
