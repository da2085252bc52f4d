//! Pagination of the sorted entry set and assembly of the output lines.

use vstd::prelude::*;

use crate::entry::DirEntry;
use crate::entry::EntryModel;
use crate::order::entry_order;
use crate::order::sort_entries;
use crate::render::render_line;
use crate::render::rendered_line;

verus! {

/// Why a listing request failed.  Every failure is reported to the caller;
/// none aborts the process.
#[derive(Clone, Copy, Debug, PartialEq, Eq, Structural)]
pub enum ListDirError {
    /// The request gave a pagination offset of 0; offsets are 1-indexed.
    InvalidOffset,
    /// The request gave a page size of 0.
    InvalidLimit,
    /// The request gave a depth bound of 0.
    InvalidDepth,
    /// The requested path is not absolute.
    PathNotAbsolute,
    /// A directory in the traversal path could not be opened or read; the
    /// whole traversal is aborted and no partial listing is returned.
    DirectoryRead,
    /// The file-type metadata of one discovered entry could not be read;
    /// the whole traversal is aborted.
    EntryInspect,
    /// The offset points past the end of a non-empty sorted entry set.
    OffsetOutOfRange,
}

/// The descriptive text reported for each failure.
pub open spec fn message_text(e: ListDirError) -> Seq<char> {
    match e {
        ListDirError::InvalidOffset => "offset must be a 1-indexed entry number"@,
        ListDirError::InvalidLimit => "limit must be greater than zero"@,
        ListDirError::InvalidDepth => "depth must be greater than zero"@,
        ListDirError::PathNotAbsolute => "dir_path must be an absolute path"@,
        ListDirError::DirectoryRead => "failed to read directory"@,
        ListDirError::EntryInspect => "failed to inspect entry"@,
        ListDirError::OffsetOutOfRange => "offset exceeds directory entry count"@,
    }
}

impl ListDirError {
    /// A descriptive, caller-facing account of the failure.
    pub fn message(&self) -> (r: &'static str)
        ensures
            r@ == message_text(*self),
    {
        match self {
            ListDirError::InvalidOffset => "offset must be a 1-indexed entry number",
            ListDirError::InvalidLimit => "limit must be greater than zero",
            ListDirError::InvalidDepth => "depth must be greater than zero",
            ListDirError::PathNotAbsolute => "dir_path must be an absolute path",
            ListDirError::DirectoryRead => "failed to read directory",
            ListDirError::EntryInspect => "failed to inspect entry",
            ListDirError::OffsetOutOfRange => "offset exceeds directory entry count",
        }
    }
}

/// The full sorted entry set that pagination windows into.
pub open spec fn sorted_entries(entries: Seq<EntryModel>) -> Seq<EntryModel> {
    entries.sort_by(entry_order())
}

/// How many lines the window holds: `limit`, or however many entries remain
/// from `offset` on when those are fewer.
pub open spec fn page_len(total: int, offset: int, limit: int) -> int {
    if limit < total - (offset - 1) {
        limit
    } else {
        total - (offset - 1)
    }
}

/// The rendered page: the contiguous slice of the sorted set starting at
/// the 1-indexed `offset`, each entry rendered with its absolute rank in
/// the full sorted set.
pub open spec fn page_lines(sorted: Seq<EntryModel>, offset: int, limit: int) -> Seq<Seq<u8>> {
    Seq::new(
        page_len(sorted.len() as int, offset, limit) as nat,
        |i: int| rendered_line(offset + i, sorted[offset - 1 + i]),
    )
}

/// The whole pure pipeline from the collected entries and a validated
/// pagination window to the output lines: an empty entry set lists as
/// nothing, an offset past the end of a non-empty set is an error, and
/// otherwise the window of the sorted set is rendered.
pub open spec fn spec_list_dir(entries: Seq<EntryModel>, offset: int, limit: int) -> Result<
    Seq<Seq<u8>>,
    ListDirError,
> {
    if entries.len() == 0 {
        Ok(Seq::empty())
    } else if offset > entries.len() {
        Err(ListDirError::OffsetOutOfRange)
    } else {
        Ok(page_lines(sorted_entries(entries), offset, limit))
    }
}

/// Sorts the collected entries and renders the requested window.
///
/// Succeeds exactly when the entry set is empty (an empty listing, whatever
/// the window) or the offset points into it; the returned lines are a
/// contiguous run whose ordinals start at `offset` and whose length is
/// `limit`, or the number of entries from `offset` on when those are fewer.
#[verifier::loop_isolation(false)]
pub fn list_dir_slice(entries: Vec<DirEntry>, offset: usize, limit: usize) -> (r: Result<
    Vec<Vec<u8>>,
    ListDirError,
>)
    requires
        offset >= 1,
        limit >= 1,
    ensures
        match r {
            Ok(lines) => {
                &&& spec_list_dir(entries.deep_view(), offset as int, limit as int)
                    == Ok::<Seq<Seq<u8>>, ListDirError>(lines.deep_view())
                &&& entries.deep_view().len() == 0 ==> lines.deep_view().len() == 0
                &&& entries.deep_view().len() > 0 ==> {
                    &&& offset <= entries.deep_view().len()
                    &&& lines.deep_view().len() == page_len(
                        entries.deep_view().len() as int,
                        offset as int,
                        limit as int,
                    )
                    &&& forall|i: int|
                        0 <= i < lines.deep_view().len() ==> lines.deep_view()[i]
                            == rendered_line(
                            offset + i,
                            sorted_entries(entries.deep_view())[offset - 1 + i],
                        )
                }
            },
            Err(e) => {
                &&& spec_list_dir(entries.deep_view(), offset as int, limit as int)
                    == Err::<Seq<Seq<u8>>, ListDirError>(e)
                &&& e == ListDirError::OffsetOutOfRange
                &&& entries.deep_view().len() > 0
                &&& offset > entries.deep_view().len()
            },
        },
{
    let ghost evs = entries.deep_view();
    let total = entries.len();
    if total == 0 {
        let lines: Vec<Vec<u8>> = Vec::new();
        proof {
            assert(lines.deep_view() =~= Seq::<Seq<u8>>::empty());
        }
        return Ok(lines);
    }
    if offset > total {
        return Err(ListDirError::OffsetOutOfRange);
    }
    let sorted = sort_entries(entries);
    let start = offset - 1;
    let remaining = total - start;
    let count = if limit < remaining {
        limit
    } else {
        remaining
    };
    proof {
        assert(count as int == page_len(evs.len() as int, offset as int, limit as int));
    }
    let mut lines: Vec<Vec<u8>> = Vec::new();
    let mut i: usize = 0;
    while i < count
        invariant
            0 <= i <= count,
            lines@.len() == i as int,
            forall|j: int|
                0 <= j < i as int ==> lines.deep_view()[j] == rendered_line(
                    offset + j,
                    sorted.deep_view()[start + j],
                ),
        decreases count - i,
    {
        let line = render_line(offset + i, &sorted[start + i]);
        let ghost lines_before = lines.deep_view();
        let ghost ldv = line.deep_view();
        proof {
            assert(ldv =~= line@);
        }
        lines.push(line);
        proof {
            assert(lines.deep_view() =~= lines_before.push(ldv));
        }
        i = i + 1;
    }
    proof {
        assert(lines.deep_view() =~= page_lines(
            sorted_entries(evs),
            offset as int,
            limit as int,
        ));
    }
    Ok(lines)
}

/// What request validation returns for each combination of inputs:
/// each field is checked in turn, and a zero offset, zero limit, zero
/// depth or relative path is rejected before any filesystem work.
pub open spec fn spec_validated(offset: int, limit: int, depth: int, path_absolute: bool) -> Result<
    (),
    ListDirError,
> {
    if offset == 0 {
        Err(ListDirError::InvalidOffset)
    } else if limit == 0 {
        Err(ListDirError::InvalidLimit)
    } else if depth == 0 {
        Err(ListDirError::InvalidDepth)
    } else if !path_absolute {
        Err(ListDirError::PathNotAbsolute)
    } else {
        Ok(())
    }
}

} // verus!
