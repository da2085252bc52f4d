//! Classification of a discovered filesystem entry.

use vstd::prelude::*;

verus! {

/// The kind of one filesystem entry, read once from the entry's own metadata
/// (a symlink is never followed).
#[derive(Clone, Copy, Debug, PartialEq, Eq, Structural)]
pub enum DirEntryKind {
    Directory,
    File,
    Symlink,
    Other,
}

/// The bracketed tag that [`DirEntryKind::label`] returns, as UTF-8 bytes.
pub open spec fn label_bytes(kind: DirEntryKind) -> Seq<u8> {
    match kind {
        DirEntryKind::Directory => seq![91u8, 100u8, 105u8, 114u8, 93u8],  // "[dir]"
        DirEntryKind::File => seq![91u8, 102u8, 105u8, 108u8, 101u8, 93u8],  // "[file]"
        DirEntryKind::Symlink => seq![
            91u8,
            115u8,
            121u8,
            109u8,
            108u8,
            105u8,
            110u8,
            107u8,
            93u8,
        ],  // "[symlink]"
        DirEntryKind::Other => seq![91u8, 111u8, 116u8, 104u8, 101u8, 114u8, 93u8],  // "[other]"
    }
}

impl DirEntryKind {
    /// The bracketed tag shown before the entry name in an output line.
    pub fn label(self) -> (r: &'static str)
        ensures
            r@ == match self {
                DirEntryKind::Directory => "[dir]"@,
                DirEntryKind::File => "[file]"@,
                DirEntryKind::Symlink => "[symlink]"@,
                DirEntryKind::Other => "[other]"@,
            },
    {
        match self {
            DirEntryKind::Directory => "[dir]",
            DirEntryKind::File => "[file]",
            DirEntryKind::Symlink => "[symlink]",
            DirEntryKind::Other => "[other]",
        }
    }

    /// Classifies an entry from its file-type metadata flags, checked in the
    /// same order as the underlying platform query: a symlink is reported as
    /// a symlink even when its target is a directory or a file.
    pub fn from_flags(is_symlink: bool, is_dir: bool, is_file: bool) -> (r: Self)
        ensures
            r == spec_kind_from_flags(is_symlink, is_dir, is_file),
    {
        if is_symlink {
            DirEntryKind::Symlink
        } else if is_dir {
            DirEntryKind::Directory
        } else if is_file {
            DirEntryKind::File
        } else {
            DirEntryKind::Other
        }
    }
}

/// What [`DirEntryKind::from_flags`] returns for each combination of
/// file-type flags.
pub open spec fn spec_kind_from_flags(is_symlink: bool, is_dir: bool, is_file: bool) -> DirEntryKind {
    if is_symlink {
        DirEntryKind::Symlink
    } else if is_dir {
        DirEntryKind::Directory
    } else if is_file {
        DirEntryKind::File
    } else {
        DirEntryKind::Other
    }
}

/// Appends the label bytes for `kind` to `out`.
pub fn push_label_bytes(out: &mut Vec<u8>, kind: DirEntryKind)
    ensures
        final(out)@ == old(out)@ + label_bytes(kind),
{
    match kind {
        DirEntryKind::Directory => {
            out.push(91u8);
            out.push(100u8);
            out.push(105u8);
            out.push(114u8);
            out.push(93u8);
        },
        DirEntryKind::File => {
            out.push(91u8);
            out.push(102u8);
            out.push(105u8);
            out.push(108u8);
            out.push(101u8);
            out.push(93u8);
        },
        DirEntryKind::Symlink => {
            out.push(91u8);
            out.push(115u8);
            out.push(121u8);
            out.push(109u8);
            out.push(108u8);
            out.push(105u8);
            out.push(110u8);
            out.push(107u8);
            out.push(93u8);
        },
        DirEntryKind::Other => {
            out.push(91u8);
            out.push(111u8);
            out.push(116u8);
            out.push(104u8);
            out.push(101u8);
            out.push(114u8);
            out.push(93u8);
        },
    }
    proof {
        assert(out@ =~= old(out)@ + label_bytes(kind));
    }
}

} // verus!
