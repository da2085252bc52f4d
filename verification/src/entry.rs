//! One discovered filesystem entry: its root-relative name (UTF-8 bytes) and
//! its kind, together with byte-safe name truncation and path joining.

use vstd::prelude::*;

use crate::kind::DirEntryKind;

verus! {

/// Longest entry name, in bytes, that an output line may carry.
pub const MAX_ENTRY_LENGTH: usize = 500;

/// One filesystem object discovered during traversal.  `name` is the path
/// relative to the queried root, joined with `/`, held as UTF-8 bytes and
/// truncated to at most [`MAX_ENTRY_LENGTH`] bytes on a character boundary.
#[derive(Clone, Debug)]
pub struct DirEntry {
    pub name: Vec<u8>,
    pub kind: DirEntryKind,
}

/// Mathematical value of a [`DirEntry`].
#[verifier::ext_equal]
pub ghost struct EntryModel {
    pub name: Seq<u8>,
    pub kind: DirEntryKind,
}

impl View for DirEntry {
    type V = EntryModel;

    open spec fn view(&self) -> EntryModel {
        EntryModel { name: self.name@, kind: self.kind }
    }
}

impl DeepView for DirEntry {
    type V = EntryModel;

    open spec fn deep_view(&self) -> EntryModel {
        self@
    }
}

/// True of a byte that can only stand in the interior of a UTF-8 encoded
/// character (a continuation byte, `0b10xxxxxx`).
pub open spec fn is_continuation_byte(b: u8) -> bool {
    128 <= b < 192
}

/// True when position `i` of `s` is a character boundary of a valid UTF-8
/// byte sequence: the end of the sequence, or the start of a character.
pub open spec fn is_char_boundary(s: Seq<u8>, i: int) -> bool {
    i == s.len() || !is_continuation_byte(s[i])
}

/// The largest position at or below `i` that is a character boundary of `s`
/// (position 0 counts as a boundary of last resort).
pub open spec fn boundary_at_or_below(s: Seq<u8>, i: int) -> int
    decreases i,
{
    if i <= 0 {
        0
    } else if is_char_boundary(s, i) {
        i
    } else {
        boundary_at_or_below(s, i - 1)
    }
}

/// The name as emitted: unchanged when it fits in [`MAX_ENTRY_LENGTH`]
/// bytes, otherwise the longest prefix of at most that many bytes that ends
/// on a character boundary.
pub open spec fn truncated_name(s: Seq<u8>) -> Seq<u8> {
    if s.len() <= MAX_ENTRY_LENGTH {
        s
    } else {
        s.take(boundary_at_or_below(s, MAX_ENTRY_LENGTH as int))
    }
}

/// Tells whether `b` is a UTF-8 continuation byte.
pub fn byte_is_continuation(b: u8) -> (r: bool)
    ensures
        r == is_continuation_byte(b),
{
    128 <= b && b < 192
}

proof fn lemma_boundary_at_or_below_props(s: Seq<u8>, i: int)
    requires
        0 <= i <= s.len(),
    ensures
        0 <= boundary_at_or_below(s, i) <= i,
        boundary_at_or_below(s, i) == 0 || is_char_boundary(s, boundary_at_or_below(s, i)),
        forall|j: int| boundary_at_or_below(s, i) < j <= i ==> !is_char_boundary(s, j),
    decreases i,
{
    if i > 0 && !is_char_boundary(s, i) {
        lemma_boundary_at_or_below_props(s, i - 1);
    }
}

/// Truncation takes the longest fitting prefix: the result is a prefix of
/// the name, at most [`MAX_ENTRY_LENGTH`] bytes, a name that already fits
/// is kept whole, a truncated result ends on a character boundary, and no
/// longer prefix within the bound ends on one.
pub proof fn lemma_truncated_name_longest(s: Seq<u8>)
    ensures
        truncated_name(s).len() <= MAX_ENTRY_LENGTH,
        s.len() <= MAX_ENTRY_LENGTH ==> truncated_name(s) == s,
        truncated_name(s) == s.take(truncated_name(s).len() as int),
        s.len() > MAX_ENTRY_LENGTH ==> truncated_name(s).len() == 0 || is_char_boundary(
            s,
            truncated_name(s).len() as int,
        ),
        s.len() > MAX_ENTRY_LENGTH ==> forall|j: int|
            truncated_name(s).len() < j <= MAX_ENTRY_LENGTH ==> !is_char_boundary(s, j),
{
    if s.len() <= MAX_ENTRY_LENGTH {
        assert(s.take(s.len() as int) =~= s);
    } else {
        lemma_boundary_at_or_below_props(s, MAX_ENTRY_LENGTH as int);
    }
}

/// Truncates `name` to at most [`MAX_ENTRY_LENGTH`] bytes without splitting
/// a multi-byte UTF-8 character; a name that already fits is returned
/// unchanged.
pub fn format_entry_name(name: Vec<u8>) -> (r: Vec<u8>)
    ensures
        r@ == truncated_name(name@),
{
    if name.len() <= MAX_ENTRY_LENGTH {
        return name;
    }
    let mut out = name;
    let ghost s = out@;
    let mut i: usize = MAX_ENTRY_LENGTH;
    while i > 0 && byte_is_continuation(out[i])
        invariant
            out@ == s,
            0 <= i <= MAX_ENTRY_LENGTH < s.len(),
            boundary_at_or_below(s, MAX_ENTRY_LENGTH as int) == boundary_at_or_below(s, i as int),
        decreases i,
    {
        i = i - 1;
    }
    proof {
        assert(boundary_at_or_below(s, i as int) == i);
    }
    out.truncate(i);
    out
}

/// The child's path relative to the traversal root: the parent's relative
/// prefix joined to the child's own name with `/`, or the name alone when
/// the parent is the root itself.
pub open spec fn spec_joined_path(prefix: Seq<u8>, child: Seq<u8>) -> Seq<u8> {
    if prefix.len() == 0 {
        child
    } else {
        prefix + seq![47u8] + child
    }
}

/// Joins a parent's relative prefix and a child's name into the child's
/// root-relative path.
pub fn joined_path(prefix: &Vec<u8>, child: &Vec<u8>) -> (r: Vec<u8>)
    ensures
        r@ == spec_joined_path(prefix@, child@),
{
    if prefix.len() == 0 {
        let r = clone_bytes(child);
        proof {
            assert(r@ =~= spec_joined_path(prefix@, child@));
        }
        r
    } else {
        let mut r = clone_bytes(prefix);
        r.push(47u8);
        let mut rest = clone_bytes(child);
        r.append(&mut rest);
        proof {
            assert(r@ =~= spec_joined_path(prefix@, child@));
        }
        r
    }
}

/// Copies a byte vector.
pub fn clone_bytes(v: &Vec<u8>) -> (r: Vec<u8>)
    ensures
        r@ == v@,
{
    let mut r: Vec<u8> = Vec::new();
    let mut i: usize = 0;
    while i < v.len()
        invariant
            0 <= i <= v@.len(),
            r@ == v@.take(i as int),
        decreases v@.len() - i,
    {
        r.push(v[i]);
        proof {
            assert(r@ =~= v@.take(i as int + 1));
        }
        i = i + 1;
    }
    proof {
        assert(r@ =~= v@);
    }
    r
}

} // verus!
