//! Rendering of one selected entry as a single output line:
//! `E<ordinal>: [<kind>] <relative-path>`.

use vstd::prelude::*;

use crate::entry::DirEntry;
use crate::entry::EntryModel;
use crate::kind::DirEntryKind;
use crate::kind::label_bytes;
use crate::kind::push_label_bytes;

verus! {

/// The decimal digits of `n`, most significant first, as ASCII bytes.
pub open spec fn decimal_digits(n: int) -> Seq<u8>
    decreases n,
{
    if n < 10 {
        seq![(48 + if n >= 0 { n } else { 0 }) as u8]
    } else {
        decimal_digits(n / 10).push((48 + n % 10) as u8)
    }
}

/// Appends the decimal digits of `n` to `out`.
pub fn push_decimal(out: &mut Vec<u8>, n: usize)
    ensures
        final(out)@ == old(out)@ + decimal_digits(n as int),
    decreases n,
{
    if n >= 10 {
        push_decimal(out, n / 10);
    }
    out.push(48 + (n % 10) as u8);
    proof {
        assert(out@ =~= old(out)@ + decimal_digits(n as int));
    }
}

/// One output line: `E`, the entry's 1-indexed rank in the full sorted set,
/// `: `, the bracketed kind tag, a space, and the (truncated) relative path.
pub open spec fn rendered_line(ordinal: int, e: EntryModel) -> Seq<u8> {
    seq![69u8] + decimal_digits(ordinal) + seq![58u8, 32u8] + label_bytes(e.kind) + seq![32u8]
        + e.name
}

/// Renders the line for an entry whose absolute rank in the sorted set is
/// `ordinal`.
pub fn render_line(ordinal: usize, e: &DirEntry) -> (r: Vec<u8>)
    ensures
        r@ == rendered_line(ordinal as int, e@),
{
    let mut out: Vec<u8> = Vec::new();
    out.push(69u8);  // 'E'
    push_decimal(&mut out, ordinal);
    out.push(58u8);  // ':'
    out.push(32u8);  // ' '
    push_label_bytes(&mut out, e.kind);
    out.push(32u8);  // ' '
    let mut i: usize = 0;
    let ghost head = out@;
    while i < e.name.len()
        invariant
            0 <= i <= e.name@.len(),
            out@ == head + e.name@.take(i as int),
        decreases e.name@.len() - i,
    {
        out.push(e.name[i]);
        proof {
            assert(out@ =~= head + e.name@.take(i as int + 1));
        }
        i = i + 1;
    }
    proof {
        assert(e.name@.take(e.name@.len() as int) =~= e.name@);
        assert(out@ =~= rendered_line(ordinal as int, e@));
    }
    out
}

} // verus!
