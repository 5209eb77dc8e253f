//! Byte strings and lists of them.

use vstd::prelude::*;
use vstd::slice::slice_to_vec;
use vstd::string::StringSliceAdditionalSpecFns;

verus! {

/// The byte strings that a list holds, in its order.
pub open spec fn views(list: Seq<Vec<u8>>) -> Seq<Seq<u8>> {
    Seq::new(list.len(), |i: int| list[i]@)
}

/// Whether two byte strings are the same.
pub(crate) fn same_bytes(a: &[u8], b: &[u8]) -> (out: bool)
    ensures
        out == (a@ == b@),
{
    if a.len() != b.len() {
        return false;
    }
    let mut i: usize = 0;
    while i < a.len()
        invariant
            i <= a.len() == b.len(),
            forall|j: int| 0 <= j < i ==> a[j] == b[j],
        decreases a.len() - i,
    {
        if a[i] != b[i] {
            return false;
        }
        i += 1;
    }
    assert(a@ =~= b@);
    true
}

/// Appends the bytes of `text` to `out`.
pub(crate) fn push_text(out: &mut Vec<u8>, text: &str)
    ensures
        final(out)@ == old(out)@ + text.spec_bytes(),
{
    out.extend_from_slice(text.as_bytes());
}

/// Appends a copy of each of `items` to `out`.
pub(crate) fn push_copies(out: &mut Vec<Vec<u8>>, items: &[Vec<u8>])
    ensures
        views(final(out)@) == views(old(out)@) + views(items@),
{
    let mut i: usize = 0;
    while i < items.len()
        invariant
            i <= items.len(),
            views(out@) == views(old(out)@) + views(items@.take(i as int)),
        decreases items.len() - i,
    {
        let ghost before = out@;
        out.push(slice_to_vec(items[i].as_slice()));
        i += 1;
        assert(views(out@) =~= views(before).push(items[i - 1]@));
        assert(views(items@.take(i as int)) =~= views(items@.take(i - 1)).push(items[i - 1]@));
    }
    assert(items@.take(i as int) =~= items@);
}

} // verus!
