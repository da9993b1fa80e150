//! Text out of the bytes that the operating system hands over.

use vstd::prelude::*;

verus! {

/// What `String::from_utf8_lossy` makes of `bytes`.
pub uninterp spec fn utf8_lossy(bytes: Seq<u8>) -> Seq<char>;

/// Calls `String::from_utf8_lossy`. The text is a function of the bytes alone,
/// and bytes that are valid UTF-8 are decoded as they stand; which replacement
/// characters stand for an invalid stretch is left unsaid.
#[verifier::external_body]
pub(crate) fn from_utf8_lossy(bytes: &[u8]) -> (text: String)
    ensures
        text@ == utf8_lossy(bytes@),
        vstd::utf8::valid_utf8(bytes@) ==> text@ == vstd::utf8::decode_utf8(bytes@),
{
    String::from_utf8_lossy(bytes).into_owned()
}

/// The views of a list of byte strings.
pub open spec fn byte_views(list: Seq<Vec<u8>>) -> Seq<Seq<u8>> {
    Seq::new(list.len(), |i: int| list[i]@)
}

/// Whether two byte strings hold the same bytes.
pub(crate) fn same_bytes(left: &[u8], right: &[u8]) -> (same: bool)
    ensures
        same == (left@ == right@),
{
    if left.len() != right.len() {
        return false;
    }
    let mut i: usize = 0;
    while i < left.len()
        invariant
            i <= left.len(),
            left.len() == right.len(),
            left@.take(i as int) == right@.take(i as int),
        decreases left.len() - i,
    {
        if left[i] != right[i] {
            return false;
        }
        assert(left@.take(i + 1) == left@.take(i as int).push(left@[i as int]));
        assert(right@.take(i + 1) == right@.take(i as int).push(right@[i as int]));
        i = i + 1;
    }
    assert(left@.take(i as int) == left@);
    assert(right@.take(i as int) == right@);
    true
}

} // verus!
