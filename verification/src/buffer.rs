use vstd::prelude::*;

use vstd::string::*;

verus! {

/// heapless' fixed-capacity string, carried opaquely; its contents are named below.
#[verifier::external_type_specification]
#[verifier::external_body]
pub struct ExHeaplessString<const N: usize>(heapless::String<N>);

/// The bytes held by a 512-byte heapless string.
pub uninterp spec fn text_of_512(s: heapless::String<512>) -> Seq<u8>;

/// The bytes held by a 128-byte heapless string.
pub uninterp spec fn text_of_128(s: heapless::String<128>) -> Seq<u8>;

/// `heapless::String::<512>::new`: an empty string.
#[verifier::external_body]
pub(crate) fn new_string_512() -> (s: heapless::String<512>)
    ensures
        text_of_512(s) == Seq::<u8>::empty(),
{
    heapless::String::new()
}

/// `heapless::String::<512>::push_str`: appends all of `piece` when it fits in
/// the 512 bytes, and otherwise leaves the string as it was and reports failure.
#[verifier::external_body]
pub(crate) fn push_str_512(s: &mut heapless::String<512>, piece: &str) -> (ok: bool)
    ensures
        ok == (text_of_512(*old(s)).len() + piece.spec_bytes().len() <= 512),
        ok ==> text_of_512(*final(s)) == text_of_512(*old(s)) + piece.spec_bytes(),
        !ok ==> text_of_512(*final(s)) == text_of_512(*old(s)),
{
    s.push_str(piece).is_ok()
}

/// `heapless::String::<128>::new`: an empty string.
#[verifier::external_body]
pub(crate) fn new_string_128() -> (s: heapless::String<128>)
    ensures
        text_of_128(s) == Seq::<u8>::empty(),
{
    heapless::String::new()
}

/// `heapless::String::<128>::push_str`: appends all of `piece` when it fits in
/// the 128 bytes, and otherwise leaves the string as it was and reports failure.
#[verifier::external_body]
pub(crate) fn push_str_128(s: &mut heapless::String<128>, piece: &str) -> (ok: bool)
    ensures
        ok == (text_of_128(*old(s)).len() + piece.spec_bytes().len() <= 128),
        ok ==> text_of_128(*final(s)) == text_of_128(*old(s)) + piece.spec_bytes(),
        !ok ==> text_of_128(*final(s)) == text_of_128(*old(s)),
{
    s.push_str(piece).is_ok()
}

} // verus!
