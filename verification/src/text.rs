//! What the buffer needs of UTF-8 text: the two conversions of the standard
//! library from bytes to text, with the contracts that are assumed of
//! them, and two lemmas on encoding and concatenation.

use vstd::prelude::*;
use vstd::string::StringSliceAdditionalSpecFns;
use vstd::utf8::*;

verus! {

/// The error of `core::str::from_utf8`, carried through and never looked into.
#[verifier::external_type_specification]
#[verifier::external_body]
pub struct ExUtf8Error(core::str::Utf8Error);

/// `core::str::from_utf8` succeeds on exactly the well-formed byte slices,
/// and the text it then returns has exactly those bytes. This is taken
/// from the function's documentation and not proved here.
pub assume_specification<'a>[ core::str::from_utf8 ](v: &'a [u8]) -> (r: Result<
    &'a str,
    core::str::Utf8Error,
>)
    ensures
        r is Ok <==> valid_utf8(v@),
        r is Ok ==> r->Ok_0.spec_bytes() == v@,
;

/// Calls `core::str::from_utf8_mut`, which succeeds on exactly the
/// well-formed byte slices. The text it then returns has exactly those
/// bytes, and whatever the text holds when the borrow ends is what the
/// slice then holds; on failure the slice is left as it was. The last
/// clause says what Rust grants of every mutable borrow of a slice: its
/// length cannot change. None of this is proved here.
#[verifier::external_body]
pub(crate) fn str_from_utf8_mut<'a>(v: &'a mut [u8]) -> (r: Result<&'a mut str, core::str::Utf8Error>)
    ensures
        r is Ok <==> valid_utf8(old(v)@),
        r is Ok ==> r->Ok_0.spec_bytes() == old(v)@,
        r is Ok ==> final(v)@ == final(r->Ok_0).spec_bytes(),
        r is Err ==> final(v)@ == old(v)@,
        final(v)@.len() == old(v)@.len(),
{
    core::str::from_utf8_mut(v)
}

/// Encoding distributes over concatenation of character sequences.
pub proof fn lemma_encode_concat(a: Seq<char>, b: Seq<char>)
    ensures
        encode_utf8(a + b) == encode_utf8(a) + encode_utf8(b),
    decreases a.len(),
{
    if a.len() == 0 {
        assert(a + b =~= b);
        assert(encode_utf8(a) + encode_utf8(b) =~= encode_utf8(b));
    } else {
        lemma_encode_concat(a.drop_first(), b);
        assert((a + b).drop_first() =~= a.drop_first() + b);
        assert(encode_utf8(a + b) =~= encode_utf8(a) + encode_utf8(b));
    }
}

/// Decoding the concatenation of well-formed bytes and an encoded fragment
/// gives the decoded bytes followed by the fragment's characters.
pub proof fn lemma_decode_append(bytes: Seq<u8>, fragment: Seq<char>)
    requires
        valid_utf8(bytes),
    ensures
        valid_utf8(bytes + encode_utf8(fragment)),
        decode_utf8(bytes + encode_utf8(fragment)) == decode_utf8(bytes) + fragment,
{
    broadcast use {encode_utf8_valid_utf8, encode_utf8_decode_utf8, decode_utf8_encode_utf8};
    valid_utf8_concat(bytes, encode_utf8(fragment));
    lemma_encode_concat(decode_utf8(bytes), fragment);
}

} // verus!
