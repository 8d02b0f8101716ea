//! The mathematical model of the buffer: a byte sequence bounded by a
//! capacity, and what an append does to it.

use crate::text::lemma_encode_concat;
use vstd::prelude::*;
use vstd::utf8::*;

verus! {

/// The contents after appending `fragment` to a buffer of `capacity` bytes
/// that holds `contents`, or `None` where the fragment does not fit.
pub open spec fn appended(contents: Seq<u8>, capacity: nat, fragment: Seq<u8>) -> Option<Seq<u8>> {
    if contents.len() + fragment.len() <= capacity {
        Some(contents + fragment)
    } else {
        None
    }
}

/// The contents after appending each of `fragments` in turn, or `None`
/// where one of them does not fit.
pub open spec fn appended_all(contents: Seq<u8>, capacity: nat, fragments: Seq<Seq<u8>>) -> Option<
    Seq<u8>,
>
    decreases fragments.len(),
{
    if fragments.len() == 0 {
        Some(contents)
    } else {
        match appended(contents, capacity, fragments.first()) {
            Some(next) => appended_all(next, capacity, fragments.drop_first()),
            None => None,
        }
    }
}

/// The UTF-8 encoding of each of `texts`.
pub open spec fn encoded(texts: Seq<Seq<char>>) -> Seq<Seq<u8>> {
    Seq::new(texts.len(), |i: int| encode_utf8(texts[i]))
}

/// An append succeeds exactly when the fragment fits in the room that is
/// left; the contents are then the old contents followed by the fragment.
pub proof fn lemma_appended(contents: Seq<u8>, capacity: nat, fragment: Seq<u8>)
    ensures
        appended(contents, capacity, fragment) is Some <==> contents.len() + fragment.len()
            <= capacity,
        appended(contents, capacity, fragment) is Some ==> appended(
            contents,
            capacity,
            fragment,
        )->Some_0 == contents + fragment,
{
}

/// Appends in sequence all succeed exactly when the fragments together fit
/// in the room that is left; the contents are then the old contents
/// followed by the fragments in order, with nothing between them.
pub proof fn lemma_appended_all(contents: Seq<u8>, capacity: nat, fragments: Seq<Seq<u8>>)
    requires
        contents.len() <= capacity,
    ensures
        appended_all(contents, capacity, fragments) == if contents.len() + fragments.flatten().len()
            <= capacity {
            Some(contents + fragments.flatten())
        } else {
            None
        },
    decreases fragments.len(),
{
    if fragments.len() == 0 {
        assert(contents + fragments.flatten() =~= contents);
    } else {
        let head = fragments.first();
        let tail = fragments.drop_first();
        assert(fragments.flatten() =~= head + tail.flatten());
        assert(fragments.flatten().len() == head.len() + tail.flatten().len());
        if contents.len() + head.len() <= capacity {
            lemma_appended_all(contents + head, capacity, tail);
            assert((contents + head) + tail.flatten() =~= contents + fragments.flatten());
        }
    }
}

/// Encoding each text and joining the bytes is encoding the joined text.
pub proof fn lemma_encoded_flatten(texts: Seq<Seq<char>>)
    ensures
        encoded(texts).flatten() == encode_utf8(texts.flatten()),
    decreases texts.len(),
{
    if texts.len() == 0 {
        assert(encoded(texts).flatten() =~= Seq::<u8>::empty());
        assert(encode_utf8(texts.flatten()) =~= Seq::<u8>::empty());
    } else {
        lemma_encoded_flatten(texts.drop_first());
        assert(encoded(texts).drop_first() =~= encoded(texts.drop_first()));
        lemma_encode_concat(texts.first(), texts.drop_first().flatten());
    }
}

/// Fragments that together fit in an empty buffer can all be appended, and
/// the buffer then reads as the fragments joined in order.
pub proof fn lemma_appends_concatenate(capacity: nat, texts: Seq<Seq<char>>)
    requires
        encoded(texts).flatten().len() <= capacity,
    ensures
        appended_all(Seq::<u8>::empty(), capacity, encoded(texts)) == Some(
            encoded(texts).flatten(),
        ),
        valid_utf8(encoded(texts).flatten()),
        decode_utf8(encoded(texts).flatten()) == texts.flatten(),
{
    broadcast use {encode_utf8_valid_utf8, encode_utf8_decode_utf8};
    lemma_appended_all(Seq::<u8>::empty(), capacity, encoded(texts));
    assert(Seq::<u8>::empty() + encoded(texts).flatten() =~= encoded(texts).flatten());
    lemma_encoded_flatten(texts);
}

/// A fragment that fits in an empty buffer is read back as it was written,
/// byte for byte and character for character.
pub proof fn lemma_round_trip(capacity: nat, text: Seq<char>)
    requires
        encode_utf8(text).len() <= capacity,
    ensures
        appended(Seq::<u8>::empty(), capacity, encode_utf8(text)) == Some(encode_utf8(text)),
        decode_utf8(encode_utf8(text)) == text,
{
    broadcast use encode_utf8_decode_utf8;
    assert(Seq::<u8>::empty() + encode_utf8(text) =~= encode_utf8(text));
}

} // verus!
