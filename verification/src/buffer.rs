//! The bounded append buffer.

use crate::model::appended;
use crate::text::lemma_decode_append;
use crate::text::str_from_utf8_mut;
use vstd::prelude::*;
use vstd::string::StringSliceAdditionalSpecFns;
use vstd::utf8::*;

verus! {

/// Why an append was refused.
#[derive(Debug, Clone, Copy, PartialEq, Eq, Structural)]
pub enum WriteError {
    /// The fragment is longer than the room that is left.
    Overflow,
}

/// A buffer of `N` bytes of storage and a cursor that marks the end of the
/// written prefix.
///
/// The view of a buffer is the written prefix, a `Seq<u8>`. The storage
/// behind the cursor is never observable.
#[derive(Debug)]
pub struct WriteBuffer<const N: usize> {
    buffer: [u8; N],
    cursor: usize,
}

impl<const N: usize> View for WriteBuffer<N> {
    type V = Seq<u8>;

    closed spec fn view(&self) -> Seq<u8> {
        self.buffer@.subrange(0, self.cursor as int)
    }
}

impl<const N: usize> WriteBuffer<N> {
    /// The invariant of the type: the cursor lies within the storage and
    /// the written bytes are well-formed UTF-8.
    pub closed spec fn wf(&self) -> bool {
        &&& self.cursor <= N
        &&& valid_utf8(self@)
    }

    /// All `N` bytes of the storage, written or not. No executable
    /// function reads behind the cursor: contracts speak of the storage
    /// only to say what an operation leaves untouched.
    pub closed spec fn storage(&self) -> Seq<u8> {
        self.buffer@
    }

    /// The written bytes read as text.
    pub open spec fn text(&self) -> Seq<char> {
        decode_utf8(self@)
    }

    /// The number of written bytes.
    pub open spec fn spec_len(&self) -> nat {
        self@.len()
    }

    /// Whether nothing is written.
    pub open spec fn spec_is_empty(&self) -> bool {
        self.spec_len() == 0
    }

    /// The room that is left, in bytes.
    pub open spec fn spec_remaining(&self) -> int {
        N - self.spec_len()
    }

    /// Whether no room is left.
    pub open spec fn spec_is_full(&self) -> bool {
        self.spec_remaining() == 0
    }

    /// What the invariant says of the written bytes.
    pub proof fn lemma_wf(&self)
        requires
            self.wf(),
        ensures
            self@.len() <= N,
            valid_utf8(self@),
            encode_utf8(self.text()) == self@,
            self.storage().len() == N,
            self@ == self.storage().subrange(0, self@.len() as int),
    {
        broadcast use decode_utf8_encode_utf8;
    }

    /// Creates an empty buffer.
    pub fn new() -> (b: Self)
        ensures
            b.wf(),
            b@ == Seq::<u8>::empty(),
    {
        let buf = [0u8; N];
        WriteBuffer { buffer: buf, cursor: 0 }
    }

    /// The written bytes.
    pub fn as_slice(&self) -> (bytes: &[u8])
        requires
            self.wf(),
        ensures
            bytes@ == self@,
    {
        &self.buffer[0..self.cursor]
    }

    /// The written bytes, open to change. Private: a caller could break
    /// the encoding of the written prefix through it.
    fn as_slice_mut(&mut self) -> (bytes: &mut [u8])
        requires
            old(self).wf(),
        ensures
            bytes@ == old(self)@,
            final(self).cursor == old(self).cursor,
            final(self).buffer@ == final(bytes)@ + old(self).buffer@.subrange(
                old(self).cursor as int,
                N as int,
            ),
            final(bytes)@.len() == bytes@.len() ==> final(self)@ == final(bytes)@,
    {
        let ghost end = self.cursor as int;
        let ghost rest = self.buffer@.subrange(end, N as int);
        let (head, _tail) = self.buffer.split_at_mut(self.cursor);
        proof {
            let after = final(head)@;
            assert(after.len() == end ==> (after + rest).subrange(0, end) =~= after);
        }
        head
    }

    /// Empties the buffer. The storage is left as it is: only the cursor
    /// goes back to the start.
    pub fn reset(&mut self)
        ensures
            final(self).wf(),
            final(self)@ == Seq::<u8>::empty(),
            final(self).storage() == old(self).storage(),
    {
        self.cursor = 0;
    }

    /// The written bytes as text.
    ///
    /// This is a validating read: the bytes are decoded anew on every call,
    /// at a cost linear in the length. Decoding cannot fail, because the
    /// written prefix is well-formed at all times, so the empty text that
    /// stands for a failed decoding is never returned.
    pub fn as_str(&self) -> (s: &str)
        requires
            self.wf(),
        ensures
            s@ == self.text(),
            s.spec_bytes() == self@,
    {
        proof {
            broadcast use encode_utf8_decode_utf8;
        }
        match core::str::from_utf8(self.as_slice()) {
            Ok(s) => s,
            Err(_) => "",
        }
    }

    /// The written bytes as text that can be changed in place.
    ///
    /// Whatever text the caller leaves behind is what the buffer then
    /// holds: it is well-formed and as long as before, because a `&mut str`
    /// admits no other change. The bytes are validated as in `as_str`;
    /// that validation cannot fail either.
    pub fn as_str_mut(&mut self) -> (s: &mut str)
        requires
            old(self).wf(),
        ensures
            s@ == old(self).text(),
            s.spec_bytes() == old(self)@,
            final(self).wf(),
            final(self)@ == final(s).spec_bytes(),
            final(self).text() == final(s)@,
            final(self)@.len() == old(self)@.len(),
            forall|i: int|
                final(self)@.len() <= i < N ==> final(self).storage()[i] == old(self).storage()[i],
    {
        proof {
            broadcast use {encode_utf8_decode_utf8, encode_utf8_valid_utf8};
        }
        match str_from_utf8_mut(self.as_slice_mut()) {
            Ok(s) => s,
            Err(_) => vstd::pervasive::unreached(),
        }
    }

    /// The written text as an owned string.
    pub fn to_string(&self) -> (s: String)
        requires
            self.wf(),
        ensures
            s@ == self.text(),
    {
        self.as_str().to_owned()
    }

    /// The number of bytes written so far.
    pub fn len(&self) -> (n: usize)
        requires
            self.wf(),
        ensures
            n == self.spec_len(),
            n <= N,
    {
        self.cursor
    }

    /// Whether nothing has been written.
    pub fn is_empty(&self) -> (b: bool)
        requires
            self.wf(),
        ensures
            b == self.spec_is_empty(),
    {
        self.len() == 0
    }

    /// The number of bytes that can still be written.
    pub fn remaining(&self) -> (n: usize)
        requires
            self.wf(),
        ensures
            n == self.spec_remaining(),
    {
        N - self.len()
    }

    /// Whether no room is left.
    pub fn is_full(&self) -> (b: bool)
        requires
            self.wf(),
        ensures
            b == self.spec_is_full(),
            b == (self.spec_remaining() == 0),
    {
        self.remaining() == 0
    }

    /// Appends `s` if it fits in the room that is left, and refuses it whole
    /// if it does not: an append never writes part of a fragment.
    pub fn write_str(&mut self, s: &str) -> (r: Result<(), WriteError>)
        requires
            old(self).wf(),
        ensures
            final(self).wf(),
            match appended(old(self)@, N as nat, s.spec_bytes()) {
                Some(contents) => r == Ok::<(), WriteError>(()) && final(self)@ == contents,
                None => r == Err::<(), WriteError>(WriteError::Overflow) && *final(self) == *old(
                    self,
                ),
            },
            r is Ok ==> final(self).text() == old(self).text() + s@,
            forall|i: int|
                final(self)@.len() <= i < N ==> final(self).storage()[i] == old(self).storage()[i],
    {
        let bytes = s.as_bytes();
        let start = self.cursor;
        if bytes.len() > N - start {
            return Err(WriteError::Overflow);
        }
        let n = bytes.len();
        let mut i: usize = 0;
        while i < n
            invariant
                n == bytes@.len(),
                start + n <= N,
                i <= n,
                self.cursor == start,
                self@ == old(self)@,
                self.buffer@.subrange(start as int, start + i) == bytes@.subrange(0, i as int),
                forall|j: int| start + i <= j < N ==> self.buffer@[j] == old(self).buffer@[j],
            decreases n - i,
        {
            proof {
                assert(self.buffer@.update(start + i, bytes@[i as int]).subrange(0, start as int)
                    =~= self@);
            }
            self.buffer[start + i] = bytes[i];
            i += 1;
            proof {
                assert(self.buffer@.subrange(start as int, start + i) =~= bytes@.subrange(
                    0,
                    i as int,
                ));
            }
        }
        proof {
            assert(bytes@.subrange(0, n as int) =~= bytes@);
            assert(self.buffer@.subrange(0, start + n) =~= old(self)@ + bytes@);
            lemma_decode_append(old(self)@, s@);
        }
        self.cursor = start + n;
        Ok(())
    }
}

impl<const N: usize> WriteBuffer<N> {
    /// A buffer that holds nothing answers every query as a new buffer
    /// does, whatever was written to it before: its length is zero, it is
    /// empty, all of its capacity remains and its text is empty.
    pub proof fn lemma_emptied_as_new(&self, fresh: &Self)
        requires
            self@ == Seq::<u8>::empty(),
            fresh@ == Seq::<u8>::empty(),
        ensures
            self@ == fresh@,
            self.text() == fresh.text(),
            self.text() == Seq::<char>::empty(),
            self.spec_len() == fresh.spec_len(),
            self.spec_len() == 0,
            self.spec_is_empty() && fresh.spec_is_empty(),
            self.spec_remaining() == fresh.spec_remaining(),
            self.spec_remaining() == N,
            self.spec_is_full() == fresh.spec_is_full(),
            self.spec_is_full() == (N == 0),
    {
        assert(decode_utf8(Seq::<u8>::empty()) =~= Seq::<char>::empty());
    }

    /// A buffer is full exactly when no room remains, and then it holds as
    /// many bytes as its capacity.
    pub proof fn lemma_full_iff_none_remaining(&self)
        requires
            self.wf(),
        ensures
            self.spec_is_full() <==> self.spec_remaining() == 0,
            self.spec_is_full() <==> self.spec_len() == N,
            0 <= self.spec_remaining() <= N,
    {
    }
}

impl<const N: usize> Default for WriteBuffer<N> {
    /// The same as `new`.
    fn default() -> (b: Self)
        ensures
            b.wf(),
            b@ == Seq::<u8>::empty(),
    {
        Self::new()
    }
}

} // verus!
