//! Byte buffers of the `bytes` crate, and 32-bit words in network byte order.

use bytes::{Buf, BufMut, Bytes, BytesMut};
use vstd::prelude::*;

verus! {

/// `bytes::BytesMut`: a growable buffer that is read from the front and
/// written at the back.
#[verifier::external_type_specification]
#[verifier::external_body]
pub struct ExBytesMut(bytes::BytesMut);

/// `bytes::Bytes`: an immutable buffer that is read from the front.
#[verifier::external_type_specification]
#[verifier::external_body]
pub struct ExBytes(bytes::Bytes);

/// The bytes that a `Bytes` holds, first to last.
pub uninterp spec fn frozen(buffer: Bytes) -> Seq<u8>;

/// The bytes that a `BytesMut` holds, first to last.
pub uninterp spec fn held(buffer: BytesMut) -> Seq<u8>;

/// The four bytes of a word, most significant first.
pub open spec fn be_bytes(word: u32) -> Seq<u8> {
    seq![(word >> 24) as u8, (word >> 16) as u8, (word >> 8) as u8, word as u8]
}

/// The word whose bytes, most significant first, are the first four of
/// `bytes`.
pub open spec fn be_word(bytes: Seq<u8>) -> u32 {
    (bytes[0] as u32) << 24 | (bytes[1] as u32) << 16 | (bytes[2] as u32) << 8 | (bytes[3] as u32)
}

/// Reading a word back from its bytes gives the word, whatever follows them.
pub proof fn lemma_be_word_of_be_bytes(word: u32, rest: Seq<u8>)
    ensures
        be_word(be_bytes(word) + rest) == word,
        be_bytes(word).len() == 4,
        (be_bytes(word) + rest).skip(4) == rest,
{
    let bytes = be_bytes(word) + rest;
    assert(bytes[0] == (word >> 24) as u8);
    assert(bytes[1] == (word >> 16) as u8);
    assert(bytes[2] == (word >> 8) as u8);
    assert(bytes[3] == word as u8);
    assert((((word >> 24) as u8) as u32) << 24 | (((word >> 16) as u8) as u32) << 16 | (((word
        >> 8) as u8) as u32) << 8 | ((word as u8) as u32) == word) by (bit_vector);
    assert(bytes.skip(4) =~= rest);
}

/// Number of unread bytes, through `bytes::Buf::remaining` on `BytesMut`.
///
/// Trusted: the call returns the number of bytes that the buffer holds.
#[verifier::external_body]
pub(crate) fn remaining(buffer: &BytesMut) -> (count: usize)
    ensures
        count == held(*buffer).len(),
{
    buffer.remaining()
}

/// Reads a word through `bytes::Buf::get_u32` on `BytesMut`.
///
/// Trusted: the call returns the first four bytes as a word in network byte
/// order and removes them from the front. It panics on fewer than four bytes,
/// which the precondition excludes.
#[verifier::external_body]
pub(crate) fn get_u32(buffer: &mut BytesMut) -> (word: u32)
    requires
        held(*old(buffer)).len() >= 4,
    ensures
        word == be_word(held(*old(buffer))),
        held(*final(buffer)) == held(*old(buffer)).skip(4),
{
    buffer.get_u32()
}

/// Appends a word through `bytes::BufMut::put_u32` on `BytesMut`.
///
/// Trusted: the call appends the four bytes of the word in network byte
/// order, growing the buffer as needed. It may panic where the buffer cannot
/// grow by four bytes, which the precondition excludes.
#[verifier::external_body]
pub(crate) fn put_u32(buffer: &mut BytesMut, word: u32)
    requires
        held(*old(buffer)).len() + 4 <= isize::MAX,
    ensures
        held(*final(buffer)) == held(*old(buffer)) + be_bytes(word),
{
    buffer.put_u32(word)
}

/// An empty buffer through `bytes::BytesMut::with_capacity`.
///
/// Trusted: the call returns a buffer that holds no bytes. It panics where
/// the capacity exceeds what can be allocated, which the precondition
/// excludes.
#[verifier::external_body]
pub(crate) fn with_capacity(capacity: usize) -> (buffer: BytesMut)
    requires
        capacity <= isize::MAX,
    ensures
        held(buffer) == Seq::<u8>::empty(),
{
    BytesMut::with_capacity(capacity)
}

/// Empties a buffer through `bytes::BytesMut::clear`.
///
/// Trusted: after the call the buffer holds no bytes.
#[verifier::external_body]
pub(crate) fn clear(buffer: &mut BytesMut)
    ensures
        held(*final(buffer)) == Seq::<u8>::empty(),
{
    buffer.clear()
}

/// Makes a buffer immutable through `From<BytesMut>` for `bytes::Bytes`.
///
/// Trusted: the call keeps the bytes as they are.
#[verifier::external_body]
pub(crate) fn freeze(buffer: BytesMut) -> (bytes: Bytes)
    ensures
        frozen(bytes) == held(buffer),
{
    buffer.into()
}

/// Number of unread bytes, through `bytes::Buf::remaining` on `Bytes`.
///
/// Trusted: the call returns the number of bytes that the buffer holds.
#[verifier::external_body]
pub(crate) fn remaining_frozen(buffer: &Bytes) -> (count: usize)
    ensures
        count == frozen(*buffer).len(),
{
    buffer.remaining()
}

/// Reads a word through `bytes::Buf::get_u32` on `Bytes`.
///
/// Trusted: the call returns the first four bytes as a word in network byte
/// order and removes them from the front. It panics on fewer than four bytes,
/// which the precondition excludes.
#[verifier::external_body]
pub(crate) fn get_u32_frozen(buffer: &mut Bytes) -> (word: u32)
    requires
        frozen(*old(buffer)).len() >= 4,
    ensures
        word == be_word(frozen(*old(buffer))),
        frozen(*final(buffer)) == frozen(*old(buffer)).skip(4),
{
    buffer.get_u32()
}

} // verus!
