//! The receive and send buffers are `bytes::BytesMut` values. Verus cannot look
//! inside one, so this module names what a buffer holds and states, for each
//! method of the `bytes` crate that the library calls, what it does to that
//! content. None of these statements is proved: they are read off the crate.

use bytes::{Buf, BufMut, BytesMut};
use vstd::prelude::*;
use vstd::utf8::{decode_utf8, valid_utf8};

verus! {

/// `bytes::BytesMut`, carried as an opaque value.
#[verifier::external_type_specification]
#[verifier::external_body]
pub struct ExBytesMut(bytes::BytesMut);

/// The bytes that a buffer holds, first unread byte first.
pub uninterp spec fn contents(buf: BytesMut) -> Seq<u8>;

/// The largest length a buffer may grow to: growing reserves room in a vector,
/// which refuses more than `isize::MAX` bytes.
pub open spec fn max_len() -> int {
    isize::MAX as int
}

/// The unsigned number that `count` bytes form in big-endian order.
pub open spec fn be_value(bytes: Seq<u8>, count: nat) -> nat
    decreases count,
{
    if count == 0 {
        0
    } else {
        256 * be_value(bytes, (count - 1) as nat) + bytes[count - 1] as nat
    }
}

/// The `count` bytes that spell `value` in big-endian order (the low `count`
/// base-256 digits, most significant first).
pub open spec fn be_bytes(value: nat, count: nat) -> Seq<u8>
    decreases count,
{
    if count == 0 {
        Seq::<u8>::empty()
    } else {
        be_bytes(value / 256, (count - 1) as nat).push((value % 256) as u8)
    }
}

/// A number spelled in `count` bytes has `count` bytes.
pub proof fn lemma_be_bytes_len(value: nat, count: nat)
    ensures
        be_bytes(value, count).len() == count,
    decreases count,
{
    if count > 0 {
        lemma_be_bytes_len(value / 256, (count - 1) as nat);
    }
}

/// 256 to the power `exp`.
pub open spec fn pow256(exp: nat) -> nat
    decreases exp,
{
    if exp == 0 {
        1
    } else {
        256 * pow256((exp - 1) as nat)
    }
}

/// A number that fits in `count` bytes is read back from its big-endian
/// spelling, whatever bytes follow.
pub proof fn lemma_be_round_trip(value: nat, count: nat, rest: Seq<u8>)
    requires
        value < pow256(count),
    ensures
        be_value(be_bytes(value, count) + rest, count) == value,
    decreases count,
{
    if count > 0 {
        let less = (count - 1) as nat;
        let last = (value % 256) as u8;
        lemma_be_bytes_len(value / 256, less);
        lemma_be_round_trip(value / 256, less, seq![last] + rest);
        assert(be_bytes(value, count) + rest =~= be_bytes(value / 256, less) + (seq![last] + rest));
    }
}

/// The two's-complement reading of a 64-bit pattern.
pub open spec fn signed64(pattern: nat) -> int {
    if pattern < 0x8000_0000_0000_0000 {
        pattern as int
    } else {
        pattern - 0x1_0000_0000_0000_0000
    }
}

/// The 64-bit pattern of a signed value.
pub open spec fn pattern64(value: i64) -> nat {
    if value >= 0 {
        value as nat
    } else {
        (value + 0x1_0000_0000_0000_0000) as nat
    }
}

/// `BytesMut::new`: a buffer that holds nothing.
#[verifier::external_body]
pub(crate) fn new_buffer() -> (buf: BytesMut)
    ensures
        contents(buf) == Seq::<u8>::empty(),
{
    BytesMut::new()
}

/// `BytesMut::len`: the number of bytes held.
#[verifier::external_body]
pub(crate) fn buffer_len(buf: &BytesMut) -> (n: usize)
    ensures
        n == contents(*buf).len(),
{
    buf.len()
}

/// `AsRef<[u8]>::as_ref`: the bytes held, as a slice.
#[verifier::external_body]
pub(crate) fn as_slice(buf: &BytesMut) -> (bytes: &[u8])
    ensures
        bytes@ == contents(*buf),
{
    buf.as_ref()
}

/// Indexing through `Deref<Target = [u8]>`: the byte at a position, the buffer
/// untouched. Out of range it panics, so the position is required in range.
#[verifier::external_body]
pub(crate) fn byte_at(buf: &BytesMut, index: usize) -> (b: u8)
    requires
        index < contents(*buf).len(),
    ensures
        b == contents(*buf)[index as int],
{
    buf[index]
}

/// `Buf::advance`: drops the first `count` bytes. It panics past the end.
#[verifier::external_body]
pub(crate) fn advance(buf: &mut BytesMut, count: usize)
    requires
        count <= contents(*old(buf)).len(),
    ensures
        contents(*final(buf)) == contents(*old(buf)).skip(count as int),
{
    buf.advance(count)
}

/// `BytesMut::split_to`: hands out the first `at` bytes as a buffer of their
/// own and keeps the rest. It panics if `at` is past the end.
#[verifier::external_body]
pub(crate) fn split_to(buf: &mut BytesMut, at: usize) -> (head: BytesMut)
    requires
        at <= contents(*old(buf)).len(),
    ensures
        contents(head) == contents(*old(buf)).subrange(0, at as int),
        contents(*final(buf)) == contents(*old(buf)).skip(at as int),
{
    buf.split_to(at)
}

/// `Buf::copy_to_bytes`, the result copied into a vector: takes the first
/// `count` bytes out of the buffer. It panics if fewer are held.
#[verifier::external_body]
pub(crate) fn copy_to_vec(buf: &mut BytesMut, count: usize) -> (taken: Vec<u8>)
    requires
        count <= contents(*old(buf)).len(),
    ensures
        taken@ == contents(*old(buf)).subrange(0, count as int),
        contents(*final(buf)) == contents(*old(buf)).skip(count as int),
{
    buf.copy_to_bytes(count).to_vec()
}

/// `Buf::get_u16`: takes two bytes and reads them in big-endian order. It
/// panics if fewer are held.
#[verifier::external_body]
pub(crate) fn get_u16(buf: &mut BytesMut) -> (v: u16)
    requires
        contents(*old(buf)).len() >= 2,
    ensures
        v == be_value(contents(*old(buf)), 2),
        contents(*final(buf)) == contents(*old(buf)).skip(2),
{
    buf.get_u16()
}

/// `Buf::get_i64`: takes eight bytes and reads them in big-endian order as a
/// two's-complement number. It panics if fewer are held.
#[verifier::external_body]
pub(crate) fn get_i64(buf: &mut BytesMut) -> (v: i64)
    requires
        contents(*old(buf)).len() >= 8,
    ensures
        v == signed64(be_value(contents(*old(buf)), 8)),
        contents(*final(buf)) == contents(*old(buf)).skip(8),
{
    buf.get_i64()
}

/// `String::from_utf8`: the text that the bytes spell, where they are valid
/// UTF-8, and nothing where they are not.
#[verifier::external_body]
pub(crate) fn text_from_utf8(bytes: Vec<u8>) -> (text: Option<String>)
    ensures
        match text {
            Some(s) => valid_utf8(bytes@) && s@ == decode_utf8(bytes@),
            None => !valid_utf8(bytes@),
        },
{
    match String::from_utf8(bytes) {
        Ok(s) => Some(s),
        Err(_) => None,
    }
}

/// `BufMut::put_u8`: appends one byte, growing the buffer as needed.
#[verifier::external_body]
pub(crate) fn put_u8(buf: &mut BytesMut, b: u8)
    requires
        contents(*old(buf)).len() < max_len(),
    ensures
        contents(*final(buf)) == contents(*old(buf)).push(b),
{
    buf.put_u8(b)
}

/// `BufMut::put_slice`: appends the slice, growing the buffer as needed.
#[verifier::external_body]
pub(crate) fn put_slice(buf: &mut BytesMut, src: &[u8])
    requires
        contents(*old(buf)).len() + src@.len() <= max_len(),
    ensures
        contents(*final(buf)) == contents(*old(buf)) + src@,
{
    buf.put_slice(src)
}

/// `BufMut::put_u16`: appends the two bytes of `v`, big-endian.
#[verifier::external_body]
pub(crate) fn put_u16(buf: &mut BytesMut, v: u16)
    requires
        contents(*old(buf)).len() + 2 <= max_len(),
    ensures
        contents(*final(buf)) == contents(*old(buf)) + be_bytes(v as nat, 2),
{
    buf.put_u16(v)
}

/// `BufMut::put_i64`: appends the eight bytes of the two's-complement pattern
/// of `v`, big-endian.
#[verifier::external_body]
pub(crate) fn put_i64(buf: &mut BytesMut, v: i64)
    requires
        contents(*old(buf)).len() + 8 <= max_len(),
    ensures
        contents(*final(buf)) == contents(*old(buf)) + be_bytes(pattern64(v), 8),
{
    buf.put_i64(v)
}

} // verus!
