//! The variable-length integer of the wire format: a 32-bit pattern in one to
//! five bytes, seven bits a byte, least significant group first, the top bit
//! of a byte saying that another follows.

use crate::buffer::{advance, buffer_len, byte_at, contents, max_len, put_u8};
use crate::packets::{PacketError, PacketErrorView};
use bytes::BytesMut;
use vstd::prelude::*;

verus! {

/// The two's-complement reading of the low 32 bits of `pattern`.
pub open spec fn signed32(pattern: nat) -> int {
    let low = pattern % 0x1_0000_0000;
    if low < 0x8000_0000 {
        low as int
    } else {
        low - 0x1_0000_0000
    }
}

/// The 32-bit pattern of a signed value.
pub open spec fn pattern32(value: i32) -> nat {
    if value >= 0 {
        value as nat
    } else {
        (value + 0x1_0000_0000) as nat
    }
}

/// The bytes that spell an unsigned number: base-128 digits, least significant
/// first, every byte but the last with its top bit set.
pub open spec fn varint_bytes(pattern: nat) -> Seq<u8>
    decreases pattern,
{
    if pattern < 128 {
        seq![pattern as u8]
    } else {
        seq![(pattern % 128 + 128) as u8] + varint_bytes(pattern / 128)
    }
}

/// The encoding of a signed value: that of its 32-bit pattern.
pub open spec fn encode_varint(value: i32) -> Seq<u8> {
    varint_bytes(pattern32(value))
}

/// The position, at or after `from`, of the first byte whose top bit is clear;
/// the length of `bytes` if there is none.
pub open spec fn stop_index(bytes: Seq<u8>, from: nat) -> nat
    decreases bytes.len() - from,
{
    if from < bytes.len() && bytes[from as int] >= 128 {
        stop_index(bytes, from + 1)
    } else {
        from
    }
}

/// 128 to the power `exp`.
pub open spec fn pow128(exp: nat) -> nat
    decreases exp,
{
    if exp == 0 {
        1
    } else {
        128 * pow128((exp - 1) as nat)
    }
}

/// The number that the low seven bits of the first `count` bytes form, least
/// significant group first.
pub open spec fn groups_value(bytes: Seq<u8>, count: nat) -> nat
    decreases count,
{
    if count == 0 {
        0
    } else {
        groups_value(bytes, (count - 1) as nat) + (bytes[count - 1] % 128) as nat * pow128(
            (count - 1) as nat,
        )
    }
}

/// What the head of a byte sequence decodes to.
pub enum VarIntParse {
    /// A value, and the number of bytes that spell it.
    Value { value: i32, used: nat },
    /// Five bytes went by and the fifth still announced another.
    TooLong,
    /// The bytes ran out before one with a clear top bit.
    Incomplete,
}

/// Decoding the head of `bytes`. Bits of the fifth byte that fall outside the
/// 32-bit pattern are dropped.
pub open spec fn decode_varint(bytes: Seq<u8>) -> VarIntParse {
    let stop = stop_index(bytes, 0);
    if stop >= 5 {
        VarIntParse::TooLong
    } else if stop >= bytes.len() {
        VarIntParse::Incomplete
    } else {
        VarIntParse::Value {
            value: signed32(groups_value(bytes, stop + 1)) as i32,
            used: stop + 1,
        }
    }
}

/// What a destructive read of the head of `bytes` leaves behind: the bytes
/// after the integer; after the fifth byte where the integer is too long;
/// nothing where the bytes ran out.
pub open spec fn after_varint(bytes: Seq<u8>) -> Seq<u8> {
    match decode_varint(bytes) {
        VarIntParse::Value { used, .. } => bytes.skip(used as int),
        VarIntParse::TooLong => bytes.skip(5),
        VarIntParse::Incomplete => Seq::<u8>::empty(),
    }
}

/// The error that a failed read of the head of `bytes` gives.
pub open spec fn varint_error(bytes: Seq<u8>) -> PacketErrorView {
    if decode_varint(bytes) == VarIntParse::TooLong {
        PacketErrorView::InvalidVarInt
    } else {
        PacketErrorView::InsufficientData
    }
}

/// The stop position never lies before the start nor past the end.
pub proof fn lemma_stop_index_bounds(bytes: Seq<u8>, from: nat)
    requires
        from <= bytes.len(),
    ensures
        from <= stop_index(bytes, from) <= bytes.len(),
        forall|j: int| from <= j < stop_index(bytes, from) ==> bytes[j] >= 128,
        stop_index(bytes, from) < bytes.len() ==> bytes[stop_index(bytes, from) as int] < 128,
    decreases bytes.len() - from,
{
    if from < bytes.len() && bytes[from as int] >= 128 {
        lemma_stop_index_bounds(bytes, from + 1);
    }
}

/// Where the bytes from `from` up to `stop` all announce another byte and the
/// one at `stop` does not (or is missing), the stop position is `stop`.
pub proof fn lemma_stop_index_is(bytes: Seq<u8>, from: nat, stop: nat)
    requires
        from <= stop <= bytes.len(),
        forall|j: int| from <= j < stop ==> bytes[j] >= 128,
        stop < bytes.len() ==> bytes[stop as int] < 128,
    ensures
        stop_index(bytes, from) == stop,
    decreases stop - from,
{
    if from < stop {
        lemma_stop_index_is(bytes, from + 1, stop);
    }
}

/// Putting one byte in front shifts every group up by seven bits.
pub proof fn lemma_groups_value_shift(first: u8, tail: Seq<u8>, count: nat)
    requires
        count <= tail.len(),
    ensures
        groups_value(seq![first] + tail, count + 1) == (first % 128) as nat + 128 * groups_value(
            tail,
            count,
        ),
    decreases count,
{
    let whole = seq![first] + tail;
    if count == 0 {
        assert(groups_value(whole, 0) == 0);
        assert(pow128(0) == 1);
        assert(whole[0] == first);
        assert(groups_value(tail, 0) == 0);
        assert(groups_value(whole, 1) == groups_value(whole, 0) + (whole[0] % 128) as nat * pow128(
            0,
        ));
    } else {
        let prev = (count - 1) as nat;
        lemma_groups_value_shift(first, tail, prev);
        assert(whole[count as int] == tail[count - 1]);
        let g = (tail[count - 1] % 128) as nat;
        assert(pow128(count) == 128 * pow128(prev));
        assert(g * (128 * pow128(prev)) == 128 * (g * pow128(prev))) by (nonlinear_arith);
        assert(groups_value(tail, count) == groups_value(tail, prev) + g * pow128(prev));
        assert(groups_value(whole, count + 1) == groups_value(whole, count) + g * pow128(count));
        assert(g * pow128(count) == 128 * (g * pow128(prev)));
    }
}

/// The shape of an encoding: for a pattern below 128 to the power `width` it
/// has between one and `width` bytes, all but the last with the top bit set,
/// and their groups spell the pattern, whatever bytes follow.
pub proof fn lemma_varint_bytes_shape(pattern: nat, width: nat, rest: Seq<u8>)
    requires
        width >= 1,
        pattern < pow128(width),
    ensures
        1 <= varint_bytes(pattern).len() <= width,
        forall|j: int|
            0 <= j < varint_bytes(pattern).len() - 1 ==> (varint_bytes(pattern) + rest)[j] >= 128,
        (varint_bytes(pattern) + rest)[varint_bytes(pattern).len() - 1] < 128,
        groups_value(varint_bytes(pattern) + rest, varint_bytes(pattern).len()) == pattern,
    decreases pattern,
{
    let enc = varint_bytes(pattern);
    if pattern < 128 {
        assert(enc =~= seq![pattern as u8]);
        assert(pow128(0) == 1);
        assert((enc + rest)[0] == pattern as u8);
        assert(groups_value(enc + rest, 0) == 0);
        assert(groups_value(enc + rest, 1) == groups_value(enc + rest, 0) + ((enc + rest)[0]
            % 128) as nat * pow128(0));
    } else {
        assert(pow128(1) == 128 * pow128(0));
        assert(pow128(0) == 1);
        assert(width >= 2);
        let less = (width - 1) as nat;
        assert(pow128(width) == 128 * pow128(less));
        let first = (pattern % 128 + 128) as u8;
        let tail = varint_bytes(pattern / 128);
        lemma_varint_bytes_shape(pattern / 128, less, rest);
        assert(enc =~= seq![first] + tail);
        assert(enc + rest =~= seq![first] + (tail + rest));
        lemma_groups_value_shift(first, tail + rest, tail.len());
        assert forall|j: int| 0 <= j < enc.len() - 1 implies (enc + rest)[j] >= 128 by {
            if j > 0 {
                assert((enc + rest)[j] == (tail + rest)[j - 1]);
            }
        }
        assert((enc + rest)[enc.len() - 1] == (tail + rest)[tail.len() - 1]);
    }
}

/// Round trip: whatever follows it in the buffer, the encoding of a value
/// decodes to that value and to its own length, which is one to five bytes.
pub proof fn lemma_varint_round_trip(value: i32, rest: Seq<u8>)
    ensures
        1 <= encode_varint(value).len() <= 5,
        decode_varint(encode_varint(value) + rest) == (VarIntParse::Value {
            value,
            used: encode_varint(value).len(),
        }),
        decode_varint(encode_varint(value)) == (VarIntParse::Value {
            value,
            used: encode_varint(value).len(),
        }),
{
    let pattern = pattern32(value);
    let enc = encode_varint(value);
    assert(pow128(5) == 0x8_0000_0000) by {
        reveal_with_fuel(pow128, 6);
    }
    lemma_varint_bytes_shape(pattern, 5, rest);
    lemma_stop_index_is(enc + rest, 0, (enc.len() - 1) as nat);
    lemma_varint_bytes_shape(pattern, 5, Seq::<u8>::empty());
    assert(enc + Seq::<u8>::empty() =~= enc);
    lemma_stop_index_is(enc, 0, (enc.len() - 1) as nat);
}

/// An integer is too long exactly when the first five bytes are there and each
/// announces another: a sixth byte is never read.
pub proof fn lemma_varint_too_long(bytes: Seq<u8>)
    ensures
        decode_varint(bytes) == VarIntParse::TooLong <==> (bytes.len() >= 5 && forall|j: int|
            0 <= j < 5 ==> bytes[j] >= 128),
{
    lemma_stop_index_bounds(bytes, 0);
}

/// A decoded integer uses one to five bytes, all of them present.
pub proof fn lemma_varint_used(bytes: Seq<u8>)
    ensures
        decode_varint(bytes) matches VarIntParse::Value { used, .. } ==> 1 <= used <= 5 && used
            <= bytes.len(),
{
    lemma_stop_index_bounds(bytes, 0);
}

/// The groups of the first `count` bytes do not depend on what follows them.
pub proof fn lemma_groups_value_prefix(bytes: Seq<u8>, cut: int, count: nat)
    requires
        count <= cut <= bytes.len(),
    ensures
        groups_value(bytes.subrange(0, cut), count) == groups_value(bytes, count),
    decreases count,
{
    if count > 0 {
        lemma_groups_value_prefix(bytes, cut, (count - 1) as nat);
        assert(bytes.subrange(0, cut)[count - 1] == bytes[count - 1]);
    }
}

/// Cutting a buffer short: where the head of `bytes` decodes to a value, a
/// prefix that still holds all of its bytes decodes to the same, and a shorter
/// one is incomplete, never an error.
pub proof fn lemma_decode_prefix(bytes: Seq<u8>, cut: int)
    requires
        0 <= cut <= bytes.len(),
        decode_varint(bytes) is Value,
    ensures
        cut >= decode_varint(bytes)->used ==> decode_varint(bytes.subrange(0, cut))
            == decode_varint(bytes),
        cut < decode_varint(bytes)->used ==> decode_varint(bytes.subrange(0, cut))
            == VarIntParse::Incomplete,
{
    let stop = stop_index(bytes, 0);
    let head = bytes.subrange(0, cut);
    lemma_stop_index_bounds(bytes, 0);
    if cut > stop {
        lemma_stop_index_is(head, 0, stop);
        lemma_groups_value_prefix(bytes, cut, stop + 1);
    } else {
        lemma_stop_index_is(head, 0, cut as nat);
    }
}

/// The signed reading of an accumulated pattern.
fn to_signed(pattern: u64) -> (value: i32)
    ensures
        value == signed32(pattern as nat),
{
    let low: u64 = pattern % 0x1_0000_0000;
    if low < 0x8000_0000 {
        low as i32
    } else {
        (low as i64 - 0x1_0000_0000) as i32
    }
}

/// The 32-bit pattern of a signed value.
fn to_pattern(value: i32) -> (pattern: u32)
    ensures
        pattern == pattern32(value),
{
    if value >= 0 {
        value as u32
    } else {
        (value as i64 + 0x1_0000_0000) as u32
    }
}

/// Decodes the integer at the head of the buffer without taking anything out
/// of it.
pub fn peek_varint(buf: &BytesMut) -> (r: Result<(i32, usize), PacketError>)
    ensures
        match decode_varint(contents(*buf)) {
            VarIntParse::Value { value, used } => r == Ok::<(i32, usize), PacketError>(
                (value, used as usize),
            ),
            VarIntParse::TooLong => r == Err::<(i32, usize), PacketError>(
                PacketError::InvalidVarInt,
            ),
            VarIntParse::Incomplete => r == Err::<(i32, usize), PacketError>(
                PacketError::InsufficientData,
            ),
        },
{
    let len: usize = buffer_len(buf);
    let ghost bytes = contents(*buf);
    let mut index: usize = 0;
    let mut acc: u64 = 0;
    let mut scale: u64 = 1;
    loop
        invariant
            bytes == contents(*buf),
            len == bytes.len(),
            index <= 5,
            index <= len,
            stop_index(bytes, 0) == stop_index(bytes, index as nat),
            acc == groups_value(bytes, index as nat),
            scale == pow128(index as nat),
            acc < scale,
            index == 0 ==> scale == 1,
            index == 1 ==> scale == 0x80,
            index == 2 ==> scale == 0x4000,
            index == 3 ==> scale == 0x20_0000,
            index == 4 ==> scale == 0x1000_0000,
            index == 5 ==> scale == 0x8_0000_0000,
        decreases 5 - index,
    {
        if index >= 5 {
            proof {
                lemma_stop_index_bounds(bytes, index as nat);
            }
            return Err(PacketError::InvalidVarInt);
        }
        if index >= len {
            return Err(PacketError::InsufficientData);
        }
        let b: u8 = byte_at(buf, index);
        let group: u64 = (b % 128) as u64;
        assert(group * scale <= 127 * scale) by (nonlinear_arith)
            requires
                group <= 127,
        ;
        acc = acc + group * scale;
        index = index + 1;
        if b < 128 {
            return Ok((to_signed(acc), index));
        }
        scale = scale * 128;
    }
}

/// Reads the integer at the head of the buffer and takes its bytes out. On
/// failure the bytes that were looked at are gone too: five if the integer is
/// too long, all of them if they ran out.
pub fn read_varint(buf: &mut BytesMut) -> (r: Result<(i32, usize), PacketError>)
    ensures
        match decode_varint(contents(*old(buf))) {
            VarIntParse::Value { value, used } => {
                &&& r == Ok::<(i32, usize), PacketError>((value, used as usize))
                &&& contents(*final(buf)) == contents(*old(buf)).skip(used as int)
            },
            VarIntParse::TooLong => {
                &&& r == Err::<(i32, usize), PacketError>(PacketError::InvalidVarInt)
                &&& contents(*final(buf)) == contents(*old(buf)).skip(5)
            },
            VarIntParse::Incomplete => {
                &&& r == Err::<(i32, usize), PacketError>(PacketError::InsufficientData)
                &&& contents(*final(buf)) == Seq::<u8>::empty()
            },
        },
{
    let len: usize = buffer_len(buf);
    proof {
        lemma_stop_index_bounds(contents(*buf), 0);
    }
    let peeked = peek_varint(buf);
    match peeked {
        Ok((value, used)) => {
            advance(buf, used);
            Ok((value, used))
        },
        Err(PacketError::InsufficientData) => {
            advance(buf, len);
            assert(contents(*buf) =~= Seq::<u8>::empty());
            Err(PacketError::InsufficientData)
        },
        Err(e) => {
            advance(buf, 5);
            Err(e)
        },
    }
}

/// Appends the encoding of `value` to the buffer.
pub fn write_varint(buf: &mut BytesMut, value: i32)
    requires
        contents(*old(buf)).len() + encode_varint(value).len() <= max_len(),
    ensures
        contents(*final(buf)) == contents(*old(buf)) + encode_varint(value),
{
    let ghost start = contents(*buf);
    let ghost whole = encode_varint(value);
    let mut rest: u32 = to_pattern(value);
    let mut emitted: usize = 0;
    loop
        invariant
            start == contents(*old(buf)),
            whole == encode_varint(value),
            contents(*buf) + varint_bytes(rest as nat) == start + whole,
            start.len() + whole.len() <= max_len(),
            emitted <= 4,
            emitted == 1 ==> rest < 0x200_0000,
            emitted == 2 ==> rest < 0x4_0000,
            emitted == 3 ==> rest < 0x800,
            emitted == 4 ==> rest < 0x10,
        decreases 5 - emitted,
    {
        let ghost before = contents(*buf);
        let low: u8 = (rest % 128) as u8;
        let next: u32 = rest / 128;
        assert((contents(*buf) + varint_bytes(rest as nat)).len() == (start + whole).len());
        if next == 0 {
            assert(varint_bytes(rest as nat) =~= seq![low]);
            put_u8(buf, low);
            assert(before.push(low) =~= before + seq![low]);
            return ;
        }
        assert(varint_bytes(rest as nat) =~= seq![(low + 128) as u8] + varint_bytes(next as nat));
        put_u8(buf, low + 128);
        assert(contents(*buf) + varint_bytes(next as nat) =~= before + varint_bytes(rest as nat));
        rest = next;
        emitted = emitted + 1;
    }
}

} // verus!
