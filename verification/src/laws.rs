//! What writing and then reading gives back, stated over the model of the
//! buffer and proved from the contracts' own spec functions.

use vstd::prelude::*;
use vstd::utf8::{decode_utf8, encode_utf8, valid_utf8};
use crate::buffer::{
    after_read, after_read_var, read_signed, read_unsigned, read_var, text_len, text_payload,
    text_present, BufferState,
};
use crate::bigint::{lemma_reduced_in_range, reduced};
use crate::codec::{
    be_bytes, be_value, byte_limit, lemma_be_round_trip, lemma_byte_limit_values,
    lemma_signed_round_trip, lemma_var_len_bound, lemma_var_round_trip, limit32, limit64,
    signed_of, unsigned_of, var_bytes, var_len,
};
use crate::error::BufferError;
use crate::position::{
    field_x, field_y, field_z, lemma_position_round_trip, narrow_field, packed_word, wide_field,
};

verus! {

/// A state in which everything written has been read: the cursors meet at
/// the end of the bytes.
pub open spec fn drained(s: BufferState) -> bool {
    s.read_pos == s.write_pos && s.write_pos == s.bytes.len()
}

/// What is written to a drained buffer is exactly what can be read next.
pub proof fn lemma_written_is_readable(s: BufferState, data: Seq<u8>)
    requires
        drained(s),
    ensures
        s.append(data).wf(),
        s.append(data).readable() == data,
        s.append(data).available() == data.len(),
        forall|n: nat| n <= data.len() ==> #[trigger] s.append(data).front(n) == data.subrange(0, n as int),
        drained(s.append(data).advance(data.len())),
{
    let t = s.append(data);
    assert(t.readable() =~= data);
    assert forall|n: nat| n <= data.len() implies #[trigger] t.front(n) == data.subrange(
        0,
        n as int,
    ) by {
        assert(t.front(n) =~= data.subrange(0, n as int));
    }
}

/// A byte written to a drained buffer is the byte read next.
pub proof fn lemma_byte_round_trip(s: BufferState, b: u8)
    requires
        drained(s),
    ensures
        s.append(seq![b]).available() == 1,
        s.append(seq![b]).bytes[s.append(seq![b]).read_pos as int] == b,
        drained(after_read(s.append(seq![b]), 1)),
{
    lemma_written_is_readable(s, seq![b]);
}

/// A signed byte comes back from the byte that stands for it.
pub proof fn lemma_signed_byte_round_trip(v: i8)
    ensures
        signed_of(unsigned_of(v as int, 0x100) as u8 as int, 0x100) == v,
{
    lemma_signed_round_trip(v as int, 0x100);
}

/// An unsigned number that fits in `n` bytes, written big-endian to a
/// drained buffer, is read back unchanged, and the buffer is drained again.
pub proof fn lemma_unsigned_round_trip(s: BufferState, v: nat, n: nat)
    requires
        drained(s),
        v < byte_limit(n),
    ensures
        read_unsigned(s.append(be_bytes(v, n)), n) == Ok::<int, BufferError>(v as int),
        drained(after_read(s.append(be_bytes(v, n)), n)),
{
    lemma_be_round_trip(v, n);
    lemma_written_is_readable(s, be_bytes(v, n));
    assert(be_bytes(v, n).subrange(0, n as int) =~= be_bytes(v, n));
}

/// A signed number within the two's-complement range of `n` bytes, written
/// big-endian to a drained buffer, is read back unchanged.
pub proof fn lemma_signed_round_trip_bytes(s: BufferState, v: int, n: nat)
    requires
        drained(s),
        n >= 1,
        -(byte_limit(n) / 2) <= v < byte_limit(n) / 2,
    ensures
        read_signed(s.append(be_bytes(unsigned_of(v, byte_limit(n) as int) as nat, n)), n) == Ok::<
            int,
            BufferError,
        >(v),
        drained(after_read(s.append(be_bytes(unsigned_of(v, byte_limit(n) as int) as nat, n)), n)),
{
    let m = byte_limit(n) as int;
    assert(m % 2 == 0) by {
        assert(byte_limit(n) == 256 * byte_limit((n - 1) as nat));
    }
    lemma_signed_round_trip(v, m);
    lemma_unsigned_round_trip(s, unsigned_of(v, m) as nat, n);
}

/// A 32-bit or 64-bit signed number, written in base 128 to a drained
/// buffer, is read back unchanged, and the buffer is drained again.
pub proof fn lemma_var_round_trip_buffer(s: BufferState, v: int, modulus: int)
    requires
        drained(s),
        modulus == limit32() || modulus == limit64(),
        -(modulus / 2) <= v < modulus / 2,
    ensures
        read_var(s.append(var_bytes(unsigned_of(v, modulus) as nat)), modulus) == Ok::<
            int,
            BufferError,
        >(v),
        drained(after_read_var(s.append(var_bytes(unsigned_of(v, modulus) as nat)))),
{
    let word = unsigned_of(v, modulus) as nat;
    lemma_signed_round_trip(v, modulus);
    lemma_var_round_trip(word, Seq::empty());
    assert(var_bytes(word) + Seq::<u8>::empty() =~= var_bytes(word));
    lemma_written_is_readable(s, var_bytes(word));
    vstd::arithmetic::div_mod::lemma_small_mod(word, modulus as nat);
}

/// A text whose UTF-8 form is shorter than 2 to the power 31 bytes, written
/// with its length prefix to a drained buffer, is read back unchanged.
pub proof fn lemma_text_round_trip(s: BufferState, chars: Seq<char>)
    requires
        drained(s),
        encode_utf8(chars).len() < 0x8000_0000,
    ensures
        ({
            let data = var_bytes(encode_utf8(chars).len() % (limit32() as nat))
                + encode_utf8(chars);
            let t = s.append(data);
            &&& text_present(t)
            &&& valid_utf8(text_payload(t))
            &&& decode_utf8(text_payload(t)) == chars
            &&& drained(t.advance((var_len(t.readable()) + text_len(t)) as nat))
        }),
{
    let body = encode_utf8(chars);
    let len = body.len();
    let prefix = var_bytes(len % (limit32() as nat));
    let t = s.append(prefix + body);
    lemma_written_is_readable(s, prefix + body);
    lemma_var_round_trip(len, body);
    vstd::arithmetic::div_mod::lemma_small_mod(len, limit32() as nat);
    assert(text_payload(t) =~= body);
    vstd::utf8::encode_utf8_valid_utf8(chars);
    vstd::utf8::encode_utf8_decode_utf8(chars);
}

/// The empty text is written as the single byte 0.
pub proof fn lemma_empty_text_bytes()
    ensures
        var_bytes(encode_utf8(Seq::<char>::empty()).len() % (limit32() as nat)) + encode_utf8(
            Seq::<char>::empty(),
        ) == seq![0u8],
{
    assert(encode_utf8(Seq::<char>::empty()) =~= Seq::<u8>::empty());
    assert(var_bytes(0) + Seq::<u8>::empty() =~= seq![0u8]);
}

/// A position whose coordinates lie within their fields' unsigned ranges,
/// written to a drained buffer, is read back unchanged.
pub proof fn lemma_position_round_trip_buffer(s: BufferState, x: int, y: int, z: int)
    requires
        drained(s),
        0 <= x < wide_field(),
        0 <= y < narrow_field(),
        0 <= z < wide_field(),
    ensures
        ({
            let t = s.append(be_bytes(packed_word(x, y, z) as nat, 8));
            &&& t.available() >= 8
            &&& field_x(be_value(t.front(8)) as int) == x
            &&& field_y(be_value(t.front(8)) as int) == y
            &&& field_z(be_value(t.front(8)) as int) == z
            &&& drained(after_read(t, 8))
        }),
{
    lemma_position_round_trip(x, y, z);
    crate::codec::lemma_byte_limit_values();
    lemma_unsigned_round_trip(s, packed_word(x, y, z) as nat, 8);
}

/// A number given as a sign and a magnitude within the 64-bit signed range,
/// written as eight bytes to a drained buffer, is read back unchanged.
pub proof fn lemma_wide_round_trip(s: BufferState, sign_bit: bool, low: nat)
    requires
        drained(s),
        if sign_bit { low <= 0x8000_0000_0000_0000 } else { low < 0x8000_0000_0000_0000 },
    ensures
        read_signed(
            s.append(be_bytes(unsigned_of(reduced(sign_bit, low), limit64()) as nat, 8)),
            8,
        ) == Ok::<int, BufferError>(if sign_bit { -(low as int) } else { low as int }),
{
    lemma_reduced_in_range(sign_bit, low);
    lemma_byte_limit_values();
    lemma_signed_round_trip_bytes(s, reduced(sign_bit, low), 8);
}

/// Cursors stay in order: from a state whose cursors are in order and
/// inside the bytes, every read, whether it succeeds or fails, and every
/// write leads to such a state again. A read never moves the read cursor
/// beyond the write cursor, and a write moves the write cursor by exactly
/// the number of bytes appended.
pub proof fn lemma_cursors_stay_in_order(s: BufferState, n: nat, data: Seq<u8>)
    requires
        s.wf(),
    ensures
        after_read(s, n).wf(),
        after_read_var(s).wf(),
        text_present(s) ==> s.advance((var_len(s.readable()) + text_len(s)) as nat).wf(),
        s.append(data).wf(),
        s.append(data).write_pos == s.write_pos + data.len(),
        s.append(data).read_pos == s.read_pos,
        after_read(s, n).write_pos == s.write_pos,
        after_read_var(s).write_pos == s.write_pos,
{
    lemma_var_len_bound(s.readable());
}

/// A read that fails for want of bytes leaves the bytes and both cursors
/// as they were.
pub proof fn lemma_failed_read_keeps_state(s: BufferState, n: nat)
    requires
        s.available() < n,
    ensures
        after_read(s, n) == s,
        read_unsigned(s, n) == Err::<int, BufferError>(BufferError::Underflow),
        read_signed(s, n) == Err::<int, BufferError>(BufferError::Underflow),
{
}

} // verus!
