//! The byte buffer with its read and write cursors.

use vstd::prelude::*;
use vstd::slice::{slice_subrange, slice_to_vec};
use vstd::utf8::{decode_utf8, encode_utf8, valid_utf8};
use crate::bigint::{bigint_value, BigInt};
use crate::codec::{
    be_bytes, be_value, byte_limit, decode_be, decode_var, encode_be, encode_var, limit16,
    limit32, limit64, lemma_be_value_bound, lemma_byte_limit_values, lemma_var_bytes_len_word,
    signed_of, truncate, unsigned_of, var_bytes, var_complete, var_len, var_value, wrap_signed,
    wrap_unsigned,
};
use crate::error::BufferError;
use crate::position::{field_x, field_y, field_z, packed_word, Position};
use crate::text::{uuid_format, uuid_parse, uuid_parse_text, uuid_text, utf8_to_string};

verus! {

/// What a buffer is: its bytes and its two cursors.
pub ghost struct BufferState {
    pub bytes: Seq<u8>,
    pub read_pos: nat,
    pub write_pos: nat,
}

impl BufferState {
    /// The cursors are in order and inside the bytes. Every operation but
    /// the two cursor setters keeps this.
    pub open spec fn wf(self) -> bool {
        self.read_pos <= self.write_pos <= self.bytes.len()
    }

    /// Where reading ends: the write cursor, or the end of the bytes where
    /// the write cursor lies beyond it.
    pub open spec fn read_end(self) -> nat {
        if self.write_pos <= self.bytes.len() {
            self.write_pos
        } else {
            self.bytes.len()
        }
    }

    /// The number of bytes that can be read.
    pub open spec fn available(self) -> nat {
        if self.read_pos <= self.read_end() {
            (self.read_end() - self.read_pos) as nat
        } else {
            0
        }
    }

    /// The distance from the read cursor to the write cursor.
    pub open spec fn remaining(self) -> nat {
        if self.read_pos <= self.write_pos {
            (self.write_pos - self.read_pos) as nat
        } else {
            0
        }
    }

    /// The bytes that can be read, from the read cursor on.
    pub open spec fn readable(self) -> Seq<u8> {
        if self.read_pos <= self.read_end() {
            self.bytes.subrange(self.read_pos as int, self.read_end() as int)
        } else {
            Seq::empty()
        }
    }

    /// The first `n` readable bytes.
    pub open spec fn front(self, n: nat) -> Seq<u8> {
        self.bytes.subrange(self.read_pos as int, (self.read_pos + n) as int)
    }

    /// The state after `n` bytes were consumed.
    pub open spec fn advance(self, n: nat) -> BufferState {
        BufferState { read_pos: self.read_pos + n, ..self }
    }

    /// The state after `data` was written.
    pub open spec fn append(self, data: Seq<u8>) -> BufferState {
        BufferState {
            bytes: self.bytes + data,
            write_pos: self.write_pos + data.len(),
            ..self
        }
    }

    /// Whether `n` more bytes can be written without the write cursor
    /// leaving the range of `usize`. It holds of every well-formed state.
    pub open spec fn can_append(self, n: nat) -> bool {
        self.write_pos <= self.bytes.len() || self.write_pos + n <= usize::MAX
    }
}

/// The result of reading a big-endian unsigned number of `n` bytes.
pub open spec fn read_unsigned(s: BufferState, n: nat) -> Result<int, BufferError> {
    if s.available() >= n {
        Ok(be_value(s.front(n)) as int)
    } else {
        Err(BufferError::Underflow)
    }
}

/// The result of reading a big-endian two's-complement number of `n` bytes.
pub open spec fn read_signed(s: BufferState, n: nat) -> Result<int, BufferError> {
    if s.available() >= n {
        Ok(signed_of(be_value(s.front(n)) as int, byte_limit(n) as int))
    } else {
        Err(BufferError::Underflow)
    }
}

/// The state after an attempt to read `n` bytes: advanced by `n` where that
/// many can be read, else unchanged.
pub open spec fn after_read(s: BufferState, n: nat) -> BufferState {
    if s.available() >= n {
        s.advance(n)
    } else {
        s
    }
}

/// The result of reading a base-128 number reduced to a word of `modulus`
/// values and read as two's complement.
pub open spec fn read_var(s: BufferState, modulus: int) -> Result<int, BufferError> {
    if var_complete(s.readable()) {
        Ok(signed_of((var_value(s.readable()) as int) % modulus, modulus))
    } else {
        Err(BufferError::Underflow)
    }
}

/// The state after an attempt to read a base-128 number.
pub open spec fn after_read_var(s: BufferState) -> BufferState {
    if var_complete(s.readable()) {
        s.advance(var_len(s.readable()))
    } else {
        s
    }
}

/// The length prefix of a text at the read cursor.
pub open spec fn text_len(s: BufferState) -> int {
    signed_of((var_value(s.readable()) as int) % limit32(), limit32())
}

/// Whether a whole length-prefixed text can be read: the prefix is whole and
/// not negative, and as many bytes follow it as it says.
pub open spec fn text_present(s: BufferState) -> bool {
    &&& var_complete(s.readable())
    &&& 0 <= text_len(s)
    &&& var_len(s.readable()) + text_len(s) <= s.available()
}

/// The bytes of the text that follows the length prefix.
pub open spec fn text_payload(s: BufferState) -> Seq<u8> {
    s.readable().subrange(
        var_len(s.readable()) as int,
        var_len(s.readable()) + text_len(s),
    )
}

/// A growable sequence of bytes with a read cursor and a write cursor.
pub struct MineBuffer {
    buf: Vec<u8>,
    r_pos: usize,
    w_pos: usize,
}

impl View for MineBuffer {
    type V = BufferState;

    closed spec fn view(&self) -> BufferState {
        BufferState {
            bytes: self.buf@,
            read_pos: self.r_pos as nat,
            write_pos: self.w_pos as nat,
        }
    }
}

impl MineBuffer {
    /// A buffer that holds a copy of `buf`, or nothing. The write cursor
    /// stands at the end, the read cursor at the start.
    pub fn new(buf: Option<Vec<u8>>) -> (b: Self)
        ensures
            b@.bytes == (match buf {
                Some(v) => v@,
                None => Seq::<u8>::empty(),
            }),
            b@.read_pos == 0,
            b@.write_pos == b@.bytes.len(),
            b@.wf(),
    {
        let vec: Vec<u8> = match buf {
            Some(v) => v,
            None => Vec::new(),
        };
        let len: usize = vec.len();
        MineBuffer { buf: vec, r_pos: 0, w_pos: len }
    }

    /// Asks the storage to make room for `size` more bytes. Nothing that
    /// can be observed changes.
    pub fn reserve(&mut self, size: usize)
        ensures
            final(self)@ == old(self)@,
    {
        self.buf.reserve(size);
    }

    /// `reserve` for a size given as a signed number.
    pub fn reserve_js(&mut self, size: i64)
        requires
            0 <= size <= usize::MAX,
        ensures
            final(self)@ == old(self)@,
    {
        self.reserve(size as usize);
    }

    /// The readable bytes.
    pub fn get_buffer(&self) -> (out: &[u8])
        ensures
            out@ == self@.readable(),
    {
        let end: usize = self.read_end();
        if self.r_pos <= end {
            slice_subrange(self.buf.as_slice(), self.r_pos, end)
        } else {
            let out = slice_subrange(self.buf.as_slice(), 0, 0);
            proof {
                assert(out@ =~= Seq::<u8>::empty());
            }
            out
        }
    }

    fn read_end(&self) -> (end: usize)
        ensures
            end == self@.read_end(),
            end <= self.buf@.len(),
    {
        let len: usize = self.buf.len();
        if self.w_pos <= len {
            self.w_pos
        } else {
            len
        }
    }

    /// Whether `n` bytes can be read.
    fn ready(&self, n: usize) -> (ok: bool)
        requires
            n >= 1,
        ensures
            ok == (n <= self@.available()),
            ok ==> self.r_pos + n <= self.buf@.len() && self.r_pos + n <= self@.read_end(),
    {
        let end: usize = self.read_end();
        self.r_pos <= end && end - self.r_pos >= n
    }

    /// The distance from the read cursor to the write cursor; 0 where the
    /// read cursor lies beyond the write cursor.
    pub fn remaining(&self) -> (n: usize)
        ensures
            n == self@.remaining(),
    {
        if self.r_pos <= self.w_pos {
            self.w_pos - self.r_pos
        } else {
            0
        }
    }

    /// A copy of the readable bytes.
    pub fn get_buffer_js(&self) -> (out: Vec<u8>)
        ensures
            out@ == self@.readable(),
    {
        slice_to_vec(self.get_buffer())
    }

    /// The distance from the read cursor to the write cursor, cut down to
    /// 32 bits.
    pub fn remaining_js(&self) -> (n: u32)
        ensures
            n as int == self@.remaining() % (limit32() as nat),
    {
        (self.remaining() as u64 % 0x1_0000_0000) as u32
    }

    /// Whether `n` more bytes can be written: the precondition of the
    /// write operations, for callers that cannot prove it.
    pub fn fits(&self, n: usize) -> (ok: bool)
        ensures
            ok == self@.can_append(n as nat),
    {
        self.w_pos <= self.buf.len() || n <= usize::MAX - self.w_pos
    }

    /// The read cursor, cut down to 32 bits.
    pub fn read_offset(&self) -> (offset: u32)
        ensures
            offset as int == self@.read_pos % (limit32() as nat),
    {
        (self.r_pos as u64 % 0x1_0000_0000) as u32
    }

    /// Moves the read cursor to `offset`, unchecked: reads validate the
    /// cursors when they are next used.
    pub fn set_read_offset(&mut self, offset: u32)
        ensures
            final(self)@ == (BufferState { read_pos: offset as nat, ..old(self)@ }),
    {
        self.r_pos = offset as usize;
    }

    /// The write cursor, cut down to 32 bits.
    pub fn write_offset(&self) -> (offset: u32)
        ensures
            offset as int == self@.write_pos % (limit32() as nat),
    {
        (self.w_pos as u64 % 0x1_0000_0000) as u32
    }

    /// Moves the write cursor to `offset`, unchecked.
    pub fn set_write_offset(&mut self, offset: u32)
        ensures
            final(self)@ == (BufferState { write_pos: offset as nat, ..old(self)@ }),
    {
        self.w_pos = offset as usize;
    }

    /// An independent copy: the same bytes and cursors in storage of its own.
    pub fn clone(&self) -> (copy: Self)
        ensures
            copy@ == self@,
    {
        let bytes: Vec<u8> = slice_to_vec(self.buf.as_slice());
        MineBuffer { buf: bytes, r_pos: self.r_pos, w_pos: self.w_pos }
    }

    /// Drops all bytes and puts both cursors at 0.
    pub fn reset(&mut self)
        ensures
            final(self)@ == (BufferState { bytes: Seq::empty(), read_pos: 0, write_pos: 0 }),
    {
        self.buf.clear();
        self.r_pos = 0;
        self.w_pos = 0;
    }

    /// The byte at the read cursor, which stays where it is.
    pub fn peek_u8(&self) -> (r: Result<u8, BufferError>)
        ensures
            self@.available() >= 1 ==> r == Ok::<u8, BufferError>(self@.bytes[self@.read_pos as int]),
            self@.available() < 1 ==> r == Err::<u8, BufferError>(BufferError::Underflow),
    {
        if self.ready(1) {
            Ok(self.buf[self.r_pos])
        } else {
            Err(BufferError::Underflow)
        }
    }

    /// The byte at the read cursor as a number from 0 to 255.
    pub fn peek_u8_js(&self) -> (r: Result<i32, BufferError>)
        ensures
            self@.available() >= 1 ==> r == Ok::<i32, BufferError>(
                self@.bytes[self@.read_pos as int] as i32,
            ),
            self@.available() < 1 ==> r == Err::<i32, BufferError>(BufferError::Underflow),
    {
        match self.peek_u8() {
            Ok(b) => Ok(b as i32),
            Err(e) => Err(e),
        }
    }

    /// Moves the read cursor by `delta`, forwards or backwards. Fails, and
    /// moves nothing, where it would leave the range from 0 to the write
    /// cursor.
    pub fn seek_delta(&mut self, delta: i64) -> (r: Result<(), BufferError>)
        ensures
            0 <= old(self)@.read_pos + delta <= old(self)@.write_pos ==> r == Ok::<
                (),
                BufferError,
            >(()) && final(self)@ == (BufferState {
                read_pos: (old(self)@.read_pos + delta) as nat,
                ..old(self)@
            }),
            !(0 <= old(self)@.read_pos + delta <= old(self)@.write_pos) ==> r == Err::<
                (),
                BufferError,
            >(BufferError::Underflow) && final(self)@ == old(self)@,
    {
        let target: i128 = self.r_pos as i128 + delta as i128;
        if 0 <= target && target <= self.w_pos as i128 {
            self.r_pos = target as usize;
            Ok(())
        } else {
            Err(BufferError::Underflow)
        }
    }

    /// Consumes `n` bytes as one big-endian number, where that many can be read.
    fn take_be(&mut self, n: usize) -> (r: Option<u64>)
        requires
            1 <= n <= 8,
        ensures
            final(self)@ == after_read(old(self)@, n as nat),
            old(self)@.available() >= n ==> r == Some(be_value(old(self)@.front(n as nat)) as u64)
                && be_value(old(self)@.front(n as nat)) < byte_limit(n as nat),
            old(self)@.available() < n ==> r is None,
    {
        if self.ready(n) {
            let v: u64 = decode_be(&self.buf, self.r_pos, n);
            proof {
                lemma_be_value_bound(self@.front(n as nat));
                lemma_byte_limit_values();
                crate::codec::lemma_byte_limit_monotone(n as nat, 8);
            }
            self.r_pos = self.r_pos + n;
            Some(v)
        } else {
            None
        }
    }

    /// Consumes one byte.
    pub fn read_u8(&mut self) -> (r: Result<u8, BufferError>)
        ensures
            final(self)@ == after_read(old(self)@, 1),
            old(self)@.available() >= 1 ==> r == Ok::<u8, BufferError>(
                old(self)@.bytes[old(self)@.read_pos as int],
            ),
            old(self)@.available() < 1 ==> r == Err::<u8, BufferError>(BufferError::Underflow),
    {
        if self.ready(1) {
            let b: u8 = self.buf[self.r_pos];
            self.r_pos = self.r_pos + 1;
            Ok(b)
        } else {
            Err(BufferError::Underflow)
        }
    }

    /// Consumes one byte and gives it as a number from 0 to 255.
    pub fn read_u8_js(&mut self) -> (r: Result<i32, BufferError>)
        ensures
            final(self)@ == after_read(old(self)@, 1),
            old(self)@.available() >= 1 ==> r == Ok::<i32, BufferError>(
                old(self)@.bytes[old(self)@.read_pos as int] as i32,
            ),
            old(self)@.available() < 1 ==> r == Err::<i32, BufferError>(BufferError::Underflow),
    {
        match self.read_u8() {
            Ok(b) => Ok(b as i32),
            Err(e) => Err(e),
        }
    }

    /// Consumes `len` bytes and returns a copy of them. A read of no bytes
    /// is refused as an underflow.
    pub fn read_bytes(&mut self, len: usize) -> (r: Result<Vec<u8>, BufferError>)
        ensures
            1 <= len <= old(self)@.available() ==> r is Ok && r.unwrap()@ == old(self)@.front(
                len as nat,
            ) && final(self)@ == old(self)@.advance(len as nat),
            !(1 <= len <= old(self)@.available()) ==> r == Err::<Vec<u8>, BufferError>(
                BufferError::Underflow,
            ) && final(self)@ == old(self)@,
    {
        if len == 0 {
            return Err(BufferError::Underflow);
        }
        if self.ready(len) {
            let res: Vec<u8> = slice_to_vec(
                slice_subrange(self.buf.as_slice(), self.r_pos, self.r_pos + len),
            );
            self.r_pos = self.r_pos + len;
            Ok(res)
        } else {
            Err(BufferError::Underflow)
        }
    }

    /// Consumes every byte up to the write cursor. On a buffer with nothing
    /// left to read this is a read of no bytes, and fails as one.
    pub fn read_remaining(&mut self) -> (r: Result<Vec<u8>, BufferError>)
        ensures
            1 <= old(self)@.remaining() <= old(self)@.available() ==> r is Ok && r.unwrap()@
                == old(self)@.front(old(self)@.remaining()) && final(self)@ == old(self)@.advance(
                old(self)@.remaining(),
            ),
            !(1 <= old(self)@.remaining() <= old(self)@.available()) ==> r == Err::<
                Vec<u8>,
                BufferError,
            >(BufferError::Underflow) && final(self)@ == old(self)@,
    {
        let len: usize = self.remaining();
        self.read_bytes(len)
    }

    /// Consumes one byte as a two's-complement number.
    pub fn read_i8(&mut self) -> (r: Result<i8, BufferError>)
        ensures
            final(self)@ == after_read(old(self)@, 1),
            r is Ok <==> old(self)@.available() >= 1,
            r is Ok ==> r.unwrap() as int == signed_of(
                old(self)@.bytes[old(self)@.read_pos as int] as int,
                0x100,
            ),
            r is Err ==> r == Err::<i8, BufferError>(BufferError::Underflow),
    {
        match self.read_u8() {
            Ok(b) => Ok(wrap_signed(b as u64, 0x100) as i8),
            Err(e) => Err(e),
        }
    }

    /// Consumes one byte as a two's-complement number from -128 to 127.
    pub fn read_i8_js(&mut self) -> (r: Result<i32, BufferError>)
        ensures
            final(self)@ == after_read(old(self)@, 1),
            r is Ok <==> old(self)@.available() >= 1,
            r is Ok ==> r.unwrap() as int == signed_of(
                old(self)@.bytes[old(self)@.read_pos as int] as int,
                0x100,
            ),
            r is Err ==> r == Err::<i32, BufferError>(BufferError::Underflow),
    {
        match self.read_i8() {
            Ok(v) => Ok(v as i32),
            Err(e) => Err(e),
        }
    }

    /// Consumes one byte as a truth value: any byte but 0 is true.
    pub fn read_bool(&mut self) -> (r: Result<bool, BufferError>)
        ensures
            final(self)@ == after_read(old(self)@, 1),
            old(self)@.available() >= 1 ==> r == Ok::<bool, BufferError>(
                old(self)@.bytes[old(self)@.read_pos as int] != 0,
            ),
            old(self)@.available() < 1 ==> r == Err::<bool, BufferError>(BufferError::Underflow),
    {
        match self.read_u8() {
            Ok(b) => Ok(b != 0),
            Err(e) => Err(e),
        }
    }

    /// Consumes four bytes as a big-endian two's-complement number.
    pub fn read_i32(&mut self) -> (r: Result<i32, BufferError>)
        ensures
            final(self)@ == after_read(old(self)@, 4),
            r is Ok <==> read_signed(old(self)@, 4) is Ok,
            r is Ok ==> r.unwrap() as int == read_signed(old(self)@, 4).unwrap(),
            r is Err ==> r == Err::<i32, BufferError>(BufferError::Underflow),
    {
        proof {
            lemma_byte_limit_values();
        }
        match self.take_be(4) {
            Some(v) => Ok(wrap_signed(v, 0x1_0000_0000) as i32),
            None => Err(BufferError::Underflow),
        }
    }

    /// Consumes four bytes as a big-endian unsigned number.
    pub fn read_u32(&mut self) -> (r: Result<u32, BufferError>)
        ensures
            final(self)@ == after_read(old(self)@, 4),
            r is Ok <==> read_unsigned(old(self)@, 4) is Ok,
            r is Ok ==> r.unwrap() as int == read_unsigned(old(self)@, 4).unwrap(),
            r is Err ==> r == Err::<u32, BufferError>(BufferError::Underflow),
    {
        proof {
            lemma_byte_limit_values();
        }
        match self.take_be(4) {
            Some(v) => Ok(v as u32),
            None => Err(BufferError::Underflow),
        }
    }

    /// Consumes eight bytes as a big-endian two's-complement number.
    pub fn read_i64(&mut self) -> (r: Result<i64, BufferError>)
        ensures
            final(self)@ == after_read(old(self)@, 8),
            r is Ok <==> read_signed(old(self)@, 8) is Ok,
            r is Ok ==> r.unwrap() as int == read_signed(old(self)@, 8).unwrap(),
            r is Err ==> r == Err::<i64, BufferError>(BufferError::Underflow),
    {
        proof {
            lemma_byte_limit_values();
        }
        match self.take_be(8) {
            Some(v) => Ok(wrap_signed(v, 0x1_0000_0000_0000_0000)),
            None => Err(BufferError::Underflow),
        }
    }

    /// Consumes eight bytes as a big-endian unsigned number.
    pub fn read_u64(&mut self) -> (r: Result<i128, BufferError>)
        ensures
            final(self)@ == after_read(old(self)@, 8),
            r is Ok <==> read_unsigned(old(self)@, 8) is Ok,
            r is Ok ==> r.unwrap() as int == read_unsigned(old(self)@, 8).unwrap(),
            r is Err ==> r == Err::<i128, BufferError>(BufferError::Underflow),
    {
        proof {
            lemma_byte_limit_values();
        }
        match self.take_be(8) {
            Some(v) => Ok(v as i128),
            None => Err(BufferError::Underflow),
        }
    }

    /// Consumes two bytes as a big-endian two's-complement number.
    pub fn read_i16(&mut self) -> (r: Result<i16, BufferError>)
        ensures
            final(self)@ == after_read(old(self)@, 2),
            r is Ok <==> read_signed(old(self)@, 2) is Ok,
            r is Ok ==> r.unwrap() as int == read_signed(old(self)@, 2).unwrap(),
            r is Err ==> r == Err::<i16, BufferError>(BufferError::Underflow),
    {
        proof {
            lemma_byte_limit_values();
        }
        match self.take_be(2) {
            Some(v) => Ok(wrap_signed(v, 0x1_0000) as i16),
            None => Err(BufferError::Underflow),
        }
    }

    /// Consumes two bytes as a big-endian unsigned number.
    pub fn read_u16(&mut self) -> (r: Result<u16, BufferError>)
        ensures
            final(self)@ == after_read(old(self)@, 2),
            r is Ok <==> read_unsigned(old(self)@, 2) is Ok,
            r is Ok ==> r.unwrap() as int == read_unsigned(old(self)@, 2).unwrap(),
            r is Err ==> r == Err::<u16, BufferError>(BufferError::Underflow),
    {
        proof {
            lemma_byte_limit_values();
        }
        match self.take_be(2) {
            Some(v) => Ok(v as u16),
            None => Err(BufferError::Underflow),
        }
    }

    /// Consumes two bytes as a big-endian two's-complement number, widened.
    pub fn read_i16_js(&mut self) -> (r: Result<i32, BufferError>)
        ensures
            final(self)@ == after_read(old(self)@, 2),
            r is Ok <==> read_signed(old(self)@, 2) is Ok,
            r is Ok ==> r.unwrap() as int == read_signed(old(self)@, 2).unwrap(),
            r is Err ==> r == Err::<i32, BufferError>(BufferError::Underflow),
    {
        match self.read_i16() {
            Ok(v) => Ok(v as i32),
            Err(e) => Err(e),
        }
    }

    /// Consumes two bytes as a big-endian unsigned number, widened.
    pub fn read_u16_js(&mut self) -> (r: Result<u32, BufferError>)
        ensures
            final(self)@ == after_read(old(self)@, 2),
            r is Ok <==> read_unsigned(old(self)@, 2) is Ok,
            r is Ok ==> r.unwrap() as int == read_unsigned(old(self)@, 2).unwrap(),
            r is Err ==> r == Err::<u32, BufferError>(BufferError::Underflow),
    {
        match self.read_u16() {
            Ok(v) => Ok(v as u32),
            Err(e) => Err(e),
        }
    }

    /// Consumes one base-128 number, reduced to a word of `modulus` values.
    fn take_var(&mut self, modulus: u128) -> (r: Option<u64>)
        requires
            modulus == limit32() || modulus == limit64(),
        ensures
            final(self)@ == after_read_var(old(self)@),
            r is Some <==> var_complete(old(self)@.readable()),
            r is Some ==> r.unwrap() as int == (var_value(old(self)@.readable()) as int) % (
            modulus as int),
            r is Some ==> 1 <= var_len(old(self)@.readable()) <= old(self)@.available(),
    {
        let end: usize = self.read_end();
        if self.r_pos > end {
            return None;
        }
        match decode_var(&self.buf, self.r_pos, end, modulus) {
            Some((word, used)) => {
                self.r_pos = self.r_pos + used;
                Some(word)
            },
            None => None,
        }
    }

    /// Consumes a base-128 number of 32 bits: seven bits from each byte, the
    /// lowest group first, up to the first byte with its high bit clear.
    /// Fails, and consumes nothing, where the readable bytes end before that.
    pub fn read_var_int(&mut self) -> (r: Result<i32, BufferError>)
        ensures
            final(self)@ == after_read_var(old(self)@),
            r is Ok <==> read_var(old(self)@, limit32()) is Ok,
            r is Ok ==> r.unwrap() as int == read_var(old(self)@, limit32()).unwrap(),
            r is Err ==> r == Err::<i32, BufferError>(BufferError::Underflow),
    {
        match self.take_var(0x1_0000_0000) {
            Some(word) => Ok(wrap_signed(word, 0x1_0000_0000) as i32),
            None => Err(BufferError::Underflow),
        }
    }

    /// Consumes a base-128 number of 64 bits.
    pub fn read_var_long(&mut self) -> (r: Result<i64, BufferError>)
        ensures
            final(self)@ == after_read_var(old(self)@),
            r is Ok <==> read_var(old(self)@, limit64()) is Ok,
            r is Ok ==> r.unwrap() as int == read_var(old(self)@, limit64()).unwrap(),
            r is Err ==> r == Err::<i64, BufferError>(BufferError::Underflow),
    {
        match self.take_var(0x1_0000_0000_0000_0000) {
            Some(word) => Ok(wrap_signed(word, 0x1_0000_0000_0000_0000)),
            None => Err(BufferError::Underflow),
        }
    }

    /// Consumes a text: its length in bytes as a base-128 number of 32 bits,
    /// then that many bytes of UTF-8. A failed read consumes nothing.
    pub fn read_string(&mut self) -> (r: Result<String, BufferError>)
        ensures
            !text_present(old(self)@) ==> r == Err::<String, BufferError>(BufferError::Underflow)
                && final(self)@ == old(self)@,
            text_present(old(self)@) && !valid_utf8(text_payload(old(self)@)) ==> r == Err::<
                String,
                BufferError,
            >(BufferError::Malformed) && final(self)@ == old(self)@,
            text_present(old(self)@) && valid_utf8(text_payload(old(self)@)) ==> r is Ok
                && r.unwrap()@ == decode_utf8(text_payload(old(self)@)) && final(self)@ == old(
                self,
            )@.advance((var_len(old(self)@.readable()) + text_len(old(self)@)) as nat),
    {
        let start: usize = self.r_pos;
        proof {
            crate::codec::lemma_var_len_bound(self@.readable());
        }
        let len: i32 = match self.read_var_int() {
            Ok(n) => n,
            Err(_) => {
                return Err(BufferError::Underflow);
            },
        };
        if len < 0 || (len > 0 && !self.ready(len as usize)) {
            self.r_pos = start;
            return Err(BufferError::Underflow);
        }
        let count: usize = len as usize;
        proof {
            assert(self@.read_end() == old(self)@.read_end());
            assert(self@.read_pos == old(self)@.read_pos + var_len(old(self)@.readable()));
            assert(self.r_pos + count <= self@.read_end());
        }
        let payload: Vec<u8> = slice_to_vec(
            slice_subrange(self.buf.as_slice(), self.r_pos, self.r_pos + count),
        );
        proof {
            assert(payload@ =~= text_payload(old(self)@));
        }
        match utf8_to_string(payload) {
            Some(s) => {
                self.r_pos = self.r_pos + count;
                Ok(s)
            },
            None => {
                self.r_pos = start;
                Err(BufferError::Malformed)
            },
        }
    }

    /// Consumes eight bytes as a packed position. The three fields come
    /// back as unsigned numbers.
    pub fn read_position(&mut self) -> (r: Result<Position, BufferError>)
        ensures
            final(self)@ == after_read(old(self)@, 8),
            r is Ok <==> old(self)@.available() >= 8,
            r is Ok ==> {
                let word = be_value(old(self)@.front(8)) as int;
                &&& r.unwrap().x as int == field_x(word)
                &&& r.unwrap().y as int == field_y(word)
                &&& r.unwrap().z as int == field_z(word)
            },
            r is Err ==> r == Err::<Position, BufferError>(BufferError::Underflow),
    {
        proof {
            lemma_byte_limit_values();
        }
        match self.take_be(8) {
            Some(word) => Ok(Position::unpack(word)),
            None => Err(BufferError::Underflow),
        }
    }

    /// Consumes 16 bytes and gives them as the canonical text of a UUID.
    pub fn read_uuid(&mut self) -> (r: Result<String, BufferError>)
        ensures
            final(self)@ == after_read(old(self)@, 16),
            old(self)@.available() >= 16 ==> r is Ok && r.unwrap()@ == uuid_text(
                old(self)@.front(16),
            ),
            old(self)@.available() < 16 ==> r == Err::<String, BufferError>(
                BufferError::Underflow,
            ),
    {
        match self.read_bytes(16) {
            Ok(bytes) => Ok(uuid_format(&bytes)),
            Err(e) => Err(e),
        }
    }

    /// Appends `buf` and advances the write cursor by its length.
    pub fn write(&mut self, buf: &[u8])
        requires
            old(self)@.can_append(buf@.len()),
        ensures
            final(self)@ == old(self)@.append(buf@),
    {
        self.buf.extend_from_slice(buf);
        let total: usize = self.buf.len();
        self.w_pos = self.w_pos + buf.len();
        proof {
            assert(self.buf@ =~= old(self).buf@ + buf@);
        }
    }

    /// Appends one byte.
    pub fn write_u8(&mut self, val: u8)
        requires
            old(self)@.can_append(1),
        ensures
            final(self)@ == old(self)@.append(seq![val]),
    {
        self.buf.push(val);
        let total: usize = self.buf.len();
        self.w_pos = self.w_pos + 1;
        proof {
            assert(self.buf@ =~= old(self).buf@ + seq![val]);
        }
    }

    /// Appends one byte: `val` in two's complement.
    pub fn write_i8(&mut self, val: i8)
        requires
            old(self)@.can_append(1),
        ensures
            final(self)@ == old(self)@.append(seq![unsigned_of(val as int, 0x100) as u8]),
    {
        self.write_u8(wrap_unsigned(val as i64, 0x100) as u8);
    }

    /// Appends the low eight bits of `val`.
    pub fn write_byte_js(&mut self, val: i32)
        requires
            old(self)@.can_append(1),
        ensures
            final(self)@ == old(self)@.append(seq![unsigned_of(val as int, 0x100) as u8]),
    {
        self.write_u8(truncate(val as i64, 0x100) as u8);
    }

    /// Appends the low eight bits of `val`.
    pub fn write_i8_js(&mut self, val: i32)
        requires
            old(self)@.can_append(1),
        ensures
            final(self)@ == old(self)@.append(seq![unsigned_of(val as int, 0x100) as u8]),
    {
        self.write_u8(truncate(val as i64, 0x100) as u8);
    }

    /// Appends one byte: 1 for true, 0 for false.
    pub fn write_bool(&mut self, val: bool)
        requires
            old(self)@.can_append(1),
        ensures
            final(self)@ == old(self)@.append(seq![if val { 1u8 } else { 0u8 }]),
    {
        self.write_u8(if val { 1 } else { 0 });
    }

    /// Appends the `n` big-endian bytes of `v`.
    fn put_be(&mut self, v: u64, n: usize)
        requires
            n <= 8,
            old(self)@.can_append(n as nat),
        ensures
            final(self)@ == old(self)@.append(be_bytes(v as nat, n as nat)),
    {
        let bytes: Vec<u8> = encode_be(v, n);
        self.write(bytes.as_slice());
    }

    /// Appends `val` as four big-endian bytes in two's complement.
    pub fn write_i32(&mut self, val: i32)
        requires
            old(self)@.can_append(4),
        ensures
            final(self)@ == old(self)@.append(
                be_bytes(unsigned_of(val as int, limit32()) as nat, 4),
            ),
    {
        self.put_be(wrap_unsigned(val as i64, 0x1_0000_0000), 4);
    }

    /// Appends `val` as four big-endian bytes.
    pub fn write_u32(&mut self, val: u32)
        requires
            old(self)@.can_append(4),
        ensures
            final(self)@ == old(self)@.append(be_bytes(val as nat, 4)),
    {
        self.put_be(val as u64, 4);
    }

    /// Appends the 64-bit reduction of `val` as eight big-endian bytes in
    /// two's complement.
    pub fn write_i64(&mut self, val: BigInt)
        requires
            old(self)@.can_append(8),
        ensures
            final(self)@ == old(self)@.append(
                be_bytes(unsigned_of(val.value64(), limit64()) as nat, 8),
            ),
    {
        let v: i64 = bigint_value(&val);
        self.put_be(wrap_unsigned(v, 0x1_0000_0000_0000_0000), 8);
    }

    /// Appends the packed word of `val` as eight big-endian bytes. A
    /// coordinate outside its field is cut down to it.
    pub fn write_position(&mut self, val: &Position)
        requires
            old(self)@.can_append(8),
        ensures
            final(self)@ == old(self)@.append(
                be_bytes(packed_word(val.x as int, val.y as int, val.z as int) as nat, 8),
            ),
    {
        self.put_be(val.pack(), 8);
    }

    /// Appends the 16 bytes of the UUID that `val` spells. Fails, and
    /// writes nothing, where the parser rejects the text. The canonical
    /// text of 16 bytes is always accepted, and writes those bytes.
    pub fn write_uuid(&mut self, val: String) -> (r: Result<(), BufferError>)
        requires
            old(self)@.can_append(16),
        ensures
            match uuid_parse(val@) {
                Some(bytes) => r == Ok::<(), BufferError>(()) && bytes.len() == 16 && final(self)@
                    == old(self)@.append(bytes),
                None => r == Err::<(), BufferError>(BufferError::Malformed) && final(self)@ == old(
                    self,
                )@,
            },
            forall|b: Seq<u8>|
                b.len() == 16 && #[trigger] uuid_text(b) == val@ ==> r == Ok::<(), BufferError>(())
                    && final(self)@ == old(self)@.append(b),
    {
        let parsed: Option<Vec<u8>> = match uuid_parse_text(val.as_str()) {
            Ok(bytes) => Some(bytes),
            Err(_) => None,
        };
        self.write_parsed_uuid(parsed)
    }

    /// Appends the bytes that a UUID parser gave, or reports the text as
    /// malformed, and writes nothing, where it gave none.
    pub fn write_parsed_uuid(&mut self, parsed: Option<Vec<u8>>) -> (r: Result<(), BufferError>)
        requires
            parsed is Some ==> old(self)@.can_append(parsed.unwrap()@.len()),
        ensures
            match parsed {
                Some(bytes) => r == Ok::<(), BufferError>(()) && final(self)@ == old(
                    self,
                )@.append(bytes@),
                None => r == Err::<(), BufferError>(BufferError::Malformed) && final(self)@ == old(
                    self,
                )@,
            },
    {
        match parsed {
            Some(bytes) => {
                self.write(bytes.as_slice());
                Ok(())
            },
            None => Err(BufferError::Malformed),
        }
    }

    /// Appends `val` as two big-endian bytes in two's complement.
    pub fn write_i16(&mut self, val: i16)
        requires
            old(self)@.can_append(2),
        ensures
            final(self)@ == old(self)@.append(
                be_bytes(unsigned_of(val as int, limit16()) as nat, 2),
            ),
    {
        self.put_be(wrap_unsigned(val as i64, 0x1_0000), 2);
    }

    /// Appends `val` as two big-endian bytes.
    pub fn write_u16(&mut self, val: u16)
        requires
            old(self)@.can_append(2),
        ensures
            final(self)@ == old(self)@.append(be_bytes(val as nat, 2)),
    {
        self.put_be(val as u64, 2);
    }

    /// Appends the low 16 bits of `val` as two big-endian bytes.
    pub fn write_i16_js(&mut self, val: i32)
        requires
            old(self)@.can_append(2),
        ensures
            final(self)@ == old(self)@.append(
                be_bytes(unsigned_of(val as int, limit16()) as nat, 2),
            ),
    {
        self.put_be(truncate(val as i64, 0x1_0000), 2);
    }

    /// Appends the low 16 bits of `val` as two big-endian bytes.
    pub fn write_u16_js(&mut self, val: u32)
        requires
            old(self)@.can_append(2),
        ensures
            final(self)@ == old(self)@.append(
                be_bytes(unsigned_of(val as int, limit16()) as nat, 2),
            ),
    {
        self.put_be(truncate(val as i64, 0x1_0000), 2);
    }

    /// Appends the base-128 encoding of the 32-bit word of `val`: one to
    /// five bytes.
    pub fn write_var_int(&mut self, val: i32)
        requires
            old(self)@.can_append(5),
        ensures
            final(self)@ == old(self)@.append(var_bytes(unsigned_of(val as int, limit32()) as nat)),
            1 <= var_bytes(unsigned_of(val as int, limit32()) as nat).len() <= 5,
    {
        let word: u64 = wrap_unsigned(val as i64, 0x1_0000_0000);
        proof {
            lemma_var_bytes_len_word(word as nat);
        }
        let bytes: Vec<u8> = encode_var(word);
        self.write(bytes.as_slice());
    }

    /// Appends the base-128 encoding of the 64-bit reduction of `val`: one
    /// to ten bytes.
    pub fn write_var_long(&mut self, val: BigInt)
        requires
            old(self)@.can_append(10),
        ensures
            final(self)@ == old(self)@.append(
                var_bytes(unsigned_of(val.value64(), limit64()) as nat),
            ),
            1 <= var_bytes(unsigned_of(val.value64(), limit64()) as nat).len() <= 10,
    {
        let word: u64 = wrap_unsigned(bigint_value(&val), 0x1_0000_0000_0000_0000);
        proof {
            lemma_var_bytes_len_word(word as nat);
        }
        let bytes: Vec<u8> = encode_var(word);
        self.write(bytes.as_slice());
    }

    /// Appends a text: the length of its UTF-8 form as a base-128 number of
    /// 32 bits, then the UTF-8 bytes.
    pub fn write_string(&mut self, val: &str)
        requires
            old(self)@.can_append(5 + encode_utf8(val@).len()),
        ensures
            final(self)@ == old(self)@.append(
                var_bytes((encode_utf8(val@).len() % (limit32() as nat)) as nat) + encode_utf8(
                    val@,
                ),
            ),
    {
        let len: usize = val.len();
        let word: u64 = (len as u64) % 0x1_0000_0000;
        proof {
            lemma_var_bytes_len_word(word as nat);
        }
        let prefix: Vec<u8> = encode_var(word);
        self.write(prefix.as_slice());
        self.write(val.as_bytes());
        proof {
            assert(final(self)@.bytes =~= old(self)@.bytes + (prefix@ + encode_utf8(val@)));
        }
    }
}

} // verus!
