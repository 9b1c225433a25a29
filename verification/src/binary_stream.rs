//! The buffer itself: append integers, flip, take them out again.

use vstd::prelude::*;
use crate::encoding::{
    decode, decode_prefix, encode, left, lemma_decode_fits, shift_multiplier, signed_of, taken,
    unsigned_of,
};
use crate::laws::{after_get, after_put, got, Scalar, ScalarKind};

verus! {

/// The room that a buffer asks for when its maker names none.
pub const INIT_CAPACITY_HEUR: usize = 1024;

/// The order in which the bytes of a multi-byte integer are laid out.
#[derive(Clone, Copy, Debug, PartialEq, Eq)]
pub enum ByteOrder {
    /// Most significant byte first.
    BigEndian,
    /// Least significant byte first.
    LittleEndian,
}

/// Why a read failed.
#[derive(Clone, Copy, Debug, PartialEq, Eq)]
pub enum StreamError {
    /// The buffer ran out of bytes before the value was complete.
    Underflow,
}

impl ByteOrder {
    /// The significance of the byte at each place of a value of `width`
    /// bytes, first place first: `0, 1, .., width - 1` for little endian,
    /// `width - 1, .., 1, 0` for big endian.
    pub fn get_mask_shift_multipliers(&self, width: usize) -> (r: Vec<usize>)
        ensures
            r@.len() == width,
            forall|k: int|
                0 <= k < width ==> #[trigger] r@[k] == shift_multiplier(
                    *self,
                    width as nat,
                    k as nat,
                ),
    {
        let mut multipliers: Vec<usize> = Vec::new();
        let mut k: usize = 0;
        while k < width
            invariant
                k <= width,
                multipliers@.len() == k,
                forall|j: int|
                    0 <= j < k ==> #[trigger] multipliers@[j] == shift_multiplier(
                        *self,
                        width as nat,
                        j as nat,
                    ),
            decreases width - k,
        {
            let multiplier: usize = match self {
                ByteOrder::LittleEndian => k,
                ByteOrder::BigEndian => width - 1 - k,
            };
            multipliers.push(multiplier);
            k += 1;
        }
        multipliers
    }
}

/// A growable sequence of bytes with a byte order.
pub struct BinaryStream {
    stream: Vec<u8>,
    bo: ByteOrder,
}

impl View for BinaryStream {
    type V = Seq<u8>;

    /// The bytes that the buffer holds, the oldest first.
    closed spec fn view(&self) -> Seq<u8> {
        self.stream@
    }
}

impl BinaryStream {
    /// The byte order that the buffer was made with.
    pub closed spec fn order(&self) -> ByteOrder {
        self.bo
    }

    /// Creates an empty buffer with byte order `bo`. `init_capacity` only
    /// asks for room ahead of time: the buffer grows as needed either way.
    pub fn with_init_capacity(init_capacity: usize, bo: ByteOrder) -> (r: BinaryStream)
        ensures
            r@ == Seq::<u8>::empty(),
            r.order() == bo,
    {
        let mut stream: Vec<u8> = Vec::new();
        let _ = stream.try_reserve(init_capacity);
        BinaryStream { stream, bo }
    }

    /// Creates an empty buffer with byte order `bo` and room for 1024 bytes.
    pub fn from_byte_order(bo: ByteOrder) -> (r: BinaryStream)
        ensures
            r@ == Seq::<u8>::empty(),
            r.order() == bo,
    {
        BinaryStream::with_init_capacity(INIT_CAPACITY_HEUR, bo)
    }

    /// The byte order that the buffer was made with.
    pub fn byte_order(&self) -> (r: ByteOrder)
        ensures
            r == self.order(),
    {
        self.bo
    }

    /// The number of bytes in the buffer.
    pub fn len(&self) -> (r: usize)
        ensures
            r == self@.len(),
    {
        self.stream.len()
    }

    /// Appends one byte.
    pub fn put_u8(&mut self, val: u8)
        ensures
            final(self)@ == old(self)@.push(val),
            final(self).order() == old(self).order(),
            final(self)@ == after_put(old(self).order(), old(self)@, Scalar::U8(val)),
    {
        self.stream.push(val);
    }

    /// Appends the `width` low bytes of `val` in the buffer's byte order.
    fn put_uint(&mut self, val: u64, width: usize)
        requires
            width <= 8,
        ensures
            final(self)@ == old(self)@ + encode(old(self).order(), width as nat, val),
            final(self).order() == old(self).order(),
    {
        let multipliers = self.bo.get_mask_shift_multipliers(width);
        let mut k: usize = 0;
        while k < width
            invariant
                k <= width <= 8,
                multipliers@.len() == width,
                forall|j: int|
                    0 <= j < width ==> #[trigger] multipliers@[j] == shift_multiplier(
                        self.order(),
                        width as nat,
                        j as nat,
                    ),
                self.order() == old(self).order(),
                self@ == old(self)@ + encode(self.order(), width as nat, val).take(k as int),
            decreases width - k,
        {
            let multiplier: usize = multipliers[k];
            let shift: u64 = (8 * multiplier) as u64;
            let low: u64 = (val >> shift) & 0xff;
            assert(low <= 0xff) by (bit_vector)
                requires
                    low == (val >> shift) & 0xff,
            ;
            let to_put: u8 = low as u8;
            assert(to_put == encode(self.order(), width as nat, val)[k as int]);
            self.put_u8(to_put);
            assert(self@ == old(self)@ + encode(self.order(), width as nat, val).take(k + 1));
            k += 1;
        }
        assert(encode(self.order(), width as nat, val).take(width as int) == encode(
            self.order(),
            width as nat,
            val,
        ));
    }

    /// Appends `val` as two bytes in the buffer's byte order.
    pub fn put_u16(&mut self, val: u16)
        ensures
            final(self)@ == old(self)@ + encode(old(self).order(), 2, val as u64),
            final(self)@.len() == old(self)@.len() + 2,
            final(self).order() == old(self).order(),
            final(self)@ == after_put(old(self).order(), old(self)@, Scalar::U16(val)),
    {
        self.put_uint(val as u64, 2);
    }

    /// Appends `val` as four bytes in the buffer's byte order.
    pub fn put_u32(&mut self, val: u32)
        ensures
            final(self)@ == old(self)@ + encode(old(self).order(), 4, val as u64),
            final(self)@.len() == old(self)@.len() + 4,
            final(self).order() == old(self).order(),
            final(self)@ == after_put(old(self).order(), old(self)@, Scalar::U32(val)),
    {
        self.put_uint(val as u64, 4);
    }

    /// Appends `val` as eight bytes in the buffer's byte order.
    pub fn put_u64(&mut self, val: u64)
        ensures
            final(self)@ == old(self)@ + encode(old(self).order(), 8, val),
            final(self)@.len() == old(self)@.len() + 8,
            final(self).order() == old(self).order(),
            final(self)@ == after_put(old(self).order(), old(self)@, Scalar::U64(val)),
    {
        self.put_uint(val, 8);
    }

    /// Appends `val` as the one byte that holds its two's complement bits.
    pub fn put_i8(&mut self, val: i8)
        ensures
            final(self)@ == old(self)@.push(unsigned_of(val as int, 1) as u8),
            final(self).order() == old(self).order(),
            final(self)@ == after_put(old(self).order(), old(self)@, Scalar::I8(val)),
    {
        let bits: u8 = val as u8;
        assert(bits == unsigned_of(val as int, 1)) by {
            assert(val < 0 ==> bits == val + 0x100) by (bit_vector)
                requires
                    bits == val as u8,
            ;
            assert(val >= 0 ==> bits == val) by (bit_vector)
                requires
                    bits == val as u8,
            ;
        }
        self.put_u8(bits);
    }

    /// Appends the two's complement bits of `val` as two bytes in the
    /// buffer's byte order.
    pub fn put_i16(&mut self, val: i16)
        ensures
            final(self)@ == old(self)@ + encode(
                old(self).order(),
                2,
                unsigned_of(val as int, 2) as u64,
            ),
            final(self)@.len() == old(self)@.len() + 2,
            final(self).order() == old(self).order(),
            final(self)@ == after_put(old(self).order(), old(self)@, Scalar::I16(val)),
    {
        let bits: u16 = val as u16;
        assert(bits == unsigned_of(val as int, 2)) by {
            assert(val < 0 ==> bits == val + 0x1_0000) by (bit_vector)
                requires
                    bits == val as u16,
            ;
            assert(val >= 0 ==> bits == val) by (bit_vector)
                requires
                    bits == val as u16,
            ;
        }
        self.put_u16(bits);
    }

    /// Appends the two's complement bits of `val` as four bytes in the
    /// buffer's byte order.
    pub fn put_i32(&mut self, val: i32)
        ensures
            final(self)@ == old(self)@ + encode(
                old(self).order(),
                4,
                unsigned_of(val as int, 4) as u64,
            ),
            final(self)@.len() == old(self)@.len() + 4,
            final(self).order() == old(self).order(),
            final(self)@ == after_put(old(self).order(), old(self)@, Scalar::I32(val)),
    {
        let bits: u32 = val as u32;
        assert(bits == unsigned_of(val as int, 4)) by {
            assert(val < 0 ==> bits == val + 0x1_0000_0000) by (bit_vector)
                requires
                    bits == val as u32,
            ;
            assert(val >= 0 ==> bits == val) by (bit_vector)
                requires
                    bits == val as u32,
            ;
        }
        self.put_u32(bits);
    }

    /// Appends the two's complement bits of `val` as eight bytes in the
    /// buffer's byte order.
    pub fn put_i64(&mut self, val: i64)
        ensures
            final(self)@ == old(self)@ + encode(
                old(self).order(),
                8,
                unsigned_of(val as int, 8) as u64,
            ),
            final(self)@.len() == old(self)@.len() + 8,
            final(self).order() == old(self).order(),
            final(self)@ == after_put(old(self).order(), old(self)@, Scalar::I64(val)),
    {
        let bits: u64 = val as u64;
        assert(bits == unsigned_of(val as int, 8)) by {
            assert(val < 0 ==> bits == val + 0x1_0000_0000_0000_0000) by (bit_vector)
                requires
                    bits == val as u64,
            ;
            assert(val >= 0 ==> bits == val) by (bit_vector)
                requires
                    bits == val as u64,
            ;
        }
        self.put_u64(bits);
    }

    /// Turns the buffer round: the byte that was appended first becomes the
    /// one that is taken out first.
    pub fn flip(&mut self)
        ensures
            final(self)@ == old(self)@.reverse(),
            final(self).order() == old(self).order(),
    {
        let n: usize = self.stream.len();
        let mut i: usize = 0;
        while i < n / 2
            invariant
                i <= n / 2,
                self.stream@.len() == n,
                old(self)@.len() == n,
                self.order() == old(self).order(),
                forall|j: int|
                    0 <= j < i ==> #[trigger] self.stream@[j] == old(self)@[n - 1 - j],
                forall|j: int|
                    n - i <= j < n ==> #[trigger] self.stream@[j] == old(self)@[n - 1 - j],
                forall|j: int| i <= j < n - i ==> #[trigger] self.stream@[j] == old(self)@[j],
            decreases n / 2 - i,
        {
            let front: u8 = self.stream[i];
            let back: u8 = self.stream[n - 1 - i];
            self.stream.set(i, back);
            self.stream.set(n - 1 - i, front);
            i += 1;
        }
        assert(self@ =~= old(self)@.reverse());
    }

    /// Takes the last byte out of the buffer.
    pub fn get_u8(&mut self) -> (r: Result<u8, StreamError>)
        ensures
            final(self).order() == old(self).order(),
            old(self)@.len() > 0 ==> r == Ok::<u8, StreamError>(old(self)@.last())
                && final(self)@ == old(self)@.drop_last(),
            old(self)@.len() == 0 ==> r == Err::<u8, StreamError>(StreamError::Underflow)
                && final(self)@ == old(self)@,
            old(self)@.len() > 0 ==> (r matches Ok(v) && Scalar::U8(v) == got(
                old(self).order(),
                old(self)@,
                ScalarKind::U8,
            )) && final(self)@ == after_get(old(self)@, ScalarKind::U8),
    {
        match self.stream.pop() {
            Some(b) => Ok(b),
            None => Err(StreamError::Underflow),
        }
    }

    /// Takes `width` bytes from the end of the buffer and puts them together
    /// in the buffer's byte order. When the bytes run out, the buffer is left
    /// empty.
    fn get_uint(&mut self, width: usize) -> (r: Result<u64, StreamError>)
        requires
            width <= 8,
        ensures
            final(self).order() == old(self).order(),
            old(self)@.len() >= width ==> r == Ok::<u64, StreamError>(
                decode(old(self).order(), width as nat, taken(old(self)@, width as nat)),
            ) && final(self)@ == left(old(self)@, width as nat),
            old(self)@.len() < width ==> r == Err::<u64, StreamError>(StreamError::Underflow)
                && final(self)@ == Seq::<u8>::empty(),
    {
        let multipliers = self.bo.get_mask_shift_multipliers(width);
        let mut val: u64 = 0;
        let mut k: usize = 0;
        while k < width
            invariant
                k <= width <= 8,
                multipliers@.len() == width,
                forall|j: int|
                    0 <= j < width ==> #[trigger] multipliers@[j] == shift_multiplier(
                        self.order(),
                        width as nat,
                        j as nat,
                    ),
                self.order() == old(self).order(),
                k <= old(self)@.len(),
                self@ == old(self)@.take(old(self)@.len() - k),
                val == decode_prefix(
                    self.order(),
                    width as nat,
                    taken(old(self)@, width as nat),
                    k as nat,
                ),
            decreases width - k,
        {
            let multiplier: usize = multipliers[k];
            let shift: u64 = (8 * multiplier) as u64;
            match self.get_u8() {
                Ok(byte) => {
                    assert(byte == taken(old(self)@, width as nat)[k as int]);
                    val = val | ((byte as u64) << shift);
                },
                Err(e) => {
                    return Err(e);
                },
            }
            k += 1;
        }
        Ok(val)
    }

    /// Takes two bytes from the end of the buffer and puts them together in
    /// the buffer's byte order.
    pub fn get_u16(&mut self) -> (r: Result<u16, StreamError>)
        ensures
            final(self).order() == old(self).order(),
            old(self)@.len() >= 2 ==> (r matches Ok(v) && v == decode(
                old(self).order(),
                2,
                taken(old(self)@, 2),
            )) && final(self)@ == left(old(self)@, 2),
            old(self)@.len() < 2 ==> r == Err::<u16, StreamError>(StreamError::Underflow)
                && final(self)@ == Seq::<u8>::empty(),
            old(self)@.len() >= 2 ==> (r matches Ok(v) && Scalar::U16(v) == got(
                old(self).order(),
                old(self)@,
                ScalarKind::U16,
            )) && final(self)@ == after_get(old(self)@, ScalarKind::U16),
    {
        proof {
            lemma_decode_fits(self.order(), 2, taken(self@, 2));
        }
        match self.get_uint(2) {
            Ok(val) => Ok(val as u16),
            Err(e) => Err(e),
        }
    }

    /// Takes four bytes from the end of the buffer and puts them together in
    /// the buffer's byte order.
    pub fn get_u32(&mut self) -> (r: Result<u32, StreamError>)
        ensures
            final(self).order() == old(self).order(),
            old(self)@.len() >= 4 ==> (r matches Ok(v) && v == decode(
                old(self).order(),
                4,
                taken(old(self)@, 4),
            )) && final(self)@ == left(old(self)@, 4),
            old(self)@.len() < 4 ==> r == Err::<u32, StreamError>(StreamError::Underflow)
                && final(self)@ == Seq::<u8>::empty(),
            old(self)@.len() >= 4 ==> (r matches Ok(v) && Scalar::U32(v) == got(
                old(self).order(),
                old(self)@,
                ScalarKind::U32,
            )) && final(self)@ == after_get(old(self)@, ScalarKind::U32),
    {
        proof {
            lemma_decode_fits(self.order(), 4, taken(self@, 4));
        }
        match self.get_uint(4) {
            Ok(val) => Ok(val as u32),
            Err(e) => Err(e),
        }
    }

    /// Takes eight bytes from the end of the buffer and puts them together in
    /// the buffer's byte order.
    pub fn get_u64(&mut self) -> (r: Result<u64, StreamError>)
        ensures
            final(self).order() == old(self).order(),
            old(self)@.len() >= 8 ==> r == Ok::<u64, StreamError>(
                decode(old(self).order(), 8, taken(old(self)@, 8)),
            ) && final(self)@ == left(old(self)@, 8),
            old(self)@.len() < 8 ==> r == Err::<u64, StreamError>(StreamError::Underflow)
                && final(self)@ == Seq::<u8>::empty(),
            old(self)@.len() >= 8 ==> (r matches Ok(v) && Scalar::U64(v) == got(
                old(self).order(),
                old(self)@,
                ScalarKind::U64,
            )) && final(self)@ == after_get(old(self)@, ScalarKind::U64),
    {
        self.get_uint(8)
    }

    /// Takes the last byte out of the buffer and reads its bits as a signed
    /// value in two's complement.
    pub fn get_i8(&mut self) -> (r: Result<i8, StreamError>)
        ensures
            final(self).order() == old(self).order(),
            old(self)@.len() > 0 ==> (r matches Ok(v) && v == signed_of(
                old(self)@.last() as int,
                1,
            )) && final(self)@ == old(self)@.drop_last(),
            old(self)@.len() == 0 ==> r == Err::<i8, StreamError>(StreamError::Underflow)
                && final(self)@ == old(self)@,
            old(self)@.len() > 0 ==> (r matches Ok(v) && Scalar::I8(v) == got(
                old(self).order(),
                old(self)@,
                ScalarKind::I8,
            )) && final(self)@ == after_get(old(self)@, ScalarKind::I8),
    {
        match self.get_u8() {
            Ok(bits) => {
                let val: i8 = bits as i8;
                assert(val == signed_of(bits as int, 1)) by {
                    assert(bits >= 0x80 ==> val == bits - 0x100) by (bit_vector)
                        requires
                            val == bits as i8,
                    ;
                    assert(bits < 0x80 ==> val == bits) by (bit_vector)
                        requires
                            val == bits as i8,
                    ;
                }
                Ok(val)
            },
            Err(e) => Err(e),
        }
    }

    /// Takes two bytes from the end of the buffer, puts them together in the
    /// buffer's byte order and reads the bits as a signed value in two's
    /// complement.
    pub fn get_i16(&mut self) -> (r: Result<i16, StreamError>)
        ensures
            final(self).order() == old(self).order(),
            old(self)@.len() >= 2 ==> (r matches Ok(v) && v == signed_of(
                decode(old(self).order(), 2, taken(old(self)@, 2)) as int,
                2,
            )) && final(self)@ == left(old(self)@, 2),
            old(self)@.len() < 2 ==> r == Err::<i16, StreamError>(StreamError::Underflow)
                && final(self)@ == Seq::<u8>::empty(),
            old(self)@.len() >= 2 ==> (r matches Ok(v) && Scalar::I16(v) == got(
                old(self).order(),
                old(self)@,
                ScalarKind::I16,
            )) && final(self)@ == after_get(old(self)@, ScalarKind::I16),
    {
        match self.get_u16() {
            Ok(bits) => {
                let val: i16 = bits as i16;
                assert(val == signed_of(bits as int, 2)) by {
                    assert(bits >= 0x8000 ==> val == bits - 0x1_0000) by (bit_vector)
                        requires
                            val == bits as i16,
                    ;
                    assert(bits < 0x8000 ==> val == bits) by (bit_vector)
                        requires
                            val == bits as i16,
                    ;
                }
                Ok(val)
            },
            Err(e) => Err(e),
        }
    }

    /// Takes four bytes from the end of the buffer, puts them together in the
    /// buffer's byte order and reads the bits as a signed value in two's
    /// complement.
    pub fn get_i32(&mut self) -> (r: Result<i32, StreamError>)
        ensures
            final(self).order() == old(self).order(),
            old(self)@.len() >= 4 ==> (r matches Ok(v) && v == signed_of(
                decode(old(self).order(), 4, taken(old(self)@, 4)) as int,
                4,
            )) && final(self)@ == left(old(self)@, 4),
            old(self)@.len() < 4 ==> r == Err::<i32, StreamError>(StreamError::Underflow)
                && final(self)@ == Seq::<u8>::empty(),
            old(self)@.len() >= 4 ==> (r matches Ok(v) && Scalar::I32(v) == got(
                old(self).order(),
                old(self)@,
                ScalarKind::I32,
            )) && final(self)@ == after_get(old(self)@, ScalarKind::I32),
    {
        match self.get_u32() {
            Ok(bits) => {
                let val: i32 = bits as i32;
                assert(val == signed_of(bits as int, 4)) by {
                    assert(bits >= 0x8000_0000 ==> val == bits - 0x1_0000_0000) by (bit_vector)
                        requires
                            val == bits as i32,
                    ;
                    assert(bits < 0x8000_0000 ==> val == bits) by (bit_vector)
                        requires
                            val == bits as i32,
                    ;
                }
                Ok(val)
            },
            Err(e) => Err(e),
        }
    }

    /// Takes eight bytes from the end of the buffer, puts them together in
    /// the buffer's byte order and reads the bits as a signed value in two's
    /// complement.
    pub fn get_i64(&mut self) -> (r: Result<i64, StreamError>)
        ensures
            final(self).order() == old(self).order(),
            old(self)@.len() >= 8 ==> (r matches Ok(v) && v == signed_of(
                decode(old(self).order(), 8, taken(old(self)@, 8)) as int,
                8,
            )) && final(self)@ == left(old(self)@, 8),
            old(self)@.len() < 8 ==> r == Err::<i64, StreamError>(StreamError::Underflow)
                && final(self)@ == Seq::<u8>::empty(),
            old(self)@.len() >= 8 ==> (r matches Ok(v) && Scalar::I64(v) == got(
                old(self).order(),
                old(self)@,
                ScalarKind::I64,
            )) && final(self)@ == after_get(old(self)@, ScalarKind::I64),
    {
        match self.get_u64() {
            Ok(bits) => {
                let val: i64 = bits as i64;
                assert(val == signed_of(bits as int, 8)) by {
                    assert(bits >= 0x8000_0000_0000_0000 ==> val == bits
                        - 0x1_0000_0000_0000_0000) by (bit_vector)
                        requires
                            val == bits as i64,
                    ;
                    assert(bits < 0x8000_0000_0000_0000 ==> val == bits) by (bit_vector)
                        requires
                            val == bits as i64,
                    ;
                }
                Ok(val)
            },
            Err(e) => Err(e),
        }
    }

    /// Gives the buffer up. It holds nothing but memory, which is released.
    pub fn close(self) {
    }
}

} // verus!
