//! What holds of whole runs of writes and reads.
//!
//! `after_put`, `got` and `after_get` say what one writer or reader does to
//! the bytes of a buffer; the contracts of the buffer's methods are stated in
//! these terms, and the laws below are proved from them.

use vstd::prelude::*;
use crate::binary_stream::ByteOrder;
use crate::encoding::{
    decode, encode, left, lemma_decode_encode, lemma_signed_of_unsigned_of, signed_of, taken,
    unsigned_of,
};

verus! {

/// One integer as a caller hands it to a writer.
pub enum Scalar {
    U8(u8),
    U16(u16),
    U32(u32),
    U64(u64),
    I8(i8),
    I16(i16),
    I32(i32),
    I64(i64),
}

/// The width and signedness that a reader is asked for.
pub enum ScalarKind {
    U8,
    U16,
    U32,
    U64,
    I8,
    I16,
    I32,
    I64,
}

impl ScalarKind {
    /// The number of bytes that a value of this kind takes in a buffer.
    pub open spec fn width(self) -> nat {
        match self {
            ScalarKind::U8 | ScalarKind::I8 => 1,
            ScalarKind::U16 | ScalarKind::I16 => 2,
            ScalarKind::U32 | ScalarKind::I32 => 4,
            ScalarKind::U64 | ScalarKind::I64 => 8,
        }
    }
}

impl Scalar {
    /// The width and signedness of the value.
    pub open spec fn kind(self) -> ScalarKind {
        match self {
            Scalar::U8(_) => ScalarKind::U8,
            Scalar::U16(_) => ScalarKind::U16,
            Scalar::U32(_) => ScalarKind::U32,
            Scalar::U64(_) => ScalarKind::U64,
            Scalar::I8(_) => ScalarKind::I8,
            Scalar::I16(_) => ScalarKind::I16,
            Scalar::I32(_) => ScalarKind::I32,
            Scalar::I64(_) => ScalarKind::I64,
        }
    }
}

/// The bytes that the writer for `item` makes of the bytes `buf`.
pub open spec fn after_put(order: ByteOrder, buf: Seq<u8>, item: Scalar) -> Seq<u8> {
    match item {
        Scalar::U8(v) => buf.push(v),
        Scalar::U16(v) => buf + encode(order, 2, v as u64),
        Scalar::U32(v) => buf + encode(order, 4, v as u64),
        Scalar::U64(v) => buf + encode(order, 8, v),
        Scalar::I8(v) => buf.push(unsigned_of(v as int, 1) as u8),
        Scalar::I16(v) => buf + encode(order, 2, unsigned_of(v as int, 2) as u64),
        Scalar::I32(v) => buf + encode(order, 4, unsigned_of(v as int, 4) as u64),
        Scalar::I64(v) => buf + encode(order, 8, unsigned_of(v as int, 8) as u64),
    }
}

/// The value that the reader for `kind` returns on bytes `buf` that are
/// enough for it.
pub open spec fn got(order: ByteOrder, buf: Seq<u8>, kind: ScalarKind) -> Scalar {
    match kind {
        ScalarKind::U8 => Scalar::U8(buf.last()),
        ScalarKind::U16 => Scalar::U16(decode(order, 2, taken(buf, 2)) as u16),
        ScalarKind::U32 => Scalar::U32(decode(order, 4, taken(buf, 4)) as u32),
        ScalarKind::U64 => Scalar::U64(decode(order, 8, taken(buf, 8))),
        ScalarKind::I8 => Scalar::I8(signed_of(buf.last() as int, 1) as i8),
        ScalarKind::I16 => Scalar::I16(
            signed_of(decode(order, 2, taken(buf, 2)) as int, 2) as i16,
        ),
        ScalarKind::I32 => Scalar::I32(
            signed_of(decode(order, 4, taken(buf, 4)) as int, 4) as i32,
        ),
        ScalarKind::I64 => Scalar::I64(
            signed_of(decode(order, 8, taken(buf, 8)) as int, 8) as i64,
        ),
    }
}

/// The bytes that the reader for `kind` leaves of bytes `buf` that are
/// enough for it.
pub open spec fn after_get(buf: Seq<u8>, kind: ScalarKind) -> Seq<u8> {
    match kind {
        ScalarKind::U8 | ScalarKind::I8 => buf.drop_last(),
        _ => left(buf, kind.width()),
    }
}

/// The buffer after `items` were written to an empty one, the first item
/// first.
pub open spec fn written(order: ByteOrder, items: Seq<Scalar>) -> Seq<u8>
    decreases items.len(),
{
    if items.len() == 0 {
        Seq::empty()
    } else {
        after_put(order, written(order, items.drop_last()), items.last())
    }
}

/// The sum of the widths of `items`.
pub open spec fn total_width(items: Seq<Scalar>) -> nat
    decreases items.len(),
{
    if items.len() == 0 {
        0
    } else {
        total_width(items.drop_last()) + items.last().kind().width()
    }
}

/// The buffer after `items` were written to an empty one, the buffer was
/// flipped, and the first `k` of them were read back by kind.
pub open spec fn unread(order: ByteOrder, items: Seq<Scalar>, k: nat) -> Seq<u8>
    decreases k,
{
    if k == 0 {
        written(order, items).reverse()
    } else {
        after_get(unread(order, items, (k - 1) as nat), items[k - 1].kind())
    }
}

/// The bytes that stand for one item.
pub open spec fn bytes_of(order: ByteOrder, item: Scalar) -> Seq<u8> {
    after_put(order, Seq::empty(), item)
}

/// The bytes that stand for the items from the `k`-th on.
pub open spec fn bytes_from(order: ByteOrder, items: Seq<Scalar>, k: nat) -> Seq<u8>
    decreases items.len() - k,
{
    if k >= items.len() {
        Seq::empty()
    } else {
        bytes_of(order, items[k as int]) + bytes_from(order, items, k + 1)
    }
}

/// A writer appends the item's bytes, as many as the item is wide, and
/// leaves what was there.
pub proof fn lemma_put_appends(order: ByteOrder, buf: Seq<u8>, item: Scalar)
    ensures
        after_put(order, buf, item) == buf + bytes_of(order, item),
        bytes_of(order, item).len() == item.kind().width(),
{
    assert(after_put(order, buf, item) =~= buf + bytes_of(order, item));
}

/// Byte-count conservation: after any run of writes the buffer holds as
/// many bytes as the widths of the written values add up to.
pub proof fn lemma_written_len(order: ByteOrder, items: Seq<Scalar>)
    ensures
        written(order, items).len() == total_width(items),
    decreases items.len(),
{
    if items.len() > 0 {
        lemma_written_len(order, items.drop_last());
        lemma_put_appends(order, written(order, items.drop_last()), items.last());
    }
}

/// Flipping twice gives back the bytes as they were.
pub proof fn lemma_double_flip(buf: Seq<u8>)
    ensures
        buf.reverse().reverse() == buf,
{
    assert(buf.reverse().reverse() =~= buf);
}

/// On the flipped bytes of an item followed by anything, the reader for
/// the item's kind finds enough bytes, returns the item, and leaves the
/// flipped rest.
pub proof fn lemma_read_back_one(order: ByteOrder, item: Scalar, rest: Seq<u8>)
    ensures
        (bytes_of(order, item) + rest).reverse().len() >= item.kind().width(),
        got(order, (bytes_of(order, item) + rest).reverse(), item.kind()) == item,
        after_get((bytes_of(order, item) + rest).reverse(), item.kind()) == rest.reverse(),
{
    let bytes = bytes_of(order, item);
    let buf = (bytes + rest).reverse();
    let width = item.kind().width();
    lemma_put_appends(order, Seq::empty(), item);
    assert(taken(buf, width) =~= bytes);
    assert(after_get(buf, item.kind()) =~= rest.reverse());
    match item {
        Scalar::U8(v) => {
            assert(buf.last() == bytes[0]);
        },
        Scalar::U16(v) => {
            lemma_decode_encode(order, 2, v as u64);
        },
        Scalar::U32(v) => {
            lemma_decode_encode(order, 4, v as u64);
        },
        Scalar::U64(v) => {
            lemma_decode_encode(order, 8, v);
        },
        Scalar::I8(v) => {
            lemma_signed_of_unsigned_of(v as int, 1);
            assert(buf.last() == bytes[0]);
        },
        Scalar::I16(v) => {
            lemma_signed_of_unsigned_of(v as int, 2);
            lemma_decode_encode(order, 2, unsigned_of(v as int, 2) as u64);
        },
        Scalar::I32(v) => {
            lemma_signed_of_unsigned_of(v as int, 4);
            lemma_decode_encode(order, 4, unsigned_of(v as int, 4) as u64);
        },
        Scalar::I64(v) => {
            lemma_signed_of_unsigned_of(v as int, 8);
            lemma_decode_encode(order, 8, unsigned_of(v as int, 8) as u64);
        },
    }
}

/// What was written is the bytes of the first `k` items followed by the
/// bytes of the others.
proof fn lemma_written_splits(order: ByteOrder, items: Seq<Scalar>, k: nat)
    requires
        k <= items.len(),
    ensures
        written(order, items) == written(order, items.take(k as int)) + bytes_from(
            order,
            items,
            k,
        ),
    decreases items.len() - k,
{
    if k == items.len() {
        assert(items.take(k as int) =~= items);
        assert(written(order, items) =~= written(order, items) + Seq::<u8>::empty());
    } else {
        let front = items.take((k + 1) as int);
        lemma_written_splits(order, items, k + 1);
        assert(front.drop_last() =~= items.take(k as int));
        assert(front.last() == items[k as int]);
        lemma_put_appends(order, written(order, items.take(k as int)), items[k as int]);
        assert(written(order, items) =~= written(order, items.take(k as int)) + bytes_from(
            order,
            items,
            k,
        ));
    }
}

/// After the flip and `k` reads, the buffer holds the flipped bytes of the
/// items that are still to be read.
proof fn lemma_unread_is_rest(order: ByteOrder, items: Seq<Scalar>, k: nat)
    requires
        k <= items.len(),
    ensures
        unread(order, items, k) == bytes_from(order, items, k).reverse(),
    decreases k,
{
    if k == 0 {
        lemma_written_splits(order, items, 0);
        assert(items.take(0) =~= Seq::<Scalar>::empty());
        assert(written(order, items) =~= bytes_from(order, items, 0));
    } else {
        let j = (k - 1) as nat;
        lemma_unread_is_rest(order, items, j);
        lemma_read_back_one(order, items[j as int], bytes_from(order, items, k));
    }
}

/// Round trip: after any run of writes and one flip, reading with the same
/// kinds in the same order finds, at each step, enough bytes and the value
/// that was written at that step, in either byte order; nothing is left
/// when the last value was read.
pub proof fn lemma_round_trip(order: ByteOrder, items: Seq<Scalar>, k: nat)
    requires
        k < items.len(),
    ensures
        unread(order, items, k).len() >= items[k as int].kind().width(),
        got(order, unread(order, items, k), items[k as int].kind()) == items[k as int],
        unread(order, items, items.len()) == Seq::<u8>::empty(),
{
    lemma_unread_is_rest(order, items, k);
    lemma_read_back_one(order, items[k as int], bytes_from(order, items, k + 1));
    lemma_unread_is_rest(order, items, items.len());
    assert(bytes_from(order, items, items.len()).reverse() =~= Seq::<u8>::empty());
}

} // verus!
