use binary_stream::{BinaryStream, ByteOrder, StreamError};

#[test]
fn every_reader_fails_on_a_fresh_buffer() {
    let orders = [ByteOrder::LittleEndian, ByteOrder::BigEndian];
    for order in orders {
        let mut bs = BinaryStream::from_byte_order(order);
        assert_eq!(bs.get_u8(), Err(StreamError::Underflow));
        assert_eq!(bs.get_u16(), Err(StreamError::Underflow));
        assert_eq!(bs.get_u32(), Err(StreamError::Underflow));
        assert_eq!(bs.get_u64(), Err(StreamError::Underflow));
        assert_eq!(bs.get_i8(), Err(StreamError::Underflow));
        assert_eq!(bs.get_i16(), Err(StreamError::Underflow));
        assert_eq!(bs.get_i32(), Err(StreamError::Underflow));
        assert_eq!(bs.get_i64(), Err(StreamError::Underflow));
        assert_eq!(bs.len(), 0);
    }
}

#[test]
fn every_reader_fails_on_a_drained_buffer() {
    let mut bs = BinaryStream::from_byte_order(ByteOrder::LittleEndian);
    bs.put_u64(0);
    bs.flip();
    assert_eq!(bs.get_u64(), Ok(0));
    assert_eq!(bs.get_u8(), Err(StreamError::Underflow));
    assert_eq!(bs.get_u16(), Err(StreamError::Underflow));
    assert_eq!(bs.get_u32(), Err(StreamError::Underflow));
    assert_eq!(bs.get_u64(), Err(StreamError::Underflow));
    assert_eq!(bs.get_i8(), Err(StreamError::Underflow));
    assert_eq!(bs.get_i16(), Err(StreamError::Underflow));
    assert_eq!(bs.get_i32(), Err(StreamError::Underflow));
    assert_eq!(bs.get_i64(), Err(StreamError::Underflow));
}

#[test]
fn a_read_that_runs_out_leaves_the_buffer_empty() {
    let mut bs = BinaryStream::from_byte_order(ByteOrder::LittleEndian);
    bs.put_u8(1);
    bs.put_u8(2);
    bs.put_u8(3);
    bs.flip();
    assert_eq!(bs.get_u32(), Err(StreamError::Underflow));
    assert_eq!(bs.len(), 0);
    assert_eq!(bs.get_u8(), Err(StreamError::Underflow));
}

#[test]
fn a_signed_read_that_runs_out_leaves_the_buffer_empty() {
    let mut bs = BinaryStream::from_byte_order(ByteOrder::BigEndian);
    bs.put_u32(0xffff_ffff);
    bs.put_u16(0xffff);
    bs.put_u8(0xff);
    bs.flip();
    assert_eq!(bs.get_i64(), Err(StreamError::Underflow));
    assert_eq!(bs.len(), 0);
}

#[test]
fn one_byte_short_is_underflow() {
    let mut bs = BinaryStream::from_byte_order(ByteOrder::BigEndian);
    bs.put_u8(1);
    assert_eq!(bs.get_u16(), Err(StreamError::Underflow));
    assert_eq!(bs.len(), 0);
    bs.put_u8(1);
    bs.put_u8(2);
    bs.put_u8(3);
    assert_eq!(bs.get_i32(), Err(StreamError::Underflow));
    assert_eq!(bs.len(), 0);
}

#[test]
fn a_buffer_can_be_written_again_after_underflow() {
    let mut bs = BinaryStream::from_byte_order(ByteOrder::LittleEndian);
    assert_eq!(bs.get_u16(), Err(StreamError::Underflow));
    bs.put_u16(0x1234);
    bs.flip();
    assert_eq!(bs.get_u16(), Ok(0x1234));
}
