use binary_stream::{BinaryStream, ByteOrder, StreamError};

fn drain(bs: &mut BinaryStream) -> Vec<u8> {
    let mut bytes: Vec<u8> = Vec::new();
    while let Ok(b) = bs.get_u8() {
        bytes.push(b);
    }
    bytes
}

fn written_bytes(mut bs: BinaryStream) -> Vec<u8> {
    bs.flip();
    drain(&mut bs)
}

#[test]
fn little_endian_puts_the_low_byte_first() {
    let mut bs = BinaryStream::from_byte_order(ByteOrder::LittleEndian);
    bs.put_u16(0x0102);
    bs.put_u32(0x0304_0506);
    bs.put_u64(0x0708_090a_0b0c_0d0e);
    assert_eq!(
        written_bytes(bs),
        vec![0x02, 0x01, 0x06, 0x05, 0x04, 0x03, 0x0e, 0x0d, 0x0c, 0x0b, 0x0a, 0x09, 0x08, 0x07]
    );
}

#[test]
fn big_endian_puts_the_high_byte_first() {
    let mut bs = BinaryStream::from_byte_order(ByteOrder::BigEndian);
    bs.put_u16(0x0102);
    bs.put_u32(0x0304_0506);
    bs.put_u64(0x0708_090a_0b0c_0d0e);
    assert_eq!(
        written_bytes(bs),
        vec![0x01, 0x02, 0x03, 0x04, 0x05, 0x06, 0x07, 0x08, 0x09, 0x0a, 0x0b, 0x0c, 0x0d, 0x0e]
    );
}

#[test]
fn big_endian_writes_are_not_empty() {
    let mut bs = BinaryStream::from_byte_order(ByteOrder::BigEndian);
    bs.put_u16(0xffff);
    assert_eq!(bs.len(), 2);
    bs.put_u32(0);
    assert_eq!(bs.len(), 6);
    bs.put_u64(0);
    assert_eq!(bs.len(), 14);
}

#[test]
fn layout_agrees_with_the_standard_conversions() {
    let value: u32 = 128_000;
    let mut little = BinaryStream::from_byte_order(ByteOrder::LittleEndian);
    little.put_u32(value);
    assert_eq!(written_bytes(little), value.to_le_bytes().to_vec());
    let mut big = BinaryStream::from_byte_order(ByteOrder::BigEndian);
    big.put_u32(value);
    assert_eq!(written_bytes(big), value.to_be_bytes().to_vec());
    assert_eq!(value.to_le_bytes(), [0x00, 0xf4, 0x01, 0x00]);
}

#[test]
fn signed_values_are_written_in_twos_complement() {
    let mut bs = BinaryStream::from_byte_order(ByteOrder::LittleEndian);
    bs.put_i8(-1);
    bs.put_i8(-128);
    bs.put_i16(-32_000);
    bs.put_i32(-2);
    bs.put_i64(-3);
    assert_eq!(
        written_bytes(bs),
        vec![
            0xff, 0x80, 0x00, 0x83, 0xfe, 0xff, 0xff, 0xff, 0xfd, 0xff, 0xff, 0xff, 0xff, 0xff,
            0xff, 0xff
        ]
    );
}

#[test]
fn signed_values_in_big_endian() {
    let mut bs = BinaryStream::from_byte_order(ByteOrder::BigEndian);
    bs.put_i16(-32_000);
    bs.put_i32(-2);
    assert_eq!(written_bytes(bs), vec![0x83, 0x00, 0xff, 0xff, 0xff, 0xfe]);
}

#[test]
fn a_signed_write_reads_back_as_its_bit_pattern() {
    let mut bs = BinaryStream::from_byte_order(ByteOrder::BigEndian);
    bs.put_i16(-1);
    bs.put_u16(0x8000);
    bs.put_i8(-2);
    bs.put_u32(0xffff_fffe);
    bs.put_u64(0x8000_0000_0000_0000);
    bs.flip();
    assert_eq!(bs.get_u16(), Ok(0xffff));
    assert_eq!(bs.get_i16(), Ok(i16::MIN));
    assert_eq!(bs.get_u8(), Ok(0xfe));
    assert_eq!(bs.get_i32(), Ok(-2));
    assert_eq!(bs.get_i64(), Ok(i64::MIN));
}

#[test]
fn reads_put_the_taken_bytes_together_in_byte_order() {
    let mut little = BinaryStream::from_byte_order(ByteOrder::LittleEndian);
    little.put_u8(0x11);
    little.put_u8(0x22);
    little.put_u8(0x33);
    little.put_u8(0x44);
    little.flip();
    assert_eq!(little.get_u32(), Ok(0x4433_2211));

    let mut big = BinaryStream::from_byte_order(ByteOrder::BigEndian);
    big.put_u8(0x11);
    big.put_u8(0x22);
    big.put_u8(0x33);
    big.put_u8(0x44);
    big.flip();
    assert_eq!(big.get_u32(), Ok(0x1122_3344));
}

#[test]
fn a_read_without_a_flip_takes_the_newest_bytes() {
    let mut bs = BinaryStream::from_byte_order(ByteOrder::LittleEndian);
    bs.put_u8(0x11);
    bs.put_u8(0x22);
    bs.put_u8(0x33);
    assert_eq!(bs.get_u16(), Ok(0x2233));
    assert_eq!(bs.len(), 1);
    assert_eq!(bs.get_u8(), Ok(0x11));
}

#[test]
fn shift_multipliers_ascend_for_little_endian() {
    let order = ByteOrder::LittleEndian;
    assert_eq!(order.get_mask_shift_multipliers(1), vec![0]);
    assert_eq!(order.get_mask_shift_multipliers(2), vec![0, 1]);
    assert_eq!(order.get_mask_shift_multipliers(4), vec![0, 1, 2, 3]);
    assert_eq!(order.get_mask_shift_multipliers(8), vec![0, 1, 2, 3, 4, 5, 6, 7]);
}

#[test]
fn shift_multipliers_descend_for_big_endian() {
    let order = ByteOrder::BigEndian;
    assert_eq!(order.get_mask_shift_multipliers(1), vec![0]);
    assert_eq!(order.get_mask_shift_multipliers(2), vec![1, 0]);
    assert_eq!(order.get_mask_shift_multipliers(4), vec![3, 2, 1, 0]);
    assert_eq!(order.get_mask_shift_multipliers(8), vec![7, 6, 5, 4, 3, 2, 1, 0]);
}

#[test]
fn shift_multipliers_of_width_zero_are_none() {
    assert_eq!(ByteOrder::LittleEndian.get_mask_shift_multipliers(0), Vec::<usize>::new());
    assert_eq!(ByteOrder::BigEndian.get_mask_shift_multipliers(0), Vec::<usize>::new());
}

#[test]
fn underflow_is_the_only_error() {
    assert_eq!(StreamError::Underflow, StreamError::Underflow);
    assert_eq!(format!("{:?}", StreamError::Underflow), "Underflow");
}
