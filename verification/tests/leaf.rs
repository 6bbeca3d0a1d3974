use binrw::directive::advanced;
use binrw::expr::{BinOp, Expr};
use binrw::ints::{decode, encode};
use binrw::io::Cursor;
use binrw::value::IntType;
use binrw::{BinRead, BinReaderExt, BinWrite, BinWriterExt, Endian, Error, LeafError, ReadOptions, Value, WriteOptions};

#[test]
fn write_options_keep_their_byte_order() {
    assert_eq!(WriteOptions::new(Endian::Big).endian(), Endian::Big);
    assert_eq!(WriteOptions::new(Endian::Little).endian(), Endian::Little);
    assert_eq!(WriteOptions::new(Endian::Big).with_endian(Endian::Native).endian(), Endian::Native);
    assert_eq!(WriteOptions::default().endian(), Endian::Native);
    assert_eq!(ReadOptions::new(Endian::Little).endian(), Endian::Little);
    assert_eq!(ReadOptions::new(Endian::Little).with_endian(Endian::Big).endian(), Endian::Big);
    assert_eq!(ReadOptions::default().endian(), Endian::Native);
    assert_eq!(Endian::default(), Endian::Native);
}

#[test]
fn native_order_is_the_order_of_the_machine() {
    let native_is_big = 0x0102u16.to_ne_bytes() == 0x0102u16.to_be_bytes();
    assert_eq!(Endian::Native.is_big(), native_is_big);
    assert!(Endian::Big.is_big());
    assert!(!Endian::Little.is_big());
    let mut writer = Cursor::new(Vec::new());
    writer.write_ne(&0x01020304u32).unwrap();
    0x0506u16.write_to(&mut writer).unwrap();
    let mut expected = 0x01020304u32.to_ne_bytes().to_vec();
    expected.extend(0x0506u16.to_ne_bytes());
    assert_eq!(writer.into_inner(), expected);
    let mut reader = Cursor::new(expected);
    assert_eq!(reader.read_ne::<u32>().unwrap(), 0x01020304);
    assert_eq!(u16::read(&mut reader).unwrap(), 0x0506);
}

#[test]
fn integers_are_written_in_both_orders() {
    let mut writer = Cursor::new(Vec::new());
    writer.write_be(&0x01u8).unwrap();
    writer.write_be(&0x0203u16).unwrap();
    writer.write_be(&0x04050607u32).unwrap();
    writer.write_be(&0x08090a0b0c0d0e0fu64).unwrap();
    writer.write_le(&0x01u8).unwrap();
    writer.write_le(&0x0203u16).unwrap();
    writer.write_le(&0x04050607u32).unwrap();
    writer.write_le(&0x08090a0b0c0d0e0fu64).unwrap();
    writer.write_be_args(&0xaabbu16, ()).unwrap();
    writer.write_le_args(&0xaabbu16, ()).unwrap();
    writer.write_type_args(&0xccddu16, Endian::Big, ()).unwrap();
    0xeeffu16.write_options(&mut writer, &WriteOptions::new(Endian::Little), ()).unwrap();
    let bytes = writer.into_inner();
    assert_eq!(
        bytes,
        vec![
            1, 2, 3, 4, 5, 6, 7, 8, 9, 10, 11, 12, 13, 14, 15, 1, 3, 2, 7, 6, 5, 4, 15, 14, 13, 12, 11, 10, 9,
            8, 0xaa, 0xbb, 0xbb, 0xaa, 0xcc, 0xdd, 0xff, 0xee
        ]
    );
    let mut reader = Cursor::new(bytes);
    assert_eq!(reader.read_be::<u8>().unwrap(), 1);
    assert_eq!(reader.read_be::<u16>().unwrap(), 0x0203);
    assert_eq!(reader.read_be::<u32>().unwrap(), 0x04050607);
    assert_eq!(reader.read_be::<u64>().unwrap(), 0x08090a0b0c0d0e0f);
    assert_eq!(reader.read_le::<u8>().unwrap(), 1);
    assert_eq!(reader.read_le::<u16>().unwrap(), 0x0203);
    assert_eq!(reader.read_le::<u32>().unwrap(), 0x04050607);
    assert_eq!(reader.read_le::<u64>().unwrap(), 0x08090a0b0c0d0e0f);
    assert_eq!(reader.read_type_args::<u16>(Endian::Big, ()).unwrap(), 0xaabb);
    assert_eq!(reader.read_type::<u16>(Endian::Little).unwrap(), 0xaabb);
    assert_eq!(u16::read_options(&mut reader, &ReadOptions::new(Endian::Big), ()).unwrap(), 0xccdd);
    assert_eq!(u16::read_args(&mut reader, ()).is_ok(), true);
    assert_eq!(reader.position(), 38);
    assert_eq!(reader.read_be::<u8>(), Err(Error::LeafCodecError(LeafError::UnexpectedEof)));
    assert_eq!(reader.position(), 38);
}

#[test]
fn write_with_args_uses_the_order_of_the_machine() {
    let mut writer = Cursor::new(Vec::new());
    0x0102u16.write_with_args(&mut writer, ()).unwrap();
    assert_eq!(writer.into_inner(), 0x0102u16.to_ne_bytes().to_vec());
}

#[test]
fn encode_and_decode_are_exact() {
    assert_eq!(encode(0x0102030405060708, 8, true), vec![1, 2, 3, 4, 5, 6, 7, 8]);
    assert_eq!(encode(0x0102030405060708, 8, false), vec![8, 7, 6, 5, 4, 3, 2, 1]);
    assert_eq!(encode(0x0102030405060708, 2, true), vec![7, 8]);
    assert_eq!(encode(0x0102030405060708, 3, false), vec![8, 7, 6]);
    assert_eq!(encode(5, 0, true), Vec::<u8>::new());
    assert_eq!(decode(&[1, 2, 3], true), 0x010203);
    assert_eq!(decode(&[1, 2, 3], false), 0x030201);
    assert_eq!(decode(&[], true), 0);
    assert_eq!(decode(&[0xff; 8], false), u64::MAX);
}

#[test]
fn cursor_overwrites_extends_and_fills() {
    let mut cursor = Cursor::new(vec![1, 2, 3, 4]);
    cursor.set_position(1);
    cursor.write_all(&[9, 8]).unwrap();
    assert_eq!(cursor.position(), 3);
    assert_eq!(cursor.get_ref(), &vec![1, 9, 8, 4]);
    cursor.write_all(&[7, 6, 5]).unwrap();
    assert_eq!(cursor.get_ref(), &vec![1, 9, 8, 7, 6, 5]);
    cursor.set_position(8);
    cursor.write_all(&[4]).unwrap();
    assert_eq!(cursor.get_ref(), &vec![1, 9, 8, 7, 6, 5, 0, 0, 4]);
    assert_eq!(cursor.position(), 9);
    cursor.set_position(11);
    cursor.write_all(&[]).unwrap();
    assert_eq!(cursor.into_inner(), vec![1, 9, 8, 7, 6, 5, 0, 0, 4, 0, 0]);
}

#[test]
fn cursor_reads_and_skips() {
    let mut cursor = Cursor::new(vec![1, 2, 3, 4]);
    assert_eq!(cursor.read_exact(0).unwrap(), Vec::<u8>::new());
    assert_eq!(cursor.read_exact(3).unwrap(), vec![1, 2, 3]);
    assert_eq!(cursor.read_exact(2), Err(Error::LeafCodecError(LeafError::UnexpectedEof)));
    assert_eq!(cursor.position(), 3);
    cursor.skip(10).unwrap();
    assert_eq!(cursor.position(), 13);
    assert_eq!(cursor.read_exact(0), Err(Error::LeafCodecError(LeafError::UnexpectedEof)));
    assert_eq!(cursor.skip(u64::MAX), Err(Error::LeafCodecError(LeafError::PositionOverflow)));
    assert_eq!(cursor.position(), 13);
    cursor.set_position(usize::MAX);
    assert_eq!(cursor.write_all(&[1]), Err(Error::LeafCodecError(LeafError::PositionOverflow)));
    assert_eq!(cursor.get_ref().len(), 4);
}

#[test]
fn padding_goes_up_to_the_next_multiple() {
    assert_eq!(advanced(0, 0, 0), Some(0));
    assert_eq!(advanced(5, 0, 0), Some(5));
    assert_eq!(advanced(5, 3, 0), Some(8));
    assert_eq!(advanced(5, 0, 4), Some(8));
    assert_eq!(advanced(8, 0, 4), Some(8));
    assert_eq!(advanced(5, 4, 4), Some(12));
    assert_eq!(advanced(0, 0, 7), Some(0));
    assert_eq!(advanced(1, 0, 1), Some(1));
    assert_eq!(advanced(usize::MAX, 0, 0), Some(usize::MAX));
    assert_eq!(advanced(usize::MAX, 1, 0), None);
    assert_eq!(advanced(usize::MAX, 0, 2), None);
    assert_eq!(advanced(1, u64::MAX, 0), None);
}

#[test]
fn expressions_wrap_or_fail() {
    let env = vec![10, 20];
    let args = vec![7];
    let sum = Expr::Binary(BinOp::Add, Box::new(Expr::Field(1)), Box::new(Expr::This));
    assert_eq!(sum.eval(&env, &args, 5), 25);
    assert_eq!(sum.eval(&env, &args, u64::MAX), 19);
    assert_eq!(sum.try_eval(&env, &args, 5), Some(25));
    assert_eq!(sum.try_eval(&env, &args, u64::MAX), None);
    let diff = Expr::Binary(BinOp::Sub, Box::new(Expr::Arg(0)), Box::new(Expr::Field(0)));
    assert_eq!(diff.eval(&env, &args, 0), u64::MAX - 2);
    assert_eq!(diff.try_eval(&env, &args, 0), None);
    let product = Expr::Binary(BinOp::Mul, Box::new(Expr::Lit(1 << 63)), Box::new(Expr::Lit(2)));
    assert_eq!(product.eval(&env, &args, 0), 0);
    assert_eq!(product.try_eval(&env, &args, 0), None);
    assert_eq!(Expr::Field(2).eval(&env, &args, 0), 0);
    assert_eq!(Expr::Arg(1).eval(&env, &args, 0), 0);
    assert_eq!(Expr::Not(Box::new(Expr::Field(0))).eval(&env, &args, 0), 0);
    assert_eq!(Expr::Not(Box::new(Expr::Field(5))).eval(&env, &args, 0), 1);
    let cases = [
        (BinOp::Eq, 3, 3, 1),
        (BinOp::Eq, 3, 4, 0),
        (BinOp::Ne, 3, 4, 1),
        (BinOp::Lt, 3, 4, 1),
        (BinOp::Lt, 4, 4, 0),
        (BinOp::Le, 4, 4, 1),
        (BinOp::Gt, 4, 4, 0),
        (BinOp::Gt, 5, 4, 1),
        (BinOp::Ge, 4, 4, 1),
        (BinOp::And, 2, 0, 0),
        (BinOp::And, 2, 3, 1),
        (BinOp::Or, 0, 0, 0),
        (BinOp::Or, 0, 9, 1),
    ];
    for (op, l, r, expected) in cases {
        assert_eq!(op.apply(l, r), expected);
        assert_eq!(op.try_apply(l, r), Some(expected));
    }
}

#[test]
fn integer_types_cut_to_their_width() {
    assert_eq!(IntType::U8.width(), 1);
    assert_eq!(IntType::U16.width(), 2);
    assert_eq!(IntType::U32.width(), 4);
    assert_eq!(IntType::U64.width(), 8);
    assert_eq!(IntType::U8.value(0x1ff), Value::U8(0xff));
    assert_eq!(IntType::U16.value(0x12345), Value::U16(0x2345));
    assert_eq!(IntType::U32.value(u64::MAX), Value::U32(u32::MAX));
    assert_eq!(IntType::U64.value(u64::MAX), Value::U64(u64::MAX));
    assert!(IntType::U8.admits(255));
    assert!(!IntType::U8.admits(256));
    assert!(!IntType::U16.admits(65536));
    assert!(IntType::U32.admits(0xffff_ffff));
    assert_eq!(Value::List(vec![Value::U8(1), Value::U8(2)]).scalar(), 2);
    assert_eq!(Value::U32(77).scalar(), 77);
    assert_eq!(Value::Record(vec![Value::U8(1)]).scalar(), 0);
}
