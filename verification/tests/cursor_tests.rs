use chibiwasm::cursor::ByteCursor;
use chibiwasm::varint::encode_signed;
use chibiwasm::varint::encode_unsigned;
use chibiwasm::DecodeError;
use chibiwasm::Malformation;

#[test]
fn decode_test_read() {
    //Given
    let test_bytes = b"\0asm".to_vec();
    let mut read = ByteCursor::new(test_bytes);
    //When Then
    let b = read.read_byte().unwrap();
    assert_eq!(b, 0x00);

    //When Then
    let b = read.read_bytes(2).unwrap();
    assert_eq!(b, vec![0x61, 0x73]);
    assert!(read.has_next());

    let b = read.read_byte().unwrap();
    assert_eq!(b, 0x6d);
    assert!(!read.has_next());
}

#[test]
fn decode_test_u32_le() {
    //Given
    let test_bytes = vec![0x01_u8, 0x02, 0x03, 0x04];
    let mut cur = ByteCursor::new(test_bytes);
    //When
    let x = cur.read_u32_le().unwrap();
    //Then
    assert_eq!(x, 0x04_03_02_01_u32);
}

// 344865 => 0x54_32_1 => 0b101_0100_0011_0010_0001
// 7bit split =>    10101  0000110  0100001
// Add MSB =>    00010101 10000110 10100001
// HEX     =>    0x15     0x86     0xA1
// LE      =>    0xA1     0x86     0x15
#[test]
fn decode_test_unsigned_leb() {
    //Given
    let test_bytes = vec![0xA1_u8, 0x86, 0x15];
    let mut cur = ByteCursor::new(test_bytes.clone());
    //When
    let x = cur.read_u64().unwrap();
    //Then
    assert_eq!(x, 344865);

    //When
    let mut cur = ByteCursor::new(test_bytes);
    let x = cur.read_u32().unwrap();
    //Then
    assert_eq!(x, 344865);
}

#[test]
fn decode_test_signed_leb() {
    //Given
    let buf = encode_signed(-512);
    //When
    let mut cur = ByteCursor::new(buf.clone());
    let x = cur.read_i64().unwrap();
    //Then
    assert_eq!(x, -512);

    //When
    let mut cur = ByteCursor::new(buf);
    let x = cur.read_i32().unwrap();
    //Then
    assert_eq!(x, -512);
}

#[test]
fn read_the_rest() {
    //Given
    let bytes = vec![0x01u8, 0x02, 0x03, 0x04, 0x05];
    let mut reader = ByteCursor::new(bytes);
    //When
    let first_read = reader.read_bytes(2).unwrap();
    let the_rest = reader.read_the_rest();
    //Then
    assert_eq!(first_read, vec![0x01, 0x02]);
    assert_eq!(the_rest, vec![0x03, 0x04, 0x05]);
}

#[test]
fn unsigned_round_trip_concrete() {
    assert_eq!(encode_unsigned(344865), vec![0xA1, 0x86, 0x15]);
    for n in [0u64, 1, 127, 128, 300, 344865, u32::MAX as u64, u64::MAX] {
        let mut cur = ByteCursor::new(encode_unsigned(n));
        assert_eq!(cur.read_u64().unwrap(), n);
        assert!(!cur.has_next());
    }
}

#[test]
fn signed_round_trip_concrete() {
    assert_eq!(encode_signed(-512), vec![0x80, 0x7C]);
    for n in [0i64, 1, -1, 63, 64, -64, -65, 512, -512, i32::MAX as i64, i32::MIN as i64, i64::MAX, i64::MIN] {
        let mut cur = ByteCursor::new(encode_signed(n));
        assert_eq!(cur.read_i64().unwrap(), n);
        assert!(!cur.has_next());
    }
}

#[test]
fn overlong_encoding_is_accepted() {
    // A two-byte encoding of zero: not minimal, but within ten bytes.
    let mut cur = ByteCursor::new(vec![0x80, 0x00]);
    assert_eq!(cur.read_u64().unwrap(), 0);
}

#[test]
fn varint_overflow_is_malformed() {
    // Eleven bytes: too long for a 64-bit value.
    let bytes = vec![0x80u8, 0x80, 0x80, 0x80, 0x80, 0x80, 0x80, 0x80, 0x80, 0x80, 0x01];
    let mut cur = ByteCursor::new(bytes);
    assert_eq!(
        cur.read_u64(),
        Err(DecodeError::Malformed(Malformation::VarintOverflow))
    );
    // Ten bytes whose value needs 65 bits.
    let bytes = vec![0x80u8, 0x80, 0x80, 0x80, 0x80, 0x80, 0x80, 0x80, 0x80, 0x02];
    let mut cur = ByteCursor::new(bytes);
    assert_eq!(
        cur.read_u64(),
        Err(DecodeError::Malformed(Malformation::VarintOverflow))
    );
}

#[test]
fn varint_eof_is_unexpected_eof() {
    // The continuation bit promises another byte that never comes.
    let mut cur = ByteCursor::new(vec![0xA1u8, 0x86]);
    assert_eq!(cur.read_u64(), Err(DecodeError::UnexpectedEof));
    let mut cur = ByteCursor::new(Vec::new());
    assert_eq!(cur.read_byte(), Err(DecodeError::UnexpectedEof));
    let mut cur = ByteCursor::new(vec![0x01u8, 0x02]);
    assert_eq!(cur.read_bytes(3), Err(DecodeError::UnexpectedEof));
}
