use fastgmad::error::GmaError;
use fastgmad::util::{bytes_eq, ByteReader, ByteWriter, IoSkip, WriteEx};

#[test]
fn test_byte_writer() {
    let mut w = ByteWriter::new();
    w.write_all(b"GM");
    w.write_u8(65);
    w.write_u8(68);
    w.write_u32_le(0x01020304);
    w.write_u64_le(0x1122334455667788);
    w.write_i64_le(-2);
    w.write_nul_str(b"title");
    let out = w.into_vec();
    let mut expect = Vec::new();
    expect.extend_from_slice(b"GMAD");
    expect.extend_from_slice(&[4, 3, 2, 1]);
    expect.extend_from_slice(&[0x88, 0x77, 0x66, 0x55, 0x44, 0x33, 0x22, 0x11]);
    expect.extend_from_slice(&(-2i64).to_le_bytes());
    expect.extend_from_slice(b"title\0");
    assert_eq!(out, expect);
}

#[test]
fn test_byte_reader() {
    let mut data = Vec::new();
    data.extend_from_slice(&7u32.to_le_bytes());
    data.extend_from_slice(&(-9i64).to_le_bytes());
    data.extend_from_slice(b"abc\0defgh");
    let mut r = ByteReader::new(&data);
    assert_eq!(r.read_u32_le("u32").unwrap(), 7);
    assert_eq!(r.read_i64_le("i64").unwrap(), -9);
    assert_eq!(r.read_nul_str("str").unwrap(), b"abc".to_vec());
    assert_eq!(r.remaining(), 5);
    r.skip(2).unwrap();
    assert_eq!(r.read_u8("byte").unwrap(), b'f');
    assert!(matches!(r.skip(10), Err(GmaError::UnexpectedEof { .. })));
    assert_eq!(r.read_exact_vec(2, "rest").unwrap(), b"gh".to_vec());
    assert!(matches!(r.read_u8("end"), Err(GmaError::UnexpectedEof { .. })));
}

#[test]
fn test_read_nul_str_requires_terminator() {
    let data = b"no terminator";
    let mut r = ByteReader::new(data);
    assert!(matches!(r.read_nul_str("s"), Err(GmaError::UnexpectedEof { .. })));
    // a failed read leaves the cursor where it was
    assert_eq!(r.remaining(), data.len());
}

#[test]
fn test_bytes_eq() {
    assert!(bytes_eq(b"", b""));
    assert!(bytes_eq(b"abc", b"abc"));
    assert!(!bytes_eq(b"abc", b"abd"));
    assert!(!bytes_eq(b"abc", b"ab"));
}
