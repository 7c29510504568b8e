use wasi_experimental_http::error::HttpError;
use wasi_experimental_http::memory::{
    deliver, le_bytes_u16, le_bytes_u32, read_bytes, read_string, write_bytes, write_u16,
    write_u32, write_with_count,
};

#[test]
fn read_bytes_in_and_out_of_bounds() {
    let mem: Vec<u8> = (0u8..16).collect();
    assert_eq!(read_bytes(&mem, 4, 3), Ok(vec![4, 5, 6]));
    assert_eq!(read_bytes(&mem, 16, 0), Ok(vec![]));
    assert_eq!(read_bytes(&mem, 14, 3), Err(HttpError::MemoryAccessError));
    assert_eq!(read_bytes(&mem, u32::MAX, 2), Err(HttpError::MemoryAccessError));
}

#[test]
fn read_string_checks_utf8() {
    let mut mem = b"h\xc3\xa9llo".to_vec();
    assert_eq!(read_string(&mem, 0, 6).unwrap(), "héllo");
    mem[1] = 0xc3;
    mem[2] = 0x28;
    assert_eq!(read_string(&mem, 0, 6), Err(HttpError::Utf8Error));
    assert_eq!(read_string(&mem, 2, 9), Err(HttpError::MemoryAccessError));
}

#[test]
fn little_endian_scalars() {
    assert_eq!(le_bytes_u32(0x0403_0201), vec![1, 2, 3, 4]);
    assert_eq!(le_bytes_u16(0x0201), vec![1, 2]);
    let mut mem = vec![0u8; 8];
    write_u32(&mut mem, 2, 0xdead_beef).unwrap();
    assert_eq!(mem, vec![0, 0, 0xef, 0xbe, 0xad, 0xde, 0, 0]);
    write_u16(&mut mem, 6, 404).unwrap();
    assert_eq!(u16::from_le_bytes([mem[6], mem[7]]), 404);
    assert_eq!(write_u32(&mut mem, 5, 1), Err(HttpError::MemoryAccessError));
    assert_eq!(write_u16(&mut mem, 7, 1), Err(HttpError::MemoryAccessError));
}

#[test]
fn write_bytes_refuses_overflow_without_writing() {
    let mut mem = vec![0u8; 8];
    write_bytes(&mut mem, 5, b"abc").unwrap();
    assert_eq!(&mem[5..], b"abc");
    assert_eq!(write_bytes(&mut mem, 6, b"abc"), Err(HttpError::MemoryAccessError));
    assert_eq!(mem, vec![0, 0, 0, 0, 0, b'a', b'b', b'c']);
}

#[test]
fn deliver_writes_data_length_and_offset() {
    let mut mem = vec![0u8; 32];
    deliver(&mut mem, 16, b"payload", 0, 4).unwrap();
    assert_eq!(&mem[16..23], b"payload");
    assert_eq!(u32::from_le_bytes([mem[4], mem[5], mem[6], mem[7]]), 7);
    assert_eq!(u32::from_le_bytes([mem[0], mem[1], mem[2], mem[3]]), 16);
    let before = mem.clone();
    assert_eq!(deliver(&mut mem, 28, b"payload", 0, 4), Err(HttpError::MemoryAccessError));
    assert_eq!(deliver(&mut mem, 8, b"x", 30, 4), Err(HttpError::MemoryAccessError));
    assert_eq!(mem, before);
}

#[test]
fn write_with_count_records_length() {
    let mut mem = vec![0u8; 16];
    write_with_count(&mut mem, 0, b"hey", 12).unwrap();
    assert_eq!(&mem[0..3], b"hey");
    assert_eq!(mem[12], 3);
    assert_eq!(write_with_count(&mut mem, 0, b"hey", 13), Err(HttpError::MemoryAccessError));
}
