use gfp::error::PakError;
use gfp::utils::file_reader::VecCursor;
use gfp::utils::cli::prepare_file_pattern;
use gfp::utils::{cstr_to_string, utf16le_to_utf8_arr_inplace, utf16le_to_utf8_inplace,
    xor_each_byte, zlib_decompress};
use std::io::Write;

#[test]
fn test_xor_each_byte() {
    let mut data = vec![0x00u8, 0x79, 0xFF, 0x41];
    xor_each_byte(&mut data, 0x79);
    assert_eq!(data, vec![0x79u8, 0x00, 0x86, 0x38]);
    xor_each_byte(&mut data, 0x79);
    assert_eq!(data, vec![0x00u8, 0x79, 0xFF, 0x41]);
}

#[test]
fn test_xor_zero_key_is_identity() {
    let mut data = vec![1u8, 2, 3];
    xor_each_byte(&mut data, 0);
    assert_eq!(data, vec![1u8, 2, 3]);
}

#[test]
fn test_utf16le_conversion_exact() {
    // 'A' followed by a CJK code point: one and three UTF-8 bytes.
    let mut buff = vec![0x41u8, 0x00, 0x2D, 0x4E];
    let result = utf16le_to_utf8_arr_inplace(&mut buff);
    assert_eq!(result, Ok(4));
    assert_eq!(&buff[0..4], &[0x41u8, 0xE4, 0xB8, 0xAD]);
}

#[test]
fn test_utf16le_odd_length_fails() {
    let mut buff = vec![0x41u8, 0x00, 0x42];
    let result = utf16le_to_utf8_arr_inplace(&mut buff);
    assert_eq!(result, Err("Incomplete UTF-16 sequence"));
    assert_eq!(buff, vec![0x41u8, 0x00, 0x42]);
}

#[test]
fn test_utf16le_output_too_small() {
    // One CJK unit expands to three bytes but only two are available.
    let mut buff = vec![0x2Du8, 0x4E];
    let result = utf16le_to_utf8_arr_inplace(&mut buff);
    assert_eq!(result, Err("Output buffer too small"));
    assert_eq!(buff, vec![0x2Du8, 0x4E]);
}

#[test]
fn test_utf16le_two_byte_encoding() {
    // U+00E9 encodes as two UTF-8 bytes.
    let mut buff = vec![0xE9u8, 0x00, 0x61, 0x00];
    let result = utf16le_to_utf8_arr_inplace(&mut buff);
    assert_eq!(result, Ok(3));
    assert_eq!(&buff[0..3], &[0xC3u8, 0xA9, 0x61]);
}

#[test]
fn test_utf16le_empty() {
    let mut buff: Vec<u8> = Vec::new();
    assert_eq!(utf16le_to_utf8_arr_inplace(&mut buff), Ok(0));
}

#[test]
fn test_utf16le_inplace_truncates() {
    let mut data = vec![0x61u8, 0x00, 0x62, 0x00];
    utf16le_to_utf8_inplace(&mut data);
    assert_eq!(data, vec![0x61u8, 0x62]);
}

#[test]
fn test_cursor_fixed_reads() {
    let data = vec![1u8, 2, 3, 4, 5];
    let mut cur = VecCursor::new(&data);
    let first = cur.read::<2>().unwrap();
    assert_eq!(first, vec![1u8, 2]);
    assert_eq!(cur.offset, 2);
    let rest = cur.read::<3>().unwrap();
    assert_eq!(rest, vec![3u8, 4, 5]);
    assert!(matches!(cur.read::<1>(), Err(PakError::InvalidData(_))));
    assert_eq!(cur.offset, 5);
}

#[test]
fn test_cursor_dyn_reads_and_moves() {
    let data = vec![9u8, 8, 7, 6, 5, 4];
    let mut cur = VecCursor::new_with_offset(&data, 1);
    assert_eq!(cur.read_dyn(2).unwrap(), vec![8u8, 7]);
    cur.move_by(1);
    assert_eq!(cur.offset, 4);
    cur.move_to(0);
    assert_eq!(cur.read_dyn(1).unwrap(), vec![9u8]);
    assert!(matches!(cur.read_dyn(9), Err(PakError::InvalidData(_))));
}

#[test]
fn test_cursor_nocheck_reads() {
    let data = vec![10u8, 20, 30];
    let mut cur = VecCursor::new(&data);
    assert_eq!(cur.read_nocheck::<1>(), vec![10u8]);
    assert_eq!(cur.read_nocheck_dyn(2), vec![20u8, 30]);
    assert_eq!(cur.offset, 3);
}

#[test]
fn test_prepare_file_pattern() {
    assert_eq!(prepare_file_pattern("."), "./**/*.pak".to_string());
    assert_eq!(prepare_file_pattern("./Paks"), "./Paks/**/*.pak".to_string());
    assert_eq!(prepare_file_pattern("./Paks/"), "./Paks/**/*.pak".to_string());
    assert_eq!(prepare_file_pattern("**/*.pak"), "**/*.pak".to_string());
    assert_eq!(prepare_file_pattern("./Paks/**/*.pak"), "./Paks/**/*.pak".to_string());
    assert_eq!(prepare_file_pattern("./Paks/abc.pak"), "./Paks/abc.pak".to_string());
    assert_eq!(prepare_file_pattern("dir\\"), "dir\\**/*.pak".to_string());
}

#[test]
fn test_zlib_roundtrip() {
    let original = b"some payload that compresses, compresses, compresses".to_vec();
    let mut encoder = flate2::write::ZlibEncoder::new(Vec::new(), flate2::Compression::default());
    encoder.write_all(&original).unwrap();
    let compressed = encoder.finish().unwrap();
    let decoded = zlib_decompress(&compressed, original.len()).unwrap();
    assert_eq!(decoded, original);
}

#[test]
fn test_zlib_rejects_garbage() {
    assert!(zlib_decompress(&[0xDEu8, 0xAD, 0xBE, 0xEF], 16).is_none());
}

#[test]
fn test_cstr_to_string() {
    assert_eq!(cstr_to_string(b"abc\0".to_vec()), Some("abc".to_string()));
    assert_eq!(cstr_to_string(b"\0".to_vec()), Some(String::new()));
    assert_eq!(cstr_to_string(b"abc".to_vec()), None);
    assert_eq!(cstr_to_string(Vec::new()), None);
    assert_eq!(cstr_to_string(b"a\0b\0".to_vec()), None);
    assert_eq!(cstr_to_string(vec![0xFFu8, 0xFE, 0x00]), None);
}

#[test]
fn test_error_constructors() {
    let e = PakError::invalid_data("bad bytes");
    assert!(matches!(&e, PakError::InvalidData(m) if m == "bad bytes"));
    assert_eq!(e.kind(), "invalid data");
    assert_eq!(e.message(), "bad bytes");
    let e = PakError::io_error("gone");
    assert!(matches!(&e, PakError::Io(m) if m == "gone"));
    assert_eq!(e.kind(), "io");
    let e = PakError::other("inflate");
    assert!(matches!(&e, PakError::Other(m) if m == "inflate"));
    assert_eq!(e.kind(), "other");
}
