use gfp::error::PakError;
use gfp::pak_reader::gfp_v10::GfpPakReaderV10;
use gfp::pak_reader::gfp_v7::GfpPakReaderV7;
use gfp::pak_reader::{CompressionBlock, RawPakInfo};
use std::io::Write;

const OFFSET_XOR_KEY: u64 = 0xD74AF37FAA6B020D;
const SIZE_XOR_KEY: u64 = 0x8924B0E3298B7069;
const ENCRYPTED_XOR_KEY: u8 = 0x6C;
const DECRYPT_KEY: u8 = 0x79;

fn push_u32(v: &mut Vec<u8>, x: u32) {
    v.extend_from_slice(&x.to_le_bytes());
}

fn push_u64(v: &mut Vec<u8>, x: u64) {
    v.extend_from_slice(&x.to_le_bytes());
}

fn push_i32(v: &mut Vec<u8>, x: i32) {
    v.extend_from_slice(&x.to_le_bytes());
}

fn zlib_compress(data: &[u8]) -> Vec<u8> {
    let mut encoder = flate2::write::ZlibEncoder::new(Vec::new(), flate2::Compression::default());
    encoder.write_all(data).unwrap();
    encoder.finish().unwrap()
}

/// Null-terminated UTF-8 path field with its signed length prefix.
fn utf8_path_field(ix: &mut Vec<u8>, path: &str) {
    let mut bytes = path.as_bytes().to_vec();
    bytes.push(0);
    push_i32(ix, bytes.len() as i32);
    ix.extend_from_slice(&bytes);
}

/// Null-terminated UTF-16LE path field with its negated unit count.
fn utf16_path_field(ix: &mut Vec<u8>, units: &[u16]) {
    let mut all = units.to_vec();
    all.push(0);
    push_i32(ix, -(all.len() as i32));
    for u in &all {
        ix.extend_from_slice(&u.to_le_bytes());
    }
}

/// The fields common to both dialects' entries, in wire order.
fn entry_common(
    ix: &mut Vec<u8>,
    file_offset: u64,
    file_size: u64,
    method: u32,
    blocks: &[(u64, u64)],
    block_size: u32,
    encrypted: u8,
) {
    ix.extend_from_slice(&[0u8; 20]);
    push_u64(ix, file_offset);
    push_u64(ix, file_size);
    push_u32(ix, method);
    push_u64(ix, 0);
    ix.extend_from_slice(&[0u8; 21]);
    if method != 0 {
        push_u32(ix, blocks.len() as u32);
        for b in blocks {
            push_u64(ix, b.0);
            push_u64(ix, b.1);
        }
    }
    push_u32(ix, block_size);
    ix.push(encrypted);
}

/// Mount-point header and entry count of an index block.
fn index_header(mount: &str, entry_count: i32) -> Vec<u8> {
    let mut ix = Vec::new();
    let mut mb = mount.as_bytes().to_vec();
    mb.push(0);
    push_u32(&mut ix, (mb.len() + 9) as u32);
    ix.extend_from_slice(&[0u8; 9]);
    ix.extend_from_slice(&mb);
    push_i32(&mut ix, entry_count);
    ix
}

/// Payload region, index block and dialect-7 trailer glued into one file.
fn build_v7(version: u32, encrypted_index: bool, payload: &[u8], index_body: &[u8]) -> Vec<u8> {
    let mut file = payload.to_vec();
    let index_offset = file.len() as u64;
    let mut index = index_body.to_vec();
    if encrypted_index {
        for b in index.iter_mut() {
            *b ^= DECRYPT_KEY;
        }
    }
    let index_size = index.len() as u64;
    file.extend_from_slice(&index);
    file.push(if encrypted_index { 1u8 } else { 0u8 } ^ ENCRYPTED_XOR_KEY);
    push_u32(&mut file, 0);
    push_u32(&mut file, version);
    file.extend_from_slice(&[0u8; 20]);
    push_u64(&mut file, index_size ^ SIZE_XOR_KEY);
    push_u64(&mut file, index_offset ^ OFFSET_XOR_KEY);
    file
}

/// Payload region, index block and dialect-10 trailer glued into one file.
/// The index must run up to the trailer, since the reader derives its size
/// from the offset alone; the trailer's own size field is junk on purpose.
fn build_v10(version: u32, encrypted_index: bool, payload: &[u8], index_body: &[u8]) -> Vec<u8> {
    let mut file = payload.to_vec();
    let index_offset = file.len() as u64;
    let mut index = index_body.to_vec();
    if encrypted_index {
        for b in index.iter_mut() {
            *b ^= DECRYPT_KEY;
        }
    }
    file.extend_from_slice(&index);
    file.push(if encrypted_index { 1u8 } else { 0u8 } ^ ENCRYPTED_XOR_KEY);
    push_u32(&mut file, 0);
    push_u32(&mut file, version);
    file.extend_from_slice(&[0u8; 20]);
    push_u64(&mut file, 0xDEAD_BEEF);
    push_u64(&mut file, index_offset ^ OFFSET_XOR_KEY);
    file
}

/// A dialect-7 archive with one raw entry, one compressed entry and one
/// XOR-encrypted raw entry, with the payload bytes handed back for
/// reference.
fn sample_v7(encrypted_index: bool) -> (Vec<u8>, Vec<u8>, Vec<u8>, Vec<u8>) {
    let raw = b"Hello raw payload".to_vec();
    let doc = b"zlib compressed entry payload, repeated payload payload".to_vec();
    let secret = b"top secret bytes".to_vec();

    // Region layout: 74 pad | raw | compressed | 74 pad | xored secret.
    let mut region = vec![0u8; 74];
    region.extend_from_slice(&raw);
    let compressed = zlib_compress(&doc);
    let comp_start = region.len() as u64;
    region.extend_from_slice(&compressed);
    let comp_end = region.len() as u64;
    let secret_offset = region.len() as u64;
    region.extend_from_slice(&[0u8; 74]);
    for b in &secret {
        region.push(b ^ DECRYPT_KEY);
    }

    let mut ix = index_header("base/", 3);
    utf8_path_field(&mut ix, "docs/readme.txt");
    entry_common(&mut ix, 0, raw.len() as u64, 0, &[], 0, 0);
    utf16_path_field(&mut ix, &[0x4E2D, 0x6587, 0x2E, 0x62, 0x69, 0x6E]);
    entry_common(
        &mut ix,
        comp_start,
        doc.len() as u64,
        1,
        &[(comp_start, comp_end)],
        doc.len() as u32,
        0,
    );
    utf8_path_field(&mut ix, "secret.dat");
    entry_common(&mut ix, secret_offset, secret.len() as u64, 0, &[], 0, 1);

    (build_v7(7, encrypted_index, &region, &ix), raw, doc, secret)
}

#[test]
fn v7_info_fields() {
    let (file, _, _, _) = sample_v7(false);
    let mut pak = GfpPakReaderV7::new(file);
    assert_eq!(pak.encrypted().unwrap(), false);
    assert_eq!(pak.version().unwrap(), 7);
}

#[test]
fn v7_info_idempotent() {
    let (file, _, _, _) = sample_v7(true);
    let mut pak = GfpPakReaderV7::new(file);
    assert_eq!(pak.encrypted().unwrap(), true);
    assert_eq!(pak.encrypted().unwrap(), true);
    assert_eq!(pak.version().unwrap(), 7);
    assert_eq!(pak.version().unwrap(), 7);
    assert_eq!(pak.entries_count().unwrap(), 3);
    assert_eq!(pak.entries_count().unwrap(), 3);
}

#[test]
fn v7_entry_paths_inline_without_mount() {
    let (file, _, _, _) = sample_v7(false);
    let mut pak = GfpPakReaderV7::new(file);
    assert_eq!(pak.entries_count().unwrap(), 3);
    // Dialect 7 keeps the inline path as-is: no "base/" prefix.
    assert_eq!(pak.get_entry_path(0).unwrap(), "docs/readme.txt");
    assert_eq!(pak.get_entry_path(1).unwrap(), "中文.bin");
    assert_eq!(pak.get_entry_path(2).unwrap(), "secret.dat");
    assert!(matches!(pak.get_entry_path(3), Err(PakError::InvalidData(_))));
}

#[test]
fn v7_extract_round_trip() {
    for encrypted_index in [false, true] {
        let (file, raw, doc, secret) = sample_v7(encrypted_index);
        let mut pak = GfpPakReaderV7::new(file);
        let mut out = Vec::new();
        pak.extract_entry(0, &mut out).unwrap();
        assert_eq!(out, raw);
        let mut out = Vec::new();
        pak.extract_entry(1, &mut out).unwrap();
        assert_eq!(out, doc);
        let mut out = Vec::new();
        pak.extract_entry(2, &mut out).unwrap();
        assert_eq!(out, secret);
    }
}

#[test]
fn v7_extract_appends_to_sink() {
    let (file, raw, _, _) = sample_v7(false);
    let mut pak = GfpPakReaderV7::new(file);
    let mut out = b"prefix:".to_vec();
    pak.extract_entry(0, &mut out).unwrap();
    let mut expected = b"prefix:".to_vec();
    expected.extend_from_slice(&raw);
    assert_eq!(out, expected);
}

#[test]
fn v7_unknown_compression_method_is_scoped() {
    let raw = b"fine entry".to_vec();
    let blob = b"not actually compressed".to_vec();
    let mut region = vec![0u8; 74];
    region.extend_from_slice(&raw);
    let blob_start = region.len() as u64;
    region.extend_from_slice(&blob);
    let blob_end = region.len() as u64;

    let mut ix = index_header("m/", 2);
    utf8_path_field(&mut ix, "bad.bin");
    entry_common(&mut ix, blob_start, blob.len() as u64, 5, &[(blob_start, blob_end)], 64, 0);
    utf8_path_field(&mut ix, "good.txt");
    entry_common(&mut ix, 0, raw.len() as u64, 0, &[], 0, 0);
    let file = build_v7(7, false, &region, &ix);

    let mut pak = GfpPakReaderV7::new(file);
    let mut out = Vec::new();
    assert!(matches!(pak.extract_entry(0, &mut out), Err(PakError::InvalidData(_))));
    assert!(out.is_empty());
    // The failure is scoped to that entry: the other one still extracts.
    let mut out = Vec::new();
    pak.extract_entry(1, &mut out).unwrap();
    assert_eq!(out, raw);
}

#[test]
fn v7_path_too_long_rejected() {
    let mut ix = index_header("m/", 1);
    push_i32(&mut ix, 8192);
    let file = build_v7(7, false, &[], &ix);
    let mut pak = GfpPakReaderV7::new(file);
    assert!(matches!(pak.entries_count(), Err(PakError::InvalidData(_))));
    assert!(!pak.is_entries_loaded);
}

#[test]
fn v7_truncated_file_is_io_error() {
    let mut pak = GfpPakReaderV7::new(vec![1u8, 2, 3]);
    assert!(matches!(pak.encrypted(), Err(PakError::Io(_))));
    assert!(!pak.is_info_loaded);
    // A stage that failed must fail again identically on retry.
    assert!(matches!(pak.encrypted(), Err(PakError::Io(_))));
}

#[test]
fn v7_truncated_index_is_invalid() {
    let mut ix = index_header("m/", 2);
    utf8_path_field(&mut ix, "only.txt");
    entry_common(&mut ix, 0, 0, 0, &[], 0, 0);
    // The second promised entry is missing.
    let file = build_v7(7, false, &[0u8; 74], &ix);
    let mut pak = GfpPakReaderV7::new(file);
    assert!(matches!(pak.entries_count(), Err(PakError::InvalidData(_))));
    assert!(!pak.is_entries_loaded);
    assert!(pak.is_info_loaded);
}

/// A dialect-10 archive: two entries (one raw, one compressed) and a
/// directory table that assigns both paths.
fn sample_v10(encrypted_index: bool) -> (Vec<u8>, Vec<u8>, Vec<u8>) {
    let raw = b"raw payload for dialect ten".to_vec();
    let doc = b"compressed dialect ten payload payload payload".to_vec();

    let mut region = vec![0u8; 74];
    region.extend_from_slice(&raw);
    let compressed = zlib_compress(&doc);
    let comp_start = region.len() as u64;
    region.extend_from_slice(&compressed);
    let comp_end = region.len() as u64;

    let mut ix = index_header("mount/", 2);
    entry_common(&mut ix, 0, raw.len() as u64, 0, &[], 0, 0);
    entry_common(
        &mut ix,
        comp_start,
        doc.len() as u64,
        1,
        &[(comp_start, comp_end)],
        doc.len() as u32,
        0,
    );
    // Directory table: 2 entries, 2 directories of one file each.
    push_u64(&mut ix, 2);
    push_u64(&mut ix, 2);
    let mut dir = b"sub/".to_vec();
    dir.push(0);
    push_u32(&mut ix, dir.len() as u32);
    ix.extend_from_slice(&dir);
    push_u64(&mut ix, 1);
    utf8_path_field(&mut ix, "a.txt");
    push_i32(&mut ix, 0);
    let mut dir = b"deep/".to_vec();
    dir.push(0);
    push_u32(&mut ix, dir.len() as u32);
    ix.extend_from_slice(&dir);
    push_u64(&mut ix, 1);
    utf16_path_field(&mut ix, &[0x62, 0x2E, 0x64, 0x61, 0x74]);
    push_i32(&mut ix, 1);

    (build_v10(10, encrypted_index, &region, &ix), raw, doc)
}

#[test]
fn v10_info_fields() {
    let (file, _, _) = sample_v10(false);
    let mut pak = GfpPakReaderV10::new(file);
    assert_eq!(pak.encrypted().unwrap(), false);
    assert_eq!(pak.version().unwrap(), 10);
    let (file, _, _) = sample_v10(true);
    let mut pak = GfpPakReaderV10::new(file);
    assert_eq!(pak.encrypted().unwrap(), true);
    assert_eq!(pak.version().unwrap(), 10);
}

#[test]
fn v10_info_idempotent() {
    let (file, _, _) = sample_v10(false);
    let mut pak = GfpPakReaderV10::new(file);
    assert_eq!(pak.encrypted().unwrap(), false);
    assert_eq!(pak.encrypted().unwrap(), false);
    assert_eq!(pak.version().unwrap(), 10);
    assert_eq!(pak.version().unwrap(), 10);
    assert_eq!(pak.entries_count().unwrap(), 2);
    assert_eq!(pak.entries_count().unwrap(), 2);
}

#[test]
fn v10_entry_paths_carry_mount_and_directory() {
    for encrypted_index in [false, true] {
        let (file, _, _) = sample_v10(encrypted_index);
        let mut pak = GfpPakReaderV10::new(file);
        assert_eq!(pak.entries_count().unwrap(), 2);
        assert_eq!(pak.get_entry_path(0).unwrap(), "mount/sub/a.txt");
        assert_eq!(pak.get_entry_path(1).unwrap(), "mount/deep/b.dat");
        assert!(matches!(pak.get_entry_path(2), Err(PakError::InvalidData(_))));
        // Every id below the count got a non-empty resolved path here.
        for id in 0..pak.entries_count().unwrap() {
            assert!(!pak.get_entry_path(id).unwrap().is_empty());
        }
    }
}

#[test]
fn v10_extract_round_trip() {
    for encrypted_index in [false, true] {
        let (file, raw, doc) = sample_v10(encrypted_index);
        let mut pak = GfpPakReaderV10::new(file);
        let mut out = Vec::new();
        pak.extract_entry(0, &mut out).unwrap();
        assert_eq!(out, raw);
        let mut out = Vec::new();
        pak.extract_entry(1, &mut out).unwrap();
        assert_eq!(out, doc);
    }
}

#[test]
fn v10_oversized_index_rejected_before_entries() {
    // index_offset 0 makes the derived index size the whole file minus the
    // trailer, above the cap.
    let mut file = vec![0u8; 52_428_800 + 100];
    file.push(0 ^ ENCRYPTED_XOR_KEY);
    push_u32(&mut file, 0);
    push_u32(&mut file, 10);
    file.extend_from_slice(&[0u8; 20]);
    push_u64(&mut file, 0);
    push_u64(&mut file, 0 ^ OFFSET_XOR_KEY);
    let mut pak = GfpPakReaderV10::new(file);
    assert!(matches!(pak.entries_count(), Err(PakError::InvalidData(_))));
    assert!(!pak.is_entries_loaded);
    assert!(!pak.is_info_loaded);
}

#[test]
fn v10_negative_entry_id_leaves_paths_unloaded() {
    let raw = b"x".to_vec();
    let mut region = vec![0u8; 74];
    region.extend_from_slice(&raw);
    let mut ix = index_header("m/", 1);
    entry_common(&mut ix, 0, raw.len() as u64, 0, &[], 0, 0);
    push_u64(&mut ix, 1);
    push_u64(&mut ix, 1);
    let mut dir = b"d/".to_vec();
    dir.push(0);
    push_u32(&mut ix, dir.len() as u32);
    ix.extend_from_slice(&dir);
    push_u64(&mut ix, 1);
    utf8_path_field(&mut ix, "f.txt");
    push_i32(&mut ix, -1);
    let file = build_v10(10, false, &region, &ix);

    let mut pak = GfpPakReaderV10::new(file);
    assert_eq!(pak.entries_count().unwrap(), 1);
    assert!(matches!(pak.get_entry_path(0), Err(PakError::InvalidData(_))));
    assert!(!pak.is_entry_paths_loaded);
    assert!(pak.is_entries_loaded);
    // Retry fails the same way; the entry table is still usable.
    assert!(matches!(pak.get_entry_path(0), Err(PakError::InvalidData(_))));
    let mut out = Vec::new();
    pak.extract_entry(0, &mut out).unwrap();
    assert_eq!(out, raw);
}

#[test]
fn v10_unassigned_entry_id_keeps_empty_path() {
    // The table declares two slots but only assigns the second.
    let raw = b"xy".to_vec();
    let mut region = vec![0u8; 74];
    region.extend_from_slice(&raw);
    let mut ix = index_header("m/", 2);
    entry_common(&mut ix, 0, 1, 0, &[], 0, 0);
    entry_common(&mut ix, 1, 1, 0, &[], 0, 0);
    push_u64(&mut ix, 2);
    push_u64(&mut ix, 1);
    let mut dir = b"d/".to_vec();
    dir.push(0);
    push_u32(&mut ix, dir.len() as u32);
    ix.extend_from_slice(&dir);
    push_u64(&mut ix, 1);
    utf8_path_field(&mut ix, "f.txt");
    push_i32(&mut ix, 1);
    let file = build_v10(10, false, &region, &ix);

    let mut pak = GfpPakReaderV10::new(file);
    assert_eq!(pak.get_entry_path(0).unwrap(), "");
    assert_eq!(pak.get_entry_path(1).unwrap(), "m/d/f.txt");
}

#[test]
fn v10_short_block_read_is_invalid_data() {
    let mut ix = index_header("m/", 1);
    // A block that reaches past the end of the file.
    entry_common(&mut ix, 0, 8, 1, &[(0, 1_000_000)], 8, 0);
    let file = build_v10(10, false, &[0u8; 80], &ix);
    let mut pak = GfpPakReaderV10::new(file);
    let mut out = Vec::new();
    assert!(matches!(pak.extract_entry(0, &mut out), Err(PakError::InvalidData(_))));
    assert!(out.is_empty());
}

#[test]
fn v10_corrupt_compressed_block_is_other_error() {
    let blob = b"definitely not zlib".to_vec();
    let mut region = vec![0u8; 10];
    let start = region.len() as u64;
    region.extend_from_slice(&blob);
    let end = region.len() as u64;
    let mut ix = index_header("m/", 1);
    entry_common(&mut ix, start, blob.len() as u64, 1, &[(start, end)], 64, 0);
    let file = build_v10(10, false, &region, &ix);
    let mut pak = GfpPakReaderV10::new(file);
    let mut out = Vec::new();
    assert!(matches!(pak.extract_entry(0, &mut out), Err(PakError::Other(_))));
}

#[test]
fn v10_encrypted_entry_payload() {
    let secret = b"hidden dialect ten data".to_vec();
    let mut region = vec![0u8; 74];
    for b in &secret {
        region.push(b ^ DECRYPT_KEY);
    }
    let mut ix = index_header("m/", 1);
    entry_common(&mut ix, 0, secret.len() as u64, 0, &[], 0, 1);
    let file = build_v10(10, false, &region, &ix);
    let mut pak = GfpPakReaderV10::new(file);
    let mut out = Vec::new();
    pak.extract_entry(0, &mut out).unwrap();
    assert_eq!(out, secret);
}

#[test]
fn raw_pak_info_encrypted_flag() {
    let info = RawPakInfo { encrypted: 0, version: 7, index_size: 0, index_offset: 0 };
    assert!(!info.is_encrypted());
    let info = RawPakInfo { encrypted: 0x5A, version: 7, index_size: 0, index_offset: 0 };
    assert!(info.is_encrypted());
}

#[test]
fn compression_block_offset_and_size() {
    let block = CompressionBlock { start: 100, end: 164 };
    assert_eq!(block.offset(), 100);
    assert_eq!(block.size(), 64);
    let empty = CompressionBlock { start: 7, end: 7 };
    assert_eq!(empty.size(), 0);
}

#[test]
fn extract_out_of_range_id_is_invalid_data() {
    let (file, _, _, _) = sample_v7(false);
    let mut pak = GfpPakReaderV7::new(file);
    let mut out = Vec::new();
    assert!(matches!(pak.extract_entry(99, &mut out), Err(PakError::InvalidData(_))));
    assert!(out.is_empty());
    let (file, _, _) = sample_v10(false);
    let mut pak = GfpPakReaderV10::new(file);
    assert!(matches!(pak.extract_entry(99, &mut out), Err(PakError::InvalidData(_))));
    assert!(out.is_empty());
}
