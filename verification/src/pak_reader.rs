//! The archive decoder: the shared wire-format model of both dialects, the
//! common entry-table and payload decoding, and the two dialect readers.
//!
//! Every stage of a reader is specified against spec-level parse functions
//! over the archive's byte sequence, so that each accessor's result is
//! pinned down as a function of those bytes.

use vstd::prelude::*;
use vstd::bytes::{spec_u32_from_le_bytes, spec_u64_from_le_bytes, u32_from_le_bytes,
    u64_from_le_bytes};
use crate::error::PakError;
use crate::utils::{xor_seq, xor_each_byte, cstr_utf8_ok, cstr_utf8_chars, utf16le_to_utf8_seq,
    zlib_inflate, zlib_decompress, cstr_to_string, utf16le_to_utf8_arr_inplace};
use crate::utils::file_reader::VecCursor;

pub mod gfp_v7;
pub mod gfp_v10;

verus! {

/// 64-bit key XORed onto the trailer's index offset, in both dialects.
pub const OFFSET_XOR_KEY: u64 = 0xD74AF37FAA6B020D;

/// 64-bit key XORed onto the trailer's index size, dialect 7 only.
pub const SIZE_XOR_KEY: u64 = 0x8924B0E3298B7069;

/// Key XORed onto the trailer's encrypted flag byte.
pub const ENCRYPTED_XOR_KEY: u8 = 0x6C;

/// Repeating key XORed onto encrypted index blocks and payloads.
pub const DECRYPT_KEY: u8 = 0x79;

/// Size of the fixed trailer record at the end of the file.
pub const PAK_INFO_SIZE: usize = 45;

/// Largest index block a dialect-10 archive may declare.
pub const MAX_INDEX_SIZE: u64 = 52428800;

/// Bytes of duplicated per-entry header that precede a raw payload.
pub const RAW_HEADER_SIZE: u64 = 74;

/// Inline entry paths of dialect 7 at or above this length are rejected.
pub const MAX_ENTRY_PATH: u32 = 8192;

/// The 32-bit little-endian value at `off`.
pub open spec fn le32(d: Seq<u8>, off: int) -> u32
    recommends
        0 <= off,
        off + 4 <= d.len(),
{
    spec_u32_from_le_bytes(d.subrange(off, off + 4))
}

/// The 64-bit little-endian value at `off`.
pub open spec fn le64(d: Seq<u8>, off: int) -> u64
    recommends
        0 <= off,
        off + 8 <= d.len(),
{
    spec_u64_from_le_bytes(d.subrange(off, off + 8))
}

/// Spec-level outcome of a loading stage, split by the error taxonomy:
/// an I/O-style failure, malformed data, or the decoded value.
pub enum Outcome<T> {
    IoErr,
    InvalidErr,
    Good(T),
}

/// The decoded 45-byte trailer, with the obfuscation already removed and,
/// for dialect 10, the index size already derived.
#[derive(Debug, Clone, Copy, PartialEq, Eq, Structural)]
pub struct RawPakInfo {
    pub encrypted: u8,
    pub version: u32,
    pub index_size: u64,
    pub index_offset: u64,
}

impl RawPakInfo {
    /// Whether the index block is XOR-obfuscated.
    pub fn is_encrypted(&self) -> (r: bool)
        ensures
            r == (self.encrypted != 0),
    {
        self.encrypted != 0
    }
}

/// One independently compressed chunk of an entry's payload, as absolute
/// file offsets.
#[derive(Debug, Clone, Copy, PartialEq, Eq, Structural)]
pub struct CompressionBlock {
    pub start: u64,
    pub end: u64,
}

impl CompressionBlock {
    /// Absolute file offset of the block.
    pub fn offset(&self) -> (r: u64)
        ensures
            r == self.start,
    {
        self.start
    }

    /// Stored size of the block.
    pub fn size(&self) -> (r: u64)
        requires
            self.start <= self.end,
        ensures
            r == self.end - self.start,
    {
        self.end - self.start
    }
}

/// One entry of the archive's index. The wire layout also carries a 20-byte
/// hash, an 8-byte compressed length and 21 reserved bytes, which carry no
/// meaning and are discarded while parsing.
pub struct Entry {
    pub file_offset: u64,
    pub file_size: u64,
    pub compression_method: u32,
    pub blocks: Vec<CompressionBlock>,
    pub compressed_block_size: u32,
    pub encrypted: u8,
}

/// Spec-level image of an [`Entry`].
pub struct EntryModel {
    pub file_offset: u64,
    pub file_size: u64,
    pub compression_method: u32,
    pub blocks: Seq<CompressionBlock>,
    pub compressed_block_size: u32,
    pub encrypted: u8,
}

impl View for Entry {
    type V = EntryModel;

    open spec fn view(&self) -> EntryModel {
        EntryModel {
            file_offset: self.file_offset,
            file_size: self.file_size,
            compression_method: self.compression_method,
            blocks: self.blocks@,
            compressed_block_size: self.compressed_block_size,
            encrypted: self.encrypted,
        }
    }
}

/// Parses `n` compression blocks of 16 bytes each, appending to `acc`.
pub open spec fn parse_blocks(d: Seq<u8>, off: int, n: nat, acc: Seq<CompressionBlock>) -> Option<
    (Seq<CompressionBlock>, int),
>
    decreases n,
{
    if n == 0 {
        Some((acc, off))
    } else if off + 16 <= d.len() {
        let b = CompressionBlock { start: le64(d, off), end: le64(d, off + 8) };
        parse_blocks(d, off + 16, (n - 1) as nat, acc.push(b))
    } else {
        None
    }
}

/// Parses the fields common to both dialects' entries, beginning at the
/// 20-byte hash; `None` stands for a read past the end of the block.
pub open spec fn parse_entry_common(d: Seq<u8>, off: int) -> Option<(EntryModel, int)> {
    if off + 69 <= d.len() {
        let file_offset = le64(d, off + 20);
        let file_size = le64(d, off + 28);
        let method = le32(d, off + 36);
        let off2 = off + 69;
        let blocks_parse = if method != 0 {
            if off2 + 4 <= d.len() {
                parse_blocks(d, off2 + 4, le32(d, off2) as nat, Seq::empty())
            } else {
                None
            }
        } else {
            Some((Seq::<CompressionBlock>::empty(), off2))
        };
        match blocks_parse {
            None => None,
            Some((blocks, off3)) => if off3 + 5 <= d.len() {
                Some(
                    (
                        EntryModel {
                            file_offset,
                            file_size,
                            compression_method: method,
                            blocks,
                            compressed_block_size: le32(d, off3),
                            encrypted: d[off3 + 4],
                        },
                        off3 + 5,
                    ),
                )
            } else {
                None
            },
        }
    } else {
        None
    }
}

/// Parses `n` consecutive entry records without inline paths, as dialect
/// 10 lays them out, appending to `acc`.
pub open spec fn parse_entries_common(d: Seq<u8>, off: int, n: nat, acc: Seq<EntryModel>) -> Option<
    (Seq<EntryModel>, int),
>
    decreases n,
{
    if n == 0 {
        Some((acc, off))
    } else {
        match parse_entry_common(d, off) {
            None => None,
            Some((e, off2)) => parse_entries_common(d, off2, (n - 1) as nat, acc.push(e)),
        }
    }
}

/// Decodes a name field that uses the signed-length convention: a positive
/// length is that many UTF-8 bytes, a negative one is twice as many
/// UTF-16LE bytes converted to UTF-8 first; either way the bytes must be a
/// well-formed null-terminated string. `limited` additionally rejects
/// lengths at or above [`MAX_ENTRY_PATH`], as dialect 7's inline paths do.
pub open spec fn parse_name(d: Seq<u8>, off: int, limited: bool) -> Option<(Seq<char>, int)> {
    if off + 4 <= d.len() {
        let v = le32(d, off);
        if limited && MAX_ENTRY_PATH <= v && v < 0x8000_0000u32 {
            None
        } else if v < 0x8000_0000u32 {
            let n = v as int;
            if off + 4 + n <= d.len() {
                let bytes = d.subrange(off + 4, off + 4 + n);
                if cstr_utf8_ok(bytes) {
                    Some((cstr_utf8_chars(bytes), off + 4 + n))
                } else {
                    None
                }
            } else {
                None
            }
        } else {
            let n = 2 * (0x1_0000_0000 - v as int);
            if off + 4 + n <= d.len() {
                let conv = utf16le_to_utf8_seq(d.subrange(off + 4, off + 4 + n));
                if conv.len() <= n && cstr_utf8_ok(conv) {
                    Some((cstr_utf8_chars(conv), off + 4 + n))
                } else {
                    None
                }
            } else {
                None
            }
        }
    } else {
        None
    }
}

/// Parses the head of the index block: the mount-point length (which
/// includes a 9-byte unused prefix), the mount-point string, and the signed
/// entry count, which must not be negative.
pub open spec fn parse_index_header(d: Seq<u8>) -> Option<(Seq<char>, u32, int)> {
    if 4 <= d.len() {
        let mpl = le32(d, 0) as int;
        if mpl >= 9 && 13 + (mpl - 9) <= d.len() {
            let mb = d.subrange(13, 13 + (mpl - 9));
            let off = 13 + (mpl - 9);
            if cstr_utf8_ok(mb) && off + 4 <= d.len() {
                let ec = le32(d, off);
                if ec < 0x8000_0000u32 {
                    Some((cstr_utf8_chars(mb), ec, off + 4))
                } else {
                    None
                }
            } else {
                None
            }
        } else {
            None
        }
    } else {
        None
    }
}

/// What extracting one entry writes to the sink: the full payload on
/// success, or the error case together with the bytes already written when
/// it was hit.
pub enum ExtractOutcome {
    /// A block lies outside the file or is reversed: a short read.
    ShortRead(Seq<u8>),
    /// The entry declares a compression method other than 1.
    BadMethod(Seq<u8>),
    /// The inflate step rejected a block's bytes.
    InflateErr(Seq<u8>),
    /// A raw payload reaches past the end of the file.
    RawOob,
    /// The decoded payload, in block order.
    Done(Seq<u8>),
}

/// Decodes the blocks of a chunked entry from `i` on, in order: read, then
/// decrypt, then check the method, then inflate, appending to `acc`.
pub open spec fn extract_blocks(d: Seq<u8>, e: EntryModel, i: int, acc: Seq<u8>) -> ExtractOutcome
    decreases e.blocks.len() - i,
{
    if i < 0 || i >= e.blocks.len() {
        ExtractOutcome::Done(acc)
    } else {
        let b = e.blocks[i];
        if !(b.start <= b.end && b.end <= d.len()) {
            ExtractOutcome::ShortRead(acc)
        } else {
            let raw = d.subrange(b.start as int, b.end as int);
            let dec = if e.encrypted != 0 {
                xor_seq(raw, DECRYPT_KEY)
            } else {
                raw
            };
            if e.compression_method != 1 {
                ExtractOutcome::BadMethod(acc)
            } else {
                match zlib_inflate(dec) {
                    None => ExtractOutcome::InflateErr(acc),
                    Some(out) => extract_blocks(d, e, i + 1, acc + out),
                }
            }
        }
    }
}

/// Decodes a raw entry: the payload bytes follow a 74-byte duplicate
/// header, XORed when the entry is encrypted.
pub open spec fn extract_raw(d: Seq<u8>, e: EntryModel) -> ExtractOutcome {
    if e.file_offset + RAW_HEADER_SIZE + e.file_size <= d.len() {
        let raw = d.subrange(
            e.file_offset + RAW_HEADER_SIZE,
            e.file_offset + RAW_HEADER_SIZE + e.file_size,
        );
        ExtractOutcome::Done(
            if e.encrypted != 0 {
                xor_seq(raw, DECRYPT_KEY)
            } else {
                raw
            },
        )
    } else {
        ExtractOutcome::RawOob
    }
}

/// What extracting entry `e` from archive bytes `d` yields: chunked mode
/// when the entry has compression blocks, raw mode otherwise.
pub open spec fn extract_entry_spec(d: Seq<u8>, e: EntryModel) -> ExtractOutcome {
    if e.blocks.len() > 0 {
        extract_blocks(d, e, 0, Seq::empty())
    } else {
        extract_raw(d, e)
    }
}

/// The index block of the archive: `index_size` bytes at `index_offset`,
/// XORed with the stream key when the trailer marks the file encrypted.
pub open spec fn index_block(d: Seq<u8>, info: RawPakInfo) -> Seq<u8>
    recommends
        info.index_offset + info.index_size <= d.len(),
{
    let raw = d.subrange(info.index_offset as int, info.index_offset + info.index_size);
    if info.encrypted != 0 {
        xor_seq(raw, DECRYPT_KEY)
    } else {
        raw
    }
}

/// Reads the next 4 bytes of the cursor as a little-endian `u32`.
pub(crate) fn cursor_read_u32(cur: &mut VecCursor<u8>) -> (r: Result<u32, PakError>)
    ensures
        final(cur).buffer@ == old(cur).buffer@,
        old(cur).offset + 4 <= old(cur).buffer@.len() ==> (r matches Ok(v) && v == le32(
            old(cur).buffer@,
            old(cur).offset as int,
        ) && final(cur).offset == old(cur).offset + 4),
        old(cur).offset + 4 > old(cur).buffer@.len() ==> (r matches Err(e)
            && e is InvalidData && final(cur).offset == old(cur).offset),
{
    match cur.read::<4>() {
        Ok(v) => Ok(u32_from_le_bytes(v.as_slice())),
        Err(e) => Err(e),
    }
}

/// Reads the next 8 bytes of the cursor as a little-endian `u64`.
pub(crate) fn cursor_read_u64(cur: &mut VecCursor<u8>) -> (r: Result<u64, PakError>)
    ensures
        final(cur).buffer@ == old(cur).buffer@,
        old(cur).offset + 8 <= old(cur).buffer@.len() ==> (r matches Ok(v) && v == le64(
            old(cur).buffer@,
            old(cur).offset as int,
        ) && final(cur).offset == old(cur).offset + 8),
        old(cur).offset + 8 > old(cur).buffer@.len() ==> (r matches Err(e)
            && e is InvalidData && final(cur).offset == old(cur).offset),
{
    match cur.read::<8>() {
        Ok(v) => Ok(u64_from_le_bytes(v.as_slice())),
        Err(e) => Err(e),
    }
}


/// Reads the 32-bit little-endian value at absolute offset `off`.
pub(crate) fn vec_le32(d: &Vec<u8>, off: usize) -> (r: u32)
    requires
        off + 4 <= d@.len(),
    ensures
        r == le32(d@, off as int),
{
    let l = d.len();
    let s = vstd::slice::slice_subrange(d.as_slice(), off, off + 4);
    u32_from_le_bytes(s)
}

/// Reads the 64-bit little-endian value at absolute offset `off`.
pub(crate) fn vec_le64(d: &Vec<u8>, off: usize) -> (r: u64)
    requires
        off + 8 <= d@.len(),
    ensures
        r == le64(d@, off as int),
{
    let l = d.len();
    let s = vstd::slice::slice_subrange(d.as_slice(), off, off + 8);
    u64_from_le_bytes(s)
}

/// Reads a name in the signed-length convention of [`parse_name`].
pub(crate) fn read_name(cur: &mut VecCursor<u8>, limited: bool) -> (r: Result<String, PakError>)
    ensures
        final(cur).buffer@ == old(cur).buffer@,
        match parse_name(old(cur).buffer@, old(cur).offset as int, limited) {
            Some((chars, off2)) => r matches Ok(s) && s@ == chars && final(cur).offset == off2,
            None => r matches Err(e) && e is InvalidData,
        },
{
    let ghost d = cur.buffer@;
    let ghost off = cur.offset as int;
    let v = match cursor_read_u32(cur) {
        Ok(v) => v,
        Err(e) => {
            return Err(e);
        },
    };
    if limited && v >= MAX_ENTRY_PATH && v < 0x8000_0000 {
        return Err(PakError::invalid_data("Entry path too long"));
    }
    if v < 0x8000_0000 {
        let data = match cur.read_dyn(v as usize) {
            Ok(data) => data,
            Err(e) => {
                return Err(e);
            },
        };
        match cstr_to_string(data) {
            Some(s) => Ok(s),
            None => Err(PakError::invalid_data("malformed string field")),
        }
    } else {
        let mag: u64 = 0x1_0000_0000u64 - v as u64;
        let n: u64 = 2 * mag;
        if n > cur.buffer.len() as u64 {
            proof {
                assert(off + 4 + 2 * (0x1_0000_0000 - v as int) > d.len());
            }
            return Err(PakError::invalid_data("Read past end of buffer"));
        }
        let ghost raw = d.subrange(off + 4, off + 4 + n as int);
        let mut data = match cur.read_dyn(n as usize) {
            Ok(data) => data,
            Err(e) => {
                return Err(e);
            },
        };
        proof {
            assert(data@ == raw);
            assert(data@.len() % 2 == 0);
        }
        match utf16le_to_utf8_arr_inplace(&mut data) {
            Ok(converted_len) => {
                data.truncate(converted_len);
                proof {
                    assert(data@ =~= utf16le_to_utf8_seq(raw));
                }
            },
            Err(_) => {
                proof {
                    assert(utf16le_to_utf8_seq(raw).len() > raw.len());
                }
                return Err(PakError::invalid_data("malformed UTF-16 string field"));
            },
        }
        match cstr_to_string(data) {
            Some(s) => Ok(s),
            None => Err(PakError::invalid_data("malformed string field")),
        }
    }
}

/// Reads the fields common to both dialects' entries, in wire order.
#[verifier::loop_isolation(false)]
pub(crate) fn read_entry_common(cur: &mut VecCursor<u8>) -> (r: Result<Entry, PakError>)
    ensures
        final(cur).buffer@ == old(cur).buffer@,
        match parse_entry_common(old(cur).buffer@, old(cur).offset as int) {
            Some((em, off2)) => r matches Ok(e) && e@ == em && final(cur).offset == off2,
            None => r matches Err(e) && e is InvalidData,
        },
{
    let ghost d = cur.buffer@;
    let ghost off = cur.offset as int;
    let _hash = match cur.read::<20>() {
        Ok(v) => v,
        Err(e) => {
            return Err(e);
        },
    };
    let file_offset = match cursor_read_u64(cur) {
        Ok(v) => v,
        Err(e) => {
            return Err(e);
        },
    };
    let file_size = match cursor_read_u64(cur) {
        Ok(v) => v,
        Err(e) => {
            return Err(e);
        },
    };
    let compression_method = match cursor_read_u32(cur) {
        Ok(v) => v,
        Err(e) => {
            return Err(e);
        },
    };
    let _compressed_length = match cursor_read_u64(cur) {
        Ok(v) => v,
        Err(e) => {
            return Err(e);
        },
    };
    let _reserved = match cur.read::<21>() {
        Ok(v) => v,
        Err(e) => {
            return Err(e);
        },
    };
    let mut blocks: Vec<CompressionBlock> = Vec::new();
    if compression_method != 0 {
        let nb = match cursor_read_u32(cur) {
            Ok(v) => v,
            Err(e) => {
                return Err(e);
            },
        };
        let ghost boff = cur.offset as int;
        let mut k: u32 = 0;
        while k < nb
            invariant
                k <= nb,
                cur.buffer@ == d,
                parse_blocks(d, cur.offset as int, (nb - k) as nat, blocks@) == parse_blocks(
                    d,
                    boff,
                    nb as nat,
                    Seq::empty(),
                ),
            decreases nb - k,
        {
            let ghost po = cur.offset as int;
            let start = match cursor_read_u64(cur) {
                Ok(v) => v,
                Err(e) => {
                    proof {
                        assert(parse_blocks(d, po, (nb - k) as nat, blocks@) is None);
                    }
                    return Err(e);
                },
            };
            let end = match cursor_read_u64(cur) {
                Ok(v) => v,
                Err(e) => {
                    proof {
                        assert(parse_blocks(d, po, (nb - k) as nat, blocks@) is None);
                    }
                    return Err(e);
                },
            };
            blocks.push(CompressionBlock { start, end });
            k = k + 1;
        }
    }
    let ghost off3 = cur.offset as int;
    let compressed_block_size = match cursor_read_u32(cur) {
        Ok(v) => v,
        Err(e) => {
            return Err(e);
        },
    };
    let enc = match cur.read::<1>() {
        Ok(v) => v,
        Err(e) => {
            return Err(e);
        },
    };
    let encrypted = enc[0];
    proof {
        assert(enc@[0] == d[off3 + 4]);
    }
    Ok(Entry { file_offset, file_size, compression_method, blocks, compressed_block_size, encrypted })
}

/// Decodes entry `entry` of the archive bytes `data` and appends the
/// decoded payload to `output`, block by block in chunked mode; on an
/// error, whatever was already decoded stays in `output`, exactly as the
/// spec-level outcome records it.
#[verifier::loop_isolation(false)]
pub(crate) fn extract_into(data: &Vec<u8>, entry: &Entry, output: &mut Vec<u8>) -> (r: Result<
    (),
    PakError,
>)
    ensures
        match extract_entry_spec(data@, entry@) {
            ExtractOutcome::Done(bytes) => r is Ok && final(output)@ == old(output)@ + bytes,
            ExtractOutcome::ShortRead(p) => (r matches Err(e) && e is InvalidData)
                && final(output)@ == old(output)@ + p,
            ExtractOutcome::BadMethod(p) => (r matches Err(e) && e is InvalidData)
                && final(output)@ == old(output)@ + p,
            ExtractOutcome::InflateErr(p) => (r matches Err(e) && e is Other) && final(output)@
                == old(output)@ + p,
            ExtractOutcome::RawOob => (r matches Err(e) && e is Io) && final(output)@ == old(output)@,
        },
{
    let ghost d = data@;
    let ghost em = entry@;
    let ghost out0 = output@;
    let dl = data.len();
    let nb = entry.blocks.len();
    if nb > 0 {
        proof {
            assert(output@.skip(out0.len() as int) =~= Seq::<u8>::empty());
        }
        let mut bi: usize = 0;
        while bi < nb
            invariant
                bi <= nb,
                out0.len() <= output@.len(),
                output@.subrange(0, out0.len() as int) == out0,
                extract_blocks(d, em, bi as int, output@.skip(out0.len() as int))
                    == extract_blocks(d, em, 0, Seq::empty()),
            decreases nb - bi,
        {
            let ghost written = output@.skip(out0.len() as int);
            let b = entry.blocks[bi];
            if !(b.start <= b.end && b.end <= dl as u64) {
                proof {
                    assert(extract_blocks(d, em, bi as int, written)
                        == ExtractOutcome::ShortRead(written));
                }
                return Err(PakError::invalid_data("Failed to read compressed chunk"));
            }
            let start = b.start as usize;
            let end = b.end as usize;
            let mut chunk = vstd::slice::slice_to_vec(vstd::slice::slice_subrange(
                data.as_slice(),
                start,
                end,
            ));
            if entry.encrypted != 0 {
                xor_each_byte(&mut chunk, DECRYPT_KEY);
            }
            let ghost dec = chunk@;
            if entry.compression_method != 1 {
                proof {
                    assert(extract_blocks(d, em, bi as int, written)
                        == ExtractOutcome::BadMethod(written));
                }
                return Err(PakError::invalid_data("Unknown compression method"));
            }
            match zlib_decompress(chunk.as_slice(), entry.compressed_block_size as usize) {
                None => {
                    proof {
                        assert(extract_blocks(d, em, bi as int, written)
                            == ExtractOutcome::InflateErr(written));
                    }
                    return Err(PakError::other("ZLIB decompression failed"));
                },
                Some(mut inflated) => {
                    let ghost inf = inflated@;
                    output.append(&mut inflated);
                    proof {
                        assert(zlib_inflate(dec) == Some(inf));
                        assert(extract_blocks(d, em, bi as int, written) == extract_blocks(
                            d,
                            em,
                            bi + 1,
                            written + inf,
                        ));
                        assert(output@.subrange(0, out0.len() as int) =~= out0);
                        assert(output@.skip(out0.len() as int) =~= written + inf);
                    }
                },
            }
            bi = bi + 1;
        }
        proof {
            assert(extract_blocks(d, em, nb as int, output@.skip(out0.len() as int))
                == ExtractOutcome::Done(output@.skip(out0.len() as int)));
            assert(output@ =~= out0 + output@.skip(out0.len() as int));
        }
        Ok(())
    } else {
        let off = entry.file_offset;
        let size = entry.file_size;
        let dl64 = dl as u64;
        if off > dl64 || RAW_HEADER_SIZE > dl64 - off || size > dl64 - off - RAW_HEADER_SIZE {
            return Err(PakError::io_error("payload read past end of file"));
        }
        let start = (off + RAW_HEADER_SIZE) as usize;
        let end = (off + RAW_HEADER_SIZE + size) as usize;
        let mut chunk = vstd::slice::slice_to_vec(vstd::slice::slice_subrange(
            data.as_slice(),
            start,
            end,
        ));
        if entry.encrypted != 0 {
            xor_each_byte(&mut chunk, DECRYPT_KEY);
        }
        output.append(&mut chunk);
        Ok(())
    }
}

} // verus!
