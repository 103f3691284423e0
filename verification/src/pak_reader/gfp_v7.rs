//! Reader for dialect-7 ("avatar") archives. The index size comes straight
//! from the trailer behind its own XOR key, each entry carries its path
//! inline before the common fields, and resolved paths are those inline
//! paths as they stand, without the mount-point prefix: a preserved
//! asymmetry with dialect 10.

use vstd::prelude::*;
use crate::error::PakError;
use crate::pak_reader::{le32, le64, Outcome, RawPakInfo, Entry, EntryModel, ExtractOutcome,
    parse_entry_common, parse_index_header, parse_name, index_block, extract_entry_spec,
    extract_into, read_entry_common, read_name, vec_le32, vec_le64, cursor_read_u32,
    OFFSET_XOR_KEY, SIZE_XOR_KEY, ENCRYPTED_XOR_KEY, DECRYPT_KEY};
use crate::utils::{xor_each_byte, cstr_to_string};
use crate::utils::file_reader::VecCursor;

verus! {

/// The dialect-7 trailer: every field is read from the fixed record, with
/// the encrypted flag, index size and index offset each behind their own
/// XOR key.
pub open spec fn trailer_v7(d: Seq<u8>) -> Outcome<RawPakInfo> {
    if d.len() < 45 {
        Outcome::IoErr
    } else {
        let t = d.subrange(d.len() - 45, d.len() as int);
        Outcome::Good(
            RawPakInfo {
                encrypted: t[0] ^ ENCRYPTED_XOR_KEY,
                version: le32(t, 5),
                index_size: le64(t, 29) ^ SIZE_XOR_KEY,
                index_offset: le64(t, 37) ^ OFFSET_XOR_KEY,
            },
        )
    }
}

/// The decoded dialect-7 index: mount point, entry records, and each
/// entry's inline path, parallel by entry id.
pub struct V7Index {
    pub mount_point: Seq<char>,
    pub entries: Seq<EntryModel>,
    pub paths: Seq<Seq<char>>,
    pub end_offset: int,
}

/// Parses `n` entry records, each an inline path (in the signed-length
/// convention, with the over-length limit) followed by the common fields.
pub open spec fn parse_entries_v7(
    d: Seq<u8>,
    off: int,
    n: nat,
    acc_e: Seq<EntryModel>,
    acc_p: Seq<Seq<char>>,
) -> Option<(Seq<EntryModel>, Seq<Seq<char>>, int)>
    decreases n,
{
    if n == 0 {
        Some((acc_e, acc_p, off))
    } else {
        match parse_name(d, off, true) {
            None => None,
            Some((path, off1)) => match parse_entry_common(d, off1) {
                None => None,
                Some((e, off2)) => parse_entries_v7(
                    d,
                    off2,
                    (n - 1) as nat,
                    acc_e.push(e),
                    acc_p.push(path),
                ),
            },
        }
    }
}

/// Parses the index block: header, then the entry records with their
/// inline paths.
pub open spec fn index_v7(block: Seq<u8>) -> Option<
    (Seq<char>, Seq<EntryModel>, Seq<Seq<char>>, int),
> {
    match parse_index_header(block) {
        None => None,
        Some((mount, ec, off)) => match parse_entries_v7(
            block,
            off,
            ec as nat,
            Seq::empty(),
            Seq::empty(),
        ) {
            None => None,
            Some((es, ps, end)) => Some((mount, es, ps, end)),
        },
    }
}

/// The entries stage of a dialect-7 archive, from the raw file bytes: the
/// index block must lie inside the file.
pub open spec fn entries_v7(d: Seq<u8>) -> Outcome<V7Index> {
    match trailer_v7(d) {
        Outcome::IoErr => Outcome::IoErr,
        Outcome::InvalidErr => Outcome::InvalidErr,
        Outcome::Good(info) => if info.index_offset + info.index_size > d.len() {
            Outcome::IoErr
        } else {
            match index_v7(index_block(d, info)) {
                None => Outcome::InvalidErr,
                Some((mount, es, ps, end)) => Outcome::Good(
                    V7Index { mount_point: mount, entries: es, paths: ps, end_offset: end },
                ),
            }
        },
    }
}

/// Parses a decoded dialect-7 index block: the mount point, the entry
/// records, and the inline path of each entry in entry-id order.
#[verifier::loop_isolation(false)]
fn read_index_v7(index_data: &Vec<u8>) -> (r: Result<
    (String, Vec<Entry>, Vec<String>, usize),
    PakError,
>)
    ensures
        match index_v7(index_data@) {
            Some((mount, es, ps, end)) => r matches Ok(t) && t.0@ == mount
                && t.1@.map_values(|e: Entry| e@) == es
                && t.2@.map_values(|s: String| s@) == ps && t.3 as int == end,
            None => r matches Err(e) && e is InvalidData,
        },
{
    let ghost block = index_data@;
    let mut cur = VecCursor::new(index_data);
    let mpl = match cursor_read_u32(&mut cur) {
        Ok(v) => v,
        Err(e) => {
            return Err(e);
        },
    };
    if mpl < 9 {
        return Err(PakError::invalid_data("mount point length too small"));
    }
    cur.move_by(9);
    let mount_data = match cur.read_dyn((mpl - 9) as usize) {
        Ok(v) => v,
        Err(e) => {
            return Err(e);
        },
    };
    let mount = match cstr_to_string(mount_data) {
        Some(s) => s,
        None => {
            return Err(PakError::invalid_data("malformed mount point"));
        },
    };
    let ec = match cursor_read_u32(&mut cur) {
        Ok(v) => v,
        Err(e) => {
            return Err(e);
        },
    };
    if ec >= 0x8000_0000 {
        return Err(PakError::invalid_data("negative entry count"));
    }
    let ghost eoff = cur.offset as int;
    proof {
        assert(parse_index_header(block) == Some((mount@, ec, eoff)));
    }
    let mut entries: Vec<Entry> = Vec::new();
    let mut paths: Vec<String> = Vec::new();
    proof {
        assert(entries@.map_values(|e: Entry| e@) =~= Seq::<EntryModel>::empty());
        assert(paths@.map_values(|s: String| s@) =~= Seq::<Seq<char>>::empty());
    }
    let mut i: u32 = 0;
    while i < ec
        invariant
            i <= ec,
            cur.buffer@ == block,
            parse_entries_v7(
                block,
                cur.offset as int,
                (ec - i) as nat,
                entries@.map_values(|e: Entry| e@),
                paths@.map_values(|s: String| s@),
            ) == parse_entries_v7(block, eoff, ec as nat, Seq::empty(), Seq::empty()),
        decreases ec - i,
    {
        let ghost po = cur.offset as int;
        let ghost emap = entries@.map_values(|e: Entry| e@);
        let ghost pmap = paths@.map_values(|s: String| s@);
        let path = match read_name(&mut cur, true) {
            Ok(v) => v,
            Err(er) => {
                proof {
                    assert(parse_entries_v7(block, po, (ec - i) as nat, emap, pmap) is None);
                }
                return Err(er);
            },
        };
        let e = match read_entry_common(&mut cur) {
            Ok(v) => v,
            Err(er) => {
                proof {
                    assert(parse_entries_v7(block, po, (ec - i) as nat, emap, pmap) is None);
                }
                return Err(er);
            },
        };
        entries.push(e);
        paths.push(path);
        proof {
            assert(entries@.map_values(|e: Entry| e@) =~= emap.push(entries@.last()@));
            assert(paths@.map_values(|s: String| s@) =~= pmap.push(paths@.last()@));
        }
        i = i + 1;
    }
    let end = cur.offset;
    proof {
        assert(parse_entries_v7(
            block,
            end as int,
            0,
            entries@.map_values(|e: Entry| e@),
            paths@.map_values(|s: String| s@),
        ) == Some(
            (
                entries@.map_values(|e: Entry| e@),
                paths@.map_values(|s: String| s@),
                end as int,
            ),
        ));
    }
    Ok((mount, entries, paths, end))
}

/// A dialect-7 archive over its in-memory bytes, loading lazily in two
/// memoized stages: trailer, then entries with their inline paths. A
/// stage either loads fully or leaves the reader as it was.
pub struct GfpPakReaderV7 {
    pub data: Vec<u8>,
    pub is_info_loaded: bool,
    pub is_entries_loaded: bool,
    pub info: RawPakInfo,
    pub index_data: Vec<u8>,
    pub index_offset: usize,
    pub mount_point: String,
    pub entries: Vec<Entry>,
    pub paths: Vec<String>,
}

impl GfpPakReaderV7 {
    /// Each loaded stage holds exactly what the spec-level parse of the
    /// archive bytes yields.
    pub open spec fn wf(self) -> bool {
        &&& (self.is_info_loaded ==> trailer_v7(self.data@) == Outcome::Good(self.info))
        &&& (self.is_entries_loaded ==> {
            &&& self.is_info_loaded
            &&& entries_v7(self.data@) matches Outcome::Good(ix)
                && self.index_data@ == index_block(self.data@, self.info)
                && self.mount_point@ == ix.mount_point
                && self.entries@.map_values(|e: Entry| e@) == ix.entries
                && self.paths@.map_values(|s: String| s@) == ix.paths
                && self.index_offset as int == ix.end_offset
        })
    }

    /// A fresh reader over the archive's bytes; nothing is loaded yet.
    pub fn new(data: Vec<u8>) -> (r: Self)
        ensures
            r.wf(),
            r.data@ == data@,
            !r.is_info_loaded,
            !r.is_entries_loaded,
    {
        GfpPakReaderV7 {
            data,
            is_info_loaded: false,
            is_entries_loaded: false,
            info: RawPakInfo { encrypted: 0, version: 0, index_size: 0, index_offset: 0 },
            index_data: Vec::new(),
            index_offset: 0,
            mount_point: String::new(),
            entries: Vec::new(),
            paths: Vec::new(),
        }
    }

    /// Loads and deobfuscates the trailer once; later calls reuse it, and
    /// a failed load leaves the stage unloaded and fails the same way on
    /// retry.
    fn load_pak_info(&mut self) -> (r: Result<(), PakError>)
        requires
            old(self).wf(),
        ensures
            final(self).wf(),
            final(self).data@ == old(self).data@,
            final(self).is_entries_loaded == old(self).is_entries_loaded,
            final(self).index_data@ == old(self).index_data@,
            final(self).index_offset == old(self).index_offset,
            final(self).mount_point@ == old(self).mount_point@,
            final(self).entries@ == old(self).entries@,
            final(self).paths@ == old(self).paths@,
            match r {
                Ok(_) => final(self).is_info_loaded && trailer_v7(old(self).data@)
                    == Outcome::Good(final(self).info),
                Err(e) => {
                    &&& !final(self).is_info_loaded
                    &&& !old(self).is_info_loaded
                    &&& final(self).info == old(self).info
                    &&& !(trailer_v7(old(self).data@) is Good)
                    &&& (trailer_v7(old(self).data@) is IoErr ==> e is Io)
                    &&& (trailer_v7(old(self).data@) is InvalidErr ==> e is InvalidData)
                },
            },
    {
        if self.is_info_loaded {
            return Ok(());
        }
        let n = self.data.len();
        if n < 45 {
            return Err(PakError::io_error("Unable to read pak trailer"));
        }
        let ghost d = self.data@;
        let ghost t = d.subrange(d.len() - 45, d.len() as int);
        let encrypted = self.data[n - 45] ^ ENCRYPTED_XOR_KEY;
        let version = vec_le32(&self.data, n - 40);
        let index_size = vec_le64(&self.data, n - 16) ^ SIZE_XOR_KEY;
        let index_offset = vec_le64(&self.data, n - 8) ^ OFFSET_XOR_KEY;
        proof {
            assert(t.subrange(5, 9) =~= d.subrange(n - 40, n - 36));
            assert(t.subrange(29, 37) =~= d.subrange(n - 16, n - 8));
            assert(t.subrange(37, 45) =~= d.subrange(n - 8, n as int));
            assert(t[0] == d[n - 45]);
        }
        self.info = RawPakInfo { encrypted, version, index_size, index_offset };
        self.is_info_loaded = true;
        Ok(())
    }

    /// Whether the archive is marked encrypted; loads the trailer on the
    /// first call and afterwards answers from the cached trailer, so
    /// repeated calls return the same value.
    pub fn encrypted(&mut self) -> (r: Result<bool, PakError>)
        requires
            old(self).wf(),
        ensures
            final(self).wf(),
            final(self).data@ == old(self).data@,
            final(self).is_entries_loaded == old(self).is_entries_loaded,
            r is Ok <==> trailer_v7(old(self).data@) is Good,
            match r {
                Ok(b) => final(self).is_info_loaded && (trailer_v7(old(self).data@)
                    matches Outcome::Good(t) && b == (t.encrypted != 0)),
                Err(e) => {
                    &&& !final(self).is_info_loaded
                    &&& (trailer_v7(old(self).data@) is IoErr ==> e is Io)
                    &&& (trailer_v7(old(self).data@) is InvalidErr ==> e is InvalidData)
                },
            },
    {
        match self.load_pak_info() {
            Ok(_) => Ok(self.info.is_encrypted()),
            Err(e) => Err(e),
        }
    }

    /// The archive's version field; loads the trailer on the first call
    /// and afterwards answers from the cached trailer, so repeated calls
    /// return the same value.
    pub fn version(&mut self) -> (r: Result<u32, PakError>)
        requires
            old(self).wf(),
        ensures
            final(self).wf(),
            final(self).data@ == old(self).data@,
            final(self).is_entries_loaded == old(self).is_entries_loaded,
            r is Ok <==> trailer_v7(old(self).data@) is Good,
            match r {
                Ok(v) => final(self).is_info_loaded && (trailer_v7(old(self).data@)
                    matches Outcome::Good(t) && v == t.version),
                Err(e) => {
                    &&& !final(self).is_info_loaded
                    &&& (trailer_v7(old(self).data@) is IoErr ==> e is Io)
                    &&& (trailer_v7(old(self).data@) is InvalidErr ==> e is InvalidData)
                },
            },
    {
        match self.load_pak_info() {
            Ok(_) => Ok(self.info.version),
            Err(e) => Err(e),
        }
    }

    /// Reads and decodes the index block once, parsing the mount point and
    /// every entry record with its inline path; later calls reuse the
    /// result, and a failed load leaves the stage unloaded and fails the
    /// same way on retry.
    fn load_entries(&mut self) -> (r: Result<(), PakError>)
        requires
            old(self).wf(),
        ensures
            final(self).wf(),
            final(self).data@ == old(self).data@,
            old(self).is_info_loaded ==> final(self).is_info_loaded,
            match r {
                Ok(_) => final(self).is_entries_loaded && entries_v7(old(self).data@) is Good,
                Err(e) => {
                    &&& !final(self).is_entries_loaded
                    &&& !old(self).is_entries_loaded
                    &&& !(entries_v7(old(self).data@) is Good)
                    &&& (entries_v7(old(self).data@) is IoErr ==> e is Io)
                    &&& (entries_v7(old(self).data@) is InvalidErr ==> e is InvalidData)
                },
            },
    {
        if self.is_entries_loaded {
            return Ok(());
        }
        match self.load_pak_info() {
            Ok(_) => {},
            Err(e) => {
                return Err(e);
            },
        }
        let ghost d = self.data@;
        let n = self.data.len();
        if self.info.index_offset > n as u64 || self.info.index_size > n as u64
            - self.info.index_offset {
            return Err(PakError::io_error("index read past end of file"));
        }
        let off = self.info.index_offset as usize;
        let size = self.info.index_size as usize;
        let mut index_data = vstd::slice::slice_to_vec(vstd::slice::slice_subrange(
            self.data.as_slice(),
            off,
            off + size,
        ));
        if self.info.encrypted != 0 {
            xor_each_byte(&mut index_data, DECRYPT_KEY);
        }
        proof {
            assert(index_data@ == index_block(d, self.info));
        }
        match read_index_v7(&index_data) {
            Ok(parsed) => {
                let (mount, entries, paths, end_off) = parsed;
                self.mount_point = mount;
                self.entries = entries;
                self.paths = paths;
                self.index_offset = end_off;
                self.index_data = index_data;
                self.is_entries_loaded = true;
                Ok(())
            },
            Err(e) => Err(e),
        }
    }

    /// How many entries the archive's index lists; loads the entries stage
    /// on the first call, so repeated calls return the same value.
    pub fn entries_count(&mut self) -> (r: Result<u64, PakError>)
        requires
            old(self).wf(),
        ensures
            final(self).wf(),
            final(self).data@ == old(self).data@,
            r is Ok <==> entries_v7(old(self).data@) is Good,
            match r {
                Ok(c) => final(self).is_entries_loaded && (entries_v7(old(self).data@)
                    matches Outcome::Good(ix) && c == ix.entries.len()),
                Err(e) => {
                    &&& !final(self).is_entries_loaded
                    &&& (entries_v7(old(self).data@) is IoErr ==> e is Io)
                    &&& (entries_v7(old(self).data@) is InvalidErr ==> e is InvalidData)
                },
            },
    {
        match self.load_entries() {
            Ok(_) => Ok(self.entries.len() as u64),
            Err(e) => Err(e),
        }
    }

    /// The path of entry `entry_id`: exactly the inline path of that
    /// entry, used as it stands, with no mount-point prefix. Loads the
    /// entries stage on the first call.
    pub fn get_entry_path(&mut self, entry_id: u64) -> (r: Result<String, PakError>)
        requires
            old(self).wf(),
        ensures
            final(self).wf(),
            final(self).data@ == old(self).data@,
            old(self).is_info_loaded ==> final(self).is_info_loaded,
            match entries_v7(old(self).data@) {
                Outcome::Good(ix) => final(self).is_entries_loaded && if entry_id
                    < ix.paths.len() {
                    r matches Ok(s) && s@ == ix.paths[entry_id as int]
                } else {
                    r matches Err(e) && e is InvalidData
                },
                Outcome::IoErr => (r matches Err(e) && e is Io)
                    && !final(self).is_entries_loaded,
                Outcome::InvalidErr => (r matches Err(e) && e is InvalidData)
                    && !final(self).is_entries_loaded,
            },
    {
        match self.load_entries() {
            Ok(_) => {},
            Err(e) => {
                return Err(e);
            },
        }
        if entry_id >= self.paths.len() as u64 {
            return Err(PakError::invalid_data("entry id out of range"));
        }
        proof {
            assert(self.paths@.map_values(|s: String| s@)[entry_id as int]
                == self.paths@[entry_id as int]@);
        }
        Ok(self.paths[entry_id as usize].clone())
    }

    /// Decodes the payload of entry `entry_id` and appends it to `output`:
    /// inflated block by block in chunked mode, XOR-decrypted raw bytes
    /// otherwise. A failure is scoped to this entry: the loaded entry
    /// table is untouched and other entries stay extractable.
    pub fn extract_entry(&mut self, entry_id: u64, output: &mut Vec<u8>) -> (r: Result<
        (),
        PakError,
    >)
        requires
            old(self).wf(),
        ensures
            final(self).wf(),
            final(self).data@ == old(self).data@,
            match entries_v7(old(self).data@) {
                Outcome::Good(ix) => final(self).is_entries_loaded && if entry_id
                    < ix.entries.len() {
                    match extract_entry_spec(old(self).data@, ix.entries[entry_id as int]) {
                        ExtractOutcome::Done(bytes) => r is Ok && final(output)@ == old(output)@
                            + bytes,
                        ExtractOutcome::ShortRead(p) => (r matches Err(e) && e is InvalidData)
                            && final(output)@ == old(output)@ + p,
                        ExtractOutcome::BadMethod(p) => (r matches Err(e) && e is InvalidData)
                            && final(output)@ == old(output)@ + p,
                        ExtractOutcome::InflateErr(p) => (r matches Err(e) && e is Other)
                            && final(output)@ == old(output)@ + p,
                        ExtractOutcome::RawOob => (r matches Err(e) && e is Io)
                            && final(output)@ == old(output)@,
                    }
                } else {
                    (r matches Err(e) && e is InvalidData) && final(output)@ == old(output)@
                },
                Outcome::IoErr => (r matches Err(e) && e is Io) && final(output)@ == old(output)@
                    && !final(self).is_entries_loaded,
                Outcome::InvalidErr => (r matches Err(e) && e is InvalidData) && final(output)@
                    == old(output)@ && !final(self).is_entries_loaded,
            },
    {
        match self.load_entries() {
            Ok(_) => {},
            Err(e) => {
                return Err(e);
            },
        }
        if entry_id >= self.entries.len() as u64 {
            return Err(PakError::invalid_data("entry id out of range"));
        }
        proof {
            assert(self.entries@.map_values(|e: Entry| e@)[entry_id as int]
                == self.entries@[entry_id as int]@);
        }
        let entry = &self.entries[entry_id as usize];
        extract_into(&self.data, entry, output)
    }
}

proof fn lemma_parse_entries_v7_parallel(
    d: Seq<u8>,
    off: int,
    n: nat,
    acc_e: Seq<EntryModel>,
    acc_p: Seq<Seq<char>>,
)
    requires
        acc_e.len() == acc_p.len(),
        parse_entries_v7(d, off, n, acc_e, acc_p) is Some,
    ensures
        parse_entries_v7(d, off, n, acc_e, acc_p) matches Some((es, ps, end)) && es.len()
            == ps.len(),
    decreases n,
{
    if n == 0 {
    } else {
        match parse_name(d, off, true) {
            None => {},
            Some((path, off1)) => {
                match parse_entry_common(d, off1) {
                    None => {},
                    Some((e, off2)) => {
                        lemma_parse_entries_v7_parallel(
                            d,
                            off2,
                            (n - 1) as nat,
                            acc_e.push(e),
                            acc_p.push(path),
                        );
                    },
                }
            },
        }
    }
}

/// Dialect 7 resolves a path for every entry: parsing yields exactly one
/// inline path per entry record, so every id below the entry count has a
/// path, and `get_entry_path` succeeds on it.
pub proof fn lemma_v7_paths_cover(d: Seq<u8>, ix: V7Index)
    requires
        entries_v7(d) == Outcome::Good(ix),
    ensures
        ix.paths.len() == ix.entries.len(),
{
    let info = trailer_v7(d)->Good_0;
    let block = index_block(d, info);
    match parse_index_header(block) {
        None => {},
        Some((mount, ec, off)) => {
            lemma_parse_entries_v7_parallel(
                block,
                off,
                ec as nat,
                Seq::empty(),
                Seq::empty(),
            );
        },
    }
}

} // verus!
