//! Reader for dialect-10 (main game) archives. The index size is derived
//! from the obfuscated offset and the file length, entry paths live in a
//! secondary directory table behind the entry records, and resolved paths
//! carry the mount-point prefix.

use vstd::prelude::*;
use crate::error::PakError;
use crate::pak_reader::{le32, le64, Outcome, RawPakInfo, Entry, EntryModel, ExtractOutcome,
    parse_entries_common, parse_index_header, parse_name, index_block, extract_entry_spec,
    extract_into, read_entry_common, read_name, vec_le32, vec_le64, cursor_read_u32,
    cursor_read_u64, OFFSET_XOR_KEY, ENCRYPTED_XOR_KEY, DECRYPT_KEY, MAX_INDEX_SIZE};
use crate::utils::{xor_each_byte, cstr_to_string, cstr_utf8_ok, cstr_utf8_chars,
    string_push_str};
use crate::utils::file_reader::VecCursor;

verus! {

/// The dialect-10 trailer: the index offset is deobfuscated and the index
/// size is derived as the distance from that offset to the trailer, which
/// must not exceed [`MAX_INDEX_SIZE`].
pub open spec fn trailer_v10(d: Seq<u8>) -> Outcome<RawPakInfo> {
    if d.len() < 45 {
        Outcome::IoErr
    } else {
        let t = d.subrange(d.len() - 45, d.len() as int);
        let offset = le64(t, 37) ^ OFFSET_XOR_KEY;
        if offset > 0x7FFF_FFFF_FFFF_FFFFu64 {
            Outcome::InvalidErr
        } else if offset > d.len() {
            Outcome::IoErr
        } else if d.len() - offset < 45 {
            Outcome::InvalidErr
        } else if d.len() - offset - 45 > MAX_INDEX_SIZE {
            Outcome::InvalidErr
        } else {
            Outcome::Good(
                RawPakInfo {
                    encrypted: t[0] ^ ENCRYPTED_XOR_KEY,
                    version: le32(t, 5),
                    index_size: (d.len() - offset - 45) as u64,
                    index_offset: offset,
                },
            )
        }
    }
}

/// The decoded dialect-10 index: mount point, entry records, and the block
/// offset where the directory table begins.
pub struct V10Index {
    pub mount_point: Seq<char>,
    pub entries: Seq<EntryModel>,
    pub end_offset: int,
}

/// Parses the index block: header, then the entry records in order.
pub open spec fn index_v10(block: Seq<u8>) -> Option<(Seq<char>, Seq<EntryModel>, int)> {
    match parse_index_header(block) {
        None => None,
        Some((mount, ec, off)) => match parse_entries_common(block, off, ec as nat, Seq::empty()) {
            None => None,
            Some((es, end)) => Some((mount, es, end)),
        },
    }
}

/// The entries stage of a dialect-10 archive, from the raw file bytes.
pub open spec fn entries_v10(d: Seq<u8>) -> Outcome<V10Index> {
    match trailer_v10(d) {
        Outcome::IoErr => Outcome::IoErr,
        Outcome::InvalidErr => Outcome::InvalidErr,
        Outcome::Good(info) => match index_v10(index_block(d, info)) {
            None => Outcome::InvalidErr,
            Some((mount, es, end)) => Outcome::Good(
                V10Index { mount_point: mount, entries: es, end_offset: end },
            ),
        },
    }
}

/// Resolves the paths of `n` files of one directory: each record is a name
/// in the signed-length convention followed by an entry id, which must not
/// be negative and must index into `paths`; the path set for it is
/// `prefix` (mount point plus directory name) plus the file's name.
pub open spec fn parse_table_files(
    d: Seq<u8>,
    off: int,
    n: nat,
    paths: Seq<Seq<char>>,
    prefix: Seq<char>,
) -> Option<(Seq<Seq<char>>, int)>
    decreases n,
{
    if n == 0 {
        Some((paths, off))
    } else {
        match parse_name(d, off, false) {
            None => None,
            Some((name, off1)) => if off1 + 4 <= d.len() {
                let id = le32(d, off1);
                if id < 0x8000_0000u32 && (id as int) < paths.len() {
                    parse_table_files(
                        d,
                        off1 + 4,
                        (n - 1) as nat,
                        paths.update(id as int, prefix + name),
                        prefix,
                    )
                } else {
                    None
                }
            } else {
                None
            },
        }
    }
}

/// Walks `n` directory records: a null-terminated directory name, a file
/// count, and that many file records resolved by [`parse_table_files`].
pub open spec fn parse_table_dirs(
    d: Seq<u8>,
    off: int,
    n: nat,
    paths: Seq<Seq<char>>,
    mount: Seq<char>,
) -> Option<(Seq<Seq<char>>, int)>
    decreases n,
{
    if n == 0 {
        Some((paths, off))
    } else if off + 4 <= d.len() {
        let dl = le32(d, off) as int;
        if off + 4 + dl <= d.len() {
            let db = d.subrange(off + 4, off + 4 + dl);
            if cstr_utf8_ok(db) {
                let off1 = off + 4 + dl;
                if off1 + 8 <= d.len() {
                    let fc = le64(d, off1);
                    match parse_table_files(
                        d,
                        off1 + 8,
                        fc as nat,
                        paths,
                        mount + cstr_utf8_chars(db),
                    ) {
                        None => None,
                        Some((paths2, off2)) => parse_table_dirs(
                            d,
                            off2,
                            (n - 1) as nat,
                            paths2,
                            mount,
                        ),
                    }
                } else {
                    None
                }
            } else {
                None
            }
        } else {
            None
        }
    } else {
        None
    }
}

/// Parses the directory table that follows the entry records: the 8-byte
/// entry count sizes the path array, then each of `dir_count` directories
/// assigns full paths to the ids its files name.
pub open spec fn parse_table(block: Seq<u8>, off: int, mount: Seq<char>) -> Option<
    Seq<Seq<char>>,
> {
    if off + 16 <= block.len() {
        let ec64 = le64(block, off);
        let dc = le64(block, off + 8);
        if ec64 <= usize::MAX as u64 {
            let paths0 = Seq::new(ec64 as nat, |i: int| Seq::<char>::empty());
            match parse_table_dirs(block, off + 16, dc as nat, paths0, mount) {
                None => None,
                Some((paths, _)) => Some(paths),
            }
        } else {
            None
        }
    } else {
        None
    }
}

/// The paths stage of a dialect-10 archive, from the raw file bytes.
pub open spec fn paths_v10(d: Seq<u8>) -> Outcome<Seq<Seq<char>>> {
    match trailer_v10(d) {
        Outcome::IoErr => Outcome::IoErr,
        Outcome::InvalidErr => Outcome::InvalidErr,
        Outcome::Good(info) => match entries_v10(d) {
            Outcome::IoErr => Outcome::IoErr,
            Outcome::InvalidErr => Outcome::InvalidErr,
            Outcome::Good(ix) => match parse_table(
                index_block(d, info),
                ix.end_offset,
                ix.mount_point,
            ) {
                None => Outcome::InvalidErr,
                Some(paths) => Outcome::Good(paths),
            },
        },
    }
}

/// A dialect-10 archive over its in-memory bytes, loading lazily in three
/// memoized stages: trailer, entries, entry paths. A stage either loads
/// fully or leaves the reader as it was.
pub struct GfpPakReaderV10 {
    pub data: Vec<u8>,
    pub is_info_loaded: bool,
    pub is_entries_loaded: bool,
    pub is_entry_paths_loaded: bool,
    pub info: RawPakInfo,
    pub index_data: Vec<u8>,
    pub index_offset: usize,
    pub mount_point: String,
    pub entries: Vec<Entry>,
    pub entry_paths: Vec<String>,
}

impl GfpPakReaderV10 {
    /// Each loaded stage holds exactly what the spec-level parse of the
    /// archive bytes yields.
    pub open spec fn wf(self) -> bool {
        &&& (self.is_info_loaded ==> trailer_v10(self.data@) == Outcome::Good(self.info))
        &&& (self.is_entries_loaded ==> {
            &&& self.is_info_loaded
            &&& entries_v10(self.data@) matches Outcome::Good(ix)
                && self.index_data@ == index_block(self.data@, self.info)
                && self.mount_point@ == ix.mount_point
                && self.entries@.map_values(|e: Entry| e@) == ix.entries
                && self.index_offset as int == ix.end_offset
        })
        &&& (self.is_entry_paths_loaded ==> {
            &&& self.is_entries_loaded
            &&& paths_v10(self.data@) matches Outcome::Good(ps)
                && self.entry_paths@.map_values(|s: String| s@) == ps
        })
    }

    /// A fresh reader over the archive's bytes; nothing is loaded yet.
    pub fn new(data: Vec<u8>) -> (r: Self)
        ensures
            r.wf(),
            r.data@ == data@,
            !r.is_info_loaded,
            !r.is_entries_loaded,
            !r.is_entry_paths_loaded,
    {
        GfpPakReaderV10 {
            data,
            is_info_loaded: false,
            is_entries_loaded: false,
            is_entry_paths_loaded: false,
            info: RawPakInfo { encrypted: 0, version: 0, index_size: 0, index_offset: 0 },
            index_data: Vec::new(),
            index_offset: 0,
            mount_point: String::new(),
            entries: Vec::new(),
            entry_paths: Vec::new(),
        }
    }

    /// Loads and deobfuscates the trailer once; later calls reuse it, and
    /// a failed load leaves the stage unloaded and fails the same way on
    /// retry.
    fn load_pak_info(&mut self) -> (r: Result<(), PakError>)
        requires
            old(self).wf(),
        ensures
            final(self).wf(),
            final(self).data@ == old(self).data@,
            final(self).is_entries_loaded == old(self).is_entries_loaded,
            final(self).is_entry_paths_loaded == old(self).is_entry_paths_loaded,
            final(self).index_data@ == old(self).index_data@,
            final(self).index_offset == old(self).index_offset,
            final(self).mount_point@ == old(self).mount_point@,
            final(self).entries@ == old(self).entries@,
            final(self).entry_paths@ == old(self).entry_paths@,
            match r {
                Ok(_) => final(self).is_info_loaded && trailer_v10(old(self).data@)
                    == Outcome::Good(final(self).info),
                Err(e) => {
                    &&& !final(self).is_info_loaded
                    &&& !old(self).is_info_loaded
                    &&& final(self).info == old(self).info
                    &&& !(trailer_v10(old(self).data@) is Good)
                    &&& (trailer_v10(old(self).data@) is IoErr ==> e is Io)
                    &&& (trailer_v10(old(self).data@) is InvalidErr ==> e is InvalidData)
                },
            },
    {
        if self.is_info_loaded {
            return Ok(());
        }
        let n = self.data.len();
        if n < 45 {
            return Err(PakError::io_error("Unable to read pak trailer"));
        }
        let ghost d = self.data@;
        let ghost t = d.subrange(d.len() - 45, d.len() as int);
        let encrypted = self.data[n - 45] ^ ENCRYPTED_XOR_KEY;
        let version = vec_le32(&self.data, n - 40);
        let offset = vec_le64(&self.data, n - 8) ^ OFFSET_XOR_KEY;
        proof {
            assert(t.subrange(5, 9) =~= d.subrange(n - 40, n - 36));
            assert(t.subrange(37, 45) =~= d.subrange(n - 8, n as int));
            assert(t[0] == d[n - 45]);
        }
        if offset > 0x7FFF_FFFF_FFFF_FFFF {
            return Err(PakError::invalid_data("Invalid index offset"));
        }
        if offset > n as u64 {
            return Err(PakError::io_error("Unable to seek to index"));
        }
        let distance = n as u64 - offset;
        if distance < 45 {
            return Err(PakError::invalid_data("Invalid index data size"));
        }
        let index_size = distance - 45;
        if index_size > MAX_INDEX_SIZE {
            return Err(PakError::invalid_data("Invalid index data size"));
        }
        self.info = RawPakInfo { encrypted, version, index_size, index_offset: offset };
        self.is_info_loaded = true;
        Ok(())
    }

    /// Whether the archive is marked encrypted; loads the trailer on the
    /// first call and afterwards answers from the cached trailer, so
    /// repeated calls return the same value.
    pub fn encrypted(&mut self) -> (r: Result<bool, PakError>)
        requires
            old(self).wf(),
        ensures
            final(self).wf(),
            final(self).data@ == old(self).data@,
            final(self).is_entries_loaded == old(self).is_entries_loaded,
            final(self).is_entry_paths_loaded == old(self).is_entry_paths_loaded,
            r is Ok <==> trailer_v10(old(self).data@) is Good,
            match r {
                Ok(b) => final(self).is_info_loaded && (trailer_v10(old(self).data@)
                    matches Outcome::Good(t) && b == (t.encrypted != 0)),
                Err(e) => {
                    &&& !final(self).is_info_loaded
                    &&& (trailer_v10(old(self).data@) is IoErr ==> e is Io)
                    &&& (trailer_v10(old(self).data@) is InvalidErr ==> e is InvalidData)
                },
            },
    {
        match self.load_pak_info() {
            Ok(_) => Ok(self.info.is_encrypted()),
            Err(e) => Err(e),
        }
    }

    /// The archive's version field; loads the trailer on the first call
    /// and afterwards answers from the cached trailer, so repeated calls
    /// return the same value.
    pub fn version(&mut self) -> (r: Result<u32, PakError>)
        requires
            old(self).wf(),
        ensures
            final(self).wf(),
            final(self).data@ == old(self).data@,
            final(self).is_entries_loaded == old(self).is_entries_loaded,
            final(self).is_entry_paths_loaded == old(self).is_entry_paths_loaded,
            r is Ok <==> trailer_v10(old(self).data@) is Good,
            match r {
                Ok(v) => final(self).is_info_loaded && (trailer_v10(old(self).data@)
                    matches Outcome::Good(t) && v == t.version),
                Err(e) => {
                    &&& !final(self).is_info_loaded
                    &&& (trailer_v10(old(self).data@) is IoErr ==> e is Io)
                    &&& (trailer_v10(old(self).data@) is InvalidErr ==> e is InvalidData)
                },
            },
    {
        match self.load_pak_info() {
            Ok(_) => Ok(self.info.version),
            Err(e) => Err(e),
        }
    }
}

/// Parses a decoded dialect-10 index block: the mount point, the entry
/// records in order, and the offset where the directory table begins.
#[verifier::loop_isolation(false)]
fn read_index_v10(index_data: &Vec<u8>) -> (r: Result<(String, Vec<Entry>, usize), PakError>)
    ensures
        match index_v10(index_data@) {
            Some((mount, es, end)) => r matches Ok(t) && t.0@ == mount
                && t.1@.map_values(|e: Entry| e@) == es && t.2 as int == end,
            None => r matches Err(e) && e is InvalidData,
        },
{
    let ghost block = index_data@;
    let mut cur = VecCursor::new(index_data);
    let mpl = match cursor_read_u32(&mut cur) {
        Ok(v) => v,
        Err(e) => {
            return Err(e);
        },
    };
    if mpl < 9 {
        return Err(PakError::invalid_data("mount point length too small"));
    }
    cur.move_by(9);
    let mount_data = match cur.read_dyn((mpl - 9) as usize) {
        Ok(v) => v,
        Err(e) => {
            return Err(e);
        },
    };
    let mount = match cstr_to_string(mount_data) {
        Some(s) => s,
        None => {
            return Err(PakError::invalid_data("malformed mount point"));
        },
    };
    let ec = match cursor_read_u32(&mut cur) {
        Ok(v) => v,
        Err(e) => {
            return Err(e);
        },
    };
    if ec >= 0x8000_0000 {
        return Err(PakError::invalid_data("negative entry count"));
    }
    let ghost eoff = cur.offset as int;
    proof {
        assert(parse_index_header(block) == Some((mount@, ec, eoff)));
    }
    let mut entries: Vec<Entry> = Vec::new();
    proof {
        assert(entries@.map_values(|e: Entry| e@) =~= Seq::<EntryModel>::empty());
    }
    let mut i: u32 = 0;
    while i < ec
        invariant
            i <= ec,
            cur.buffer@ == block,
            parse_entries_common(
                block,
                cur.offset as int,
                (ec - i) as nat,
                entries@.map_values(|e: Entry| e@),
            ) == parse_entries_common(block, eoff, ec as nat, Seq::empty()),
        decreases ec - i,
    {
        let ghost po = cur.offset as int;
        let ghost pmap = entries@.map_values(|e: Entry| e@);
        let e = match read_entry_common(&mut cur) {
            Ok(e) => e,
            Err(er) => {
                proof {
                    assert(parse_entries_common(block, po, (ec - i) as nat, pmap) is None);
                }
                return Err(er);
            },
        };
        entries.push(e);
        proof {
            assert(entries@.map_values(|e: Entry| e@) =~= pmap.push(entries@.last()@));
        }
        i = i + 1;
    }
    let end = cur.offset;
    proof {
        assert(parse_entries_common(
            block,
            end as int,
            0,
            entries@.map_values(|e: Entry| e@),
        ) == Some((entries@.map_values(|e: Entry| e@), end as int)));
    }
    Ok((mount, entries, end))
}

impl GfpPakReaderV10 {
    /// Reads and decodes the index block once, parsing the mount point and
    /// every entry record; later calls reuse the result, and a failed load
    /// leaves the stage unloaded and fails the same way on retry.
    fn load_entries(&mut self) -> (r: Result<(), PakError>)
        requires
            old(self).wf(),
        ensures
            final(self).wf(),
            final(self).data@ == old(self).data@,
            final(self).is_entry_paths_loaded == old(self).is_entry_paths_loaded,
            final(self).entry_paths@ == old(self).entry_paths@,
            old(self).is_info_loaded ==> final(self).is_info_loaded,
            match r {
                Ok(_) => final(self).is_entries_loaded && entries_v10(old(self).data@) is Good,
                Err(e) => {
                    &&& !final(self).is_entries_loaded
                    &&& !old(self).is_entries_loaded
                    &&& !(entries_v10(old(self).data@) is Good)
                    &&& (entries_v10(old(self).data@) is IoErr ==> e is Io)
                    &&& (entries_v10(old(self).data@) is InvalidErr ==> e is InvalidData)
                },
            },
    {
        if self.is_entries_loaded {
            return Ok(());
        }
        match self.load_pak_info() {
            Ok(_) => {},
            Err(e) => {
                return Err(e);
            },
        }
        let ghost d = self.data@;
        let n = self.data.len();
        proof {
            assert(trailer_v10(d) == Outcome::Good(self.info));
            assert(self.info.index_offset <= n);
            assert(self.info.index_offset + self.info.index_size <= n);
        }
        let off = self.info.index_offset as usize;
        let size = self.info.index_size as usize;
        let mut index_data = vstd::slice::slice_to_vec(vstd::slice::slice_subrange(
            self.data.as_slice(),
            off,
            off + size,
        ));
        if self.info.encrypted != 0 {
            xor_each_byte(&mut index_data, DECRYPT_KEY);
        }
        proof {
            assert(index_data@ == index_block(d, self.info));
        }
        match read_index_v10(&index_data) {
            Ok(parsed) => {
                let (mount, entries, end_off) = parsed;
                self.mount_point = mount;
                self.entries = entries;
                self.index_offset = end_off;
                self.index_data = index_data;
                self.is_entries_loaded = true;
                Ok(())
            },
            Err(e) => Err(e),
        }
    }

    /// How many entries the archive's index lists; loads the entries stage
    /// on the first call, so repeated calls return the same value.
    pub fn entries_count(&mut self) -> (r: Result<u64, PakError>)
        requires
            old(self).wf(),
        ensures
            final(self).wf(),
            final(self).data@ == old(self).data@,
            final(self).is_entry_paths_loaded == old(self).is_entry_paths_loaded,
            r is Ok <==> entries_v10(old(self).data@) is Good,
            match r {
                Ok(c) => final(self).is_entries_loaded && (entries_v10(old(self).data@)
                    matches Outcome::Good(ix) && c == ix.entries.len()),
                Err(e) => {
                    &&& !final(self).is_entries_loaded
                    &&& (entries_v10(old(self).data@) is IoErr ==> e is Io)
                    &&& (entries_v10(old(self).data@) is InvalidErr ==> e is InvalidData)
                },
            },
    {
        match self.load_entries() {
            Ok(_) => Ok(self.entries.len() as u64),
            Err(e) => Err(e),
        }
    }

    /// Decodes the payload of entry `entry_id` and appends it to `output`:
    /// inflated block by block in chunked mode, XOR-decrypted raw bytes
    /// otherwise. A failure is scoped to this entry: the loaded entry
    /// table is untouched and other entries stay extractable.
    pub fn extract_entry(&mut self, entry_id: u64, output: &mut Vec<u8>) -> (r: Result<
        (),
        PakError,
    >)
        requires
            old(self).wf(),
        ensures
            final(self).wf(),
            final(self).data@ == old(self).data@,
            final(self).is_entry_paths_loaded == old(self).is_entry_paths_loaded,
            match entries_v10(old(self).data@) {
                Outcome::Good(ix) => final(self).is_entries_loaded && if entry_id
                    < ix.entries.len() {
                    match extract_entry_spec(old(self).data@, ix.entries[entry_id as int]) {
                        ExtractOutcome::Done(bytes) => r is Ok && final(output)@ == old(output)@
                            + bytes,
                        ExtractOutcome::ShortRead(p) => (r matches Err(e) && e is InvalidData)
                            && final(output)@ == old(output)@ + p,
                        ExtractOutcome::BadMethod(p) => (r matches Err(e) && e is InvalidData)
                            && final(output)@ == old(output)@ + p,
                        ExtractOutcome::InflateErr(p) => (r matches Err(e) && e is Other)
                            && final(output)@ == old(output)@ + p,
                        ExtractOutcome::RawOob => (r matches Err(e) && e is Io)
                            && final(output)@ == old(output)@,
                    }
                } else {
                    (r matches Err(e) && e is InvalidData) && final(output)@ == old(output)@
                },
                Outcome::IoErr => (r matches Err(e) && e is Io) && final(output)@ == old(output)@
                    && !final(self).is_entries_loaded,
                Outcome::InvalidErr => (r matches Err(e) && e is InvalidData) && final(output)@
                    == old(output)@ && !final(self).is_entries_loaded,
            },
    {
        match self.load_entries() {
            Ok(_) => {},
            Err(e) => {
                return Err(e);
            },
        }
        if entry_id >= self.entries.len() as u64 {
            return Err(PakError::invalid_data("entry id out of range"));
        }
        proof {
            assert(self.entries@.map_values(|e: Entry| e@)[entry_id as int]
                == self.entries@[entry_id as int]@);
        }
        let entry = &self.entries[entry_id as usize];
        extract_into(&self.data, entry, output)
    }
}

/// Parses the directory table of a decoded index block, resuming at
/// `start`, and resolves the full path of every file record as mount
/// point plus directory name plus file name.
#[verifier::loop_isolation(false)]
fn read_table(index_data: &Vec<u8>, start: usize, mount_point: &String) -> (r: Result<
    Vec<String>,
    PakError,
>)
    ensures
        match parse_table(index_data@, start as int, mount_point@) {
            Some(ps) => r matches Ok(v) && v@.map_values(|s: String| s@) == ps,
            None => r matches Err(e) && e is InvalidData,
        },
{
    let ghost block = index_data@;
    let mut cur = VecCursor::new_with_offset(index_data, start);
    let ec64 = match cursor_read_u64(&mut cur) {
        Ok(v) => v,
        Err(e) => {
            return Err(e);
        },
    };
    let dc = match cursor_read_u64(&mut cur) {
        Ok(v) => v,
        Err(e) => {
            return Err(e);
        },
    };
    if ec64 > usize::MAX as u64 {
        return Err(PakError::invalid_data("entry count too large"));
    }
    let ec = ec64 as usize;
    let ghost paths0 = Seq::new(ec64 as nat, |i: int| Seq::<char>::empty());
    let mut paths: Vec<String> = Vec::new();
    let mut j: usize = 0;
    while j < ec
        invariant
            j <= ec,
            paths@.len() == j,
            forall|k: int| 0 <= k < j ==> paths@[k]@ == Seq::<char>::empty(),
        decreases ec - j,
    {
        paths.push(String::new());
        j = j + 1;
    }
    proof {
        assert(paths@.map_values(|s: String| s@) =~= paths0);
    }
    let ghost doff = cur.offset as int;
    let mut di: u64 = 0;
    while di < dc
        invariant
            di <= dc,
            cur.buffer@ == block,
            paths@.len() == ec,
            parse_table_dirs(
                block,
                cur.offset as int,
                (dc - di) as nat,
                paths@.map_values(|s: String| s@),
                mount_point@,
            ) == parse_table_dirs(block, doff, dc as nat, paths0, mount_point@),
        decreases dc - di,
    {
        let ghost po = cur.offset as int;
        let ghost pmap = paths@.map_values(|s: String| s@);
        let dl = match cursor_read_u32(&mut cur) {
            Ok(v) => v,
            Err(e) => {
                proof {
                    assert(parse_table_dirs(block, po, (dc - di) as nat, pmap, mount_point@)
                        is None);
                }
                return Err(e);
            },
        };
        let dname_bytes = match cur.read_dyn(dl as usize) {
            Ok(v) => v,
            Err(e) => {
                proof {
                    assert(parse_table_dirs(block, po, (dc - di) as nat, pmap, mount_point@)
                        is None);
                }
                return Err(e);
            },
        };
        let dname = match cstr_to_string(dname_bytes) {
            Some(v) => v,
            None => {
                proof {
                    assert(parse_table_dirs(block, po, (dc - di) as nat, pmap, mount_point@)
                        is None);
                }
                return Err(PakError::invalid_data("malformed directory name"));
            },
        };
        let fc = match cursor_read_u64(&mut cur) {
            Ok(v) => v,
            Err(e) => {
                proof {
                    assert(parse_table_dirs(block, po, (dc - di) as nat, pmap, mount_point@)
                        is None);
                }
                return Err(e);
            },
        };
        let mut prefix = mount_point.clone();
        string_push_str(&mut prefix, dname.as_str());
        let ghost foff = cur.offset as int;
        let ghost fmap0 = paths@.map_values(|s: String| s@);
        let mut fi: u64 = 0;
        while fi < fc
            invariant
                fi <= fc,
                cur.buffer@ == block,
                paths@.len() == ec,
                parse_table_files(
                    block,
                    cur.offset as int,
                    (fc - fi) as nat,
                    paths@.map_values(|s: String| s@),
                    prefix@,
                ) == parse_table_files(block, foff, fc as nat, fmap0, prefix@),
            decreases fc - fi,
        {
            let ghost fpo = cur.offset as int;
            let ghost fpmap = paths@.map_values(|s: String| s@);
            let name = match read_name(&mut cur, false) {
                Ok(v) => v,
                Err(e) => {
                    proof {
                        assert(parse_table_files(block, fpo, (fc - fi) as nat, fpmap, prefix@)
                            is None);
                    }
                    return Err(e);
                },
            };
            let id = match cursor_read_u32(&mut cur) {
                Ok(v) => v,
                Err(e) => {
                    proof {
                        assert(parse_table_files(block, fpo, (fc - fi) as nat, fpmap, prefix@)
                            is None);
                    }
                    return Err(e);
                },
            };
            if id >= 0x8000_0000 {
                proof {
                    assert(parse_table_files(block, fpo, (fc - fi) as nat, fpmap, prefix@)
                        is None);
                }
                return Err(PakError::invalid_data("Negative entry_id"));
            }
            if id as usize >= paths.len() {
                proof {
                    assert(parse_table_files(block, fpo, (fc - fi) as nat, fpmap, prefix@)
                        is None);
                }
                return Err(PakError::invalid_data("entry_id out of range"));
            }
            let mut full = prefix.clone();
            string_push_str(&mut full, name.as_str());
            paths.set(id as usize, full);
            proof {
                assert(paths@.map_values(|s: String| s@) =~= fpmap.update(
                    id as int,
                    prefix@ + name@,
                ));
            }
            fi = fi + 1;
        }
        proof {
            let cmap = paths@.map_values(|s: String| s@);
            assert(parse_table_files(block, cur.offset as int, 0, cmap, prefix@) == Some(
                (cmap, cur.offset as int),
            ));
            assert(parse_table_dirs(block, po, (dc - di) as nat, pmap, mount_point@)
                == parse_table_dirs(
                block,
                cur.offset as int,
                (dc - di - 1) as nat,
                cmap,
                mount_point@,
            ));
        }
        di = di + 1;
    }
    proof {
        let cmap = paths@.map_values(|s: String| s@);
        assert(parse_table_dirs(block, cur.offset as int, 0, cmap, mount_point@) == Some(
            (cmap, cur.offset as int),
        ));
    }
    Ok(paths)
}

impl GfpPakReaderV10 {
    /// Resolves every entry path from the directory table once; later
    /// calls reuse the result, and a failed load leaves the stage
    /// unloaded, with no partially filled path array exposed.
    fn load_entry_paths(&mut self) -> (r: Result<(), PakError>)
        requires
            old(self).wf(),
        ensures
            final(self).wf(),
            final(self).data@ == old(self).data@,
            old(self).is_info_loaded ==> final(self).is_info_loaded,
            old(self).is_entries_loaded ==> final(self).is_entries_loaded,
            match r {
                Ok(_) => final(self).is_entry_paths_loaded && paths_v10(old(self).data@)
                    is Good,
                Err(e) => {
                    &&& !final(self).is_entry_paths_loaded
                    &&& !old(self).is_entry_paths_loaded
                    &&& !(paths_v10(old(self).data@) is Good)
                    &&& (paths_v10(old(self).data@) is IoErr ==> e is Io)
                    &&& (paths_v10(old(self).data@) is InvalidErr ==> e is InvalidData)
                },
            },
    {
        if self.is_entry_paths_loaded {
            return Ok(());
        }
        match self.load_entries() {
            Ok(_) => {},
            Err(e) => {
                return Err(e);
            },
        }
        match read_table(&self.index_data, self.index_offset, &self.mount_point) {
            Ok(parsed) => {
                self.entry_paths = parsed;
                self.is_entry_paths_loaded = true;
                Ok(())
            },
            Err(e) => Err(e),
        }
    }

    /// The resolved path of entry `entry_id`: mount point, directory name
    /// and file name concatenated, exactly as the directory table assigned
    /// it. Loads the entries and paths stages on the first call.
    pub fn get_entry_path(&mut self, entry_id: u64) -> (r: Result<String, PakError>)
        requires
            old(self).wf(),
        ensures
            final(self).wf(),
            final(self).data@ == old(self).data@,
            old(self).is_info_loaded ==> final(self).is_info_loaded,
            old(self).is_entries_loaded ==> final(self).is_entries_loaded,
            match paths_v10(old(self).data@) {
                Outcome::Good(ps) => final(self).is_entry_paths_loaded && if entry_id
                    < ps.len() {
                    r matches Ok(s) && s@ == ps[entry_id as int]
                } else {
                    r matches Err(e) && e is InvalidData
                },
                Outcome::IoErr => (r matches Err(e) && e is Io)
                    && !final(self).is_entry_paths_loaded,
                Outcome::InvalidErr => (r matches Err(e) && e is InvalidData)
                    && !final(self).is_entry_paths_loaded,
            },
    {
        match self.load_entry_paths() {
            Ok(_) => {},
            Err(e) => {
                return Err(e);
            },
        }
        if entry_id >= self.entry_paths.len() as u64 {
            return Err(PakError::invalid_data("entry id out of range"));
        }
        proof {
            assert(self.entry_paths@.map_values(|s: String| s@)[entry_id as int]
                == self.entry_paths@[entry_id as int]@);
        }
        Ok(self.entry_paths[entry_id as usize].clone())
    }
}

proof fn lemma_parse_table_files_len(
    d: Seq<u8>,
    off: int,
    n: nat,
    paths: Seq<Seq<char>>,
    prefix: Seq<char>,
)
    requires
        parse_table_files(d, off, n, paths, prefix) is Some,
    ensures
        parse_table_files(d, off, n, paths, prefix) matches Some((paths2, end)) && paths2.len()
            == paths.len(),
    decreases n,
{
    if n == 0 {
    } else {
        match parse_name(d, off, false) {
            None => {},
            Some((name, off1)) => {
                if off1 + 4 <= d.len() {
                    let id = le32(d, off1);
                    if id < 0x8000_0000u32 && (id as int) < paths.len() {
                        lemma_parse_table_files_len(
                            d,
                            off1 + 4,
                            (n - 1) as nat,
                            paths.update(id as int, prefix + name),
                            prefix,
                        );
                    }
                }
            },
        }
    }
}

proof fn lemma_parse_table_dirs_len(
    d: Seq<u8>,
    off: int,
    n: nat,
    paths: Seq<Seq<char>>,
    mount: Seq<char>,
)
    requires
        parse_table_dirs(d, off, n, paths, mount) is Some,
    ensures
        parse_table_dirs(d, off, n, paths, mount) matches Some((paths2, end)) && paths2.len()
            == paths.len(),
    decreases n,
{
    if n == 0 {
    } else if off + 4 <= d.len() {
        let dl = le32(d, off) as int;
        if off + 4 + dl <= d.len() {
            let db = d.subrange(off + 4, off + 4 + dl);
            if cstr_utf8_ok(db) {
                let off1 = off + 4 + dl;
                if off1 + 8 <= d.len() {
                    let fc = le64(d, off1);
                    match parse_table_files(d, off1 + 8, fc as nat, paths, mount
                        + cstr_utf8_chars(db)) {
                        None => {},
                        Some((paths2, off2)) => {
                            lemma_parse_table_files_len(
                                d,
                                off1 + 8,
                                fc as nat,
                                paths,
                                mount + cstr_utf8_chars(db),
                            );
                            lemma_parse_table_dirs_len(d, off2, (n - 1) as nat, paths2, mount);
                        },
                    }
                }
            }
        }
    }
}

/// The directory table only fills path slots in place: the resolved path
/// array of a dialect-10 archive has exactly the length the table's own
/// 8-byte entry count declares, whichever ids its file records name.
pub proof fn lemma_v10_paths_len(d: Seq<u8>, ps: Seq<Seq<char>>)
    requires
        paths_v10(d) == Outcome::Good(ps),
    ensures
        trailer_v10(d) is Good,
        entries_v10(d) is Good,
        ps.len() == le64(
            index_block(d, trailer_v10(d)->Good_0),
            entries_v10(d)->Good_0.end_offset,
        ),
{
    let info = trailer_v10(d)->Good_0;
    let ix = entries_v10(d)->Good_0;
    let block = index_block(d, info);
    let off = ix.end_offset;
    if off + 16 <= block.len() {
        let ec64 = le64(block, off);
        let dc = le64(block, off + 8);
        if ec64 <= usize::MAX as u64 {
            let paths0 = Seq::new(ec64 as nat, |i: int| Seq::<char>::empty());
            match parse_table_dirs(block, off + 16, dc as nat, paths0, ix.mount_point) {
                None => {},
                Some((paths, end)) => {
                    lemma_parse_table_dirs_len(block, off + 16, dc as nat, paths0,
                        ix.mount_point);
                },
            }
        }
    }
}

} // verus!
