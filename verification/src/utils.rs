//! Byte-level helpers shared by the archive decoders: the repeating-key XOR
//! transform, the UTF-16LE to UTF-8 converter, and the inflate wrapper.

use vstd::prelude::*;

pub mod cli;
pub mod file_reader;

verus! {

/// The sequence obtained by XORing every byte of `s` with `key`.
pub open spec fn xor_seq(s: Seq<u8>, key: u8) -> Seq<u8> {
    s.map_values(|b: u8| b ^ key)
}

/// XORs every byte of `data` with the single repeating `key` byte, in place.
pub fn xor_each_byte(data: &mut Vec<u8>, key: u8)
    ensures
        final(data)@ == xor_seq(old(data)@, key),
{
    let len = data.len();
    let mut i: usize = 0;
    while i < len
        invariant
            i <= len,
            data@.len() == len,
            len == old(data)@.len(),
            forall|k: int| 0 <= k < i ==> data@[k] == old(data)@[k] ^ key,
            forall|k: int| i <= k < len ==> data@[k] == old(data)@[k],
        decreases len - i,
    {
        let b = data[i];
        data.set(i, b ^ key);
        i = i + 1;
    }
    proof {
        assert(data@ =~= xor_seq(old(data)@, key));
    }
}

/// XOR with the same key twice gives back the original bytes: the
/// obfuscation transforms of the format are reversible.
pub proof fn lemma_xor_involution(s: Seq<u8>, key: u8)
    ensures
        xor_seq(xor_seq(s, key), key) == s,
{
    assert forall|b: u8| #[trigger] ((b ^ key) ^ key) == b by {
        assert((b ^ key) ^ key == b) by (bit_vector);
    }
    assert(xor_seq(xor_seq(s, key), key) =~= s);
}

/// The UTF-8 encoding of one 16-bit code unit, chosen by numeric range.
/// Each unit is encoded independently, so the halves of a surrogate pair
/// are encoded as two standalone code points: a kept limitation of the
/// format's converter.
pub open spec fn utf16_unit_to_utf8(c: u32) -> Seq<u8>
    recommends
        c <= 0xFFFF,
{
    if c <= 0x7F {
        seq![c as u8]
    } else if c <= 0x7FF {
        seq![(0xC0u32 | (c >> 6)) as u8, (0x80u32 | (c & 0x3F)) as u8]
    } else {
        seq![
            (0xE0u32 | (c >> 12)) as u8,
            (0x80u32 | ((c >> 6) & 0x3F)) as u8,
            (0x80u32 | (c & 0x3F)) as u8,
        ]
    }
}

/// The UTF-8 bytes for a UTF-16LE byte sequence, two input bytes per code
/// unit; a trailing odd byte is ignored here and rejected by the callers.
pub open spec fn utf16le_to_utf8_seq(s: Seq<u8>) -> Seq<u8>
    decreases s.len(),
{
    if s.len() < 2 {
        Seq::empty()
    } else {
        utf16_unit_to_utf8((s[0] + 256 * s[1]) as u32) + utf16le_to_utf8_seq(s.skip(2))
    }
}

/// Converts UTF-16LE bytes to UTF-8 in place. Fails on an odd-length input,
/// and when the converted bytes would not fit in the buffer; on failure the
/// buffer is left as it was. On success the converted bytes stand at the
/// front, the tail keeps its old contents, and the written length is
/// returned.
pub fn utf16le_to_utf8_arr_inplace(buff: &mut Vec<u8>) -> (r: Result<usize, &'static str>)
    ensures
        final(buff)@.len() == old(buff)@.len(),
        old(buff)@.len() % 2 != 0 ==> (r matches Err(m) && m@ == "Incomplete UTF-16 sequence"@
            && final(buff)@ == old(buff)@),
        old(buff)@.len() % 2 == 0 && utf16le_to_utf8_seq(old(buff)@).len() > old(buff)@.len()
            ==> (r matches Err(m) && m@ == "Output buffer too small"@
            && final(buff)@ == old(buff)@),
        old(buff)@.len() % 2 == 0 && utf16le_to_utf8_seq(old(buff)@).len() <= old(buff)@.len()
            ==> (r matches Ok(j) && j == utf16le_to_utf8_seq(old(buff)@).len()
            && final(buff)@ == utf16le_to_utf8_seq(old(buff)@) + old(buff)@.skip(j as int)),
{
    let len = buff.len();
    if len % 2 != 0 {
        return Err("Incomplete UTF-16 sequence");
    }
    let mut out: Vec<u8> = Vec::new();
    let mut i: usize = 0;
    proof {
        assert(buff@.skip(0) =~= buff@);
        assert(Seq::<u8>::empty() + utf16le_to_utf8_seq(buff@) =~= utf16le_to_utf8_seq(buff@));
    }
    while i < len
        invariant
            i <= len,
            i % 2 == 0,
            len % 2 == 0,
            len == buff@.len(),
            buff@ == old(buff)@,
            out@.len() <= 3 * i,
            utf16le_to_utf8_seq(buff@) == out@ + utf16le_to_utf8_seq(buff@.skip(i as int)),
        decreases len - i,
    {
        let ghost out0 = out@;
        let c: u32 = buff[i] as u32 + 256 * (buff[i + 1] as u32);
        proof {
            let rest = buff@.skip(i as int);
            assert(rest.len() >= 2);
            assert(rest[0] == buff@[i as int] && rest[1] == buff@[i + 1]);
            assert(rest.skip(2) =~= buff@.skip(i + 2));
            assert(c & 0x3F <= 0x3F && (c >> 6) & 0x3F <= 0x3F && (c <= 0x7FF ==> c >> 6 <= 0x1F)
                && (c <= 0xFFFF ==> c >> 12 <= 0xF)) by (bit_vector);
        }
        if c <= 0x7F {
            out.push(c as u8);
        } else if c <= 0x7FF {
            out.push((0xC0u32 | (c >> 6)) as u8);
            out.push((0x80u32 | (c & 0x3F)) as u8);
        } else {
            out.push((0xE0u32 | (c >> 12)) as u8);
            out.push((0x80u32 | ((c >> 6) & 0x3F)) as u8);
            out.push((0x80u32 | (c & 0x3F)) as u8);
        }
        proof {
            assert(out@ =~= out0 + utf16_unit_to_utf8(c));
            assert(utf16le_to_utf8_seq(buff@.skip(i as int)) == utf16_unit_to_utf8(c)
                + utf16le_to_utf8_seq(buff@.skip(i + 2)));
            assert(utf16le_to_utf8_seq(buff@) == out@ + utf16le_to_utf8_seq(buff@.skip(i + 2)));
        }
        i = i + 2;
    }
    proof {
        assert(buff@.skip(len as int) =~= Seq::<u8>::empty());
        assert(out@ + utf16le_to_utf8_seq(buff@.skip(len as int)) =~= out@);
        assert(out@ == utf16le_to_utf8_seq(buff@));
    }
    let j = out.len();
    if j > len {
        return Err("Output buffer too small");
    }
    let mut k: usize = 0;
    while k < j
        invariant
            k <= j,
            j <= len,
            j == out@.len(),
            len == buff@.len(),
            forall|m: int| 0 <= m < k ==> buff@[m] == out@[m],
            forall|m: int| k <= m < len ==> buff@[m] == old(buff)@[m],
        decreases j - k,
    {
        let b = out[k];
        buff.set(k, b);
        k = k + 1;
    }
    proof {
        assert(buff@ =~= out@ + old(buff)@.skip(j as int));
    }
    Ok(j)
}

/// Converts UTF-16LE bytes to UTF-8 in place and truncates the buffer to
/// the converted length. The caller must have ruled the failure cases out.
pub fn utf16le_to_utf8_inplace(utf16le: &mut Vec<u8>)
    requires
        old(utf16le)@.len() % 2 == 0,
        utf16le_to_utf8_seq(old(utf16le)@).len() <= old(utf16le)@.len(),
    ensures
        final(utf16le)@ == utf16le_to_utf8_seq(old(utf16le)@),
{
    let r = utf16le_to_utf8_arr_inplace(utf16le);
    match r {
        Ok(len) => {
            utf16le.truncate(len);
            proof {
                assert(utf16le@ =~= utf16le_to_utf8_seq(old(utf16le)@));
            }
        },
        Err(_) => {
            proof {
                assert(false);
            }
        },
    }
}

/// What flate2's zlib decoder yields for a byte sequence: `Some` with the
/// inflated bytes exactly on the streams it accepts.
pub uninterp spec fn zlib_inflate(s: Seq<u8>) -> Option<Seq<u8>>;

/// Relies on flate2::read::ZlibDecoder: inflates a zlib-wrapped deflate
/// stream; the result depends on the input bytes alone. `out_size` only
/// pre-sizes the output allocation.
#[verifier::external_body]
pub fn zlib_decompress(in_data: &[u8], out_size: usize) -> (r: Option<Vec<u8>>)
    ensures
        match r {
            Some(v) => zlib_inflate(in_data@) == Some(v@),
            None => zlib_inflate(in_data@) is None,
        },
{
    let mut decoder = flate2::read::ZlibDecoder::new(in_data);
    let mut output = Vec::with_capacity(out_size);
    std::io::Read::read_to_end(&mut decoder, &mut output).map_or(None, |_| Some(output))
}

/// Relies on String::push_str: appends the characters of `suffix`.
#[verifier::external_body]
pub(crate) fn string_push_str(s: &mut String, suffix: &str)
    ensures
        final(s)@ == old(s)@ + suffix@,
{
    s.push_str(suffix)
}

/// Relies on String::from_utf8: succeeds exactly on valid UTF-8, yielding
/// the decoded characters.
#[verifier::external_body]
fn string_from_utf8(bytes: Vec<u8>) -> (r: Option<String>)
    ensures
        match r {
            Some(s) => vstd::utf8::valid_utf8(bytes@) && s@ == vstd::utf8::decode_utf8(bytes@),
            None => !vstd::utf8::valid_utf8(bytes@),
        },
{
    String::from_utf8(bytes).ok()
}

/// A null-terminated byte string is well formed when it is non-empty, only
/// its last byte is null, and the content before the null is valid UTF-8.
pub open spec fn cstr_utf8_ok(bytes: Seq<u8>) -> bool {
    &&& bytes.len() >= 1
    &&& bytes[bytes.len() - 1] == 0
    &&& forall|k: int| 0 <= k < bytes.len() - 1 ==> bytes[k] != 0
    &&& vstd::utf8::valid_utf8(bytes.take(bytes.len() - 1))
}

/// The characters of a well-formed null-terminated byte string.
pub open spec fn cstr_utf8_chars(bytes: Seq<u8>) -> Seq<char>
    recommends
        cstr_utf8_ok(bytes),
{
    vstd::utf8::decode_utf8(bytes.take(bytes.len() - 1))
}

/// Decodes a null-terminated UTF-8 byte string, as the archive format
/// stores its names; fails when the bytes are not well formed.
pub fn cstr_to_string(bytes: Vec<u8>) -> (r: Option<String>)
    ensures
        cstr_utf8_ok(bytes@) ==> (r matches Some(s) && s@ == cstr_utf8_chars(bytes@)),
        !cstr_utf8_ok(bytes@) ==> r is None,
{
    let n = bytes.len();
    if n == 0 {
        return None;
    }
    if bytes[n - 1] != 0 {
        return None;
    }
    let mut i: usize = 0;
    while i < n - 1
        invariant
            i <= n - 1,
            n == bytes@.len(),
            forall|k: int| 0 <= k < i ==> bytes@[k] != 0,
        decreases n - 1 - i,
    {
        if bytes[i] == 0 {
            return None;
        }
        i = i + 1;
    }
    let mut content = bytes;
    content.truncate(n - 1);
    string_from_utf8(content)
}

} // verus!
