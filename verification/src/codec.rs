//! The directory-file codec: the fixed-size records of the format and the
//! nested string table that carries one entry per packed file.
//!
//! The directory tree is three levels of NUL-terminated strings — extension,
//! then path, then file name — each level closed by an empty string, with an
//! entry record right after each file name and one extra NUL closing the
//! whole tree.

use vstd::prelude::*;
use vstd::string::StrSliceExecFns;
use crate::bytes::{
    le_bytes, le_val, lemma_le_bytes_len, lemma_le_val_of_bytes, pow256,
    push_u128, push_u16, push_u32, read_u128, read_u16, read_u32, u128_le, u16_le, u32_le,
};
use crate::strings::push_char;

verus! {

/// Signature a directory file must open with.
pub const VPK2_SIGNATURE: u32 = 0x55AA1234;

/// The only format version this codec speaks.
pub const VPK2_VERSION: u32 = 2;

/// Entry field marking a blob stored in the directory file itself.
pub const VPK2_SPECIAL_INDEX: u16 = 0x7FFF;

/// Every entry record ends in this terminator.
pub const VPK2_ENTRY_TERMINATOR: u16 = 0xFFFF;

/// Size of the header on disk.
pub const VPK2_HEADER_SIZE: usize = 28;

/// Size of an entry record on disk.  The natural in-memory layout of the
/// record is twenty bytes — three 16-bit fields trailing 32-bit fields pick
/// up two bytes of padding — and the disk form trims that padding.
pub const VPK2_ENTRY_DISK_SIZE: usize = 18;

/// Size an entry record occupies in memory, padding included; the write
/// cursor reconstruction on load counts entries at this width.
pub const VPK2_ENTRY_MEM_SIZE: usize = 20;

/// Size of the checksum-of-checksums record on disk.
pub const VPK2_MD5_SIZE: usize = 48;

/// Size of one external-checksum record on disk.
pub const VPK2_EXTERNAL_MD5_ENTRY_SIZE: usize = 28;

/// Header of a directory file.
#[derive(Clone, Copy, Debug, PartialEq, Eq, Structural)]
pub struct Vpk2Header {
    /// Must equal `VPK2_SIGNATURE`.
    pub signature: u32,
    /// Must equal `VPK2_VERSION`.
    pub version: u32,
    /// Size of the serialized directory tree.
    pub tree_size: u32,
    /// Size of file data stored inline in the directory file.
    pub file_data_size: u32,
    /// Size of the external-checksum section.
    pub external_md5_size: u32,
    /// Size of the checksum-of-checksums section.
    pub md5_size: u32,
    /// Size of the signature section.
    pub signature_size: u32,
}

/// A fresh header: correct signature and version, empty tree, and room
/// for the checksum-of-checksums record.
pub open spec fn header_default() -> Vpk2Header {
    Vpk2Header {
        signature: VPK2_SIGNATURE,
        version: VPK2_VERSION,
        tree_size: 0,
        file_data_size: 0,
        external_md5_size: 0,
        md5_size: VPK2_MD5_SIZE as u32,
        signature_size: 0,
    }
}

impl Default for Vpk2Header {
    /// A fresh header: correct signature and version, empty tree, and room
    /// for the checksum-of-checksums record.
    fn default() -> (r: Vpk2Header)
        ensures
            r == header_default(),
            r == (Vpk2Header {
                signature: VPK2_SIGNATURE,
                version: VPK2_VERSION,
                tree_size: 0,
                file_data_size: 0,
                external_md5_size: 0,
                md5_size: VPK2_MD5_SIZE as u32,
                signature_size: 0,
            }),
    {
        Vpk2Header {
            signature: VPK2_SIGNATURE,
            version: VPK2_VERSION,
            tree_size: 0,
            file_data_size: 0,
            external_md5_size: 0,
            md5_size: VPK2_MD5_SIZE as u32,
            signature_size: 0,
        }
    }
}

impl Vpk2Header {
    /// Whether the header opens with the format signature.
    pub fn is_valid(&self) -> (r: bool)
        ensures
            r == (self.signature == VPK2_SIGNATURE),
    {
        self.signature == VPK2_SIGNATURE
    }

    /// Whether the header names the format version this codec speaks.
    pub fn is_correct_version(&self) -> (r: bool)
        ensures
            r == (self.version == VPK2_VERSION),
    {
        self.version == VPK2_VERSION
    }
}

/// One packed file's location inside the archive.
#[derive(Clone, Copy, Debug, PartialEq, Eq, Structural)]
pub struct Vpk2DirectoryEntry {
    /// Checksum of the blob, stamped at write time.
    pub crc: u32,
    /// Bytes of the blob inlined in the directory file; unused here.
    pub preload_size: u16,
    /// Which chunk file holds the blob, or `VPK2_SPECIAL_INDEX` for the
    /// directory file itself.
    pub archive_index: u16,
    /// Byte offset of the blob within its chunk.
    pub offset: u32,
    /// Byte length of the blob.
    pub length: u32,
    /// Must equal `VPK2_ENTRY_TERMINATOR`.
    pub terminator: u16,
}

impl Default for Vpk2DirectoryEntry {
    /// A blank entry bound to chunk zero, correctly terminated.
    fn default() -> (r: Vpk2DirectoryEntry)
        ensures
            r == (Vpk2DirectoryEntry {
                crc: 0,
                preload_size: 0,
                archive_index: 0,
                offset: 0,
                length: 0,
                terminator: VPK2_ENTRY_TERMINATOR,
            }),
    {
        Vpk2DirectoryEntry {
            crc: 0,
            preload_size: 0,
            archive_index: 0,
            offset: 0,
            length: 0,
            terminator: VPK2_ENTRY_TERMINATOR,
        }
    }
}

/// One record of the external-checksum section.
#[derive(Clone, Copy, Debug, PartialEq, Eq, Structural)]
pub struct Vpk2ExternalMd5Entry {
    /// Which chunk the checked range lives in.
    pub archive_index: u32,
    /// Where the checked range starts.
    pub starting_offset: u32,
    /// How many bytes are checked.
    pub count: u32,
    /// The 128-bit hash of the range.
    pub md5: u128,
}

/// An all-zero checksum-of-checksums record.
pub open spec fn md5_default() -> Vpk2Md5 {
    Vpk2Md5 { tree_md5: 0, external_md5_md5: 0, unknown: 0 }
}

/// The checksum-of-checksums record at the tail of the directory file.
#[derive(Clone, Copy, Debug, PartialEq, Eq, Structural)]
pub struct Vpk2Md5 {
    /// Hash of the directory tree.
    pub tree_md5: u128,
    /// Hash of the external-checksum section.
    pub external_md5_md5: u128,
    /// Meaning unknown; carried through as found.
    pub unknown: u128,
}

impl Default for Vpk2Md5 {
    fn default() -> (r: Vpk2Md5)
        ensures
            r == md5_default(),
    {
        Vpk2Md5 { tree_md5: 0, external_md5_md5: 0, unknown: 0 }
    }
}

/// The disk form of a header.
pub open spec fn header_bytes(h: Vpk2Header) -> Seq<u8> {
    u32_le(h.signature) + u32_le(h.version) + u32_le(h.tree_size) + u32_le(h.file_data_size)
        + u32_le(h.external_md5_size) + u32_le(h.md5_size) + u32_le(h.signature_size)
}

/// The header a byte range denotes.
pub open spec fn header_of_bytes(s: Seq<u8>) -> Vpk2Header {
    Vpk2Header {
        signature: le_val(s.subrange(0, 4)) as u32,
        version: le_val(s.subrange(4, 8)) as u32,
        tree_size: le_val(s.subrange(8, 12)) as u32,
        file_data_size: le_val(s.subrange(12, 16)) as u32,
        external_md5_size: le_val(s.subrange(16, 20)) as u32,
        md5_size: le_val(s.subrange(20, 24)) as u32,
        signature_size: le_val(s.subrange(24, 28)) as u32,
    }
}

/// The disk form of an entry record: the five leading fields and the
/// terminator, with no padding.
pub open spec fn entry_bytes(e: Vpk2DirectoryEntry) -> Seq<u8> {
    u32_le(e.crc) + u16_le(e.preload_size) + u16_le(e.archive_index) + u32_le(e.offset) + u32_le(
        e.length,
    ) + u16_le(e.terminator)
}

/// The entry record a byte range denotes.
pub open spec fn entry_of_bytes(s: Seq<u8>) -> Vpk2DirectoryEntry {
    Vpk2DirectoryEntry {
        crc: le_val(s.subrange(0, 4)) as u32,
        preload_size: le_val(s.subrange(4, 6)) as u16,
        archive_index: le_val(s.subrange(6, 8)) as u16,
        offset: le_val(s.subrange(8, 12)) as u32,
        length: le_val(s.subrange(12, 16)) as u32,
        terminator: le_val(s.subrange(16, 18)) as u16,
    }
}

/// The disk form of the checksum-of-checksums record.
pub open spec fn md5_bytes(m: Vpk2Md5) -> Seq<u8> {
    u128_le(m.tree_md5) + u128_le(m.external_md5_md5) + u128_le(m.unknown)
}

/// The checksum-of-checksums record a byte range denotes.
pub open spec fn md5_of_bytes(s: Seq<u8>) -> Vpk2Md5 {
    Vpk2Md5 {
        tree_md5: le_val(s.subrange(0, 16)) as u128,
        external_md5_md5: le_val(s.subrange(16, 32)) as u128,
        unknown: le_val(s.subrange(32, 48)) as u128,
    }
}

/// The external-checksum record a byte range denotes.
pub open spec fn external_md5_of_bytes(s: Seq<u8>) -> Vpk2ExternalMd5Entry {
    Vpk2ExternalMd5Entry {
        archive_index: le_val(s.subrange(0, 4)) as u32,
        starting_offset: le_val(s.subrange(4, 8)) as u32,
        count: le_val(s.subrange(8, 12)) as u32,
        md5: le_val(s.subrange(12, 28)) as u128,
    }
}

proof fn lemma_le_widths()
    ensures
        forall|x: u16| (#[trigger] u16_le(x)).len() == 2,
        forall|x: u32| (#[trigger] u32_le(x)).len() == 4,
        forall|x: u128| (#[trigger] u128_le(x)).len() == 16,
        forall|x: u16| le_val(#[trigger] u16_le(x)) == x as nat,
        forall|x: u32| le_val(#[trigger] u32_le(x)) == x as nat,
        forall|x: u128| le_val(#[trigger] u128_le(x)) == x as nat,
{
    assert forall|x: u16| (#[trigger] u16_le(x)).len() == 2 && le_val(u16_le(x)) == x as nat by {
        lemma_le_bytes_len(x as nat, 2);
        reveal_with_fuel(pow256, 3);
        lemma_le_val_of_bytes(x as nat, 2);
    }
    assert forall|x: u32| (#[trigger] u32_le(x)).len() == 4 && le_val(u32_le(x)) == x as nat by {
        lemma_le_bytes_len(x as nat, 4);
        reveal_with_fuel(pow256, 5);
        lemma_le_val_of_bytes(x as nat, 4);
    }
    assert forall|x: u128| (#[trigger] u128_le(x)).len() == 16 && le_val(u128_le(x)) == x as nat
        by {
        lemma_le_bytes_len(x as nat, 16);
        crate::bytes::lemma_pow256_16();
        lemma_le_val_of_bytes(x as nat, 16);
    }
}

/// The disk form of an entry decodes back to the entry.
pub proof fn lemma_entry_roundtrip(e: Vpk2DirectoryEntry)
    ensures
        entry_bytes(e).len() == VPK2_ENTRY_DISK_SIZE,
        entry_of_bytes(entry_bytes(e)) == e,
{
    lemma_le_widths();
    let s = entry_bytes(e);
    assert(s.subrange(0, 4) =~= u32_le(e.crc));
    assert(s.subrange(4, 6) =~= u16_le(e.preload_size));
    assert(s.subrange(6, 8) =~= u16_le(e.archive_index));
    assert(s.subrange(8, 12) =~= u32_le(e.offset));
    assert(s.subrange(12, 16) =~= u32_le(e.length));
    assert(s.subrange(16, 18) =~= u16_le(e.terminator));
}

/// The disk form of a header decodes back to the header.
pub proof fn lemma_header_roundtrip(h: Vpk2Header)
    ensures
        header_bytes(h).len() == VPK2_HEADER_SIZE,
        header_of_bytes(header_bytes(h)) == h,
{
    lemma_le_widths();
    let s = header_bytes(h);
    assert(s.subrange(0, 4) =~= u32_le(h.signature));
    assert(s.subrange(4, 8) =~= u32_le(h.version));
    assert(s.subrange(8, 12) =~= u32_le(h.tree_size));
    assert(s.subrange(12, 16) =~= u32_le(h.file_data_size));
    assert(s.subrange(16, 20) =~= u32_le(h.external_md5_size));
    assert(s.subrange(20, 24) =~= u32_le(h.md5_size));
    assert(s.subrange(24, 28) =~= u32_le(h.signature_size));
}

/// Appends the disk form of a header.
pub fn push_header(v: &mut Vec<u8>, h: &Vpk2Header)
    ensures
        final(v)@ == old(v)@ + header_bytes(*h),
{
    push_u32(v, h.signature);
    push_u32(v, h.version);
    push_u32(v, h.tree_size);
    push_u32(v, h.file_data_size);
    push_u32(v, h.external_md5_size);
    push_u32(v, h.md5_size);
    push_u32(v, h.signature_size);
    proof {
        assert(v@ =~= old(v)@ + header_bytes(*h));
    }
}

/// Reads the header record at `off`.
pub fn parse_header(buf: &[u8], off: usize) -> (r: Vpk2Header)
    requires
        off + VPK2_HEADER_SIZE <= buf@.len(),
    ensures
        r == header_of_bytes(buf@.subrange(off as int, off + VPK2_HEADER_SIZE)),
{
    let slice_len: usize = buf.len();
    let ghost s = buf@.subrange(off as int, off + VPK2_HEADER_SIZE);
    let signature = read_u32(buf, off);
    let version = read_u32(buf, off + 4);
    let tree_size = read_u32(buf, off + 8);
    let file_data_size = read_u32(buf, off + 12);
    let external_md5_size = read_u32(buf, off + 16);
    let md5_size = read_u32(buf, off + 20);
    let signature_size = read_u32(buf, off + 24);
    proof {
        assert(buf@.subrange(off + 0, off + 4) =~= s.subrange(0, 4));
        assert(buf@.subrange(off + 4, off + 8) =~= s.subrange(4, 8));
        assert(buf@.subrange(off + 8, off + 12) =~= s.subrange(8, 12));
        assert(buf@.subrange(off + 12, off + 16) =~= s.subrange(12, 16));
        assert(buf@.subrange(off + 16, off + 20) =~= s.subrange(16, 20));
        assert(buf@.subrange(off + 20, off + 24) =~= s.subrange(20, 24));
        assert(buf@.subrange(off + 24, off + 28) =~= s.subrange(24, 28));
    }
    Vpk2Header {
        signature,
        version,
        tree_size,
        file_data_size,
        external_md5_size,
        md5_size,
        signature_size,
    }
}

/// Appends the disk form of an entry record.
pub fn push_entry(v: &mut Vec<u8>, e: &Vpk2DirectoryEntry)
    ensures
        final(v)@ == old(v)@ + entry_bytes(*e),
{
    push_u32(v, e.crc);
    push_u16(v, e.preload_size);
    push_u16(v, e.archive_index);
    push_u32(v, e.offset);
    push_u32(v, e.length);
    push_u16(v, e.terminator);
    proof {
        assert(v@ =~= old(v)@ + entry_bytes(*e));
    }
}

/// Reads the entry record at `off`.
pub fn parse_entry(buf: &[u8], off: usize) -> (r: Vpk2DirectoryEntry)
    requires
        off + VPK2_ENTRY_DISK_SIZE <= buf@.len(),
    ensures
        r == entry_of_bytes(buf@.subrange(off as int, off + VPK2_ENTRY_DISK_SIZE)),
{
    let slice_len: usize = buf.len();
    let ghost s = buf@.subrange(off as int, off + VPK2_ENTRY_DISK_SIZE);
    let crc = read_u32(buf, off);
    let preload_size = read_u16(buf, off + 4);
    let archive_index = read_u16(buf, off + 6);
    let offset = read_u32(buf, off + 8);
    let length = read_u32(buf, off + 12);
    let terminator = read_u16(buf, off + 16);
    proof {
        assert(buf@.subrange(off + 0, off + 4) =~= s.subrange(0, 4));
        assert(buf@.subrange(off + 4, off + 6) =~= s.subrange(4, 6));
        assert(buf@.subrange(off + 6, off + 8) =~= s.subrange(6, 8));
        assert(buf@.subrange(off + 8, off + 12) =~= s.subrange(8, 12));
        assert(buf@.subrange(off + 12, off + 16) =~= s.subrange(12, 16));
        assert(buf@.subrange(off + 16, off + 18) =~= s.subrange(16, 18));
    }
    Vpk2DirectoryEntry { crc, preload_size, archive_index, offset, length, terminator }
}

/// Appends the disk form of the checksum-of-checksums record.
pub fn push_md5(v: &mut Vec<u8>, m: &Vpk2Md5)
    ensures
        final(v)@ == old(v)@ + md5_bytes(*m),
{
    push_u128(v, m.tree_md5);
    push_u128(v, m.external_md5_md5);
    push_u128(v, m.unknown);
    proof {
        assert(v@ =~= old(v)@ + md5_bytes(*m));
    }
}

/// Reads the checksum-of-checksums record at `off`.
pub fn parse_md5(buf: &[u8], off: usize) -> (r: Vpk2Md5)
    requires
        off + VPK2_MD5_SIZE <= buf@.len(),
    ensures
        r == md5_of_bytes(buf@.subrange(off as int, off + VPK2_MD5_SIZE)),
{
    let slice_len: usize = buf.len();
    let ghost s = buf@.subrange(off as int, off + VPK2_MD5_SIZE);
    let tree_md5 = read_u128(buf, off);
    let external_md5_md5 = read_u128(buf, off + 16);
    let unknown = read_u128(buf, off + 32);
    proof {
        assert(buf@.subrange(off + 0, off + 16) =~= s.subrange(0, 16));
        assert(buf@.subrange(off + 16, off + 32) =~= s.subrange(16, 32));
        assert(buf@.subrange(off + 32, off + 48) =~= s.subrange(32, 48));
    }
    Vpk2Md5 { tree_md5, external_md5_md5, unknown }
}

/// Reads the external-checksum record at `off`.
pub fn parse_external_md5(buf: &[u8], off: usize) -> (r: Vpk2ExternalMd5Entry)
    requires
        off + VPK2_EXTERNAL_MD5_ENTRY_SIZE <= buf@.len(),
    ensures
        r == external_md5_of_bytes(
            buf@.subrange(off as int, off + VPK2_EXTERNAL_MD5_ENTRY_SIZE),
        ),
{
    let slice_len: usize = buf.len();
    let ghost s = buf@.subrange(off as int, off + VPK2_EXTERNAL_MD5_ENTRY_SIZE);
    let archive_index = read_u32(buf, off);
    let starting_offset = read_u32(buf, off + 4);
    let count = read_u32(buf, off + 8);
    let md5 = read_u128(buf, off + 12);
    proof {
        assert(buf@.subrange(off + 0, off + 4) =~= s.subrange(0, 4));
        assert(buf@.subrange(off + 4, off + 8) =~= s.subrange(4, 8));
        assert(buf@.subrange(off + 8, off + 12) =~= s.subrange(8, 12));
        assert(buf@.subrange(off + 12, off + 28) =~= s.subrange(12, 28));
    }
    Vpk2ExternalMd5Entry { archive_index, starting_offset, count, md5 }
}

} // verus!

// ---------------------------------------------------------------------------
// NUL-terminated strings
// ---------------------------------------------------------------------------

verus! {

/// The bytes of a tree string: one byte per character.
pub open spec fn str_bytes(s: Seq<char>) -> Seq<u8> {
    Seq::new(s.len(), |i: int| s[i] as u8)
}

/// A tree string as stored: its bytes and the NUL that closes it.
pub open spec fn cstr_bytes(s: Seq<char>) -> Seq<u8> {
    str_bytes(s) + seq![0u8]
}

/// A character that can live in a tree string: printable seven-bit, so it
/// maps to one non-NUL byte and back.
pub open spec fn char_ok(c: char) -> bool {
    c as u32 > 0 && (c as u32) < 128
}

/// A seven-bit character maps to one non-NUL byte and back unchanged.
pub proof fn lemma_char_byte_roundtrip(c: char)
    requires
        char_ok(c),
    ensures
        c as u8 != 0,
        (c as u8) as char == c,
        (c as u8) as u32 == c as u32,
{
}

/// What a string must look like to survive the trip through the tree:
/// non-empty, and every character a printable seven-bit one, so that no
/// character collides with the NUL framing and each maps to one byte.
pub open spec fn tree_str_ok(s: Seq<char>) -> bool {
    s.len() > 0 && (forall|i: int| 0 <= i < s.len() ==> char_ok(#[trigger] s[i]))
}

/// Reading a NUL-terminated string at `off`: the characters before the
/// first NUL and the position right after it, or nothing when the buffer
/// ends first.
pub open spec fn spec_parse_cstr(buf: Seq<u8>, off: int) -> Option<(Seq<char>, int)>
    decreases buf.len() - off,
{
    if off < 0 || off >= buf.len() {
        None
    } else if buf[off] == 0 {
        Some((Seq::empty(), off + 1))
    } else {
        match spec_parse_cstr(buf, off + 1) {
            None => None,
            Some((s, end)) => Some((seq![buf[off] as char] + s, end)),
        }
    }
}

/// A parsed string sits inside the buffer and ends past where it began.
pub proof fn lemma_parse_cstr_advances(buf: Seq<u8>, off: int)
    ensures
        match spec_parse_cstr(buf, off) {
            Some((s, end)) => off < end <= buf.len() && end == off + s.len() + 1,
            None => true,
        },
    decreases buf.len() - off,
{
    if 0 <= off < buf.len() && buf[off] != 0 {
        lemma_parse_cstr_advances(buf, off + 1);
    }
}

/// Parsing right after an emitted string finds exactly that string.
pub proof fn lemma_parse_cstr_emit(pre: Seq<u8>, s: Seq<char>, rest: Seq<u8>)
    requires
        forall|i: int| 0 <= i < s.len() ==> char_ok(#[trigger] s[i]),
    ensures
        spec_parse_cstr(pre + cstr_bytes(s) + rest, pre.len() as int) == Some((
            s,
            pre.len() + s.len() + 1 as int,
        )),
    decreases s.len(),
{
    let buf = pre + cstr_bytes(s) + rest;
    if s.len() == 0 {
        assert(buf[pre.len() as int] == 0);
    } else {
        let pre2 = pre + seq![s[0] as u8];
        let s2 = s.drop_first();
        assert(buf =~= pre2 + cstr_bytes(s2) + rest);
        lemma_parse_cstr_emit(pre2, s2, rest);
        assert(char_ok(s[0]));
        lemma_char_byte_roundtrip(s[0]);
        assert(buf[pre.len() as int] == s[0] as u8);
        assert(spec_parse_cstr(buf, pre.len() as int) == Some((
            seq![s[0]] + s2,
            pre.len() + s.len() + 1 as int,
        )));
        assert(seq![s[0]] + s2 =~= s);
    }
}

/// Reads the NUL-terminated string at `off`.
pub fn parse_cstr(buf: &[u8], off: usize) -> (r: Option<(String, usize)>)
    ensures
        match r {
            Some((s, end)) => spec_parse_cstr(buf@, off as int) == Some((s@, end as int)),
            None => spec_parse_cstr(buf@, off as int) is None,
        },
{
    let n: usize = buf.len();
    if off >= n {
        return None;
    }
    let mut acc = String::new();
    let mut cur: usize = off;
    loop
        invariant
            off <= cur <= n,
            n == buf@.len(),
            spec_parse_cstr(buf@, off as int) == prepend_parsed(
                acc@,
                spec_parse_cstr(buf@, cur as int),
            ),
        decreases n - cur,
    {
        if cur >= n {
            return None;
        }
        let b = buf[cur];
        if b == 0 {
            return Some((acc, cur + 1));
        }
        let ghost accpre = acc@;
        push_char(&mut acc, b as char);
        proof {
            assert(spec_parse_cstr(buf@, cur as int) == prepend_parsed(
                seq![b as char],
                spec_parse_cstr(buf@, cur + 1),
            ));
            assert(accpre + seq![b as char] =~= acc@);
            lemma_prepend_parsed_assoc(accpre, seq![b as char], spec_parse_cstr(buf@, cur + 1));
        }
        cur = cur + 1;
    }
}

/// `r` with `pre` put before its parsed items.
pub open spec fn prepend_parsed<A>(pre: Seq<A>, r: Option<(Seq<A>, int)>) -> Option<(Seq<A>, int)> {
    match r {
        None => None,
        Some((s, e)) => Some((pre + s, e)),
    }
}

proof fn lemma_prepend_parsed_assoc<A>(a: Seq<A>, b: Seq<A>, r: Option<(Seq<A>, int)>)
    ensures
        prepend_parsed(a, prepend_parsed(b, r)) == prepend_parsed(a + b, r),
{
    match r {
        None => {},
        Some((s, e)) => {
            assert(a + (b + s) =~= (a + b) + s);
        },
    }
}

/// Appends a string and its closing NUL.
pub fn emit_cstr(v: &mut Vec<u8>, s: &String)
    ensures
        final(v)@ == old(v)@ + cstr_bytes(s@),
{
    let n = s.as_str().unicode_len();
    let mut i: usize = 0;
    while i < n
        invariant
            i <= n,
            n == s@.len(),
            v@ =~= old(v)@ + str_bytes(s@.subrange(0, i as int)),
        decreases n - i,
    {
        let c = s.as_str().get_char(i);
        v.push(c as u8);
        proof {
            assert(v@ =~= old(v)@ + str_bytes(s@.subrange(0, i + 1)));
        }
        i = i + 1;
    }
    v.push(0u8);
    proof {
        assert(s@.subrange(0, s@.len() as int) =~= s@);
        assert(v@ =~= old(v)@ + cstr_bytes(s@));
    }
}

} // verus!

// ---------------------------------------------------------------------------
// The directory tree: extension -> path -> file name -> entry
// ---------------------------------------------------------------------------

verus! {

/// The name level of a grouped tree, seen as mathematical values.
pub open spec fn nview(ns: Seq<(String, Vpk2DirectoryEntry)>) -> Seq<
    (Seq<char>, Vpk2DirectoryEntry),
> {
    Seq::new(ns.len(), |i: int| (ns[i].0@, ns[i].1))
}

/// The path level of a grouped tree, seen as mathematical values.
pub open spec fn dview(ds: Seq<(String, Vec<(String, Vpk2DirectoryEntry)>)>) -> Seq<
    (Seq<char>, Seq<(Seq<char>, Vpk2DirectoryEntry)>),
> {
    Seq::new(ds.len(), |i: int| (ds[i].0@, nview(ds[i].1@)))
}

/// The extension level of a grouped tree, seen as mathematical values.
pub open spec fn eview(
    es: Seq<(String, Vec<(String, Vec<(String, Vpk2DirectoryEntry)>)>)>,
) -> Seq<(Seq<char>, Seq<(Seq<char>, Seq<(Seq<char>, Vpk2DirectoryEntry)>)>)> {
    Seq::new(es.len(), |i: int| (es[i].0@, dview(es[i].1@)))
}

/// The disk form of one name level: each file name and its entry record,
/// closed by an empty string.
pub open spec fn names_bytes(ns: Seq<(Seq<char>, Vpk2DirectoryEntry)>) -> Seq<u8>
    decreases ns.len(),
{
    if ns.len() == 0 {
        seq![0u8]
    } else {
        cstr_bytes(ns[0].0) + entry_bytes(ns[0].1) + names_bytes(ns.drop_first())
    }
}

/// The disk form of one path level: each path followed by its name level,
/// closed by an empty string.
pub open spec fn dirs_bytes(ds: Seq<(Seq<char>, Seq<(Seq<char>, Vpk2DirectoryEntry)>)>) -> Seq<u8>
    decreases ds.len(),
{
    if ds.len() == 0 {
        seq![0u8]
    } else {
        cstr_bytes(ds[0].0) + names_bytes(ds[0].1) + dirs_bytes(ds.drop_first())
    }
}

/// The disk form of the whole tree: each extension followed by its path
/// level, closed by the one extra NUL that ends the tree.
pub open spec fn exts_bytes(
    es: Seq<(Seq<char>, Seq<(Seq<char>, Seq<(Seq<char>, Vpk2DirectoryEntry)>)>)>,
) -> Seq<u8>
    decreases es.len(),
{
    if es.len() == 0 {
        seq![0u8]
    } else {
        cstr_bytes(es[0].0) + dirs_bytes(es[0].1) + exts_bytes(es.drop_first())
    }
}

/// Reading one name level at `off`.
pub open spec fn spec_parse_names(buf: Seq<u8>, off: int) -> Option<
    (Seq<(Seq<char>, Vpk2DirectoryEntry)>, int),
>
    decreases buf.len() - off,
    via spec_parse_names_dec
{
    match spec_parse_cstr(buf, off) {
        None => None,
        Some((s, o2)) => {
            if s.len() == 0 {
                Some((Seq::empty(), o2))
            } else if o2 + (VPK2_ENTRY_DISK_SIZE as int) <= buf.len() {
                let e = entry_of_bytes(buf.subrange(o2, o2 + (VPK2_ENTRY_DISK_SIZE as int)));
                match spec_parse_names(buf, o2 + (VPK2_ENTRY_DISK_SIZE as int)) {
                    None => None,
                    Some((ns, end)) => Some((seq![(s, e)] + ns, end)),
                }
            } else {
                None
            }
        },
    }
}

#[via_fn]
proof fn spec_parse_names_dec(buf: Seq<u8>, off: int) {
    lemma_parse_cstr_advances(buf, off);
}

/// A parsed name level ends past where it began and inside the buffer.
pub proof fn lemma_parse_names_advances(buf: Seq<u8>, off: int)
    ensures
        match spec_parse_names(buf, off) {
            Some((ns, end)) => off < end <= buf.len(),
            None => true,
        },
    decreases buf.len() - off,
{
    lemma_parse_cstr_advances(buf, off);
    match spec_parse_cstr(buf, off) {
        None => {},
        Some((s, o2)) => {
            if s.len() != 0 && o2 + (VPK2_ENTRY_DISK_SIZE as int) <= buf.len() {
                lemma_parse_names_advances(buf, o2 + (VPK2_ENTRY_DISK_SIZE as int));
            }
        },
    }
}

/// Reading one path level at `off`.
pub open spec fn spec_parse_dirs(buf: Seq<u8>, off: int) -> Option<
    (Seq<(Seq<char>, Seq<(Seq<char>, Vpk2DirectoryEntry)>)>, int),
>
    decreases buf.len() - off,
    via spec_parse_dirs_dec
{
    match spec_parse_cstr(buf, off) {
        None => None,
        Some((s, o2)) => {
            if s.len() == 0 {
                Some((Seq::empty(), o2))
            } else {
                match spec_parse_names(buf, o2) {
                    None => None,
                    Some((ns, o3)) => match spec_parse_dirs(buf, o3) {
                        None => None,
                        Some((ds, end)) => Some((seq![(s, ns)] + ds, end)),
                    },
                }
            }
        },
    }
}

#[via_fn]
proof fn spec_parse_dirs_dec(buf: Seq<u8>, off: int) {
    lemma_parse_cstr_advances(buf, off);
    match spec_parse_cstr(buf, off) {
        None => {},
        Some((s, o2)) => {
            lemma_parse_names_advances(buf, o2);
        },
    }
}

/// A parsed path level ends past where it began and inside the buffer.
pub proof fn lemma_parse_dirs_advances(buf: Seq<u8>, off: int)
    ensures
        match spec_parse_dirs(buf, off) {
            Some((ds, end)) => off < end <= buf.len(),
            None => true,
        },
    decreases buf.len() - off,
{
    lemma_parse_cstr_advances(buf, off);
    match spec_parse_cstr(buf, off) {
        None => {},
        Some((s, o2)) => {
            if s.len() != 0 {
                lemma_parse_names_advances(buf, o2);
                match spec_parse_names(buf, o2) {
                    None => {},
                    Some((ns, o3)) => {
                        lemma_parse_dirs_advances(buf, o3);
                    },
                }
            }
        },
    }
}

/// Reading the whole tree at `off`.
pub open spec fn spec_parse_exts(buf: Seq<u8>, off: int) -> Option<
    (Seq<(Seq<char>, Seq<(Seq<char>, Seq<(Seq<char>, Vpk2DirectoryEntry)>)>)>, int),
>
    decreases buf.len() - off,
    via spec_parse_exts_dec
{
    match spec_parse_cstr(buf, off) {
        None => None,
        Some((s, o2)) => {
            if s.len() == 0 {
                Some((Seq::empty(), o2))
            } else {
                match spec_parse_dirs(buf, o2) {
                    None => None,
                    Some((ds, o3)) => match spec_parse_exts(buf, o3) {
                        None => None,
                        Some((es, end)) => Some((seq![(s, ds)] + es, end)),
                    },
                }
            }
        },
    }
}

#[via_fn]
proof fn spec_parse_exts_dec(buf: Seq<u8>, off: int) {
    lemma_parse_cstr_advances(buf, off);
    match spec_parse_cstr(buf, off) {
        None => {},
        Some((s, o2)) => {
            lemma_parse_dirs_advances(buf, o2);
        },
    }
}

/// A parsed tree ends past where it began and inside the buffer.
pub proof fn lemma_parse_exts_advances(buf: Seq<u8>, off: int)
    ensures
        match spec_parse_exts(buf, off) {
            Some((es, end)) => off < end <= buf.len(),
            None => true,
        },
    decreases buf.len() - off,
{
    lemma_parse_cstr_advances(buf, off);
    match spec_parse_cstr(buf, off) {
        None => {},
        Some((s, o2)) => {
            if s.len() != 0 {
                lemma_parse_dirs_advances(buf, o2);
                match spec_parse_dirs(buf, o2) {
                    None => {},
                    Some((ds, o3)) => {
                        lemma_parse_exts_advances(buf, o3);
                    },
                }
            }
        },
    }
}

} // verus!

// ---------------------------------------------------------------------------
// Emitting a tree reads back as the same tree
// ---------------------------------------------------------------------------

verus! {

/// A name level fit for the disk form: every file name frames correctly,
/// and no two collide.
pub open spec fn wf_names(ns: Seq<(Seq<char>, Vpk2DirectoryEntry)>) -> bool {
    &&& forall|i: int| 0 <= i < ns.len() ==> tree_str_ok((#[trigger] ns[i]).0)
    &&& forall|i: int, j: int| 0 <= i < j < ns.len() ==> (#[trigger] ns[i]).0 != (#[trigger] ns[j]).0
}

/// A path level fit for the disk form.
pub open spec fn wf_dirs(ds: Seq<(Seq<char>, Seq<(Seq<char>, Vpk2DirectoryEntry)>)>) -> bool {
    &&& forall|i: int| 0 <= i < ds.len() ==> tree_str_ok((#[trigger] ds[i]).0)
    &&& forall|i: int, j: int| 0 <= i < j < ds.len() ==> (#[trigger] ds[i]).0 != (#[trigger] ds[j]).0
    &&& forall|i: int| 0 <= i < ds.len() ==> wf_names((#[trigger] ds[i]).1)
}

/// A whole tree fit for the disk form.
pub open spec fn wf_exts(
    es: Seq<(Seq<char>, Seq<(Seq<char>, Seq<(Seq<char>, Vpk2DirectoryEntry)>)>)>,
) -> bool {
    &&& forall|i: int| 0 <= i < es.len() ==> tree_str_ok((#[trigger] es[i]).0)
    &&& forall|i: int, j: int| 0 <= i < j < es.len() ==> (#[trigger] es[i]).0 != (#[trigger] es[j]).0
    &&& forall|i: int| 0 <= i < es.len() ==> wf_dirs((#[trigger] es[i]).1)
}

/// Parsing right after an emitted name level finds exactly that level.
pub proof fn lemma_parse_names_emit(
    pre: Seq<u8>,
    ns: Seq<(Seq<char>, Vpk2DirectoryEntry)>,
    rest: Seq<u8>,
)
    requires
        forall|i: int| 0 <= i < ns.len() ==> tree_str_ok((#[trigger] ns[i]).0),
    ensures
        spec_parse_names(pre + names_bytes(ns) + rest, pre.len() as int) == Some((
            ns,
            pre.len() + names_bytes(ns).len() as int,
        )),
    decreases ns.len(),
{
    let buf = pre + names_bytes(ns) + rest;
    if ns.len() == 0 {
        assert(names_bytes(ns) =~= seq![0u8]);
        assert(buf[pre.len() as int] == 0);
        assert(spec_parse_cstr(buf, pre.len() as int) == Some((
            Seq::<char>::empty(),
            pre.len() + 1 as int,
        )));
    } else {
        let k = ns[0].0;
        let e = ns[0].1;
        let tail = ns.drop_first();
        assert(tree_str_ok(k));
        lemma_entry_roundtrip(e);
        assert(names_bytes(ns) =~= cstr_bytes(k) + entry_bytes(e) + names_bytes(tail));
        let rest2 = entry_bytes(e) + names_bytes(tail) + rest;
        assert(buf =~= pre + cstr_bytes(k) + rest2);
        lemma_parse_cstr_emit(pre, k, rest2);
        let o2 = pre.len() + k.len() + 1 as int;
        assert(spec_parse_cstr(buf, pre.len() as int) == Some((k, o2)));
        let pre2 = pre + cstr_bytes(k) + entry_bytes(e);
        assert(pre2.len() == o2 + (VPK2_ENTRY_DISK_SIZE as int));
        assert(buf =~= pre2 + names_bytes(tail) + rest);
        assert(o2 + (VPK2_ENTRY_DISK_SIZE as int) <= buf.len());
        assert(buf.subrange(o2, o2 + (VPK2_ENTRY_DISK_SIZE as int)) =~= entry_bytes(e));
        assert(entry_of_bytes(buf.subrange(o2, o2 + (VPK2_ENTRY_DISK_SIZE as int))) == e);
        assert(forall|i: int| 0 <= i < tail.len() ==> tree_str_ok((#[trigger] tail[i]).0));
        lemma_parse_names_emit(pre2, tail, rest);
        assert(spec_parse_names(buf, pre2.len() as int) == Some((
            tail,
            pre2.len() + names_bytes(tail).len() as int,
        )));
        assert(seq![(k, e)] + tail =~= ns);
        assert(pre2.len() + names_bytes(tail).len() == pre.len() + names_bytes(ns).len());
    }
}

/// Parsing right after an emitted path level finds exactly that level.
#[verifier::rlimit(80)]
pub proof fn lemma_parse_dirs_emit(
    pre: Seq<u8>,
    ds: Seq<(Seq<char>, Seq<(Seq<char>, Vpk2DirectoryEntry)>)>,
    rest: Seq<u8>,
)
    requires
        forall|i: int| 0 <= i < ds.len() ==> tree_str_ok((#[trigger] ds[i]).0),
        forall|i: int| 0 <= i < ds.len() ==> (forall|j: int|
            0 <= j < (#[trigger] ds[i]).1.len() ==> tree_str_ok((#[trigger] ds[i].1[j]).0)),
    ensures
        spec_parse_dirs(pre + dirs_bytes(ds) + rest, pre.len() as int) == Some((
            ds,
            pre.len() + dirs_bytes(ds).len() as int,
        )),
    decreases ds.len(),
{
    let buf = pre + dirs_bytes(ds) + rest;
    if ds.len() == 0 {
        assert(dirs_bytes(ds) =~= seq![0u8]);
        assert(buf[pre.len() as int] == 0);
        assert(spec_parse_cstr(buf, pre.len() as int) == Some((
            Seq::<char>::empty(),
            pre.len() + 1 as int,
        )));
    } else {
        let k = ds[0].0;
        let ns = ds[0].1;
        let tail = ds.drop_first();
        assert(tree_str_ok(k));
        assert(dirs_bytes(ds) =~= cstr_bytes(k) + names_bytes(ns) + dirs_bytes(tail));
        let rest2 = names_bytes(ns) + dirs_bytes(tail) + rest;
        assert(buf =~= pre + cstr_bytes(k) + rest2);
        lemma_parse_cstr_emit(pre, k, rest2);
        let o2 = pre.len() + k.len() + 1 as int;
        assert(spec_parse_cstr(buf, pre.len() as int) == Some((k, o2)));
        let pre2 = pre + cstr_bytes(k);
        assert(pre2.len() == o2);
        assert(buf =~= pre2 + names_bytes(ns) + (dirs_bytes(tail) + rest));
        assert(forall|j: int| 0 <= j < ns.len() ==> tree_str_ok((#[trigger] ns[j]).0));
        lemma_parse_names_emit(pre2, ns, dirs_bytes(tail) + rest);
        let o3 = o2 + names_bytes(ns).len() as int;
        assert(spec_parse_names(buf, o2) == Some((ns, o3)));
        let pre3 = pre2 + names_bytes(ns);
        assert(pre3.len() == o3);
        assert(buf =~= pre3 + dirs_bytes(tail) + rest);
        assert(forall|i: int| 0 <= i < tail.len() ==> tree_str_ok((#[trigger] tail[i]).0));
        assert(forall|i: int| 0 <= i < tail.len() ==> (forall|j: int|
            0 <= j < (#[trigger] tail[i]).1.len() ==> tree_str_ok((#[trigger] tail[i].1[j]).0)));
        lemma_parse_dirs_emit(pre3, tail, rest);
        assert(spec_parse_dirs(buf, o3) == Some((tail, o3 + dirs_bytes(tail).len() as int)));
        assert(seq![(k, ns)] + tail =~= ds);
        assert(o3 + dirs_bytes(tail).len() == pre.len() + dirs_bytes(ds).len());
    }
}

/// All strings of a tree frame correctly; the spelled-out form the nested
/// round-trip lemmas pass down.
pub open spec fn tree_strs_ok(
    es: Seq<(Seq<char>, Seq<(Seq<char>, Seq<(Seq<char>, Vpk2DirectoryEntry)>)>)>,
) -> bool {
    &&& forall|i: int| 0 <= i < es.len() ==> tree_str_ok((#[trigger] es[i]).0)
    &&& forall|i: int| 0 <= i < es.len() ==> (forall|j: int|
        0 <= j < (#[trigger] es[i]).1.len() ==> tree_str_ok((#[trigger] es[i].1[j]).0))
    &&& forall|i: int| 0 <= i < es.len() ==> (forall|j: int|
        0 <= j < (#[trigger] es[i]).1.len() ==> (forall|l: int|
            0 <= l < (#[trigger] es[i].1[j]).1.len() ==> tree_str_ok(
                (#[trigger] es[i].1[j].1[l]).0,
            )))
    }

/// Parsing right after an emitted tree finds exactly that tree: the
/// codec's round trip.
#[verifier::rlimit(80)]
pub proof fn lemma_parse_exts_emit(
    pre: Seq<u8>,
    es: Seq<(Seq<char>, Seq<(Seq<char>, Seq<(Seq<char>, Vpk2DirectoryEntry)>)>)>,
    rest: Seq<u8>,
)
    requires
        tree_strs_ok(es),
    ensures
        spec_parse_exts(pre + exts_bytes(es) + rest, pre.len() as int) == Some((
            es,
            pre.len() + exts_bytes(es).len() as int,
        )),
    decreases es.len(),
{
    let buf = pre + exts_bytes(es) + rest;
    if es.len() == 0 {
        assert(exts_bytes(es) =~= seq![0u8]);
        assert(buf[pre.len() as int] == 0);
        assert(spec_parse_cstr(buf, pre.len() as int) == Some((
            Seq::<char>::empty(),
            pre.len() + 1 as int,
        )));
    } else {
        let k = es[0].0;
        let ds = es[0].1;
        let tail = es.drop_first();
        assert(tree_str_ok(k));
        assert(exts_bytes(es) =~= cstr_bytes(k) + dirs_bytes(ds) + exts_bytes(tail));
        let rest2 = dirs_bytes(ds) + exts_bytes(tail) + rest;
        assert(buf =~= pre + cstr_bytes(k) + rest2);
        lemma_parse_cstr_emit(pre, k, rest2);
        let o2 = pre.len() + k.len() + 1 as int;
        assert(spec_parse_cstr(buf, pre.len() as int) == Some((k, o2)));
        let pre2 = pre + cstr_bytes(k);
        assert(pre2.len() == o2);
        assert(buf =~= pre2 + dirs_bytes(ds) + (exts_bytes(tail) + rest));
        assert(forall|j: int| 0 <= j < ds.len() ==> tree_str_ok((#[trigger] ds[j]).0));
        assert(forall|j: int| 0 <= j < ds.len() ==> (forall|l: int|
            0 <= l < (#[trigger] ds[j]).1.len() ==> tree_str_ok((#[trigger] ds[j].1[l]).0)));
        lemma_parse_dirs_emit(pre2, ds, exts_bytes(tail) + rest);
        let o3 = o2 + dirs_bytes(ds).len() as int;
        assert(spec_parse_dirs(buf, o2) == Some((ds, o3)));
        let pre3 = pre2 + dirs_bytes(ds);
        assert(pre3.len() == o3);
        assert(buf =~= pre3 + exts_bytes(tail) + rest);
        assert(tree_strs_ok(tail));
        lemma_parse_exts_emit(pre3, tail, rest);
        assert(spec_parse_exts(buf, o3) == Some((tail, o3 + exts_bytes(tail).len() as int)));
        assert(seq![(k, ds)] + tail =~= es);
        assert(o3 + exts_bytes(tail).len() == pre.len() + exts_bytes(es).len());
    }
}

} // verus!

// ---------------------------------------------------------------------------
// Executable tree emitter and parser
// ---------------------------------------------------------------------------

verus! {

/// Appends the disk form of one name level.
pub fn emit_names(v: &mut Vec<u8>, ns: &Vec<(String, Vpk2DirectoryEntry)>)
    ensures
        final(v)@ == old(v)@ + names_bytes(nview(ns@)),
{
    let n = ns.len();
    proof {
        assert(nview(ns@).skip(0) =~= nview(ns@));
        assert(v@.subrange(old(v)@.len() as int, v@.len() as int) =~= Seq::<u8>::empty());
        assert(names_bytes(nview(ns@)) =~= v@.subrange(old(v)@.len() as int, v@.len() as int)
            + names_bytes(nview(ns@).skip(0)));
    }
    let mut i: usize = 0;
    while i < n
        invariant
            i <= n,
            n == ns@.len(),
            names_bytes(nview(ns@)) =~= v@.subrange(old(v)@.len() as int, v@.len() as int)
                + names_bytes(nview(ns@).skip(i as int)),
            v@.subrange(0, old(v)@.len() as int) =~= old(v)@,
            v@.len() >= old(v)@.len(),
        decreases n - i,
    {
        let ghost vpre = v@;
        emit_cstr(v, &ns[i].0);
        push_entry(v, &ns[i].1);
        proof {
            let whole = nview(ns@);
            assert(whole.skip(i as int)[0] == whole[i as int]);
            assert(whole.skip(i as int).drop_first() =~= whole.skip(i + 1));
            assert(names_bytes(whole.skip(i as int)) =~= cstr_bytes(whole[i as int].0)
                + entry_bytes(whole[i as int].1) + names_bytes(whole.skip(i + 1)));
            assert(whole[i as int].0 == ns@[i as int].0@);
            assert(whole[i as int].1 == ns@[i as int].1);
            assert(v@.subrange(old(v)@.len() as int, v@.len() as int) =~= vpre.subrange(
                old(v)@.len() as int,
                vpre.len() as int,
            ) + cstr_bytes(ns@[i as int].0@) + entry_bytes(ns@[i as int].1));
            assert(names_bytes(whole) =~= v@.subrange(old(v)@.len() as int, v@.len() as int)
                + names_bytes(whole.skip(i + 1)));
            assert(v@.subrange(0, old(v)@.len() as int) =~= old(v)@);
        }
        i = i + 1;
    }
    v.push(0u8);
    proof {
        assert(nview(ns@).skip(n as int) =~= Seq::empty());
        assert(names_bytes(nview(ns@).skip(n as int)) =~= seq![0u8]);
        assert(v@ =~= old(v)@ + names_bytes(nview(ns@)));
    }
}

/// Appends the disk form of one path level.
pub fn emit_dirs(v: &mut Vec<u8>, ds: &Vec<(String, Vec<(String, Vpk2DirectoryEntry)>)>)
    ensures
        final(v)@ == old(v)@ + dirs_bytes(dview(ds@)),
{
    let n = ds.len();
    proof {
        assert(dview(ds@).skip(0) =~= dview(ds@));
        assert(v@.subrange(old(v)@.len() as int, v@.len() as int) =~= Seq::<u8>::empty());
        assert(dirs_bytes(dview(ds@)) =~= v@.subrange(old(v)@.len() as int, v@.len() as int)
            + dirs_bytes(dview(ds@).skip(0)));
    }
    let mut i: usize = 0;
    while i < n
        invariant
            i <= n,
            n == ds@.len(),
            dirs_bytes(dview(ds@)) =~= v@.subrange(old(v)@.len() as int, v@.len() as int)
                + dirs_bytes(dview(ds@).skip(i as int)),
            v@.subrange(0, old(v)@.len() as int) =~= old(v)@,
            v@.len() >= old(v)@.len(),
        decreases n - i,
    {
        let ghost vpre = v@;
        emit_cstr(v, &ds[i].0);
        emit_names(v, &ds[i].1);
        proof {
            let whole = dview(ds@);
            assert(whole.skip(i as int)[0] == whole[i as int]);
            assert(whole.skip(i as int).drop_first() =~= whole.skip(i + 1));
            assert(dirs_bytes(whole.skip(i as int)) =~= cstr_bytes(whole[i as int].0)
                + names_bytes(whole[i as int].1) + dirs_bytes(whole.skip(i + 1)));
            assert(whole[i as int].0 == ds@[i as int].0@);
            assert(whole[i as int].1 == nview(ds@[i as int].1@));
            assert(v@.subrange(old(v)@.len() as int, v@.len() as int) =~= vpre.subrange(
                old(v)@.len() as int,
                vpre.len() as int,
            ) + cstr_bytes(ds@[i as int].0@) + names_bytes(nview(ds@[i as int].1@)));
            assert(dirs_bytes(whole) =~= v@.subrange(old(v)@.len() as int, v@.len() as int)
                + dirs_bytes(whole.skip(i + 1)));
            assert(v@.subrange(0, old(v)@.len() as int) =~= old(v)@);
        }
        i = i + 1;
    }
    v.push(0u8);
    proof {
        assert(dview(ds@).skip(n as int) =~= Seq::empty());
        assert(dirs_bytes(dview(ds@).skip(n as int)) =~= seq![0u8]);
        assert(v@ =~= old(v)@ + dirs_bytes(dview(ds@)));
    }
}

/// Appends the disk form of the whole tree.
pub fn emit_exts(v: &mut Vec<u8>, es: &Vec<(String, Vec<(String, Vec<(String, Vpk2DirectoryEntry)>)>)>)
    ensures
        final(v)@ == old(v)@ + exts_bytes(eview(es@)),
{
    let n = es.len();
    proof {
        assert(eview(es@).skip(0) =~= eview(es@));
        assert(v@.subrange(old(v)@.len() as int, v@.len() as int) =~= Seq::<u8>::empty());
        assert(exts_bytes(eview(es@)) =~= v@.subrange(old(v)@.len() as int, v@.len() as int)
            + exts_bytes(eview(es@).skip(0)));
    }
    let mut i: usize = 0;
    while i < n
        invariant
            i <= n,
            n == es@.len(),
            exts_bytes(eview(es@)) =~= v@.subrange(old(v)@.len() as int, v@.len() as int)
                + exts_bytes(eview(es@).skip(i as int)),
            v@.subrange(0, old(v)@.len() as int) =~= old(v)@,
            v@.len() >= old(v)@.len(),
        decreases n - i,
    {
        let ghost vpre = v@;
        emit_cstr(v, &es[i].0);
        emit_dirs(v, &es[i].1);
        proof {
            let whole = eview(es@);
            assert(whole.skip(i as int)[0] == whole[i as int]);
            assert(whole.skip(i as int).drop_first() =~= whole.skip(i + 1));
            assert(exts_bytes(whole.skip(i as int)) =~= cstr_bytes(whole[i as int].0)
                + dirs_bytes(whole[i as int].1) + exts_bytes(whole.skip(i + 1)));
            assert(whole[i as int].0 == es@[i as int].0@);
            assert(whole[i as int].1 == dview(es@[i as int].1@));
            assert(v@.subrange(old(v)@.len() as int, v@.len() as int) =~= vpre.subrange(
                old(v)@.len() as int,
                vpre.len() as int,
            ) + cstr_bytes(es@[i as int].0@) + dirs_bytes(dview(es@[i as int].1@)));
            assert(exts_bytes(whole) =~= v@.subrange(old(v)@.len() as int, v@.len() as int)
                + exts_bytes(whole.skip(i + 1)));
            assert(v@.subrange(0, old(v)@.len() as int) =~= old(v)@);
        }
        i = i + 1;
    }
    v.push(0u8);
    proof {
        assert(eview(es@).skip(n as int) =~= Seq::empty());
        assert(exts_bytes(eview(es@).skip(n as int)) =~= seq![0u8]);
        assert(v@ =~= old(v)@ + exts_bytes(eview(es@)));
    }
}

/// Reads one name level at `off`.
pub fn parse_names(buf: &[u8], off: usize) -> (r: Option<
    (Vec<(String, Vpk2DirectoryEntry)>, usize),
>)
    ensures
        match r {
            Some((ns, end)) => spec_parse_names(buf@, off as int) == Some((
                nview(ns@),
                end as int,
            )) && end <= buf@.len(),
            None => spec_parse_names(buf@, off as int) is None,
        },
{
    let n: usize = buf.len();
    if off > n {
        return None;
    }
    let mut acc: Vec<(String, Vpk2DirectoryEntry)> = Vec::new();
    let mut cur: usize = off;
    loop
        invariant
            cur <= n,
            n == buf@.len(),
            spec_parse_names(buf@, off as int) == prepend_parsed(
                nview(acc@),
                spec_parse_names(buf@, cur as int),
            ),
        decreases n - cur,
    {
        let step = parse_cstr(buf, cur);
        match step {
            None => {
                return None;
            },
            Some((s, o2)) => {
                proof {
                    lemma_parse_cstr_advances(buf@, cur as int);
                }
                if s.as_str().unicode_len() == 0 {
                    proof {
                        assert(spec_parse_names(buf@, cur as int) == Some((
                            Seq::<(Seq<char>, Vpk2DirectoryEntry)>::empty(),
                            o2 as int,
                        )));
                        assert(nview(acc@) + Seq::<(Seq<char>, Vpk2DirectoryEntry)>::empty()
                            =~= nview(acc@));
                    }
                    return Some((acc, o2));
                }
                if n - o2 < VPK2_ENTRY_DISK_SIZE {
                    proof {
                        assert(spec_parse_names(buf@, cur as int) is None);
                    }
                    return None;
                }
                let e = parse_entry(buf, o2);
                let ghost accpre = acc@;
                acc.push((s, e));
                proof {
                    assert(spec_parse_names(buf@, cur as int) == prepend_parsed(
                        seq![(s@, e)],
                        spec_parse_names(buf@, o2 + (VPK2_ENTRY_DISK_SIZE as int)),
                    ));
                    lemma_prepend_parsed_assoc(
                        nview(accpre),
                        seq![(s@, e)],
                        spec_parse_names(buf@, o2 + (VPK2_ENTRY_DISK_SIZE as int)),
                    );
                    assert(nview(accpre) + seq![(s@, e)] =~= nview(acc@));
                }
                cur = o2 + VPK2_ENTRY_DISK_SIZE;
            },
        }
    }
}

/// Reads one path level at `off`.
pub fn parse_dirs(buf: &[u8], off: usize) -> (r: Option<
    (Vec<(String, Vec<(String, Vpk2DirectoryEntry)>)>, usize),
>)
    ensures
        match r {
            Some((ds, end)) => spec_parse_dirs(buf@, off as int) == Some((
                dview(ds@),
                end as int,
            )) && end <= buf@.len(),
            None => spec_parse_dirs(buf@, off as int) is None,
        },
{
    let n: usize = buf.len();
    if off > n {
        return None;
    }
    let mut acc: Vec<(String, Vec<(String, Vpk2DirectoryEntry)>)> = Vec::new();
    let mut cur: usize = off;
    loop
        invariant
            cur <= n,
            n == buf@.len(),
            spec_parse_dirs(buf@, off as int) == prepend_parsed(
                dview(acc@),
                spec_parse_dirs(buf@, cur as int),
            ),
        decreases n - cur,
    {
        let step = parse_cstr(buf, cur);
        match step {
            None => {
                return None;
            },
            Some((s, o2)) => {
                proof {
                    lemma_parse_cstr_advances(buf@, cur as int);
                }
                if s.as_str().unicode_len() == 0 {
                    proof {
                        assert(spec_parse_dirs(buf@, cur as int) == Some((
                            Seq::<(Seq<char>, Seq<(Seq<char>, Vpk2DirectoryEntry)>)>::empty(),
                            o2 as int,
                        )));
                        assert(dview(acc@) + Seq::<
                            (Seq<char>, Seq<(Seq<char>, Vpk2DirectoryEntry)>),
                        >::empty() =~= dview(acc@));
                    }
                    return Some((acc, o2));
                }
                let names = parse_names(buf, o2);
                match names {
                    None => {
                        proof {
                            assert(spec_parse_dirs(buf@, cur as int) is None);
                        }
                        return None;
                    },
                    Some((ns, o3)) => {
                        proof {
                            lemma_parse_names_advances(buf@, o2 as int);
                        }
                        let ghost accpre = acc@;
                        acc.push((s, ns));
                        proof {
                            assert(spec_parse_dirs(buf@, cur as int) == prepend_parsed(
                                seq![(s@, nview(acc@[acc@.len() - 1].1@))],
                                spec_parse_dirs(buf@, o3 as int),
                            ));
                            lemma_prepend_parsed_assoc(
                                dview(accpre),
                                seq![(s@, nview(acc@[acc@.len() - 1].1@))],
                                spec_parse_dirs(buf@, o3 as int),
                            );
                            assert(dview(accpre) + seq![(s@, nview(acc@[acc@.len() - 1].1@))]
                                =~= dview(acc@));
                        }
                        cur = o3;
                    },
                }
            },
        }
    }
}

/// Reads the whole tree at `off`.
pub fn parse_exts(buf: &[u8], off: usize) -> (r: Option<
    (Vec<(String, Vec<(String, Vec<(String, Vpk2DirectoryEntry)>)>)>, usize),
>)
    ensures
        match r {
            Some((es, end)) => spec_parse_exts(buf@, off as int) == Some((
                eview(es@),
                end as int,
            )) && end <= buf@.len(),
            None => spec_parse_exts(buf@, off as int) is None,
        },
{
    let n: usize = buf.len();
    if off > n {
        return None;
    }
    let mut acc: Vec<(String, Vec<(String, Vec<(String, Vpk2DirectoryEntry)>)>)> = Vec::new();
    let mut cur: usize = off;
    loop
        invariant
            cur <= n,
            n == buf@.len(),
            spec_parse_exts(buf@, off as int) == prepend_parsed(
                eview(acc@),
                spec_parse_exts(buf@, cur as int),
            ),
        decreases n - cur,
    {
        let step = parse_cstr(buf, cur);
        match step {
            None => {
                return None;
            },
            Some((s, o2)) => {
                proof {
                    lemma_parse_cstr_advances(buf@, cur as int);
                }
                if s.as_str().unicode_len() == 0 {
                    proof {
                        assert(spec_parse_exts(buf@, cur as int) == Some((
                            Seq::<
                                (
                                    Seq<char>,
                                    Seq<(Seq<char>, Seq<(Seq<char>, Vpk2DirectoryEntry)>)>,
                                ),
                            >::empty(),
                            o2 as int,
                        )));
                        assert(eview(acc@) + Seq::<
                            (Seq<char>, Seq<(Seq<char>, Seq<(Seq<char>, Vpk2DirectoryEntry)>)>),
                        >::empty() =~= eview(acc@));
                    }
                    return Some((acc, o2));
                }
                let dirs = parse_dirs(buf, o2);
                match dirs {
                    None => {
                        proof {
                            assert(spec_parse_exts(buf@, cur as int) is None);
                        }
                        return None;
                    },
                    Some((ds, o3)) => {
                        proof {
                            lemma_parse_dirs_advances(buf@, o2 as int);
                        }
                        let ghost accpre = acc@;
                        acc.push((s, ds));
                        proof {
                            assert(spec_parse_exts(buf@, cur as int) == prepend_parsed(
                                seq![(s@, dview(acc@[acc@.len() - 1].1@))],
                                spec_parse_exts(buf@, o3 as int),
                            ));
                            lemma_prepend_parsed_assoc(
                                eview(accpre),
                                seq![(s@, dview(acc@[acc@.len() - 1].1@))],
                                spec_parse_exts(buf@, o3 as int),
                            );
                            assert(eview(accpre) + seq![(s@, dview(acc@[acc@.len() - 1].1@))]
                                =~= eview(acc@));
                        }
                        cur = o3;
                    },
                }
            },
        }
    }
}

} // verus!
