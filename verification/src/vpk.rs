//! The packed-asset archive: a random-access store of named blobs behind
//! one directory file and a row of size-capped chunk files.
//!
//! The archive itself never touches a disk.  Loading takes the directory
//! file's bytes; saving yields the directory file's bytes and the name to
//! store them under; writing a blob yields the chunk file to append it to.
//! The thin shell around the crate moves those bytes; everything the
//! archive decides — the index, the write cursor, the on-disk layout — is
//! verified here.

use vstd::prelude::*;
use vstd::string::StrSliceExecFns;
use crate::codec::{
    eview, exts_bytes, header_bytes, header_of_bytes, md5_bytes, md5_of_bytes,
    external_md5_of_bytes, header_default, md5_default, nview, parse_exts, parse_external_md5, parse_header, parse_md5,
    push_header, push_md5, spec_parse_exts, emit_exts, Vpk2DirectoryEntry, Vpk2ExternalMd5Entry,
    Vpk2Header, Vpk2Md5, VPK2_ENTRY_MEM_SIZE, VPK2_EXTERNAL_MD5_ENTRY_SIZE, VPK2_HEADER_SIZE,
    VPK2_MD5_SIZE, VPK2_SIGNATURE, VPK2_VERSION, VPK2_ENTRY_TERMINATOR,
};
use crate::crc::{crc32_of, valve_crc32};
use crate::fs::{FileKind, FileType, Metadata, Permissions, DirEntry};
use crate::group::{group_index, iview, pairs_map, spec_group, spec_leaves, tree_leaves};
use crate::index::{assoc_map, index_get, index_remove, index_upsert, unique_keys};
use crate::paths::{
    archive_path_spec, archive_file_path, base_path_spec, dir_path_spec, directory_file_path,
    set_ext_vpk, set_ext_vpk_spec,
};
use crate::strings::push_char;
use crate::util::{clean_path, clean_path_spec};

verus! {

/// No chunk file grows past this many bytes.
pub const VPK2_CHUNK_MAX_SIZE: u64 = 209715200;

/// Why an archive operation could not be carried out.
#[derive(Clone, Copy, Debug, PartialEq, Eq, Structural)]
pub enum VpkError {
    /// The directory file is not this format: bad signature, wrong
    /// version, a truncated stream, or a size the format cannot state.
    FormatError,
    /// The named blob is not in the archive, or its recorded range runs
    /// past the chunk file.
    NotFound,
    /// The operation has no meaning for an archive.
    Unsupported,
    /// The archive is not bound to a path yet, so nothing can be stored.
    PermissionDenied,
    /// Stored bytes were asked for as text but are not valid text.
    InvalidData,
}

/// The archive: its identity on disk, the loaded header and checksum
/// records, the index, and the write cursor.
#[derive(Debug)]
pub struct Vpk2 {
    /// The base path the archive is addressed by; empty while unbound.
    pub real_path: String,
    /// The header, as loaded or as last finalized by a save.
    pub header: Vpk2Header,
    /// The external-checksum records, parsed on load and never recomputed.
    pub external_md5_section: Vec<Vpk2ExternalMd5Entry>,
    /// The checksum-of-checksums record, carried through as found.
    pub md5: Vpk2Md5,
    /// The index: one entry per stored blob, paths pairwise distinct.
    pub files: Vec<(String, Vpk2DirectoryEntry)>,
    /// Which chunk the next blob goes to.
    pub current_archive: u16,
    /// Where in that chunk the next blob starts.
    pub current_offset: u32,
}

/// The archive-wide maximum chunk index seen while scanning entries.
pub open spec fn load_cursor_archive(s: Seq<(Seq<char>, Vpk2DirectoryEntry)>) -> u16
    decreases s.len(),
{
    if s.len() == 0 {
        0u16
    } else {
        let pre = load_cursor_archive(s.drop_last());
        if s.last().1.archive_index > pre {
            s.last().1.archive_index
        } else {
            pre
        }
    }
}

/// The cursor offset the load scan leaves behind: the in-memory entry
/// size plus the preload size of the last entry visited.  A last-visited
/// rule, not a maximum — kept so that archives already in the field load
/// to the same cursor they always did.
pub open spec fn load_cursor_offset(s: Seq<(Seq<char>, Vpk2DirectoryEntry)>) -> u32 {
    if s.len() == 0 {
        0u32
    } else {
        (VPK2_ENTRY_MEM_SIZE + s.last().1.preload_size) as u32
    }
}

/// A stored path, as the write operation normalizes it: cleaned, and
/// with a single leading slash dropped.
pub open spec fn norm_path_spec(p: Seq<char>) -> Seq<char> {
    let c = clean_path_spec(p);
    if c.len() > 0 && c[0] == '/' {
        c.drop_first()
    } else {
        c
    }
}

/// Whether the sections after the directory tree fit in the buffer.
pub open spec fn sections_fit(b: Seq<u8>, h: Vpk2Header, tree_end: int) -> bool {
    &&& tree_end + h.file_data_size + h.external_md5_size <= b.len()
    &&& (h.md5_size >= VPK2_MD5_SIZE ==> tree_end + h.file_data_size + h.external_md5_size
        + VPK2_MD5_SIZE <= b.len())
}

/// Everything a read needs from the index: which chunk file, and the
/// byte range inside it.
#[derive(Clone, Debug)]
pub struct ReadPlan {
    /// The chunk file holding the blob.
    pub archive_path: String,
    /// Where the blob starts inside the chunk file.
    pub offset: u32,
    /// How many bytes the blob has.
    pub length: u32,
}

impl Vpk2 {
    /// The index is well formed: no path appears twice.
    pub open spec fn wf(self) -> bool {
        unique_keys(self.files@)
    }

    /// The map from stored path to entry this archive holds.
    pub open spec fn index(self) -> Map<Seq<char>, Vpk2DirectoryEntry> {
        assoc_map(self.files@)
    }

    /// A fresh, empty archive bound to `path`, with no disk behind it
    /// yet.
    pub fn create(path: &str) -> (r: Vpk2)
        ensures
            r.wf(),
            r.real_path@ == path@,
            r.index() == Map::<Seq<char>, Vpk2DirectoryEntry>::empty(),
            r.files@.len() == 0,
            r.current_archive == 0,
            r.current_offset == 0,
            r.header == header_default(),
            r.md5 == md5_default(),
            r.external_md5_section@.len() == 0,
    {
        Vpk2 {
            real_path: path.to_owned(),
            header: Vpk2Header::default(),
            external_md5_section: Vec::new(),
            md5: Vpk2Md5::default(),
            files: Vec::new(),
            current_archive: 0,
            current_offset: 0,
        }
    }

    /// Rebuilds an archive from its directory file's bytes.
    ///
    /// The header must open with the format signature (checked before any
    /// entry is parsed) and name the supported version; the tree and every
    /// section the header announces must lie inside the buffer.  Anything
    /// else is a format error that abandons the whole load.
    pub fn from_bytes(path: &str, directory: &[u8]) -> (r: Result<Vpk2, VpkError>)
        ensures
            match r {
                Ok(v) => {
                    &&& directory@.len() >= VPK2_HEADER_SIZE
                    &&& {
                        let h = header_of_bytes(
                            directory@.subrange(0, VPK2_HEADER_SIZE as int),
                        );
                        &&& h.signature == VPK2_SIGNATURE
                        &&& h.version == VPK2_VERSION
                        &&& v.header == h
                        &&& v.wf()
                        &&& v.real_path@ == path@
                        &&& match spec_parse_exts(directory@, VPK2_HEADER_SIZE as int) {
                            Some((t, end)) => {
                                &&& v.index() == pairs_map(spec_leaves(t))
                                &&& v.current_archive == load_cursor_archive(spec_leaves(t))
                                &&& v.current_offset == load_cursor_offset(spec_leaves(t))
                                &&& sections_fit(directory@, h, end)
                                &&& v.md5 == (if h.md5_size >= VPK2_MD5_SIZE {
                                    md5_of_bytes(
                                        directory@.subrange(
                                            end + h.file_data_size + h.external_md5_size,
                                            end + h.file_data_size + h.external_md5_size
                                                + VPK2_MD5_SIZE,
                                        ),
                                    )
                                } else {
                                    md5_default()
                                })
                                &&& v.external_md5_section@.len() == h.external_md5_size as int
                                    / VPK2_EXTERNAL_MD5_ENTRY_SIZE as int
                                &&& forall|k: int|
                                    0 <= k < v.external_md5_section@.len()
                                        ==> #[trigger] v.external_md5_section@[k]
                                        == external_md5_of_bytes(
                                        directory@.subrange(
                                            end + h.file_data_size + k * (
                                            VPK2_EXTERNAL_MD5_ENTRY_SIZE as int),
                                            end + h.file_data_size + (k + 1) * (
                                            VPK2_EXTERNAL_MD5_ENTRY_SIZE as int),
                                        ),
                                    )
                            },
                            None => false,
                        }
                    }
                },
                Err(e) => {
                    &&& e == VpkError::FormatError
                    &&& (directory@.len() >= VPK2_HEADER_SIZE && header_of_bytes(
                        directory@.subrange(0, VPK2_HEADER_SIZE as int),
                    ).signature == VPK2_SIGNATURE && header_of_bytes(
                        directory@.subrange(0, VPK2_HEADER_SIZE as int),
                    ).version == VPK2_VERSION) ==> (match spec_parse_exts(
                        directory@,
                        VPK2_HEADER_SIZE as int,
                    ) {
                        Some((t, end)) => !sections_fit(
                            directory@,
                            header_of_bytes(directory@.subrange(0, VPK2_HEADER_SIZE as int)),
                            end,
                        ),
                        None => true,
                    })
                },
            },
            directory@.len() < VPK2_HEADER_SIZE ==> r == Err::<Vpk2, VpkError>(
                VpkError::FormatError,
            ),
            (directory@.len() >= VPK2_HEADER_SIZE && header_of_bytes(
                directory@.subrange(0, VPK2_HEADER_SIZE as int),
            ).signature != VPK2_SIGNATURE) ==> r == Err::<Vpk2, VpkError>(VpkError::FormatError),
    {
        let dir_len: usize = directory.len();
        if dir_len < VPK2_HEADER_SIZE {
            return Err(VpkError::FormatError);
        }
        let header = parse_header(directory, 0);
        if !header.is_valid() {
            return Err(VpkError::FormatError);
        }
        if !header.is_correct_version() {
            return Err(VpkError::FormatError);
        }
        let parsed = parse_exts(directory, VPK2_HEADER_SIZE);
        let (tree, tree_end) = match parsed {
            Some(p) => p,
            None => {
                return Err(VpkError::FormatError);
            },
        };
        let leaves = tree_leaves(&tree);
        let ghost lv = spec_leaves(eview(tree@));

        let mut files: Vec<(String, Vpk2DirectoryEntry)> = Vec::new();
        let mut current_archive: u16 = 0;
        let mut current_offset: u32 = 0;
        let ln = leaves.len();
        let mut i: usize = 0;
        proof {
            assert(lv.take(0) =~= Seq::<(Seq<char>, Vpk2DirectoryEntry)>::empty());
        }
        while i < ln
            invariant
                i <= ln,
                ln == leaves@.len(),
                lv == nview(leaves@),
                unique_keys(files@),
                assoc_map(files@) == pairs_map(lv.take(i as int)),
                current_archive == load_cursor_archive(lv.take(i as int)),
                current_offset == load_cursor_offset(lv.take(i as int)),
            decreases ln - i,
        {
            let pair = &leaves[i];
            let entry = pair.1;
            let ghost fpre = files@;
            let path_string = pair.0.clone();
            index_upsert(&mut files, path_string, entry);
            if entry.offset > current_offset {
                current_offset = entry.offset;
            }
            if entry.archive_index > current_archive {
                current_archive = entry.archive_index;
                current_offset = entry.offset;
            }
            current_offset = (VPK2_ENTRY_MEM_SIZE as u32) + (entry.preload_size as u32);
            proof {
                assert(lv.take(i + 1).drop_last() =~= lv.take(i as int));
                assert(lv.take(i + 1).last() == lv[i as int]);
                assert(lv[i as int].0 == leaves@[i as int].0@);
                assert(lv[i as int].1 == leaves@[i as int].1);
                assert(assoc_map(files@) == pairs_map(lv.take(i + 1)));
            }
            i = i + 1;
        }
        proof {
            assert(lv.take(ln as int) =~= lv);
        }

        // The sections after the tree: skipped file data, the
        // external-checksum records, then the checksum-of-checksums.
        let room: u64 = (dir_len as u64) - (tree_end as u64);
        if (header.file_data_size as u64) + (header.external_md5_size as u64) > room {
            return Err(VpkError::FormatError);
        }
        let emd5_start: usize = tree_end + (header.file_data_size as usize);
        let count: usize = (header.external_md5_size as usize) / VPK2_EXTERNAL_MD5_ENTRY_SIZE;
        proof {
            assert(count * VPK2_EXTERNAL_MD5_ENTRY_SIZE <= header.external_md5_size as int)
                by (nonlinear_arith)
                requires
                    count == header.external_md5_size as int / VPK2_EXTERNAL_MD5_ENTRY_SIZE as int,
                    VPK2_EXTERNAL_MD5_ENTRY_SIZE == 28,
            {
            }
        }
        let mut external_md5_section: Vec<Vpk2ExternalMd5Entry> = Vec::new();
        let mut k: usize = 0;
        while k < count
            invariant
                k <= count,
                count * VPK2_EXTERNAL_MD5_ENTRY_SIZE <= header.external_md5_size,
                emd5_start + header.external_md5_size <= dir_len,
                dir_len == directory@.len(),
                external_md5_section@.len() == k,
                forall|j: int|
                    0 <= j < k ==> #[trigger] external_md5_section@[j] == external_md5_of_bytes(
                        directory@.subrange(
                            emd5_start + j * (VPK2_EXTERNAL_MD5_ENTRY_SIZE as int),
                            emd5_start + (j + 1) * (VPK2_EXTERNAL_MD5_ENTRY_SIZE as int),
                        ),
                    ),
            decreases count - k,
        {
            proof {
                assert((k + 1) * VPK2_EXTERNAL_MD5_ENTRY_SIZE <= count
                    * VPK2_EXTERNAL_MD5_ENTRY_SIZE) by (nonlinear_arith)
                    requires
                        k < count,
                {
                }
                assert(k * VPK2_EXTERNAL_MD5_ENTRY_SIZE + VPK2_EXTERNAL_MD5_ENTRY_SIZE == (k + 1)
                    * VPK2_EXTERNAL_MD5_ENTRY_SIZE) by (nonlinear_arith) {
                }
            }
            let e = parse_external_md5(directory, emd5_start + k * VPK2_EXTERNAL_MD5_ENTRY_SIZE);
            external_md5_section.push(e);
            k = k + 1;
        }

        let emd5_end: usize = emd5_start + (header.external_md5_size as usize);
        let md5: Vpk2Md5;
        if header.md5_size >= (VPK2_MD5_SIZE as u32) {
            if dir_len - emd5_end < VPK2_MD5_SIZE {
                return Err(VpkError::FormatError);
            }
            md5 = parse_md5(directory, emd5_end);
        } else {
            md5 = Vpk2Md5::default();
        }

        Ok(Vpk2 {
            real_path: path.to_owned(),
            header,
            external_md5_section,
            md5,
            files,
            current_archive,
            current_offset,
        })
    }

    /// The physical path of this archive's directory file.
    pub fn get_directory_path(&self) -> (r: String)
        ensures
            r@ == dir_path_spec(self.real_path@),
    {
        directory_file_path(&self.real_path)
    }

    /// The physical path of one chunk file: the given index, or the write
    /// cursor's chunk when none is given.
    pub fn get_archive_path(&self, index: Option<u32>) -> (r: String)
        ensures
            r@ == archive_path_spec(
                self.real_path@,
                (match index {
                    Some(i) => i,
                    None => self.current_archive as u32,
                }) as nat,
            ),
    {
        match index {
            Some(i) => archive_file_path(&self.real_path, i),
            None => archive_file_path(&self.real_path, self.current_archive as u32),
        }
    }

    /// The archive base path a directory or chunk file name points to.
    pub fn get_base_path(path: &String) -> (r: String)
        ensures
            r@ == base_path_spec(path@),
    {
        crate::paths::get_base_path(path)
    }
}

} // verus!

// ---------------------------------------------------------------------------
// Saving, writing, reading
// ---------------------------------------------------------------------------

verus! {

impl Vpk2 {
    /// Serializes the archive's directory file: header with the sizes
    /// finalized, the grouped tree, and the checksum-of-checksums record
    /// carried through as loaded.
    ///
    /// The external-checksum section is deliberately dropped on save —
    /// nothing here can recompute it — and the header sizes are zeroed
    /// accordingly so the written file stays self-consistent.
    ///
    /// Nothing is produced for an archive with neither an existing nor a
    /// supplied path, or for a tree too large for the header to state.
    pub fn save_to_bytes(&mut self, path: &str) -> (r: Option<(String, Vec<u8>)>)
        requires
            old(self).wf(),
        ensures
            final(self).wf(),
            final(self).files == old(self).files,
            final(self).index() == old(self).index(),
            final(self).md5 == old(self).md5,
            final(self).external_md5_section == old(self).external_md5_section,
            final(self).current_archive == old(self).current_archive,
            final(self).current_offset == old(self).current_offset,
            ({
                let have_path = old(self).real_path@.len() > 0;
                let have_new = path@.len() > 0;
                let tree = exts_bytes(spec_group(iview(old(self).files@)));
                if !have_path && !have_new {
                    &&& r is None
                    &&& *final(self) == *old(self)
                } else {
                    let bound = if !have_path || have_new {
                        set_ext_vpk_spec(path@)
                    } else {
                        old(self).real_path@
                    };
                    &&& final(self).real_path@ == bound
                    &&& if tree.len() > 0xFFFFFFFF {
                        &&& r is None
                        &&& final(self).header == old(self).header
                    } else {
                        &&& final(self).header == (Vpk2Header {
                            signature: VPK2_SIGNATURE,
                            version: VPK2_VERSION,
                            tree_size: tree.len() as u32,
                            file_data_size: 0,
                            external_md5_size: 0,
                            md5_size: VPK2_MD5_SIZE as u32,
                            signature_size: 0,
                        })
                        &&& match r {
                            Some((dp, bytes)) => {
                                &&& dp@ == dir_path_spec(bound)
                                &&& bytes@ == header_bytes(final(self).header) + tree
                                    + md5_bytes(old(self).md5)
                            },
                            None => false,
                        }
                    }
                }
            }),
    {
        let have_path = !self.real_path.as_str().is_empty();
        let have_new = !path.is_empty();
        if !have_path && !have_new {
            return None;
        }
        if !have_path || have_new {
            let supplied = path.to_owned();
            self.real_path = set_ext_vpk(&supplied);
        }
        let tree_vec = group_index(&self.files);
        let mut tree_bytes: Vec<u8> = Vec::new();
        emit_exts(&mut tree_bytes, &tree_vec);
        if (tree_bytes.len() as u64) > 0xFFFFFFFFu64 {
            return None;
        }
        self.header = Vpk2Header {
            signature: VPK2_SIGNATURE,
            version: VPK2_VERSION,
            tree_size: tree_bytes.len() as u32,
            file_data_size: 0,
            external_md5_size: 0,
            md5_size: VPK2_MD5_SIZE as u32,
            signature_size: 0,
        };
        let mut out: Vec<u8> = Vec::new();
        push_header(&mut out, &self.header);
        let ghost tree_ghost = tree_bytes@;
        out.append(&mut tree_bytes);
        push_md5(&mut out, &self.md5);
        let dp = directory_file_path(&self.real_path);
        proof {
            assert(out@ =~= header_bytes(self.header) + tree_ghost + md5_bytes(self.md5));
        }
        Some((dp, out))
    }

    /// Stores a blob under a path: normalizes the path, stamps the blob's
    /// checksum, rolls the write cursor to the next chunk when the blob
    /// would pass the per-chunk ceiling, records the entry, and names the
    /// chunk file the blob's bytes belong at the end of.
    ///
    /// An unbound archive refuses with permission denied; an archive whose
    /// chunk index cannot advance any further refuses with a format error.
    pub fn write(&mut self, path: &str, contents: &[u8]) -> (r: Result<String, VpkError>)
        requires
            old(self).wf(),
            contents@.len() <= 0xFFFFFFFF,
        ensures
            final(self).wf(),
            final(self).real_path == old(self).real_path,
            final(self).header == old(self).header,
            final(self).md5 == old(self).md5,
            final(self).external_md5_section == old(self).external_md5_section,
            ({
                let norm = norm_path_spec(path@);
                let rolled = old(self).current_offset as int + contents@.len()
                    > VPK2_CHUNK_MAX_SIZE;
                if old(self).real_path@.len() == 0 {
                    &&& r == Err::<String, VpkError>(VpkError::PermissionDenied)
                    &&& *final(self) == *old(self)
                } else if rolled && old(self).current_archive == 0xFFFF {
                    &&& r == Err::<String, VpkError>(VpkError::FormatError)
                    &&& *final(self) == *old(self)
                } else {
                    let arch = if rolled {
                        (old(self).current_archive + 1) as u16
                    } else {
                        old(self).current_archive
                    };
                    let off = if rolled {
                        0u32
                    } else {
                        old(self).current_offset
                    };
                    let entry = Vpk2DirectoryEntry {
                        crc: crc32_of(contents@),
                        preload_size: 0,
                        archive_index: arch,
                        offset: off,
                        length: contents@.len() as u32,
                        terminator: VPK2_ENTRY_TERMINATOR,
                    };
                    &&& final(self).index() == old(self).index().insert(norm, entry)
                    &&& final(self).current_archive == arch
                    &&& final(self).current_offset as int == off + contents@.len()
                    &&& (rolled ==> arch as int == old(self).current_archive + 1 && off == 0)
                    &&& (contents@.len() <= VPK2_CHUNK_MAX_SIZE ==> off + contents@.len()
                        <= VPK2_CHUNK_MAX_SIZE)
                    &&& match r {
                        Ok(cp) => cp@ == archive_path_spec(old(self).real_path@, arch as nat),
                        Err(_) => false,
                    }
                }
            }),
    {
        let cleaned = clean_path(path);
        let norm: String;
        if !cleaned.as_str().is_empty() && cleaned.as_str().get_char(0) == '/' {
            let l = cleaned.as_str().unicode_len();
            norm = cleaned.as_str().substring_char(1, l).to_owned();
            proof {
                assert(cleaned@.subrange(1, cleaned@.len() as int) =~= cleaned@.drop_first());
            }
        } else {
            norm = cleaned;
        }
        proof {
            assert(norm@ == norm_path_spec(path@));
        }
        if self.real_path.as_str().is_empty() {
            return Err(VpkError::PermissionDenied);
        }
        let len64: u64 = contents.len() as u64;
        if (self.current_offset as u64) + len64 > VPK2_CHUNK_MAX_SIZE {
            if self.current_archive == 0xFFFF {
                return Err(VpkError::FormatError);
            }
            self.current_archive = self.current_archive + 1;
            self.current_offset = 0;
        }
        let chunk_path = archive_file_path(&self.real_path, self.current_archive as u32);
        let crc = valve_crc32(contents);
        let entry = Vpk2DirectoryEntry {
            crc,
            preload_size: 0,
            archive_index: self.current_archive,
            offset: self.current_offset,
            length: contents.len() as u32,
            terminator: VPK2_ENTRY_TERMINATOR,
        };
        self.current_offset = self.current_offset + (contents.len() as u32);
        index_upsert(&mut self.files, norm, entry);
        Ok(chunk_path)
    }

    /// Where to read a stored blob from: the chunk file its entry names
    /// and the byte range inside it.  Absent paths are not found.
    pub fn read_plan(&self, path: &str) -> (r: Result<ReadPlan, VpkError>)
        requires
            self.wf(),
        ensures
            match r {
                Ok(plan) => {
                    &&& self.index().contains_key(path@)
                    &&& plan.offset == self.index()[path@].offset
                    &&& plan.length == self.index()[path@].length
                    &&& plan.archive_path@ == archive_path_spec(
                        self.real_path@,
                        self.index()[path@].archive_index as nat,
                    )
                },
                Err(e) => e == VpkError::NotFound && !self.index().contains_key(path@),
            },
    {
        let key = path.to_owned();
        let found = index_get(&self.files, &key);
        match found {
            Some(e) => Ok(
                ReadPlan {
                    archive_path: archive_file_path(&self.real_path, e.archive_index as u32),
                    offset: e.offset,
                    length: e.length,
                },
            ),
            None => Err(VpkError::NotFound),
        }
    }
}

/// Cuts a stored blob's byte range out of its chunk file's bytes.  A
/// range past the end of the chunk is not found, exactly as a missing
/// path is.
pub fn extract_range(archive: &[u8], offset: u32, length: u32) -> (r: Result<Vec<u8>, VpkError>)
    ensures
        match r {
            Ok(bytes) => {
                &&& offset as int + length as int <= archive@.len()
                &&& bytes@ == archive@.subrange(offset as int, offset as int + length as int)
            },
            Err(e) => {
                &&& e == VpkError::NotFound
                &&& offset as int + length as int > archive@.len()
            },
        },
{
    let n: usize = archive.len();
    if (offset as u64) + (length as u64) > (n as u64) {
        return Err(VpkError::NotFound);
    }
    let start = offset as usize;
    let end = start + (length as usize);
    let mut out: Vec<u8> = Vec::new();
    let mut i: usize = start;
    while i < end
        invariant
            start <= i <= end <= n,
            n == archive@.len(),
            out@ =~= archive@.subrange(start as int, i as int),
        decreases end - i,
    {
        out.push(archive[i]);
        proof {
            assert(out@ =~= archive@.subrange(start as int, i + 1));
        }
        i = i + 1;
    }
    Ok(out)
}

} // verus!

// ---------------------------------------------------------------------------
// The capability set over the index
// ---------------------------------------------------------------------------

verus! {

impl Vpk2 {
    /// Whether a stored blob goes by this path.
    pub fn try_exists(&self, path: &str) -> (r: Result<bool, VpkError>)
        requires
            self.wf(),
        ensures
            r == Ok::<bool, VpkError>(self.index().contains_key(path@)),
    {
        let key = path.to_owned();
        let found = index_get(&self.files, &key);
        Ok(found.is_some())
    }

    /// The one absolute form a packed path has: the archive's own path,
    /// its extension, and the stored path behind it.
    pub fn canonicalize(&self, path: &str) -> (r: Result<String, VpkError>)
        ensures
            match r {
                Ok(c) => c@ == self.real_path@ + seq!['.', 'v', 'p', 'k', '/'] + path@,
                Err(_) => false,
            },
    {
        proof {
            reveal_strlit(".vpk/");
        }
        let mut out = self.real_path.clone();
        out.append(".vpk/");
        out.append(path);
        proof {
            assert(out@ =~= self.real_path@ + seq!['.', 'v', 'p', 'k', '/'] + path@);
        }
        Ok(out)
    }

    /// Aliases a stored blob under a second path; no bytes move.  The
    /// count of copied bytes is reported as zero, since none move.
    pub fn copy(&mut self, from: &str, to: &str) -> (r: Result<u64, VpkError>)
        requires
            old(self).wf(),
        ensures
            final(self).wf(),
            final(self).real_path == old(self).real_path,
            final(self).current_archive == old(self).current_archive,
            final(self).current_offset == old(self).current_offset,
            match r {
                Ok(n) => {
                    &&& n == 0
                    &&& old(self).index().contains_key(from@)
                    &&& final(self).index() == old(self).index().insert(
                        to@,
                        old(self).index()[from@],
                    )
                },
                Err(e) => {
                    &&& e == VpkError::NotFound
                    &&& !old(self).index().contains_key(from@)
                    &&& *final(self) == *old(self)
                },
            },
    {
        let from_key = from.to_owned();
        let found = index_get(&self.files, &from_key);
        match found {
            Some(e) => {
                let to_key = to.to_owned();
                index_upsert(&mut self.files, to_key, e);
                Ok(0)
            },
            None => Err(VpkError::NotFound),
        }
    }

    /// A hard link in an archive is an index alias.
    pub fn hard_link(&mut self, original: &str, link: &str) -> (r: Result<(), VpkError>)
        requires
            old(self).wf(),
        ensures
            final(self).wf(),
            final(self).real_path == old(self).real_path,
            match r {
                Ok(_) => {
                    &&& old(self).index().contains_key(original@)
                    &&& final(self).index() == old(self).index().insert(
                        link@,
                        old(self).index()[original@],
                    )
                },
                Err(e) => {
                    &&& e == VpkError::NotFound
                    &&& !old(self).index().contains_key(original@)
                    &&& *final(self) == *old(self)
                },
            },
    {
        match self.copy(original, link) {
            Ok(_) => Ok(()),
            Err(e) => Err(e),
        }
    }

    /// A soft link in an archive is the same index alias.
    pub fn soft_link(&mut self, from: &str, to: &str) -> (r: Result<(), VpkError>)
        requires
            old(self).wf(),
        ensures
            final(self).wf(),
            final(self).real_path == old(self).real_path,
            match r {
                Ok(_) => {
                    &&& old(self).index().contains_key(from@)
                    &&& final(self).index() == old(self).index().insert(
                        to@,
                        old(self).index()[from@],
                    )
                },
                Err(e) => {
                    &&& e == VpkError::NotFound
                    &&& !old(self).index().contains_key(from@)
                    &&& *final(self) == *old(self)
                },
            },
    {
        self.hard_link(from, to)
    }

    /// What the archive reports about a stored blob: a regular file of
    /// the entry's length, writable, with no timestamps of its own.
    pub fn metadata(&self, path: &str) -> (r: Result<Metadata, VpkError>)
        requires
            self.wf(),
        ensures
            match r {
                Ok(md) => {
                    &&& self.index().contains_key(path@)
                    &&& md.file_type == FileType(FileKind::Regular)
                    &&& !md.is_dir
                    &&& md.is_file
                    &&& !md.is_symlink
                    &&& md.len == self.index()[path@].length
                    &&& md.permissions == Permissions(false)
                },
                Err(e) => e == VpkError::NotFound && !self.index().contains_key(path@),
            },
    {
        let key = path.to_owned();
        let found = index_get(&self.files, &key);
        match found {
            Some(e) => Ok(
                Metadata::new(
                    FileType(FileKind::Regular),
                    false,
                    true,
                    false,
                    e.length as u64,
                    Permissions(false),
                ),
            ),
            None => Err(VpkError::NotFound),
        }
    }

    /// The archive stores no links, so metadata without following links
    /// is the same metadata.
    pub fn symlink_metadata(&self, path: &str) -> (r: Result<Metadata, VpkError>)
        requires
            self.wf(),
        ensures
            match r {
                Ok(md) => {
                    &&& self.index().contains_key(path@)
                    &&& md.is_file
                    &&& md.len == self.index()[path@].length
                },
                Err(e) => e == VpkError::NotFound && !self.index().contains_key(path@),
            },
    {
        self.metadata(path)
    }

    /// Drops a blob from the index.  The blob's bytes stay in their chunk
    /// file; archives are rebuilt wholesale, never compacted in place.
    pub fn remove_file(&mut self, path: &str) -> (r: Result<(), VpkError>)
        requires
            old(self).wf(),
        ensures
            final(self).wf(),
            final(self).real_path == old(self).real_path,
            final(self).current_archive == old(self).current_archive,
            final(self).current_offset == old(self).current_offset,
            match r {
                Ok(_) => {
                    &&& old(self).index().contains_key(path@)
                    &&& final(self).index() == old(self).index().remove(path@)
                },
                Err(e) => {
                    &&& e == VpkError::NotFound
                    &&& !old(self).index().contains_key(path@)
                    &&& *final(self) == *old(self)
                },
            },
    {
        let key = path.to_owned();
        let removed = index_remove(&mut self.files, &key);
        match removed {
            Some(_) => Ok(()),
            None => Err(VpkError::NotFound),
        }
    }

    /// Moves a blob's entry from one path to another; no bytes move.
    pub fn rename(&mut self, from: &str, to: &str) -> (r: Result<(), VpkError>)
        requires
            old(self).wf(),
        ensures
            final(self).wf(),
            final(self).real_path == old(self).real_path,
            match r {
                Ok(_) => {
                    &&& old(self).index().contains_key(from@)
                    &&& final(self).index() == old(self).index().remove(from@).insert(
                        to@,
                        old(self).index()[from@],
                    )
                },
                Err(e) => {
                    &&& e == VpkError::NotFound
                    &&& !old(self).index().contains_key(from@)
                    &&& *final(self) == *old(self)
                },
            },
    {
        let from_key = from.to_owned();
        let removed = index_remove(&mut self.files, &from_key);
        match removed {
            Some(e) => {
                let to_key = to.to_owned();
                index_upsert(&mut self.files, to_key, e);
                Ok(())
            },
            None => Err(VpkError::NotFound),
        }
    }

    /// Directories have no meaning inside an archive.
    pub fn create_dir(&mut self, _path: &str) -> (r: Result<(), VpkError>)
        ensures
            r == Err::<(), VpkError>(VpkError::Unsupported),
            *final(self) == *old(self),
    {
        Err(VpkError::Unsupported)
    }

    /// Directories have no meaning inside an archive.
    pub fn create_dir_all(&mut self, _path: &str) -> (r: Result<(), VpkError>)
        ensures
            r == Err::<(), VpkError>(VpkError::Unsupported),
            *final(self) == *old(self),
    {
        Err(VpkError::Unsupported)
    }

    /// Directories have no meaning inside an archive.
    pub fn remove_dir(&mut self, _path: &str) -> (r: Result<(), VpkError>)
        ensures
            r == Err::<(), VpkError>(VpkError::Unsupported),
            *final(self) == *old(self),
    {
        Err(VpkError::Unsupported)
    }

    /// Directories have no meaning inside an archive.
    pub fn remove_dir_all(&mut self, _path: &str) -> (r: Result<(), VpkError>)
        ensures
            r == Err::<(), VpkError>(VpkError::Unsupported),
            *final(self) == *old(self),
    {
        Err(VpkError::Unsupported)
    }

    /// Permissions have no meaning inside an archive.
    pub fn set_permissions(&mut self, _path: &str, _permissions: Permissions) -> (r: Result<
        (),
        VpkError,
    >)
        ensures
            r == Err::<(), VpkError>(VpkError::Unsupported),
            *final(self) == *old(self),
    {
        Err(VpkError::Unsupported)
    }

    /// The archive stores no links to follow.
    pub fn read_link(&self, _path: &str) -> (r: Result<String, VpkError>)
        ensures
            r == Err::<String, VpkError>(VpkError::Unsupported),
    {
        Err(VpkError::Unsupported)
    }

    /// A restartable listing over a snapshot of the index.  The archive
    /// is flat, so the path argument plays no part: every entry is
    /// listed.
    pub fn read_dir(&self, _path: &str) -> (r: ReadDir)
        requires
            self.wf(),
        ensures
            r.position == 0,
            r.entries@.len() == self.files@.len(),
            forall|i: int|
                0 <= i < r.entries@.len() ==> {
                    let e = #[trigger] r.entries@[i];
                    &&& e.0@ == self.files@[i].0@
                    &&& e.1.file_type == FileType(FileKind::Regular)
                    &&& !e.1.is_dir
                    &&& e.1.is_file
                    &&& !e.1.is_symlink
                    &&& e.1.len == self.files@[i].1.length
                    &&& e.1.permissions == Permissions(false)
                    &&& e.2 == FileType(FileKind::Regular)
                },
    {
        let n = self.files.len();
        let mut entries: Vec<DirEntry> = Vec::new();
        let mut i: usize = 0;
        while i < n
            invariant
                i <= n,
                n == self.files@.len(),
                entries@.len() == i,
                forall|j: int|
                    0 <= j < i ==> {
                        let e = #[trigger] entries@[j];
                        &&& e.0@ == self.files@[j].0@
                        &&& e.1.file_type == FileType(FileKind::Regular)
                        &&& !e.1.is_dir
                        &&& e.1.is_file
                        &&& !e.1.is_symlink
                        &&& e.1.len == self.files@[j].1.length
                        &&& e.1.permissions == Permissions(false)
                        &&& e.2 == FileType(FileKind::Regular)
                    },
            decreases n - i,
        {
            let md = Metadata::new(
                FileType(FileKind::Regular),
                false,
                true,
                false,
                self.files[i].1.length as u64,
                Permissions(false),
            );
            let de = DirEntry::new(self.files[i].0.clone(), md, FileType(FileKind::Regular));
            entries.push(de);
            i = i + 1;
        }
        ReadDir { entries, position: 0 }
    }
}

/// A snapshot listing of the index, handed out one entry at a time and
/// restartable from a fresh snapshot at any time.
pub struct ReadDir {
    /// The entries of the snapshot, in index order.
    pub entries: Vec<DirEntry>,
    /// How many entries have been handed out.
    pub position: usize,
}

impl ReadDir {
    /// The next entry of the snapshot, until none are left.
    pub fn next(&mut self) -> (r: Option<DirEntry>)
        ensures
            final(self).entries == old(self).entries,
            if old(self).position < old(self).entries@.len() {
                &&& final(self).position == old(self).position + 1
                &&& match r {
                    Some(e) => {
                        &&& e.0@ == old(self).entries@[old(self).position as int].0@
                        &&& e.1 == old(self).entries@[old(self).position as int].1
                        &&& e.2 == old(self).entries@[old(self).position as int].2
                    },
                    None => false,
                }
            } else {
                &&& r is None
                &&& final(self).position == old(self).position
            },
    {
        if self.position < self.entries.len() {
            let e = &self.entries[self.position];
            let out = DirEntry::new(e.path(), e.metadata(), e.file_type());
            self.position = self.position + 1;
            Some(out)
        } else {
            None
        }
    }
}

} // verus!

// ---------------------------------------------------------------------------
// The round trip
// ---------------------------------------------------------------------------

verus! {

/// THE ROUND-TRIP LAW: the directory file a save produces — header, the
/// grouped tree, the checksum record — parses back to exactly the grouped
/// tree, and the entries recovered from that tree make up exactly the map
/// of paths to entries that was saved.
///
/// It asks only what the format itself asks: every stored path splits
/// into framing-safe extension, directory and name keys and joins back to
/// itself, and no path is stored twice.
pub proof fn lemma_save_load_round_trip(
    m: Seq<(Seq<char>, Vpk2DirectoryEntry)>,
    h: Vpk2Header,
    md5: Vpk2Md5,
)
    requires
        crate::group::all_paths_ok(m),
        crate::group::vunique(m),
    ensures
        ({
            let tree = exts_bytes(spec_group(m));
            let bytes = header_bytes(h) + tree + md5_bytes(md5);
            &&& spec_parse_exts(bytes, VPK2_HEADER_SIZE as int) == Some(
                (spec_group(m), VPK2_HEADER_SIZE + tree.len() as int),
            )
            &&& pairs_map(spec_leaves(spec_group(m))) == pairs_map(m)
        }),
{
    crate::group::lemma_group_strs_ok(m);
    crate::codec::lemma_header_roundtrip(h);
    crate::codec::lemma_parse_exts_emit(header_bytes(h), spec_group(m), md5_bytes(md5));
    crate::group::lemma_group_preserves_map(m);
}

/// The round trip at the archive level: loading what a bound archive
/// saves rebuilds the archive's own map of paths to entries.
pub proof fn lemma_archive_round_trip(v: Vpk2, h: Vpk2Header, md5: Vpk2Md5)
    requires
        v.wf(),
        crate::group::all_paths_ok(iview(v.files@)),
    ensures
        ({
            let tree = exts_bytes(spec_group(iview(v.files@)));
            let bytes = header_bytes(h) + tree + md5_bytes(md5);
            &&& spec_parse_exts(bytes, VPK2_HEADER_SIZE as int) == Some(
                (spec_group(iview(v.files@)), VPK2_HEADER_SIZE + tree.len() as int),
            )
            &&& pairs_map(spec_leaves(spec_group(iview(v.files@)))) == v.index()
        }),
{
    let m = iview(v.files@);
    assert(crate::group::vunique(m)) by {
        assert(forall|i: int|
            0 <= i < m.len() ==> (#[trigger] m[i]).0 == v.files@[i].0@);
    }
    lemma_save_load_round_trip(m, h, md5);
    crate::group::lemma_assoc_iview(v.files@);
}

} // verus!

// ---------------------------------------------------------------------------
// Text decoding and the default archive
// ---------------------------------------------------------------------------

verus! {

impl Default for Vpk2 {
    /// An unbound, empty archive: no path, a fresh header, nothing
    /// stored, the write cursor at the very start.
    fn default() -> (r: Vpk2)
        ensures
            r.wf(),
            r.real_path@.len() == 0,
            r.index() == Map::<Seq<char>, Vpk2DirectoryEntry>::empty(),
            r.files@.len() == 0,
            r.current_archive == 0,
            r.current_offset == 0,
            r.header == header_default(),
            r.md5 == md5_default(),
            r.external_md5_section@.len() == 0,
    {
        let r = Vpk2::create("");
        proof {
            reveal_strlit("");
        }
        r
    }
}

/// Stored bytes read back as text.
///
/// Relies on `String::from_utf8`: it succeeds exactly when the bytes are
/// valid text, and then returns the characters they encode.
#[verifier::external_body]
fn bytes_to_text(v: Vec<u8>) -> (r: Option<String>)
    ensures
        r is Some <==> vstd::utf8::valid_utf8(v@),
        match r {
            Some(s) => s@ == vstd::utf8::decode_utf8(v@),
            None => true,
        },
{
    match String::from_utf8(v) {
        Ok(s) => Some(s),
        Err(_) => None,
    }
}

/// A stored blob's bytes as text: the compute half of reading a packed
/// file into a string.  Bytes that are not valid text are invalid data.
pub fn decode_text(bytes: Vec<u8>) -> (r: Result<String, VpkError>)
    ensures
        match r {
            Ok(s) => vstd::utf8::valid_utf8(bytes@) && s@ == vstd::utf8::decode_utf8(bytes@),
            Err(e) => e == VpkError::InvalidData && !vstd::utf8::valid_utf8(bytes@),
        },
{
    match bytes_to_text(bytes) {
        Some(s) => Ok(s),
        None => Err(VpkError::InvalidData),
    }
}

} // verus!
