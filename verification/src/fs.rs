//! The file-access vocabulary shared by the loose-file backend and the
//! archive backend: file kinds, permissions, synthesized metadata, and
//! directory-listing entries.
//!
//! Timestamps are deliberately absent here: the archive format stores none,
//! and the wall-clock values callers expect are supplied by the unverified
//! shell around this crate.

use vstd::prelude::*;
use vstd::string::StrSliceExecFns;
use crate::strings::find_last;

verus! {

/// What kind of object a path names.
#[derive(Clone, Copy, Debug, PartialEq, Eq, Structural)]
pub enum FileKind {
    Regular,
    Directory,
    Symlink,
    Other,
}

/// A file-type tag, as the real filesystem or the archive reports it.
#[derive(Clone, Copy, Debug, PartialEq, Eq, Structural)]
pub struct FileType(pub FileKind);

impl FileType {
    pub fn is_dir(&self) -> (r: bool)
        ensures
            r == (self.0 is Directory),
    {
        match self.0 {
            FileKind::Directory => true,
            _ => false,
        }
    }

    pub fn is_file(&self) -> (r: bool)
        ensures
            r == (self.0 is Regular),
    {
        match self.0 {
            FileKind::Regular => true,
            _ => false,
        }
    }

    pub fn is_symlink(&self) -> (r: bool)
        ensures
            r == (self.0 is Symlink),
    {
        match self.0 {
            FileKind::Symlink => true,
            _ => false,
        }
    }
}

/// A single read-only bit, the only permission the vocabulary models.
#[derive(Clone, Copy, Debug, PartialEq, Eq, Structural)]
pub struct Permissions(pub bool);

impl Permissions {
    pub fn readonly(&self) -> (r: bool)
        ensures
            r == self.0,
    {
        self.0
    }

    pub fn set_readonly(&mut self, readonly: bool)
        ensures
            final(self).0 == readonly,
    {
        self.0 = readonly;
    }
}

/// What a backend reports about one file: type, size and permissions.
#[derive(Clone, Copy, Debug, PartialEq, Eq, Structural)]
pub struct Metadata {
    pub file_type: FileType,
    pub is_dir: bool,
    pub is_file: bool,
    pub is_symlink: bool,
    pub len: u64,
    pub permissions: Permissions,
}

impl Metadata {
    pub fn new(
        file_type: FileType,
        is_dir: bool,
        is_file: bool,
        is_symlink: bool,
        len: u64,
        permissions: Permissions,
    ) -> (r: Metadata)
        ensures
            r.file_type == file_type,
            r.is_dir == is_dir,
            r.is_file == is_file,
            r.is_symlink == is_symlink,
            r.len == len,
            r.permissions == permissions,
    {
        Metadata { file_type, is_dir, is_file, is_symlink, len, permissions }
    }

    pub fn file_type(&self) -> (r: FileType)
        ensures
            r == self.file_type,
    {
        self.file_type
    }

    pub fn is_dir(&self) -> (r: bool)
        ensures
            r == self.is_dir,
    {
        self.is_dir
    }

    pub fn is_file(&self) -> (r: bool)
        ensures
            r == self.is_file,
    {
        self.is_file
    }

    pub fn is_symlink(&self) -> (r: bool)
        ensures
            r == self.is_symlink,
    {
        self.is_symlink
    }

    pub fn len(&self) -> (r: u64)
        ensures
            r == self.len,
    {
        self.len
    }

    pub fn permissions(&self) -> (r: Permissions)
        ensures
            r == self.permissions,
    {
        self.permissions
    }
}

/// The file name inside a path: everything after the last slash, or the
/// whole path when it has no slash.
pub open spec fn file_name_spec(p: Seq<char>) -> Seq<char> {
    if exists|i: int| 0 <= i < p.len() && p[i] == '/' {
        let i = (choose|i: int|
            0 <= i < p.len() && p[i] == '/' && forall|j: int| i < j < p.len() ==> p[j] != '/');
        p.subrange(i + 1, p.len() as int)
    } else {
        p
    }
}

/// One produced element of a directory listing.
#[derive(Debug)]
pub struct DirEntry(pub String, pub Metadata, pub FileType);

impl DirEntry {
    pub fn new(path: String, metadata: Metadata, file_type: FileType) -> (r: DirEntry)
        ensures
            r.0 == path,
            r.1 == metadata,
            r.2 == file_type,
    {
        DirEntry(path, metadata, file_type)
    }

    pub fn path(&self) -> (r: String)
        ensures
            r@ == self.0@,
    {
        self.0.clone()
    }

    pub fn metadata(&self) -> (r: Metadata)
        ensures
            r == self.1,
    {
        self.1
    }

    pub fn file_type(&self) -> (r: FileType)
        ensures
            r == self.2,
    {
        self.2
    }

    pub fn file_name(&self) -> (r: String)
        ensures
            r@ == file_name_spec(self.0@),
    {
        match find_last(self.0.as_str(), '/') {
            Some(i) => {
                let n = self.0.as_str().unicode_len();
                let tail = self.0.as_str().substring_char(i + 1, n);
                proof {
                    assert(file_name_spec(self.0@) == self.0@.subrange(
                        i + 1,
                        self.0@.len() as int,
                    ));
                }
                tail.to_owned()
            },
            None => self.0.clone(),
        }
    }
}

/// The backend that hands every operation to the real filesystem.  Its
/// operations are plain disk I/O, so they live with the unverified shell;
/// the marker type itself is shared vocabulary.
#[derive(Clone, Copy, Debug)]
pub struct StdFileSystem(());

impl StdFileSystem {
    pub fn new() -> StdFileSystem {
        StdFileSystem(())
    }
}

} // verus!
