//! Classification of directory entries by file type and name suffix.
use vstd::prelude::*;
use crate::names::{is_archive_name, is_gz_name, name_is_archive, name_is_gz};

verus! {

/// The file-type bits of a directory entry, as the filesystem reports them
/// without following symbolic links.
#[derive(Clone, Copy, Debug, PartialEq, Eq, Structural)]
pub enum FileTypeBits {
    Directory,
    Symlink,
    File,
}

/// What an entry is, for listing and resolution.
#[derive(Clone, Copy, Debug, PartialEq, Eq, Structural)]
pub enum Kind {
    Directory,
    PlainFile,
    CompressedFile,
    CompressedDirectory,
    Symlink,
    Unreadable,
}

/// The kind of an entry named `name` whose type bits are `bits`; `None`
/// stands for metadata that could not be read.
pub open spec fn kind_of(name: Seq<char>, bits: Option<FileTypeBits>) -> Kind {
    match bits {
        None => Kind::Unreadable,
        Some(FileTypeBits::Directory) => Kind::Directory,
        Some(FileTypeBits::Symlink) => Kind::Symlink,
        Some(FileTypeBits::File) => if is_archive_name(name) {
            Kind::CompressedDirectory
        } else if is_gz_name(name) {
            Kind::CompressedFile
        } else {
            Kind::PlainFile
        },
    }
}

/// Classifies an entry from its name and type bits alone; the content is
/// never read.
pub fn classify(name: &str, bits: Option<FileTypeBits>) -> (r: Kind)
    ensures
        r == kind_of(name@, bits),
{
    match bits {
        None => Kind::Unreadable,
        Some(FileTypeBits::Directory) => Kind::Directory,
        Some(FileTypeBits::Symlink) => Kind::Symlink,
        Some(FileTypeBits::File) => {
            if name_is_archive(name) {
                Kind::CompressedDirectory
            } else if name_is_gz(name) {
                Kind::CompressedFile
            } else {
                Kind::PlainFile
            }
        },
    }
}

/// A child observed while reading a directory.
#[derive(Debug)]
pub struct DirEntryInfo {
    pub name: String,
    pub bits: Option<FileTypeBits>,
    /// Size in bytes.
    pub size: u64,
    /// Creation time in seconds since the epoch, 0 where unknown.
    pub ctime: u64,
    /// Modification time in seconds since the epoch, 0 where unknown.
    pub mtime: u64,
}

impl DirEntryInfo {
    pub open spec fn kind(&self) -> Kind {
        kind_of(self.name@, self.bits)
    }

    pub open spec fn is_dir(&self) -> bool {
        self.bits == Some(FileTypeBits::Directory)
    }
}

} // verus!
