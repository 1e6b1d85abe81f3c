//! File attributes: the row that the store keeps for an inode, and the
//! record that the kernel is given.
use vstd::prelude::*;
use vstd::string::*;
use crate::db::model::{folder_mime, AttrsModel, StoreModel};
use crate::db::repository::opt_view;

verus! {

/// The attribute row of an inode.
#[derive(Debug)]
pub struct FileAttributes {
    pub inode: i64,
    pub size: i64,
    pub mtime: i64,
    pub ctime: i64,
    pub mode: i64,
    pub is_dir: bool,
    pub mime_type: Option<String>,
}

/// The kind of a file, as the kernel is told.
#[derive(Debug, Clone, Copy, PartialEq, Eq, Structural)]
pub enum FileType {
    Directory,
    RegularFile,
}

/// A point in time: seconds since the epoch, and nanoseconds within the
/// second.
#[derive(Debug, Clone, Copy, PartialEq, Eq, Structural)]
pub struct Timestamp {
    pub sec: i64,
    pub nsec: u32,
}

/// The attributes of a file, as the kernel is told.
#[derive(Debug, Clone, Copy, PartialEq, Eq, Structural)]
pub struct FileAttr {
    pub ino: u64,
    pub size: u64,
    pub blocks: u64,
    pub atime: Timestamp,
    pub mtime: Timestamp,
    pub ctime: Timestamp,
    pub kind: FileType,
    pub perm: u16,
    pub nlink: u32,
    pub uid: u32,
    pub gid: u32,
    pub rdev: u32,
    pub blksize: u32,
}

/// The size of the blocks in which a file's size is reported.
pub const BLOCK_SIZE: u64 = 512;

/// A signed number as an unsigned one, with 0 for what is negative.
pub open spec fn non_negative(x: i64) -> u64 {
    if x < 0 {
        0
    } else {
        x as u64
    }
}

/// The number of blocks of `BLOCK_SIZE` bytes that hold `size` bytes.
pub open spec fn blocks_for(size: u64) -> u64 {
    ((size + 511) / 512) as u64
}

/// The permission bits of a mode: its lower twelve bits.
pub open spec fn permission_bits(mode: i64) -> u16 {
    (mode & 0o7777) as u16
}

impl FileAttributes {
    /// The row without its key.
    pub open spec fn model(&self) -> AttrsModel {
        AttrsModel {
            size: self.size,
            mtime: self.mtime,
            ctime: self.ctime,
            mode: self.mode,
            is_dir: self.is_dir,
            mime_type: opt_view(self.mime_type),
        }
    }

    /// What the kernel is told of a file with these attributes, owned by
    /// user `uid` and group `gid`.
    pub open spec fn file_attr_spec(&self, uid: u32, gid: u32) -> FileAttr {
        FileAttr {
            ino: non_negative(self.inode),
            size: non_negative(self.size),
            blocks: blocks_for(non_negative(self.size)),
            atime: Timestamp { sec: self.mtime, nsec: 0 },
            mtime: Timestamp { sec: self.mtime, nsec: 0 },
            ctime: Timestamp { sec: self.ctime, nsec: 0 },
            kind: if self.is_dir {
                FileType::Directory
            } else {
                FileType::RegularFile
            },
            perm: permission_bits(self.mode),
            nlink: 1,
            uid,
            gid,
            rdev: 0,
            blksize: 512,
        }
    }

    /// The record for the kernel: size in bytes and in blocks of 512 bytes,
    /// the modification time as access time too, the permission bits of the
    /// mode, one link.
    pub fn to_file_attr(&self, uid: u32, gid: u32) -> (attr: FileAttr)
        ensures
            attr == self.file_attr_spec(uid, gid),
    {
        let ino: u64 = if self.inode < 0 {
            0
        } else {
            self.inode as u64
        };
        let size: u64 = if self.size < 0 {
            0
        } else {
            self.size as u64
        };
        let blocks: u64 = (size + 511) / 512;
        let mode: i64 = self.mode;
        let masked: i64 = mode & 0o7777;
        assert(0 <= masked <= 0o7777) by (bit_vector)
            requires
                masked == mode & 0o7777,
        ;
        FileAttr {
            ino,
            size,
            blocks,
            atime: Timestamp { sec: self.mtime, nsec: 0 },
            mtime: Timestamp { sec: self.mtime, nsec: 0 },
            ctime: Timestamp { sec: self.ctime, nsec: 0 },
            kind: if self.is_dir {
                FileType::Directory
            } else {
                FileType::RegularFile
            },
            perm: masked as u16,
            nlink: 1,
            uid,
            gid,
            rdev: 0,
            blksize: 512,
        }
    }

    /// The attributes of the root while the store has none for it: a
    /// directory of nominal size with mode `0o755`, changed at `now`.
    pub fn root(now: i64) -> (attrs: Self)
        ensures
            attrs.inode == 1,
            attrs.model() == StoreModel::root_attrs(now),
    {
        FileAttributes {
            inode: 1,
            size: 4096,
            mtime: now,
            ctime: now,
            mode: 0o755,
            is_dir: true,
            mime_type: Some(String::from_str("application/vnd.google-apps.folder")),
        }
    }
}

} // verus!
