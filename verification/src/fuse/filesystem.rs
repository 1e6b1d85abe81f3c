//! The operations of the filesystem: each one answers what the kernel asks
//! from what the metadata store holds. Nothing is kept between
//! two calls but the store. Where an operation touches the bytes of a file,
//! it says what is to be fetched or written, and records what was done.
use vstd::prelude::*;
use vstd::string::*;
use vstd::utf8::encode_utf8;
use crate::db::model::{AttrsModel, StoreModel, ROOT_INODE};
use crate::db::repository::{opt_view, MetadataRepository};
use crate::fuse::attr::{
    blocks_for, non_negative, permission_bits, FileAttr, FileAttributes, FileType, Timestamp,
};
use crate::fuse::shortcuts::{generate_html, html_spec, is_workspace_file, is_workspace_mime};
use crate::text::{append_decimal, decimal, is_prefix, starts_with};

verus! {

/// Why an operation of the filesystem failed.
#[derive(Debug, Clone, Copy, PartialEq, Eq, Structural)]
pub enum FsError {
    /// No such file or directory.
    NotFound,
    /// The store or the cache failed.
    Io,
    /// The name is no valid UTF-8.
    InvalidName,
    /// A directory was asked for, and the inode is none.
    NotADirectory,
}

/// The error number of "no such file or directory".
pub const ENOENT: i32 = 2;

/// The error number of "input/output error".
pub const EIO: i32 = 5;

/// The error number of "not a directory".
pub const ENOTDIR: i32 = 20;

/// The error number of "invalid argument".
pub const EINVAL: i32 = 22;

impl FsError {
    /// The error number that the kernel is given.
    pub fn errno(&self) -> (code: i32)
        ensures
            code == match *self {
                FsError::NotFound => ENOENT,
                FsError::Io => EIO,
                FsError::InvalidName => EINVAL,
                FsError::NotADirectory => ENOTDIR,
            },
    {
        match self {
            FsError::NotFound => ENOENT,
            FsError::Io => EIO,
            FsError::InvalidName => EINVAL,
            FsError::NotADirectory => ENOTDIR,
        }
    }
}

/// The seconds for which the kernel may keep an entry or its attributes.
pub const TTL_SECS: u64 = 1;

/// The greatest number of bytes of one write.
pub const MAX_WRITE: u32 = 1048576;

/// The answer to the start of a session.
#[derive(Debug, Clone, Copy, PartialEq, Eq, Structural)]
pub struct ReplyInit {
    pub max_write: u32,
}

/// The answer to a lookup.
#[derive(Debug, Clone, Copy, PartialEq, Eq, Structural)]
pub struct ReplyEntry {
    pub ttl_secs: u64,
    pub attr: FileAttr,
    pub generation: u64,
}

/// The answer to a question about attributes.
#[derive(Debug, Clone, Copy, PartialEq, Eq, Structural)]
pub struct ReplyAttr {
    pub ttl_secs: u64,
    pub attr: FileAttr,
}

/// The answer to an open: the filesystem keeps no state per open file, so
/// the handle is always 0.
#[derive(Debug, Clone, Copy, PartialEq, Eq, Structural)]
pub struct ReplyOpen {
    pub fh: u64,
    pub flags: u32,
}

/// The answer to the creation of a file.
#[derive(Debug, Clone, Copy, PartialEq, Eq, Structural)]
pub struct ReplyCreated {
    pub ttl_secs: u64,
    pub attr: FileAttr,
    pub generation: u64,
    pub fh: u64,
    pub flags: u32,
}

/// The answer to a write.
#[derive(Debug, Clone, Copy, PartialEq, Eq, Structural)]
pub struct ReplyWrite {
    pub written: u32,
}

/// The figures of the filesystem as a whole.
#[derive(Debug, Clone, Copy, PartialEq, Eq, Structural)]
pub struct ReplyStatFs {
    pub blocks: u64,
    pub bfree: u64,
    pub bavail: u64,
    pub files: u64,
    pub ffree: u64,
    pub bsize: u32,
    pub namelen: u32,
    pub frsize: u32,
}

/// The figures that `statfs` gives: a nominal capacity in blocks of 4096
/// bytes, half of it free, and names of up to 255 bytes.
pub open spec fn statfs_spec() -> ReplyStatFs {
    ReplyStatFs {
        blocks: 1073741824,
        bfree: 536870912,
        bavail: 536870912,
        files: 1000000,
        ffree: 1000000,
        bsize: 4096,
        namelen: 255,
        frsize: 4096,
    }
}

/// What the kernel is told of inode `inode` with the attributes `a`.
pub open spec fn attr_record(inode: u64, a: AttrsModel, uid: u32, gid: u32) -> FileAttr {
    FileAttr {
        ino: inode,
        size: non_negative(a.size),
        blocks: blocks_for(non_negative(a.size)),
        atime: Timestamp { sec: a.mtime, nsec: 0 },
        mtime: Timestamp { sec: a.mtime, nsec: 0 },
        ctime: Timestamp { sec: a.ctime, nsec: 0 },
        kind: if a.is_dir {
            FileType::Directory
        } else {
            FileType::RegularFile
        },
        perm: permission_bits(a.mode),
        nlink: 1,
        uid,
        gid,
        rdev: 0,
        blksize: 512,
    }
}

/// The number of bytes of a text in UTF-8, as a string's length says it.
pub open spec fn utf8_len(text: Seq<char>) -> usize {
    encode_utf8(text).len() as usize
}

/// The name that the shortcut of `inode` is titled with: the name under
/// which the inode stands, or `file_` and its number.
pub open spec fn shortcut_name(m: StoreModel, inode: u64) -> Seq<char> {
    if m.is_linked(inode) {
        m.link_of(inode).1
    } else {
        "file_"@ + decimal(inode as nat)
    }
}

/// The remote id that the shortcut of `inode` leads to.
pub open spec fn shortcut_id(m: StoreModel, inode: u64) -> Seq<char> {
    if m.inodes.contains_key(inode) {
        m.inodes[inode].remote_id
    } else {
        "unknown"@
    }
}

/// The attributes with the size that is reported for a file of type `mime`:
/// for a native cloud document, the length in bytes of its shortcut.
pub open spec fn with_shortcut_size(
    base: FileAttr,
    mime: Option<Seq<char>>,
    remote_id: Seq<char>,
    name: Seq<char>,
) -> FileAttr {
    if mime is Some && is_workspace_mime(mime->0) {
        FileAttr { size: utf8_len(html_spec(remote_id, name, mime->0)) as u64, ..base }
    } else {
        base
    }
}

/// What `getattr` reports of inode `inode` with the attributes `a`.
pub open spec fn getattr_record(m: StoreModel, inode: u64, a: AttrsModel, uid: u32, gid: u32) -> FileAttr {
    with_shortcut_size(
        attr_record(inode, a, uid, gid),
        a.mime_type,
        shortcut_id(m, inode),
        shortcut_name(m, inode),
    )
}

/// A mime type of sound, film or picture.
pub open spec fn is_multimedia_mime(mime: Seq<char>) -> bool {
    is_prefix("audio/"@, mime) || is_prefix("video/"@, mime) || is_prefix("image/"@, mime)
}

/// The filesystem: where the cached bytes live, and who owns the files.
pub struct GDriveFS {
    pub cache_dir: String,
    pub uid: u32,
    pub gid: u32,
}

impl GDriveFS {
    /// A filesystem that caches under `cache_dir` and shows its files as
    /// owned by user `uid` and group `gid`.
    pub fn new(cache_dir: String, uid: u32, gid: u32) -> (fs: Self)
        ensures
            fs.cache_dir == cache_dir,
            fs.uid == uid,
            fs.gid == gid,
    {
        GDriveFS { cache_dir, uid, gid }
    }

    /// The answer to the start of a session: writes of up to 1 MiB.
    pub fn init(&self) -> (reply: ReplyInit)
        ensures
            reply.max_write == MAX_WRITE,
    {
        ReplyInit { max_write: MAX_WRITE }
    }

    /// The file that holds the cached bytes of the remote file `gdrive_id`.
    pub fn get_cache_path(&self, gdrive_id: &str) -> (path: String)
        ensures
            path@ == self.cache_dir@ + "/"@ + gdrive_id@,
    {
        let mut path = self.cache_dir.clone();
        path.append("/");
        path.append(gdrive_id);
        path
    }

    /// Whether `mime_type` is a type of sound, film or picture.
    pub fn is_multimedia_file(mime_type: &str) -> (r: bool)
        ensures
            r == is_multimedia_mime(mime_type@),
    {
        starts_with(mime_type, "audio/") || starts_with(mime_type, "video/") || starts_with(
            mime_type,
            "image/",
        )
    }

    /// The record for the kernel of the attributes `attrs` of `inode`.
    pub(crate) fn record(&self, inode: u64, attrs: &FileAttributes) -> (attr: FileAttr)
        requires
            attrs.inode == inode,
        ensures
            attr == attr_record(inode, attrs.model(), self.uid, self.gid),
    {
        attrs.to_file_attr(self.uid, self.gid)
    }

    /// The length in bytes of the shortcut of a native cloud document.
    pub(crate) fn shortcut_len(remote_id: &str, name: &str, mime: &str) -> (len: u64)
        ensures
            len == utf8_len(html_spec(remote_id@, name@, mime@)) as u64,
    {
        let page = generate_html(remote_id, name, mime);
        page.as_str().len() as u64
    }

    /// The name that the shortcut of `inode` is titled with.
    pub(crate) fn get_file_name(db: &MetadataRepository, inode: u64) -> (name: String)
        requires
            db.wf(),
        ensures
            name@ == shortcut_name(db@, inode),
    {
        match db.get_file_name(inode) {
            Some(name) => name,
            None => {
                let mut name = String::from_str("file_");
                append_decimal(&mut name, inode);
                name
            },
        }
    }

    /// The remote id that the shortcut of `inode` leads to.
    pub(crate) fn get_gdrive_id(db: &MetadataRepository, inode: u64) -> (id: String)
        requires
            db.wf(),
        ensures
            id@ == shortcut_id(db@, inode),
    {
        match db.get_gdrive_id(inode) {
            Some(id) => id,
            None => String::from_str("unknown"),
        }
    }

    /// What `getattr` reports of `inode` with the attributes `attrs`.
    fn report(&self, db: &MetadataRepository, inode: u64, attrs: &FileAttributes) -> (attr: FileAttr)
        requires
            db.wf(),
            attrs.inode == inode,
        ensures
            attr == getattr_record(db@, inode, attrs.model(), self.uid, self.gid),
    {
        let mut attr = self.record(inode, attrs);
        match &attrs.mime_type {
            Some(mime) => {
                if is_workspace_file(mime.as_str()) {
                    let name = Self::get_file_name(db, inode);
                    let id = Self::get_gdrive_id(db, inode);
                    attr.size = Self::shortcut_len(id.as_str(), name.as_str(), mime.as_str());
                }
            },
            None => {},
        }
        attr
    }

    /// Finds the child `name` of `parent` and gives its attributes, to be
    /// kept for one second. A name that is no valid UTF-8 arrives as `None`
    /// and is refused as invalid; a name that the directory does not hold is
    /// not found; a child without attributes is a failure of the store.
    pub fn lookup(&self, db: &MetadataRepository, parent: u64, name: Option<&str>, now: i64) -> (r:
        Result<ReplyEntry, FsError>)
        requires
            db.wf(),
        ensures
            r == lookup_spec(db@, parent, name, now, self.uid, self.gid),
    {
        let name = match name {
            Some(n) => n,
            None => {
                return Err(FsError::InvalidName);
            },
        };
        let inode = match db.lookup(parent, name) {
            Some(i) => i,
            None => {
                return Err(FsError::NotFound);
            },
        };
        match db.get_attrs(inode, now) {
            Ok(attrs) => Ok(
                ReplyEntry { ttl_secs: TTL_SECS, attr: self.record(inode, &attrs), generation: 0 },
            ),
            Err(_) => Err(FsError::Io),
        }
    }

    /// The attributes of `inode`, to be kept for one second. A native cloud
    /// document is reported with the size of its shortcut.
    pub fn getattr(&self, db: &MetadataRepository, inode: u64, now: i64) -> (r: Result<
        ReplyAttr,
        FsError,
    >)
        requires
            db.wf(),
        ensures
            r == match db@.attrs_or_root(inode, now) {
                Some(a) => Ok::<ReplyAttr, FsError>(
                    ReplyAttr {
                        ttl_secs: TTL_SECS,
                        attr: getattr_record(db@, inode, a, self.uid, self.gid),
                    },
                ),
                None => Err::<ReplyAttr, FsError>(FsError::NotFound),
            },
    {
        match db.get_attrs(inode, now) {
            Ok(attrs) => Ok(ReplyAttr { ttl_secs: TTL_SECS, attr: self.report(db, inode, &attrs) }),
            Err(_) => Err(FsError::NotFound),
        }
    }

    /// Opens the directory `inode`: it must exist and be a directory.
    pub fn opendir(&self, db: &MetadataRepository, inode: u64, now: i64) -> (r: Result<
        ReplyOpen,
        FsError,
    >)
        requires
            db.wf(),
        ensures
            r == match db@.attrs_or_root(inode, now) {
                Some(a) => if a.is_dir {
                    Ok::<ReplyOpen, FsError>(ReplyOpen { fh: 0, flags: 0 })
                } else {
                    Err::<ReplyOpen, FsError>(FsError::NotADirectory)
                },
                None => Err::<ReplyOpen, FsError>(FsError::NotFound),
            },
    {
        match db.get_attrs(inode, now) {
            Ok(attrs) => {
                if !attrs.is_dir {
                    Err(FsError::NotADirectory)
                } else {
                    Ok(ReplyOpen { fh: 0, flags: 0 })
                }
            },
            Err(_) => Err(FsError::NotFound),
        }
    }

    /// The figures of the filesystem as a whole.
    pub fn statfs(&self) -> (reply: ReplyStatFs)
        ensures
            reply == statfs_spec(),
    {
        ReplyStatFs {
            blocks: 1024 * 1024 * 1024,
            bfree: 512 * 1024 * 1024,
            bavail: 512 * 1024 * 1024,
            files: 1000000,
            ffree: 1000000,
            bsize: 4096,
            namelen: 255,
            frsize: 4096,
        }
    }
}

/// What a lookup answers.
pub open spec fn lookup_spec(
    m: StoreModel,
    parent: u64,
    name: Option<&str>,
    now: i64,
    uid: u32,
    gid: u32,
) -> Result<ReplyEntry, FsError> {
    match name {
        None => Err(FsError::InvalidName),
        Some(n) => match m.lookup(parent, n@) {
            None => Err(FsError::NotFound),
            Some(inode) => match m.attrs_or_root(inode, now) {
                None => Err(FsError::Io),
                Some(a) => Ok(
                    ReplyEntry {
                        ttl_secs: TTL_SECS,
                        attr: attr_record(inode, a, uid, gid),
                        generation: 0,
                    },
                ),
            },
        },
    }
}

} // verus!
