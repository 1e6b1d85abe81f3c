//! Reading a directory: the entries `.` and `..`, then the children by
//! name, from the offset that the kernel gives.
use vstd::prelude::*;
use vstd::string::*;
use crate::db::model::{AttrsModel, StoreModel};
use crate::db::repository::{children_view, short_view, MetadataRepository};
use crate::fuse::attr::{FileAttr, FileAttributes, FileType};
use crate::fuse::filesystem::{attr_record, with_shortcut_size, GDriveFS, TTL_SECS};
use crate::fuse::shortcuts::is_workspace_file;

verus! {

/// An entry of a directory, as `readdir` gives it.
#[derive(Debug)]
pub struct DirectoryEntry {
    pub inode: u64,
    pub kind: FileType,
    pub name: String,
    /// The offset at which the next call goes on.
    pub offset: i64,
}

/// An entry of a directory with its attributes, as `readdirplus` gives it.
#[derive(Debug)]
pub struct DirectoryEntryPlus {
    pub inode: u64,
    pub generation: u64,
    pub kind: FileType,
    pub name: String,
    /// The offset at which the next call goes on.
    pub offset: i64,
    pub attr: FileAttr,
    pub entry_ttl_secs: u64,
    pub attr_ttl_secs: u64,
}

/// The kind of a directory or of a file.
pub open spec fn kind_of(is_dir: bool) -> FileType {
    if is_dir {
        FileType::Directory
    } else {
        FileType::RegularFile
    }
}

/// What `..` leads to: the directory itself, but never below inode 1.
pub open spec fn dot_dot(parent: u64) -> u64 {
    if parent > 1 {
        parent
    } else {
        1
    }
}

/// An offset as the kernel takes it, limited to what it can hold.
pub open spec fn clamp_offset(n: int) -> i64 {
    if n > i64::MAX {
        i64::MAX
    } else {
        n as i64
    }
}

/// The rows of a directory: `.`, `..`, and the children.
pub open spec fn dir_rows(parent: u64, listing: Seq<(u64, Seq<char>, bool)>) -> Seq<
    (u64, Seq<char>, bool),
> {
    seq![(parent, "."@, true), (dot_dot(parent), ".."@, true)] + listing
}

/// The entries that `readdir` gives from `offset` on: the rows behind the
/// first `offset`, each with the offset of the row after it.
pub open spec fn readdir_spec(parent: u64, listing: Seq<(u64, Seq<char>, bool)>, offset: i64) -> Seq<
    (u64, FileType, Seq<char>, i64),
> {
    let rows = dir_rows(parent, listing);
    if offset < 0 || offset >= rows.len() {
        Seq::empty()
    } else {
        Seq::new(
            (rows.len() - offset) as nat,
            |k: int|
                (
                    rows[offset + k].0,
                    kind_of(rows[offset + k].2),
                    rows[offset + k].1,
                    clamp_offset(offset + k + 1),
                ),
        )
    }
}

/// The view of an entry.
pub open spec fn entry_view(e: DirectoryEntry) -> (u64, FileType, Seq<char>, i64) {
    (e.inode, e.kind, e.name@, e.offset)
}

/// The view of a list of entries.
pub open spec fn entries_view(v: Seq<DirectoryEntry>) -> Seq<(u64, FileType, Seq<char>, i64)> {
    Seq::new(v.len(), |i: int| entry_view(v[i]))
}

/// The attributes that stand in for those of an inode that has none: a
/// directory of nominal size with mode `0o755`, or an empty file with mode
/// `0o644`, changed at `now`.
pub open spec fn stand_in_attrs(is_dir: bool, now: i64) -> AttrsModel {
    AttrsModel {
        size: if is_dir {
            4096
        } else {
            0
        },
        mtime: now,
        ctime: now,
        mode: if is_dir {
            0o755
        } else {
            0o644
        },
        is_dir,
        mime_type: None,
    }
}

/// A row of a directory for `readdirplus`: inode, name, whether it is a
/// directory, and for a child its mime type and remote id.
pub type PlusRow = (u64, Seq<char>, bool, Option<Seq<char>>, Option<Seq<char>>);

/// The rows of a directory for `readdirplus`: `.`, `..`, and the children.
pub open spec fn plus_rows(
    parent: u64,
    listing: Seq<(u64, Seq<char>, bool, Option<Seq<char>>, Seq<char>)>,
) -> Seq<PlusRow> {
    seq![(parent, "."@, true, None, None), (dot_dot(parent), ".."@, true, None, None)] + Seq::new(
        listing.len(),
        |i: int| (listing[i].0, listing[i].1, listing[i].2, listing[i].3, Some(listing[i].4)),
    )
}

/// The attributes that `readdirplus` gives for a row: those of the inode,
/// or stand-ins where it has none; a native cloud document among the
/// children has the size of its shortcut.
pub open spec fn plus_attr(m: StoreModel, row: PlusRow, now: i64, uid: u32, gid: u32) -> FileAttr {
    let base = match m.attrs_or_root(row.0, now) {
        Some(a) => attr_record(row.0, a, uid, gid),
        None => attr_record(row.0, stand_in_attrs(row.2, now), uid, gid),
    };
    if row.4 is Some {
        with_shortcut_size(base, row.3, row.4->0, row.1)
    } else {
        base
    }
}

/// What `readdirplus` says of one entry: inode, kind, name, next offset and
/// attributes.
pub type PlusModel = (u64, FileType, Seq<char>, i64, FileAttr);

/// The entries that `readdirplus` gives from `offset` on.
pub open spec fn readdirplus_spec(
    m: StoreModel,
    parent: u64,
    listing: Seq<(u64, Seq<char>, bool, Option<Seq<char>>, Seq<char>)>,
    offset: u64,
    now: i64,
    uid: u32,
    gid: u32,
) -> Seq<PlusModel> {
    let rows = plus_rows(parent, listing);
    if offset >= rows.len() {
        Seq::empty()
    } else {
        Seq::new(
            (rows.len() - offset) as nat,
            |k: int|
                (
                    rows[offset + k].0,
                    kind_of(rows[offset + k].2),
                    rows[offset + k].1,
                    clamp_offset(offset + k + 1),
                    plus_attr(m, rows[offset + k], now, uid, gid),
                ),
        )
    }
}

/// The view of an entry with attributes.
pub open spec fn plus_view(e: DirectoryEntryPlus) -> PlusModel {
    (e.inode, e.kind, e.name@, e.offset, e.attr)
}

/// The view of a list of entries with attributes.
pub open spec fn plus_list_view(v: Seq<DirectoryEntryPlus>) -> Seq<PlusModel> {
    Seq::new(v.len(), |i: int| plus_view(v[i]))
}

/// The offset of the row behind child `c`, which is row `c + 2`.
fn next_child_offset(c: usize) -> (next: i64)
    ensures
        next == clamp_offset(c + 3),
{
    let wide = c as u64;
    if wide >= 0x7fff_ffff_ffff_fffd {
        0x7fff_ffff_ffff_ffff
    } else {
        (wide + 3) as i64
    }
}

impl GDriveFS {
    /// The entries of the directory `parent` from `offset` on: first `.` and
    /// `..`, then the children by name. Each entry carries the offset of the
    /// entry behind it. Once the offset has reached the number of entries,
    /// nothing is listed, and the children are not even read.
    pub fn readdir(&self, db: &MetadataRepository, parent: u64, offset: i64) -> (entries: Vec<
        DirectoryEntry,
    >)
        requires
            db.wf(),
        ensures
            offset < 0 || offset >= db@.names_under(parent).len() + 2 ==> entries@.len() == 0,
            0 <= offset < db@.names_under(parent).len() + 2 ==> exists|
                listing: Seq<(u64, Seq<char>, bool)>,
            |
                db@.is_listing(parent, listing) && entries_view(entries@) == readdir_spec(
                    parent,
                    listing,
                    offset,
                ),
    {
        let mut entries: Vec<DirectoryEntry> = Vec::new();
        if offset < 0 {
            return entries;
        }
        let skip = offset as u64;
        let child_count = db.count_children(parent);
        if skip >= 2 && skip - 2 >= child_count {
            return entries;
        }
        let children = db.list_children(parent);
        let ghost listing = short_view(children@);
        let ghost rows = dir_rows(parent, listing);
        if skip == 0 {
            entries.push(
                DirectoryEntry {
                    inode: parent,
                    kind: FileType::Directory,
                    name: String::from_str("."),
                    offset: 1,
                },
            );
        }
        if skip <= 1 {
            entries.push(
                DirectoryEntry {
                    inode: if parent > 1 {
                        parent
                    } else {
                        1
                    },
                    kind: FileType::Directory,
                    name: String::from_str(".."),
                    offset: 2,
                },
            );
        }
        let first: usize = if skip > 2 {
            (skip - 2) as usize
        } else {
            0
        };
        let ghost dots = entries@.len();
        let mut c: usize = first;
        while c < children.len()
            invariant
                first <= c,
                first < children.len() ==> c <= children.len(),
                first >= children.len() ==> c == first,
                listing == short_view(children@),
                rows == dir_rows(parent, listing),
                0 <= offset,
                first == (if offset > 2 {
                    offset - 2
                } else {
                    0
                }),
                dots == (if offset >= 2 {
                    0
                } else {
                    2 - offset
                }),
                entries@.len() == dots + c - first,
                forall|j: int|
                    0 <= j < entries@.len() ==> entry_view(#[trigger] entries@[j]) == (
                        rows[offset + j].0,
                        kind_of(rows[offset + j].2),
                        rows[offset + j].1,
                        clamp_offset(offset + j + 1),
                    ),
            decreases children.len() - c,
        {
            let child = &children[c];
            proof {
                assert(rows[c + 2] == listing[c as int]);
            }
            entries.push(
                DirectoryEntry {
                    inode: child.0,
                    kind: if child.2 {
                        FileType::Directory
                    } else {
                        FileType::RegularFile
                    },
                    name: child.1.clone(),
                    offset: next_child_offset(c),
                },
            );
            c += 1;
        }
        proof {
            let want = readdir_spec(parent, listing, offset);
            assert(listing.len() == children.len());
            assert(rows.len() == children.len() + 2);
            assert(entries_view(entries@).len() == want.len());
            assert forall|j: int| 0 <= j < want.len() implies entries_view(entries@)[j]
                == want[j] by {
                assert(entries_view(entries@)[j] == entry_view(entries@[j]));
            }
            assert(entries_view(entries@) =~= want);
        }
        entries
    }

    /// The attributes that `readdirplus` gives for a row.
    fn plus_attr_of(
        &self,
        db: &MetadataRepository,
        inode: u64,
        is_dir: bool,
        mime: &Option<String>,
        remote_id: Option<&str>,
        name: &str,
        now: i64,
    ) -> (attr: FileAttr)
        requires
            db.wf(),
        ensures
            attr == plus_attr(
                db@,
                (
                    inode,
                    name@,
                    is_dir,
                    crate::db::repository::opt_view(*mime),
                    crate::db::repository::opt_str_view(remote_id),
                ),
                now,
                self.uid,
                self.gid,
            ),
    {
        let mut attr = match db.get_attrs(inode, now) {
            Ok(attrs) => attrs.to_file_attr(self.uid, self.gid),
            Err(_) => {
                let stand_in = FileAttributes {
                    inode: if inode > 0x7fff_ffff_ffff_ffff {
                        0
                    } else {
                        inode as i64
                    },
                    size: if is_dir {
                        4096
                    } else {
                        0
                    },
                    mtime: now,
                    ctime: now,
                    mode: if is_dir {
                        0o755
                    } else {
                        0o644
                    },
                    is_dir,
                    mime_type: None,
                };
                let mut record = stand_in.to_file_attr(self.uid, self.gid);
                record.ino = inode;
                record
            },
        };
        match (mime, remote_id) {
            (Some(m), Some(id)) => {
                if is_workspace_file(m.as_str()) {
                    attr.size = Self::shortcut_len(id, name, m.as_str());
                }
            },
            _ => {},
        }
        attr
    }

    /// The entries of the directory `parent` from `offset` on, each with its
    /// attributes: first `.` and `..`, then the children by name. A native
    /// cloud document among the children is listed with the size of its
    /// shortcut. Once the offset has reached the number of entries, nothing
    /// is listed, and the children are not even read.
    pub fn readdirplus(&self, db: &MetadataRepository, parent: u64, offset: u64, now: i64) -> (entries:
        Vec<DirectoryEntryPlus>)
        requires
            db.wf(),
        ensures
            offset >= db@.names_under(parent).len() + 2 ==> entries@.len() == 0,
            offset < db@.names_under(parent).len() + 2 ==> exists|
                listing: Seq<(u64, Seq<char>, bool, Option<Seq<char>>, Seq<char>)>,
            |
                db@.is_listing_extended(parent, listing) && plus_list_view(entries@)
                    == readdirplus_spec(db@, parent, listing, offset, now, self.uid, self.gid),
            forall|j: int|
                0 <= j < entries@.len() ==> (#[trigger] entries@[j]).generation == 0
                    && entries@[j].entry_ttl_secs == TTL_SECS && entries@[j].attr_ttl_secs
                    == TTL_SECS,
    {
        let mut entries: Vec<DirectoryEntryPlus> = Vec::new();
        let child_count = db.count_children(parent);
        if offset >= 2 && offset - 2 >= child_count {
            return entries;
        }
        let children = db.list_children_extended(parent);
        let ghost listing = children_view(children@);
        let ghost rows = plus_rows(parent, listing);
        let nothing: Option<String> = None;
        if offset == 0 {
            entries.push(
                DirectoryEntryPlus {
                    inode: parent,
                    generation: 0,
                    kind: FileType::Directory,
                    name: String::from_str("."),
                    offset: 1,
                    attr: self.plus_attr_of(db, parent, true, &nothing, None, ".", now),
                    entry_ttl_secs: TTL_SECS,
                    attr_ttl_secs: TTL_SECS,
                },
            );
        }
        if offset <= 1 {
            let up: u64 = if parent > 1 {
                parent
            } else {
                1
            };
            entries.push(
                DirectoryEntryPlus {
                    inode: up,
                    generation: 0,
                    kind: FileType::Directory,
                    name: String::from_str(".."),
                    offset: 2,
                    attr: self.plus_attr_of(db, up, true, &nothing, None, "..", now),
                    entry_ttl_secs: TTL_SECS,
                    attr_ttl_secs: TTL_SECS,
                },
            );
        }
        let first: usize = if offset > 2 {
            (offset - 2) as usize
        } else {
            0
        };
        let ghost dots = entries@.len();
        let mut c: usize = first;
        while c < children.len()
            invariant
                db.wf(),
                first <= c,
                first < children.len() ==> c <= children.len(),
                first >= children.len() ==> c == first,
                listing == children_view(children@),
                rows == plus_rows(parent, listing),
                first == (if offset > 2 {
                    offset - 2
                } else {
                    0
                }),
                dots == (if offset >= 2 {
                    0
                } else {
                    2 - offset
                }),
                entries@.len() == dots + c - first,
                forall|j: int|
                    0 <= j < entries@.len() ==> plus_view(#[trigger] entries@[j]) == (
                        rows[offset + j].0,
                        kind_of(rows[offset + j].2),
                        rows[offset + j].1,
                        clamp_offset(offset + j + 1),
                        plus_attr(db@, rows[offset + j], now, self.uid, self.gid),
                    ),
                forall|j: int|
                    0 <= j < entries@.len() ==> (#[trigger] entries@[j]).generation == 0
                        && entries@[j].entry_ttl_secs == TTL_SECS && entries@[j].attr_ttl_secs
                        == TTL_SECS,
            decreases children.len() - c,
        {
            let child = &children[c];
            proof {
                assert(listing[c as int] == crate::db::repository::child_view(children@[c as int]));
                assert(rows[c + 2] == (
                    listing[c as int].0,
                    listing[c as int].1,
                    listing[c as int].2,
                    listing[c as int].3,
                    Some(listing[c as int].4),
                ));
            }
            let attr = self.plus_attr_of(
                db,
                child.0,
                child.2,
                &child.3,
                Some(child.4.as_str()),
                child.1.as_str(),
                now,
            );
            entries.push(
                DirectoryEntryPlus {
                    inode: child.0,
                    generation: 0,
                    kind: if child.2 {
                        FileType::Directory
                    } else {
                        FileType::RegularFile
                    },
                    name: child.1.clone(),
                    offset: next_child_offset(c),
                    attr,
                    entry_ttl_secs: TTL_SECS,
                    attr_ttl_secs: TTL_SECS,
                },
            );
            c += 1;
        }
        proof {
            let want = readdirplus_spec(db@, parent, listing, offset, now, self.uid, self.gid);
            assert(listing.len() == children.len());
            assert(rows.len() == children.len() + 2);
            assert(plus_list_view(entries@).len() == want.len());
            assert forall|j: int| 0 <= j < want.len() implies plus_list_view(entries@)[j]
                == want[j] by {
                assert(plus_list_view(entries@)[j] == plus_view(entries@[j]));
            }
            assert(plus_list_view(entries@) =~= want);
        }
        entries
    }
}

} // verus!
