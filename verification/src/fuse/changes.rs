//! The operations that change the tree or a file: create, write, setattr,
//! unlink and rename. Each one leaves the inode dirty, for the uploader to
//! push the change.
use vstd::prelude::*;
use vstd::string::*;
use crate::db::model::{AttrsModel, StoreModel, MAX_INODE};
use crate::db::repository::{MetadataRepository, StoreError};
use crate::db::rules::{
    lemma_dentries_without, lemma_get_or_create_wf, lemma_inode_of, lemma_link_of, lemma_linked,
    lemma_remove_dentry_wf, lemma_soft_delete_inode_wf, lemma_upsert_attrs_wf,
    lemma_upsert_dentry_wf,
};
use crate::fuse::filesystem::{
    attr_record, FsError, GDriveFS, ReplyAttr, ReplyCreated, ReplyWrite, TTL_SECS,
};
use crate::text::is_prefix;

verus! {

/// The mime type of a file that was created locally.
pub open spec fn octet_stream() -> Seq<char> {
    "application/octet-stream"@
}

/// The prefix of the remote id of a file that was not pushed yet.
pub open spec fn temp_prefix() -> Seq<char> {
    "temp_"@
}

/// The fields of an inode that `setattr` is to change.
#[derive(Debug, Clone, Copy, PartialEq, Eq, Structural)]
pub struct SetAttr {
    /// The new size in bytes.
    pub size: Option<u64>,
    /// The new modification time, in seconds since the epoch.
    pub mtime: Option<i64>,
    /// The new mode.
    pub mode: Option<u32>,
}

/// A size as the store keeps it, limited to what it can hold.
pub open spec fn stored_size(size: u64) -> i64 {
    if size > i64::MAX {
        i64::MAX
    } else {
        size as i64
    }
}

/// A size as the store keeps it, if one is given.
pub open spec fn stored_size_opt(size: Option<u64>) -> Option<i64> {
    match size {
        Some(s) => Some(stored_size(s)),
        None => None,
    }
}

/// A mode as the store keeps it, if one is given.
pub open spec fn stored_mode_opt(mode: Option<u32>) -> Option<i64> {
    match mode {
        Some(m) => Some(m as i64),
        None => None,
    }
}

/// A new file can be created under `(parent, name)` with the remote id
/// `temp_id`: the directory exists, the id is new, and an inode number is
/// left.
pub open spec fn can_create(m: StoreModel, parent: u64, temp_id: Seq<char>) -> bool {
    m.inodes.contains_key(parent) && !m.knows(temp_id) && m.next_inode <= MAX_INODE
}

/// The store after a file was created: a new inode with the remote id
/// `temp_id`, attributes of an empty file with the mime type of plain bytes,
/// an entry under `(parent, name)`, and a sync state that is dirty.
pub open spec fn created(
    m: StoreModel,
    parent: u64,
    name: Seq<char>,
    mode: u32,
    temp_id: Seq<char>,
    now: i64,
) -> StoreModel {
    let inode = m.next_inode;
    m.insert_inode(inode, temp_id, now).upsert_attrs(
        inode,
        0,
        now,
        mode as i64,
        false,
        Some(octet_stream()),
    ).upsert_dentry(parent, inode, name).mark_dirty(inode)
}

/// The store after the file `inode` was unlinked at `now`.
pub open spec fn unlinked(m: StoreModel, inode: u64, now: i64) -> StoreModel {
    m.soft_delete_inode(inode, now).mark_dirty(inode)
}

/// The store after `inode` moved from `(parent, name)` to `(new_parent,
/// new_name)`: what stood at the destination, if it was another inode, is
/// soft-deleted.
pub open spec fn renamed(
    m: StoreModel,
    inode: u64,
    parent: u64,
    name: Seq<char>,
    new_parent: u64,
    new_name: Seq<char>,
    now: i64,
) -> StoreModel {
    let cleared = match m.lookup(new_parent, new_name) {
        Some(other) => if other != inode {
            m.soft_delete_inode(other, now)
        } else {
            m
        },
        None => m,
    };
    cleared.remove_dentry(parent, name).upsert_dentry(new_parent, inode, new_name).mark_dirty(inode)
}

/// The store after a write left the local copy of `inode` with `new_size`
/// bytes at `now`.
pub open spec fn written(m: StoreModel, inode: u64, new_size: u64, now: i64) -> StoreModel {
    m.patch_attrs(inode, Some(stored_size(new_size)), Some(now), None).mark_dirty(inode)
}

/// The store after `setattr` changed the given fields of `inode`; a change
/// of size leaves the inode dirty.
pub open spec fn attrs_set(m: StoreModel, inode: u64, set_attr: SetAttr) -> StoreModel {
    let patched = m.patch_attrs(
        inode,
        stored_size_opt(set_attr.size),
        set_attr.mtime,
        stored_mode_opt(set_attr.mode),
    );
    if set_attr.size is Some {
        patched.mark_dirty(inode)
    } else {
        patched
    }
}

/// After a file was created, its name leads to the new inode, which is an
/// empty file that waits to be pushed.
pub proof fn law_created_file_is_found(
    m: StoreModel,
    parent: u64,
    name: Seq<char>,
    mode: u32,
    temp_id: Seq<char>,
    now: i64,
)
    requires
        m.wf(),
        can_create(m, parent, temp_id),
    ensures
        ({
            let after = created(m, parent, name, mode, temp_id, now);
            let inode = m.next_inode;
            &&& after.wf()
            &&& after.lookup(parent, name) == Some(inode)
            &&& after.attrs.contains_key(inode)
            &&& after.attrs[inode].size == 0
            &&& !after.attrs[inode].is_dir
            &&& after.sync.contains_key(inode)
            &&& after.sync[inode].dirty
            &&& after.find_inode(temp_id) == Some(inode)
        }),
{
    let inode = m.next_inode;
    let m1 = m.insert_inode(inode, temp_id, now);
    lemma_get_or_create_wf(m, temp_id, now);
    assert(m1 == m.get_or_create_inode(temp_id, now).0);
    assert(!m1.has_chunks(inode)) by {
        if m1.has_chunks(inode) {
            let s = choose|s: u64| #[trigger] m1.chunks.contains_key((inode, s));
            assert(m.chunks.contains_key((inode, s)));
        }
    }
    lemma_upsert_attrs_wf(m1, inode, 0, now, mode as i64, false, Some(octet_stream()));
    let m2 = m1.upsert_attrs(inode, 0, now, mode as i64, false, Some(octet_stream()));
    assert(m2.wf());
    assert(m2.inodes.contains_key(parent) && m2.inodes.contains_key(inode));
    assert(!m2.tombstones.contains_key(inode));
    lemma_upsert_dentry_wf(m2, parent, inode, name);
    let m3 = m2.upsert_dentry(parent, inode, name);
    assert(m3.wf());
    crate::db::rules::lemma_sync_wf(m3, inode, Seq::empty());
    let m4 = m3.mark_dirty(inode);
    assert(m4 == created(m, parent, name, mode, temp_id, now));
    assert(m4.dentries == m3.dentries);
    assert(m4.attrs == m2.attrs);
    assert(m4.inodes == m1.inodes);
    lemma_inode_of(m4, inode);
}

/// After a file was unlinked, its name leads nowhere, and the inode is
/// soft-deleted.
pub proof fn law_unlinked_file_is_gone(m: StoreModel, parent: u64, name: Seq<char>, now: i64)
    requires
        m.wf(),
        m.lookup(parent, name) is Some,
    ensures
        ({
            let inode = m.lookup(parent, name)->0;
            let after = unlinked(m, inode, now);
            &&& after.wf()
            &&& after.lookup(parent, name) is None
            &&& after.has_tombstone(m.inodes[inode].remote_id)
            &&& after.sync[inode].dirty
            &&& after.sync[inode].deleted_at == Some(now)
        }),
{
    let inode = m.dentries[(parent, name)];
    lemma_link_of(m, (parent, name));
    lemma_soft_delete_inode_wf(m, inode, now);
    let d = m.soft_delete_inode(inode, now);
    let after = unlinked(m, inode, now);
    lemma_inode_of(after, inode);
}

/// After a rename to another place, the old name leads nowhere and the new
/// name leads to the inode.
pub proof fn law_renamed_file_moves(
    m: StoreModel,
    parent: u64,
    name: Seq<char>,
    new_parent: u64,
    new_name: Seq<char>,
    now: i64,
)
    requires
        m.wf(),
        m.lookup(parent, name) is Some,
        m.inodes.contains_key(new_parent),
    ensures
        ({
            let inode = m.lookup(parent, name)->0;
            let after = renamed(m, inode, parent, name, new_parent, new_name, now);
            &&& after.wf()
            &&& after.lookup(new_parent, new_name) == Some(inode)
            &&& (parent, name) != (new_parent, new_name) ==> after.lookup(parent, name) is None
            &&& after.sync[inode].dirty
        }),
{
    let inode = m.dentries[(parent, name)];
    lemma_link_of(m, (parent, name));
    let cleared = match m.lookup(new_parent, new_name) {
        Some(other) => if other != inode {
            m.soft_delete_inode(other, now)
        } else {
            m
        },
        None => m,
    };
    if m.lookup(new_parent, new_name) is Some && m.dentries[(new_parent, new_name)] != inode {
        let other = m.dentries[(new_parent, new_name)];
        lemma_link_of(m, (new_parent, new_name));
        lemma_soft_delete_inode_wf(m, other, now);
        assert(cleared.dentries.contains_key((parent, name)));
    }
    assert(cleared.wf());
    assert(cleared.dentries.contains_key((parent, name)) && cleared.dentries[(parent, name)]
        == inode);
    assert(!cleared.tombstones.contains_key(inode));
    lemma_remove_dentry_wf(cleared, parent, name);
    let removed = cleared.remove_dentry(parent, name);
    lemma_upsert_dentry_wf(removed, new_parent, inode, new_name);
    lemma_dentries_without(removed, inode);
}

/// A fresh random identifier: the result of `uuid::Uuid::new_v4`, printed as
/// `Display` prints it, which is the hyphenated form of 36 characters.
/// Nothing else is known of it: two calls give two values.
#[verifier::external_body]
fn fresh_uuid() -> (id: String)
    ensures
        id@.len() == 36,
{
    uuid::Uuid::new_v4().to_string()
}

impl GDriveFS {
    /// Creates an empty file `name` in the directory `parent`, with a fresh
    /// remote id that starts with `temp_`. See `create_with_id` for what is
    /// created and when it fails.
    pub fn create(
        &self,
        db: &mut MetadataRepository,
        parent: u64,
        name: Option<&str>,
        mode: u32,
        flags: u32,
        now: i64,
    ) -> (r: Result<ReplyCreated, FsError>)
        requires
            old(db).wf(),
        ensures
            final(db).wf(),
            exists|temp_id: Seq<char>|
                is_prefix(temp_prefix(), temp_id) && temp_id.len() == 41 && create_outcome(
                    old(db)@,
                    final(db)@,
                    r,
                    parent,
                    name,
                    mode,
                    temp_id,
                    now,
                    self.uid,
                    self.gid,
                ),
    {
        let uuid = fresh_uuid();
        let mut temp_id = String::from_str("temp_");
        temp_id.append(uuid.as_str());
        proof {
            reveal_strlit("temp_");
            assert(temp_id@.subrange(0, 5) =~= temp_prefix());
        }
        let r = self.create_with_id(db, parent, name, mode, flags, temp_id.as_str(), now);
        proof {
            reveal_strlit("temp_");
            assert(temp_prefix().len() == 5);
            assert(temp_id@.len() == 41);
            assert(is_prefix(temp_prefix(), temp_id@));
            assert(create_outcome(
                old(db)@,
                db@,
                r,
                parent,
                name,
                mode,
                temp_id@,
                now,
                self.uid,
                self.gid,
            ));
        }
        r
    }

    /// Creates an empty file `name` in the directory `parent`, with the
    /// remote id `temp_id`: a new inode, attributes of an empty file with the
    /// given mode, the entry in the directory, and a dirty sync state. A name
    /// that is no valid UTF-8 is refused as invalid. Where the directory
    /// does not exist, the id is taken or no inode number is left, the store
    /// fails; nothing is created then.
    pub fn create_with_id(
        &self,
        db: &mut MetadataRepository,
        parent: u64,
        name: Option<&str>,
        mode: u32,
        flags: u32,
        temp_id: &str,
        now: i64,
    ) -> (r: Result<ReplyCreated, FsError>)
        requires
            old(db).wf(),
        ensures
            final(db).wf(),
            create_outcome(
                old(db)@,
                final(db)@,
                r,
                parent,
                name,
                mode,
                temp_id@,
                now,
                self.uid,
                self.gid,
            ),
    {
        proof {
            db.lemma_wf();
        }
        let name = match name {
            Some(n) => n,
            None => {
                return Err(FsError::InvalidName);
            },
        };
        if db.get_gdrive_id(parent).is_none() || db.get_inode_by_gdrive_id(temp_id).is_some() {
            return Err(FsError::Io);
        }
        let inode = match db.get_or_create_inode(temp_id, now) {
            Ok(i) => i,
            Err(_) => {
                return Err(FsError::Io);
            },
        };
        proof {
            law_created_file_is_found(old(db)@, parent, name@, mode, temp_id@, now);
            db.lemma_wf();
            assert(!db@.has_chunks(inode)) by {
                if db@.has_chunks(inode) {
                    let s = choose|s: u64| #[trigger] db@.chunks.contains_key((inode, s));
                    assert(old(db)@.chunks.contains_key((inode, s)));
                }
            }
        }
        let attrs_done = db.upsert_file_metadata(
            inode,
            0,
            now,
            mode,
            false,
            Some("application/octet-stream"),
        );
        assert(attrs_done is Ok);
        proof {
            db.lemma_wf();
        }
        let linked = db.upsert_dentry(parent, inode, name);
        assert(linked is Ok);
        let marked = db.mark_dirty(inode);
        assert(marked is Ok);
        assert(db@ == created(old(db)@, parent, name@, mode, temp_id@, now));
        match db.get_attrs(inode, now) {
            Ok(attrs) => Ok(
                ReplyCreated {
                    ttl_secs: TTL_SECS,
                    attr: self.record(inode, &attrs),
                    generation: 0,
                    fh: 0,
                    flags: 0,
                },
            ),
            Err(_) => Err(FsError::Io),
        }
    }

    /// The remote file whose local copy a write to `inode` goes to.
    pub fn write_target(&self, db: &MetadataRepository, inode: u64) -> (r: Result<String, FsError>)
        requires
            db.wf(),
        ensures
            db@.inodes.contains_key(inode) ==> r is Ok && r->Ok_0@ == db@.inodes[inode].remote_id,
            !db@.inodes.contains_key(inode) ==> r == Err::<String, FsError>(FsError::NotFound),
    {
        match db.get_gdrive_id(inode) {
            Some(id) => Ok(id),
            None => Err(FsError::NotFound),
        }
    }

    /// Records a write of `written` bytes that left the local copy of
    /// `inode` with `new_size` bytes: the size and the modification time are
    /// updated, the inode is dirty, and the number of bytes written is
    /// answered as it is. Nothing changes where the inode does not exist.
    pub fn write(
        &self,
        db: &mut MetadataRepository,
        inode: u64,
        written: u32,
        new_size: u64,
        now: i64,
    ) -> (r: Result<ReplyWrite, FsError>)
        requires
            old(db).wf(),
        ensures
            final(db).wf(),
            old(db)@.inodes.contains_key(inode) ==> r == Ok::<ReplyWrite, FsError>(
                ReplyWrite { written },
            ) && final(db)@ == crate::fuse::changes::written(old(db)@, inode, new_size, now),
            !old(db)@.inodes.contains_key(inode) ==> r == Err::<ReplyWrite, FsError>(
                FsError::NotFound,
            ) && final(db)@ == old(db)@,
    {
        if db.get_gdrive_id(inode).is_none() {
            return Err(FsError::NotFound);
        }
        let size: i64 = if new_size > 0x7fff_ffff_ffff_ffff {
            0x7fff_ffff_ffff_ffff
        } else {
            new_size as i64
        };
        db.patch_attrs(inode, Some(size), Some(now), None);
        proof {
            db.lemma_wf();
        }
        let marked = db.mark_dirty(inode);
        assert(marked is Ok);
        Ok(ReplyWrite { written })
    }

    /// The remote file whose local copy is to be cut or filled to a new
    /// size before `setattr` is recorded, and that size; `None` where the
    /// size does not change.
    pub fn truncate_target(&self, db: &MetadataRepository, inode: u64, set_attr: SetAttr) -> (r:
        Result<Option<(String, u64)>, FsError>)
        requires
            db.wf(),
        ensures
            set_attr.size is None ==> r is Ok && r->Ok_0 is None,
            set_attr.size is Some && !db@.inodes.contains_key(inode) ==> r == Err::<
                Option<(String, u64)>,
                FsError,
            >(FsError::NotFound),
            set_attr.size is Some && db@.inodes.contains_key(inode) ==> r is Ok && r->Ok_0 is Some
                && ({
                let target = r->Ok_0->Some_0;
                target.0@ == db@.inodes[inode].remote_id && target.1 == set_attr.size->Some_0
            }),
    {
        match set_attr.size {
            None => Ok(None),
            Some(size) => match db.get_gdrive_id(inode) {
                Some(id) => Ok(Some((id, size))),
                None => Err(FsError::NotFound),
            },
        }
    }

    /// Changes the size, the modification time and the mode of `inode`, each
    /// where one is given, and answers the attributes as they are then. A
    /// change of size leaves the inode dirty, and is refused where the inode
    /// does not exist; nothing changes then.
    pub fn setattr(&self, db: &mut MetadataRepository, inode: u64, set_attr: SetAttr, now: i64) -> (r:
        Result<ReplyAttr, FsError>)
        requires
            old(db).wf(),
        ensures
            final(db).wf(),
            set_attr.size is Some && !old(db)@.inodes.contains_key(inode) ==> r == Err::<
                ReplyAttr,
                FsError,
            >(FsError::NotFound) && final(db)@ == old(db)@,
            !(set_attr.size is Some && !old(db)@.inodes.contains_key(inode)) ==> final(db)@
                == attrs_set(old(db)@, inode, set_attr) && r == (match final(db)@.attrs_or_root(
                inode,
                now,
            ) {
                Some(a) => Ok::<ReplyAttr, FsError>(
                    ReplyAttr {
                        ttl_secs: TTL_SECS,
                        attr: attr_record(inode, a, self.uid, self.gid),
                    },
                ),
                None => Err::<ReplyAttr, FsError>(FsError::NotFound),
            }),
    {
        let size: Option<i64> = match set_attr.size {
            Some(s) => {
                if db.get_gdrive_id(inode).is_none() {
                    return Err(FsError::NotFound);
                }
                if s > 0x7fff_ffff_ffff_ffff {
                    Some(0x7fff_ffff_ffff_ffff)
                } else {
                    Some(s as i64)
                }
            },
            None => None,
        };
        let mode: Option<i64> = match set_attr.mode {
            Some(m) => Some(m as i64),
            None => None,
        };
        db.patch_attrs(inode, size, set_attr.mtime, mode);
        if size.is_some() {
            proof {
                db.lemma_wf();
            }
            let marked = db.mark_dirty(inode);
            assert(marked is Ok);
        }
        match db.get_attrs(inode, now) {
            Ok(attrs) => Ok(ReplyAttr { ttl_secs: TTL_SECS, attr: self.record(inode, &attrs) }),
            Err(_) => Err(FsError::NotFound),
        }
    }

    /// Removes the file `name` from the directory `parent`: the inode is
    /// soft-deleted at `now`, so that the name leads nowhere at once, and
    /// left dirty, for the deletion to be pushed. A name that is no valid
    /// UTF-8 is refused as invalid; a name that the directory does not hold
    /// is not found.
    pub fn unlink(&self, db: &mut MetadataRepository, parent: u64, name: Option<&str>, now: i64) -> (r:
        Result<(), FsError>)
        requires
            old(db).wf(),
        ensures
            final(db).wf(),
            name is None ==> r == Err::<(), FsError>(FsError::InvalidName) && final(db)@
                == old(db)@,
            name is Some && old(db)@.lookup(parent, name->0@) is None ==> r == Err::<(), FsError>(
                FsError::NotFound,
            ) && final(db)@ == old(db)@,
            name is Some && old(db)@.lookup(parent, name->0@) is Some ==> r is Ok && final(db)@
                == unlinked(old(db)@, old(db)@.lookup(parent, name->0@)->0, now),
    {
        let name = match name {
            Some(n) => n,
            None => {
                return Err(FsError::InvalidName);
            },
        };
        let inode = match db.lookup(parent, name) {
            Some(i) => i,
            None => {
                return Err(FsError::NotFound);
            },
        };
        proof {
            db.lemma_wf();
            lemma_inode_of(db@, inode);
        }
        let id = match db.get_gdrive_id(inode) {
            Some(id) => id,
            None => {
                return Err(FsError::NotFound);
            },
        };
        db.soft_delete_by_gdrive_id(id.as_str(), now);
        proof {
            db.lemma_wf();
        }
        let marked = db.mark_dirty(inode);
        assert(marked is Ok);
        Ok(())
    }

    /// Moves the file `name` of the directory `parent` to `new_name` in
    /// `new_parent`. What stands at the destination is soft-deleted first,
    /// unless it is the file itself. The inode is left dirty. A name that is
    /// no valid UTF-8 is refused as invalid; a source that does not exist is
    /// not found; where the new directory does not exist the store fails.
    /// Nothing changes in these cases.
    pub fn rename(
        &self,
        db: &mut MetadataRepository,
        parent: u64,
        name: Option<&str>,
        new_parent: u64,
        new_name: Option<&str>,
        now: i64,
    ) -> (r: Result<(), FsError>)
        requires
            old(db).wf(),
        ensures
            final(db).wf(),
            r == rename_result(old(db)@, parent, name, new_parent, new_name),
            r is Err ==> final(db)@ == old(db)@,
            r is Ok ==> final(db)@ == renamed(
                old(db)@,
                old(db)@.lookup(parent, name->0@)->0,
                parent,
                name->0@,
                new_parent,
                new_name->0@,
                now,
            ),
    {
        let name = match name {
            Some(n) => n,
            None => {
                return Err(FsError::InvalidName);
            },
        };
        let new_name = match new_name {
            Some(n) => n,
            None => {
                return Err(FsError::InvalidName);
            },
        };
        let inode = match db.lookup(parent, name) {
            Some(i) => i,
            None => {
                return Err(FsError::NotFound);
            },
        };
        if db.get_gdrive_id(new_parent).is_none() {
            return Err(FsError::Io);
        }
        proof {
            db.lemma_wf();
            law_renamed_file_moves(old(db)@, parent, name@, new_parent, new_name@, now);
            lemma_link_of(db@, (parent, name@));
        }
        match db.lookup(new_parent, new_name) {
            Some(other) => {
                if other != inode {
                    proof {
                        lemma_inode_of(db@, other);
                        lemma_link_of(db@, (new_parent, new_name@));
                        lemma_soft_delete_inode_wf(db@, other, now);
                    }
                    match db.get_gdrive_id(other) {
                        Some(id) => {
                            db.soft_delete_by_gdrive_id(id.as_str(), now);
                        },
                        None => {},
                    }
                }
            },
            None => {},
        }
        let ghost cleared = db@;
        proof {
            db.lemma_wf();
            assert(cleared.inodes == old(db)@.inodes);
            assert(cleared == (match old(db)@.lookup(new_parent, new_name@) {
                Some(other) => if other != inode {
                    old(db)@.soft_delete_inode(other, now)
                } else {
                    old(db)@
                },
                None => old(db)@,
            }));
            assert(cleared.dentries.contains_key((parent, name@)) && cleared.dentries[(
                parent,
                name@,
            )] == inode);
            assert(!cleared.tombstones.contains_key(inode));
            lemma_remove_dentry_wf(cleared, parent, name@);
        }
        db.remove_dentry(parent, name);
        proof {
            db.lemma_wf();
            assert(db@.inodes == cleared.inodes);
            assert(db@.tombstones == cleared.tombstones);
            assert(db@.inodes.contains_key(new_parent));
            assert(db@.inodes.contains_key(inode));
        }
        let linked = db.upsert_dentry(new_parent, inode, new_name);
        assert(linked is Ok);
        proof {
            db.lemma_wf();
        }
        let marked = db.mark_dirty(inode);
        assert(marked is Ok);
        Ok(())
    }
}

/// What `rename` answers.
pub open spec fn rename_result(
    m: StoreModel,
    parent: u64,
    name: Option<&str>,
    new_parent: u64,
    new_name: Option<&str>,
) -> Result<(), FsError> {
    if name is None || new_name is None {
        Err(FsError::InvalidName)
    } else if m.lookup(parent, name->0@) is None {
        Err(FsError::NotFound)
    } else if !m.inodes.contains_key(new_parent) {
        Err(FsError::Io)
    } else {
        Ok(())
    }
}

/// What `create` leaves and answers, for the remote id `temp_id`.
pub open spec fn create_outcome(
    before: StoreModel,
    after: StoreModel,
    r: Result<ReplyCreated, FsError>,
    parent: u64,
    name: Option<&str>,
    mode: u32,
    temp_id: Seq<char>,
    now: i64,
    uid: u32,
    gid: u32,
) -> bool {
    if name is None {
        r == Err::<ReplyCreated, FsError>(FsError::InvalidName) && after == before
    } else if !can_create(before, parent, temp_id) {
        r == Err::<ReplyCreated, FsError>(FsError::Io) && after == before
    } else {
        &&& after == created(before, parent, name->0@, mode, temp_id, now)
        &&& r == Ok::<ReplyCreated, FsError>(
            ReplyCreated {
                ttl_secs: TTL_SECS,
                attr: attr_record(before.next_inode, after.attrs[before.next_inode], uid, gid),
                generation: 0,
                fh: 0,
                flags: 0,
            },
        )
    }
}

} // verus!
