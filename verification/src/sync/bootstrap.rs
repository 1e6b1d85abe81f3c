//! The first synchronization: every file of the remote account gets an
//! inode and attributes, and then its place in the tree.
use vstd::prelude::*;
use vstd::string::*;
use crate::db::model::{folder_mime, StoreFault, StoreModel, ROOT_INODE};
use crate::db::repository::{opt_view, MetadataRepository, StoreError};
use crate::text::str_eq;

verus! {

/// A file of the remote account, as a listing or a change describes it.
#[derive(Debug)]
pub struct RemoteFile {
    pub id: Option<String>,
    pub name: Option<String>,
    pub parents: Option<Vec<String>>,
    pub mime_type: Option<String>,
    pub size: Option<i64>,
    /// The time of the last change, in seconds since the epoch.
    pub modified_time: Option<i64>,
    pub md5_checksum: Option<String>,
    pub trashed: Option<bool>,
}

/// The view of a remote file.
pub struct RemoteFileModel {
    pub id: Option<Seq<char>>,
    pub name: Option<Seq<char>>,
    pub parents: Option<Seq<Seq<char>>>,
    pub mime_type: Option<Seq<char>>,
    pub size: Option<i64>,
    pub modified_time: Option<i64>,
    pub md5_checksum: Option<Seq<char>>,
    pub trashed: Option<bool>,
}

/// The view of a list of strings.
pub open spec fn strings_view(v: Seq<String>) -> Seq<Seq<char>> {
    Seq::new(v.len(), |i: int| v[i]@)
}

/// The view of an optional list of strings.
pub open spec fn opt_strings_view(v: Option<Vec<String>>) -> Option<Seq<Seq<char>>> {
    match v {
        Some(list) => Some(strings_view(list@)),
        None => None,
    }
}

impl View for RemoteFile {
    type V = RemoteFileModel;

    open spec fn view(&self) -> RemoteFileModel {
        RemoteFileModel {
            id: opt_view(self.id),
            name: opt_view(self.name),
            parents: opt_strings_view(self.parents),
            mime_type: opt_view(self.mime_type),
            size: self.size,
            modified_time: self.modified_time,
            md5_checksum: opt_view(self.md5_checksum),
            trashed: self.trashed,
        }
    }
}

/// The view of a list of remote files.
pub open spec fn files_view(v: Seq<RemoteFile>) -> Seq<RemoteFileModel> {
    Seq::new(v.len(), |i: int| v[i]@)
}

/// The mode of a directory.
pub const DIR_MODE: u32 = 0o755;

/// The mode of a file.
pub const FILE_MODE: u32 = 0o644;

/// A store after an operation, and whether the operation succeeded.
pub type Outcome = (StoreModel, Result<(), StoreFault>);

impl RemoteFileModel {
    /// The file is a folder.
    pub open spec fn is_dir(self) -> bool {
        self.mime_type == Some(folder_mime())
    }

    /// The size, or 0 where none is given.
    pub open spec fn size_or_zero(self) -> i64 {
        match self.size {
            Some(s) => s,
            None => 0,
        }
    }

    /// The time of the last change, or 0 where none is given.
    pub open spec fn mtime_or_zero(self) -> i64 {
        match self.modified_time {
            Some(t) => t,
            None => 0,
        }
    }

    /// The mode: `0o755` for a folder, `0o644` for a file.
    pub open spec fn mode(self) -> i64 {
        if self.is_dir() {
            0o755
        } else {
            0o644
        }
    }
}

/// Gives the remote file `remote_id` an inode, if it has none, and writes
/// its attributes.
pub open spec fn store_attrs_of(m: StoreModel, remote_id: Seq<char>, f: RemoteFileModel, now: i64) -> (
    StoreModel,
    Result<u64, StoreFault>,
) {
    let (m1, found) = m.try_get_or_create_inode(remote_id, now);
    match found {
        Err(e) => (m1, Err(e)),
        Ok(inode) => {
            let (m2, done) = m1.try_upsert_attrs(
                inode,
                f.size_or_zero(),
                f.mtime_or_zero(),
                f.mode(),
                f.is_dir(),
                f.mime_type,
            );
            match done {
                Err(e) => (m2, Err(e)),
                Ok(_) => (m2, Ok(inode)),
            }
        },
    }
}

/// The first pass over one file: a file with an id gets an inode and its
/// attributes.
pub open spec fn store_attrs(m: StoreModel, f: RemoteFileModel, now: i64) -> Outcome {
    match f.id {
        None => (m, Ok(())),
        Some(id) => {
            let (m1, r) = store_attrs_of(m, id, f, now);
            match r {
                Ok(_) => (m1, Ok(())),
                Err(e) => (m1, Err(e)),
            }
        },
    }
}

/// The first pass over the files, one after another, up to the first
/// failure.
pub open spec fn pass_one(m: StoreModel, files: Seq<RemoteFileModel>, now: i64) -> Outcome
    decreases files.len(),
{
    if files.len() == 0 {
        (m, Ok(()))
    } else {
        let before = pass_one(m, files.drop_last(), now);
        if before.1 is Err {
            before
        } else {
            store_attrs(before.0, files.last(), now)
        }
    }
}

/// The inode of the first of `parents` that the store knows, or the root
/// where it knows none.
pub open spec fn first_known_parent(m: StoreModel, parents: Seq<Seq<char>>) -> u64
    decreases parents.len(),
{
    if parents.len() == 0 {
        ROOT_INODE
    } else if m.knows(parents[0]) {
        m.inode_of(parents[0])
    } else {
        first_known_parent(m, parents.drop_first())
    }
}

/// The directory under which a file stands: its first known parent, or the
/// root where it names none.
pub open spec fn parent_of(m: StoreModel, f: RemoteFileModel) -> u64 {
    match f.parents {
        Some(parents) => first_known_parent(m, parents),
        None => ROOT_INODE,
    }
}

/// The second pass over one file: a file with an id and a name gets its
/// place in the tree.
pub open spec fn store_entry(m: StoreModel, f: RemoteFileModel) -> Outcome {
    if f.id is Some && f.name is Some {
        if m.knows(f.id->0) {
            m.try_upsert_dentry(parent_of(m, f), m.inode_of(f.id->0), f.name->0)
        } else {
            (m, Err(StoreFault::NotFound))
        }
    } else {
        (m, Ok(()))
    }
}

/// The second pass over the files, one after another, up to the first
/// failure.
pub open spec fn pass_two(m: StoreModel, files: Seq<RemoteFileModel>) -> Outcome
    decreases files.len(),
{
    if files.len() == 0 {
        (m, Ok(()))
    } else {
        let before = pass_two(m, files.drop_last());
        if before.1 is Err {
            before
        } else {
            store_entry(before.0, files.last())
        }
    }
}

/// The store is empty but, at most, for one inode: the first
/// synchronization is still to be made.
pub open spec fn is_fresh(m: StoreModel) -> bool {
    m.inodes.dom().len() <= 1
}

/// The first synchronization: on a store that is not fresh, nothing; else
/// the root, then the first pass, then the second, up to the first failure.
pub open spec fn bootstrap_spec(m: StoreModel, files: Seq<RemoteFileModel>, now: i64) -> Outcome {
    if !is_fresh(m) {
        (m, Ok(()))
    } else {
        let rooted = m.try_ensure_root(now);
        if rooted.1 is Err {
            rooted
        } else {
            let one = pass_one(rooted.0, files, now);
            if one.1 is Err {
                one
            } else {
                pass_two(one.0, files)
            }
        }
    }
}

/// Once the first pass has failed, the files behind the failure change
/// nothing.
pub proof fn lemma_pass_one_stops(m: StoreModel, files: Seq<RemoteFileModel>, now: i64, k: int)
    requires
        0 <= k <= files.len(),
        pass_one(m, files.subrange(0, k), now).1 is Err,
    ensures
        pass_one(m, files, now) == pass_one(m, files.subrange(0, k), now),
    decreases files.len() - k,
{
    if k < files.len() {
        let next = files.subrange(0, k + 1);
        assert(next.drop_last() =~= files.subrange(0, k));
        lemma_pass_one_stops(m, files, now, k + 1);
    } else {
        assert(files.subrange(0, k) =~= files);
    }
}

/// Once the second pass has failed, the files behind the failure change
/// nothing.
pub proof fn lemma_pass_two_stops(m: StoreModel, files: Seq<RemoteFileModel>, k: int)
    requires
        0 <= k <= files.len(),
        pass_two(m, files.subrange(0, k)).1 is Err,
    ensures
        pass_two(m, files) == pass_two(m, files.subrange(0, k)),
    decreases files.len() - k,
{
    if k < files.len() {
        let next = files.subrange(0, k + 1);
        assert(next.drop_last() =~= files.subrange(0, k));
        lemma_pass_two_stops(m, files, k + 1);
    } else {
        assert(files.subrange(0, k) =~= files);
    }
}

/// Whether `mime_type` is the mime type of a folder.
pub fn is_folder(mime_type: &Option<String>) -> (r: bool)
    ensures
        r == (opt_view(*mime_type) == Some(folder_mime())),
{
    match mime_type {
        Some(m) => str_eq(m.as_str(), "application/vnd.google-apps.folder"),
        None => false,
    }
}

/// Gives the remote file `remote_id` an inode, if it has none, and writes
/// its attributes: a folder is a directory with mode `0o755`, anything else
/// a file with mode `0o644`; size and time default to 0.
pub fn store_file_attrs(db: &mut MetadataRepository, remote_id: &str, file: &RemoteFile, now: i64) -> (r:
    Result<u64, StoreError>)
    requires
        old(db).wf(),
    ensures
        final(db).wf(),
        (final(db)@, r) == store_attrs_of(old(db)@, remote_id@, file@, now),
        r is Ok ==> final(db)@.inodes.contains_key(r->Ok_0) && final(db)@.find_inode(remote_id@)
            == Some(r->Ok_0),
{
    let inode = match db.get_or_create_inode(remote_id, now) {
        Ok(i) => i,
        Err(e) => {
            return Err(e);
        },
    };
    let is_dir = is_folder(&file.mime_type);
    let size = match file.size {
        Some(s) => s,
        None => 0,
    };
    let mtime = match file.modified_time {
        Some(t) => t,
        None => 0,
    };
    let mode = if is_dir {
        DIR_MODE
    } else {
        FILE_MODE
    };
    let mime: Option<&str> = match &file.mime_type {
        Some(m) => Some(m.as_str()),
        None => None,
    };
    let ghost mid = db@;
    match db.upsert_file_metadata(inode, size, mtime, mode, is_dir, mime) {
        Ok(_) => {
            proof {
                assert(db@.inodes == mid.inodes);
                assert(db@.find_inode(remote_id@) == mid.find_inode(remote_id@));
            }
            Ok(inode)
        },
        Err(e) => Err(e),
    }
}

/// The inode of the first of `parents` that the store knows, or the root
/// where it knows none.
pub fn find_first_known_parent(db: &MetadataRepository, parents: &Vec<String>) -> (parent: u64)
    requires
        db.wf(),
    ensures
        parent == first_known_parent(db@, strings_view(parents@)),
{
    let ghost all = strings_view(parents@);
    let mut i: usize = 0;
    proof {
        assert(all.subrange(0, all.len() as int) =~= all);
    }
    while i < parents.len()
        invariant
            db.wf(),
            i <= parents.len(),
            all == strings_view(parents@),
            first_known_parent(db@, all) == first_known_parent(
                db@,
                all.subrange(i as int, all.len() as int),
            ),
        decreases parents.len() - i,
    {
        let ghost rest = all.subrange(i as int, all.len() as int);
        proof {
            assert(rest[0] == parents@[i as int]@);
            assert(rest.drop_first() =~= all.subrange(i + 1, all.len() as int));
        }
        match db.get_inode_by_gdrive_id(parents[i].as_str()) {
            Some(inode) => {
                return inode;
            },
            None => {},
        }
        i += 1;
    }
    ROOT_INODE
}

/// Puts a file with an id and a name at its place in the tree: under its
/// first known parent, or under the root.
pub fn store_file_entry(db: &mut MetadataRepository, file: &RemoteFile) -> (r: Result<(), StoreError>)
    requires
        old(db).wf(),
    ensures
        final(db).wf(),
        (final(db)@, r) == store_entry(old(db)@, file@),
{
    match (&file.id, &file.name) {
        (Some(id), Some(name)) => {
            let child = match db.get_inode_by_gdrive_id(id.as_str()) {
                Some(c) => c,
                None => {
                    return Err(StoreError::NotFound);
                },
            };
            let parent = match &file.parents {
                Some(parents) => find_first_known_parent(db, parents),
                None => ROOT_INODE,
            };
            db.upsert_dentry(parent, child, name.as_str())
        },
        _ => Ok(()),
    }
}

/// The first synchronization, with the files that the remote account
/// lists. On a store that holds more than the root it does nothing.
/// Otherwise it installs the root, gives every file with an id an inode and
/// attributes, and then puts every file with an id and a name at its place:
/// under its first known parent, or under the root. It stops at the first
/// failure of the store, and leaves what was done until then.
pub fn sync_all_metadata(db: &mut MetadataRepository, files: &Vec<RemoteFile>, now: i64) -> (r: Result<
    (),
    StoreError,
>)
    requires
        old(db).wf(),
    ensures
        final(db).wf(),
        (final(db)@, r) == bootstrap_spec(old(db)@, files_view(files@), now),
        !is_fresh(old(db)@) ==> r is Ok && final(db)@ == old(db)@,
{
    if !db.is_empty() {
        return Ok(());
    }
    match db.ensure_root(now) {
        Ok(_) => {},
        Err(e) => {
            return Err(e);
        },
    }
    let ghost rooted = db@;
    let ghost all = files_view(files@);
    let mut i: usize = 0;
    proof {
        assert(all.subrange(0, 0) =~= Seq::<RemoteFileModel>::empty());
    }
    while i < files.len()
        invariant
            db.wf(),
            i <= files.len(),
            all == files_view(files@),
            is_fresh(old(db)@),
            old(db)@.try_ensure_root(now) == (rooted, Ok::<(), StoreFault>(())),
            pass_one(rooted, all.subrange(0, i as int), now) == (db@, Ok::<(), StoreFault>(())),
        decreases files.len() - i,
    {
        let ghost before = db@;
        proof {
            assert(all.subrange(0, i + 1).drop_last() =~= all.subrange(0, i as int));
            assert(all.subrange(0, i + 1).last() == files@[i as int]@);
        }
        match &files[i].id {
            Some(id) => {
                match store_file_attrs(db, id.as_str(), &files[i], now) {
                    Ok(_) => {},
                    Err(e) => {
                        proof {
                            lemma_pass_one_stops(rooted, all, now, i + 1);
                        }
                        return Err(e);
                    },
                }
            },
            None => {},
        }
        i += 1;
    }
    proof {
        assert(all.subrange(0, i as int) =~= all);
    }
    let ghost one = db@;
    let mut j: usize = 0;
    proof {
        assert(all.subrange(0, 0) =~= Seq::<RemoteFileModel>::empty());
    }
    while j < files.len()
        invariant
            db.wf(),
            j <= files.len(),
            all == files_view(files@),
            is_fresh(old(db)@),
            old(db)@.try_ensure_root(now) == (rooted, Ok::<(), StoreFault>(())),
            pass_one(rooted, all, now) == (one, Ok::<(), StoreFault>(())),
            pass_two(one, all.subrange(0, j as int)) == (db@, Ok::<(), StoreFault>(())),
        decreases files.len() - j,
    {
        proof {
            assert(all.subrange(0, j + 1).drop_last() =~= all.subrange(0, j as int));
            assert(all.subrange(0, j + 1).last() == files@[j as int]@);
        }
        match store_file_entry(db, &files[j]) {
            Ok(_) => {},
            Err(e) => {
                proof {
                    lemma_pass_two_stops(one, all, j + 1);
                }
                return Err(e);
            },
        }
        j += 1;
    }
    proof {
        assert(all.subrange(0, j as int) =~= all);
    }
    Ok(())
}

} // verus!
