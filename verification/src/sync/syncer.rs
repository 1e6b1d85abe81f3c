//! The incremental pull: every change of the remote change feed is applied
//! to the store, and tombstones that have outlived their grace period are
//! purged.
use vstd::prelude::*;
use vstd::string::*;
use crate::db::model::{StoreFault, StoreModel, ROOT_INODE};
use crate::db::repository::{opt_view, MetadataRepository, StoreError};
use crate::sync::bootstrap::{store_attrs_of, store_file_attrs, Outcome, RemoteFile, RemoteFileModel};
use crate::text::str_eq;

verus! {

/// The longest pause between two attempts, in seconds.
pub const MAX_BACKOFF_SECS: u64 = 300;

/// The days for which a tombstone is kept.
pub const TOMBSTONE_GRACE_DAYS: i64 = 7;

/// The key under which the store keeps the page token of the change feed.
pub open spec fn page_token_key() -> Seq<char> {
    "changes_page_token"@
}

/// The name of a file whose change names none.
pub open spec fn unknown_name() -> Seq<char> {
    "unknown"@
}

/// A change of the remote change feed.
#[derive(Debug)]
pub struct RemoteChange {
    pub file_id: Option<String>,
    /// The file was deleted remotely.
    pub removed: Option<bool>,
    /// The file as it is now, where it still exists.
    pub file: Option<RemoteFile>,
}

/// The view of a change.
pub struct RemoteChangeModel {
    pub file_id: Option<Seq<char>>,
    pub removed: Option<bool>,
    pub file: Option<RemoteFileModel>,
}

impl View for RemoteChange {
    type V = RemoteChangeModel;

    open spec fn view(&self) -> RemoteChangeModel {
        RemoteChangeModel {
            file_id: opt_view(self.file_id),
            removed: self.removed,
            file: match self.file {
                Some(f) => Some(f@),
                None => None,
            },
        }
    }
}

/// The view of a list of changes.
pub open spec fn changes_view(v: Seq<RemoteChange>) -> Seq<RemoteChangeModel> {
    Seq::new(v.len(), |i: int| v[i]@)
}

/// Why a change was not applied.
#[derive(Debug, Clone, Copy, PartialEq, Eq, Structural)]
pub enum SyncError {
    /// The change names no file.
    MissingFileId,
    /// The store refused a row.
    Store(StoreError),
}

/// The store after a change, and whether the change was applied.
pub type ChangeOutcome = (StoreModel, Result<(), SyncError>);

/// The name under which a changed file is put.
pub open spec fn name_of(f: RemoteFileModel) -> Seq<char> {
    match f.name {
        Some(n) => n,
        None => unknown_name(),
    }
}

/// Puts `inode` at its place: under its first parent, which gets an inode
/// where it has none, or under the root where the first parent is the root
/// or the file names no parent.
pub open spec fn place(m: StoreModel, inode: u64, f: RemoteFileModel, now: i64) -> Outcome {
    if f.parents is Some && f.parents->0.len() > 0 && f.parents->0[0] != crate::db::model::root_id() {
        let (m1, found) = m.try_get_or_create_inode(f.parents->0[0], now);
        match found {
            Err(e) => (m1, Err(e)),
            Ok(parent) => m1.try_upsert_dentry(parent, inode, name_of(f)),
        }
    } else {
        m.try_upsert_dentry(ROOT_INODE, inode, name_of(f))
    }
}

/// Brings the store up to date with the remote file `remote_id`: inode and
/// attributes, place in the tree, and the remote checksum where one is
/// given. It stops at the first failure of the store.
pub open spec fn upsert_remote(
    m: StoreModel,
    remote_id: Seq<char>,
    f: RemoteFileModel,
    now: i64,
) -> ChangeOutcome {
    let (m1, stored) = store_attrs_of(m, remote_id, f, now);
    match stored {
        Err(e) => (m1, Err(SyncError::Store(e))),
        Ok(inode) => {
            let (m2, placed) = place(m1, inode, f, now);
            match placed {
                Err(e) => (m2, Err(SyncError::Store(e))),
                Ok(_) => match f.md5_checksum {
                    None => (m2, Ok(())),
                    Some(md5) => {
                        let (m3, noted) = m2.try_set_remote_md5(inode, md5);
                        match noted {
                            Err(e) => (m3, Err(SyncError::Store(e))),
                            Ok(_) => (m3, Ok(())),
                        }
                    },
                },
            }
        },
    }
}

/// What one change does to the store. A change without a file id is
/// refused. A file that was removed or trashed remotely is soft-deleted. Any
/// other file is restored where it is soft-deleted, and then brought up to
/// date. A change that is neither a removal nor carries a file changes
/// nothing.
pub open spec fn process_change_spec(m: StoreModel, c: RemoteChangeModel, now: i64) -> ChangeOutcome {
    match c.file_id {
        None => (m, Err(SyncError::MissingFileId)),
        Some(id) => {
            if c.removed == Some(true) {
                (m.soft_delete(id, now), Ok(()))
            } else {
                match c.file {
                    None => (m, Ok(())),
                    Some(f) => {
                        if f.trashed == Some(true) {
                            (m.soft_delete(id, now), Ok(()))
                        } else {
                            let restored = if m.has_tombstone(id) {
                                m.restore(id)
                            } else {
                                m
                            };
                            upsert_remote(restored, id, f, now)
                        }
                    },
                }
            }
        },
    }
}

/// The store after a batch of changes, one after another; a change that
/// fails leaves what it did until then, and the next one goes on.
pub open spec fn apply_changes(m: StoreModel, changes: Seq<RemoteChangeModel>, now: i64) -> StoreModel
    decreases changes.len(),
{
    if changes.len() == 0 {
        m
    } else {
        process_change_spec(apply_changes(m, changes.drop_last(), now), changes.last(), now).0
    }
}

/// The store after a cycle of the pull: the changes are applied, the new
/// start token of the feed is kept where the batch was the last of its
/// window, and expired tombstones are purged.
pub open spec fn sync_once_spec(
    m: StoreModel,
    changes: Seq<RemoteChangeModel>,
    new_start_token: Option<Seq<char>>,
    now: i64,
) -> StoreModel {
    let applied = apply_changes(m, changes, now);
    let noted = match new_start_token {
        Some(token) => applied.set_sync_meta(page_token_key(), token, now),
        None => applied,
    };
    noted.purge(TOMBSTONE_GRACE_DAYS, now)
}

/// The pause before the next cycle: the interval after a success, twice the
/// last pause after a failure, but no more than `MAX_BACKOFF_SECS`.
pub open spec fn next_backoff_spec(interval: u64, current: u64, succeeded: bool) -> u64 {
    if succeeded {
        interval
    } else if current * 2 >= MAX_BACKOFF_SECS {
        MAX_BACKOFF_SECS
    } else {
        (current * 2) as u64
    }
}

/// The pause before the next cycle: the interval after a success, twice the
/// last pause after a failure, but no more than `MAX_BACKOFF_SECS`.
pub fn next_backoff(interval: u64, current: u64, succeeded: bool) -> (pause: u64)
    ensures
        pause == next_backoff_spec(interval, current, succeeded),
{
    if succeeded {
        interval
    } else if current >= MAX_BACKOFF_SECS / 2 {
        MAX_BACKOFF_SECS
    } else {
        current * 2
    }
}

/// The synchronizer that pulls remote changes.
pub struct BackgroundSyncer {
    pub interval_secs: u64,
}

impl BackgroundSyncer {
    /// A synchronizer that pulls every `interval_secs` seconds.
    pub fn new(interval_secs: u64) -> (syncer: Self)
        ensures
            syncer.interval_secs == interval_secs,
    {
        BackgroundSyncer { interval_secs }
    }

    /// The page token at which the change feed goes on, if the store keeps
    /// one. Where it keeps none, a start token is to be asked of the remote
    /// and kept with `remember_page_token`.
    pub fn page_token(&self, db: &MetadataRepository) -> (token: Option<String>)
        requires
            db.wf(),
        ensures
            opt_view(token) == db@.get_sync_meta(page_token_key()),
    {
        db.get_sync_meta("changes_page_token")
    }

    /// Keeps `token` as the page token of the change feed.
    pub fn remember_page_token(&self, db: &mut MetadataRepository, token: &str, now: i64)
        requires
            old(db).wf(),
        ensures
            final(db).wf(),
            final(db)@ == old(db)@.set_sync_meta(page_token_key(), token@, now),
    {
        db.set_sync_meta("changes_page_token", token, now);
    }

    /// The pause before the next cycle.
    pub fn next_pause(&self, current: u64, succeeded: bool) -> (pause: u64)
        ensures
            pause == next_backoff_spec(self.interval_secs, current, succeeded),
    {
        next_backoff(self.interval_secs, current, succeeded)
    }

    /// Puts `inode` at its place in the tree.
    fn place_file(db: &mut MetadataRepository, inode: u64, file: &RemoteFile, now: i64) -> (r: Result<
        (),
        StoreError,
    >)
        requires
            old(db).wf(),
        ensures
            final(db).wf(),
            (final(db)@, r) == place(old(db)@, inode, file@, now),
    {
        proof {
            reveal_strlit("unknown");
        }
        let name: &str = match &file.name {
            Some(n) => n.as_str(),
            None => "unknown",
        };
        match &file.parents {
            Some(parents) => {
                if parents.len() > 0 && !str_eq(parents[0].as_str(), "root") {
                    proof {
                        assert(file@.parents->0[0] == parents@[0]@);
                    }
                    let parent = match db.get_or_create_inode(parents[0].as_str(), now) {
                        Ok(p) => p,
                        Err(e) => {
                            return Err(e);
                        },
                    };
                    return db.upsert_dentry(parent, inode, name);
                }
                proof {
                    if parents.len() > 0 {
                        assert(file@.parents->0[0] == parents@[0]@);
                    }
                }
            },
            None => {},
        }
        db.upsert_dentry(ROOT_INODE, inode, name)
    }

    /// Brings the store up to date with the remote file `remote_id`.
    fn upsert_file(db: &mut MetadataRepository, remote_id: &str, file: &RemoteFile, now: i64) -> (r:
        Result<(), SyncError>)
        requires
            old(db).wf(),
        ensures
            final(db).wf(),
            (final(db)@, r) == upsert_remote(old(db)@, remote_id@, file@, now),
    {
        let inode = match store_file_attrs(db, remote_id, file, now) {
            Ok(i) => i,
            Err(e) => {
                return Err(SyncError::Store(e));
            },
        };
        match Self::place_file(db, inode, file, now) {
            Ok(_) => {},
            Err(e) => {
                return Err(SyncError::Store(e));
            },
        }
        match &file.md5_checksum {
            Some(md5) => match db.set_remote_md5(inode, md5.as_str()) {
                Ok(_) => Ok(()),
                Err(e) => Err(SyncError::Store(e)),
            },
            None => Ok(()),
        }
    }

    /// Applies one change of the remote change feed at time `now`. A file
    /// that was removed or trashed remotely is soft-deleted; any other file
    /// is restored where it is soft-deleted, and its inode, attributes,
    /// place and checksum are brought up to date.
    pub fn process_change(&self, db: &mut MetadataRepository, change: &RemoteChange, now: i64) -> (r:
        Result<(), SyncError>)
        requires
            old(db).wf(),
        ensures
            final(db).wf(),
            (final(db)@, r) == process_change_spec(old(db)@, change@, now),
    {
        let file_id: &str = match &change.file_id {
            Some(id) => id.as_str(),
            None => {
                return Err(SyncError::MissingFileId);
            },
        };
        let removed = match change.removed {
            Some(r) => r,
            None => false,
        };
        if removed {
            db.soft_delete_by_gdrive_id(file_id, now);
            return Ok(());
        }
        match &change.file {
            Some(file) => {
                let trashed = match file.trashed {
                    Some(t) => t,
                    None => false,
                };
                if trashed {
                    db.soft_delete_by_gdrive_id(file_id, now);
                    return Ok(());
                }
                if db.has_tombstone(file_id) {
                    db.restore_by_gdrive_id(file_id);
                }
                Self::upsert_file(db, file_id, file, now)
            },
            None => Ok(()),
        }
    }

    /// One cycle of the pull, with the batch of changes that the remote
    /// gave: every change is applied, and one that fails does not stop the
    /// others; the new start token of the feed is kept where the remote
    /// gave one; tombstones older than `TOMBSTONE_GRACE_DAYS` days are
    /// purged. Returns the number of changes of the batch.
    pub fn sync_once(
        &self,
        db: &mut MetadataRepository,
        changes: &Vec<RemoteChange>,
        new_start_token: Option<&str>,
        now: i64,
    ) -> (count: usize)
        requires
            old(db).wf(),
        ensures
            final(db).wf(),
            count == changes@.len(),
            final(db)@ == sync_once_spec(
                old(db)@,
                changes_view(changes@),
                crate::db::repository::opt_str_view(new_start_token),
                now,
            ),
    {
        let ghost all = changes_view(changes@);
        let mut i: usize = 0;
        proof {
            assert(all.subrange(0, 0) =~= Seq::<RemoteChangeModel>::empty());
        }
        while i < changes.len()
            invariant
                db.wf(),
                i <= changes.len(),
                all == changes_view(changes@),
                db@ == apply_changes(old(db)@, all.subrange(0, i as int), now),
            decreases changes.len() - i,
        {
            proof {
                assert(all.subrange(0, i + 1).drop_last() =~= all.subrange(0, i as int));
                assert(all.subrange(0, i + 1).last() == changes@[i as int]@);
            }
            let _ = self.process_change(db, &changes[i], now);
            i += 1;
        }
        proof {
            assert(all.subrange(0, i as int) =~= all);
        }
        match new_start_token {
            Some(token) => {
                db.set_sync_meta("changes_page_token", token, now);
            },
            None => {},
        }
        db.purge_expired_tombstones(TOMBSTONE_GRACE_DAYS, now);
        changes.len()
    }
}

} // verus!
