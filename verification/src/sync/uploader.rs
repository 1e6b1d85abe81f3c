//! The push: every inode with a local change is created, updated or trashed
//! remotely, and marked clean once the remote has taken the change. An
//! update that would overwrite a remote change that the local side has not
//! seen becomes a conflict copy instead.
use vstd::prelude::*;
use vstd::string::*;
use crate::calendar::{civil_from_days, is_date_of, CivilDate};
use crate::db::model::{AttrsModel, StoreFault, StoreModel, ROOT_INODE};
use crate::db::repository::{clone_opt, opt_view, short_view, MetadataRepository, StoreError};
use crate::fuse::filesystem::shortcut_name;
use crate::gdrive::error::DriveError;
use crate::sync::syncer::next_backoff_spec;
use crate::text::{append_decimal, append_padded, decimal, is_prefix, padded, starts_with, to_chars};

verus! {

/// What the uploader does with a dirty inode.
#[derive(Debug, Clone, Copy, PartialEq, Eq, Structural)]
pub enum UploadAction {
    /// The file was created and deleted locally and never pushed: it is
    /// marked clean, and the remote is not asked.
    ForgetDeletion,
    /// The file is trashed remotely.
    Trash,
    /// The file is created remotely.
    Create,
    /// The content of the file is pushed, unless the remote has changed.
    Update,
}

/// What the uploader does with a dirty inode: a deletion is forgotten for
/// a file that was never pushed and else trashed; any other change creates
/// the file where it was never pushed and else updates it.
pub open spec fn upload_action(remote_id: Seq<char>, is_delete: bool) -> UploadAction {
    let temp = is_prefix("temp_"@, remote_id);
    if is_delete {
        if temp {
            UploadAction::ForgetDeletion
        } else {
            UploadAction::Trash
        }
    } else if temp {
        UploadAction::Create
    } else {
        UploadAction::Update
    }
}

/// What the uploader does with a file whose content changed locally.
#[derive(Debug, Clone, Copy, PartialEq, Eq, Structural)]
pub enum UpdateAction {
    /// The file has no local copy: there is nothing to push, and the inode
    /// stays dirty.
    Skip,
    /// The remote has changed too: the local copy is uploaded as a conflict
    /// copy, and the remote file stays as it is.
    ConflictCopy,
    /// The content is pushed.
    PushContent,
}

/// What the uploader does with a file whose content changed locally.
pub open spec fn update_action_spec(
    known: Option<Seq<char>>,
    current: Option<Seq<char>>,
    has_local_copy: bool,
) -> UpdateAction {
    if !has_local_copy {
        UpdateAction::Skip
    } else if conflict_spec(known, current) {
        UpdateAction::ConflictCopy
    } else {
        UpdateAction::PushContent
    }
}

/// How the remote answered the request to trash a file.
#[derive(Debug, Clone, Copy, PartialEq, Eq, Structural)]
pub enum TrashOutcome {
    /// The file is in the trash.
    Trashed,
    /// The account may not delete the file.
    Refused,
    /// The request failed for the time being.
    Failed,
}

/// Why a change was not pushed.
#[derive(Debug, Clone, Copy, PartialEq, Eq, Structural)]
pub enum UploadError {
    /// The inode has no attributes.
    NoAttributes,
    /// The store refused a row.
    Store(StoreError),
    /// The remote failed; the change stays dirty and is tried again.
    Remote,
}

/// What is to be created remotely.
#[derive(Debug)]
pub struct CreateRequest {
    /// A folder is to be created, not a file.
    pub is_dir: bool,
    pub name: String,
    pub parent_remote_id: String,
    pub mime_type: Option<String>,
    /// The file that holds the bytes to upload.
    pub cache_path: String,
}

/// The remote id of the directory in which `inode` stands: `root` for the
/// root and for an inode that stands nowhere.
pub open spec fn parent_remote_id(m: StoreModel, inode: u64) -> Seq<char> {
    let parent = if m.is_linked(inode) {
        m.link_of(inode).0
    } else {
        ROOT_INODE
    };
    if parent == ROOT_INODE {
        crate::db::model::root_id()
    } else {
        m.inodes[parent].remote_id
    }
}

/// The index of the last `c` in `s`, or -1 where it holds none.
pub open spec fn last_index_of(s: Seq<char>, c: char) -> int
    decreases s.len(),
{
    if s.len() == 0 {
        -1
    } else if s.last() == c {
        s.len() - 1
    } else {
        last_index_of(s.drop_last(), c)
    }
}

/// A point in time as `YYYY-MM-DD-HHMMSS`.
pub open spec fn timestamp_spec(date: CivilDate, second_of_day: nat) -> Seq<char> {
    padded(date.year as nat, 4) + "-"@ + padded(date.month as nat, 2) + "-"@ + padded(
        date.day as nat,
        2,
    ) + "-"@ + padded(second_of_day / 3600, 2) + padded((second_of_day % 3600) / 60, 2) + padded(
        second_of_day % 60,
        2,
    )
}

/// The name of a conflict copy: the time of the conflict, in brackets,
/// between the name and its extension.
pub open spec fn conflict_name_spec(file_name: Seq<char>, timestamp: Seq<char>) -> Seq<char> {
    let dot = last_index_of(file_name, '.');
    if dot >= 0 {
        file_name.subrange(0, dot) + " (Conflicto local "@ + timestamp + ")"@ + file_name.subrange(
            dot,
            file_name.len() as int,
        )
    } else {
        file_name + " (Conflicto local "@ + timestamp + ")"@
    }
}

/// Whether the remote has changed since the local side last saw it: both
/// checksums are known, and they differ.
pub open spec fn conflict_spec(known: Option<Seq<char>>, current: Option<Seq<char>>) -> bool {
    known is Some && current is Some && known->0 != current->0
}

/// The index of the last `c` in `s`.
pub fn find_last(s: &str, c: char) -> (r: Option<usize>)
    ensures
        r is None <==> last_index_of(s@, c) < 0,
        r is Some ==> r->0 == last_index_of(s@, c) && r->0 < s@.len(),
{
    let chars = to_chars(s);
    let mut i: usize = chars.len();
    proof {
        assert(s@.subrange(0, i as int) =~= s@);
    }
    while i > 0
        invariant
            chars@ == s@,
            i <= chars.len(),
            last_index_of(s@, c) == last_index_of(s@.subrange(0, i as int), c),
        decreases i,
    {
        let ghost head = s@.subrange(0, i as int);
        proof {
            assert(head.last() == chars@[i - 1]);
            assert(head.drop_last() =~= s@.subrange(0, i - 1));
        }
        if chars[i - 1] == c {
            return Some(i - 1);
        }
        i -= 1;
    }
    None
}

/// The time `now`, in seconds since the epoch, as `YYYY-MM-DD-HHMMSS`.
pub fn format_timestamp(now: u64) -> (text: String)
    ensures
        exists|date: CivilDate|
            #[trigger] is_date_of(date, (now / 86400) as int) && text@ == timestamp_spec(
                date,
                (now % 86400) as nat,
            ),
{
    let date = civil_from_days(now / 86400);
    let second_of_day = now % 86400;
    let mut text = String::new();
    append_padded(&mut text, date.year, 4);
    text.append("-");
    append_padded(&mut text, date.month, 2);
    text.append("-");
    append_padded(&mut text, date.day, 2);
    text.append("-");
    append_padded(&mut text, second_of_day / 3600, 2);
    append_padded(&mut text, (second_of_day % 3600) / 60, 2);
    append_padded(&mut text, second_of_day % 60, 2);
    proof {
        assert(text@ =~= timestamp_spec(date, second_of_day as nat));
    }
    text
}

/// The name of the conflict copy of the file `file_name` with the time
/// `timestamp`.
pub fn conflict_name(file_name: &str, timestamp: &str) -> (name: String)
    ensures
        name@ == conflict_name_spec(file_name@, timestamp@),
{
    let n = file_name.unicode_len();
    match find_last(file_name, '.') {
        Some(dot) => {
            let mut name = String::from_str(file_name.substring_char(0, dot));
            name.append(" (Conflicto local ");
            name.append(timestamp);
            name.append(")");
            name.append(file_name.substring_char(dot, n));
            name
        },
        None => {
            let mut name = String::from_str(file_name);
            name.append(" (Conflicto local ");
            name.append(timestamp);
            name.append(")");
            name
        },
    }
}

/// The uploader.
pub struct Uploader {
    pub interval_secs: u64,
    pub cache_dir: String,
}

impl Uploader {
    /// An uploader that pushes every `interval_secs` seconds what lies under
    /// `cache_dir`.
    pub fn new(interval_secs: u64, cache_dir: String) -> (uploader: Self)
        ensures
            uploader.interval_secs == interval_secs,
            uploader.cache_dir == cache_dir,
    {
        Uploader { interval_secs, cache_dir }
    }

    /// The pause before the next cycle.
    pub fn next_pause(&self, current: u64, succeeded: bool) -> (pause: u64)
        ensures
            pause == next_backoff_spec(self.interval_secs, current, succeeded),
    {
        crate::sync::syncer::next_backoff(self.interval_secs, current, succeeded)
    }

    /// The file that holds the cached bytes of the remote file `gdrive_id`.
    pub fn cache_path(&self, gdrive_id: &str) -> (path: String)
        ensures
            path@ == self.cache_dir@ + "/"@ + gdrive_id@,
    {
        let mut path = self.cache_dir.clone();
        path.append("/");
        path.append(gdrive_id);
        path
    }

    /// The inodes that have a local change to push, each once, as `(inode,
    /// remote id, whether the change is a deletion)`.
    pub fn get_dirty_files(&self, db: &MetadataRepository) -> (list: Vec<(u64, String, bool)>)
        requires
            db.wf(),
        ensures
            db@.is_dirty_list(short_view(list@)),
    {
        db.dirty_files()
    }

    /// What is to be done with a dirty inode.
    pub fn upload_file(&self, gdrive_id: &str, is_delete: bool) -> (action: UploadAction)
        ensures
            action == upload_action(gdrive_id@, is_delete),
    {
        let temp = starts_with(gdrive_id, "temp_");
        if is_delete {
            if temp {
                UploadAction::ForgetDeletion
            } else {
                UploadAction::Trash
            }
        } else if temp {
            UploadAction::Create
        } else {
            UploadAction::Update
        }
    }

    /// How a failure of the remote counts when a file was to be trashed:
    /// missing permissions are a refusal, anything else a failure for the
    /// time being.
    pub fn trash_outcome(result: &Result<(), DriveError>) -> (outcome: TrashOutcome)
        ensures
            outcome == (match *result {
                Ok(_) => TrashOutcome::Trashed,
                Err(e) => if e is InsufficientPermissions {
                    TrashOutcome::Refused
                } else {
                    TrashOutcome::Failed
                },
            }),
    {
        match result {
            Ok(_) => TrashOutcome::Trashed,
            Err(e) => if e.is_permanent() {
                TrashOutcome::Refused
            } else {
                TrashOutcome::Failed
            },
        }
    }

    /// Records how the deletion of `inode` went. Once the file is trashed,
    /// or where it was never pushed, the inode is clean. Where the remote
    /// refused, the file is restored locally and the inode is clean, so that
    /// the local state is as the remote has it. Where the remote failed,
    /// nothing changes, and the deletion is tried again.
    pub fn delete_file(
        &self,
        db: &mut MetadataRepository,
        inode: u64,
        gdrive_id: &str,
        outcome: TrashOutcome,
    ) -> (r: Result<(), UploadError>)
        requires
            old(db).wf(),
        ensures
            final(db).wf(),
            (final(db)@, r) == delete_file_spec(old(db)@, inode, gdrive_id@, outcome),
    {
        if starts_with(gdrive_id, "temp_") {
            db.mark_clean(inode);
            return Ok(());
        }
        match outcome {
            TrashOutcome::Trashed => {
                db.mark_clean(inode);
                Ok(())
            },
            TrashOutcome::Refused => {
                db.restore_by_gdrive_id(gdrive_id);
                db.clear_deleted(inode);
                db.mark_clean(inode);
                Ok(())
            },
            TrashOutcome::Failed => Err(UploadError::Remote),
        }
    }

    /// The name under which `inode` is pushed: the name under which it
    /// stands, or `file_` and its number.
    pub fn get_file_name(db: &MetadataRepository, inode: u64) -> (name: String)
        requires
            db.wf(),
        ensures
            name@ == shortcut_name(db@, inode),
    {
        match db.get_file_name(inode) {
            Some(name) => name,
            None => {
                let mut name = String::from_str("file_");
                append_decimal(&mut name, inode);
                name
            },
        }
    }

    /// The remote id of the directory in which `inode` stands.
    pub fn get_parent_gdrive_id(db: &MetadataRepository, inode: u64) -> (id: String)
        requires
            db.wf(),
        ensures
            id@ == parent_remote_id(db@, inode),
    {
        let parent = match db.get_parent(inode) {
            Some(p) => p,
            None => ROOT_INODE,
        };
        if parent == ROOT_INODE {
            return String::from_str("root");
        }
        proof {
            db.lemma_wf();
            crate::db::rules::lemma_linked(db@, inode);
        }
        match db.get_gdrive_id(parent) {
            Some(id) => id,
            None => String::from_str("root"),
        }
    }

    /// What is to be created remotely for `inode`, which was never pushed:
    /// a folder for a directory, else a file with the bytes of its local
    /// copy. An inode without attributes cannot be pushed.
    pub fn create_file(&self, db: &MetadataRepository, inode: u64, temp_gdrive_id: &str, now: i64) -> (r:
        Result<CreateRequest, UploadError>)
        requires
            db.wf(),
        ensures
            db@.attrs_or_root(inode, now) is None ==> r == Err::<CreateRequest, UploadError>(
                UploadError::NoAttributes,
            ),
            db@.attrs_or_root(inode, now) is Some ==> r is Ok && ({
                let a = db@.attrs_or_root(inode, now)->0;
                let req = r->Ok_0;
                &&& req.is_dir == a.is_dir
                &&& req.name@ == shortcut_name(db@, inode)
                &&& req.parent_remote_id@ == parent_remote_id(db@, inode)
                &&& opt_view(req.mime_type) == a.mime_type
                &&& req.cache_path@ == self.cache_dir@ + "/"@ + temp_gdrive_id@
            }),
    {
        let attrs = match db.get_attrs(inode, now) {
            Ok(a) => a,
            Err(_) => {
                return Err(UploadError::NoAttributes);
            },
        };
        Ok(
            CreateRequest {
                is_dir: attrs.is_dir,
                name: Self::get_file_name(db, inode),
                parent_remote_id: Self::get_parent_gdrive_id(db, inode),
                mime_type: clone_opt(&attrs.mime_type),
                cache_path: self.cache_path(temp_gdrive_id),
            },
        )
    }

    /// Records that `inode` was created remotely as `real_gdrive_id`: the
    /// inode takes that id and is clean. Fails, and changes nothing, where
    /// the inode does not exist or another inode has the id.
    pub fn finish_create(&self, db: &mut MetadataRepository, inode: u64, real_gdrive_id: &str) -> (r:
        Result<(), UploadError>)
        requires
            old(db).wf(),
        ensures
            final(db).wf(),
            (final(db)@, r) == finish_create_spec(old(db)@, inode, real_gdrive_id@),
    {
        match db.set_remote_id(inode, real_gdrive_id) {
            Ok(_) => {
                db.mark_clean(inode);
                Ok(())
            },
            Err(e) => Err(UploadError::Store(e)),
        }
    }

    /// Whether the remote has changed since the local side last saw it:
    /// both checksums are known, and they differ. An update would then
    /// overwrite a change that the local side has not seen.
    pub fn is_conflict(known: &Option<String>, current: &Option<String>) -> (r: bool)
        ensures
            r == conflict_spec(opt_view(*known), opt_view(*current)),
    {
        match (known, current) {
            (Some(k), Some(c)) => !crate::text::str_eq(k.as_str(), c.as_str()),
            _ => false,
        }
    }

    /// What is to be done with a file whose content changed locally, given
    /// the checksum that the store knows, the one that the remote has now,
    /// and whether the file has a local copy.
    pub fn update_action(known: &Option<String>, current: &Option<String>, has_local_copy: bool) -> (action:
        UpdateAction)
        ensures
            action == update_action_spec(opt_view(*known), opt_view(*current), has_local_copy),
    {
        if !has_local_copy {
            UpdateAction::Skip
        } else if Self::is_conflict(known, current) {
            UpdateAction::ConflictCopy
        } else {
            UpdateAction::PushContent
        }
    }

    /// Records that the content of `inode` was pushed: the checksum that the
    /// remote has now is kept, where it gave one, and the inode is clean.
    pub fn update_file(&self, db: &mut MetadataRepository, inode: u64, new_md5: Option<&str>) -> (r:
        Result<(), UploadError>)
        requires
            old(db).wf(),
        ensures
            final(db).wf(),
            (final(db)@, r) == update_file_spec(
                old(db)@,
                inode,
                crate::db::repository::opt_str_view(new_md5),
            ),
    {
        match new_md5 {
            Some(md5) => match db.set_remote_md5(inode, md5) {
                Ok(_) => {},
                Err(e) => {
                    return Err(UploadError::Store(e));
                },
            },
            None => {},
        }
        db.mark_clean(inode);
        Ok(())
    }

    /// What is to be uploaded where an update of `inode` met a conflict:
    /// the local copy, as a new file beside the remote one, named after it
    /// with the time `now` of the conflict. The remote file stays
    /// as it is; once the copy is uploaded the inode is to be marked clean.
    pub fn handle_conflict(&self, db: &MetadataRepository, inode: u64, gdrive_id: &str, now: u64) -> (r:
        Result<CreateRequest, UploadError>)
        requires
            db.wf(),
        ensures
            db@.attrs_or_root(inode, 0) is None ==> r == Err::<CreateRequest, UploadError>(
                UploadError::NoAttributes,
            ),
            db@.attrs_or_root(inode, 0) is Some ==> r is Ok && ({
                let a = db@.attrs_or_root(inode, 0)->0;
                let req = r->Ok_0;
                &&& !req.is_dir
                &&& exists|date: CivilDate|
                    #[trigger] is_date_of(date, (now / 86400) as int) && req.name@
                        == conflict_name_spec(
                        shortcut_name(db@, inode),
                        timestamp_spec(date, (now % 86400) as nat),
                    )
                &&& req.parent_remote_id@ == parent_remote_id(db@, inode)
                &&& opt_view(req.mime_type) == a.mime_type
                &&& req.cache_path@ == self.cache_dir@ + "/"@ + gdrive_id@
            }),
    {
        let attrs = match db.get_attrs(inode, 0) {
            Ok(a) => a,
            Err(_) => {
                return Err(UploadError::NoAttributes);
            },
        };
        let file_name = Self::get_file_name(db, inode);
        let timestamp = format_timestamp(now);
        let name = conflict_name(file_name.as_str(), timestamp.as_str());
        Ok(
            CreateRequest {
                is_dir: false,
                name,
                parent_remote_id: Self::get_parent_gdrive_id(db, inode),
                mime_type: clone_opt(&attrs.mime_type),
                cache_path: self.cache_path(gdrive_id),
            },
        )
    }

    /// Marks `inode` clean: its change is pushed, or a conflict copy stands
    /// for it.
    pub fn mark_pushed(&self, db: &mut MetadataRepository, inode: u64)
        requires
            old(db).wf(),
        ensures
            final(db).wf(),
            final(db)@ == old(db)@.mark_clean(inode),
    {
        db.mark_clean(inode);
    }
}

/// What recording a deletion does to the store, and answers.
pub open spec fn delete_file_spec(
    m: StoreModel,
    inode: u64,
    remote_id: Seq<char>,
    outcome: TrashOutcome,
) -> (StoreModel, Result<(), UploadError>) {
    if is_prefix("temp_"@, remote_id) {
        (m.mark_clean(inode), Ok(()))
    } else {
        match outcome {
            TrashOutcome::Trashed => (m.mark_clean(inode), Ok(())),
            TrashOutcome::Refused => (
                m.restore(remote_id).clear_deleted(inode).mark_clean(inode),
                Ok(()),
            ),
            TrashOutcome::Failed => (m, Err(UploadError::Remote)),
        }
    }
}

/// What recording a remote creation does to the store, and answers.
pub open spec fn finish_create_spec(m: StoreModel, inode: u64, real_id: Seq<char>) -> (
    StoreModel,
    Result<(), UploadError>,
) {
    let (m1, r) = m.try_set_remote_id(inode, real_id);
    match r {
        Ok(_) => (m1.mark_clean(inode), Ok(())),
        Err(e) => (m1, Err(UploadError::Store(e))),
    }
}

/// What recording a remote update does to the store, and answers.
pub open spec fn update_file_spec(m: StoreModel, inode: u64, new_md5: Option<Seq<char>>) -> (
    StoreModel,
    Result<(), UploadError>,
) {
    match new_md5 {
        Some(md5) => {
            let (m1, r) = m.try_set_remote_md5(inode, md5);
            match r {
                Ok(_) => (m1.mark_clean(inode), Ok(())),
                Err(e) => (m1, Err(UploadError::Store(e))),
            }
        },
        None => (m.mark_clean(inode), Ok(())),
    }
}

} // verus!
