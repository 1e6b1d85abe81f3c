//! The status server: how a path leads to an inode, and what the store says
//! of the inode's synchronization.
use vstd::prelude::*;
use vstd::string::*;
use crate::db::model::{StoreModel, ROOT_INODE};
use crate::db::repository::MetadataRepository;
use crate::ipc::{IpcRequest, IpcResponse, SyncStatus};
use crate::text::{is_prefix, skip_chars, split_nonempty, split_pieces, starts_with};

verus! {

/// The inode to which the names `parts` lead from `from`, one directory
/// after another.
pub open spec fn walk(m: StoreModel, from: u64, parts: Seq<Seq<char>>) -> Option<u64>
    decreases parts.len(),
{
    if parts.len() == 0 {
        Some(from)
    } else {
        match m.lookup(from, parts[0]) {
            Some(child) => walk(m, child, parts.drop_first()),
            None => None,
        }
    }
}

/// The status of an inode: pending while a local change or a deletion waits
/// to be pushed, synced otherwise, also where the inode has no sync state.
pub open spec fn status_of(m: StoreModel, inode: u64) -> SyncStatus {
    if m.sync.contains_key(inode) && (m.sync[inode].deleted_at is Some || m.sync[inode].dirty) {
        SyncStatus::Pending
    } else {
        SyncStatus::Synced
    }
}

/// A path without the scheme of a file address, where it has one.
pub open spec fn without_scheme(path: Seq<char>) -> Seq<char> {
    if is_prefix("file://"@, path) {
        path.subrange(7, path.len() as int)
    } else {
        path
    }
}

/// The status of the file at `path`, for a filesystem mounted at `mount`:
/// unknown where the path does not start with the mount point or leads to no
/// inode.
pub open spec fn file_status_spec(m: StoreModel, mount: Seq<char>, path: Seq<char>) -> SyncStatus {
    let p = without_scheme(path);
    if !is_prefix(mount, p) {
        SyncStatus::Unknown
    } else {
        match walk(m, ROOT_INODE, split_nonempty(p.subrange(mount.len() as int, p.len() as int), '/')) {
            Some(inode) => status_of(m, inode),
            None => SyncStatus::Unknown,
        }
    }
}

/// The inode to which `relative_path` leads from the root, if it leads to
/// one. Empty names between slashes do not count.
pub fn resolve_path_to_inode(db: &MetadataRepository, relative_path: &str) -> (r: Option<u64>)
    requires
        db.wf(),
    ensures
        r == walk(db@, ROOT_INODE, split_nonempty(relative_path@, '/')),
{
    let parts = split_pieces(relative_path, '/');
    let ghost names = split_nonempty(relative_path@, '/');
    let mut current: u64 = ROOT_INODE;
    let mut i: usize = 0;
    proof {
        assert(names.subrange(0, names.len() as int) =~= names);
    }
    while i < parts.len()
        invariant
            db.wf(),
            i <= parts.len(),
            names == split_nonempty(relative_path@, '/'),
            parts@.len() == names.len(),
            forall|j: int| 0 <= j < parts@.len() ==> (#[trigger] parts@[j])@ == names[j],
            walk(db@, ROOT_INODE, names) == walk(db@, current, names.subrange(i as int, names.len() as int)),
        decreases parts.len() - i,
    {
        let ghost rest = names.subrange(i as int, names.len() as int);
        proof {
            assert(rest[0] == names[i as int]);
            assert(parts@[i as int]@ == names[i as int]);
            assert(rest.drop_first() =~= names.subrange(i + 1, names.len() as int));
            assert(walk(db@, current, rest) == match db@.lookup(current, rest[0]) {
                Some(child) => walk(db@, child, rest.drop_first()),
                None => None,
            });
        }
        match db.lookup(current, parts[i].as_str()) {
            Some(child) => {
                current = child;
            },
            None => {
                return None;
            },
        }
        i += 1;
    }
    proof {
        assert(names.subrange(i as int, names.len() as int).len() == 0);
    }
    Some(current)
}

/// What the store says of the synchronization of `inode`.
pub fn get_sync_state(db: &MetadataRepository, inode: u64) -> (status: SyncStatus)
    requires
        db.wf(),
    ensures
        status == status_of(db@, inode),
{
    match db.sync_state(inode) {
        Some((dirty, deleted_at)) => {
            if deleted_at.is_some() || dirty {
                SyncStatus::Pending
            } else {
                SyncStatus::Synced
            }
        },
        None => SyncStatus::Synced,
    }
}

/// The status of the file at `file_path`, which may be a file address, for
/// a filesystem mounted at `mount_point`.
pub fn get_file_status(db: &MetadataRepository, mount_point: &str, file_path: &str) -> (status:
    SyncStatus)
    requires
        db.wf(),
    ensures
        status == file_status_spec(db@, mount_point@, file_path@),
{
    proof {
        reveal_strlit("file://");
    }
    let path = if starts_with(file_path, "file://") {
        skip_chars(file_path, 7)
    } else {
        file_path
    };
    if !starts_with(path, mount_point) {
        return SyncStatus::Unknown;
    }
    let relative = skip_chars(path, mount_point.unicode_len());
    match resolve_path_to_inode(db, relative) {
        Some(inode) => get_sync_state(db, inode),
        None => SyncStatus::Unknown,
    }
}

/// The status server of one mount.
pub struct IpcServer {
    pub socket_path: String,
    pub mount_point: String,
}

impl IpcServer {
    /// A server that listens at `socket_path` for the filesystem mounted at
    /// `mount_point`.
    pub fn new(socket_path: String, mount_point: String) -> (server: Self)
        ensures
            server.socket_path == socket_path,
            server.mount_point == mount_point,
    {
        IpcServer { socket_path, mount_point }
    }

    /// The answer to a request: `Pong` to a `Ping`, and to a question about a
    /// file its status.
    pub fn handle_request(&self, db: &MetadataRepository, request: &IpcRequest) -> (response:
        IpcResponse)
        requires
            db.wf(),
        ensures
            match *request {
                IpcRequest::Ping => response is Pong,
                IpcRequest::GetFileStatus { path } => response == IpcResponse::FileStatus(
                    file_status_spec(db@, self.mount_point@, path@),
                ),
            },
    {
        match request {
            IpcRequest::Ping => IpcResponse::Pong,
            IpcRequest::GetFileStatus { path } => IpcResponse::FileStatus(
                get_file_status(db, self.mount_point.as_str(), path.as_str()),
            ),
        }
    }
}

} // verus!
